//! The lexer: cuts a source text into its words.
//!
//! The text is read line by line; a line ends at a newline. What follows the
//! first `//` of a line is a comment. What stands before it is cut at white
//! space, and every word found is a token, numbered by its line and by its
//! place among the words of that line. A carriage return is white space, so
//! it makes no difference whether one stands before the newline.

use crate::text::{chars_of, is_space, space, string_of};
use crate::token::{Tok, Token};
use vstd::prelude::*;

verus! {

/// A comment starts at index `i` of `s`: two slashes.
pub open spec fn comment_at(s: Seq<char>, i: int) -> bool {
    0 <= i && i + 1 < s.len() && s[i] == '/' && s[i + 1] == '/'
}

/// The end of the line that index `i` is in: the index of the first newline
/// at or after `i`, or the length of `s` where there is none.
pub open spec fn line_end(s: Seq<char>, i: int) -> int
    decreases s.len() - i,
{
    if i < 0 || i >= s.len() || s[i] == '\n' {
        i
    } else {
        line_end(s, i + 1)
    }
}

/// The end of the code of a line, seen from index `i` in it: the index at
/// or after `i` where the comment of the line starts, or the end of the
/// line where it has none.
pub open spec fn code_end(s: Seq<char>, i: int) -> int
    decreases s.len() - i,
{
    if i < 0 || i >= s.len() || s[i] == '\n' || comment_at(s, i) {
        i
    } else {
        code_end(s, i + 1)
    }
}

/// The end of the word that starts at index `i`: the first index from `i`
/// on that holds white space, or `end` where there is none before it.
pub open spec fn word_end(s: Seq<char>, i: int, end: int) -> int
    decreases end - i,
{
    if i < 0 || i >= end || is_space(s[i]) {
        i
    } else {
        word_end(s, i + 1, end)
    }
}

/// The code of a line ends within the line, and the line within the text.
pub proof fn lemma_line_bounded(s: Seq<char>, i: int)
    requires
        0 <= i <= s.len(),
    ensures
        i <= code_end(s, i) <= line_end(s, i) <= s.len(),
        line_end(s, code_end(s, i)) == line_end(s, i),
    decreases s.len() - i,
{
    if i < s.len() && s[i] != '\n' {
        lemma_line_bounded(s, i + 1);
    }
}

/// A word ends within the stretch it is looked for in.
pub proof fn lemma_word_bounded(s: Seq<char>, i: int, end: int)
    requires
        0 <= i <= end,
    ensures
        i <= word_end(s, i, end) <= end,
    decreases end - i,
{
    if i < end && !is_space(s[i]) {
        lemma_word_bounded(s, i + 1, end);
    }
}

/// The words of `s[i..end]`, a stretch of code on line `row`, numbered from
/// `col` on.
pub open spec fn words(s: Seq<char>, i: int, end: int, row: nat, col: nat) -> Seq<Tok>
    decreases end - i,
{
    if i < 0 || i >= end {
        Seq::empty()
    } else if is_space(s[i]) {
        words(s, i + 1, end, row, col)
    } else {
        proof {
            lemma_word_bounded(s, i + 1, end);
        }
        let j = word_end(s, i, end);
        seq![Tok { text: s.subrange(i, j), row, col }] + words(s, j, end, row, col + 1)
    }
}

/// The tokens of the lines of `s` from index `i` on, where `i` is the start
/// of line `row`.
pub open spec fn lines(s: Seq<char>, i: int, row: nat) -> Seq<Tok>
    decreases s.len() - i,
{
    if i < 0 || i >= s.len() {
        Seq::empty()
    } else {
        proof {
            lemma_line_bounded(s, i);
        }
        let rest = if line_end(s, i) < s.len() {
            lines(s, line_end(s, i) + 1, row + 1)
        } else {
            Seq::empty()
        };
        words(s, i, code_end(s, i), row, 0) + rest
    }
}

/// The tokens of the source text `s`.
pub open spec fn tokenize(s: Seq<char>) -> Seq<Tok> {
    lines(s, 0, 0)
}

/// The texts of `tokens`, their positions forgotten.
pub open spec fn texts(tokens: Seq<Tok>) -> Seq<Seq<char>> {
    Seq::new(tokens.len(), |i: int| tokens[i].text)
}

/// The words `ws` written in one line, a single space between neighbours.
pub open spec fn joined(ws: Seq<Seq<char>>) -> Seq<char>
    decreases ws.len(),
{
    if ws.len() == 0 {
        Seq::empty()
    } else if ws.len() == 1 {
        ws[0]
    } else {
        ws[0] + seq![' '] + joined(ws.drop_first())
    }
}

/// What the text of a token is like: it is not empty, and it holds neither
/// white space nor the start of a comment.
pub open spec fn is_word(w: Seq<char>) -> bool {
    &&& w.len() > 0
    &&& forall|i: int| 0 <= i < w.len() ==> !is_space(#[trigger] w[i])
    &&& forall|i: int| 0 <= i < w.len() ==> !#[trigger] comment_at(w, i)
}

/// Each of `ws` is a word.
pub open spec fn all_words(ws: Seq<Seq<char>>) -> bool {
    forall|j: int| 0 <= j < ws.len() ==> is_word(#[trigger] ws[j])
}

/// No line of `s` ends and no comment starts in `s[i..end]`.
spec fn code_only(s: Seq<char>, i: int, end: int) -> bool {
    forall|k: int|
        #![trigger s[k]]
        #![trigger comment_at(s, k)]
        i <= k < end ==> s[k] != '\n' && !comment_at(s, k)
}

/// The code of a line holds no newline and no start of a comment.
proof fn lemma_code_end_is_code(s: Seq<char>, i: int)
    requires
        0 <= i <= s.len(),
    ensures
        code_only(s, i, code_end(s, i)),
    decreases s.len() - i,
{
    if i < s.len() && s[i] != '\n' && !comment_at(s, i) {
        lemma_code_end_is_code(s, i + 1);
    }
}

/// A stretch without newline and comment is code up to its end.
proof fn lemma_code_only_ends(s: Seq<char>, i: int)
    requires
        0 <= i <= s.len(),
        code_only(s, i, s.len() as int),
    ensures
        code_end(s, i) == s.len(),
        line_end(s, i) == s.len(),
    decreases s.len() - i,
{
    if i < s.len() {
        assert(!comment_at(s, i));
        lemma_code_only_ends(s, i + 1);
    }
}

/// A word holds no white space, and white space or the end of the stretch
/// follows it.
proof fn lemma_word_end_is_end(s: Seq<char>, i: int, end: int)
    requires
        0 <= i <= end <= s.len(),
    ensures
        forall|k: int| i <= k < word_end(s, i, end) ==> !is_space(#[trigger] s[k]),
        word_end(s, i, end) == end || is_space(s[word_end(s, i, end)]),
    decreases end - i,
{
    if i < end && !is_space(s[i]) {
        lemma_word_end_is_end(s, i + 1, end);
    }
}

/// Where `s[i..j]` holds no white space and white space or the end of the
/// stretch follows, the word that starts at `i` ends at `j`.
proof fn lemma_word_end_found(s: Seq<char>, i: int, j: int, end: int)
    requires
        0 <= i <= j <= end <= s.len(),
        forall|k: int| i <= k < j ==> !is_space(#[trigger] s[k]),
        j == end || is_space(s[j]),
    ensures
        word_end(s, i, end) == j,
    decreases j - i,
{
    if i < j {
        lemma_word_end_found(s, i + 1, j, end);
    }
}

/// The texts of two runs of tokens, one after the other.
proof fn lemma_texts_concat(a: Seq<Tok>, b: Seq<Tok>)
    ensures
        texts(a + b) == texts(a) + texts(b),
{
    assert(texts(a + b) =~= texts(a) + texts(b));
}

/// The tokens of a stretch of code are words.
proof fn lemma_words_are_words(s: Seq<char>, i: int, end: int, row: nat, col: nat)
    requires
        0 <= i <= end <= s.len(),
        code_only(s, i, end),
    ensures
        all_words(texts(words(s, i, end, row, col))),
    decreases end - i,
{
    if i >= end {
    } else if is_space(s[i]) {
        lemma_words_are_words(s, i + 1, end, row, col);
    } else {
        let j = word_end(s, i, end);
        lemma_word_bounded(s, i + 1, end);
        lemma_word_end_is_end(s, i, end);
        lemma_words_are_words(s, j, end, row, col + 1);
        let w = s.subrange(i, j);
        let head = seq![Tok { text: w, row, col }];
        let tail = words(s, j, end, row, col + 1);
        lemma_texts_concat(head, tail);
        assert forall|m: int| 0 <= m < w.len() implies !#[trigger] comment_at(w, m) by {
            if comment_at(w, m) {
                assert(w[m] == s[i + m] && w[m + 1] == s[i + m + 1]);
                assert(comment_at(s, i + m));
            }
        }
        assert forall|m: int| 0 <= m < w.len() implies !is_space(#[trigger] w[m]) by {
            assert(w[m] == s[i + m]);
        }
        assert(is_word(w));
        assert forall|m: int| 0 <= m < texts(head + tail).len() implies is_word(
            #[trigger] texts(head + tail)[m],
        ) by {
            if m > 0 {
                assert(texts(head + tail)[m] == texts(tail)[m - 1]);
            }
        }
    }
}

/// The tokens of a text are words.
proof fn lemma_lines_are_words(s: Seq<char>, i: int, row: nat)
    requires
        0 <= i <= s.len(),
    ensures
        all_words(texts(lines(s, i, row))),
    decreases s.len() - i,
{
    if i < s.len() {
        lemma_line_bounded(s, i);
        lemma_code_end_is_code(s, i);
        let head = words(s, i, code_end(s, i), row, 0);
        lemma_words_are_words(s, i, code_end(s, i), row, 0);
        let tail = if line_end(s, i) < s.len() {
            lines(s, line_end(s, i) + 1, row + 1)
        } else {
            Seq::empty()
        };
        if line_end(s, i) < s.len() {
            lemma_lines_are_words(s, line_end(s, i) + 1, row + 1);
        }
        lemma_texts_concat(head, tail);
        assert forall|m: int| 0 <= m < texts(head + tail).len() implies is_word(
            #[trigger] texts(head + tail)[m],
        ) by {
            if m < head.len() {
                assert(texts(head + tail)[m] == texts(head)[m]);
            } else {
                assert(texts(head + tail)[m] == texts(tail)[m - head.len()]);
            }
        }
    }
}

/// Words joined by single spaces make one line of code.
proof fn lemma_joined_is_code(ws: Seq<Seq<char>>)
    requires
        all_words(ws),
    ensures
        code_only(joined(ws), 0, joined(ws).len() as int),
        ws.len() > 0 ==> joined(ws).len() > 0 && !is_space(joined(ws)[0]),
    decreases ws.len(),
{
    let t = joined(ws);
    if ws.len() == 0 {
    } else if ws.len() == 1 {
        let w = ws[0];
        assert(is_word(w));
        assert forall|k: int|
            #![trigger t[k]]
            #![trigger comment_at(t, k)]
            0 <= k < t.len() implies t[k] != '\n' && !comment_at(t, k) by {
            assert(!is_space(w[k]));
        }
    } else {
        let w = ws[0];
        let rest = joined(ws.drop_first());
        assert(is_word(w));
        assert forall|j: int| 0 <= j < ws.drop_first().len() implies is_word(
            #[trigger] ws.drop_first()[j],
        ) by {
            assert(ws.drop_first()[j] == ws[j + 1]);
        }
        lemma_joined_is_code(ws.drop_first());
        let n = w.len() as int;
        assert(!is_space(w[0]));
        assert forall|k: int|
            #![trigger t[k]]
            #![trigger comment_at(t, k)]
            0 <= k < t.len() implies t[k] != '\n' && !comment_at(t, k) by {
            if k < n {
                assert(t[k] == w[k]);
                assert(!is_space(w[k]));
                if k + 1 < n {
                    assert(t[k + 1] == w[k + 1]);
                    assert(!comment_at(w, k));
                } else {
                    assert(t[k + 1] == ' ');
                }
            } else if k == n {
                assert(t[k] == ' ');
            } else {
                assert(t[k] == rest[k - n - 1]);
                assert(!comment_at(rest, k - n - 1));
                if k + 1 < t.len() {
                    assert(t[k + 1] == rest[k - n]);
                }
            }
        }
    }
}

/// Behind any text `pre`, the words of `pre + joined(ws)` from the end of
/// `pre` on are `ws`.
proof fn lemma_words_of_joined(pre: Seq<char>, ws: Seq<Seq<char>>, row: nat, col: nat)
    requires
        all_words(ws),
    ensures
        texts(words(pre + joined(ws), pre.len() as int, (pre + joined(ws)).len() as int, row, col))
            == ws,
    decreases ws.len(),
{
    let t = pre + joined(ws);
    let i = pre.len() as int;
    let end = t.len() as int;
    if ws.len() == 0 {
        assert(texts(words(t, i, end, row, col)) =~= ws);
    } else {
        let w = ws[0];
        let j = i + w.len();
        assert(is_word(w));
        assert forall|k: int| i <= k < j implies !is_space(#[trigger] t[k]) by {
            assert(t[k] == w[k - i]);
        }
        assert(t[i] == w[0]);
        if ws.len() == 1 {
            lemma_word_end_found(t, i, j, end);
            assert(t.subrange(i, j) =~= w);
            assert(words(t, j, end, row, col + 1) =~= Seq::<Tok>::empty());
            let head = seq![Tok { text: w, row, col }];
            assert(words(t, i, end, row, col) =~= head);
            assert(texts(head) =~= ws);
        } else {
            let rest = ws.drop_first();
            assert forall|m: int| 0 <= m < rest.len() implies is_word(#[trigger] rest[m]) by {
                assert(rest[m] == ws[m + 1]);
            }
            assert(t[j] == ' ');
            lemma_word_end_found(t, i, j, end);
            assert(t.subrange(i, j) =~= w);
            let pre2 = pre + w + seq![' '];
            assert(t =~= pre2 + joined(rest));
            lemma_words_of_joined(pre2, rest, row, col + 1);
            let head = seq![Tok { text: w, row, col }];
            let tail = words(t, j + 1, end, row, col + 1);
            assert(words(t, j, end, row, col + 1) == tail);
            lemma_texts_concat(head, tail);
            assert(texts(head) + rest =~= ws);
        }
    }
}

/// The tokens of a text, written in one line with single spaces between
/// them and cut again, are the same words.
pub proof fn lemma_retokenize(s: Seq<char>)
    ensures
        texts(tokenize(joined(texts(tokenize(s))))) == texts(tokenize(s)),
{
    let ws = texts(tokenize(s));
    lemma_lines_are_words(s, 0, 0);
    lemma_joined_words(ws);
}

/// Words written in one line with single spaces between them are cut into
/// the same words.
pub proof fn lemma_joined_words(ws: Seq<Seq<char>>)
    requires
        all_words(ws),
    ensures
        texts(tokenize(joined(ws))) == ws,
{
    let t = joined(ws);
    lemma_joined_is_code(ws);
    if t.len() == 0 {
        assert(texts(tokenize(t)) =~= ws);
    } else {
        lemma_code_only_ends(t, 0);
        let empty = Seq::<char>::empty();
        assert(empty + t =~= t);
        lemma_words_of_joined(empty, ws, 0, 0);
        assert(tokenize(t) =~= words(t, 0, t.len() as int, 0, 0));
    }
}

/// Finds [`code_end`].
fn find_code_end(text: &Vec<char>, start: usize) -> (end: usize)
    requires
        start <= text.len(),
    ensures
        end == code_end(text@, start as int),
        start <= end <= text.len(),
{
    let n: usize = text.len();
    let mut i: usize = start;
    while i < n && text[i] != '\n' && !(text[i] == '/' && i + 1 < n && text[i + 1] == '/')
        invariant
            start <= i <= n,
            n == text.len(),
            code_end(text@, i as int) == code_end(text@, start as int),
        decreases n - i,
    {
        i += 1;
    }
    i
}

/// Finds [`line_end`].
fn find_line_end(text: &Vec<char>, start: usize) -> (end: usize)
    requires
        start <= text.len(),
    ensures
        end == line_end(text@, start as int),
        start <= end <= text.len(),
{
    let n: usize = text.len();
    let mut i: usize = start;
    while i < n && text[i] != '\n'
        invariant
            start <= i <= n,
            n == text.len(),
            line_end(text@, i as int) == line_end(text@, start as int),
        decreases n - i,
    {
        i += 1;
    }
    i
}

/// Finds [`word_end`].
fn find_word_end(text: &Vec<char>, start: usize, limit: usize) -> (end: usize)
    requires
        start <= limit <= text.len(),
    ensures
        end == word_end(text@, start as int, limit as int),
        start <= end <= limit,
{
    let mut i: usize = start;
    while i < limit && !space(text[i])
        invariant
            start <= i <= limit <= text.len(),
            word_end(text@, i as int, limit as int) == word_end(
                text@,
                start as int,
                limit as int,
            ),
        decreases limit - i,
    {
        i += 1;
    }
    i
}

/// Appends the words of `text[start..end]` to `tokens`.
fn scan_words(tokens: &mut Vec<Token>, text: &Vec<char>, start: usize, end: usize, row: usize)
    requires
        start <= end <= text.len(),
    ensures
        final(tokens).deep_view() == old(tokens).deep_view() + words(
            text@,
            start as int,
            end as int,
            row as nat,
            0,
        ),
{
    let mut i: usize = start;
    let mut col: usize = 0;
    assert(tokens.deep_view() + Seq::<Tok>::empty() =~= tokens.deep_view());
    while i < end
        invariant
            start <= i <= end <= text.len(),
            col <= i - start,
            tokens.deep_view() + words(text@, i as int, end as int, row as nat, col as nat) == old(
                tokens,
            ).deep_view() + words(text@, start as int, end as int, row as nat, 0),
        decreases end - i,
    {
        if space(text[i]) {
            i += 1;
        } else {
            let j: usize = find_word_end(text, i, end);
            let ghost before = tokens.deep_view();
            let token = Token::new(string_of(text, i, j), row, col);
            proof {
                lemma_word_bounded(text@, i as int + 1, end as int);
            }
            tokens.push(token);
            assert(tokens.deep_view() =~= before.push(token@));
            assert(before.push(token@) + words(
                text@,
                j as int,
                end as int,
                row as nat,
                (col + 1) as nat,
            ) =~= before + words(text@, i as int, end as int, row as nat, col as nat));
            i = j;
            col += 1;
        }
    }
    assert(tokens.deep_view() + Seq::<Tok>::empty() =~= tokens.deep_view());
}

/// Cuts `source` into its tokens.
pub fn lexer(source: &str) -> (tokens: Vec<Token>)
    ensures
        tokens.deep_view() == tokenize(source@),
{
    let text = chars_of(source);
    let n: usize = text.len();
    let mut tokens: Vec<Token> = Vec::new();
    let mut start: usize = 0;
    let mut row: usize = 0;
    assert(tokens.deep_view() =~= Seq::<Tok>::empty());
    assert(Seq::<Tok>::empty() + tokenize(text@) =~= tokenize(text@));
    while start < n
        invariant
            n == text.len(),
            text@ == source@,
            row <= start,
            tokens.deep_view() + lines(text@, start as int, row as nat) == tokenize(text@),
        decreases n - start,
    {
        let code: usize = find_code_end(&text, start);
        let end: usize = find_line_end(&text, code);
        let ghost before = tokens.deep_view();
        proof {
            lemma_line_bounded(text@, start as int);
        }
        scan_words(&mut tokens, &text, start, code, row);
        if end == n {
            assert(tokens.deep_view() =~= before + lines(text@, start as int, row as nat));
            return tokens;
        }
        assert(tokens.deep_view() + lines(text@, end as int + 1, (row + 1) as nat) =~= before
            + lines(text@, start as int, row as nat));
        start = end + 1;
        row += 1;
    }
    assert(tokens.deep_view() + Seq::<Tok>::empty() =~= tokens.deep_view());
    tokens
}

} // verus!
