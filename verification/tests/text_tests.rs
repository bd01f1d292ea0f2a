use rorth::text::{chars_of, push_all, push_chars, space, spells, string_of};

#[test]
fn space_is_the_white_space_of_unicode() {
    for c in '\0'..=char::MAX {
        assert_eq!(space(c), c.is_whitespace(), "U+{:04X}", c as u32);
    }
}

#[test]
fn space_exact_values() {
    for c in [' ', '\t', '\n', '\u{b}', '\u{c}', '\r', '\u{85}', '\u{a0}', '\u{2003}', '\u{3000}'] {
        assert!(space(c));
    }
    for c in ['a', '0', '/', '\u{8}', '\u{e}', '\u{1c}', '\u{200b}', '\u{2060}', '\u{feff}'] {
        assert!(!space(c));
    }
}

#[test]
fn chars_of_gives_the_characters_in_order() {
    assert_eq!(chars_of(""), Vec::<char>::new());
    assert_eq!(chars_of("a/é\u{3000}ß\n"), vec!['a', '/', 'é', '\u{3000}', 'ß', '\n']);
}

#[test]
fn string_of_takes_a_range() {
    let v = chars_of("while dup");
    assert_eq!(string_of(&v, 0, 5), "while");
    assert_eq!(string_of(&v, 6, 9), "dup");
    assert_eq!(string_of(&v, 4, 4), "");
    assert_eq!(string_of(&v, 0, 9), "while dup");
}

#[test]
fn push_chars_appends() {
    let v = chars_of("0123456789");
    let mut s = String::from("n=");
    push_chars(&mut s, &v, 3, 6);
    assert_eq!(s, "n=345");
    push_all(&mut s, &v);
    assert_eq!(s, "n=3450123456789");
    push_chars(&mut s, &v, 10, 10);
    assert_eq!(s, "n=3450123456789");
}

#[test]
fn spells_compares_whole_words() {
    let v = chars_of("else");
    assert!(spells(&v, "else"));
    assert!(!spells(&v, "els"));
    assert!(!spells(&v, "elsee"));
    assert!(!spells(&v, "elsE"));
    assert!(!spells(&v, ""));
    assert!(spells(&Vec::new(), ""));
    assert!(!spells(&Vec::new(), "x"));
}
