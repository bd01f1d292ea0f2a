use rorth::instruction::{is_resolved, Instruction, Opcode};
use rorth::lexer::lexer;
use rorth::parser::{parser, ParseError, ParseErrorKind};
use rorth::token::Token;

fn parsed(source: &str) -> Vec<Instruction> {
    parser(&lexer(source)).unwrap()
}

fn refused(source: &str) -> ParseError {
    parser(&lexer(source)).unwrap_err()
}

fn shape(program: &Vec<Instruction>) -> Vec<(Opcode, Vec<i64>, usize)> {
    program.iter().map(|i| (i.opcode, i.operands.clone(), i.ip)).collect()
}

#[test]
fn parse_push() {
    let tokens: Vec<Token> = vec![Token::new(String::from("2"), 0, 0)];
    let program = parser(&tokens).unwrap();
    assert_eq!(program[0].opcode, Opcode::OP_PUSH);
}

#[test]
fn parse_add() {
    let tokens: Vec<Token> = vec![Token::new(String::from("+"), 0, 0)];
    let program = parser(&tokens).unwrap();
    assert_eq!(program[0].opcode, Opcode::OP_ADD);
}

#[test]
fn instruction_new_keeps_its_fields() {
    let ins = Instruction::new(Opcode::OP_DO, vec![4, 5], 9);
    assert_eq!(ins.opcode, Opcode::OP_DO);
    assert_eq!(ins.operands, vec![4, 5]);
    assert_eq!(ins.ip, 9);
}

#[test]
fn parse_nothing() {
    assert!(parsed("").is_empty());
}

#[test]
fn parse_every_word_of_the_language() {
    let program = parsed("+ - * / ! = != > >= < <= . dup while");
    let ops: Vec<Opcode> = program.iter().map(|i| i.opcode).collect();
    assert_eq!(
        ops,
        vec![
            Opcode::OP_ADD,
            Opcode::OP_SUB,
            Opcode::OP_MUL,
            Opcode::OP_DIV,
            Opcode::OP_NOT,
            Opcode::OP_EQ,
            Opcode::OP_NE,
            Opcode::OP_GT,
            Opcode::OP_GE,
            Opcode::OP_LT,
            Opcode::OP_LE,
            Opcode::OP_DUMP,
            Opcode::OP_DUP,
            Opcode::OP_WHILE,
        ]
    );
    for (k, ins) in program.iter().enumerate() {
        assert_eq!(ins.ip, k);
        assert!(ins.operands.is_empty());
    }
}

#[test]
fn parse_words_are_case_sensitive() {
    let e = refused("1 IF 2 end");
    assert_eq!(e.kind, ParseErrorKind::ExpectedInteger);
    assert_eq!(e.ip, 1);
    assert_eq!(refused("Dup").kind, ParseErrorKind::ExpectedInteger);
}

#[test]
fn parse_literals_keep_their_value() {
    let program = parsed("0 -7 +12 0042 9223372036854775807 -9223372036854775808");
    assert_eq!(
        shape(&program),
        vec![
            (Opcode::OP_PUSH, vec![0], 0),
            (Opcode::OP_PUSH, vec![-7], 1),
            (Opcode::OP_PUSH, vec![12], 2),
            (Opcode::OP_PUSH, vec![42], 3),
            (Opcode::OP_PUSH, vec![i64::MAX], 4),
            (Opcode::OP_PUSH, vec![i64::MIN], 5),
        ]
    );
}

#[test]
fn parse_links_if_end() {
    let program = parsed("1 if 42 . end");
    assert_eq!(
        shape(&program),
        vec![
            (Opcode::OP_PUSH, vec![1], 0),
            (Opcode::OP_IF, vec![4], 1),
            (Opcode::OP_PUSH, vec![42], 2),
            (Opcode::OP_DUMP, vec![], 3),
            (Opcode::OP_END, vec![], 4),
        ]
    );
    assert!(is_resolved(&program));
}

#[test]
fn parse_links_if_else_end() {
    let program = parsed("0 if 7 . else 42 . end");
    assert_eq!(
        shape(&program),
        vec![
            (Opcode::OP_PUSH, vec![0], 0),
            (Opcode::OP_IF, vec![4], 1),
            (Opcode::OP_PUSH, vec![7], 2),
            (Opcode::OP_DUMP, vec![], 3),
            (Opcode::OP_ELSE, vec![7], 4),
            (Opcode::OP_PUSH, vec![42], 5),
            (Opcode::OP_DUMP, vec![], 6),
            (Opcode::OP_END, vec![], 7),
        ]
    );
    assert!(is_resolved(&program));
}

#[test]
fn parse_links_while_do_end() {
    let program = parsed("10 while dup 0 > do dup . 1 - end 420 .");
    assert_eq!(
        shape(&program),
        vec![
            (Opcode::OP_PUSH, vec![10], 0),
            (Opcode::OP_WHILE, vec![], 1),
            (Opcode::OP_DUP, vec![], 2),
            (Opcode::OP_PUSH, vec![0], 3),
            (Opcode::OP_GT, vec![], 4),
            (Opcode::OP_DO, vec![10], 5),
            (Opcode::OP_DUP, vec![], 6),
            (Opcode::OP_DUMP, vec![], 7),
            (Opcode::OP_PUSH, vec![1], 8),
            (Opcode::OP_SUB, vec![], 9),
            (Opcode::OP_END, vec![1], 10),
            (Opcode::OP_PUSH, vec![420], 11),
            (Opcode::OP_DUMP, vec![], 12),
        ]
    );
    assert!(is_resolved(&program));
}

#[test]
fn parse_links_nested_blocks() {
    let program = parsed("while 1 do 1 if while 0 do end else 2 if end end end");
    let operands: Vec<Vec<i64>> = program.iter().map(|i| i.operands.clone()).collect();
    let expected: Vec<Vec<i64>> = vec![
        vec![],
        vec![1],
        vec![14],
        vec![1],
        vec![9],
        vec![],
        vec![0],
        vec![8],
        vec![5],
        vec![13],
        vec![2],
        vec![12],
        vec![],
        vec![],
        vec![0],
    ];
    assert_eq!(operands, expected);
    assert!(is_resolved(&program));
}

#[test]
fn parsed_jumps_land_on_their_partners() {
    let program = parsed("1 if 2 else 3 end while 4 do 5 if 6 end end 7 if while 0 do end end");
    assert!(is_resolved(&program));
    for (k, ins) in program.iter().enumerate() {
        assert_eq!(ins.ip, k);
        match ins.opcode {
            Opcode::OP_PUSH => assert_eq!(ins.operands.len(), 1),
            Opcode::OP_IF => {
                assert_eq!(ins.operands.len(), 1);
                let t = program[ins.operands[0] as usize].opcode;
                assert!(t == Opcode::OP_ELSE || t == Opcode::OP_END);
            }
            Opcode::OP_ELSE | Opcode::OP_DO => {
                assert_eq!(ins.operands.len(), 1);
                assert_eq!(program[ins.operands[0] as usize].opcode, Opcode::OP_END);
            }
            Opcode::OP_END => {
                assert!(ins.operands.len() <= 1);
                if ins.operands.len() == 1 {
                    assert_eq!(program[ins.operands[0] as usize].opcode, Opcode::OP_WHILE);
                }
            }
            _ => assert!(ins.operands.is_empty()),
        }
    }
}

#[test]
fn parse_leaves_an_open_if_without_target() {
    let program = parsed("1 if 42 .");
    assert_eq!(program.len(), 4);
    assert_eq!(program[1].opcode, Opcode::OP_IF);
    assert!(program[1].operands.is_empty());
    assert!(!is_resolved(&program));
}

#[test]
fn parse_leaves_an_open_else_and_do_as_they_are() {
    let program = parsed("1 if 2 else 3");
    assert_eq!(program[1].operands, vec![3]);
    assert!(program[3].operands.is_empty());
    assert!(!is_resolved(&program));
    let program = parsed("while 1 do 2");
    assert_eq!(program[2].operands, vec![0]);
    assert!(!is_resolved(&program));
}

#[test]
fn parse_error_expected_integer() {
    let e = refused("1 2\n3 hello 4");
    assert_eq!(e, ParseError { kind: ParseErrorKind::ExpectedInteger, row: 1, col: 1, ip: 3 });
    assert_eq!(refused("9223372036854775808").kind, ParseErrorKind::ExpectedInteger);
    assert_eq!(refused("1.5").kind, ParseErrorKind::ExpectedInteger);
}

#[test]
fn parse_error_else_without_if() {
    assert_eq!(
        refused("1 else 2 end"),
        ParseError { kind: ParseErrorKind::ElseWithoutIf, row: 0, col: 1, ip: 1 }
    );
    assert_eq!(refused("while else").kind, ParseErrorKind::ElseWithoutIf);
    assert_eq!(refused("1 if 2 else 3 else 4 end").kind, ParseErrorKind::ElseWithoutIf);
    assert_eq!(refused("1 if 2 else 3 else 4 end").ip, 5);
}

#[test]
fn parse_error_do_without_while() {
    assert_eq!(
        refused("1\ndo 2 end"),
        ParseError { kind: ParseErrorKind::DoWithoutWhile, row: 1, col: 0, ip: 1 }
    );
    assert_eq!(refused("1 if do").kind, ParseErrorKind::DoWithoutWhile);
    assert_eq!(refused("while 1 do 2 do").kind, ParseErrorKind::DoWithoutWhile);
}

#[test]
fn parse_error_while_without_do() {
    assert_eq!(
        refused("while 1 end"),
        ParseError { kind: ParseErrorKind::WhileWithoutDo, row: 0, col: 2, ip: 2 }
    );
}

#[test]
fn parse_error_end_without_opener() {
    assert_eq!(
        refused("1 2 +\n\nend"),
        ParseError { kind: ParseErrorKind::EndWithoutOpener, row: 2, col: 0, ip: 3 }
    );
    assert_eq!(refused("1 if end end").ip, 3);
}

#[test]
fn parse_reports_the_first_error() {
    let e = refused("end bogus else");
    assert_eq!(e.kind, ParseErrorKind::EndWithoutOpener);
    assert_eq!(e.ip, 0);
}

#[test]
fn parse_diagnostics_name_file_line_word_and_instruction() {
    let tokens = lexer("1 2\n3 hello 4");
    let e = parser(&tokens).unwrap_err();
    assert_eq!(
        e.diagnostic("prog.rorth", &tokens[e.ip].tok),
        "[ERROR] prog.rorth:2:2: @ip 3: Expected integer, got hello"
    );
    let e = ParseError { kind: ParseErrorKind::ElseWithoutIf, row: 0, col: 1, ip: 1 };
    assert_eq!(e.diagnostic("a", "else"), "[ERROR] a:1:2: @ip 1: Found `else` without matching `if`");
    let e = ParseError { kind: ParseErrorKind::DoWithoutWhile, row: 9, col: 99, ip: 1000 };
    assert_eq!(
        e.diagnostic("", "do"),
        "[ERROR] :10:100: @ip 1000: Found `while` without matching `do`"
    );
    let e = ParseError { kind: ParseErrorKind::WhileWithoutDo, row: 0, col: 0, ip: 0 };
    assert_eq!(e.diagnostic("f", "end"), "[ERROR] f:1:1: @ip 0: Found `while` without matching `do`");
    let e = ParseError { kind: ParseErrorKind::EndWithoutOpener, row: usize::MAX, col: 0, ip: 2 };
    assert_eq!(
        e.diagnostic("f", "end"),
        format!(
            "[ERROR] f:{}:1: @ip 2: Found `end` without matching `if-else` or `while-do`",
            usize::MAX as u128 + 1
        )
    );
}

#[test]
fn is_resolved_checks_counts_and_targets() {
    let ok = vec![
        Instruction::new(Opcode::OP_PUSH, vec![1], 0),
        Instruction::new(Opcode::OP_IF, vec![2], 1),
        Instruction::new(Opcode::OP_END, vec![], 2),
    ];
    assert!(is_resolved(&ok));
    assert!(is_resolved(&Vec::new()));
    let wrong_ip = vec![Instruction::new(Opcode::OP_ADD, vec![], 1)];
    assert!(!is_resolved(&wrong_ip));
    let push_without_value = vec![Instruction::new(Opcode::OP_PUSH, vec![], 0)];
    assert!(!is_resolved(&push_without_value));
    let add_with_operand = vec![Instruction::new(Opcode::OP_ADD, vec![1], 0)];
    assert!(!is_resolved(&add_with_operand));
    let target_out_of_range = vec![Instruction::new(Opcode::OP_ELSE, vec![1], 0)];
    assert!(!is_resolved(&target_out_of_range));
    let negative_target = vec![
        Instruction::new(Opcode::OP_IF, vec![-1], 0),
        Instruction::new(Opcode::OP_END, vec![], 1),
    ];
    assert!(!is_resolved(&negative_target));
    let if_to_a_loop_end = vec![
        Instruction::new(Opcode::OP_WHILE, vec![], 0),
        Instruction::new(Opcode::OP_IF, vec![2], 1),
        Instruction::new(Opcode::OP_END, vec![0], 2),
    ];
    assert!(!is_resolved(&if_to_a_loop_end));
    let end_to_no_while = vec![
        Instruction::new(Opcode::OP_DUP, vec![], 0),
        Instruction::new(Opcode::OP_END, vec![0], 1),
    ];
    assert!(!is_resolved(&end_to_no_while));
}
