use rorth::codegen::{codegen, EPILOGUE, PRELUDE};
use rorth::decimal::parse_literal;
use rorth::instruction::{Instruction, Opcode};
use rorth::lexer::lexer;
use rorth::parser::parser;

fn program_of(source: &str) -> Vec<Instruction> {
    parser(&lexer(source)).unwrap()
}

fn prelude() -> String {
    let lines = [
        "%define SYS_EXIT 60",
        "%define SYS_WRITE 1",
        "section .text",
        "dump:",
        "    sub     rsp, 40",
        "    mov     rsi, rdi",
        "    mov  r10, -3689348814741910323",
        "    mov     BYTE [rsp+20], 10",
        "    lea     rcx, [rsp+19]",
        "    lea     r8, [rsp+21]",
        ".L2:",
        "    mov     rax, rsi",
        "    mov     r9, r8",
        "    mul     r10",
        "    mov     rax, rsi",
        "    sub     r9, rcx",
        "    shr     rdx, 3",
        "    lea     rdi, [rdx+rdx*4]",
        "    add     rdi, rdi",
        "    sub     rax, rdi",
        "    add     eax, 48",
        "    mov     BYTE [rcx], al",
        "    mov     rax, rsi",
        "    mov     rsi, rdx",
        "    mov     rdx, rcx",
        "    sub     rcx, 1",
        "    cmp     rax, 9",
        "    ja      .L2",
        "    sub     rdx, r8",
        "    mov     edi, 1",
        "    lea     rsi, [rsp+21+rdx]",
        "    mov     rdx, r9",
        "    mov     rax, SYS_WRITE",
        "    syscall",
        "    add     rsp, 40",
        "    ret",
        "global _start",
        "_start:",
    ];
    let mut text = String::new();
    for line in lines {
        text.push_str(line);
        text.push('\n');
    }
    text
}

fn epilogue() -> &'static str {
    ".end:\n    mov rax, SYS_EXIT\n    mov rdi, 0\n    syscall\n    ret\n"
}

/// The text between prelude and epilogue.
fn body_of(source: &str) -> String {
    let text = codegen(&program_of(source));
    let text = text.strip_prefix(prelude().as_str()).unwrap();
    text.strip_suffix(epilogue()).unwrap().to_string()
}

#[test]
fn codegen_of_nothing_is_prelude_and_epilogue() {
    assert_eq!(codegen(&Vec::new()), format!("{}{}", prelude(), epilogue()));
    assert_eq!(PRELUDE, prelude());
    assert_eq!(EPILOGUE, epilogue());
}

#[test]
fn codegen_prelude_holds_the_dump_routine() {
    let text = codegen(&Vec::new());
    assert!(text.starts_with("%define SYS_EXIT 60\n%define SYS_WRITE 1\nsection .text\ndump:\n    sub     rsp, 40\n"));
    assert!(text.contains("    mov  r10, -3689348814741910323\n"));
    assert!(text.contains("    ret\nglobal _start\n_start:\n.end:\n"));
    assert_eq!(text.lines().count(), 38 + 5);
}

#[test]
fn codegen_sum() {
    assert_eq!(
        codegen(&program_of("34 35 + .")),
        format!(
            "{}{}{}",
            prelude(),
            ".addr_0: ;; OP_PUSH\n    push 34\n\
             .addr_1: ;; OP_PUSH\n    push 35\n\
             .addr_2: ;; OP_ADD\n    pop rax\n    pop rbx\n    add rax, rbx\n    push rax\n\
             .addr_3: ;; OP_DUMP\n    pop rdi\n    call dump\n",
            epilogue()
        )
    );
}

#[test]
fn codegen_arithmetic() {
    assert_eq!(
        body_of("- * / ! dup"),
        ".addr_0: ;; OP_SUB\n    pop rax\n    pop rbx\n    sub rbx, rax\n    push rbx\n\
         .addr_1: ;; OP_MUL\n    pop rax\n    pop rbx\n    mul rbx\n    push rax\n\
         .addr_2: ;; OP_DIV\n    xor rdx, rdx\n    pop rbx\n    pop rax\n    div rbx\n    push rax\n    push rdx\n\
         .addr_3: ;; OP_NOT\n    pop rax\n    not rax\n    push rax\n\
         .addr_4: ;; OP_DUP\n    pop rax\n    push rax\n    push rax\n"
    );
}

#[test]
fn codegen_comparisons() {
    let head = "    mov rcx, 0\n    mov rdx, 1\n";
    let top_first = "    pop rax\n    pop rbx\n    cmp rax, rbx\n";
    let top_second = "    pop rbx\n    pop rax\n    cmp rax, rbx\n";
    let expected = [
        (".addr_0: ;; OP_EQ\n", top_first, "    cmove rcx, rdx\n"),
        (".addr_1: ;; OP_NE\n", top_first, "    cmovne rcx, rdx\n"),
        (".addr_2: ;; OP_GT\n", top_second, "    cmovg rcx, rdx\n"),
        (".addr_3: ;; OP_GE\n", top_second, "    cmovge rcx, rdx\n"),
        (".addr_4: ;; OP_LT\n", top_second, "    cmovl rcx, rdx\n"),
        (".addr_5: ;; OP_LE\n", top_second, "    cmovle rcx, rdx\n"),
    ];
    let mut text = String::new();
    for (label, pops, mov) in expected {
        text.push_str(label);
        text.push_str(head);
        text.push_str(pops);
        text.push_str(mov);
        text.push_str("    push rcx\n");
    }
    assert_eq!(body_of("= != > >= < <="), text);
}

#[test]
fn codegen_if_jumps_behind_its_partner() {
    assert_eq!(
        body_of("0 if 7 else 42 end 1"),
        ".addr_0: ;; OP_PUSH\n    push 0\n\
         .addr_1: ;; OP_IF\n    pop rax\n    test rax, rax\n    jz .addr_4\n\
         .addr_2: ;; OP_PUSH\n    push 7\n\
         .addr_3: ;; OP_ELSE\n    jmp .addr_6\n\
         .addr_4: ;; OP_PUSH\n    push 42\n\
         .addr_6: ;; OP_PUSH\n    push 1\n"
    );
}

#[test]
fn codegen_end_of_an_if_emits_nothing() {
    assert_eq!(
        body_of("1 if end"),
        ".addr_0: ;; OP_PUSH\n    push 1\n\
         .addr_1: ;; OP_IF\n    pop rax\n    test rax, rax\n    jz .addr_3\n"
    );
}

#[test]
fn codegen_loop_jumps_back_to_its_while() {
    assert_eq!(
        body_of("1 while dup do end ."),
        ".addr_0: ;; OP_PUSH\n    push 1\n\
         .addr_1: ;; OP_WHILE\n\
         .addr_2: ;; OP_DUP\n    pop rax\n    push rax\n    push rax\n\
         .addr_3: ;; OP_DO\n    pop rax\n    test rax, rax\n    jz .addr_5\n\
         .addr_4: ;; OP_END\n    jmp .addr_1\n\
         .addr_5: ;; OP_DUMP\n    pop rdi\n    call dump\n"
    );
}

#[test]
fn codegen_not_is_bitwise() {
    assert_eq!(
        body_of("1 !"),
        ".addr_0: ;; OP_PUSH\n    push 1\n.addr_1: ;; OP_NOT\n    pop rax\n    not rax\n    push rax\n"
    );
}

#[test]
fn codegen_labels_count_past_nine() {
    let body = body_of("1 2 3 4 5 6 7 8 9 10 11 12");
    assert!(body.contains(".addr_9: ;; OP_PUSH\n    push 10\n.addr_10: ;; OP_PUSH\n    push 11\n"));
    assert!(body.ends_with(".addr_11: ;; OP_PUSH\n    push 12\n"));
}

#[test]
fn codegen_writes_literals_as_they_read() {
    for v in [0i64, 7, -7, 1234567890123, i64::MAX, i64::MIN] {
        let program = vec![Instruction::new(Opcode::OP_PUSH, vec![v], 0)];
        let text = codegen(&program);
        let text = text.strip_prefix(prelude().as_str()).unwrap();
        let text = text.strip_suffix(epilogue()).unwrap();
        let number = text.strip_prefix(".addr_0: ;; OP_PUSH\n    push ").unwrap();
        let number = number.strip_suffix("\n").unwrap();
        assert_eq!(number, v.to_string());
        let digits: Vec<char> = number.chars().collect();
        assert_eq!(parse_literal(&digits), Some(v));
    }
}

#[test]
fn codegen_of_the_comparisons_program() {
    let text = codegen(&program_of("1 1 = .\n1 2 = .\n2 1 > .\n1 2 < .\n"));
    assert!(text.starts_with(prelude().as_str()));
    assert!(text.ends_with(epilogue()));
    assert_eq!(text.matches("    call dump\n").count(), 4);
    assert_eq!(text.matches("    cmove rcx, rdx\n").count(), 2);
    assert_eq!(text.matches("    cmovg rcx, rdx\n").count(), 1);
    assert_eq!(text.matches("    cmovl rcx, rdx\n").count(), 1);
    for k in 0..16 {
        assert!(text.contains(&format!(".addr_{}: ;; OP_", k)));
    }
    assert!(!text.contains(".addr_16:"));
}
