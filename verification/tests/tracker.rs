use fikra::emit::{AsmBuilder, Directive, Instr, PushSrc, Reg};
use fikra::errors::{GeneratorError, ParseError};
use fikra::stack::{Stack, Var};

#[test]
fn tracker_counts_pushes_and_pops() {
    let mut s = Stack::new();
    assert_eq!(s.current_size(), 0);
    let i1 = s.push(PushSrc::Reg(Reg::Rax));
    assert_eq!(i1, Instr::Push(PushSrc::Reg(Reg::Rax)));
    assert_eq!(s.current_size(), 1);
    let i2 = s.pop(Reg::Rbx);
    assert_eq!(i2, Instr::Pop(Reg::Rbx));
    assert_eq!(s.current_size(), 0);
}

#[test]
fn tracker_pop_saturates_at_zero() {
    let mut s = Stack::new();
    let _ = s.pop(Reg::Rax);
    assert_eq!(s.current_size(), 0);
}

#[test]
fn tracker_finds_declared_names() {
    let mut s = Stack::new();
    s.map_variables
        .push(("a".to_string(), Var { stack_loc: 0 }));
    let _ = s.push(PushSrc::Reg(Reg::Rax));
    assert_eq!(s.find_var(&"a".to_string()), Some(0));
    assert_eq!(s.find_var(&"b".to_string()), None);
}

#[test]
fn scope_exit_discards_inner_bindings_and_frees_slots() {
    let mut out = AsmBuilder::new();
    let mut s = Stack::new();
    s.map_variables
        .push(("outer".to_string(), Var { stack_loc: 0 }));
    let _ = s.push(PushSrc::Reg(Reg::Rax));
    s.begin_scope();
    s.map_variables
        .push(("inner".to_string(), Var { stack_loc: 1 }));
    let _ = s.push(PushSrc::Reg(Reg::Rax));
    s.end_scope(&mut out);
    assert_eq!(s.current_size(), 1);
    assert_eq!(s.find_var(&"outer".to_string()), Some(0));
    assert_eq!(s.find_var(&"inner".to_string()), None);
    assert!(out.build().contains("add rsp, 8"));
}

#[test]
fn scope_exit_without_open_scope_changes_nothing() {
    let mut out = AsmBuilder::new();
    let mut s = Stack::new();
    let _ = s.push(PushSrc::Reg(Reg::Rax));
    s.end_scope(&mut out);
    assert_eq!(s.current_size(), 1);
    assert_eq!(out.build(), "global _start\n_start:\n");
}

#[test]
fn builder_renders_directives_and_instructions() {
    let mut b = AsmBuilder::new();
    assert_eq!(
        b.directives,
        vec![Directive::GlobalStart, Directive::StartLabel]
    );
    b.add_instruction(Instr::MovImm(Reg::Rax, 60));
    b.add_instruction(Instr::Push(PushSrc::Mem(16)));
    b.add_instruction(Instr::AddRsp(24));
    b.add_instruction(Instr::Syscall);
    assert_eq!(
        b.build(),
        "global _start\n_start:\n    mov rax, 60\n    push QWORD [rsp + 16]\n    add rsp, 24\n    syscall\n"
    );
}

#[test]
fn builder_renders_negative_immediates() {
    let mut b = AsmBuilder::new();
    b.add_instruction(Instr::MovImm(Reg::Rdi, -123));
    assert_eq!(b.build(), "global _start\n_start:\n    mov rdi, -123\n");
}

#[test]
fn parse_error_messages() {
    assert_eq!(
        ParseError::UnexpectedToken("if".to_string()).message(),
        "Unexpected token: if"
    );
    assert_eq!(
        ParseError::UnexpectedEndOfInput.message(),
        "Unexpected end of input"
    );
    assert_eq!(ParseError::InvalidStatement.message(), "Invalid statement");
    assert_eq!(ParseError::InvalidExpression.message(), "Invalid expression");
}

#[test]
fn generator_error_messages() {
    assert_eq!(
        GeneratorError::InvalidReturnValue.message(),
        "Invalid or missing return value"
    );
    assert_eq!(
        GeneratorError::InvalidStatement.message(),
        "Invalid statement or missing statement"
    );
    assert_eq!(
        GeneratorError::InvalidExpression.message(),
        "Invalid expression or missing expression"
    );
    assert_eq!(
        GeneratorError::InvalidIntegerValue.message(),
        "Invalid integer or missing integer"
    );
    assert_eq!(
        GeneratorError::IdentifierAlreadyUsed.message(),
        "Identifier already used"
    );
    assert_eq!(
        GeneratorError::UndefinedVariable("x".to_string()).message(),
        "Variable x is undefined"
    );
}
