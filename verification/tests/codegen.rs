use fikra::entities::{Token, TokenType, TokenValue};
use fikra::errors::{GeneratorError, ParseError};
use fikra::generator::Generator;
use fikra::node::{
    AstArena, ExprVar, NodeExprIdent, NodeExprIntLit, NodeProg, NodeStmtLet, NodeStmtReturn,
    NodeStmtScope, StmtVariant,
};
use fikra::parser::Parser;

fn tok(t: TokenType) -> Token {
    Token::new(t, None, 1, 1)
}

fn int_lit(n: i32) -> Token {
    Token::new(TokenType::Int32Lit, Some(TokenValue::Int32(n)), 1, 1)
}

fn ident(name: &str) -> Token {
    Token::new(
        TokenType::Ident,
        Some(TokenValue::Identifier(name.to_string())),
        1,
        1,
    )
}

fn compile(tokens: Vec<Token>) -> Result<String, GeneratorError> {
    let mut parser = Parser::new(tokens, AstArena::new());
    let prog = match parser.parse_prog() {
        Ok(p) => p,
        Err(_) => panic!("parse failed unexpectedly"),
    };
    let arena = parser.ast_arena;
    Generator::new(prog, arena).generate_program()
}

fn parse_only(tokens: Vec<Token>) -> Result<NodeProg, ParseError> {
    let mut parser = Parser::new(tokens, AstArena::new());
    parser.parse_prog()
}

/// A reference interpreter for the emitted text: three registers and a
/// stack of 64-bit words; returns the exit status passed to the syscall.
fn run_emitted(text: &str) -> Option<u64> {
    let mut rax: u64 = 0;
    let mut rbx: u64 = 0;
    let mut rdi: u64 = 0;
    let mut stack: Vec<u64> = Vec::new();
    for line in text.lines() {
        let l = line.trim();
        if l.is_empty() || l == "global _start" || l == "_start:" {
            continue;
        }
        if l == "syscall" {
            return Some(rdi);
        }
        if let Some(rest) = l.strip_prefix("mov rax, ") {
            rax = rest.parse::<i64>().unwrap() as u64;
        } else if let Some(rest) = l.strip_prefix("mov rdi, ") {
            rdi = rest.parse::<i64>().unwrap() as u64;
        } else if l == "push rax" {
            stack.push(rax);
        } else if let Some(rest) = l.strip_prefix("push QWORD [rsp + ") {
            let off: usize = rest.strip_suffix("]").unwrap().parse().unwrap();
            let idx = stack.len() - 1 - off / 8;
            let v = stack[idx];
            stack.push(v);
        } else if l == "pop rax" {
            rax = stack.pop().unwrap();
        } else if l == "pop rbx" {
            rbx = stack.pop().unwrap();
        } else if l == "pop rdi" {
            rdi = stack.pop().unwrap();
        } else if l == "add rax, rbx" {
            rax = rax.wrapping_add(rbx);
        } else if l == "sub rax, rbx" {
            rax = rax.wrapping_sub(rbx);
        } else if l == "mul rbx" {
            rax = rax.wrapping_mul(rbx);
        } else if l == "div rbx" {
            rax = rax / rbx;
        } else if let Some(rest) = l.strip_prefix("add rsp, ") {
            let bytes: usize = rest.parse().unwrap();
            for _ in 0..bytes / 8 {
                stack.pop().unwrap();
            }
        } else {
            panic!("unknown instruction: {}", l);
        }
    }
    None
}

#[test]
fn round_trip_precedence() {
    // return 2 + 3 * 4;  ->  exit code 14, not 20
    let text = compile(vec![
        tok(TokenType::Return),
        int_lit(2),
        tok(TokenType::Plus),
        int_lit(3),
        tok(TokenType::Star),
        int_lit(4),
        tok(TokenType::Semi),
    ])
    .unwrap();
    assert_eq!(run_emitted(&text), Some(14));
}

#[test]
fn round_trip_left_associative_subtraction() {
    // return 10 - 2 - 3;  ->  (10 - 2) - 3 = 5, not 10 - (2 - 3) = 11
    let text = compile(vec![
        tok(TokenType::Return),
        int_lit(10),
        tok(TokenType::Minus),
        int_lit(2),
        tok(TokenType::Minus),
        int_lit(3),
        tok(TokenType::Semi),
    ])
    .unwrap();
    assert_eq!(run_emitted(&text), Some(5));
}

#[test]
fn round_trip_left_associative_division() {
    // return 20 / 5 / 2;  ->  (20 / 5) / 2 = 2
    let text = compile(vec![
        tok(TokenType::Return),
        int_lit(20),
        tok(TokenType::Slash),
        int_lit(5),
        tok(TokenType::Slash),
        int_lit(2),
        tok(TokenType::Semi),
    ])
    .unwrap();
    assert_eq!(run_emitted(&text), Some(2));
}

#[test]
fn parentheses_override_precedence() {
    // return (2 + 3) * 4;  ->  20
    let text = compile(vec![
        tok(TokenType::Return),
        tok(TokenType::OpenParen),
        int_lit(2),
        tok(TokenType::Plus),
        int_lit(3),
        tok(TokenType::CloseParen),
        tok(TokenType::Star),
        int_lit(4),
        tok(TokenType::Semi),
    ])
    .unwrap();
    assert_eq!(run_emitted(&text), Some(20));
}

#[test]
fn parentheses_are_semantically_transparent() {
    // return (7);  ->  7, with no extra instructions beyond the plain case
    let plain = compile(vec![tok(TokenType::Return), int_lit(7), tok(TokenType::Semi)]).unwrap();
    let parens = compile(vec![
        tok(TokenType::Return),
        tok(TokenType::OpenParen),
        int_lit(7),
        tok(TokenType::CloseParen),
        tok(TokenType::Semi),
    ])
    .unwrap();
    assert_eq!(plain, parens);
    assert_eq!(run_emitted(&parens), Some(7));
}

#[test]
fn exact_emitted_text() {
    let text = compile(vec![
        tok(TokenType::Return),
        int_lit(2),
        tok(TokenType::Plus),
        int_lit(3),
        tok(TokenType::Star),
        int_lit(4),
        tok(TokenType::Semi),
    ])
    .unwrap();
    let expected = "global _start\n\
                    _start:\n\
                    \x20   mov rax, 2\n\
                    \x20   push rax\n\
                    \x20   mov rax, 3\n\
                    \x20   push rax\n\
                    \x20   mov rax, 4\n\
                    \x20   push rax\n\
                    \x20   pop rax\n\
                    \x20   pop rbx\n\
                    \x20   mul rbx\n\
                    \x20   push rax\n\
                    \x20   pop rax\n\
                    \x20   pop rbx\n\
                    \x20   add rax, rbx\n\
                    \x20   push rax\n\
                    \x20   mov rax, 60\n\
                    \x20   pop rdi\n\
                    \x20   syscall\n\
                    \x20   mov rax, 60\n\
                    \x20   mov rdi, 0\n\
                    \x20   syscall\n";
    assert_eq!(text, expected);
}

#[test]
fn negative_literal_renders_with_sign() {
    let text = compile(vec![tok(TokenType::Return), int_lit(-7), tok(TokenType::Semi)]).unwrap();
    assert!(text.contains("mov rax, -7"));
}

#[test]
fn variables_resolve_to_stack_slots() {
    // let a = 1; let b = 2; return a + b;  ->  3
    let text = compile(vec![
        tok(TokenType::Let),
        ident("a"),
        tok(TokenType::Eq),
        int_lit(1),
        tok(TokenType::Semi),
        tok(TokenType::Let),
        ident("b"),
        tok(TokenType::Eq),
        int_lit(2),
        tok(TokenType::Semi),
        tok(TokenType::Return),
        ident("a"),
        tok(TokenType::Plus),
        ident("b"),
        tok(TokenType::Semi),
    ])
    .unwrap();
    assert_eq!(run_emitted(&text), Some(3));
}

#[test]
fn older_variable_reads_deeper_slot() {
    // let a = 5; let b = 7; return a;  ->  5 (read below the stack top)
    let text = compile(vec![
        tok(TokenType::Let),
        ident("a"),
        tok(TokenType::Eq),
        int_lit(5),
        tok(TokenType::Semi),
        tok(TokenType::Let),
        ident("b"),
        tok(TokenType::Eq),
        int_lit(7),
        tok(TokenType::Semi),
        tok(TokenType::Return),
        ident("a"),
        tok(TokenType::Semi),
    ])
    .unwrap();
    assert!(text.contains("push QWORD [rsp + 8]"));
    assert_eq!(run_emitted(&text), Some(5));
}

#[test]
fn undefined_variable_fails_generation() {
    // return x;  with no declaration of x
    let r = compile(vec![tok(TokenType::Return), ident("x"), tok(TokenType::Semi)]);
    assert_eq!(r, Err(GeneratorError::UndefinedVariable("x".to_string())));
}

#[test]
fn duplicate_declaration_fails_generation() {
    // let x = 1; let x = 2;
    let r = compile(vec![
        tok(TokenType::Let),
        ident("x"),
        tok(TokenType::Eq),
        int_lit(1),
        tok(TokenType::Semi),
        tok(TokenType::Let),
        ident("x"),
        tok(TokenType::Eq),
        int_lit(2),
        tok(TokenType::Semi),
    ]);
    assert_eq!(r, Err(GeneratorError::IdentifierAlreadyUsed));
}

fn let_stmt_in(arena: &mut AstArena, name: &str, value: i32) -> usize {
    let e = arena.new_expr(ExprVar::VariantOne(NodeExprIntLit { int_lit: int_lit(value) }));
    arena.new_stmt(StmtVariant::VariantTwo(NodeStmtLet {
        ident: ident(name),
        expr: e,
    }))
}

#[test]
fn scope_hides_its_bindings() {
    // { let x = 1; } return x;  ->  undefined variable x
    let mut arena = AstArena::new();
    let let_x = let_stmt_in(&mut arena, "x", 1);
    let scope = arena.new_stmt(StmtVariant::VariantThree(NodeStmtScope {
        statements: vec![let_x],
    }));
    let x_use = arena.new_expr(ExprVar::VariantTwo(NodeExprIdent { ident: ident("x") }));
    let ret = arena.new_stmt(StmtVariant::VariantOne(NodeStmtReturn { expr: x_use }));
    let prog = NodeProg {
        statements: vec![scope, ret],
    };
    let r = Generator::new(prog, arena).generate_program();
    assert_eq!(r, Err(GeneratorError::UndefinedVariable("x".to_string())));
}

#[test]
fn sibling_scopes_reuse_a_name() {
    // { let x = 1; } { let x = 1; } return 0;  ->  ok, exit 0
    let mut arena = AstArena::new();
    let let1 = let_stmt_in(&mut arena, "x", 1);
    let scope1 = arena.new_stmt(StmtVariant::VariantThree(NodeStmtScope {
        statements: vec![let1],
    }));
    let let2 = let_stmt_in(&mut arena, "x", 1);
    let scope2 = arena.new_stmt(StmtVariant::VariantThree(NodeStmtScope {
        statements: vec![let2],
    }));
    let zero = arena.new_expr(ExprVar::VariantOne(NodeExprIntLit { int_lit: int_lit(0) }));
    let ret = arena.new_stmt(StmtVariant::VariantOne(NodeStmtReturn { expr: zero }));
    let prog = NodeProg {
        statements: vec![scope1, scope2, ret],
    };
    let text = Generator::new(prog, arena).generate_program().unwrap();
    assert_eq!(run_emitted(&text), Some(0));
}

#[test]
fn scope_exit_adjusts_stack_pointer() {
    // { let x = 1; let y = 2; } return 9;  ->  frees both slots on exit
    let mut arena = AstArena::new();
    let let_x = let_stmt_in(&mut arena, "x", 1);
    let let_y = let_stmt_in(&mut arena, "y", 2);
    let scope = arena.new_stmt(StmtVariant::VariantThree(NodeStmtScope {
        statements: vec![let_x, let_y],
    }));
    let nine = arena.new_expr(ExprVar::VariantOne(NodeExprIntLit { int_lit: int_lit(9) }));
    let ret = arena.new_stmt(StmtVariant::VariantOne(NodeStmtReturn { expr: nine }));
    let prog = NodeProg {
        statements: vec![scope, ret],
    };
    let text = Generator::new(prog, arena).generate_program().unwrap();
    assert!(text.contains("add rsp, 16"));
    assert_eq!(run_emitted(&text), Some(9));
}

#[test]
fn empty_scope_adjusts_nothing() {
    // { } return 1;
    let mut arena = AstArena::new();
    let scope = arena.new_stmt(StmtVariant::VariantThree(NodeStmtScope {
        statements: vec![],
    }));
    let one = arena.new_expr(ExprVar::VariantOne(NodeExprIntLit { int_lit: int_lit(1) }));
    let ret = arena.new_stmt(StmtVariant::VariantOne(NodeStmtReturn { expr: one }));
    let prog = NodeProg {
        statements: vec![scope, ret],
    };
    let text = Generator::new(prog, arena).generate_program().unwrap();
    assert!(!text.contains("add rsp"));
    assert_eq!(run_emitted(&text), Some(1));
}

#[test]
fn literal_without_value_fails_generation() {
    let mut arena = AstArena::new();
    let bad = arena.new_expr(ExprVar::VariantOne(NodeExprIntLit {
        int_lit: tok(TokenType::Int32Lit),
    }));
    let ret = arena.new_stmt(StmtVariant::VariantOne(NodeStmtReturn { expr: bad }));
    let prog = NodeProg {
        statements: vec![ret],
    };
    let r = Generator::new(prog, arena).generate_program();
    assert_eq!(r, Err(GeneratorError::InvalidIntegerValue));
}

#[test]
fn let_with_malformed_name_token_fails_generation() {
    let mut arena = AstArena::new();
    let e = arena.new_expr(ExprVar::VariantOne(NodeExprIntLit { int_lit: int_lit(1) }));
    let bad_let = arena.new_stmt(StmtVariant::VariantTwo(NodeStmtLet {
        ident: tok(TokenType::Ident),
        expr: e,
    }));
    let prog = NodeProg {
        statements: vec![bad_let],
    };
    let r = Generator::new(prog, arena).generate_program();
    assert_eq!(r, Err(GeneratorError::InvalidStatement));
}

#[test]
fn missing_semicolon_fails_parsing() {
    let r = parse_only(vec![tok(TokenType::Return), int_lit(2)]);
    assert!(matches!(r, Err(ParseError::InvalidStatement)));
}

#[test]
fn mismatched_parenthesis_fails_parsing() {
    let r = parse_only(vec![
        tok(TokenType::Return),
        tok(TokenType::OpenParen),
        int_lit(2),
        tok(TokenType::Semi),
    ]);
    assert!(matches!(r, Err(ParseError::InvalidStatement)));
}

#[test]
fn statement_must_start_with_keyword() {
    let r = parse_only(vec![int_lit(2), tok(TokenType::Semi)]);
    assert!(matches!(r, Err(ParseError::InvalidStatement)));
}

#[test]
fn empty_token_sequence_is_an_empty_program() {
    let text = compile(vec![]).unwrap();
    // Only the preamble and the safety-net exit remain.
    assert_eq!(
        text,
        "global _start\n_start:\n    mov rax, 60\n    mov rdi, 0\n    syscall\n"
    );
    assert_eq!(run_emitted(&text), Some(0));
}

fn depth_at_exit(text: &str) -> i64 {
    let mut depth: i64 = 0;
    for line in text.lines() {
        let l = line.trim();
        if l == "syscall" {
            break;
        }
        if l.starts_with("push") {
            depth += 1;
        } else if l.starts_with("pop") {
            depth -= 1;
        } else if let Some(rest) = l.strip_prefix("add rsp, ") {
            depth -= rest.parse::<i64>().unwrap() / 8;
        }
    }
    depth
}

#[test]
fn statement_stack_depth_equals_live_bindings() {
    // let a = 1; let b = 2; return a;  — when control reaches the exit,
    // the runtime stack holds exactly the two live bindings.
    let text = compile(vec![
        tok(TokenType::Let),
        ident("a"),
        tok(TokenType::Eq),
        int_lit(1),
        tok(TokenType::Semi),
        tok(TokenType::Let),
        ident("b"),
        tok(TokenType::Eq),
        int_lit(2),
        tok(TokenType::Semi),
        tok(TokenType::Return),
        ident("a"),
        tok(TokenType::Semi),
    ])
    .unwrap();
    assert_eq!(depth_at_exit(&text), 2);
}

#[test]
fn scope_stack_depth_equals_live_bindings() {
    // let a = 1; { let b = 2; } return a;  — only `a` is still live at the
    // exit, so only its slot remains.
    let mut arena = AstArena::new();
    let let_a = let_stmt_in(&mut arena, "a", 1);
    let let_b = let_stmt_in(&mut arena, "b", 2);
    let scope = arena.new_stmt(StmtVariant::VariantThree(NodeStmtScope {
        statements: vec![let_b],
    }));
    let a_use = arena.new_expr(ExprVar::VariantTwo(NodeExprIdent { ident: ident("a") }));
    let ret = arena.new_stmt(StmtVariant::VariantOne(NodeStmtReturn { expr: a_use }));
    let prog = NodeProg {
        statements: vec![let_a, scope, ret],
    };
    let text = Generator::new(prog, arena).generate_program().unwrap();
    assert_eq!(depth_at_exit(&text), 1);
    assert_eq!(run_emitted(&text), Some(1));
}
