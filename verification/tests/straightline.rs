use fikra::entities::{Token, TokenType, TokenValue};
use fikra::straightline::fikra_tokens;

fn tok3(t: TokenType) -> Token {
    Token::new(t, None, 1, 1)
}

fn intlit(n: i32) -> Token {
    Token::new(TokenType::IntLit, Some(TokenValue::Int32(n)), 1, 1)
}

#[test]
fn one_triple_translates_exactly() {
    let r = fikra_tokens(vec![tok3(TokenType::Return), intlit(42), tok3(TokenType::Semi)]);
    assert_eq!(
        r,
        Ok("global _start\n_start:\n    MOV rax, 60\n    MOV rdi, 42\n    syscall\n".to_string())
    );
}

#[test]
fn two_triples_translate_in_order() {
    let r = fikra_tokens(vec![
        tok3(TokenType::Return),
        intlit(1),
        tok3(TokenType::Semi),
        tok3(TokenType::Return),
        intlit(2),
        tok3(TokenType::Semi),
    ]);
    assert_eq!(
        r,
        Ok("global _start\n_start:\n    MOV rax, 60\n    MOV rdi, 1\n    syscall\n    MOV rax, 60\n    MOV rdi, 2\n    syscall\n".to_string())
    );
}

#[test]
fn no_tokens_translate_to_the_bare_preamble() {
    let r = fikra_tokens(vec![]);
    assert_eq!(r, Ok("global _start\n_start:\n".to_string()));
}

#[test]
fn leading_token_must_be_return() {
    let r = fikra_tokens(vec![intlit(1), tok3(TokenType::Semi)]);
    assert_eq!(
        r,
        Err("Invalid token sequence. Expected Return -> IntLit -> Semi.")
    );
}

#[test]
fn missing_literal_after_return() {
    let r = fikra_tokens(vec![tok3(TokenType::Return)]);
    assert_eq!(r, Err("Missing IntLit token after Return."));
}

#[test]
fn wrong_token_after_return() {
    let r = fikra_tokens(vec![tok3(TokenType::Return), tok3(TokenType::Semi)]);
    assert_eq!(r, Err("Expected an IntLit token after Return."));
}

#[test]
fn literal_must_carry_an_integer() {
    let r = fikra_tokens(vec![
        tok3(TokenType::Return),
        tok3(TokenType::IntLit),
        tok3(TokenType::Semi),
    ]);
    assert_eq!(r, Err("Expected an integer value for IntLit token."));
}

#[test]
fn missing_semicolon_after_literal() {
    let r = fikra_tokens(vec![tok3(TokenType::Return), intlit(1)]);
    assert_eq!(r, Err("Missing Semi token after IntLit."));
}

#[test]
fn wrong_token_after_literal() {
    let r = fikra_tokens(vec![
        tok3(TokenType::Return),
        intlit(1),
        tok3(TokenType::Return),
    ]);
    assert_eq!(r, Err("Expected a Semi token after IntLit."));
}
