use fikra::entities::{Precedence, Token, TokenType, TokenValue};

#[test]
fn precedence_values_are_ordered() {
    assert_eq!(Precedence::Lowest.value(), 0);
    assert_eq!(Precedence::Assignment.value(), 1);
    assert_eq!(Precedence::LogicalOr.value(), 2);
    assert_eq!(Precedence::LogicalAnd.value(), 3);
    assert_eq!(Precedence::Equality.value(), 4);
    assert_eq!(Precedence::Comparison.value(), 5);
    assert_eq!(Precedence::Term.value(), 6);
    assert_eq!(Precedence::Factor.value(), 7);
    assert_eq!(Precedence::Exponent.value(), 8);
    assert_eq!(Precedence::Unary.value(), 9);
}

#[test]
fn next_higher_climbs_one_level() {
    assert_eq!(Precedence::Lowest.next_higher(), Precedence::Assignment);
    assert_eq!(Precedence::Term.next_higher(), Precedence::Factor);
    assert_eq!(Precedence::Factor.next_higher(), Precedence::Exponent);
    assert_eq!(Precedence::Unary.next_higher(), Precedence::Unary);
}

#[test]
fn operator_token_precedence() {
    assert_eq!(TokenType::Plus.get_precedence(), Precedence::Term);
    assert_eq!(TokenType::Minus.get_precedence(), Precedence::Term);
    assert_eq!(TokenType::Star.get_precedence(), Precedence::Factor);
    assert_eq!(TokenType::Slash.get_precedence(), Precedence::Factor);
    assert_eq!(TokenType::Caret.get_precedence(), Precedence::Exponent);
    assert_eq!(TokenType::Semi.get_precedence(), Precedence::Lowest);
    assert_eq!(TokenType::Int32Lit.get_precedence(), Precedence::Lowest);
}

#[test]
fn evaluation_order_numbers() {
    assert_eq!(TokenType::Minus.evaluation_order(), 1);
    assert_eq!(TokenType::Plus.evaluation_order(), 2);
    assert_eq!(TokenType::Star.evaluation_order(), 3);
    assert_eq!(TokenType::Slash.evaluation_order(), 4);
    assert_eq!(TokenType::Percent.evaluation_order(), 5);
    assert_eq!(TokenType::Caret.evaluation_order(), 6);
    assert_eq!(TokenType::Return.evaluation_order(), 0);
}

#[test]
fn token_new_keeps_fields() {
    let t = Token::new(TokenType::Int32Lit, Some(TokenValue::Int32(7)), 3, 9);
    assert_eq!(t._type, TokenType::Int32Lit);
    assert_eq!(t.value, Some(TokenValue::Int32(7)));
    assert_eq!(t.line, 3);
    assert_eq!(t.column, 9);
}

#[test]
fn token_duplicate_is_equal() {
    let t = Token::new(
        TokenType::Ident,
        Some(TokenValue::Identifier("answer".to_string())),
        1,
        5,
    );
    let d = t.duplicate();
    assert_eq!(t, d);
}
