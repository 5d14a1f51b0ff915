//! The error kinds the parser and the generator report.  The types cannot
//! carry `Display`; each offers a `message` method instead.

use vstd::prelude::*;
use vstd::string::StringExecFns;

verus! {

/// A fatal syntax error; the parser returns no partial program.
#[derive(Debug, Clone, PartialEq)]
pub enum ParseError {
    UnexpectedToken(String),
    UnexpectedEndOfInput,
    InvalidStatement,
    InvalidExpression,
}

/// A fatal code-generation error; the generator returns no partial output.
#[derive(Debug, Clone, PartialEq)]
pub enum GeneratorError {
    InvalidReturnValue,
    InvalidStatement,
    InvalidExpression,
    InvalidIntegerValue,
    IdentifierAlreadyUsed,
    UndefinedVariable(String),
}

impl ParseError {
    /// The user-visible description of this error.
    pub fn message(&self) -> (r: String)
        ensures
            match self {
                ParseError::UnexpectedToken(t) => r@ == "Unexpected token: "@ + t@,
                ParseError::UnexpectedEndOfInput => r@ == "Unexpected end of input"@,
                ParseError::InvalidStatement => r@ == "Invalid statement"@,
                ParseError::InvalidExpression => r@ == "Invalid expression"@,
            },
    {
        match self {
            ParseError::UnexpectedToken(token) => {
                let mut s = String::from_str("Unexpected token: ");
                s.append(token.as_str());
                s
            },
            ParseError::UnexpectedEndOfInput => String::from_str("Unexpected end of input"),
            ParseError::InvalidStatement => String::from_str("Invalid statement"),
            ParseError::InvalidExpression => String::from_str("Invalid expression"),
        }
    }
}

impl GeneratorError {
    /// The user-visible description of this error.
    pub fn message(&self) -> (r: String)
        ensures
            match self {
                GeneratorError::InvalidReturnValue => r@ == "Invalid or missing return value"@,
                GeneratorError::InvalidStatement => r@ == "Invalid statement or missing statement"@,
                GeneratorError::InvalidExpression => r@
                    == "Invalid expression or missing expression"@,
                GeneratorError::InvalidIntegerValue => r@ == "Invalid integer or missing integer"@,
                GeneratorError::IdentifierAlreadyUsed => r@ == "Identifier already used"@,
                GeneratorError::UndefinedVariable(v) => r@ == "Variable "@ + v@
                    + " is undefined"@,
            },
    {
        match self {
            GeneratorError::InvalidReturnValue => String::from_str(
                "Invalid or missing return value",
            ),
            GeneratorError::InvalidStatement => String::from_str(
                "Invalid statement or missing statement",
            ),
            GeneratorError::InvalidExpression => String::from_str(
                "Invalid expression or missing expression",
            ),
            GeneratorError::InvalidIntegerValue => String::from_str(
                "Invalid integer or missing integer",
            ),
            GeneratorError::IdentifierAlreadyUsed => String::from_str("Identifier already used"),
            GeneratorError::UndefinedVariable(e) => {
                let mut s = String::from_str("Variable ");
                s.append(e.as_str());
                s.append(" is undefined");
                s
            },
        }
    }
}

} // verus!
