//! A tiny ahead-of-time compiler for an imperative toy language: integer
//! literals, identifiers, `let` bindings, nested scopes, the four arithmetic
//! operators and `return`.  Tokens are parsed by a precedence-climbing
//! recursive-descent parser into an index-based arena of AST nodes, and a
//! code generator walks that tree once, tracking a simulated operand stack
//! and the lexical bindings, while emitting linear instructions for a
//! register/stack target machine.

pub mod emit;
pub mod entities;
pub mod errors;
pub mod generator;
pub mod machine;
pub mod node;
pub mod parser;
pub mod stack;
pub mod straightline;
