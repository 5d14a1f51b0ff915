//! A straight-line translator that turns a token sequence made of
//! `return <int> ;` triples directly into instruction text, without
//! building a tree.  It accepts nothing else, and any malformed triple
//! fails the whole translation with a message naming what was expected.

use vstd::prelude::*;
use vstd::string::StringExecFns;
use crate::emit::{i64_to_dec, int_str};
use crate::entities::{Token, TokenType, TokenValue};

verus! {

/// The text the triples from `pos` on translate to, or the message of the
/// first failure.
pub open spec fn spec_fikra_tokens(t: Seq<Token>, pos: int) -> Result<Seq<char>, Seq<char>>
    decreases t.len() - pos,
{
    if pos >= t.len() {
        Ok(Seq::empty())
    } else if t[pos]._type == TokenType::Return {
        if pos + 1 < t.len() {
            if t[pos + 1]._type == TokenType::IntLit {
                match t[pos + 1].value {
                    Some(TokenValue::Int32(n)) => {
                        if pos + 2 < t.len() {
                            if t[pos + 2]._type == TokenType::Semi {
                                match spec_fikra_tokens(t, pos + 3) {
                                    Err(m) => Err(m),
                                    Ok(rest) => Ok(
                                        "    MOV rax, 60\n    MOV rdi, "@ + int_str(n as int)
                                            + "\n    syscall\n"@ + rest,
                                    ),
                                }
                            } else {
                                Err("Expected a Semi token after IntLit."@)
                            }
                        } else {
                            Err("Missing Semi token after IntLit."@)
                        }
                    },
                    _ => Err("Expected an integer value for IntLit token."@),
                }
            } else {
                Err("Expected an IntLit token after Return."@)
            }
        } else {
            Err("Missing IntLit token after Return."@)
        }
    } else {
        Err("Invalid token sequence. Expected Return -> IntLit -> Semi."@)
    }
}

/// Translate the whole token sequence: the fixed entry preamble, then one
/// exit-with-code block per `return <int> ;` triple, in order.  Succeeds
/// exactly when the sequence is made of such triples.
pub fn fikra_tokens(tokens_vec: Vec<Token>) -> (r: Result<String, &'static str>)
    ensures
        match spec_fikra_tokens(tokens_vec@, 0) {
            Ok(body) => r is Ok && r->Ok_0@ == "global _start\n_start:\n"@ + body,
            Err(m) => r is Err && r->Err_0@ == m,
        },
{
    let ghost t = tokens_vec@;
    let mut out = String::from_str("global _start\n_start:\n");
    let ghost mut emitted: Seq<char> = Seq::empty();
    proof {
        assert(out@ =~= "global _start\n_start:\n"@ + emitted);
    }
    let mut pos: usize = 0;
    while pos < tokens_vec.len()
        invariant
            t == tokens_vec@,
            pos <= t.len(),
            out@ == "global _start\n_start:\n"@ + emitted,
            spec_fikra_tokens(t, 0) == (match spec_fikra_tokens(t, pos as int) {
                Ok(rest) => Ok::<Seq<char>, Seq<char>>(emitted + rest),
                Err(m) => Err::<Seq<char>, Seq<char>>(m),
            }),
        decreases t.len() - pos,
    {
        if !(matches!(tokens_vec[pos]._type, TokenType::Return)) {
            return Err("Invalid token sequence. Expected Return -> IntLit -> Semi.");
        }
        if pos + 1 >= tokens_vec.len() {
            return Err("Missing IntLit token after Return.");
        }
        if !(matches!(tokens_vec[pos + 1]._type, TokenType::IntLit)) {
            return Err("Expected an IntLit token after Return.");
        }
        let int_value: i32 = match &tokens_vec[pos + 1].value {
            Some(TokenValue::Int32(n)) => *n,
            _ => {
                return Err("Expected an integer value for IntLit token.");
            },
        };
        if pos + 2 >= tokens_vec.len() {
            return Err("Missing Semi token after IntLit.");
        }
        if !(matches!(tokens_vec[pos + 2]._type, TokenType::Semi)) {
            return Err("Expected a Semi token after IntLit.");
        }
        out.append("    MOV rax, 60\n    MOV rdi, ");
        out.append(i64_to_dec(int_value as i64).as_str());
        out.append("\n    syscall\n");
        proof {
            let triple = "    MOV rax, 60\n    MOV rdi, "@ + int_str(int_value as int)
                + "\n    syscall\n"@;
            let emitted_pre = emitted;
            emitted = emitted + triple;
            assert(out@ =~= "global _start\n_start:\n"@ + emitted);
            match spec_fikra_tokens(t, pos + 3) {
                Ok(rest) => {
                    assert(emitted_pre + (triple + rest) =~= emitted + rest);
                },
                Err(_) => {},
            }
        }
        pos = pos + 3;
    }
    proof {
        assert(spec_fikra_tokens(t, pos as int) == Ok::<Seq<char>, Seq<char>>(Seq::empty()));
        assert(emitted + Seq::<char>::empty() =~= emitted);
    }
    Ok(out)
}

} // verus!
