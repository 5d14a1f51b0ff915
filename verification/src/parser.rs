//! The parser: one-token-lookahead recursive descent for statements,
//! precedence climbing for expressions.
//!
//! The grammar is written down once, as the spec-level parser below; the
//! executable parser builds the same trees in the arena and is proved to
//! return exactly what the spec-level parser describes, or to fail exactly
//! when it does.  The climb recurses on the right-hand side at the
//! next-higher precedence, which makes equal-precedence chains associate
//! to the left.

use vstd::prelude::*;
use crate::entities::{Precedence, Token, TokenType};
use crate::errors::ParseError;
use crate::node::{
    lemma_expr_view_stable, lemma_stmts_view_stable, lemma_stmts_wf_push, lemma_stmts_wf_weaken,
    AstArena, ExprT, ExprVar, NodeBinExprAdd, NodeBinExprDiv, NodeBinExprMul, NodeBinExprSub,
    NodeBinExprVariant, NodeExprIdent, NodeExprIntLit, NodeProg, NodeStmtLet, NodeStmtReturn,
    StmtT, StmtVariant,
};

verus! {

/// The node one binary operator folds; any other token folds nothing and
/// leaves the left operand as it was.
pub open spec fn spec_fold_binary(left: ExprT, op: TokenType, right: ExprT) -> ExprT {
    match op {
        TokenType::Plus => ExprT::Add(Box::new(left), Box::new(right)),
        TokenType::Star => ExprT::Mul(Box::new(left), Box::new(right)),
        TokenType::Minus => ExprT::Sub(Box::new(left), Box::new(right)),
        TokenType::Slash => ExprT::Div(Box::new(left), Box::new(right)),
        _ => left,
    }
}

/// One primary expression: an integer literal, an identifier, or a
/// parenthesized expression with its closing parenthesis.
pub open spec fn spec_parse_primary(t: Seq<Token>, pos: int) -> Option<(ExprT, int)>
    decreases t.len() - pos, 0int,
{
    if 0 <= pos < t.len() {
        match t[pos]._type {
            TokenType::Int32Lit => Some((ExprT::IntLit(t[pos]), pos + 1)),
            TokenType::Ident => Some((ExprT::Ident(t[pos]), pos + 1)),
            TokenType::OpenParen => match spec_parse_expr(t, pos + 1, Precedence::Lowest) {
                None => None,
                Some((inner, pos2)) => {
                    if pos2 < t.len() {
                        if t[pos2]._type == TokenType::CloseParen {
                            Some((ExprT::Paren(Box::new(inner)), pos2 + 1))
                        } else {
                            None
                        }
                    } else {
                        None
                    }
                },
            },
            _ => None,
        }
    } else {
        None
    }
}

/// A full expression from `pos` on: one primary, then the climb.
pub open spec fn spec_parse_expr(t: Seq<Token>, pos: int, min_prec: Precedence) -> Option<
    (ExprT, int),
>
    decreases t.len() - pos, 2int,
{
    match spec_parse_primary(t, pos) {
        None => None,
        Some((left, pos1)) => {
            if pos <= pos1 <= t.len() {
                spec_parse_climb(t, left, pos1, min_prec)
            } else {
                None
            }
        },
    }
}

/// The climbing loop: while the next token is an operator of at least
/// `min_prec`, consume it, parse the right side at the next-higher
/// precedence, and fold.
pub open spec fn spec_parse_climb(t: Seq<Token>, left: ExprT, pos: int, min_prec: Precedence) -> Option<
    (ExprT, int),
>
    decreases t.len() - pos, 1int,
{
    if 0 <= pos < t.len() {
        let p = t[pos]._type.spec_precedence();
        if p == Precedence::Lowest || p.spec_value() < min_prec.spec_value() {
            Some((left, pos))
        } else {
            match spec_parse_expr(t, pos + 1, p.spec_next_higher()) {
                None => None,
                Some((right, pos2)) => {
                    if pos + 1 <= pos2 <= t.len() {
                        spec_parse_climb(
                            t,
                            spec_fold_binary(left, t[pos]._type, right),
                            pos2,
                            min_prec,
                        )
                    } else {
                        None
                    }
                },
            }
        }
    } else {
        Some((left, pos))
    }
}

/// One statement: `return <expr> ;` or `let <ident> = <expr> ;`.
pub open spec fn spec_parse_stmt(t: Seq<Token>, pos: int) -> Option<(StmtT, int)>
    decreases t.len() - pos, 3int,
{
    if 0 <= pos < t.len() {
        match t[pos]._type {
            TokenType::Return => match spec_parse_expr(t, pos + 1, Precedence::Lowest) {
                None => None,
                Some((e, pos2)) => {
                    if pos2 < t.len() {
                        if t[pos2]._type == TokenType::Semi {
                            Some((StmtT::Return(e), pos2 + 1))
                        } else {
                            None
                        }
                    } else {
                        None
                    }
                },
            },
            TokenType::Let => {
                if pos + 1 < t.len() {
                    if t[pos + 1]._type == TokenType::Ident {
                        if pos + 2 < t.len() {
                            if t[pos + 2]._type == TokenType::Eq {
                                match spec_parse_expr(t, pos + 3, Precedence::Lowest) {
                                    None => None,
                                    Some((e, pos2)) => {
                                        if pos2 < t.len() {
                                            if t[pos2]._type == TokenType::Semi {
                                                Some((StmtT::Let(t[pos + 1], e), pos2 + 1))
                                            } else {
                                                None
                                            }
                                        } else {
                                            None
                                        }
                                    },
                                }
                            } else {
                                None
                            }
                        } else {
                            None
                        }
                    } else {
                        None
                    }
                } else {
                    None
                }
            },
            _ => None,
        }
    } else {
        None
    }
}

/// The whole token sequence as a program: statements until the tokens are
/// exhausted; any failure fails the whole parse.
pub open spec fn spec_parse_prog(t: Seq<Token>, pos: int) -> Option<Seq<StmtT>>
    decreases t.len() - pos, 4int,
{
    if pos >= t.len() {
        Some(Seq::empty())
    } else {
        match spec_parse_stmt(t, pos) {
            None => None,
            Some((s, pos2)) => {
                if pos < pos2 <= t.len() {
                    match spec_parse_prog(t, pos2) {
                        None => None,
                        Some(rest) => Some(seq![s] + rest),
                    }
                } else {
                    None
                }
            },
        }
    }
}

/// Consumes the token sequence positionally and builds the tree bottom-up
/// in the arena it owns.
pub struct Parser {
    pub tokens: Vec<Token>,
    pub pos: usize,
    pub ast_arena: AstArena,
}

impl Parser {
    pub fn new(tokens: Vec<Token>, ast_arena: AstArena) -> (p: Parser)
        ensures
            p.tokens == tokens,
            p.pos == 0,
            p.ast_arena == ast_arena,
    {
        Parser { tokens, pos: 0, ast_arena }
    }

    /// Parse one primary expression at the current position.
    fn parse_primary(&mut self) -> (r: Option<usize>)
        requires
            old(self).pos <= old(self).tokens@.len(),
        ensures
            final(self).tokens == old(self).tokens,
            old(self).ast_arena.extended_by(final(self).ast_arena),
            final(self).pos <= final(self).tokens@.len(),
            match r {
                Some(ei) => {
                    &&& final(self).ast_arena.expr_wf(ei as int)
                    &&& spec_parse_primary(old(self).tokens@, old(self).pos as int) == Some(
                        (final(self).ast_arena.expr_view(ei as int), final(self).pos as int),
                    )
                    &&& old(self).pos < final(self).pos
                },
                None => spec_parse_primary(old(self).tokens@, old(self).pos as int) is None,
            },
        decreases self.tokens@.len() - self.pos, 0int,
    {
        if self.pos >= self.tokens.len() {
            return None;
        }
        let tt = self.tokens[self.pos]._type;
        match tt {
            TokenType::Int32Lit => {
                let tok = self.tokens[self.pos].duplicate();
                self.pos = self.pos + 1;
                let ei = self.ast_arena.new_expr(
                    ExprVar::VariantOne(NodeExprIntLit { int_lit: tok }),
                );
                proof {
                    assert(self.ast_arena.expr_wf(ei as int));
                }
                Some(ei)
            },
            TokenType::Ident => {
                let tok = self.tokens[self.pos].duplicate();
                self.pos = self.pos + 1;
                let ei = self.ast_arena.new_expr(ExprVar::VariantTwo(NodeExprIdent { ident: tok }));
                proof {
                    assert(self.ast_arena.expr_wf(ei as int));
                }
                Some(ei)
            },
            TokenType::OpenParen => {
                self.pos = self.pos + 1;
                let inner = match self.parse_expr() {
                    None => {
                        return None;
                    },
                    Some(x) => x,
                };
                if self.pos >= self.tokens.len() {
                    return None;
                }
                let close_tt = self.tokens[self.pos]._type;
                self.pos = self.pos + 1;
                if !(matches!(close_tt, TokenType::CloseParen)) {
                    return None;
                }
                let ghost pre = self.ast_arena;
                let pi = self.ast_arena.new_paren_expr(inner);
                let ei = self.ast_arena.new_expr(ExprVar::VariantFour(pi));
                proof {
                    lemma_expr_view_stable(pre, self.ast_arena, inner as int);
                    assert(self.ast_arena.expr_wf(ei as int));
                    assert(self.ast_arena.expr_view(ei as int) == ExprT::Paren(
                        Box::new(self.ast_arena.expr_view(inner as int)),
                    ));
                }
                Some(ei)
            },
            _ => None,
        }
    }

    /// Parse a full expression at the lowest precedence.
    fn parse_expr(&mut self) -> (r: Option<usize>)
        requires
            old(self).pos <= old(self).tokens@.len(),
        ensures
            final(self).tokens == old(self).tokens,
            old(self).ast_arena.extended_by(final(self).ast_arena),
            final(self).pos <= final(self).tokens@.len(),
            match r {
                Some(ei) => {
                    &&& final(self).ast_arena.expr_wf(ei as int)
                    &&& spec_parse_expr(old(self).tokens@, old(self).pos as int, Precedence::Lowest)
                        == Some(
                        (final(self).ast_arena.expr_view(ei as int), final(self).pos as int),
                    )
                    &&& old(self).pos < final(self).pos
                },
                None => spec_parse_expr(
                    old(self).tokens@,
                    old(self).pos as int,
                    Precedence::Lowest,
                ) is None,
            },
        decreases self.tokens@.len() - self.pos, 3int,
    {
        self.parse_expr_with_precedence(Precedence::Lowest)
    }

    /// Parse an expression whose operators all have at least the given
    /// precedence: the climbing loop.
    fn parse_expr_with_precedence(&mut self, min_precedence: Precedence) -> (r: Option<usize>)
        requires
            old(self).pos <= old(self).tokens@.len(),
        ensures
            final(self).tokens == old(self).tokens,
            old(self).ast_arena.extended_by(final(self).ast_arena),
            final(self).pos <= final(self).tokens@.len(),
            match r {
                Some(ei) => {
                    &&& final(self).ast_arena.expr_wf(ei as int)
                    &&& spec_parse_expr(old(self).tokens@, old(self).pos as int, min_precedence)
                        == Some(
                        (final(self).ast_arena.expr_view(ei as int), final(self).pos as int),
                    )
                    &&& old(self).pos < final(self).pos
                },
                None => spec_parse_expr(
                    old(self).tokens@,
                    old(self).pos as int,
                    min_precedence,
                ) is None,
            },
        decreases self.tokens@.len() - self.pos, 2int,
    {
        let ghost t = old(self).tokens@;
        let ghost pos0 = old(self).pos as int;
        let mut left = match self.parse_primary() {
            None => {
                return None;
            },
            Some(x) => x,
        };
        while self.pos < self.tokens.len()
            invariant
                self.tokens == old(self).tokens,
                t == old(self).tokens@,
                pos0 == old(self).pos as int,
                old(self).ast_arena.extended_by(self.ast_arena),
                self.pos <= self.tokens@.len(),
                pos0 < self.pos as int,
                self.ast_arena.expr_wf(left as int),
                spec_parse_expr(t, pos0, min_precedence) == spec_parse_climb(
                    t,
                    self.ast_arena.expr_view(left as int),
                    self.pos as int,
                    min_precedence,
                ),
            decreases self.tokens@.len() - self.pos,
        {
            let token_precedence = self.tokens[self.pos]._type.get_precedence();
            if token_precedence.value() == 0 || token_precedence.value() < min_precedence.value() {
                proof {
                    assert(token_precedence.spec_value() == 0 ==> token_precedence
                        == Precedence::Lowest);
                    assert(spec_parse_climb(
                        t,
                        self.ast_arena.expr_view(left as int),
                        self.pos as int,
                        min_precedence,
                    ) == Some((self.ast_arena.expr_view(left as int), self.pos as int)));
                }
                return Some(left);
            }
            let op_type = self.tokens[self.pos]._type;
            let ghost op_pos = self.pos as int;
            let ghost left_view_pre = self.ast_arena.expr_view(left as int);
            self.pos = self.pos + 1;
            proof {
                assert(token_precedence != Precedence::Lowest);
            }
            let next_min = token_precedence.next_higher();
            let ghost arena_pre_rhs = self.ast_arena;
            let right = match self.parse_expr_with_precedence(next_min) {
                None => {
                    proof {
                        assert(spec_parse_climb(t, left_view_pre, op_pos, min_precedence) is None);
                    }
                    return None;
                },
                Some(x) => x,
            };
            proof {
                lemma_expr_view_stable(arena_pre_rhs, self.ast_arena, left as int);
            }
            let ghost right_view = self.ast_arena.expr_view(right as int);
            let ghost pos2 = self.pos as int;
            let new_left = match self.parse_binary_expr(left, op_type, right) {
                None => {
                    return None;
                },
                Some(x) => x,
            };
            proof {
                assert(self.ast_arena.expr_view(new_left as int) == spec_fold_binary(
                    left_view_pre,
                    op_type,
                    right_view,
                ));
                assert(spec_parse_climb(t, left_view_pre, op_pos, min_precedence)
                    == spec_parse_climb(
                    t,
                    spec_fold_binary(left_view_pre, op_type, right_view),
                    pos2,
                    min_precedence,
                ));
            }
            left = new_left;
        }
        proof {
            assert(spec_parse_climb(
                t,
                self.ast_arena.expr_view(left as int),
                self.pos as int,
                min_precedence,
            ) == Some((self.ast_arena.expr_view(left as int), self.pos as int)));
        }
        Some(left)
    }

    /// Fold one binary-operator node out of the operator token's kind and
    /// the two operands; a token that is no binary operator folds nothing
    /// and hands the left operand back.
    fn parse_binary_expr(&mut self, left: usize, op_type: TokenType, right: usize) -> (r: Option<
        usize,
    >)
        requires
            old(self).ast_arena.expr_wf(left as int),
            old(self).ast_arena.expr_wf(right as int),
        ensures
            final(self).tokens == old(self).tokens,
            final(self).pos == old(self).pos,
            old(self).ast_arena.extended_by(final(self).ast_arena),
            match r {
                Some(ei) => {
                    &&& final(self).ast_arena.expr_wf(ei as int)
                    &&& final(self).ast_arena.expr_view(ei as int) == spec_fold_binary(
                        old(self).ast_arena.expr_view(left as int),
                        op_type,
                        old(self).ast_arena.expr_view(right as int),
                    )
                },
                None => false,
            },
    {
        let ghost pre = self.ast_arena;
        let variant: NodeBinExprVariant;
        match op_type {
            TokenType::Plus => {
                variant = NodeBinExprVariant::VariantOne(NodeBinExprAdd { lhs: left, rhs: right });
            },
            TokenType::Star => {
                variant = NodeBinExprVariant::VariantTwo(NodeBinExprMul { lhs: left, rhs: right });
            },
            TokenType::Minus => {
                variant = NodeBinExprVariant::VariantThree(
                    NodeBinExprSub { lhs: left, rhs: right },
                );
            },
            TokenType::Slash => {
                variant = NodeBinExprVariant::VariantFour(NodeBinExprDiv { lhs: left, rhs: right });
            },
            _ => {
                return Some(left);
            },
        }
        let bi = self.ast_arena.new_bin_expr(variant);
        let ei = self.ast_arena.new_expr(ExprVar::VariantThree(bi));
        proof {
            lemma_expr_view_stable(pre, self.ast_arena, left as int);
            lemma_expr_view_stable(pre, self.ast_arena, right as int);
            assert(self.ast_arena.expr_wf(ei as int));
        }
        Some(ei)
    }

    /// Parse one statement at the current position.
    fn parse_stmt(&mut self) -> (r: Option<usize>)
        requires
            old(self).pos <= old(self).tokens@.len(),
        ensures
            final(self).tokens == old(self).tokens,
            old(self).ast_arena.extended_by(final(self).ast_arena),
            final(self).pos <= final(self).tokens@.len(),
            match r {
                Some(si) => {
                    &&& final(self).ast_arena.stmt_wf(si as int)
                    &&& spec_parse_stmt(old(self).tokens@, old(self).pos as int) == Some(
                        (final(self).ast_arena.stmt_view(si as int), final(self).pos as int),
                    )
                    &&& old(self).pos < final(self).pos
                },
                None => spec_parse_stmt(old(self).tokens@, old(self).pos as int) is None,
            },
    {
        if self.pos >= self.tokens.len() {
            return None;
        }
        let tt = self.tokens[self.pos]._type;
        match tt {
            TokenType::Return => {
                self.pos = self.pos + 1;
                let e = match self.parse_expr() {
                    None => {
                        return None;
                    },
                    Some(x) => x,
                };
                if self.pos >= self.tokens.len() {
                    return None;
                }
                let semi_tt = self.tokens[self.pos]._type;
                self.pos = self.pos + 1;
                if !(matches!(semi_tt, TokenType::Semi)) {
                    return None;
                }
                let ghost pre = self.ast_arena;
                let si = self.ast_arena.new_stmt(
                    StmtVariant::VariantOne(NodeStmtReturn { expr: e }),
                );
                proof {
                    lemma_expr_view_stable(pre, self.ast_arena, e as int);
                    assert(self.ast_arena.stmt_wf(si as int));
                }
                Some(si)
            },
            TokenType::Let => {
                self.pos = self.pos + 1;
                if self.pos >= self.tokens.len() {
                    return None;
                }
                let ident_token = self.tokens[self.pos].duplicate();
                self.pos = self.pos + 1;
                if !(matches!(ident_token._type, TokenType::Ident)) {
                    return None;
                }
                if self.pos >= self.tokens.len() {
                    return None;
                }
                let eq_tt = self.tokens[self.pos]._type;
                self.pos = self.pos + 1;
                if !(matches!(eq_tt, TokenType::Eq)) {
                    return None;
                }
                let e = match self.parse_expr() {
                    None => {
                        return None;
                    },
                    Some(x) => x,
                };
                if self.pos >= self.tokens.len() {
                    return None;
                }
                let semi_tt = self.tokens[self.pos]._type;
                self.pos = self.pos + 1;
                if !(matches!(semi_tt, TokenType::Semi)) {
                    return None;
                }
                let ghost pre = self.ast_arena;
                let si = self.ast_arena.new_stmt(
                    StmtVariant::VariantTwo(NodeStmtLet { ident: ident_token, expr: e }),
                );
                proof {
                    lemma_expr_view_stable(pre, self.ast_arena, e as int);
                    assert(self.ast_arena.stmt_wf(si as int));
                }
                Some(si)
            },
            _ => None,
        }
    }

    /// Parse the whole token sequence as a program.  Succeeds exactly when
    /// the spec-level parser accepts the tokens, and the returned program
    /// denotes exactly the statement trees it describes; any failure is
    /// reported as an invalid statement.
    pub fn parse_prog(&mut self) -> (r: Result<NodeProg, ParseError>)
        ensures
            final(self).tokens == old(self).tokens,
            old(self).ast_arena.extended_by(final(self).ast_arena),
            match r {
                Ok(prog) => {
                    &&& final(self).ast_arena.prog_wf(prog)
                    &&& spec_parse_prog(old(self).tokens@, 0) == Some(
                        final(self).ast_arena.stmts_view(
                            final(self).ast_arena.stmts@.len() as int,
                            prog.statements@,
                        ),
                    )
                },
                Err(e) => {
                    &&& e == ParseError::InvalidStatement
                    &&& spec_parse_prog(old(self).tokens@, 0) is None
                },
            },
    {
        self.pos = 0;
        let ghost t = old(self).tokens@;
        let mut statements: Vec<usize> = Vec::new();
        while self.pos < self.tokens.len()
            invariant
                self.tokens == old(self).tokens,
                t == old(self).tokens@,
                old(self).ast_arena.extended_by(self.ast_arena),
                self.pos <= self.tokens@.len(),
                self.ast_arena.stmts_wf(self.ast_arena.stmts@.len() as int, statements@),
                spec_parse_prog(t, 0) == (match spec_parse_prog(t, self.pos as int) {
                    None => None::<Seq<StmtT>>,
                    Some(rest) => Some(
                        self.ast_arena.stmts_view(
                            self.ast_arena.stmts@.len() as int,
                            statements@,
                        ) + rest,
                    ),
                }),
            decreases self.tokens@.len() - self.pos,
        {
            let ghost arena_pre = self.ast_arena;
            let ghost pos_pre = self.pos as int;
            let ghost bound_pre = self.ast_arena.stmts@.len() as int;
            let ghost prefix_pre = arena_pre.stmts_view(bound_pre, statements@);
            match self.parse_stmt() {
                Some(statement) => {
                    let ghost bound_now = self.ast_arena.stmts@.len() as int;
                    let ghost sv = self.ast_arena.stmt_view(statement as int);
                    let ghost sts_pre = statements@;
                    proof {
                        lemma_stmts_view_stable(arena_pre, self.ast_arena, bound_pre, sts_pre);
                        lemma_stmts_wf_weaken(self.ast_arena, bound_pre, bound_now, sts_pre);
                        lemma_stmts_wf_push(self.ast_arena, bound_now, sts_pre, statement);
                        assert(spec_parse_prog(t, pos_pre) == (match spec_parse_prog(
                            t,
                            self.pos as int,
                        ) {
                            None => None::<Seq<StmtT>>,
                            Some(rest) => Some(seq![sv] + rest),
                        }));
                    }
                    statements.push(statement);
                    proof {
                        assert(statements@ == sts_pre.push(statement));
                        assert(self.ast_arena.stmts_view(bound_now, statements@)
                            == prefix_pre.push(sv));
                        match spec_parse_prog(t, self.pos as int) {
                            None => {},
                            Some(rest) => {
                                assert(prefix_pre + (seq![sv] + rest) =~= prefix_pre.push(sv)
                                    + rest);
                            },
                        }
                    }
                },
                None => {
                    return Err(ParseError::InvalidStatement);
                },
            }
        }
        proof {
            assert(spec_parse_prog(t, self.pos as int) == Some(Seq::<StmtT>::empty()));
            assert(self.ast_arena.stmts_view(
                self.ast_arena.stmts@.len() as int,
                statements@,
            ) + Seq::<StmtT>::empty() =~= self.ast_arena.stmts_view(
                self.ast_arena.stmts@.len() as int,
                statements@,
            ));
        }
        Ok(NodeProg { statements })
    }
}

} // verus!
