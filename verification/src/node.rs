//! The abstract syntax tree.
//!
//! Nodes live in an arena of growable vectors and refer to their children by
//! index.  The tree is built strictly bottom-up: a child is always allocated
//! before the parent that refers to it, so every child index is strictly
//! smaller than the index of the expression node that wraps it.  That
//! ordering is the well-formedness invariant below, and it is also what
//! makes every recursive walk of the tree terminate.

use vstd::prelude::*;
use crate::entities::Token;

verus! {

/// An integer-literal leaf; the token carries the value.
pub struct NodeExprIntLit {
    pub int_lit: Token,
}

/// An identifier leaf; the name is resolved at generation time.
pub struct NodeExprIdent {
    pub ident: Token,
}

/// Explicit grouping captured during parsing; semantically transparent.
pub struct NodeExprParen {
    pub expr: usize,
}

/// The variants of an expression node.  Binary and parenthesized children
/// are indices into the arena's `bin_exprs` and `paren_exprs` vectors.
pub enum ExprVar {
    VariantOne(NodeExprIntLit),
    VariantTwo(NodeExprIdent),
    VariantThree(usize),
    VariantFour(usize),
}

/// `return <expr>;`
pub struct NodeStmtReturn {
    pub expr: usize,
}

/// `let <ident> = <expr>;`
pub struct NodeStmtLet {
    pub ident: Token,
    pub expr: usize,
}

/// A nested lexical scope holding an ordered sequence of statements.
pub struct NodeStmtScope {
    pub statements: Vec<usize>,
}

pub enum StmtVariant {
    VariantOne(NodeStmtReturn),
    VariantTwo(NodeStmtLet),
    VariantThree(NodeStmtScope),
}

pub struct NodeBinExprAdd {
    pub lhs: usize,
    pub rhs: usize,
}

pub struct NodeBinExprMul {
    pub lhs: usize,
    pub rhs: usize,
}

pub struct NodeBinExprSub {
    pub lhs: usize,
    pub rhs: usize,
}

pub struct NodeBinExprDiv {
    pub lhs: usize,
    pub rhs: usize,
}

pub enum NodeBinExprVariant {
    VariantOne(NodeBinExprAdd),
    VariantTwo(NodeBinExprMul),
    VariantThree(NodeBinExprSub),
    VariantFour(NodeBinExprDiv),
}

pub struct NodeBinExpr {
    pub variant: NodeBinExprVariant,
}

pub struct NodeExpr {
    pub variant: ExprVar,
}

pub struct NodeStmt {
    pub variant: StmtVariant,
}

/// An ordered sequence of top-level statement indices; insertion order is
/// execution order.
pub struct NodeProg {
    pub statements: Vec<usize>,
}

/// Owns every AST node of one compilation.  Storage only grows; nodes are
/// never freed or updated individually.
pub struct AstArena {
    pub exprs: Vec<NodeExpr>,
    pub stmts: Vec<NodeStmt>,
    pub bin_exprs: Vec<NodeBinExpr>,
    pub paren_exprs: Vec<NodeExprParen>,
}

/// The mathematical shape of an expression, free of the arena.
pub enum ExprT {
    IntLit(Token),
    Ident(Token),
    Add(Box<ExprT>, Box<ExprT>),
    Sub(Box<ExprT>, Box<ExprT>),
    Mul(Box<ExprT>, Box<ExprT>),
    Div(Box<ExprT>, Box<ExprT>),
    Paren(Box<ExprT>),
}

/// The mathematical shape of a statement.
pub enum StmtT {
    Return(ExprT),
    Let(Token, ExprT),
    Scope(Seq<StmtT>),
}

pub open spec fn bin_lhs(v: NodeBinExprVariant) -> int {
    match v {
        NodeBinExprVariant::VariantOne(n) => n.lhs as int,
        NodeBinExprVariant::VariantTwo(n) => n.lhs as int,
        NodeBinExprVariant::VariantThree(n) => n.lhs as int,
        NodeBinExprVariant::VariantFour(n) => n.lhs as int,
    }
}

pub open spec fn bin_rhs(v: NodeBinExprVariant) -> int {
    match v {
        NodeBinExprVariant::VariantOne(n) => n.rhs as int,
        NodeBinExprVariant::VariantTwo(n) => n.rhs as int,
        NodeBinExprVariant::VariantThree(n) => n.rhs as int,
        NodeBinExprVariant::VariantFour(n) => n.rhs as int,
    }
}

impl AstArena {
    /// Expression node `i` is well formed: it exists, its children exist,
    /// and every child index is strictly below `i`.
    pub open spec fn expr_wf(self, i: int) -> bool
        decreases i,
    {
        0 <= i < self.exprs.len() && match self.exprs[i].variant {
            ExprVar::VariantOne(_) => true,
            ExprVar::VariantTwo(_) => true,
            ExprVar::VariantThree(b) => {
                if (b as int) < self.bin_exprs.len() {
                    let l = bin_lhs(self.bin_exprs[b as int].variant);
                    let r = bin_rhs(self.bin_exprs[b as int].variant);
                    if 0 <= l < i && 0 <= r < i {
                        self.expr_wf(l) && self.expr_wf(r)
                    } else {
                        false
                    }
                } else {
                    false
                }
            },
            ExprVar::VariantFour(p) => {
                if (p as int) < self.paren_exprs.len() {
                    let e = self.paren_exprs[p as int].expr as int;
                    if 0 <= e < i {
                        self.expr_wf(e)
                    } else {
                        false
                    }
                } else {
                    false
                }
            },
        }
    }

    /// Statement node `i` is well formed; the statements of a scope must
    /// themselves sit strictly below `i` in the arena.
    pub open spec fn stmt_wf(self, i: int) -> bool
        decreases i, 1int, 0int,
    {
        0 <= i < self.stmts.len() && match self.stmts[i].variant {
            StmtVariant::VariantOne(s) => self.expr_wf(s.expr as int),
            StmtVariant::VariantTwo(s) => self.expr_wf(s.expr as int),
            StmtVariant::VariantThree(s) => self.stmts_wf(i, s.statements@),
        }
    }

    /// Every index of `sts` names a well-formed statement below `bound`.
    pub open spec fn stmts_wf(self, bound: int, sts: Seq<usize>) -> bool
        decreases bound, 0int, sts.len(),
    {
        if sts.len() == 0 {
            true
        } else if 0 <= (sts[0] as int) < bound {
            self.stmt_wf(sts[0] as int) && self.stmts_wf(bound, sts.drop_first())
        } else {
            false
        }
    }

    /// A whole program is well formed when each of its statements is.
    pub open spec fn prog_wf(self, prog: NodeProg) -> bool {
        self.stmts_wf(self.stmts.len() as int, prog.statements@)
    }

    /// The tree denoted by expression node `i` (meaningful under `expr_wf`).
    pub open spec fn expr_view(self, i: int) -> ExprT
        decreases i,
    {
        if 0 <= i < self.exprs.len() {
            match self.exprs[i].variant {
                ExprVar::VariantOne(n) => ExprT::IntLit(n.int_lit),
                ExprVar::VariantTwo(n) => ExprT::Ident(n.ident),
                ExprVar::VariantThree(b) => {
                    if (b as int) < self.bin_exprs.len() {
                        let v = self.bin_exprs[b as int].variant;
                        let l = bin_lhs(v);
                        let r = bin_rhs(v);
                        if 0 <= l < i && 0 <= r < i {
                            let lt = Box::new(self.expr_view(l));
                            let rt = Box::new(self.expr_view(r));
                            match v {
                                NodeBinExprVariant::VariantOne(_) => ExprT::Add(lt, rt),
                                NodeBinExprVariant::VariantTwo(_) => ExprT::Mul(lt, rt),
                                NodeBinExprVariant::VariantThree(_) => ExprT::Sub(lt, rt),
                                NodeBinExprVariant::VariantFour(_) => ExprT::Div(lt, rt),
                            }
                        } else {
                            arbitrary()
                        }
                    } else {
                        arbitrary()
                    }
                },
                ExprVar::VariantFour(p) => {
                    if (p as int) < self.paren_exprs.len() {
                        let e = self.paren_exprs[p as int].expr as int;
                        if 0 <= e < i {
                            ExprT::Paren(Box::new(self.expr_view(e)))
                        } else {
                            arbitrary()
                        }
                    } else {
                        arbitrary()
                    }
                },
            }
        } else {
            arbitrary()
        }
    }

    /// The tree denoted by statement node `i` (meaningful under `stmt_wf`).
    pub open spec fn stmt_view(self, i: int) -> StmtT
        decreases i, 1int, 0int,
    {
        if 0 <= i < self.stmts.len() {
            match self.stmts[i].variant {
                StmtVariant::VariantOne(s) => StmtT::Return(self.expr_view(s.expr as int)),
                StmtVariant::VariantTwo(s) => StmtT::Let(s.ident, self.expr_view(s.expr as int)),
                StmtVariant::VariantThree(s) => StmtT::Scope(self.stmts_view(i, s.statements@)),
            }
        } else {
            arbitrary()
        }
    }

    /// The trees denoted by a sequence of statement indices below `bound`.
    pub open spec fn stmts_view(self, bound: int, sts: Seq<usize>) -> Seq<StmtT>
        decreases bound, 0int, sts.len(),
    {
        if sts.len() == 0 {
            Seq::empty()
        } else if 0 <= (sts[0] as int) < bound {
            seq![self.stmt_view(sts[0] as int)] + self.stmts_view(bound, sts.drop_first())
        } else {
            arbitrary()
        }
    }

    /// `other` is this arena with zero or more nodes appended: nothing that
    /// already existed has changed.
    pub open spec fn extended_by(self, other: AstArena) -> bool {
        &&& self.exprs@.is_prefix_of(other.exprs@)
        &&& self.stmts@.is_prefix_of(other.stmts@)
        &&& self.bin_exprs@.is_prefix_of(other.bin_exprs@)
        &&& self.paren_exprs@.is_prefix_of(other.paren_exprs@)
    }

    pub fn new() -> (a: AstArena)
        ensures
            a.exprs@ =~= Seq::<NodeExpr>::empty(),
            a.stmts@ =~= Seq::<NodeStmt>::empty(),
            a.bin_exprs@ =~= Seq::<NodeBinExpr>::empty(),
            a.paren_exprs@ =~= Seq::<NodeExprParen>::empty(),
    {
        AstArena {
            exprs: Vec::new(),
            stmts: Vec::new(),
            bin_exprs: Vec::new(),
            paren_exprs: Vec::new(),
        }
    }

    /// Allocate an expression node; returns its index.
    pub fn new_expr(&mut self, variant: ExprVar) -> (i: usize)
        ensures
            i as int == old(self).exprs@.len(),
            final(self).exprs@ == old(self).exprs@.push(NodeExpr { variant }),
            final(self).stmts@ == old(self).stmts@,
            final(self).bin_exprs@ == old(self).bin_exprs@,
            final(self).paren_exprs@ == old(self).paren_exprs@,
            old(self).extended_by(*final(self)),
    {
        let i = self.exprs.len();
        self.exprs.push(NodeExpr { variant });
        i
    }

    /// Allocate a statement node; returns its index.
    pub fn new_stmt(&mut self, variant: StmtVariant) -> (i: usize)
        ensures
            i as int == old(self).stmts@.len(),
            final(self).stmts@ == old(self).stmts@.push(NodeStmt { variant }),
            final(self).exprs@ == old(self).exprs@,
            final(self).bin_exprs@ == old(self).bin_exprs@,
            final(self).paren_exprs@ == old(self).paren_exprs@,
            old(self).extended_by(*final(self)),
    {
        let i = self.stmts.len();
        self.stmts.push(NodeStmt { variant });
        i
    }

    /// Allocate a binary-operator node; returns its index.
    pub fn new_bin_expr(&mut self, variant: NodeBinExprVariant) -> (i: usize)
        ensures
            i as int == old(self).bin_exprs@.len(),
            final(self).bin_exprs@ == old(self).bin_exprs@.push(NodeBinExpr { variant }),
            final(self).exprs@ == old(self).exprs@,
            final(self).stmts@ == old(self).stmts@,
            final(self).paren_exprs@ == old(self).paren_exprs@,
            old(self).extended_by(*final(self)),
    {
        let i = self.bin_exprs.len();
        self.bin_exprs.push(NodeBinExpr { variant });
        i
    }

    /// Allocate a parenthesized-expression node; returns its index.
    pub fn new_paren_expr(&mut self, expr: usize) -> (i: usize)
        ensures
            i as int == old(self).paren_exprs@.len(),
            final(self).paren_exprs@ == old(self).paren_exprs@.push(NodeExprParen { expr }),
            final(self).exprs@ == old(self).exprs@,
            final(self).stmts@ == old(self).stmts@,
            final(self).bin_exprs@ == old(self).bin_exprs@,
            old(self).extended_by(*final(self)),
    {
        let i = self.paren_exprs.len();
        self.paren_exprs.push(NodeExprParen { expr });
        i
    }
}

/// Growing the arena never disturbs an existing expression: it stays well
/// formed and keeps its tree.
pub proof fn lemma_expr_view_stable(pre: AstArena, post: AstArena, i: int)
    requires
        pre.extended_by(post),
        pre.expr_wf(i),
    ensures
        post.expr_wf(i),
        post.expr_view(i) == pre.expr_view(i),
    decreases i,
{
    assert(post.exprs[i] == pre.exprs[i]);
    match pre.exprs[i].variant {
        ExprVar::VariantOne(_) => {},
        ExprVar::VariantTwo(_) => {},
        ExprVar::VariantThree(b) => {
            assert(post.bin_exprs[b as int] == pre.bin_exprs[b as int]);
            let l = bin_lhs(pre.bin_exprs[b as int].variant);
            let r = bin_rhs(pre.bin_exprs[b as int].variant);
            lemma_expr_view_stable(pre, post, l);
            lemma_expr_view_stable(pre, post, r);
        },
        ExprVar::VariantFour(p) => {
            assert(post.paren_exprs[p as int] == pre.paren_exprs[p as int]);
            lemma_expr_view_stable(pre, post, pre.paren_exprs[p as int].expr as int);
        },
    }
}

/// Growing the arena never disturbs an existing statement.
pub proof fn lemma_stmt_view_stable(pre: AstArena, post: AstArena, i: int)
    requires
        pre.extended_by(post),
        pre.stmt_wf(i),
    ensures
        post.stmt_wf(i),
        post.stmt_view(i) == pre.stmt_view(i),
    decreases i, 1int, 0int,
{
    assert(post.stmts[i] == pre.stmts[i]);
    match pre.stmts[i].variant {
        StmtVariant::VariantOne(s) => {
            lemma_expr_view_stable(pre, post, s.expr as int);
        },
        StmtVariant::VariantTwo(s) => {
            lemma_expr_view_stable(pre, post, s.expr as int);
        },
        StmtVariant::VariantThree(s) => {
            lemma_stmts_view_stable(pre, post, i, s.statements@);
        },
    }
}

/// Growing the arena never disturbs a well-formed statement sequence.
pub proof fn lemma_stmts_view_stable(pre: AstArena, post: AstArena, bound: int, sts: Seq<usize>)
    requires
        pre.extended_by(post),
        pre.stmts_wf(bound, sts),
    ensures
        post.stmts_wf(bound, sts),
        post.stmts_view(bound, sts) == pre.stmts_view(bound, sts),
    decreases bound, 0int, sts.len(),
{
    if sts.len() == 0 {
    } else {
        lemma_stmt_view_stable(pre, post, sts[0] as int);
        lemma_stmts_view_stable(pre, post, bound, sts.drop_first());
    }
}

/// A well-formed statement sequence is well formed at each index, and its
/// view lines up index by index.
pub proof fn lemma_stmts_wf_index(a: AstArena, bound: int, sts: Seq<usize>, k: int)
    requires
        a.stmts_wf(bound, sts),
        0 <= k < sts.len(),
    ensures
        0 <= (sts[k] as int) < bound,
        a.stmt_wf(sts[k] as int),
        a.stmts_view(bound, sts).len() == sts.len(),
        a.stmts_view(bound, sts)[k] == a.stmt_view(sts[k] as int),
    decreases k,
{
    lemma_stmts_view_len(a, bound, sts);
    if k > 0 {
        lemma_stmts_wf_index(a, bound, sts.drop_first(), k - 1);
    }
}

/// A well-formed statement sequence has a view of the same length.
pub proof fn lemma_stmts_view_len(a: AstArena, bound: int, sts: Seq<usize>)
    requires
        a.stmts_wf(bound, sts),
    ensures
        a.stmts_view(bound, sts).len() == sts.len(),
    decreases sts.len(),
{
    if sts.len() > 0 {
        lemma_stmts_view_len(a, bound, sts.drop_first());
    }
}

/// Appending one more well-formed statement index keeps the sequence well
/// formed and appends its view.
pub proof fn lemma_stmts_wf_push(a: AstArena, bound: int, sts: Seq<usize>, x: usize)
    requires
        a.stmts_wf(bound, sts),
        a.stmt_wf(x as int),
        0 <= (x as int) < bound,
    ensures
        a.stmts_wf(bound, sts.push(x)),
        a.stmts_view(bound, sts.push(x)) == a.stmts_view(bound, sts).push(a.stmt_view(x as int)),
    decreases sts.len(),
{
    if sts.len() == 0 {
        assert(sts.push(x)[0] == x);
        assert(sts.push(x).drop_first() =~= Seq::<usize>::empty());
        assert(a.stmts_wf(bound, Seq::<usize>::empty()));
        assert(a.stmts_view(bound, Seq::<usize>::empty()) == Seq::<StmtT>::empty());
        assert(a.stmts_wf(bound, sts.push(x)));
        assert(a.stmts_view(bound, sts.push(x)) =~= a.stmts_view(bound, sts).push(
            a.stmt_view(x as int),
        ));
    } else {
        assert(sts.push(x)[0] == sts[0]);
        assert(sts.push(x).drop_first() =~= sts.drop_first().push(x));
        lemma_stmts_wf_push(a, bound, sts.drop_first(), x);
        assert(a.stmts_view(bound, sts.push(x)) =~= a.stmts_view(bound, sts).push(
            a.stmt_view(x as int),
        ));
    }
}

/// A well-formed statement sequence keeps its well-formedness and its view
/// under any larger bound.
pub proof fn lemma_stmts_wf_weaken(a: AstArena, bound: int, bound2: int, sts: Seq<usize>)
    requires
        a.stmts_wf(bound, sts),
        bound <= bound2,
    ensures
        a.stmts_wf(bound2, sts),
        a.stmts_view(bound2, sts) == a.stmts_view(bound, sts),
    decreases sts.len(),
{
    if sts.len() == 0 {
    } else {
        lemma_stmts_wf_weaken(a, bound, bound2, sts.drop_first());
    }
}

} // verus!
