//! The code generator.
//!
//! One depth-first pass over the program emits instructions in order while
//! a `Stack` tracker mirrors the runtime stack the emitted code will use.
//! The meaning of the pass is the spec-level generator below, stated over
//! the mathematical statement trees; the executable walk is proved to
//! produce exactly what the spec-level generator describes.

use vstd::prelude::*;
use crate::emit::{builder_text, AsmBuilder, Directive, Instr, PushSrc, Reg};
use crate::entities::{TokenType, TokenValue, Token};
use crate::errors::GeneratorError;
use crate::node::{
    lemma_stmts_view_len, lemma_stmts_wf_index, AstArena, ExprT, ExprVar,
    NodeBinExprVariant, NodeProg, StmtT, StmtVariant,
};
use crate::stack::{
    keep_below, lemma_keep_below_take, lookup, stack_invariant, Stack, StackModel, Var,
};

verus! {

/// The code one expression contributes, given the logical depth and the
/// visible bindings at its start.  An expression never touches the binding
/// table and always leaves exactly one more slot on the simulated stack.
/// A name bound at or above the current depth — a binding whose slot has
/// not been filled yet, as in a `let` that names itself in its own
/// initializer — is reported undefined rather than read.
pub open spec fn spec_gen_expr(e: ExprT, depth: int, vars: Seq<(Seq<char>, int)>) -> Result<
    Seq<Instr>,
    GeneratorError,
>
    decreases e,
{
    match e {
        ExprT::IntLit(tok) => match tok.value {
            Some(TokenValue::Int32(n)) => Ok(
                seq![
                    Instr::MovImm(Reg::Rax, n as i64),
                    Instr::Push(PushSrc::Reg(Reg::Rax)),
                ],
            ),
            _ => Err(GeneratorError::InvalidIntegerValue),
        },
        ExprT::Ident(tok) => match (tok._type, tok.value) {
            (TokenType::Ident, Some(TokenValue::Identifier(name))) => match lookup(vars, name@) {
                Some(loc) => {
                    if 0 <= loc < depth {
                        Ok(seq![Instr::Push(PushSrc::Mem((((depth - loc) - 1) * 8) as u128))])
                    } else {
                        Err(GeneratorError::UndefinedVariable(name))
                    }
                },
                None => Err(GeneratorError::UndefinedVariable(name)),
            },
            _ => Err(GeneratorError::InvalidStatement),
        },
        ExprT::Add(l, r) => match spec_gen_expr(*l, depth, vars) {
            Err(er) => Err(er),
            Ok(cl) => match spec_gen_expr(*r, depth + 1, vars) {
                Err(er) => Err(er),
                Ok(cr) => Ok(
                    cl + cr + seq![
                        Instr::Pop(Reg::Rax),
                        Instr::Pop(Reg::Rbx),
                        Instr::AddRegs,
                        Instr::Push(PushSrc::Reg(Reg::Rax)),
                    ],
                ),
            },
        },
        ExprT::Mul(l, r) => match spec_gen_expr(*l, depth, vars) {
            Err(er) => Err(er),
            Ok(cl) => match spec_gen_expr(*r, depth + 1, vars) {
                Err(er) => Err(er),
                Ok(cr) => Ok(
                    cl + cr + seq![
                        Instr::Pop(Reg::Rax),
                        Instr::Pop(Reg::Rbx),
                        Instr::MulReg,
                        Instr::Push(PushSrc::Reg(Reg::Rax)),
                    ],
                ),
            },
        },
        ExprT::Sub(l, r) => match spec_gen_expr(*l, depth, vars) {
            Err(er) => Err(er),
            Ok(cl) => match spec_gen_expr(*r, depth + 1, vars) {
                Err(er) => Err(er),
                Ok(cr) => Ok(
                    cl + cr + seq![
                        Instr::Pop(Reg::Rbx),
                        Instr::Pop(Reg::Rax),
                        Instr::SubRegs,
                        Instr::Push(PushSrc::Reg(Reg::Rax)),
                    ],
                ),
            },
        },
        ExprT::Div(l, r) => match spec_gen_expr(*l, depth, vars) {
            Err(er) => Err(er),
            Ok(cl) => match spec_gen_expr(*r, depth + 1, vars) {
                Err(er) => Err(er),
                Ok(cr) => Ok(
                    cl + cr + seq![
                        Instr::Pop(Reg::Rbx),
                        Instr::Pop(Reg::Rax),
                        Instr::DivReg,
                        Instr::Push(PushSrc::Reg(Reg::Rax)),
                    ],
                ),
            },
        },
        ExprT::Paren(inner) => spec_gen_expr(*inner, depth, vars),
    }
}

/// The code one statement contributes and the tracker state it leaves.
pub open spec fn spec_gen_stmt(s: StmtT, m: StackModel) -> Result<
    (Seq<Instr>, StackModel),
    GeneratorError,
>
    decreases s, 1int,
{
    match s {
        StmtT::Return(e) => match spec_gen_expr(e, m.depth, m.vars) {
            Err(er) => Err(er),
            Ok(code) => Ok(
                (
                    code + seq![
                        Instr::MovImm(Reg::Rax, 60),
                        Instr::Pop(Reg::Rdi),
                        Instr::Syscall,
                    ],
                    m,
                ),
            ),
        },
        StmtT::Let(tok, e) => match (tok._type, tok.value) {
            (TokenType::Ident, Some(TokenValue::Identifier(name))) => {
                if lookup(m.vars, name@) is Some {
                    Err(GeneratorError::IdentifierAlreadyUsed)
                } else {
                    let vars2 = m.vars.push((name@, m.depth));
                    match spec_gen_expr(e, m.depth, vars2) {
                        Err(er) => Err(er),
                        Ok(code) => Ok(
                            (
                                code,
                                StackModel {
                                    depth: m.depth + 1,
                                    vars: vars2,
                                    bounds: m.bounds,
                                },
                            ),
                        ),
                    }
                }
            },
            _ => Err(GeneratorError::InvalidStatement),
        },
        StmtT::Scope(body) => {
            let m1 = StackModel { depth: m.depth, vars: m.vars, bounds: m.bounds.push(m.depth) };
            match spec_gen_stmts(body, m1) {
                Err(er) => Err(er),
                Ok((code, m2)) => {
                    let freed = m2.depth - m.depth;
                    let exit_code = if freed > 0 {
                        seq![Instr::AddRsp((freed * 8) as u128)]
                    } else {
                        Seq::<Instr>::empty()
                    };
                    Ok(
                        (
                            code + exit_code,
                            StackModel {
                                depth: m.depth,
                                vars: keep_below(m2.vars, m.depth),
                                bounds: m.bounds,
                            },
                        ),
                    )
                },
            }
        },
    }
}

/// The code a statement sequence contributes, threading the tracker state.
pub open spec fn spec_gen_stmts(ss: Seq<StmtT>, m: StackModel) -> Result<
    (Seq<Instr>, StackModel),
    GeneratorError,
>
    decreases ss, 0int,
{
    if ss.len() == 0 {
        Ok((Seq::empty(), m))
    } else {
        match spec_gen_stmt(ss[0], m) {
            Err(er) => Err(er),
            Ok((c1, m1)) => match spec_gen_stmts(ss.drop_first(), m1) {
                Err(er) => Err(er),
                Ok((c2, m2)) => Ok((c1 + c2, m2)),
            },
        }
    }
}

/// The tracker state a compilation starts from.
pub open spec fn init_model() -> StackModel {
    StackModel { depth: 0, vars: Seq::empty(), bounds: Seq::empty() }
}

/// The fixed process-exit trailer emitted after the last statement.
pub open spec fn trailer() -> Seq<Instr> {
    seq![Instr::MovImm(Reg::Rax, 60), Instr::MovImm(Reg::Rdi, 0), Instr::Syscall]
}

/// The whole instruction sequence of a program.
pub open spec fn spec_gen_prog(ss: Seq<StmtT>) -> Result<Seq<Instr>, GeneratorError> {
    match spec_gen_stmts(ss, init_model()) {
        Err(er) => Err(er),
        Ok((code, _)) => Ok(code + trailer()),
    }
}

/// When `lookup` finds nothing, no binding carries the name.
pub proof fn lemma_lookup_none_all(vars: Seq<(Seq<char>, int)>, name: Seq<char>)
    requires
        lookup(vars, name) is None,
    ensures
        forall|j: int| 0 <= j < vars.len() ==> (#[trigger] vars[j]).0 != name,
    decreases vars.len(),
{
    if vars.len() > 0 {
        lemma_lookup_none_all(vars.drop_first(), name);
        assert forall|j: int| 0 <= j < vars.len() implies (#[trigger] vars[j]).0 != name by {
            if j > 0 {
                assert(vars.drop_first()[j - 1] == vars[j]);
            }
        }
    }
}

/// Law (stack balance): a successfully generated statement leaves the
/// tracker balanced again — the depth equals the number of live bindings,
/// the scope markers are untouched, the depth never sinks, and every
/// binding that was visible before is still there, unchanged, below the
/// new ones.
pub proof fn lemma_gen_stmt_state(s: StmtT, m: StackModel)
    requires
        stack_invariant(m),
        spec_gen_stmt(s, m) is Ok,
    ensures
        ({
            let m2 = spec_gen_stmt(s, m)->Ok_0.1;
            &&& stack_invariant(m2)
            &&& m2.bounds == m.bounds
            &&& m2.depth >= m.depth
            &&& m2.vars.take(m.vars.len() as int) == m.vars
        }),
    decreases s, 1int,
{
    match s {
        StmtT::Return(_) => {
            assert(m.vars.take(m.vars.len() as int) =~= m.vars);
        },
        StmtT::Let(tok, e) => {
            match (tok._type, tok.value) {
                (TokenType::Ident, Some(TokenValue::Identifier(name))) => {
                    let vars2 = m.vars.push((name@, m.depth));
                    lemma_lookup_none_all(m.vars, name@);
                    assert(vars2.take(m.vars.len() as int) =~= m.vars);
                    let m2 = spec_gen_stmt(s, m)->Ok_0.1;
                    assert(stack_invariant(m2));
                },
                _ => {},
            }
        },
        StmtT::Scope(body) => {
            let m1 = StackModel { depth: m.depth, vars: m.vars, bounds: m.bounds.push(m.depth) };
            assert(stack_invariant(m1));
            lemma_gen_stmts_state(body, m1);
            let m2b = spec_gen_stmts(body, m1)->Ok_0.1;
            lemma_keep_below_take(m2b.vars, m.depth);
            assert(m2b.vars.take(m1.vars.len() as int) == m1.vars);
            assert(keep_below(m2b.vars, m.depth) == m.vars);
            assert(m1.bounds.drop_last() =~= m.bounds);
            let m2 = spec_gen_stmt(s, m)->Ok_0.1;
            assert(m2.vars == m.vars);
            assert(m2.vars.take(m.vars.len() as int) =~= m.vars);
            assert(stack_invariant(m2));
        },
    }
}

/// Law (stack balance over a sequence): statement after statement, the
/// tracker stays balanced and earlier bindings survive unchanged.
pub proof fn lemma_gen_stmts_state(ss: Seq<StmtT>, m: StackModel)
    requires
        stack_invariant(m),
        spec_gen_stmts(ss, m) is Ok,
    ensures
        ({
            let m2 = spec_gen_stmts(ss, m)->Ok_0.1;
            &&& stack_invariant(m2)
            &&& m2.bounds == m.bounds
            &&& m2.depth >= m.depth
            &&& m2.vars.take(m.vars.len() as int) == m.vars
        }),
    decreases ss, 0int,
{
    if ss.len() == 0 {
        assert(m.vars.take(m.vars.len() as int) =~= m.vars);
    } else {
        lemma_gen_stmt_state(ss[0], m);
        let ma = spec_gen_stmt(ss[0], m)->Ok_0.1;
        lemma_gen_stmts_state(ss.drop_first(), ma);
        let mb = spec_gen_stmts(ss.drop_first(), ma)->Ok_0.1;
        assert(mb.vars.take(m.vars.len() as int) =~= mb.vars.take(ma.vars.len() as int).take(
            m.vars.len() as int,
        ));
        assert(ma.vars.take(m.vars.len() as int) =~= m.vars);
    }
}

/// Law (scoping): generating a scope statement restores the binding table,
/// the depth and the scope markers to exactly what they were before it, so
/// a name declared only inside the scope is unresolvable afterwards.
pub proof fn lemma_scope_restores_bindings(body: Seq<StmtT>, m: StackModel)
    requires
        stack_invariant(m),
        spec_gen_stmt(StmtT::Scope(body), m) is Ok,
    ensures
        ({
            let m2 = spec_gen_stmt(StmtT::Scope(body), m)->Ok_0.1;
            &&& m2.vars == m.vars
            &&& m2.depth == m.depth
            &&& m2.bounds == m.bounds
            &&& m2 == m
        }),
{
    let m1 = StackModel { depth: m.depth, vars: m.vars, bounds: m.bounds.push(m.depth) };
    assert(stack_invariant(m1));
    lemma_gen_stmts_state(body, m1);
    let m2b = spec_gen_stmts(body, m1)->Ok_0.1;
    lemma_keep_below_take(m2b.vars, m.depth);
    assert(m2b.vars.take(m1.vars.len() as int) == m1.vars);
    assert(keep_below(m2b.vars, m.depth) == m.vars);
}

/// Law (duplicate declaration): a `let` whose name is already bound in a
/// visible binding fails with the duplicate-identifier error.
pub proof fn lemma_duplicate_declaration(tok: Token, e: ExprT, m: StackModel)
    requires
        tok._type is Ident,
        match tok.value {
            Some(TokenValue::Identifier(name)) => lookup(m.vars, name@) is Some,
            _ => false,
        },
    ensures
        spec_gen_stmt(StmtT::Let(tok, e), m) == Err::<(Seq<Instr>, StackModel), GeneratorError>(
            GeneratorError::IdentifierAlreadyUsed,
        ),
{
}

/// Law (duplicate declaration, sibling scopes): after a scope generated
/// successfully, generating the very same scope again succeeds too — the
/// names declared inside the first do not collide with the second.
pub proof fn lemma_sibling_scopes_independent(body: Seq<StmtT>, m: StackModel)
    requires
        stack_invariant(m),
        spec_gen_stmt(StmtT::Scope(body), m) is Ok,
    ensures
        spec_gen_stmts(seq![StmtT::Scope(body), StmtT::Scope(body)], m) is Ok,
{
    let ss = seq![StmtT::Scope(body), StmtT::Scope(body)];
    lemma_scope_restores_bindings(body, m);
    let m2 = spec_gen_stmt(StmtT::Scope(body), m)->Ok_0.1;
    assert(m2 == m);
    let rest = ss.drop_first();
    assert(ss[0] == StmtT::Scope(body));
    assert(rest =~= seq![StmtT::Scope(body)]);
    assert(rest[0] == StmtT::Scope(body));
    assert(rest.drop_first() =~= Seq::<StmtT>::empty());
    assert(spec_gen_stmts(rest.drop_first(), m2) is Ok);
    assert(spec_gen_stmts(rest, m2) is Ok);
    assert(spec_gen_stmts(ss, m) is Ok);
}

/// Law (undefined variable): an identifier expression whose name has no
/// visible binding fails with the undefined-variable error naming it.
pub proof fn lemma_undefined_variable_expr(tok: Token, depth: int, vars: Seq<(Seq<char>, int)>)
    requires
        tok._type is Ident,
        match tok.value {
            Some(TokenValue::Identifier(name)) => lookup(vars, name@) is None,
            _ => false,
        },
    ensures
        match tok.value {
            Some(TokenValue::Identifier(name)) => spec_gen_expr(ExprT::Ident(tok), depth, vars)
                == Err::<Seq<Instr>, GeneratorError>(GeneratorError::UndefinedVariable(name)),
            _ => false,
        },
{
}

/// Law (undefined variable): `return x;` with `x` unbound fails the whole
/// statement with the undefined-variable error naming `x`.
pub proof fn lemma_undefined_variable_return(tok: Token, m: StackModel)
    requires
        tok._type is Ident,
        match tok.value {
            Some(TokenValue::Identifier(name)) => lookup(m.vars, name@) is None,
            _ => false,
        },
    ensures
        match tok.value {
            Some(TokenValue::Identifier(name)) => spec_gen_stmt(StmtT::Return(ExprT::Ident(tok)), m)
                == Err::<(Seq<Instr>, StackModel), GeneratorError>(
                GeneratorError::UndefinedVariable(name),
            ),
            _ => false,
        },
{
}

/// Law (parenthesization): a parenthesized expression generates exactly
/// the code of its inner expression.
pub proof fn lemma_paren_transparent(e: ExprT, depth: int, vars: Seq<(Seq<char>, int)>)
    ensures
        spec_gen_expr(ExprT::Paren(Box::new(e)), depth, vars) == spec_gen_expr(e, depth, vars),
{
}

/// Walks a parsed program once, emitting its instructions.
pub struct Generator {
    pub root: NodeProg,
    pub arena: AstArena,
}

impl Generator {
    pub fn new(root: NodeProg, arena: AstArena) -> (g: Generator)
        ensures
            g.root == root,
            g.arena == arena,
    {
        Generator { root, arena }
    }

    /// Emit the code that pushes the value of the named variable, reading
    /// it from the slot recorded at its declaration.
    fn generate_identifier_expression(
        &self,
        ident_str: &String,
        out: &mut AsmBuilder,
        stack: &mut Stack,
    ) -> (r: Result<(), GeneratorError>)
        requires
            old(stack)@.depth + 2 <= u128::MAX as int / 8,
        ensures
            final(out).directives@ == old(out).directives@,
            final(stack)@.vars == old(stack)@.vars,
            final(stack)@.bounds == old(stack)@.bounds,
            final(stack).map_variables == old(stack).map_variables,
            match lookup(old(stack)@.vars, ident_str@) {
                Some(loc) => {
                    if 0 <= loc < old(stack)@.depth {
                        &&& r is Ok
                        &&& final(out).instrs@ == old(out).instrs@ + seq![
                            Instr::Push(
                                PushSrc::Mem((((old(stack)@.depth - loc) - 1) * 8) as u128),
                            ),
                        ]
                        &&& final(stack)@.depth == old(stack)@.depth + 1
                    } else {
                        &&& r == Err::<(), GeneratorError>(
                            GeneratorError::UndefinedVariable(*ident_str),
                        )
                        &&& final(out).instrs@ == old(out).instrs@
                        &&& final(stack)@.depth == old(stack)@.depth
                    }
                },
                None => {
                    &&& r == Err::<(), GeneratorError>(
                        GeneratorError::UndefinedVariable(*ident_str),
                    )
                    &&& final(out).instrs@ == old(out).instrs@
                    &&& final(stack)@.depth == old(stack)@.depth
                },
            },
    {
        match stack.find_var(ident_str) {
            Some(stack_loc) => {
                let cur = stack.current_size();
                if stack_loc < cur {
                    let offset = ((cur - stack_loc) - 1) * 8;
                    let ins = stack.push(PushSrc::Mem(offset));
                    out.add_instruction(ins);
                    Ok(())
                } else {
                    Err(GeneratorError::UndefinedVariable(ident_str.clone()))
                }
            },
            None => Err(GeneratorError::UndefinedVariable(ident_str.clone())),
        }
    }

    /// Emit the code of one expression.  On success exactly the code the
    /// spec-level generator describes was appended and the simulated stack
    /// is one slot deeper; the binding table and scope markers are never
    /// touched.
    fn generate_expression(&self, ei: usize, out: &mut AsmBuilder, stack: &mut Stack) -> (r: Result<
        (),
        GeneratorError,
    >)
        requires
            self.arena.expr_wf(ei as int),
            old(stack)@.depth + (ei as int) + 2 <= u128::MAX as int / 8,
        ensures
            final(out).directives@ == old(out).directives@,
            final(stack)@.vars == old(stack)@.vars,
            final(stack)@.bounds == old(stack)@.bounds,
            final(stack).map_variables == old(stack).map_variables,
            match spec_gen_expr(self.arena.expr_view(ei as int), old(stack)@.depth, old(
                stack,
            )@.vars) {
                Ok(code) => {
                    &&& r is Ok
                    &&& final(out).instrs@ == old(out).instrs@ + code
                    &&& final(stack)@.depth == old(stack)@.depth + 1
                },
                Err(er) => r == Err::<(), GeneratorError>(er),
            },
        decreases ei, 1int,
    {
        match &self.arena.exprs[ei].variant {
            ExprVar::VariantOne(node_expres_int_lit) => {
                match &node_expres_int_lit.int_lit.value {
                    Some(TokenValue::Int32(n)) => {
                        out.add_instruction(Instr::MovImm(Reg::Rax, *n as i64));
                        let ins = stack.push(PushSrc::Reg(Reg::Rax));
                        out.add_instruction(ins);
                        proof {
                            let code = spec_gen_expr(
                                self.arena.expr_view(ei as int),
                                old(stack)@.depth,
                                old(stack)@.vars,
                            )->Ok_0;
                            assert(out.instrs@ =~= old(out).instrs@ + code);
                        }
                        Ok(())
                    },
                    _ => Err(GeneratorError::InvalidIntegerValue),
                }
            },
            ExprVar::VariantTwo(n) => {
                match (&n.ident._type, &n.ident.value) {
                    (TokenType::Ident, Some(TokenValue::Identifier(ident_str))) => {
                        self.generate_identifier_expression(ident_str, out, stack)
                    },
                    _ => Err(GeneratorError::InvalidStatement),
                }
            },
            ExprVar::VariantThree(b) => {
                let bi = *b;
                self.generate_binary_expression(ei, bi, out, stack)
            },
            ExprVar::VariantFour(p) => {
                let inner = self.arena.paren_exprs[*p].expr;
                self.generate_expression(inner, out, stack)
            },
        }
    }

    /// Emit the code of one binary expression: left operand, right operand,
    /// then the two pops, the operation, and the push of the result.  The
    /// pop order is operator-dependent: subtraction and division pop the
    /// right operand first so the operation sees left-op-right.
    fn generate_binary_expression(
        &self,
        ei: usize,
        bi: usize,
        out: &mut AsmBuilder,
        stack: &mut Stack,
    ) -> (r: Result<(), GeneratorError>)
        requires
            self.arena.expr_wf(ei as int),
            self.arena.exprs@[ei as int].variant == ExprVar::VariantThree(bi),
            old(stack)@.depth + (ei as int) + 2 <= u128::MAX as int / 8,
        ensures
            final(out).directives@ == old(out).directives@,
            final(stack)@.vars == old(stack)@.vars,
            final(stack)@.bounds == old(stack)@.bounds,
            final(stack).map_variables == old(stack).map_variables,
            match spec_gen_expr(self.arena.expr_view(ei as int), old(stack)@.depth, old(
                stack,
            )@.vars) {
                Ok(code) => {
                    &&& r is Ok
                    &&& final(out).instrs@ == old(out).instrs@ + code
                    &&& final(stack)@.depth == old(stack)@.depth + 1
                },
                Err(er) => r == Err::<(), GeneratorError>(er),
            },
        decreases ei, 0int,
    {
        let lhs: usize;
        let rhs: usize;
        match &self.arena.bin_exprs[bi].variant {
            NodeBinExprVariant::VariantOne(n) => {
                lhs = n.lhs;
                rhs = n.rhs;
            },
            NodeBinExprVariant::VariantTwo(n) => {
                lhs = n.lhs;
                rhs = n.rhs;
            },
            NodeBinExprVariant::VariantThree(n) => {
                lhs = n.lhs;
                rhs = n.rhs;
            },
            NodeBinExprVariant::VariantFour(n) => {
                lhs = n.lhs;
                rhs = n.rhs;
            },
        }
        match self.generate_expression(lhs, out, stack) {
            Err(er) => {
                return Err(er);
            },
            Ok(()) => {},
        }
        match self.generate_expression(rhs, out, stack) {
            Err(er) => {
                return Err(er);
            },
            Ok(()) => {},
        }
        match &self.arena.bin_exprs[bi].variant {
            NodeBinExprVariant::VariantOne(_) => {
                let p1 = stack.pop(Reg::Rax);
                out.add_instruction(p1);
                let p2 = stack.pop(Reg::Rbx);
                out.add_instruction(p2);
                out.add_instruction(Instr::AddRegs);
                let p3 = stack.push(PushSrc::Reg(Reg::Rax));
                out.add_instruction(p3);
            },
            NodeBinExprVariant::VariantTwo(_) => {
                let p1 = stack.pop(Reg::Rax);
                out.add_instruction(p1);
                let p2 = stack.pop(Reg::Rbx);
                out.add_instruction(p2);
                out.add_instruction(Instr::MulReg);
                let p3 = stack.push(PushSrc::Reg(Reg::Rax));
                out.add_instruction(p3);
            },
            NodeBinExprVariant::VariantThree(_) => {
                let p1 = stack.pop(Reg::Rbx);
                out.add_instruction(p1);
                let p2 = stack.pop(Reg::Rax);
                out.add_instruction(p2);
                out.add_instruction(Instr::SubRegs);
                let p3 = stack.push(PushSrc::Reg(Reg::Rax));
                out.add_instruction(p3);
            },
            NodeBinExprVariant::VariantFour(_) => {
                let p1 = stack.pop(Reg::Rbx);
                out.add_instruction(p1);
                let p2 = stack.pop(Reg::Rax);
                out.add_instruction(p2);
                out.add_instruction(Instr::DivReg);
                let p3 = stack.push(PushSrc::Reg(Reg::Rax));
                out.add_instruction(p3);
            },
        }
        proof {
            let e = self.arena.expr_view(ei as int);
            let code = spec_gen_expr(e, old(stack)@.depth, old(stack)@.vars)->Ok_0;
            assert(out.instrs@ =~= old(out).instrs@ + code);
        }
        Ok(())
    }

    /// Emit the code of one statement.  On success the simulated stack is
    /// balanced again: its depth equals the number of live bindings.
    fn generate_statement(&self, si: usize, out: &mut AsmBuilder, stack: &mut Stack) -> (r: Result<
        (),
        GeneratorError,
    >)
        requires
            self.arena.stmt_wf(si as int),
            stack_invariant(old(stack)@),
        ensures
            final(out).directives@ == old(out).directives@,
            match spec_gen_stmt(self.arena.stmt_view(si as int), old(stack)@) {
                Ok((code, m2)) => {
                    &&& r is Ok
                    &&& final(out).instrs@ == old(out).instrs@ + code
                    &&& final(stack)@ == m2
                    &&& stack_invariant(final(stack)@)
                },
                Err(er) => r == Err::<(), GeneratorError>(er),
            },
        decreases si,
    {
        proof {
            assert(stack.map_variables.len() <= usize::MAX);
            assert(old(stack)@.depth <= usize::MAX as int);
            assert(usize::MAX as int + usize::MAX as int + 2 <= u128::MAX as int / 8);
        }
        match &self.arena.stmts[si].variant {
            StmtVariant::VariantOne(stmt) => {
                match self.generate_expression(stmt.expr, out, stack) {
                    Err(er) => {
                        return Err(er);
                    },
                    Ok(()) => {},
                }
                out.add_instruction(Instr::MovImm(Reg::Rax, 60));
                let p = stack.pop(Reg::Rdi);
                out.add_instruction(p);
                out.add_instruction(Instr::Syscall);
                proof {
                    let code = spec_gen_stmt(self.arena.stmt_view(si as int), old(stack)@)->Ok_0.0;
                    assert(out.instrs@ =~= old(out).instrs@ + code);
                    assert(stack@ =~= old(stack)@);
                }
                Ok(())
            },
            StmtVariant::VariantTwo(stmt) => {
                match (&stmt.ident._type, &stmt.ident.value) {
                    (TokenType::Ident, Some(TokenValue::Identifier(ident_str))) => {
                        match stack.find_var(ident_str) {
                            Some(_) => Err(GeneratorError::IdentifierAlreadyUsed),
                            None => {
                                let loc = stack.current_size();
                                stack.map_variables.push(
                                    (ident_str.clone(), Var { stack_loc: loc }),
                                );
                                proof {
                                    assert(stack@.vars =~= old(stack)@.vars.push(
                                        (ident_str@, old(stack)@.depth),
                                    ));
                                    assert(stack@.bounds =~= old(stack)@.bounds);
                                }
                                match self.generate_expression(stmt.expr, out, stack) {
                                    Err(er) => {
                                        return Err(er);
                                    },
                                    Ok(()) => {},
                                }
                                proof {
                                    let m2 = spec_gen_stmt(
                                        self.arena.stmt_view(si as int),
                                        old(stack)@,
                                    )->Ok_0.1;
                                    assert(stack@ =~= m2);
                                    lemma_gen_stmt_state(
                                        self.arena.stmt_view(si as int),
                                        old(stack)@,
                                    );
                                }
                                Ok(())
                            },
                        }
                    },
                    (TokenType::Ident, _) => Err(GeneratorError::InvalidStatement),
                    _ => Err(GeneratorError::InvalidStatement),
                }
            },
            StmtVariant::VariantThree(stmt) => {
                let ghost m0 = old(stack)@;
                let ghost body_views = self.arena.stmts_view(si as int, stmt.statements@);
                stack.begin_scope();
                let ghost m1 = StackModel {
                    depth: m0.depth,
                    vars: m0.vars,
                    bounds: m0.bounds.push(m0.depth),
                };
                proof {
                    assert(stack@ =~= m1);
                    assert(stack_invariant(m1));
                    lemma_stmts_view_len(self.arena, si as int, stmt.statements@);
                    assert(body_views.skip(0) =~= body_views);
                    match spec_gen_stmts(body_views, m1) {
                        Ok((c, mf)) => {
                            assert(out.instrs@.skip(old(out).instrs@.len() as int) + c =~= c);
                        },
                        Err(_) => {},
                    }
                }
                let mut k: usize = 0;
                while k < stmt.statements.len()
                    invariant
                        k <= stmt.statements@.len(),
                        self.arena.stmt_wf(si as int),
                        self.arena.stmts@[si as int].variant == StmtVariant::VariantThree(*stmt),
                        self.arena.stmts_wf(si as int, stmt.statements@),
                        body_views == self.arena.stmts_view(si as int, stmt.statements@),
                        body_views.len() == stmt.statements@.len(),
                        stack_invariant(stack@),
                        stack@.bounds == m1.bounds,
                        m0 == old(stack)@,
                        m1 == (StackModel {
                            depth: m0.depth,
                            vars: m0.vars,
                            bounds: m0.bounds.push(m0.depth),
                        }),
                        stack_invariant(m0),
                        out.directives@ == old(out).directives@,
                        out.instrs@.len() >= old(out).instrs@.len(),
                        out.instrs@.take(old(out).instrs@.len() as int) == old(out).instrs@,
                        spec_gen_stmts(body_views, m1) == (match spec_gen_stmts(
                            body_views.skip(k as int),
                            stack@,
                        ) {
                            Ok((c, mf)) => Ok::<(Seq<Instr>, StackModel), GeneratorError>(
                                (out.instrs@.skip(old(out).instrs@.len() as int) + c, mf),
                            ),
                            Err(er) => Err::<(Seq<Instr>, StackModel), GeneratorError>(er),
                        }),
                    decreases stmt.statements@.len() - k,
                {
                    let sj = stmt.statements[k];
                    proof {
                        lemma_stmts_wf_index(self.arena, si as int, stmt.statements@, k as int);
                        assert(body_views.skip(k as int)[0] == self.arena.stmt_view(sj as int));
                    }
                    let ghost pre_instrs = out.instrs@;
                    let ghost mpre = stack@;
                    match self.generate_statement(sj, out, stack) {
                        Err(er) => {
                            proof {
                                assert(spec_gen_stmts(body_views.skip(k as int), mpre)
                                    == Err::<(Seq<Instr>, StackModel), GeneratorError>(er));
                                assert(spec_gen_stmts(body_views, m1) == Err::<
                                    (Seq<Instr>, StackModel),
                                    GeneratorError,
                                >(er));
                                assert(self.arena.stmt_view(si as int) == StmtT::Scope(
                                    body_views,
                                ));
                                assert(spec_gen_stmt(self.arena.stmt_view(si as int), m0)
                                    == Err::<(Seq<Instr>, StackModel), GeneratorError>(er));
                            }
                            return Err(er);
                        },
                        Ok(()) => {},
                    }
                    proof {
                        let c1 = spec_gen_stmt(self.arena.stmt_view(sj as int), mpre)->Ok_0.0;
                        assert(body_views.skip(k as int).drop_first() =~= body_views.skip(
                            k as int + 1,
                        ));
                        assert(out.instrs@.take(old(out).instrs@.len() as int)
                            =~= old(out).instrs@);
                        match spec_gen_stmts(body_views.skip(k as int + 1), stack@) {
                            Ok((c, mf)) => {
                                assert(out.instrs@.skip(old(out).instrs@.len() as int) + c
                                    =~= pre_instrs.skip(old(out).instrs@.len() as int) + (c1 + c));
                            },
                            Err(_) => {},
                        }
                    }
                    k = k + 1;
                }
                proof {
                    assert(body_views.skip(k as int) =~= Seq::<StmtT>::empty());
                    assert(stack.map_variables.len() <= usize::MAX);
                    assert(stack@.depth <= usize::MAX as int);
                    assert(stack@.bounds.last() == m0.depth);
                    assert(m0.depth <= stack@.depth);
                }
                let ghost m2b = stack@;
                stack.end_scope(out);
                proof {
                    let code_m2 = spec_gen_stmt(self.arena.stmt_view(si as int), old(stack)@);
                    let code = code_m2->Ok_0.0;
                    let m2 = code_m2->Ok_0.1;
                    assert(m1.bounds.drop_last() =~= m0.bounds);
                    assert(stack@ =~= m2);
                    assert(out.instrs@ =~= old(out).instrs@ + code);
                    lemma_gen_stmt_state(self.arena.stmt_view(si as int), old(stack)@);
                }
                Ok(())
            },
        }
    }

    /// Generate the whole program: the fixed entry directives, each
    /// statement in order, and the process-exit trailer, rendered as the
    /// output text.
    pub fn generate_program(&self) -> (r: Result<String, GeneratorError>)
        requires
            self.arena.prog_wf(self.root),
        ensures
            match spec_gen_prog(
                self.arena.stmts_view(self.arena.stmts@.len() as int, self.root.statements@),
            ) {
                Ok(code) => {
                    &&& r is Ok
                    &&& r->Ok_0@ == builder_text(
                        seq![Directive::GlobalStart, Directive::StartLabel],
                        code,
                    )
                },
                Err(er) => r == Err::<String, GeneratorError>(er),
            },
    {
        let mut asm_builder = AsmBuilder::new();
        let mut stack = Stack::new();
        let ghost bound = self.arena.stmts@.len() as int;
        let ghost all = self.arena.stmts_view(bound, self.root.statements@);
        proof {
            assert(stack@ =~= init_model());
            assert(stack_invariant(stack@));
            lemma_stmts_view_len(self.arena, bound, self.root.statements@);
            assert(all.skip(0) =~= all);
            match spec_gen_stmts(all, init_model()) {
                Ok((c, mf)) => {
                    assert(asm_builder.instrs@ + c =~= c);
                },
                Err(_) => {},
            }
        }
        let mut k: usize = 0;
        while k < self.root.statements.len()
            invariant
                k <= self.root.statements@.len(),
                bound == self.arena.stmts@.len() as int,
                self.arena.stmts_wf(bound, self.root.statements@),
                all == self.arena.stmts_view(bound, self.root.statements@),
                all.len() == self.root.statements@.len(),
                stack_invariant(stack@),
                asm_builder.directives@ == seq![Directive::GlobalStart, Directive::StartLabel],
                spec_gen_stmts(all, init_model()) == (match spec_gen_stmts(
                    all.skip(k as int),
                    stack@,
                ) {
                    Ok((c, mf)) => Ok::<(Seq<Instr>, StackModel), GeneratorError>(
                        (asm_builder.instrs@ + c, mf),
                    ),
                    Err(er) => Err::<(Seq<Instr>, StackModel), GeneratorError>(er),
                }),
            decreases self.root.statements@.len() - k,
        {
            let si = self.root.statements[k];
            proof {
                lemma_stmts_wf_index(self.arena, bound, self.root.statements@, k as int);
                assert(all.skip(k as int)[0] == self.arena.stmt_view(si as int));
            }
            let ghost pre_instrs = asm_builder.instrs@;
            let ghost mpre = stack@;
            match self.generate_statement(si, &mut asm_builder, &mut stack) {
                Err(er) => {
                    proof {
                        assert(spec_gen_stmts(all.skip(k as int), mpre) == Err::<
                            (Seq<Instr>, StackModel),
                            GeneratorError,
                        >(er));
                    }
                    return Err(er);
                },
                Ok(()) => {},
            }
            proof {
                let c1 = spec_gen_stmt(self.arena.stmt_view(si as int), mpre)->Ok_0.0;
                assert(all.skip(k as int).drop_first() =~= all.skip(k as int + 1));
                match spec_gen_stmts(all.skip(k as int + 1), stack@) {
                    Ok((c, mf)) => {
                        assert(asm_builder.instrs@ + c =~= pre_instrs + (c1 + c));
                    },
                    Err(_) => {},
                }
            }
            k = k + 1;
        }
        proof {
            assert(all.skip(k as int) =~= Seq::<StmtT>::empty());
        }
        asm_builder.add_instruction(Instr::MovImm(Reg::Rax, 60));
        asm_builder.add_instruction(Instr::MovImm(Reg::Rdi, 0));
        asm_builder.add_instruction(Instr::Syscall);
        proof {
            let code = spec_gen_prog(all)->Ok_0;
            assert(asm_builder.instrs@ =~= code);
        }
        Ok(asm_builder.build())
    }
}

} // verus!
