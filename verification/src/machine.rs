//! A model of the target machine, used to state what the generated code
//! computes: three registers, a stack of 64-bit words, and the exit
//! syscall.  Arithmetic wraps modulo 2^64; division is unsigned; popping
//! an empty stack, a misaligned or out-of-range stack read, and dividing
//! by zero fault.

use vstd::prelude::*;
use crate::emit::{Instr, PushSrc, Reg};
use crate::entities::TokenValue;
use crate::generator::{spec_gen_expr, spec_gen_prog, spec_gen_stmt, spec_gen_stmts, init_model};
use crate::node::{ExprT, StmtT};

verus! {

/// The machine state the generated code runs in.
#[verifier::ext_equal]
pub struct MState {
    pub rax: u64,
    pub rbx: u64,
    pub rdi: u64,
    pub stack: Seq<u64>,
}

pub enum StepResult {
    Next(MState),
    Exit(u64),
    Fault,
}

pub enum RunResult {
    Finished(MState),
    Exited(u64),
    Fault,
}

/// A 64-bit machine word from an unbounded integer.
pub open spec fn wrap(x: int) -> u64 {
    (x % 0x1_0000_0000_0000_0000) as u64
}

pub open spec fn reg_get(s: MState, r: Reg) -> u64 {
    match r {
        Reg::Rax => s.rax,
        Reg::Rbx => s.rbx,
        Reg::Rdi => s.rdi,
    }
}

pub open spec fn reg_set(s: MState, r: Reg, v: u64) -> MState {
    match r {
        Reg::Rax => MState { rax: v, ..s },
        Reg::Rbx => MState { rbx: v, ..s },
        Reg::Rdi => MState { rdi: v, ..s },
    }
}

/// The effect of one instruction.  The only syscall the generator emits is
/// the process exit whose status is `rdi`, so `syscall` exits.
pub open spec fn step(s: MState, i: Instr) -> StepResult {
    match i {
        Instr::MovImm(r, v) => StepResult::Next(reg_set(s, r, wrap(v as int))),
        Instr::Push(src) => match src {
            PushSrc::Reg(r) => StepResult::Next(
                MState { stack: s.stack.push(reg_get(s, r)), ..s },
            ),
            PushSrc::Mem(off) => {
                if off as int % 8 == 0 && off as int / 8 < s.stack.len() {
                    StepResult::Next(
                        MState {
                            stack: s.stack.push(
                                s.stack[s.stack.len() - 1 - off as int / 8],
                            ),
                            ..s
                        },
                    )
                } else {
                    StepResult::Fault
                }
            },
        },
        Instr::Pop(r) => {
            if s.stack.len() > 0 {
                StepResult::Next(reg_set(MState { stack: s.stack.drop_last(), ..s }, r, s.stack.last()))
            } else {
                StepResult::Fault
            }
        },
        Instr::AddRegs => StepResult::Next(MState { rax: wrap(s.rax + s.rbx), ..s }),
        Instr::SubRegs => StepResult::Next(MState { rax: wrap(s.rax - s.rbx), ..s }),
        Instr::MulReg => StepResult::Next(MState { rax: wrap(s.rax * s.rbx), ..s }),
        Instr::DivReg => {
            if s.rbx != 0 {
                StepResult::Next(MState { rax: (s.rax as int / s.rbx as int) as u64, ..s })
            } else {
                StepResult::Fault
            }
        },
        Instr::AddRsp(b) => {
            if b as int % 8 == 0 && b as int / 8 <= s.stack.len() {
                StepResult::Next(
                    MState { stack: s.stack.take(s.stack.len() - b as int / 8), ..s },
                )
            } else {
                StepResult::Fault
            }
        },
        Instr::Syscall => StepResult::Exit(s.rdi),
    }
}

/// Run a straight-line instruction sequence to its end, an exit, or a
/// fault.
pub open spec fn run(s: MState, code: Seq<Instr>) -> RunResult
    decreases code.len(),
{
    if code.len() == 0 {
        RunResult::Finished(s)
    } else {
        match step(s, code[0]) {
            StepResult::Next(s2) => run(s2, code.drop_first()),
            StepResult::Exit(c) => RunResult::Exited(c),
            StepResult::Fault => RunResult::Fault,
        }
    }
}

/// Running a concatenation runs the pieces in order.
pub proof fn lemma_run_append(s: MState, a: Seq<Instr>, b: Seq<Instr>)
    ensures
        run(s, a + b) == (match run(s, a) {
            RunResult::Finished(t) => run(t, b),
            RunResult::Exited(c) => RunResult::Exited(c),
            RunResult::Fault => RunResult::Fault,
        }),
    decreases a.len(),
{
    if a.len() == 0 {
        assert(a + b =~= b);
    } else {
        assert((a + b)[0] == a[0]);
        assert((a + b).drop_first() =~= a.drop_first() + b);
        match step(s, a[0]) {
            StepResult::Next(s2) => {
                lemma_run_append(s2, a.drop_first(), b);
            },
            _ => {},
        }
    }
}

/// An expression built only from integer literals (each carrying a 32-bit
/// value) and the four arithmetic operators.
pub open spec fn lit_only(e: ExprT) -> bool
    decreases e,
{
    match e {
        ExprT::IntLit(tok) => tok.value matches Some(TokenValue::Int32(_)),
        ExprT::Ident(_) => false,
        ExprT::Add(l, r) => lit_only(*l) && lit_only(*r),
        ExprT::Sub(l, r) => lit_only(*l) && lit_only(*r),
        ExprT::Mul(l, r) => lit_only(*l) && lit_only(*r),
        ExprT::Div(l, r) => lit_only(*l) && lit_only(*r),
        ExprT::Paren(inner) => lit_only(*inner),
    }
}

/// Left-to-right evaluation on 64-bit machine words, with the stated
/// precedence already fixed by the tree's shape.  `None` where a division
/// by zero occurs or a leaf carries no usable value.
pub open spec fn eval(e: ExprT) -> Option<u64>
    decreases e,
{
    match e {
        ExprT::IntLit(tok) => match tok.value {
            Some(TokenValue::Int32(n)) => Some(wrap(n as int)),
            _ => None,
        },
        ExprT::Ident(_) => None,
        ExprT::Add(l, r) => match (eval(*l), eval(*r)) {
            (Some(a), Some(b)) => Some(wrap(a + b)),
            _ => None,
        },
        ExprT::Sub(l, r) => match (eval(*l), eval(*r)) {
            (Some(a), Some(b)) => Some(wrap(a - b)),
            _ => None,
        },
        ExprT::Mul(l, r) => match (eval(*l), eval(*r)) {
            (Some(a), Some(b)) => Some(wrap(a * b)),
            _ => None,
        },
        ExprT::Div(l, r) => match (eval(*l), eval(*r)) {
            (Some(a), Some(b)) => if b != 0 {
                Some((a as int / b as int) as u64)
            } else {
                None
            },
            _ => None,
        },
        ExprT::Paren(inner) => eval(*inner),
    }
}

/// Law (parenthesization, value level): parentheses change no value and
/// spoil no literal-only shape.
pub proof fn lemma_paren_eval(e: ExprT)
    ensures
        eval(ExprT::Paren(Box::new(e))) == eval(e),
        lit_only(ExprT::Paren(Box::new(e))) == lit_only(e),
{
}

/// The value `rbx` holds after a binary operation: the operand that was
/// popped into it (the start state's `rbx` for a leaf).
pub open spec fn eval_other(e: ExprT, s: MState) -> u64
    decreases e,
{
    match e {
        ExprT::Add(l, r) => eval(*l)->Some_0,
        ExprT::Mul(l, r) => eval(*l)->Some_0,
        ExprT::Sub(l, r) => eval(*r)->Some_0,
        ExprT::Div(l, r) => eval(*r)->Some_0,
        ExprT::Paren(inner) => eval_other(*inner, s),
        _ => s.rbx,
    }
}

/// Law (round-trip arithmetic, expression level): for a literal-only
/// expression whose evaluation is defined, generation succeeds whatever
/// the depth and bindings, and running the generated code from any machine
/// state ends with exactly the expression's value pushed — the rest of
/// the stack, and `rdi`, untouched.
pub proof fn lemma_expr_code_computes(
    e: ExprT,
    depth: int,
    vars: Seq<(Seq<char>, int)>,
    s: MState,
)
    requires
        lit_only(e),
        eval(e) is Some,
    ensures
        spec_gen_expr(e, depth, vars) is Ok,
        run(s, spec_gen_expr(e, depth, vars)->Ok_0) == RunResult::Finished(
            MState {
                rax: eval(e)->Some_0,
                rbx: eval_other(e, s),
                rdi: s.rdi,
                stack: s.stack.push(eval(e)->Some_0),
            },
        ),
    decreases e,
{
    let code = spec_gen_expr(e, depth, vars)->Ok_0;
    let v = eval(e)->Some_0;
    match e {
        ExprT::IntLit(tok) => {
            match tok.value {
                Some(TokenValue::Int32(n)) => {
                    let sA = reg_set(s, Reg::Rax, wrap(n as i64 as int));
                    assert(code =~= seq![
                        Instr::MovImm(Reg::Rax, n as i64),
                        Instr::Push(PushSrc::Reg(Reg::Rax)),
                    ]);
                    assert(step(s, code[0]) == StepResult::Next(sA));
                    let rest = code.drop_first();
                    assert(rest =~= seq![Instr::Push(PushSrc::Reg(Reg::Rax))]);
                    assert(run(s, code) == run(sA, rest));
                    let sB = MState { stack: sA.stack.push(sA.rax), ..sA };
                    assert(step(sA, rest[0]) == StepResult::Next(sB));
                    assert(rest.drop_first() =~= Seq::<Instr>::empty());
                    assert(run(sA, rest) == run(sB, rest.drop_first()));
                    assert(run(sB, rest.drop_first()) == RunResult::Finished(sB));
                    assert(run(s, code) == RunResult::Finished(sB));
                    assert(wrap(n as i64 as int) == wrap(n as int));
                    assert(sB =~= MState {
                        rax: v,
                        rbx: eval_other(e, s),
                        rdi: s.rdi,
                        stack: s.stack.push(v),
                    });
                },
                _ => {},
            }
        },
        ExprT::Ident(_) => {},
        ExprT::Add(l, r) => {
            lemma_binop_code_computes(e, depth, vars, s);
        },
        ExprT::Sub(l, r) => {
            lemma_binop_code_computes(e, depth, vars, s);
        },
        ExprT::Mul(l, r) => {
            lemma_binop_code_computes(e, depth, vars, s);
        },
        ExprT::Div(l, r) => {
            lemma_binop_code_computes(e, depth, vars, s);
        },
        ExprT::Paren(inner) => {
            lemma_expr_code_computes(*inner, depth, vars, s);
        },
    }
}

/// The shared argument for the four binary operators.
#[verifier::rlimit(60)]
#[verifier::spinoff_prover]
proof fn lemma_binop_code_computes(e: ExprT, depth: int, vars: Seq<(Seq<char>, int)>, s: MState)
    requires
        lit_only(e),
        eval(e) is Some,
        e is Add || e is Sub || e is Mul || e is Div,
    ensures
        spec_gen_expr(e, depth, vars) is Ok,
        run(s, spec_gen_expr(e, depth, vars)->Ok_0) == RunResult::Finished(
            MState {
                rax: eval(e)->Some_0,
                rbx: eval_other(e, s),
                rdi: s.rdi,
                stack: s.stack.push(eval(e)->Some_0),
            },
        ),
    decreases e, 0int,
{
    let v = eval(e)->Some_0;
    let (l, r) = match e {
        ExprT::Add(l, r) => (*l, *r),
        ExprT::Sub(l, r) => (*l, *r),
        ExprT::Mul(l, r) => (*l, *r),
        ExprT::Div(l, r) => (*l, *r),
        _ => (arbitrary(), arbitrary()),
    };
    let vl = eval(l)->Some_0;
    let vr = eval(r)->Some_0;
    lemma_expr_code_computes(l, depth, vars, s);
    let cl = spec_gen_expr(l, depth, vars)->Ok_0;
    let t1 = MState { rax: vl, rbx: eval_other(l, s), rdi: s.rdi, stack: s.stack.push(vl) };
    lemma_expr_code_computes(r, depth + 1, vars, t1);
    let cr = spec_gen_expr(r, depth + 1, vars)->Ok_0;
    let t2 = MState { rax: vr, rbx: eval_other(r, t1), rdi: s.rdi, stack: t1.stack.push(vr) };
    let tail = match e {
        ExprT::Add(_, _) => seq![
            Instr::Pop(Reg::Rax),
            Instr::Pop(Reg::Rbx),
            Instr::AddRegs,
            Instr::Push(PushSrc::Reg(Reg::Rax)),
        ],
        ExprT::Mul(_, _) => seq![
            Instr::Pop(Reg::Rax),
            Instr::Pop(Reg::Rbx),
            Instr::MulReg,
            Instr::Push(PushSrc::Reg(Reg::Rax)),
        ],
        ExprT::Sub(_, _) => seq![
            Instr::Pop(Reg::Rbx),
            Instr::Pop(Reg::Rax),
            Instr::SubRegs,
            Instr::Push(PushSrc::Reg(Reg::Rax)),
        ],
        ExprT::Div(_, _) => seq![
            Instr::Pop(Reg::Rbx),
            Instr::Pop(Reg::Rax),
            Instr::DivReg,
            Instr::Push(PushSrc::Reg(Reg::Rax)),
        ],
        _ => arbitrary(),
    };
    let code = spec_gen_expr(e, depth, vars)->Ok_0;
    assert(code =~= cl + (cr + tail));
    lemma_run_append(s, cl, cr + tail);
    lemma_run_append(t1, cr, tail);
    assert(t2.stack.len() >= 2);
    assert(t2.stack.last() == vr);
    assert(t2.stack.drop_last() == t1.stack);
    assert(t1.stack.last() == vl);
    assert(t1.stack.drop_last() == s.stack);
    let tEnd = MState { rax: v, rbx: eval_other(e, s), rdi: s.rdi, stack: s.stack.push(v) };
    match e {
        ExprT::Add(_, _) => {
            let u1 = reg_set(MState { stack: t2.stack.drop_last(), ..t2 }, Reg::Rax, vr);
            let u2 = reg_set(MState { stack: u1.stack.drop_last(), ..u1 }, Reg::Rbx, vl);
            let u3 = MState { rax: wrap(u2.rax + u2.rbx), ..u2 };
            let rest1 = tail.drop_first();
            let rest2 = rest1.drop_first();
            let rest3 = rest2.drop_first();
            assert(rest1 =~= seq![
                Instr::Pop(Reg::Rbx),
                Instr::AddRegs,
                Instr::Push(PushSrc::Reg(Reg::Rax)),
            ]);
            assert(rest2 =~= seq![Instr::AddRegs, Instr::Push(PushSrc::Reg(Reg::Rax))]);
            assert(rest3 =~= seq![Instr::Push(PushSrc::Reg(Reg::Rax))]);
            assert(step(t2, tail[0]) == StepResult::Next(u1));
            assert(run(t2, tail) == run(u1, rest1));
            assert(step(u1, rest1[0]) == StepResult::Next(u2));
            assert(run(u1, rest1) == run(u2, rest2));
            assert(step(u2, rest2[0]) == StepResult::Next(u3));
            assert(run(u2, rest2) == run(u3, rest3));
            let u4 = MState { stack: u3.stack.push(u3.rax), ..u3 };
            assert(step(u3, rest3[0]) == StepResult::Next(u4));
            assert(rest3.drop_first() =~= Seq::<Instr>::empty());
            assert(run(u3, rest3) == run(u4, rest3.drop_first()));
            assert(run(u4, rest3.drop_first()) == RunResult::Finished(u4));
            assert(u4 =~= tEnd);
            assert(run(t2, tail) == RunResult::Finished(tEnd));
            assert(wrap(vr + vl) == wrap(vl + vr));
        },
        ExprT::Mul(_, _) => {
            assert(wrap(vr * vl) == wrap(vl * vr)) by (nonlinear_arith);
            let u1 = reg_set(MState { stack: t2.stack.drop_last(), ..t2 }, Reg::Rax, vr);
            let u2 = reg_set(MState { stack: u1.stack.drop_last(), ..u1 }, Reg::Rbx, vl);
            let u3 = MState { rax: wrap(u2.rax * u2.rbx), ..u2 };
            let rest1 = tail.drop_first();
            let rest2 = rest1.drop_first();
            let rest3 = rest2.drop_first();
            assert(rest1 =~= seq![
                Instr::Pop(Reg::Rbx),
                Instr::MulReg,
                Instr::Push(PushSrc::Reg(Reg::Rax)),
            ]);
            assert(rest2 =~= seq![Instr::MulReg, Instr::Push(PushSrc::Reg(Reg::Rax))]);
            assert(rest3 =~= seq![Instr::Push(PushSrc::Reg(Reg::Rax))]);
            assert(step(t2, tail[0]) == StepResult::Next(u1));
            assert(run(t2, tail) == run(u1, rest1));
            assert(step(u1, rest1[0]) == StepResult::Next(u2));
            assert(run(u1, rest1) == run(u2, rest2));
            assert(step(u2, rest2[0]) == StepResult::Next(u3));
            assert(run(u2, rest2) == run(u3, rest3));
            let u4 = MState { stack: u3.stack.push(u3.rax), ..u3 };
            assert(step(u3, rest3[0]) == StepResult::Next(u4));
            assert(rest3.drop_first() =~= Seq::<Instr>::empty());
            assert(run(u3, rest3) == run(u4, rest3.drop_first()));
            assert(run(u4, rest3.drop_first()) == RunResult::Finished(u4));
            assert(u4 =~= tEnd);
            assert(run(t2, tail) == RunResult::Finished(tEnd));

        },
        ExprT::Sub(_, _) => {
            let u1 = reg_set(MState { stack: t2.stack.drop_last(), ..t2 }, Reg::Rbx, vr);
            let u2 = reg_set(MState { stack: u1.stack.drop_last(), ..u1 }, Reg::Rax, vl);
            let u3 = MState { rax: wrap(u2.rax - u2.rbx), ..u2 };
            let rest1 = tail.drop_first();
            let rest2 = rest1.drop_first();
            let rest3 = rest2.drop_first();
            assert(rest1 =~= seq![
                Instr::Pop(Reg::Rax),
                Instr::SubRegs,
                Instr::Push(PushSrc::Reg(Reg::Rax)),
            ]);
            assert(rest2 =~= seq![Instr::SubRegs, Instr::Push(PushSrc::Reg(Reg::Rax))]);
            assert(rest3 =~= seq![Instr::Push(PushSrc::Reg(Reg::Rax))]);
            assert(step(t2, tail[0]) == StepResult::Next(u1));
            assert(run(t2, tail) == run(u1, rest1));
            assert(step(u1, rest1[0]) == StepResult::Next(u2));
            assert(run(u1, rest1) == run(u2, rest2));
            assert(step(u2, rest2[0]) == StepResult::Next(u3));
            assert(run(u2, rest2) == run(u3, rest3));
            let u4 = MState { stack: u3.stack.push(u3.rax), ..u3 };
            assert(step(u3, rest3[0]) == StepResult::Next(u4));
            assert(rest3.drop_first() =~= Seq::<Instr>::empty());
            assert(run(u3, rest3) == run(u4, rest3.drop_first()));
            assert(run(u4, rest3.drop_first()) == RunResult::Finished(u4));
            assert(u4 =~= tEnd);
            assert(run(t2, tail) == RunResult::Finished(tEnd));

        },
        ExprT::Div(_, _) => {
            let u1 = reg_set(MState { stack: t2.stack.drop_last(), ..t2 }, Reg::Rbx, vr);
            let u2 = reg_set(MState { stack: u1.stack.drop_last(), ..u1 }, Reg::Rax, vl);
            assert(vr != 0);
            let u3 = MState { rax: (u2.rax as int / u2.rbx as int) as u64, ..u2 };
            let rest1 = tail.drop_first();
            let rest2 = rest1.drop_first();
            let rest3 = rest2.drop_first();
            assert(rest1 =~= seq![
                Instr::Pop(Reg::Rax),
                Instr::DivReg,
                Instr::Push(PushSrc::Reg(Reg::Rax)),
            ]);
            assert(rest2 =~= seq![Instr::DivReg, Instr::Push(PushSrc::Reg(Reg::Rax))]);
            assert(rest3 =~= seq![Instr::Push(PushSrc::Reg(Reg::Rax))]);
            assert(step(t2, tail[0]) == StepResult::Next(u1));
            assert(run(t2, tail) == run(u1, rest1));
            assert(step(u1, rest1[0]) == StepResult::Next(u2));
            assert(run(u1, rest1) == run(u2, rest2));
            assert(step(u2, rest2[0]) == StepResult::Next(u3));
            assert(run(u2, rest2) == run(u3, rest3));
            let u4 = MState { stack: u3.stack.push(u3.rax), ..u3 };
            assert(step(u3, rest3[0]) == StepResult::Next(u4));
            assert(rest3.drop_first() =~= Seq::<Instr>::empty());
            assert(run(u3, rest3) == run(u4, rest3.drop_first()));
            assert(run(u4, rest3.drop_first()) == RunResult::Finished(u4));
            assert(u4 =~= tEnd);
            assert(run(t2, tail) == RunResult::Finished(tEnd));

        },
        _ => {},
    }
}

/// Law (round-trip arithmetic): the whole program `return e;`, for a
/// literal-only expression whose evaluation is defined, compiles to code
/// that — run from any machine state — exits with exactly the value of
/// `e`.
pub proof fn lemma_return_program_computes(e: ExprT, s: MState)
    requires
        lit_only(e),
        eval(e) is Some,
    ensures
        spec_gen_prog(seq![StmtT::Return(e)]) is Ok,
        run(s, spec_gen_prog(seq![StmtT::Return(e)])->Ok_0) == RunResult::Exited(eval(e)->Some_0),
{
    let v = eval(e)->Some_0;
    let m0 = init_model();
    lemma_expr_code_computes(e, m0.depth, m0.vars, s);
    let ce = spec_gen_expr(e, m0.depth, m0.vars)->Ok_0;
    let t1 = MState { rax: v, rbx: eval_other(e, s), rdi: s.rdi, stack: s.stack.push(v) };
    let tail3 = seq![Instr::MovImm(Reg::Rax, 60), Instr::Pop(Reg::Rdi), Instr::Syscall];
    let ss = seq![StmtT::Return(e)];
    assert(ss[0] == StmtT::Return(e));
    assert(ss.drop_first() =~= Seq::<StmtT>::empty());
    assert(spec_gen_expr(e, m0.depth, m0.vars) is Ok);
    assert(spec_gen_stmt(ss[0], m0) is Ok);
    let m1s = spec_gen_stmt(ss[0], m0)->Ok_0.1;
    let cs = spec_gen_stmt(ss[0], m0)->Ok_0.0;
    assert(cs == ce + tail3);
    assert(spec_gen_stmts(Seq::<StmtT>::empty(), m1s) is Ok);
    assert(spec_gen_stmts(ss, m0) is Ok);
    assert(spec_gen_prog(ss) is Ok);
    let code = spec_gen_prog(ss)->Ok_0;
    let tr = seq![
        Instr::MovImm(Reg::Rax, 60),
        Instr::MovImm(Reg::Rdi, 0),
        Instr::Syscall,
    ];
    assert(code =~= ce + (tail3 + tr));
    lemma_run_append(s, ce, tail3 + tr);
    assert(run(s, ce) == RunResult::Finished(t1));
    assert(run(s, code) == run(t1, tail3 + tr));
    let u1 = reg_set(t1, Reg::Rax, wrap(60));
    assert((tail3 + tr)[0] == Instr::MovImm(Reg::Rax, 60));
    assert(step(t1, (tail3 + tr)[0]) == StepResult::Next(u1));
    let rest1 = (tail3 + tr).drop_first();
    assert(rest1 =~= seq![
        Instr::Pop(Reg::Rdi),
        Instr::Syscall,
        Instr::MovImm(Reg::Rax, 60),
        Instr::MovImm(Reg::Rdi, 0),
        Instr::Syscall,
    ]);
    assert(run(t1, tail3 + tr) == run(u1, rest1));
    assert(u1.stack.len() > 0);
    assert(u1.stack.last() == v);
    let u2 = reg_set(MState { stack: u1.stack.drop_last(), ..u1 }, Reg::Rdi, v);
    assert(step(u1, rest1[0]) == StepResult::Next(u2));
    assert(run(u1, rest1) == run(u2, rest1.drop_first()));
    assert(rest1.drop_first()[0] == Instr::Syscall);
    assert(u2.rdi == v);
    assert(step(u2, rest1.drop_first()[0]) == StepResult::Exit(v));
    assert(run(u2, rest1.drop_first()) == RunResult::Exited(v));
    assert(run(s, code) == RunResult::Exited(v));
}

} // verus!
