//! The compile-time simulation of the target machine's runtime stack.
//!
//! The generator drives one `Stack` per compilation: a logical depth in
//! 8-byte slots, the map from identifier names to the slot recorded at
//! declaration, and a stack of scope-entry depths used to clean bindings up
//! when a scope ends.

use vstd::prelude::*;
use crate::emit::{AsmBuilder, Instr, PushSrc, Reg};

verus! {

/// Where a variable's value lives: the logical depth at its declaration.
#[derive(Debug, Clone, Copy)]
pub struct Var {
    pub stack_loc: u128,
}

/// The tracker state.
pub struct Stack {
    pub index: u128,
    pub map_variables: Vec<(String, Var)>,
    pub scope_boundaries: Vec<u128>,
}

/// The mathematical state of a tracker: its depth, its bindings in
/// declaration order, and its scope-entry markers.
#[verifier::ext_equal]
pub struct StackModel {
    pub depth: int,
    pub vars: Seq<(Seq<char>, int)>,
    pub bounds: Seq<int>,
}

/// The slot bound to `name`, scanning bindings in declaration order.
pub open spec fn lookup(vars: Seq<(Seq<char>, int)>, name: Seq<char>) -> Option<int>
    decreases vars.len(),
{
    if vars.len() == 0 {
        None
    } else if vars[0].0 == name {
        Some(vars[0].1)
    } else {
        lookup(vars.drop_first(), name)
    }
}

/// The bindings whose slot lies strictly below `b`, in order.
pub open spec fn keep_below(vars: Seq<(Seq<char>, int)>, b: int) -> Seq<(Seq<char>, int)>
    decreases vars.len(),
{
    if vars.len() == 0 {
        Seq::empty()
    } else if vars.last().1 < b {
        keep_below(vars.drop_last(), b).push(vars.last())
    } else {
        keep_below(vars.drop_last(), b)
    }
}

/// The state a tracker has between complete statements: every binding owns
/// exactly one live slot, so the depth equals the number of live bindings
/// (slot `i` belongs to binding `i`), names are unique, and the scope
/// markers grow monotonically and never exceed the depth.
pub open spec fn stack_invariant(m: StackModel) -> bool {
    &&& m.depth == m.vars.len()
    &&& forall|i: int| 0 <= i < m.vars.len() ==> (#[trigger] m.vars[i]).1 == i
    &&& forall|i: int, j: int| 0 <= i < j < m.vars.len() ==> m.vars[i].0 != m.vars[j].0
    &&& forall|i: int| 0 <= i < m.bounds.len() ==> 0 <= #[trigger] m.bounds[i] <= m.depth
    &&& forall|i: int, j: int| 0 <= i <= j < m.bounds.len() ==> m.bounds[i] <= m.bounds[j]
}

impl View for Stack {
    type V = StackModel;

    open spec fn view(&self) -> StackModel {
        StackModel {
            depth: self.index as int,
            vars: self.map_variables@.map_values(|p: (String, Var)| (p.0@, p.1.stack_loc as int)),
            bounds: self.scope_boundaries@.map_values(|b: u128| b as int),
        }
    }
}

impl Stack {
    pub fn new() -> (s: Stack)
        ensures
            s@.depth == 0,
            s@.vars =~= Seq::<(Seq<char>, int)>::empty(),
            s@.bounds =~= Seq::<int>::empty(),
            s.map_variables@ =~= Seq::<(String, Var)>::empty(),
    {
        Stack { index: 0, map_variables: Vec::new(), scope_boundaries: Vec::new() }
    }

    /// Record that one more slot was pushed (saturating at the top of the
    /// counter's range) and hand back the instruction that pushes it.
    pub fn push(&mut self, src: PushSrc) -> (r: Instr)
        ensures
            r == Instr::Push(src),
            final(self)@.depth == if old(self)@.depth == u128::MAX as int {
                u128::MAX as int
            } else {
                old(self)@.depth + 1
            },
            final(self)@.vars == old(self)@.vars,
            final(self)@.bounds == old(self)@.bounds,
            final(self).map_variables == old(self).map_variables,
    {
        if self.index < u128::MAX {
            self.index = self.index + 1;
        }
        Instr::Push(src)
    }

    /// Record that one slot was popped (saturating at zero) and hand back
    /// the instruction that pops it into `reg`.
    pub fn pop(&mut self, reg: Reg) -> (r: Instr)
        ensures
            r == Instr::Pop(reg),
            final(self)@.depth == if old(self)@.depth == 0 {
                0int
            } else {
                old(self)@.depth - 1
            },
            final(self)@.vars == old(self)@.vars,
            final(self)@.bounds == old(self)@.bounds,
            final(self).map_variables == old(self).map_variables,
    {
        if self.index > 0 {
            self.index = self.index - 1;
        }
        Instr::Pop(reg)
    }

    pub fn current_size(&self) -> (r: u128)
        ensures
            r as int == self@.depth,
    {
        self.index
    }

    /// Find the slot bound to `name`, if any.
    pub fn find_var(&self, name: &String) -> (r: Option<u128>)
        ensures
            match r {
                Some(loc) => lookup(self@.vars, name@) == Some(loc as int),
                None => lookup(self@.vars, name@) is None,
            },
    {
        let mut k: usize = 0;
        while k < self.map_variables.len()
            invariant
                k <= self.map_variables.len(),
                forall|j: int| 0 <= j < k ==> (#[trigger] self@.vars[j]).0 != name@,
            decreases self.map_variables.len() - k,
        {
            if self.map_variables[k].0 == *name {
                proof {
                    lemma_lookup_first_match(self@.vars, name@, k as int);
                }
                return Some(self.map_variables[k].1.stack_loc);
            }
            k = k + 1;
        }
        proof {
            lemma_lookup_none(self@.vars, name@);
        }
        None
    }

    /// Mark the current depth as a scope entry.
    pub fn begin_scope(&mut self)
        ensures
            final(self)@.bounds == old(self)@.bounds.push(old(self)@.depth),
            final(self)@.depth == old(self)@.depth,
            final(self)@.vars == old(self)@.vars,
            final(self).map_variables == old(self).map_variables,
    {
        let ghost pre = self@.bounds;
        self.scope_boundaries.push(self.index);
        proof {
            assert(self@.bounds =~= pre.push(old(self)@.depth));
            assert(self@.vars =~= old(self)@.vars);
        }
    }

    /// Leave the innermost scope: discard the bindings declared inside it
    /// and emit the stack-pointer adjustment that frees their slots.  Does
    /// nothing when no scope is open.  The depth must not have sunk below
    /// the scope's entry depth, and the freed slots must fit the byte
    /// counter.
    pub fn end_scope(&mut self, out: &mut AsmBuilder)
        requires
            old(self)@.bounds.len() > 0 ==> {
                &&& old(self)@.bounds.last() <= old(self)@.depth
                &&& (old(self)@.depth - old(self)@.bounds.last()) * 8 <= u128::MAX as int
            },
        ensures
            old(self)@.bounds.len() == 0 ==> {
                &&& final(self)@.bounds == old(self)@.bounds
                &&& final(self)@.depth == old(self)@.depth
                &&& final(self)@.vars == old(self)@.vars
                &&& final(self).map_variables == old(self).map_variables
                &&& *final(out) == *old(out)
            },
            old(self)@.bounds.len() > 0 ==> {
                let b = old(self)@.bounds.last();
                &&& final(self)@.bounds == old(self)@.bounds.drop_last()
                &&& final(self)@.depth == b
                &&& final(self)@.vars == keep_below(old(self)@.vars, b)
                &&& final(out).directives@ == old(out).directives@
                &&& final(out).instrs@ == old(out).instrs@ + (if old(self)@.depth > b {
                    seq![Instr::AddRsp(((old(self)@.depth - b) * 8) as u128)]
                } else {
                    Seq::<Instr>::empty()
                })
            },
    {
        let popped = self.scope_boundaries.pop();
        match popped {
            None => {
                proof {
                    assert(self@.bounds =~= old(self)@.bounds);
                }
            },
            Some(scope_start) => {
                proof {
                    assert(self@.bounds =~= old(self)@.bounds.drop_last());
                }
                let variables_to_pop = self.index - scope_start;
                // Remove the bindings declared at or above the entry depth.
                let mut kept: Vec<(String, Var)> = Vec::new();
                let ghost all = self@.vars;
                let mut k: usize = 0;
                while k < self.map_variables.len()
                    invariant
                        k <= self.map_variables.len(),
                        all == self@.vars,
                        self.map_variables@.len() == all.len(),
                        kept@.map_values(|p: (String, Var)| (p.0@, p.1.stack_loc as int))
                            == keep_below(all.take(k as int), scope_start as int),
                    decreases self.map_variables.len() - k,
                {
                    let ghost prevm = kept@.map_values(
                        |p: (String, Var)| (p.0@, p.1.stack_loc as int),
                    );
                    if self.map_variables[k].1.stack_loc < scope_start {
                        let name = self.map_variables[k].0.clone();
                        let loc = self.map_variables[k].1.stack_loc;
                        kept.push((name, Var { stack_loc: loc }));
                        proof {
                            assert(kept@.map_values(
                                |p: (String, Var)| (p.0@, p.1.stack_loc as int),
                            ) =~= prevm.push(all[k as int]));
                        }
                    }
                    proof {
                        assert(all.take(k + 1int).drop_last() =~= all.take(k as int));
                        assert(all.take(k + 1int).last() == all[k as int]);
                    }
                    k = k + 1;
                }
                proof {
                    assert(all.take(all.len() as int) =~= all);
                }
                self.map_variables = kept;
                // Free the slots those bindings occupied.
                if variables_to_pop > 0 {
                    let _ = out.add_instruction(Instr::AddRsp(variables_to_pop * 8));
                }
                self.index = scope_start;
                proof {
                    if old(self)@.depth <= scope_start as int {
                        assert(out.instrs@ =~= old(out).instrs@);
                    }
                }
            },
        }
    }
}

/// `lookup` returns the first binding whose name matches.
pub proof fn lemma_lookup_first_match(vars: Seq<(Seq<char>, int)>, name: Seq<char>, k: int)
    requires
        0 <= k < vars.len(),
        vars[k].0 == name,
        forall|j: int| 0 <= j < k ==> (#[trigger] vars[j]).0 != name,
    ensures
        lookup(vars, name) == Some(vars[k].1),
    decreases k,
{
    if k > 0 {
        lemma_lookup_first_match(vars.drop_first(), name, k - 1);
    }
}

/// `lookup` finds nothing when no binding carries the name.
pub proof fn lemma_lookup_none(vars: Seq<(Seq<char>, int)>, name: Seq<char>)
    requires
        forall|j: int| 0 <= j < vars.len() ==> (#[trigger] vars[j]).0 != name,
    ensures
        lookup(vars, name) is None,
    decreases vars.len(),
{
    if vars.len() > 0 {
        lemma_lookup_none(vars.drop_first(), name);
    }
}

/// When every slot lies below `b`, nothing is discarded.
pub proof fn lemma_keep_below_all(vars: Seq<(Seq<char>, int)>, b: int)
    requires
        forall|i: int| 0 <= i < vars.len() ==> (#[trigger] vars[i]).1 < b,
    ensures
        keep_below(vars, b) == vars,
    decreases vars.len(),
{
    if vars.len() > 0 {
        lemma_keep_below_all(vars.drop_last(), b);
        assert(keep_below(vars, b) =~= vars);
    }
}

/// Under the tracker invariant, discarding the bindings at or above `b`
/// keeps exactly the first `b` bindings.
pub proof fn lemma_keep_below_take(vars: Seq<(Seq<char>, int)>, b: int)
    requires
        0 <= b <= vars.len(),
        forall|i: int| 0 <= i < vars.len() ==> (#[trigger] vars[i]).1 == i,
    ensures
        keep_below(vars, b) == vars.take(b),
    decreases vars.len(),
{
    if b == vars.len() {
        lemma_keep_below_all(vars, b);
        assert(vars.take(b) =~= vars);
    } else {
        lemma_keep_below_take(vars.drop_last(), b);
        assert(vars.drop_last().take(b) =~= vars.take(b));
    }
}

} // verus!
