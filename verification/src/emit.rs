//! The emitted instructions and their textual form.
//!
//! The generator works on structured instructions so that their meaning can
//! be stated; the builder renders them into the newline-terminated mnemonic
//! text handed to the external assembler.

use vstd::prelude::*;
use vstd::string::StringExecFns;

verus! {

/// The registers the generated code touches.
#[derive(Debug, Clone, Copy, PartialEq, Eq, Structural)]
pub enum Reg {
    Rax,
    Rbx,
    Rdi,
}

/// What a `push` pushes: a register, or the quadword at a byte offset from
/// the current stack pointer.
#[derive(Debug, Clone, Copy, PartialEq, Eq, Structural)]
pub enum PushSrc {
    Reg(Reg),
    Mem(u128),
}

/// One emitted instruction.
#[derive(Debug, Clone, Copy, PartialEq, Eq, Structural)]
pub enum Instr {
    /// `mov <reg>, <imm>`
    MovImm(Reg, i64),
    /// `push <src>`
    Push(PushSrc),
    /// `pop <reg>`
    Pop(Reg),
    /// `add rax, rbx`
    AddRegs,
    /// `sub rax, rbx`
    SubRegs,
    /// `mul rbx`
    MulReg,
    /// `div rbx`
    DivReg,
    /// `add rsp, <bytes>`
    AddRsp(u128),
    /// `syscall`
    Syscall,
}

/// The fixed assembler directives emitted ahead of the instructions.
#[derive(Debug, Clone, Copy, PartialEq, Eq, Structural)]
pub enum Directive {
    GlobalStart,
    StartLabel,
}

/// The character for one decimal digit.
pub open spec fn digit_char(d: nat) -> char {
    if d == 0 {
        '0'
    } else if d == 1 {
        '1'
    } else if d == 2 {
        '2'
    } else if d == 3 {
        '3'
    } else if d == 4 {
        '4'
    } else if d == 5 {
        '5'
    } else if d == 6 {
        '6'
    } else if d == 7 {
        '7'
    } else if d == 8 {
        '8'
    } else {
        '9'
    }
}

/// The decimal spelling of a natural number, most significant digit first.
pub open spec fn dec_str(n: nat) -> Seq<char>
    decreases n,
{
    if n < 10 {
        seq![digit_char(n)]
    } else {
        dec_str(n / 10) + seq![digit_char(n % 10)]
    }
}

/// The decimal spelling of an integer, with a leading minus sign when
/// negative.
pub open spec fn int_str(v: int) -> Seq<char> {
    if v < 0 {
        seq!['-'] + dec_str((-v) as nat)
    } else {
        dec_str(v as nat)
    }
}

pub open spec fn reg_text(r: Reg) -> Seq<char> {
    match r {
        Reg::Rax => "rax"@,
        Reg::Rbx => "rbx"@,
        Reg::Rdi => "rdi"@,
    }
}

pub open spec fn push_src_text(s: PushSrc) -> Seq<char> {
    match s {
        PushSrc::Reg(r) => reg_text(r),
        PushSrc::Mem(o) => "QWORD [rsp + "@ + dec_str(o as nat) + "]"@,
    }
}

/// The mnemonic text of one instruction, without indentation or newline.
pub open spec fn instr_text(i: Instr) -> Seq<char> {
    match i {
        Instr::MovImm(r, v) => "mov "@ + reg_text(r) + ", "@ + int_str(v as int),
        Instr::Push(s) => "push "@ + push_src_text(s),
        Instr::Pop(r) => "pop "@ + reg_text(r),
        Instr::AddRegs => "add rax, rbx"@,
        Instr::SubRegs => "sub rax, rbx"@,
        Instr::MulReg => "mul rbx"@,
        Instr::DivReg => "div rbx"@,
        Instr::AddRsp(b) => "add rsp, "@ + dec_str(b as nat),
        Instr::Syscall => "syscall"@,
    }
}

pub open spec fn dir_text(d: Directive) -> Seq<char> {
    match d {
        Directive::GlobalStart => "global _start"@,
        Directive::StartLabel => "_start:"@,
    }
}

/// Directive lines, each terminated by a newline.
pub open spec fn dir_lines(ds: Seq<Directive>) -> Seq<char>
    decreases ds.len(),
{
    if ds.len() == 0 {
        Seq::empty()
    } else {
        dir_lines(ds.drop_last()) + dir_text(ds.last()) + "\n"@
    }
}

/// Instruction lines, each indented by four spaces and newline-terminated.
pub open spec fn instr_lines(is: Seq<Instr>) -> Seq<char>
    decreases is.len(),
{
    if is.len() == 0 {
        Seq::empty()
    } else {
        instr_lines(is.drop_last()) + "    "@ + instr_text(is.last()) + "\n"@
    }
}

/// The full output text: the directives, then the instructions.
pub open spec fn builder_text(ds: Seq<Directive>, is: Seq<Instr>) -> Seq<char> {
    dir_lines(ds) + instr_lines(is)
}

/// The decimal digit `d` as a one-character string slice.
fn digit_slice(d: u128) -> (r: &'static str)
    requires
        d < 10,
    ensures
        r@ == seq![digit_char(d as nat)],
{
    proof {
        reveal_strlit("0");
        reveal_strlit("1");
        reveal_strlit("2");
        reveal_strlit("3");
        reveal_strlit("4");
        reveal_strlit("5");
        reveal_strlit("6");
        reveal_strlit("7");
        reveal_strlit("8");
        reveal_strlit("9");
    }
    let r = if d == 0 {
        "0"
    } else if d == 1 {
        "1"
    } else if d == 2 {
        "2"
    } else if d == 3 {
        "3"
    } else if d == 4 {
        "4"
    } else if d == 5 {
        "5"
    } else if d == 6 {
        "6"
    } else if d == 7 {
        "7"
    } else if d == 8 {
        "8"
    } else {
        "9"
    };
    proof {
        assert(r@ =~= seq![digit_char(d as nat)]);
    }
    r
}

/// Render a natural number in decimal.
fn u128_to_dec(n: u128) -> (r: String)
    ensures
        r@ == dec_str(n as nat),
    decreases n,
{
    if n < 10 {
        String::from_str(digit_slice(n))
    } else {
        let mut s = u128_to_dec(n / 10);
        s.append(digit_slice(n % 10));
        s
    }
}

/// Render a signed integer in decimal.
pub(crate) fn i64_to_dec(n: i64) -> (r: String)
    ensures
        r@ == int_str(n as int),
{
    if n < 0 {
        let mag: u128 = (-(n as i128)) as u128;
        let mut s = String::from_str("-");
        s.append(u128_to_dec(mag).as_str());
        proof {
            reveal_strlit("-");
            assert(s@ =~= int_str(n as int));
        }
        s
    } else {
        u128_to_dec(n as u128)
    }
}

fn reg_slice(r: &Reg) -> (t: &'static str)
    ensures
        t@ == reg_text(*r),
{
    match r {
        Reg::Rax => "rax",
        Reg::Rbx => "rbx",
        Reg::Rdi => "rdi",
    }
}

fn dir_slice(d: &Directive) -> (t: &'static str)
    ensures
        t@ == dir_text(*d),
{
    match d {
        Directive::GlobalStart => "global _start",
        Directive::StartLabel => "_start:",
    }
}

/// Render one instruction into its mnemonic text.
pub fn render_instr(i: &Instr) -> (r: String)
    ensures
        r@ == instr_text(*i),
{
    match i {
        Instr::MovImm(reg, v) => {
            let mut s = String::from_str("mov ");
            s.append(reg_slice(reg));
            s.append(", ");
            s.append(i64_to_dec(*v).as_str());
            proof {
                assert(s@ =~= instr_text(*i));
            }
            s
        },
        Instr::Push(src) => {
            let mut s = String::from_str("push ");
            match src {
                PushSrc::Reg(reg) => {
                    s.append(reg_slice(reg));
                },
                PushSrc::Mem(o) => {
                    s.append("QWORD [rsp + ");
                    s.append(u128_to_dec(*o).as_str());
                    s.append("]");
                },
            }
            proof {
                assert(s@ =~= instr_text(*i));
            }
            s
        },
        Instr::Pop(reg) => {
            let mut s = String::from_str("pop ");
            s.append(reg_slice(reg));
            proof {
                assert(s@ =~= instr_text(*i));
            }
            s
        },
        Instr::AddRegs => String::from_str("add rax, rbx"),
        Instr::SubRegs => String::from_str("sub rax, rbx"),
        Instr::MulReg => String::from_str("mul rbx"),
        Instr::DivReg => String::from_str("div rbx"),
        Instr::AddRsp(b) => {
            let mut s = String::from_str("add rsp, ");
            s.append(u128_to_dec(*b).as_str());
            proof {
                assert(s@ =~= instr_text(*i));
            }
            s
        },
        Instr::Syscall => String::from_str("syscall"),
    }
}

/// Collects the output program: the fixed directives, then every emitted
/// instruction in order.
pub struct AsmBuilder {
    pub directives: Vec<Directive>,
    pub instrs: Vec<Instr>,
}

impl AsmBuilder {
    /// A fresh builder already carries the fixed entry-point directives.
    pub fn new() -> (b: AsmBuilder)
        ensures
            b.directives@ =~= seq![Directive::GlobalStart, Directive::StartLabel],
            b.instrs@ =~= Seq::<Instr>::empty(),
    {
        let mut builder = AsmBuilder { directives: Vec::new(), instrs: Vec::new() };
        builder.add_directive(Directive::GlobalStart);
        builder.add_directive(Directive::StartLabel);
        builder
    }

    pub fn add_directive(&mut self, directive: Directive)
        ensures
            final(self).directives@ == old(self).directives@.push(directive),
            final(self).instrs@ == old(self).instrs@,
    {
        self.directives.push(directive);
    }

    pub fn add_instruction(&mut self, instruction: Instr)
        ensures
            final(self).instrs@ == old(self).instrs@.push(instruction),
            final(self).directives@ == old(self).directives@,
    {
        self.instrs.push(instruction);
    }

    /// Render everything collected so far as the output text.
    pub fn build(&self) -> (r: String)
        ensures
            r@ == builder_text(self.directives@, self.instrs@),
    {
        let mut s = String::new();
        let mut k: usize = 0;
        while k < self.directives.len()
            invariant
                k <= self.directives.len(),
                s@ == dir_lines(self.directives@.take(k as int)),
            decreases self.directives.len() - k,
        {
            s.append(dir_slice(&self.directives[k]));
            s.append("\n");
            proof {
                assert(self.directives@.take(k + 1int).drop_last() =~= self.directives@.take(
                    k as int,
                ));
                assert(self.directives@.take(k + 1int).last() == self.directives@[k as int]);
            }
            k = k + 1;
        }
        proof {
            assert(self.directives@.take(self.directives@.len() as int) =~= self.directives@);
        }
        let mut j: usize = 0;
        while j < self.instrs.len()
            invariant
                j <= self.instrs.len(),
                s@ == dir_lines(self.directives@) + instr_lines(self.instrs@.take(j as int)),
            decreases self.instrs.len() - j,
        {
            s.append("    ");
            let line = render_instr(&self.instrs[j]);
            s.append(line.as_str());
            s.append("\n");
            proof {
                assert(self.instrs@.take(j + 1int).drop_last() =~= self.instrs@.take(j as int));
                assert(self.instrs@.take(j + 1int).last() == self.instrs@[j as int]);
                assert(s@ =~= dir_lines(self.directives@) + instr_lines(
                    self.instrs@.take(j + 1int),
                ));
            }
            j = j + 1;
        }
        proof {
            assert(self.instrs@.take(self.instrs@.len() as int) =~= self.instrs@);
            assert(dir_lines(self.directives@).add(Seq::empty()) =~= dir_lines(self.directives@));
        }
        s
    }
}

} // verus!
