//! The abstract instruction model and its textual rendering.
//!
//! A `RegOffset` operand renders as a memory dereference at the base
//! register minus `8 * slot`: slots are one machine word wide and the
//! stack grows downward. Any operand may stand on either side of an
//! instruction; in particular the subtraction a `BinOp` emits writes to
//! a memory operand, updating the saved left value in place, before a
//! move brings the difference back into the accumulator.

use vstd::prelude::*;

use crate::numeral::int_text;
use crate::numeral::append_i32;

verus! {

/// The two registers of the fixed register convention: `RAX` is the
/// accumulator holding the current value, `RSP` the stack pointer that
/// slots are addressed from.
#[derive(Debug, Clone, Copy, PartialEq, Eq, Structural)]
pub enum Reg {
    RAX,
    RSP,
}

/// An instruction operand.
#[derive(Debug, Clone, Copy, PartialEq, Eq, Structural)]
pub enum Val {
    Reg(Reg),
    Imm(i32),
    RegOffset(Reg, i32),
}

/// An instruction; the sequence they are emitted in is significant.
#[derive(Debug, Clone, Copy, PartialEq, Eq, Structural)]
pub enum Instr {
    IMov(Val, Val),
    IAdd(Val, Val),
    ISub(Val, Val),
    IMul(Val, Val),
}

/// The text of a register name.
pub open spec fn reg_text(r: Reg) -> Seq<char> {
    match r {
        Reg::RAX => "rax"@,
        Reg::RSP => "rsp"@,
    }
}

/// The text of an operand.
pub open spec fn val_text(v: Val) -> Seq<char> {
    match v {
        Val::Reg(r) => reg_text(r),
        Val::Imm(i) => int_text(i as int),
        Val::RegOffset(r, slot) => "["@ + reg_text(r) + " - 8*"@ + int_text(slot as int) + "]"@,
    }
}

/// The text of one instruction line (without a line terminator).
pub open spec fn instr_text(i: Instr) -> Seq<char> {
    match i {
        Instr::IMov(a, b) => "mov "@ + val_text(a) + ", "@ + val_text(b),
        Instr::IAdd(a, b) => "add "@ + val_text(a) + ", "@ + val_text(b),
        Instr::ISub(a, b) => "sub "@ + val_text(a) + ", "@ + val_text(b),
        Instr::IMul(a, b) => "mul "@ + val_text(a) + ", "@ + val_text(b),
    }
}

/// The text of a whole instruction sequence, one line per instruction,
/// each terminated by a newline.
pub open spec fn program_text(instrs: Seq<Instr>) -> Seq<char>
    decreases instrs.len(),
{
    if instrs.len() == 0 {
        Seq::empty()
    } else {
        program_text(instrs.drop_last()) + instr_text(instrs.last()) + seq!['\n']
    }
}

impl Reg {
    /// The register's name in assembly text.
    pub fn to_string(&self) -> (r: String)
        ensures
            r@ == reg_text(*self),
    {
        match self {
            Reg::RAX => String::from_str("rax"),
            Reg::RSP => String::from_str("rsp"),
        }
    }
}

/// Renders one operand as a text fragment.
pub fn val_to_str(v: &Val) -> (r: String)
    ensures
        r@ == val_text(*v),
{
    match v {
        Val::Reg(reg) => reg.to_string(),
        Val::Imm(i) => {
            let mut s = String::new();
            append_i32(&mut s, *i);
            proof {
                assert(s@ =~= val_text(*v));
            }
            s
        },
        Val::RegOffset(reg, slot) => {
            let mut s = String::from_str("[");
            let rs = reg.to_string();
            s.append(rs.as_str());
            s.append(" - 8*");
            append_i32(&mut s, *slot);
            s.append("]");
            proof {
                assert(s@ =~= val_text(*v));
            }
            s
        },
    }
}

/// Renders one instruction as a text line (without a line terminator).
pub fn instr_to_str(i: &Instr) -> (r: String)
    ensures
        r@ == instr_text(*i),
{
    let (mnemonic, a, b) = match i {
        Instr::IMov(a, b) => ("mov ", a, b),
        Instr::IAdd(a, b) => ("add ", a, b),
        Instr::ISub(a, b) => ("sub ", a, b),
        Instr::IMul(a, b) => ("mul ", a, b),
    };
    let mut s = String::from_str(mnemonic);
    let at = val_to_str(a);
    s.append(at.as_str());
    s.append(", ");
    let bt = val_to_str(b);
    s.append(bt.as_str());
    proof {
        assert(s@ =~= instr_text(*i));
    }
    s
}

/// Renders an instruction sequence as assembly text, one line per
/// instruction.
pub fn instrs_to_string(instrs: &Vec<Instr>) -> (r: String)
    ensures
        r@ == program_text(instrs@),
{
    let mut s = String::new();
    for i in 0..instrs.len()
        invariant
            s@ == program_text(instrs@.take(i as int)),
    {
        let line = instr_to_str(&instrs[i]);
        s.append(line.as_str());
        s.append("\n");
        proof {
            reveal_strlit("\n");
            let pre = instrs@.take(i as int);
            assert(instrs@.take(i + 1).drop_last() =~= pre);
            assert(instrs@.take(i + 1).last() == instrs@[i as int]);
            assert(s@ =~= program_text(pre) + instr_text(instrs@[i as int]) + seq!['\n']);
        }
    }
    proof {
        assert(instrs@.take(instrs@.len() as int) =~= instrs@);
    }
    s
}

} // verus!
