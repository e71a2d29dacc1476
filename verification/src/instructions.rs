//! The instruction model: opcode, modifier and two operands, each with an
//! addressing mode.

use crate::numeric::Numeric;
use vstd::prelude::*;
use vstd::std_specs::cmp::PartialEqSpecImpl;

verus! {

/// What an instruction does.
#[derive(Copy, Clone, PartialEq, Eq, Structural, Debug)]
pub enum OpCode {
    Dat,
    Mov,
    Add,
    Sub,
    Mul,
    Div,
    Mod,
    Jmp,
    Jmz,
    Jmn,
    Djn,
    Cmp,
    Slt,
    Spl,
}

/// Which fields of the two instructions an opcode works on.
#[derive(Copy, Clone, PartialEq, Eq, Structural, Debug)]
pub enum Modifier {
    A,
    B,
    AB,
    BA,
    F,
    X,
    I,
}

/// How an operand leads to an address: `#`, `$`, `@`, `<` and `>`.
#[derive(Clone, Copy, PartialEq, Eq, Structural, Debug)]
pub enum OperandMode {
    Immediate,
    Direct,
    Indirect,
    Decrement,
    Increment,
}

/// One field of an instruction: a pointer and the mode in which it is read.
#[derive(Clone, Copy, Debug)]
pub struct Operand<const CORE_SIZE: usize> {
    pub pointer: Numeric<CORE_SIZE>,
    pub mode: OperandMode,
}

/// What a cell of the core holds.
#[derive(Clone, Copy, Debug)]
pub struct Instruction<const CORE_SIZE: usize> {
    pub op: OpCode,
    pub modifier: Modifier,
    pub a_operand: Operand<CORE_SIZE>,
    pub b_operand: Operand<CORE_SIZE>,
}

impl<const CORE_SIZE: usize> PartialEq for Operand<CORE_SIZE> {
    fn eq(&self, other: &Self) -> (r: bool) {
        self.pointer.value == other.pointer.value && self.mode == other.mode
    }
}

impl<const CORE_SIZE: usize> PartialEqSpecImpl for Operand<CORE_SIZE> {
    open spec fn obeys_eq_spec() -> bool {
        true
    }

    open spec fn eq_spec(&self, other: &Self) -> bool {
        *self == *other
    }
}

impl<const CORE_SIZE: usize> PartialEq for Instruction<CORE_SIZE> {
    fn eq(&self, other: &Self) -> (r: bool) {
        self.op == other.op && self.modifier == other.modifier && self.a_operand == other.a_operand
            && self.b_operand == other.b_operand
    }
}

impl<const CORE_SIZE: usize> PartialEqSpecImpl for Instruction<CORE_SIZE> {
    open spec fn obeys_eq_spec() -> bool {
        true
    }

    open spec fn eq_spec(&self, other: &Self) -> bool {
        *self == *other
    }
}

impl<const CORE_SIZE: usize> Operand<CORE_SIZE> {
    /// The pointer is a reduced representative.
    pub open spec fn wf(self) -> bool {
        self.pointer.wf()
    }

    /// The same operand with its pointer reduced.
    pub open spec fn reduced(self) -> Self {
        Operand { pointer: Numeric::reduce(self.pointer.value as int), mode: self.mode }
    }
}

impl<const CORE_SIZE: usize> Instruction<CORE_SIZE> {
    /// Both pointers are reduced representatives.
    pub open spec fn wf(self) -> bool {
        self.a_operand.wf() && self.b_operand.wf()
    }

    /// The same instruction with both pointers reduced.
    pub open spec fn reduced(self) -> Self {
        Instruction {
            op: self.op,
            modifier: self.modifier,
            a_operand: self.a_operand.reduced(),
            b_operand: self.b_operand.reduced(),
        }
    }

    /// Reduces both pointers.
    pub fn normalized(self) -> (r: Self)
        requires
            CORE_SIZE > 0,
        ensures
            r == self.reduced(),
            r.wf(),
    {
        Instruction {
            op: self.op,
            modifier: self.modifier,
            a_operand: Operand {
                pointer: Numeric::new(self.a_operand.pointer.value),
                mode: self.a_operand.mode,
            },
            b_operand: Operand {
                pointer: Numeric::new(self.b_operand.pointer.value),
                mode: self.b_operand.mode,
            },
        }
    }

    /// What every cell of a fresh core holds: `DAT.A $0, $0`.
    pub open spec fn spec_blank() -> Self {
        Instruction {
            op: OpCode::Dat,
            modifier: Modifier::A,
            a_operand: Operand { pointer: Numeric { value: 0 }, mode: OperandMode::Direct },
            b_operand: Operand { pointer: Numeric { value: 0 }, mode: OperandMode::Direct },
        }
    }

    /// The instruction that fills a fresh core.
    #[verifier::when_used_as_spec(spec_blank)]
    pub fn blank() -> (r: Self)
        ensures
            r == Self::spec_blank(),
    {
        Instruction {
            op: OpCode::Dat,
            modifier: Modifier::A,
            a_operand: Operand { pointer: Numeric { value: 0 }, mode: OperandMode::Direct },
            b_operand: Operand { pointer: Numeric { value: 0 }, mode: OperandMode::Direct },
        }
    }
}

} // verus!
