//! The canonical text of instructions: one instruction to a line, written
//! as `MOV.I $6, $7999`, with the opcode and the modifier spelled out, a mark
//! for the mode of each operand and its pointer in decimal digits.

use crate::instructions::{Instruction, Modifier, OpCode, Operand, OperandMode};
use vstd::prelude::*;

verus! {

/// The character of a digit.
pub open spec fn digit(d: int) -> char {
    if d == 0 {
        '0'
    } else if d == 1 {
        '1'
    } else if d == 2 {
        '2'
    } else if d == 3 {
        '3'
    } else if d == 4 {
        '4'
    } else if d == 5 {
        '5'
    } else if d == 6 {
        '6'
    } else if d == 7 {
        '7'
    } else if d == 8 {
        '8'
    } else {
        '9'
    }
}

/// The decimal digits of a number, without leading zeros.
pub open spec fn decimal(n: nat) -> Seq<char>
    decreases n,
{
    if n < 10 {
        seq![digit(n as int)]
    } else {
        decimal(n / 10).push(digit((n % 10) as int))
    }
}

/// How an opcode is written.
pub open spec fn opcode_word(op: OpCode) -> Seq<char> {
    match op {
        OpCode::Dat => seq!['D', 'A', 'T'],
        OpCode::Mov => seq!['M', 'O', 'V'],
        OpCode::Add => seq!['A', 'D', 'D'],
        OpCode::Sub => seq!['S', 'U', 'B'],
        OpCode::Mul => seq!['M', 'U', 'L'],
        OpCode::Div => seq!['D', 'I', 'V'],
        OpCode::Mod => seq!['M', 'O', 'D'],
        OpCode::Jmp => seq!['J', 'M', 'P'],
        OpCode::Jmz => seq!['J', 'M', 'Z'],
        OpCode::Jmn => seq!['J', 'M', 'N'],
        OpCode::Djn => seq!['D', 'J', 'N'],
        OpCode::Cmp => seq!['C', 'M', 'P'],
        OpCode::Slt => seq!['S', 'L', 'T'],
        OpCode::Spl => seq!['S', 'P', 'L'],
    }
}

/// How a modifier is written.
pub open spec fn modifier_word(modifier: Modifier) -> Seq<char> {
    match modifier {
        Modifier::A => seq!['A'],
        Modifier::B => seq!['B'],
        Modifier::AB => seq!['A', 'B'],
        Modifier::BA => seq!['B', 'A'],
        Modifier::F => seq!['F'],
        Modifier::X => seq!['X'],
        Modifier::I => seq!['I'],
    }
}

/// The mark of an addressing mode.
pub open spec fn mode_mark(mode: OperandMode) -> char {
    match mode {
        OperandMode::Immediate => '#',
        OperandMode::Direct => '$',
        OperandMode::Indirect => '@',
        OperandMode::Decrement => '<',
        OperandMode::Increment => '>',
    }
}

/// How an operand is written: the mark of its mode, then its pointer.
pub open spec fn operand_text<const CORE_SIZE: usize>(operand: Operand<CORE_SIZE>) -> Seq<char> {
    seq![mode_mark(operand.mode)] + decimal(operand.pointer.value as nat)
}

/// How the opcode and the modifier of an instruction are written.
pub open spec fn operation_text(op: OpCode, modifier: Modifier) -> Seq<char> {
    opcode_word(op).push('.') + modifier_word(modifier)
}

/// How an instruction is written.
pub open spec fn instruction_text<const CORE_SIZE: usize>(
    instruction: Instruction<CORE_SIZE>,
) -> Seq<char> {
    (operation_text(instruction.op, instruction.modifier).push(' ') + operand_text(
        instruction.a_operand,
    ).push(',')).push(' ') + operand_text(instruction.b_operand)
}

/// The canonical text of instructions: each on a line of its own.
pub open spec fn listing<const CORE_SIZE: usize>(
    instructions: Seq<Instruction<CORE_SIZE>>,
) -> Seq<char>
    decreases instructions.len(),
{
    if instructions.len() == 0 {
        Seq::empty()
    } else {
        (listing(instructions.drop_last()) + instruction_text(instructions.last())).push('\n')
    }
}

/// Writes a digit.
fn digit_text(d: usize) -> (r: &'static str)
    requires
        d < 10,
    ensures
        r@ == seq![digit(d as int)],
{
    proof {
        reveal_strlit("0");
        reveal_strlit("1");
        reveal_strlit("2");
        reveal_strlit("3");
        reveal_strlit("4");
        reveal_strlit("5");
        reveal_strlit("6");
        reveal_strlit("7");
        reveal_strlit("8");
        reveal_strlit("9");
    }
    let r = if d == 0 {
        "0"
    } else if d == 1 {
        "1"
    } else if d == 2 {
        "2"
    } else if d == 3 {
        "3"
    } else if d == 4 {
        "4"
    } else if d == 5 {
        "5"
    } else if d == 6 {
        "6"
    } else if d == 7 {
        "7"
    } else if d == 8 {
        "8"
    } else {
        "9"
    };
    proof {
        assert(r@ =~= seq![digit(d as int)]);
    }
    r
}

/// Writes a number in decimal digits.
pub fn write_decimal(n: usize) -> (r: String)
    ensures
        r@ == decimal(n as nat),
    decreases n,
{
    if n < 10 {
        String::from_str(digit_text(n))
    } else {
        let mut text = write_decimal(n / 10);
        text.append(digit_text(n % 10));
        proof {
            assert(text@ =~= decimal(n as nat));
        }
        text
    }
}

/// Writes an opcode.
fn write_opcode(op: OpCode) -> (r: &'static str)
    ensures
        r@ == opcode_word(op),
{
    proof {
        reveal_strlit("DAT");
        reveal_strlit("MOV");
        reveal_strlit("ADD");
        reveal_strlit("SUB");
        reveal_strlit("MUL");
        reveal_strlit("DIV");
        reveal_strlit("MOD");
        reveal_strlit("JMP");
        reveal_strlit("JMZ");
        reveal_strlit("JMN");
        reveal_strlit("DJN");
        reveal_strlit("CMP");
        reveal_strlit("SLT");
        reveal_strlit("SPL");
    }
    let r = match op {
        OpCode::Dat => "DAT",
        OpCode::Mov => "MOV",
        OpCode::Add => "ADD",
        OpCode::Sub => "SUB",
        OpCode::Mul => "MUL",
        OpCode::Div => "DIV",
        OpCode::Mod => "MOD",
        OpCode::Jmp => "JMP",
        OpCode::Jmz => "JMZ",
        OpCode::Jmn => "JMN",
        OpCode::Djn => "DJN",
        OpCode::Cmp => "CMP",
        OpCode::Slt => "SLT",
        OpCode::Spl => "SPL",
    };
    proof {
        assert(r@ =~= opcode_word(op));
    }
    r
}

/// Writes a modifier.
fn write_modifier(modifier: Modifier) -> (r: &'static str)
    ensures
        r@ == modifier_word(modifier),
{
    proof {
        reveal_strlit("A");
        reveal_strlit("B");
        reveal_strlit("AB");
        reveal_strlit("BA");
        reveal_strlit("F");
        reveal_strlit("X");
        reveal_strlit("I");
    }
    let r = match modifier {
        Modifier::A => "A",
        Modifier::B => "B",
        Modifier::AB => "AB",
        Modifier::BA => "BA",
        Modifier::F => "F",
        Modifier::X => "X",
        Modifier::I => "I",
    };
    proof {
        assert(r@ =~= modifier_word(modifier));
    }
    r
}

/// Writes the mark of an addressing mode.
fn write_mark(mode: OperandMode) -> (r: &'static str)
    ensures
        r@ == seq![mode_mark(mode)],
{
    proof {
        reveal_strlit("#");
        reveal_strlit("$");
        reveal_strlit("@");
        reveal_strlit("<");
        reveal_strlit(">");
    }
    let r = match mode {
        OperandMode::Immediate => "#",
        OperandMode::Direct => "$",
        OperandMode::Indirect => "@",
        OperandMode::Decrement => "<",
        OperandMode::Increment => ">",
    };
    proof {
        assert(r@ =~= seq![mode_mark(mode)]);
    }
    r
}

/// Writes an instruction.
pub fn write_instruction<const CORE_SIZE: usize>(instruction: &Instruction<CORE_SIZE>) -> (r:
    String)
    ensures
        r@ == instruction_text(*instruction),
{
    proof {
        reveal_strlit(".");
        reveal_strlit(" ");
        reveal_strlit(",");
    }
    let mut text = String::from_str(write_opcode(instruction.op));
    text.append(".");
    text.append(write_modifier(instruction.modifier));
    text.append(" ");
    text.append(write_mark(instruction.a_operand.mode));
    text.append(write_decimal(instruction.a_operand.pointer.value).as_str());
    text.append(",");
    text.append(" ");
    text.append(write_mark(instruction.b_operand.mode));
    text.append(write_decimal(instruction.b_operand.pointer.value).as_str());
    proof {
        assert("."@ =~= seq!['.']);
        assert(" "@ =~= seq![' ']);
        assert(","@ =~= seq![',']);
        assert(text@ =~= instruction_text(*instruction));
    }
    text
}

/// Writes the canonical text of instructions.
pub fn write_listing<const CORE_SIZE: usize>(instructions: &Vec<Instruction<CORE_SIZE>>) -> (r:
    String)
    ensures
        r@ == listing(instructions@),
{
    proof {
        reveal_strlit("\n");
    }
    let mut text = String::new();
    let mut at: usize = 0;
    proof {
        assert(instructions@.take(0) =~= Seq::<Instruction<CORE_SIZE>>::empty());
    }
    while at < instructions.len()
        invariant
            at <= instructions@.len(),
            text@ == listing(instructions@.take(at as int)),
            "\n"@ == seq!['\n'],
        decreases instructions@.len() - at,
    {
        let line = write_instruction(&instructions[at]);
        proof {
            assert(instructions@.take(at as int + 1).drop_last() =~= instructions@.take(at as int));
            assert(instructions@.take(at as int + 1).last() == instructions@[at as int]);
        }
        let ghost before = text@;
        text.append(line.as_str());
        text.append("\n");
        proof {
            assert(text@ =~= (before + line@).push('\n'));
        }
        at += 1;
    }
    proof {
        assert(instructions@.take(instructions@.len() as int) =~= instructions@);
    }
    text
}

} // verus!
