use corewar::instructions::{Instruction, Modifier, OpCode, Operand, OperandMode};
use corewar::listing::{write_decimal, write_instruction, write_listing};
use corewar::numeric::Numeric;
use corewar::parser::parse;

fn ins(
    op: OpCode,
    modifier: Modifier,
    a_mode: OperandMode,
    a: usize,
    b_mode: OperandMode,
    b: usize,
) -> Instruction<8000> {
    Instruction {
        op,
        modifier,
        a_operand: Operand { pointer: Numeric::new(a), mode: a_mode },
        b_operand: Operand { pointer: Numeric::new(b), mode: b_mode },
    }
}

#[test]
fn numbers_in_decimal() {
    assert_eq!("0", write_decimal(0));
    assert_eq!("7", write_decimal(7));
    assert_eq!("10", write_decimal(10));
    assert_eq!("7999", write_decimal(7999));
    assert_eq!("1234567890", write_decimal(1234567890));
    assert_eq!(usize::MAX.to_string(), write_decimal(usize::MAX));
}

#[test]
fn instructions_in_canonical_text() {
    assert_eq!(
        "MOV.I $6, $7999",
        write_instruction(&ins(
            OpCode::Mov,
            Modifier::I,
            OperandMode::Direct,
            6,
            OperandMode::Direct,
            7999
        ))
    );
    assert_eq!(
        "SPL.B $6, <7997",
        write_instruction(&ins(
            OpCode::Spl,
            Modifier::B,
            OperandMode::Direct,
            6,
            OperandMode::Decrement,
            7997
        ))
    );
    assert_eq!(
        "DJN.BA #0, >12",
        write_instruction(&ins(
            OpCode::Djn,
            Modifier::BA,
            OperandMode::Immediate,
            0,
            OperandMode::Increment,
            12
        ))
    );
    assert_eq!(
        "CMP.X @1, @2",
        write_instruction(&ins(
            OpCode::Cmp,
            Modifier::X,
            OperandMode::Indirect,
            1,
            OperandMode::Indirect,
            2
        ))
    );
    assert_eq!("", write_listing::<8000>(&vec![]));
}

#[test]
fn every_instruction_is_read_back_as_it_was_written() {
    let ops = [
        OpCode::Dat,
        OpCode::Mov,
        OpCode::Add,
        OpCode::Sub,
        OpCode::Mul,
        OpCode::Div,
        OpCode::Mod,
        OpCode::Jmp,
        OpCode::Jmz,
        OpCode::Jmn,
        OpCode::Djn,
        OpCode::Cmp,
        OpCode::Slt,
        OpCode::Spl,
    ];
    let modifiers = [
        Modifier::A,
        Modifier::B,
        Modifier::AB,
        Modifier::BA,
        Modifier::F,
        Modifier::X,
        Modifier::I,
    ];
    let modes = [
        OperandMode::Immediate,
        OperandMode::Direct,
        OperandMode::Indirect,
        OperandMode::Decrement,
        OperandMode::Increment,
    ];
    let mut all = Vec::new();
    let mut n = 0;
    for op in ops {
        for modifier in modifiers {
            for a_mode in modes {
                let b_mode = modes[n % 5];
                all.push(ins(op, modifier, a_mode, (n * 37) % 8000, b_mode, (n * 1009) % 8000));
                n += 1;
            }
        }
    }
    let text = write_listing(&all);
    assert_eq!(all.len(), text.lines().count());
    let read = parse::<8000>(text).unwrap();
    assert_eq!(all, read);
}

#[test]
fn what_was_assembled_is_assembled_again_from_its_listing() {
    let source = "
        step equ 4
        start: add #step, target
               mov.ab 2, @target ; bomb
               jmp start, <-1
        target: dat #0, #step*2-1
    ";
    let first = parse::<8000>(source.to_string()).unwrap();
    let text = write_listing(&first);
    assert_eq!("ADD.AB #4, $3\nMOV.AB $2, @2\nJMP.B $7998, <7999\nDAT.F #0, #7\n", text);
    let second = parse::<8000>(text.clone()).unwrap();
    assert_eq!(first, second);
    assert_eq!(text, write_listing(&second));
}
