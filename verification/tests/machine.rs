use corewar::event::{EventType, Observable, Observer, VmEvent};
use corewar::instructions::{Instruction, Modifier, OpCode, Operand, OperandMode};
use corewar::numeric::Numeric;
use corewar::vms::{Vm, WarriorDefinition};
use std::cell::RefCell;
use std::rc::Rc;

const SIZE: usize = 8000;

fn ins(
    op: OpCode,
    modifier: Modifier,
    a_mode: OperandMode,
    a: usize,
    b_mode: OperandMode,
    b: usize,
) -> Instruction<SIZE> {
    Instruction {
        op,
        modifier,
        a_operand: Operand { pointer: Numeric::new(a), mode: a_mode },
        b_operand: Operand { pointer: Numeric::new(b), mode: b_mode },
    }
}

fn dat(a: usize, b: usize) -> Instruction<SIZE> {
    ins(OpCode::Dat, Modifier::F, OperandMode::Direct, a, OperandMode::Direct, b)
}

fn imp() -> Instruction<SIZE> {
    ins(OpCode::Mov, Modifier::I, OperandMode::Direct, 0, OperandMode::Direct, 1)
}

fn warrior(name: &str, ops: Vec<Instruction<SIZE>>) -> WarriorDefinition<SIZE> {
    WarriorDefinition::new(name.to_string(), ops)
}

/// A machine with the given program at address 0 and a lone `DAT` at 4000.
fn machine(ops: Vec<Instruction<SIZE>>) -> Vm<SIZE, 32> {
    Vm::new(vec![warrior("first", ops), warrior("second", vec![dat(0, 0)])]).unwrap()
}

fn fields(vm: &Vm<SIZE, 32>, address: usize) -> (usize, usize) {
    let cell = vm.instruction_at(address).unwrap();
    (cell.a_operand.pointer.value, cell.b_operand.pointer.value)
}

fn values(pcs: Vec<Numeric<SIZE>>) -> Vec<usize> {
    pcs.iter().map(|pc| pc.value).collect()
}

struct Recorder {
    seen: Rc<RefCell<Vec<VmEvent>>>,
}

impl Observer<VmEvent> for Recorder {
    fn notify(&self, event: VmEvent) {
        self.seen.borrow_mut().push(event);
    }
}

#[test]
fn loading_needs_between_2_and_50_warriors() {
    assert!(Vm::<SIZE, 32>::new(vec![]).is_err());
    assert!(Vm::<SIZE, 32>::new(vec![warrior("alone", vec![imp()])]).is_err());
    let many: Vec<WarriorDefinition<SIZE>> = (0..51).map(|_| warrior("w", vec![imp()])).collect();
    assert_eq!(
        "the number of warriors must be between 2 and 50",
        Vm::<SIZE, 32>::new(many).err().unwrap()
    );
    let fifty: Vec<WarriorDefinition<SIZE>> = (0..50).map(|_| warrior("w", vec![imp()])).collect();
    assert!(Vm::<SIZE, 32>::new(fifty).is_ok());
}

#[test]
fn loading_refuses_a_warrior_larger_than_its_slot() {
    let fits: Vec<Instruction<SIZE>> = (0..4000).map(|_| imp()).collect();
    let large: Vec<Instruction<SIZE>> = (0..4001).map(|_| imp()).collect();
    assert!(Vm::<SIZE, 32>::new(vec![warrior("a", fits), warrior("b", vec![])]).is_ok());
    assert_eq!(
        "a warrior does not fit its share of the core",
        Vm::<SIZE, 32>::new(vec![warrior("a", vec![]), warrior("b", large)]).err().unwrap()
    );
}

#[test]
fn warriors_are_loaded_evenly_spaced() {
    let vm = Vm::<SIZE, 32>::new(vec![
        warrior("a", vec![imp(), dat(1, 2)]),
        warrior("b", vec![dat(3, 4)]),
        warrior("c", vec![dat(5, 6), imp()]),
    ])
    .unwrap();
    assert_eq!(3, vm.alive());
    assert_eq!(0, vm.cursor());
    assert_eq!(0, vm.rounds());
    assert_eq!(imp(), vm.instruction_at(0).unwrap());
    assert_eq!(dat(1, 2), vm.instruction_at(1).unwrap());
    assert_eq!(Instruction::blank(), vm.instruction_at(2).unwrap());
    assert_eq!(dat(3, 4), vm.instruction_at(2666).unwrap());
    assert_eq!(Instruction::blank(), vm.instruction_at(2667).unwrap());
    assert_eq!(dat(5, 6), vm.instruction_at(5332).unwrap());
    assert_eq!(imp(), vm.instruction_at(5333).unwrap());
    assert_eq!(Instruction::blank(), vm.instruction_at(7999).unwrap());
    assert!(vm.instruction_at(8000).is_none());
    assert_eq!(vec![0], values(vm.threads(0).unwrap()));
    assert_eq!(vec![2666], values(vm.threads(1).unwrap()));
    assert_eq!(vec![5332], values(vm.threads(2).unwrap()));
    assert!(vm.threads(3).is_none());
    assert_eq!(Some(2), vm.warrior_at(2));
    assert_eq!(None, vm.warrior_at(3));
}

#[test]
fn loading_reduces_pointers() {
    let mut wide = imp();
    wide.b_operand.pointer.value = 8001;
    let vm = Vm::<SIZE, 32>::new(vec![warrior("a", vec![wide]), warrior("b", vec![])]).unwrap();
    assert_eq!(imp(), vm.instruction_at(0).unwrap());
}

#[test]
fn imp_beats_dat() {
    let mut vm = Vm::<SIZE, 32>::new(vec![
        warrior("imp", vec![imp()]),
        warrior("dat", vec![dat(0, 0)]),
    ])
    .unwrap();
    // The imp copies itself to cell 1, the other warrior loses its thread.
    assert!(vm.play(2).is_none());
    assert_eq!(imp(), vm.instruction_at(1).unwrap());
    assert_eq!(vec![1], values(vm.threads(0).unwrap()));
    assert_eq!(Vec::<usize>::new(), values(vm.threads(1).unwrap()));
    assert_eq!(1, vm.rounds());
    // The imp moves on; the warrior without a thread is removed at its turn.
    let winner = vm.play(64).unwrap();
    assert_eq!("imp", winner.name);
    assert_eq!(imp(), vm.instruction_at(2).unwrap());
    assert_eq!(1, vm.alive());
    assert_eq!(Some(0), vm.warrior_at(0));
    assert_eq!(vec![2], values(vm.threads(0).unwrap()));
    assert_eq!("imp", vm.play(64).unwrap().name);
}

#[test]
fn imp_never_ends_on_its_own() {
    let mut vm = Vm::<SIZE, 32>::new(vec![
        warrior("one", vec![imp()]),
        warrior("two", vec![imp()]),
    ])
    .unwrap();
    for _ in 0..200 {
        assert!(vm.play(100).is_none());
    }
    assert_eq!(10000, vm.rounds());
    assert_eq!(vec![10000 % SIZE], values(vm.threads(0).unwrap()));
    assert_eq!(vec![(4000 + 10000) % SIZE], values(vm.threads(1).unwrap()));
}

#[test]
fn play_without_ticks_changes_nothing() {
    let mut vm = machine(vec![imp()]);
    assert!(vm.play(0).is_none());
    assert!(vm.play(-5).is_none());
    assert_eq!(0, vm.rounds());
    assert_eq!(vec![0], values(vm.threads(0).unwrap()));
    assert_eq!(Instruction::blank(), vm.instruction_at(1).unwrap());
}

#[test]
fn every_warrior_executes_one_instruction_a_round() {
    let seen = Rc::new(RefCell::new(Vec::new()));
    let mut vm = Vm::<SIZE, 32>::new(vec![
        warrior("one", vec![imp()]),
        warrior(
            "two",
            vec![ins(OpCode::Spl, Modifier::B, OperandMode::Direct, 0, OperandMode::Direct, 0), imp()],
        ),
        warrior("three", vec![imp()]),
    ])
    .unwrap();
    vm.register(Box::new(Recorder { seen: seen.clone() }));
    assert!(vm.play(3 * 7).is_none());
    assert_eq!(7, vm.rounds());
    assert_eq!(0, vm.cursor());
    for id in 0..3 {
        // Each executed instruction of these warriors reports its jumps with
        // the place it was executed at; count the places.
        let mut executed = 0;
        let mut last: Option<(u128, usize)> = None;
        for event in seen.borrow().iter() {
            if event.warrior_id == id && matches!(event.event_type, EventType::Jump) {
                let at = (event.round, event.moved_from.unwrap());
                if last != Some(at) {
                    executed += 1;
                    last = Some(at);
                }
            }
        }
        assert_eq!(7, executed);
    }
}

#[test]
fn events_reach_the_observers_in_order() {
    let seen = Rc::new(RefCell::new(Vec::new()));
    let also = Rc::new(RefCell::new(Vec::new()));
    let mut vm = Vm::<SIZE, 32>::new(vec![
        warrior("imp", vec![imp()]),
        warrior("dat", vec![dat(0, 0)]),
    ])
    .unwrap();
    vm.register(Box::new(Recorder { seen: seen.clone() }));
    vm.register(Box::new(Recorder { seen: also.clone() }));
    assert_eq!("imp", vm.play(64).unwrap().name);
    let events = seen.borrow();
    assert_eq!(events.len(), also.borrow().len());
    // The imp writes cell 1 and jumps there.
    assert!(matches!(events[0].event_type, EventType::Change));
    assert_eq!(Some(1), events[0].offset);
    assert_eq!(None, events[0].moved_from);
    assert_eq!(0, events[0].warrior_id);
    assert_eq!(0, events[0].round);
    assert!(matches!(events[1].event_type, EventType::Jump));
    assert_eq!(Some(0), events[1].moved_from);
    assert_eq!(Some(1), events[1].offset);
    // The other warrior's thread ends at 4000.
    assert!(matches!(events[2].event_type, EventType::TerminatedThread));
    assert_eq!(Some(4000), events[2].moved_from);
    assert_eq!(None, events[2].offset);
    assert_eq!(1, events[2].warrior_id);
    assert_eq!(0, events[2].round);
    // A round later the imp moves again, and the other warrior is removed.
    assert!(matches!(events[3].event_type, EventType::Change));
    assert_eq!(Some(2), events[3].offset);
    assert_eq!(1, events[3].round);
    assert!(matches!(events[4].event_type, EventType::Jump));
    assert!(matches!(events[5].event_type, EventType::TerminatedProgram));
    assert_eq!(1, events[5].warrior_id);
    assert_eq!(None, events[5].moved_from);
    assert_eq!(None, events[5].offset);
    assert_eq!(6, events.len());
}

#[test]
fn tick_gives_the_events_of_one_step() {
    let mut vm = machine(vec![imp()]);
    let events = vm.tick();
    assert_eq!(2, events.len());
    assert!(matches!(events[0].event_type, EventType::Change));
    assert!(matches!(events[1].event_type, EventType::Jump));
    assert_eq!(1, vm.cursor());
    let events = vm.tick();
    assert_eq!(1, events.len());
    assert!(matches!(events[0].event_type, EventType::TerminatedThread));
    assert_eq!(0, vm.cursor());
    assert_eq!(1, vm.rounds());
}

#[test]
fn division_by_zero_kills_the_thread_and_writes_nothing() {
    let div = ins(OpCode::Div, Modifier::AB, OperandMode::Immediate, 0, OperandMode::Direct, 1);
    let mut vm = machine(vec![div, dat(8, 9)]);
    let events = vm.tick();
    assert!(events.is_empty());
    assert_eq!((8, 9), fields(&vm, 1));
    assert_eq!(Vec::<usize>::new(), values(vm.threads(0).unwrap()));
}

#[test]
fn division_writes_the_fields_whose_divisor_is_not_zero() {
    // DIV.AB #3, $1 divides the b-field of the next cell by 3.
    let div = ins(OpCode::Div, Modifier::AB, OperandMode::Immediate, 3, OperandMode::Direct, 1);
    let mut vm = machine(vec![div, dat(8, 9)]);
    let mut events = Vec::new();
    let next = vm.execute(div, Numeric::new(0), 0, &mut events);
    assert_eq!(vec![1], values(next));
    assert_eq!((8, 3), fields(&vm, 1));
    assert_eq!(1, events.len());

    // DIV.F $1, $2 with divisors (0, 4): only the b-field is written, and
    // the thread goes on.
    let div = ins(OpCode::Div, Modifier::F, OperandMode::Direct, 1, OperandMode::Direct, 2);
    let mut vm = machine(vec![div, dat(0, 4), dat(9, 9)]);
    let mut events = Vec::new();
    let next = vm.execute(div, Numeric::new(0), 0, &mut events);
    assert_eq!(vec![1], values(next));
    assert_eq!((9, 2), fields(&vm, 2));
    assert_eq!(1, events.len());

    // With divisors (0, 0) nothing is written and the thread ends.
    let mut vm = machine(vec![div, dat(0, 0), dat(9, 9)]);
    let mut events = Vec::new();
    let next = vm.execute(div, Numeric::new(0), 0, &mut events);
    assert!(next.is_empty());
    assert_eq!((9, 9), fields(&vm, 2));
    assert!(events.is_empty());

    // MOD.X $1, $2: a := a mod source b, b := b mod source a.
    let rem = ins(OpCode::Mod, Modifier::X, OperandMode::Direct, 1, OperandMode::Direct, 2);
    let mut vm = machine(vec![rem, dat(4, 5), dat(13, 11)]);
    let mut events = Vec::new();
    let next = vm.execute(rem, Numeric::new(0), 0, &mut events);
    assert_eq!(vec![1], values(next));
    assert_eq!((13 % 5, 11 % 4), fields(&vm, 2));
}

#[test]
fn split_is_refused_when_the_queue_is_full() {
    let spl = ins(OpCode::Spl, Modifier::B, OperandMode::Direct, 5, OperandMode::Direct, 0);
    // One thread waits and the queue size is 2: no room for two more.
    let mut tight = Vm::<SIZE, 2>::new(vec![warrior("a", vec![spl]), warrior("b", vec![])]).unwrap();
    let mut events = Vec::new();
    let next = tight.execute(spl, Numeric::new(10), 0, &mut events);
    assert_eq!(vec![11], values(next));
    // With room, the new thread follows the old one.
    let mut roomy = machine(vec![spl]);
    let next = roomy.execute(spl, Numeric::new(10), 0, &mut events);
    assert_eq!(vec![11, 15], values(next));
    assert!(events.is_empty());
}

#[test]
fn split_fills_the_queue_and_no_more() {
    let spl = ins(OpCode::Spl, Modifier::B, OperandMode::Direct, 0, OperandMode::Direct, 0);
    let jmp = ins(OpCode::Jmp, Modifier::B, OperandMode::Direct, SIZE - 1, OperandMode::Direct, 0);
    let mut vm = Vm::<SIZE, 4>::new(vec![
        warrior("a", vec![spl, jmp]),
        warrior("b", vec![spl, jmp]),
    ])
    .unwrap();
    let mut longest = 0;
    for _ in 0..100 {
        assert!(vm.play(1).is_none());
        longest = longest.max(vm.threads(0).unwrap().len());
        assert!(vm.threads(0).unwrap().len() <= 4);
        assert!(vm.threads(1).unwrap().len() <= 4);
    }
    assert_eq!(4, longest);
}

#[test]
fn djn_decrements_then_branches_on_any_nonzero_field() {
    let djn = ins(OpCode::Djn, Modifier::F, OperandMode::Direct, 7, OperandMode::Direct, 1);
    // (1, 1) becomes (0, 0): the thread falls through.
    let mut vm = machine(vec![djn, dat(1, 1)]);
    let mut events = Vec::new();
    let next = vm.execute(djn, Numeric::new(0), 0, &mut events);
    assert_eq!((0, 0), fields(&vm, 1));
    assert_eq!(vec![1], values(next));
    assert_eq!(1, events.len());
    assert_eq!(Some(1), events[0].offset);
    // (2, 0) becomes (1, 7999): the thread branches.
    let mut vm = machine(vec![djn, dat(2, 0)]);
    let next = vm.execute(djn, Numeric::new(0), 0, &mut events);
    assert_eq!((1, SIZE - 1), fields(&vm, 1));
    assert_eq!(vec![7], values(next));
    // (1, 0) becomes (0, 7999): a selected field is not zero, the thread branches.
    let mut vm = machine(vec![djn, dat(1, 0)]);
    let next = vm.execute(djn, Numeric::new(0), 0, &mut events);
    assert_eq!((0, SIZE - 1), fields(&vm, 1));
    assert_eq!(vec![7], values(next));
    // DJN.A looks at the a-field alone.
    let djn = ins(OpCode::Djn, Modifier::A, OperandMode::Direct, 7, OperandMode::Direct, 1);
    let mut vm = machine(vec![djn, dat(1, 5)]);
    let next = vm.execute(djn, Numeric::new(0), 0, &mut events);
    assert_eq!((0, 5), fields(&vm, 1));
    assert_eq!(vec![1], values(next));
}

#[test]
fn folding_resolves_each_mode() {
    let mut vm = machine(vec![dat(0, 0), dat(0, 5), dat(0, 0)]);
    let ip = Numeric::new(0);
    let mut events = Vec::new();
    let operand = |mode| Operand { pointer: Numeric::<SIZE>::new(1), mode };
    assert_eq!(0, vm.fold(operand(OperandMode::Immediate), ip, 0, &mut events).value);
    assert_eq!(1, vm.fold(operand(OperandMode::Direct), ip, 0, &mut events).value);
    assert_eq!(6, vm.fold(operand(OperandMode::Indirect), ip, 0, &mut events).value);
    assert!(events.is_empty());
    // The stepping modes change the b-field first and then read it.
    assert_eq!(7, vm.fold(operand(OperandMode::Increment), ip, 3, &mut events).value);
    assert_eq!((0, 6), fields(&vm, 1));
    assert_eq!(6, vm.fold(operand(OperandMode::Decrement), ip, 3, &mut events).value);
    assert_eq!((0, 5), fields(&vm, 1));
    assert_eq!(2, events.len());
    assert!(matches!(events[0].event_type, EventType::Change));
    assert_eq!(Some(1), events[0].offset);
    assert_eq!(3, events[0].warrior_id);
    // Addresses wrap around the core.
    let back = Operand { pointer: Numeric::<SIZE>::new(SIZE - 1), mode: OperandMode::Direct };
    assert_eq!(SIZE - 1, vm.fold(back, ip, 0, &mut events).value);
    let below = Operand { pointer: Numeric::<SIZE>::new(2), mode: OperandMode::Decrement };
    assert_eq!(1, vm.fold(below, ip, 0, &mut events).value);
    assert_eq!((0, SIZE - 1), fields(&vm, 2));
}

#[test]
fn mov_copies_what_the_modifier_selects() {
    let source = ins(OpCode::Add, Modifier::X, OperandMode::Immediate, 3, OperandMode::Indirect, 4);
    let target = dat(8, 9);
    let cases = [
        (Modifier::A, (OperandMode::Immediate, 3), (OperandMode::Direct, 9)),
        (Modifier::B, (OperandMode::Direct, 8), (OperandMode::Indirect, 4)),
        (Modifier::AB, (OperandMode::Direct, 8), (OperandMode::Immediate, 3)),
        (Modifier::BA, (OperandMode::Indirect, 4), (OperandMode::Direct, 9)),
        (Modifier::F, (OperandMode::Immediate, 3), (OperandMode::Indirect, 4)),
        (Modifier::X, (OperandMode::Indirect, 4), (OperandMode::Immediate, 3)),
    ];
    for (modifier, a, b) in cases {
        let mov = ins(OpCode::Mov, modifier, OperandMode::Direct, 1, OperandMode::Direct, 2);
        let mut vm = machine(vec![mov, source, target]);
        let mut events = Vec::new();
        let next = vm.execute(mov, Numeric::new(0), 0, &mut events);
        assert_eq!(vec![1], values(next));
        let cell = vm.instruction_at(2).unwrap();
        assert_eq!(OpCode::Dat, cell.op);
        assert_eq!(a, (cell.a_operand.mode, cell.a_operand.pointer.value));
        assert_eq!(b, (cell.b_operand.mode, cell.b_operand.pointer.value));
    }
    let mov = ins(OpCode::Mov, Modifier::I, OperandMode::Direct, 1, OperandMode::Direct, 2);
    let mut vm = machine(vec![mov, source, target]);
    let mut events = Vec::new();
    vm.execute(mov, Numeric::new(0), 0, &mut events);
    assert_eq!(source, vm.instruction_at(2).unwrap());
}

#[test]
fn arithmetic_pairs_the_fields_as_the_modifier_says() {
    let cases = [
        (OpCode::Add, Modifier::A, (8 + 3, 9)),
        (OpCode::Add, Modifier::B, (8, 9 + 4)),
        (OpCode::Add, Modifier::AB, (8, 9 + 3)),
        (OpCode::Add, Modifier::BA, (8 + 4, 9)),
        (OpCode::Add, Modifier::F, (8 + 3, 9 + 4)),
        (OpCode::Add, Modifier::I, (8 + 3, 9 + 4)),
        (OpCode::Add, Modifier::X, (8 + 4, 9 + 3)),
        (OpCode::Sub, Modifier::X, (8 - 4, 9 - 3)),
        (OpCode::Sub, Modifier::A, (8 - 3, 9)),
        (OpCode::Mul, Modifier::F, (24, 36)),
        (OpCode::Mul, Modifier::X, (32, 27)),
    ];
    for (op, modifier, expected) in cases {
        let operation = ins(op, modifier, OperandMode::Direct, 1, OperandMode::Direct, 2);
        let mut vm = machine(vec![operation, dat(3, 4), dat(8, 9)]);
        let mut events = Vec::new();
        let next = vm.execute(operation, Numeric::new(0), 0, &mut events);
        assert_eq!(vec![1], values(next));
        assert_eq!(expected, fields(&vm, 2));
        assert_eq!(1, events.len());
        assert_eq!(Some(2), events[0].offset);
    }
    // The arithmetic wraps around the core.
    let sub = ins(OpCode::Sub, Modifier::AB, OperandMode::Immediate, 5, OperandMode::Direct, 1);
    let mut vm = machine(vec![sub, dat(0, 2)]);
    let mut events = Vec::new();
    vm.execute(sub, Numeric::new(0), 0, &mut events);
    assert_eq!((0, SIZE - 3), fields(&vm, 1));
    let mul = ins(OpCode::Mul, Modifier::AB, OperandMode::Immediate, 4000, OperandMode::Direct, 1);
    let mut vm = machine(vec![mul, dat(0, 3)]);
    vm.execute(mul, Numeric::new(0), 0, &mut events);
    assert_eq!((0, 12000 % SIZE), fields(&vm, 1));
}

#[test]
fn jumps_and_skips() {
    let run = |operation: Instruction<SIZE>, data: Instruction<SIZE>| {
        let mut vm = machine(vec![operation, dat(3, 4), data]);
        let mut events = Vec::new();
        let next = vm.execute(operation, Numeric::new(0), 0, &mut events);
        assert!(events.is_empty());
        values(next)
    };
    let op = |op, modifier| ins(op, modifier, OperandMode::Direct, 1, OperandMode::Direct, 2);
    assert_eq!(vec![1], run(op(OpCode::Jmp, Modifier::B), dat(0, 0)));
    assert_eq!(vec![1], run(op(OpCode::Jmz, Modifier::F), dat(0, 0)));
    assert_eq!(vec![1], run(op(OpCode::Jmz, Modifier::A), dat(0, 7)));
    assert_eq!(vec![1], run(op(OpCode::Jmz, Modifier::AB), dat(7, 0)));
    assert_eq!(vec![1], run(op(OpCode::Jmn, Modifier::X), dat(0, 7)));
    assert_eq!(vec![1], run(op(OpCode::Jmn, Modifier::BA), dat(7, 0)));
    assert_eq!(vec![1], run(op(OpCode::Jmn, Modifier::B), dat(0, 7)));
    // Fall through: the jump target and the next cell are the same here, so
    // look at a program whose a-operand points elsewhere.
    let far = |op, modifier| ins(op, modifier, OperandMode::Direct, 9, OperandMode::Direct, 2);
    assert_eq!(vec![9], run(far(OpCode::Jmp, Modifier::B), dat(0, 0)));
    assert_eq!(vec![9], run(far(OpCode::Jmz, Modifier::F), dat(0, 0)));
    assert_eq!(vec![1], run(far(OpCode::Jmz, Modifier::F), dat(0, 7)));
    assert_eq!(vec![9], run(far(OpCode::Jmz, Modifier::A), dat(0, 7)));
    assert_eq!(vec![1], run(far(OpCode::Jmz, Modifier::B), dat(0, 7)));
    assert_eq!(vec![1], run(far(OpCode::Jmn, Modifier::I), dat(0, 0)));
    assert_eq!(vec![9], run(far(OpCode::Jmn, Modifier::I), dat(0, 7)));
    assert_eq!(vec![1], run(far(OpCode::Jmn, Modifier::A), dat(0, 7)));
    // CMP skips on a match.
    assert_eq!(vec![2], run(op(OpCode::Cmp, Modifier::A), dat(3, 0)));
    assert_eq!(vec![1], run(op(OpCode::Cmp, Modifier::A), dat(4, 4)));
    assert_eq!(vec![2], run(op(OpCode::Cmp, Modifier::B), dat(0, 4)));
    assert_eq!(vec![2], run(op(OpCode::Cmp, Modifier::AB), dat(0, 3)));
    assert_eq!(vec![2], run(op(OpCode::Cmp, Modifier::BA), dat(4, 0)));
    assert_eq!(vec![2], run(op(OpCode::Cmp, Modifier::F), dat(3, 4)));
    assert_eq!(vec![1], run(op(OpCode::Cmp, Modifier::F), dat(3, 5)));
    assert_eq!(vec![2], run(op(OpCode::Cmp, Modifier::X), dat(4, 3)));
    assert_eq!(vec![2], run(op(OpCode::Cmp, Modifier::I), dat(3, 4)));
    let other = ins(OpCode::Dat, Modifier::A, OperandMode::Direct, 3, OperandMode::Direct, 4);
    assert_eq!(vec![1], run(op(OpCode::Cmp, Modifier::I), other));
    // SLT skips where the source is less.
    assert_eq!(vec![2], run(op(OpCode::Slt, Modifier::A), dat(4, 0)));
    assert_eq!(vec![1], run(op(OpCode::Slt, Modifier::A), dat(3, 9)));
    assert_eq!(vec![2], run(op(OpCode::Slt, Modifier::B), dat(0, 5)));
    assert_eq!(vec![2], run(op(OpCode::Slt, Modifier::AB), dat(0, 4)));
    assert_eq!(vec![2], run(op(OpCode::Slt, Modifier::BA), dat(5, 0)));
    assert_eq!(vec![2], run(op(OpCode::Slt, Modifier::F), dat(4, 5)));
    assert_eq!(vec![1], run(op(OpCode::Slt, Modifier::I), dat(4, 4)));
    assert_eq!(vec![2], run(op(OpCode::Slt, Modifier::X), dat(5, 4)));
    assert_eq!(vec![1], run(op(OpCode::Slt, Modifier::X), dat(4, 4)));
}

#[test]
fn dat_ends_the_thread() {
    let mut vm = machine(vec![dat(0, 0)]);
    let mut events = Vec::new();
    let next = vm.execute(dat(0, 0), Numeric::new(17), 0, &mut events);
    assert!(next.is_empty());
    assert_eq!(1, events.len());
    assert!(matches!(events[0].event_type, EventType::TerminatedThread));
    assert_eq!(Some(17), events[0].moved_from);
    assert_eq!(None, events[0].offset);
}

#[test]
fn numbers_wrap_around_the_core() {
    type N = Numeric<SIZE>;
    for a in [0usize, 1, 77, 7999, 8000, 8001, 123456] {
        assert_eq!(N::new(a).value, N::new(a + SIZE).value);
        assert_eq!(a % SIZE, N::new(a).value);
        for b in [0usize, 1, 78, 7999, 40000] {
            assert_eq!((N::new(a) - N::new(b)).value, N::new(a + SIZE * 6 - b).value);
            assert_eq!((N::new(a) + N::new(b)).value, (a + b) % SIZE);
            assert_eq!((N::new(a) * N::new(b)).value, (a % SIZE) * (b % SIZE) % SIZE);
            assert_eq!((N::new(a) + b).value, (a + b) % SIZE);
            if b % SIZE != 0 {
                assert_eq!((N::new(a) / N::new(b)).value, (a % SIZE) / (b % SIZE));
                assert_eq!((N::new(a) % N::new(b)).value, (a % SIZE) % (b % SIZE));
            }
        }
    }
    let mut n = N::new(7999);
    n.add_assign(1);
    assert_eq!(0, n.value);
    n.sub_assign(1);
    assert_eq!(7999, n.value);
    n.sub_assign(16001);
    assert_eq!(7998, n.value);
    assert!(N::new(3) == N::new(8003));
    assert!(N::new(3) < N::new(4));
}

#[test]
fn numbers_do_not_overflow_in_a_core_of_any_size() {
    type Wide = Numeric<{ usize::MAX }>;
    let a = Wide::new(usize::MAX - 1);
    assert_eq!(usize::MAX - 2, (a + a).value);
    assert_eq!(0, (a - a).value);
    assert_eq!(1, (a * a).value);
    assert_eq!(usize::MAX - 2, (Wide::new(3) - Wide::new(5)).value);
}

#[test]
fn pointers_and_threads_stay_in_the_core() {
    // Three warriors that write, fork and step through the core.
    let dwarf = vec![
        ins(OpCode::Add, Modifier::AB, OperandMode::Immediate, 5, OperandMode::Direct, 3),
        ins(OpCode::Mov, Modifier::I, OperandMode::Direct, 2, OperandMode::Indirect, 2),
        ins(OpCode::Jmp, Modifier::B, OperandMode::Direct, SIZE - 2, OperandMode::Direct, 0),
        dat(0, 0),
    ];
    let forker = vec![
        ins(OpCode::Spl, Modifier::B, OperandMode::Direct, 2, OperandMode::Decrement, SIZE - 1),
        ins(OpCode::Sub, Modifier::X, OperandMode::Increment, 3, OperandMode::Direct, SIZE - 7),
        ins(OpCode::Mul, Modifier::F, OperandMode::Direct, 1, OperandMode::Decrement, 2),
        ins(OpCode::Djn, Modifier::F, OperandMode::Direct, SIZE - 3, OperandMode::Increment, 1),
        dat(7999, 3),
    ];
    let mut vm = Vm::<SIZE, 8>::new(vec![
        warrior("dwarf", dwarf),
        warrior("forker", forker),
        warrior("imp", vec![imp()]),
    ])
    .unwrap();
    for _ in 0..300 {
        let _ = vm.play(17);
        assert!(vm.alive() >= 1 && vm.alive() <= 3);
        assert!(vm.cursor() < vm.alive());
        for k in 0..vm.alive() {
            let threads = vm.threads(k).unwrap();
            assert!(threads.len() <= 8);
            assert!(threads.iter().all(|pc| pc.value < SIZE));
            assert!(vm.warrior_at(k).unwrap() < 3);
        }
        for address in 0..SIZE {
            let cell = vm.instruction_at(address).unwrap();
            assert!(cell.a_operand.pointer.value < SIZE);
            assert!(cell.b_operand.pointer.value < SIZE);
        }
    }
}

#[test]
fn a_core_smaller_than_the_number_of_warriors_holds_empty_warriors() {
    let empty = || WarriorDefinition::<3>::new("none".to_string(), vec![]);
    let mut vm = Vm::<3, 8>::new(vec![empty(), empty(), empty(), empty(), empty()]).unwrap();
    assert_eq!(5, vm.alive());
    for k in 0..5 {
        assert_eq!(vec![0], vm.threads(k).unwrap().iter().map(|pc| pc.value).collect::<Vec<_>>());
    }
    let one = Instruction::<3>::blank();
    let full = WarriorDefinition::<3>::new("one".to_string(), vec![one]);
    assert!(Vm::<3, 8>::new(vec![full, empty(), empty(), empty()]).is_err());
    // Every warrior executes the blank instruction and is removed in turn,
    // until one is left.
    let winner = vm.play(100).unwrap();
    assert_eq!("none", winner.name);
    assert_eq!(1, vm.alive());
    assert_eq!(Some(4), vm.warrior_at(0));
}

#[test]
fn removing_a_warrior_is_a_tick() {
    let mut vm = Vm::<SIZE, 32>::new(vec![
        warrior("first", vec![imp()]),
        warrior("second", vec![dat(0, 0)]),
        warrior("third", vec![imp()]),
    ])
    .unwrap();
    // A round of three steps: the second warrior loses its thread.
    assert!(vm.play(3).is_none());
    assert_eq!((1, 0, 3), (vm.rounds(), vm.cursor(), vm.alive()));
    // Two ticks: the first warrior executes, the second is removed. The
    // third has not had its turn.
    assert!(vm.play(2).is_none());
    assert_eq!((1, 1, 2), (vm.rounds(), vm.cursor(), vm.alive()));
    assert_eq!(vec![2], values(vm.threads(0).unwrap()));
    assert_eq!(Some(2), vm.warrior_at(1));
    assert_eq!(vec![5333], values(vm.threads(1).unwrap()));
    // One more tick: the third warrior executes, and the round is over.
    assert!(vm.play(1).is_none());
    assert_eq!((2, 0, 2), (vm.rounds(), vm.cursor(), vm.alive()));
    assert_eq!(vec![5334], values(vm.threads(1).unwrap()));
}

#[test]
fn play_stops_when_the_ticks_are_used_up_by_removals() {
    let empty = || WarriorDefinition::<SIZE>::new("none".to_string(), vec![dat(0, 0)]);
    let mut vm = Vm::<SIZE, 8>::new(vec![empty(), empty(), empty(), empty()]).unwrap();
    // Four ticks end every thread; each further tick removes one warrior.
    assert!(vm.play(4).is_none());
    assert_eq!((1, 4), (vm.rounds(), vm.alive()));
    assert!(vm.play(1).is_none());
    assert_eq!(3, vm.alive());
    assert!(vm.play(1).is_none());
    assert_eq!(2, vm.alive());
    assert_eq!("none", vm.play(1).unwrap().name);
    assert_eq!((1, Some(3)), (vm.alive(), vm.warrior_at(0)));
    assert_eq!((1, 0), (vm.rounds(), vm.cursor()));
}

#[test]
fn arithmetic_writes_the_selected_pointers_and_nothing_else() {
    // The cell at 2 holds another instruction than the one that is computed
    // from: only its pointers may change.
    let held = ins(OpCode::Jmz, Modifier::BA, OperandMode::Indirect, 70, OperandMode::Increment, 80);
    let source = dat(3, 4);
    let target = ins(OpCode::Dat, Modifier::F, OperandMode::Immediate, 8, OperandMode::Decrement, 9);
    let cases = [
        (OpCode::Add, Modifier::A, (8 + 3, 80)),
        (OpCode::Add, Modifier::B, (70, 9 + 4)),
        (OpCode::Sub, Modifier::AB, (70, 9 - 3)),
        (OpCode::Sub, Modifier::BA, (8 - 4, 80)),
        (OpCode::Mul, Modifier::F, (24, 36)),
        (OpCode::Mul, Modifier::I, (24, 36)),
        (OpCode::Add, Modifier::X, (8 + 4, 9 + 3)),
    ];
    for (op, modifier, expected) in cases {
        let mut vm = machine(vec![imp(), imp(), held, imp()]);
        let mut events = Vec::new();
        let next = vm.handle_arithmetic(
            source,
            target,
            Numeric::new(2),
            modifier,
            Numeric::new(0),
            op,
            5,
            &mut events,
        );
        assert_eq!(1, next.value);
        let cell = vm.instruction_at(2).unwrap();
        assert_eq!(expected, (cell.a_operand.pointer.value, cell.b_operand.pointer.value));
        assert_eq!(OpCode::Jmz, cell.op);
        assert_eq!(Modifier::BA, cell.modifier);
        assert_eq!(OperandMode::Indirect, cell.a_operand.mode);
        assert_eq!(OperandMode::Increment, cell.b_operand.mode);
        assert_eq!(imp(), vm.instruction_at(1).unwrap());
        assert_eq!(imp(), vm.instruction_at(3).unwrap());
        assert_eq!(1, events.len());
        assert!(matches!(events[0].event_type, EventType::Change));
        assert_eq!((Some(2), None, 5), (events[0].offset, events[0].moved_from, events[0].warrior_id));
    }
}

#[test]
fn division_writes_the_selected_pointers_and_nothing_else() {
    let held = ins(OpCode::Jmz, Modifier::BA, OperandMode::Indirect, 70, OperandMode::Increment, 80);
    let target = ins(OpCode::Dat, Modifier::F, OperandMode::Immediate, 17, OperandMode::Decrement, 9);
    let cases = [
        (OpCode::Div, Modifier::A, dat(3, 0), Some((17 / 3, 80))),
        (OpCode::Div, Modifier::A, dat(0, 3), None),
        (OpCode::Div, Modifier::AB, dat(3, 0), Some((70, 9 / 3))),
        (OpCode::Mod, Modifier::BA, dat(0, 5), Some((17 % 5, 80))),
        (OpCode::Mod, Modifier::F, dat(5, 0), Some((17 % 5, 80))),
        (OpCode::Div, Modifier::X, dat(0, 5), Some((17 / 5, 80))),
        (OpCode::Div, Modifier::I, dat(2, 2), Some((8, 4))),
        (OpCode::Mod, Modifier::X, dat(0, 0), None),
    ];
    for (op, modifier, source, expected) in cases {
        let mut vm = machine(vec![imp(), imp(), held, imp()]);
        let mut events = Vec::new();
        let next = vm.handle_div_arithmetic(
            source,
            target,
            Numeric::new(2),
            modifier,
            Numeric::new(0),
            op,
            5,
            &mut events,
        );
        let cell = vm.instruction_at(2).unwrap();
        match expected {
            Some(fields) => {
                assert_eq!(vec![1], values(next));
                assert_eq!(fields, (cell.a_operand.pointer.value, cell.b_operand.pointer.value));
                assert_eq!(1, events.len());
                assert_eq!(Some(2), events[0].offset);
            }
            None => {
                assert!(next.is_empty());
                assert_eq!(held, cell);
                assert!(events.is_empty());
            }
        }
        assert_eq!(OpCode::Jmz, cell.op);
        assert_eq!(Modifier::BA, cell.modifier);
        assert_eq!(OperandMode::Indirect, cell.a_operand.mode);
        assert_eq!(OperandMode::Increment, cell.b_operand.mode);
        assert_eq!(imp(), vm.instruction_at(3).unwrap());
    }
}

#[test]
fn numbers_from_and_to_integers() {
    let n: Numeric<SIZE> = 8001.into();
    assert_eq!(1, n.value);
    assert_eq!(7999, Numeric::<SIZE>::from(15999).value);
    let back: usize = n.into();
    assert_eq!(1, back);
}
