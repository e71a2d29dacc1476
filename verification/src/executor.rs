//! What one instruction does: how its operands are folded to addresses, what
//! its opcode writes into the core, which threads follow, and which events
//! are reported. Each rule is stated as a spec function; the executable
//! functions on single cells are proved against them here.

use crate::event::VmEvent;
use crate::instructions::{Instruction, Modifier, OpCode, Operand, OperandMode};
use crate::numeric::Numeric;
use vstd::prelude::*;

verus! {

/// One of the two fields of an instruction.
#[derive(Clone, Copy, PartialEq, Eq, Structural, Debug)]
pub enum Field {
    A,
    B,
}

impl Modifier {
    /// The field of the source instruction that is paired with the a-field of
    /// the target, where the modifier selects the target's a-field.
    pub open spec fn source_of_a(self) -> Option<Field> {
        match self {
            Modifier::A | Modifier::F | Modifier::I => Some(Field::A),
            Modifier::BA | Modifier::X => Some(Field::B),
            Modifier::B | Modifier::AB => None,
        }
    }

    /// The field of the source instruction that is paired with the b-field of
    /// the target, where the modifier selects the target's b-field.
    pub open spec fn source_of_b(self) -> Option<Field> {
        match self {
            Modifier::B | Modifier::F | Modifier::I => Some(Field::B),
            Modifier::AB | Modifier::X => Some(Field::A),
            Modifier::A | Modifier::BA => None,
        }
    }
}

impl<const CORE_SIZE: usize> Instruction<CORE_SIZE> {
    /// The operand in the given field.
    pub open spec fn operand(self, field: Field) -> Operand<CORE_SIZE> {
        match field {
            Field::A => self.a_operand,
            Field::B => self.b_operand,
        }
    }

    /// The same instruction with another pointer in its a-field.
    pub open spec fn with_a(self, pointer: Numeric<CORE_SIZE>) -> Self {
        Instruction { a_operand: Operand { pointer, mode: self.a_operand.mode }, ..self }
    }

    /// The same instruction with another pointer in its b-field.
    pub open spec fn with_b(self, pointer: Numeric<CORE_SIZE>) -> Self {
        Instruction { b_operand: Operand { pointer, mode: self.b_operand.mode }, ..self }
    }
}

/// What the arithmetic opcodes compute from a target field and a source field.
pub open spec fn computed<const CORE_SIZE: usize>(
    op: OpCode,
    target: Numeric<CORE_SIZE>,
    source: Numeric<CORE_SIZE>,
) -> Numeric<CORE_SIZE> {
    match op {
        OpCode::Add => target.plus(source.value as int),
        OpCode::Sub => target.minus(source.value as int),
        OpCode::Mul => Numeric::reduce(target.value * source.value),
        OpCode::Div => Numeric::reduce(target.value as int / source.value as int),
        OpCode::Mod => Numeric::reduce(target.value as int % source.value as int),
        _ => target,
    }
}

/// The cell that an operand points at, before its mode is looked at.
pub open spec fn pointed<const CORE_SIZE: usize>(
    operand: Operand<CORE_SIZE>,
    ip: Numeric<CORE_SIZE>,
) -> Numeric<CORE_SIZE> {
    operand.pointer.plus(ip.value as int)
}

/// The core after an operand was folded: the two stepping modes change the
/// b-field of the cell pointed at, the other modes change nothing.
pub open spec fn fold_core<const CORE_SIZE: usize>(
    core: Seq<Instruction<CORE_SIZE>>,
    operand: Operand<CORE_SIZE>,
    ip: Numeric<CORE_SIZE>,
) -> Seq<Instruction<CORE_SIZE>> {
    let at = pointed(operand, ip).value as int;
    match operand.mode {
        OperandMode::Increment => core.update(
            at,
            core[at].with_b(core[at].b_operand.pointer.plus(1)),
        ),
        OperandMode::Decrement => core.update(
            at,
            core[at].with_b(core[at].b_operand.pointer.minus(1)),
        ),
        _ => core,
    }
}

/// The address that an operand resolves to. The stepping modes read the
/// b-field after it was changed.
pub open spec fn fold_address<const CORE_SIZE: usize>(
    core: Seq<Instruction<CORE_SIZE>>,
    operand: Operand<CORE_SIZE>,
    ip: Numeric<CORE_SIZE>,
) -> Numeric<CORE_SIZE> {
    let at = pointed(operand, ip);
    match operand.mode {
        OperandMode::Immediate => ip,
        OperandMode::Direct => at,
        _ => at.plus(
            fold_core(core, operand, ip)[at.value as int].b_operand.pointer.value as int,
        ),
    }
}

/// The events that folding an operand reports.
pub open spec fn fold_events<const CORE_SIZE: usize>(
    operand: Operand<CORE_SIZE>,
    ip: Numeric<CORE_SIZE>,
    warrior_id: usize,
    round: u128,
) -> Seq<VmEvent> {
    match operand.mode {
        OperandMode::Increment | OperandMode::Decrement => seq![
            VmEvent::spec_change(pointed(operand, ip).value, warrior_id, round),
        ],
        _ => Seq::empty(),
    }
}

/// The target cell after a `MOV` from `source`.
pub open spec fn moved<const CORE_SIZE: usize>(
    source: Instruction<CORE_SIZE>,
    target: Instruction<CORE_SIZE>,
    modifier: Modifier,
) -> Instruction<CORE_SIZE> {
    if modifier == Modifier::I {
        source
    } else {
        Instruction {
            op: target.op,
            modifier: target.modifier,
            a_operand: match modifier.source_of_a() {
                Some(field) => source.operand(field),
                None => target.a_operand,
            },
            b_operand: match modifier.source_of_b() {
                Some(field) => source.operand(field),
                None => target.b_operand,
            },
        }
    }
}

/// Whether a dividing opcode writes the a-field of the target: the field is
/// selected and its divisor is not zero. The other opcodes write every
/// selected field.
pub open spec fn writes_a<const CORE_SIZE: usize>(
    op: OpCode,
    source: Instruction<CORE_SIZE>,
    modifier: Modifier,
) -> bool {
    match modifier.source_of_a() {
        Some(field) => !(op == OpCode::Div || op == OpCode::Mod) || source.operand(
            field,
        ).pointer.value != 0,
        None => false,
    }
}

/// As `writes_a`, for the b-field of the target.
pub open spec fn writes_b<const CORE_SIZE: usize>(
    op: OpCode,
    source: Instruction<CORE_SIZE>,
    modifier: Modifier,
) -> bool {
    match modifier.source_of_b() {
        Some(field) => !(op == OpCode::Div || op == OpCode::Mod) || source.operand(
            field,
        ).pointer.value != 0,
        None => false,
    }
}

/// A cell after an arithmetic opcode wrote into it: each field that is
/// written holds what `computed` gives for that field of `target` and the
/// field of `source` paired with it. Nothing else of the cell changes: not
/// its opcode, its modifier or its modes, nor a pointer that is not written.
pub open spec fn patched<const CORE_SIZE: usize>(
    cell: Instruction<CORE_SIZE>,
    op: OpCode,
    source: Instruction<CORE_SIZE>,
    target: Instruction<CORE_SIZE>,
    modifier: Modifier,
) -> Instruction<CORE_SIZE> {
    let a = if writes_a(op, source, modifier) {
        computed(
            op,
            target.a_operand.pointer,
            source.operand(modifier.source_of_a().unwrap()).pointer,
        )
    } else {
        cell.a_operand.pointer
    };
    let b = if writes_b(op, source, modifier) {
        computed(
            op,
            target.b_operand.pointer,
            source.operand(modifier.source_of_b().unwrap()).pointer,
        )
    } else {
        cell.b_operand.pointer
    };
    cell.with_a(a).with_b(b)
}

/// The target cell after an arithmetic opcode that computed from the cell
/// itself.
pub open spec fn combined<const CORE_SIZE: usize>(
    op: OpCode,
    source: Instruction<CORE_SIZE>,
    target: Instruction<CORE_SIZE>,
    modifier: Modifier,
) -> Instruction<CORE_SIZE> {
    patched(target, op, source, target, modifier)
}

/// Every field of the cell that the modifier selects is zero.
pub open spec fn selected_zero<const CORE_SIZE: usize>(
    cell: Instruction<CORE_SIZE>,
    modifier: Modifier,
) -> bool {
    &&& modifier.source_of_a() is Some ==> cell.a_operand.pointer.value == 0
    &&& modifier.source_of_b() is Some ==> cell.b_operand.pointer.value == 0
}

/// The cell with every field that the modifier selects stepped back by one.
pub open spec fn decremented<const CORE_SIZE: usize>(
    cell: Instruction<CORE_SIZE>,
    modifier: Modifier,
) -> Instruction<CORE_SIZE> {
    let a = if modifier.source_of_a() is Some {
        cell.a_operand.pointer.minus(1)
    } else {
        cell.a_operand.pointer
    };
    let b = if modifier.source_of_b() is Some {
        cell.b_operand.pointer.minus(1)
    } else {
        cell.b_operand.pointer
    };
    cell.with_a(a).with_b(b)
}

/// What the comparing opcode tests: with the modifier `I` the whole
/// instructions are the same, otherwise every selected field of the target
/// equals the field of the source paired with it.
pub open spec fn same<const CORE_SIZE: usize>(
    source: Instruction<CORE_SIZE>,
    target: Instruction<CORE_SIZE>,
    modifier: Modifier,
) -> bool {
    if modifier == Modifier::I {
        source == target
    } else {
        &&& modifier.source_of_a() matches Some(field) ==> target.a_operand.pointer.value
            == source.operand(field).pointer.value
        &&& modifier.source_of_b() matches Some(field) ==> target.b_operand.pointer.value
            == source.operand(field).pointer.value
    }
}

/// What `SLT` tests: for every selected field of the target, the field of
/// the source paired with it is strictly less.
pub open spec fn less<const CORE_SIZE: usize>(
    source: Instruction<CORE_SIZE>,
    target: Instruction<CORE_SIZE>,
    modifier: Modifier,
) -> bool {
    &&& modifier.source_of_a() matches Some(field) ==> source.operand(field).pointer.value
        < target.a_operand.pointer.value
    &&& modifier.source_of_b() matches Some(field) ==> source.operand(field).pointer.value
        < target.b_operand.pointer.value
}

/// What executing one instruction does.
pub struct Effect<const CORE_SIZE: usize> {
    /// The core afterwards.
    pub core: Seq<Instruction<CORE_SIZE>>,
    /// The threads that follow, in the order in which they are queued.
    pub next: Seq<Numeric<CORE_SIZE>>,
    /// The events reported, in order.
    pub events: Seq<VmEvent>,
}

/// The effect of the instruction `operation`, executed at `ip` by a thread of
/// the warrior `warrior_id` whose other threads number `waiting`, on a machine
/// whose queues hold up to `queue_size` threads.
///
/// The a-operand is folded first, then the b-operand; the two instructions
/// that the opcode works on are read after both folds.
pub open spec fn execute_spec<const CORE_SIZE: usize>(
    core: Seq<Instruction<CORE_SIZE>>,
    operation: Instruction<CORE_SIZE>,
    ip: Numeric<CORE_SIZE>,
    waiting: int,
    queue_size: int,
    warrior_id: usize,
    round: u128,
) -> Effect<CORE_SIZE> {
    let after_a = fold_core(core, operation.a_operand, ip);
    let a_address = fold_address(core, operation.a_operand, ip);
    let folded = fold_core(after_a, operation.b_operand, ip);
    let b_address = fold_address(after_a, operation.b_operand, ip);
    let folds = fold_events(operation.a_operand, ip, warrior_id, round) + fold_events(
        operation.b_operand,
        ip,
        warrior_id,
        round,
    );
    let source = folded[a_address.value as int];
    let target = folded[b_address.value as int];
    let at = b_address.value as int;
    let change = seq![VmEvent::spec_change(b_address.value, warrior_id, round)];
    let on = seq![ip.plus(1)];
    let skip = seq![ip.plus(2)];
    let jump = seq![a_address];
    let modifier = operation.modifier;
    match operation.op {
        OpCode::Dat => Effect {
            core: folded,
            next: Seq::empty(),
            events: folds + seq![VmEvent::spec_terminated_thread(ip.value, warrior_id, round)],
        },
        OpCode::Mov => Effect {
            core: folded.update(at, moved(source, target, modifier)),
            next: on,
            events: folds + change,
        },
        OpCode::Add | OpCode::Sub | OpCode::Mul => Effect {
            core: folded.update(at, combined(operation.op, source, target, modifier)),
            next: on,
            events: folds + change,
        },
        OpCode::Div | OpCode::Mod => if writes_a(operation.op, source, modifier) || writes_b(
            operation.op,
            source,
            modifier,
        ) {
            Effect {
                core: folded.update(at, combined(operation.op, source, target, modifier)),
                next: on,
                events: folds + change,
            }
        } else {
            Effect { core: folded, next: Seq::empty(), events: folds }
        },
        OpCode::Jmp => Effect { core: folded, next: jump, events: folds },
        OpCode::Jmz => Effect {
            core: folded,
            next: if selected_zero(target, modifier) {
                jump
            } else {
                on
            },
            events: folds,
        },
        OpCode::Jmn => Effect {
            core: folded,
            next: if selected_zero(target, modifier) {
                on
            } else {
                jump
            },
            events: folds,
        },
        OpCode::Djn => Effect {
            core: folded.update(at, decremented(target, modifier)),
            next: if selected_zero(decremented(target, modifier), modifier) {
                on
            } else {
                jump
            },
            events: folds + change,
        },
        OpCode::Cmp => Effect {
            core: folded,
            next: if same(source, target, modifier) {
                skip
            } else {
                on
            },
            events: folds,
        },
        OpCode::Slt => Effect {
            core: folded,
            next: if less(source, target, modifier) {
                skip
            } else {
                on
            },
            events: folds,
        },
        OpCode::Spl => Effect {
            core: folded,
            next: if waiting + 1 < queue_size {
                on + jump
            } else {
                on
            },
            events: folds,
        },
    }
}

/// Every cell of the core is well formed, and the core has its full size.
pub open spec fn core_wf<const CORE_SIZE: usize>(core: Seq<Instruction<CORE_SIZE>>) -> bool {
    &&& CORE_SIZE > 0
    &&& core.len() == CORE_SIZE
    &&& forall|i: int| 0 <= i < core.len() ==> (#[trigger] core[i]).wf()
}

impl Modifier {
    /// The field of the source paired with the target's a-field, if the
    /// modifier selects that field.
    pub fn a_source(self) -> (r: Option<Field>)
        ensures
            r == self.source_of_a(),
    {
        match self {
            Modifier::A | Modifier::F | Modifier::I => Some(Field::A),
            Modifier::BA | Modifier::X => Some(Field::B),
            Modifier::B | Modifier::AB => None,
        }
    }

    /// The field of the source paired with the target's b-field, if the
    /// modifier selects that field.
    pub fn b_source(self) -> (r: Option<Field>)
        ensures
            r == self.source_of_b(),
    {
        match self {
            Modifier::B | Modifier::F | Modifier::I => Some(Field::B),
            Modifier::AB | Modifier::X => Some(Field::A),
            Modifier::A | Modifier::BA => None,
        }
    }
}

impl<const CORE_SIZE: usize> Instruction<CORE_SIZE> {
    /// The operand in the given field.
    pub fn field(&self, field: Field) -> (r: Operand<CORE_SIZE>)
        ensures
            r == self.operand(field),
    {
        match field {
            Field::A => self.a_operand,
            Field::B => self.b_operand,
        }
    }
}

/// Whether the opcode divides by its source field.
pub fn divides(op: OpCode) -> (r: bool)
    ensures
        r == (op == OpCode::Div || op == OpCode::Mod),
{
    match op {
        OpCode::Div | OpCode::Mod => true,
        _ => false,
    }
}

/// Computes what an arithmetic opcode writes into one field.
pub fn compute<const CORE_SIZE: usize>(
    op: OpCode,
    target: Numeric<CORE_SIZE>,
    source: Numeric<CORE_SIZE>,
) -> (r: Numeric<CORE_SIZE>)
    requires
        target.wf(),
        source.wf(),
        op == OpCode::Div || op == OpCode::Mod ==> source.value != 0,
    ensures
        r == computed(op, target, source),
        r.wf(),
{
    match op {
        OpCode::Add => target + source,
        OpCode::Sub => target - source,
        OpCode::Mul => target * source,
        OpCode::Div => target / source,
        OpCode::Mod => target % source,
        _ => target,
    }
}

/// The target cell after a `MOV` from `source`.
pub fn move_cell<const CORE_SIZE: usize>(
    source: Instruction<CORE_SIZE>,
    target: Instruction<CORE_SIZE>,
    modifier: Modifier,
) -> (r: Instruction<CORE_SIZE>)
    ensures
        r == moved(source, target, modifier),
        source.wf() && target.wf() ==> r.wf(),
{
    match modifier {
        Modifier::I => source,
        _ => {
            let mut cell = target;
            match modifier.a_source() {
                Some(field) => {
                    cell.a_operand = source.field(field);
                },
                None => {},
            }
            match modifier.b_source() {
                Some(field) => {
                    cell.b_operand = source.field(field);
                },
                None => {},
            }
            cell
        },
    }
}

/// Writes into a cell what an arithmetic opcode computes from `target` and
/// `source`, and tells whether a field was written.
pub fn patch<const CORE_SIZE: usize>(
    cell: Instruction<CORE_SIZE>,
    op: OpCode,
    source: Instruction<CORE_SIZE>,
    target: Instruction<CORE_SIZE>,
    modifier: Modifier,
) -> (r: (Instruction<CORE_SIZE>, bool))
    requires
        cell.wf(),
        source.wf(),
        target.wf(),
    ensures
        r.0 == patched(cell, op, source, target, modifier),
        r.1 == (writes_a(op, source, modifier) || writes_b(op, source, modifier)),
        r.0.wf(),
{
    let mut written = cell;
    let mut wrote = false;
    match modifier.a_source() {
        Some(field) => {
            let from = source.field(field).pointer;
            if !divides(op) || from.value != 0 {
                written.a_operand.pointer = compute(op, target.a_operand.pointer, from);
                wrote = true;
            }
        },
        None => {},
    }
    match modifier.b_source() {
        Some(field) => {
            let from = source.field(field).pointer;
            if !divides(op) || from.value != 0 {
                written.b_operand.pointer = compute(op, target.b_operand.pointer, from);
                wrote = true;
            }
        },
        None => {},
    }
    (written, wrote)
}

/// Whether every field of the cell that the modifier selects is zero.
pub fn is_selected_zero<const CORE_SIZE: usize>(
    cell: &Instruction<CORE_SIZE>,
    modifier: Modifier,
) -> (r: bool)
    ensures
        r == selected_zero(*cell, modifier),
{
    (modifier.a_source().is_none() || cell.a_operand.pointer.value == 0) && (
    modifier.b_source().is_none() || cell.b_operand.pointer.value == 0)
}

/// The cell with every selected field stepped back by one.
pub fn decrement<const CORE_SIZE: usize>(cell: Instruction<CORE_SIZE>, modifier: Modifier) -> (r:
    Instruction<CORE_SIZE>)
    requires
        cell.wf(),
    ensures
        r == decremented(cell, modifier),
        r.wf(),
{
    let mut stepped = cell;
    if modifier.a_source().is_some() {
        stepped.a_operand.pointer.sub_assign(1);
    }
    if modifier.b_source().is_some() {
        stepped.b_operand.pointer.sub_assign(1);
    }
    stepped
}

/// Whether the comparing opcode finds the two cells alike.
pub fn is_same<const CORE_SIZE: usize>(
    source: &Instruction<CORE_SIZE>,
    target: &Instruction<CORE_SIZE>,
    modifier: Modifier,
) -> (r: bool)
    ensures
        r == same(*source, *target, modifier),
{
    match modifier {
        Modifier::I => *source == *target,
        _ => {
            let a = match modifier.a_source() {
                Some(field) => target.a_operand.pointer.value == source.field(field).pointer.value,
                None => true,
            };
            let b = match modifier.b_source() {
                Some(field) => target.b_operand.pointer.value == source.field(field).pointer.value,
                None => true,
            };
            a && b
        },
    }
}

/// Whether `SLT` finds the source less than the target.
pub fn is_less<const CORE_SIZE: usize>(
    source: &Instruction<CORE_SIZE>,
    target: &Instruction<CORE_SIZE>,
    modifier: Modifier,
) -> (r: bool)
    ensures
        r == less(*source, *target, modifier),
{
    let a = match modifier.a_source() {
        Some(field) => source.field(field).pointer.value < target.a_operand.pointer.value,
        None => true,
    };
    let b = match modifier.b_source() {
        Some(field) => source.field(field).pointer.value < target.b_operand.pointer.value,
        None => true,
    };
    a && b
}

} // verus!
