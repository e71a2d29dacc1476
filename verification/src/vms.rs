//! The machine that runs the warriors: loading, the scheduler, and the
//! execution of single instructions on the shared core.

use crate::event::{Observable, Observer, VmEvent};
use crate::executor::{
    decrement, execute_spec, fold_address, fold_core, fold_events, is_less, is_same,
    is_selected_zero, move_cell, patch, patched, writes_a, writes_b,
};
use crate::instructions::{Instruction, Modifier, OpCode, Operand, OperandMode};
use crate::machine::{Machine, Runtime};
use crate::numeric::Numeric;
use std::collections::VecDeque;
use vstd::arithmetic::div_mod::{lemma_fundamental_div_mod, lemma_fundamental_div_mod_converse};
use vstd::prelude::*;

verus! {

/// A warrior as it was assembled: its name and its instructions.
pub struct WarriorDefinition<const CORE_SIZE: usize> {
    pub name: String,
    pub ops: Vec<Instruction<CORE_SIZE>>,
}

impl<const CORE_SIZE: usize> WarriorDefinition<CORE_SIZE> {
    /// A warrior of that name with those instructions.
    pub fn new(name: String, ops: Vec<Instruction<CORE_SIZE>>) -> (r: WarriorDefinition<CORE_SIZE>)
        ensures
            r.name == name,
            r.ops == ops,
    {
        WarriorDefinition { name, ops }
    }
}

/// A warrior while it runs, with the queue of its threads.
struct WarriorQueue<const CORE_SIZE: usize, const QUEUE_SIZE: usize> {
    warrior_id: usize,
    instruction_queue: VecDeque<Numeric<CORE_SIZE>>,
}

impl<const CORE_SIZE: usize, const QUEUE_SIZE: usize> WarriorQueue<CORE_SIZE, QUEUE_SIZE> {
    spec fn runtime(self) -> Runtime<CORE_SIZE> {
        Runtime { id: self.warrior_id, pcs: self.instruction_queue@ }
    }
}

/// A machine with a core of `CORE_SIZE` cells, in which each warrior has up
/// to `QUEUE_SIZE` threads. Its state as a value is its view.
pub struct Vm<const CORE_SIZE: usize, const QUEUE_SIZE: usize> {
    core: Vec<Instruction<CORE_SIZE>>,
    warriors_definitions: Vec<WarriorDefinition<CORE_SIZE>>,
    warriors_queues: Vec<WarriorQueue<CORE_SIZE, QUEUE_SIZE>>,
    observers: Vec<Box<dyn Observer<VmEvent>>>,
    pub round: u128,
    next_warrior_id: usize,
}

impl<const CORE_SIZE: usize, const QUEUE_SIZE: usize> View for Vm<CORE_SIZE, QUEUE_SIZE> {
    type V = Machine<CORE_SIZE, QUEUE_SIZE>;

    closed spec fn view(&self) -> Machine<CORE_SIZE, QUEUE_SIZE> {
        Machine {
            core: self.core@,
            definitions: self.warriors_definitions@,
            runtimes: Seq::new(
                self.warriors_queues@.len(),
                |k: int| self.warriors_queues@[k].runtime(),
            ),
            cursor: self.next_warrior_id as int,
            round: self.round as int,
            observers: self.observers@,
        }
    }
}

/// Where the cell at `offset` of the slot `k` lies, seen from the address.
pub proof fn lemma_cell_position(slot: int, k: int, offset: int)
    requires
        slot > 0,
        0 <= offset < slot,
    ensures
        (k * slot + offset) / slot == k,
        (k * slot + offset) % slot == offset,
{
    lemma_fundamental_div_mod_converse(k * slot + offset, slot, k, offset);
}

/// A cell at or past the end of the slot `count - 1` lies in no slot.
pub proof fn lemma_cell_past_slots(slot: int, count: int, i: int)
    requires
        slot > 0,
        count >= 0,
        i >= count * slot,
    ensures
        i / slot >= count,
{
    lemma_fundamental_div_mod(i, slot);
    let q = i / slot;
    if q < count {
        assert(slot * q + slot <= slot * count) by (nonlinear_arith)
            requires
                q + 1 <= count,
                slot > 0,
        ;
        assert(count * slot == slot * count) by (nonlinear_arith);
    }
}

/// The slots of all warriors together fit the core.
pub proof fn lemma_slots_fit(size: int, count: int, k: int)
    requires
        size >= 0,
        count > 0,
        0 <= k <= count,
    ensures
        0 <= k * (size / count) <= size,
        k < count ==> (k + 1) * (size / count) == k * (size / count) + size / count,
{
    lemma_fundamental_div_mod(size, count);
    let slot = size / count;
    assert(slot >= 0) by (nonlinear_arith)
        requires
            size == count * slot + size % count,
            0 <= size % count < count,
            size >= 0,
            count > 0,
    ;
    assert(0 <= k * slot <= count * slot) by (nonlinear_arith)
        requires
            0 <= k <= count,
            slot >= 0,
    ;
    assert((k + 1) * slot == k * slot + slot) by (nonlinear_arith);
}

impl<const CORE_SIZE: usize, const QUEUE_SIZE: usize> Observable<VmEvent> for Vm<
    CORE_SIZE,
    QUEUE_SIZE,
> {
    /// Adds an observer behind those that are registered.
    fn register(&mut self, observer: Box<dyn Observer<VmEvent>>)
        ensures
            final(self)@ == (Machine {
                observers: old(self)@.observers.push(observer),
                ..old(self)@
            }),
    {
        self.observers.push(observer);
        proof {
            assert(self@.runtimes =~= old(self)@.runtimes);
        }
    }
}

impl<const CORE_SIZE: usize, const QUEUE_SIZE: usize> Vm<CORE_SIZE, QUEUE_SIZE> {
    /// Loads the warriors into a fresh core, each at the start of its slot,
    /// and gives each one thread there.
    pub fn new(warriors_definitions: Vec<WarriorDefinition<CORE_SIZE>>) -> (r: Result<
        Vm<CORE_SIZE, QUEUE_SIZE>,
        String,
    >)
        requires
            CORE_SIZE > 0,
        ensures
            r is Ok <==> Machine::<CORE_SIZE, QUEUE_SIZE>::loadable(warriors_definitions@),
            r matches Ok(vm) ==> vm@ == Machine::<CORE_SIZE, QUEUE_SIZE>::loaded(
                warriors_definitions@,
            ) && vm@.wf(),
            r matches Err(text) ==> text@ == (if 2 <= warriors_definitions@.len() <= 50 {
                "a warrior does not fit its share of the core"@
            } else {
                "the number of warriors must be between 2 and 50"@
            }),
    {
        let count = warriors_definitions.len();
        if count > 50 || count < 2 {
            return Err(String::from_str("the number of warriors must be between 2 and 50"));
        }
        let slot = CORE_SIZE / count;
        let mut checked: usize = 0;
        while checked < count
            invariant
                checked <= count,
                count == warriors_definitions@.len(),
                2 <= count <= 50,
                slot == Machine::<CORE_SIZE, QUEUE_SIZE>::slot(count as int),
                forall|k: int|
                    0 <= k < checked ==> (#[trigger] warriors_definitions@[k]).ops@.len() <= slot,
            decreases count - checked,
        {
            if warriors_definitions[checked].ops.len() > slot {
                return Err(String::from_str("a warrior does not fit its share of the core"));
            }
            checked += 1;
        }
        let mut core: Vec<Instruction<CORE_SIZE>> = Vec::new();
        let mut filled: usize = 0;
        while filled < CORE_SIZE
            invariant
                filled <= CORE_SIZE,
                core@.len() == filled,
                forall|i: int| 0 <= i < filled ==> core@[i] == Instruction::<CORE_SIZE>::spec_blank(),
            decreases CORE_SIZE - filled,
        {
            core.push(Instruction::blank());
            filled += 1;
        }
        let ghost definitions = warriors_definitions@;
        let mut queues: Vec<WarriorQueue<CORE_SIZE, QUEUE_SIZE>> = Vec::new();
        let mut instruction_pointer: usize = 0;
        let mut warrior_id: usize = 0;
        while warrior_id < count
            invariant
                CORE_SIZE > 0,
                warrior_id <= count,
                count == definitions.len(),
                definitions == warriors_definitions@,
                2 <= count <= 50,
                slot == Machine::<CORE_SIZE, QUEUE_SIZE>::slot(count as int),
                Machine::<CORE_SIZE, QUEUE_SIZE>::loadable(definitions),
                instruction_pointer == warrior_id * slot,
                core@.len() == CORE_SIZE,
                forall|i: int|
                    0 <= i < CORE_SIZE ==> #[trigger] core@[i] == (if i < instruction_pointer {
                        Machine::<CORE_SIZE, QUEUE_SIZE>::loaded_cell(definitions, i)
                    } else {
                        Instruction::<CORE_SIZE>::spec_blank()
                    }),
                queues@.len() == warrior_id,
                forall|k: int|
                    0 <= k < warrior_id ==> (#[trigger] queues@[k]).runtime() == (Runtime {
                        id: k as usize,
                        pcs: seq![
                            Numeric::<CORE_SIZE>::reduce(
                                Machine::<CORE_SIZE, QUEUE_SIZE>::start(count as int, k),
                            ),
                        ],
                    }),
            decreases count - warrior_id,
        {
            proof {
                lemma_slots_fit(CORE_SIZE as int, count as int, warrior_id as int);
                lemma_slots_fit(CORE_SIZE as int, count as int, warrior_id as int + 1);
            }
            let length = warriors_definitions[warrior_id].ops.len();
            let mut ix: usize = 0;
            while ix < length
                invariant
                    CORE_SIZE > 0,
                    ix <= length,
                    warrior_id < count,
                    count == definitions.len(),
                    definitions == warriors_definitions@,
                    length == definitions[warrior_id as int].ops@.len(),
                    length <= slot,
                    slot == Machine::<CORE_SIZE, QUEUE_SIZE>::slot(count as int),
                    instruction_pointer == warrior_id * slot,
                    instruction_pointer + slot <= CORE_SIZE,
                    core@.len() == CORE_SIZE,
                    forall|i: int|
                        0 <= i < CORE_SIZE ==> #[trigger] core@[i] == (if i < instruction_pointer
                            + ix {
                            Machine::<CORE_SIZE, QUEUE_SIZE>::loaded_cell(definitions, i)
                        } else {
                            Instruction::<CORE_SIZE>::spec_blank()
                        }),
                decreases length - ix,
            {
                let op = warriors_definitions[warrior_id].ops[ix];
                proof {
                    lemma_cell_position(slot as int, warrior_id as int, ix as int);
                }
                core.set(instruction_pointer + ix, op.normalized());
                ix += 1;
            }
            proof {
                assert forall|i: int| 0 <= i < CORE_SIZE implies #[trigger] core@[i] == (if i
                    < instruction_pointer + slot {
                    Machine::<CORE_SIZE, QUEUE_SIZE>::loaded_cell(definitions, i)
                } else {
                    Instruction::<CORE_SIZE>::spec_blank()
                }) by {
                    if instruction_pointer + length <= i < instruction_pointer + slot {
                        lemma_cell_position(
                            slot as int,
                            warrior_id as int,
                            i - instruction_pointer,
                        );
                    }
                }
            }
            let mut instruction_queue = VecDeque::new();
            instruction_queue.push_back(Numeric::new(instruction_pointer));
            queues.push(WarriorQueue { warrior_id, instruction_queue });
            instruction_pointer += slot;
            warrior_id += 1;
        }
        let vm = Vm::<CORE_SIZE, QUEUE_SIZE> {
            core,
            warriors_definitions,
            warriors_queues: queues,
            observers: Vec::new(),
            round: 0,
            next_warrior_id: 0,
        };
        proof {
            let model = Machine::<CORE_SIZE, QUEUE_SIZE>::loaded(definitions);
            assert forall|i: int| 0 <= i < CORE_SIZE implies vm@.core[i] == model.core[i] by {
                if i >= instruction_pointer && slot > 0 {
                    lemma_cell_past_slots(slot as int, count as int, i);
                }
            }
            assert(vm@.core =~= model.core);
            assert(vm@.runtimes =~= model.runtimes);
            assert forall|k: int| 0 <= k < count implies (#[trigger] vm@.runtimes[k]).pcs[0].wf() by {
                lemma_slots_fit(CORE_SIZE as int, count as int, k);
                vstd::arithmetic::div_mod::lemma_mod_bound(
                    Machine::<CORE_SIZE, QUEUE_SIZE>::start(count as int, k),
                    CORE_SIZE as int,
                );
            }
            assert forall|i: int| 0 <= i < CORE_SIZE implies (#[trigger] vm@.core[i]).wf() by {
                let cell = Machine::<CORE_SIZE, QUEUE_SIZE>::loaded_cell(definitions, i);
                if cell != Instruction::<CORE_SIZE>::spec_blank() {
                    let source = definitions[i / (slot as int)].ops@[i % (slot as int)];
                    vstd::arithmetic::div_mod::lemma_mod_bound(
                        source.a_operand.pointer.value as int,
                        CORE_SIZE as int,
                    );
                    vstd::arithmetic::div_mod::lemma_mod_bound(
                        source.b_operand.pointer.value as int,
                        CORE_SIZE as int,
                    );
                }
            }
        }
        Ok(vm)
    }
}

impl<const CORE_SIZE: usize, const QUEUE_SIZE: usize> Vm<CORE_SIZE, QUEUE_SIZE> {
    /// Tells every registered observer of the event, in the order in which
    /// they were registered.
    pub fn notify_observers(&self, event: VmEvent) {
        let mut told: usize = 0;
        while told < self.observers.len()
            invariant
                told <= self.observers.len(),
            decreases self.observers.len() - told,
        {
            self.observers[told].notify(event);
            told += 1;
        }
    }

    /// Resolves an operand to an address of the core. The two stepping modes
    /// first change the b-field of the cell that the operand points at, and
    /// report that change.
    pub fn fold(
        &mut self,
        operand: Operand<CORE_SIZE>,
        instruction_pointer: Numeric<CORE_SIZE>,
        warrior_id: usize,
        events: &mut Vec<VmEvent>,
    ) -> (address: Numeric<CORE_SIZE>)
        requires
            old(self)@.wf(),
            operand.wf(),
            instruction_pointer.wf(),
        ensures
            final(self)@ == (Machine {
                core: fold_core(old(self)@.core, operand, instruction_pointer),
                ..old(self)@
            }),
            address == fold_address(old(self)@.core, operand, instruction_pointer),
            final(events)@ == old(events)@ + fold_events(
                operand,
                instruction_pointer,
                warrior_id,
                old(self)@.round as u128,
            ),
            final(self)@.wf(),
            address.wf(),
    {
        let at = operand.pointer + instruction_pointer;
        let address = match operand.mode {
            OperandMode::Immediate => instruction_pointer,
            OperandMode::Direct => at,
            OperandMode::Indirect => at + self.core[at.value].b_operand.pointer,
            OperandMode::Increment => {
                self.core[at.value].b_operand.pointer.add_assign(1);
                events.push(VmEvent::change(at.value, warrior_id, self.round));
                at + self.core[at.value].b_operand.pointer
            },
            OperandMode::Decrement => {
                self.core[at.value].b_operand.pointer.sub_assign(1);
                events.push(VmEvent::change(at.value, warrior_id, self.round));
                at + self.core[at.value].b_operand.pointer
            },
        };
        proof {
            assert(self@.runtimes =~= old(self)@.runtimes);
            assert(self@.core =~= fold_core(old(self)@.core, operand, instruction_pointer));
            assert(events@ =~= old(events)@ + fold_events(
                operand,
                instruction_pointer,
                warrior_id,
                old(self)@.round as u128,
            ));
        }
        address
    }

    /// Writes what `ADD`, `SUB` or `MUL` compute from the two instructions
    /// into the pointers of the cell at `b_address` that the modifier selects,
    /// and gives the thread that follows. Nothing else of the cell changes.
    pub fn handle_arithmetic(
        &mut self,
        a_instruction: Instruction<CORE_SIZE>,
        b_instruction: Instruction<CORE_SIZE>,
        b_address: Numeric<CORE_SIZE>,
        modifier: Modifier,
        instruction_pointer: Numeric<CORE_SIZE>,
        op: OpCode,
        warrior_id: usize,
        events: &mut Vec<VmEvent>,
    ) -> (next: Numeric<CORE_SIZE>)
        requires
            old(self)@.wf(),
            a_instruction.wf(),
            b_instruction.wf(),
            b_address.wf(),
            instruction_pointer.wf(),
            op == OpCode::Add || op == OpCode::Sub || op == OpCode::Mul,
        ensures
            final(self)@ == (Machine {
                core: old(self)@.core.update(
                    b_address.value as int,
                    patched(
                        old(self)@.core[b_address.value as int],
                        op,
                        a_instruction,
                        b_instruction,
                        modifier,
                    ),
                ),
                ..old(self)@
            }),
            next == instruction_pointer.plus(1),
            final(events)@ == old(events)@.push(
                VmEvent::spec_change(b_address.value, warrior_id, old(self)@.round as u128),
            ),
            final(self)@.wf(),
            next.wf(),
    {
        let cell = self.core[b_address.value];
        let (written, _) = patch(cell, op, a_instruction, b_instruction, modifier);
        self.core.set(b_address.value, written);
        events.push(VmEvent::change(b_address.value, warrior_id, self.round));
        proof {
            assert(self@.runtimes =~= old(self)@.runtimes);
        }
        instruction_pointer + 1
    }

    /// Writes what `DIV` or `MOD` compute from the two instructions into the
    /// pointers of the cell at `b_address` that the modifier selects, leaving
    /// out each field whose divisor is zero. Nothing else of the cell
    /// changes. Where a field was written the thread goes on; where none was,
    /// it ends.
    pub fn handle_div_arithmetic(
        &mut self,
        a_instruction: Instruction<CORE_SIZE>,
        b_instruction: Instruction<CORE_SIZE>,
        b_address: Numeric<CORE_SIZE>,
        modifier: Modifier,
        instruction_pointer: Numeric<CORE_SIZE>,
        op: OpCode,
        warrior_id: usize,
        events: &mut Vec<VmEvent>,
    ) -> (next: Vec<Numeric<CORE_SIZE>>)
        requires
            old(self)@.wf(),
            a_instruction.wf(),
            b_instruction.wf(),
            b_address.wf(),
            instruction_pointer.wf(),
            op == OpCode::Div || op == OpCode::Mod,
        ensures
            writes_a(op, a_instruction, modifier) || writes_b(op, a_instruction, modifier) ==> {
                &&& final(self)@ == (Machine {
                    core: old(self)@.core.update(
                        b_address.value as int,
                        patched(
                            old(self)@.core[b_address.value as int],
                            op,
                            a_instruction,
                            b_instruction,
                            modifier,
                        ),
                    ),
                    ..old(self)@
                })
                &&& next@ == seq![instruction_pointer.plus(1)]
                &&& final(events)@ == old(events)@.push(
                    VmEvent::spec_change(b_address.value, warrior_id, old(self)@.round as u128),
                )
            },
            !(writes_a(op, a_instruction, modifier) || writes_b(op, a_instruction, modifier)) ==> {
                &&& next@ == Seq::<Numeric<CORE_SIZE>>::empty()
                &&& final(events)@ == old(events)@
                &&& final(self)@ == old(self)@
            },
            final(self)@.wf(),
            forall|j: int| 0 <= j < next@.len() ==> (#[trigger] next@[j]).wf(),
    {
        let cell = self.core[b_address.value];
        let (written, wrote) = patch(cell, op, a_instruction, b_instruction, modifier);
        if wrote {
            self.core.set(b_address.value, written);
            events.push(VmEvent::change(b_address.value, warrior_id, self.round));
            proof {
                assert(self@.runtimes =~= old(self)@.runtimes);
            }
            let on = instruction_pointer + 1;
            vec![on]
        } else {
            Vec::new()
        }
    }

    /// Executes one instruction for the warrior at `warrior_index`: folds the
    /// a-operand, then the b-operand, then does what the opcode says. Gives the
    /// threads that follow, in the order in which they are to be queued, and
    /// appends the events to `events`.
    pub fn execute(
        &mut self,
        operation: Instruction<CORE_SIZE>,
        instruction_pointer: Numeric<CORE_SIZE>,
        warrior_index: usize,
        events: &mut Vec<VmEvent>,
    ) -> (next: Vec<Numeric<CORE_SIZE>>)
        requires
            old(self)@.wf(),
            operation.wf(),
            instruction_pointer.wf(),
            warrior_index < old(self)@.runtimes.len(),
        ensures
            ({
                let effect = execute_spec(
                    old(self)@.core,
                    operation,
                    instruction_pointer,
                    old(self)@.runtimes[warrior_index as int].pcs.len() as int,
                    QUEUE_SIZE as int,
                    old(self)@.runtimes[warrior_index as int].id,
                    old(self)@.round as u128,
                );
                &&& final(self)@ == (Machine { core: effect.core, ..old(self)@ })
                &&& next@ == effect.next
                &&& final(events)@ == old(events)@ + effect.events
            }),
            final(self)@.wf(),
            forall|j: int| 0 <= j < next@.len() ==> (#[trigger] next@[j]).wf(),
            next@.len() <= 2,
            next@.len() == 2 ==> old(self)@.runtimes[warrior_index as int].pcs.len() + 1
                < QUEUE_SIZE,
    {
        let warrior_id = self.warriors_queues[warrior_index].warrior_id;
        let waiting = self.warriors_queues[warrior_index].instruction_queue.len();
        let a_address = self.fold(operation.a_operand, instruction_pointer, warrior_id, events);
        let b_address = self.fold(operation.b_operand, instruction_pointer, warrior_id, events);
        let a_instruction = self.core[a_address.value];
        let b_instruction = self.core[b_address.value];
        let modifier = operation.modifier;
        let ghost folded = self@;
        let next = match operation.op {
            OpCode::Dat => {
                events.push(
                    VmEvent::terminated_thread(instruction_pointer.value, warrior_id, self.round),
                );
                Vec::new()
            },
            OpCode::Mov => {
                self.core.set(b_address.value, move_cell(a_instruction, b_instruction, modifier));
                events.push(VmEvent::change(b_address.value, warrior_id, self.round));
                let on = instruction_pointer + 1;
                vec![on]
            },
            OpCode::Add | OpCode::Sub | OpCode::Mul => {
                let on = self.handle_arithmetic(
                    a_instruction,
                    b_instruction,
                    b_address,
                    modifier,
                    instruction_pointer,
                    operation.op,
                    warrior_id,
                    events,
                );
                vec![on]
            },
            OpCode::Div | OpCode::Mod => self.handle_div_arithmetic(
                a_instruction,
                b_instruction,
                b_address,
                modifier,
                instruction_pointer,
                operation.op,
                warrior_id,
                events,
            ),
            OpCode::Jmp => vec![a_address],
            OpCode::Jmz => {
                if is_selected_zero(&b_instruction, modifier) {
                    vec![a_address]
                } else {
                    let on = instruction_pointer + 1;
                    vec![on]
                }
            },
            OpCode::Jmn => {
                if is_selected_zero(&b_instruction, modifier) {
                    let on = instruction_pointer + 1;
                    vec![on]
                } else {
                    vec![a_address]
                }
            },
            OpCode::Djn => {
                let cell = decrement(b_instruction, modifier);
                self.core.set(b_address.value, cell);
                events.push(VmEvent::change(b_address.value, warrior_id, self.round));
                if is_selected_zero(&cell, modifier) {
                    let on = instruction_pointer + 1;
                    vec![on]
                } else {
                    vec![a_address]
                }
            },
            OpCode::Cmp => {
                if is_same(&a_instruction, &b_instruction, modifier) {
                    let skip = instruction_pointer + 2;
                    vec![skip]
                } else {
                    let on = instruction_pointer + 1;
                    vec![on]
                }
            },
            OpCode::Slt => {
                if is_less(&a_instruction, &b_instruction, modifier) {
                    let skip = instruction_pointer + 2;
                    vec![skip]
                } else {
                    let on = instruction_pointer + 1;
                    vec![on]
                }
            },
            OpCode::Spl => {
                let on = instruction_pointer + 1;
                if QUEUE_SIZE == 0 || waiting >= QUEUE_SIZE - 1 {
                    vec![on]
                } else {
                    vec![on, a_address]
                }
            },
        };
        proof {
            let effect = execute_spec(
                old(self)@.core,
                operation,
                instruction_pointer,
                old(self)@.runtimes[warrior_index as int].pcs.len() as int,
                QUEUE_SIZE as int,
                old(self)@.runtimes[warrior_index as int].id,
                old(self)@.round as u128,
            );
            assert(self@.runtimes =~= old(self)@.runtimes);
            assert(self@.core =~= effect.core);
            assert(next@ =~= effect.next);
            assert(events@ =~= old(events)@ + effect.events);
        }
        next
    }
}

impl<const CORE_SIZE: usize, const QUEUE_SIZE: usize> Vm<CORE_SIZE, QUEUE_SIZE> {
    /// Queues the threads that follow behind the warrior's other threads, and
    /// reports one jump for each.
    fn enqueue(
        &mut self,
        warrior_index: usize,
        from: Numeric<CORE_SIZE>,
        next: &Vec<Numeric<CORE_SIZE>>,
        events: &mut Vec<VmEvent>,
    )
        requires
            warrior_index < old(self).warriors_queues@.len(),
        ensures
            final(self).core == old(self).core,
            final(self).warriors_definitions == old(self).warriors_definitions,
            final(self).observers == old(self).observers,
            final(self).round == old(self).round,
            final(self).next_warrior_id == old(self).next_warrior_id,
            final(self).warriors_queues@.len() == old(self).warriors_queues@.len(),
            forall|k: int|
                0 <= k < old(self).warriors_queues@.len() && k != warrior_index ==> final(self).warriors_queues@[k] == old(self).warriors_queues@[k],
            final(self).warriors_queues@[warrior_index as int].warrior_id == old(self).warriors_queues@[warrior_index as int].warrior_id,
            final(self).warriors_queues@[warrior_index as int].instruction_queue@ == old(self).warriors_queues@[warrior_index as int].instruction_queue@ + next@,
            final(events)@ == old(events)@ + Seq::new(
                next@.len(),
                |j: int|
                    VmEvent::spec_jump(
                        from.value,
                        next@[j].value,
                        old(self).warriors_queues@[warrior_index as int].warrior_id,
                        old(self).round,
                    ),
            ),
    {
        let warrior_id = self.warriors_queues[warrior_index].warrior_id;
        let mut queued: usize = 0;
        while queued < next.len()
            invariant
                queued <= next@.len(),
                warrior_index < self.warriors_queues@.len(),
                self.core == old(self).core,
                self.warriors_definitions == old(self).warriors_definitions,
                self.observers == old(self).observers,
                self.round == old(self).round,
                self.next_warrior_id == old(self).next_warrior_id,
                self.warriors_queues@.len() == old(self).warriors_queues@.len(),
                forall|k: int|
                    0 <= k < old(self).warriors_queues@.len() && k != warrior_index
                        ==> self.warriors_queues@[k] == old(self).warriors_queues@[k],
                self.warriors_queues@[warrior_index as int].warrior_id == warrior_id,
                warrior_id == old(self).warriors_queues@[warrior_index as int].warrior_id,
                self.warriors_queues@[warrior_index as int].instruction_queue@ == old(self).warriors_queues@[warrior_index as int].instruction_queue@ + next@.take(
                    queued as int,
                ),
                events@ == old(events)@ + Seq::new(
                    queued as nat,
                    |j: int| VmEvent::spec_jump(from.value, next@[j].value, warrior_id, self.round),
                ),
            decreases next@.len() - queued,
        {
            let pc = next[queued];
            events.push(VmEvent::jump(from.value, pc.value, warrior_id, self.round));
            self.warriors_queues[warrior_index].instruction_queue.push_back(pc);
            proof {
                assert(next@.take(queued as int + 1) =~= next@.take(queued as int).push(pc));
                assert(self.warriors_queues@[warrior_index as int].instruction_queue@ =~= old(self).warriors_queues@[warrior_index as int].instruction_queue@ + next@.take(
                    queued as int + 1,
                ));
                assert(events@ =~= old(events)@ + Seq::new(
                    (queued + 1) as nat,
                    |j: int| VmEvent::spec_jump(from.value, next@[j].value, warrior_id, self.round),
                ));
            }
            queued += 1;
        }
        proof {
            assert(next@.take(next@.len() as int) =~= next@);
        }
    }

    /// One scheduler step: the warrior at the cursor executes the instruction
    /// of its first thread, or, having no thread, is removed. Gives the events
    /// of the step in order.
    pub fn tick(&mut self) -> (events: Vec<VmEvent>)
        requires
            old(self)@.wf(),
            old(self)@.runtimes.len() > 1,
            old(self)@.round < u128::MAX,
        ensures
            final(self)@ == old(self)@.step(),
            events@ == old(self)@.step_events(),
            final(self)@.wf(),
    {
        let mut events: Vec<VmEvent> = Vec::new();
        let cursor = self.next_warrior_id;
        let popped = self.warriors_queues[cursor].instruction_queue.pop_front();
        match popped {
            Some(instruction_pointer) => {
                let ghost before = self@;
                proof {
                    assert(before.runtimes =~= old(self)@.runtimes.update(
                        cursor as int,
                        Runtime {
                            id: old(self)@.served().id,
                            pcs: old(self)@.served().pcs.drop_first(),
                        },
                    ));
                    assert(old(self)@.served().pcs[0].wf());
                    assert(before.wf());
                }
                let instruction = self.core[instruction_pointer.value];
                let next = self.execute(instruction, instruction_pointer, cursor, &mut events);
                let ghost executed = self@;
                self.enqueue(cursor, instruction_pointer, &next, &mut events);
                self.next_warrior_id += 1;
                proof {
                    let effect = old(self)@.effect();
                    let expected = old(self)@.runtimes.update(
                        cursor as int,
                        Runtime {
                            id: old(self)@.served().id,
                            pcs: old(self)@.served().pcs.drop_first() + effect.next,
                        },
                    );
                    assert(executed.runtimes == before.runtimes);
                    assert(before.runtimes[cursor as int].pcs == old(self)@.served().pcs.drop_first());
                    assert(next@ == effect.next);
                    assert forall|k: int| 0 <= k < expected.len() implies self@.runtimes[k]
                        == expected[k] by {
                        if k == cursor {
                            assert(self@.runtimes[k].pcs == executed.runtimes[k].pcs + next@);
                            assert(self@.runtimes[k].id == executed.runtimes[k].id);
                        } else {
                            assert(self@.runtimes[k] == executed.runtimes[k]);
                            assert(before.runtimes[k] == old(self)@.runtimes[k]);
                        }
                    }
                    assert(self@.runtimes =~= expected);
                    assert(events@ =~= old(self)@.step_events());
                }
            },
            None => {
                let terminated = self.warriors_queues.remove(cursor);
                events.push(VmEvent::terminated_program(terminated.warrior_id, self.round));
                proof {
                    assert(self@.runtimes =~= old(self)@.runtimes.remove(cursor as int));
                    assert(events@ =~= old(self)@.step_events());
                }
            },
        }
        if self.next_warrior_id == self.warriors_queues.len() {
            self.next_warrior_id = 0;
            self.round += 1;
        }
        proof {
            assert(self@.runtimes =~= old(self)@.step().runtimes);
        }
        events
    }

    /// Tells the observers of each event, in order.
    fn announce(&self, events: &Vec<VmEvent>) {
        let mut told: usize = 0;
        while told < events.len()
            invariant
                told <= events@.len(),
            decreases events@.len() - told,
        {
            self.notify_observers(events[told]);
            told += 1;
        }
    }

    /// Makes up to `tick_count` scheduler steps, telling the observers of
    /// every event, and stops as soon as a single warrior is left. Gives that
    /// warrior's definition, or nothing while the game is still contested.
    pub fn play(&mut self, tick_count: i32) -> (r: Option<&WarriorDefinition<CORE_SIZE>>)
        requires
            old(self)@.wf(),
            old(self)@.round + tick_count <= u128::MAX,
        ensures
            final(self)@ == old(self)@.run(tick_count as int),
            final(self)@.wf(),
            match r {
                Some(definition) => final(self)@.winner() == Some(*definition),
                None => final(self)@.winner() is None,
            },
    {
        let mut ticks_played: i32 = 0;
        while self.warriors_queues.len() > 1 && ticks_played < tick_count
            invariant
                self@.wf(),
                0 <= ticks_played,
                ticks_played <= tick_count || tick_count < 0,
                self@.round + (tick_count - ticks_played) <= u128::MAX,
                self@.run(tick_count - ticks_played) == old(self)@.run(tick_count as int),
            decreases tick_count - ticks_played,
        {
            let events = self.tick();
            ticks_played += 1;
            self.announce(&events);
        }
        if self.warriors_queues.len() == 1 {
            Some(&self.warriors_definitions[self.warriors_queues[0].warrior_id])
        } else {
            None
        }
    }

    /// The instruction in the cell at `address`, if the core has such a cell.
    pub fn instruction_at(&self, address: usize) -> (r: Option<Instruction<CORE_SIZE>>)
        ensures
            r == (if address < self@.core.len() {
                Some(self@.core[address as int])
            } else {
                None
            }),
    {
        if address < self.core.len() {
            Some(self.core[address])
        } else {
            None
        }
    }

    /// How many warriors have not been removed.
    pub fn alive(&self) -> (r: usize)
        ensures
            r == self@.runtimes.len(),
    {
        self.warriors_queues.len()
    }

    /// The place of the warrior that is served next.
    pub fn cursor(&self) -> (r: usize)
        ensures
            r == self@.cursor,
    {
        self.next_warrior_id
    }

    /// The rounds that were completed.
    pub fn rounds(&self) -> (r: u128)
        ensures
            r == self@.round,
    {
        self.round
    }

    /// Which warrior stands at the place `k` of the schedule.
    pub fn warrior_at(&self, k: usize) -> (r: Option<usize>)
        ensures
            r == (if k < self@.runtimes.len() {
                Some(self@.runtimes[k as int].id)
            } else {
                None
            }),
    {
        if k < self.warriors_queues.len() {
            Some(self.warriors_queues[k].warrior_id)
        } else {
            None
        }
    }

    /// The instruction pointers of the threads of the warrior at the place
    /// `k` of the schedule, the next to run first.
    pub fn threads(&self, k: usize) -> (r: Option<Vec<Numeric<CORE_SIZE>>>)
        ensures
            k < self@.runtimes.len() <==> r is Some,
            r matches Some(pcs) ==> pcs@ == self@.runtimes[k as int].pcs,
    {
        if k < self.warriors_queues.len() {
            let queue = &self.warriors_queues[k].instruction_queue;
            let mut pcs: Vec<Numeric<CORE_SIZE>> = Vec::new();
            let mut copied: usize = 0;
            while copied < queue.len()
                invariant
                    copied <= queue@.len(),
                    pcs@ == queue@.take(copied as int),
                decreases queue@.len() - copied,
            {
                pcs.push(queue[copied]);
                proof {
                    assert(queue@.take(copied as int + 1) =~= queue@.take(copied as int).push(
                        queue@[copied as int],
                    ));
                }
                copied += 1;
            }
            proof {
                assert(queue@.take(queue@.len() as int) =~= queue@);
            }
            Some(pcs)
        } else {
            None
        }
    }
}

} // verus!
