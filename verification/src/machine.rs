//! The machine as a mathematical value: the core, the warriors and their
//! thread queues, the scheduler's cursor and the round counter; and what a
//! scheduler step and a run of steps make of it.

use crate::event::{Observer, VmEvent};
use crate::executor::{core_wf, execute_spec, Effect};
use crate::instructions::Instruction;
use crate::numeric::Numeric;
use crate::vms::WarriorDefinition;
use vstd::prelude::*;

verus! {

/// A warrior while it runs: which definition it came from, and the
/// instruction pointers of its threads, the next to run first.
pub struct Runtime<const CORE_SIZE: usize> {
    pub id: usize,
    pub pcs: Seq<Numeric<CORE_SIZE>>,
}

/// The state of a machine with a core of `CORE_SIZE` cells and queues of up
/// to `QUEUE_SIZE` threads.
pub struct Machine<const CORE_SIZE: usize, const QUEUE_SIZE: usize> {
    pub core: Seq<Instruction<CORE_SIZE>>,
    pub definitions: Seq<WarriorDefinition<CORE_SIZE>>,
    /// The warriors that have not been removed, in scheduling order.
    pub runtimes: Seq<Runtime<CORE_SIZE>>,
    /// The place in `runtimes` of the warrior that is served next.
    pub cursor: int,
    pub round: int,
    /// The observers, in the order in which they were registered.
    pub observers: Seq<Box<dyn Observer<VmEvent>>>,
}

impl<const CORE_SIZE: usize, const QUEUE_SIZE: usize> Machine<CORE_SIZE, QUEUE_SIZE> {
    /// Every instruction pointer in every queue is an address of the core.
    pub open spec fn pcs_in_core(self) -> bool {
        forall|k: int, t: int|
            0 <= k < self.runtimes.len() && 0 <= t < self.runtimes[k].pcs.len() ==> (
            #[trigger] self.runtimes[k].pcs[t]).wf()
    }

    /// Every operand pointer in every cell is an address of the core, and
    /// the core has its full size.
    pub open spec fn pointers_in_core(self) -> bool {
        core_wf(self.core)
    }

    /// There are between 2 and 50 warriors.
    pub open spec fn warriors_in_bounds(self) -> bool {
        2 <= self.definitions.len() <= 50
    }

    /// The warriors that run are warriors that were defined, each once, in
    /// the order of their definitions.
    pub open spec fn runtimes_in_order(self) -> bool {
        &&& 1 <= self.runtimes.len() <= self.definitions.len()
        &&& forall|k: int|
            0 <= k < self.runtimes.len() ==> (#[trigger] self.runtimes[k]).id
                < self.definitions.len()
        &&& forall|j: int, k: int|
            0 <= j < k < self.runtimes.len() ==> (#[trigger] self.runtimes[j]).id < (
            #[trigger] self.runtimes[k]).id
    }

    /// No queue is longer than the machine's queue size (a single thread is
    /// always held).
    pub open spec fn queues_in_bounds(self) -> bool {
        forall|k: int|
            0 <= k < self.runtimes.len() ==> (#[trigger] self.runtimes[k]).pcs.len() <= QUEUE_SIZE
                || self.runtimes[k].pcs.len() <= 1
    }

    /// The invariant of the machine.
    pub open spec fn wf(self) -> bool {
        &&& self.pointers_in_core()
        &&& self.pcs_in_core()
        &&& self.warriors_in_bounds()
        &&& self.runtimes_in_order()
        &&& self.queues_in_bounds()
        &&& 0 <= self.cursor < self.runtimes.len()
        &&& 0 <= self.round <= u128::MAX
    }

    /// The warrior that the cursor stands at.
    pub open spec fn served(self) -> Runtime<CORE_SIZE> {
        self.runtimes[self.cursor]
    }

    /// Whether the warrior at the cursor has a thread to run.
    pub open spec fn can_execute(self) -> bool {
        self.served().pcs.len() > 0
    }

    /// What the first thread of the warrior at the cursor does when it runs:
    /// it executes the instruction that its pointer stands at.
    pub open spec fn effect(self) -> Effect<CORE_SIZE> {
        let ip = self.served().pcs[0];
        execute_spec(
            self.core,
            self.core[ip.value as int],
            ip,
            self.served().pcs.len() - 1,
            QUEUE_SIZE as int,
            self.served().id,
            self.round as u128,
        )
    }

    /// A cursor that has passed the last warrior goes back to the first, and
    /// a new round begins.
    pub open spec fn wrapped(self) -> Self {
        if self.cursor == self.runtimes.len() {
            Machine { cursor: 0, round: self.round + 1, ..self }
        } else {
            self
        }
    }

    /// One scheduler step. A warrior with a thread executes one instruction:
    /// the thread leaves the front of its queue, the threads that follow join
    /// the back, and the cursor moves on. A warrior without a thread is
    /// removed, and the cursor stays: the next warrior has taken its place.
    pub open spec fn step(self) -> Self {
        if self.can_execute() {
            Machine {
                core: self.effect().core,
                runtimes: self.runtimes.update(
                    self.cursor,
                    Runtime {
                        id: self.served().id,
                        pcs: self.served().pcs.drop_first() + self.effect().next,
                    },
                ),
                cursor: self.cursor + 1,
                ..self
            }.wrapped()
        } else {
            Machine { runtimes: self.runtimes.remove(self.cursor), ..self }.wrapped()
        }
    }

    /// The events of one scheduler step, in order: those of the instruction,
    /// then one jump for each thread that follows; or the end of the warrior.
    pub open spec fn step_events(self) -> Seq<VmEvent> {
        if self.can_execute() {
            self.effect().events + Seq::new(
                self.effect().next.len(),
                |j: int|
                    VmEvent::spec_jump(
                        self.served().pcs[0].value,
                        self.effect().next[j].value,
                        self.served().id,
                        self.round as u128,
                    ),
            )
        } else {
            seq![VmEvent::spec_terminated_program(self.served().id, self.round as u128)]
        }
    }

    /// Whether the game goes on: more than one warrior is left.
    pub open spec fn contested(self) -> bool {
        self.runtimes.len() > 1 && 0 <= self.cursor < self.runtimes.len()
    }

    /// The machine after up to `ticks` scheduler steps. It stops earlier when
    /// a single warrior is left. A step that removes a warrior is a tick like
    /// a step that executes an instruction.
    pub open spec fn run(self, ticks: int) -> Self
        decreases ticks,
    {
        if ticks <= 0 || !self.contested() {
            self
        } else {
            self.step().run(ticks - 1)
        }
    }

    /// The definition of the last warrior, when a single one is left.
    pub open spec fn winner(self) -> Option<WarriorDefinition<CORE_SIZE>> {
        if self.runtimes.len() == 1 {
            Some(self.definitions[self.runtimes[0].id as int])
        } else {
            None
        }
    }

    /// How many cells each warrior has for itself when `count` are loaded.
    pub open spec fn slot(count: int) -> int {
        CORE_SIZE as int / count
    }

    /// Where the warrior `k` of `count` is loaded, and where its first thread
    /// starts.
    pub open spec fn start(count: int, k: int) -> int {
        k * Self::slot(count)
    }

    /// Whether the warriors can be loaded: there are between 2 and 50, and
    /// each fits its slot.
    pub open spec fn loadable(definitions: Seq<WarriorDefinition<CORE_SIZE>>) -> bool {
        &&& 2 <= definitions.len() <= 50
        &&& forall|k: int|
            0 <= k < definitions.len() ==> (#[trigger] definitions[k]).ops@.len() <= Self::slot(
                definitions.len() as int,
            )
    }

    /// What the cell `i` of the core holds after loading: an instruction of
    /// the warrior whose slot it lies in, with its pointers reduced, or, past
    /// the warrior's last instruction, the blank instruction.
    pub open spec fn loaded_cell(
        definitions: Seq<WarriorDefinition<CORE_SIZE>>,
        i: int,
    ) -> Instruction<CORE_SIZE> {
        let slot = Self::slot(definitions.len() as int);
        if slot > 0 && i / slot < definitions.len() && i % slot < definitions[i / slot].ops@.len() {
            definitions[i / slot].ops@[i % slot].reduced()
        } else {
            Instruction::spec_blank()
        }
    }

    /// The machine right after the warriors were loaded: each warrior has one
    /// thread at the start of its slot, and the first warrior is served first.
    pub open spec fn loaded(definitions: Seq<WarriorDefinition<CORE_SIZE>>) -> Self {
        Machine {
            core: Seq::new(CORE_SIZE as nat, |i: int| Self::loaded_cell(definitions, i)),
            definitions,
            runtimes: Seq::new(
                definitions.len(),
                |k: int|
                    Runtime {
                        id: k as usize,
                        pcs: seq![Numeric::reduce(Self::start(definitions.len() as int, k))],
                    },
            ),
            cursor: 0,
            round: 0,
            observers: Seq::empty(),
        }
    }
}

} // verus!
