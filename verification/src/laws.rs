//! What holds of every machine: the invariant lasts through every run, the
//! warriors are loaded apart from each other, and the scheduler is fair.

use crate::executor::{
    combined, core_wf, decremented, execute_spec, fold_address, fold_core, moved, pointed,
};
use crate::instructions::{Instruction, Modifier, OpCode, Operand};
use crate::machine::Machine;
use crate::numeric::Numeric;
use crate::vms::{lemma_cell_position, lemma_slots_fit, WarriorDefinition};
use vstd::arithmetic::div_mod::lemma_mod_bound;
use vstd::prelude::*;

verus! {

/// The representative of any integer is an address of the core.
pub proof fn lemma_reduce_wf<const CORE_SIZE: usize>(n: int)
    requires
        CORE_SIZE > 0,
    ensures
        Numeric::<CORE_SIZE>::reduce(n).wf(),
{
    lemma_mod_bound(n, CORE_SIZE as int);
}

/// Executing an instruction keeps every pointer in the core, gives threads
/// that stand in the core, and gives two of them only where the queue has
/// room for both.
pub proof fn lemma_execute_keeps_core<const CORE_SIZE: usize>(
    core: Seq<Instruction<CORE_SIZE>>,
    operation: Instruction<CORE_SIZE>,
    ip: Numeric<CORE_SIZE>,
    waiting: int,
    queue_size: int,
    warrior_id: usize,
    round: u128,
)
    requires
        core_wf(core),
        operation.wf(),
        ip.wf(),
    ensures
        ({
            let effect = execute_spec(core, operation, ip, waiting, queue_size, warrior_id, round);
            &&& core_wf(effect.core)
            &&& forall|j: int| 0 <= j < effect.next.len() ==> (#[trigger] effect.next[j]).wf()
            &&& effect.next.len() <= 2
            &&& effect.next.len() == 2 ==> waiting + 1 < queue_size
        }),
{
    let after_a = fold_core(core, operation.a_operand, ip);
    let a_address = fold_address(core, operation.a_operand, ip);
    let folded = fold_core(after_a, operation.b_operand, ip);
    let b_address = fold_address(after_a, operation.b_operand, ip);
    lemma_fold_keeps_core(core, operation.a_operand, ip);
    lemma_fold_keeps_core(after_a, operation.b_operand, ip);
    let source = folded[a_address.value as int];
    let target = folded[b_address.value as int];
    assert(source.wf());
    assert(target.wf());
    lemma_cells_wf(operation.op, source, target, operation.modifier);
    lemma_reduce_wf::<CORE_SIZE>(ip.value + 1);
    lemma_reduce_wf::<CORE_SIZE>(ip.value + 2);
    let effect = execute_spec(core, operation, ip, waiting, queue_size, warrior_id, round);
    assert(core_wf(effect.core)) by {
        assert forall|i: int| 0 <= i < effect.core.len() implies (#[trigger] effect.core[i]).wf() by {
            if i != b_address.value {
                assert(effect.core[i] == folded[i]);
            }
        }
    }
}

/// Folding an operand keeps every pointer in the core, and resolves to an
/// address of the core.
pub proof fn lemma_fold_keeps_core<const CORE_SIZE: usize>(
    core: Seq<Instruction<CORE_SIZE>>,
    operand: Operand<CORE_SIZE>,
    ip: Numeric<CORE_SIZE>,
)
    requires
        core_wf(core),
        operand.wf(),
        ip.wf(),
    ensures
        core_wf(fold_core(core, operand, ip)),
        fold_address(core, operand, ip).wf(),
{
    let at = pointed(operand, ip);
    lemma_reduce_wf::<CORE_SIZE>(operand.pointer.value + ip.value);
    let cell = core[at.value as int];
    assert(cell.wf());
    lemma_reduce_wf::<CORE_SIZE>(cell.b_operand.pointer.value + 1);
    lemma_reduce_wf::<CORE_SIZE>(cell.b_operand.pointer.value + CORE_SIZE - 1);
    let after = fold_core(core, operand, ip);
    assert forall|i: int| 0 <= i < after.len() implies (#[trigger] after[i]).wf() by {
        if i != at.value {
            assert(after[i] == core[i]);
        }
    }
    lemma_reduce_wf::<CORE_SIZE>(at.value + after[at.value as int].b_operand.pointer.value);
}

/// What the opcodes write into a cell keeps its pointers in the core.
pub proof fn lemma_cells_wf<const CORE_SIZE: usize>(
    op: OpCode,
    source: Instruction<CORE_SIZE>,
    target: Instruction<CORE_SIZE>,
    modifier: Modifier,
)
    requires
        CORE_SIZE > 0,
        source.wf(),
        target.wf(),
    ensures
        moved(source, target, modifier).wf(),
        combined(op, source, target, modifier).wf(),
        decremented(target, modifier).wf(),
{
    assert forall|n: int| (#[trigger] Numeric::<CORE_SIZE>::reduce(n)).wf() by {
        lemma_reduce_wf::<CORE_SIZE>(n);
    }
}

impl<const CORE_SIZE: usize, const QUEUE_SIZE: usize> Machine<CORE_SIZE, QUEUE_SIZE> {
    /// A scheduler step keeps the invariant of the machine, as long as more
    /// than one warrior is left and the round counter has room.
    pub proof fn lemma_step_keeps_wf(self)
        requires
            self.wf(),
            self.runtimes.len() > 1,
            self.round < u128::MAX,
        ensures
            self.step().wf(),
            self.step().definitions == self.definitions,
            self.round <= self.step().round <= self.round + 1,
    {
        let next = self.step();
        self.lemma_schedule_stays();
        if self.can_execute() {
            let ip = self.served().pcs[0];
            assert(ip.wf());
            assert(self.core[ip.value as int].wf());
            lemma_execute_keeps_core(
                self.core,
                self.core[ip.value as int],
                ip,
                self.served().pcs.len() - 1,
                QUEUE_SIZE as int,
                self.served().id,
                self.round as u128,
            );
            let effect = self.effect();
            let queue = self.served().pcs.drop_first() + effect.next;
            assert forall|k: int, t: int|
                0 <= k < next.runtimes.len() && 0 <= t < next.runtimes[k].pcs.len() implies (
            #[trigger] next.runtimes[k].pcs[t]).wf() by {
                if k == self.cursor {
                    if t < self.served().pcs.len() - 1 {
                        assert(queue[t] == self.runtimes[k].pcs[t + 1]);
                    } else {
                        assert(queue[t] == effect.next[t - (self.served().pcs.len() - 1)]);
                    }
                } else {
                    assert(next.runtimes[k].pcs[t] == self.runtimes[k].pcs[t]);
                }
            }
            assert forall|k: int| 0 <= k < next.runtimes.len() implies (
            #[trigger] next.runtimes[k]).pcs.len() <= QUEUE_SIZE || next.runtimes[k].pcs.len()
                <= 1 by {
                if k != self.cursor {
                    assert(next.runtimes[k] == self.runtimes[k]);
                }
            }
        } else {
            let c = self.cursor;
            assert forall|k: int| 0 <= k < next.runtimes.len() implies #[trigger] next.runtimes[k]
                == self.runtimes[if k < c {
                k
            } else {
                k + 1
            }] by {}
            assert forall|k: int, t: int|
                0 <= k < next.runtimes.len() && 0 <= t < next.runtimes[k].pcs.len() implies (
            #[trigger] next.runtimes[k].pcs[t]).wf() by {
                let k0 = if k < c {
                    k
                } else {
                    k + 1
                };
                assert(next.runtimes[k].pcs[t] == self.runtimes[k0].pcs[t]);
            }
        }
    }

    /// The invariant of the machine lasts through every run: every thread
    /// stands in the core, every pointer in the core points into it, and the
    /// warriors are as many as they were, between 2 and 50.
    pub proof fn lemma_run_keeps_wf(self, ticks: int)
        requires
            self.wf(),
            self.round + ticks <= u128::MAX,
        ensures
            self.run(ticks).wf(),
            self.run(ticks).pcs_in_core(),
            self.run(ticks).pointers_in_core(),
            self.run(ticks).warriors_in_bounds(),
            self.run(ticks).definitions == self.definitions,
        decreases ticks,
    {
        if ticks <= 0 || !self.contested() {
        } else {
            self.lemma_step_keeps_wf();
            self.step().lemma_run_keeps_wf(ticks - 1);
        }
    }

    /// Whether the warrior `id` has not been removed.
    pub open spec fn alive(self, id: usize) -> bool {
        exists|k: int| 0 <= k < self.runtimes.len() && (#[trigger] self.runtimes[k]).id == id
    }

    /// The place of the warrior `id` in the schedule.
    pub open spec fn position(self, id: usize) -> int {
        choose|k: int| 0 <= k < self.runtimes.len() && (#[trigger] self.runtimes[k]).id == id
    }

    /// 1 where the warrior `id` has had its turn in the round that is under
    /// way, 0 where its turn is still to come.
    pub open spec fn turn_taken(self, id: usize) -> int {
        if self.alive(id) && self.position(id) < self.cursor {
            1
        } else {
            0
        }
    }

    /// How many instructions the warrior `id` executes in a run of up to
    /// `ticks` scheduler steps.
    pub open spec fn executed(self, ticks: int, id: usize) -> int
        decreases ticks,
    {
        if ticks <= 0 || !self.contested() {
            0
        } else {
            (if self.can_execute() && self.served().id == id {
                1int
            } else {
                0int
            }) + self.step().executed(ticks - 1, id)
        }
    }

    /// The schedule is in order: the warriors that run were defined, none
    /// runs twice, and the cursor stands at one of them.
    pub open spec fn schedule_wf(self) -> bool {
        self.runtimes_in_order() && 0 <= self.cursor < self.runtimes.len()
    }

    /// With the schedule in order, a warrior stands where its name is found.
    pub proof fn lemma_position(self, k: int)
        requires
            self.runtimes_in_order(),
            0 <= k < self.runtimes.len(),
        ensures
            self.alive(self.runtimes[k].id),
            self.position(self.runtimes[k].id) == k,
    {
        let id = self.runtimes[k].id;
        let found = self.position(id);
        assert(0 <= found < self.runtimes.len() && self.runtimes[found].id == id);
        if found < k {
            assert(self.runtimes[found].id < self.runtimes[k].id);
        } else if k < found {
            assert(self.runtimes[k].id < self.runtimes[found].id);
        }
    }

    /// One scheduler step is fair to every warrior that it leaves in the
    /// game: what the warrior executed in the step, together with its turn
    /// before, is the rounds that the step completed, together with its turn
    /// afterwards.
    pub proof fn lemma_step_fair(self, id: usize)
        requires
            self.schedule_wf(),
            self.runtimes.len() > 1,
            self.step().alive(id),
        ensures
            self.alive(id),
            self.step().schedule_wf(),
            (if self.can_execute() && self.served().id == id {
                1int
            } else {
                0int
            }) + self.turn_taken(id) == self.step().round - self.round + self.step().turn_taken(
                id,
            ),
    {
        let next = self.step();
        let c = self.cursor;
        let k1 = next.position(id);
        assert(0 <= k1 < next.runtimes.len() && next.runtimes[k1].id == id);
        self.lemma_schedule_stays();
        if self.can_execute() {
            assert(self.runtimes[k1].id == id);
            self.lemma_position(k1);
            next.lemma_position(k1);
        } else {
            assert forall|k: int| 0 <= k < next.runtimes.len() implies #[trigger] next.runtimes[k]
                == self.runtimes[if k < c {
                k
            } else {
                k + 1
            }] by {}
            let k0 = if k1 < c {
                k1
            } else {
                k1 + 1
            };
            assert(self.runtimes[k0].id == id);
            self.lemma_position(k0);
            next.lemma_position(k1);
        }
    }

    /// The scheduler is fair. Over any run, for every warrior that is still
    /// in the game at its end: the instructions that the warrior executed,
    /// together with its turn in the round in which the run began, are the
    /// rounds that were completed, together with its turn in the round in
    /// which the run ended.
    pub proof fn lemma_fair(self, ticks: int, id: usize)
        requires
            self.schedule_wf(),
            self.run(ticks).alive(id),
        ensures
            self.alive(id),
            self.run(ticks).schedule_wf(),
            self.executed(ticks, id) + self.turn_taken(id) == self.run(ticks).round - self.round
                + self.run(ticks).turn_taken(id),
        decreases ticks,
    {
        if ticks <= 0 || !self.contested() {
        } else {
            let next = self.step();
            self.lemma_schedule_stays();
            next.lemma_fair(ticks - 1, id);
            self.lemma_step_fair(id);
        }
    }

    /// A scheduler step keeps the schedule in order.
    pub proof fn lemma_schedule_stays(self)
        requires
            self.schedule_wf(),
            self.runtimes.len() > 1,
        ensures
            self.step().schedule_wf(),
    {
        let next = self.step();
        let c = self.cursor;
        if self.can_execute() {
            assert forall|j: int, k: int| 0 <= j < k < next.runtimes.len() implies (
            #[trigger] next.runtimes[j]).id < (#[trigger] next.runtimes[k]).id by {
                assert(self.runtimes[j].id < self.runtimes[k].id);
            }
            assert forall|k: int| 0 <= k < next.runtimes.len() implies (
            #[trigger] next.runtimes[k]).id < next.definitions.len() by {
                assert(self.runtimes[k].id < self.definitions.len());
            }
        } else {
            assert forall|j: int, k: int| 0 <= j < k < next.runtimes.len() implies (
            #[trigger] next.runtimes[j]).id < (#[trigger] next.runtimes[k]).id by {
                let j0 = if j < c {
                    j
                } else {
                    j + 1
                };
                let k0 = if k < c {
                    k
                } else {
                    k + 1
                };
                assert(self.runtimes[j0].id < self.runtimes[k0].id);
            }
            assert forall|k: int| 0 <= k < next.runtimes.len() implies (
            #[trigger] next.runtimes[k]).id < next.definitions.len() by {
                let k0 = if k < c {
                    k
                } else {
                    k + 1
                };
                assert(self.runtimes[k0].id < self.definitions.len());
            }
        }
    }

    /// After whole rounds, each warrior that is still in the game has
    /// executed one instruction in each of them: over a run that begins and
    /// ends with a round, it has executed as many instructions as rounds
    /// were completed.
    pub proof fn lemma_one_instruction_a_round(self, ticks: int, id: usize)
        requires
            self.schedule_wf(),
            self.cursor == 0,
            self.run(ticks).cursor == 0,
            self.run(ticks).alive(id),
        ensures
            self.executed(ticks, id) == self.run(ticks).round - self.round,
    {
        self.lemma_fair(ticks, id);
    }

    /// The warriors are loaded apart and evenly spaced: the slots begin one
    /// slot's length from each other, every instruction lies in the slot of
    /// its warrior and in the core, no cell holds instructions of two
    /// warriors, and each instruction stands where it was loaded, with its
    /// pointers reduced.
    pub proof fn lemma_loaded_apart(
        definitions: Seq<WarriorDefinition<CORE_SIZE>>,
        j: int,
        a: int,
        k: int,
        b: int,
    )
        requires
            CORE_SIZE > 0,
            Self::loadable(definitions),
            0 <= j < k < definitions.len(),
            0 <= a < definitions[j].ops@.len(),
            0 <= b < definitions[k].ops@.len(),
        ensures
            Self::start(definitions.len() as int, k) - Self::start(definitions.len() as int, j)
                == (k - j) * Self::slot(definitions.len() as int),
            Self::start(definitions.len() as int, j) + a < Self::start(
                definitions.len() as int,
                k,
            ),
            Self::start(definitions.len() as int, k) + b < CORE_SIZE,
            Self::loaded(definitions).core[Self::start(definitions.len() as int, j) + a]
                == definitions[j].ops@[a].reduced(),
            Self::loaded(definitions).core[Self::start(definitions.len() as int, k) + b]
                == definitions[k].ops@[b].reduced(),
    {
        let count = definitions.len() as int;
        let slot = Self::slot(count);
        lemma_slots_fit(CORE_SIZE as int, count, k);
        lemma_slots_fit(CORE_SIZE as int, count, k + 1);
        lemma_slots_fit(CORE_SIZE as int, count, j);
        assert(k * slot - j * slot == (k - j) * slot) by (nonlinear_arith);
        assert((k - j) * slot >= slot) by (nonlinear_arith)
            requires
                k - j >= 1,
                slot >= 0,
        ;
        lemma_cell_position(slot, j, a);
        lemma_cell_position(slot, k, b);
    }
}

} // verus!
