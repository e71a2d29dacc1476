//! What the machine reports while it runs, and who listens.

use vstd::prelude::*;

verus! {

/// Someone who is told of events.
pub trait Observer<T> {
    fn notify(&self, event: T);
}

/// Something that observers can be registered with.
pub trait Observable<T> {
    fn register(&mut self, observer: Box<dyn Observer<T>>);
}

/// What an event tells of.
#[derive(Clone, Copy, Debug, PartialEq, Eq, Structural)]
pub enum EventType {
    TerminatedProgram,
    TerminatedThread,
    Change,
    Jump,
}

/// What the machine reports: which warrior did what in which round. A jump
/// and the end of a thread carry the place the thread came from in
/// `moved_from`; a jump carries its target and a change the cell that was
/// written in `offset`.
#[derive(Clone, Copy, Debug)]
pub struct VmEvent {
    pub event_type: EventType,
    pub moved_from: Option<usize>,
    pub offset: Option<usize>,
    pub warrior_id: usize,
    pub round: u128,
}

impl VmEvent {
    /// A core cell at `address` was written.
    pub open spec fn spec_change(address: usize, warrior_id: usize, round: u128) -> VmEvent {
        VmEvent {
            event_type: EventType::Change,
            moved_from: None,
            offset: Some(address),
            warrior_id,
            round,
        }
    }

    /// A thread went from `from` to `to`.
    pub open spec fn spec_jump(from: usize, to: usize, warrior_id: usize, round: u128) -> VmEvent {
        VmEvent {
            event_type: EventType::Jump,
            moved_from: Some(from),
            offset: Some(to),
            warrior_id,
            round,
        }
    }

    /// The thread that stood at `at` ended.
    pub open spec fn spec_terminated_thread(at: usize, warrior_id: usize, round: u128) -> VmEvent {
        VmEvent {
            event_type: EventType::TerminatedThread,
            moved_from: Some(at),
            offset: None,
            warrior_id,
            round,
        }
    }

    /// A warrior ran out of threads.
    pub open spec fn spec_terminated_program(warrior_id: usize, round: u128) -> VmEvent {
        VmEvent {
            event_type: EventType::TerminatedProgram,
            moved_from: None,
            offset: None,
            warrior_id,
            round,
        }
    }

    /// The event of a core cell written at `address`.
    #[verifier::when_used_as_spec(spec_change)]
    pub fn change(address: usize, warrior_id: usize, round: u128) -> (r: VmEvent)
        ensures
            r == Self::spec_change(address, warrior_id, round),
    {
        VmEvent {
            event_type: EventType::Change,
            moved_from: None,
            offset: Some(address),
            warrior_id,
            round,
        }
    }

    /// The event of a thread going from `from` to `to`.
    #[verifier::when_used_as_spec(spec_jump)]
    pub fn jump(from: usize, to: usize, warrior_id: usize, round: u128) -> (r: VmEvent)
        ensures
            r == Self::spec_jump(from, to, warrior_id, round),
    {
        VmEvent {
            event_type: EventType::Jump,
            moved_from: Some(from),
            offset: Some(to),
            warrior_id,
            round,
        }
    }

    /// The event of the thread at `at` ending.
    #[verifier::when_used_as_spec(spec_terminated_thread)]
    pub fn terminated_thread(at: usize, warrior_id: usize, round: u128) -> (r: VmEvent)
        ensures
            r == Self::spec_terminated_thread(at, warrior_id, round),
    {
        VmEvent {
            event_type: EventType::TerminatedThread,
            moved_from: Some(at),
            offset: None,
            warrior_id,
            round,
        }
    }

    /// The event of a warrior running out of threads.
    #[verifier::when_used_as_spec(spec_terminated_program)]
    pub fn terminated_program(warrior_id: usize, round: u128) -> (r: VmEvent)
        ensures
            r == Self::spec_terminated_program(warrior_id, round),
    {
        VmEvent {
            event_type: EventType::TerminatedProgram,
            moved_from: None,
            offset: None,
            warrior_id,
            round,
        }
    }
}

} // verus!
