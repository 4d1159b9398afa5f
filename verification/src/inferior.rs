//! The inferior controller's record of one traced process: its identifier,
//! where it is in its life, and which of its addresses hold a trap.

use std::collections::HashSet;
use vstd::prelude::*;

verus! {

/// The signal with which a traced process stops at a trap or after a single step.
pub const SIGTRAP: i32 = 5;

/// A stop event as the caller sees it.
#[derive(Clone, Copy, PartialEq, Eq, Structural, Debug)]
pub enum Status {
    /// The process stopped on a signal; the second field is the address of
    /// the instruction it will execute next.
    Stopped(i32, u64),
    /// The process ended by itself with this exit code.
    Exited(i32),
    /// A signal ended the process.
    Signaled(i32),
}

/// Where a traced process is in its life.
#[derive(Clone, Copy, PartialEq, Eq, Structural, Debug)]
pub enum RunState {
    Created,
    Running,
    Stopped(i32, u64),
    Exited(i32),
    Signaled(i32),
    Killed,
}

/// A stop as it is reported: where the process stopped on the trap signal
/// just behind an installed trap, the address is that of the trap, which is
/// where the displaced instruction starts.
pub open spec fn classify(status: Status, traps: Set<u64>) -> Status {
    match status {
        Status::Stopped(signal, rip) => if signal == SIGTRAP && rip >= 1 && traps.contains(
            (rip - 1) as u64,
        ) {
            Status::Stopped(signal, (rip - 1) as u64)
        } else {
            status
        },
        _ => status,
    }
}

/// The state that a process is in after a stop event.
pub open spec fn state_after(status: Status) -> RunState {
    match status {
        Status::Stopped(signal, rip) => RunState::Stopped(signal, rip),
        Status::Exited(code) => RunState::Exited(code),
        Status::Signaled(signal) => RunState::Signaled(signal),
    }
}

/// What is known of a traced process.
pub struct InferiorView {
    pub pid: i32,
    pub state: RunState,
    pub traps: Set<u64>,
}

impl InferiorView {
    /// A process that was launched and has not been waited for yet.
    pub open spec fn created(pid: i32) -> InferiorView {
        InferiorView { pid, state: RunState::Created, traps: Set::empty() }
    }

    /// Whether the process still exists.
    pub open spec fn alive(self) -> bool {
        self.state is Created || self.state is Running || self.state is Stopped
    }

    /// The process once it has been let go.
    pub open spec fn running(self) -> InferiorView {
        InferiorView { state: RunState::Running, ..self }
    }

    /// The process after the stop event `status`, taken as it came.
    pub open spec fn halted(self, status: Status) -> InferiorView {
        InferiorView { state: state_after(status), ..self }
    }

    /// The process after the stop event `status`, with a trap hit corrected.
    pub open spec fn observed(self, status: Status) -> InferiorView {
        self.halted(classify(status, self.traps))
    }

    /// The process after it was terminated; one that had ended stays as it was.
    pub open spec fn killed(self) -> InferiorView {
        if self.alive() {
            InferiorView { state: RunState::Killed, ..self }
        } else {
            self
        }
    }

    /// The process with a trap at `addr`.
    pub open spec fn with_trap(self, addr: u64) -> InferiorView {
        InferiorView { traps: self.traps.insert(addr), ..self }
    }

    /// The process with its own instruction byte at `addr`.
    pub open spec fn without_trap(self, addr: u64) -> InferiorView {
        InferiorView { traps: self.traps.remove(addr), ..self }
    }
}

/// One traced process.
pub struct Inferior {
    pid: i32,
    state: RunState,
    traps: HashSet<u64>,
}

impl View for Inferior {
    type V = InferiorView;

    closed spec fn view(&self) -> InferiorView {
        InferiorView { pid: self.pid, state: self.state, traps: self.traps@ }
    }
}

impl Inferior {
    /// The record of a process that was just launched.
    pub fn new(pid: i32) -> (inferior: Inferior)
        ensures
            inferior@ == InferiorView::created(pid),
    {
        Inferior { pid, state: RunState::Created, traps: HashSet::new() }
    }

    /// The process identifier.
    pub fn pid(&self) -> (pid: i32)
        ensures
            pid == self@.pid,
    {
        self.pid
    }

    /// Where the process is in its life.
    pub fn state(&self) -> (state: RunState)
        ensures
            state == self@.state,
    {
        self.state
    }

    /// Whether the process still exists.
    pub fn is_alive(&self) -> (alive: bool)
        ensures
            alive == self@.alive(),
    {
        match self.state {
            RunState::Created => true,
            RunState::Running => true,
            RunState::Stopped(_, _) => true,
            _ => false,
        }
    }

    /// Whether `addr` holds a trap.
    pub fn has_trap(&self, addr: u64) -> (installed: bool)
        ensures
            installed == self@.traps.contains(addr),
    {
        broadcast use vstd::std_specs::hash::group_hash_axioms;

        self.traps.contains(&addr)
    }

    /// Notes that the process was let go.
    pub fn set_running(&mut self)
        ensures
            final(self)@ == old(self)@.running(),
    {
        self.state = RunState::Running;
    }

    /// Notes a stop event as it came.
    pub fn halt(&mut self, status: Status)
        ensures
            final(self)@ == old(self)@.halted(status),
    {
        self.state = match status {
            Status::Stopped(signal, rip) => RunState::Stopped(signal, rip),
            Status::Exited(code) => RunState::Exited(code),
            Status::Signaled(signal) => RunState::Signaled(signal),
        };
    }

    /// Notes a stop event and returns it as it is to be reported: a stop
    /// just behind an installed trap counts as a stop at the trap.
    pub fn observe(&mut self, status: Status) -> (seen: Status)
        ensures
            seen == classify(status, old(self)@.traps),
            final(self)@ == old(self)@.observed(status),
    {
        let seen = match status {
            Status::Stopped(signal, rip) => {
                if signal == SIGTRAP && rip >= 1 && self.has_trap(rip - 1) {
                    Status::Stopped(signal, rip - 1)
                } else {
                    status
                }
            },
            _ => status,
        };
        self.halt(seen);
        seen
    }

    /// Notes that the process was terminated and returns its identifier; of a
    /// process that had ended already, only the identifier is returned.
    pub fn kill(&mut self) -> (pid: i32)
        ensures
            pid == old(self)@.pid,
            final(self)@ == old(self)@.killed(),
    {
        if self.is_alive() {
            self.state = RunState::Killed;
        }
        self.pid
    }

    /// Notes that a trap was written at `addr`.
    pub fn set_trap(&mut self, addr: u64)
        ensures
            final(self)@ == old(self)@.with_trap(addr),
    {
        broadcast use vstd::std_specs::hash::group_hash_axioms;

        self.traps.insert(addr);
    }

    /// Notes that the instruction byte at `addr` was put back.
    pub fn clear_trap(&mut self, addr: u64)
        ensures
            final(self)@ == old(self)@.without_trap(addr),
    {
        broadcast use vstd::std_specs::hash::group_hash_axioms;

        self.traps.remove(&addr);
    }
}

/// The bytes of a machine word.
pub const WORD_BYTES: u64 = 8;

/// The byte with this number of a word, counted from the least significant.
pub open spec fn byte_of(word: u64, index: u64) -> u8 {
    ((word >> ((8 * index) as u64)) & 0xff) as u8
}

/// The address of the word that holds the byte at `addr`.
pub fn align_addr_to_word(addr: u64) -> (aligned: u64)
    ensures
        aligned == addr - addr % WORD_BYTES,
{
    addr - addr % WORD_BYTES
}

/// Puts `value` in the place of one byte of a word that was read from the
/// traced process, and gives the word to write back and the byte replaced.
pub fn patch_word(word: u64, index: u64, value: u8) -> (patched: (u64, u8))
    requires
        index < WORD_BYTES,
    ensures
        patched.1 == byte_of(word, index),
        byte_of(patched.0, index) == value,
        forall|other: u64|
            other < WORD_BYTES && other != index ==> #[trigger] byte_of(patched.0, other)
                == byte_of(word, other),
{
    let shift: u64 = 8 * index;
    let replaced: u64 = (word >> shift) & 0xff;
    let masked: u64 = word & !(0xffu64 << shift);
    let updated: u64 = masked | ((value as u64) << shift);
    proof {
        let wide = value as u64;
        assert(((word >> shift) & 0xff) < 256) by (bit_vector);
        assert((((word & !(0xffu64 << shift)) | (wide << shift)) >> shift) & 0xff == wide)
            by (bit_vector)
            requires
                shift <= 56,
                wide < 256,
        ;
        assert forall|other: u64| other < WORD_BYTES && other != index implies #[trigger] byte_of(
            updated,
            other,
        ) == byte_of(word, other) by {
            let there: u64 = (8 * other) as u64;
            assert((((word & !(0xffu64 << shift)) | (wide << shift)) >> there) & 0xff == (word
                >> there) & 0xff) by (bit_vector)
                requires
                    shift == 8 * index,
                    there == 8 * other,
                    index < 8,
                    other < 8,
                    other != index,
                    wide < 256,
            ;
        }
    }
    (updated, replaced as u8)
}

} // verus!
