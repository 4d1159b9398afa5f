//! What holds of every session, stated over a model of the traced process's
//! memory and proved from the session's transition function.

use crate::breakpoints::{lemma_recorded_well_formed, lemma_requested_well_formed, TRAP_BYTE};
use crate::debugger::{no_lines, one_line, DebuggerView, Phase};
use crate::inferior::{RunState, Status, SIGTRAP};
use crate::messages::{frame_text, invalid_breakpoint_text, killing_text};
use crate::protocol::{CommandView, EventView, NextView, Reply, RequestView, StepView};
use crate::unwinder::{entry_function, MAX_FRAMES};
use vstd::prelude::*;

verus! {

/// Whether a memory image has a byte at every address.
pub open spec fn full(image: Map<u64, u8>) -> bool {
    forall|a: u64| image.contains_key(a)
}

/// The request whose reply a session is waiting for.
pub open spec fn outstanding(d: DebuggerView) -> Option<RequestView> {
    match d.phase {
        Phase::Idle => None,
        Phase::Finished => None,
        Phase::Replacing(pid) => Some(RequestView::Kill(pid)),
        Phase::Abandoning(pid, _) => Some(RequestView::Kill(pid)),
        Phase::Quitting(pid) => Some(RequestView::Kill(pid)),
        Phase::Spawning => Some(RequestView::Spawn { target: d.target, args: d.args }),
        Phase::Handshake => Some(RequestView::Wait),
        Phase::Installing(index) => if index < d.breakpoints.order.len() {
            Some(
                RequestView::WriteByte {
                    addr: d.breakpoints.order[index as int],
                    value: TRAP_BYTE,
                },
            )
        } else {
            None
        },
        Phase::Restoring(addr) => match d.breakpoints.byte_at(addr) {
            Some(byte) => Some(RequestView::WriteByte { addr, value: byte }),
            None => None,
        },
        Phase::Rewinding(addr) => Some(RequestView::SetInstructionPointer(addr)),
        Phase::Stepping(_) => Some(RequestView::Step),
        Phase::Reinstalling(addr) => Some(RequestView::WriteByte { addr, value: TRAP_BYTE }),
        Phase::Continuing => Some(RequestView::Continue),
        Phase::Planting(addr) => Some(RequestView::WriteByte { addr, value: TRAP_BYTE }),
        Phase::ReadingRegisters => Some(RequestView::ReadRegisters),
        Phase::ReadingReturn(base, _) => Some(RequestView::ReadWord((base + 8) as u64)),
        Phase::ReadingBase(base, _, _) => Some(RequestView::ReadWord(base)),
    }
}

/// What the tracing facility does to the memory of the traced process when
/// it carries out a request, and what it answers. A write that succeeds
/// answers with the byte it replaced; a launch that succeeds gives a process
/// whose memory is the program's image; nothing else changes the bytes that
/// the session cares for.
pub open spec fn answers(
    request: Option<RequestView>,
    before: Map<u64, u8>,
    program: Map<u64, u8>,
    reply: Reply,
    after: Map<u64, u8>,
) -> bool {
    match request {
        Some(RequestView::WriteByte { addr, value }) => match reply {
            Reply::Byte(found) => found == before[addr] && after == before.insert(addr, value),
            _ => after == before,
        },
        Some(RequestView::Spawn { .. }) => match reply {
            Reply::Spawned(_) => after == program,
            _ => after == before,
        },
        _ => after == before,
    }
}

/// The session's books agree with the memory of the traced process: every
/// byte on record is the program's own byte at that address; while the
/// process lives, its memory is the program's image with the trap byte at
/// exactly the addresses that the session holds as trapped, each of them
/// with a byte on record; and the step-over protocol stands where its phase
/// says.
pub open spec fn consistent(d: DebuggerView, memory: Map<u64, u8>, program: Map<u64, u8>) -> bool {
    &&& full(memory)
    &&& full(program)
    &&& d.breakpoints.well_formed()
    &&& forall|a: u64| #[trigger]
        d.breakpoints.byte_at(a) is Some ==> d.breakpoints.byte_at(a) == Some(program[a])
    &&& match d.inferior {
        Some(inferior) => inferior.alive() ==> {
            &&& forall|a: u64| #[trigger]
                inferior.traps.contains(a) ==> d.breakpoints.byte_at(a) is Some
            &&& forall|a: u64| #[trigger]
                memory[a] == if inferior.traps.contains(a) {
                    TRAP_BYTE
                } else {
                    program[a]
                }
        },
        None => true,
    }
    &&& match d.phase {
        Phase::Handshake => d.inferior matches Some(inferior) && inferior.alive() && forall|a: u64|
            !inferior.traps.contains(a),
        Phase::Continuing => d.inferior matches Some(inferior) && inferior.alive(),
        Phase::Installing(_) => d.inferior matches Some(inferior) && inferior.alive(),
        Phase::Planting(_) => d.inferior matches Some(inferior) && inferior.alive(),
        Phase::Restoring(addr) => d.inferior matches Some(inferior) && inferior.alive()
            && inferior.traps.contains(addr),
        Phase::Rewinding(addr) => d.inferior matches Some(inferior) && inferior.alive()
            && !inferior.traps.contains(addr) && d.breakpoints.byte_at(addr) is Some,
        Phase::Stepping(addr) => d.inferior matches Some(inferior) && inferior.alive()
            && !inferior.traps.contains(addr) && d.breakpoints.byte_at(addr) is Some,
        Phase::Reinstalling(addr) => d.inferior matches Some(inferior) && inferior.alive()
            && !inferior.traps.contains(addr) && d.breakpoints.byte_at(addr) is Some,
        _ => true,
    }
}

/// A new session is consistent with any memory, and orderly.
pub proof fn lemma_initial_consistent(d: DebuggerView, memory: Map<u64, u8>, program: Map<u64, u8>)
    requires
        d == DebuggerView::initial(d.target, d.symbols),
        full(memory),
        full(program),
    ensures
        consistent(d, memory, program),
        orderly(d),
{
}

/// Whether a step asks for what the state after it waits for: a request
/// is the outstanding one, the prompt comes in the idle phase and the end
/// in the last, and a step that takes nothing leaves the state `before` it.
pub open spec fn asks_what_it_awaits(after: DebuggerView, step: StepView, before: DebuggerView) -> bool {
    match step.next {
        NextView::Perform(request) => outstanding(after) == Some(request),
        NextView::Prompt => after.phase == Phase::Idle,
        NextView::Exit => after.phase == Phase::Finished,
        NextView::Await => after == before,
    }
}

/// Whatever a step asks for is what the new state waits for.
pub proof fn lemma_step_asks_what_it_awaits(d: DebuggerView, event: EventView)
    requires
        d.breakpoints.well_formed(),
    ensures
        asks_what_it_awaits(d.next(event).0, d.next(event).1, d),
{
    match event {
        EventView::Command(command) => {
            if let CommandView::Break(place) = command {
                if let Some(addr) = d.resolve(place) {
                    lemma_requested_well_formed(d.breakpoints, addr);
                }
            }
        },
        EventView::Reply(reply) => {
            match d.inferior {
                Some(inferior) => {
                    let held = d.holding(inferior);
                    match d.phase {
                        Phase::Handshake | Phase::Installing(_) => {
                            let (after, step) = held.start_reply(inferior, reply);
                            assert(asks_what_it_awaits(after, step, d));
                        },
                        Phase::Restoring(_) | Phase::Rewinding(_) | Phase::Stepping(_)
                        | Phase::Reinstalling(_) => {
                            let (after, step) = held.step_over(inferior, reply);
                            assert(asks_what_it_awaits(after, step, d));
                        },
                        Phase::Continuing => {
                            let (after, step) = held.resumed(inferior, reply);
                            assert(asks_what_it_awaits(after, step, d));
                        },
                        Phase::Planting(_) => {
                            let (after, step) = held.planted(inferior, reply);
                            assert(asks_what_it_awaits(after, step, d));
                        },
                        Phase::ReadingRegisters | Phase::ReadingReturn(_, _) | Phase::ReadingBase(
                            _,
                            _,
                            _,
                        ) => {
                            let (after, step) = held.unwind_reply(inferior, reply);
                            assert(asks_what_it_awaits(after, step, d));
                        },
                        _ => {},
                    }
                },
                None => {},
            }
        },
    }
}

/// A command keeps the books and the memory in agreement.
pub proof fn lemma_command_keeps_consistent(
    d: DebuggerView,
    command: CommandView,
    memory: Map<u64, u8>,
    program: Map<u64, u8>,
)
    requires
        consistent(d, memory, program),
    ensures
        consistent(d.next(EventView::Command(command)).0, memory, program),
{
    match command {
        CommandView::Break(place) => {
            if let Some(addr) = d.resolve(place) {
                lemma_requested_well_formed(d.breakpoints, addr);
                let table = d.breakpoints.requested(addr);
                assert forall|a: u64| #[trigger] table.byte_at(a) is Some implies table.byte_at(a)
                    == Some(program[a]) by {
                    assert(table.byte_at(a) == d.breakpoints.byte_at(a));
                }
                if let Some(inferior) = d.inferior {
                    assert forall|a: u64| #[trigger]
                        inferior.traps.contains(a) && inferior.alive() implies table.byte_at(a)
                        is Some by {
                        assert(d.breakpoints.byte_at(a) is Some);
                    }
                }
            }
        },
        _ => {},
    }
}

/// A reply keeps the books and the memory in agreement, whatever the
/// tracing facility answered and did to the memory within what `answers`
/// allows.
pub proof fn lemma_reply_keeps_consistent(
    d: DebuggerView,
    reply: Reply,
    memory: Map<u64, u8>,
    program: Map<u64, u8>,
    after: Map<u64, u8>,
)
    requires
        consistent(d, memory, program),
        answers(outstanding(d), memory, program, reply, after),
    ensures
        consistent(d.next(EventView::Reply(reply)).0, after, program),
{
    let result = d.next(EventView::Reply(reply)).0;
    match d.phase {
        Phase::Installing(index) => {
            if index < d.breakpoints.order.len() {
                let addr = d.breakpoints.order[index as int];
                lemma_write_keeps_consistent(d, addr, reply, memory, program, after);
            }
        },
        Phase::Planting(addr) => {
            lemma_write_keeps_consistent(d, addr, reply, memory, program, after);
        },
        Phase::Reinstalling(addr) => {
            if let Some(inferior) = d.inferior {
                if let Reply::Byte(found) = reply {
                    lemma_recorded_well_formed(d.breakpoints, addr, found);
                    let table = d.breakpoints.recorded(addr, found);
                    assert(found == program[addr]);
                    assert forall|a: u64| #[trigger] table.byte_at(a) is Some implies table.byte_at(
                        a,
                    ) == Some(program[a]) by {
                        if a != addr {
                            assert(table.byte_at(a) == d.breakpoints.byte_at(a));
                        }
                    }
                    assert forall|a: u64| #[trigger]
                        inferior.with_trap(addr).traps.contains(a) implies table.byte_at(a)
                        is Some by {
                        if a != addr {
                            assert(inferior.traps.contains(a));
                            assert(d.breakpoints.byte_at(a) is Some);
                            assert(table.byte_at(a) == d.breakpoints.byte_at(a));
                        }
                    }
                }
            }
        },
        _ => {},
    }
}

/// The case of `lemma_reply_keeps_consistent` for a trap that goes in at a
/// breakpoint's address.
proof fn lemma_write_keeps_consistent(
    d: DebuggerView,
    addr: u64,
    reply: Reply,
    memory: Map<u64, u8>,
    program: Map<u64, u8>,
    after: Map<u64, u8>,
)
    requires
        consistent(d, memory, program),
        answers(outstanding(d), memory, program, reply, after),
        d.phase == Phase::Planting(addr) || (d.phase matches Phase::Installing(index) && index
            < d.breakpoints.order.len() && d.breakpoints.order[index as int] == addr),
    ensures
        consistent(d.next(EventView::Reply(reply)).0, after, program),
{
    if let Some(inferior) = d.inferior {
        if let Reply::Byte(found) = reply {
            lemma_recorded_well_formed(d.breakpoints, addr, found);
            let table = d.breakpoints.captured(addr, found);
            if inferior.alive() {
                assert(found == memory[addr]);
                if inferior.traps.contains(addr) {
                    assert(d.breakpoints.byte_at(addr) is Some);
                } else {
                    assert(found == program[addr]);
                }
            }
            assert forall|a: u64| #[trigger] table.byte_at(a) is Some implies table.byte_at(a)
                == Some(program[a]) by {
                if a != addr {
                    assert(table.byte_at(a) == d.breakpoints.byte_at(a));
                } else if d.breakpoints.byte_at(addr) is Some {
                    assert(table.byte_at(a) == d.breakpoints.byte_at(a));
                }
            }
            assert forall|a: u64| #[trigger]
                inferior.with_trap(addr).traps.contains(a) implies table.byte_at(a) is Some by {
                if a != addr {
                    assert(inferior.traps.contains(a));
                    assert(d.breakpoints.byte_at(a) is Some);
                    assert(table.byte_at(a) == d.breakpoints.byte_at(a));
                }
            }
        }
    }
}

/// Whether a traced process may pass from one state to the other: it runs
/// once it was created, it stops or ends only while it runs, it runs again
/// only from a stop, and it is killed only while it exists.
pub open spec fn may_follow(from: RunState, to: RunState) -> bool {
    ||| from == to
    ||| from is Created && to is Running
    ||| from is Running && (to is Stopped || to is Exited || to is Signaled)
    ||| from is Stopped && to is Running
    ||| (from is Created || from is Running || from is Stopped) && to is Killed
}

/// The phase of a session and the state of its inferior agree: while a
/// request is out that lets the inferior run, it counts as running; while
/// its memory or registers are asked for, it is stopped; while it is being
/// killed, it counts as gone; and between commands it does not run.
pub open spec fn orderly(d: DebuggerView) -> bool {
    match d.phase {
        Phase::Handshake | Phase::Stepping(_) | Phase::Continuing => d.inferior matches Some(
            inferior,
        ) && inferior.state is Running,
        Phase::Installing(_) | Phase::Restoring(_) | Phase::Rewinding(_) | Phase::Reinstalling(_)
        | Phase::Planting(_) | Phase::ReadingRegisters | Phase::ReadingReturn(_, _)
        | Phase::ReadingBase(_, _, _) => d.inferior matches Some(inferior) && inferior.state
            is Stopped,
        Phase::Spawning => d.inferior is None,
        Phase::Replacing(_) | Phase::Abandoning(_, _) | Phase::Quitting(_) => d.inferior matches Some(
            inferior,
        ) ==> !inferior.alive(),
        _ => d.inferior matches Some(inferior) ==> !(inferior.state is Running) && !(inferior.state
            is Created),
    }
}

/// Every step keeps phase and state in agreement and moves the inferior
/// along its life cycle: the process that a session holds after a step is
/// the one it held before, one state further at most, or a process that
/// was just launched and runs.
pub proof fn lemma_states_follow_the_life_cycle(d: DebuggerView, event: EventView)
    requires
        orderly(d),
    ensures
        orderly(d.next(event).0),
        match (d.inferior, d.next(event).0.inferior) {
            (Some(before), Some(after)) => after.pid == before.pid && may_follow(
                before.state,
                after.state,
            ),
            (None, Some(after)) => after.state is Running,
            _ => true,
        },
{
    match event {
        EventView::Command(command) => {},
        EventView::Reply(reply) => {
            match d.inferior {
                Some(inferior) => {
                    let held = d.holding(inferior);
                    assert(held == d);
                    match d.phase {
                        Phase::Handshake | Phase::Installing(_) => {
                            let after = held.start_reply(inferior, reply).0;
                            assert(orderly(after));
                        },
                        Phase::Restoring(_) | Phase::Rewinding(_) | Phase::Stepping(_)
                        | Phase::Reinstalling(_) => {
                            let after = held.step_over(inferior, reply).0;
                            assert(orderly(after));
                        },
                        Phase::Continuing => {
                            let after = held.resumed(inferior, reply).0;
                            assert(orderly(after));
                        },
                        Phase::Planting(_) => {
                            let after = held.planted(inferior, reply).0;
                            assert(orderly(after));
                        },
                        Phase::ReadingRegisters | Phase::ReadingReturn(_, _) | Phase::ReadingBase(
                            _,
                            _,
                            _,
                        ) => {
                            let after = held.unwind_reply(inferior, reply).0;
                            assert(orderly(after));
                        },
                        _ => {},
                    }
                },
                None => {},
            }
        },
    }
}

/// The target is launched only when the session holds no inferior: one
/// that was alive has been killed before, and its record is gone.
pub proof fn lemma_one_inferior_at_a_time(d: DebuggerView, event: EventView)
    requires
        orderly(d),
    ensures
        d.next(event).1.next matches NextView::Perform(RequestView::Spawn { .. }) ==> d.next(
            event,
        ).0.inferior is None && (d.inferior matches Some(inferior) ==> !inferior.alive()),
{
}

/// While the inferior runs freely, every breakpoint that the session holds
/// as installed has its trap in memory and the program's own byte on record.
pub proof fn lemma_traps_in_place_while_running(
    d: DebuggerView,
    memory: Map<u64, u8>,
    program: Map<u64, u8>,
    addr: u64,
)
    requires
        consistent(d, memory, program),
        d.phase == Phase::Continuing,
        d.inferior matches Some(inferior) && inferior.traps.contains(addr),
    ensures
        memory[addr] == TRAP_BYTE,
        d.breakpoints.byte_at(addr) == Some(program[addr]),
{
    assert(d.breakpoints.byte_at(addr) is Some);
}

/// While the inferior executes the single instruction at a breakpoint, that
/// instruction is the program's own, and it is the one on record.
pub proof fn lemma_own_instruction_while_stepping(
    d: DebuggerView,
    memory: Map<u64, u8>,
    program: Map<u64, u8>,
    addr: u64,
)
    requires
        consistent(d, memory, program),
        d.phase == Phase::Stepping(addr),
    ensures
        memory[addr] == program[addr],
        d.breakpoints.byte_at(addr) == Some(program[addr]),
        outstanding(d) == Some(RequestView::Step),
{
}

/// The step-over protocol, from a stop on an installed breakpoint to the
/// free run: the user's `continue` puts the program's own byte back, moves
/// the instruction pointer to the breakpoint, executes one instruction, puts
/// the trap back and only then lets the inferior run. On the way no line is
/// shown, and at the end the breakpoint is installed as before with the
/// program's own byte on record.
pub proof fn lemma_step_over_protocol(
    d: DebuggerView,
    memory: Map<u64, u8>,
    program: Map<u64, u8>,
    addr: u64,
    restored: u8,
    signal: i32,
    rip: u64,
)
    requires
        consistent(d, memory, program),
        d.phase == Phase::Idle,
        d.inferior matches Some(inferior) && inferior.state matches RunState::Stopped(_, at) && at
            == addr && inferior.traps.contains(addr),
    ensures
        ({
            let (d1, s1) = d.next(EventView::Command(CommandView::Continue));
            let (d2, s2) = d1.next(EventView::Reply(Reply::Byte(restored)));
            let (d3, s3) = d2.next(EventView::Reply(Reply::Done));
            let (d4, s4) = d3.next(
                EventView::Reply(Reply::Status(Status::Stopped(signal, rip))),
            );
            let (d5, s5) = d4.next(EventView::Reply(Reply::Byte(program[addr])));
            &&& s1 == StepView::perform(
                Seq::empty(),
                RequestView::WriteByte { addr, value: program[addr] },
            )
            &&& s2 == StepView::perform(Seq::empty(), RequestView::SetInstructionPointer(addr))
            &&& s3 == StepView::perform(Seq::empty(), RequestView::Step)
            &&& s4 == StepView::perform(
                Seq::empty(),
                RequestView::WriteByte { addr, value: TRAP_BYTE },
            )
            &&& s5 == StepView::perform(Seq::empty(), RequestView::Continue)
            &&& d5.phase == Phase::Continuing
            &&& d5.breakpoints.byte_at(addr) == Some(program[addr])
            &&& d5.inferior matches Some(inferior) && inferior.traps.contains(addr)
        }),
{
    assert(d.breakpoints.byte_at(addr) is Some);
    let (d1, s1) = d.next(EventView::Command(CommandView::Continue));
    let (d2, s2) = d1.next(EventView::Reply(Reply::Byte(restored)));
    let (d3, s3) = d2.next(EventView::Reply(Reply::Done));
    let (d4, s4) = d3.next(EventView::Reply(Reply::Status(Status::Stopped(signal, rip))));
    assert(d4.phase == Phase::Reinstalling(addr));
    assert(d4.breakpoints == d.breakpoints);
}

/// Starting a new run while an inferior is alive kills that inferior first:
/// the line names its process identifier, the request is to kill it, and
/// the launch is asked for only when that request has been answered.
pub proof fn lemma_run_kills_previous_first(d: DebuggerView, args: Seq<Seq<char>>, reply: Reply)
    requires
        d.phase == Phase::Idle,
        d.inferior matches Some(inferior) && inferior.alive(),
    ensures
        ({
            let pid = d.inferior.unwrap().pid;
            let (d1, s1) = d.next(EventView::Command(CommandView::Run(args)));
            let (d2, s2) = d1.next(EventView::Reply(reply));
            &&& s1 == StepView::perform(one_line(killing_text(pid)), RequestView::Kill(pid))
            &&& d1.inferior matches Some(inferior) && !inferior.alive()
            &&& s2 == StepView::perform(
                Seq::empty(),
                RequestView::Spawn { target: d.target, args },
            )
            &&& d2.inferior is None
        }),
{
}

/// A start begins the installation with the first breakpoint of the table,
/// while no trap is in yet, or lets the inferior go at once if the table is
/// empty.
pub proof fn lemma_start_installs_from_first(
    d: DebuggerView,
    rip: u64,
    memory: Map<u64, u8>,
    program: Map<u64, u8>,
)
    requires
        consistent(d, memory, program),
        d.phase == Phase::Handshake,
        d.breakpoints.order.len() <= usize::MAX,
    ensures
        ({
            let (d1, s1) = d.next(EventView::Reply(Reply::Status(Status::Stopped(SIGTRAP, rip))));
            &&& consistent(d1, memory, program)
            &&& if d.breakpoints.order.len() > 0 {
                &&& d1.phase == Phase::Installing(0)
                &&& d1.breakpoints == d.breakpoints
                &&& d1.inferior matches Some(inferior) && inferior.state is Stopped
                &&& installed_up_to(d1, 0)
                &&& s1 == StepView::perform(
                    Seq::empty(),
                    RequestView::WriteByte { addr: d.breakpoints.order[0], value: TRAP_BYTE },
                )
            } else {
                s1 == StepView::perform(Seq::empty(), RequestView::Continue)
            }
        }),
{
    let reply = Reply::Status(Status::Stopped(SIGTRAP, rip));
    lemma_reply_keeps_consistent(d, reply, memory, program, memory);
}

/// One step of the installation at a start: the trap of the breakpoint in
/// turn is in, its displaced byte is on record (the byte that was read,
/// unless one was on record already, which then stays), every other record
/// is as it was, and the installation goes on with the next breakpoint of
/// the table until none is left.
pub proof fn lemma_install_step(d: DebuggerView, index: usize, found: u8)
    requires
        d.breakpoints.well_formed(),
        d.phase == Phase::Installing(index),
        index < d.breakpoints.order.len() <= usize::MAX,
        d.inferior matches Some(inferior) && inferior.state is Stopped,
    ensures
        ({
            let addr = d.breakpoints.order[index as int];
            let (d1, s1) = d.next(EventView::Reply(Reply::Byte(found)));
            &&& d1.inferior matches Some(inferior) && inferior.traps == d.inferior.unwrap().traps.insert(
                addr,
            )
            &&& d1.breakpoints.order == d.breakpoints.order
            &&& d1.breakpoints.byte_at(addr) == match d.breakpoints.byte_at(addr) {
                Some(known) => Some(known),
                None => Some(found),
            }
            &&& forall|a: u64| a != addr ==> d1.breakpoints.byte_at(a) == d.breakpoints.byte_at(a)
            &&& if index + 1 < d.breakpoints.order.len() {
                &&& d1.phase == Phase::Installing((index + 1) as usize)
                &&& d1.inferior.unwrap().state == d.inferior.unwrap().state
                &&& s1 == StepView::perform(
                    Seq::empty(),
                    RequestView::WriteByte {
                        addr: d.breakpoints.order[index + 1],
                        value: TRAP_BYTE,
                    },
                )
            } else {
                d1.phase is Restoring || d1.phase is Continuing
            }
        }),
{
    let addr = d.breakpoints.order[index as int];
    assert(d.breakpoints.order.contains(addr));
    assert(d.breakpoints.saved.contains_key(addr));
}

/// The session and the memory after the installation at a start has run
/// its course from the phase of `d` on, every write answered from `memory`.
pub open spec fn after_installing(d: DebuggerView, memory: Map<u64, u8>, fuel: nat) -> (
    DebuggerView,
    Map<u64, u8>,
)
    decreases fuel,
{
    match d.phase {
        Phase::Installing(index) => if fuel > 0 && index < d.breakpoints.order.len() {
            let addr = d.breakpoints.order[index as int];
            after_installing(
                d.next(EventView::Reply(Reply::Byte(memory[addr]))).0,
                memory.insert(addr, TRAP_BYTE),
                (fuel - 1) as nat,
            )
        } else {
            (d, memory)
        },
        _ => (d, memory),
    }
}

/// Whether the traps that a session holds are those of the first `count`
/// breakpoints of its table.
pub open spec fn installed_up_to(d: DebuggerView, count: int) -> bool {
    d.inferior matches Some(inferior) && forall|a: u64|
        inferior.traps.contains(a) <==> exists|j: int|
            0 <= j < count && j < d.breakpoints.order.len() && #[trigger] d.breakpoints.order[j]
                == a
}

/// A start installs every breakpoint of the table: when the installation
/// is through, the inferior is about to go, the trap byte stands at
/// exactly the addresses of the table, and for each of them the program's
/// own byte is on record, whether it was captured now or at an earlier
/// start.
pub proof fn lemma_start_installs_every_breakpoint(
    d: DebuggerView,
    index: usize,
    memory: Map<u64, u8>,
    program: Map<u64, u8>,
    fuel: nat,
)
    requires
        consistent(d, memory, program),
        d.phase == Phase::Installing(index),
        index < d.breakpoints.order.len() <= usize::MAX,
        d.inferior matches Some(inferior) && inferior.state is Stopped,
        installed_up_to(d, index as int),
        fuel >= d.breakpoints.order.len() - index,
    ensures
        ({
            let (done, after) = after_installing(d, memory, fuel);
            &&& consistent(done, after, program)
            &&& done.phase is Restoring || done.phase is Continuing
            &&& done.breakpoints.order == d.breakpoints.order
            &&& done.inferior is Some
            &&& forall|a: u64| #[trigger]
                d.breakpoints.order.contains(a) ==> done.inferior.unwrap().traps.contains(a)
                    && after[a] == TRAP_BYTE && done.breakpoints.byte_at(a) == Some(program[a])
            &&& forall|a: u64| !(#[trigger] d.breakpoints.order.contains(a)) ==> after[a] == program[a]
        }),
    decreases d.breakpoints.order.len() - index,
{
    let order = d.breakpoints.order;
    let addr = order[index as int];
    let reply = Reply::Byte(memory[addr]);
    let d1 = d.next(EventView::Reply(reply)).0;
    let m1 = memory.insert(addr, TRAP_BYTE);
    lemma_install_step(d, index, memory[addr]);
    lemma_reply_keeps_consistent(d, reply, memory, program, m1);
    assert forall|a: u64|
        d1.inferior.unwrap().traps.contains(a) <==> exists|j: int|
            0 <= j < index + 1 && j < order.len() && #[trigger] order[j] == a by {
        if a == addr {
            assert(order[index as int] == a);
        } else {
            if d.inferior.unwrap().traps.contains(a) {
                let j = choose|j: int| 0 <= j < index && j < order.len() && #[trigger] order[j] == a;
                assert(0 <= j < index + 1 && order[j] == a);
            }
            if exists|j: int| 0 <= j < index + 1 && j < order.len() && #[trigger] order[j] == a {
                let j = choose|j: int|
                    0 <= j < index + 1 && j < order.len() && #[trigger] order[j] == a;
                assert(j < index);
                assert(order[j] == a);
            }
        }
    }
    assert(after_installing(d, memory, fuel) == after_installing(d1, m1, (fuel - 1) as nat));
    assert(d1.breakpoints.order == order);
    if index + 1 < order.len() {
        lemma_start_installs_every_breakpoint(
            d1,
            (index + 1) as usize,
            m1,
            program,
            (fuel - 1) as nat,
        );
    } else {
        assert(after_installing(d1, m1, (fuel - 1) as nat) == (d1, m1));
        let (done, after) = after_installing(d, memory, fuel);
        assert(done == d1 && after == m1);
        assert(d1.inferior.unwrap().alive());
        assert forall|a: u64| order.contains(a) implies d1.inferior.unwrap().traps.contains(a)
            && m1[a] == TRAP_BYTE && d1.breakpoints.byte_at(a) == Some(program[a]) by {
            let j = choose|j: int| 0 <= j < order.len() && order[j] == a;
            assert(0 <= j < index + 1 && order[j] == a);
            assert(d1.inferior.unwrap().traps.contains(a));
            assert(d1.breakpoints.byte_at(a) is Some);
        }
        assert forall|a: u64| !order.contains(a) implies m1[a] == program[a] by {
            if d1.inferior.unwrap().traps.contains(a) {
                let j = choose|j: int|
                    0 <= j < index + 1 && j < order.len() && #[trigger] order[j] == a;
                assert(order.contains(a));
            }
        }
    }
}

/// No address is installed twice in one start: the breakpoints in turn at
/// two different steps of the installation are at different addresses.
pub proof fn lemma_install_visits_each_once(d: DebuggerView, i: int, j: int)
    requires
        d.breakpoints.well_formed(),
        0 <= i < j < d.breakpoints.order.len(),
    ensures
        d.breakpoints.order[i] != d.breakpoints.order[j],
{
}

/// A location that names nothing leaves the session as it was: the table
/// is unchanged, and the user is told.
pub proof fn lemma_unresolvable_break_changes_nothing(d: DebuggerView, place: Seq<char>)
    requires
        d.phase == Phase::Idle,
        d.resolve(place) is None,
    ensures
        d.next(EventView::Command(CommandView::Break(place))) == (
            d,
            StepView::prompt(one_line(invalid_breakpoint_text())),
        ),
{
}

/// The frames of a stopped process, innermost first: the frame that
/// executes at `ip` with base `bp`, then the frames of its callers as the
/// words of the stack chain them (the return address one word above the
/// base, the caller's base at the base), up to the entry function, to an
/// address without debugging information, to a base that is null or too
/// high, or to the limit of frames.
pub open spec fn frames_from(
    symbols: crate::symbols::DwarfData,
    stack: Map<u64, u64>,
    ip: u64,
    bp: u64,
    depth: u64,
) -> Seq<Seq<char>>
    decreases MAX_FRAMES - depth,
{
    if depth >= MAX_FRAMES {
        no_lines()
    } else {
        match (symbols.function_at(ip), symbols.line_at(ip)) {
            (Some(function), Some(line)) => {
                let shown = one_line(frame_text(function, line.0, line.1));
                if function == entry_function() || bp == 0 || bp > u64::MAX - 8 {
                    shown
                } else {
                    shown + frames_from(
                        symbols,
                        stack,
                        stack[(bp + 8) as u64],
                        stack[bp],
                        (depth + 1) as u64,
                    )
                }
            },
            _ => no_lines(),
        }
    }
}

/// The lines that a session shows from a step on, when every word that it
/// asks for is read from `stack`, until it asks for something else or for
/// nothing; `fuel` bounds the number of words.
pub open spec fn backtrace_shown(
    d: DebuggerView,
    step: StepView,
    stack: Map<u64, u64>,
    fuel: nat,
) -> Seq<Seq<char>>
    decreases fuel,
{
    match step.next {
        NextView::Perform(RequestView::ReadWord(addr)) => if fuel > 0 {
            let (d1, s1) = d.next(EventView::Reply(Reply::Word(stack[addr])));
            step.output + backtrace_shown(d1, s1, stack, (fuel - 1) as nat)
        } else {
            step.output
        },
        _ => step.output,
    }
}

proof fn lemma_unwind_shows_the_frames(
    d: DebuggerView,
    stack: Map<u64, u64>,
    ip: u64,
    bp: u64,
    depth: u64,
    fuel: nat,
)
    requires
        d.inferior is Some,
        depth <= MAX_FRAMES,
        fuel >= 2 * (MAX_FRAMES - depth),
    ensures
        ({
            let (d1, s1) = d.unwind(ip, bp, depth, no_lines());
            backtrace_shown(d1, s1, stack, fuel) == frames_from(d.symbols, stack, ip, bp, depth)
        }),
    decreases MAX_FRAMES - depth,
{
    let (d1, s1) = d.unwind(ip, bp, depth, no_lines());
    if depth < MAX_FRAMES {
        match (d.symbols.function_at(ip), d.symbols.line_at(ip)) {
            (Some(function), Some(line)) => {
                let shown = one_line(frame_text(function, line.0, line.1));
                assert(s1.output == shown);
                if function == entry_function() || bp == 0 || bp > u64::MAX - 8 {
                } else {
                    let above = (bp + 8) as u64;
                    assert(s1.next == NextView::Perform(RequestView::ReadWord(above)));
                    let (d2, s2) = d1.next(EventView::Reply(Reply::Word(stack[above])));
                    assert(s2 == StepView::perform(no_lines(), RequestView::ReadWord(bp)));
                    assert(d2.symbols == d.symbols);
                    let (d3, s3) = d2.next(EventView::Reply(Reply::Word(stack[bp])));
                    assert((d3, s3) == d2.unwind(
                        stack[above],
                        stack[bp],
                        (depth + 1) as u64,
                        no_lines(),
                    ));
                    lemma_unwind_shows_the_frames(
                        d2,
                        stack,
                        stack[above],
                        stack[bp],
                        (depth + 1) as u64,
                        (fuel - 2) as nat,
                    );
                    assert(backtrace_shown(d2, s2, stack, (fuel - 1) as nat) == s2.output
                        + backtrace_shown(d3, s3, stack, (fuel - 2) as nat));
                    assert(s1.output + (s2.output + backtrace_shown(
                        d3,
                        s3,
                        stack,
                        (fuel - 2) as nat,
                    )) =~= shown + frames_from(
                        d.symbols,
                        stack,
                        stack[above],
                        stack[bp],
                        (depth + 1) as u64,
                    ));
                }
            },
            _ => {},
        }
    }
}

/// A backtrace of a stopped inferior shows exactly the frames of the
/// frame-pointer chain, innermost first, starting at the address at which
/// the stop was reported and at the base pointer that the registers hold.
pub proof fn lemma_backtrace_shows_the_frames(
    d: DebuggerView,
    stack: Map<u64, u64>,
    rip: u64,
    rbp: u64,
)
    requires
        d.phase == Phase::Idle,
        d.inferior matches Some(inferior) && inferior.state is Stopped,
    ensures
        ({
            let at = d.inferior.unwrap().state->Stopped_1;
            let (d1, s1) = d.next(EventView::Command(CommandView::Backtrace));
            let (d2, s2) = d1.next(EventView::Reply(Reply::Registers { rip, rbp }));
            &&& s1 == StepView::perform(no_lines(), RequestView::ReadRegisters)
            &&& backtrace_shown(d2, s2, stack, 2 * MAX_FRAMES as nat) == frames_from(
                d.symbols,
                stack,
                at,
                rbp,
                0,
            )
        }),
{
    let at = d.inferior.unwrap().state->Stopped_1;
    let (d1, s1) = d.next(EventView::Command(CommandView::Backtrace));
    lemma_unwind_shows_the_frames(d1, stack, at, rbp, 0, 2 * MAX_FRAMES as nat);
}

} // verus!
