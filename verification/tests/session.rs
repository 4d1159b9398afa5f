use deet::debugger::{Debugger, Phase};
use deet::inferior::{RunState, Status};
use deet::protocol::{DebuggerCommand, Event, Next, Reply, Request, Step};
use deet::symbols::{DwarfData, Error, Function, LineEntry};
use std::collections::{HashMap, VecDeque};

const TRAP: u8 = 0xcc;

/// A stand-in for a traced process: memory, a stack of words, and the stops
/// that it will report one after the other.
struct Fake {
    pid: i32,
    program: HashMap<u64, u8>,
    memory: HashMap<u64, u8>,
    words: HashMap<u64, u64>,
    rip: u64,
    rbp: u64,
    stops: VecDeque<Status>,
    unwritable: Vec<u64>,
    seen: Vec<Request>,
    spawn_fails: bool,
}

impl Fake {
    fn new(pid: i32) -> Fake {
        Fake {
            pid,
            program: HashMap::new(),
            memory: HashMap::new(),
            words: HashMap::new(),
            rip: 0,
            rbp: 0,
            stops: VecDeque::new(),
            unwritable: Vec::new(),
            seen: Vec::new(),
            spawn_fails: false,
        }
    }

    fn byte(&self, addr: u64) -> u8 {
        *self.memory.get(&addr).unwrap_or(&0x90)
    }

    fn next_stop(&mut self) -> Reply {
        match self.stops.pop_front() {
            Some(status) => {
                if let Status::Stopped(_, rip) = status {
                    self.rip = rip;
                }
                Reply::Status(status)
            }
            None => Reply::Failed,
        }
    }

    fn answer(&mut self, request: &Request) -> Reply {
        self.seen.push(request.clone());
        match request {
            Request::Spawn { .. } => {
                if self.spawn_fails {
                    Reply::Failed
                } else {
                    self.memory = self.program.clone();
                    Reply::Spawned(self.pid)
                }
            }
            Request::Wait | Request::Step | Request::Continue => self.next_stop(),
            Request::WriteByte { addr, value } => {
                if self.unwritable.contains(addr) {
                    Reply::Failed
                } else {
                    let before = self.byte(*addr);
                    self.memory.insert(*addr, *value);
                    Reply::Byte(before)
                }
            }
            Request::SetInstructionPointer(addr) => {
                self.rip = *addr;
                Reply::Done
            }
            Request::ReadRegisters => Reply::Registers { rip: self.rip, rbp: self.rbp },
            Request::ReadWord(addr) => match self.words.get(addr) {
                Some(word) => Reply::Word(*word),
                None => Reply::Failed,
            },
            Request::Kill(_) => Reply::Done,
        }
    }
}

/// Hands the event to the session and keeps answering its requests until it
/// wants the user again or ends.
fn drive(debugger: &mut Debugger, fake: &mut Fake, event: Event) -> (Vec<String>, Next) {
    let mut lines: Vec<String> = Vec::new();
    let mut event = event;
    loop {
        let Step { output, next } = debugger.run(event);
        lines.extend(output);
        match next {
            Next::Perform(request) => {
                event = Event::Reply(fake.answer(&request));
            }
            other => return (lines, other),
        }
    }
}

fn command(debugger: &mut Debugger, fake: &mut Fake, command: DebuggerCommand) -> (Vec<String>, Next) {
    drive(debugger, fake, Event::Command(command))
}

fn function(name: &str, low: u64, high: u64) -> Function {
    Function { name: name.to_string(), low, high }
}

fn line(file: &str, number: u64, low: u64, high: u64) -> LineEntry {
    LineEntry { file: file.to_string(), number, low, high }
}

/// main calls middle calls inner; each function has two lines.
fn sample_data() -> DwarfData {
    DwarfData::new(
        vec![
            function("main", 0x1000, 0x1100),
            function("middle", 0x1100, 0x1200),
            function("inner", 0x1200, 0x1300),
        ],
        vec![
            line("prog.c", 20, 0x1000, 0x1080),
            line("prog.c", 21, 0x1080, 0x1100),
            line("prog.c", 10, 0x1100, 0x1180),
            line("prog.c", 11, 0x1180, 0x1200),
            line("prog.c", 3, 0x1200, 0x1280),
            line("prog.c", 4, 0x1280, 0x1300),
        ],
    )
    .unwrap()
}

fn session() -> Debugger {
    Debugger::new("./prog", Ok(sample_data()), "").unwrap()
}

fn run_args() -> DebuggerCommand {
    DebuggerCommand::Run(vec!["one".to_string(), "two".to_string()])
}

#[test]
fn run_without_breakpoints_reports_exit_code_zero() {
    let mut debugger = session();
    let mut fake = Fake::new(77);
    fake.stops.push_back(Status::Stopped(5, 0x1000));
    fake.stops.push_back(Status::Exited(0));
    let (lines, next) = command(&mut debugger, &mut fake, run_args());
    assert_eq!(lines, vec!["Child exited (status 0)".to_string()]);
    assert_eq!(next, Next::Prompt);
    assert_eq!(debugger.inferior_state(), Some(RunState::Exited(0)));
    assert_eq!(
        fake.seen,
        vec![
            Request::Spawn {
                target: "./prog".to_string(),
                args: vec!["one".to_string(), "two".to_string()]
            },
            Request::Wait,
            Request::Continue,
        ]
    );
}

#[test]
fn breakpoint_at_function_stops_there_then_runs_to_exit() {
    let mut debugger = session();
    let mut fake = Fake::new(31);
    fake.program.insert(0x1100, 0x55);
    let (lines, _) = command(&mut debugger, &mut fake, DebuggerCommand::Break("middle".to_string()));
    assert_eq!(lines, vec!["Set breakpoint 1 at 0x1100".to_string()]);
    assert_eq!(debugger.saved_byte(0x1100), None);

    fake.stops.push_back(Status::Stopped(5, 0x1000));
    fake.stops.push_back(Status::Stopped(5, 0x1101));
    let (lines, next) = command(&mut debugger, &mut fake, run_args());
    assert_eq!(next, Next::Prompt);
    assert_eq!(
        lines,
        vec![
            "Child stopped (signal 5)".to_string(),
            "Stopped at 'middle' prog.c:10".to_string()
        ]
    );
    assert_eq!(debugger.inferior_state(), Some(RunState::Stopped(5, 0x1100)));
    assert_eq!(debugger.saved_byte(0x1100), Some(0x55));
    assert_eq!(fake.byte(0x1100), TRAP);

    fake.seen.clear();
    fake.stops.push_back(Status::Stopped(5, 0x1104));
    fake.stops.push_back(Status::Exited(3));
    let (lines, next) = command(&mut debugger, &mut fake, DebuggerCommand::Continue);
    assert_eq!(lines, vec!["Child exited (status 3)".to_string()]);
    assert_eq!(next, Next::Prompt);
    assert_eq!(
        fake.seen,
        vec![
            Request::WriteByte { addr: 0x1100, value: 0x55 },
            Request::SetInstructionPointer(0x1100),
            Request::Step,
            Request::WriteByte { addr: 0x1100, value: TRAP },
            Request::Continue,
        ]
    );
    assert_eq!(debugger.saved_byte(0x1100), Some(0x55));
    assert_eq!(fake.byte(0x1100), TRAP);
}

#[test]
fn step_over_leaves_the_breakpoint_in_place_for_the_next_pass() {
    let mut debugger = session();
    let mut fake = Fake::new(5);
    fake.program.insert(0x1200, 0x48);
    command(&mut debugger, &mut fake, DebuggerCommand::Break("*0x1200".to_string()));
    fake.stops.push_back(Status::Stopped(5, 0x1000));
    fake.stops.push_back(Status::Stopped(5, 0x1201));
    command(&mut debugger, &mut fake, run_args());
    for _ in 0..3 {
        fake.stops.push_back(Status::Stopped(5, 0x1203));
        fake.stops.push_back(Status::Stopped(5, 0x1201));
        let (lines, _) = command(&mut debugger, &mut fake, DebuggerCommand::Continue);
        assert_eq!(
            lines,
            vec![
                "Child stopped (signal 5)".to_string(),
                "Stopped at 'inner' prog.c:3".to_string()
            ]
        );
        assert_eq!(debugger.inferior_state(), Some(RunState::Stopped(5, 0x1200)));
        assert_eq!(fake.byte(0x1200), TRAP);
        assert_eq!(debugger.saved_byte(0x1200), Some(0x48));
    }
}

#[test]
fn a_changed_instruction_byte_is_reported() {
    let mut debugger = session();
    let mut fake = Fake::new(5);
    fake.program.insert(0x1200, 0x48);
    command(&mut debugger, &mut fake, DebuggerCommand::Break("inner".to_string()));
    fake.stops.push_back(Status::Stopped(5, 0x1000));
    fake.stops.push_back(Status::Stopped(5, 0x1201));
    command(&mut debugger, &mut fake, run_args());

    // Answer by hand, and claim at the fourth step that another byte was found.
    let step = debugger.run(Event::Command(DebuggerCommand::Continue));
    assert_eq!(step.next, Next::Perform(Request::WriteByte { addr: 0x1200, value: 0x48 }));
    assert_eq!(debugger.phase(), Phase::Restoring(0x1200));
    let step = debugger.run(Event::Reply(Reply::Byte(TRAP)));
    assert_eq!(step.next, Next::Perform(Request::SetInstructionPointer(0x1200)));
    let step = debugger.run(Event::Reply(Reply::Done));
    assert_eq!(step.next, Next::Perform(Request::Step));
    assert_eq!(debugger.inferior_state(), Some(RunState::Running));
    let step = debugger.run(Event::Reply(Reply::Status(Status::Stopped(5, 0x1203))));
    assert_eq!(step.next, Next::Perform(Request::WriteByte { addr: 0x1200, value: TRAP }));
    let step = debugger.run(Event::Reply(Reply::Byte(0x49)));
    assert_eq!(
        step.output,
        vec!["Warning: instruction byte at 0x1200 changed to 0x49".to_string()]
    );
    assert_eq!(step.next, Next::Perform(Request::Continue));
    assert_eq!(debugger.saved_byte(0x1200), Some(0x49));
}

#[test]
fn running_again_kills_the_previous_inferior_first() {
    let mut debugger = session();
    let mut fake = Fake::new(1234);
    command(&mut debugger, &mut fake, DebuggerCommand::Break("middle".to_string()));
    fake.stops.push_back(Status::Stopped(5, 0x1000));
    fake.stops.push_back(Status::Stopped(5, 0x1101));
    command(&mut debugger, &mut fake, run_args());

    let step = debugger.run(Event::Command(DebuggerCommand::Run(vec![])));
    assert_eq!(step.output, vec!["Killing running inferior (pid 1234)".to_string()]);
    assert_eq!(step.next, Next::Perform(Request::Kill(1234)));
    assert_eq!(debugger.inferior_state(), Some(RunState::Killed));
    let step = debugger.run(Event::Reply(Reply::Done));
    assert_eq!(
        step.next,
        Next::Perform(Request::Spawn { target: "./prog".to_string(), args: vec![] })
    );
    assert_eq!(debugger.inferior_state(), None);
}

#[test]
fn running_after_exit_kills_nothing() {
    let mut debugger = session();
    let mut fake = Fake::new(9);
    fake.stops.push_back(Status::Stopped(5, 0x1000));
    fake.stops.push_back(Status::Exited(1));
    command(&mut debugger, &mut fake, run_args());
    let step = debugger.run(Event::Command(DebuggerCommand::Run(vec![])));
    assert!(step.output.is_empty());
    assert_eq!(
        step.next,
        Next::Perform(Request::Spawn { target: "./prog".to_string(), args: vec![] })
    );
}

#[test]
fn breakpoints_set_before_run_are_installed_once_and_not_captured_again() {
    let mut debugger = session();
    let mut fake = Fake::new(50);
    fake.program.insert(0x1100, 0x55);
    fake.program.insert(0x1200, 0x48);
    command(&mut debugger, &mut fake, DebuggerCommand::Break("middle".to_string()));
    command(&mut debugger, &mut fake, DebuggerCommand::Break("inner".to_string()));
    command(&mut debugger, &mut fake, DebuggerCommand::Break("middle".to_string()));
    assert_eq!(debugger.breakpoint_count(), 2);

    fake.stops.push_back(Status::Stopped(5, 0x1000));
    fake.stops.push_back(Status::Exited(0));
    command(&mut debugger, &mut fake, run_args());
    let writes: Vec<&Request> =
        fake.seen.iter().filter(|r| matches!(r, Request::WriteByte { .. })).collect();
    assert_eq!(
        writes,
        vec![
            &Request::WriteByte { addr: 0x1100, value: TRAP },
            &Request::WriteByte { addr: 0x1200, value: TRAP },
        ]
    );
    assert_eq!(debugger.saved_byte(0x1100), Some(0x55));
    assert_eq!(debugger.saved_byte(0x1200), Some(0x48));

    // A later start writes the traps again but keeps the bytes on record,
    // whatever the new process holds there.
    fake.program.insert(0x1100, 0x66);
    fake.seen.clear();
    fake.stops.push_back(Status::Stopped(5, 0x1000));
    fake.stops.push_back(Status::Exited(0));
    command(&mut debugger, &mut fake, run_args());
    let writes = fake.seen.iter().filter(|r| matches!(r, Request::WriteByte { .. })).count();
    assert_eq!(writes, 2);
    assert_eq!(debugger.saved_byte(0x1100), Some(0x55));
    assert_eq!(debugger.saved_byte(0x1200), Some(0x48));
}

#[test]
fn unresolvable_break_changes_nothing() {
    let mut debugger = session();
    let mut fake = Fake::new(1);
    for place in ["nowhere", "999", "*xyz", "*", ""] {
        let (lines, next) = command(&mut debugger, &mut fake, DebuggerCommand::Break(place.to_string()));
        assert_eq!(lines, vec!["Invalid position to set breakpoint!".to_string()]);
        assert_eq!(next, Next::Prompt);
        assert_eq!(debugger.breakpoint_count(), 0);
        assert_eq!(debugger.phase(), Phase::Idle);
    }
    assert!(fake.seen.is_empty());
}

#[test]
fn break_resolves_addresses_lines_and_functions() {
    let mut debugger = session();
    let mut fake = Fake::new(1);
    let (lines, _) = command(&mut debugger, &mut fake, DebuggerCommand::Break("*0x1234".to_string()));
    assert_eq!(lines, vec!["Set breakpoint 1 at 0x1234".to_string()]);
    let (lines, _) = command(&mut debugger, &mut fake, DebuggerCommand::Break("*ABCDEF".to_string()));
    assert_eq!(lines, vec!["Set breakpoint 2 at 0xabcdef".to_string()]);
    let (lines, _) = command(&mut debugger, &mut fake, DebuggerCommand::Break("11".to_string()));
    assert_eq!(lines, vec!["Set breakpoint 3 at 0x1180".to_string()]);
    let (lines, _) = command(&mut debugger, &mut fake, DebuggerCommand::Break("main".to_string()));
    assert_eq!(lines, vec!["Set breakpoint 4 at 0x1000".to_string()]);
    assert!(debugger.has_breakpoint(0x1234));
    assert!(debugger.has_breakpoint(0xabcdef));
    assert!(debugger.has_breakpoint(0x1180));
    assert!(debugger.has_breakpoint(0x1000));
    assert!(!debugger.has_breakpoint(0x1001));
}

#[test]
fn break_with_a_live_inferior_installs_at_once() {
    let mut debugger = session();
    let mut fake = Fake::new(8);
    fake.program.insert(0x1100, 0x55);
    fake.program.insert(0x1280, 0x31);
    command(&mut debugger, &mut fake, DebuggerCommand::Break("middle".to_string()));
    fake.stops.push_back(Status::Stopped(5, 0x1000));
    fake.stops.push_back(Status::Stopped(5, 0x1101));
    command(&mut debugger, &mut fake, run_args());

    let (lines, next) = command(&mut debugger, &mut fake, DebuggerCommand::Break("4".to_string()));
    assert_eq!(lines, vec!["Set breakpoint 2 at 0x1280".to_string()]);
    assert_eq!(next, Next::Prompt);
    assert_eq!(fake.byte(0x1280), TRAP);
    assert_eq!(debugger.saved_byte(0x1280), Some(0x31));

    // Asking again for an installed breakpoint writes nothing.
    fake.seen.clear();
    let (lines, _) = command(&mut debugger, &mut fake, DebuggerCommand::Break("4".to_string()));
    assert_eq!(lines, vec!["Set breakpoint 2 at 0x1280".to_string()]);
    assert!(fake.seen.is_empty());
    assert_eq!(debugger.saved_byte(0x1280), Some(0x31));

    // An address that cannot be written is refused and not recorded.
    fake.unwritable.push(0x1000);
    let (lines, _) = command(&mut debugger, &mut fake, DebuggerCommand::Break("main".to_string()));
    assert_eq!(lines, vec!["Invalid position to set breakpoint!".to_string()]);
    assert!(!debugger.has_breakpoint(0x1000));
    assert_eq!(debugger.breakpoint_count(), 2);
}

#[test]
fn backtrace_of_three_deep_call_chain() {
    let mut debugger = session();
    let mut fake = Fake::new(8);
    command(&mut debugger, &mut fake, DebuggerCommand::Break("inner".to_string()));
    fake.stops.push_back(Status::Stopped(5, 0x1000));
    fake.stops.push_back(Status::Stopped(5, 0x1201));
    command(&mut debugger, &mut fake, run_args());

    // inner's frame at 0x7000, middle's at 0x7100, main's at 0x7200.
    fake.rbp = 0x7000;
    fake.words.insert(0x7008, 0x1190);
    fake.words.insert(0x7000, 0x7100);
    fake.words.insert(0x7108, 0x1085);
    fake.words.insert(0x7100, 0x7200);
    fake.seen.clear();
    let (lines, next) = command(&mut debugger, &mut fake, DebuggerCommand::Backtrace);
    assert_eq!(
        lines,
        vec![
            "inner (prog.c:3)".to_string(),
            "middle (prog.c:11)".to_string(),
            "main (prog.c:21)".to_string()
        ]
    );
    assert_eq!(next, Next::Prompt);
    assert_eq!(
        fake.seen,
        vec![
            Request::ReadRegisters,
            Request::ReadWord(0x7008),
            Request::ReadWord(0x7000),
            Request::ReadWord(0x7108),
            Request::ReadWord(0x7100),
        ]
    );
}

#[test]
fn backtrace_keeps_what_it_has_when_a_read_fails() {
    let mut debugger = session();
    let mut fake = Fake::new(8);
    command(&mut debugger, &mut fake, DebuggerCommand::Break("inner".to_string()));
    fake.stops.push_back(Status::Stopped(5, 0x1000));
    fake.stops.push_back(Status::Stopped(5, 0x1201));
    command(&mut debugger, &mut fake, run_args());
    fake.rbp = 0x7000;
    fake.words.insert(0x7008, 0x1190);
    fake.words.insert(0x7000, 0x7100);
    let (lines, next) = command(&mut debugger, &mut fake, DebuggerCommand::Backtrace);
    assert_eq!(
        lines,
        vec![
            "inner (prog.c:3)".to_string(),
            "middle (prog.c:11)".to_string(),
            "Cannot read the stack of the inferior".to_string()
        ]
    );
    assert_eq!(next, Next::Prompt);
    assert_eq!(debugger.inferior_state(), Some(RunState::Stopped(5, 0x1200)));
}

#[test]
fn backtrace_ends_at_a_null_base_and_at_an_unknown_address() {
    let mut debugger = session();
    let mut fake = Fake::new(8);
    command(&mut debugger, &mut fake, DebuggerCommand::Break("inner".to_string()));
    fake.stops.push_back(Status::Stopped(5, 0x1000));
    fake.stops.push_back(Status::Stopped(5, 0x1201));
    command(&mut debugger, &mut fake, run_args());
    fake.rbp = 0;
    let (lines, _) = command(&mut debugger, &mut fake, DebuggerCommand::Backtrace);
    assert_eq!(lines, vec!["inner (prog.c:3)".to_string()]);

    fake.rbp = 0x7000;
    fake.words.insert(0x7008, 0x9999);
    fake.words.insert(0x7000, 0x7100);
    let (lines, _) = command(&mut debugger, &mut fake, DebuggerCommand::Backtrace);
    assert_eq!(lines, vec!["inner (prog.c:3)".to_string()]);

    fake.rbp = u64::MAX - 3;
    let (lines, _) = command(&mut debugger, &mut fake, DebuggerCommand::Backtrace);
    assert_eq!(lines, vec!["inner (prog.c:3)".to_string()]);
}

#[test]
fn backtrace_stops_after_the_frame_limit() {
    let data = DwarfData::new(
        vec![function("spin", 0x1000, 0x2000)],
        vec![line("spin.c", 1, 0x1000, 0x2000)],
    )
    .unwrap();
    let mut debugger = Debugger::new("./spin", Ok(data), "").unwrap();
    let mut fake = Fake::new(8);
    fake.stops.push_back(Status::Stopped(5, 0x1000));
    fake.stops.push_back(Status::Stopped(11, 0x1500));
    command(&mut debugger, &mut fake, run_args());
    // A frame that names itself as its caller.
    fake.rbp = 0x7000;
    fake.words.insert(0x7008, 0x1500);
    fake.words.insert(0x7000, 0x7000);
    let (lines, next) = command(&mut debugger, &mut fake, DebuggerCommand::Backtrace);
    assert_eq!(lines.len(), 1024);
    assert!(lines.iter().all(|l| l == "spin (spin.c:1)"));
    assert_eq!(next, Next::Prompt);
}

#[test]
fn commands_without_an_inferior_say_so() {
    let mut debugger = session();
    let mut fake = Fake::new(8);
    for cmd in [DebuggerCommand::Continue, DebuggerCommand::Backtrace] {
        let (lines, next) = command(&mut debugger, &mut fake, cmd);
        assert_eq!(lines, vec!["No running inferior exit!".to_string()]);
        assert_eq!(next, Next::Prompt);
    }
    fake.stops.push_back(Status::Stopped(5, 0x1000));
    fake.stops.push_back(Status::Signaled(9));
    let (lines, _) = command(&mut debugger, &mut fake, run_args());
    assert_eq!(lines, vec!["Child output signal 9 ".to_string()]);
    assert_eq!(debugger.inferior_state(), Some(RunState::Signaled(9)));
    let (lines, _) = command(&mut debugger, &mut fake, DebuggerCommand::Continue);
    assert_eq!(lines, vec!["No running inferior exit!".to_string()]);
    assert!(!fake.seen.iter().any(|r| matches!(r, Request::Kill(_))));
}

#[test]
fn failure_to_spawn_is_reported_and_the_session_goes_on() {
    let mut debugger = session();
    let mut fake = Fake::new(8);
    fake.spawn_fails = true;
    let (lines, next) = command(&mut debugger, &mut fake, run_args());
    assert_eq!(lines, vec!["Error starting subprocess".to_string()]);
    assert_eq!(next, Next::Prompt);
    assert_eq!(debugger.inferior_state(), None);

    fake.spawn_fails = false;
    fake.stops.push_back(Status::Stopped(5, 0x1000));
    fake.stops.push_back(Status::Exited(0));
    let (lines, _) = command(&mut debugger, &mut fake, run_args());
    assert_eq!(lines, vec!["Child exited (status 0)".to_string()]);
}

#[test]
fn failed_handshake_gives_the_inferior_up() {
    let mut debugger = session();
    let mut fake = Fake::new(21);
    fake.stops.push_back(Status::Stopped(19, 0x1000));
    let (lines, next) = command(&mut debugger, &mut fake, run_args());
    assert_eq!(lines, vec!["Error starting subprocess".to_string()]);
    assert_eq!(next, Next::Prompt);
    assert_eq!(fake.seen.last(), Some(&Request::Kill(21)));
    assert_eq!(debugger.inferior_state(), Some(RunState::Killed));

    let mut fake = Fake::new(22);
    fake.stops.push_back(Status::Exited(127));
    let (lines, _) = command(&mut debugger, &mut fake, run_args());
    assert_eq!(lines, vec!["Error starting subprocess".to_string()]);
    assert!(!fake.seen.iter().any(|r| matches!(r, Request::Kill(_))));
    assert_eq!(debugger.inferior_state(), Some(RunState::Exited(127)));
}

#[test]
fn lost_trace_kills_the_inferior_and_keeps_the_session() {
    let mut debugger = session();
    let mut fake = Fake::new(66);
    fake.stops.push_back(Status::Stopped(5, 0x1000));
    // No further stop is scripted: the request to continue fails.
    let (lines, next) = command(&mut debugger, &mut fake, run_args());
    assert_eq!(lines, vec!["Lost control of inferior (pid 66), killed it".to_string()]);
    assert_eq!(next, Next::Prompt);
    assert_eq!(fake.seen.last(), Some(&Request::Kill(66)));
    assert_eq!(debugger.phase(), Phase::Idle);
}

#[test]
fn a_breakpoint_that_cannot_be_installed_at_start_is_reported() {
    let mut debugger = session();
    let mut fake = Fake::new(8);
    command(&mut debugger, &mut fake, DebuggerCommand::Break("*0x10".to_string()));
    command(&mut debugger, &mut fake, DebuggerCommand::Break("inner".to_string()));
    fake.unwritable.push(0x10);
    fake.stops.push_back(Status::Stopped(5, 0x1000));
    fake.stops.push_back(Status::Exited(0));
    let (lines, _) = command(&mut debugger, &mut fake, run_args());
    assert_eq!(
        lines,
        vec![
            "Cannot install breakpoint at 0x10".to_string(),
            "Child exited (status 0)".to_string()
        ]
    );
    assert_eq!(debugger.saved_byte(0x10), None);
    assert_eq!(fake.byte(0x1200), TRAP);
}

#[test]
fn a_stop_without_debug_information_is_reported_without_a_location() {
    let mut debugger = session();
    let mut fake = Fake::new(8);
    fake.stops.push_back(Status::Stopped(5, 0x1000));
    fake.stops.push_back(Status::Stopped(11, 0x5000));
    let (lines, _) = command(&mut debugger, &mut fake, run_args());
    assert_eq!(lines, vec!["Child stopped (signal 11)".to_string()]);
    assert_eq!(debugger.inferior_state(), Some(RunState::Stopped(11, 0x5000)));
}

#[test]
fn a_trap_signal_elsewhere_is_not_taken_for_a_breakpoint() {
    let mut debugger = session();
    let mut fake = Fake::new(8);
    command(&mut debugger, &mut fake, DebuggerCommand::Break("inner".to_string()));
    fake.stops.push_back(Status::Stopped(5, 0x1000));
    // Just behind the breakpoint, but on another signal.
    fake.stops.push_back(Status::Stopped(11, 0x1201));
    command(&mut debugger, &mut fake, run_args());
    assert_eq!(debugger.inferior_state(), Some(RunState::Stopped(11, 0x1201)));
    // On the trap signal, but not behind a breakpoint.
    fake.stops.push_back(Status::Stopped(5, 0x1181));
    command(&mut debugger, &mut fake, DebuggerCommand::Continue);
    assert_eq!(debugger.inferior_state(), Some(RunState::Stopped(5, 0x1181)));
}

#[test]
fn quit_kills_a_live_inferior_and_ends() {
    let mut debugger = session();
    let mut fake = Fake::new(404);
    command(&mut debugger, &mut fake, DebuggerCommand::Break("inner".to_string()));
    fake.stops.push_back(Status::Stopped(5, 0x1000));
    fake.stops.push_back(Status::Stopped(5, 0x1201));
    command(&mut debugger, &mut fake, run_args());
    let (lines, next) = command(&mut debugger, &mut fake, DebuggerCommand::Quit);
    assert_eq!(lines, vec!["Killing running inferior (pid 404)".to_string()]);
    assert_eq!(next, Next::Exit);
    assert_eq!(fake.seen.last(), Some(&Request::Kill(404)));
    assert_eq!(debugger.phase(), Phase::Finished);
    let step = debugger.run(Event::Command(DebuggerCommand::Continue));
    assert_eq!(step.next, Next::Exit);
}

#[test]
fn quit_without_an_inferior_ends_at_once() {
    let mut debugger = session();
    let step = debugger.run(Event::Command(DebuggerCommand::Quit));
    assert!(step.output.is_empty());
    assert_eq!(step.next, Next::Exit);
}

#[test]
fn a_command_while_a_reply_is_owed_is_not_taken() {
    let mut debugger = session();
    let step = debugger.run(Event::Command(run_args()));
    assert!(matches!(step.next, Next::Perform(Request::Spawn { .. })));
    let step = debugger.run(Event::Command(DebuggerCommand::Break("main".to_string())));
    assert!(step.output.is_empty());
    assert_eq!(step.next, Next::Await);
    assert_eq!(debugger.phase(), Phase::Spawning);
    assert_eq!(debugger.breakpoint_count(), 0);
    // A reply that nobody asked for changes nothing either.
    let mut idle = session();
    let step = idle.run(Event::Reply(Reply::Byte(1)));
    assert!(step.output.is_empty());
    assert_eq!(step.next, Next::Prompt);
}

#[test]
fn loading_failures_are_told_apart() {
    let missing = Debugger::new("./gone", Err(Error::ErrorOpeningFile), "");
    assert_eq!(missing.err(), Some("Could not open file ./gone".to_string()));
    let broken = Debugger::new("./odd", Err(Error::DwarfFormatError), "UnexpectedEof");
    assert_eq!(
        broken.err(),
        Some("Could not debugging symbols from ./odd: UnexpectedEof".to_string())
    );
}

#[test]
fn each_command_has_its_own_entry_point() {
    let mut debugger = session();
    let step = debugger.set_breakpoint("inner".to_string());
    assert_eq!(step.output, vec!["Set breakpoint 1 at 0x1200".to_string()]);
    let step = debugger.resume();
    assert_eq!(step.output, vec!["No running inferior exit!".to_string()]);
    let step = debugger.backtrace();
    assert_eq!(step.output, vec!["No running inferior exit!".to_string()]);
    let step = debugger.start(vec!["x".to_string()]);
    assert_eq!(
        step.next,
        Next::Perform(Request::Spawn { target: "./prog".to_string(), args: vec!["x".to_string()] })
    );
    let step = debugger.answer(Reply::Spawned(3));
    assert_eq!(step.next, Next::Perform(Request::Wait));
    let step = debugger.answer(Reply::Status(Status::Stopped(5, 0x1000)));
    assert_eq!(step.next, Next::Perform(Request::WriteByte { addr: 0x1200, value: TRAP }));
    let step = debugger.answer(Reply::Byte(0x48));
    assert_eq!(step.next, Next::Perform(Request::Continue));
    let step = debugger.answer(Reply::Status(Status::Stopped(5, 0x1201)));
    assert_eq!(step.next, Next::Prompt);
    let step = debugger.quit();
    assert_eq!(step.output, vec!["Killing running inferior (pid 3)".to_string()]);
    assert_eq!(step.next, Next::Perform(Request::Kill(3)));
    let step = debugger.answer(Reply::Done);
    assert_eq!(step.next, Next::Exit);
}
