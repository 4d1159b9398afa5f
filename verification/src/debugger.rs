//! The session orchestrator. It owns the breakpoint table and the record of
//! the traced process, takes one event at a time (a command of the user or
//! the reply to its last request) and answers with lines for the user and
//! with what is to be done next. What a reply leads to is the business of
//! the inferior controller and of the stack unwinder.

use crate::breakpoints::{BreakpointTable, TableView, TRAP_BYTE};
use crate::inferior::{Inferior, InferiorView, RunState};
use crate::messages::{
    breakpoint_set, breakpoint_set_text, invalid_breakpoint, invalid_breakpoint_text, killing,
    killing_text, load_failed, load_failed_text, lost_control, lost_control_text, nothing_running,
    nothing_running_text, start_failed, start_failed_text,
};
use crate::protocol::{
    copy_lines, CommandView, DebuggerCommand, Event, EventView, Next, Reply, Request,
    RequestView, Step, StepView,
};
use crate::symbols::{DwarfData, Error};
use crate::text::{numeral_value, parse_numeral, texts};
use vstd::prelude::*;
use vstd::string::*;

verus! {

/// Why an inferior was given up.
#[derive(Clone, Copy, PartialEq, Eq, Structural, Debug)]
pub enum Failure {
    /// The process did not stop as a freshly traced process must.
    Start,
    /// A request to step, to continue or to move the instruction pointer
    /// could not be carried out.
    Trace,
}

/// What the session is waiting for.
#[derive(Clone, Copy, PartialEq, Eq, Structural, Debug)]
pub enum Phase {
    /// The next command of the user.
    Idle,
    /// The end of the previous inferior, before a new one is started.
    Replacing(i32),
    /// The launch of the target.
    Spawning,
    /// The first stop of the new inferior.
    Handshake,
    /// The byte displaced by the trap of the breakpoint with this index.
    Installing(usize),
    /// Step-over, first step: the instruction byte at the address goes back.
    Restoring(u64),
    /// Step-over, second step: the instruction pointer goes to the address.
    Rewinding(u64),
    /// Step-over, third step: the instruction at the address executes.
    Stepping(u64),
    /// Step-over, fourth step: the trap goes back in at the address.
    Reinstalling(u64),
    /// The next stop of the inferior, which runs freely.
    Continuing,
    /// The byte displaced by the trap of a breakpoint set while the inferior lives.
    Planting(u64),
    /// The registers at the start of a backtrace. The base pointer is taken
    /// from them; the walk starts at the address at which the stop was
    /// reported.
    ReadingRegisters,
    /// The return address of the frame with this base; the last field counts
    /// the frames shown so far.
    ReadingReturn(u64, u64),
    /// The caller's frame base, stored at this base; then the return address
    /// that was read before, and the count of frames shown so far.
    ReadingBase(u64, u64, u64),
    /// The end of an inferior that was given up.
    Abandoning(i32, Failure),
    /// The end of the inferior before the session ends.
    Quitting(i32),
    /// Nothing: the session is over.
    Finished,
}

/// No lines.
pub open spec fn no_lines() -> Seq<Seq<char>> {
    Seq::empty()
}

/// One line.
pub open spec fn one_line(line: Seq<char>) -> Seq<Seq<char>> {
    Seq::empty().push(line)
}

/// Whether an address is written with a hexadecimal prefix.
pub open spec fn has_hex_prefix(s: Seq<char>) -> bool {
    s.len() >= 2 && s[0] == '0' && (s[1] == 'x' || s[1] == 'X')
}

/// The address that a hexadecimal numeral names, with or without prefix.
pub open spec fn address_value(s: Seq<char>) -> Option<u64> {
    if has_hex_prefix(s) {
        numeral_value(s.subrange(2, s.len() as int), 16)
    } else {
        numeral_value(s, 16)
    }
}

/// The state of a session as the contracts see it.
pub struct DebuggerView {
    pub target: Seq<char>,
    pub symbols: DwarfData,
    pub inferior: Option<InferiorView>,
    pub breakpoints: TableView,
    pub phase: Phase,
    pub args: Seq<Seq<char>>,
}

impl DebuggerView {
    /// A session that has not run anything yet.
    pub open spec fn initial(target: Seq<char>, symbols: DwarfData) -> DebuggerView {
        DebuggerView {
            target,
            symbols,
            inferior: None,
            breakpoints: TableView::empty(),
            phase: Phase::Idle,
            args: Seq::empty(),
        }
    }

    /// The session with this record of the traced process.
    pub open spec fn holding(self, inferior: InferiorView) -> DebuggerView {
        DebuggerView { inferior: Some(inferior), ..self }
    }

    /// Back to the prompt, with these lines.
    pub open spec fn idle(self, output: Seq<Seq<char>>) -> (DebuggerView, StepView) {
        (DebuggerView { phase: Phase::Idle, ..self }, StepView::prompt(output))
    }

    /// The address that a location specifier names: behind a star an
    /// address in hexadecimal, else a line number if it reads as a decimal
    /// number, else the name of a function.
    pub open spec fn resolve(self, place: Seq<char>) -> Option<u64> {
        if place.len() > 0 && place[0] == '*' {
            address_value(place.subrange(1, place.len() as int))
        } else {
            match numeral_value(place, 10) {
                Some(number) => self.symbols.address_of_line(None, number),
                None => self.symbols.address_of_function(place),
            }
        }
    }

    /// What a command does to a session that waits for one.
    pub open spec fn on_command(self, command: CommandView) -> (DebuggerView, StepView) {
        match command {
            CommandView::Run(args) => match self.inferior {
                Some(inferior) if inferior.alive() => (
                    DebuggerView {
                        inferior: Some(inferior.killed()),
                        phase: Phase::Replacing(inferior.pid),
                        args,
                        ..self
                    },
                    StepView::perform(
                        one_line(killing_text(inferior.pid)),
                        RequestView::Kill(inferior.pid),
                    ),
                ),
                _ => (
                    DebuggerView { inferior: None, phase: Phase::Spawning, args, ..self },
                    StepView::perform(
                        no_lines(),
                        RequestView::Spawn { target: self.target, args },
                    ),
                ),
            },
            CommandView::Quit => match self.inferior {
                Some(inferior) if inferior.alive() => (
                    DebuggerView {
                        inferior: Some(inferior.killed()),
                        phase: Phase::Quitting(inferior.pid),
                        ..self
                    },
                    StepView::perform(
                        one_line(killing_text(inferior.pid)),
                        RequestView::Kill(inferior.pid),
                    ),
                ),
                _ => (DebuggerView { phase: Phase::Finished, ..self }, StepView::exit(no_lines())),
            },
            CommandView::Continue => match self.inferior {
                Some(inferior) if inferior.state is Stopped => self.begin_resume(
                    inferior,
                    no_lines(),
                ),
                _ => self.idle(one_line(nothing_running_text())),
            },
            CommandView::Backtrace => match self.inferior {
                Some(inferior) if inferior.state is Stopped => (
                    DebuggerView { phase: Phase::ReadingRegisters, ..self },
                    StepView::perform(no_lines(), RequestView::ReadRegisters),
                ),
                _ => self.idle(one_line(nothing_running_text())),
            },
            CommandView::Break(place) => match self.resolve(place) {
                None => self.idle(one_line(invalid_breakpoint_text())),
                Some(addr) => match self.inferior {
                    Some(inferior) if inferior.state is Stopped => if inferior.traps.contains(
                        addr,
                    ) {
                        self.idle(
                            one_line(breakpoint_set_text(self.breakpoints.order.len(), addr)),
                        )
                    } else {
                        (
                            DebuggerView { phase: Phase::Planting(addr), ..self },
                            StepView::perform(
                                no_lines(),
                                RequestView::WriteByte { addr, value: TRAP_BYTE },
                            ),
                        )
                    },
                    _ => {
                        let table = self.breakpoints.requested(addr);
                        DebuggerView { breakpoints: table, ..self }.idle(
                            one_line(breakpoint_set_text(table.order.len(), addr)),
                        )
                    },
                },
            },
        }
    }

    /// What a reply does to a session whose phase needs a traced process.
    pub open spec fn on_trace_reply(self, inferior: InferiorView, reply: Reply) -> (
        DebuggerView,
        StepView,
    ) {
        self.holding(inferior).trace_reply(inferior, reply)
    }

    /// What a reply does to a session with the traced process `inferior`:
    /// it goes to the exchange that the phase belongs to.
    pub open spec fn trace_reply(self, inferior: InferiorView, reply: Reply) -> (
        DebuggerView,
        StepView,
    ) {
        match self.phase {
            Phase::Handshake | Phase::Installing(_) => self.start_reply(inferior, reply),
            Phase::Restoring(_) | Phase::Rewinding(_) | Phase::Stepping(_) | Phase::Reinstalling(
                _,
            ) => self.step_over(inferior, reply),
            Phase::Continuing => self.resumed(inferior, reply),
            Phase::Planting(_) => self.planted(inferior, reply),
            Phase::ReadingRegisters | Phase::ReadingReturn(_, _) | Phase::ReadingBase(
                _,
                _,
                _,
            ) => self.unwind_reply(inferior, reply),
            _ => self.idle(no_lines()),
        }
    }

    /// What a reply does to a session.
    pub open spec fn on_reply(self, reply: Reply) -> (DebuggerView, StepView) {
        match self.phase {
            Phase::Idle => self.idle(no_lines()),
            Phase::Finished => (self, StepView::exit(no_lines())),
            Phase::Replacing(_) => (
                DebuggerView { inferior: None, phase: Phase::Spawning, ..self },
                StepView::perform(
                    no_lines(),
                    RequestView::Spawn { target: self.target, args: self.args },
                ),
            ),
            Phase::Quitting(_) => (
                DebuggerView { phase: Phase::Finished, ..self },
                StepView::exit(no_lines()),
            ),
            Phase::Abandoning(pid, why) => self.idle(
                one_line(
                    match why {
                        Failure::Start => start_failed_text(),
                        Failure::Trace => lost_control_text(pid),
                    },
                ),
            ),
            Phase::Spawning => match reply {
                Reply::Spawned(pid) => (
                    DebuggerView {
                        inferior: Some(InferiorView::created(pid).running()),
                        phase: Phase::Handshake,
                        ..self
                    },
                    StepView::perform(no_lines(), RequestView::Wait),
                ),
                _ => DebuggerView { inferior: None, ..self }.idle(one_line(start_failed_text())),
            },
            _ => match self.inferior {
                Some(inferior) => self.on_trace_reply(inferior, reply),
                None => self.idle(no_lines()),
            },
        }
    }

    /// What an event does to a session, and what the session answers.
    pub open spec fn next(self, event: EventView) -> (DebuggerView, StepView) {
        match event {
            EventView::Reply(reply) => self.on_reply(reply),
            EventView::Command(command) => match self.phase {
                Phase::Idle => self.on_command(command),
                Phase::Finished => (self, StepView::exit(no_lines())),
                _ => (self, StepView::await_reply()),
            },
        }
    }
}

/// The view of an optional inferior.
pub open spec fn inferior_view(inferior: Option<Inferior>) -> Option<InferiorView> {
    match inferior {
        Some(i) => Some(i@),
        None => None,
    }
}

pub(crate) fn lines0() -> (out: Vec<String>)
    ensures
        texts(out@) == no_lines(),
{
    let out: Vec<String> = Vec::new();
    assert(texts(out@) =~= no_lines());
    out
}

pub(crate) fn push_line(out: Vec<String>, line: String) -> (more: Vec<String>)
    ensures
        texts(more@) == texts(out@).push(line@),
{
    let mut more = out;
    more.push(line);
    assert(texts(more@) =~= texts(out@).push(line@));
    more
}

pub(crate) fn lines1(line: String) -> (out: Vec<String>)
    ensures
        texts(out@) == one_line(line@),
{
    push_line(lines0(), line)
}

/// Reads an address in hexadecimal, with or without `0x` in front.
pub fn parse_address(addr: &str) -> (value: Option<u64>)
    ensures
        value == address_value(addr@),
{
    let len = addr.unicode_len();
    if len >= 2 && addr.get_char(0) == '0' && (addr.get_char(1) == 'x' || addr.get_char(1)
        == 'X') {
        parse_numeral(addr.substring_char(2, len), 16)
    } else {
        parse_numeral(addr, 16)
    }
}

/// A debugging session on one target program.
pub struct Debugger {
    pub(crate) target: String,
    pub(crate) debug_data: DwarfData,
    pub(crate) inferior: Option<Inferior>,
    pub(crate) breakpoints: BreakpointTable,
    pub(crate) phase: Phase,
    pub(crate) args: Vec<String>,
}

impl View for Debugger {
    type V = DebuggerView;

    open(crate) spec fn view(&self) -> DebuggerView {
        DebuggerView {
            target: self.target@,
            symbols: self.debug_data,
            inferior: inferior_view(self.inferior),
            breakpoints: self.breakpoints@,
            phase: self.phase,
            args: texts(self.args@),
        }
    }
}

impl Debugger {
    /// Starts a session on `target` if its debugging information could be
    /// loaded; else says why it could not, with `detail` as the reader's own
    /// words about a malformed file.
    pub fn new(target: &str, loaded: Result<DwarfData, Error>, detail: &str) -> (session: Result<
        Debugger,
        String,
    >)
        ensures
            match loaded {
                Ok(data) => session matches Ok(debugger) && debugger@ == DebuggerView::initial(
                    target@,
                    data,
                ),
                Err(error) => session matches Err(line) && line@ == load_failed_text(
                    target@,
                    error,
                    detail@,
                ),
            },
    {
        match loaded {
            Ok(debug_data) => {
                let args: Vec<String> = Vec::new();
                assert(texts(args@) =~= Seq::<Seq<char>>::empty());
                Ok(
                    Debugger {
                        target: String::from_str(target),
                        debug_data,
                        inferior: None,
                        breakpoints: BreakpointTable::new(),
                        phase: Phase::Idle,
                        args,
                    },
                )
            },
            Err(error) => Err(load_failed(target, error, detail)),
        }
    }

    /// What the session is waiting for.
    pub fn phase(&self) -> (phase: Phase)
        ensures
            phase == self@.phase,
    {
        self.phase
    }

    /// How many breakpoints the user has set.
    pub fn breakpoint_count(&self) -> (count: usize)
        ensures
            count == self@.breakpoints.order.len(),
    {
        self.breakpoints.len()
    }

    /// The displaced byte on record for the breakpoint at `addr`.
    pub fn saved_byte(&self, addr: u64) -> (byte: Option<u8>)
        ensures
            byte == self@.breakpoints.byte_at(addr),
    {
        self.breakpoints.byte_at(addr)
    }

    /// Whether the user has set a breakpoint at `addr`.
    pub fn has_breakpoint(&self, addr: u64) -> (known: bool)
        ensures
            known == self@.breakpoints.saved.contains_key(addr),
    {
        self.breakpoints.contains(addr)
    }

    /// Where the inferior is in its life, if there is one.
    pub fn inferior_state(&self) -> (state: Option<RunState>)
        ensures
            state == match self@.inferior {
                Some(inferior) => Some(inferior.state),
                None => None,
            },
    {
        match &self.inferior {
            Some(inferior) => Some(inferior.state()),
            None => None,
        }
    }

    /// Takes one event and says what is to be shown and done.
    pub fn run(&mut self, event: Event) -> (step: Step)
        ensures
            (final(self)@, step@) == old(self)@.next(event@),
    {
        match event {
            Event::Reply(reply) => self.on_reply(reply),
            Event::Command(command) => match self.phase {
                Phase::Idle => self.on_command(command),
                Phase::Finished => Step { output: lines0(), next: Next::Exit },
                _ => Step { output: lines0(), next: Next::Await },
            },
        }
    }

    /// The command `run`: starts the target with these arguments.
    pub fn start(&mut self, args: Vec<String>) -> (step: Step)
        ensures
            (final(self)@, step@) == old(self)@.next(
                EventView::Command(CommandView::Run(texts(args@))),
            ),
    {
        self.run(Event::Command(DebuggerCommand::Run(args)))
    }

    /// The command `continue`: lets the stopped inferior go on.
    pub fn resume(&mut self) -> (step: Step)
        ensures
            (final(self)@, step@) == old(self)@.next(EventView::Command(CommandView::Continue)),
    {
        self.run(Event::Command(DebuggerCommand::Continue))
    }

    /// The command `backtrace`: shows the call chain of the stopped inferior.
    pub fn backtrace(&mut self) -> (step: Step)
        ensures
            (final(self)@, step@) == old(self)@.next(EventView::Command(CommandView::Backtrace)),
    {
        self.run(Event::Command(DebuggerCommand::Backtrace))
    }

    /// The command `break`: sets a breakpoint at the place that the
    /// specifier names.
    pub fn set_breakpoint(&mut self, place: String) -> (step: Step)
        ensures
            (final(self)@, step@) == old(self)@.next(EventView::Command(CommandView::Break(place@))),
    {
        self.run(Event::Command(DebuggerCommand::Break(place)))
    }

    /// The command `quit`: ends the session.
    pub fn quit(&mut self) -> (step: Step)
        ensures
            (final(self)@, step@) == old(self)@.next(EventView::Command(CommandView::Quit)),
    {
        self.run(Event::Command(DebuggerCommand::Quit))
    }

    /// Takes the reply to the request that the last step asked for.
    pub fn answer(&mut self, reply: Reply) -> (step: Step)
        ensures
            (final(self)@, step@) == old(self)@.next(EventView::Reply(reply)),
    {
        self.run(Event::Reply(reply))
    }

    pub(crate) fn idle(&mut self, output: Vec<String>) -> (step: Step)
        ensures
            (final(self)@, step@) == old(self)@.idle(texts(output@)),
    {
        self.phase = Phase::Idle;
        Step { output, next: Next::Prompt }
    }

    fn resolve(&self, place: &str) -> (addr: Option<u64>)
        ensures
            addr == self@.resolve(place@),
    {
        let len = place.unicode_len();
        if len > 0 && place.get_char(0) == '*' {
            parse_address(place.substring_char(1, len))
        } else {
            match parse_numeral(place, 10) {
                Some(number) => self.debug_data.get_addr_for_line(None, number),
                None => self.debug_data.get_addr_for_function(place),
            }
        }
    }

    fn on_command(&mut self, command: DebuggerCommand) -> (step: Step)
        ensures
            (final(self)@, step@) == old(self)@.on_command(command@),
    {
        match command {
            DebuggerCommand::Run(args) => {
                let taken = self.inferior.take();
                match taken {
                    Some(inferior) => {
                        let mut inferior = inferior;
                        if inferior.is_alive() {
                            let pid = inferior.kill();
                            self.inferior = Some(inferior);
                            self.phase = Phase::Replacing(pid);
                            self.args = args;
                            return Step {
                                output: lines1(killing(pid)),
                                next: Next::Perform(Request::Kill(pid)),
                            };
                        }
                    },
                    None => {},
                }
                self.phase = Phase::Spawning;
                let request = Request::Spawn {
                    target: self.target.clone(),
                    args: copy_lines(&args),
                };
                self.args = args;
                Step { output: lines0(), next: Next::Perform(request) }
            },
            DebuggerCommand::Quit => {
                let taken = self.inferior.take();
                match taken {
                    Some(inferior) => {
                        let mut inferior = inferior;
                        if inferior.is_alive() {
                            let pid = inferior.kill();
                            self.inferior = Some(inferior);
                            self.phase = Phase::Quitting(pid);
                            Step {
                                output: lines1(killing(pid)),
                                next: Next::Perform(Request::Kill(pid)),
                            }
                        } else {
                            self.inferior = Some(inferior);
                            self.phase = Phase::Finished;
                            Step { output: lines0(), next: Next::Exit }
                        }
                    },
                    None => {
                        self.phase = Phase::Finished;
                        Step { output: lines0(), next: Next::Exit }
                    },
                }
            },
            DebuggerCommand::Continue => {
                let taken = self.inferior.take();
                match taken {
                    Some(inferior) => {
                        match inferior.state() {
                            RunState::Stopped(_, _) => self.begin_resume(inferior, lines0()),
                            _ => {
                                self.inferior = Some(inferior);
                                self.idle(lines1(nothing_running()))
                            },
                        }
                    },
                    None => self.idle(lines1(nothing_running())),
                }
            },
            DebuggerCommand::Backtrace => {
                let stopped = match &self.inferior {
                    Some(inferior) => match inferior.state() {
                        RunState::Stopped(_, _) => true,
                        _ => false,
                    },
                    None => false,
                };
                if stopped {
                    self.phase = Phase::ReadingRegisters;
                    Step { output: lines0(), next: Next::Perform(Request::ReadRegisters) }
                } else {
                    self.idle(lines1(nothing_running()))
                }
            },
            DebuggerCommand::Break(place) => {
                match self.resolve(place.as_str()) {
                    None => self.idle(lines1(invalid_breakpoint())),
                    Some(addr) => {
                        let (stopped, installed) = match &self.inferior {
                            Some(inferior) => match inferior.state() {
                                RunState::Stopped(_, _) => (true, inferior.has_trap(addr)),
                                _ => (false, false),
                            },
                            None => (false, false),
                        };
                        if stopped {
                            if installed {
                                let count = self.breakpoints.len();
                                self.idle(lines1(breakpoint_set(count, addr)))
                            } else {
                                self.phase = Phase::Planting(addr);
                                Step {
                                    output: lines0(),
                                    next: Next::Perform(
                                        Request::WriteByte { addr, value: TRAP_BYTE },
                                    ),
                                }
                            }
                        } else {
                            self.breakpoints.request(addr);
                            let count = self.breakpoints.len();
                            self.idle(lines1(breakpoint_set(count, addr)))
                        }
                    },
                }
            },
        }
    }

    fn on_trace_reply(&mut self, inferior: Inferior, reply: Reply) -> (step: Step)
        ensures
            (final(self)@, step@) == old(self)@.on_trace_reply(inferior@, reply),
    {
        match self.phase {
            Phase::Handshake | Phase::Installing(_) => self.start_reply(inferior, reply),
            Phase::Restoring(_) | Phase::Rewinding(_) | Phase::Stepping(_) | Phase::Reinstalling(
                _,
            ) => self.step_over(inferior, reply),
            Phase::Continuing => self.resumed(inferior, reply),
            Phase::Planting(_) => self.planted(inferior, reply),
            Phase::ReadingRegisters | Phase::ReadingReturn(_, _) | Phase::ReadingBase(
                _,
                _,
                _,
            ) => self.unwind_reply(inferior, reply),
            _ => {
                self.inferior = Some(inferior);
                self.idle(lines0())
            },
        }
    }

    fn on_reply(&mut self, reply: Reply) -> (step: Step)
        ensures
            (final(self)@, step@) == old(self)@.on_reply(reply),
    {
        match self.phase {
            Phase::Idle => self.idle(lines0()),
            Phase::Finished => Step { output: lines0(), next: Next::Exit },
            Phase::Replacing(_) => {
                self.inferior = None;
                self.phase = Phase::Spawning;
                let request = Request::Spawn {
                    target: self.target.clone(),
                    args: copy_lines(&self.args),
                };
                Step { output: lines0(), next: Next::Perform(request) }
            },
            Phase::Quitting(_) => {
                self.phase = Phase::Finished;
                Step { output: lines0(), next: Next::Exit }
            },
            Phase::Abandoning(pid, why) => {
                let line = match why {
                    Failure::Start => start_failed(),
                    Failure::Trace => lost_control(pid),
                };
                self.idle(lines1(line))
            },
            Phase::Spawning => match reply {
                Reply::Spawned(pid) => {
                    let mut inferior = Inferior::new(pid);
                    inferior.set_running();
                    self.inferior = Some(inferior);
                    self.phase = Phase::Handshake;
                    Step { output: lines0(), next: Next::Perform(Request::Wait) }
                },
                _ => {
                    self.inferior = None;
                    self.idle(lines1(start_failed()))
                },
            },
            _ => {
                let taken = self.inferior.take();
                match taken {
                    Some(inferior) => self.on_trace_reply(inferior, reply),
                    None => self.idle(lines0()),
                }
            },
        }
    }
}

} // verus!
