//! The inferior controller: the exchanges with the tracing facility that
//! start a traced process, install the breakpoints in it, take it past a
//! breakpoint and let it run to its next stop.

use crate::breakpoints::TRAP_BYTE;
use crate::debugger::{
    lines0, lines1, no_lines, one_line, push_line, Debugger, DebuggerView, Failure, Phase,
};
use crate::inferior::{classify, Inferior, InferiorView, RunState, Status, SIGTRAP};
use crate::messages::{
    breakpoint_set, breakpoint_set_text, byte_changed, byte_changed_text, cannot_install,
    cannot_install_text, exited, exited_text, invalid_breakpoint, invalid_breakpoint_text,
    location, location_text, signaled, signaled_text, start_failed, start_failed_text, stopped,
    stopped_text,
};
use crate::protocol::{Next, Reply, Request, RequestView, Step, StepView};
use crate::text::texts;
use vstd::prelude::*;

verus! {

impl DebuggerView {
    /// The lines that report a stop event.
    pub open spec fn stop_lines(self, status: Status) -> Seq<Seq<char>> {
        match status {
            Status::Exited(code) => one_line(exited_text(code)),
            Status::Signaled(signal) => one_line(signaled_text(signal)),
            Status::Stopped(signal, rip) => match (
                self.symbols.function_at(rip),
                self.symbols.line_at(rip),
            ) {
                (Some(function), Some(line)) => one_line(stopped_text(signal)).push(
                    location_text(function, line.0, line.1),
                ),
                _ => one_line(stopped_text(signal)),
            },
        }
    }

    /// Lets the stopped inferior go: past the trap under it first, if it
    /// stands on one, else freely.
    pub open spec fn begin_resume(self, inferior: InferiorView, output: Seq<Seq<char>>) -> (
        DebuggerView,
        StepView,
    ) {
        match inferior.state {
            RunState::Stopped(_, rip) => match (
                inferior.traps.contains(rip),
                self.breakpoints.byte_at(rip),
            ) {
                (true, Some(byte)) => (
                    DebuggerView {
                        inferior: Some(inferior),
                        phase: Phase::Restoring(rip),
                        ..self
                    },
                    StepView::perform(output, RequestView::WriteByte { addr: rip, value: byte }),
                ),
                _ => (
                    DebuggerView {
                        inferior: Some(inferior.running()),
                        phase: Phase::Continuing,
                        ..self
                    },
                    StepView::perform(output, RequestView::Continue),
                ),
            },
            _ => DebuggerView { inferior: Some(inferior), ..self }.idle(output),
        }
    }

    /// Installs the breakpoints from number `index` on, then lets the
    /// inferior go.
    pub open spec fn install_from(
        self,
        inferior: InferiorView,
        index: int,
        output: Seq<Seq<char>>,
    ) -> (DebuggerView, StepView) {
        if 0 <= index < self.breakpoints.order.len() && index <= usize::MAX {
            (
                DebuggerView {
                    inferior: Some(inferior),
                    phase: Phase::Installing(index as usize),
                    ..self
                },
                StepView::perform(
                    output,
                    RequestView::WriteByte { addr: self.breakpoints.order[index], value: TRAP_BYTE },
                ),
            )
        } else {
            self.begin_resume(inferior, output)
        }
    }

    /// Gives the inferior up: it is killed, and the user is told why.
    pub open spec fn abandon(self, inferior: InferiorView, why: Failure) -> (
        DebuggerView,
        StepView,
    ) {
        (
            DebuggerView {
                inferior: Some(inferior.killed()),
                phase: Phase::Abandoning(inferior.pid, why),
                ..self
            },
            StepView::perform(no_lines(), RequestView::Kill(inferior.pid)),
        )
    }

    /// What a reply does to a start: the new inferior must stop on the trap
    /// signal before its first instruction, else it is given up; then every
    /// breakpoint of the table is installed in turn, the byte that each trap
    /// displaces is written down unless one is on record, and the inferior
    /// is let go.
    pub open spec fn start_reply(self, inferior: InferiorView, reply: Reply) -> (
        DebuggerView,
        StepView,
    ) {
        match self.phase {
            Phase::Handshake => match reply {
                Reply::Status(Status::Stopped(signal, rip)) => if signal == SIGTRAP {
                    self.install_from(
                        inferior.halted(Status::Stopped(signal, rip)),
                        0,
                        no_lines(),
                    )
                } else {
                    self.abandon(inferior, Failure::Start)
                },
                Reply::Status(status) => DebuggerView {
                    inferior: Some(inferior.halted(status)),
                    ..self
                }.idle(one_line(start_failed_text())),
                _ => self.abandon(inferior, Failure::Start),
            },
            Phase::Installing(index) => if index < self.breakpoints.order.len() {
                let addr = self.breakpoints.order[index as int];
                match reply {
                    Reply::Byte(found) => DebuggerView {
                        breakpoints: self.breakpoints.captured(addr, found),
                        ..self
                    }.install_from(inferior.with_trap(addr), index + 1, no_lines()),
                    _ => self.install_from(
                        inferior,
                        index + 1,
                        one_line(cannot_install_text(addr)),
                    ),
                }
            } else {
                self.begin_resume(inferior, no_lines())
            },
            _ => self.idle(no_lines()),
        }
    }

    /// The step-over protocol, which takes the inferior past the breakpoint
    /// under it, one reply at a time. Its steps come in this order: the
    /// instruction byte on record goes back in place of the trap (asked for
    /// by `begin_resume`); the instruction pointer goes to the breakpoint;
    /// the inferior executes one instruction; the trap goes back in, and the
    /// byte that it displaces is written down, with a warning if it is not
    /// the one on record; and only then the inferior runs freely. A reply
    /// that is not the one awaited gives the inferior up.
    pub open spec fn step_over(self, inferior: InferiorView, reply: Reply) -> (
        DebuggerView,
        StepView,
    ) {
        match self.phase {
            Phase::Restoring(addr) => match reply {
                Reply::Byte(_) => (
                    DebuggerView {
                        inferior: Some(inferior.without_trap(addr)),
                        phase: Phase::Rewinding(addr),
                        ..self
                    },
                    StepView::perform(no_lines(), RequestView::SetInstructionPointer(addr)),
                ),
                _ => self.abandon(inferior, Failure::Trace),
            },
            Phase::Rewinding(addr) => match reply {
                Reply::Done => (
                    DebuggerView {
                        inferior: Some(inferior.running()),
                        phase: Phase::Stepping(addr),
                        ..self
                    },
                    StepView::perform(no_lines(), RequestView::Step),
                ),
                _ => self.abandon(inferior, Failure::Trace),
            },
            Phase::Stepping(addr) => match reply {
                Reply::Status(Status::Stopped(signal, rip)) => (
                    DebuggerView {
                        inferior: Some(inferior.halted(Status::Stopped(signal, rip))),
                        phase: Phase::Reinstalling(addr),
                        ..self
                    },
                    StepView::perform(
                        no_lines(),
                        RequestView::WriteByte { addr, value: TRAP_BYTE },
                    ),
                ),
                Reply::Status(status) => DebuggerView {
                    inferior: Some(inferior.halted(status)),
                    ..self
                }.idle(self.stop_lines(status)),
                _ => self.abandon(inferior, Failure::Trace),
            },
            Phase::Reinstalling(addr) => match reply {
                Reply::Byte(found) => (
                    DebuggerView {
                        breakpoints: self.breakpoints.recorded(addr, found),
                        inferior: Some(inferior.with_trap(addr).running()),
                        phase: Phase::Continuing,
                        ..self
                    },
                    StepView::perform(
                        if self.breakpoints.byte_at(addr) == Some(found) {
                            no_lines()
                        } else {
                            one_line(byte_changed_text(addr, found))
                        },
                        RequestView::Continue,
                    ),
                ),
                _ => self.abandon(inferior, Failure::Trace),
            },
            _ => self.idle(no_lines()),
        }
    }

    /// What a reply does to an inferior that runs freely: its next stop is
    /// classified and shown.
    pub open spec fn resumed(self, inferior: InferiorView, reply: Reply) -> (
        DebuggerView,
        StepView,
    ) {
        match self.phase {
            Phase::Continuing => match reply {
                Reply::Status(status) => DebuggerView {
                    inferior: Some(inferior.observed(status)),
                    ..self
                }.idle(self.stop_lines(classify(status, inferior.traps))),
                _ => self.abandon(inferior, Failure::Trace),
            },
            _ => self.idle(no_lines()),
        }
    }

    /// What a reply does to a trap that goes in while the inferior lives:
    /// the breakpoint is recorded once the trap has been written.
    pub open spec fn planted(self, inferior: InferiorView, reply: Reply) -> (
        DebuggerView,
        StepView,
    ) {
        match self.phase {
            Phase::Planting(addr) => match reply {
                Reply::Byte(found) => {
                    let table = self.breakpoints.captured(addr, found);
                    DebuggerView {
                        breakpoints: table,
                        inferior: Some(inferior.with_trap(addr)),
                        ..self
                    }.idle(one_line(breakpoint_set_text(table.order.len(), addr)))
                },
                _ => self.idle(one_line(invalid_breakpoint_text())),
            },
            _ => self.idle(no_lines()),
        }
    }
}

impl Debugger {
    pub(crate) fn stop_lines(&self, status: Status) -> (lines: Vec<String>)
        ensures
            texts(lines@) == self@.stop_lines(status),
    {
        match status {
            Status::Exited(code) => lines1(exited(code)),
            Status::Signaled(signal) => lines1(signaled(signal)),
            Status::Stopped(signal, rip) => {
                let first = lines1(stopped(signal));
                let function = self.debug_data.get_function_from_addr(rip);
                let line = self.debug_data.get_line_from_addr(rip);
                match (function, line) {
                    (Some(f), Some(l)) => push_line(
                        first,
                        location(f.as_str(), l.file.as_str(), l.number),
                    ),
                    _ => first,
                }
            },
        }
    }

    pub(crate) fn begin_resume(&mut self, inferior: Inferior, output: Vec<String>) -> (step: Step)
        ensures
            (final(self)@, step@) == old(self)@.begin_resume(inferior@, texts(output@)),
    {
        let mut inferior = inferior;
        match inferior.state() {
            RunState::Stopped(_, rip) => {
                let saved = self.breakpoints.byte_at(rip);
                if inferior.has_trap(rip) && saved.is_some() {
                    let byte = saved.unwrap();
                    self.inferior = Some(inferior);
                    self.phase = Phase::Restoring(rip);
                    Step {
                        output,
                        next: Next::Perform(Request::WriteByte { addr: rip, value: byte }),
                    }
                } else {
                    inferior.set_running();
                    self.inferior = Some(inferior);
                    self.phase = Phase::Continuing;
                    Step { output, next: Next::Perform(Request::Continue) }
                }
            },
            _ => {
                self.inferior = Some(inferior);
                self.idle(output)
            },
        }
    }

    pub(crate) fn install_from(
        &mut self,
        inferior: Inferior,
        index: usize,
        output: Vec<String>,
    ) -> (step: Step)
        ensures
            (final(self)@, step@) == old(self)@.install_from(
                inferior@,
                index as int,
                texts(output@),
            ),
    {
        match self.breakpoints.address_at(index) {
            Some(addr) => {
                self.inferior = Some(inferior);
                self.phase = Phase::Installing(index);
                Step {
                    output,
                    next: Next::Perform(Request::WriteByte { addr, value: TRAP_BYTE }),
                }
            },
            None => self.begin_resume(inferior, output),
        }
    }

    pub(crate) fn abandon(&mut self, inferior: Inferior, why: Failure) -> (step: Step)
        ensures
            (final(self)@, step@) == old(self)@.abandon(inferior@, why),
    {
        let mut inferior = inferior;
        let pid = inferior.kill();
        self.inferior = Some(inferior);
        self.phase = Phase::Abandoning(pid, why);
        Step { output: lines0(), next: Next::Perform(Request::Kill(pid)) }
    }

    pub(crate) fn start_reply(&mut self, inferior: Inferior, reply: Reply) -> (step: Step)
        ensures
            (final(self)@, step@) == old(self)@.holding(inferior@).start_reply(inferior@, reply),
    {
        let mut inferior = inferior;
        match self.phase {
            Phase::Handshake => match reply {
                Reply::Status(Status::Stopped(signal, rip)) => {
                    if signal == SIGTRAP {
                        inferior.halt(Status::Stopped(signal, rip));
                        self.install_from(inferior, 0, lines0())
                    } else {
                        self.abandon(inferior, Failure::Start)
                    }
                },
                Reply::Status(status) => {
                    inferior.halt(status);
                    self.inferior = Some(inferior);
                    self.idle(lines1(start_failed()))
                },
                _ => self.abandon(inferior, Failure::Start),
            },
            Phase::Installing(index) => {
                let count = self.breakpoints.len();
                match self.breakpoints.address_at(index) {
                    Some(addr) => match reply {
                        Reply::Byte(found) => {
                            self.breakpoints.capture(addr, found);
                            inferior.set_trap(addr);
                            self.install_from(inferior, index + 1, lines0())
                        },
                        _ => self.install_from(
                            inferior,
                            index + 1,
                            lines1(cannot_install(addr)),
                        ),
                    },
                    None => self.begin_resume(inferior, lines0()),
                }
            },
            _ => {
                self.inferior = Some(inferior);
                self.idle(lines0())
            },
        }
    }

    pub(crate) fn step_over(&mut self, inferior: Inferior, reply: Reply) -> (step: Step)
        ensures
            (final(self)@, step@) == old(self)@.holding(inferior@).step_over(inferior@, reply),
    {
        let mut inferior = inferior;
        match self.phase {
            Phase::Restoring(addr) => match reply {
                Reply::Byte(_) => {
                    inferior.clear_trap(addr);
                    self.inferior = Some(inferior);
                    self.phase = Phase::Rewinding(addr);
                    Step {
                        output: lines0(),
                        next: Next::Perform(Request::SetInstructionPointer(addr)),
                    }
                },
                _ => self.abandon(inferior, Failure::Trace),
            },
            Phase::Rewinding(addr) => match reply {
                Reply::Done => {
                    inferior.set_running();
                    self.inferior = Some(inferior);
                    self.phase = Phase::Stepping(addr);
                    Step { output: lines0(), next: Next::Perform(Request::Step) }
                },
                _ => self.abandon(inferior, Failure::Trace),
            },
            Phase::Stepping(addr) => match reply {
                Reply::Status(Status::Stopped(signal, rip)) => {
                    inferior.halt(Status::Stopped(signal, rip));
                    self.inferior = Some(inferior);
                    self.phase = Phase::Reinstalling(addr);
                    Step {
                        output: lines0(),
                        next: Next::Perform(Request::WriteByte { addr, value: TRAP_BYTE }),
                    }
                },
                Reply::Status(status) => {
                    inferior.halt(status);
                    self.inferior = Some(inferior);
                    let lines = self.stop_lines(status);
                    self.idle(lines)
                },
                _ => self.abandon(inferior, Failure::Trace),
            },
            Phase::Reinstalling(addr) => match reply {
                Reply::Byte(found) => {
                    let output = match self.breakpoints.byte_at(addr) {
                        Some(byte) => if byte == found {
                            lines0()
                        } else {
                            lines1(byte_changed(addr, found))
                        },
                        None => lines1(byte_changed(addr, found)),
                    };
                    self.breakpoints.record(addr, found);
                    inferior.set_trap(addr);
                    inferior.set_running();
                    self.inferior = Some(inferior);
                    self.phase = Phase::Continuing;
                    Step { output, next: Next::Perform(Request::Continue) }
                },
                _ => self.abandon(inferior, Failure::Trace),
            },
            _ => {
                self.inferior = Some(inferior);
                self.idle(lines0())
            },
        }
    }

    pub(crate) fn resumed(&mut self, inferior: Inferior, reply: Reply) -> (step: Step)
        ensures
            (final(self)@, step@) == old(self)@.holding(inferior@).resumed(inferior@, reply),
    {
        let mut inferior = inferior;
        match self.phase {
            Phase::Continuing => match reply {
                Reply::Status(status) => {
                    let seen = inferior.observe(status);
                    self.inferior = Some(inferior);
                    let lines = self.stop_lines(seen);
                    self.idle(lines)
                },
                _ => self.abandon(inferior, Failure::Trace),
            },
            _ => {
                self.inferior = Some(inferior);
                self.idle(lines0())
            },
        }
    }

    pub(crate) fn planted(&mut self, inferior: Inferior, reply: Reply) -> (step: Step)
        ensures
            (final(self)@, step@) == old(self)@.holding(inferior@).planted(inferior@, reply),
    {
        let mut inferior = inferior;
        match self.phase {
            Phase::Planting(addr) => match reply {
                Reply::Byte(found) => {
                    self.breakpoints.capture(addr, found);
                    inferior.set_trap(addr);
                    self.inferior = Some(inferior);
                    let count = self.breakpoints.len();
                    self.idle(lines1(breakpoint_set(count, addr)))
                },
                _ => {
                    self.inferior = Some(inferior);
                    self.idle(lines1(invalid_breakpoint()))
                },
            },
            _ => {
                self.inferior = Some(inferior);
                self.idle(lines0())
            },
        }
    }
}

} // verus!
