//! The stack unwinder: walks the chain of frame bases of a stopped inferior
//! and shows, innermost first, where each frame executes.

use crate::debugger::{
    lines0, lines1, no_lines, one_line, push_line, Debugger, DebuggerView, Phase,
};
use crate::inferior::{Inferior, InferiorView, RunState};
use crate::messages::{frame, frame_text, read_failed, read_failed_text};
use crate::protocol::{Next, Reply, Request, RequestView, Step, StepView};
use crate::text::{same_text, texts};
use vstd::prelude::*;

verus! {

/// The longest call chain that a backtrace follows.
pub const MAX_FRAMES: u64 = 1024;

/// The name of the function at which a backtrace ends.
pub open spec fn entry_function() -> Seq<char> {
    "main"@
}

/// What one activation record holds of its caller: the caller's base
/// pointer, saved at the record's base, and the address to return to, one
/// word above it.
#[derive(Clone, Copy, PartialEq, Eq, Structural, Debug)]
pub struct Frame {
    pub saved_base: u64,
    pub return_address: u64,
}

impl DebuggerView {
    /// Shows the frame that executes at `ip` and whose base is `bp`, and
    /// goes on to its caller unless the walk ends here: at the entry
    /// function, at an address that no function or line is known for, at a
    /// base that is null or has no room for a return address behind it, or
    /// after `MAX_FRAMES` frames.
    pub open spec fn unwind(self, ip: u64, bp: u64, depth: u64, output: Seq<Seq<char>>) -> (
        DebuggerView,
        StepView,
    ) {
        if depth >= MAX_FRAMES {
            self.idle(output)
        } else {
            match (self.symbols.function_at(ip), self.symbols.line_at(ip)) {
                (Some(function), Some(line)) => {
                    let shown = output.push(frame_text(function, line.0, line.1));
                    if function == entry_function() || bp == 0 || bp > u64::MAX - 8 {
                        self.idle(shown)
                    } else {
                        (
                            DebuggerView {
                                phase: Phase::ReadingReturn(bp, (depth + 1) as u64),
                                ..self
                            },
                            StepView::perform(shown, RequestView::ReadWord((bp + 8) as u64)),
                        )
                    }
                },
                _ => self.idle(output),
            }
        }
    }

    /// What a reply does to a backtrace: with the registers the walk starts
    /// at the innermost frame, and with the two words of a frame it goes on
    /// to the caller. A read that fails ends the walk; what was shown stays
    /// shown.
    pub open spec fn unwind_reply(self, inferior: InferiorView, reply: Reply) -> (
        DebuggerView,
        StepView,
    ) {
        match self.phase {
            Phase::ReadingRegisters => match (reply, inferior.state) {
                (Reply::Registers { rip, rbp }, RunState::Stopped(_, at)) => self.unwind(
                    at,
                    rbp,
                    0,
                    no_lines(),
                ),
                _ => self.idle(one_line(read_failed_text())),
            },
            Phase::ReadingReturn(base, depth) => match reply {
                Reply::Word(ret) => (
                    DebuggerView { phase: Phase::ReadingBase(base, ret, depth), ..self },
                    StepView::perform(no_lines(), RequestView::ReadWord(base)),
                ),
                _ => self.idle(one_line(read_failed_text())),
            },
            Phase::ReadingBase(base, ret, depth) => match reply {
                Reply::Word(saved) => {
                    let frame = Frame { saved_base: saved, return_address: ret };
                    self.unwind(frame.return_address, frame.saved_base, depth, no_lines())
                },
                _ => self.idle(one_line(read_failed_text())),
            },
            _ => self.idle(no_lines()),
        }
    }
}

impl Debugger {
    pub(crate) fn unwind(&mut self, ip: u64, bp: u64, depth: u64, output: Vec<String>) -> (step:
        Step)
        ensures
            (final(self)@, step@) == old(self)@.unwind(ip, bp, depth, texts(output@)),
    {
        if depth >= MAX_FRAMES {
            return self.idle(output);
        }
        let function = self.debug_data.get_function_from_addr(ip);
        let line = self.debug_data.get_line_from_addr(ip);
        match (function, line) {
            (Some(f), Some(l)) => {
                let shown = push_line(output, frame(f.as_str(), l.file.as_str(), l.number));
                if same_text(f.as_str(), "main") || bp == 0 || bp > u64::MAX - 8 {
                    self.idle(shown)
                } else {
                    self.phase = Phase::ReadingReturn(bp, depth + 1);
                    Step { output: shown, next: Next::Perform(Request::ReadWord(bp + 8)) }
                }
            },
            _ => self.idle(output),
        }
    }

    pub(crate) fn unwind_reply(&mut self, inferior: Inferior, reply: Reply) -> (step: Step)
        ensures
            (final(self)@, step@) == old(self)@.holding(inferior@).unwind_reply(inferior@, reply),
    {
        let mut inferior = inferior;
        match self.phase {
            Phase::ReadingRegisters => {
                let state = inferior.state();
                self.inferior = Some(inferior);
                match (reply, state) {
                    (Reply::Registers { rip, rbp }, RunState::Stopped(_, at)) => self.unwind(
                        at,
                        rbp,
                        0,
                        lines0(),
                    ),
                    _ => self.idle(lines1(read_failed())),
                }
            },
            Phase::ReadingReturn(base, depth) => {
                self.inferior = Some(inferior);
                match reply {
                    Reply::Word(ret) => {
                        self.phase = Phase::ReadingBase(base, ret, depth);
                        Step { output: lines0(), next: Next::Perform(Request::ReadWord(base)) }
                    },
                    _ => self.idle(lines1(read_failed())),
                }
            },
            Phase::ReadingBase(base, ret, depth) => {
                self.inferior = Some(inferior);
                match reply {
                    Reply::Word(saved) => {
                        let frame = Frame { saved_base: saved, return_address: ret };
                        self.unwind(frame.return_address, frame.saved_base, depth, lines0())
                    },
                    _ => self.idle(lines1(read_failed())),
                }
            },
            _ => {
                self.inferior = Some(inferior);
                self.idle(lines0())
            },
        }
    }
}

} // verus!
