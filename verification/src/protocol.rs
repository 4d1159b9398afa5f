//! What goes in and out of the session: parsed commands, the requests that
//! the session makes of the tracing facility, and the replies to them.

use crate::inferior::Status;
use crate::text::{same_text, texts};
use vstd::prelude::*;

verus! {

/// A command of the user, already parsed.
#[derive(Clone, Debug, PartialEq, Eq)]
pub enum DebuggerCommand {
    Quit,
    Run(Vec<String>),
    Continue,
    Backtrace,
    Break(String),
}

/// A command as the contracts see it.
pub enum CommandView {
    Quit,
    Run(Seq<Seq<char>>),
    Continue,
    Backtrace,
    Break(Seq<char>),
}

impl View for DebuggerCommand {
    type V = CommandView;

    open spec fn view(&self) -> CommandView {
        match *self {
            DebuggerCommand::Quit => CommandView::Quit,
            DebuggerCommand::Run(args) => CommandView::Run(texts(args@)),
            DebuggerCommand::Continue => CommandView::Continue,
            DebuggerCommand::Backtrace => CommandView::Backtrace,
            DebuggerCommand::Break(place) => CommandView::Break(place@),
        }
    }
}

/// Something that the tracing facility is asked to do. Each request is
/// answered by one reply.
#[derive(Clone, Debug, PartialEq, Eq)]
pub enum Request {
    /// Launch the target under trace control; answered by `Spawned` with the
    /// new process identifier.
    Spawn { target: String, args: Vec<String> },
    /// Wait for the traced process to stop or end; answered by `Status`.
    Wait,
    /// Replace one byte of the process's memory; answered by `Byte` with the
    /// byte that stood there.
    WriteByte { addr: u64, value: u8 },
    /// Set the process's instruction pointer; answered by `Done`.
    SetInstructionPointer(u64),
    /// Execute one instruction and wait; answered by `Status`.
    Step,
    /// Let the process run and wait for its next stop; answered by `Status`.
    Continue,
    /// Read the register set; answered by `Registers`.
    ReadRegisters,
    /// Read the machine word at an address; answered by `Word`.
    ReadWord(u64),
    /// Terminate and reap the process with this identifier; answered by `Done`.
    Kill(i32),
}

/// A request as the contracts see it.
pub enum RequestView {
    Spawn { target: Seq<char>, args: Seq<Seq<char>> },
    Wait,
    WriteByte { addr: u64, value: u8 },
    SetInstructionPointer(u64),
    Step,
    Continue,
    ReadRegisters,
    ReadWord(u64),
    Kill(i32),
}

impl View for Request {
    type V = RequestView;

    open spec fn view(&self) -> RequestView {
        match *self {
            Request::Spawn { target, args } => RequestView::Spawn {
                target: target@,
                args: texts(args@),
            },
            Request::Wait => RequestView::Wait,
            Request::WriteByte { addr, value } => RequestView::WriteByte { addr, value },
            Request::SetInstructionPointer(addr) => RequestView::SetInstructionPointer(addr),
            Request::Step => RequestView::Step,
            Request::Continue => RequestView::Continue,
            Request::ReadRegisters => RequestView::ReadRegisters,
            Request::ReadWord(addr) => RequestView::ReadWord(addr),
            Request::Kill(pid) => RequestView::Kill(pid),
        }
    }
}

/// The answer of the tracing facility to a request.
#[derive(Clone, Copy, PartialEq, Eq, Structural, Debug)]
pub enum Reply {
    Spawned(i32),
    Status(Status),
    Byte(u8),
    Registers { rip: u64, rbp: u64 },
    Word(u64),
    Done,
    /// The request could not be carried out.
    Failed,
}

/// What happens to a session: the user gives a command, or the tracing
/// facility answers.
#[derive(Clone, Debug, PartialEq, Eq)]
pub enum Event {
    Command(DebuggerCommand),
    Reply(Reply),
}

/// An event as the contracts see it.
pub enum EventView {
    Command(CommandView),
    Reply(Reply),
}

impl View for Event {
    type V = EventView;

    open spec fn view(&self) -> EventView {
        match *self {
            Event::Command(command) => EventView::Command(command@),
            Event::Reply(reply) => EventView::Reply(reply),
        }
    }
}

/// What the caller is to do after a step of the session.
#[derive(Clone, Debug, PartialEq, Eq)]
pub enum Next {
    /// Ask the user for the next command.
    Prompt,
    /// Nothing new: the reply to the request made earlier is still owed.
    Await,
    /// Carry out the request and hand back its reply.
    Perform(Request),
    /// The session is over.
    Exit,
}

/// `Next` as the contracts see it.
pub enum NextView {
    Prompt,
    Await,
    Perform(RequestView),
    Exit,
}

impl View for Next {
    type V = NextView;

    open spec fn view(&self) -> NextView {
        match *self {
            Next::Prompt => NextView::Prompt,
            Next::Await => NextView::Await,
            Next::Perform(request) => NextView::Perform(request@),
            Next::Exit => NextView::Exit,
        }
    }
}

/// The outcome of one step: lines for the user, and what to do next.
#[derive(Clone, Debug, PartialEq, Eq)]
pub struct Step {
    pub output: Vec<String>,
    pub next: Next,
}

/// A step as the contracts see it.
pub struct StepView {
    pub output: Seq<Seq<char>>,
    pub next: NextView,
}

impl View for Step {
    type V = StepView;

    open spec fn view(&self) -> StepView {
        StepView { output: texts(self.output@), next: self.next@ }
    }
}

impl StepView {
    /// Lines for the user, then the prompt.
    pub open spec fn prompt(output: Seq<Seq<char>>) -> StepView {
        StepView { output, next: NextView::Prompt }
    }

    /// Lines for the user, then a request.
    pub open spec fn perform(output: Seq<Seq<char>>, request: RequestView) -> StepView {
        StepView { output, next: NextView::Perform(request) }
    }

    /// The end of the session.
    pub open spec fn exit(output: Seq<Seq<char>>) -> StepView {
        StepView { output, next: NextView::Exit }
    }

    /// Nothing happened.
    pub open spec fn await_reply() -> StepView {
        StepView { output: Seq::empty(), next: NextView::Await }
    }
}

/// A copy of a list of strings.
pub fn copy_lines(lines: &Vec<String>) -> (copy: Vec<String>)
    ensures
        texts(copy@) == texts(lines@),
{
    let mut copy: Vec<String> = Vec::new();
    let mut i: usize = 0;
    while i < lines.len()
        invariant
            i <= lines@.len(),
            copy@.len() == i,
            forall|k: int| 0 <= k < i ==> (#[trigger] copy@[k])@ == lines@[k]@,
        decreases lines.len() - i,
    {
        copy.push(lines[i].clone());
        i = i + 1;
    }
    assert(texts(copy@) =~= texts(lines@));
    copy
}

/// Whether a word stands for `quit`.
pub open spec fn is_quit_word(word: Seq<char>) -> bool {
    word == "q"@ || word == "quit"@
}

/// Whether a word stands for `run`.
pub open spec fn is_run_word(word: Seq<char>) -> bool {
    word == "r"@ || word == "run"@
}

/// Whether a word stands for `continue`.
pub open spec fn is_continue_word(word: Seq<char>) -> bool {
    word == "c"@ || word == "cont"@ || word == "continue"@
}

/// Whether a word stands for `backtrace`.
pub open spec fn is_backtrace_word(word: Seq<char>) -> bool {
    word == "bt"@ || word == "back"@ || word == "backtrace"@
}

/// Whether a word stands for `break`.
pub open spec fn is_break_word(word: Seq<char>) -> bool {
    word == "b"@ || word == "break"@
}

/// The command that a line of words stands for: the first word names it,
/// `run` takes all the words after it and `break` the one after it.
pub open spec fn command_of(tokens: Seq<Seq<char>>) -> Option<CommandView> {
    if tokens.len() == 0 {
        None
    } else if is_quit_word(tokens[0]) {
        Some(CommandView::Quit)
    } else if is_run_word(tokens[0]) {
        Some(CommandView::Run(tokens.subrange(1, tokens.len() as int)))
    } else if is_continue_word(tokens[0]) {
        Some(CommandView::Continue)
    } else if is_backtrace_word(tokens[0]) {
        Some(CommandView::Backtrace)
    } else if is_break_word(tokens[0]) && tokens.len() >= 2 {
        Some(CommandView::Break(tokens[1]))
    } else {
        None
    }
}

/// The view of an optional command.
pub open spec fn command_view(command: Option<DebuggerCommand>) -> Option<CommandView> {
    match command {
        Some(c) => Some(c@),
        None => None,
    }
}

impl DebuggerCommand {
    /// Reads a command from the words of a line.
    pub fn from_tokens(tokens: &Vec<String>) -> (command: Option<DebuggerCommand>)
        ensures
            command_view(command) == command_of(texts(tokens@)),
    {
        if tokens.len() == 0 {
            return None;
        }
        let ghost words = texts(tokens@);
        let first = tokens[0].as_str();
        assert(first@ == words[0]);
        if same_text(first, "q") || same_text(first, "quit") {
            Some(DebuggerCommand::Quit)
        } else if same_text(first, "r") || same_text(first, "run") {
            let mut args: Vec<String> = Vec::new();
            let mut i: usize = 1;
            while i < tokens.len()
                invariant
                    1 <= i <= tokens@.len(),
                    args@.len() == i - 1,
                    forall|k: int| 0 <= k < i - 1 ==> (#[trigger] args@[k])@ == tokens@[k + 1]@,
                decreases tokens.len() - i,
            {
                args.push(tokens[i].clone());
                i = i + 1;
            }
            assert(texts(args@) =~= words.subrange(1, words.len() as int));
            Some(DebuggerCommand::Run(args))
        } else if same_text(first, "c") || same_text(first, "cont") || same_text(
            first,
            "continue",
        ) {
            Some(DebuggerCommand::Continue)
        } else if same_text(first, "bt") || same_text(first, "back") || same_text(
            first,
            "backtrace",
        ) {
            Some(DebuggerCommand::Backtrace)
        } else if (same_text(first, "b") || same_text(first, "break")) && tokens.len() >= 2 {
            assert(tokens@[1]@ == words[1]);
            Some(DebuggerCommand::Break(tokens[1].clone()))
        } else {
            None
        }
    }
}

} // verus!
