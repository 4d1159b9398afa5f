//! The prompt's side of the session: what to make of a line that the user
//! entered, or of the prompt ending without one.

use crate::debugger::Debugger;
use crate::protocol::{command_of, command_view, CommandView, DebuggerCommand};
use crate::text::texts;
use vstd::prelude::*;
use vstd::string::*;

verus! {

/// What came back from the prompt.
#[derive(Clone, Debug, PartialEq, Eq)]
pub enum Input {
    /// The user entered this line.
    Line(String),
    /// The user interrupted the prompt.
    Interrupted,
    /// The input has ended.
    Eof,
}

/// What is to be done with what came back from the prompt.
#[derive(Clone, Debug, PartialEq, Eq)]
pub struct Turn {
    /// The command to hand to the session; without one the user is asked again.
    pub command: Option<DebuggerCommand>,
    /// A line to show to the user.
    pub show: Option<String>,
    /// Whether the line entered goes into the history.
    pub remember: bool,
}

/// Whether a character is white space: one of the characters that Unicode
/// gives the property White_Space.
pub open spec fn is_space(c: char) -> bool {
    let code = c as u32;
    ||| 0x9 <= code <= 0xd
    ||| code == 0x20
    ||| code == 0x85
    ||| code == 0xa0
    ||| code == 0x1680
    ||| 0x2000 <= code <= 0x200a
    ||| code == 0x2028
    ||| code == 0x2029
    ||| code == 0x202f
    ||| code == 0x205f
    ||| code == 0x3000
}

/// How many characters stand at the start of a text before its first
/// white space.
pub open spec fn word_length(text: Seq<char>) -> nat
    decreases text.len(),
{
    if text.len() == 0 || is_space(text[0]) {
        0
    } else {
        1 + word_length(text.skip(1))
    }
}

/// The words of a line: its longest stretches without white space, in order.
pub open spec fn whitespace_words(line: Seq<char>) -> Seq<Seq<char>>
    decreases line.len(),
{
    if line.len() == 0 {
        Seq::empty()
    } else if is_space(line[0]) {
        whitespace_words(line.skip(1))
    } else {
        let n = word_length(line) as int;
        if 0 < n <= line.len() {
            seq![line.take(n)] + whitespace_words(line.skip(n))
        } else {
            Seq::empty()
        }
    }
}

fn is_space_char(c: char) -> (space: bool)
    ensures
        space == is_space(c),
{
    let code: u32 = c as u32;
    (0x9 <= code && code <= 0xd) || code == 0x20 || code == 0x85 || code == 0xa0 || code == 0x1680
        || (0x2000 <= code && code <= 0x200a) || code == 0x2028 || code == 0x2029 || code
        == 0x202f || code == 0x205f || code == 0x3000
}

/// Splits a line into its words.
pub fn split_whitespace(line: &str) -> (words: Vec<String>)
    ensures
        texts(words@) == whitespace_words(line@),
{
    let len = line.unicode_len();
    let mut words: Vec<String> = Vec::new();
    let mut i: usize = 0;
    proof {
        assert(line@.skip(0) =~= line@);
        assert(texts(words@) + whitespace_words(line@) =~= whitespace_words(line@));
    }
    while i < len
        invariant
            i <= len,
            len == line@.len(),
            whitespace_words(line@) == texts(words@) + whitespace_words(line@.skip(i as int)),
        decreases len - i,
    {
        let ghost rest = line@.skip(i as int);
        if is_space_char(line.get_char(i)) {
            proof {
                assert(rest[0] == line@[i as int]);
                assert(rest.skip(1) =~= line@.skip(i + 1));
            }
            i = i + 1;
        } else {
            let start = i;
            let mut end: usize = i + 1;
            proof {
                assert(rest[0] == line@[i as int]);
                assert(rest.skip(1) =~= line@.skip(end as int));
            }
            while end < len && !is_space_char(line.get_char(end))
                invariant
                    start < end <= len,
                    len == line@.len(),
                    rest == line@.skip(start as int),
                    word_length(rest) == (end - start) + word_length(line@.skip(end as int)),
                decreases len - end,
            {
                proof {
                    let tail = line@.skip(end as int);
                    assert(tail[0] == line@[end as int]);
                    assert(tail.skip(1) =~= line@.skip(end + 1));
                }
                end = end + 1;
            }
            proof {
                let tail = line@.skip(end as int);
                if end < len {
                    assert(tail[0] == line@[end as int]);
                }
                assert(word_length(tail) == 0);
                assert(word_length(rest) == end - start);
                assert(rest.take(end - start) =~= line@.subrange(start as int, end as int));
                assert(rest.skip(end - start) =~= line@.skip(end as int));
            }
            let word = line.substring_char(start, end).to_owned();
            let ghost before = words@;
            words.push(word);
            proof {
                assert(texts(words@) =~= texts(before).push(word@));
                assert(texts(before) + (seq![word@] + whitespace_words(line@.skip(end as int)))
                    =~= texts(before).push(word@) + whitespace_words(line@.skip(end as int)));
            }
            i = end;
        }
    }
    proof {
        assert(line@.skip(i as int).len() == 0);
        assert(texts(words@) + whitespace_words(line@.skip(i as int)) =~= texts(words@));
    }
    words
}

/// The hint for a user who interrupted the prompt.
pub open spec fn interrupted_text() -> Seq<char> {
    "Type \"quit\" to exit"@
}

/// The complaint about a line that is no command.
pub open spec fn unrecognized_text() -> Seq<char> {
    "Unrecognized command."@
}

/// The view of an optional string.
pub open spec fn shown(line: Option<String>) -> Option<Seq<char>> {
    match line {
        Some(text) => Some(text@),
        None => None,
    }
}

/// What the words of a line that was entered lead to: nothing for a line
/// without words; else the line is remembered, and its words give a command
/// or a complaint.
pub fn read_words(words: &Vec<String>) -> (turn: Turn)
    ensures
        command_view(turn.command) == command_of(texts(words@)),
        turn.remember == (words@.len() > 0),
        shown(turn.show) == (if words@.len() > 0 && command_of(texts(words@)) is None {
            Some(unrecognized_text())
        } else {
            None
        }),
{
    if words.len() == 0 {
        return Turn { command: None, show: None, remember: false };
    }
    match DebuggerCommand::from_tokens(words) {
        Some(command) => Turn { command: Some(command), show: None, remember: true },
        None => Turn {
            command: None,
            show: Some("Unrecognized command.".to_owned()),
            remember: true,
        },
    }
}

impl Debugger {
    /// Decides what to do with what came back from the prompt: the end of
    /// the input counts as `quit`, an interruption is answered with a hint,
    /// and a line is split into words and read as a command.
    pub fn get_next_command(input: &Input) -> (turn: Turn)
        ensures
            match *input {
                Input::Interrupted => turn.command is None && shown(turn.show) == Some(
                    interrupted_text(),
                ) && !turn.remember,
                Input::Eof => command_view(turn.command) == Some(CommandView::Quit) && turn.show
                    is None && !turn.remember,
                Input::Line(line) => {
                    let words = whitespace_words(line@);
                    &&& command_view(turn.command) == command_of(words)
                    &&& turn.remember == (words.len() > 0)
                    &&& shown(turn.show) == (if words.len() > 0 && command_of(words) is None {
                        Some(unrecognized_text())
                    } else {
                        None
                    })
                },
            },
    {
        match input {
            Input::Interrupted => Turn {
                command: None,
                show: Some("Type \"quit\" to exit".to_owned()),
                remember: false,
            },
            Input::Eof => Turn {
                command: Some(DebuggerCommand::Quit),
                show: None,
                remember: false,
            },
            Input::Line(line) => {
                let words = split_whitespace(line.as_str());
                read_words(&words)
            },
        }
    }
}

} // verus!
