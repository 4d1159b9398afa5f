use deet::debugger::Debugger;
use deet::prompt::{read_words, split_whitespace, Input};
use deet::protocol::DebuggerCommand;

fn words(line: &[&str]) -> Vec<String> {
    line.iter().map(|w| w.to_string()).collect()
}

#[test]
fn from_tokens_knows_every_command_by_its_names() {
    for name in ["q", "quit"] {
        assert_eq!(DebuggerCommand::from_tokens(&words(&[name])), Some(DebuggerCommand::Quit));
    }
    for name in ["c", "cont", "continue"] {
        assert_eq!(DebuggerCommand::from_tokens(&words(&[name])), Some(DebuggerCommand::Continue));
    }
    for name in ["bt", "back", "backtrace"] {
        assert_eq!(DebuggerCommand::from_tokens(&words(&[name])), Some(DebuggerCommand::Backtrace));
    }
    for name in ["r", "run"] {
        assert_eq!(
            DebuggerCommand::from_tokens(&words(&[name, "a", "b"])),
            Some(DebuggerCommand::Run(words(&["a", "b"])))
        );
        assert_eq!(DebuggerCommand::from_tokens(&words(&[name])), Some(DebuggerCommand::Run(vec![])));
    }
    for name in ["b", "break"] {
        assert_eq!(
            DebuggerCommand::from_tokens(&words(&[name, "*0x400", "extra"])),
            Some(DebuggerCommand::Break("*0x400".to_string()))
        );
    }
}

#[test]
fn from_tokens_refuses_what_is_no_command() {
    assert_eq!(DebuggerCommand::from_tokens(&words(&[])), None);
    assert_eq!(DebuggerCommand::from_tokens(&words(&["step"])), None);
    assert_eq!(DebuggerCommand::from_tokens(&words(&["Quit"])), None);
    assert_eq!(DebuggerCommand::from_tokens(&words(&["break"])), None);
    assert_eq!(DebuggerCommand::from_tokens(&words(&["b"])), None);
    assert_eq!(DebuggerCommand::from_tokens(&words(&[""])), None);
}

#[test]
fn a_line_is_split_into_words_and_read() {
    let turn = Debugger::get_next_command(&Input::Line("  break \t main  ".to_string()));
    assert_eq!(turn.command, Some(DebuggerCommand::Break("main".to_string())));
    assert_eq!(turn.show, None);
    assert!(turn.remember);

    let turn = Debugger::get_next_command(&Input::Line("run a  b\u{2003}c".to_string()));
    assert_eq!(turn.command, Some(DebuggerCommand::Run(words(&["a", "b", "c"]))));
}

#[test]
fn a_blank_line_is_passed_over() {
    for line in ["", "   ", "\t \n"] {
        let turn = Debugger::get_next_command(&Input::Line(line.to_string()));
        assert_eq!(turn.command, None);
        assert_eq!(turn.show, None);
        assert!(!turn.remember);
    }
}

#[test]
fn an_unknown_command_is_remembered_and_answered() {
    let turn = Debugger::get_next_command(&Input::Line("frobnicate now".to_string()));
    assert_eq!(turn.command, None);
    assert_eq!(turn.show, Some("Unrecognized command.".to_string()));
    assert!(turn.remember);
}

#[test]
fn the_end_of_input_quits_and_an_interruption_does_not() {
    let turn = Debugger::get_next_command(&Input::Eof);
    assert_eq!(turn.command, Some(DebuggerCommand::Quit));
    assert_eq!(turn.show, None);
    assert!(!turn.remember);

    let turn = Debugger::get_next_command(&Input::Interrupted);
    assert_eq!(turn.command, None);
    assert_eq!(turn.show, Some("Type \"quit\" to exit".to_string()));
    assert!(!turn.remember);
}

#[test]
fn read_words_takes_the_words_as_they_are() {
    let turn = read_words(&words(&["c"]));
    assert_eq!(turn.command, Some(DebuggerCommand::Continue));
    assert!(turn.remember);
    let turn = read_words(&words(&[]));
    assert_eq!(turn.command, None);
    assert_eq!(turn.show, None);
    assert!(!turn.remember);
}

#[test]
fn split_whitespace_agrees_with_the_standard_library() {
    for line in [
        "",
        " ",
        "a",
        " a",
        "a ",
        "break  main",
        "\t run\u{3000}a\u{a0}b \u{2028}c\n",
        "r \u{200b}x\u{feff} y",
        "héllo wörld",
        "\u{85}\u{1680}x\u{180e}y\u{202f}",
    ] {
        let expected: Vec<String> = line.split_whitespace().map(|w| w.to_string()).collect();
        assert_eq!(split_whitespace(line), expected, "{line:?}");
    }
}

#[test]
fn every_character_is_white_space_exactly_when_the_standard_library_says_so() {
    for code in 0u32..=0x10ffff {
        if let Some(c) = char::from_u32(code) {
            let line = format!("a{}b", c);
            let split = split_whitespace(&line).len() == 2;
            assert_eq!(split, c.is_whitespace(), "{code:#x}");
        }
    }
}
