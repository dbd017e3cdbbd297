use deet::debugger_command::DebuggerCommand;

#[test]
fn quit_has_two_spellings() {
    assert_eq!(DebuggerCommand::from_tokens(&vec!["q"]), Some(DebuggerCommand::Quit));
    assert_eq!(DebuggerCommand::from_tokens(&vec!["quit"]), Some(DebuggerCommand::Quit));
    assert_eq!(DebuggerCommand::from_tokens(&vec!["quit", "now"]), Some(DebuggerCommand::Quit));
}

#[test]
fn run_takes_the_other_words_as_arguments() {
    assert_eq!(DebuggerCommand::from_tokens(&vec!["r"]), Some(DebuggerCommand::Run(vec![])));
    assert_eq!(
        DebuggerCommand::from_tokens(&vec!["run", "a", "-b", "c d"]),
        Some(DebuggerCommand::Run(vec![
            "a".to_string(),
            "-b".to_string(),
            "c d".to_string()
        ]))
    );
}

#[test]
fn continue_has_three_spellings() {
    assert_eq!(DebuggerCommand::from_tokens(&vec!["c"]), Some(DebuggerCommand::Continue));
    assert_eq!(DebuggerCommand::from_tokens(&vec!["cont"]), Some(DebuggerCommand::Continue));
    assert_eq!(DebuggerCommand::from_tokens(&vec!["continue"]), Some(DebuggerCommand::Continue));
}

#[test]
fn backtrace_has_three_spellings() {
    assert_eq!(DebuggerCommand::from_tokens(&vec!["bt"]), Some(DebuggerCommand::Backtrace));
    assert_eq!(DebuggerCommand::from_tokens(&vec!["back"]), Some(DebuggerCommand::Backtrace));
    assert_eq!(DebuggerCommand::from_tokens(&vec!["backtrace"]), Some(DebuggerCommand::Backtrace));
}

#[test]
fn breakpoint_takes_a_starred_address() {
    assert_eq!(
        DebuggerCommand::from_tokens(&vec!["b", "*0x401000"]),
        Some(DebuggerCommand::Breakpoint(Some("0x401000".to_string())))
    );
    assert_eq!(
        DebuggerCommand::from_tokens(&vec!["break", "*1f"]),
        Some(DebuggerCommand::Breakpoint(Some("1f".to_string())))
    );
    assert_eq!(
        DebuggerCommand::from_tokens(&vec!["breakpoint", "*é", "more"]),
        Some(DebuggerCommand::Breakpoint(Some("é".to_string())))
    );
}

#[test]
fn breakpoint_takes_an_address_without_the_star() {
    assert_eq!(
        DebuggerCommand::from_tokens(&vec!["b", "0x401000"]),
        Some(DebuggerCommand::Breakpoint(Some("0x401000".to_string())))
    );
    assert_eq!(
        DebuggerCommand::from_tokens(&vec!["breakpoint", "1f", "more"]),
        Some(DebuggerCommand::Breakpoint(Some("1f".to_string())))
    );
    assert_eq!(
        DebuggerCommand::from_tokens(&vec!["break", "x"]),
        Some(DebuggerCommand::Breakpoint(Some("x".to_string())))
    );
    assert_eq!(
        DebuggerCommand::from_tokens(&vec!["b", "**10"]),
        Some(DebuggerCommand::Breakpoint(Some("*10".to_string())))
    );
}

#[test]
fn breakpoint_without_an_address_names_none() {
    assert_eq!(DebuggerCommand::from_tokens(&vec!["b"]), Some(DebuggerCommand::Breakpoint(None)));
    assert_eq!(
        DebuggerCommand::from_tokens(&vec!["b", "*"]),
        Some(DebuggerCommand::Breakpoint(None))
    );
    assert_eq!(
        DebuggerCommand::from_tokens(&vec!["break", "", "*10"]),
        Some(DebuggerCommand::Breakpoint(None))
    );
}

#[test]
fn other_words_are_no_command() {
    assert_eq!(DebuggerCommand::from_tokens(&vec!["x"]), None);
    assert_eq!(DebuggerCommand::from_tokens(&vec!["Quit"]), None);
    assert_eq!(DebuggerCommand::from_tokens(&vec!["qu"]), None);
    assert_eq!(DebuggerCommand::from_tokens(&vec!["", "q"]), None);
    assert_eq!(DebuggerCommand::from_tokens(&vec!["runs"]), None);
}
