use rshell::parse::{ShellCommand, ShellFunction};

#[test]
fn test_command_parsing() {
    let input_output = vec![
        ("", ShellFunction::NoFunction),
        ("movetodir", ShellFunction::MoveToDir),
        ("repeat", ShellFunction::Repeat),
        ("repeat n start /usr/bin/alacritty", ShellFunction::Repeat),
        ("kjdsljf", ShellFunction::UnknownFunction),
        ("\n\n\n\n", ShellFunction::NoFunction),
        ("\n\n\nmovetodir\n\n\n", ShellFunction::MoveToDir),
        ("        repeat n      \n", ShellFunction::Repeat),
    ];

    for (input, expected_function) in input_output {
        let command = ShellCommand::new(input);
        assert_eq!(command.function, expected_function);
    }
}

#[test]
fn parse_bare_name_has_no_args() {
    let command = ShellCommand::new("movetodir");
    assert_eq!(command.function, ShellFunction::MoveToDir);
    assert_eq!(command.name, "movetodir");
    assert!(command.args.is_empty());
}

#[test]
fn parse_keeps_argument_order() {
    let command = ShellCommand::new("repeat n start /usr/bin/foo");
    assert_eq!(command.function, ShellFunction::Repeat);
    assert_eq!(command.name, "repeat");
    assert_eq!(command.args, vec!["n", "start", "/usr/bin/foo"]);
}

#[test]
fn parse_ignores_surrounding_whitespace() {
    let command = ShellCommand::new("   repeat n      \n");
    assert_eq!(command.function, ShellFunction::Repeat);
    assert_eq!(command.name, "repeat");
    assert_eq!(command.args, vec!["n"]);
}

#[test]
fn parse_whitespace_only_is_empty() {
    let command = ShellCommand::new(" \t \r\n  ");
    assert_eq!(command.function, ShellFunction::NoFunction);
    assert_eq!(command.name, "");
    assert!(command.args.is_empty());
}

#[test]
fn tokenize_splits_on_whitespace_runs() {
    let tokens = rshell::parse::tokenize("  a\t bb \n ccc ");
    assert_eq!(tokens, vec!["a", "bb", "ccc"]);
}

#[test]
fn str_to_function_covers_the_table() {
    let table = vec![
        ("", ShellFunction::NoFunction),
        ("movetodir", ShellFunction::MoveToDir),
        ("whereami", ShellFunction::WhereAmI),
        ("history", ShellFunction::History),
        ("byebye", ShellFunction::ByeBye),
        ("start", ShellFunction::Start),
        ("background", ShellFunction::Background),
        ("exterminate", ShellFunction::Exterminate),
        ("exterminateall", ShellFunction::ExterminateAll),
        ("repeat", ShellFunction::Repeat),
        ("MOVETODIR", ShellFunction::UnknownFunction),
        ("exit", ShellFunction::UnknownFunction),
    ];
    for (name, expected) in table {
        assert_eq!(ShellCommand::str_to_function(name), expected);
    }
}
