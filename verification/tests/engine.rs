use rshell::parse::ShellCommand;
use rshell::shell::{Effect, Shell};

fn dispatch(shell: &mut Shell, line: &str) -> Vec<Effect> {
    let command = ShellCommand::new(line);
    shell.run_command(command, line.trim_end())
}

fn expect_print(effect: &Effect) -> &str {
    match effect {
        Effect::Print(s) => s.as_str(),
        _ => panic!("expected a print effect"),
    }
}

fn printed_lines(effects: &[Effect]) -> Vec<String> {
    effects.iter().map(|e| expect_print(e).to_string()).collect()
}

#[test]
fn whereami_prints_the_directory() {
    let mut shell = Shell::new(String::from("/home/user"));
    let effects = dispatch(&mut shell, "whereami");
    assert_eq!(printed_lines(&effects), vec!["/home/user"]);
    assert_eq!(shell.history, vec!["whereami"]);
}

#[test]
fn movetodir_relative_target_appends() {
    let mut shell = Shell::new(String::from("/home/user"));
    let effects = dispatch(&mut shell, "movetodir docs");
    assert!(effects.is_empty());
    assert_eq!(shell.directory, "/home/user/docs");
}

#[test]
fn movetodir_absolute_target_replaces() {
    let mut shell = Shell::new(String::from("/home/user"));
    let effects = dispatch(&mut shell, "movetodir /tmp");
    assert!(effects.is_empty());
    assert_eq!(shell.directory, "/tmp");
}

#[test]
fn movetodir_adds_no_second_separator() {
    let mut shell = Shell::new(String::from("/home/"));
    dispatch(&mut shell, "movetodir docs");
    assert_eq!(shell.directory, "/home/docs");
}

#[test]
fn movetodir_from_empty_directory() {
    let mut shell = Shell::new(String::new());
    dispatch(&mut shell, "movetodir docs");
    assert_eq!(shell.directory, "docs");
}

#[test]
fn movetodir_without_argument_reports_usage() {
    let mut shell = Shell::new(String::from("/home/user"));
    let effects = dispatch(&mut shell, "movetodir");
    assert_eq!(printed_lines(&effects), vec!["Argument required for movetodir"]);
    assert_eq!(shell.directory, "/home/user");
}

#[test]
fn history_records_lines_and_prints_them_oldest_first() {
    let mut shell = Shell::new(String::from("/"));
    dispatch(&mut shell, "whereami");
    dispatch(&mut shell, "kjdsljf");
    let effects = dispatch(&mut shell, "history");
    assert_eq!(printed_lines(&effects), vec!["whereami", "kjdsljf", "history"]);
}

#[test]
fn history_is_read_only() {
    let mut shell = Shell::new(String::from("/"));
    dispatch(&mut shell, "whereami");
    dispatch(&mut shell, "movetodir docs");
    let command = ShellCommand::new("history");
    let first = shell.run_command(command, "");
    let command = ShellCommand::new("history");
    let second = shell.run_command(command, "");
    assert_eq!(printed_lines(&first), printed_lines(&second));
    assert_eq!(printed_lines(&first), vec!["whereami", "movetodir docs"]);
}

#[test]
fn history_clear_empties_the_history() {
    let mut shell = Shell::new(String::from("/"));
    dispatch(&mut shell, "whereami");
    let effects = dispatch(&mut shell, "history -c");
    assert_eq!(printed_lines(&effects), vec!["Clearing history..."]);
    assert!(shell.history.is_empty());
    let command = ShellCommand::new("history");
    let after = shell.run_command(command, "");
    assert!(after.is_empty());
}

#[test]
fn history_with_other_argument_does_nothing() {
    let mut shell = Shell::new(String::from("/"));
    dispatch(&mut shell, "whereami");
    let effects = dispatch(&mut shell, "history -x");
    assert!(effects.is_empty());
    assert_eq!(shell.history, vec!["whereami", "history -x"]);
}

#[test]
fn byebye_asks_for_exit() {
    let mut shell = Shell::new(String::from("/"));
    let effects = dispatch(&mut shell, "byebye");
    assert!(matches!(effects.as_slice(), [Effect::Exit]));
}

#[test]
fn start_asks_for_a_foreground_spawn() {
    let mut shell = Shell::new(String::from("/"));
    let effects = dispatch(&mut shell, "start /bin/echo hello world");
    match effects.as_slice() {
        [Effect::StartWait(program, args)] => {
            assert_eq!(program, "/bin/echo");
            assert_eq!(args, &vec!["hello", "world"]);
        }
        _ => panic!("expected a single foreground spawn effect"),
    }
    assert!(shell.pids.is_empty());
}

#[test]
fn start_without_argument_does_nothing() {
    let mut shell = Shell::new(String::from("/"));
    let effects = dispatch(&mut shell, "start");
    assert!(effects.is_empty());
}

#[test]
fn background_asks_for_a_background_spawn() {
    let mut shell = Shell::new(String::from("/"));
    let effects = dispatch(&mut shell, "background sleep 100");
    match effects.as_slice() {
        [Effect::StartBackground(program, args)] => {
            assert_eq!(program, "sleep");
            assert_eq!(args, &vec!["100"]);
        }
        _ => panic!("expected a single background spawn effect"),
    }
}

#[test]
fn track_pid_records_spawned_processes() {
    let mut shell = Shell::new(String::from("/"));
    shell.track_pid(41);
    shell.track_pid(42);
    assert_eq!(shell.pids, vec![41, 42]);
}

#[test]
fn exterminate_asks_for_a_kill() {
    let mut shell = Shell::new(String::from("/"));
    let effects = dispatch(&mut shell, "exterminate 123");
    assert!(matches!(effects.as_slice(), [Effect::Kill(123)]));
}

#[test]
fn exterminate_rejects_a_bad_pid() {
    let mut shell = Shell::new(String::from("/"));
    let effects = dispatch(&mut shell, "exterminate abc");
    assert_eq!(printed_lines(&effects), vec!["Invalid process id: abc"]);
}

#[test]
fn exterminate_without_argument_reports_usage() {
    let mut shell = Shell::new(String::from("/"));
    let effects = dispatch(&mut shell, "exterminate");
    assert_eq!(printed_lines(&effects), vec!["Argument required for exterminate"]);
}

#[test]
fn exterminateall_kills_every_tracked_process() {
    let mut shell = Shell::new(String::from("/"));
    shell.track_pid(7);
    shell.track_pid(9);
    let effects = dispatch(&mut shell, "exterminateall");
    let pids: Vec<i32> = effects
        .iter()
        .map(|e| match e {
            Effect::Kill(pid) => *pid,
            _ => panic!("expected only kill effects"),
        })
        .collect();
    assert_eq!(pids, vec![7, 9]);
    assert!(shell.pids.is_empty());
}

#[test]
fn exterminateall_twice_is_safe() {
    let mut shell = Shell::new(String::from("/"));
    shell.track_pid(7);
    dispatch(&mut shell, "exterminateall");
    let effects = dispatch(&mut shell, "exterminateall");
    assert!(effects.is_empty());
    assert!(shell.pids.is_empty());
}

#[test]
fn repeat_runs_the_sub_command_count_times() {
    let mut shell = Shell::new(String::from("/tmp"));
    let effects = dispatch(&mut shell, "repeat 3 whereami");
    assert_eq!(printed_lines(&effects), vec!["/tmp", "/tmp", "/tmp"]);
    assert_eq!(
        shell.history,
        vec!["repeat 3 whereami", "whereami", "whereami", "whereami"]
    );
}

#[test]
fn repeat_zero_only_records_the_line() {
    let mut shell = Shell::new(String::from("/tmp"));
    let effects = dispatch(&mut shell, "repeat 0 whereami");
    assert!(effects.is_empty());
    assert_eq!(shell.history, vec!["repeat 0 whereami"]);
    assert_eq!(shell.directory, "/tmp");
    assert!(shell.pids.is_empty());
}

#[test]
fn repeat_nests() {
    let mut shell = Shell::new(String::from("/tmp"));
    let effects = dispatch(&mut shell, "repeat 2 repeat 2 whereami");
    assert_eq!(printed_lines(&effects), vec!["/tmp", "/tmp", "/tmp", "/tmp"]);
    assert_eq!(
        shell.history,
        vec![
            "repeat 2 repeat 2 whereami",
            "repeat",
            "whereami",
            "whereami",
            "repeat",
            "whereami",
            "whereami",
        ]
    );
}

#[test]
fn repeat_passes_arguments_through() {
    let mut shell = Shell::new(String::from("/home/user"));
    dispatch(&mut shell, "repeat 2 movetodir docs");
    assert_eq!(shell.directory, "/home/user/docs/docs");
}

#[test]
fn repeat_without_enough_arguments_reports_usage() {
    let mut shell = Shell::new(String::from("/"));
    let effects = dispatch(&mut shell, "repeat");
    assert_eq!(printed_lines(&effects), vec!["Incorrect use of repeat."]);
    let effects = dispatch(&mut shell, "repeat 3");
    assert_eq!(printed_lines(&effects), vec!["Incorrect use of repeat."]);
}

#[test]
fn repeat_rejects_a_bad_count() {
    let mut shell = Shell::new(String::from("/"));
    let effects = dispatch(&mut shell, "repeat n whereami");
    assert_eq!(printed_lines(&effects), vec!["Invalid repeat count: n"]);
}

#[test]
fn unknown_command_prints_a_notice_and_mutates_nothing_else() {
    let mut shell = Shell::new(String::from("/keep"));
    let effects = dispatch(&mut shell, "kjdsljf");
    assert_eq!(printed_lines(&effects), vec!["Command not implemented yet."]);
    assert_eq!(shell.directory, "/keep");
    assert!(shell.pids.is_empty());
    assert_eq!(shell.history, vec!["kjdsljf"]);
}

#[test]
fn empty_input_does_nothing_at_all() {
    let mut shell = Shell::new(String::from("/keep"));
    let effects = dispatch(&mut shell, "   \n");
    assert!(effects.is_empty());
    assert_eq!(shell.directory, "/keep");
    assert!(shell.history.is_empty());
    assert!(shell.pids.is_empty());
}
