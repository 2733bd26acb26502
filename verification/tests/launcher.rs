use ssh_agent_filter::launcher::{
    command_line, exit_code, filter_command_line, parse_args, startup_failure, startup_step,
    wants_debug, Launch, StartupStep, STARTUP_POLLS,
};
use ssh_agent_filter::listener::{agent_pid_line, default_listen_path, export_lines, pipe_lines};

fn texts(list: &[&str]) -> Vec<String> {
    list.iter().map(|s| s.to_string()).collect()
}

fn run(args: &[&str]) -> (Vec<String>, Vec<String>) {
    match parse_args(&texts(args)) {
        Launch::Run { filter_args, command } => (filter_args, command),
        _ => panic!("nothing to run"),
    }
}

#[test]
fn arguments_are_parted_at_the_separator() {
    assert_eq!(
        run(&["-c", "key", "--", "git", "clone", "u"]),
        (texts(&["-c", "key"]), texts(&["git", "clone", "u"]))
    );
    assert_eq!(run(&["--"]), (vec![], vec![]));
    assert_eq!(run(&["--", "a", "--", "b", "--"]), (vec![], texts(&["a", "b"])));
}

#[test]
fn help_is_asked_for() {
    assert!(matches!(parse_args(&[]), Launch::Usage));
    assert!(matches!(parse_args(&texts(&["-h"])), Launch::Usage));
    assert!(matches!(parse_args(&texts(&["--", "ssh", "--help"])), Launch::Usage));
}

#[test]
fn the_separator_is_required() {
    assert!(matches!(parse_args(&texts(&["-c", "key", "ssh"])), Launch::NoSeparator));
    assert!(matches!(parse_args(&texts(&["---"])), Launch::NoSeparator));
}

#[test]
fn debug_is_asked_for() {
    assert!(wants_debug(&texts(&["-A", "-d"])));
    assert!(wants_debug(&texts(&["--debug"])));
    assert!(!wants_debug(&texts(&["-A", "debug"])));
}

#[test]
fn the_filter_is_told_where_to_listen() {
    assert_eq!(
        filter_command_line(&texts(&["-A"]), "/tmp/x/agent.sock", false),
        texts(&["-A", "--debug", "--out-sock", "/tmp/x/agent.sock"])
    );
    assert_eq!(
        filter_command_line(&[], "pipe", true),
        texts(&["--debug", "--out-pipe", "pipe"])
    );
}

fn line(command: &[&str]) -> (String, Vec<String>) {
    let line = command_line(&texts(command));
    (line.program, line.args)
}

#[test]
fn ssh_and_git_commands_are_run() {
    assert_eq!(
        line(&["git", "clone", "git@host:repo"]),
        ("git".to_string(), texts(&["clone", "git@host:repo"]))
    );
    assert_eq!(line(&["ssh", "host"]), ("ssh".to_string(), texts(&["-A", "host"])));
    assert_eq!(line(&["-p", "2", "host"]), ("ssh".to_string(), texts(&["-A", "-p", "2", "host"])));
    assert_eq!(line(&["ssh", "git"]), ("ssh".to_string(), texts(&["-A", "git"])));
    assert_eq!(line(&["host", "git"]), ("ssh".to_string(), texts(&["-A", "host", "git"])));
    assert_eq!(line(&[]), ("ssh".to_string(), texts(&["-A"])));
}

#[test]
fn the_filter_is_waited_for() {
    assert_eq!(STARTUP_POLLS, 100);
    assert_eq!(startup_step(0, false, false), StartupStep::Wait);
    assert_eq!(startup_step(99, false, true), StartupStep::Ready);
    assert_eq!(startup_step(5, true, true), StartupStep::ExitedEarly);
    assert_eq!(startup_step(100, false, true), StartupStep::GiveUp);
}

#[test]
fn a_failed_start_shows_what_was_written() {
    assert_eq!(startup_failure("no", b""), "no");
    assert_eq!(startup_failure("no", &[b'x', 0xff]), "no\nstderr:\nx\u{fffd}");
}

#[test]
fn the_exit_code_of_the_command_is_handed_on() {
    assert_eq!(exit_code(Some(3), None), 3);
    assert_eq!(exit_code(None, Some(15)), 143);
    assert_eq!(exit_code(None, None), 1);
}

#[test]
fn the_listening_path_is_shown() {
    assert_eq!(default_listen_path(4711), "/tmp/agent.4711");
    assert_eq!(default_listen_path(0), "/tmp/agent.0");
    assert_eq!(
        export_lines("/tmp/agent.12", 340),
        texts(&[
            "SSH_AUTH_SOCK='/tmp/agent.12'; export SSH_AUTH_SOCK;",
            "SSH_AGENT_PID='340'; export SSH_AGENT_PID;",
        ])
    );
}

#[test]
fn a_named_pipe_is_shown_to_both_kinds_of_shell() {
    assert_eq!(
        pipe_lines(r"\\.\pipe\x"),
        texts(&[
            r"$env:SSH_AUTH_SOCK='\\.\pipe\x'",
            r"SSH_AUTH_SOCK='\\.\pipe\x'; export SSH_AUTH_SOCK;",
        ])
    );
}

#[test]
fn the_process_in_the_background_is_shown() {
    assert_eq!(agent_pid_line(9070), "echo 'Agent pid 9070';");
}
