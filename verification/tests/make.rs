use ditto::make::{
    after_exec, exec_command, finished_message, read_first_line, read_line, read_line_with, should_run_for_event,
    starts_with_exec, trim_start_matches_exec, watch_start, watch_step, ChangeKind, ExecCommand, ExecNext, ExecResult,
    FileEvent, NinjaOutput, WatchAction, WatchInput, WatchState, WhatHappened,
};

fn event(kind: ChangeKind, extensions: &[&str]) -> FileEvent {
    FileEvent { kind, extensions: extensions.iter().map(|e| e.to_string()).collect() }
}

#[test]
fn it_trims_leading_copies_of_a_pattern() {
    assert_eq!(trim_start_matches_exec("__NINJA__NINJA[1/2] ok", "__NINJA"), "[1/2] ok");
    assert_eq!(trim_start_matches_exec("abc", ""), "abc");
    assert_eq!(trim_start_matches_exec("xx", "xx"), "");
    assert!(starts_with_exec("ninja: no work to do.", "ninja: no work to do"));
    assert!(!starts_with_exec("ninja", "ninja: no"));
}

#[test]
fn it_reads_the_first_line_of_ninja() {
    assert!(matches!(read_first_line("ninja: no work to do."), NinjaOutput::NoWork));
    match read_first_line("__NINJA[1/3] compiling") {
        NinjaOutput::Status(m) => assert_eq!(m, "[1/3] compiling"),
        _ => panic!("expected a status"),
    }
}

#[test]
fn it_reads_later_lines_of_ninja() {
    match read_line(false, "__NINJA[2/3] linking") {
        (false, NinjaOutput::Status(m)) => assert_eq!(m, "[2/3] linking"),
        _ => panic!("expected a status"),
    }
    assert!(matches!(read_line(true, "ninja: build stopped: subcommand failed."), (true, NinjaOutput::Skip)));
    assert!(matches!(read_line(false, "FAILED: build/Main.js"), (false, NinjaOutput::SkipNext)));
    // The report of a failure is found behind its colour codes.
    assert!(matches!(read_line(false, "\u{1b}[31mFAILED: \u{1b}[0mbuild/Main.js"), (false, NinjaOutput::SkipNext)));
    match read_line(false, "error: oops") {
        (true, NinjaOutput::Print { line, newline_first }) => {
            assert_eq!(line, "error: oops");
            assert!(newline_first);
        }
        _ => panic!("expected a line to show"),
    }
    match read_line_with(true, "more", "more") {
        (true, NinjaOutput::Print { newline_first, .. }) => assert!(!newline_first),
        _ => panic!("expected a line to show"),
    }
}

#[test]
fn it_tells_what_happened() {
    let nothing = WhatHappened::Nothing { exit_code: Some(0), warnings_printed: false };
    assert_eq!(finished_message(&nothing), Some("Nothing to do"));
    assert_eq!(nothing.exit_code(), 0);
    let success = WhatHappened::Success { warnings_printed: false };
    assert_eq!(finished_message(&success), Some("All good!"));
    assert_eq!(finished_message(&WhatHappened::Success { warnings_printed: true }), None);
    let error = WhatHappened::Error { exit_code: Some(2) };
    assert!(error.is_error());
    assert_eq!(error.exit_code(), 2);
    assert_eq!(WhatHappened::Error { exit_code: None }.exit_code(), 0);
    assert_eq!(finished_message(&error), None);
}

#[test]
fn it_splits_shell_hooks() {
    match exec_command("echo 'hello world' done") {
        Some(ExecCommand::Run { program, args }) => {
            assert_eq!(program, "echo");
            assert_eq!(args, vec!["hello world".to_string(), "done".to_string()]);
        }
        _ => panic!("expected a command"),
    }
    assert!(matches!(exec_command("   "), Some(ExecCommand::Unknown)));
    assert!(exec_command("echo 'unbalanced").is_none());
}

#[test]
fn it_stops_the_hooks_at_the_first_failure() {
    assert!(matches!(after_exec(ExecResult::Exited { success: true }, true), ExecNext::Continue));
    assert!(matches!(after_exec(ExecResult::Exited { success: false }, true), ExecNext::Stop { others_left: true }));
    assert!(matches!(after_exec(ExecResult::Failed, false), ExecNext::Stop { others_left: false }));
}

#[test]
fn it_watches_source_files_and_the_configuration() {
    assert!(should_run_for_event(&event(ChangeKind::DataModified, &["ditto"])));
    assert!(should_run_for_event(&event(ChangeKind::Created, &["toml"])));
    assert!(should_run_for_event(&event(ChangeKind::Removed, &["js", "ditto"])));
    assert!(!should_run_for_event(&event(ChangeKind::DataModified, &["js"])));
    assert!(!should_run_for_event(&event(ChangeKind::Other, &["ditto"])));
}

#[test]
fn it_runs_one_build_at_a_time() {
    let (state, action) = watch_start();
    assert!(state.run_in_progress);
    assert!(action == WatchAction::Run { reload_config: false, install_packages: true });
    // A change while the first build runs is let go.
    let (state, action) = watch_step(state, WatchInput::Changed(event(ChangeKind::DataModified, &["ditto"])));
    assert!(state.run_in_progress);
    assert!(action == WatchAction::Wait);
    let (state, action) = watch_step(state, WatchInput::RunDone);
    assert!(state == WatchState { run_in_progress: false });
    assert!(action == WatchAction::Wait);
    let (state, action) = watch_step(state, WatchInput::Changed(event(ChangeKind::DataModified, &["ditto"])));
    assert!(state.run_in_progress);
    assert!(action == WatchAction::Run { reload_config: false, install_packages: false });
    let (state, _) = watch_step(state, WatchInput::RunDone);
    let (state, action) = watch_step(state, WatchInput::Changed(event(ChangeKind::DataModified, &["toml"])));
    assert!(action == WatchAction::Run { reload_config: true, install_packages: true });
    let (state, action) = watch_step(state, WatchInput::ConfigUnreadable);
    assert!(!state.run_in_progress);
    assert!(action == WatchAction::Wait);
    let (state, action) = watch_step(state, WatchInput::WatcherError);
    assert!(!state.run_in_progress);
    assert!(action == WatchAction::Wait);
}

#[test]
fn no_work_is_nothing_and_shows_warnings() {
    let first = ditto::make::read_first_line("ninja: no work to do.");
    assert!(ditto::make::shows_warnings(&first, true));
    assert!(matches!(
        ditto::make::what_happened(&first, true, Some(0), 2),
        ditto::make::WhatHappened::Nothing { exit_code: Some(0), warnings_printed: true }
    ));
}

#[test]
fn a_failed_build_is_an_error_without_warnings() {
    let first = ditto::make::read_first_line("__NINJA[1/2] building");
    assert!(!ditto::make::shows_warnings(&first, false));
    assert!(matches!(
        ditto::make::what_happened(&first, false, Some(1), 0),
        ditto::make::WhatHappened::Error { exit_code: Some(1) }
    ));
    assert!(matches!(
        ditto::make::what_happened(&first, true, Some(0), 0),
        ditto::make::WhatHappened::Success { warnings_printed: false }
    ));
}
