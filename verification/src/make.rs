//! The decisions of `ditto make`: what each line of ninja's output asks of
//! the display, what a build's outcome says, which shell hooks run, and which
//! file system events start a new build in watch mode. The program around
//! them runs ninja, the hooks and the watcher, and hands each event here.
use vstd::prelude::*;
use vstd::string::*;

verus! {

/// The mark that ninja is told to put before its status lines.
pub const NINJA_STATUS_MESSAGE: &'static str = "__NINJA";

/// What ninja says first when everything is up to date.
pub const NINJA_NO_WORK: &'static str = "ninja: no work to do";

/// What ninja says when a command of the build failed.
pub const NINJA_BUILD_STOPPED: &'static str = "ninja: build stopped: subcommand failed";

/// How ninja marks the report of a failed command.
pub const NINJA_FAILED: &'static str = "FAILED";

/// `s` begins with `p`.
pub open spec fn starts_with(s: Seq<char>, p: Seq<char>) -> bool {
    p.len() <= s.len() && s.subrange(0, p.len() as int) == p
}

/// `s` with every leading copy of `p` taken off.
pub open spec fn trim_start_matches(s: Seq<char>, p: Seq<char>) -> Seq<char>
    decreases s.len(),
{
    if p.len() > 0 && starts_with(s, p) {
        trim_start_matches(s.subrange(p.len() as int, s.len() as int), p)
    } else {
        s
    }
}

/// Once every leading copy of a non-empty `p` is taken off, what is left
/// does not begin with `p`: a status message never starts with the status
/// mark.
pub proof fn trimmed_text_does_not_begin_with_pattern(s: Seq<char>, p: Seq<char>)
    requires
        p.len() > 0,
    ensures
        !starts_with(trim_start_matches(s, p), p),
    decreases s.len(),
{
    if starts_with(s, p) {
        trimmed_text_does_not_begin_with_pattern(s.subrange(p.len() as int, s.len() as int), p);
    }
}

/// Whether `s`, from the character `i` on, begins with `p`.
fn matches_at(s: &str, p: &str, i: usize) -> (r: bool)
    requires
        i <= s@.len(),
    ensures
        r == starts_with(s@.subrange(i as int, s@.len() as int), p@),
{
    let n = s.unicode_len();
    let m = p.unicode_len();
    if m > n - i {
        return false;
    }
    let mut k: usize = 0;
    while k < m
        invariant
            n == s@.len(),
            m == p@.len(),
            i + m <= n,
            k <= m,
            forall|j: int| 0 <= j < k ==> s@[i + j] == p@[j],
        decreases m - k,
    {
        if s.get_char(i + k) != p.get_char(k) {
            proof {
                assert(s@.subrange(i as int, n as int).subrange(0, m as int)[k as int] != p@[k as int]);
            }
            return false;
        }
        k = k + 1;
    }
    proof {
        assert(s@.subrange(i as int, n as int).subrange(0, m as int) =~= p@);
    }
    true
}

/// Whether `s` begins with `p`.
pub fn starts_with_exec(s: &str, p: &str) -> (r: bool)
    ensures
        r == starts_with(s@, p@),
{
    proof {
        assert(s@.subrange(0, s@.len() as int) =~= s@);
    }
    matches_at(s, p, 0)
}

/// `s` with every leading copy of `p` taken off (`str::trim_start_matches`).
pub fn trim_start_matches_exec(s: &str, p: &str) -> (r: String)
    ensures
        r@ == trim_start_matches(s@, p@),
{
    let n = s.unicode_len();
    let m = p.unicode_len();
    let mut i: usize = 0;
    proof {
        assert(s@.subrange(0, n as int) =~= s@);
    }
    if m > 0 {
        while matches_at(s, p, i)
            invariant
                n == s@.len(),
                m == p@.len(),
                m > 0,
                i <= n,
                trim_start_matches(s@, p@) == trim_start_matches(s@.subrange(i as int, n as int), p@),
            decreases n - i,
        {
            let ghost t = s@.subrange(i as int, n as int);
            proof {
                assert(t.subrange(m as int, t.len() as int) =~= s@.subrange(i + m, n as int));
            }
            i = i + m;
        }
    }
    proof {
        assert(trim_start_matches(s@.subrange(i as int, n as int), p@) == s@.subrange(i as int, n as int));
    }
    let mut out = String::new();
    let mut k: usize = i;
    while k < n
        invariant
            n == s@.len(),
            i <= k <= n,
            out@ == s@.subrange(i as int, k as int),
        decreases n - k,
    {
        crate::text::push_char(&mut out, s.get_char(k));
        proof {
            assert(out@ =~= s@.subrange(i as int, k + 1));
        }
        k = k + 1;
    }
    out
}

/// What a line of ninja's output asks of the build's display.
pub enum NinjaOutput {
    /// Everything was up to date: nothing was built.
    NoWork,
    /// A status line: the message for the progress display.
    Status(String),
    /// Nothing to show.
    Skip,
    /// Nothing to show, of this line nor of the next (the failed command).
    SkipNext,
    /// Show the line, after an empty line where `newline_first`.
    Print { line: String, newline_first: bool },
}

/// The message of a status line: the line without the status marks.
pub open spec fn status_message(line: Seq<char>) -> Seq<char> {
    trim_start_matches(line, NINJA_STATUS_MESSAGE@)
}

/// What the first line of ninja's output asks: nothing more where there is
/// no work to do, else the line is the first status.
pub fn read_first_line(line: &str) -> (r: NinjaOutput)
    ensures
        match r {
            NinjaOutput::NoWork => starts_with(line@, NINJA_NO_WORK@),
            NinjaOutput::Status(m) => !starts_with(line@, NINJA_NO_WORK@) && m@ == status_message(line@),
            _ => false,
        },
{
    if starts_with_exec(line, NINJA_NO_WORK) {
        NinjaOutput::NoWork
    } else {
        NinjaOutput::Status(trim_start_matches_exec(line, NINJA_STATUS_MESSAGE))
    }
}

/// What a later line of ninja's output asks, given the line without its
/// colour codes (`plain`) and whether an empty line was shown before the
/// first line shown; with that flag afterwards. Status lines update the
/// progress display; the notice that the build stopped is dropped, as is the
/// report of a failed command together with the command; the rest is shown,
/// the first after an empty line.
pub open spec fn reads_as(newline_shown: bool, line: Seq<char>, plain: Seq<char>, r: (bool, NinjaOutput)) -> bool {
    if starts_with(line, NINJA_STATUS_MESSAGE@) {
        r.0 == newline_shown && match r.1 {
            NinjaOutput::Status(m) => m@ == status_message(line),
            _ => false,
        }
    } else if starts_with(line, NINJA_BUILD_STOPPED@) {
        r.0 == newline_shown && r.1 is Skip
    } else if starts_with(plain, NINJA_FAILED@) {
        r.0 == newline_shown && r.1 is SkipNext
    } else {
        r.0 && match r.1 {
            NinjaOutput::Print { line: l, newline_first } => l@ == line && newline_first == !newline_shown,
            _ => false,
        }
    }
}

/// What a later line of ninja's output asks, given the line without its
/// colour codes; see [reads_as].
pub fn read_line_with(newline_shown: bool, line: &str, plain_line: &str) -> (r: (bool, NinjaOutput))
    ensures
        reads_as(newline_shown, line@, plain_line@, r),
{
    if starts_with_exec(line, NINJA_STATUS_MESSAGE) {
        (newline_shown, NinjaOutput::Status(trim_start_matches_exec(line, NINJA_STATUS_MESSAGE)))
    } else if starts_with_exec(line, NINJA_BUILD_STOPPED) {
        (newline_shown, NinjaOutput::Skip)
    } else if starts_with_exec(plain_line, NINJA_FAILED) {
        (newline_shown, NinjaOutput::SkipNext)
    } else {
        (true, NinjaOutput::Print { line: line.to_owned(), newline_first: !newline_shown })
    }
}

/// What `console::strip_ansi_codes` gives for a text: the text without its
/// ANSI escape sequences.
pub uninterp spec fn ansi_stripped(s: Seq<char>) -> Seq<char>;

/// Calls `console::strip_ansi_codes`. Its result is named; its source shows
/// that every escape sequence it takes out starts with `\u{1b}` or
/// `\u{9b}`, so a text with neither comes back as it was.
#[verifier::external_body]
fn strip_ansi_codes(s: &str) -> (r: String)
    ensures
        r@ == ansi_stripped(s@),
        !s@.contains('\u{1b}') && !s@.contains('\u{9b}') ==> r@ == s@,
{
    console::strip_ansi_codes(s).into_owned()
}

/// What a later line of ninja's output asks, with whether an empty line was
/// shown before the first line shown; see [reads_as], here with the line's
/// colour codes taken out by `console::strip_ansi_codes`.
pub fn read_line(newline_shown: bool, line: &str) -> (r: (bool, NinjaOutput))
    ensures
        reads_as(newline_shown, line@, ansi_stripped(line@), r),
{
    let plain = strip_ansi_codes(line);
    read_line_with(newline_shown, line, plain.as_str())
}

/// How a build went, as ninja's exit tells.
pub enum WhatHappened {
    /// There was no work to do; warnings may have been shown.
    Nothing { exit_code: Option<i32>, warnings_printed: bool },
    /// Ninja failed; the errors have been shown.
    Error { exit_code: Option<i32> },
    /// The build succeeded; warnings may have been shown.
    Success { warnings_printed: bool },
}

impl WhatHappened {
    /// Whether the build failed.
    pub fn is_error(&self) -> (r: bool)
        ensures
            r == (*self is Error),
    {
        match self {
            WhatHappened::Error { .. } => true,
            _ => false,
        }
    }

    /// The code that the program exits with: ninja's, or 0 where it has none
    /// or the build succeeded.
    pub fn exit_code(&self) -> (r: i32)
        ensures
            r == match *self {
                WhatHappened::Nothing { exit_code, .. } => match exit_code {
                    Some(c) => c,
                    None => 0,
                },
                WhatHappened::Error { exit_code } => match exit_code {
                    Some(c) => c,
                    None => 0,
                },
                WhatHappened::Success { .. } => 0,
            },
    {
        match self {
            WhatHappened::Nothing { exit_code, .. } => match exit_code {
                Some(c) => *c,
                None => 0,
            },
            WhatHappened::Error { exit_code } => match exit_code {
                Some(c) => *c,
                None => 0,
            },
            WhatHappened::Success { .. } => 0,
        }
    }
}

/// Whether the warnings of a build are shown: after a first line that says
/// there is no work, or after a build that succeeded, never after a failure.
pub fn shows_warnings(first: &NinjaOutput, exit_success: bool) -> (r: bool)
    ensures
        r == (*first is NoWork || exit_success),
{
    match first {
        NinjaOutput::NoWork => true,
        _ => exit_success,
    }
}

/// How a build went, from ninja's first line, whether it exited successfully,
/// its exit code, and how many warnings were shown (see [shows_warnings]).
pub fn what_happened(first: &NinjaOutput, exit_success: bool, exit_code: Option<i32>, warnings_shown: usize) -> (r:
    WhatHappened)
    ensures
        match *first {
            NinjaOutput::NoWork => r == (WhatHappened::Nothing { exit_code, warnings_printed: warnings_shown > 0 }),
            _ => if exit_success {
                r == (WhatHappened::Success { warnings_printed: warnings_shown > 0 })
            } else {
                r == (WhatHappened::Error { exit_code })
            },
        },
{
    match first {
        NinjaOutput::NoWork => WhatHappened::Nothing { exit_code, warnings_printed: warnings_shown > 0 },
        _ => if exit_success {
            WhatHappened::Success { warnings_printed: warnings_shown > 0 }
        } else {
            WhatHappened::Error { exit_code }
        },
    }
}

/// What watch mode says after a build where no warning was shown.
pub fn finished_message(what_happened: &WhatHappened) -> (r: Option<&'static str>)
    ensures
        match *what_happened {
            WhatHappened::Nothing { warnings_printed: false, .. } => r == Some("Nothing to do"),
            WhatHappened::Success { warnings_printed: false } => r == Some("All good!"),
            _ => r is None,
        },
{
    match what_happened {
        WhatHappened::Nothing { warnings_printed: false, .. } => Some("Nothing to do"),
        WhatHappened::Success { warnings_printed: false } => Some("All good!"),
        _ => None,
    }
}

/// What `shlex::split` gives for a command: its words, as a POSIX shell
/// would split them, or nothing where the command is malformed.
pub uninterp spec fn shell_split(command: Seq<char>) -> Option<Seq<Seq<char>>>;

/// The views of some strings.
pub open spec fn string_views(v: Seq<String>) -> Seq<Seq<char>> {
    v.map_values(|s: String| s@)
}

/// Calls `shlex::split`; its result is named.
#[verifier::external_body]
fn shell_words(command: &str) -> (r: Option<Vec<String>>)
    ensures
        match r {
            Some(words) => shell_split(command@) == Some(string_views(words@)),
            None => shell_split(command@) is None,
        },
{
    shlex::split(command)
}

/// What a shell hook given with `--exec` runs.
pub enum ExecCommand {
    /// The program, with its arguments.
    Run { program: String, args: Vec<String> },
    /// There is nothing to run: the hook is skipped.
    Unknown,
}

/// The command of a hook whose words are `words`: the first word is the
/// program, the rest its arguments.
pub fn command_of_words(words: Vec<String>) -> (r: ExecCommand)
    ensures
        match r {
            ExecCommand::Unknown => words@.len() == 0,
            ExecCommand::Run { program, args } => words@.len() > 0 && program@ == words@[0]@ && string_views(args@)
                == string_views(words@).drop_first(),
        },
{
    if words.len() == 0 {
        return ExecCommand::Unknown;
    }
    let mut words = words;
    let ghost all = words@;
    let program = words.remove(0);
    proof {
        assert(string_views(words@) =~= string_views(all).drop_first());
    }
    ExecCommand::Run { program, args: words }
}

/// The command of a hook, split into words as a shell would; `None` where the
/// hook does not split.
pub fn exec_command(exec: &str) -> (r: Option<ExecCommand>)
    ensures
        match shell_split(exec@) {
            None => r is None,
            Some(words) => match r {
                Some(ExecCommand::Unknown) => words.len() == 0,
                Some(ExecCommand::Run { program, args }) => words.len() > 0 && program@ == words[0] && string_views(
                    args@,
                ) == words.drop_first(),
                None => false,
            },
        },
{
    match shell_words(exec) {
        Some(words) => Some(command_of_words(words)),
        None => None,
    }
}

/// How a hook's run ended.
pub enum ExecResult {
    /// It ran and exited, successfully or not.
    Exited { success: bool },
    /// It could not be started.
    Failed,
}

/// What follows a hook's run.
pub enum ExecNext {
    /// Run the next hook, if there is one.
    Continue,
    /// Stop: hooks run one after another while each succeeds. Where others
    /// were left, say that they will not run.
    Stop { others_left: bool },
}

/// What follows a hook's run, where `others_left` says whether more hooks
/// were given after it.
pub fn after_exec(result: ExecResult, others_left: bool) -> (r: ExecNext)
    ensures
        (result matches ExecResult::Exited { success: true }) ==> r is Continue,
        !(result matches ExecResult::Exited { success: true }) ==> r == (ExecNext::Stop { others_left }),
{
    match result {
        ExecResult::Exited { success: true } => ExecNext::Continue,
        _ => ExecNext::Stop { others_left },
    }
}

/// What happened to a watched file, as far as the watch mode cares.
#[derive(Clone, Copy, PartialEq, Eq, Structural)]
pub enum ChangeKind {
    /// Its contents changed.
    DataModified,
    /// It was created.
    Created,
    /// It was removed.
    Removed,
    /// Anything else: access, metadata, renames.
    Other,
}

/// A file system event: what happened, and the extensions of the paths it
/// concerns (of those that have one).
pub struct FileEvent {
    pub kind: ChangeKind,
    pub extensions: Vec<String>,
}

/// One of the extensions is `ext`.
pub open spec fn has_extension(extensions: Seq<String>, ext: Seq<char>) -> bool {
    exists|i: int| 0 <= i < extensions.len() && #[trigger] extensions[i]@ == ext
}

/// A new build is worth starting for the event: a file was written, created
/// or removed, and it is a ditto source file or the configuration.
pub open spec fn should_run(event: FileEvent) -> bool {
    &&& event.kind != ChangeKind::Other
    &&& (has_extension(event.extensions@, "toml"@) || has_extension(event.extensions@, "ditto"@))
}

/// Whether one of the extensions is `ext`.
fn any_extension(extensions: &Vec<String>, ext: &str) -> (r: bool)
    ensures
        r == has_extension(extensions@, ext@),
{
    let mut i: usize = 0;
    while i < extensions.len()
        invariant
            i <= extensions@.len(),
            forall|j: int| 0 <= j < i ==> extensions@[j]@ != ext@,
        decreases extensions@.len() - i,
    {
        let e = extensions[i].as_str();
        if e.unicode_len() == ext.unicode_len() && starts_with_exec(e, ext) {
            proof {
                assert(e@.subrange(0, ext@.len() as int) =~= e@);
                assert(extensions@[i as int]@ == ext@);
            }
            return true;
        }
        proof {
            if extensions@[i as int]@ == ext@ {
                assert(e@.subrange(0, ext@.len() as int) =~= e@);
            }
        }
        i = i + 1;
    }
    false
}

/// Whether a new build is worth starting for the event.
pub fn should_run_for_event(event: &FileEvent) -> (r: bool)
    ensures
        r == should_run(*event),
{
    if event.kind == ChangeKind::Other {
        return false;
    }
    any_extension(&event.extensions, "toml") || any_extension(&event.extensions, "ditto")
}

/// The state of watch mode: whether a build is running. Events that come
/// while one runs are let go.
#[derive(Clone, Copy, PartialEq, Eq, Structural)]
pub struct WatchState {
    pub run_in_progress: bool,
}

/// What comes to watch mode.
pub enum WatchInput {
    /// The build that was running is done.
    RunDone,
    /// A watched file changed.
    Changed(FileEvent),
    /// The watcher reported an error.
    WatcherError,
    /// The configuration, to be read again before a build, could not be read.
    ConfigUnreadable,
}

/// What watch mode does next.
#[derive(PartialEq, Eq, Structural)]
pub enum WatchAction {
    /// Nothing.
    Wait,
    /// Start a build; read the configuration again first where
    /// `reload_config`, and bring the packages up to date where
    /// `install_packages`.
    Run { reload_config: bool, install_packages: bool },
}

/// Watch mode starts with a build that brings the packages up to date.
pub fn watch_start() -> (r: (WatchState, WatchAction))
    ensures
        r.0.run_in_progress,
        r.1 == (WatchAction::Run { reload_config: false, install_packages: true }),
{
    (WatchState { run_in_progress: true }, WatchAction::Run { reload_config: false, install_packages: true })
}

/// The next state of watch mode and what it does, on an input. A change that
/// comes while no build runs starts one where [should_run] holds of it; a
/// change to the configuration has it read again and the packages brought up
/// to date. A build that cannot start, for the configuration could not be
/// read, leaves none running.
pub open spec fn watch_next(state: WatchState, input: WatchInput) -> (WatchState, WatchAction) {
    match input {
        WatchInput::RunDone => (WatchState { run_in_progress: false }, WatchAction::Wait),
        WatchInput::Changed(event) => if !state.run_in_progress && should_run(event) {
            (
                WatchState { run_in_progress: true },
                WatchAction::Run {
                    reload_config: has_extension(event.extensions@, "toml"@),
                    install_packages: has_extension(event.extensions@, "toml"@),
                },
            )
        } else {
            (state, WatchAction::Wait)
        },
        WatchInput::WatcherError => (state, WatchAction::Wait),
        WatchInput::ConfigUnreadable => (WatchState { run_in_progress: false }, WatchAction::Wait),
    }
}

/// The next state of watch mode and what it does, on an input.
pub fn watch_step(state: WatchState, input: WatchInput) -> (r: (WatchState, WatchAction))
    ensures
        r == watch_next(state, input),
{
    match input {
        WatchInput::RunDone => (WatchState { run_in_progress: false }, WatchAction::Wait),
        WatchInput::Changed(event) => {
            if !state.run_in_progress && should_run_for_event(&event) {
                let config_changed = any_extension(&event.extensions, "toml");
                (
                    WatchState { run_in_progress: true },
                    WatchAction::Run { reload_config: config_changed, install_packages: config_changed },
                )
            } else {
                (state, WatchAction::Wait)
            }
        },
        WatchInput::WatcherError => (state, WatchAction::Wait),
        WatchInput::ConfigUnreadable => (WatchState { run_in_progress: false }, WatchAction::Wait),
    }
}

/// While a build runs, no input starts another: watch mode waits.
pub proof fn no_second_build_while_one_runs(state: WatchState, input: WatchInput)
    requires
        state.run_in_progress,
    ensures
        watch_next(state, input).1 == WatchAction::Wait,
{
}

/// A build starts only from a state where none runs, and leaves one running.
pub proof fn a_started_build_is_running(state: WatchState, input: WatchInput)
    requires
        watch_next(state, input).1 is Run,
    ensures
        !state.run_in_progress,
        watch_next(state, input).0.run_in_progress,
{
}

} // verus!
