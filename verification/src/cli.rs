//! The command line: what the process was started for.

use crate::device::holds_id;
use crate::driver::{handle_elevated_arguments, has_argument, ElevatedTask};
use crate::text::{opt_str, same_text};
use vstd::prelude::*;
use vstd::string::*;

verus! {

/// Name of the single-instance mutex, scoped to the user's session.
pub const INSTANCE_MUTEX: &'static str = "Local\\FxTrumpet.SingleInstance";

/// Opens the tuning panel on startup instead of waiting for a tray click.
pub const ARG_PANEL: &'static str = "--panel";

/// Opens the mixer on startup instead of waiting for a tray click.
pub const ARG_MIXER: &'static str = "--mixer";

/// Hands the system's default output back to a real device, then exits.
pub const ARG_RESTORE_OUTPUT: &'static str = "--restore-output";

/// A window that is opened on startup.
#[derive(Debug, Clone, Copy, PartialEq, Eq, Structural)]
pub enum StartupWindow {
    Panel,
    Mixer,
}

/// What the process was started for.
#[derive(Debug, Clone, Copy, PartialEq, Eq, Structural)]
pub enum Invocation {
    /// An elevated helper that does its job and exits.
    Elevated(ElevatedTask),
    /// Hand the output back and exit.
    RestoreOutput,
    /// Run in the tray, and open a window if asked.
    Tray(Option<StartupWindow>),
}

/// What the arguments ask for. An elevated helper goes first, since it never
/// reaches the tray. Of the two windows the panel wins: there is one window at
/// a time.
pub open spec fn invocation_of(args: Seq<String>) -> Invocation {
    if has_argument(args, "--install-driver"@) {
        Invocation::Elevated(ElevatedTask::Install)
    } else if has_argument(args, "--remove-driver"@) {
        Invocation::Elevated(ElevatedTask::Remove)
    } else if has_argument(args, "--restore-output"@) {
        Invocation::RestoreOutput
    } else if has_argument(args, "--panel"@) {
        Invocation::Tray(Some(StartupWindow::Panel))
    } else if has_argument(args, "--mixer"@) {
        Invocation::Tray(Some(StartupWindow::Mixer))
    } else {
        Invocation::Tray(None)
    }
}

/// Reads the arguments.
pub fn invocation(args: &Vec<String>) -> (r: Invocation)
    ensures
        r == invocation_of(args@),
{
    if let Some(task) = handle_elevated_arguments(args) {
        return Invocation::Elevated(task);
    }
    if holds_id(args, ARG_RESTORE_OUTPUT) {
        return Invocation::RestoreOutput;
    }
    if holds_id(args, ARG_PANEL) {
        return Invocation::Tray(Some(StartupWindow::Panel));
    }
    if holds_id(args, ARG_MIXER) {
        return Invocation::Tray(Some(StartupWindow::Mixer));
    }
    Invocation::Tray(None)
}

/// Log verbosity.
#[derive(Debug, Clone, Copy, PartialEq, Eq, Structural)]
pub enum LogLevel {
    Off,
    Error,
    Warn,
    Info,
    Debug,
    Trace,
}

/// The verbosity that a word asks for. Anything else is the normal one.
pub open spec fn level_of(word: Option<Seq<char>>) -> LogLevel {
    if word == Some("off"@) {
        LogLevel::Off
    } else if word == Some("error"@) {
        LogLevel::Error
    } else if word == Some("warn"@) {
        LogLevel::Warn
    } else if word == Some("debug"@) {
        LogLevel::Debug
    } else if word == Some("trace"@) {
        LogLevel::Trace
    } else {
        LogLevel::Info
    }
}

/// Reads the verbosity.
pub fn log_level(word: Option<&str>) -> (r: LogLevel)
    ensures
        r == level_of(opt_str(word)),
{
    proof {
        reveal_strlit("off");
        reveal_strlit("error");
        reveal_strlit("warn");
        reveal_strlit("debug");
        reveal_strlit("trace");
    }
    match word {
        Some(w) => {
            if same_text(w, "off") {
                LogLevel::Off
            } else if same_text(w, "error") {
                LogLevel::Error
            } else if same_text(w, "warn") {
                LogLevel::Warn
            } else if same_text(w, "debug") {
                LogLevel::Debug
            } else if same_text(w, "trace") {
                LogLevel::Trace
            } else {
                LogLevel::Info
            }
        },
        None => LogLevel::Info,
    }
}

/// The value of a `--flag value` pair: what stands behind the first occurrence
/// of the flag.
pub open spec fn flag_value(args: Seq<String>, name: Seq<char>) -> Option<Seq<char>>
    decreases args.len(),
{
    if args.len() == 0 {
        None
    } else if args[0]@ == name {
        if args.len() > 1 {
            Some(args[1]@)
        } else {
            None
        }
    } else {
        flag_value(args.drop_first(), name)
    }
}

/// Reads the value of a `--flag value` pair, if present.
pub fn flag(args: &Vec<String>, name: &str) -> (r: Option<String>)
    ensures
        crate::text::opt_text(r) == flag_value(args@, name@),
{
    let mut i: usize = 0;
    assert(args@.skip(0) =~= args@);
    while i < args.len()
        invariant
            i <= args@.len(),
            flag_value(args@, name@) == flag_value(args@.skip(i as int), name@),
        decreases args@.len() - i,
    {
        if same_text(args[i].as_str(), name) {
            if args.len() - i > 1 {
                return Some(args[i + 1].clone());
            }
            return None;
        }
        assert(args@.skip(i as int).drop_first() =~= args@.skip(i + 1));
        i = i + 1;
    }
    None
}

/// Whether a bare switch was given. Separate from [`flag`], which answers
/// `None` for a switch that takes no value.
pub fn has_flag(args: &Vec<String>, name: &str) -> (r: bool)
    ensures
        r == has_argument(args@, name@),
{
    holds_id(args, name)
}

// ---------------------------------------------------------------------------
// What holds of every command line
// ---------------------------------------------------------------------------

/// What a process is started for depends on which arguments there are, and not
/// on their order, how often they stand there, or what stands between them.
pub proof fn the_order_of_arguments_does_not_matter(a: Seq<String>, b: Seq<String>)
    requires
        forall|word: Seq<char>| #[trigger] has_argument(a, word) == has_argument(b, word),
    ensures
        invocation_of(a) == invocation_of(b),
{
}

/// A helper is one because it was asked to install or to remove; handing the
/// output back comes before any window; and a window is opened only when it was
/// asked for.
pub proof fn a_process_does_what_it_was_asked(args: Seq<String>)
    ensures
        invocation_of(args) is Elevated <==> has_argument(args, "--install-driver"@)
            || has_argument(args, "--remove-driver"@),
        has_argument(args, "--install-driver"@) ==> invocation_of(args) == Invocation::Elevated(
            ElevatedTask::Install,
        ),
        invocation_of(args) == Invocation::Elevated(ElevatedTask::Remove) ==> has_argument(
            args,
            "--remove-driver"@,
        ),
        invocation_of(args) is RestoreOutput ==> has_argument(args, ARG_RESTORE_OUTPUT@),
        has_argument(args, ARG_RESTORE_OUTPUT@) ==> !(invocation_of(args) is Tray),
        invocation_of(args) == Invocation::Tray(Some(StartupWindow::Panel)) ==> has_argument(
            args,
            ARG_PANEL@,
        ),
        invocation_of(args) == Invocation::Tray(Some(StartupWindow::Mixer)) ==> has_argument(
            args,
            ARG_MIXER@,
        ) && !has_argument(args, ARG_PANEL@),
        invocation_of(args) == Invocation::Tray(None) ==> !has_argument(args, ARG_PANEL@)
            && !has_argument(args, ARG_MIXER@),
{
}

/// Each of the words for a verbosity asks for its own; anything else, and no
/// word at all, for the normal one.
pub proof fn each_level_has_its_word(word: Seq<char>)
    ensures
        level_of(Some(word)) == LogLevel::Off <==> word == "off"@,
        level_of(Some(word)) == LogLevel::Error <==> word == "error"@,
        level_of(Some(word)) == LogLevel::Warn <==> word == "warn"@,
        level_of(Some(word)) == LogLevel::Debug <==> word == "debug"@,
        level_of(Some(word)) == LogLevel::Trace <==> word == "trace"@,
        level_of(None) == LogLevel::Info,
{
    reveal_strlit("off");
    reveal_strlit("error");
    reveal_strlit("warn");
    reveal_strlit("debug");
    reveal_strlit("trace");
    assert("off"@[0] == 'o' && "error"@[0] == 'e' && "warn"@[0] == 'w' && "debug"@[0] == 'd'
        && "trace"@[0] == 't');
}

/// The value of a flag is what stands behind its first occurrence; one that
/// stands last has none, and neither has one that is not there.
pub proof fn a_flag_has_what_stands_behind_it(
    front: Seq<String>,
    flag: String,
    rest: Seq<String>,
    name: Seq<char>,
)
    requires
        flag@ == name,
        forall|i: int| 0 <= i < front.len() ==> (#[trigger] front[i])@ != name,
    ensures
        flag_value(front, name) is None,
        flag_value(front + seq![flag] + rest, name) == (if rest.len() > 0 {
            Some(rest[0]@)
        } else {
            None
        }),
    decreases front.len(),
{
    let args = front + seq![flag] + rest;
    if front.len() > 0 {
        assert(args[0] == front[0]);
        assert(args.drop_first() =~= front.drop_first() + seq![flag] + rest);
        a_flag_has_what_stands_behind_it(front.drop_first(), flag, rest, name);
    } else {
        assert(args[0] == flag);
        if rest.len() > 0 {
            assert(args[1] == rest[0]);
        }
    }
}

} // verus!
