//! Run-at-logon registration.
//!
//! A `Run` value says that the entry exists. Task Manager's Startup tab stores
//! its on/off state separately, and Windows will not launch an entry that the
//! user turned off there. Both decide whether the application will start.

use crate::text::{
    ascii_lower, chars_of, decimal, decimals_read_back, eq_ignoring_case, lower_char, opt_text,
    same_ignoring_case, string_of, to_decimal, trim, trim_end_of, trimmed, trimmed_end_of,
    trimmed_text_stays,
};
use crate::wide::{
    bytes_to_units, from_utf16_lossy, le_bytes, le_bytes_round_trip, le_units, to_wide,
    units_to_bytes, utf16, utf16_round_trips, utf16_text,
};
use vstd::prelude::*;
use vstd::string::*;

verus! {

/// Registry value name. Also what appears in Task Manager's Startup list.
pub const VALUE_NAME: &'static str = "FxTrumpet";

/// Key holding the per-user startup entries.
pub const RUN_KEY: &'static str = "Software\\Microsoft\\Windows\\CurrentVersion\\Run";

/// Key holding Task Manager's per-entry on/off state.
pub const APPROVED_KEY: &'static str =
    "Software\\Microsoft\\Windows\\CurrentVersion\\Explorer\\StartupApproved\\Run";

/// The type of a text value.
pub const REG_SZ: u32 = 1;

/// The type of a binary value.
pub const REG_BINARY: u32 = 3;

pub const ERROR_SUCCESS: u32 = 0;

pub const ERROR_FILE_NOT_FOUND: u32 = 2;

/// What the registry says about our startup entry.
#[derive(Debug, Clone, Copy, PartialEq, Eq, Structural)]
pub struct StartupState {
    /// A `Run` value exists for us.
    pub registered: bool,
    /// The user switched the entry off in Task Manager's Startup tab.
    pub disabled_by_user: bool,
}

impl StartupState {
    /// Whether Windows will actually launch the application at logon.
    pub fn effective(&self) -> (r: bool)
        ensures
            r == will_start(*self),
    {
        self.registered && !self.disabled_by_user
    }
}

pub open spec fn will_start(state: StartupState) -> bool {
    state.registered && !state.disabled_by_user
}

/// A registry value: its type and its bytes.
#[derive(Debug)]
pub struct RawValue {
    pub kind: u32,
    pub bytes: Vec<u8>,
}

/// The text of a `REG_SZ` value, without the terminators behind it.
pub open spec fn string_value(value: Option<RawValue>) -> Option<Seq<char>> {
    match value {
        Some(v) => if v.kind == 1 {
            Some(trim_end_of(utf16_text(le_units(v.bytes@)), '\0'))
        } else {
            None
        },
        None => None,
    }
}

/// Whether a startup blob says "disabled": bit 0 of its first byte.
pub open spec fn disabled_marker(data: Seq<u8>) -> bool {
    data.len() > 0 && data[0] % 2 == 1
}

/// What two registry values say of the entry. A marker left behind by an entry
/// that no longer exists does not count.
pub open spec fn startup_state(run: Option<RawValue>, approved: Option<RawValue>) -> StartupState {
    let registered = string_value(run) is Some;
    StartupState {
        registered,
        disabled_by_user: registered && approved is Some && approved->0.kind == 3
            && disabled_marker(approved->0.bytes@),
    }
}

/// Interprets Task Manager's startup blob.
///
/// It is twelve bytes: a flags byte followed by the time at which the state
/// last changed. Bit 0 of the flags byte is the disabled bit.
pub fn is_disabled_marker(data: &[u8]) -> (r: bool)
    ensures
        r == disabled_marker(data@),
{
    data.len() > 0 && data[0] % 2 == 1
}

/// The registered command line, if any.
pub fn registered_command(run: &Option<RawValue>) -> (r: Option<String>)
    ensures
        opt_text(r) == string_value(*run),
{
    match run {
        Some(value) => {
            if value.kind != REG_SZ {
                return None;
            }
            let units = bytes_to_units(value.bytes.as_slice());
            let text = from_utf16_lossy(units.as_slice());
            let chars = chars_of(text.as_str());
            Some(string_of(trimmed_end_of(chars.as_slice(), '\0')))
        },
        None => None,
    }
}

/// Reads the entry's state from both registry locations.
pub fn state(run: &Option<RawValue>, approved: &Option<RawValue>) -> (r: StartupState)
    ensures
        r == startup_state(*run, *approved),
{
    let registered: bool = registered_command(run).is_some();
    let disabled: bool = match approved {
        Some(value) => value.kind == REG_BINARY && is_disabled_marker(value.bytes.as_slice()),
        None => false,
    };
    StartupState { registered, disabled_by_user: registered && disabled }
}

/// Whether the application would start at logon.
pub fn is_enabled(run: &Option<RawValue>, approved: &Option<RawValue>) -> (r: bool)
    ensures
        r == will_start(startup_state(*run, *approved)),
{
    state(run, approved).effective()
}

/// The command line for an executable: its path in quotes, so that a space in
/// it does not end it.
pub open spec fn command_text(exe: Seq<char>) -> Seq<char> {
    "\""@ + exe + "\" --tray"@
}

/// The command line we would register for the running executable.
pub fn expected_command(exe: &Result<String, String>) -> (r: Result<String, String>)
    ensures
        (match (*exe, r) {
            (Ok(path), Ok(command)) => command@ == command_text(path@),
            (Err(reason), Err(message)) => message@
                == "could not determine the executable path: "@ + reason@,
            _ => false,
        }),
{
    match exe {
        Ok(path) => {
            let mut out: String = "\"".to_owned();
            out.append(path.as_str());
            out.append("\" --tray");
            Ok(out)
        },
        Err(reason) => {
            let mut out: String = "could not determine the executable path: ".to_owned();
            out.append(reason.as_str());
            Err(out)
        },
    }
}

/// Whether a registered entry points at the executable with this path. With
/// no path to compare with, what is there is left alone.
pub open spec fn points_here(registered: Option<Seq<char>>, exe: Option<Seq<char>>) -> bool {
    match exe {
        Some(path) => registered is Some && same_ignoring_case(
            trim(registered->0),
            command_text(path),
        ),
        None => true,
    }
}

pub open spec fn ok_text(exe: Result<String, String>) -> Option<Seq<char>> {
    match exe {
        Ok(path) => Some(path@),
        Err(_) => None,
    }
}

/// Whether the registered entry still points at this copy of the application.
pub fn points_at_this_executable(registered: &Option<String>, exe: &Result<String, String>) -> (r:
    bool)
    ensures
        r == points_here(opt_text(*registered), ok_text(*exe)),
{
    match expected_command(exe) {
        Ok(expected) => match registered {
            Some(command) => {
                let chars = chars_of(command.as_str());
                let wanted = chars_of(expected.as_str());
                eq_ignoring_case(trimmed(chars.as_slice()), wanted.as_slice())
            },
            None => false,
        },
        Err(_) => true,
    }
}

/// What the system answered to one change of the registry: the code of opening
/// the key, and that of the change itself.
#[derive(Debug, Clone, Copy, PartialEq, Eq, Structural)]
pub struct RegistryReply {
    pub open: u32,
    pub change: u32,
}

/// What to do next while registering or unregistering.
#[derive(Debug, PartialEq, Eq)]
pub enum EntryStep {
    /// Write the `Run` value with these bytes.
    WriteRun(Vec<u8>),
    /// Remove the `Run` value.
    RemoveRun,
    /// Remove Task Manager's on/off state.
    ClearMarker,
    /// All done.
    Done,
    /// Given up, for this reason.
    Failed(String),
}

/// How the system's error codes are shown.
pub open spec fn error_text(code: u32) -> Seq<char> {
    "WIN32_ERROR("@ + decimal(code as nat) + ")"@
}

/// The message for a key that could not be opened.
pub open spec fn open_error(key: Seq<char>, code: u32) -> Seq<char> {
    "could not open HKCU\\"@ + key + " ("@ + error_text(code) + ")"@
}

fn show_error(code: u32) -> (r: String)
    ensures
        r@ == error_text(code),
{
    let mut out: String = "WIN32_ERROR(".to_owned();
    let number = to_decimal(code as u64);
    out.append(number.as_str());
    out.append(")");
    out
}

fn show_open_error(key: &str, code: u32) -> (r: String)
    ensures
        r@ == open_error(key@, code),
{
    let mut out: String = "could not open HKCU\\".to_owned();
    out.append(key);
    out.append(" (");
    let shown = show_error(code);
    out.append(shown.as_str());
    out.append(")");
    out
}

/// The bytes of the `Run` value for a command: NUL-terminated UTF-16.
pub open spec fn run_value_bytes(command: Seq<char>) -> Seq<u8> {
    le_bytes(utf16(command).push(0))
}

/// Whether `step` is the right one after the replies so far.
///
/// Unregistering removes the `Run` value. Registering rewrites it, and then
/// clears the marker that would keep Windows from launching it.
pub open spec fn entry_step(
    enabled: bool,
    exe: Result<String, String>,
    replies: Seq<RegistryReply>,
    step: EntryStep,
) -> bool {
    if !enabled {
        if replies.len() == 0 {
            step is RemoveRun
        } else if replies[0].open != 0 {
            step is Failed && step->Failed_0@ == open_error(RUN_KEY@, replies[0].open)
        } else if replies[0].change == 0 || replies[0].change == 2 {
            step is Done
        } else {
            step is Failed && step->Failed_0@ == "RegDeleteValueW failed with "@ + error_text(
                replies[0].change,
            )
        }
    } else {
        match exe {
            Err(reason) => step is Failed && step->Failed_0@
                == "could not determine the executable path: "@ + reason@,
            Ok(path) => if replies.len() == 0 {
                step is WriteRun && step->WriteRun_0@ == run_value_bytes(command_text(path@))
            } else if replies[0].open != 0 {
                step is Failed && step->Failed_0@ == open_error(RUN_KEY@, replies[0].open)
            } else if replies[0].change != 0 {
                step is Failed && step->Failed_0@ == "RegSetValueExW failed with "@ + error_text(
                    replies[0].change,
                )
            } else if replies.len() == 1 {
                step is ClearMarker
            } else if replies[1].open != 0 || replies[1].change == 0 || replies[1].change == 2 {
                step is Done
            } else {
                step is Failed && step->Failed_0@ == "could not clear the startup-tab state ("@
                    + error_text(replies[1].change) + ")"@
            },
        }
    }
}

/// Registers or unregisters the current executable, one registry change after
/// another.
///
/// `replies` holds what the system answered to the changes made so far.
pub fn set_enabled(
    enabled: bool,
    exe: &Result<String, String>,
    replies: &Vec<RegistryReply>,
) -> (r: EntryStep)
    ensures
        entry_step(enabled, *exe, replies@, r),
{
    if !enabled {
        if replies.len() == 0 {
            return EntryStep::RemoveRun;
        }
        if replies[0].open != ERROR_SUCCESS {
            return EntryStep::Failed(show_open_error(RUN_KEY, replies[0].open));
        }
        if replies[0].change == ERROR_SUCCESS || replies[0].change == ERROR_FILE_NOT_FOUND {
            return EntryStep::Done;
        }
        let mut message: String = "RegDeleteValueW failed with ".to_owned();
        let shown = show_error(replies[0].change);
        message.append(shown.as_str());
        return EntryStep::Failed(message);
    }
    match expected_command(exe) {
        Err(message) => EntryStep::Failed(message),
        Ok(command) => {
            if replies.len() == 0 {
                let units = to_wide(command.as_str());
                return EntryStep::WriteRun(units_to_bytes(units.as_slice()));
            }
            if replies[0].open != ERROR_SUCCESS {
                return EntryStep::Failed(show_open_error(RUN_KEY, replies[0].open));
            }
            if replies[0].change != ERROR_SUCCESS {
                let mut message: String = "RegSetValueExW failed with ".to_owned();
                let shown = show_error(replies[0].change);
                message.append(shown.as_str());
                return EntryStep::Failed(message);
            }
            if replies.len() == 1 {
                return EntryStep::ClearMarker;
            }
            if replies[1].open != ERROR_SUCCESS || replies[1].change == ERROR_SUCCESS
                || replies[1].change == ERROR_FILE_NOT_FOUND {
                return EntryStep::Done;
            }
            let mut message: String = "could not clear the startup-tab state (".to_owned();
            let shown = show_error(replies[1].change);
            message.append(shown.as_str());
            message.append(")");
            EntryStep::Failed(message)
        },
    }
}

/// The action [`reconcile`] took, for the log.
#[derive(Debug, Clone, Copy, PartialEq, Eq, Structural)]
pub enum Reconcile {
    /// Registered, pointed at this executable, and not disabled: nothing to do.
    AlreadyEnabled,
    /// The entry was created.
    Enabled,
    /// The entry pointed somewhere else (the install moved) and was rewritten.
    Repaired,
    /// The user disabled it in Task Manager. Left exactly as they left it.
    DisabledByUser,
    /// Not registered, and not wanted: nothing to do.
    AlreadyDisabled,
    /// The entry was removed.
    Disabled,
}

/// What reconciling comes to: the change to make, if any, and what it amounts
/// to once it is made.
#[derive(Debug, Clone, Copy, PartialEq, Eq, Structural)]
pub struct ReconcilePlan {
    pub change: Option<bool>,
    pub outcome: Reconcile,
}

pub open spec fn reconciled(desired: bool, current: StartupState, here: bool) -> ReconcilePlan {
    if current.registered && current.disabled_by_user {
        ReconcilePlan {
            change: None,
            outcome: if desired {
                Reconcile::DisabledByUser
            } else {
                Reconcile::AlreadyDisabled
            },
        }
    } else if desired {
        if !current.registered {
            ReconcilePlan { change: Some(true), outcome: Reconcile::Enabled }
        } else if here {
            ReconcilePlan { change: None, outcome: Reconcile::AlreadyEnabled }
        } else {
            ReconcilePlan { change: Some(true), outcome: Reconcile::Repaired }
        }
    } else if current.registered {
        ReconcilePlan { change: Some(false), outcome: Reconcile::Disabled }
    } else {
        ReconcilePlan { change: None, outcome: Reconcile::AlreadyDisabled }
    }
}

/// Brings the registry in line with `desired`, without ever fighting the user.
///
/// `points_here` tells whether the entry points at this executable. An entry
/// that the user switched off in Task Manager is an explicit decision: it wins
/// over `desired`, and the entry is not deleted either.
pub fn reconcile(desired: bool, current: StartupState, points_here: bool) -> (r: ReconcilePlan)
    ensures
        r == reconciled(desired, current, points_here),
{
    match (desired, current.registered, current.disabled_by_user) {
        (true, true, false) => if points_here {
            ReconcilePlan { change: None, outcome: Reconcile::AlreadyEnabled }
        } else {
            ReconcilePlan { change: Some(true), outcome: Reconcile::Repaired }
        },
        (true, false, _) => ReconcilePlan { change: Some(true), outcome: Reconcile::Enabled },
        (true, true, true) => ReconcilePlan { change: None, outcome: Reconcile::DisabledByUser },
        (false, false, _) => ReconcilePlan { change: None, outcome: Reconcile::AlreadyDisabled },
        (false, true, true) => ReconcilePlan { change: None, outcome: Reconcile::AlreadyDisabled },
        (false, true, false) => ReconcilePlan { change: Some(false), outcome: Reconcile::Disabled },
    }
}

/// Reports what is actually in force once the registry has been reconciled,
/// whether or not that worked: a policy that blocks the write leaves autostart
/// off.
pub fn apply(run_after: &Option<RawValue>, approved_after: &Option<RawValue>) -> (r: bool)
    ensures
        r == will_start(startup_state(*run_after, *approved_after)),
{
    is_enabled(run_after, approved_after)
}

/// The state of the entry once a plan has been carried out.
pub open spec fn changed_state(plan: ReconcilePlan, current: StartupState) -> StartupState {
    match plan.change {
        Some(on) => StartupState { registered: on, disabled_by_user: false },
        None => current,
    }
}

/// Reconciling settles: once the planned change is made, the same wish asks
/// for nothing more, and it is what Windows will do unless the user has
/// switched the entry off.
pub proof fn reconciling_settles(desired: bool, current: StartupState, here: bool)
    requires
        current.disabled_by_user ==> current.registered,
    ensures
        ({
            let plan = reconciled(desired, current, here);
            let after = changed_state(plan, current);
            &&& reconciled(desired, after, here || plan.change == Some(true)).change is None
            &&& current.disabled_by_user ==> after == current
            &&& !current.disabled_by_user ==> will_start(after) == desired
        }),
{
}

/// What was done is told as it was: an entry is created where there was none,
/// rewritten where it pointed elsewhere and removed where it is not wanted, and
/// otherwise nothing is changed.
pub proof fn the_outcome_tells_the_change(desired: bool, current: StartupState, here: bool)
    requires
        current.disabled_by_user ==> current.registered,
    ensures
        ({
            let plan = reconciled(desired, current, here);
            &&& plan.change == Some(true) <==> plan.outcome == Reconcile::Enabled || plan.outcome
                == Reconcile::Repaired
            &&& plan.change == Some(false) <==> plan.outcome == Reconcile::Disabled
            &&& plan.outcome == Reconcile::Enabled <==> desired && !current.registered
            &&& plan.outcome == Reconcile::Repaired <==> desired && will_start(current) && !here
            &&& plan.outcome == Reconcile::AlreadyEnabled <==> desired && will_start(current)
                && here
            &&& plan.outcome == Reconcile::Disabled <==> !desired && will_start(current)
            &&& plan.outcome == Reconcile::DisabledByUser <==> desired && current.disabled_by_user
        }),
{
}

/// An entry that the user switched off is never touched.
pub proof fn the_user_is_not_overruled(desired: bool, current: StartupState, here: bool)
    requires
        current.registered,
        current.disabled_by_user,
    ensures
        reconciled(desired, current, here).change is None,
{
}

/// What registering writes reads back as the expected command, and points at
/// this executable.
pub proof fn registration_reads_back(exe: Seq<char>, value: RawValue)
    requires
        value.kind == 1,
        value.bytes@ == run_value_bytes(command_text(exe)),
    ensures
        string_value(Some(value)) == Some(command_text(exe)),
        points_here(string_value(Some(value)), Some(exe)),
{
    let command = command_text(exe);
    let units = utf16(command).push(0);
    le_bytes_round_trip(units);
    let ended = command.push('\0');
    assert(utf16(ended) =~= units) by {
        assert(ended.drop_last() =~= command);
    }
    utf16_round_trips(ended);
    assert(ended.drop_last() =~= command);
    reveal_strlit("\" --tray");
    reveal_strlit("\"");
    assert(command[0] == '"');
    assert(command.last() == 'y');
    assert(trim_end_of(command, '\0') == command);
    assert(trim_end_of(ended, '\0') == command);
}

/// Only the lowest bit of the first byte switches an entry off: whatever else
/// stands there, an odd byte does and an even one does not.
pub proof fn an_odd_flag_switches_off(data: Seq<u8>, half: u8, rest: Seq<u8>)
    requires
        half < 128,
    ensures
        disabled_marker(seq![(2 * half + 1) as u8] + rest),
        !disabled_marker(seq![(2 * half) as u8] + rest),
        data.len() == 0 ==> !disabled_marker(data),
{
}

/// An entry counts as registered just where its value is a text, and as switched
/// off only while it is registered; the value's other types count for nothing.
pub proof fn a_leftover_marker_does_not_count(run: Option<RawValue>, approved: Option<RawValue>)
    ensures
        startup_state(run, approved).registered <==> run is Some && run->0.kind == REG_SZ,
        startup_state(run, approved).disabled_by_user ==> startup_state(run, approved).registered,
        approved is None ==> !startup_state(run, approved).disabled_by_user,
        approved is Some && approved->0.kind != REG_BINARY ==> !startup_state(
            run,
            approved,
        ).disabled_by_user,
        (approved is Some && approved->0.kind == REG_BINARY && startup_state(
            run,
            approved,
        ).registered) ==> startup_state(run, approved).disabled_by_user == disabled_marker(
            approved->0.bytes@,
        ),
{
}

proof fn lemma_same_around(head: Seq<char>, a: Seq<char>, b: Seq<char>, tail: Seq<char>)
    ensures
        same_ignoring_case(head + a + tail, head + b + tail) <==> same_ignoring_case(a, b),
{
    let x = head + a + tail;
    let y = head + b + tail;
    if same_ignoring_case(x, y) {
        assert(ascii_lower(x).len() == ascii_lower(y).len());
        assert forall|i: int| 0 <= i < a.len() implies lower_char(#[trigger] a[i]) == lower_char(
            b[i],
        ) by {
            assert(x[head.len() + i] == a[i]);
            assert(y[head.len() + i] == b[i]);
            assert(ascii_lower(x)[head.len() + i] == ascii_lower(y)[head.len() + i]);
        }
        assert(ascii_lower(a) =~= ascii_lower(b));
    }
    if same_ignoring_case(a, b) {
        assert(ascii_lower(a).len() == ascii_lower(b).len());
        assert forall|i: int| 0 <= i < x.len() implies ascii_lower(x)[i] == ascii_lower(y)[i] by {
            if head.len() <= i < head.len() + a.len() {
                let j = i - head.len();
                assert(x[i] == a[j] && y[i] == b[j]);
                assert(ascii_lower(a)[j] == ascii_lower(b)[j]);
            }
        }
        assert(ascii_lower(x) =~= ascii_lower(y));
    }
}

/// The entry that one executable registers points at another just where their
/// paths are the same, upper and lower case aside.
pub proof fn an_entry_points_at_its_executable(registered: Seq<char>, exe: Seq<char>)
    ensures
        points_here(Some(command_text(registered)), Some(exe)) <==> same_ignoring_case(
            registered,
            exe,
        ),
        !points_here(None, Some(exe)),
        points_here(Some(registered), None),
{
    let command = command_text(registered);
    reveal_strlit("\" --tray");
    reveal_strlit("\"");
    assert(command[0] == '"');
    assert(command.last() == 'y');
    trimmed_text_stays(command);
    lemma_same_around("\""@, registered, exe, "\" --tray"@);
}

/// Unregistering ends well just where the value was removed or was not there.
pub proof fn unregistering_ends_well(
    exe: Result<String, String>,
    reply: RegistryReply,
    step: EntryStep,
)
    requires
        entry_step(false, exe, seq![reply], step),
    ensures
        step is Done <==> reply.open == ERROR_SUCCESS && (reply.change == ERROR_SUCCESS
            || reply.change == ERROR_FILE_NOT_FOUND),
        !(step is Done) ==> step is Failed,
{
}

/// Registering writes the value first and clears the marker only once it is
/// written. It ends well just where both went well; a marker that is not there,
/// or whose key is not, is cleared already.
pub proof fn registering_ends_well(
    exe: String,
    write: RegistryReply,
    clear: RegistryReply,
    first: EntryStep,
    second: EntryStep,
    third: EntryStep,
)
    requires
        entry_step(true, Ok(exe), Seq::empty(), first),
        entry_step(true, Ok(exe), seq![write], second),
        entry_step(true, Ok(exe), seq![write, clear], third),
    ensures
        first is WriteRun,
        second is ClearMarker <==> write.open == ERROR_SUCCESS && write.change == ERROR_SUCCESS,
        !(second is ClearMarker) ==> second is Failed,
        third is Done <==> second is ClearMarker && (clear.open != ERROR_SUCCESS || clear.change
            == ERROR_SUCCESS || clear.change == ERROR_FILE_NOT_FOUND),
        !(third is Done) ==> third is Failed,
        // What is written reads back as the command for this executable.
        forall|value: RawValue|
            value.kind == REG_SZ && (#[trigger] value.bytes@) == first->WriteRun_0@
                ==> points_here(string_value(Some(value)), Some(exe@)),
{
    let writes = seq![write];
    let both = seq![write, clear];
    assert(writes[0] == write && both[0] == write && both[1] == clear);
    assert forall|value: RawValue|
        value.kind == REG_SZ && (#[trigger] value.bytes@) == first->WriteRun_0@ implies points_here(
        string_value(Some(value)),
        Some(exe@),
    ) by {
        registration_reads_back(exe@, value);
    }
}

/// The system's codes are told apart.
pub proof fn codes_are_told_apart(a: u32, b: u32)
    ensures
        a != b ==> error_text(a) != error_text(b),
{
    let x = error_text(a);
    let y = error_text(b);
    let n = "WIN32_ERROR("@.len() as int;
    let m = ")"@.len() as int;
    assert(x.subrange(n, x.len() - m) =~= decimal(a as nat));
    assert(y.subrange(n, y.len() - m) =~= decimal(b as nat));
    decimals_read_back(a as nat);
    decimals_read_back(b as nat);
}

} // verus!
