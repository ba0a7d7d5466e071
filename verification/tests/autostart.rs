use fxtrumpet::autostart::{
    apply, expected_command, is_disabled_marker, is_enabled, points_at_this_executable, reconcile,
    registered_command, set_enabled, state, EntryStep, RawValue, Reconcile, ReconcilePlan,
    RegistryReply, StartupState, REG_BINARY, REG_SZ,
};

#[test]
fn the_disabled_bit_is_the_low_bit_of_the_first_byte() {
    // 0x02/0x06 are what Windows writes for an enabled entry.
    assert!(!is_disabled_marker(&[0x02, 0, 0, 0, 0, 0, 0, 0, 0, 0, 0, 0]));
    assert!(!is_disabled_marker(&[0x06, 0, 0, 0, 0, 0, 0, 0, 0, 0, 0, 0]));
    // ... and 0x03/0x07 for one the user switched off.
    assert!(is_disabled_marker(&[0x03, 0, 0, 0, 1, 2, 3, 4, 5, 6, 7, 8]));
    assert!(is_disabled_marker(&[0x07, 0, 0, 0, 1, 2, 3, 4, 5, 6, 7, 8]));
}

#[test]
fn a_truncated_or_missing_blob_is_not_treated_as_disabled() {
    assert!(!is_disabled_marker(&[]));
}

#[test]
fn effective_is_registered_and_not_switched_off() {
    let cases = [
        (StartupState { registered: false, disabled_by_user: false }, false),
        (StartupState { registered: false, disabled_by_user: true }, false),
        (StartupState { registered: true, disabled_by_user: false }, true),
        (StartupState { registered: true, disabled_by_user: true }, false),
    ];
    for (state, wanted) in cases {
        assert_eq!(state.effective(), wanted, "{state:?}");
    }
}

#[test]
fn the_expected_command_quotes_the_path() {
    let command = expected_command(&Ok(r"C:\Program Files\FxTrumpet\fxtrumpet.exe".to_owned()))
        .expect("a path is there");
    assert!(command.starts_with('"'), "{command}");
    assert!(command.ends_with("\" --tray"), "{command}");
    assert_eq!(command, "\"C:\\Program Files\\FxTrumpet\\fxtrumpet.exe\" --tray");
}

#[test]
fn an_unknown_executable_is_an_error() {
    assert_eq!(
        expected_command(&Err("gone".to_owned())),
        Err("could not determine the executable path: gone".to_owned())
    );
}

fn text_value(text: &str) -> Option<RawValue> {
    let mut bytes = Vec::new();
    for unit in text.encode_utf16().chain([0u16]) {
        bytes.extend_from_slice(&unit.to_le_bytes());
    }
    Some(RawValue { kind: REG_SZ, bytes })
}

#[test]
fn a_registered_command_is_read_without_its_terminator() {
    assert_eq!(registered_command(&text_value("\"a.exe\" --tray")), Some("\"a.exe\" --tray".to_owned()));
    assert_eq!(registered_command(&text_value("\u{1f600}音乐")), Some("\u{1f600}音乐".to_owned()));
    assert_eq!(registered_command(&None), None);
    assert_eq!(registered_command(&Some(RawValue { kind: REG_BINARY, bytes: vec![1, 0] })), None);
    // An unpaired surrogate is shown as the replacement character, and an odd
    // byte at the end is dropped.
    assert_eq!(
        registered_command(&Some(RawValue { kind: REG_SZ, bytes: vec![0x41, 0, 0x00, 0xd8, 0x42, 0, 7] })),
        Some("A\u{fffd}B".to_owned())
    );
}

#[test]
fn an_orphaned_marker_does_not_count() {
    let marker = Some(RawValue { kind: REG_BINARY, bytes: vec![3; 12] });
    let run = text_value("x");
    assert_eq!(state(&None, &marker), StartupState { registered: false, disabled_by_user: false });
    assert_eq!(state(&run, &marker), StartupState { registered: true, disabled_by_user: true });
    assert_eq!(state(&run, &None), StartupState { registered: true, disabled_by_user: false });
    assert!(is_enabled(&run, &None));
    assert!(!is_enabled(&run, &marker));
    assert!(apply(&run, &None));
    assert!(!apply(&None, &None));
}

#[test]
fn an_entry_is_compared_without_regard_to_case_and_space() {
    let exe = Ok(r"C:\A\x.exe".to_owned());
    assert!(points_at_this_executable(&Some(" \"c:\\a\\X.EXE\" --TRAY \r\n".to_owned()), &exe));
    assert!(!points_at_this_executable(&Some("\"C:\\B\\x.exe\" --tray".to_owned()), &exe));
    assert!(!points_at_this_executable(&None, &exe));
    // With nothing to compare with, what is there is left alone.
    assert!(points_at_this_executable(&None, &Err("?".to_owned())));
}

#[test]
fn registering_writes_and_then_clears_the_marker() {
    let exe = Ok("x.exe".to_owned());
    let mut replies = Vec::new();
    let EntryStep::WriteRun(bytes) = set_enabled(true, &exe, &replies) else { panic!() };
    let read = registered_command(&Some(RawValue { kind: REG_SZ, bytes }));
    assert_eq!(read.as_deref(), Some("\"x.exe\" --tray"));
    replies.push(RegistryReply { open: 0, change: 0 });
    assert_eq!(set_enabled(true, &exe, &replies), EntryStep::ClearMarker);
    replies.push(RegistryReply { open: 2, change: 9 });
    assert_eq!(set_enabled(true, &exe, &replies), EntryStep::Done);
    replies[1] = RegistryReply { open: 0, change: 2 };
    assert_eq!(set_enabled(true, &exe, &replies), EntryStep::Done);
    replies[1] = RegistryReply { open: 0, change: 5 };
    assert_eq!(
        set_enabled(true, &exe, &replies),
        EntryStep::Failed("could not clear the startup-tab state (WIN32_ERROR(5))".to_owned())
    );
}

#[test]
fn registry_refusals_are_reported() {
    let exe = Ok("x.exe".to_owned());
    assert_eq!(
        set_enabled(true, &exe, &vec![RegistryReply { open: 5, change: 0 }]),
        EntryStep::Failed(
            "could not open HKCU\\Software\\Microsoft\\Windows\\CurrentVersion\\Run (WIN32_ERROR(5))"
                .to_owned()
        )
    );
    assert_eq!(
        set_enabled(true, &exe, &vec![RegistryReply { open: 0, change: 5 }]),
        EntryStep::Failed("RegSetValueExW failed with WIN32_ERROR(5)".to_owned())
    );
    assert_eq!(set_enabled(false, &exe, &Vec::new()), EntryStep::RemoveRun);
    assert_eq!(
        set_enabled(false, &exe, &vec![RegistryReply { open: 0, change: 2 }]),
        EntryStep::Done
    );
    assert_eq!(
        set_enabled(false, &exe, &vec![RegistryReply { open: 0, change: 1234 }]),
        EntryStep::Failed("RegDeleteValueW failed with WIN32_ERROR(1234)".to_owned())
    );
    assert_eq!(
        set_enabled(true, &Err("e".to_owned()), &Vec::new()),
        EntryStep::Failed("could not determine the executable path: e".to_owned())
    );
}

#[test]
fn reconciling_never_fights_the_user() {
    let plan = |desired, registered, disabled, here| {
        reconcile(desired, StartupState { registered, disabled_by_user: disabled }, here)
    };
    let is = |change, outcome| ReconcilePlan { change, outcome };
    assert_eq!(plan(true, true, false, true), is(None, Reconcile::AlreadyEnabled));
    assert_eq!(plan(true, true, false, false), is(Some(true), Reconcile::Repaired));
    assert_eq!(plan(true, false, false, false), is(Some(true), Reconcile::Enabled));
    assert_eq!(plan(true, true, true, false), is(None, Reconcile::DisabledByUser));
    assert_eq!(plan(false, false, false, true), is(None, Reconcile::AlreadyDisabled));
    assert_eq!(plan(false, true, true, true), is(None, Reconcile::AlreadyDisabled));
    assert_eq!(plan(false, true, false, true), is(Some(false), Reconcile::Disabled));
}
