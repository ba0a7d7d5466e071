use fxtrumpet::process::AppKey;
use fxtrumpet::session::{
    all_sessions, mixer_rows, read_session, sessions_on, set_mute, set_volume, with_session,
    RawSession, Session, SessionState, AUDIO_SESSION_STATE_ACTIVE, AUDIO_SESSION_STATE_EXPIRED,
    E_SESSION_NOT_FOUND,
};

#[test]
fn session_state_narrowing_maps_all_three_values() {
    assert_eq!(SessionState::from_raw(AUDIO_SESSION_STATE_ACTIVE), SessionState::Active);
    assert_eq!(SessionState::from_raw(AUDIO_SESSION_STATE_EXPIRED), SessionState::Expired);
    // `Inactive` is the zero value, so it is also the fallback for anything
    // the API grows later.
    assert_eq!(SessionState::from_raw(i32::default()), SessionState::Inactive);
    assert_eq!(SessionState::from_raw(17), SessionState::Inactive);
}

#[test]
fn expired_sessions_are_not_visible() {
    let base = Session {
        device_id: "d".into(),
        instance_id: "i".into(),
        display_id: "i".into(),
        process_id: 1,
        is_system_sounds: false,
        state: SessionState::Inactive,
        volume: 1.0f32.to_bits(),
        muted: false,
        peak: 0.0f32.to_bits(),
    };
    assert!(base.is_visible(), "an inactive app must still be adjustable");
    assert!(!Session { state: SessionState::Expired, ..base }.is_visible());
}

fn raw(id: Option<&str>, state: i32) -> RawSession {
    RawSession {
        state: Some(state),
        has_volume: true,
        instance_id: id.map(str::to_owned),
        display_id: None,
        system_sounds: 1,
        process_id: None,
        peak: None,
        volume: None,
        muted: None,
    }
}

#[test]
fn readings_that_fail_have_defaults() {
    let s = read_session(&raw(Some("i"), 1), "d").expect("a row");
    assert_eq!(s.device_id, "d");
    assert_eq!(s.display_id, "i");
    assert_eq!(s.process_id, 0);
    assert_eq!(f32::from_bits(s.volume), 1.0);
    assert_eq!(f32::from_bits(s.peak), 0.0);
    assert!(!s.muted && !s.is_system_sounds);
    let mut sounds = raw(Some("i"), 0);
    sounds.system_sounds = 0;
    sounds.muted = Some(true);
    let s = read_session(&sounds, "d").expect("a row");
    assert!(s.is_system_sounds && s.muted);
    assert!(read_session(&raw(Some("i"), 2), "d").is_none());
    assert!(read_session(&raw(None, 1), "d").is_none());
    let mut mute = raw(Some("i"), 1);
    mute.has_volume = false;
    assert!(read_session(&mute, "d").is_none());
    let mut stateless = raw(Some("i"), 1);
    stateless.state = None;
    assert!(read_session(&stateless, "d").is_none());
}

#[test]
fn sessions_are_listed_per_endpoint() {
    let a = sessions_on("a", &vec![raw(Some("1"), 1), raw(Some("2"), 2), raw(Some("3"), 0)]);
    let b = sessions_on("b", &vec![raw(Some("4"), 0)]);
    let all = all_sessions(vec![a, Vec::new(), b]);
    let ids: Vec<(&str, &str)> =
        all.iter().map(|s| (s.device_id.as_str(), s.instance_id.as_str())).collect();
    assert_eq!(ids, vec![("a", "1"), ("a", "3"), ("b", "4")]);
}

#[test]
fn a_session_that_is_gone_is_reported() {
    assert_eq!(E_SESSION_NOT_FOUND, 0x8007_0490u32 as i32);
    let ids = vec![None, Some("x".to_owned()), Some("y".to_owned()), Some("y".to_owned())];
    assert_eq!(with_session(&ids, "y"), Ok(2));
    assert_eq!(with_session(&ids, "z"), Err(E_SESSION_NOT_FOUND));
    assert_eq!(set_volume(&ids, "x", 1.5f32.to_bits()), Ok((1, 1.0f32.to_bits())));
    assert_eq!(set_volume(&ids, "x", (-0.5f32).to_bits()), Ok((1, 0)));
    assert_eq!(set_volume(&ids, "z", 0), Err(E_SESSION_NOT_FOUND));
    assert_eq!(set_mute(&ids, "y", true), Ok((2, true)));
    assert_eq!(set_mute(&ids, "", true), Err(E_SESSION_NOT_FOUND));
}

#[test]
fn the_mixer_has_one_row_for_each_application() {
    let stream = |state, is_system_sounds| Session {
        device_id: "d".into(),
        instance_id: "i".into(),
        display_id: "i".into(),
        process_id: 1,
        is_system_sounds,
        state,
        volume: 1.0f32.to_bits(),
        muted: false,
        peak: 0.0f32.to_bits(),
    };
    let app = |path: &str| Some(AppKey::Executable(path.to_owned()));
    let sessions = vec![
        stream(SessionState::Active, false),
        stream(SessionState::Inactive, true),
        stream(SessionState::Expired, false),
        stream(SessionState::Inactive, false),
        stream(SessionState::Active, false),
        stream(SessionState::Active, false),
    ];
    let apps = vec![app("B.exe"), None, app("c.exe"), None, app("a.exe"), app("b.EXE")];
    let rows = mixer_rows(&sessions, &apps);
    let shown: Vec<(String, Vec<usize>)> =
        rows.iter().map(|row| (row.key.to_storage(), row.streams.clone())).collect();
    assert_eq!(
        shown,
        vec![
            ("exe:B.exe".to_owned(), vec![0, 5]),
            ("system-sounds".to_owned(), vec![1]),
            ("exe:a.exe".to_owned(), vec![4]),
        ]
    );
    assert!(mixer_rows(&vec![], &vec![]).is_empty());
}
