use fxtrumpet::device::{DeviceInfo, DeviceState};
use fxtrumpet::engine::EngineStatus;
use fxtrumpet::process::AppKey;
use fxtrumpet::report::{
    group_sessions, output_line, override_line, progress_line, report_diagnosis, report_outputs,
    report_run, report_sessions, watch_step, ShownGroup, ShownLevels, WatchStep,
    WATCH_INTERVAL_MS,
};
use fxtrumpet::session::{Session, SessionState};

fn device(id: &str, name: &str) -> DeviceInfo {
    DeviceInfo {
        id: id.to_owned(),
        name: name.to_owned(),
        adapter: None,
        state: DeviceState::Active,
        is_default: false,
        is_virtual: false,
    }
}

fn levels() -> Option<ShownLevels> {
    Some(ShownLevels { volume: "50".to_owned(), muted: true, peak: "1.5".to_owned() })
}

#[test]
fn outputs_show_their_levels() {
    let mut speakers = device("s", "Speakers");
    speakers.is_default = true;
    let name = format!("{:<40}", "Speakers");
    assert_eq!(
        output_line(&speakers, &levels()),
        format!("  *  {name} vol {:>3}%  MUTED  peak {:>5}%", "50", "1.5")
    );
    assert_eq!(output_line(&speakers, &None), format!("  *  {name} (no volume interface)"));
    let mut off = device("o", "Off");
    off.state = DeviceState::Disabled;
    assert_eq!(output_line(&off, &None), "   (inactive) Off");

    assert_eq!(report_outputs(&Err("x".to_owned()), &vec![]), vec!["  enumeration failed: x"]);
    assert_eq!(report_outputs(&Ok(vec![]), &vec![]), vec!["  (none)"]);
    assert_eq!(
        report_outputs(&Ok(vec![off, speakers]), &vec![None, None]),
        vec!["   (inactive) Off".to_owned(), format!("  *  {name} (no volume interface)")]
    );
}

fn session(device_id: &str, state: SessionState, muted: bool) -> Session {
    Session {
        device_id: device_id.to_owned(),
        instance_id: "i".to_owned(),
        display_id: "i".to_owned(),
        process_id: 7,
        is_system_sounds: false,
        state,
        volume: 1f32.to_bits(),
        muted,
        peak: 0,
    }
}

#[test]
fn sessions_are_reported_by_application() {
    let list = vec![
        session("s", SessionState::Active, true),
        session("gone", SessionState::Inactive, false),
        session("s", SessionState::Active, true),
    ];
    let app = AppKey::Executable("c:\\a.exe".to_owned());
    let keys = vec![app.clone(), AppKey::SystemSounds, app];
    let groups = group_sessions(&keys);
    let shown = vec![
        ShownGroup { name: "a".to_owned(), volume: "100".to_owned(), peak: "0.0".to_owned() },
        ShownGroup { name: "System".to_owned(), volume: "7".to_owned(), peak: "12.5".to_owned() },
    ];
    let lines = report_sessions(&list, &groups, &shown, &vec![device("s", "Speakers")]);
    assert_eq!(
        lines,
        vec![
            format!(
                "  {:<34} {:>5} stream(s)  vol {:>3}%  MUTED  peak {:>5}%",
                "a", 2, "100", "0.0"
            ),
            "      key: exe:c:\\a.exe".to_owned(),
            "      Active on Speakers".to_owned(),
            "      Active on Speakers".to_owned(),
            format!(
                "  {:<34} {:>5} stream(s)  vol {:>3}%         peak {:>5}%",
                "System", 1, "7", "12.5"
            ),
            "      key: system-sounds".to_owned(),
            "      note: no process behind this session".to_owned(),
            "      Inactive on gone".to_owned(),
        ]
    );
    assert_eq!(
        report_sessions(&vec![], &vec![], &vec![], &vec![]),
        vec!["  (none — nothing is playing, or no application has opened a stream)"]
    );
}

#[test]
fn the_diagnosis_is_spelled_out() {
    let card = Some(device("c", "Card"));
    let other = Ok(device("s", "Speakers"));
    let lines = report_diagnosis(&Ok(device("c", "Card")), &card);
    assert_eq!(lines[0], "  system default output : Card");
    assert_eq!(lines[1], "  virtual card is default : YES");
    assert_eq!(lines.len(), 3);
    let lines = report_diagnosis(&other, &card);
    assert_eq!(lines[1], "  virtual card is default : NO");
    assert_eq!(lines[2], "      default is        : Speakers");
    assert_eq!(lines[3], "      virtual card is   : Card");
    assert_eq!(lines.len(), 7);
    assert_eq!(report_diagnosis(&other, &None)[1], "  virtual card is default : n/a");
    assert_eq!(
        report_diagnosis(&Err("x".to_owned()), &card),
        vec![
            "  system default output : (no default render endpoint)",
            "  virtual card is default : unknown (no default endpoint)",
        ]
    );
}

#[test]
fn a_run_is_reported_while_it_goes_and_when_it_ends() {
    let mut status = EngineStatus::default();
    status.running = true;
    status.virtual_present = true;
    status.captured_frames = 4800;
    status.rendered_frames = 100;
    status.underruns = 3;
    status.latency_ms = 42;
    assert_eq!(
        progress_line("1.5", &status, 4000, 200),
        format!(
            "  {:>5}s  running={:<5} cap {:>9} (+{:<7})  ren {:>9} (+{:<7})  under {:>6}  drop {:>6}  buf {:>3} ms",
            "1.5", true, 4800, 800, 100, 0, 3, 0, 42
        )
    );
    status.sink = Some("Speakers".to_owned());
    status.last_error = Some("lost".to_owned());
    status.clipped_samples = 9;
    assert_eq!(
        report_run(&status, "0.250"),
        vec![
            "  source : —",
            "  sink   : Speakers",
            "  result : 100 frames rendered, 3 underrun frame(s)",
            "  error  : lost",
            "  peak   : 0.250",
            "  clipped: 9 sample(s)",
        ]
    );
    assert_eq!(override_line(None, None), None);
    assert_eq!(
        override_line(Some("a"), None).as_deref(),
        Some("  overrides: --source a --sink (auto)")
    );
}

#[test]
fn watching_prints_at_intervals_until_the_time_is_up() {
    assert_eq!(WATCH_INTERVAL_MS, 500);
    assert_eq!(watch_step(0, 1000, 0), WatchStep::Wait);
    assert_eq!(watch_step(499, 1000, 499), WatchStep::Wait);
    assert_eq!(watch_step(500, 1000, 500), WatchStep::Print);
    assert_eq!(watch_step(999, 1000, 700), WatchStep::Print);
    // A line that is due comes even where the time is up.
    assert_eq!(watch_step(500, 500, 500), WatchStep::Print);
    assert_eq!(watch_step(1000, 1000, 499), WatchStep::Stop);
    assert_eq!(watch_step(0, 0, 0), WatchStep::Stop);
}
