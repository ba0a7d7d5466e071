use fxtrumpet::cli::{
    flag, has_flag, invocation, log_level, Invocation, LogLevel, StartupWindow,
};
use fxtrumpet::config::{
    app_data_dir, config_path, log_path, presets_dir, Config, ConfigFile, SaveStep,
};
use fxtrumpet::device::{DeviceInfo, DeviceState};
use fxtrumpet::driver::{status, ElevatedTask};
use fxtrumpet::preset::{FacPreset, PresetEntry, PresetOrigin};
use fxtrumpet::process::AppKey;
use fxtrumpet::report::{
    align_right, came_back, diagnose, endpoint_line, group_sessions, loudest, pad, report_devices,
    report_driver, report_presets, report_rules, trim, yes_no, Diagnosis,
};
use fxtrumpet::router::{RouteMethod, RouteRule, RouteTarget};
use fxtrumpet::text::{parse_i32, parse_unsigned, to_decimal, to_signed_decimal};

fn args(list: &[&str]) -> Vec<String> {
    list.iter().map(|s| (*s).to_owned()).collect()
}

#[test]
fn arguments_say_what_the_process_is_for() {
    assert_eq!(
        invocation(&args(&["--panel", "--restore-output", "--remove-driver"])),
        Invocation::Elevated(ElevatedTask::Remove)
    );
    assert_eq!(invocation(&args(&["--panel", "--restore-output"])), Invocation::RestoreOutput);
    assert_eq!(
        invocation(&args(&["--mixer", "--panel"])),
        Invocation::Tray(Some(StartupWindow::Panel))
    );
    assert_eq!(invocation(&args(&["--mixer"])), Invocation::Tray(Some(StartupWindow::Mixer)));
    assert_eq!(invocation(&args(&["--tray"])), Invocation::Tray(None));
    let list = args(&["--seconds", "5", "--seconds", "6", "--last"]);
    assert_eq!(flag(&list, "--seconds").as_deref(), Some("5"));
    assert_eq!(flag(&list, "--last"), None);
    assert_eq!(flag(&list, "--none"), None);
    assert!(has_flag(&list, "--last") && !has_flag(&list, "--none"));
}

#[test]
fn log_levels_have_names() {
    for (word, level) in [
        ("off", LogLevel::Off),
        ("error", LogLevel::Error),
        ("warn", LogLevel::Warn),
        ("info", LogLevel::Info),
        ("debug", LogLevel::Debug),
        ("trace", LogLevel::Trace),
        ("TRACE", LogLevel::Info),
    ] {
        assert_eq!(log_level(Some(word)), level);
    }
    assert_eq!(log_level(None), LogLevel::Info);
}

#[test]
fn settings_fall_back_to_defaults() {
    let good = Config { buffer_ms: 77, ..Config::default() };
    let (config, problem) = Config::load_or_default("p", ConfigFile::Parsed(good));
    assert_eq!((config.buffer_ms, problem), (77, None));
    let (config, problem) = Config::load_or_default("p", ConfigFile::Missing);
    assert_eq!((config, problem), (Config::default(), None));
    let (config, problem) =
        Config::load_or_default("p", ConfigFile::Invalid("line 1".to_owned()));
    assert_eq!(config.buffer_ms, 120);
    assert_eq!(problem.as_deref(), Some("config at p is not valid JSON: line 1"));
    let (_, problem) = Config::load_or_default("p", ConfigFile::Unreadable("denied".to_owned()));
    assert_eq!(problem.as_deref(), Some("config at p could not be read: denied"));
    let config = Config::load("p", ConfigFile::Missing);
    assert!(config.enabled && config.autostart && config.take_over_default);
    assert_eq!((config.num_bands, config.log_level.as_str()), (10, "info"));
    assert_eq!(config.language, "auto");
}

#[test]
fn everything_lives_in_one_directory() {
    let base = Some(r"C:\Users\x\AppData");
    assert_eq!(app_data_dir(base), r"C:\Users\x\AppData\FxTrumpet");
    assert_eq!(app_data_dir(None), "FxTrumpet");
    assert_eq!(config_path(base), r"C:\Users\x\AppData\FxTrumpet\config.json");
    assert_eq!(presets_dir(None), r"FxTrumpet\presets");
    assert_eq!(log_path(base), r"C:\Users\x\AppData\FxTrumpet\fxtrumpet.log");
    assert_eq!(
        Config::save(Some("b")),
        vec![
            SaveStep::CreateDirectory(r"b\FxTrumpet".to_owned()),
            SaveStep::Write(r"b\FxTrumpet\config.json.tmp".to_owned()),
            SaveStep::Remove(r"b\FxTrumpet\config.json".to_owned()),
            SaveStep::Rename(
                r"b\FxTrumpet\config.json.tmp".to_owned(),
                r"b\FxTrumpet\config.json".to_owned()
            ),
        ]
    );
}

fn device(id: &str, name: &str, is_default: bool, is_virtual: bool) -> DeviceInfo {
    DeviceInfo {
        id: id.to_owned(),
        name: name.to_owned(),
        adapter: Some("Adapter".to_owned()),
        state: DeviceState::Active,
        is_default,
        is_virtual,
    }
}

#[test]
fn columns_count_characters() {
    assert_eq!(trim("网易云音乐", 3), "网易…");
    assert_eq!(trim("abc", 3), "abc");
    assert_eq!(trim("abc", 1), "…");
    assert_eq!(trim("abc", 0), "…");
    for (s, w) in [("音", 4usize), ("abcdef", 4), ("", 2)] {
        assert_eq!(pad(s, w), format!("{s:<w$}"));
        assert_eq!(align_right(s, w), format!("{s:>w$}"));
    }
    assert_eq!((yes_no(true), yes_no(false)), ("yes", "no"));
}

#[test]
fn devices_are_reported_with_their_tags() {
    let mut odd = device("c", "Card", true, true);
    odd.state = DeviceState::Disabled;
    let list = Ok(vec![device("a", "Speakers", false, false), odd.clone()]);
    assert_eq!(
        report_devices(&list, Some(5)),
        vec![
            "  Speakers (Adapter)",
            "      a",
            "  Card (Adapter)  [default, VIRTUAL CARD, inactive]",
            "      c",
            "  (+3 disabled/unplugged endpoint(s) not listed)",
        ]
    );
    assert_eq!(report_devices(&list, Some(2)).len(), 4);
    assert_eq!(report_devices(&list, None).len(), 4);
    assert_eq!(report_devices(&Ok(Vec::new()), Some(9)), vec!["  (none)"]);
    assert_eq!(report_devices(&Err("x".to_owned()), None), vec!["  enumeration failed: x"]);
    assert_eq!(endpoint_line(&odd), "  *V [disabled] Card");
}

#[test]
fn the_driver_is_reported() {
    let s = status(true, false, &None, None);
    assert_eq!(
        report_driver(&s, false, &Some("oem9.inf".to_owned())),
        vec![
            "  state      : device present but no audio endpoint (driver not started?)",
            "  package    : yes",
            "  device node: yes",
            "  endpoint   : no",
            "  elevated   : no",
            "  files      : not found next to the executable",
            "  staged as  : oem9.inf",
        ]
    );
}

fn parsed(name: &str) -> FacPreset {
    let text = format!("CLASS1\n9: Version\n{name}\n5: Main 0\n");
    FacPreset::from_text("p", &text).expect("a preset")
}

#[test]
fn presets_are_reported_from_the_folder_or_the_bundle() {
    let row = |name: &str| {
        format!("  {name:<20}  0 band(s)  Fidelity=5 Surround=0 Ambience=0 DynamicBoost=0 Bass=0")
    };
    let lines = report_presets(&Vec::new(), &Vec::new(), vec![parsed("b"), parsed("A")]);
    assert_eq!(
        lines,
        vec![
            "  0 file(s) on disk, 17 compiled into this binary".to_owned(),
            "  (folder empty; parsing the embedded copies in place)".to_owned(),
            "  2 of 17 embedded file(s) parsed".to_owned(),
            row("A"),
            row("b"),
            "  slot map   : Ambience->1 Bass->4 DynamicBoost->3 Fidelity->0 Surround->2".to_owned(),
        ]
    );
    let entries: Vec<PresetEntry> = (0..32)
        .map(|i| PresetEntry {
            path: format!("{i}"),
            name: format!("n{i}"),
            origin: PresetOrigin::User,
        })
        .collect();
    let mut read: Vec<Result<FacPreset, String>> = (0..30).map(|_| Ok(parsed("x"))).collect();
    read[1] = Err("locked".to_owned());
    let lines = report_presets(&entries, &read, Vec::new());
    assert_eq!(lines.len(), 33);
    assert_eq!(lines[1], row("x"));
    assert_eq!(lines[2], format!("  {:<20} unreadable: locked", "n1"));
    assert_eq!(lines[31], "  ... and 2 more");
}

#[test]
fn rules_are_reported_with_their_destination() {
    let devices = vec![device("d", "Speakers", false, false)];
    let rule = |target| {
        RouteRule::new(AppKey::Packaged("x!A".to_owned()), "App".to_owned(), target)
    };
    let to = |id: &str| RouteTarget::Device { endpoint_id: id.to_owned() };
    let mut off = rule(to("gone"));
    off.enabled = false;
    off.method = RouteMethod::Injection;
    assert_eq!(
        report_rules(&vec![rule(RouteTarget::SystemDefault), rule(to("d")), off], &devices),
        vec![
            format!("  {:<34} -> follow system (enhanced)", "App"),
            "      app    : aumid:x!A".to_owned(),
            "      method : Policy".to_owned(),
            format!("  {:<34} -> Speakers (Adapter)", "App"),
            "      app    : aumid:x!A".to_owned(),
            "      method : Policy".to_owned(),
            "      note   : this application BYPASSES the enhancer".to_owned(),
            format!("  {:<34} -> gone  <-- device not present   (disabled)", "App"),
            "      app    : aumid:x!A".to_owned(),
            "      method : Injection".to_owned(),
            "      note   : this application BYPASSES the enhancer".to_owned(),
        ]
    );
    assert_eq!(
        report_rules(&Vec::new(), &devices),
        vec!["  (none — every application follows the system default, i.e. the enhanced path)"]
    );
}

#[test]
fn sessions_are_grouped_by_application() {
    let exe = |p: &str| AppKey::Executable(p.to_owned());
    let keys = vec![
        exe("b"),
        AppKey::SystemSounds,
        exe("a"),
        exe("b"),
        AppKey::Packaged("z".to_owned()),
        AppKey::SystemSounds,
    ];
    let groups = group_sessions(&keys);
    let shown: Vec<(&str, Vec<usize>)> =
        groups.iter().map(|g| (g.storage.as_str(), g.streams.clone())).collect();
    assert_eq!(
        shown,
        vec![
            ("aumid:z", vec![4]),
            ("exe:a", vec![2]),
            ("exe:b", vec![0, 3]),
            ("system-sounds", vec![1, 5]),
        ]
    );
    assert_eq!(groups[2].key, exe("b"));
    let level = |v: f32| v.to_bits();
    assert_eq!(loudest(&[level(0.25), level(f32::NAN), level(0.5), level(-1.0)]), level(0.5));
    assert_eq!(loudest(&[]), 0);
}

#[test]
fn the_diagnosis_tells_where_the_output_is() {
    let card = Some(device("c", "Card", false, true));
    let on = Ok(device("c", "Card", false, true));
    let past = Ok(device("s", "Speakers", true, false));
    let none = Err("x".to_owned());
    assert_eq!(diagnose(&on, &card), Diagnosis::Enhanced);
    assert_eq!(diagnose(&past, &card), Diagnosis::Bypassed);
    assert_eq!(diagnose(&past, &None), Diagnosis::NoCard);
    assert_eq!(diagnose(&none, &None), Diagnosis::NoCard);
    assert_eq!(diagnose(&none, &card), Diagnosis::NoDefault);
    assert!(came_back(&past, &past));
    assert!(!came_back(&past, &on));
    assert!(!came_back(&none, &none));
}

#[test]
fn numbers_are_read_and_written_in_decimal() {
    assert_eq!(to_decimal(u64::MAX), u64::MAX.to_string());
    assert_eq!(to_signed_decimal(i64::MIN), i64::MIN.to_string());
    let chars = |s: &str| s.chars().collect::<Vec<char>>();
    for text in [
        "0", "7", "+7", "-7", "-", "+", "", "--7", "+-7", "007", " 7", "7 ", "2147483647",
        "2147483648", "-2147483648", "-2147483649", "99999999999999999999", "１", "1_0",
    ] {
        assert_eq!(parse_i32(&chars(text)), text.parse::<i32>().ok(), "{text}");
        assert_eq!(parse_unsigned(&chars(text), u64::MAX), text.parse::<u64>().ok(), "{text}");
        assert_eq!(
            parse_unsigned(&chars(text), u32::MAX as u64),
            text.parse::<u32>().ok().map(u64::from),
            "{text}"
        );
    }
}

#[test]
fn a_rescue_that_changed_something_clears_the_marker() {
    let mut config =
        Config { previous_default_id: Some("old".to_owned()), buffer_ms: 77, ..Config::default() };
    assert!(!config.rescued(false));
    assert_eq!(config.previous_default_id.as_deref(), Some("old"));
    assert!(config.rescued(true));
    assert_eq!(config, Config { buffer_ms: 77, ..Config::default() });
}
