use fxtrumpet::app::{
    driver_request, initial_preset, App, AppAction, DriverRequest, MixerCommand, TickStep,
    TrayAction,
};
use fxtrumpet::config::Config;
use fxtrumpet::device::{DeviceInfo, DeviceState};
use fxtrumpet::engine::SharedParams;
use fxtrumpet::i18n::{current, Lang};
use fxtrumpet::perapp::{Factory, Variant};
use fxtrumpet::preset::{PresetEntry, PresetOrigin};
use fxtrumpet::process::AppKey;
use fxtrumpet::router::{RouteTarget, Router};
use fxtrumpet::routing::{
    default_is_routed_through_card, endpoint_name, release_per_app_overrides, rescue_output,
    EngageOutcome, EngageStep, Rescue, Routing,
};
use fxtrumpet::session::{Session, SessionState};

fn device(id: &str, name: &str, is_virtual: bool) -> DeviceInfo {
    DeviceInfo {
        id: id.to_owned(),
        name: name.to_owned(),
        adapter: None,
        state: DeviceState::Active,
        is_default: false,
        is_virtual,
    }
}

fn card() -> Option<DeviceInfo> {
    Some(device("card", "FxSound", true))
}

fn speakers() -> Result<DeviceInfo, String> {
    Ok(device("spk", "Speakers", false))
}

fn app() -> App {
    App::start(Config::default(), Vec::new(), 0x0409, Some(Factory { variant: Variant::Modern }))
}

fn entry(path: &str, name: &str) -> PresetEntry {
    PresetEntry { path: path.to_owned(), name: name.to_owned(), origin: PresetOrigin::User }
}

#[test]
fn the_takeover_remembers_before_it_switches() {
    let mut routing = Routing::new();
    let step = routing.engage(&card(), &speakers());
    assert_eq!(step, EngageStep::Switch { target: "card".to_owned() });
    assert_eq!(routing.previous(), Some("spk"));
    assert!(!routing.engaged());
    let outcome = routing.switched(Ok(()));
    assert!(outcome.changed());
    assert_eq!(outcome, EngageOutcome::Engaged { previous: "spk".to_owned() });
    assert!(routing.engaged());

    let all = vec![device("spk", "Speakers", false), device("h", "headset", false)];
    assert_eq!(routing.release(&all, &all), Some("spk".to_owned()));
    assert!(!routing.engaged());
    // Safe to call more than once.
    assert_eq!(routing.release(&all, &all), None);
}

#[test]
fn nothing_is_switched_without_a_usable_card() {
    let mut routing = Routing::new();
    let over = |o| EngageStep::Over(o);
    assert_eq!(routing.engage(&None, &speakers()), over(EngageOutcome::NoVirtualCard));
    let mut disabled = device("card", "FxSound", true);
    disabled.state = DeviceState::Disabled;
    assert_eq!(routing.engage(&Some(disabled), &speakers()), over(EngageOutcome::NoVirtualCard));
    assert!(!routing.engaged());
    let on_card = Ok(device("card", "FxSound", true));
    assert_eq!(routing.engage(&card(), &on_card), over(EngageOutcome::AlreadyRouted));
    // The default points at the card, but not thanks to us.
    assert!(!routing.engaged());
    assert_eq!(routing.previous(), None);
    assert!(!EngageOutcome::AlreadyRouted.changed());
    let mut routing = Routing::new();
    routing.engage(&card(), &Err("none".to_owned()));
    assert_eq!(routing.previous(), None);
    assert_eq!(routing.switched(Ok(())), EngageOutcome::Engaged { previous: String::new() });
    let mut routing = Routing::new();
    routing.engage(&card(), &speakers());
    assert_eq!(
        routing.switched(Err("no".to_owned())),
        EngageOutcome::Failed("no".to_owned())
    );
    assert_eq!(routing.previous(), None);
}

#[test]
fn a_displaced_device_that_is_gone_is_replaced() {
    let mut gone = device("spk", "Speakers", false);
    gone.state = DeviceState::Unplugged;
    let active = vec![device("z", "Zed", false), device("card", "A", true), device("a", "alpha", false)];
    for all in [Vec::new(), vec![gone]] {
        let mut routing = Routing { previous: Some("spk".to_owned()), engaged: true };
        assert_eq!(routing.release(&all, &active), Some("a".to_owned()));
    }
    let mut routing = Routing { previous: Some("spk".to_owned()), engaged: true };
    assert_eq!(routing.release(&Vec::new(), &vec![device("card", "A", true)]), None);
}

#[test]
fn recovery_needs_a_marker_and_the_card() {
    let on_card = Ok(device("card", "FxSound", true));
    assert_eq!(Routing::recover(Some("spk"), &card(), &on_card), Some("spk".to_owned()));
    assert_eq!(Routing::recover(None, &card(), &on_card), None);
    assert_eq!(Routing::recover(Some("spk"), &card(), &speakers()), None);
    assert_eq!(Routing::recover(Some("spk"), &None, &on_card), None);
    assert_eq!(Routing::recover(Some("spk"), &card(), &Err("x".to_owned())), None);
    assert!(default_is_routed_through_card(&card(), &on_card));
    assert!(!default_is_routed_through_card(&card(), &speakers()));
    assert!(!default_is_routed_through_card(&None, &on_card));

    let active = vec![device("card", "FxSound", true), device("spk", "Speakers", false)];
    assert_eq!(rescue_output(true, &card(), &on_card, &active), Rescue::Recovered);
    assert_eq!(rescue_output(false, &card(), &speakers(), &active), Rescue::NotNeeded);
    assert_eq!(rescue_output(false, &card(), &on_card, &active), Rescue::Restore("spk".to_owned()));
    assert_eq!(rescue_output(false, &card(), &on_card, &Vec::new()), Rescue::NoOutput);
    assert_eq!(endpoint_name(&active, "spk"), "Speakers");
    assert_eq!(endpoint_name(&active, "x"), "x");
}

fn session(process_id: u32) -> Session {
    Session {
        device_id: "d".to_owned(),
        instance_id: "i".to_owned(),
        display_id: "i".to_owned(),
        process_id,
        is_system_sounds: false,
        state: SessionState::Active,
        volume: 0,
        muted: false,
        peak: 0,
    }
}

#[test]
fn overrides_are_cleared_for_every_live_process() {
    let sessions = vec![session(3), session(0), session(4), session(3)];
    let router = Router::new(Vec::new(), Some(Factory { variant: Variant::Modern }));
    let (writes, visited) = release_per_app_overrides(&router, &sessions);
    assert_eq!((writes.len(), visited), (2, 2));
    let (writes, visited) = release_per_app_overrides(&Router::new(Vec::new(), None), &sessions);
    assert_eq!((writes.len(), visited), (0, 0));
}

#[test]
fn the_marker_is_saved_before_the_switch() {
    let mut app = app();
    let plan = app.take_over(&card(), &speakers());
    assert_eq!(plan.outcome, None);
    assert!(matches!(plan.actions[0], AppAction::SaveConfig));
    assert!(matches!(&plan.actions[1], AppAction::SetDefault(id) if id == "card"));
    assert_eq!(app.config.previous_default_id.as_deref(), Some("spk"));
    let (outcome, more) = app.took_over(plan, Ok(()));
    assert_eq!(outcome, EngageOutcome::Engaged { previous: "spk".to_owned() });
    assert!(more.is_empty());
    assert!(app.routing.engaged());

    // The run is killed here; the next one finds the marker.
    let on_card = Ok(device("card", "FxSound", true));
    assert_eq!(app.recover(&card(), &on_card), Some("spk".to_owned()));
    assert_eq!(app.recover(&card(), &speakers()), None);
    app.recovered(false);
    assert_eq!(app.config.previous_default_id.as_deref(), Some("spk"));
    app.recovered(true);
    assert_eq!(app.config.previous_default_id, None);
}

#[test]
fn a_switch_that_failed_withdraws_its_marker() {
    let mut app = app();
    app.config.previous_default_id = Some("old".to_owned());
    let plan = app.take_over(&card(), &speakers());
    assert_eq!(app.config.previous_default_id.as_deref(), Some("spk"));
    let (outcome, more) = app.took_over(plan, Err("no".to_owned()));
    assert_eq!(outcome, EngageOutcome::Failed("no".to_owned()));
    assert!(matches!(more[..], [AppAction::SaveConfig]));
    assert_eq!(app.config.previous_default_id.as_deref(), Some("old"));
    // Nothing to displace leaves the marker alone.
    let plan = app.take_over(&card(), &Err("none".to_owned()));
    assert_eq!(plan.actions.len(), 2);
    assert_eq!(app.config.previous_default_id.as_deref(), Some("old"));
    assert_eq!(app.take_over(&None, &speakers()).outcome, Some(EngageOutcome::NoVirtualCard));
}

#[test]
fn the_engine_stops_before_the_output_goes_back() {
    let mut app = app();
    app.routing = Routing { previous: Some("spk".to_owned()), engaged: true };
    let all = vec![device("spk", "Speakers", false)];
    let steps = app.shutdown(&all, &all);
    assert!(matches!(&steps[..], [AppAction::StopEngine, AppAction::SetDefault(id), AppAction::SaveConfig] if id == "spk"));
    let steps = app.shutdown(&all, &all);
    assert!(matches!(&steps[..], [AppAction::StopEngine, AppAction::SaveConfig]));
}

#[test]
fn the_remembered_preset_wins_then_music_then_the_first() {
    let presets = vec![entry("a", "Rock"), entry("b", "My Music"), entry("c", "音乐")];
    let remembered = Some("x".to_owned());
    assert_eq!(initial_preset(&remembered, true, &presets).as_deref(), Some("x"));
    assert_eq!(initial_preset(&remembered, false, &presets).as_deref(), Some("b"));
    assert_eq!(initial_preset(&None, true, &presets[2..].to_vec()).as_deref(), Some("c"));
    assert_eq!(initial_preset(&None, false, &presets[..1].to_vec()).as_deref(), Some("a"));
    assert_eq!(initial_preset(&None, false, &Vec::new()), None);
}

#[test]
fn a_tick_serves_the_mixer_first_and_the_menu_before_the_icon() {
    let steps = App::tick(1000, Some(TrayAction::OpenMixer), Some(TrayAction::OpenPanel));
    assert!(matches!(
        steps[..],
        [TickStep::PumpMixer, TickStep::Refresh, TickStep::Act(TrayAction::OpenMixer)]
    ));
    let steps = App::tick(999, None, Some(TrayAction::Quit));
    assert!(matches!(steps[..], [TickStep::PumpMixer, TickStep::Quit]));
    assert!(matches!(App::tick(0, None, None)[..], [TickStep::PumpMixer]));
}

#[test]
fn what_the_panel_changed_is_reconciled() {
    let mut app = app();
    assert!(app.reconcile_selection(true, None).is_empty());
    let actions = app.reconcile_selection(false, Some("p".to_owned()));
    assert!(matches!(
        &actions[..],
        [
            AppAction::TrayEnabled(false),
            AppAction::SaveConfig,
            AppAction::TrayPreset(Some(p)),
            AppAction::SaveConfig
        ] if p == "p"
    ));
    assert!(!app.config.enabled);
    assert_eq!(app.config.active_preset.as_deref(), Some("p"));
    assert!(app.reconcile_selection(false, Some("p".to_owned())).is_empty());
    // Another spelling is the same preset.
    assert!(app.reconcile_selection(false, Some("p/".to_owned())).is_empty());
    assert_eq!(app.active_preset.as_deref(), Some("p"));
    assert_eq!(app.reconcile_selection(false, Some("P".to_owned())).len(), 2);
    assert!(app.note_revision(3));
    assert!(!app.note_revision(3));
}

#[test]
fn a_late_takeover_is_tried_once_per_appearance() {
    let mut app = app();
    assert!(app.routing_attempted);
    assert!(!app.late_takeover(true, true));
    assert!(!app.late_takeover(false, true));
    assert!(!app.late_takeover(true, false));
    assert!(app.late_takeover(true, true));
    assert!(!app.late_takeover(true, true));
    app.late_takeover(false, true);
    app.routing.engaged = true;
    assert!(!app.late_takeover(true, true));
    app.routing.engaged = false;
    app.config.take_over_default = false;
    assert!(!app.late_takeover(true, true));
    app.route_output();
    assert!(app.config.take_over_default && app.routing_attempted);
}

#[test]
fn the_tooltip_says_what_is_going_on() {
    let mut app = app();
    app.presets = vec![entry("p", "Jazz")];
    app.active_preset = Some("p".to_owned());
    assert_eq!(app.active_name().as_deref(), Some("Jazz"));
    app.active_preset = Some("p/.".to_owned());
    assert_eq!(app.active_name().as_deref(), Some("Jazz"));
    assert_eq!(entry("a/p", "Jazz"), entry(r"a\p", "Jazz"));
    assert_ne!(entry("a/p", "Jazz"), entry("a/P", "Jazz"));
    assert_eq!(
        app.tooltip(false, true, true, true, None),
        "FxTrumpet — virtual sound card not installed"
    );
    assert_eq!(app.tooltip(true, false, true, true, None), "FxTrumpet — disabled");
    assert_eq!(app.tooltip(true, true, false, true, None), "FxTrumpet — idle");
    assert_eq!(app.tooltip(true, true, true, true, Some("e")), "FxTrumpet — Jazz (e)");
    app.active_preset = Some("q".to_owned());
    assert_eq!(
        app.tooltip(true, true, true, false, None),
        "FxTrumpet — no preset — output is NOT enhanced (default device is not the virtual card)"
    );
}

#[test]
fn tray_choices_are_carried_out() {
    let mut app = app();
    let mut params = SharedParams::default();
    let actions = app.toggle_enabled(&mut params);
    assert!(!app.config.enabled && !params.is_enabled());
    assert!(matches!(
        actions[..],
        [AppAction::TrayEnabled(false), AppAction::SaveConfig, AppAction::Refresh]
    ));
    let actions = app.toggle_autostart(false);
    assert!(!app.config.autostart);
    assert!(matches!(actions[..], [AppAction::SaveConfig, AppAction::TrayAutostart(false)]));
    assert!(app.activate_preset("p", false).is_empty());
    assert_eq!(app.active_preset, None);
    assert_eq!(app.activate_preset("p", true).len(), 4);
    assert_eq!(app.config.active_preset.as_deref(), Some("p"));
    let actions = app.reload_presets(vec![entry("a", "A")]);
    assert!(matches!(
        &actions[..],
        [AppAction::TrayPresets, AppAction::TrayPreset(Some(p))] if p == "p"
    ));
    assert_eq!(current(&app.language), Lang::En);
    assert!(matches!(app.set_language(Lang::En)[..], [AppAction::TrayLanguageTicks]));
    assert_eq!(app.config.language, "auto");
    assert_eq!(app.set_language(Lang::Zh).len(), 3);
    assert_eq!(app.config.language, "zh");
    assert_eq!(current(&app.language), Lang::Zh);
    assert_eq!(driver_request(true), DriverRequest::Here);
    assert_eq!(driver_request(false), DriverRequest::Elevate);
}

#[test]
fn the_mixer_edits_rules_in_place() {
    let mut app = app();
    let exe = |p: &str| AppKey::Executable(p.to_owned());
    let none = Vec::new();
    let no_apps = Vec::new();
    let target = |id: &str| RouteTarget::Device { endpoint_id: id.to_owned() };
    for id in ["a", "b"] {
        let command = MixerCommand::SetAppTarget {
            app: exe("X.exe"),
            display_name: "X".to_owned(),
            target: target(id),
        };
        let actions = app.handle_mixer_command(command, &none, &no_apps);
        assert!(matches!(actions[..], [AppAction::SaveConfig, AppAction::PublishRoutes]));
    }
    assert_eq!(app.config.routes.len(), 1);
    assert_eq!(app.config.routes[0].target, target("b"));

    let toggle = |app: &mut App, p: &str| {
        let command = MixerCommand::SetRuleEnabled { app: exe(p), enabled: false };
        app.handle_mixer_command(command, &Vec::new(), &Vec::new()).len()
    };
    assert_eq!(toggle(&mut app, "other"), 0);
    assert_eq!(toggle(&mut app, "x.EXE"), 2);
    assert!(!app.config.routes[0].enabled);

    let sessions = vec![session(3), session(4)];
    let apps = vec![Some(exe("x.exe")), Some(exe("y.exe"))];
    let command = MixerCommand::RemoveRule { app: exe("X.EXE") };
    let actions = app.handle_mixer_command(command, &sessions, &apps);
    assert_eq!(actions.len(), 3);
    assert!(matches!(&actions[0], AppAction::WriteEndpoint(w) if w[0].process_id == 3));
    assert!(app.config.routes.is_empty());
}

#[test]
fn the_mixer_reaches_streams_and_devices() {
    let mut app = app();
    app.config.previous_default_id = Some("old".to_owned());
    let streams = vec![("d".to_owned(), "1".to_owned()), ("e".to_owned(), "2".to_owned())];
    let mut run = |command| app.handle_mixer_command(command, &Vec::new(), &Vec::new());
    let actions = run(MixerCommand::SetAppVolume { streams: streams.clone(), level: 5 });
    assert!(matches!(
        &actions[1],
        AppAction::SetStreamVolume { device_id, instance_id, level: 5 }
            if device_id == "e" && instance_id == "2"
    ));
    let actions = run(MixerCommand::SetAppMute { streams, muted: true });
    assert!(matches!(&actions[0], AppAction::SetStreamMute { muted: true, .. }));
    assert_eq!(actions.len(), 2);
    let level = 2.0f32.to_bits();
    let actions = run(MixerCommand::SetDeviceVolume { endpoint_id: "d".to_owned(), level });
    assert!(matches!(
        &actions[..],
        [AppAction::SetDeviceVolume { level, .. }] if f32::from_bits(*level) == 1.0
    ));
    let actions = run(MixerCommand::SetDeviceMuted { endpoint_id: "d".to_owned(), muted: true });
    assert!(matches!(&actions[..], [AppAction::SetDeviceMuted { muted: true, .. }]));
    let actions = run(MixerCommand::SetDefaultDevice { endpoint_id: "d".to_owned() });
    assert!(matches!(&actions[..], [AppAction::SetDefault(id)] if id == "d"));
    assert!(app.default_chosen(false).is_empty());
    assert!(app.config.previous_default_id.is_some());
    assert_eq!(app.default_chosen(true).len(), 1);
    assert_eq!(app.config.previous_default_id, None);
}
