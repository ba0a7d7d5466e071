use fxtrumpet::app::{App, AppAction};
use fxtrumpet::config::Config;
use fxtrumpet::device::{DeviceInfo, DeviceState};
use fxtrumpet::routing::EngageOutcome;
use fxtrumpet::startup::{StartEvent, StartState, Startup};

fn device(id: &str, is_virtual: bool) -> DeviceInfo {
    DeviceInfo {
        id: id.to_owned(),
        name: id.to_owned(),
        adapter: None,
        state: DeviceState::Active,
        is_default: false,
        is_virtual,
    }
}

fn outputs(default: &str) -> StartEvent {
    StartEvent::Outputs {
        card: Some(device("card", true)),
        default: Ok(device(default, default == "card")),
    }
}

fn devices() -> StartEvent {
    let all = || vec![device("card", true), device("spk", false)];
    StartEvent::Devices { all: all(), active: all() }
}

fn app(config: Config) -> App {
    App::start(config, Vec::new(), 0x0409, None)
}

#[test]
fn a_start_goes_through_its_steps_in_order() {
    let mut app = app(Config::default());
    let run = Startup::new(Some("a.fac".to_owned()));
    assert!(matches!(run.state, StartState::Recovering));
    let run = run.advance(outputs("spk"), &mut app);
    assert!(matches!(run.state, StartState::TakingOver));
    let run = run.advance(outputs("spk"), &mut app);
    // The marker is recorded before the switch is made.
    assert_eq!(app.config.previous_default_id.as_deref(), Some("spk"));
    match &run.state {
        StartState::Switching(plan) => {
            assert!(matches!(plan.actions[0], AppAction::SaveConfig));
            assert!(matches!(&plan.actions[1], AppAction::SetDefault(id) if id == "card"));
        }
        other => panic!("{other:?}"),
    }
    let run = run.advance(StartEvent::Switched(Ok(())), &mut app);
    assert!(matches!(run.state, StartState::Recording));
    assert_eq!(run.outcome, Some(EngageOutcome::Engaged { previous: "spk".to_owned() }));
    assert!(app.routing.engaged());
    // What does not belong to the step changes nothing.
    let run = run.advance(StartEvent::Tray(Ok(())), &mut app);
    let run = run.advance(StartEvent::Done, &mut app);
    assert!(matches!(run.state, StartState::StartingEngine));
    let run = run.advance(StartEvent::Engine(Ok(())), &mut app);
    assert!(matches!(run.state, StartState::AddingTray));
    let run = run.advance(StartEvent::Tray(Ok(())), &mut app);
    assert!(matches!(&run.state, StartState::Activating(path) if path == "a.fac"));
    let run = run.advance(StartEvent::Done, &mut app);
    assert!(matches!(run.state, StartState::Refreshing));
    let run = run.advance(StartEvent::Done, &mut app);
    assert!(matches!(run.state, StartState::Ready));
    let run = run.advance(StartEvent::Done, &mut app);
    assert!(matches!(run.state, StartState::Ready));
}

#[test]
fn a_killed_run_is_undone_first() {
    let mut config = Config::default();
    config.previous_default_id = Some("spk".to_owned());
    config.take_over_default = false;
    let mut app = app(config);
    let run = Startup::new(None).advance(outputs("card"), &mut app);
    assert!(matches!(&run.state, StartState::Restoring(id) if id == "spk"));
    let run = run.advance(StartEvent::Restored(true), &mut app);
    assert!(matches!(run.state, StartState::Recording));
    assert_eq!(app.config.previous_default_id, None);
    assert_eq!(run.outcome, None);
    let run = run.advance(StartEvent::Done, &mut app);
    let run = run.advance(StartEvent::Engine(Ok(())), &mut app);
    let run = run.advance(StartEvent::Tray(Ok(())), &mut app);
    assert!(matches!(run.state, StartState::Refreshing));
}

#[test]
fn what_could_not_be_restored_stays_owed() {
    let mut config = Config::default();
    config.previous_default_id = Some("gone".to_owned());
    let mut app = app(config);
    let run = Startup::new(None).advance(outputs("card"), &mut app);
    let run = run.advance(StartEvent::Restored(false), &mut app);
    assert_eq!(app.config.previous_default_id.as_deref(), Some("gone"));
    let run = run.advance(outputs("card"), &mut app);
    assert_eq!(run.outcome, Some(EngageOutcome::AlreadyRouted));
    assert_eq!(app.config.previous_default_id.as_deref(), Some("gone"));
}

#[test]
fn a_switch_that_fails_displaces_nothing() {
    let mut app = app(Config::default());
    let run = Startup::new(None).advance(outputs("spk"), &mut app);
    let run = run.advance(outputs("spk"), &mut app);
    let run = run.advance(StartEvent::Switched(Err("no".to_owned())), &mut app);
    assert_eq!(run.outcome, Some(EngageOutcome::Failed("no".to_owned())));
    assert_eq!(app.config.previous_default_id, None);
    let run = run.advance(StartEvent::Done, &mut app);
    let run = run.advance(StartEvent::Engine(Err("x".to_owned())), &mut app);
    let run = run.advance(devices(), &mut app);
    assert!(
        matches!(&run.state, StartState::Failed(why) if why == "could not start the audio engine: x")
    );
}

#[test]
fn a_failed_start_hands_the_output_back() {
    let mut app = app(Config::default());
    let run = Startup::new(None).advance(outputs("spk"), &mut app);
    let run = run.advance(outputs("spk"), &mut app);
    let run = run.advance(StartEvent::Switched(Ok(())), &mut app);
    let run = run.advance(StartEvent::Done, &mut app);
    let run = run.advance(StartEvent::Engine(Ok(())), &mut app);
    let run = run.advance(StartEvent::Tray(Err("no shell".to_owned())), &mut app);
    assert!(matches!(&run.state, StartState::Releasing(why) if why == "no shell"));
    let run = run.advance(devices(), &mut app);
    assert!(
        matches!(&run.state, StartState::GivingBack { endpoint, .. } if endpoint == "spk")
    );
    assert!(!app.routing.engaged());
    let run = run.advance(StartEvent::Restored(true), &mut app);
    assert!(matches!(run.state, StartState::Forgetting(_)));
    assert_eq!(app.config.previous_default_id, None);
    let run = run.advance(StartEvent::Done, &mut app);
    assert!(matches!(&run.state, StartState::Failed(why) if why == "no shell"));
}

#[test]
fn a_start_without_a_card_switches_nothing() {
    let mut app = app(Config::default());
    let none = || StartEvent::Outputs { card: None, default: Ok(device("spk", false)) };
    let run = Startup::new(None).advance(none(), &mut app);
    let run = run.advance(none(), &mut app);
    assert!(matches!(run.state, StartState::Recording));
    assert_eq!(run.outcome, Some(EngageOutcome::NoVirtualCard));
    assert!(!app.routing.engaged());
}
