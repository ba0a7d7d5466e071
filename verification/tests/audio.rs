use fxtrumpet::applier::ParamApplier;
use fxtrumpet::audio::{
    AudioThread, GraphEvent, GraphRun, GraphState, PendingPreset, ThreadEvent, ThreadState,
};
use fxtrumpet::device::DeviceEvent;
use fxtrumpet::engine::{EngineCommand, EngineStatus, RebuildReason, SharedParams};
use fxtrumpet::preset::FacPreset;

struct World {
    params: SharedParams,
    status: EngineStatus,
    pending: Option<PendingPreset>,
    applier: ParamApplier,
}

impl World {
    fn new() -> Self {
        World {
            params: SharedParams::default(),
            status: EngineStatus::default(),
            pending: None,
            applier: ParamApplier::new(),
        }
    }

    fn step(&mut self, run: GraphRun, event: GraphEvent) -> GraphRun {
        run.advance(event, &mut self.params, &mut self.status, &mut self.pending, &mut self.applier)
    }

    fn at(&mut self, state: GraphState, event: GraphEvent) -> GraphState {
        self.step(GraphRun { state, meter_tick: 0, rate: 48_000 }, event).state
    }
}

fn preset() -> FacPreset {
    FacPreset::from_text("p", "CLASS1\n9: Version\nName\n").expect("a preset")
}

#[test]
fn a_run_goes_round_the_loop() {
    let mut w = World::new();
    let mut run = GraphRun::new(48_000);
    let ok = || GraphEvent::Started(Ok(()));
    for event in [GraphEvent::Done, ok(), ok()] {
        run = w.step(run, event);
    }
    assert!(matches!(run.state, GraphState::Top));
    for cycle in 1..=16u32 {
        for event in [
            GraphEvent::Shutdown(false),
            GraphEvent::NoCommand,
            GraphEvent::NoDevice,
            GraphEvent::Done,
            GraphEvent::Signalled(1),
            GraphEvent::Captured(Ok(())),
            GraphEvent::Rendered(Ok(4800)),
        ] {
            run = w.step(run, event);
        }
        assert_eq!(w.status.latency_ms(), 100);
        if cycle % 8 == 0 {
            assert!(matches!(run.state, GraphState::Metering));
            let mut bars = [0.5f32.to_bits(); 10];
            bars[3] = 7.0f32.to_bits();
            bars[4] = (-1.0f32).to_bits();
            run = w.step(run, GraphEvent::Spectrum(bars));
            assert_eq!(f32::from_bits(w.status.spectrum(3)), 1.0);
            assert_eq!(f32::from_bits(w.status.spectrum(4)), 0.0);
            assert_eq!(f32::from_bits(w.status.spectrum(9)), 0.5);
        }
        assert!(matches!(run.state, GraphState::Top));
    }
}

#[test]
fn a_stream_that_does_not_start_ends_the_run() {
    let mut w = World::new();
    let failed = || GraphEvent::Started(Err("no".to_owned()));
    let state = w.at(GraphState::StartingRender, failed());
    assert!(matches!(state, GraphState::Ended(Some(RebuildReason::Error))));
    assert_eq!(w.status.last_error().as_deref(), Some("could not start rendering: no"));
    assert!(matches!(w.at(GraphState::StartingCapture, failed()), GraphState::Undoing));
    assert_eq!(w.status.last_error().as_deref(), Some("could not start capture: no"));
    let state = w.at(GraphState::Undoing, GraphEvent::Done);
    assert!(matches!(state, GraphState::Ended(Some(RebuildReason::Error))));
}

#[test]
fn commands_are_drained_in_order() {
    let mut w = World::new();
    let send = |w: &mut World, c| w.at(GraphState::Draining, GraphEvent::Command(c));
    assert!(matches!(send(&mut w, EngineCommand::SetEnabled(false)), GraphState::Draining));
    assert!(!w.params.is_enabled());
    send(&mut w, EngineCommand::SetEqOn(false));
    send(&mut w, EngineCommand::SetNumBands(99));
    send(&mut w, EngineCommand::SetBandGain { band: 2, db: 5 });
    send(&mut w, EngineCommand::SetBandGain { band: 99, db: 5 });
    send(&mut w, EngineCommand::SetEffect { effect: 1, slider: 6 });
    send(&mut w, EngineCommand::SetBalance(7));
    send(&mut w, EngineCommand::SetMasterGain(8));
    send(&mut w, EngineCommand::SetNormalization(9));
    send(&mut w, EngineCommand::SetVolumeLeveling(10));
    send(&mut w, EngineCommand::SetFilterQ(11));
    assert!(!w.params.eq_on());
    assert_eq!((w.params.num_bands(), w.params.band_gain(2), w.params.effect(1)), (31, 5, 6));
    assert_eq!((w.params.balance(), w.params.master_gain()), (7, 8));
    assert_eq!((w.params.normalization(), w.params.volume_leveling()), (9, 10));
    assert_eq!((w.params.filter_q(), w.params.generation()), (11, 11));

    let load = EngineCommand::LoadPreset { path: "p".to_owned(), preset: preset() };
    assert!(matches!(send(&mut w, load), GraphState::Loading));
    assert_eq!(w.pending.as_ref().map(|p| p.path.as_str()), Some("p"));
    w.applier.last_generation = 9;
    assert!(matches!(w.at(GraphState::Loading, GraphEvent::Done), GraphState::Draining));
    assert_eq!(w.applier.last_generation, 0);

    let save = EngineCommand::SavePreset { name: "N".to_owned(), path: "dir".to_owned() };
    let state = send(&mut w, save);
    assert!(matches!(&state, GraphState::Saving { name, path } if name == "N" && path == "dir"));
    assert!(matches!(w.at(state, GraphEvent::Saved(false)), GraphState::Draining));
    assert_eq!(w.status.last_save(), Some(("N.fac".to_owned(), false)));
    assert_eq!(w.status.presets_revision(), 1);

    let rebuild = send(&mut w, EngineCommand::Rebuild);
    assert!(matches!(rebuild, GraphState::Stopping(RebuildReason::Requested)));
    assert!(matches!(
        w.at(rebuild, GraphEvent::Done),
        GraphState::Ended(Some(RebuildReason::Requested))
    ));
    assert!(matches!(send(&mut w, EngineCommand::Shutdown), GraphState::Ended(None)));
    let gone = w.at(GraphState::Draining, GraphEvent::Disconnected);
    assert!(matches!(gone, GraphState::Ended(None)));
}

#[test]
fn device_events_rebuild_only_where_they_matter() {
    let mut w = World::new();
    let watch = |w: &mut World, e| w.at(GraphState::Watching, GraphEvent::Device(e));
    let id = || Some("x".to_owned());
    let state = watch(&mut w, DeviceEvent::PropertyChanged { endpoint_id: id() });
    assert!(matches!(state, GraphState::Watching));
    let state = watch(&mut w, DeviceEvent::DefaultChanged { endpoint_id: None });
    assert!(matches!(state, GraphState::Stopping(RebuildReason::DefaultDeviceChanged)));
    let state = watch(&mut w, DeviceEvent::StateChanged { endpoint_id: None });
    assert!(matches!(state, GraphState::Watching));
    let state = watch(&mut w, DeviceEvent::StateChanged { endpoint_id: id() });
    assert!(matches!(&state, GraphState::LookingUp { id } if id == "x"));
    assert!(matches!(w.at(state, GraphEvent::Gone(false)), GraphState::Watching));
    let state = w.at(GraphState::LookingUp { id: "x".to_owned() }, GraphEvent::Gone(true));
    assert!(matches!(state, GraphState::Stopping(RebuildReason::DeviceUnplugged)));
}

#[test]
fn signals_say_which_side_is_due() {
    let mut w = World::new();
    let wait = |w: &mut World, code| w.at(GraphState::Waiting, GraphEvent::Signalled(code));
    assert!(matches!(wait(&mut w, 0), GraphState::Capturing { render: false }));
    assert!(matches!(wait(&mut w, 1), GraphState::Capturing { render: true }));
    assert!(matches!(wait(&mut w, 0x102), GraphState::Capturing { render: true }));
    assert!(matches!(wait(&mut w, u32::MAX), GraphState::Top));
    let capture = GraphState::Capturing { render: false };
    assert!(matches!(w.at(capture, GraphEvent::Captured(Ok(()))), GraphState::Top));
    let state = w.at(
        GraphState::Capturing { render: true },
        GraphEvent::Captured(Err("lost".to_owned())),
    );
    assert!(matches!(state, GraphState::Stopping(RebuildReason::Error)));
    assert_eq!(w.status.last_error().as_deref(), Some("lost"));
    let state = w.at(GraphState::Rendering, GraphEvent::Rendered(Err("full".to_owned())));
    assert!(matches!(state, GraphState::Stopping(RebuildReason::Error)));
    // An outcome that does not belong to the step changes nothing.
    assert!(matches!(w.at(GraphState::Waiting, GraphEvent::Done), GraphState::Waiting));
    assert!(matches!(
        w.at(GraphState::Ended(None), GraphEvent::Shutdown(false)),
        GraphState::Ended(None)
    ));
}

#[test]
fn the_thread_builds_until_it_is_told_to_stop() {
    let mut status = EngineStatus::default();
    let mut pending = None;
    let mut thread = AudioThread::start(Ok(()), &mut status);
    assert_eq!((thread.state, thread.reason), (ThreadState::Checking, RebuildReason::Startup));
    let mut go = |t: &mut AudioThread, s: &mut EngineStatus, e| t.advance(e, s, &mut pending);
    go(&mut thread, &mut status, ThreadEvent::Shutdown(false));
    go(&mut thread, &mut status, ThreadEvent::Allocated(true));
    status.set_error("old".to_owned());
    go(&mut thread, &mut status, ThreadEvent::Built(Ok(())));
    assert_eq!(thread.state, ThreadState::Running);
    assert!(status.is_running() && status.last_error().is_none());
    assert_eq!(status.rebuilds(), 1);
    go(&mut thread, &mut status, ThreadEvent::Ended(Some(RebuildReason::DeviceUnplugged)));
    assert_eq!(
        (thread.state, thread.reason),
        (ThreadState::Checking, RebuildReason::DeviceUnplugged)
    );
    assert!(!status.is_running());
    go(&mut thread, &mut status, ThreadEvent::Shutdown(false));
    go(&mut thread, &mut status, ThreadEvent::Allocated(true));
    go(&mut thread, &mut status, ThreadEvent::Built(Err("no device".to_owned())));
    assert_eq!(thread.state, ThreadState::RetryCheck);
    assert_eq!(status.last_error().as_deref(), Some("no device"));
    go(&mut thread, &mut status, ThreadEvent::Shutdown(false));
    // A preset is absorbed while there is no graph; other commands are dropped.
    let load = EngineCommand::LoadPreset { path: "p".to_owned(), preset: preset() };
    go(&mut thread, &mut status, ThreadEvent::Command(load));
    assert_eq!(thread.state, ThreadState::RetryCheck);
    go(&mut thread, &mut status, ThreadEvent::Shutdown(false));
    go(&mut thread, &mut status, ThreadEvent::Command(EngineCommand::SetEnabled(false)));
    assert_eq!(thread.state, ThreadState::RetryCheck);
    go(&mut thread, &mut status, ThreadEvent::Shutdown(false));
    go(&mut thread, &mut status, ThreadEvent::TimedOut);
    assert_eq!((thread.state, thread.reason), (ThreadState::Checking, RebuildReason::Error));
    go(&mut thread, &mut status, ThreadEvent::Shutdown(true));
    assert_eq!(thread.state, ThreadState::Stopped);
    assert_eq!(pending.map(|p| p.path).as_deref(), Some("p"));
}

#[test]
fn the_thread_stops_where_it_cannot_go_on() {
    let mut status = EngineStatus::default();
    let mut pending = None;
    let thread = AudioThread::start(Err("0x80004005".to_owned()), &mut status);
    assert_eq!(thread.state, ThreadState::Stopped);
    assert_eq!(
        status.last_error().as_deref(),
        Some("could not initialise COM on the audio thread: 0x80004005")
    );
    let at = |state| AudioThread { state, reason: RebuildReason::Startup };
    let mut thread = at(ThreadState::Allocating);
    thread.advance(ThreadEvent::Allocated(false), &mut status, &mut pending);
    assert_eq!(thread.state, ThreadState::Stopped);
    assert_eq!(status.last_error().as_deref(), Some("could not allocate the DSP engine"));
    for (event, state) in [
        (ThreadEvent::Command(EngineCommand::Shutdown), ThreadState::Stopped),
        (ThreadEvent::Command(EngineCommand::Rebuild), ThreadState::Checking),
        (ThreadEvent::Disconnected, ThreadState::Stopped),
    ] {
        let mut thread = at(ThreadState::RetryWait);
        thread.advance(event, &mut status, &mut pending);
        assert_eq!(thread.state, state);
    }
    let mut thread = at(ThreadState::Running);
    thread.advance(ThreadEvent::Ended(None), &mut status, &mut pending);
    assert_eq!(thread.state, ThreadState::Stopped);
    assert!(pending.is_none());
}
