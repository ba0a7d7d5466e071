//! The audio thread: what it does next, and why.
//!
//! The thread performs the step that its state names and hands back what came
//! of it. [`GraphRun`] runs one graph until it fails or is invalidated;
//! [`AudioThread`] builds graphs, one after another, until it is told to stop.
//! An outcome that does not belong to the current step changes nothing.

use crate::applier::ParamApplier;
use crate::device::DeviceEvent;
use crate::engine::{
    count_more, next_count, EngineCommand, EngineStatus, RebuildReason, SharedParams,
    SPECTRUM_BANDS,
};
use crate::float::{self, clamped};
use crate::preset::FacPreset;
use crate::text::opt_text;
use vstd::prelude::*;
use vstd::string::*;

verus! {

/// The preset that should be active, plus the file it came from.
///
/// Held across graph rebuilds: a rebuild makes a fresh engine, so the last
/// loaded preset has to be applied again.
#[derive(Debug)]
pub struct PendingPreset {
    pub path: String,
    pub preset: FacPreset,
}

/// The capture event was signalled.
pub const WAIT_OBJECT_0: u32 = 0;

/// The render event was signalled.
pub const WAIT_OBJECT_1: u32 = 1;

/// Nothing was signalled in time.
pub const WAIT_TIMEOUT: u32 = 0x102;

/// How long to wait for a signal before doing a housekeeping pass anyway.
pub const WAIT_TIMEOUT_MS: u32 = 100;

/// How long to wait for a reason to try again after a failed build.
pub const RETRY_TIMEOUT_MS: u32 = 500;

// ---------------------------------------------------------------------------
// One graph
// ---------------------------------------------------------------------------

/// The step that running a graph is at.
#[derive(Debug)]
pub enum GraphState {
    /// Hand the parameters to the engine.
    Preparing,
    /// Start the render stream. It goes first: a capture-only graph would fill
    /// the ring with nowhere to drain it.
    StartingRender,
    /// Start the capture stream.
    StartingCapture,
    /// Stop the render stream, because the capture stream would not start.
    Undoing,
    /// See whether the thread has been asked to stop.
    Top,
    /// Take the next command, without waiting for one.
    Draining,
    /// Apply the pending preset to the engine.
    Loading,
    /// Have the engine write a preset into a directory.
    Saving { name: String, path: String },
    /// Take the next device event, without waiting for one.
    Watching,
    /// See whether this endpoint is gone.
    LookingUp { id: String },
    /// Hand changed parameters to the engine.
    Applying,
    /// Wait for either stream, or the housekeeping timeout.
    Waiting,
    /// Drain the capture side into the ring; then render, or not.
    Capturing { render: bool },
    /// Fill the render side from the ring.
    Rendering,
    /// Read the spectrum.
    Metering,
    /// Stop both streams.
    Stopping(RebuildReason),
    /// Done: build again for this reason, or stop the thread.
    Ended(Option<RebuildReason>),
}

/// What came of a step.
#[derive(Debug)]
pub enum GraphEvent {
    /// It is done.
    Done,
    /// A stream was started, or not.
    Started(Result<(), String>),
    /// Whether the thread has been asked to stop.
    Shutdown(bool),
    /// A command was waiting.
    Command(EngineCommand),
    /// None was waiting.
    NoCommand,
    /// Nobody can send commands any more.
    Disconnected,
    /// The preset was written, or not.
    Saved(bool),
    /// A device event was waiting.
    Device(DeviceEvent),
    /// None was waiting.
    NoDevice,
    /// Whether the endpoint is gone.
    Gone(bool),
    /// The wait ended with this code.
    Signalled(u32),
    /// The capture side was drained, or failed.
    Captured(Result<(), String>),
    /// The render side was filled, leaving so many frames in the ring, or
    /// failed.
    Rendered(Result<usize, String>),
    /// The magnitudes of the spectrum.
    Spectrum([u32; 10]),
}

/// The step that follows from a command.
pub open spec fn after_command(command: EngineCommand) -> GraphState {
    match command {
        EngineCommand::Shutdown => GraphState::Ended(None),
        EngineCommand::Rebuild => GraphState::Stopping(RebuildReason::Requested),
        EngineCommand::LoadPreset { .. } => GraphState::Loading,
        EngineCommand::SavePreset { name, path } => GraphState::Saving { name, path },
        _ => GraphState::Draining,
    }
}

/// The step that follows from a device event. A renamed device is no reason to
/// rebuild; one that changed its state is only if it is gone.
pub open spec fn after_device(event: DeviceEvent) -> GraphState {
    match event {
        DeviceEvent::PropertyChanged { .. } => GraphState::Watching,
        DeviceEvent::DefaultChanged { .. } => GraphState::Stopping(
            RebuildReason::DefaultDeviceChanged,
        ),
        DeviceEvent::StateChanged { endpoint_id } => match endpoint_id {
            Some(id) => GraphState::LookingUp { id },
            None => GraphState::Watching,
        },
    }
}

/// The step that follows from a wait. The capture side is also drained when
/// the render side is due, and both are when nothing was signalled in time.
pub open spec fn after_wait(code: u32) -> GraphState {
    if code == 0 {
        GraphState::Capturing { render: false }
    } else if code == 1 || code == 0x102 {
        GraphState::Capturing { render: true }
    } else {
        GraphState::Top
    }
}

/// The number of render cycles after one more, wrapping around.
pub open spec fn next_tick(tick: u32) -> u32 {
    if tick == 0xffff_ffff {
        0
    } else {
        (tick + 1) as u32
    }
}

/// The step that follows, given how many render cycles there have been.
pub open spec fn graph_next(state: GraphState, event: GraphEvent, tick: u32) -> GraphState {
    match (state, event) {
        (GraphState::Preparing, GraphEvent::Done) => GraphState::StartingRender,
        (GraphState::StartingRender, GraphEvent::Started(Ok(_))) => GraphState::StartingCapture,
        (GraphState::StartingRender, GraphEvent::Started(Err(_))) => GraphState::Ended(
            Some(RebuildReason::Error),
        ),
        (GraphState::StartingCapture, GraphEvent::Started(Ok(_))) => GraphState::Top,
        (GraphState::StartingCapture, GraphEvent::Started(Err(_))) => GraphState::Undoing,
        (GraphState::Undoing, GraphEvent::Done) => GraphState::Ended(Some(RebuildReason::Error)),
        (GraphState::Top, GraphEvent::Shutdown(asked)) => if asked {
            GraphState::Ended(None)
        } else {
            GraphState::Draining
        },
        (GraphState::Draining, GraphEvent::Command(command)) => after_command(command),
        (GraphState::Draining, GraphEvent::NoCommand) => GraphState::Watching,
        (GraphState::Draining, GraphEvent::Disconnected) => GraphState::Ended(None),
        (GraphState::Loading, GraphEvent::Done) => GraphState::Draining,
        (GraphState::Saving { .. }, GraphEvent::Saved(_)) => GraphState::Draining,
        (GraphState::Watching, GraphEvent::Device(event)) => after_device(event),
        (GraphState::Watching, GraphEvent::NoDevice) => GraphState::Applying,
        (GraphState::LookingUp { .. }, GraphEvent::Gone(gone)) => if gone {
            GraphState::Stopping(RebuildReason::DeviceUnplugged)
        } else {
            GraphState::Watching
        },
        (GraphState::Applying, GraphEvent::Done) => GraphState::Waiting,
        (GraphState::Waiting, GraphEvent::Signalled(code)) => after_wait(code),
        (GraphState::Capturing { render }, GraphEvent::Captured(Ok(_))) => if render {
            GraphState::Rendering
        } else {
            GraphState::Top
        },
        (GraphState::Capturing { .. }, GraphEvent::Captured(Err(_))) => GraphState::Stopping(
            RebuildReason::Error,
        ),
        (GraphState::Rendering, GraphEvent::Rendered(Ok(_))) => if next_tick(tick) % 8 == 0 {
            GraphState::Metering
        } else {
            GraphState::Top
        },
        (GraphState::Rendering, GraphEvent::Rendered(Err(_))) => GraphState::Stopping(
            RebuildReason::Error,
        ),
        (GraphState::Metering, GraphEvent::Spectrum(_)) => GraphState::Top,
        (GraphState::Stopping(reason), GraphEvent::Done) => GraphState::Ended(Some(reason)),
        _ => state,
    }
}

/// Whether `after` is what the parameters are once a command has been taken.
pub open spec fn told(command: EngineCommand, before: SharedParams, after: SharedParams) -> bool {
    let generation = next_count(before.generation);
    match command {
        EngineCommand::SetEnabled(on) => after == (SharedParams {
            enabled: on,
            generation,
            ..before
        }),
        EngineCommand::SetEqOn(on) => after == (SharedParams { eq_on: on, generation, ..before }),
        EngineCommand::SetNumBands(bands) => after == (SharedParams {
            num_bands: crate::engine::clamped_bands(bands),
            generation,
            ..before
        }),
        EngineCommand::SetBandGain { band, db } => if band < 31 {
            after.band_gains@ == before.band_gains@.update(band as int, db) && after == (
            SharedParams { band_gains: after.band_gains, generation, ..before })
        } else {
            after == before
        },
        EngineCommand::SetEffect { effect, slider } => if 0 <= effect < 5 {
            after.effects@ == before.effects@.update(effect as int, slider) && after == (
            SharedParams { effects: after.effects, generation, ..before })
        } else {
            after == before
        },
        EngineCommand::SetBalance(db) => after == (SharedParams {
            balance: db,
            generation,
            ..before
        }),
        EngineCommand::SetMasterGain(db) => after == (SharedParams {
            master_gain: db,
            generation,
            ..before
        }),
        EngineCommand::SetNormalization(db) => after == (SharedParams {
            normalization: db,
            generation,
            ..before
        }),
        EngineCommand::SetVolumeLeveling(db) => after == (SharedParams {
            volume_leveling: db,
            generation,
            ..before
        }),
        EngineCommand::SetFilterQ(q) => after == (SharedParams {
            filter_q: q,
            generation,
            ..before
        }),
        _ => after == before,
    }
}

/// The latency that so many waiting frames stand for, in milliseconds.
pub open spec fn latency_of(frames: int, rate: u32) -> u32 {
    let ms = frames * 1000 / (if rate == 0 {
        1
    } else {
        rate as int
    });
    if ms > 0xffff_ffff {
        0xffff_ffff
    } else {
        ms as u32
    }
}

/// Whether `after` is what the status is once a step has been taken.
pub open spec fn noted(
    state: GraphState,
    event: GraphEvent,
    rate: u32,
    before: EngineStatus,
    after: EngineStatus,
) -> bool {
    match (state, event) {
        (GraphState::StartingRender, GraphEvent::Started(Err(err))) => fails_with(
            before,
            after,
            "could not start rendering: "@ + err@,
        ),
        (GraphState::StartingCapture, GraphEvent::Started(Err(err))) => fails_with(
            before,
            after,
            "could not start capture: "@ + err@,
        ),
        (GraphState::Capturing { .. }, GraphEvent::Captured(Err(err))) => fails_with(
            before,
            after,
            err@,
        ),
        (GraphState::Rendering, GraphEvent::Rendered(Err(err))) => fails_with(before, after, err@),
        (GraphState::Saving { name, path }, GraphEvent::Saved(ok)) => {
            &&& (match after.last_save {
                Some((file, written)) => file@ == name@ + ".fac"@ && written == ok,
                None => false,
            })
            &&& after == (EngineStatus {
                last_save: after.last_save,
                presets_revision: next_count(before.presets_revision),
                ..before
            })
        },
        (GraphState::Rendering, GraphEvent::Rendered(Ok(waiting))) => after == (EngineStatus {
            latency_ms: latency_of(waiting as int, rate),
            ..before
        }),
        (GraphState::Metering, GraphEvent::Spectrum(bars)) => {
            &&& after.spectrum@ == Seq::new(
                10,
                |i: int| clamped(bars@[i], float::ZERO, float::ONE),
            )
            &&& after == (EngineStatus { spectrum: after.spectrum, ..before })
        },
        _ => after == before,
    }
}

pub open spec fn fails_with(before: EngineStatus, after: EngineStatus, message: Seq<char>) -> bool {
    &&& after.last_error is Some
    &&& after.last_error->0@ == message
    &&& after == (EngineStatus { last_error: after.last_error, ..before })
}

/// One run of a graph.
#[derive(Debug)]
pub struct GraphRun {
    pub state: GraphState,
    /// Render cycles so far.
    pub meter_tick: u32,
    /// Sample rate of the render side.
    pub rate: u32,
}

/// Hands a command that sets a parameter to the parameters.
pub fn tell(command: &EngineCommand, params: &mut SharedParams)
    ensures
        told(*command, *old(params), *final(params)),
{
    match command {
        EngineCommand::SetEnabled(on) => params.set_enabled(*on),
        EngineCommand::SetEqOn(on) => params.set_eq_on(*on),
        EngineCommand::SetNumBands(bands) => params.set_num_bands(*bands),
        EngineCommand::SetBandGain { band, db } => params.set_band_gain(*band, *db),
        EngineCommand::SetEffect { effect, slider } => params.set_effect(*effect, *slider),
        EngineCommand::SetBalance(db) => params.set_balance(*db),
        EngineCommand::SetMasterGain(db) => params.set_master_gain(*db),
        EngineCommand::SetNormalization(db) => params.set_normalization(*db),
        EngineCommand::SetVolumeLeveling(db) => params.set_volume_leveling(*db),
        EngineCommand::SetFilterQ(q) => params.set_filter_q(*q),
        _ => {},
    }
}

fn latency(frames: usize, rate: u32) -> (r: u32)
    ensures
        r == latency_of(frames as int, rate),
{
    let divisor: u128 = if rate == 0 {
        1
    } else {
        rate as u128
    };
    let ms: u128 = frames as u128 * 1000 / divisor;
    if ms > 0xffff_ffff {
        0xffff_ffff
    } else {
        ms as u32
    }
}

fn prefixed(prefix: &str, message: &str) -> (r: String)
    ensures
        r@ == prefix@ + message@,
{
    let mut out: String = prefix.to_owned();
    out.append(message);
    out
}

impl GraphRun {
    /// A run that is about to begin.
    pub fn new(rate: u32) -> (r: Self)
        ensures
            r == (GraphRun { state: GraphState::Preparing, meter_tick: 0, rate }),
    {
        GraphRun { state: GraphState::Preparing, meter_tick: 0, rate }
    }

    /// Takes what came of a step, and goes on to the next one.
    pub fn advance(
        self,
        event: GraphEvent,
        params: &mut SharedParams,
        status: &mut EngineStatus,
        pending: &mut Option<PendingPreset>,
        applier: &mut ParamApplier,
    ) -> (r: GraphRun)
        ensures
            r.state == graph_next(self.state, event, self.meter_tick),
            r.rate == self.rate,
            r.meter_tick == (if self.state is Rendering && event is Rendered
                && event->Rendered_0 is Ok {
                next_tick(self.meter_tick)
            } else {
                self.meter_tick
            }),
            self.state is Draining && event is Command ==> told(
                event->Command_0,
                *old(params),
                *final(params),
            ),
            !(self.state is Draining && event is Command) ==> *final(params) == *old(params),
            noted(self.state, event, self.rate, *old(status), *final(status)),
            self.state is Draining && event is Command && event->Command_0 is LoadPreset
                ==> *final(pending) == Some(
                PendingPreset {
                    path: event->Command_0->LoadPreset_path,
                    preset: event->Command_0->preset,
                },
            ),
            !(self.state is Draining && event is Command && event->Command_0 is LoadPreset)
                ==> *final(pending) == *old(pending),
            *final(applier) == (if self.state is Loading && event is Done {
                ParamApplier { last_generation: 0, ..*old(applier) }
            } else {
                *old(applier)
            }),
    {
        let rate: u32 = self.rate;
        let mut tick: u32 = self.meter_tick;
        let state: GraphState = match (self.state, event) {
            (GraphState::Preparing, GraphEvent::Done) => GraphState::StartingRender,
            (GraphState::StartingRender, GraphEvent::Started(result)) => match result {
                Ok(_) => GraphState::StartingCapture,
                Err(err) => {
                    status.set_error(prefixed("could not start rendering: ", err.as_str()));
                    GraphState::Ended(Some(RebuildReason::Error))
                },
            },
            (GraphState::StartingCapture, GraphEvent::Started(result)) => match result {
                Ok(_) => GraphState::Top,
                Err(err) => {
                    status.set_error(prefixed("could not start capture: ", err.as_str()));
                    GraphState::Undoing
                },
            },
            (GraphState::Undoing, GraphEvent::Done) => GraphState::Ended(
                Some(RebuildReason::Error),
            ),
            (GraphState::Top, GraphEvent::Shutdown(asked)) => if asked {
                GraphState::Ended(None)
            } else {
                GraphState::Draining
            },
            (GraphState::Draining, GraphEvent::Command(command)) => {
                tell(&command, params);
                match command {
                    EngineCommand::Shutdown => GraphState::Ended(None),
                    EngineCommand::Rebuild => GraphState::Stopping(RebuildReason::Requested),
                    EngineCommand::LoadPreset { path, preset } => {
                        *pending = Some(PendingPreset { path, preset });
                        GraphState::Loading
                    },
                    EngineCommand::SavePreset { name, path } => GraphState::Saving { name, path },
                    _ => GraphState::Draining,
                }
            },
            (GraphState::Draining, GraphEvent::NoCommand) => GraphState::Watching,
            (GraphState::Draining, GraphEvent::Disconnected) => GraphState::Ended(None),
            (GraphState::Loading, GraphEvent::Done) => {
                applier.refresh();
                GraphState::Draining
            },
            (GraphState::Saving { name, path }, GraphEvent::Saved(ok)) => {
                let mut filename: String = name;
                filename.append(".fac");
                status.note_preset_written(filename, ok);
                GraphState::Draining
            },
            (GraphState::Watching, GraphEvent::Device(event)) => match event {
                DeviceEvent::PropertyChanged { .. } => GraphState::Watching,
                DeviceEvent::DefaultChanged { .. } => GraphState::Stopping(
                    RebuildReason::DefaultDeviceChanged,
                ),
                DeviceEvent::StateChanged { endpoint_id } => match endpoint_id {
                    Some(id) => GraphState::LookingUp { id },
                    None => GraphState::Watching,
                },
            },
            (GraphState::Watching, GraphEvent::NoDevice) => GraphState::Applying,
            (GraphState::LookingUp { id }, GraphEvent::Gone(gone)) => if gone {
                GraphState::Stopping(RebuildReason::DeviceUnplugged)
            } else {
                GraphState::Watching
            },
            (GraphState::Applying, GraphEvent::Done) => GraphState::Waiting,
            (GraphState::Waiting, GraphEvent::Signalled(code)) => if code == WAIT_OBJECT_0 {
                GraphState::Capturing { render: false }
            } else if code == WAIT_OBJECT_1 || code == WAIT_TIMEOUT {
                GraphState::Capturing { render: true }
            } else {
                GraphState::Top
            },
            (GraphState::Capturing { render }, GraphEvent::Captured(result)) => match result {
                Ok(_) => if render {
                    GraphState::Rendering
                } else {
                    GraphState::Top
                },
                Err(err) => {
                    status.set_error(err);
                    GraphState::Stopping(RebuildReason::Error)
                },
            },
            (GraphState::Rendering, GraphEvent::Rendered(result)) => match result {
                Ok(waiting) => {
                    status.latency_ms = latency(waiting, rate);
                    tick =
                    if tick == 0xffff_ffff {
                        0
                    } else {
                        tick + 1
                    };
                    if tick % 8 == 0 {
                        GraphState::Metering
                    } else {
                        GraphState::Top
                    }
                },
                Err(err) => {
                    status.set_error(err);
                    GraphState::Stopping(RebuildReason::Error)
                },
            },
            (GraphState::Metering, GraphEvent::Spectrum(bars)) => {
                publish_spectrum(&bars, status);
                GraphState::Top
            },
            (GraphState::Stopping(reason), GraphEvent::Done) => GraphState::Ended(Some(reason)),
            (other, _) => other,
        };
        GraphRun { state, meter_tick: tick, rate }
    }
}

/// Publishes the bars of the spectrum, held between nothing and full scale.
pub fn publish_spectrum(bars: &[u32; 10], status: &mut EngineStatus)
    ensures
        final(status).spectrum@ == Seq::new(
            10,
            |i: int| clamped(bars@[i], float::ZERO, float::ONE),
        ),
        *final(status) == (EngineStatus { spectrum: final(status).spectrum, ..*old(status) }),
{
    let ghost before = *status;
    let mut i: usize = 0;
    while i < SPECTRUM_BANDS
        invariant
            i <= 10,
            *status == (EngineStatus { spectrum: status.spectrum, ..before }),
            forall|k: int|
                0 <= k < i ==> #[trigger] status.spectrum@[k] == clamped(
                    bars@[k],
                    float::ZERO,
                    float::ONE,
                ),
        decreases 10 - i,
    {
        status.spectrum[i] = float::clamp(bars[i], float::ZERO, float::ONE);
        i = i + 1;
    }
    assert(status.spectrum@ =~= Seq::new(
        10,
        |i: int| clamped(bars@[i], float::ZERO, float::ONE),
    ));
}

// ---------------------------------------------------------------------------
// The thread
// ---------------------------------------------------------------------------

/// The step that the thread is at.
#[derive(Debug, Clone, Copy, PartialEq, Eq, Structural)]
pub enum ThreadState {
    /// See whether the thread has been asked to stop.
    Checking,
    /// Make a fresh engine.
    Allocating,
    /// Build the graph.
    Building,
    /// Run the graph.
    Running,
    /// See whether the thread has been asked to stop, after a failed build.
    RetryCheck,
    /// Wait for a reason to try again.
    RetryWait,
    /// Done.
    Stopped,
}

/// What came of a step.
#[derive(Debug)]
pub enum ThreadEvent {
    /// Whether the thread has been asked to stop.
    Shutdown(bool),
    /// Whether there is an engine.
    Allocated(bool),
    /// The graph was built, or not.
    Built(Result<(), String>),
    /// The graph ended: build again for this reason, or stop.
    Ended(Option<RebuildReason>),
    /// A command came in.
    Command(EngineCommand),
    /// Nothing came in for a while.
    TimedOut,
    /// Nobody can send commands any more.
    Disconnected,
}

/// The audio thread.
#[derive(Debug)]
pub struct AudioThread {
    pub state: ThreadState,
    /// Why the next graph is built.
    pub reason: RebuildReason,
}

/// The step that follows.
pub open spec fn thread_next(state: ThreadState, event: ThreadEvent) -> ThreadState {
    match (state, event) {
        (ThreadState::Checking, ThreadEvent::Shutdown(asked)) => if asked {
            ThreadState::Stopped
        } else {
            ThreadState::Allocating
        },
        (ThreadState::Allocating, ThreadEvent::Allocated(ok)) => if ok {
            ThreadState::Building
        } else {
            ThreadState::Stopped
        },
        (ThreadState::Building, ThreadEvent::Built(result)) => if result is Ok {
            ThreadState::Running
        } else {
            ThreadState::RetryCheck
        },
        (ThreadState::Running, ThreadEvent::Ended(reason)) => if reason is Some {
            ThreadState::Checking
        } else {
            ThreadState::Stopped
        },
        (ThreadState::RetryCheck, ThreadEvent::Shutdown(asked)) => if asked {
            ThreadState::Stopped
        } else {
            ThreadState::RetryWait
        },
        (ThreadState::RetryWait, ThreadEvent::Command(command)) => match command {
            EngineCommand::Shutdown => ThreadState::Stopped,
            EngineCommand::Rebuild => ThreadState::Checking,
            _ => ThreadState::RetryCheck,
        },
        (ThreadState::RetryWait, ThreadEvent::TimedOut) => ThreadState::Checking,
        (ThreadState::RetryWait, ThreadEvent::Disconnected) => ThreadState::Stopped,
        _ => state,
    }
}

/// The reason for the next graph.
pub open spec fn reason_next(
    state: ThreadState,
    event: ThreadEvent,
    reason: RebuildReason,
) -> RebuildReason {
    match (state, event) {
        (ThreadState::Running, ThreadEvent::Ended(Some(next))) => next,
        (ThreadState::RetryWait, ThreadEvent::Command(EngineCommand::Rebuild)) =>
            RebuildReason::Requested,
        (ThreadState::RetryWait, ThreadEvent::TimedOut) => RebuildReason::Error,
        _ => reason,
    }
}

/// Whether `after` is what the status is once a step has been taken.
pub open spec fn thread_noted(
    state: ThreadState,
    event: ThreadEvent,
    before: EngineStatus,
    after: EngineStatus,
) -> bool {
    match (state, event) {
        (ThreadState::Allocating, ThreadEvent::Allocated(false)) => fails_with(
            before,
            after,
            "could not allocate the DSP engine"@,
        ),
        (ThreadState::Building, ThreadEvent::Built(Ok(_))) => after == (EngineStatus {
            rebuilds: next_count(before.rebuilds),
            last_error: None,
            running: true,
            ..before
        }),
        (ThreadState::Building, ThreadEvent::Built(Err(err))) => after == (EngineStatus {
            last_error: Some(err),
            running: false,
            ..before
        }),
        (ThreadState::Running, ThreadEvent::Ended(_)) => after == (EngineStatus {
            running: false,
            ..before
        }),
        _ => after == before,
    }
}

impl AudioThread {
    /// The thread begins, if the apartment that it needs is there.
    pub fn start(apartment: Result<(), String>, status: &mut EngineStatus) -> (r: Self)
        ensures
            r.reason == RebuildReason::Startup,
            apartment is Ok ==> r.state == ThreadState::Checking && *final(status) == *old(status),
            apartment is Err ==> r.state == ThreadState::Stopped && fails_with(
                *old(status),
                *final(status),
                "could not initialise COM on the audio thread: "@ + apartment->Err_0@,
            ),
    {
        match apartment {
            Ok(_) => AudioThread { state: ThreadState::Checking, reason: RebuildReason::Startup },
            Err(err) => {
                status.set_error(
                    prefixed("could not initialise COM on the audio thread: ", err.as_str()),
                );
                AudioThread { state: ThreadState::Stopped, reason: RebuildReason::Startup }
            },
        }
    }

    /// Takes what came of a step, and goes on to the next one.
    ///
    /// While there is no graph, a preset is absorbed rather than dropped: it
    /// takes effect once there is one. Other commands are dropped.
    pub fn advance(
        &mut self,
        event: ThreadEvent,
        status: &mut EngineStatus,
        pending: &mut Option<PendingPreset>,
    )
        ensures
            final(self).state == thread_next(old(self).state, event),
            final(self).reason == reason_next(old(self).state, event, old(self).reason),
            thread_noted(old(self).state, event, *old(status), *final(status)),
            old(self).state is RetryWait && event is Command && event->Command_0 is LoadPreset
                ==> *final(pending) == Some(
                PendingPreset {
                    path: event->Command_0->LoadPreset_path,
                    preset: event->Command_0->preset,
                },
            ),
            !(old(self).state is RetryWait && event is Command && event->Command_0 is LoadPreset)
                ==> *final(pending) == *old(pending),
    {
        match (self.state, event) {
            (ThreadState::Checking, ThreadEvent::Shutdown(asked)) => {
                self.state =
                if asked {
                    ThreadState::Stopped
                } else {
                    ThreadState::Allocating
                };
            },
            (ThreadState::Allocating, ThreadEvent::Allocated(ok)) => {
                if ok {
                    self.state = ThreadState::Building;
                } else {
                    status.set_error("could not allocate the DSP engine".to_owned());
                    self.state = ThreadState::Stopped;
                }
            },
            (ThreadState::Building, ThreadEvent::Built(result)) => {
                match result {
                    Ok(_) => {
                        status.rebuilds = count_more(status.rebuilds, 1);
                        status.clear_error();
                        status.running = true;
                        self.state = ThreadState::Running;
                    },
                    Err(err) => {
                        status.set_error(err);
                        status.running = false;
                        self.state = ThreadState::RetryCheck;
                    },
                }
            },
            (ThreadState::Running, ThreadEvent::Ended(reason)) => {
                status.running = false;
                match reason {
                    Some(next) => {
                        self.reason = next;
                        self.state = ThreadState::Checking;
                    },
                    None => {
                        self.state = ThreadState::Stopped;
                    },
                }
            },
            (ThreadState::RetryCheck, ThreadEvent::Shutdown(asked)) => {
                self.state =
                if asked {
                    ThreadState::Stopped
                } else {
                    ThreadState::RetryWait
                };
            },
            (ThreadState::RetryWait, ThreadEvent::Command(command)) => {
                match command {
                    EngineCommand::Shutdown => {
                        self.state = ThreadState::Stopped;
                    },
                    EngineCommand::Rebuild => {
                        self.reason = RebuildReason::Requested;
                        self.state = ThreadState::Checking;
                    },
                    EngineCommand::LoadPreset { path, preset } => {
                        *pending = Some(PendingPreset { path, preset });
                        self.state = ThreadState::RetryCheck;
                    },
                    _ => {
                        self.state = ThreadState::RetryCheck;
                    },
                }
            },
            (ThreadState::RetryWait, ThreadEvent::TimedOut) => {
                self.reason = RebuildReason::Error;
                self.state = ThreadState::Checking;
            },
            (ThreadState::RetryWait, ThreadEvent::Disconnected) => {
                self.state = ThreadState::Stopped;
            },
            _ => {},
        }
    }
}

// ---------------------------------------------------------------------------
// What holds of runs
// ---------------------------------------------------------------------------

/// A request to stop is always heeded, and never answered with a rebuild.
pub proof fn stopping_is_heeded(tick: u32)
    ensures
        graph_next(GraphState::Top, GraphEvent::Shutdown(true), tick) == GraphState::Ended(None),
        graph_next(
            GraphState::Draining,
            GraphEvent::Command(EngineCommand::Shutdown),
            tick,
        ) == GraphState::Ended(None),
        thread_next(ThreadState::Running, ThreadEvent::Ended(None)) == ThreadState::Stopped,
        thread_next(ThreadState::Checking, ThreadEvent::Shutdown(true)) == ThreadState::Stopped,
        thread_next(ThreadState::RetryCheck, ThreadEvent::Shutdown(true)) == ThreadState::Stopped,
        thread_next(
            ThreadState::RetryWait,
            ThreadEvent::Command(EngineCommand::Shutdown),
        ) == ThreadState::Stopped,
{
}

/// A run that ends in a rebuild has stopped the streams that it had started.
pub proof fn streams_are_stopped_before_a_rebuild(
    state: GraphState,
    event: GraphEvent,
    tick: u32,
    reason: RebuildReason,
)
    requires
        !(state is Ended),
        graph_next(state, event, tick) == GraphState::Ended(Some(reason)),
    ensures
        state is StartingRender || state is Undoing || state == GraphState::Stopping(reason),
        state is StartingRender || state is Undoing ==> reason == RebuildReason::Error,
{
}

/// What has ended stays so.
pub proof fn ended_is_final(end: Option<RebuildReason>, event: GraphEvent, tick: u32)
    ensures
        graph_next(GraphState::Ended(end), event, tick) == GraphState::Ended(end),
{
}

/// A thread that has stopped stays so.
pub proof fn stopped_is_final(event: ThreadEvent)
    ensures
        thread_next(ThreadState::Stopped, event) == ThreadState::Stopped,
{
}

/// A renamed device never interrupts playback.
pub proof fn renaming_does_not_rebuild(id: Option<String>, tick: u32)
    ensures
        graph_next(
            GraphState::Watching,
            GraphEvent::Device(DeviceEvent::PropertyChanged { endpoint_id: id }),
            tick,
        ) == GraphState::Watching,
{
}

/// An error never stops the thread once it has an engine: it goes on to build
/// another graph, or waits to.
pub proof fn errors_are_survived(state: ThreadState, event: ThreadEvent)
    requires
        thread_next(state, event) == ThreadState::Stopped,
        state != ThreadState::Stopped,
    ensures
        event is Shutdown || event is Disconnected || event == ThreadEvent::Allocated(false)
            || event == ThreadEvent::Ended(None) || (event is Command
            && event->Command_0 is Shutdown),
{
}

// ---------------------------------------------------------------------------
// What a command changes, and what it does not
// ---------------------------------------------------------------------------

/// A slider that is moved is the one that changes: every other effect, the
/// bands, the levels and the switches stay. A number that names no effect
/// changes nothing, and so does not make anyone look again.
pub proof fn an_effect_is_set(effect: i32, slider: u32, before: SharedParams, after: SharedParams)
    requires
        told((EngineCommand::SetEffect { effect, slider }), before, after),
    ensures
        forall|e: int|
            0 <= e < 5 ==> #[trigger] after.effects@[e] == (if e == effect {
                slider
            } else {
                before.effects@[e]
            }),
        after.band_gains == before.band_gains,
        after.num_bands == before.num_bands,
        after.enabled == before.enabled,
        after.eq_on == before.eq_on,
        after.balance == before.balance,
        after.master_gain == before.master_gain,
        after.normalization == before.normalization,
        after.volume_leveling == before.volume_leveling,
        after.filter_q == before.filter_q,
        after.generation == before.generation <==> !(0 <= effect <= 4),
{
}

/// A band that is moved is the one that changes, however many bands are in
/// use; all else stays. A number beyond the last band changes nothing.
pub proof fn a_band_is_set(band: usize, db: u32, before: SharedParams, after: SharedParams)
    requires
        told((EngineCommand::SetBandGain { band, db }), before, after),
    ensures
        forall|b: int|
            0 <= b < 31 ==> #[trigger] after.band_gains@[b] == (if b == band {
                db
            } else {
                before.band_gains@[b]
            }),
        after.effects == before.effects,
        after.num_bands == before.num_bands,
        after.enabled == before.enabled,
        after.eq_on == before.eq_on,
        after.balance == before.balance,
        after.master_gain == before.master_gain,
        after.normalization == before.normalization,
        after.volume_leveling == before.volume_leveling,
        after.filter_q == before.filter_q,
        after.generation == before.generation <==> band > 30,
{
}

/// A switch or a level that is set holds what was asked, all else stays, and
/// whoever compares generations sees that something changed.
pub proof fn a_level_is_set(command: EngineCommand, before: SharedParams, after: SharedParams)
    requires
        told(command, before, after),
        !(command is SetEffect),
        !(command is SetBandGain),
    ensures
        after.effects == before.effects,
        after.band_gains == before.band_gains,
        after.enabled == (if let EngineCommand::SetEnabled(on) = command {
            on
        } else {
            before.enabled
        }),
        after.eq_on == (if let EngineCommand::SetEqOn(on) = command {
            on
        } else {
            before.eq_on
        }),
        !(command is SetNumBands) ==> after.num_bands == before.num_bands,
        command is SetNumBands ==> 1 <= after.num_bands <= 31,
        (command is SetNumBands && 1 <= command->SetNumBands_0 <= 31) ==> after.num_bands
            == command->SetNumBands_0,
        after.balance == (if let EngineCommand::SetBalance(db) = command {
            db
        } else {
            before.balance
        }),
        after.master_gain == (if let EngineCommand::SetMasterGain(db) = command {
            db
        } else {
            before.master_gain
        }),
        after.normalization == (if let EngineCommand::SetNormalization(db) = command {
            db
        } else {
            before.normalization
        }),
        after.volume_leveling == (if let EngineCommand::SetVolumeLeveling(db) = command {
            db
        } else {
            before.volume_leveling
        }),
        after.filter_q == (if let EngineCommand::SetFilterQ(q) = command {
            q
        } else {
            before.filter_q
        }),
        after.generation == before.generation <==> (command is Shutdown || command is Rebuild
            || command is LoadPreset || command is SavePreset),
{
}

// ---------------------------------------------------------------------------
// What a running graph does in turn
// ---------------------------------------------------------------------------

/// Rendering is started before capture, and both before anything is served.
pub proof fn rendering_starts_first(tick: u32)
    ensures
        ({
            let first = graph_next(GraphState::Preparing, GraphEvent::Done, tick);
            let second = graph_next(first, GraphEvent::Started(Ok(())), tick);
            let third = graph_next(second, GraphEvent::Started(Ok(())), tick);
            first is StartingRender && second is StartingCapture && third is Top
        }),
        forall|state: GraphState, event: GraphEvent|
            (#[trigger] graph_next(state, event, tick)) is StartingCapture && !(state
                is StartingCapture) ==> state is StartingRender && event is Started
                && event->Started_0 is Ok,
{
}

/// A stream that does not start ends the graph with an error, and what was
/// started before it is undone first.
pub proof fn a_stream_that_does_not_start_ends_the_graph(err: String, tick: u32)
    ensures
        graph_next(GraphState::StartingRender, GraphEvent::Started(Err(err)), tick)
            == GraphState::Ended(Some(RebuildReason::Error)),
        ({
            let undoing = graph_next(
                GraphState::StartingCapture,
                GraphEvent::Started(Err(err)),
                tick,
            );
            &&& !(undoing is Ended)
            &&& graph_next(undoing, GraphEvent::Done, tick) == GraphState::Ended(
                Some(RebuildReason::Error),
            )
        }),
{
}

/// A pass with nothing to do looks for a command, then for a device, then lays
/// the parameters over the engine, and then waits.
pub proof fn a_quiet_pass_comes_to_waiting(tick: u32)
    ensures
        ({
            let commands = graph_next(GraphState::Top, GraphEvent::Shutdown(false), tick);
            let devices = graph_next(commands, GraphEvent::NoCommand, tick);
            let parameters = graph_next(devices, GraphEvent::NoDevice, tick);
            let waiting = graph_next(parameters, GraphEvent::Done, tick);
            commands is Draining && devices is Watching && parameters is Applying && waiting
                is Waiting
        }),
{
}

/// Every command is taken before the devices are looked at: one that sets
/// something, loads or saves comes back for the next, whatever came of it.
pub proof fn commands_are_drained(command: EngineCommand, ok: bool, tick: u32)
    requires
        !(command is Shutdown),
        !(command is Rebuild),
    ensures
        ({
            let next = graph_next(GraphState::Draining, GraphEvent::Command(command), tick);
            match command {
                EngineCommand::LoadPreset { .. } => next is Loading && graph_next(
                    next,
                    GraphEvent::Done,
                    tick,
                ) is Draining,
                EngineCommand::SavePreset { name, path } => next == (GraphState::Saving {
                    name,
                    path,
                }) && graph_next(next, GraphEvent::Saved(ok), tick) is Draining,
                _ => next is Draining,
            }
        }),
{
}

/// A graph is stopped to be built anew when that is asked for, when the default
/// output changes, when an endpoint of its own is gone, and when a stream
/// fails; and never for anything else.
pub proof fn a_rebuild_has_its_reason(state: GraphState, event: GraphEvent, tick: u32)
    requires
        !(state is Stopping),
    ensures
        (match graph_next(state, event, tick) {
            GraphState::Stopping(reason) => match reason {
                RebuildReason::Requested => state is Draining && event == GraphEvent::Command(
                    EngineCommand::Rebuild,
                ),
                RebuildReason::DefaultDeviceChanged => state is Watching && event is Device
                    && event->Device_0 is DefaultChanged,
                RebuildReason::DeviceUnplugged => state is LookingUp && event
                    == GraphEvent::Gone(true),
                RebuildReason::Error => (state is Capturing && event is Captured
                    && event->Captured_0 is Err) || (state is Rendering && event is Rendered
                    && event->Rendered_0 is Err),
                _ => false,
            },
            _ => !(state is Draining && event == GraphEvent::Command(EngineCommand::Rebuild))
                && !(state is Watching && event is Device && event->Device_0 is DefaultChanged)
                && !(state is LookingUp && event == GraphEvent::Gone(true)) && !(state is Capturing
                && event is Captured && event->Captured_0 is Err) && !(state is Rendering && event
                is Rendered && event->Rendered_0 is Err),
        }),
{
}

/// A device whose state changed is looked up by its own id, and the graph goes
/// on watching where it is still there.
pub proof fn a_changed_device_is_looked_up(id: String, tick: u32)
    ensures
        ({
            let next = graph_next(
                GraphState::Watching,
                GraphEvent::Device((DeviceEvent::StateChanged { endpoint_id: Some(id) })),
                tick,
            );
            &&& next == (GraphState::LookingUp { id })
            &&& graph_next(next, GraphEvent::Gone(false), tick) is Watching
        }),
{
}

/// Whatever wakes the graph, what was captured is taken in; the render side is
/// filled when it asked to be, or when nothing was heard for too long; and the
/// graph comes round again either way.
pub proof fn both_streams_are_served(code: u32, waiting: usize, bars: [u32; 10], tick: u32)
    ensures
        ({
            let woken = graph_next(GraphState::Waiting, GraphEvent::Signalled(code), tick);
            let taken = graph_next(woken, GraphEvent::Captured(Ok(())), tick);
            let filled = graph_next(taken, GraphEvent::Rendered(Ok(waiting)), tick);
            let shown = graph_next(filled, GraphEvent::Spectrum(bars), tick);
            &&& woken is Capturing <==> (code == 0 || code == 1 || code == 258)
            &&& taken is Rendering <==> (code == 1 || code == 258)
            &&& !(woken is Capturing) ==> woken is Top
            &&& !(taken is Rendering) ==> taken is Top
            &&& shown is Top
        }),
{
}

/// The spectrum is read at one render in eight: of any eight in a row, at
/// exactly one.
pub proof fn the_spectrum_is_read_every_eighth_time(tick: u32, waiting: usize)
    requires
        tick < 0xffff_ffff,
    ensures
        graph_next(GraphState::Rendering, GraphEvent::Rendered(Ok(waiting)), tick) is Metering
            <==> exists|n: int| #[trigger] (8 * n) == tick + 1,
{
    if (tick + 1) % 8 == 0 {
        let n: int = (tick + 1) / 8;
        assert(8 * n == tick + 1);
    }
    assert forall|n: int| #[trigger] (8 * n) == tick + 1 implies (tick + 1) % 8 == 0 by {}
}

/// The latency is the time that the waiting frames last, in whole
/// milliseconds, not rounded up.
pub proof fn the_latency_is_what_waits(frames: int, rate: u32)
    requires
        rate > 0,
        frames >= 0,
    ensures
        latency_of(frames, rate) * rate <= frames * 1000,
        latency_of(frames, rate) < 0xffff_ffff ==> frames * 1000 < (latency_of(frames, rate) + 1)
            * rate,
{
    let ms: int = frames * 1000 / (rate as int);
    vstd::arithmetic::div_mod::lemma_fundamental_div_mod(frames * 1000, rate as int);
    assert(rate * ms == ms * rate) by (nonlinear_arith);
    assert(ms * rate <= frames * 1000 < (ms + 1) * rate) by (nonlinear_arith)
        requires
            frames * 1000 == rate * ms + (frames * 1000) % (rate as int),
            0 <= (frames * 1000) % (rate as int) < rate,
    ;
    assert(ms >= 0) by (nonlinear_arith)
        requires
            frames * 1000 >= 0,
            frames * 1000 < (ms + 1) * rate,
            rate > 0,
    ;
    let r: int = latency_of(frames, rate) as int;
    assert(r * rate <= ms * rate) by (nonlinear_arith)
        requires
            r <= ms,
            rate > 0,
    ;
}

/// While a graph runs its status says nothing but what happened: an error is
/// shown when a stream fails and stays until then, the latency follows the
/// render side, the spectrum follows the meter and stays between nothing and
/// all, and a save is told as it went.
pub proof fn the_status_tells_what_happened(
    state: GraphState,
    event: GraphEvent,
    rate: u32,
    before: EngineStatus,
    after: EngineStatus,
)
    requires
        noted(state, event, rate, before, after),
    ensures
        after.running == before.running,
        after.rebuilds == before.rebuilds,
        after.latency_ms == before.latency_ms || (state is Rendering && event is Rendered),
        after.spectrum == before.spectrum || (state is Metering && event is Spectrum),
        after.presets_revision == before.presets_revision <==> !(state is Saving && event is Saved),
        (state is Saving && event is Saved) ==> after.last_save is Some && ({
            let (file, written) = after.last_save->0;
            &&& written == event->Saved_0
            &&& file@.take(state->name@.len() as int) == state->name@
            &&& file@.skip(state->name@.len() as int) == ".fac"@
        }),
        !(state is Saving && event is Saved) ==> after.last_save == before.last_save,
        (state is Capturing && event is Captured && event->Captured_0 is Err)
            ==> opt_text(after.last_error) == Some(event->Captured_0->Err_0@),
        (state is Rendering && event is Rendered && event->Rendered_0 is Err)
            ==> opt_text(after.last_error) == Some(event->Rendered_0->Err_0@),
        (state is StartingRender && event is Started && event->Started_0 is Err)
            ==> after.last_error is Some && event->Started_0->Err_0@.is_suffix_of(
            after.last_error->0@,
        ),
        (state is StartingCapture && event is Started && event->Started_0 is Err)
            ==> after.last_error is Some && event->Started_0->Err_0@.is_suffix_of(
            after.last_error->0@,
        ),
        after.last_error == before.last_error || (event is Started && event->Started_0 is Err) || (
        event is Captured && event->Captured_0 is Err) || (event is Rendered && event->Rendered_0
            is Err),
{
    if state is Saving && event is Saved {
        let (saved, _) = after.last_save->0;
        let file = saved@;
        assert(file.take(state->name@.len() as int) =~= state->name@);
        assert(file.skip(state->name@.len() as int) =~= ".fac"@);
    }
    if event is Started && event->Started_0 is Err {
        let err = event->Started_0->Err_0@;
        if state is StartingRender {
            assert(("could not start rendering: "@ + err).skip(
                "could not start rendering: "@.len() as int,
            ) =~= err);
        }
        if state is StartingCapture {
            assert(("could not start capture: "@ + err).skip(
                "could not start capture: "@.len() as int,
            ) =~= err);
        }
    }
}

/// A bar of the spectrum that lies between nothing and all is shown as it is.
pub proof fn bars_are_shown_as_read(
    bars: [u32; 10],
    rate: u32,
    before: EngineStatus,
    after: EngineStatus,
    i: int,
)
    requires
        noted(GraphState::Metering, GraphEvent::Spectrum(bars), rate, before, after),
        0 <= i < 10,
    ensures
        !float::below(bars@[i], float::ZERO) && !float::below(float::ONE, bars@[i])
            ==> after.spectrum@[i] == bars@[i],
        float::below(bars@[i], float::ZERO) ==> after.spectrum@[i] == float::ZERO,
        float::below(float::ONE, bars@[i]) ==> after.spectrum@[i] == float::ONE,
{
}

// ---------------------------------------------------------------------------
// What the thread does around its graphs
// ---------------------------------------------------------------------------

/// A thread that is not told to stop builds a graph and runs it; that it runs
/// is said as long as it does and no longer, and a graph that runs clears the
/// error of the one before.
pub proof fn a_graph_is_built_and_run(before: EngineStatus, after: EngineStatus)
    requires
        thread_noted(ThreadState::Building, ThreadEvent::Built(Ok(())), before, after),
    ensures
        after.running,
        after.last_error is None,
        after.rebuilds != before.rebuilds,
        ({
            let allocating = thread_next(ThreadState::Checking, ThreadEvent::Shutdown(false));
            let building = thread_next(allocating, ThreadEvent::Allocated(true));
            let running = thread_next(building, ThreadEvent::Built(Ok(())));
            allocating is Allocating && building is Building && running is Running
        }),
        forall|ended: EngineStatus, reason: Option<RebuildReason>|
            #[trigger] thread_noted(
                ThreadState::Running,
                ThreadEvent::Ended(reason),
                after,
                ended,
            ) ==> !ended.running && ended.last_error == after.last_error && ended.rebuilds
                == after.rebuilds,
{
}

/// A graph that could not be built leaves its error on show and is tried again
/// once the wait is over, or at once when that is asked for.
pub proof fn a_graph_that_fails_is_tried_again(
    err: String,
    reason: RebuildReason,
    before: EngineStatus,
    after: EngineStatus,
)
    requires
        thread_noted(ThreadState::Building, ThreadEvent::Built(Err(err)), before, after),
    ensures
        after.last_error == Some(err),
        !after.running,
        after.rebuilds == before.rebuilds,
        ({
            let failed = thread_next(ThreadState::Building, ThreadEvent::Built(Err(err)));
            let waiting = thread_next(failed, ThreadEvent::Shutdown(false));
            &&& thread_next(waiting, ThreadEvent::TimedOut) is Checking
            &&& reason_next(waiting, ThreadEvent::TimedOut, reason) is Error
            &&& thread_next(waiting, ThreadEvent::Command(EngineCommand::Rebuild)) is Checking
            &&& reason_next(waiting, ThreadEvent::Command(EngineCommand::Rebuild), reason)
                is Requested
        }),
{
}

/// A command that comes while waiting does not shorten the number of tries: the
/// thread asks whether to stop and waits again.
pub proof fn commands_do_not_end_the_wait(command: EngineCommand)
    requires
        !(command is Shutdown),
        !(command is Rebuild),
    ensures
        thread_next(
            thread_next(ThreadState::RetryWait, ThreadEvent::Command(command)),
            ThreadEvent::Shutdown(false),
        ) is RetryWait,
{
}

/// The thread stops when it is told to, when nobody is left to tell it, when
/// its graph was told to, and when no engine can be had; and for nothing else.
pub proof fn the_thread_stops_when_told(state: ThreadState, event: ThreadEvent)
    requires
        !(state is Stopped),
    ensures
        thread_next(state, event) is Stopped <==> ((state is Checking || state is RetryCheck)
            && event == ThreadEvent::Shutdown(true)) || (state is RetryWait && (event
            == ThreadEvent::Command(EngineCommand::Shutdown) || event is Disconnected)) || (state
            is Running && event is Ended && event->Ended_0 is None) || (state is Allocating && event
            == ThreadEvent::Allocated(false)),
{
}

/// A graph that ended to be built anew hands its reason on to the next one.
pub proof fn the_reason_is_handed_on(why: RebuildReason, reason: RebuildReason)
    ensures
        thread_next(ThreadState::Running, ThreadEvent::Ended(Some(why))) is Checking,
        reason_next(ThreadState::Running, ThreadEvent::Ended(Some(why)), reason) == why,
        reason_next(ThreadState::Checking, ThreadEvent::Shutdown(false), reason) == reason,
        reason_next(ThreadState::Allocating, ThreadEvent::Allocated(true), reason) == reason,
{
}

} // verus!
