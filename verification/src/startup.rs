//! Starting the application: in which order, and what happens when a part of it
//! cannot be had.
//!
//! The caller performs the step that the state names and hands back what came
//! of it. Routing comes before the engine, because the engine's choice of
//! output depends on which device the takeover displaced; and a start that
//! fails after the output was taken over gives it back. An outcome that does
//! not belong to the current step changes nothing.

use crate::app::{owed, takes_over, App, TakeoverPlan};
use crate::config::Config;
use crate::device::DeviceInfo;
use crate::routing::{on_card, restore_target, usable_card, EngageOutcome, Routing};
use crate::text::opt_text;
use vstd::prelude::*;
use vstd::string::*;

verus! {

/// The step that a start is at.
#[derive(Debug)]
pub enum StartState {
    /// Look at the outputs, to see whether one is owed.
    Recovering,
    /// Make this endpoint the default again.
    Restoring(String),
    /// Look at the outputs, to take over.
    TakingOver,
    /// Do what the plan says.
    Switching(TakeoverPlan),
    /// Save the settings.
    Recording,
    /// Start the audio engine, and tell it whether processing is on.
    StartingEngine,
    /// Put the icon on screen.
    AddingTray,
    /// Load this preset.
    Activating(String),
    /// Refresh what is polled.
    Refreshing,
    /// The application runs.
    Ready,
    /// Look at the devices, to give the output back.
    Releasing(String),
    /// Make this endpoint the default again, because the start failed.
    GivingBack { endpoint: String, reason: String },
    /// Save the settings, because the output was given back.
    Forgetting(String),
    /// The application could not start, for this reason.
    Failed(String),
}

/// What came of a step.
#[derive(Debug)]
pub enum StartEvent {
    /// What the outputs are: the virtual card and the default.
    Outputs { card: Option<DeviceInfo>, default: Result<DeviceInfo, String> },
    /// Whether the endpoint is the default again.
    Restored(bool),
    /// The plan was carried out; with the system's answer to the switch.
    Switched(Result<(), String>),
    /// It is done.
    Done,
    /// The engine was started, or not.
    Engine(Result<(), String>),
    /// The icon is on screen, or not.
    Tray(Result<(), String>),
    /// What devices there are, and which of them are active.
    Devices { all: Vec<DeviceInfo>, active: Vec<DeviceInfo> },
}

/// One start.
#[derive(Debug)]
pub struct Startup {
    pub state: StartState,
    /// The preset to start with.
    pub first: Option<String>,
    /// What the takeover came to, once it did.
    pub outcome: Option<EngageOutcome>,
}

/// What follows once nothing is owed any more.
pub open spec fn after_recovery(app: App) -> StartState {
    if app.config.take_over_default {
        StartState::TakingOver
    } else {
        StartState::Recording
    }
}

/// The application, with the marker cleared.
pub open spec fn unmarked(app: App) -> App {
    App { config: Config { previous_default_id: None, ..app.config }, ..app }
}

impl Startup {
    /// Whether a plan that is to be carried out still has something to do.
    pub open spec fn wf(self) -> bool {
        match self.state {
            StartState::Switching(plan) => plan.outcome is None,
            _ => true,
        }
    }
}

/// Whether a start goes on to `next`, and the application becomes `after`.
pub open spec fn start_step(
    run: Startup,
    event: StartEvent,
    before: App,
    next: Startup,
    after: App,
) -> bool {
    match (run.state, event) {
        (StartState::Recovering, StartEvent::Outputs { card, default }) => {
            &&& after == before
            &&& next == (Startup { state: next.state, ..run })
            &&& match owed(opt_text(before.config.previous_default_id), card, default) {
                Some(id) => next.state is Restoring && next.state->Restoring_0@ == id,
                None => next.state == after_recovery(before),
            }
        },
        (StartState::Restoring(_), StartEvent::Restored(restored)) => {
            &&& after == (if restored {
                unmarked(before)
            } else {
                before
            })
            &&& next == (Startup { state: after_recovery(before), ..run })
        },
        (StartState::TakingOver, StartEvent::Outputs { card, default }) => if !usable_card(card) {
            &&& after == before
            &&& next == (Startup {
                state: StartState::Recording,
                outcome: Some(EngageOutcome::NoVirtualCard),
                ..run
            })
        } else if on_card(card, default) {
            &&& after == before
            &&& next == (Startup {
                state: StartState::Recording,
                outcome: Some(EngageOutcome::AlreadyRouted),
                ..run
            })
        } else {
            &&& next.state is Switching
            &&& takes_over(next.state->Switching_0, before, after, card, default)
            &&& next == (Startup { state: next.state, ..run })
        },
        (StartState::Switching(plan), StartEvent::Switched(Ok(_))) => {
            &&& after == (App { routing: Routing { engaged: true, ..before.routing }, ..before })
            &&& next.outcome is Some
            &&& next.outcome->0 is Engaged
            &&& next.outcome->0->previous@ == (match before.routing.previous {
                Some(id) => id@,
                None => Seq::empty(),
            })
            &&& next == (Startup {
                state: StartState::Recording,
                outcome: next.outcome,
                ..run
            })
        },
        (StartState::Switching(plan), StartEvent::Switched(Err(err))) => {
            &&& after == (App {
                routing: Routing { previous: None, ..before.routing },
                config: Config { previous_default_id: plan.marker_before, ..before.config },
                ..before
            })
            &&& next == (Startup {
                state: StartState::Recording,
                outcome: Some(EngageOutcome::Failed(err)),
                ..run
            })
        },
        (StartState::Recording, StartEvent::Done) => {
            &&& after == before
            &&& next == (Startup { state: StartState::StartingEngine, ..run })
        },
        (StartState::StartingEngine, StartEvent::Engine(result)) => {
            &&& after == before
            &&& next == (Startup { state: next.state, ..run })
            &&& match result {
                Ok(_) => next.state is AddingTray,
                Err(err) => next.state is Releasing && next.state->Releasing_0@
                    == "could not start the audio engine: "@ + err@,
            }
        },
        (StartState::AddingTray, StartEvent::Tray(result)) => {
            &&& after == before
            &&& next.outcome == run.outcome
            &&& match result {
                Ok(_) => next.first is None && next.state == (match run.first {
                    Some(path) => StartState::Activating(path),
                    None => StartState::Refreshing,
                }),
                Err(err) => next.first == run.first && next.state == StartState::Releasing(err),
            }
        },
        (StartState::Activating(_), StartEvent::Done) => {
            &&& after == before
            &&& next == (Startup { state: StartState::Refreshing, ..run })
        },
        (StartState::Refreshing, StartEvent::Done) => {
            &&& after == before
            &&& next == (Startup { state: StartState::Ready, ..run })
        },
        (StartState::Releasing(reason), StartEvent::Devices { all, active }) => {
            &&& after == (App { routing: Routing { previous: None, engaged: false }, ..before })
            &&& next == (Startup { state: next.state, ..run })
            &&& match restore_target(opt_text(before.routing.previous), all@, active@) {
                Some(id) => next.state is GivingBack && next.state->endpoint@ == id
                    && next.state->reason == reason,
                None => next.state == StartState::Failed(reason),
            }
        },
        (StartState::GivingBack { reason, .. }, StartEvent::Restored(restored)) => {
            &&& after == (if restored {
                unmarked(before)
            } else {
                before
            })
            &&& next == (Startup {
                state: if restored {
                    StartState::Forgetting(reason)
                } else {
                    StartState::Failed(reason)
                },
                ..run
            })
        },
        (StartState::Forgetting(reason), StartEvent::Done) => {
            &&& after == before
            &&& next == (Startup { state: StartState::Failed(reason), ..run })
        },
        _ => next == run && after == before,
    }
}

fn recovered(app: &App) -> (r: StartState)
    ensures
        r == after_recovery(*app),
{
    if app.config.take_over_default {
        StartState::TakingOver
    } else {
        StartState::Recording
    }
}

impl Startup {
    /// A start that is about to begin, with the preset to start with.
    pub fn new(first: Option<String>) -> (r: Self)
        ensures
            r == (Startup { state: StartState::Recovering, first, outcome: None }),
            r.wf(),
    {
        Startup { state: StartState::Recovering, first, outcome: None }
    }

    /// Takes what came of a step, and goes on to the next one.
    pub fn advance(self, event: StartEvent, app: &mut App) -> (r: Self)
        requires
            self.wf(),
        ensures
            r.wf(),
            start_step(self, event, *old(app), r, *final(app)),
    {
        let Startup { state, first, outcome } = self;
        match (state, event) {
            (StartState::Recovering, StartEvent::Outputs { card, default }) => {
                let state = match app.recover(&card, &default) {
                    Some(id) => StartState::Restoring(id),
                    None => recovered(app),
                };
                Startup { state, first, outcome }
            },
            (StartState::Restoring(_), StartEvent::Restored(restored)) => {
                let state = recovered(app);
                app.recovered(restored);
                Startup { state, first, outcome }
            },
            (StartState::TakingOver, StartEvent::Outputs { card, default }) => {
                let plan = app.take_over(&card, &default);
                let TakeoverPlan { actions, outcome: over, marker_before } = plan;
                match over {
                    Some(known) => Startup {
                        state: StartState::Recording,
                        first,
                        outcome: Some(known),
                    },
                    None => Startup {
                        state: StartState::Switching(
                            TakeoverPlan { actions, outcome: None, marker_before },
                        ),
                        first,
                        outcome,
                    },
                }
            },
            (StartState::Switching(plan), StartEvent::Switched(result)) => {
                let (known, _) = app.took_over(plan, result);
                Startup { state: StartState::Recording, first, outcome: Some(known) }
            },
            (StartState::Recording, StartEvent::Done) => Startup {
                state: StartState::StartingEngine,
                first,
                outcome,
            },
            (StartState::StartingEngine, StartEvent::Engine(result)) => {
                let state = match result {
                    Ok(_) => StartState::AddingTray,
                    Err(err) => {
                        let mut reason: String = "could not start the audio engine: ".to_owned();
                        reason.append(err.as_str());
                        StartState::Releasing(reason)
                    },
                };
                Startup { state, first, outcome }
            },
            (StartState::AddingTray, StartEvent::Tray(result)) => match result {
                Ok(_) => match first {
                    Some(path) => Startup {
                        state: StartState::Activating(path),
                        first: None,
                        outcome,
                    },
                    None => Startup { state: StartState::Refreshing, first: None, outcome },
                },
                Err(err) => Startup { state: StartState::Releasing(err), first, outcome },
            },
            (StartState::Activating(_), StartEvent::Done) => Startup {
                state: StartState::Refreshing,
                first,
                outcome,
            },
            (StartState::Refreshing, StartEvent::Done) => Startup {
                state: StartState::Ready,
                first,
                outcome,
            },
            (StartState::Releasing(reason), StartEvent::Devices { all, active }) => {
                let state = match app.release(&all, &active) {
                    Some(endpoint) => StartState::GivingBack { endpoint, reason },
                    None => StartState::Failed(reason),
                };
                Startup { state, first, outcome }
            },
            (StartState::GivingBack { endpoint: _, reason }, StartEvent::Restored(restored)) => {
                app.recovered(restored);
                let state = if restored {
                    StartState::Forgetting(reason)
                } else {
                    StartState::Failed(reason)
                };
                Startup { state, first, outcome }
            },
            (StartState::Forgetting(reason), StartEvent::Done) => Startup {
                state: StartState::Failed(reason),
                first,
                outcome,
            },
            (state, _) => Startup { state, first, outcome },
        }
    }
}

// ---------------------------------------------------------------------------
// What holds of every start
// ---------------------------------------------------------------------------

/// The engine is started only once routing is settled and the settings, with
/// the marker for the way back, are on disk.
pub proof fn routing_comes_before_the_engine(
    run: Startup,
    event: StartEvent,
    before: App,
    next: Startup,
    after: App,
)
    requires
        start_step(run, event, before, next, after),
        next.state is StartingEngine,
        !(run.state is StartingEngine),
    ensures
        run.state is Recording,
        event is Done,
        after == before,
{
}

/// A start that fails once the output was taken over gives it back before it
/// ends: to the displaced device, as long as that one is active.
pub proof fn a_failed_start_gives_the_output_back(
    run: Startup,
    event: StartEvent,
    before: App,
    next: Startup,
    after: App,
)
    requires
        start_step(run, event, before, next, after),
        next.state is Failed,
        !(run.state is Failed),
    ensures
        after.config == before.config,
        (match run.state {
            // The output is the displaced one again, and the settings say so.
            StartState::Forgetting(_) => event is Done,
            // The system would not have it.
            StartState::GivingBack { .. } => event is Restored && !event->Restored_0,
            // Nothing was taken over, or nothing is left to give it to.
            StartState::Releasing(_) => event is Devices && restore_target(
                opt_text(before.routing.previous),
                event->all@,
                event->active@,
            ) is None,
            _ => false,
        }),
{
}

/// A start that has ended stays as it is.
pub proof fn a_start_ends_once(
    run: Startup,
    event: StartEvent,
    before: App,
    next: Startup,
    after: App,
)
    requires
        start_step(run, event, before, next, after),
        run.state is Ready || run.state is Failed,
    ensures
        next == run,
        after == before,
{
}

/// Nothing but the marker for the way back changes in the settings, and nothing
/// but what routing holds changes besides them.
pub proof fn a_start_changes_routing_only(
    run: Startup,
    event: StartEvent,
    before: App,
    next: Startup,
    after: App,
)
    requires
        run.wf(),
        start_step(run, event, before, next, after),
        !(run.state is TakingOver),
    ensures
        after == (App { config: after.config, routing: after.routing, ..before }),
        after.config == (Config {
            previous_default_id: after.config.previous_default_id,
            ..before.config
        }),
        run.state is Recording || run.state is StartingEngine || run.state is AddingTray || run.state
            is Activating || run.state is Refreshing ==> after == before,
{
}

/// Where something is owed it is given back before anything is taken over, and
/// the marker is cleared just where that went well.
pub proof fn what_is_owed_comes_first(
    run: Startup,
    card: Option<DeviceInfo>,
    default: Result<DeviceInfo, String>,
    restored: bool,
    first: App,
    second: App,
    third: App,
    next: Startup,
    last: Startup,
)
    requires
        run.state is Recovering,
        start_step(run, StartEvent::Outputs { card, default }, first, next, second),
        start_step(next, StartEvent::Restored(restored), second, last, third),
    ensures
        next.state is Restoring <==> owed(
            opt_text(first.config.previous_default_id),
            card,
            default,
        ) is Some,
        next.state is Restoring ==> next.state->Restoring_0@ == owed(
            opt_text(first.config.previous_default_id),
            card,
            default,
        )->0,
        second == first,
        next.state is Restoring && restored ==> third.config.previous_default_id is None,
        next.state is Restoring && !restored ==> third == first,
        next.state is Restoring ==> (last.state is TakingOver <==> first.config.take_over_default),
        next.state is Restoring ==> (last.state is Recording <==> !first.config.take_over_default),
        !(next.state is Restoring) ==> (next.state is TakingOver
            <==> first.config.take_over_default) && (next.state is Recording
            <==> !first.config.take_over_default),
{
}

/// A switch that went well is held on to, and one that did not leaves no trace:
/// the marker is what it was before, and nothing is remembered as displaced.
pub proof fn a_failed_switch_leaves_no_trace(
    run: Startup,
    result: Result<(), String>,
    before: App,
    next: Startup,
    after: App,
)
    requires
        run.state is Switching,
        start_step(run, StartEvent::Switched(result), before, next, after),
    ensures
        next.state is Recording,
        next.first == run.first,
        result is Ok ==> after.routing.engaged && after.routing.previous == before.routing.previous
            && after.config == before.config && next.outcome is Some && next.outcome->0 is Engaged,
        (result is Ok && before.routing.previous is Some) ==> next.outcome->0->previous@
            == before.routing.previous->0@,
        result is Err ==> after.routing.previous is None && after.routing.engaged
            == before.routing.engaged && after.config.previous_default_id
            == run.state->Switching_0.marker_before && next.outcome == Some(
            EngageOutcome::Failed(result->Err_0),
        ),
{
}

/// With nothing to take over there is nothing to switch, and why is told: there
/// is no card that can be used, or the output is on it already.
pub proof fn nothing_is_switched_without_need(
    run: Startup,
    card: Option<DeviceInfo>,
    default: Result<DeviceInfo, String>,
    before: App,
    next: Startup,
    after: App,
)
    requires
        run.state is TakingOver,
        start_step(run, StartEvent::Outputs { card, default }, before, next, after),
    ensures
        next.state is Switching <==> usable_card(card) && !on_card(card, default),
        next.state is Recording <==> !usable_card(card) || on_card(card, default),
        !usable_card(card) ==> next.outcome == Some(EngageOutcome::NoVirtualCard) && after == before,
        usable_card(card) && on_card(card, default) ==> next.outcome == Some(
            EngageOutcome::AlreadyRouted,
        ) && after == before,
        next.first == run.first,
{
}

/// A start that meets no error comes to its end: the settings are saved, the
/// engine starts, the icon is shown, the first preset is loaded where there is
/// one, what is polled is refreshed, and the application runs.
pub proof fn a_start_comes_to_its_end(
    run: Startup,
    app: App,
    engine: Startup,
    tray: Startup,
    shown: Startup,
    loaded: Startup,
    ready: Startup,
)
    requires
        run.state is Recording,
        start_step(run, StartEvent::Done, app, engine, app),
        start_step(engine, StartEvent::Engine(Ok(())), app, tray, app),
        start_step(tray, StartEvent::Tray(Ok(())), app, shown, app),
        start_step(shown, StartEvent::Done, app, loaded, app),
        start_step(loaded, StartEvent::Done, app, ready, app),
    ensures
        engine.state is StartingEngine,
        tray.state is AddingTray,
        run.first is Some ==> shown.state == StartState::Activating(run.first->0) && loaded.state
            is Refreshing,
        run.first is None ==> shown.state is Refreshing && loaded.state is Ready,
        ready.state is Ready,
        ready.outcome == run.outcome,
{
}

/// The reason for which a start failed is the one that it ends with, whatever
/// giving the output back came to.
pub proof fn a_failed_start_keeps_its_reason(
    run: Startup,
    event: StartEvent,
    before: App,
    next: Startup,
    after: App,
)
    requires
        start_step(run, event, before, next, after),
    ensures
        run.state is Releasing && event is Devices ==> (next.state is Failed
            && next.state->Failed_0 == run.state->Releasing_0) || (next.state is GivingBack
            && next.state->reason == run.state->Releasing_0),
        run.state is GivingBack && event is Restored ==> (next.state is Failed
            && next.state->Failed_0 == run.state->reason) || (next.state is Forgetting
            && next.state->Forgetting_0 == run.state->reason),
        run.state is Forgetting && event is Done ==> next.state == StartState::Failed(
            run.state->Forgetting_0,
        ),
        run.state is AddingTray && event is Tray && event->Tray_0 is Err ==> next.state
            == StartState::Releasing(event->Tray_0->Err_0),
        (run.state is StartingEngine && event is Engine && event->Engine_0 is Err) ==> next.state
            is Releasing && event->Engine_0->Err_0@.is_suffix_of(next.state->Releasing_0@),
        run.state is Releasing && event is Devices ==> after.routing.previous is None
            && !after.routing.engaged,
        run.state is GivingBack && event == StartEvent::Restored(true)
            ==> after.config.previous_default_id is None,
{
    if run.state is StartingEngine && event is Engine && event->Engine_0 is Err {
        let err = event->Engine_0->Err_0@;
        let head = "could not start the audio engine: "@;
        assert((head + err).skip(head.len() as int) =~= err);
    }
}

} // verus!
