//! Taking over, and giving back, the system's default playback device.
//!
//! The enhancer only works while the system default output is the virtual
//! card, which has no speaker of its own. The takeover happens once; nothing
//! is switched while the card is absent or inactive; and the displaced
//! endpoint is recorded before the switch, so that a process that is killed
//! leaves a trail to follow.

use crate::device::{
    device_by_id, find_by_id, first_by_name, first_physical_by_name, DeviceInfo, DeviceState,
};
use crate::perapp::EndpointWrite;
use crate::router::{clears, live_processes, processes_of, Router};
use crate::session::Session;
use crate::text::{opt_str, opt_text, same_text};
use vstd::prelude::*;
use vstd::string::*;

verus! {

/// How much of the takeover actually happened.
#[derive(Debug, PartialEq, Eq)]
pub enum EngageOutcome {
    /// The default output now points at the virtual card, displacing
    /// `previous`.
    Engaged { previous: String },
    /// It already pointed at the virtual card; nothing was changed.
    AlreadyRouted,
    /// The virtual card is not installed, or not active. Nothing to do.
    NoVirtualCard,
    /// The switch was attempted and failed.
    Failed(String),
}

impl EngageOutcome {
    /// Whether the machine's routing was changed by this call.
    pub fn changed(&self) -> (r: bool)
        ensures
            r == (*self is Engaged),
    {
        match self {
            EngageOutcome::Engaged { .. } => true,
            _ => false,
        }
    }
}

/// Owns the difference between the machine's routing and the one needed.
#[derive(Debug)]
pub struct Routing {
    /// The endpoint displaced by the takeover, while it is displaced.
    pub previous: Option<String>,
    /// Whether the default output is currently pointing at the virtual card
    /// because of us.
    pub engaged: bool,
}

/// How a takeover begins.
#[derive(Debug, PartialEq, Eq)]
pub enum EngageStep {
    /// There is nothing to switch, and this is the outcome.
    Over(EngageOutcome),
    /// Record the displaced endpoint, if there is one, and then make `target`
    /// the default.
    Switch { target: String },
}

/// Whether the card can be switched to.
pub open spec fn usable_card(card: Option<DeviceInfo>) -> bool {
    card is Some && card->0.state == DeviceState::Active
}

/// Whether the machine is on the card right now.
pub open spec fn on_card(card: Option<DeviceInfo>, default: Result<DeviceInfo, String>) -> bool {
    card is Some && default is Ok && default->Ok_0.id@ == card->0.id@
}

/// The endpoint that a displaced default leaves to be restored.
pub open spec fn displaced(default: Result<DeviceInfo, String>) -> Option<Seq<char>> {
    match default {
        Ok(current) => Some(current.id@),
        Err(_) => None,
    }
}

impl Routing {
    /// Nothing taken over yet.
    pub fn new() -> (r: Self)
        ensures
            r.previous is None,
            !r.engaged,
    {
        Routing { previous: None, engaged: false }
    }

    /// Which endpoint undoes a takeover that a previous run could not undo
    /// itself.
    ///
    /// It only acts when the evidence is unambiguous: a note was left, and the
    /// machine is currently pointed at the virtual card.
    pub fn recover(
        remembered: Option<&str>,
        card: &Option<DeviceInfo>,
        default: &Result<DeviceInfo, String>,
    ) -> (r: Option<String>)
        ensures
            opt_text(r) == (if on_card(*card, *default) {
                opt_str(remembered)
            } else {
                None
            }),
    {
        match (remembered, card, default) {
            (Some(id), Some(card), Ok(default)) => {
                if same_text(default.id.as_str(), card.id.as_str()) {
                    Some(id.to_owned())
                } else {
                    None
                }
            },
            _ => None,
        }
    }

    /// Begins to point the default output at the virtual card, if it is not
    /// there already.
    ///
    /// The displaced endpoint is remembered before the switch. A later
    /// takeover overwrites it: if the user had since moved to headphones,
    /// those are what a restore owes them.
    pub fn engage(&mut self, card: &Option<DeviceInfo>, default: &Result<DeviceInfo, String>) -> (r:
        EngageStep)
        ensures
            !usable_card(*card) ==> r == EngageStep::Over(EngageOutcome::NoVirtualCard)
                && *final(self) == *old(self),
            usable_card(*card) && on_card(*card, *default) ==> r == EngageStep::Over(
                EngageOutcome::AlreadyRouted,
            ) && *final(self) == *old(self),
            usable_card(*card) && !on_card(*card, *default) ==> {
                &&& r is Switch && r->target@ == card->0.id@
                &&& final(self).engaged == old(self).engaged
                &&& opt_text(final(self).previous) == displaced(*default)
            },
    {
        let card = match card {
            Some(card) => card,
            None => {
                return EngageStep::Over(EngageOutcome::NoVirtualCard);
            },
        };
        match card.state {
            DeviceState::Active => {},
            _ => {
                return EngageStep::Over(EngageOutcome::NoVirtualCard);
            },
        }
        match default {
            Ok(current) => {
                if same_text(current.id.as_str(), card.id.as_str()) {
                    return EngageStep::Over(EngageOutcome::AlreadyRouted);
                }
                self.previous = Some(current.id.clone());
            },
            Err(_) => {
                self.previous = None;
            },
        }
        EngageStep::Switch { target: card.id.clone() }
    }

    /// Concludes a takeover with the system's answer to the switch.
    pub fn switched(&mut self, result: Result<(), String>) -> (r: EngageOutcome)
        ensures
            result is Ok ==> {
                &&& final(self).engaged
                &&& final(self).previous == old(self).previous
                &&& r is Engaged
                &&& r->previous@ == (match old(self).previous {
                    Some(id) => id@,
                    None => Seq::empty(),
                })
            },
            result is Err ==> {
                &&& final(self).engaged == old(self).engaged
                &&& final(self).previous is None
                &&& r == EngageOutcome::Failed(result->Err_0)
            },
    {
        match result {
            Ok(_) => {
                self.engaged = true;
                let previous = match &self.previous {
                    Some(id) => id.clone(),
                    None => String::new(),
                };
                EngageOutcome::Engaged { previous }
            },
            Err(message) => {
                self.previous = None;
                EngageOutcome::Failed(message)
            },
        }
    }

    /// Which endpoint gives the displaced output back, if one is owed.
    ///
    /// Safe to call more than once, and when nothing was taken over. The
    /// displaced device may have been unplugged meanwhile; then any active
    /// physical output takes its place.
    pub fn release(&mut self, all: &Vec<DeviceInfo>, active: &Vec<DeviceInfo>) -> (r: Option<
        String,
    >)
        ensures
            !final(self).engaged,
            final(self).previous is None,
            opt_text(r) == restore_target(opt_text(old(self).previous), all@, active@),
    {
        self.engaged = false;
        let previous = match self.previous.take() {
            Some(id) => id,
            None => {
                return None;
            },
        };
        if let Some(info) = device_by_id(all, previous.as_str()) {
            if let DeviceState::Active = info.state {
                return Some(info.id);
            }
        }
        match first_physical_by_name(active, None) {
            Some(info) => Some(info.id),
            None => None,
        }
    }

    /// Whether the default output points at the virtual card thanks to us.
    pub fn engaged(&self) -> (r: bool)
        ensures
            r == self.engaged,
    {
        self.engaged
    }

    /// The displaced endpoint, for the crash marker.
    pub fn previous(&self) -> (r: Option<&str>)
        ensures
            opt_str(r) == opt_text(self.previous),
    {
        match &self.previous {
            Some(id) => Some(id.as_str()),
            None => None,
        }
    }
}

/// The endpoint to put back for a displaced one: itself, while it is active,
/// else the first physical one by name.
pub open spec fn restore_target(
    previous: Option<Seq<char>>,
    all: Seq<DeviceInfo>,
    active: Seq<DeviceInfo>,
) -> Option<Seq<char>> {
    match previous {
        None => None,
        Some(id) => {
            let found = find_by_id(all, id);
            if found is Some && found->0.state == DeviceState::Active {
                Some(found->0.id@)
            } else {
                match first_by_name(active, None) {
                    Some(info) => Some(info.id@),
                    None => None,
                }
            }
        },
    }
}

/// Whether the system's default output is the virtual card right now.
pub fn default_is_routed_through_card(
    card: &Option<DeviceInfo>,
    default: &Result<DeviceInfo, String>,
) -> (r: bool)
    ensures
        r == on_card(*card, *default),
{
    match (card, default) {
        (Some(card), Ok(default)) => same_text(default.id.as_str(), card.id.as_str()),
        _ => false,
    }
}

/// What is left to do for the output once recovery was tried.
#[derive(Debug, PartialEq, Eq)]
pub enum Rescue {
    /// Recovery put the output back.
    Recovered,
    /// The output is not on the card.
    NotNeeded,
    /// The output is on the card and there is nothing to fall back to.
    NoOutput,
    /// Make this endpoint the default.
    Restore(String),
}

/// Whether `r` is what is left to do for the output.
pub open spec fn rescues(
    r: Rescue,
    recovered: bool,
    card: Option<DeviceInfo>,
    default: Result<DeviceInfo, String>,
    active: Seq<DeviceInfo>,
) -> bool {
    if recovered {
        r is Recovered
    } else if !on_card(card, default) {
        r is NotNeeded
    } else {
        match first_by_name(active, None) {
            Some(info) => r is Restore && r->Restore_0@ == info.id@,
            None => r is NoOutput,
        }
    }
}

/// Puts the default output back on a real device, with or without a marker.
///
/// [`Routing::recover`] is the normal path and needs the marker; `recovered`
/// tells whether it worked. Otherwise, where the machine is still pointing at
/// the card, any active physical output beats silence.
pub fn rescue_output(
    recovered: bool,
    card: &Option<DeviceInfo>,
    default: &Result<DeviceInfo, String>,
    active: &Vec<DeviceInfo>,
) -> (r: Rescue)
    ensures
        rescues(r, recovered, *card, *default, active@),
{
    if recovered {
        return Rescue::Recovered;
    }
    if !default_is_routed_through_card(card, default) {
        return Rescue::NotNeeded;
    }
    match first_physical_by_name(active, None) {
        Some(info) => Rescue::Restore(info.id),
        None => Rescue::NoOutput,
    }
}

/// A device's name for the log, or the raw id when the device is already gone.
pub fn endpoint_name(all: &Vec<DeviceInfo>, id: &str) -> (r: String)
    ensures
        r@ == (match find_by_id(all@, id@) {
            Some(info) => info.name@,
            None => id@,
        }),
{
    match device_by_id(all, id) {
        Some(info) => info.name,
        None => id.to_owned(),
    }
}

/// The writes that remove every per-application output override held for a
/// live process, and how many processes are visited.
///
/// Where the facility is missing nothing can be cleared, and none is visited.
pub fn release_per_app_overrides(router: &Router, sessions: &Vec<Session>) -> (r: (
    Vec<Vec<EndpointWrite>>,
    usize,
))
    ensures
        router.policy is None ==> r.0@.len() == 0 && r.1 == 0,
        router.policy is Some ==> clears(r.0@, live_processes(sessions@)) && r.1 == live_processes(
            sessions@,
        ).len(),
{
    if !router.policy_available() {
        return (Vec::new(), 0);
    }
    let visited = processes_of(sessions);
    (router.release_all(sessions), visited.len())
}

/// What a takeover displaced is what giving it back restores, as long as that
/// device is still active.
pub proof fn release_undoes_engage(
    default: Result<DeviceInfo, String>,
    all: Seq<DeviceInfo>,
    active: Seq<DeviceInfo>,
)
    requires
        default is Ok,
        find_by_id(all, default->Ok_0.id@) is Some,
        find_by_id(all, default->Ok_0.id@)->0.state == DeviceState::Active,
    ensures
        restore_target(displaced(default), all, active) == Some(default->Ok_0.id@),
{
    lemma_found_by_id(all, default->Ok_0.id@);
}

proof fn lemma_found_by_id(devices: Seq<DeviceInfo>, id: Seq<char>)
    ensures
        find_by_id(devices, id) is Some ==> find_by_id(devices, id)->0.id@ == id,
    decreases devices.len(),
{
    if devices.len() > 0 {
        lemma_found_by_id(devices.drop_first(), id);
    }
}

/// What is restored never is the virtual card, unless it is the very endpoint
/// that was displaced.
pub proof fn restoring_avoids_the_card(
    previous: Seq<char>,
    all: Seq<DeviceInfo>,
    active: Seq<DeviceInfo>,
)
    ensures
        ({
            let target = restore_target(Some(previous), all, active);
            target is Some && target->0 != previous ==> exists|i: int|
                0 <= i < active.len() && (#[trigger] active[i]).id@ == target->0
                    && !active[i].is_virtual
        }),
{
    crate::device::lemma_first_by_name(active, None);
    lemma_found_by_id(all, previous);
    match first_by_name(active, None) {
        Some(info) => {
            let i = choose|i: int| 0 <= i < active.len() && active[i] == info;
            assert(active[i].id@ == info.id@ && !active[i].is_virtual);
        },
        None => {},
    }
}

/// The machine is on the card exactly if the card and a default are there and
/// they are the same endpoint.
pub proof fn on_the_card_means_the_same_endpoint(
    card: Option<DeviceInfo>,
    default: Result<DeviceInfo, String>,
)
    ensures
        card is None || default is Err ==> !on_card(card, default),
        card is Some && default is Ok ==> (on_card(card, default) <==> card->0.id@
            == default->Ok_0.id@),
        card is None ==> !usable_card(card),
        card is Some ==> (usable_card(card) <==> card->0.state == DeviceState::Active),
        default is Ok ==> displaced(default) == Some(default->Ok_0.id@),
        default is Err ==> displaced(default) is None,
{
}

/// Giving back: nothing where nothing was displaced; the displaced endpoint
/// itself while it is there and active; else a physical one that is active; and
/// nothing only where there is none of these.
pub proof fn what_is_given_back(
    previous: Seq<char>,
    all: Seq<DeviceInfo>,
    active: Seq<DeviceInfo>,
    k: int,
)
    ensures
        restore_target(None, all, active) is None,
        0 <= k < all.len() && all[k].id@ == previous && all[k].state == DeviceState::Active && (forall|
            j: int,
        |
            0 <= j < k ==> (#[trigger] all[j]).id@ != previous) ==> restore_target(
            Some(previous),
            all,
            active,
        ) == Some(previous),
        (forall|j: int|
            0 <= j < all.len() && (#[trigger] all[j]).id@ == previous ==> all[j].state
                != DeviceState::Active) ==> {
            let target = restore_target(Some(previous), all, active);
            &&& target is Some == exists|i: int|
                0 <= i < active.len() && !(#[trigger] active[i]).is_virtual
            &&& target is Some ==> exists|i: int|
                0 <= i < active.len() && (#[trigger] active[i]).id@ == target->0
                    && !active[i].is_virtual
        },
{
    crate::device::lemma_first_by_name(active, None);
    crate::device::lemma_find_by_id(all, previous);
    if 0 <= k < all.len() && all[k].id@ == previous && (forall|j: int|
        0 <= j < k ==> (#[trigger] all[j]).id@ != previous) {
        crate::device::a_device_is_found_by_its_id(all, previous, k);
    }
    assert forall|i: int| 0 <= i < active.len() && !(#[trigger] active[i]).is_virtual implies
        crate::device::eligible(active[i], None) by {}
    match first_by_name(active, None) {
        Some(info) => {
            let i = choose|i: int| 0 <= i < active.len() && active[i] == info;
            assert(active[i].id@ == info.id@ && !active[i].is_virtual);
        },
        None => {},
    }
    if exists|i: int| 0 <= i < active.len() && !(#[trigger] active[i]).is_virtual {
        let i = choose|i: int| 0 <= i < active.len() && !(#[trigger] active[i]).is_virtual;
        assert(crate::device::eligible(active[i], None));
    }
}

/// A rescue leaves the output alone unless it is on the card, and then puts it
/// on a physical device wherever one is active.
pub proof fn a_rescue_ends_silence(
    r: Rescue,
    recovered: bool,
    card: Option<DeviceInfo>,
    default: Result<DeviceInfo, String>,
    active: Seq<DeviceInfo>,
)
    requires
        rescues(r, recovered, card, default, active),
    ensures
        recovered <==> r is Recovered,
        r is Restore ==> !recovered && on_card(card, default) && exists|i: int|
            0 <= i < active.len() && (#[trigger] active[i]).id@ == r->Restore_0@
                && !active[i].is_virtual,
        r is NotNeeded ==> !on_card(card, default),
        r is NoOutput ==> on_card(card, default) && forall|i: int|
            0 <= i < active.len() ==> (#[trigger] active[i]).is_virtual,
{
    crate::device::lemma_first_by_name(active, None);
    match first_by_name(active, None) {
        Some(info) => {
            let i = choose|i: int| 0 <= i < active.len() && active[i] == info;
            assert(active[i].id@ == info.id@ && !active[i].is_virtual);
        },
        None => {
            assert forall|i: int| 0 <= i < active.len() implies (#[trigger] active[i]).is_virtual by {
                assert(!crate::device::eligible(active[i], None));
            }
        },
    }
}

} // verus!
