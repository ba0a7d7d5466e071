//! Application wiring: the state that connects the tray, the engine and the
//! machine's routing, and what each event comes to.
//!
//! Every method tells what is to be done on the machine, in order, as a list of
//! [`AppAction`]s. What depends on the machine's answer is a method of its own
//! that takes the answer.

use crate::config::Config;
use crate::device::DeviceInfo;
use crate::engine::SharedParams;
use crate::float;
use crate::i18n::{
    current, lang_code, lang_of_code, lang_of_index, lang_of_system, resolve, strings_of, t,
    tooltip_text, Lang, LanguageCell,
};
use crate::path::{opt_paths_equal, paths_equal, same_opt_path, same_path};
use crate::perapp::{EndpointWrite, Factory};
use crate::preset::PresetEntry;
use crate::process::{same_app, AppKey};
use crate::router::{
    clears, copy_rules, live_processes, rule_index, running, with_rule, without_rule, RouteMethod,
    RouteRule, RouteTarget, Router,
};
use crate::routing::{
    displaced, on_card, restore_target, usable_card, EngageOutcome, EngageStep, Routing,
};
use crate::session::Session;
use crate::text::{chars_of, copy_opt, found, occurs, opt_str, opt_text};
use vstd::prelude::*;
use vstd::string::*;

verus! {

/// How often the tooltip and the driver menu are refreshed, in milliseconds.
pub const REFRESH_INTERVAL_MS: u64 = 1000;

/// Something to be done on the machine or in the interface.
#[derive(Debug)]
pub enum AppAction {
    /// Write the settings to disk.
    SaveConfig,
    /// Stop the audio engine, and wait for it.
    StopEngine,
    /// Make this endpoint the default.
    SetDefault(String),
    /// Carry out these writes of the per-application policy.
    WriteEndpoint(Vec<EndpointWrite>),
    /// Hand the windows a fresh view of the routing rules.
    PublishRoutes,
    /// Load this preset into the engine.
    LoadPreset(String),
    /// Record the selected preset where the panel sees it.
    PublishPreset(String),
    SetStreamVolume { device_id: String, instance_id: String, level: u32 },
    SetStreamMute { device_id: String, instance_id: String, muted: bool },
    SetDeviceVolume { endpoint_id: String, level: u32 },
    SetDeviceMuted { endpoint_id: String, muted: bool },
    TrayEnabled(bool),
    TrayAutostart(bool),
    TrayPreset(Option<String>),
    /// Rebuild the list of presets in the menu.
    TrayPresets,
    /// Relabel the menu.
    TrayRetitle,
    /// Put the ticks of the language menu right.
    TrayLanguageTicks,
    /// Refresh the tooltip and everything that is polled.
    Refresh,
}

/// What the user can choose in the tray.
#[derive(Debug)]
pub enum TrayAction {
    Quit,
    ToggleEnabled,
    ToggleAutostart,
    SelectPreset(String),
    OpenPanel,
    OpenMixer,
    InstallDriver,
    RemoveDriver,
    ReloadPresets,
    RouteOutput,
    SetLanguage(Lang),
}

/// What the mixer can ask for.
#[derive(Debug)]
pub enum MixerCommand {
    SetAppTarget { app: AppKey, display_name: String, target: RouteTarget },
    SetRuleEnabled { app: AppKey, enabled: bool },
    RemoveRule { app: AppKey },
    /// The streams of one application, by endpoint and instance.
    SetAppVolume { streams: Vec<(String, String)>, level: u32 },
    SetAppMute { streams: Vec<(String, String)>, muted: bool },
    SetDefaultDevice { endpoint_id: String },
    SetDeviceVolume { endpoint_id: String, level: u32 },
    SetDeviceMuted { endpoint_id: String, muted: bool },
}

/// The running application.
#[derive(Debug)]
pub struct App {
    pub config: Config,
    pub presets: Vec<PresetEntry>,
    pub active_preset: Option<String>,
    /// Owns the difference between the machine's output routing and the one
    /// needed.
    pub routing: Routing,
    /// Whether a takeover has already been attempted for the virtual card's
    /// current appearance.
    pub routing_attempted: bool,
    /// The preset-folder revision already reacted to.
    pub seen_presets_revision: u64,
    /// Per-application output routing: who plays where.
    pub router: Router,
    pub language: LanguageCell,
}

// ---------------------------------------------------------------------------
// Starting
// ---------------------------------------------------------------------------

/// The preset to start with: the remembered one while its file is there, else
/// one with "Music" in its name, else whatever sorted first.
pub open spec fn first_preset(
    remembered: Option<String>,
    is_file: bool,
    presets: Seq<PresetEntry>,
) -> Option<Seq<char>> {
    if remembered is Some && is_file {
        Some(remembered->0@)
    } else if music_preset(presets) is Some {
        Some(music_preset(presets)->0.path@)
    } else if presets.len() > 0 {
        Some(presets[0].path@)
    } else {
        None
    }
}

/// The first preset with "Music" in its name, in either language.
pub open spec fn music_preset(presets: Seq<PresetEntry>) -> Option<PresetEntry>
    decreases presets.len(),
{
    if presets.len() == 0 {
        None
    } else if occurs(presets[0].name@, "音乐"@) || occurs(presets[0].name@, "Music"@) {
        Some(presets[0])
    } else {
        music_preset(presets.drop_first())
    }
}

/// Picks the preset to start with.
pub fn initial_preset(
    remembered: &Option<String>,
    is_file: bool,
    presets: &Vec<PresetEntry>,
) -> (r: Option<String>)
    ensures
        opt_text(r) == first_preset(*remembered, is_file, presets@),
{
    if let Some(path) = remembered {
        if is_file {
            return Some(path.clone());
        }
    }
    let zh = chars_of("音乐");
    let en = chars_of("Music");
    let mut i: usize = 0;
    assert(presets@.skip(0) =~= presets@);
    while i < presets.len()
        invariant
            i <= presets@.len(),
            zh@ == "音乐"@,
            en@ == "Music"@,
            !(*remembered is Some && is_file),
            music_preset(presets@) == music_preset(presets@.skip(i as int)),
        decreases presets@.len() - i,
    {
        let name = chars_of(presets[i].name.as_str());
        if found(name.as_slice(), zh.as_slice()) || found(name.as_slice(), en.as_slice()) {
            return Some(presets[i].path.clone());
        }
        assert(presets@.skip(i as int).drop_first() =~= presets@.skip(i + 1));
        i = i + 1;
    }
    if presets.len() > 0 {
        Some(presets[0].path.clone())
    } else {
        None
    }
}

/// The endpoint that is owed after a run that was killed: the one that the
/// marker names, while the machine is still on the card.
pub open spec fn owed(
    marker: Option<Seq<char>>,
    card: Option<DeviceInfo>,
    default: Result<DeviceInfo, String>,
) -> Option<Seq<char>> {
    if on_card(card, default) {
        marker
    } else {
        None
    }
}

/// How a takeover goes about it.
#[derive(Debug)]
pub struct TakeoverPlan {
    /// What has to be done, in order, before the answer to the last of it
    /// decides.
    pub actions: Vec<AppAction>,
    /// What the takeover came to, where there was nothing to do.
    pub outcome: Option<EngageOutcome>,
    /// What the marker was before.
    pub marker_before: Option<String>,
}

/// Whether `plan` is how to point the default at the card: the marker for the
/// displaced endpoint goes to disk first, and only then the switch is made.
pub open spec fn takes_over(
    plan: TakeoverPlan,
    before: App,
    after: App,
    card: Option<DeviceInfo>,
    default: Result<DeviceInfo, String>,
) -> bool {
    &&& plan.marker_before == before.config.previous_default_id
    &&& if !usable_card(card) {
        &&& plan.outcome == Some(EngageOutcome::NoVirtualCard)
        &&& plan.actions@.len() == 0
        &&& after == before
    } else if on_card(card, default) {
        &&& plan.outcome == Some(EngageOutcome::AlreadyRouted)
        &&& plan.actions@.len() == 0
        &&& after == before
    } else {
        &&& plan.outcome is None
        &&& plan.actions@.len() == 2
        &&& plan.actions@[0] is SaveConfig
        &&& plan.actions@[1] is SetDefault
        &&& plan.actions@[1]->SetDefault_0@ == card->0.id@
        &&& opt_text(after.routing.previous) == displaced(default)
        &&& after.config.previous_default_id == (if default is Ok {
            after.routing.previous
        } else {
            before.config.previous_default_id
        })
        &&& after == (App {
            routing: Routing { previous: after.routing.previous, ..before.routing },
            config: Config {
                previous_default_id: after.config.previous_default_id,
                ..before.config
            },
            ..before
        })
    }
}

impl App {
    /// Puts together the application from its settings, the presets there are,
    /// the system's language and the policy facility.
    pub fn start(
        config: Config,
        presets: Vec<PresetEntry>,
        langid: u16,
        policy: Option<Factory>,
    ) -> (r: App)
        ensures
            r.config == config,
            r.presets == presets,
            r.active_preset is None,
            r.routing.previous is None && !r.routing.engaged,
            r.routing_attempted == config.take_over_default,
            r.seen_presets_revision == 0,
            r.router.rules@ == config.routes@,
            r.router.policy == policy,
            r.router.applied_set() == Set::<(usize, u32)>::empty(),
            lang_of_index(r.language.index) == (match lang_of_code(config.language@) {
                Some(lang) => lang,
                None => lang_of_system(langid),
            }),
    {
        let mut language = LanguageCell::new();
        crate::i18n::set(&mut language, resolve(config.language.as_str(), langid));
        let router = Router::new(copy_rules(&config.routes), policy);
        let routing_attempted: bool = config.take_over_default;
        App {
            config,
            presets,
            active_preset: None,
            routing: Routing::new(),
            routing_attempted,
            seen_presets_revision: 0,
            router,
            language,
        }
    }

    /// Which endpoint undoes the takeover of a run that was killed, if one is
    /// owed.
    pub fn recover(&self, card: &Option<DeviceInfo>, default: &Result<DeviceInfo, String>) -> (r:
        Option<String>)
        ensures
            opt_text(r) == owed(opt_text(self.config.previous_default_id), *card, *default),
    {
        match &self.config.previous_default_id {
            Some(id) => Routing::recover(Some(id.as_str()), card, default),
            None => None,
        }
    }

    /// Takes note of whether the endpoint owed was restored. The marker is
    /// cleared only after a clean restore.
    pub fn recovered(&mut self, restored: bool)
        ensures
            *final(self) == (if restored {
                App {
                    config: Config { previous_default_id: None, ..old(self).config },
                    ..*old(self)
                }
            } else {
                *old(self)
            }),
    {
        if restored {
            self.config.previous_default_id = None;
        }
    }

    /// Begins to point the default output at the virtual card.
    pub fn take_over(
        &mut self,
        card: &Option<DeviceInfo>,
        default: &Result<DeviceInfo, String>,
    ) -> (r: TakeoverPlan)
        ensures
            takes_over(r, *old(self), *final(self), *card, *default),
    {
        let marker_before = copy_opt(&self.config.previous_default_id);
        let mut actions: Vec<AppAction> = Vec::new();
        match self.routing.engage(card, default) {
            EngageStep::Over(outcome) => TakeoverPlan {
                actions,
                outcome: Some(outcome),
                marker_before,
            },
            EngageStep::Switch { target } => {
                if default.is_ok() {
                    self.config.previous_default_id = copy_opt(&self.routing.previous);
                }
                actions.push(AppAction::SaveConfig);
                actions.push(AppAction::SetDefault(target));
                TakeoverPlan { actions, outcome: None, marker_before }
            },
        }
    }

    /// Concludes a takeover with the system's answer to the switch.
    ///
    /// A switch that failed displaced nothing, so the marker goes back to what
    /// it was.
    pub fn took_over(&mut self, plan: TakeoverPlan, result: Result<(), String>) -> (r: (
        EngageOutcome,
        Vec<AppAction>,
    ))
        requires
            plan.outcome is None,
        ensures
            result is Ok ==> {
                &&& *final(self) == (App {
                    routing: Routing { engaged: true, ..old(self).routing },
                    ..*old(self)
                })
                &&& r.0 is Engaged
                &&& r.0->previous@ == (match old(self).routing.previous {
                    Some(id) => id@,
                    None => Seq::empty(),
                })
                &&& r.1@.len() == 0
            },
            result is Err ==> {
                &&& *final(self) == (App {
                    routing: Routing { previous: None, ..old(self).routing },
                    config: Config { previous_default_id: plan.marker_before, ..old(self).config },
                    ..*old(self)
                })
                &&& r.0 == EngageOutcome::Failed(result->Err_0)
                &&& r.1@ == seq![AppAction::SaveConfig]
            },
    {
        let failed: bool = result.is_err();
        let mut actions: Vec<AppAction> = Vec::new();
        let outcome = self.routing.switched(result);
        if failed {
            self.config.previous_default_id = plan.marker_before;
            actions.push(AppAction::SaveConfig);
            assert(actions@ =~= seq![AppAction::SaveConfig]);
        }
        (outcome, actions)
    }

    /// Which endpoint gives the displaced output back, if one is owed.
    pub fn release(&mut self, all: &Vec<DeviceInfo>, active: &Vec<DeviceInfo>) -> (r: Option<
        String,
    >)
        ensures
            *final(self) == (App {
                routing: Routing { previous: None, engaged: false },
                ..*old(self)
            }),
            opt_text(r) == restore_target(opt_text(old(self).routing.previous), all@, active@),
    {
        self.routing.release(all, active)
    }

    /// The order in which the application shuts down: the engine stops before
    /// the output goes back to the physical card, so that the enhanced and the
    /// unenhanced stream are never on the same speaker. The settings are saved
    /// last, whatever the restore came to; [`App::recovered`] takes note of
    /// that in between.
    pub fn shutdown(&mut self, all: &Vec<DeviceInfo>, active: &Vec<DeviceInfo>) -> (r: Vec<
        AppAction,
    >)
        ensures
            *final(self) == (App {
                routing: Routing { previous: None, engaged: false },
                ..*old(self)
            }),
            ({
                let target = restore_target(opt_text(old(self).routing.previous), all@, active@);
                &&& r@.len() == (if target is Some {
                    3int
                } else {
                    2
                })
                &&& r@[0] is StopEngine
                &&& target is Some ==> r@[1] is SetDefault && r@[1]->SetDefault_0@ == target->0
                &&& r@.last() is SaveConfig
            }),
    {
        let mut actions: Vec<AppAction> = Vec::new();
        actions.push(AppAction::StopEngine);
        if let Some(target) = self.release(all, active) {
            actions.push(AppAction::SetDefault(target));
        }
        actions.push(AppAction::SaveConfig);
        actions
    }
}

// ---------------------------------------------------------------------------
// Ticking
// ---------------------------------------------------------------------------

/// What a pass of the event loop does.
#[derive(Debug)]
pub enum TickStep {
    /// Act on everything that the mixer asked for.
    PumpMixer,
    /// Refresh what is polled.
    Refresh,
    /// Act on what the user chose.
    Act(TrayAction),
    /// Leave.
    Quit,
}

/// One pass of the event loop, in order: the mixer's requests, the refresh if
/// it is due, and then what the user chose. The menu is asked before the
/// icon's own clicks, so that a stray click cannot shadow a menu choice.
pub open spec fn tick_steps(
    due: bool,
    menu: Option<TrayAction>,
    icon: Option<TrayAction>,
) -> Seq<TickStep> {
    let chosen = if menu is Some {
        menu
    } else {
        icon
    };
    seq![TickStep::PumpMixer] + (if due {
        seq![TickStep::Refresh]
    } else {
        Seq::empty()
    }) + (match chosen {
        Some(TrayAction::Quit) => seq![TickStep::Quit],
        Some(action) => seq![TickStep::Act(action)],
        None => Seq::empty(),
    })
}

impl App {
    /// Runs one pass of the event loop, given the time since the last refresh.
    pub fn tick(since_refresh_ms: u64, menu: Option<TrayAction>, icon: Option<TrayAction>) -> (r: Vec<
        TickStep,
    >)
        ensures
            r@ == tick_steps(since_refresh_ms >= 1000, menu, icon),
    {
        let mut steps: Vec<TickStep> = Vec::new();
        steps.push(TickStep::PumpMixer);
        if since_refresh_ms >= REFRESH_INTERVAL_MS {
            steps.push(TickStep::Refresh);
        }
        let ghost front = steps@;
        assert(front =~= seq![TickStep::PumpMixer] + (if since_refresh_ms >= 1000 {
            seq![TickStep::Refresh]
        } else {
            Seq::empty()
        }));
        let chosen = match menu {
            Some(action) => Some(action),
            None => icon,
        };
        match chosen {
            Some(TrayAction::Quit) => {
                steps.push(TickStep::Quit);
                assert(steps@ =~= front + seq![TickStep::Quit]);
            },
            Some(action) => {
                steps.push(TickStep::Act(action));
                assert(steps@ =~= front + seq![TickStep::Act(action)]);
            },
            None => {
                assert(steps@ =~= front + Seq::<TickStep>::empty());
            },
        }
        steps
    }
}

/// What the panel may have changed, and what that comes to.
pub open spec fn selection_actions(
    config_enabled: bool,
    enabled: bool,
    active: Option<String>,
    selected: Option<String>,
) -> Seq<AppAction> {
    (if enabled != config_enabled {
        seq![AppAction::TrayEnabled(enabled), AppAction::SaveConfig]
    } else {
        Seq::empty()
    }) + (if !same_opt_path(opt_text(active), opt_text(selected)) {
        seq![AppAction::TrayPreset(selected), AppAction::SaveConfig]
    } else {
        Seq::empty()
    })
}

impl App {
    /// Copies what the panel may have changed into the settings and the tray
    /// menu: whether processing is on, and the selected preset.
    pub fn reconcile_selection(&mut self, enabled: bool, selected: Option<String>) -> (r: Vec<
        AppAction,
    >)
        ensures
            r@ == selection_actions(
                old(self).config.enabled,
                enabled,
                old(self).active_preset,
                selected,
            ),
            *final(self) == (if !same_opt_path(opt_text(old(self).active_preset), opt_text(selected)) {
                App {
                    active_preset: selected,
                    config: Config { enabled, active_preset: selected, ..old(self).config },
                    ..*old(self)
                }
            } else {
                App { config: Config { enabled, ..old(self).config }, ..*old(self) }
            }),
    {
        let mut actions: Vec<AppAction> = Vec::new();
        if enabled != self.config.enabled {
            self.config.enabled = enabled;
            actions.push(AppAction::TrayEnabled(enabled));
            actions.push(AppAction::SaveConfig);
        }
        if !opt_paths_equal(&self.active_preset, &selected) {
            actions.push(AppAction::TrayPreset(copy_opt(&selected)));
            actions.push(AppAction::SaveConfig);
            self.config.active_preset = copy_opt(&selected);
            self.active_preset = selected;
        }
        assert(actions@ =~= selection_actions(
            old(self).config.enabled,
            enabled,
            old(self).active_preset,
            selected,
        ));
        actions
    }

    /// Takes note of the preset folder's revision, and tells whether the
    /// presets have to be listed again.
    pub fn note_revision(&mut self, revision: u64) -> (r: bool)
        ensures
            r == (revision != old(self).seen_presets_revision),
            *final(self) == (App { seen_presets_revision: revision, ..*old(self) }),
    {
        let changed: bool = revision != self.seen_presets_revision;
        self.seen_presets_revision = revision;
        changed
    }

    /// Whether to try a late takeover now. The card can appear after the
    /// start.
    ///
    /// Tried once for each appearance of the card, so that one that is present
    /// but unusable is not retried every second, and only while nothing has
    /// been taken over, which is also what stops this from fighting a user who
    /// moved the output by hand.
    pub fn late_takeover(&mut self, driver_present: bool, enabled: bool) -> (r: bool)
        ensures
            tries_late(*old(self), driver_present, enabled, *final(self), r),
    {
        if !driver_present {
            self.routing_attempted = false;
            return false;
        }
        if self.config.take_over_default && enabled && !self.routing.engaged
            && !self.routing_attempted {
            self.routing_attempted = true;
            return true;
        }
        false
    }

    /// The active preset's display name.
    pub fn active_name(&self) -> (r: Option<String>)
        ensures
            opt_text(r) == name_of_preset(self.presets@, opt_text(self.active_preset)),
    {
        let active = match &self.active_preset {
            Some(path) => path,
            None => {
                return None;
            },
        };
        let mut i: usize = 0;
        assert(self.presets@.skip(0) =~= self.presets@);
        while i < self.presets.len()
            invariant
                i <= self.presets@.len(),
                opt_text(self.active_preset) == Some(active@),
                name_of_preset(self.presets@, Some(active@)) == name_of_preset(
                    self.presets@.skip(i as int),
                    Some(active@),
                ),
            decreases self.presets@.len() - i,
        {
            if paths_equal(self.presets[i].path.as_str(), active.as_str()) {
                return Some(self.presets[i].name.clone());
            }
            assert(self.presets@.skip(i as int).drop_first() =~= self.presets@.skip(i + 1));
            i = i + 1;
        }
        None
    }

    /// The tray's tooltip.
    ///
    /// While audio is processed it tells whether the output actually flows
    /// through the enhancer.
    pub fn tooltip(
        &self,
        driver_present: bool,
        enabled: bool,
        is_running: bool,
        routed: bool,
        last_error: Option<&str>,
    ) -> (r: String)
        ensures
            r@ == tooltip_of(*self, driver_present, enabled, is_running, routed, opt_str(last_error)),
    {
        let text = t(&self.language).tray;
        if !driver_present {
            text.tooltip_no_card.to_owned()
        } else if !enabled {
            text.tooltip_disabled.to_owned()
        } else if is_running {
            let name = self.active_name();
            let route_lost: bool = self.config.take_over_default && !routed;
            let shown: Option<&str> = match &name {
                Some(n) => Some(n.as_str()),
                None => None,
            };
            text.tooltip_playing(shown, last_error, route_lost)
        } else {
            text.tooltip_idle.to_owned()
        }
    }

    /// Switches processing on or off, as the tray does.
    pub fn toggle_enabled(&mut self, params: &mut SharedParams) -> (r: Vec<AppAction>)
        ensures
            *final(self) == (App {
                config: Config { enabled: !old(self).config.enabled, ..old(self).config },
                ..*old(self)
            }),
            *final(params) == (SharedParams {
                enabled: !old(self).config.enabled,
                generation: crate::engine::next_count(old(params).generation),
                ..*old(params)
            }),
            r@ == seq![
                AppAction::TrayEnabled(!old(self).config.enabled),
                AppAction::SaveConfig,
                AppAction::Refresh,
            ],
            final(self).config.enabled != old(self).config.enabled,
            final(params).enabled == final(self).config.enabled,
            r@[0] == AppAction::TrayEnabled(final(self).config.enabled),
    {
        self.config.enabled = !self.config.enabled;
        params.set_enabled(self.config.enabled);
        let mut actions: Vec<AppAction> = Vec::new();
        actions.push(AppAction::TrayEnabled(self.config.enabled));
        actions.push(AppAction::SaveConfig);
        actions.push(AppAction::Refresh);
        assert(actions@ =~= seq![
            AppAction::TrayEnabled(!old(self).config.enabled),
            AppAction::SaveConfig,
            AppAction::Refresh,
        ]);
        actions
    }

    /// Takes note of what the registry says after start-at-logon was switched:
    /// what is in force, and not what was wanted, is recorded.
    pub fn toggle_autostart(&mut self, in_force: bool) -> (r: Vec<AppAction>)
        ensures
            *final(self) == (App {
                config: Config { autostart: in_force, ..old(self).config },
                ..*old(self)
            }),
            r@ == seq![AppAction::SaveConfig, AppAction::TrayAutostart(in_force)],
    {
        self.config.autostart = in_force;
        let mut actions: Vec<AppAction> = Vec::new();
        actions.push(AppAction::SaveConfig);
        actions.push(AppAction::TrayAutostart(in_force));
        assert(actions@ =~= seq![AppAction::SaveConfig, AppAction::TrayAutostart(in_force)]);
        actions
    }

    /// Loads a preset into the engine and records it. A file that could not be
    /// read changes nothing.
    pub fn activate_preset(&mut self, path: &str, readable: bool) -> (r: Vec<AppAction>)
        ensures
            activates(*old(self), path@, readable, *final(self), r@),
    {
        let mut actions: Vec<AppAction> = Vec::new();
        if !readable {
            return actions;
        }
        self.active_preset = Some(path.to_owned());
        self.config.active_preset = Some(path.to_owned());
        actions.push(AppAction::LoadPreset(path.to_owned()));
        actions.push(AppAction::PublishPreset(path.to_owned()));
        actions.push(AppAction::TrayPreset(Some(path.to_owned())));
        actions.push(AppAction::SaveConfig);
        actions
    }

    /// Takes the presets that were listed anew.
    pub fn reload_presets(&mut self, presets: Vec<PresetEntry>) -> (r: Vec<AppAction>)
        ensures
            *final(self) == (App { presets, ..*old(self) }),
            r@ == seq![AppAction::TrayPresets, AppAction::TrayPreset(old(self).active_preset)],
    {
        self.presets = presets;
        let mut actions: Vec<AppAction> = Vec::new();
        actions.push(AppAction::TrayPresets);
        actions.push(AppAction::TrayPreset(copy_opt(&self.active_preset)));
        assert(actions@ =~= seq![
            AppAction::TrayPresets,
            AppAction::TrayPreset(old(self).active_preset),
        ]);
        actions
    }

    /// Switches the interface language.
    ///
    /// Picking the one that is in force changes nothing but the ticks of the
    /// menu, which the click has just toggled. Any other is recorded as an
    /// explicit choice.
    pub fn set_language(&mut self, lang: Lang) -> (r: Vec<AppAction>)
        ensures
            lang == lang_of_index(old(self).language.index) ==> *final(self) == *old(self) && r@
                == seq![AppAction::TrayLanguageTicks],
            lang != lang_of_index(old(self).language.index) ==> {
                &&& lang_of_index(final(self).language.index) == lang
                &&& final(self).config.language@ == lang_code(lang)
                &&& *final(self) == (App {
                    language: final(self).language,
                    config: Config { language: final(self).config.language, ..old(self).config },
                    ..*old(self)
                })
                &&& r@ == seq![AppAction::TrayRetitle, AppAction::SaveConfig, AppAction::Refresh]
            },
    {
        let mut actions: Vec<AppAction> = Vec::new();
        if lang == current(&self.language) {
            actions.push(AppAction::TrayLanguageTicks);
            assert(actions@ =~= seq![AppAction::TrayLanguageTicks]);
            return actions;
        }
        crate::i18n::set(&mut self.language, lang);
        self.config.language = lang.code().to_owned();
        actions.push(AppAction::TrayRetitle);
        actions.push(AppAction::SaveConfig);
        actions.push(AppAction::Refresh);
        assert(actions@ =~= seq![
            AppAction::TrayRetitle,
            AppAction::SaveConfig,
            AppAction::Refresh,
        ]);
        actions
    }

    /// Prepares the manual retry of the takeover.
    pub fn route_output(&mut self)
        ensures
            *final(self) == (App {
                config: Config { take_over_default: true, ..old(self).config },
                routing_attempted: true,
                ..*old(self)
            }),
    {
        self.config.take_over_default = true;
        self.routing_attempted = true;
    }
}

/// The display name of the preset with a path.
pub open spec fn name_of_preset(presets: Seq<PresetEntry>, path: Option<Seq<char>>) -> Option<
    Seq<char>,
>
    decreases presets.len(),
{
    if presets.len() == 0 || path is None {
        None
    } else if same_path(presets[0].path@, path->0) {
        Some(presets[0].name@)
    } else {
        name_of_preset(presets.drop_first(), path)
    }
}

/// The tooltip for a state of affairs.
pub open spec fn tooltip_of(
    app: App,
    driver_present: bool,
    enabled: bool,
    is_running: bool,
    routed: bool,
    last_error: Option<Seq<char>>,
) -> Seq<char> {
    let text = strings_of(lang_of_index(app.language.index)).tray;
    if !driver_present {
        text.tooltip_no_card@
    } else if !enabled {
        text.tooltip_disabled@
    } else if is_running {
        tooltip_text(
            text.no_preset@,
            text.not_enhanced@,
            name_of_preset(app.presets@, opt_text(app.active_preset)),
            last_error,
            app.config.take_over_default && !routed,
        )
    } else {
        text.tooltip_idle@
    }
}


// ---------------------------------------------------------------------------
// The mixer
// ---------------------------------------------------------------------------

/// Whether the routing rules became `rules`, and the settings with them.
pub open spec fn rules_became(before: App, after: App, rules: Seq<RouteRule>) -> bool {
    &&& after.router.rules@ == rules
    &&& after.config.routes@ == rules
    &&& after.router.applied_set() == Set::<(usize, u32)>::empty()
    &&& after.router.policy == before.router.policy
    &&& after.router.injection == before.router.injection
    &&& after == (App {
        router: after.router,
        config: Config { routes: after.config.routes, ..before.config },
        ..before
    })
}

/// Whether `after` is what a command of the mixer makes of the application,
/// and `actions` what it asks for.
pub open spec fn mixer_step(
    command: MixerCommand,
    before: App,
    after: App,
    actions: Seq<AppAction>,
    pids: Seq<u32>,
    apps: Seq<Option<AppKey>>,
) -> bool {
    let persist = seq![AppAction::SaveConfig, AppAction::PublishRoutes];
    match command {
        MixerCommand::SetAppTarget { app, display_name, target } => {
            &&& rules_became(
                before,
                after,
                with_rule(
                    before.router.rules@,
                    RouteRule {
                        app,
                        display_name,
                        target,
                        method: RouteMethod::Policy,
                        enabled: true,
                    },
                ),
            )
            &&& actions == persist
        },
        MixerCommand::SetRuleEnabled { app, enabled } => match rule_index(
            before.router.rules@,
            app@,
        ) {
            Some(i) => {
                &&& rules_became(
                    before,
                    after,
                    with_rule(
                        before.router.rules@,
                        RouteRule { enabled, ..before.router.rules@[i] },
                    ),
                )
                &&& actions == persist
            },
            None => after == before && actions.len() == 0,
        },
        MixerCommand::RemoveRule { app } => {
            let gone = if before.router.policy is Some {
                running(pids, apps, app@)
            } else {
                Seq::empty()
            };
            &&& rules_became(before, after, without_rule(before.router.rules@, app@))
            &&& actions.len() == gone.len() + 2
            &&& forall|i: int|
                0 <= i < gone.len() ==> (#[trigger] actions[i]) is WriteEndpoint
                    && crate::perapp::writes_both_roles(
                    actions[i]->WriteEndpoint_0@,
                    gone[i],
                    Seq::empty(),
                )
            &&& actions.skip(gone.len() as int) == persist
        },
        MixerCommand::SetAppVolume { streams, level } => {
            &&& after == before
            &&& actions.len() == streams@.len()
            &&& forall|i: int|
                0 <= i < streams@.len() ==> #[trigger] actions[i] == (AppAction::SetStreamVolume {
                    device_id: streams@[i].0,
                    instance_id: streams@[i].1,
                    level,
                })
        },
        MixerCommand::SetAppMute { streams, muted } => {
            &&& after == before
            &&& actions.len() == streams@.len()
            &&& forall|i: int|
                0 <= i < streams@.len() ==> #[trigger] actions[i] == (AppAction::SetStreamMute {
                    device_id: streams@[i].0,
                    instance_id: streams@[i].1,
                    muted,
                })
        },
        MixerCommand::SetDefaultDevice { endpoint_id } => {
            &&& after == before
            &&& actions == seq![AppAction::SetDefault(endpoint_id)]
        },
        MixerCommand::SetDeviceVolume { endpoint_id, level } => {
            &&& after == before
            &&& actions == seq![
                AppAction::SetDeviceVolume {
                    endpoint_id,
                    level: float::clamped(level, float::ZERO, float::ONE),
                },
            ]
        },
        MixerCommand::SetDeviceMuted { endpoint_id, muted } => {
            &&& after == before
            &&& actions == seq![AppAction::SetDeviceMuted { endpoint_id, muted }]
        },
    }
}

impl App {
    /// Writes the current rule set into the settings, and asks for them to be
    /// saved and shown.
    fn persist_routes(&mut self, actions: &mut Vec<AppAction>)
        ensures
            final(self).config.routes@ == old(self).router.rules@,
            *final(self) == (App {
                config: Config { routes: final(self).config.routes, ..old(self).config },
                ..*old(self)
            }),
            final(actions)@ == old(actions)@ + seq![
                AppAction::SaveConfig,
                AppAction::PublishRoutes,
            ],
    {
        self.config.routes = copy_rules(&self.router.rules);
        actions.push(AppAction::SaveConfig);
        actions.push(AppAction::PublishRoutes);
        assert(actions@ =~= old(actions)@ + seq![AppAction::SaveConfig, AppAction::PublishRoutes]);
    }

    /// Carries out one request from the mixer.
    ///
    /// Pointing an application at a second device moves its rule rather than
    /// adding a contradictory one; removing a rule also undoes it on the
    /// processes that are running right now. `apps` are the applications of
    /// the live processes.
    pub fn handle_mixer_command(
        &mut self,
        command: MixerCommand,
        sessions: &Vec<Session>,
        apps: &Vec<Option<AppKey>>,
    ) -> (r: Vec<AppAction>)
        requires
            apps@.len() == live_processes(sessions@).len(),
        ensures
            mixer_step(
                command,
                *old(self),
                *final(self),
                r@,
                live_processes(sessions@),
                apps@,
            ),
    {
        let mut actions: Vec<AppAction> = Vec::new();
        match command {
            MixerCommand::SetAppTarget { app, display_name, target } => {
                self.router.upsert(RouteRule::new(app, display_name, target));
                self.persist_routes(&mut actions);
                assert(actions@ =~= seq![AppAction::SaveConfig, AppAction::PublishRoutes]);
            },
            MixerCommand::SetRuleEnabled { app, enabled } => {
                let existing: Option<RouteRule> = match self.router.rule_for(&app) {
                    Some(rule) => Some(rule.clone()),
                    None => None,
                };
                if let Some(rule) = existing {
                    let mut changed: RouteRule = rule;
                    changed.enabled = enabled;
                    self.router.upsert(changed);
                    self.persist_routes(&mut actions);
                    assert(actions@ =~= seq![AppAction::SaveConfig, AppAction::PublishRoutes]);
                }
            },
            MixerCommand::RemoveRule { app } => {
                let mut lists = self.router.remove(&app, sessions, apps);
                let ghost all = lists@;
                let ghost mut done: int = 0;
                assert(all.skip(0) =~= all);
                while lists.len() > 0
                    invariant
                        0 <= done <= all.len(),
                        lists@ == all.skip(done),
                        actions@.len() == done,
                        forall|i: int|
                            0 <= i < done ==> #[trigger] actions@[i] == AppAction::WriteEndpoint(
                                all[i],
                            ),
                    decreases lists@.len(),
                {
                    let list = lists.remove(0);
                    actions.push(AppAction::WriteEndpoint(list));
                    proof {
                        assert(lists@ =~= all.skip(done + 1));
                        done = done + 1;
                    }
                }
                let ghost front = actions@;
                self.persist_routes(&mut actions);
                proof {
                    assert(actions@.skip(front.len() as int) =~= seq![
                        AppAction::SaveConfig,
                        AppAction::PublishRoutes,
                    ]);
                    let gone = if old(self).router.policy is Some {
                        running(live_processes(sessions@), apps@, app@)
                    } else {
                        Seq::empty()
                    };
                    assert forall|i: int| 0 <= i < gone.len() implies (#[trigger] actions@[i]) is WriteEndpoint
                        && crate::perapp::writes_both_roles(
                        actions@[i]->WriteEndpoint_0@,
                        gone[i],
                        Seq::empty(),
                    ) by {
                        assert(actions@[i] == front[i]);
                        assert(clears(all, gone));
                        assert(crate::perapp::writes_both_roles(
                            all[i]@,
                            gone[i],
                            Seq::<char>::empty(),
                        ));
                    }
                }
            },
            MixerCommand::SetAppVolume { streams, level } => {
                let mut i: usize = 0;
                while i < streams.len()
                    invariant
                        i <= streams@.len(),
                        actions@.len() == i,
                        forall|k: int|
                            0 <= k < i ==> #[trigger] actions@[k] == (AppAction::SetStreamVolume {
                                device_id: streams@[k].0,
                                instance_id: streams@[k].1,
                                level,
                            }),
                    decreases streams@.len() - i,
                {
                    actions.push(
                        AppAction::SetStreamVolume {
                            device_id: streams[i].0.clone(),
                            instance_id: streams[i].1.clone(),
                            level,
                        },
                    );
                    i = i + 1;
                }
            },
            MixerCommand::SetAppMute { streams, muted } => {
                let mut i: usize = 0;
                while i < streams.len()
                    invariant
                        i <= streams@.len(),
                        actions@.len() == i,
                        forall|k: int|
                            0 <= k < i ==> #[trigger] actions@[k] == (AppAction::SetStreamMute {
                                device_id: streams@[k].0,
                                instance_id: streams@[k].1,
                                muted,
                            }),
                    decreases streams@.len() - i,
                {
                    actions.push(
                        AppAction::SetStreamMute {
                            device_id: streams[i].0.clone(),
                            instance_id: streams[i].1.clone(),
                            muted,
                        },
                    );
                    i = i + 1;
                }
            },
            MixerCommand::SetDefaultDevice { endpoint_id } => {
                actions.push(AppAction::SetDefault(endpoint_id));
                assert(actions@ =~= seq![AppAction::SetDefault(endpoint_id)]);
            },
            MixerCommand::SetDeviceVolume { endpoint_id, level } => {
                let held: u32 = crate::endpoint::set_volume(level);
                actions.push(AppAction::SetDeviceVolume { endpoint_id, level: held });
                assert(actions@ =~= seq![
                    AppAction::SetDeviceVolume { endpoint_id, level: held },
                ]);
            },
            MixerCommand::SetDeviceMuted { endpoint_id, muted } => {
                actions.push(AppAction::SetDeviceMuted { endpoint_id, muted });
                assert(actions@ =~= seq![AppAction::SetDeviceMuted { endpoint_id, muted }]);
            },
        }
        actions
    }

    /// Takes note of whether the user's choice of default output worked. The
    /// takeover's idea of where audio came from is then stale: the user has
    /// just moved it themselves.
    pub fn default_chosen(&mut self, worked: bool) -> (r: Vec<AppAction>)
        ensures
            worked ==> *final(self) == (App {
                config: Config { previous_default_id: None, ..old(self).config },
                ..*old(self)
            }) && r@ == seq![AppAction::SaveConfig],
            !worked ==> *final(self) == *old(self) && r@.len() == 0,
    {
        let mut actions: Vec<AppAction> = Vec::new();
        if worked {
            self.config.previous_default_id = None;
            actions.push(AppAction::SaveConfig);
            assert(actions@ =~= seq![AppAction::SaveConfig]);
        }
        actions
    }
}

// ---------------------------------------------------------------------------
// Driver requests
// ---------------------------------------------------------------------------

/// How a request to install or remove the driver is carried out.
#[derive(Debug, Clone, Copy, PartialEq, Eq, Structural)]
pub enum DriverRequest {
    /// In this process, which has the rights.
    Here,
    /// In an elevated copy, started for it.
    Elevate,
}

/// Decides where a driver request is carried out.
pub fn driver_request(elevated: bool) -> (r: DriverRequest)
    ensures
        r == (if elevated {
            DriverRequest::Here
        } else {
            DriverRequest::Elevate
        }),
{
    if elevated {
        DriverRequest::Here
    } else {
        DriverRequest::Elevate
    }
}

// ---------------------------------------------------------------------------
// What holds of the application
// ---------------------------------------------------------------------------

/// The default output is never switched before the settings that name the
/// displaced endpoint are on disk, so a run that is killed leaves a trail.
pub proof fn the_marker_precedes_the_switch(
    plan: TakeoverPlan,
    before: App,
    after: App,
    card: Option<DeviceInfo>,
    default: Result<DeviceInfo, String>,
    i: int,
)
    requires
        takes_over(plan, before, after, card, default),
        0 <= i < plan.actions@.len(),
        plan.actions@[i] is SetDefault,
    ensures
        exists|j: int| 0 <= j < i && (#[trigger] plan.actions@[j]) is SaveConfig,
        default is Ok ==> opt_text(after.config.previous_default_id) == Some(default->Ok_0.id@),
        plan.actions@[i]->SetDefault_0@ == card->0.id@,
        default is Ok ==> default->Ok_0.id@ != card->0.id@,
{
    assert(plan.actions@[0] is SaveConfig);
}

/// Nothing is switched while the card is absent or inactive, nor while it
/// already is the default.
pub proof fn nothing_is_switched_without_need(
    plan: TakeoverPlan,
    before: App,
    after: App,
    card: Option<DeviceInfo>,
    default: Result<DeviceInfo, String>,
)
    requires
        takes_over(plan, before, after, card, default),
        !usable_card(card) || on_card(card, default),
    ensures
        plan.actions@.len() == 0,
        after.config == before.config,
{
}

/// A takeover that was interrupted is undone by the next start: what the
/// marker names is what recovery restores.
pub proof fn an_interrupted_takeover_is_undone(
    plan: TakeoverPlan,
    before: App,
    after: App,
    card: Option<DeviceInfo>,
    default: Result<DeviceInfo, String>,
    later: Result<DeviceInfo, String>,
)
    requires
        takes_over(plan, before, after, card, default),
        plan.outcome is None,
        default is Ok,
        on_card(card, later),
    ensures
        owed(opt_text(after.config.previous_default_id), card, later) == Some(default->Ok_0.id@),
{
}

/// The output is taken over wherever it can be: with an active card that is not
/// the default yet, the card becomes the default.
pub proof fn the_output_is_taken_over(
    plan: TakeoverPlan,
    before: App,
    after: App,
    card: Option<DeviceInfo>,
    default: Result<DeviceInfo, String>,
)
    requires
        takes_over(plan, before, after, card, default),
        card is Some,
        card->0.state == crate::device::DeviceState::Active,
        default is Ok ==> default->Ok_0.id@ != card->0.id@,
    ensures
        plan.actions@.len() > 0,
        plan.actions@.last() is SetDefault,
        plan.actions@.last()->SetDefault_0@ == card->0.id@,
        plan.outcome is None,
        default is Ok ==> opt_text(after.routing.previous) == Some(default->Ok_0.id@),
        plan.marker_before == before.config.previous_default_id,
{
}

/// What is owed after a run that was killed is what its marker names, and only
/// while the machine is still on the card.
pub proof fn only_a_marker_is_followed(
    marker: Option<Seq<char>>,
    card: Option<DeviceInfo>,
    default: Result<DeviceInfo, String>,
)
    ensures
        owed(marker, card, default) is Some ==> marker is Some && owed(marker, card, default)
            == marker && card is Some && default is Ok && card->0.id@ == default->Ok_0.id@,
        marker is Some && card is Some && default is Ok && card->0.id@ == default->Ok_0.id@
            ==> owed(marker, card, default) == marker,
{
}

/// The preset to start with: the remembered one while its file is there; else
/// the first with "Music" in its name; else the first of all.
pub proof fn the_first_preset_is_chosen_in_order(
    remembered: Option<String>,
    is_file: bool,
    presets: Seq<PresetEntry>,
    k: int,
)
    ensures
        remembered is Some && is_file ==> first_preset(remembered, is_file, presets) == Some(
            remembered->0@,
        ),
        (remembered is None || !is_file) && 0 <= k < presets.len() && (occurs(
            presets[k].name@,
            "Music"@,
        ) || occurs(presets[k].name@, "音乐"@)) && (forall|j: int|
            0 <= j < k ==> !occurs((#[trigger] presets[j]).name@, "Music"@) && !occurs(
                presets[j].name@,
                "音乐"@,
            )) ==> first_preset(remembered, is_file, presets) == Some(presets[k].path@),
        (remembered is None || !is_file) && presets.len() > 0 && (forall|j: int|
            0 <= j < presets.len() ==> !occurs((#[trigger] presets[j]).name@, "Music"@) && !occurs(
                presets[j].name@,
                "音乐"@,
            )) ==> first_preset(remembered, is_file, presets) == Some(presets[0].path@),
        (remembered is None || !is_file) && presets.len() == 0 ==> first_preset(
            remembered,
            is_file,
            presets,
        ) is None,
{
    if 0 <= k < presets.len() && (occurs(presets[k].name@, "Music"@) || occurs(
        presets[k].name@,
        "音乐"@,
    )) && (forall|j: int|
        0 <= j < k ==> !occurs((#[trigger] presets[j]).name@, "Music"@) && !occurs(
            presets[j].name@,
            "音乐"@,
        )) {
        lemma_music_preset(presets, k);
    }
    if forall|j: int|
        0 <= j < presets.len() ==> !occurs((#[trigger] presets[j]).name@, "Music"@) && !occurs(
            presets[j].name@,
            "音乐"@,
        ) {
        lemma_music_preset(presets, presets.len() as int);
    }
}

proof fn lemma_music_preset(presets: Seq<PresetEntry>, k: int)
    requires
        0 <= k <= presets.len(),
        k < presets.len() ==> occurs(presets[k].name@, "Music"@) || occurs(
            presets[k].name@,
            "音乐"@,
        ),
        forall|j: int|
            0 <= j < k ==> !occurs((#[trigger] presets[j]).name@, "Music"@) && !occurs(
                presets[j].name@,
                "音乐"@,
            ),
    ensures
        music_preset(presets) == (if k < presets.len() {
            Some(presets[k])
        } else {
            None
        }),
    decreases presets.len(),
{
    if k > 0 {
        let rest = presets.drop_first();
        assert(!occurs(presets[0].name@, "Music"@));
        assert forall|j: int| 0 <= j < k - 1 implies !occurs((#[trigger] rest[j]).name@, "Music"@)
            && !occurs(rest[j].name@, "音乐"@) by {
            assert(rest[j] == presets[j + 1]);
        }
        lemma_music_preset(rest, k - 1);
    }
}

/// A preset is shown by the name of the first entry with its path.
pub proof fn a_preset_is_shown_by_its_name(presets: Seq<PresetEntry>, path: Seq<char>, k: int)
    requires
        0 <= k <= presets.len(),
        k < presets.len() ==> same_path(presets[k].path@, path),
        forall|j: int| 0 <= j < k ==> !same_path((#[trigger] presets[j]).path@, path),
    ensures
        name_of_preset(presets, Some(path)) == (if k < presets.len() {
            Some(presets[k].name@)
        } else {
            None
        }),
        name_of_preset(presets, None) is None,
    decreases presets.len(),
{
    if k > 0 {
        let rest = presets.drop_first();
        assert(!same_path(presets[0].path@, path));
        assert forall|j: int| 0 <= j < k - 1 implies !same_path(
            (#[trigger] rest[j]).path@,
            path,
        ) by {
            assert(rest[j] == presets[j + 1]);
        }
        a_preset_is_shown_by_its_name(rest, path, k - 1);
    }
}

/// A pass of the event loop does what the mixer asked for first, refreshes
/// exactly if that is due, and then does what was chosen: in the menu, or else
/// on the icon. Quitting comes last, and only where it was chosen.
pub proof fn a_pass_does_what_was_chosen(
    due: bool,
    menu: Option<TrayAction>,
    icon: Option<TrayAction>,
)
    ensures
        ({
            let steps = tick_steps(due, menu, icon);
            let chosen = if menu is Some {
                menu
            } else {
                icon
            };
            &&& steps[0] is PumpMixer
            &&& due ==> steps.len() >= 2 && steps[1] is Refresh
            &&& !due ==> forall|i: int| 0 <= i < steps.len() ==> !((#[trigger] steps[i]) is Refresh)
            &&& chosen is None ==> steps.len() == (if due {
                2int
            } else {
                1int
            })
            &&& chosen is Some && !(chosen->0 is Quit) ==> steps.last() == TickStep::Act(
                chosen->0,
            ) && forall|i: int| 0 <= i < steps.len() ==> !((#[trigger] steps[i]) is Quit)
            &&& chosen is Some && chosen->0 is Quit ==> steps.last() is Quit
        }),
{
}

/// What the panel changed is taken over and saved, and nothing else is done.
pub proof fn what_the_panel_changed_is_saved(
    config_enabled: bool,
    enabled: bool,
    active: Option<String>,
    selected: Option<String>,
)
    ensures
        ({
            let actions = selection_actions(config_enabled, enabled, active, selected);
            let moved = !same_opt_path(opt_text(active), opt_text(selected));
            &&& enabled != config_enabled ==> actions.contains(AppAction::TrayEnabled(enabled))
            &&& moved ==> actions.contains(AppAction::TrayPreset(selected))
            &&& enabled != config_enabled || moved ==> actions.last() is SaveConfig
            &&& enabled == config_enabled && !moved ==> actions.len() == 0
            &&& enabled == config_enabled ==> forall|i: int|
                0 <= i < actions.len() ==> !((#[trigger] actions[i]) is TrayEnabled)
        }),
{
    let actions = selection_actions(config_enabled, enabled, active, selected);
    if enabled != config_enabled {
        assert(actions[0] == AppAction::TrayEnabled(enabled));
    }
    if !same_opt_path(opt_text(active), opt_text(selected)) {
        let i = if enabled != config_enabled {
            2int
        } else {
            0int
        };
        assert(actions[i] == AppAction::TrayPreset(selected));
    }
}

/// The tooltip tells a missing card, processing that is off and an idle engine
/// apart, in that order, whatever else there is; while audio is processed it
/// tells what is playing and whether the output was lost.
pub proof fn the_tooltip_tells_the_state(
    app: App,
    enabled: bool,
    is_running: bool,
    routed: bool,
    last_error: Option<Seq<char>>,
)
    ensures
        ({
            let text = strings_of(lang_of_index(app.language.index)).tray;
            &&& tooltip_of(app, false, enabled, is_running, routed, last_error)
                == text.tooltip_no_card@
            &&& tooltip_of(app, true, false, is_running, routed, last_error)
                == text.tooltip_disabled@
            &&& tooltip_of(app, true, true, false, routed, last_error) == text.tooltip_idle@
            &&& tooltip_of(app, true, true, true, routed, last_error) == tooltip_text(
                text.no_preset@,
                text.not_enhanced@,
                name_of_preset(app.presets@, opt_text(app.active_preset)),
                last_error,
                app.config.take_over_default && !routed,
            )
        }),
{
}

/// Pointing an application at a device makes its rule say so, switched on, in
/// force and in the settings, which are saved; the rules of others stay.
pub proof fn an_application_can_be_moved(
    before: App,
    after: App,
    actions: Seq<AppAction>,
    pids: Seq<u32>,
    apps: Seq<Option<AppKey>>,
    app: AppKey,
    display_name: String,
    target: RouteTarget,
)
    requires
        mixer_step(
            MixerCommand::SetAppTarget { app, display_name, target },
            before,
            after,
            actions,
            pids,
            apps,
        ),
        crate::router::one_rule_per_app(before.router.rules@),
    ensures
        rule_index(after.router.rules@, app@) is Some,
        ({
            let rule = after.router.rules@[rule_index(after.router.rules@, app@)->0];
            &&& rule.target == target
            &&& rule.enabled
            &&& rule.method == RouteMethod::Policy
            &&& rule.display_name == display_name
        }),
        crate::router::one_rule_per_app(after.router.rules@),
        after.config.routes@ == after.router.rules@,
        actions.contains(AppAction::SaveConfig),
{
    let rule = RouteRule { app, display_name, target, method: RouteMethod::Policy, enabled: true };
    crate::router::upserting_keeps_one_rule_per_app(before.router.rules@, rule);
    assert(actions[0] == AppAction::SaveConfig);
}

/// Switching a rule on or off changes that and nothing else about it.
pub proof fn a_rule_can_be_switched(
    before: App,
    after: App,
    actions: Seq<AppAction>,
    pids: Seq<u32>,
    apps: Seq<Option<AppKey>>,
    app: AppKey,
    enabled: bool,
)
    requires
        mixer_step(
            MixerCommand::SetRuleEnabled { app, enabled },
            before,
            after,
            actions,
            pids,
            apps,
        ),
        crate::router::one_rule_per_app(before.router.rules@),
    ensures
        rule_index(before.router.rules@, app@) is None ==> after == before && actions.len() == 0,
        rule_index(before.router.rules@, app@) is Some ==> {
            let old_rule = before.router.rules@[rule_index(before.router.rules@, app@)->0];
            let at = rule_index(after.router.rules@, old_rule.app@);
            &&& at is Some
            &&& after.router.rules@[at->0] == (RouteRule { enabled, ..old_rule })
            &&& after.router.rules@.len() == before.router.rules@.len()
            &&& after.config.routes@ == after.router.rules@
            &&& actions.contains(AppAction::SaveConfig)
        },
{
    match rule_index(before.router.rules@, app@) {
        Some(i) => {
            let rules = before.router.rules@;
            crate::router::lemma_rule_index(rules, app@);
            let rule = RouteRule { enabled, ..rules[i] };
            crate::router::upserting_keeps_one_rule_per_app(rules, rule);
            crate::router::lemma_rule_index(rules, rule.app@);
            crate::process::same_app_is_an_equivalence(rule.app@, rule.app@, rule.app@);
            assert(rule_index(rules, rule.app@) is Some) by {
                assert(same_app(rules[i].app@, rule.app@));
            }
            assert(actions[0] == AppAction::SaveConfig);
        },
        None => {},
    }
}

/// Removing an application's rule leaves it none, hands each of its running
/// processes back to the system default, and saves the settings.
pub proof fn a_rule_can_be_removed(
    before: App,
    after: App,
    actions: Seq<AppAction>,
    pids: Seq<u32>,
    apps: Seq<Option<AppKey>>,
    app: AppKey,
    i: int,
)
    requires
        mixer_step(MixerCommand::RemoveRule { app }, before, after, actions, pids, apps),
        crate::router::one_rule_per_app(before.router.rules@),
        pids.no_duplicates(),
        apps.len() == pids.len(),
    ensures
        forall|j: int|
            0 <= j < after.router.rules@.len() ==> !same_app(
                (#[trigger] after.router.rules@[j]).app@,
                app@,
            ),
        after.config.routes@ == after.router.rules@,
        actions.contains(AppAction::SaveConfig),
        before.router.policy is Some && 0 <= i < pids.len() && apps[i] is Some && same_app(
            apps[i]->0@,
            app@,
        ) ==> exists|k: int|
            0 <= k < actions.len() && (#[trigger] actions[k]) is WriteEndpoint
                && actions[k]->WriteEndpoint_0@.len() == 2
                && actions[k]->WriteEndpoint_0@[0].process_id == pids[i]
                && actions[k]->WriteEndpoint_0@[0].device@.len() == 0
                && actions[k]->WriteEndpoint_0@[1].device@.len() == 0,
{
    crate::router::removing_leaves_no_rule(before.router.rules@, app@);
    let gone = if before.router.policy is Some {
        running(pids, apps, app@)
    } else {
        Seq::empty()
    };
    let n = gone.len() as int;
    assert(actions.skip(n)[0] == AppAction::SaveConfig);
    assert(actions[n] == AppAction::SaveConfig);
    if before.router.policy is Some && 0 <= i < pids.len() && apps[i] is Some && same_app(
        apps[i]->0@,
        app@,
    ) {
        crate::router::running_processes_run_it(pids, apps, app@, i);
        let k = choose|k: int| 0 <= k < gone.len() && gone[k] == pids[i];
        assert(actions[k] is WriteEndpoint);
    }
}

/// Setting an application's volume or mute reaches every one of its streams,
/// with the level that was asked for, and nothing else.
pub proof fn every_stream_is_reached(
    before: App,
    after: App,
    volumes: Seq<AppAction>,
    mutes: Seq<AppAction>,
    pids: Seq<u32>,
    apps: Seq<Option<AppKey>>,
    streams: Vec<(String, String)>,
    level: u32,
    muted: bool,
    i: int,
)
    requires
        mixer_step(
            MixerCommand::SetAppVolume { streams, level },
            before,
            after,
            volumes,
            pids,
            apps,
        ),
        mixer_step(MixerCommand::SetAppMute { streams, muted }, before, after, mutes, pids, apps),
        0 <= i < streams@.len(),
    ensures
        volumes.len() == streams@.len() && mutes.len() == streams@.len(),
        volumes[i] is SetStreamVolume && volumes[i]->SetStreamVolume_device_id == streams@[i].0
            && volumes[i]->SetStreamVolume_instance_id == streams@[i].1
            && volumes[i]->SetStreamVolume_level == level,
        mutes[i] is SetStreamMute && mutes[i]->SetStreamMute_device_id == streams@[i].0
            && mutes[i]->SetStreamMute_instance_id == streams@[i].1
            && mutes[i]->SetStreamMute_muted == muted,
        after == before,
{
}

/// Setting a device's volume hands over the level that was asked for, held
/// between silence and full scale, for that device.
pub proof fn a_device_is_reached(
    before: App,
    after: App,
    actions: Seq<AppAction>,
    pids: Seq<u32>,
    apps: Seq<Option<AppKey>>,
    endpoint_id: String,
    level: u32,
)
    requires
        mixer_step(
            MixerCommand::SetDeviceVolume { endpoint_id, level },
            before,
            after,
            actions,
            pids,
            apps,
        ),
        !float::is_nan(level),
    ensures
        actions.len() == 1 && actions[0] is SetDeviceVolume,
        actions[0]->SetDeviceVolume_endpoint_id == endpoint_id,
        !float::below(level, float::ZERO) && !float::below(float::ONE, level)
            ==> actions[0]->SetDeviceVolume_level == level,
        !float::below(actions[0]->SetDeviceVolume_level, float::ZERO),
        !float::below(float::ONE, actions[0]->SetDeviceVolume_level),
        after == before,
{
}

/// Whether a late takeover is tried, and what is remembered of it.
pub open spec fn tries_late(
    before: App,
    driver_present: bool,
    enabled: bool,
    after: App,
    r: bool,
) -> bool {
    &&& r == (driver_present && before.config.take_over_default && enabled
        && !before.routing.engaged && !before.routing_attempted)
    &&& after == (App {
        routing_attempted: driver_present && (before.routing_attempted || r),
        ..before
    })
}

/// A late takeover is tried once for each appearance of the card: not again
/// while the card stays, and again once it went and came back.
pub proof fn a_late_takeover_is_tried_once(
    first: App,
    second: App,
    third: App,
    gone: App,
    back: App,
    tried: bool,
    again: bool,
    without: bool,
    anew: bool,
)
    requires
        tries_late(first, true, true, second, tried),
        tries_late(second, true, true, third, again),
        tries_late(third, false, true, gone, without),
        tries_late(gone, true, true, back, anew),
    ensures
        tried <==> first.config.take_over_default && !first.routing.engaged
            && !first.routing_attempted,
        !again,
        !without,
        anew <==> first.config.take_over_default && !first.routing.engaged,
        second.config == first.config && second.routing == first.routing,
        back.config == first.config && back.routing == first.routing,
{
}

/// Without processing, and while the output is taken over, no takeover is tried.
pub proof fn a_late_takeover_needs_processing(
    before: App,
    driver_present: bool,
    enabled: bool,
    after: App,
    r: bool,
)
    requires
        tries_late(before, driver_present, enabled, after, r),
    ensures
        !enabled || before.routing.engaged || !driver_present || !before.config.take_over_default
            ==> !r,
        r ==> after.routing_attempted,
        !driver_present ==> !after.routing_attempted,
{
}

/// What activating a preset does: it is loaded, shown and saved, and remembered
/// in both places; a file that could not be read changes nothing.
pub open spec fn activates(
    before: App,
    path: Seq<char>,
    readable: bool,
    after: App,
    actions: Seq<AppAction>,
) -> bool {
    &&& !readable ==> after == before && actions.len() == 0
    &&& readable ==> {
        &&& opt_text(after.active_preset) == Some(path)
        &&& opt_text(after.config.active_preset) == Some(path)
        &&& after == (App {
            active_preset: after.active_preset,
            config: Config { active_preset: after.config.active_preset, ..before.config },
            ..before
        })
        &&& actions.len() == 4
        &&& actions[0] is LoadPreset && actions[0]->LoadPreset_0@ == path
        &&& actions[1] is PublishPreset && actions[1]->PublishPreset_0@ == path
        &&& actions[2] is TrayPreset && opt_text(actions[2]->TrayPreset_0) == Some(path)
        &&& actions[3] is SaveConfig
    }
}

/// The preset that is active is the one that is loaded, shown, remembered for
/// the next start and saved: all of them by the same path.
pub proof fn one_preset_is_active(
    before: App,
    path: Seq<char>,
    readable: bool,
    after: App,
    actions: Seq<AppAction>,
    i: int,
)
    requires
        activates(before, path, readable, after, actions),
        0 <= i < actions.len(),
    ensures
        readable,
        opt_text(after.active_preset) == opt_text(after.config.active_preset),
        actions[i] is LoadPreset ==> Some(actions[i]->LoadPreset_0@) == opt_text(
            after.active_preset,
        ),
        actions[i] is PublishPreset ==> Some(actions[i]->PublishPreset_0@) == opt_text(
            after.active_preset,
        ),
        actions[i] is TrayPreset ==> opt_text(actions[i]->TrayPreset_0) == opt_text(
            after.active_preset,
        ),
        opt_text(after.active_preset) == Some(path),
        actions.last() is SaveConfig,
        after.routing == before.routing,
        after.config.routes == before.config.routes,
{
}

} // verus!
