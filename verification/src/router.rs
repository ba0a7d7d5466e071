//! Routing rules: which application's audio goes where.
//!
//! A rule is keyed by application and applied to process ids: the system takes
//! a process id, but a rule has to survive a restart. Rules already in force
//! are remembered by rule and process, so that a poll does not rewrite them.

use crate::perapp::{
    interface_path_text, writes_both_roles, EndpointWrite, Factory,
};
use crate::process::{same_app, same_app_is_an_equivalence, AppKey, AppKeyView};
use crate::session::Session;
use crate::text::texts;
use vstd::prelude::*;
use vstd::string::*;

verus! {

/// Where an application's audio should go.
#[derive(Debug, PartialEq, Eq)]
pub enum RouteTarget {
    /// Follow the system default. When the enhancer holds the system default,
    /// this is the enhanced path.
    SystemDefault,
    /// Render into this endpoint, bypassing whatever the system default is.
    Device { endpoint_id: String },
}

impl Clone for RouteTarget {
    fn clone(&self) -> (r: Self)
        ensures
            r == *self,
    {
        match self {
            RouteTarget::SystemDefault => RouteTarget::SystemDefault,
            RouteTarget::Device { endpoint_id } => RouteTarget::Device {
                endpoint_id: endpoint_id.clone(),
            },
        }
    }
}

impl RouteTarget {
    /// Whether an application on this target misses the enhancer: true for
    /// every concrete device.
    pub fn bypasses_enhancement(&self) -> (r: bool)
        ensures
            r == (*self is Device),
    {
        match self {
            RouteTarget::Device { .. } => true,
            RouteTarget::SystemDefault => false,
        }
    }
}

/// How a rule is enforced.
#[derive(Debug, Clone, Copy, PartialEq, Eq, Structural)]
pub enum RouteMethod {
    /// Windows' per-application default endpoint. No elevation.
    Policy,
    /// DLL injection into the target process. Needs administrator rights.
    Injection,
}

impl Default for RouteMethod {
    fn default() -> (r: Self)
        ensures
            r == RouteMethod::Policy,
    {
        RouteMethod::Policy
    }
}

/// What the injection path can currently do.
#[derive(Debug, Clone, Copy, PartialEq, Eq, Structural)]
pub enum InjectionStatus {
    /// Not built into this binary yet.
    NotAvailable,
}

impl InjectionStatus {
    pub fn summary(&self) -> (r: &'static str)
        ensures
            r@ == "not built in; injection rules fall back to the policy mechanism"@,
    {
        match self {
            InjectionStatus::NotAvailable =>
                "not built in; injection rules fall back to the policy mechanism",
        }
    }
}

/// One routing rule.
#[derive(Debug, PartialEq, Eq)]
pub struct RouteRule {
    /// The application this rule is about.
    pub app: AppKey,
    /// Cached so the list can be drawn without looking at processes.
    pub display_name: String,
    pub target: RouteTarget,
    pub method: RouteMethod,
    pub enabled: bool,
}

impl Clone for RouteRule {
    fn clone(&self) -> (r: Self)
        ensures
            r == *self,
    {
        RouteRule {
            app: self.app.clone(),
            display_name: self.display_name.clone(),
            target: self.target.clone(),
            method: self.method,
            enabled: self.enabled,
        }
    }
}

/// Whether a rule applies to an application.
pub open spec fn applies(rule: RouteRule, app: AppKeyView) -> bool {
    rule.enabled && same_app(rule.app@, app)
}

impl RouteRule {
    /// A rule for `app`, pointed at `target`.
    pub fn new(app: AppKey, display_name: String, target: RouteTarget) -> (r: Self)
        ensures
            r == (RouteRule {
                app,
                display_name,
                target,
                method: RouteMethod::Policy,
                enabled: true,
            }),
    {
        RouteRule { app, display_name, target, method: RouteMethod::Policy, enabled: true }
    }

    /// Whether this rule applies to a given application.
    pub fn matches(&self, app: &AppKey) -> (r: bool)
        ensures
            r == applies(*self, app@),
    {
        self.enabled && self.app.same_as(app)
    }
}

/// Where the first rule for an application stands, enabled or not.
pub open spec fn rule_index(rules: Seq<RouteRule>, app: AppKeyView) -> Option<int>
    decreases rules.len(),
{
    if rules.len() == 0 {
        None
    } else if same_app(rules[0].app@, app) {
        Some(0)
    } else {
        match rule_index(rules.drop_first(), app) {
            Some(i) => Some(i + 1),
            None => None,
        }
    }
}

/// Where the first rule that applies to an application stands.
pub open spec fn match_index(rules: Seq<RouteRule>, app: AppKeyView) -> Option<int>
    decreases rules.len(),
{
    if rules.len() == 0 {
        None
    } else if applies(rules[0], app) {
        Some(0)
    } else {
        match match_index(rules.drop_first(), app) {
            Some(i) => Some(i + 1),
            None => None,
        }
    }
}

/// The first rule for an application, told by what stands before it.
pub proof fn lemma_rule_index(rules: Seq<RouteRule>, app: AppKeyView)
    ensures
        (match rule_index(rules, app) {
            Some(i) => {
                &&& 0 <= i < rules.len()
                &&& same_app(rules[i].app@, app)
                &&& forall|j: int| 0 <= j < i ==> !same_app((#[trigger] rules[j]).app@, app)
            },
            None => forall|j: int|
                0 <= j < rules.len() ==> !same_app((#[trigger] rules[j]).app@, app),
        }),
    decreases rules.len(),
{
    if rules.len() > 0 && !same_app(rules[0].app@, app) {
        let rest = rules.drop_first();
        lemma_rule_index(rest, app);
        match rule_index(rest, app) {
            Some(i) => {
                assert forall|j: int| 0 <= j < i + 1 implies !same_app(
                    (#[trigger] rules[j]).app@,
                    app,
                ) by {
                    if j > 0 {
                        assert(rest[j - 1] == rules[j]);
                    }
                }
            },
            None => {
                assert forall|j: int| 0 <= j < rules.len() implies !same_app(
                    (#[trigger] rules[j]).app@,
                    app,
                ) by {
                    if j > 0 {
                        assert(rest[j - 1] == rules[j]);
                    }
                }
            },
        }
    }
}

/// The first rule that applies, told by what stands before it: it is switched
/// on and for that application, none before it is both, and there is none
/// exactly where no rule of the list is both.
pub proof fn lemma_match_index(rules: Seq<RouteRule>, app: AppKeyView)
    ensures
        (match match_index(rules, app) {
            Some(i) => {
                &&& 0 <= i < rules.len()
                &&& applies(rules[i], app)
                &&& rules[i].enabled && same_app(rules[i].app@, app)
                &&& forall|j: int|
                    0 <= j < i ==> !((#[trigger] rules[j]).enabled && same_app(rules[j].app@, app))
            },
            None => forall|j: int|
                0 <= j < rules.len() ==> !((#[trigger] rules[j]).enabled && same_app(
                    rules[j].app@,
                    app,
                )),
        }),
    decreases rules.len(),
{
    if rules.len() > 0 && !applies(rules[0], app) {
        let rest = rules.drop_first();
        lemma_match_index(rest, app);
        assert forall|j: int|
            0 < j < rules.len() && (match match_index(rest, app) {
                Some(i) => j < i + 1,
                None => true,
            }) implies !((#[trigger] rules[j]).enabled && same_app(rules[j].app@, app)) by {
            assert(rest[j - 1] == rules[j]);
        }
    }
}

/// A rule is found wherever it stands, and whatever stands before it: rules
/// that are switched off, or for other applications, do not hide it.
pub proof fn a_rule_is_found_wherever_it_stands(rules: Seq<RouteRule>, app: AppKeyView, k: int)
    requires
        0 <= k < rules.len(),
        rules[k].enabled,
        same_app(rules[k].app@, app),
        forall|j: int|
            0 <= j < k ==> !((#[trigger] rules[j]).enabled && same_app(rules[j].app@, app)),
    ensures
        match_index(rules, app) == Some(k),
{
    lemma_match_index(rules, app);
}

fn find_rule(rules: &Vec<RouteRule>, app: &AppKey) -> (r: Option<usize>)
    ensures
        (match r {
            Some(i) => rule_index(rules@, app@) == Some(i as int) && i < rules@.len(),
            None => rule_index(rules@, app@) is None,
        }),
{
    let mut i: usize = 0;
    assert(rules@.skip(0) =~= rules@);
    while i < rules.len()
        invariant
            i <= rules@.len(),
            rule_index(rules@, app@) == (match rule_index(rules@.skip(i as int), app@) {
                Some(k) => Some(k + i),
                None => None,
            }),
        decreases rules@.len() - i,
    {
        if rules[i].app.same_as(app) {
            return Some(i);
        }
        assert(rules@.skip(i as int).drop_first() =~= rules@.skip(i + 1));
        i = i + 1;
    }
    None
}

fn find_match(rules: &Vec<RouteRule>, app: &AppKey) -> (r: Option<usize>)
    ensures
        (match r {
            Some(i) => match_index(rules@, app@) == Some(i as int) && i < rules@.len(),
            None => match_index(rules@, app@) is None,
        }),
{
    let mut i: usize = 0;
    assert(rules@.skip(0) =~= rules@);
    while i < rules.len()
        invariant
            i <= rules@.len(),
            match_index(rules@, app@) == (match match_index(rules@.skip(i as int), app@) {
                Some(k) => Some(k + i),
                None => None,
            }),
        decreases rules@.len() - i,
    {
        if rules[i].matches(app) {
            return Some(i);
        }
        assert(rules@.skip(i as int).drop_first() =~= rules@.skip(i + 1));
        i = i + 1;
    }
    None
}

pub(crate) fn copy_rules(rules: &Vec<RouteRule>) -> (r: Vec<RouteRule>)
    ensures
        r@ == rules@,
{
    let mut out: Vec<RouteRule> = Vec::new();
    let mut i: usize = 0;
    while i < rules.len()
        invariant
            i <= rules@.len(),
            out@ == rules@.take(i as int),
        decreases rules@.len() - i,
    {
        out.push(rules[i].clone());
        assert(out@ =~= rules@.take(i + 1));
        i = i + 1;
    }
    assert(rules@.take(i as int) =~= rules@);
    out
}

/// What one pass of the router did.
#[derive(Debug, PartialEq, Eq)]
pub struct ApplyReport {
    /// Rules written to Windows this pass.
    pub applied: Vec<String>,
    /// Applications seen that matched a rule already in force: the steady
    /// state, and the reason `applied` is usually empty.
    pub already_in_force: usize,
    /// Rules that could not be enforced, with the reason.
    pub failed: Vec<(String, String)>,
    /// Rules that asked for injection. Reported rather than applied.
    pub injection_deferred: Vec<String>,
}

impl ApplyReport {
    /// Whether anything about the machine changed this pass.
    pub fn changed_anything(&self) -> (r: bool)
        ensures
            r == (self.applied@.len() > 0),
    {
        self.applied.len() > 0
    }
}

/// A read-only view of the router, for a window on another thread.
#[derive(Debug, PartialEq, Eq)]
pub struct RouteSnapshot {
    pub rules: Vec<RouteRule>,
    /// Whether this build can enforce policy-based rules at all.
    pub policy_available: bool,
    pub injection: InjectionStatus,
}

impl RouteSnapshot {
    /// The rule for an application, if any.
    pub fn rule_for(&self, app: &AppKey) -> (r: Option<&RouteRule>)
        ensures
            (match r {
                Some(rule) => rule_index(self.rules@, app@) is Some && *rule == self.rules@[rule_index(
                    self.rules@,
                    app@,
                )->0],
                None => rule_index(self.rules@, app@) is None,
            }),
    {
        match find_rule(&self.rules, app) {
            Some(i) => Some(&self.rules[i]),
            None => None,
        }
    }

    /// The destination an application is currently set to.
    ///
    /// An application with no rule follows the system default, which is also
    /// what [`RouteTarget::SystemDefault`] means.
    pub fn target_for(&self, app: &AppKey) -> (r: RouteTarget)
        ensures
            r == (match rule_index(self.rules@, app@) {
                Some(i) => self.rules@[i].target,
                None => RouteTarget::SystemDefault,
            }),
    {
        match self.rule_for(app) {
            Some(rule) => rule.target.clone(),
            None => RouteTarget::SystemDefault,
        }
    }
}

/// The routing engine.
#[derive(Debug)]
pub struct Router {
    pub rules: Vec<RouteRule>,
    /// The facility that writes the policy. `None` means this machine cannot
    /// do per-application endpoints at all.
    pub policy: Option<Factory>,
    /// Rule and process pairs already written, so that a poll does not rewrite
    /// a rule that is already in force. A restarted application is a fresh
    /// process with a fresh, unset policy.
    pub applied: Vec<(usize, u32)>,
    pub injection: InjectionStatus,
}

/// The processes behind a list of sessions: each once, in the order in which
/// they first appear. The system-sounds session has none.
pub open spec fn live_processes(sessions: Seq<Session>) -> Seq<u32>
    decreases sessions.len(),
{
    if sessions.len() == 0 {
        Seq::empty()
    } else {
        let before = live_processes(sessions.drop_last());
        let pid = sessions.last().process_id;
        if pid == 0 || before.contains(pid) {
            before
        } else {
            before.push(pid)
        }
    }
}

/// No process is live twice, and there is no process 0.
pub proof fn live_processes_are_distinct(sessions: Seq<Session>)
    ensures
        live_processes(sessions).no_duplicates(),
        !live_processes(sessions).contains(0),
        forall|i: int|
            0 <= i < sessions.len() && (#[trigger] sessions[i]).process_id != 0 ==> live_processes(
                sessions,
            ).contains(sessions[i].process_id),
        live_processes(sessions).len() <= sessions.len(),
    decreases sessions.len(),
{
    if sessions.len() > 0 {
        let front = sessions.drop_last();
        live_processes_are_distinct(front);
        let before = live_processes(front);
        let pid = sessions.last().process_id;
        let after = live_processes(sessions);
        assert forall|i: int|
            0 <= i < sessions.len() && (#[trigger] sessions[i]).process_id != 0 implies after.contains(
            sessions[i].process_id,
        ) by {
            if i < front.len() {
                assert(front[i] == sessions[i]);
                let k = choose|k: int| 0 <= k < before.len() && before[k] == sessions[i].process_id;
                assert(after[k] == sessions[i].process_id);
            } else if !before.contains(pid) {
                assert(after[before.len() as int] == pid);
            }
        }
    }
}

fn holds(list: &Vec<u32>, pid: u32) -> (r: bool)
    ensures
        r == list@.contains(pid),
{
    let mut i: usize = 0;
    while i < list.len()
        invariant
            i <= list@.len(),
            forall|j: int| 0 <= j < i ==> list@[j] != pid,
        decreases list@.len() - i,
    {
        if list[i] == pid {
            assert(list@[i as int] == pid);
            return true;
        }
        i = i + 1;
    }
    false
}

/// Executable [`live_processes`].
pub fn processes_of(sessions: &Vec<Session>) -> (r: Vec<u32>)
    ensures
        r@ == live_processes(sessions@),
{
    let mut out: Vec<u32> = Vec::new();
    let mut i: usize = 0;
    while i < sessions.len()
        invariant
            i <= sessions@.len(),
            out@ == live_processes(sessions@.take(i as int)),
        decreases sessions@.len() - i,
    {
        assert(sessions@.take(i + 1).drop_last() =~= sessions@.take(i as int));
        let pid: u32 = sessions[i].process_id;
        if pid != 0 && !holds(&out, pid) {
            out.push(pid);
        }
        i = i + 1;
    }
    assert(sessions@.take(i as int) =~= sessions@);
    out
}

/// What a pass does about one process.
pub enum Verdict {
    /// It cannot be identified: nothing is done.
    Unknown,
    /// No rule applies; what was written for it before is forgotten.
    NoRule,
    /// The rule that applies is already in force.
    InForce,
    /// The rule that applies asks for injection.
    Deferred(int),
    /// The rule that applies has to be written.
    Write(int),
}

/// What a pass does about a process, given the rules and what is in force.
pub open spec fn verdict(
    rules: Seq<RouteRule>,
    applied: Set<(usize, u32)>,
    pid: u32,
    app: Option<AppKeyView>,
) -> Verdict {
    match app {
        None => Verdict::Unknown,
        Some(key) => match match_index(rules, key) {
            None => Verdict::NoRule,
            Some(i) => if applied.contains((i as usize, pid)) {
                Verdict::InForce
            } else if rules[i].method == RouteMethod::Injection {
                Verdict::Deferred(i)
            } else {
                Verdict::Write(i)
            },
        },
    }
}

pub open spec fn key_view(app: Option<AppKey>) -> Option<AppKeyView> {
    match app {
        Some(key) => Some(key@),
        None => None,
    }
}

/// A rule and the process it has to be written for.
pub struct Pending {
    pub rule: int,
    pub process: u32,
}

/// The writes that a pass over `n` processes asks for, in order.
pub open spec fn pending(
    rules: Seq<RouteRule>,
    applied: Set<(usize, u32)>,
    pids: Seq<u32>,
    apps: Seq<Option<AppKey>>,
    n: int,
) -> Seq<Pending>
    decreases n,
{
    if n <= 0 {
        Seq::empty()
    } else {
        let before = pending(rules, applied, pids, apps, n - 1);
        match verdict(rules, applied, pids[n - 1], key_view(apps[n - 1])) {
            Verdict::Write(i) => before.push(Pending { rule: i, process: pids[n - 1] }),
            _ => before,
        }
    }
}

/// How many of the first `n` processes have their rule in force.
pub open spec fn in_force(
    rules: Seq<RouteRule>,
    applied: Set<(usize, u32)>,
    pids: Seq<u32>,
    apps: Seq<Option<AppKey>>,
    n: int,
) -> int
    decreases n,
{
    if n <= 0 {
        0
    } else {
        in_force(rules, applied, pids, apps, n - 1) + (if verdict(
            rules,
            applied,
            pids[n - 1],
            key_view(apps[n - 1]),
        ) is InForce {
            1int
        } else {
            0
        })
    }
}

/// The names of the rules among the first `n` processes that asked for
/// injection.
pub open spec fn deferred(
    rules: Seq<RouteRule>,
    applied: Set<(usize, u32)>,
    pids: Seq<u32>,
    apps: Seq<Option<AppKey>>,
    n: int,
) -> Seq<Seq<char>>
    decreases n,
{
    if n <= 0 {
        Seq::empty()
    } else {
        let before = deferred(rules, applied, pids, apps, n - 1);
        match verdict(rules, applied, pids[n - 1], key_view(apps[n - 1])) {
            Verdict::Deferred(i) => before.push(rules[i].display_name@),
            _ => before,
        }
    }
}

/// Why a write fails where the facility is missing.
pub open spec fn no_policy_text() -> Seq<char> {
    "per-application endpoints are not available on this build"@
}

/// The outcome of the `k`-th write: what the system answered, or the standing
/// reason where the facility is missing.
pub open spec fn write_error(
    policy: bool,
    outcomes: Seq<Result<(), String>>,
    k: int,
) -> Option<Seq<char>> {
    if !policy {
        Some(no_policy_text())
    } else {
        match outcomes[k] {
            Ok(_) => None,
            Err(reason) => Some(reason@),
        }
    }
}

/// The names of the rules among the first `n` writes that were written.
pub open spec fn written_names(
    rules: Seq<RouteRule>,
    writes: Seq<Pending>,
    policy: bool,
    outcomes: Seq<Result<(), String>>,
    n: int,
) -> Seq<Seq<char>>
    decreases n,
{
    if n <= 0 {
        Seq::empty()
    } else {
        let before = written_names(rules, writes, policy, outcomes, n - 1);
        if write_error(policy, outcomes, n - 1) is None {
            before.push(rules[writes[n - 1].rule].display_name@)
        } else {
            before
        }
    }
}

/// The rules among the first `n` writes that could not be written, with the
/// reason.
pub open spec fn failed_writes(
    rules: Seq<RouteRule>,
    writes: Seq<Pending>,
    policy: bool,
    outcomes: Seq<Result<(), String>>,
    n: int,
) -> Seq<(Seq<char>, Seq<char>)>
    decreases n,
{
    if n <= 0 {
        Seq::empty()
    } else {
        let before = failed_writes(rules, writes, policy, outcomes, n - 1);
        match write_error(policy, outcomes, n - 1) {
            Some(reason) => before.push((rules[writes[n - 1].rule].display_name@, reason)),
            None => before,
        }
    }
}

/// Whether the `k`-th write is of this rule for this process, and succeeded.
pub open spec fn is_written(
    writes: Seq<Pending>,
    policy: bool,
    outcomes: Seq<Result<(), String>>,
    k: int,
    pair: (usize, u32),
) -> bool {
    &&& 0 <= k < writes.len()
    &&& writes[k].rule == pair.0
    &&& writes[k].process == pair.1
    &&& write_error(policy, outcomes, k) is None
}

/// Whether a rule is in force for a process after a pass over `n` processes:
/// it was written now, or it was in force before and the process is live and
/// still has a rule (or cannot be identified).
pub open spec fn kept(
    rules: Seq<RouteRule>,
    applied: Set<(usize, u32)>,
    pids: Seq<u32>,
    apps: Seq<Option<AppKey>>,
    policy: bool,
    outcomes: Seq<Result<(), String>>,
    n: int,
    pair: (usize, u32),
) -> bool {
    ||| {
        &&& applied.contains(pair)
        &&& exists|i: int|
            0 <= i < n && #[trigger] pids[i] == pair.1 && !(verdict(
                rules,
                applied,
                pids[i],
                key_view(apps[i]),
            ) is NoRule)
    }
    ||| exists|k: int|
        #[trigger] is_written(pending(rules, applied, pids, apps, n), policy, outcomes, k, pair)
}

/// What is in force after a pass over all processes.
pub open spec fn applied_after(
    rules: Seq<RouteRule>,
    applied: Set<(usize, u32)>,
    pids: Seq<u32>,
    apps: Seq<Option<AppKey>>,
    policy: bool,
    outcomes: Seq<Result<(), String>>,
) -> Set<(usize, u32)> {
    Set::new(
        |pair: (usize, u32)|
            kept(rules, applied, pids, apps, policy, outcomes, pids.len() as int, pair),
    )
}

proof fn lemma_kept_step(
    rules: Seq<RouteRule>,
    applied: Set<(usize, u32)>,
    pids: Seq<u32>,
    apps: Seq<Option<AppKey>>,
    policy: bool,
    outcomes: Seq<Result<(), String>>,
    n: int,
    pair: (usize, u32),
)
    requires
        0 <= n < pids.len() == apps.len(),
    ensures
        ({
            let v = verdict(rules, applied, pids[n], key_view(apps[n]));
            kept(rules, applied, pids, apps, policy, outcomes, n + 1, pair) == {
                ||| kept(rules, applied, pids, apps, policy, outcomes, n, pair)
                ||| applied.contains(pair) && pids[n] == pair.1 && !(v is NoRule)
                ||| {
                    &&& v is Write
                    &&& v->Write_0 == pair.0
                    &&& pids[n] == pair.1
                    &&& write_error(
                        policy,
                        outcomes,
                        pending(rules, applied, pids, apps, n).len() as int,
                    ) is None
                }
            }
        }),
{
    let v = verdict(rules, applied, pids[n], key_view(apps[n]));
    let w0 = pending(rules, applied, pids, apps, n);
    let w1 = pending(rules, applied, pids, apps, n + 1);
    assert(v is Write ==> w1 == w0.push(Pending { rule: v->Write_0, process: pids[n] }));
    assert(!(v is Write) ==> w1 == w0);
    assert forall|k: int| is_written(w0, policy, outcomes, k, pair) implies is_written(
        w1,
        policy,
        outcomes,
        k,
        pair,
    ) by {}
    if v is Write && v->Write_0 == pair.0 && pids[n] == pair.1 && write_error(
        policy,
        outcomes,
        w0.len() as int,
    ) is None {
        assert(is_written(w1, policy, outcomes, w0.len() as int, pair));
    }
    assert forall|k: int| is_written(w1, policy, outcomes, k, pair) && k < w0.len() implies is_written(
        w0,
        policy,
        outcomes,
        k,
        pair,
    ) by {}
}

/// A write that the system is asked for.
#[derive(Debug, PartialEq, Eq)]
pub struct RouteWrite {
    /// Which rule it is for.
    pub rule: usize,
    pub process_id: u32,
    /// The changes that make it up, in order; the first refusal ends it.
    pub writes: Vec<EndpointWrite>,
}

/// Whether `w` carries out a rule's intent for a process.
pub open spec fn carries_out(w: RouteWrite, p: Pending, rules: Seq<RouteRule>) -> bool {
    &&& w.rule == p.rule
    &&& w.process_id == p.process
    &&& writes_both_roles(
        w.writes@,
        p.process,
        match rules[p.rule].target {
            RouteTarget::SystemDefault => Seq::empty(),
            RouteTarget::Device { endpoint_id } => interface_path_text(endpoint_id@),
        },
    )
}

impl Router {
    /// What is in force.
    pub open spec fn applied_set(&self) -> Set<(usize, u32)> {
        self.applied@.to_set()
    }

    /// No pair is recorded twice.
    pub open spec fn wf(&self) -> bool {
        self.applied@.no_duplicates()
    }

    /// Builds a router over the facility that was found, if any.
    pub fn new(rules: Vec<RouteRule>, policy: Option<Factory>) -> (r: Self)
        ensures
            r.rules@ == rules@,
            r.policy == policy,
            r.applied_set() == Set::<(usize, u32)>::empty(),
            r.wf(),
            r.injection == InjectionStatus::NotAvailable,
    {
        let r = Router {
            rules,
            policy,
            applied: Vec::new(),
            injection: InjectionStatus::NotAvailable,
        };
        assert(r.applied_set() =~= Set::<(usize, u32)>::empty());
        r
    }

    /// Whether this machine can enforce policy-based rules.
    pub fn policy_available(&self) -> (r: bool)
        ensures
            r == (self.policy is Some),
    {
        self.policy.is_some()
    }

    /// What the injection path can do here.
    pub fn injection_status(&self) -> (r: InjectionStatus)
        ensures
            r == self.injection,
    {
        self.injection
    }

    /// A snapshot for a window on another thread.
    pub fn snapshot(&self) -> (r: RouteSnapshot)
        ensures
            r.rules@ == self.rules@,
            r.policy_available == (self.policy is Some),
            r.injection == self.injection,
    {
        RouteSnapshot {
            rules: copy_rules(&self.rules),
            policy_available: self.policy.is_some(),
            injection: self.injection,
        }
    }

    pub fn rules(&self) -> (r: &[RouteRule])
        ensures
            r@ == self.rules@,
    {
        self.rules.as_slice()
    }

    /// The rule for an application, if there is one.
    pub fn rule_for(&self, app: &AppKey) -> (r: Option<&RouteRule>)
        ensures
            (match r {
                Some(rule) => rule_index(self.rules@, app@) is Some && *rule == self.rules@[rule_index(
                    self.rules@,
                    app@,
                )->0],
                None => rule_index(self.rules@, app@) is None,
            }),
    {
        match find_rule(&self.rules, app) {
            Some(i) => Some(&self.rules[i]),
            None => None,
        }
    }

    /// Replaces the rule set. Everything already applied is forgotten.
    pub fn set_rules(&mut self, rules: Vec<RouteRule>)
        ensures
            final(self).rules@ == rules@,
            final(self).applied_set() == Set::<(usize, u32)>::empty(),
            final(self).wf(),
            final(self).policy == old(self).policy,
            final(self).injection == old(self).injection,
    {
        self.rules = rules;
        self.applied.clear();
        assert(self.applied_set() =~= Set::<(usize, u32)>::empty());
    }

    /// Adds or replaces the rule for one application.
    pub fn upsert(&mut self, rule: RouteRule)
        ensures
            final(self).rules@ == with_rule(old(self).rules@, rule),
            final(self).applied_set() == Set::<(usize, u32)>::empty(),
            final(self).wf(),
            final(self).policy == old(self).policy,
            final(self).injection == old(self).injection,
    {
        match find_rule(&self.rules, &rule.app) {
            Some(i) => {
                self.rules.set(i, rule);
            },
            None => {
                self.rules.push(rule);
            },
        }
        self.applied.clear();
        assert(self.applied_set() =~= Set::<(usize, u32)>::empty());
    }

    /// Removes the rule for an application and hands it back to the default.
    ///
    /// Returns the writes that clear what was written for it: forgetting a
    /// rule alone would leave Windows still routing the application. `apps`
    /// are the applications of the live processes.
    pub fn remove(
        &mut self,
        app: &AppKey,
        sessions: &Vec<Session>,
        apps: &Vec<Option<AppKey>>,
    ) -> (r: Vec<Vec<EndpointWrite>>)
        requires
            apps@.len() == live_processes(sessions@).len(),
        ensures
            final(self).rules@ == without_rule(old(self).rules@, app@),
            final(self).applied_set() == Set::<(usize, u32)>::empty(),
            final(self).wf(),
            final(self).policy == old(self).policy,
            final(self).injection == old(self).injection,
            old(self).policy is None ==> r@.len() == 0,
            old(self).policy is Some ==> clears(r@, running(live_processes(sessions@), apps@, app@)),
    {
        if let Some(i) = find_rule(&self.rules, app) {
            let removed = self.rules.remove(i);
        }
        self.applied.clear();
        assert(self.applied_set() =~= Set::<(usize, u32)>::empty());
        let mut out: Vec<Vec<EndpointWrite>> = Vec::new();
        if let Some(factory) = &self.policy {
            let pids = processes_for(app, sessions, apps);
            let mut i: usize = 0;
            while i < pids.len()
                invariant
                    i <= pids@.len(),
                    clears(out@, pids@.take(i as int)),
                decreases pids@.len() - i,
            {
                out.push(factory.clear_default_endpoint(pids[i]));
                assert(clears(out@, pids@.take(i + 1)));
                i = i + 1;
            }
            assert(pids@.take(i as int) =~= pids@);
        }
        out
    }

    /// The writes that enforcing every enabled rule against the applications
    /// currently running asks for. Rules already in force are skipped, and
    /// where the facility is missing there is nothing to ask.
    ///
    /// `apps` are the applications of the live processes, as far as they could
    /// be identified.
    pub fn plan(&self, sessions: &Vec<Session>, apps: &Vec<Option<AppKey>>) -> (r: Vec<RouteWrite>)
        requires
            apps@.len() == live_processes(sessions@).len(),
        ensures
            self.policy is None ==> r@.len() == 0,
            self.policy is Some ==> {
                let pids = live_processes(sessions@);
                let writes = pending(
                    self.rules@,
                    self.applied_set(),
                    pids,
                    apps@,
                    pids.len() as int,
                );
                &&& r@.len() == writes.len()
                &&& forall|k: int|
                    0 <= k < r@.len() ==> carries_out(#[trigger] r@[k], writes[k], self.rules@)
            },
    {
        let mut out: Vec<RouteWrite> = Vec::new();
        if let Some(factory) = &self.policy {
            let pids = processes_of(sessions);
            let ghost rules = self.rules@;
            let ghost applied = self.applied_set();
            let mut i: usize = 0;
            while i < pids.len()
                invariant
                    i <= pids@.len() == apps@.len(),
                    rules == self.rules@,
                    applied == self.applied_set(),
                    out@.len() == pending(rules, applied, pids@, apps@, i as int).len(),
                    forall|k: int|
                        0 <= k < out@.len() ==> carries_out(
                            #[trigger] out@[k],
                            pending(rules, applied, pids@, apps@, i as int)[k],
                            rules,
                        ),
                decreases pids@.len() - i,
            {
                let pid: u32 = pids[i];
                if let Some(key) = &apps[i] {
                    if let Some(index) = find_match(&self.rules, key) {
                        if !holds_pair(&self.applied, index, pid) {
                            if let RouteMethod::Policy = self.rules[index].method {
                                let writes = match &self.rules[index].target {
                                    RouteTarget::SystemDefault => factory.clear_default_endpoint(
                                        pid,
                                    ),
                                    RouteTarget::Device { endpoint_id } =>
                                        factory.set_default_endpoint(pid, endpoint_id.as_str()),
                                };
                                out.push(RouteWrite { rule: index, process_id: pid, writes });
                            }
                        }
                    }
                }
                i = i + 1;
            }
        }
        out
    }

    /// Records a pass: enforces every enabled rule against the applications
    /// currently running.
    ///
    /// `outcomes` are the system's answers to the writes of [`Router::plan`].
    /// A failure is not remembered, so the next pass retries; what no longer
    /// matches anything running is forgotten, so a restart picks the route up
    /// again.
    pub fn apply(
        &mut self,
        sessions: &Vec<Session>,
        apps: &Vec<Option<AppKey>>,
        outcomes: &Vec<Result<(), String>>,
    ) -> (r: ApplyReport)
        requires
            apps@.len() == live_processes(sessions@).len(),
            old(self).policy is Some ==> outcomes@.len() == pending(
                old(self).rules@,
                old(self).applied_set(),
                live_processes(sessions@),
                apps@,
                live_processes(sessions@).len() as int,
            ).len(),
        ensures
            final(self).rules@ == old(self).rules@,
            final(self).policy == old(self).policy,
            final(self).injection == old(self).injection,
            final(self).wf(),
            ({
                let rules = old(self).rules@;
                let before = old(self).applied_set();
                let pids = live_processes(sessions@);
                let n = pids.len() as int;
                let policy = old(self).policy is Some;
                let writes = pending(rules, before, pids, apps@, n);
                &&& final(self).applied_set() == applied_after(
                    rules,
                    before,
                    pids,
                    apps@,
                    policy,
                    outcomes@,
                )
                &&& r.already_in_force == in_force(rules, before, pids, apps@, n)
                &&& texts(r.injection_deferred@) == deferred(rules, before, pids, apps@, n)
                &&& texts(r.applied@) == written_names(
                    rules,
                    writes,
                    policy,
                    outcomes@,
                    writes.len() as int,
                )
                &&& text_pairs(r.failed@) == failed_writes(
                    rules,
                    writes,
                    policy,
                    outcomes@,
                    writes.len() as int,
                )
            }),
    {
        let pids = processes_of(sessions);
        let ghost rules = self.rules@;
        let ghost before = self.applied_set();
        let policy: bool = self.policy.is_some();
        let mut next: Vec<(usize, u32)> = Vec::new();
        let mut done: usize = 0;
        let mut report = ApplyReport {
            applied: Vec::new(),
            already_in_force: 0,
            failed: Vec::new(),
            injection_deferred: Vec::new(),
        };
        let mut i: usize = 0;
        proof {
            assert(texts(report.applied@) =~= Seq::empty());
            assert(texts(report.injection_deferred@) =~= Seq::empty());
            assert(text_pairs(report.failed@) =~= Seq::empty());
        }
        while i < pids.len()
            invariant
                i <= pids@.len() == apps@.len(),
                rules == self.rules@,
                before == self.applied_set(),
                *self == *old(self),
                policy == (self.policy is Some),
                policy ==> outcomes@.len() == pending(
                    rules,
                    before,
                    pids@,
                    apps@,
                    pids@.len() as int,
                ).len(),
                done == pending(rules, before, pids@, apps@, i as int).len(),
                done <= i,
                report.already_in_force == in_force(rules, before, pids@, apps@, i as int) <= i,
                texts(report.injection_deferred@) == deferred(rules, before, pids@, apps@, i as int),
                texts(report.applied@) == written_names(
                    rules,
                    pending(rules, before, pids@, apps@, i as int),
                    policy,
                    outcomes@,
                    done as int,
                ),
                text_pairs(report.failed@) == failed_writes(
                    rules,
                    pending(rules, before, pids@, apps@, i as int),
                    policy,
                    outcomes@,
                    done as int,
                ),
                next@.no_duplicates(),
                forall|pair: (usize, u32)| #[trigger]
                    next@.contains(pair) == kept(
                        rules,
                        before,
                        pids@,
                        apps@,
                        policy,
                        outcomes@,
                        i as int,
                        pair,
                    ),
            decreases pids@.len() - i,
        {
            let pid: u32 = pids[i];
            let ghost v = verdict(rules, before, pid, key_view(apps@[i as int]));
            let ghost w0 = pending(rules, before, pids@, apps@, i as int);
            let ghost w1 = pending(rules, before, pids@, apps@, i + 1);
            let ghost next0 = next@;
            let ghost report0 = report;
            proof {
                lemma_pending_grows(rules, before, pids@, apps@, i + 1, pids@.len() as int);
                assert(w1.take(w0.len() as int) =~= w0);
                lemma_names_stable(rules, w0, w1, policy, outcomes@, done as int);
                assert forall|pair: (usize, u32)| kept(
                    rules,
                    before,
                    pids@,
                    apps@,
                    policy,
                    outcomes@,
                    i + 1,
                    pair,
                ) == {
                    ||| #[trigger] next0.contains(pair)
                    ||| before.contains(pair) && pid == pair.1 && !(v is NoRule)
                    ||| {
                        &&& v is Write
                        &&& v->Write_0 == pair.0
                        &&& pid == pair.1
                        &&& write_error(policy, outcomes@, done as int) is None
                    }
                } by {
                    lemma_kept_step(
                        rules,
                        before,
                        pids@,
                        apps@,
                        policy,
                        outcomes@,
                        i as int,
                        pair,
                    );
                }
            }
            let matched: Option<usize> = match &apps[i] {
                Some(key) => find_match(&self.rules, key),
                None => None,
            };
            if apps[i].is_none() || matched.is_some() {
                keep_pairs(&self.applied, pid, &mut next);
            }
            match matched {
                None => {},
                Some(index) => {
                    if holds_pair(&self.applied, index, pid) {
                        report.already_in_force = report.already_in_force + 1;
                    } else {
                        let name = self.rules[index].display_name.clone();
                        match self.rules[index].method {
                            RouteMethod::Injection => {
                                report.injection_deferred.push(name);
                                assert(texts(report.injection_deferred@) =~= texts(
                                    report0.injection_deferred@,
                                ).push(name@));
                            },
                            RouteMethod::Policy => {
                                if !policy {
                                    let reason =
                                        "per-application endpoints are not available on this build".to_owned();
                                    report.failed.push((name, reason));
                                    assert(text_pairs(report.failed@) =~= text_pairs(
                                        report0.failed@,
                                    ).push((name@, no_policy_text())));
                                } else {
                                    match &outcomes[done] {
                                        Ok(_) => {
                                            record(&mut next, index, pid);
                                            report.applied.push(name);
                                            assert(texts(report.applied@) =~= texts(
                                                report0.applied@,
                                            ).push(name@));
                                        },
                                        Err(reason) => {
                                            report.failed.push((name, reason.clone()));
                                            assert(text_pairs(report.failed@) =~= text_pairs(
                                                report0.failed@,
                                            ).push((name@, reason@)));
                                        },
                                    }
                                }
                                done = done + 1;
                            },
                        }
                    }
                },
            }
            i = i + 1;
        }
        self.applied = next;
        assert(self.applied_set() =~= applied_after(
            rules,
            before,
            pids@,
            apps@,
            policy,
            outcomes@,
        ));
        report
    }

    /// The writes that clear every override held for a live process.
    ///
    /// They are made unconditionally rather than only where a rule matches,
    /// which also repairs overrides that no rule accounts for any more.
    pub fn release_all(&self, sessions: &Vec<Session>) -> (r: Vec<Vec<EndpointWrite>>)
        ensures
            self.policy is None ==> r@.len() == 0,
            self.policy is Some ==> clears(r@, live_processes(sessions@)),
    {
        let mut out: Vec<Vec<EndpointWrite>> = Vec::new();
        if let Some(factory) = &self.policy {
            let pids = processes_of(sessions);
            let mut i: usize = 0;
            while i < pids.len()
                invariant
                    i <= pids@.len(),
                    clears(out@, pids@.take(i as int)),
                decreases pids@.len() - i,
            {
                out.push(factory.clear_default_endpoint(pids[i]));
                assert(clears(out@, pids@.take(i + 1)));
                i = i + 1;
            }
            assert(pids@.take(i as int) =~= pids@);
        }
        out
    }
}

/// The texts of a list of pairs.
pub open spec fn text_pairs(v: Seq<(String, String)>) -> Seq<(Seq<char>, Seq<char>)> {
    Seq::new(v.len(), |i: int| (v[i].0@, v[i].1@))
}

fn holds_pair(list: &Vec<(usize, u32)>, rule: usize, pid: u32) -> (r: bool)
    ensures
        r == list@.to_set().contains((rule, pid)),
{
    let mut i: usize = 0;
    while i < list.len()
        invariant
            i <= list@.len(),
            forall|j: int| 0 <= j < i ==> list@[j] != (rule, pid),
        decreases list@.len() - i,
    {
        if list[i].0 == rule && list[i].1 == pid {
            assert(list@[i as int] == (rule, pid));
            return true;
        }
        i = i + 1;
    }
    false
}

/// Records a pair, unless it is there already.
fn record(list: &mut Vec<(usize, u32)>, rule: usize, pid: u32)
    ensures
        forall|pair: (usize, u32)| #[trigger]
            final(list)@.contains(pair) == (old(list)@.contains(pair) || pair == (rule, pid)),
        old(list)@.no_duplicates() ==> final(list)@.no_duplicates(),
{
    if !holds_pair(list, rule, pid) {
        proof {
            lemma_push_contains(list@, (rule, pid));
        }
        list.push((rule, pid));
    }
}

/// Copies the pairs of one process.
fn keep_pairs(list: &Vec<(usize, u32)>, pid: u32, out: &mut Vec<(usize, u32)>)
    ensures
        forall|pair: (usize, u32)| #[trigger]
            final(out)@.contains(pair) == (old(out)@.contains(pair) || (list@.to_set().contains(pair)
                && pair.1 == pid)),
        old(out)@.no_duplicates() ==> final(out)@.no_duplicates(),
{
    let ghost start = out@;
    let mut i: usize = 0;
    while i < list.len()
        invariant
            i <= list@.len(),
            start == old(out)@,
            start.no_duplicates() ==> out@.no_duplicates(),
            forall|pair: (usize, u32)| #[trigger]
                out@.contains(pair) == (start.contains(pair) || (list@.take(i as int).contains(pair)
                    && pair.1 == pid)),
        decreases list@.len() - i,
    {
        let pair: (usize, u32) = list[i];
        proof {
            lemma_push_contains(list@.take(i as int), pair);
            assert(list@.take(i + 1) =~= list@.take(i as int).push(pair));
        }
        if pair.1 == pid {
            record(out, pair.0, pair.1);
        }
        i = i + 1;
    }
    assert(list@.take(i as int) =~= list@);
}

proof fn lemma_push_contains(list: Seq<(usize, u32)>, x: (usize, u32))
    ensures
        forall|y: (usize, u32)| #[trigger] list.push(x).contains(y) == (list.contains(y) || y == x),
{
    assert forall|y: (usize, u32)| #[trigger] list.push(x).contains(y) == (list.contains(y) || y
        == x) by {
        let all = list.push(x);
        if list.contains(y) {
            let k = choose|k: int| 0 <= k < list.len() && list[k] == y;
            assert(all[k] == y);
        }
        if y == x {
            assert(all[list.len() as int] == y);
        }
        if all.contains(y) && y != x {
            let k = choose|k: int| 0 <= k < all.len() && all[k] == y;
            assert(list[k] == y);
        }
    }
}

proof fn lemma_pending_grows(
    rules: Seq<RouteRule>,
    applied: Set<(usize, u32)>,
    pids: Seq<u32>,
    apps: Seq<Option<AppKey>>,
    m: int,
    n: int,
)
    requires
        0 <= m <= n,
    ensures
        pending(rules, applied, pids, apps, m).len() <= pending(rules, applied, pids, apps, n).len(),
    decreases n - m,
{
    if m < n {
        lemma_pending_grows(rules, applied, pids, apps, m, n - 1);
    }
}

/// What the first `n` writes came to does not depend on those behind them.
proof fn lemma_names_stable(
    rules: Seq<RouteRule>,
    a: Seq<Pending>,
    b: Seq<Pending>,
    policy: bool,
    outcomes: Seq<Result<(), String>>,
    n: int,
)
    requires
        n <= a.len() <= b.len(),
        b.take(a.len() as int) == a,
    ensures
        written_names(rules, a, policy, outcomes, n) == written_names(rules, b, policy, outcomes, n),
        failed_writes(rules, a, policy, outcomes, n) == failed_writes(rules, b, policy, outcomes, n),
    decreases n,
{
    if n > 0 {
        lemma_names_stable(rules, a, b, policy, outcomes, n - 1);
        assert(b.take(a.len() as int)[n - 1] == b[n - 1]);
    }
}

/// Whether each list of `lists` hands one process back to the system default,
/// in the order of `pids`.
pub open spec fn clears(lists: Seq<Vec<EndpointWrite>>, pids: Seq<u32>) -> bool {
    &&& lists.len() == pids.len()
    &&& forall|i: int|
        0 <= i < pids.len() ==> writes_both_roles(
            (#[trigger] lists[i])@,
            pids[i],
            Seq::<char>::empty(),
        )
}

/// The rules with `rule` in the place of the one for the same application, or
/// behind them.
pub open spec fn with_rule(rules: Seq<RouteRule>, rule: RouteRule) -> Seq<RouteRule> {
    match rule_index(rules, rule.app@) {
        Some(i) => rules.update(i, rule),
        None => rules.push(rule),
    }
}

/// The rules without the first one for an application.
pub open spec fn without_rule(rules: Seq<RouteRule>, app: AppKeyView) -> Seq<RouteRule> {
    match rule_index(rules, app) {
        Some(i) => rules.remove(i),
        None => rules,
    }
}

/// No application has two rules.
pub open spec fn one_rule_per_app(rules: Seq<RouteRule>) -> bool {
    forall|i: int, j: int|
        0 <= i < j < rules.len() ==> !same_app(
            (#[trigger] rules[i]).app@,
            (#[trigger] rules[j]).app@,
        )
}

/// Adding a rule replaces the one there is: an application never gets a
/// second rule, and the rule that was added is the one found for it.
pub proof fn upserting_keeps_one_rule_per_app(rules: Seq<RouteRule>, rule: RouteRule)
    requires
        one_rule_per_app(rules),
    ensures
        one_rule_per_app(with_rule(rules, rule)),
        rule_index(with_rule(rules, rule), rule.app@) is Some,
        with_rule(rules, rule)[rule_index(with_rule(rules, rule), rule.app@)->0] == rule,
        with_rule(rules, rule).len() <= rules.len() + 1,
        rule_index(rules, rule.app@) is Some ==> with_rule(rules, rule).len() == rules.len(),
{
    let after = with_rule(rules, rule);
    let app = rule.app@;
    lemma_rule_index(rules, app);
    assert forall|i: int, j: int| 0 <= i < j < after.len() implies !same_app(
        (#[trigger] after[i]).app@,
        (#[trigger] after[j]).app@,
    ) by {
        match rule_index(rules, app) {
            Some(k) => {
                same_app_is_an_equivalence(rules[k].app@, app, rules[i].app@);
                same_app_is_an_equivalence(rules[k].app@, app, rules[j].app@);
                same_app_is_an_equivalence(rules[i].app@, rules[k].app@, app);
                same_app_is_an_equivalence(rules[j].app@, app, rules[k].app@);
                same_app_is_an_equivalence(rules[i].app@, app, rules[k].app@);
                assert(i != k ==> after[i] == rules[i]);
                assert(j != k ==> after[j] == rules[j]);
            },
            None => {
                same_app_is_an_equivalence(rules[i].app@, app, app);
                assert(after[i] == rules[i]);
            },
        }
    }
    lemma_rule_index(after, app);
    let at = match rule_index(rules, app) {
        Some(k) => k,
        None => rules.len() as int,
    };
    assert(after[at] == rule);
    same_app_is_an_equivalence(app, app, app);
    let found = rule_index(after, app)->0;
    if found != at {
        same_app_is_an_equivalence(after[found].app@, app, after[at].app@);
        if found < at {
            assert(!same_app(after[found].app@, after[at].app@));
        }
    }
}

/// The processes among `pids` that run an application.
pub open spec fn running(pids: Seq<u32>, apps: Seq<Option<AppKey>>, app: AppKeyView) -> Seq<u32>
    decreases pids.len(),
{
    if pids.len() == 0 {
        Seq::empty()
    } else {
        let before = running(pids.drop_last(), apps.drop_last(), app);
        match key_view(apps.last()) {
            Some(key) => if same_app(key, app) {
                before.push(pids.last())
            } else {
                before
            },
            None => before,
        }
    }
}

/// Every process currently running `app`. `apps` are the applications of the
/// live processes.
pub fn processes_for(app: &AppKey, sessions: &Vec<Session>, apps: &Vec<Option<AppKey>>) -> (r: Vec<
    u32,
>)
    requires
        apps@.len() == live_processes(sessions@).len(),
    ensures
        r@ == running(live_processes(sessions@), apps@, app@),
{
    let pids = processes_of(sessions);
    let mut out: Vec<u32> = Vec::new();
    let mut i: usize = 0;
    while i < pids.len()
        invariant
            i <= pids@.len() == apps@.len(),
            out@ == running(pids@.take(i as int), apps@.take(i as int), app@),
        decreases pids@.len() - i,
    {
        proof {
            assert(pids@.take(i + 1).drop_last() =~= pids@.take(i as int));
            assert(apps@.take(i + 1).drop_last() =~= apps@.take(i as int));
        }
        if let Some(key) = &apps[i] {
            if key.same_as(app) {
                out.push(pids[i]);
            }
        }
        i = i + 1;
    }
    assert(pids@.take(i as int) =~= pids@);
    assert(apps@.take(i as int) =~= apps@);
    out
}


// ---------------------------------------------------------------------------
// What holds of passes
// ---------------------------------------------------------------------------

/// Every write of a pass is for one of the processes, whose turn it is.
proof fn lemma_pending_entry(
    rules: Seq<RouteRule>,
    applied: Set<(usize, u32)>,
    pids: Seq<u32>,
    apps: Seq<Option<AppKey>>,
    n: int,
    k: int,
) -> (i: int)
    requires
        0 <= n <= pids.len(),
        0 <= k < pending(rules, applied, pids, apps, n).len(),
    ensures
        0 <= i < n,
        pending(rules, applied, pids, apps, n)[k].process == pids[i],
        verdict(rules, applied, pids[i], key_view(apps[i])) == Verdict::Write(
            pending(rules, applied, pids, apps, n)[k].rule,
        ),
        pending(rules, applied, pids, apps, i).len() == k,
    decreases n,
{
    let before = pending(rules, applied, pids, apps, n - 1);
    if k < before.len() {
        lemma_pending_entry(rules, applied, pids, apps, n - 1, k)
    } else {
        n - 1
    }
}

/// The write of a process stands where its turn comes.
proof fn lemma_pending_at(
    rules: Seq<RouteRule>,
    applied: Set<(usize, u32)>,
    pids: Seq<u32>,
    apps: Seq<Option<AppKey>>,
    n: int,
    i: int,
)
    requires
        0 <= i < n <= pids.len(),
        verdict(rules, applied, pids[i], key_view(apps[i])) is Write,
    ensures
        ({
            let k = pending(rules, applied, pids, apps, i).len() as int;
            let all = pending(rules, applied, pids, apps, n);
            &&& k < all.len()
            &&& all[k].process == pids[i]
            &&& all[k].rule == verdict(rules, applied, pids[i], key_view(apps[i]))->Write_0
        }),
    decreases n,
{
    if i < n - 1 {
        lemma_pending_at(rules, applied, pids, apps, n - 1, i);
    }
}

/// What the next pass does about a process: a rule that was written is in
/// force, one that could not be written is tried again, and everything else
/// stays as it was.
pub proof fn the_next_pass(
    rules: Seq<RouteRule>,
    applied: Set<(usize, u32)>,
    pids: Seq<u32>,
    apps: Seq<Option<AppKey>>,
    policy: bool,
    outcomes: Seq<Result<(), String>>,
    i: int,
)
    requires
        pids.no_duplicates(),
        apps.len() == pids.len(),
        rules.len() <= usize::MAX,
        0 <= i < pids.len(),
    ensures
        ({
            let after = applied_after(rules, applied, pids, apps, policy, outcomes);
            let k = pending(rules, applied, pids, apps, i).len() as int;
            let v = verdict(rules, applied, pids[i], key_view(apps[i]));
            verdict(rules, after, pids[i], key_view(apps[i])) == (if v is Write && write_error(
                policy,
                outcomes,
                k,
            ) is None {
                Verdict::InForce
            } else {
                v
            })
        }),
{
    let n = pids.len() as int;
    let after = applied_after(rules, applied, pids, apps, policy, outcomes);
    let all = pending(rules, applied, pids, apps, n);
    let k = pending(rules, applied, pids, apps, i).len() as int;
    let v = verdict(rules, applied, pids[i], key_view(apps[i]));
    match key_view(apps[i]) {
        None => {},
        Some(key) => {
            lemma_match_index(rules, key);
            match match_index(rules, key) {
                None => {},
                Some(j) => {
                    let pair = (j as usize, pids[i]);
                    if applied.contains(pair) {
                        assert(pids[i] == pair.1 && !(v is NoRule));
                        assert(kept(rules, applied, pids, apps, policy, outcomes, n, pair));
                    } else {
                        assert forall|q: int| is_written(all, policy, outcomes, q, pair) implies v is Write
                            && q == k by {
                            let turn = lemma_pending_entry(rules, applied, pids, apps, n, q);
                            assert(pids[turn] == pids[i]);
                            assert(turn == i);
                        }
                        if v is Write {
                            lemma_pending_at(rules, applied, pids, apps, n, i);
                            if write_error(policy, outcomes, k) is None {
                                assert(is_written(all, policy, outcomes, k, pair));
                            }
                        }
                        assert(after.contains(pair) == (v is Write && write_error(
                            policy,
                            outcomes,
                            k,
                        ) is None));
                    }
                },
            }
        },
    }
}

/// A pass whose writes all succeeded is followed by one that writes nothing,
/// as long as the same applications run.
pub proof fn a_second_pass_writes_nothing(
    rules: Seq<RouteRule>,
    applied: Set<(usize, u32)>,
    pids: Seq<u32>,
    apps: Seq<Option<AppKey>>,
    outcomes: Seq<Result<(), String>>,
)
    requires
        pids.no_duplicates(),
        apps.len() == pids.len(),
        rules.len() <= usize::MAX,
        outcomes.len() == pending(rules, applied, pids, apps, pids.len() as int).len(),
        forall|k: int| 0 <= k < outcomes.len() ==> (#[trigger] outcomes[k]) is Ok,
    ensures
        pending(
            rules,
            applied_after(rules, applied, pids, apps, true, outcomes),
            pids,
            apps,
            pids.len() as int,
        ).len() == 0,
{
    let after = applied_after(rules, applied, pids, apps, true, outcomes);
    let n = pids.len() as int;
    let all = pending(rules, after, pids, apps, n);
    if all.len() > 0 {
        let turn = lemma_pending_entry(rules, after, pids, apps, n, 0);
        the_next_pass(rules, applied, pids, apps, true, outcomes, turn);
        lemma_pending_at(rules, applied, pids, apps, n, turn);
        let k = pending(rules, applied, pids, apps, turn).len() as int;
        assert(outcomes[k] is Ok);
    }
}

/// Nothing is ever written for process 0, nor for a process that is not live,
/// and nothing stays in force for one.
pub proof fn only_live_processes_are_routed(
    rules: Seq<RouteRule>,
    applied: Set<(usize, u32)>,
    sessions: Seq<Session>,
    apps: Seq<Option<AppKey>>,
    policy: bool,
    outcomes: Seq<Result<(), String>>,
)
    requires
        apps.len() == live_processes(sessions).len(),
    ensures
        ({
            let pids = live_processes(sessions);
            let writes = pending(rules, applied, pids, apps, pids.len() as int);
            &&& forall|k: int|
                0 <= k < writes.len() ==> (#[trigger] writes[k]).process != 0 && pids.contains(
                    writes[k].process,
                )
            &&& forall|pair: (usize, u32)| #[trigger]
                applied_after(rules, applied, pids, apps, policy, outcomes).contains(pair)
                    ==> pair.1 != 0 && pids.contains(pair.1)
        }),
{
    live_processes_are_distinct(sessions);
    let pids = live_processes(sessions);
    let n = pids.len() as int;
    let writes = pending(rules, applied, pids, apps, n);
    assert forall|k: int| 0 <= k < writes.len() implies (#[trigger] writes[k]).process != 0
        && pids.contains(writes[k].process) by {
        let turn = lemma_pending_entry(rules, applied, pids, apps, n, k);
        assert(pids[turn] == writes[k].process);
    }
    assert forall|pair: (usize, u32)| #[trigger]
        applied_after(rules, applied, pids, apps, policy, outcomes).contains(pair) implies pair.1
        != 0 && pids.contains(pair.1) by {
        if exists|k: int| #[trigger] is_written(writes, policy, outcomes, k, pair) {
            let k = choose|k: int| #[trigger] is_written(writes, policy, outcomes, k, pair);
            assert(writes[k].process == pair.1);
        }
    }
}

/// A restarted application is a fresh process, for which its rule is written
/// again.
pub proof fn a_fresh_process_is_written(
    rules: Seq<RouteRule>,
    applied: Set<(usize, u32)>,
    pid: u32,
    app: AppKeyView,
)
    requires
        forall|i: usize| !applied.contains((i, pid)),
        match_index(rules, app) is Some,
        rules[match_index(rules, app)->0].method == RouteMethod::Policy,
    ensures
        verdict(rules, applied, pid, Some(app)) == Verdict::Write(match_index(rules, app)->0),
{
}

/// A rule that is switched off applies to nothing, and one that applies is for
/// that very application.
pub proof fn rules_apply_to_their_own(rules: Seq<RouteRule>, app: AppKeyView)
    ensures
        match_index(rules, app) is Some ==> rules[match_index(rules, app)->0].enabled && same_app(
            rules[match_index(rules, app)->0].app@,
            app,
        ),
{
    lemma_match_index(rules, app);
}

// ---------------------------------------------------------------------------
// What routing is for
// ---------------------------------------------------------------------------

/// An application is sent where its rule says: for every process of a running
/// application whose first rule that is switched on asks for it, and is not in
/// force yet, a pass writes that rule, once.
pub proof fn an_application_goes_where_its_rule_says(
    rules: Seq<RouteRule>,
    applied: Set<(usize, u32)>,
    pids: Seq<u32>,
    apps: Seq<Option<AppKey>>,
    i: int,
    k: int,
) -> (q: int)
    requires
        pids.no_duplicates(),
        apps.len() == pids.len(),
        0 <= i < pids.len(),
        apps[i] is Some,
        0 <= k < rules.len(),
        rules[k].enabled,
        same_app(rules[k].app@, apps[i]->0@),
        forall|j: int|
            0 <= j < k ==> !((#[trigger] rules[j]).enabled && same_app(
                rules[j].app@,
                apps[i]->0@,
            )),
        rules[k].method == RouteMethod::Policy,
        !applied.contains((k as usize, pids[i])),
    ensures
        ({
            let writes = pending(rules, applied, pids, apps, pids.len() as int);
            &&& 0 <= q < writes.len()
            &&& writes[q] == (Pending { rule: k, process: pids[i] })
            &&& forall|p: int|
                0 <= p < writes.len() && (#[trigger] writes[p]).process == pids[i] ==> p == q
        }),
{
    let n = pids.len() as int;
    let app = apps[i]->0@;
    a_rule_is_found_wherever_it_stands(rules, app, k);
    lemma_pending_at(rules, applied, pids, apps, n, i);
    let q = pending(rules, applied, pids, apps, i).len() as int;
    let writes = pending(rules, applied, pids, apps, n);
    assert forall|p: int|
        0 <= p < writes.len() && (#[trigger] writes[p]).process == pids[i] implies p == q by {
        let turn = lemma_pending_entry(rules, applied, pids, apps, n, p);
        assert(pids[turn] == pids[i]);
    }
    q
}

/// Nothing is written without a reason: every write of a pass is for a process
/// of an application whose first rule that is switched on is the one written,
/// asks for it, and is not in force.
pub proof fn every_write_has_its_rule(
    rules: Seq<RouteRule>,
    applied: Set<(usize, u32)>,
    pids: Seq<u32>,
    apps: Seq<Option<AppKey>>,
    q: int,
) -> (i: int)
    requires
        apps.len() == pids.len(),
        0 <= q < pending(rules, applied, pids, apps, pids.len() as int).len(),
    ensures
        0 <= i < pids.len(),
        ({
            let w = pending(rules, applied, pids, apps, pids.len() as int)[q];
            &&& w.process == pids[i]
            &&& apps[i] is Some
            &&& 0 <= w.rule < rules.len()
            &&& rules[w.rule].enabled
            &&& same_app(rules[w.rule].app@, apps[i]->0@)
            &&& rules[w.rule].method == RouteMethod::Policy
            &&& !applied.contains((w.rule as usize, pids[i]))
            &&& forall|j: int|
                0 <= j < w.rule ==> !((#[trigger] rules[j]).enabled && same_app(
                    rules[j].app@,
                    apps[i]->0@,
                ))
        }),
{
    let n = pids.len() as int;
    let i = lemma_pending_entry(rules, applied, pids, apps, n, q);
    if apps[i] is Some {
        lemma_match_index(rules, apps[i]->0@);
    }
    i
}

/// A write sends its process to the device that the rule names, in both roles;
/// for a rule that follows the system it takes the device away.
pub proof fn a_write_names_the_device_of_its_rule(w: RouteWrite, p: Pending, rules: Seq<RouteRule>)
    requires
        carries_out(w, p, rules),
    ensures
        w.rule == p.rule && w.process_id == p.process,
        w.writes@.len() == 2,
        w.writes@[0].process_id == p.process && w.writes@[1].process_id == p.process,
        w.writes@[0].role != w.writes@[1].role,
        rules[p.rule].target is Device ==> w.writes@[0].device@ == interface_path_text(
            rules[p.rule].target->endpoint_id@,
        ) && w.writes@[1].device@ == w.writes@[0].device@,
        rules[p.rule].target is SystemDefault ==> w.writes@[0].device@.len() == 0
            && w.writes@[1].device@.len() == 0,
{
}

/// What a pass reports adds up: every process with a rule has it in force,
/// written, or deferred, and nothing else is counted.
pub proof fn every_process_is_accounted_for(
    rules: Seq<RouteRule>,
    applied: Set<(usize, u32)>,
    pids: Seq<u32>,
    apps: Seq<Option<AppKey>>,
    n: int,
)
    requires
        0 <= n < pids.len(),
        apps.len() == pids.len(),
    ensures
        ({
            let before = in_force(rules, applied, pids, apps, n) + deferred(
                rules,
                applied,
                pids,
                apps,
                n,
            ).len() + pending(rules, applied, pids, apps, n).len();
            let after = in_force(rules, applied, pids, apps, n + 1) + deferred(
                rules,
                applied,
                pids,
                apps,
                n + 1,
            ).len() + pending(rules, applied, pids, apps, n + 1).len();
            let ruled = apps[n] is Some && exists|k: int|
                0 <= k < rules.len() && (#[trigger] rules[k]).enabled && same_app(
                    rules[k].app@,
                    apps[n]->0@,
                );
            after - before == (if ruled {
                1int
            } else {
                0int
            })
        }),
        in_force(rules, applied, pids, apps, n + 1) - in_force(rules, applied, pids, apps, n) == (if apps[n] is Some
            && match_index(rules, apps[n]->0@) is Some && applied.contains(
            (match_index(rules, apps[n]->0@)->0 as usize, pids[n]),
        ) {
            1int
        } else {
            0int
        }),
        in_force(rules, applied, pids, apps, 0) == 0,
        pending(rules, applied, pids, apps, 0).len() == 0,
        deferred(rules, applied, pids, apps, 0).len() == 0,
{
    if apps[n] is Some {
        lemma_match_index(rules, apps[n]->0@);
    }
}

/// A rule that asks for injection is reported by its name and not written.
pub proof fn injection_is_reported(
    rules: Seq<RouteRule>,
    applied: Set<(usize, u32)>,
    pids: Seq<u32>,
    apps: Seq<Option<AppKey>>,
    n: int,
    k: int,
)
    requires
        0 <= n < pids.len(),
        apps.len() == pids.len(),
        apps[n] is Some,
        match_index(rules, apps[n]->0@) == Some(k),
        rules[k].method == RouteMethod::Injection,
        !applied.contains((k as usize, pids[n])),
    ensures
        deferred(rules, applied, pids, apps, n + 1) == deferred(rules, applied, pids, apps, n).push(
            rules[k].display_name@,
        ),
        pending(rules, applied, pids, apps, n + 1) == pending(rules, applied, pids, apps, n),
{
}

/// Every write is reported, with its rule's name: as applied exactly if the
/// system accepted it, and else as failed, with the reason.
pub proof fn every_write_is_reported(
    rules: Seq<RouteRule>,
    writes: Seq<Pending>,
    policy: bool,
    outcomes: Seq<Result<(), String>>,
    n: int,
    k: int,
)
    requires
        0 <= k < n <= writes.len(),
    ensures
        written_names(rules, writes, policy, outcomes, n).len() + failed_writes(
            rules,
            writes,
            policy,
            outcomes,
            n,
        ).len() == n,
        policy && outcomes[k] is Ok ==> written_names(rules, writes, policy, outcomes, n).contains(
            rules[writes[k].rule].display_name@,
        ),
        policy && outcomes[k] is Err ==> failed_writes(rules, writes, policy, outcomes, n).contains(
            (rules[writes[k].rule].display_name@, outcomes[k]->Err_0@),
        ),
        !policy ==> failed_writes(rules, writes, policy, outcomes, n).contains(
            (
                rules[writes[k].rule].display_name@,
                "per-application endpoints are not available on this build"@,
            ),
        ) && written_names(rules, writes, policy, outcomes, n).len() == 0,
    decreases n,
{
    lemma_reports_add_up(rules, writes, policy, outcomes, n);
    let names = written_names(rules, writes, policy, outcomes, n);
    let failures = failed_writes(rules, writes, policy, outcomes, n);
    let names0 = written_names(rules, writes, policy, outcomes, n - 1);
    let failures0 = failed_writes(rules, writes, policy, outcomes, n - 1);
    if k == n - 1 {
        if write_error(policy, outcomes, k) is None {
            assert(names[names.len() - 1] == rules[writes[k].rule].display_name@);
        } else {
            assert(failures[failures.len() - 1].0 == rules[writes[k].rule].display_name@);
        }
    } else {
        every_write_is_reported(rules, writes, policy, outcomes, n - 1, k);
        assert forall|x: Seq<char>| names0.contains(x) implies names.contains(x) by {
            let m = choose|m: int| 0 <= m < names0.len() && names0[m] == x;
            assert(names[m] == x);
        }
        assert forall|x: (Seq<char>, Seq<char>)| failures0.contains(x) implies failures.contains(
            x,
        ) by {
            let m = choose|m: int| 0 <= m < failures0.len() && failures0[m] == x;
            assert(failures[m] == x);
        }
    }
}

proof fn lemma_reports_add_up(
    rules: Seq<RouteRule>,
    writes: Seq<Pending>,
    policy: bool,
    outcomes: Seq<Result<(), String>>,
    n: int,
)
    requires
        0 <= n,
    ensures
        written_names(rules, writes, policy, outcomes, n).len() + failed_writes(
            rules,
            writes,
            policy,
            outcomes,
            n,
        ).len() == n,
        !policy ==> written_names(rules, writes, policy, outcomes, n).len() == 0,
    decreases n,
{
    if n > 0 {
        lemma_reports_add_up(rules, writes, policy, outcomes, n - 1);
    }
}

/// Changing one application's rule leaves those of the others alone: the same
/// rule is found for them, whether it is added, replaced or removed.
pub proof fn other_rules_are_left_alone(
    rules: Seq<RouteRule>,
    rule: RouteRule,
    app: AppKeyView,
    other: AppKeyView,
)
    requires
        !same_app(rule.app@, other),
        !same_app(app, other),
    ensures
        ({
            let after = with_rule(rules, rule);
            let less = without_rule(rules, app);
            &&& (match_index(after, other) is Some) == (match_index(rules, other) is Some)
            &&& match_index(rules, other) is Some ==> after[match_index(after, other)->0]
                == rules[match_index(rules, other)->0]
            &&& (match_index(less, other) is Some) == (match_index(rules, other) is Some)
            &&& match_index(rules, other) is Some ==> less[match_index(less, other)->0]
                == rules[match_index(rules, other)->0]
        }),
{
    lemma_match_index(rules, other);
    let after = with_rule(rules, rule);
    lemma_rule_index(rules, rule.app@);
    lemma_match_index(after, other);
    match rule_index(rules, rule.app@) {
        Some(i) => {
            same_app_is_an_equivalence(rules[i].app@, rule.app@, other);
            same_app_is_an_equivalence(rule.app@, rules[i].app@, other);
            assert forall|j: int| 0 <= j < rules.len() && j != i implies after[j] == rules[j] by {}
            match match_index(rules, other) {
                Some(k) => {
                    assert(after[k] == rules[k]);
                    a_rule_is_found_wherever_it_stands(after, other, k);
                },
                None => {},
            }
            if match_index(after, other) is Some {
                let k = match_index(after, other)->0;
                assert(after[k] == rules[k]);
            }
        },
        None => {
            assert forall|j: int| 0 <= j < rules.len() implies after[j] == rules[j] by {}
            match match_index(rules, other) {
                Some(k) => {
                    assert(after[k] == rules[k]);
                    a_rule_is_found_wherever_it_stands(after, other, k);
                },
                None => {},
            }
            if match_index(after, other) is Some {
                let k = match_index(after, other)->0;
                if k < rules.len() {
                    assert(after[k] == rules[k]);
                }
            }
        },
    }
    let less = without_rule(rules, app);
    lemma_rule_index(rules, app);
    lemma_match_index(less, other);
    match rule_index(rules, app) {
        Some(i) => {
            same_app_is_an_equivalence(rules[i].app@, app, other);
            same_app_is_an_equivalence(app, rules[i].app@, other);
            match match_index(rules, other) {
                Some(k) => {
                    let at = if k < i {
                        k
                    } else {
                        k - 1
                    };
                    assert(less[at] == rules[k]);
                    assert forall|j: int| 0 <= j < at implies !((#[trigger] less[j]).enabled
                        && same_app(less[j].app@, other)) by {
                        let from = if j < i {
                            j
                        } else {
                            j + 1
                        };
                        assert(less[j] == rules[from]);
                    }
                    a_rule_is_found_wherever_it_stands(less, other, at);
                },
                None => {
                    if match_index(less, other) is Some {
                        let k = match_index(less, other)->0;
                        let from = if k < i {
                            k
                        } else {
                            k + 1
                        };
                        assert(less[k] == rules[from]);
                    }
                },
            }
        },
        None => {},
    }
}

/// Removing an application's rule leaves it none, and takes nothing else away.
pub proof fn removing_leaves_no_rule(rules: Seq<RouteRule>, app: AppKeyView)
    requires
        one_rule_per_app(rules),
    ensures
        forall|j: int|
            0 <= j < without_rule(rules, app).len() ==> !same_app(
                (#[trigger] without_rule(rules, app)[j]).app@,
                app,
            ),
        without_rule(rules, app).len() >= rules.len() - 1,
        rule_index(rules, app) is None ==> without_rule(rules, app) == rules,
{
    lemma_rule_index(rules, app);
    match rule_index(rules, app) {
        Some(i) => {
            let less = rules.remove(i);
            assert forall|j: int| 0 <= j < less.len() implies !same_app(
                (#[trigger] less[j]).app@,
                app,
            ) by {
                let from = if j < i {
                    j
                } else {
                    j + 1
                };
                assert(less[j] == rules[from]);
                same_app_is_an_equivalence(rules[i].app@, app, rules[from].app@);
                same_app_is_an_equivalence(rules[from].app@, app, rules[i].app@);
                if from < i {
                    assert(!same_app(rules[from].app@, rules[i].app@));
                } else {
                    assert(!same_app(rules[i].app@, rules[from].app@));
                }
            }
        },
        None => {},
    }
}

/// Every live process comes from a session, and they stand in the order in
/// which they first appear.
pub proof fn live_processes_come_from_sessions(sessions: Seq<Session>, k: int) -> (i: int)
    requires
        0 <= k < live_processes(sessions).len(),
    ensures
        0 <= i < sessions.len(),
        sessions[i].process_id == live_processes(sessions)[k],
        live_processes(sessions)[k] != 0,
        live_processes(sessions.take(i)) == live_processes(sessions).take(k),
    decreases sessions.len(),
{
    let front = sessions.drop_last();
    let before = live_processes(front);
    if k < before.len() {
        let i = live_processes_come_from_sessions(front, k);
        assert(front.take(i) =~= sessions.take(i));
        assert(live_processes(sessions).take(k) =~= before.take(k));
        i
    } else {
        let i = sessions.len() - 1;
        assert(sessions.take(i) =~= front);
        assert(live_processes(sessions).take(k) =~= before);
        i
    }
}

/// The processes of an application are exactly those that run it, in order.
pub proof fn running_processes_run_it(
    pids: Seq<u32>,
    apps: Seq<Option<AppKey>>,
    app: AppKeyView,
    i: int,
)
    requires
        apps.len() == pids.len(),
        0 <= i < pids.len(),
        pids.no_duplicates(),
    ensures
        running(pids, apps, app).contains(pids[i]) == (apps[i] is Some && same_app(
            apps[i]->0@,
            app,
        )),
        running(pids, apps, app).len() <= pids.len(),
        running(pids, apps, app).no_duplicates(),
    decreases pids.len(),
{
    lemma_running_is_part(pids, apps, app);
    lemma_running_contains(pids, apps, app, i);
}

proof fn lemma_running_is_part(pids: Seq<u32>, apps: Seq<Option<AppKey>>, app: AppKeyView)
    requires
        apps.len() == pids.len(),
        pids.no_duplicates(),
    ensures
        running(pids, apps, app).len() <= pids.len(),
        running(pids, apps, app).no_duplicates(),
        forall|x: u32| #[trigger] running(pids, apps, app).contains(x) ==> pids.contains(x),
    decreases pids.len(),
{
    if pids.len() > 0 {
        let front = pids.drop_last();
        lemma_running_is_part(front, apps.drop_last(), app);
        let before = running(front, apps.drop_last(), app);
        let after = running(pids, apps, app);
        assert forall|x: u32| before.contains(x) implies pids.contains(x) && x != pids.last() by {
            assert(front.contains(x));
            let k = choose|k: int| 0 <= k < front.len() && front[k] == x;
            assert(pids[k] == x);
        }
        assert forall|x: u32| #[trigger] after.contains(x) implies pids.contains(x) by {
            let k = choose|k: int| 0 <= k < after.len() && after[k] == x;
            if k < before.len() {
                assert(before[k] == x);
                assert(before.contains(x));
            } else {
                assert(pids[pids.len() - 1] == x);
            }
        }
        assert(after.no_duplicates()) by {
            assert forall|a: int, b: int| 0 <= a < b < after.len() implies after[a] != after[b] by {
                if b == before.len() {
                    assert(before.contains(before[a]));
                }
            }
        }
    }
}

proof fn lemma_running_contains(
    pids: Seq<u32>,
    apps: Seq<Option<AppKey>>,
    app: AppKeyView,
    i: int,
)
    requires
        apps.len() == pids.len(),
        0 <= i < pids.len(),
        pids.no_duplicates(),
    ensures
        running(pids, apps, app).contains(pids[i]) == (apps[i] is Some && same_app(
            apps[i]->0@,
            app,
        )),
    decreases pids.len(),
{
    let n = pids.len() - 1;
    let front = pids.drop_last();
    let before = running(front, apps.drop_last(), app);
    let after = running(pids, apps, app);
    lemma_running_is_part(front, apps.drop_last(), app);
    if i < n {
        lemma_running_contains(front, apps.drop_last(), app, i);
        assert(front[i] == pids[i] && apps.drop_last()[i] == apps[i]);
        if before.contains(pids[i]) {
            let k = choose|k: int| 0 <= k < before.len() && before[k] == pids[i];
            assert(after[k] == pids[i]);
        } else if after.contains(pids[i]) {
            let k = choose|k: int| 0 <= k < after.len() && after[k] == pids[i];
            if k < before.len() {
                assert(before[k] == pids[i]);
            } else {
                assert(pids[n] == pids[i]);
            }
        }
    } else {
        if before.contains(pids[i]) {
            assert(front.contains(pids[i]));
            let k = choose|k: int| 0 <= k < front.len() && front[k] == pids[i];
            assert(pids[k] == pids[i]);
        }
        if apps[i] is Some && same_app(apps[i]->0@, app) {
            assert(after[before.len() as int] == pids[i]);
        }
    }
}

} // verus!
