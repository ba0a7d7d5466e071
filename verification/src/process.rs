//! Process identity: what to call an audio session's owner, and what to draw
//! next to it.
//!
//! A process id is useless across restarts. [`AppKey`] is what a routing rule
//! is anchored to: the Application User Model ID of a packaged application, or
//! the path of an ordinary program.

use crate::path::{
    file_name, is_plain_name, opt_paths_equal, same_opt_path, starts_with_drive,
    the_file_name_is_behind_the_last_separator, windows_file_name,
};
use crate::text::{
    ascii_lower, chars_of, copy_opt, decimal, decimals_read_back, opt_text, same_ignoring_case,
    same_opt_text, same_text,
    starts_with, string_of, text_eq_ignoring_case, to_ascii_lower, to_decimal, trim_end_of,
    trimmed_end_of, without_prefix,
};
use std::collections::HashMap;
use vstd::prelude::*;
use vstd::slice::slice_subrange;
use vstd::string::*;

verus! {

/// How an application is identified across runs.
#[derive(Debug)]
pub enum AppKey {
    /// A packaged application, named by its Application User Model ID.
    Packaged(String),
    /// An ordinary program, named by its executable path (compared
    /// case-insensitively, as Windows paths are).
    Executable(String),
    /// A session with no process behind it, i.e. the system sounds session.
    SystemSounds,
}

/// The text of a key.
pub enum AppKeyView {
    Packaged(Seq<char>),
    Executable(Seq<char>),
    SystemSounds,
}

impl View for AppKey {
    type V = AppKeyView;

    open spec fn view(&self) -> AppKeyView {
        match self {
            AppKey::Packaged(s) => AppKeyView::Packaged(s@),
            AppKey::Executable(s) => AppKeyView::Executable(s@),
            AppKey::SystemSounds => AppKeyView::SystemSounds,
        }
    }
}

/// Whether two keys name the same application: executable paths are compared
/// without regard to ASCII case, everything else exactly.
pub open spec fn same_app(a: AppKeyView, b: AppKeyView) -> bool {
    match (a, b) {
        (AppKeyView::Executable(x), AppKeyView::Executable(y)) => same_ignoring_case(x, y),
        (AppKeyView::Packaged(x), AppKeyView::Packaged(y)) => x == y,
        (AppKeyView::SystemSounds, AppKeyView::SystemSounds) => true,
        _ => false,
    }
}

/// The text by which a key is hashed: one tag for each kind of key, and the
/// payload with the case folded away that equality ignores.
pub open spec fn hash_text(key: AppKeyView) -> Seq<char> {
    match key {
        AppKeyView::Packaged(s) => seq!['0'] + s,
        AppKeyView::SystemSounds => seq!['1'],
        AppKeyView::Executable(s) => seq!['2'] + ascii_lower(s),
    }
}

/// The stored form of a key. The prefix keeps an Application User Model ID
/// from being read back as a path.
pub open spec fn storage_text(key: AppKeyView) -> Seq<char> {
    match key {
        AppKeyView::Packaged(s) => "aumid:"@ + s,
        AppKeyView::Executable(s) => "exe:"@ + s,
        AppKeyView::SystemSounds => "system-sounds"@,
    }
}

/// The key that a stored text stands for.
pub open spec fn key_of_storage(text: Seq<char>) -> Option<AppKeyView> {
    if text == "system-sounds"@ {
        Some(AppKeyView::SystemSounds)
    } else if starts_with(text, "aumid:"@) {
        let aumid = text.skip("aumid:"@.len() as int);
        if aumid.len() == 0 {
            None
        } else {
            Some(AppKeyView::Packaged(aumid))
        }
    } else if starts_with(text, "exe:"@) {
        let path = text.skip("exe:"@.len() as int);
        if path.len() == 0 {
            None
        } else {
            Some(AppKeyView::Executable(path))
        }
    } else {
        None
    }
}

/// Whether a key has something in it.
pub open spec fn has_payload(key: AppKeyView) -> bool {
    match key {
        AppKeyView::Packaged(s) => s.len() > 0,
        AppKeyView::Executable(s) => s.len() > 0,
        AppKeyView::SystemSounds => true,
    }
}

/// What is stored reads back as the same key.
pub proof fn storage_round_trips(key: AppKeyView)
    requires
        has_payload(key),
    ensures
        key_of_storage(storage_text(key)) == Some(key),
{
    reveal_strlit("aumid:");
    reveal_strlit("exe:");
    reveal_strlit("system-sounds");
    match key {
        AppKeyView::Packaged(s) => {
            assert(storage_text(key)[0] == 'a');
            assert(storage_text(key) != "system-sounds"@);
            assert(storage_text(key).take(6) =~= "aumid:"@);
            assert(storage_text(key).skip(6) =~= s);
        },
        AppKeyView::Executable(s) => {
            let t = storage_text(key);
            assert(t[0] == 'e');
            assert(t != "system-sounds"@);
            assert(t.take(4) =~= "exe:"@);
            assert(t.skip(4) =~= s);
            if starts_with(t, "aumid:"@) {
                assert(t.take(6)[0] == 'a');
            }
        },
        AppKeyView::SystemSounds => {},
    }
}

/// What reads back as a key was stored for that very key.
pub proof fn storage_is_unambiguous(text: Seq<char>)
    ensures
        key_of_storage(text) is Some ==> storage_text(key_of_storage(text)->0) == text,
        key_of_storage(text) is Some ==> has_payload(key_of_storage(text)->0),
{
    if starts_with(text, "aumid:"@) {
        let n = "aumid:"@.len() as int;
        assert("aumid:"@ + text.skip(n) =~= text);
    }
    if starts_with(text, "exe:"@) {
        let n = "exe:"@.len() as int;
        assert("exe:"@ + text.skip(n) =~= text);
    }
}

/// "The same application" is an equivalence.
pub proof fn same_app_is_an_equivalence(a: AppKeyView, b: AppKeyView, c: AppKeyView)
    ensures
        same_app(a, a),
        same_app(a, b) == same_app(b, a),
        same_app(a, b) && same_app(b, c) ==> same_app(a, c),
{
}

/// Keys hash alike exactly if they name the same application.
pub proof fn hashing_agrees_with_equality(a: AppKeyView, b: AppKeyView)
    ensures
        same_app(a, b) == (hash_text(a) == hash_text(b)),
{
    let x = hash_text(a);
    let y = hash_text(b);
    if x == y {
        assert(x[0] == y[0]);
        assert(x.skip(1) == y.skip(1));
        match (a, b) {
            (AppKeyView::Packaged(s), AppKeyView::Packaged(t)) => {
                assert(x.skip(1) =~= s && y.skip(1) =~= t);
            },
            (AppKeyView::Executable(s), AppKeyView::Executable(t)) => {
                assert(x.skip(1) =~= ascii_lower(s) && y.skip(1) =~= ascii_lower(t));
            },
            _ => {},
        }
    }
}

impl Clone for AppKey {
    fn clone(&self) -> (r: Self)
        ensures
            r == *self,
    {
        match self {
            AppKey::Packaged(s) => AppKey::Packaged(s.clone()),
            AppKey::Executable(s) => AppKey::Executable(s.clone()),
            AppKey::SystemSounds => AppKey::SystemSounds,
        }
    }
}

/// Equality is [`AppKey::same_as`].
impl PartialEq for AppKey {
    fn eq(&self, other: &Self) -> (r: bool) {
        self.same_as(other)
    }
}

impl vstd::std_specs::cmp::PartialEqSpecImpl for AppKey {
    open spec fn obeys_eq_spec() -> bool {
        true
    }

    open spec fn eq_spec(&self, other: &Self) -> bool {
        same_app(self@, other@)
    }
}

impl Eq for AppKey {

}

/// `str::hash`, which feeds a text to a hasher. What the hasher makes of it is
/// the hasher's own business, so nothing is said of its state.
#[verifier::external_body]
fn hash_str<H: core::hash::Hasher>(text: &str, state: &mut H) {
    core::hash::Hash::hash(text, state)
}

/// A key hashes as [`AppKey::fold`] does.
impl core::hash::Hash for AppKey {
    fn hash<H: core::hash::Hasher>(&self, state: &mut H) {
        hash_str(self.fold().as_str(), state)
    }
}

impl AppKey {
    /// The text by which the key is hashed.
    pub fn fold(&self) -> (r: String)
        ensures
            r@ == hash_text(self@),
    {
        let mut out: String = String::new();
        match self {
            AppKey::Packaged(aumid) => {
                out.push('0');
                out.append(aumid.as_str());
                assert(out@ =~= hash_text(self@));
            },
            AppKey::SystemSounds => {
                out.push('1');
                assert(out@ =~= hash_text(self@));
            },
            AppKey::Executable(path) => {
                out.push('2');
                let chars = chars_of(path.as_str());
                let lowered = to_ascii_lower(chars.as_slice());
                let text = string_of(lowered.as_slice());
                out.append(text.as_str());
                assert(out@ =~= hash_text(self@));
            },
        }
        out
    }

    /// A stable, human-readable string for persistence.
    pub fn to_storage(&self) -> (r: String)
        ensures
            r@ == storage_text(self@),
    {
        match self {
            AppKey::Packaged(aumid) => {
                let mut out: String = "aumid:".to_owned();
                out.append(aumid.as_str());
                out
            },
            AppKey::Executable(path) => {
                let mut out: String = "exe:".to_owned();
                out.append(path.as_str());
                out
            },
            AppKey::SystemSounds => "system-sounds".to_owned(),
        }
    }

    /// Parses what [`AppKey::to_storage`] wrote.
    pub fn from_storage(text: &str) -> (r: Option<Self>)
        ensures
            (match r {
                Some(key) => key_of_storage(text@) == Some(key@),
                None => key_of_storage(text@) is None,
            }),
    {
        if same_text(text, "system-sounds") {
            return Some(AppKey::SystemSounds);
        }
        let chars = chars_of(text);
        let aumid_prefix = chars_of("aumid:");
        let exe_prefix = chars_of("exe:");
        match without_prefix(chars.as_slice(), aumid_prefix.as_slice()) {
            Some(aumid) => {
                if aumid.len() == 0 {
                    return None;
                }
                return Some(AppKey::Packaged(string_of(aumid)));
            },
            None => {},
        }
        match without_prefix(chars.as_slice(), exe_prefix.as_slice()) {
            Some(path) => {
                if path.len() == 0 {
                    return None;
                }
                Some(AppKey::Executable(string_of(path)))
            },
            None => None,
        }
    }

    /// Whether two keys name the same application.
    pub fn same_as(&self, other: &Self) -> (r: bool)
        ensures
            r == same_app(self@, other@),
    {
        match (self, other) {
            (AppKey::Executable(a), AppKey::Executable(b)) => text_eq_ignoring_case(
                a.as_str(),
                b.as_str(),
            ),
            (AppKey::Packaged(a), AppKey::Packaged(b)) => same_text(a.as_str(), b.as_str()),
            (AppKey::SystemSounds, AppKey::SystemSounds) => true,
            _ => false,
        }
    }
}

// ---------------------------------------------------------------------------
// Names
// ---------------------------------------------------------------------------

/// Where the last `c` of a text is, or -1.
pub open spec fn last_index_of(s: Seq<char>, c: char) -> int
    decreases s.len(),
{
    if s.len() == 0 {
        -1
    } else if s.last() == c {
        s.len() - 1
    } else {
        last_index_of(s.drop_last(), c)
    }
}

/// A file name without its extension. A leading dot starts no extension.
pub open spec fn stem_of_name(name: Seq<char>) -> Seq<char> {
    let dot = last_index_of(name, '.');
    if dot > 0 {
        name.take(dot)
    } else {
        name
    }
}

/// The name that a program gets from its path.
pub open spec fn stem_text(path: Seq<char>) -> Seq<char> {
    match file_name(path) {
        Some(name) => stem_of_name(name),
        None => "Unknown application"@,
    }
}

pub(crate) fn find_last_index(s: &[char], c: char) -> (r: Option<usize>)
    ensures
        (match r {
            Some(i) => last_index_of(s@, c) == i && i < s@.len(),
            None => last_index_of(s@, c) == -1,
        }),
{
    let mut n: usize = s.len();
    assert(s@.take(s@.len() as int) =~= s@);
    while n > 0
        invariant
            n <= s@.len(),
            last_index_of(s@, c) == last_index_of(s@.take(n as int), c),
        decreases n,
    {
        assert(s@.take(n as int).drop_last() =~= s@.take(n - 1));
        if s[n - 1] == c {
            return Some(n - 1);
        }
        n = n - 1;
    }
    None
}

/// The file name without its extension, used as a display name when nothing
/// better exists.
pub fn file_stem_name(path: &str) -> (r: String)
    ensures
        r@ == stem_text(path@),
{
    match windows_file_name(path) {
        Some(name) => {
            let chars = chars_of(name.as_str());
            if let Some(dot) = find_last_index(chars.as_slice(), '.') {
                if dot > 0 {
                    let stem = slice_subrange(chars.as_slice(), 0, dot);
                    assert(stem@ =~= name@.take(dot as int));
                    return string_of(stem);
                }
            }
            name
        },
        None => "Unknown application".to_owned(),
    }
}

/// The last segment of an Application User Model ID, where it has one.
pub open spec fn last_segment(aumid: Seq<char>) -> Seq<char> {
    let segment = aumid.skip(last_index_of(aumid, '!') + 1);
    if segment.len() == 0 {
        aumid
    } else {
        segment
    }
}

fn aumid_label(aumid: &str) -> (r: String)
    ensures
        r@ == last_segment(aumid@),
{
    let chars = chars_of(aumid);
    let size: usize = chars.len();
    let from: usize = match find_last_index(chars.as_slice(), '!') {
        Some(i) => i + 1,
        None => 0,
    };
    let segment = slice_subrange(chars.as_slice(), from, size);
    assert(segment@ =~= aumid@.skip(from as int));
    if segment.len() == 0 {
        aumid.to_owned()
    } else {
        string_of(segment)
    }
}

// ---------------------------------------------------------------------------
// Identity
// ---------------------------------------------------------------------------

/// What is known about a running process.
#[derive(Debug)]
pub struct AppIdentity {
    pub process_id: u32,
    /// `None` for a packaged app whose image path the caller may not read.
    pub executable: Option<String>,
    /// What to put on screen.
    pub display_name: String,
    /// The shell's identity for a packaged app.
    pub app_user_model_id: Option<String>,
}

/// Identities are equal if they name the same executable, however spelled.
impl PartialEq for AppIdentity {
    fn eq(&self, other: &Self) -> (r: bool) {
        self.process_id == other.process_id && opt_paths_equal(&self.executable, &other.executable)
            && same_text(self.display_name.as_str(), other.display_name.as_str()) && same_opt_text(
            &self.app_user_model_id,
            &other.app_user_model_id,
        )
    }
}

impl vstd::std_specs::cmp::PartialEqSpecImpl for AppIdentity {
    open spec fn obeys_eq_spec() -> bool {
        true
    }

    open spec fn eq_spec(&self, other: &Self) -> bool {
        &&& self.process_id == other.process_id
        &&& same_opt_path(opt_text(self.executable), opt_text(other.executable))
        &&& self.display_name@ == other.display_name@
        &&& opt_text(self.app_user_model_id) == opt_text(other.app_user_model_id)
    }
}

impl Eq for AppIdentity {

}

impl Clone for AppIdentity {
    fn clone(&self) -> (r: Self)
        ensures
            r == *self,
    {
        AppIdentity {
            process_id: self.process_id,
            executable: copy_opt(&self.executable),
            display_name: self.display_name.clone(),
            app_user_model_id: copy_opt(&self.app_user_model_id),
        }
    }
}

/// The key of an application: its Application User Model ID, else its path,
/// else its display name.
pub open spec fn identity_key(identity: AppIdentity) -> AppKeyView {
    match (identity.app_user_model_id, identity.executable) {
        (Some(aumid), _) => AppKeyView::Packaged(aumid@),
        (None, Some(path)) => AppKeyView::Executable(path@),
        (None, None) => AppKeyView::Packaged(identity.display_name@),
    }
}

impl AppIdentity {
    /// The stable key for this application.
    pub fn key(&self) -> (r: AppKey)
        ensures
            r@ == identity_key(*self),
    {
        if let Some(aumid) = &self.app_user_model_id {
            return AppKey::Packaged(aumid.clone());
        }
        match &self.executable {
            Some(path) => AppKey::Executable(path.clone()),
            None => AppKey::Packaged(self.display_name.clone()),
        }
    }
}

/// Whether `r` is the identity of a process of which Windows reports an
/// Application User Model ID and an image path, or neither.
pub open spec fn identifies(
    r: Option<AppIdentity>,
    process_id: u32,
    aumid: Option<Seq<char>>,
    executable: Option<Seq<char>>,
) -> bool {
    match r {
        Some(identity) => {
            &&& aumid is Some || executable is Some
            &&& identity.process_id == process_id
            &&& opt_text(identity.executable) == executable
            &&& opt_text(identity.app_user_model_id) == aumid
            &&& identity.display_name@ == (match aumid {
                Some(id) => last_segment(id),
                None => stem_text(executable->0),
            })
        },
        None => aumid is None && executable is None,
    }
}

/// What is left of a reported text without the terminators behind it, if
/// anything is.
pub open spec fn aumid_of(text: Option<Seq<char>>) -> Option<Seq<char>> {
    match text {
        Some(s) => if trim_end_of(s, '\0').len() == 0 {
            None
        } else {
            Some(trim_end_of(s, '\0'))
        },
        None => None,
    }
}

/// An Application User Model ID as the system reports it: without the
/// terminators behind it, and none if nothing is left.
pub fn reported_aumid(text: Option<String>) -> (r: Option<String>)
    ensures
        opt_text(r) == aumid_of(opt_text(text)),
{
    match text {
        Some(s) => {
            let chars = chars_of(s.as_str());
            let t = trimmed_end_of(chars.as_slice(), '\0');
            if t.len() == 0 {
                None
            } else {
                Some(string_of(t))
            }
        },
        None => None,
    }
}

fn identify_uncached(
    process_id: u32,
    aumid: Option<String>,
    executable: Option<String>,
) -> (r: Option<AppIdentity>)
    ensures
        identifies(r, process_id, opt_text(aumid), opt_text(executable)),
{
    let display_name = match (&aumid, &executable) {
        (Some(id), _) => aumid_label(id.as_str()),
        (None, Some(path)) => file_stem_name(path.as_str()),
        (None, None) => {
            return None;
        },
    };
    Some(AppIdentity { process_id, executable, display_name, app_user_model_id: aumid })
}

/// Process identities already found out, by process id.
#[derive(Debug)]
pub struct IdentityCache {
    pub entries: HashMap<u32, Option<AppIdentity>>,
}

impl View for IdentityCache {
    type V = Map<u32, Option<AppIdentity>>;

    open spec fn view(&self) -> Map<u32, Option<AppIdentity>> {
        self.entries@
    }
}

fn copy_identity(identity: &Option<AppIdentity>) -> (r: Option<AppIdentity>)
    ensures
        r == *identity,
{
    match identity {
        Some(found) => Some(found.clone()),
        None => None,
    }
}

impl IdentityCache {
    /// A cache that knows nothing.
    pub fn new() -> (r: Self)
        ensures
            r@ == Map::<u32, Option<AppIdentity>>::empty(),
    {
        IdentityCache { entries: HashMap::new() }
    }

    /// What is known of a process, if it was looked up before.
    pub fn get(&self, process_id: u32) -> (r: Option<Option<AppIdentity>>)
        ensures
            r == (if self@.contains_key(process_id) {
                Some(self@[process_id])
            } else {
                None
            }),
    {
        broadcast use vstd::std_specs::hash::group_hash_axioms;

        match self.entries.get(&process_id) {
            Some(identity) => Some(copy_identity(identity)),
            None => None,
        }
    }

    /// The processes that something is known of, each once, in no particular
    /// order.
    pub fn process_ids(&self) -> (r: Vec<u32>)
        ensures
            r@.no_duplicates(),
            r@.to_set() == self@.dom(),
    {
        broadcast use vstd::std_specs::hash::group_hash_axioms;

        let mut out: Vec<u32> = Vec::new();
        for pid in it: self.entries.keys()
            invariant
                out@.len() == it.index(),
                forall|j: int| 0 <= j < out@.len() ==> out@[j] == *it.seq()[j],
                it.seq().unref().to_set() == self.entries@.dom(),
                it.seq().no_duplicates(),
                it.index() == it.seq().len() ==> out@.to_set() == self.entries@.dom(),
        {
            out.push(*pid);
            assert(it.index() + 1 == it.seq().len() ==> out@ =~= it.seq().unref());
        }
        out
    }
}

/// What a lookup through the cache gives: what the cache holds, else what the
/// system reports, which is then remembered. There is no process 0.
pub open spec fn looked_up(
    before: Map<u32, Option<AppIdentity>>,
    after: Map<u32, Option<AppIdentity>>,
    process_id: u32,
    aumid: Option<Seq<char>>,
    executable: Option<Seq<char>>,
    r: Option<AppIdentity>,
) -> bool {
    if process_id == 0 {
        r is None && after == before
    } else if before.contains_key(process_id) {
        r == before[process_id] && after == before
    } else {
        identifies(r, process_id, aumid, executable) && after == before.insert(process_id, r)
    }
}

/// Identifies a process, caching the answer.
///
/// `aumid` and `executable` are what the system reports of the process; they
/// are used where the cache does not know it yet. That nothing could be found
/// out is remembered too: an exited process stays exited.
pub fn identify(
    cache: &mut IdentityCache,
    process_id: u32,
    aumid: Option<String>,
    executable: Option<String>,
) -> (r: Option<AppIdentity>)
    ensures
        looked_up(
            old(cache)@,
            final(cache)@,
            process_id,
            opt_text(aumid),
            opt_text(executable),
            r,
        ),
{
    if process_id == 0 {
        return None;
    }
    if let Some(cached) = cache.get(process_id) {
        return cached;
    }
    let identity = identify_uncached(process_id, aumid, executable);
    broadcast use vstd::std_specs::hash::group_hash_axioms;

    cache.entries.insert(process_id, copy_identity(&identity));
    identity
}

impl AppKey {
    /// The identity of a process, or `None` if it has already exited.
    pub fn of_process(
        cache: &mut IdentityCache,
        process_id: u32,
        aumid: Option<String>,
        executable: Option<String>,
    ) -> (r: Option<AppKey>)
        ensures
            exists|identity: Option<AppIdentity>|
                {
                    &&& #[trigger] looked_up(
                        old(cache)@,
                        final(cache)@,
                        process_id,
                        opt_text(aumid),
                        opt_text(executable),
                        identity,
                    )
                    &&& (match r {
                        Some(key) => identity is Some && key@ == identity_key(identity->0),
                        None => identity is None,
                    })
                },
    {
        let identity = identify(cache, process_id, aumid, executable);
        match &identity {
            Some(found) => Some(found.key()),
            None => None,
        }
    }
}

/// What a process is called: the name that was found for it, else its number.
pub open spec fn name_of_process(process_id: u32, identity: Option<AppIdentity>) -> Seq<char> {
    match identity {
        Some(found) => found.display_name@,
        None => "PID "@ + decimal(process_id as nat),
    }
}

/// The display name for a process id.
pub fn display_name(process_id: u32, identity: &Option<AppIdentity>) -> (r: String)
    ensures
        r@ == name_of_process(process_id, *identity),
{
    match identity {
        Some(found) => found.display_name.clone(),
        None => {
            let mut out: String = "PID ".to_owned();
            let number = to_decimal(process_id as u64);
            out.append(number.as_str());
            out
        },
    }
}

fn holds_pid(list: &[u32], pid: u32) -> (r: bool)
    ensures
        r == list@.contains(pid),
{
    let mut i: usize = 0;
    while i < list.len()
        invariant
            i <= list@.len(),
            forall|j: int| 0 <= j < i ==> list@[j] != pid,
        decreases list@.len() - i,
    {
        if list[i] == pid {
            assert(list@[i as int] == pid);
            return true;
        }
        i = i + 1;
    }
    false
}

/// Drops cache entries for processes that no longer exist.
///
/// What is among `process_ids` stays in any case; of the others those that
/// are still `alive`.
pub fn forget_exited(cache: &mut IdentityCache, process_ids: &[u32], alive: &[u32])
    ensures
        final(cache)@ == old(cache)@.restrict(
            Set::new(|pid: u32| process_ids@.contains(pid) || alive@.contains(pid)),
        ),
{
    broadcast use vstd::std_specs::hash::group_hash_axioms;

    let ghost all = cache@;
    let ghost keep = Set::new(|pid: u32| process_ids@.contains(pid) || alive@.contains(pid));
    let known = cache.process_ids();
    let mut i: usize = 0;
    while i < known.len()
        invariant
            i <= known@.len(),
            known@.to_set() == all.dom(),
            keep == Set::new(|pid: u32| process_ids@.contains(pid) || alive@.contains(pid)),
            forall|pid: u32| #[trigger]
                cache@.contains_key(pid) == (all.contains_key(pid) && (keep.contains(pid)
                    || !known@.take(i as int).contains(pid))),
            forall|pid: u32| #[trigger] cache@.contains_key(pid) ==> cache@[pid] == all[pid],
        decreases known@.len() - i,
    {
        let pid: u32 = known[i];
        proof {
            assert forall|other: u32| #[trigger]
                known@.take(i + 1).contains(other) == (known@.take(i as int).contains(other)
                    || other == pid) by {
                let now = known@.take(i + 1);
                assert(now =~= known@.take(i as int).push(pid));
                if other == pid {
                    assert(now[i as int] == other);
                } else if known@.take(i as int).contains(other) {
                    let k = choose|k: int|
                        0 <= k < known@.take(i as int).len() && known@.take(i as int)[k] == other;
                    assert(now[k] == other);
                } else if now.contains(other) {
                    let k = choose|k: int| 0 <= k < now.len() && now[k] == other;
                    assert(known@.take(i as int)[k] == other);
                }
            }
        }
        if !holds_pid(process_ids, pid) && !holds_pid(alive, pid) {
            let ghost before = cache@;
            cache.entries.remove(&pid);
            assert(cache@ =~= before.remove(pid));
            assert(!keep.contains(pid));
        }
        i = i + 1;
    }
    proof {
        assert(known@.take(i as int) =~= known@);
        assert forall|pid: u32| #[trigger] cache@.contains_key(pid) == all.restrict(
            keep,
        ).contains_key(pid) by {
            assert(known@.to_set().contains(pid) == all.contains_key(pid));
        }
        assert(cache@ =~= all.restrict(keep));
    }
}

// ---------------------------------------------------------------------------
// Icons
// ---------------------------------------------------------------------------

/// Decoded icon, ready for a GPU texture upload.
#[derive(Debug, PartialEq, Eq)]
pub struct IconPixels {
    pub width: u32,
    pub height: u32,
    /// Tightly packed RGBA8, top row first.
    pub rgba: Vec<u8>,
}

impl IconPixels {
    /// There are four bytes for each pixel.
    pub open spec fn wf(&self) -> bool {
        self.rgba@.len() == 4 * self.width * self.height
    }

    /// A copy of the icon.
    pub fn copy(&self) -> (r: IconPixels)
        ensures
            r.width == self.width,
            r.height == self.height,
            r.rgba@ == self.rgba@,
    {
        IconPixels {
            width: self.width,
            height: self.height,
            rgba: vstd::slice::slice_to_vec(self.rgba.as_slice()),
        }
    }
}

/// How wide and high an icon is whose bitmap has the given dimensions.
pub open spec fn size_of_icon(has_colour: bool, width: int, height: int) -> Option<(u32, u32)> {
    if width <= 0 || height <= 0 {
        None
    } else if has_colour {
        Some((width as u32, height as u32))
    } else {
        Some((width as u32, (height / 2) as u32))
    }
}

/// The size of an icon whose bitmap has the given dimensions. A monochrome
/// icon's mask holds the image in its upper half, so it reports twice the real
/// height.
pub fn icon_size(has_colour: bool, bitmap_width: i32, bitmap_height: i32) -> (r: Option<(u32, u32)>)
    ensures
        r == size_of_icon(has_colour, bitmap_width as int, bitmap_height as int),
{
    if bitmap_width <= 0 || bitmap_height <= 0 {
        None
    } else if has_colour {
        Some((bitmap_width as u32, bitmap_height as u32))
    } else {
        Some((bitmap_width as u32, bitmap_height as u32 / 2))
    }
}

/// A BGRA surface in RGBA order: the first and the third byte of every pixel
/// change places. Bytes behind the last whole pixel are dropped.
pub open spec fn rgba_of_bgra(source: Seq<u8>) -> Seq<u8> {
    Seq::new(
        (source.len() as int / 4 * 4) as nat,
        |p: int|
            if p % 4 == 0 {
                source[p + 2]
            } else if p % 4 == 2 {
                source[p - 2]
            } else {
                source[p]
            },
    )
}

/// Converts what GDI draws into what a texture wants.
pub fn bgra_to_rgba(source: &[u8]) -> (r: Vec<u8>)
    ensures
        r@ == rgba_of_bgra(source@),
{
    let size: usize = source.len();
    let pixels: usize = size / 4;
    let mut out: Vec<u8> = Vec::new();
    let mut i: usize = 0;
    while i < pixels
        invariant
            i <= pixels,
            size == source@.len(),
            pixels == size / 4,
            out@ == rgba_of_bgra(source@).take(4 * i),
        decreases pixels - i,
    {
        let base: usize = 4 * i;
        out.push(source[base + 2]);
        out.push(source[base + 1]);
        out.push(source[base]);
        out.push(source[base + 3]);
        assert(out@ =~= rgba_of_bgra(source@).take(4 * (i + 1)));
        i = i + 1;
    }
    assert(rgba_of_bgra(source@).take(4 * pixels) =~= rgba_of_bgra(source@));
    out
}

/// Whether every pixel is fully transparent.
pub open spec fn all_transparent(rgba: Seq<u8>) -> bool {
    forall|p: int| 0 <= p < rgba.len() as int / 4 ==> #[trigger] rgba[4 * p + 3] == 0
}

fn is_all_transparent(rgba: &Vec<u8>) -> (r: bool)
    ensures
        r == all_transparent(rgba@),
{
    let size: usize = rgba.len();
    let pixels: usize = size / 4;
    let mut i: usize = 0;
    while i < pixels
        invariant
            i <= pixels,
            size == rgba@.len(),
            pixels == size / 4,
            forall|p: int| 0 <= p < i ==> #[trigger] rgba@[4 * p + 3] == 0,
        decreases pixels - i,
    {
        if rgba[4 * i + 3] != 0 {
            return false;
        }
        i = i + 1;
    }
    true
}

/// Bytes in one row of a monochrome mask: a bit for each pixel, padded to a
/// 4-byte boundary.
pub open spec fn mask_row_bytes(width: int) -> int {
    (width + 31) / 32 * 4
}

/// Whether the mask makes a pixel transparent. Rows are stored bottom-up, and
/// the highest bit of a byte is its leftmost pixel.
pub open spec fn masked(mask: Seq<u8>, width: int, height: int, x: int, y: int) -> bool {
    mask[(height - 1 - y) * mask_row_bytes(width) + x / 8] & (0x80u8 >> ((x % 8) as u8)) != 0
}

/// The alpha channel rebuilt from a mask: the colours stay, and a pixel is
/// either opaque or transparent.
pub open spec fn with_mask_alpha(rgba: Seq<u8>, width: int, height: int, mask: Seq<u8>) -> Seq<u8> {
    Seq::new(
        rgba.len(),
        |p: int|
            if p % 4 != 3 {
                rgba[p]
            } else if masked(mask, width, height, (p / 4) % width, (p / 4) / width) {
                0u8
            } else {
                255u8
            },
    )
}

/// How many bytes a mask for an icon has.
pub open spec fn mask_len(width: int, height: int) -> int {
    mask_row_bytes(width) * height
}

proof fn lemma_pixel_index(x: int, y: int, width: int, height: int)
    requires
        0 <= x < width,
        0 <= y < height,
    ensures
        0 <= y * width + x < width * height,
        (y * width + x) / width == y,
        (y * width + x) % width == x,
{
    assert(0 <= y * width + x < width * height) by (nonlinear_arith)
        requires
            0 <= x < width,
            0 <= y < height,
    ;
    vstd::arithmetic::div_mod::lemma_fundamental_div_mod_converse(y * width + x, width, y, x);
}

proof fn lemma_mask_index(x: int, y: int, width: int, height: int)
    requires
        0 <= x < width,
        0 <= y < height,
    ensures
        0 <= (height - 1 - y) * mask_row_bytes(width),
        (height - 1 - y) * mask_row_bytes(width) + x / 8 < mask_len(width, height),
{
    let row = mask_row_bytes(width);
    assert(x / 8 < row);
    assert(0 <= (height - 1 - y) * row && (height - 1 - y) * row + x / 8 < row * height)
        by (nonlinear_arith)
        requires
            0 <= y < height,
            0 <= x / 8 < row,
    ;
}

/// Fills in alpha from a monochrome mask, in which a set bit means
/// "transparent".
pub fn apply_mask_alpha(rgba: &mut Vec<u8>, width: u32, height: u32, mask: &[u8])
    requires
        old(rgba)@.len() == 4 * (width * height),
        mask@.len() == mask_len(width as int, height as int),
    ensures
        final(rgba)@ == with_mask_alpha(old(rgba)@, width as int, height as int, mask@),
{
    let ghost before = rgba@;
    let ghost w = width as int;
    let ghost h = height as int;
    let total: usize = rgba.len();
    let mask_total: usize = mask.len();
    let ghost goal = with_mask_alpha(before, w, h, mask@);
    if width == 0 || height == 0 {
        assert(w * h == 0) by (nonlinear_arith)
            requires
                w == 0 || h == 0,
        ;
        assert(rgba@ =~= goal);
        return ;
    }
    let row_bytes: usize = ((width - 1) / 32 + 1) as usize * 4;
    assert(row_bytes == mask_row_bytes(w));
    let mut y: u32 = 0;
    while y < height
        invariant
            0 < width,
            y <= height,
            w == width,
            h == height,
            total == rgba@.len() == before.len() == 4 * (w * h),
            mask_total == mask@.len() == mask_len(w, h),
            row_bytes == mask_row_bytes(w),
            goal == with_mask_alpha(before, w, h, mask@),
            forall|p: int| 0 <= p < 4 * (y * w) ==> rgba@[p] == goal[p],
            forall|p: int| 4 * (y * w) <= p < total ==> rgba@[p] == before[p],
        decreases height - y,
    {
        let mut x: u32 = 0;
        while x < width
            invariant
                0 < width,
                y < height,
                x <= width,
                w == width,
                h == height,
                total == rgba@.len() == before.len() == 4 * (w * h),
                mask_total == mask@.len() == mask_len(w, h),
                row_bytes == mask_row_bytes(w),
                goal == with_mask_alpha(before, w, h, mask@),
                forall|p: int| 0 <= p < 4 * (y * w + x) ==> rgba@[p] == goal[p],
                forall|p: int| 4 * (y * w + x) <= p < total ==> rgba@[p] == before[p],
            decreases width - x,
        {
            proof {
                lemma_pixel_index(x as int, y as int, w, h);
                lemma_mask_index(x as int, y as int, w, h);
                assert(0 <= y * w) by (nonlinear_arith)
                    requires
                        0 <= y,
                        0 <= w,
                ;
            }
            let source_row: usize = (height - 1 - y) as usize;
            let byte: u8 = mask[source_row * row_bytes + (x / 8) as usize];
            let transparent: bool = byte & (0x80u8 >> ((x % 8) as u8)) != 0;
            let pixel: usize = y as usize * width as usize + x as usize;
            assert(pixel == y * w + x);
            rgba.set(
                pixel * 4 + 3,
                if transparent {
                    0
                } else {
                    255
                },
            );
            proof {
                let q = 4 * (y * w + x) + 3;
                assert(q % 4 == 3 && q / 4 == pixel);
                assert(goal[q] == rgba@[q]);
                assert forall|p: int| 0 <= p < 4 * (y * w + (x + 1)) implies rgba@[p]
                    == goal[p] by {
                    if 4 * (y * w + x) <= p < q {
                        assert(p % 4 != 3);
                    }
                }
            }
            x = x + 1;
        }
        assert((y + 1) * w == y * w + w) by (nonlinear_arith);
        y = y + 1;
    }
    assert(y * w == w * h) by (nonlinear_arith)
        requires
            y == h,
    ;
    assert(rgba@ =~= goal);
}

/// The pixels of a drawn icon: as drawn, or with the alpha of its mask where
/// nothing of it would be seen.
pub open spec fn pixels_of(width: int, height: int, bgra: Seq<u8>, mask: Option<Seq<u8>>) -> Seq<
    u8,
> {
    if all_transparent(rgba_of_bgra(bgra)) && mask is Some {
        with_mask_alpha(rgba_of_bgra(bgra), width, height, mask->0)
    } else {
        rgba_of_bgra(bgra)
    }
}

/// The bytes behind a slice that may be missing.
pub open spec fn opt_bytes(bytes: Option<&[u8]>) -> Option<Seq<u8>> {
    match bytes {
        Some(b) => Some(b@),
        None => None,
    }
}

/// Turns a drawn icon into pixels.
///
/// Icons from before alpha channels were normal carry their transparency in a
/// separate mask and come out fully transparent, i.e. invisible. Their alpha
/// is rebuilt from the mask, where that could be read.
pub fn icon_pixels(width: u32, height: u32, bgra: &[u8], mask: Option<&[u8]>) -> (r: IconPixels)
    requires
        bgra@.len() == 4 * (width * height),
        mask is Some ==> mask->0@.len() == mask_len(width as int, height as int),
    ensures
        r.width == width,
        r.height == height,
        r.rgba@ == pixels_of(width as int, height as int, bgra@, opt_bytes(mask)),
        r.wf(),
{
    let mut rgba = bgra_to_rgba(bgra);
    assert(4 * (width * height) == 4 * width * height) by (nonlinear_arith);
    if is_all_transparent(&rgba) {
        if let Some(bits) = mask {
            apply_mask_alpha(&mut rgba, width, height, bits);
        }
    }
    IconPixels { width, height, rgba }
}

/// Decoded icons, by application rather than by process: a browser with nine
/// processes pays for one icon.
#[derive(Debug)]
pub struct IconCache {
    pub entries: Vec<(AppKey, Option<IconPixels>)>,
}

/// Where the entry for `key` stands, or the number of entries.
pub open spec fn icon_index(entries: Seq<(AppKey, Option<IconPixels>)>, key: AppKeyView) -> int
    decreases entries.len(),
{
    if entries.len() == 0 || same_app(entries[0].0@, key) {
        0
    } else {
        1 + icon_index(entries.drop_first(), key)
    }
}

/// Whether two optional icons hold the same pixels.
pub open spec fn same_icon(a: Option<IconPixels>, b: Option<IconPixels>) -> bool {
    match (a, b) {
        (Some(x), Some(y)) => x.width == y.width && x.height == y.height && x.rgba@ == y.rgba@,
        (None, None) => true,
        _ => false,
    }
}

impl IconCache {
    /// No application has two entries.
    pub open spec fn wf(&self) -> bool {
        forall|i: int, j: int|
            0 <= i < j < self.entries@.len() ==> !same_app(
                (#[trigger] self.entries@[i]).0@,
                (#[trigger] self.entries@[j]).0@,
            )
    }

    /// Whether the application's icon was looked up before.
    pub open spec fn knows(&self, key: AppKeyView) -> bool {
        icon_index(self.entries@, key) < self.entries@.len()
    }

    /// What was found for an application that is known.
    pub open spec fn lookup(&self, key: AppKeyView) -> Option<IconPixels> {
        self.entries@[icon_index(self.entries@, key)].1
    }

    /// A cache that knows nothing.
    pub fn new() -> (r: Self)
        ensures
            r.wf(),
            r.entries@.len() == 0,
    {
        IconCache { entries: Vec::new() }
    }

    fn find(&self, key: &AppKey) -> (r: usize)
        ensures
            r == icon_index(self.entries@, key@),
            r <= self.entries@.len(),
            forall|j: int| 0 <= j < r ==> !same_app((#[trigger] self.entries@[j]).0@, key@),
            r < self.entries@.len() ==> same_app(self.entries@[r as int].0@, key@),
    {
        let mut i: usize = 0;
        assert(self.entries@.skip(0) =~= self.entries@);
        while i < self.entries.len()
            invariant
                i <= self.entries@.len(),
                icon_index(self.entries@, key@) == i + icon_index(
                    self.entries@.skip(i as int),
                    key@,
                ),
                forall|j: int| 0 <= j < i ==> !same_app((#[trigger] self.entries@[j]).0@, key@),
            decreases self.entries@.len() - i,
        {
            if self.entries[i].0.same_as(key) {
                return i;
            }
            assert(self.entries@.skip(i as int).drop_first() =~= self.entries@.skip(i + 1));
            i = i + 1;
        }
        i
    }

    /// Whether the application's icon has still to be decoded.
    pub fn wants(&self, identity: &AppIdentity) -> (r: bool)
        ensures
            r == !self.knows(identity_key(*identity)),
    {
        let key = identity.key();
        self.find(&key) == self.entries.len()
    }
}

/// What a lookup through the cache gives: what is known of the application,
/// else what was decoded, which is then remembered.
pub open spec fn icon_found(
    before: IconCache,
    after: IconCache,
    key: AppKeyView,
    decoded: Option<IconPixels>,
    r: Option<IconPixels>,
) -> bool {
    &&& before.knows(key) ==> after.entries@ == before.entries@ && same_icon(r, before.lookup(key))
    &&& !before.knows(key) ==> {
        &&& same_icon(r, decoded)
        &&& after.entries@.len() == before.entries@.len() + 1
        &&& after.entries@.drop_last() == before.entries@
        &&& after.entries@.last().0@ == key
        &&& after.entries@.last().1 == decoded
    }
}

/// The icon of an application, caching by [`AppKey`].
///
/// `decoded` is what was decoded for it now; it is used where the cache does
/// not know the application yet. That there is no icon is remembered too.
pub fn icon_for(
    cache: &mut IconCache,
    identity: &AppIdentity,
    decoded: Option<IconPixels>,
) -> (r: Option<IconPixels>)
    requires
        old(cache).wf(),
    ensures
        final(cache).wf(),
        icon_found(*old(cache), *final(cache), identity_key(*identity), decoded, r),
{
    let key = identity.key();
    let at = cache.find(&key);
    if at < cache.entries.len() {
        return match &cache.entries[at].1 {
            Some(icon) => Some(icon.copy()),
            None => None,
        };
    }
    let copy = match &decoded {
        Some(icon) => Some(icon.copy()),
        None => None,
    };
    cache.entries.push((key, decoded));
    assert(cache.entries@.drop_last() =~= old(cache).entries@);
    copy
}

// ---------------------------------------------------------------------------
// What names, identities and icons say
// ---------------------------------------------------------------------------

proof fn lemma_last_index_of(s: Seq<char>, c: char, k: int)
    requires
        -1 <= k < s.len(),
        k >= 0 ==> s[k] == c,
        forall|j: int| k < j < s.len() ==> s[j] != c,
    ensures
        last_index_of(s, c) == k,
    decreases s.len(),
{
    if s.len() > 0 && k != s.len() - 1 {
        assert(s.last() == s[s.len() - 1]);
        lemma_last_index_of(s.drop_last(), c, k);
    }
}

/// A file name loses what stands behind its last dot, and the dot, and no more:
/// dots further in front stay.
pub proof fn the_extension_is_left_out(base: Seq<char>, extension: Seq<char>)
    requires
        base.len() > 0,
        !extension.contains('.'),
    ensures
        stem_of_name(base + seq!['.'] + extension) == base,
{
    let name = base + seq!['.'] + extension;
    assert forall|j: int| base.len() < j < name.len() implies name[j] != '.' by {
        assert(name[j] == extension[j - base.len() - 1]);
        assert(extension.contains(extension[j - base.len() - 1]));
    }
    lemma_last_index_of(name, '.', base.len() as int);
    assert(name.take(base.len() as int) =~= base);
}

/// A file name without a dot stays as it is, and so does one whose only dot
/// leads it.
pub proof fn a_name_without_extension_stays(name: Seq<char>)
    requires
        !name.contains('.') || (name.len() > 0 && name[0] == '.' && !name.skip(1).contains('.')),
    ensures
        stem_of_name(name) == name,
{
    if !name.contains('.') {
        assert forall|j: int| 0 <= j < name.len() implies name[j] != '.' by {
            assert(name.contains(name[j]));
        }
        lemma_last_index_of(name, '.', -1);
    } else {
        assert forall|j: int| 0 < j < name.len() implies name[j] != '.' by {
            assert(name.skip(1)[j - 1] == name[j]);
            assert(name.skip(1).contains(name.skip(1)[j - 1]));
        }
        lemma_last_index_of(name, '.', 0);
    }
}

/// A program on a drive is called by its file name, without the extension,
/// wherever it is installed.
pub proof fn a_program_is_called_by_its_file(
    folder: Seq<char>,
    base: Seq<char>,
    extension: Seq<char>,
)
    requires
        starts_with_drive(folder),
        base.len() > 0,
        !extension.contains('.'),
        is_plain_name(base + seq!['.'] + extension),
    ensures
        stem_text(folder + seq!['\\'] + (base + seq!['.'] + extension)) == base,
{
    the_file_name_is_behind_the_last_separator(folder, base + seq!['.'] + extension);
    the_extension_is_left_out(base, extension);
}

/// A packaged application is called by what stands behind the last exclamation
/// mark of its id; an id with nothing there is shown whole.
pub proof fn a_package_is_called_by_its_last_segment(family: Seq<char>, application: Seq<char>)
    requires
        !application.contains('!'),
    ensures
        application.len() > 0 ==> last_segment(family + seq!['!'] + application) == application,
        last_segment(family + seq!['!']) == family + seq!['!'],
        last_segment(application) == application,
{
    let id = family + seq!['!'] + application;
    assert forall|j: int| 0 <= j < application.len() implies application[j] != '!' by {
        assert(application.contains(application[j]));
    }
    assert forall|j: int| family.len() < j < id.len() implies id[j] != '!' by {
        assert(id[j] == application[j - family.len() - 1]);
    }
    lemma_last_index_of(id, '!', family.len() as int);
    assert(id.skip((family.len() + 1) as int) =~= application);
    let bare = family + seq!['!'];
    lemma_last_index_of(bare, '!', family.len() as int);
    lemma_last_index_of(application, '!', -1);
    assert(application.skip(0) =~= application);
}

/// A package is the same application whatever its path; a program is the same
/// however its path is spelled in upper and lower case; and a package is never
/// a program.
pub proof fn applications_are_told_apart(a: AppIdentity, b: AppIdentity)
    ensures
        a.app_user_model_id is Some && b.app_user_model_id is Some ==> (same_app(
            identity_key(a),
            identity_key(b),
        ) <==> a.app_user_model_id->0@ == b.app_user_model_id->0@),
        a.app_user_model_id is None && b.app_user_model_id is None && a.executable is Some
            && b.executable is Some ==> (same_app(identity_key(a), identity_key(b))
            <==> same_ignoring_case(a.executable->0@, b.executable->0@)),
        a.app_user_model_id is Some && b.app_user_model_id is None && b.executable is Some
            ==> !same_app(identity_key(a), identity_key(b)),
{
}

/// What the system reports of a process is what its identity holds; one of
/// which nothing is reported has none.
pub proof fn an_identity_holds_what_is_reported(
    r: Option<AppIdentity>,
    process_id: u32,
    aumid: Option<Seq<char>>,
    executable: Option<Seq<char>>,
)
    requires
        identifies(r, process_id, aumid, executable),
    ensures
        r is None <==> aumid is None && executable is None,
        r is Some ==> r->0.process_id == process_id && opt_text(r->0.executable) == executable
            && opt_text(r->0.app_user_model_id) == aumid,
        aumid is Some ==> identity_key(r->0) == AppKeyView::Packaged(aumid->0),
        aumid is None && executable is Some ==> identity_key(r->0) == AppKeyView::Executable(
            executable->0,
        ),
{
}

/// A process is asked about once: a second lookup gives what the first gave,
/// whatever is reported by then, and what is known of others stays.
pub proof fn a_process_is_asked_about_once(
    first: Map<u32, Option<AppIdentity>>,
    second: Map<u32, Option<AppIdentity>>,
    third: Map<u32, Option<AppIdentity>>,
    process_id: u32,
    aumid: Option<Seq<char>>,
    executable: Option<Seq<char>>,
    other_aumid: Option<Seq<char>>,
    other_executable: Option<Seq<char>>,
    r: Option<AppIdentity>,
    again: Option<AppIdentity>,
)
    requires
        looked_up(first, second, process_id, aumid, executable, r),
        looked_up(second, third, process_id, other_aumid, other_executable, again),
    ensures
        again == r,
        third == second,
        process_id == 0 ==> r is None,
        forall|other: u32|
            other != process_id ==> #[trigger] second.contains_key(other) == first.contains_key(
                other,
            ) && (first.contains_key(other) ==> second[other] == first[other]),
{
}

/// An id is kept up to the terminators behind it, and one of nothing but
/// terminators is none.
pub proof fn terminators_are_left_out(id: Seq<char>, zeros: Seq<char>)
    requires
        forall|i: int| 0 <= i < zeros.len() ==> zeros[i] == '\0',
        id.len() > 0 ==> id.last() != '\0',
    ensures
        aumid_of(Some(id + zeros)) == (if id.len() > 0 {
            Some(id)
        } else {
            None
        }),
    decreases zeros.len(),
{
    let text = id + zeros;
    if zeros.len() > 0 {
        assert(text.last() == zeros.last());
        assert(text.drop_last() =~= id + zeros.drop_last());
        terminators_are_left_out(id, zeros.drop_last());
    } else {
        assert(text =~= id);
    }
}

/// A process is called by the name that was found; of two that have none, each
/// goes by its own number.
pub proof fn nameless_processes_are_told_apart(a: u32, b: u32, found: AppIdentity)
    ensures
        name_of_process(a, Some(found)) == found.display_name@,
        a != b ==> name_of_process(a, None) != name_of_process(b, None),
{
    let x = name_of_process(a, None);
    let y = name_of_process(b, None);
    let n = "PID "@.len() as int;
    assert(x.skip(n) =~= decimal(a as nat));
    assert(y.skip(n) =~= decimal(b as nat));
    decimals_read_back(a as nat);
    decimals_read_back(b as nat);
}

/// An icon has as many pixels as its bitmap, or half the rows of a mask, which
/// holds the image twice.
pub proof fn a_mask_holds_the_image_twice(width: i32, height: i32)
    ensures
        size_of_icon(true, width as int, height as int) is Some <==> width > 0 && height > 0,
        size_of_icon(false, width as int, height as int) is Some <==> width > 0 && height > 0,
        width > 0 && height > 0 ==> size_of_icon(true, width as int, height as int) == Some(
            (width as u32, height as u32),
        ),
        forall|rows: u32|
            width > 0 && height > 0 && height == 2 * rows ==> #[trigger] size_of_icon(
                false,
                width as int,
                2 * rows,
            ) == Some((width as u32, rows)),
{
}

/// Every whole pixel keeps its green and its alpha and has its blue and its red
/// changed round; doing it twice changes nothing.
pub proof fn colours_change_places(source: Seq<u8>)
    requires
        source.len() % 4 == 0,
    ensures
        rgba_of_bgra(source).len() == source.len(),
        forall|k: int|
            #![trigger rgba_of_bgra(source)[4 * k]]
            0 <= k < source.len() as int / 4 ==> rgba_of_bgra(source)[4 * k] == source[4 * k + 2]
                && rgba_of_bgra(source)[4 * k + 1] == source[4 * k + 1] && rgba_of_bgra(
                source,
            )[4 * k + 2] == source[4 * k] && rgba_of_bgra(source)[4 * k + 3] == source[4 * k + 3],
        rgba_of_bgra(rgba_of_bgra(source)) == source,
{
    assert(rgba_of_bgra(rgba_of_bgra(source)) =~= source);
}

/// A row of a mask has a bit for every pixel and fills whole groups of four
/// bytes, and no more of them than it needs.
pub proof fn a_mask_row_is_padded(width: int)
    requires
        width > 0,
    ensures
        mask_row_bytes(width) % 4 == 0,
        width <= 8 * mask_row_bytes(width) < width + 32,
{
}

/// A pixel's place in a mask: the rows stand upside down, and within a byte the
/// pixels stand from the highest bit to the lowest.
pub proof fn a_mask_is_read_from_the_highest_bit(
    mask: Seq<u8>,
    width: int,
    height: int,
    x: int,
    y: int,
)
    requires
        0 <= x < width,
        0 <= y < height,
    ensures
        ({
            let byte = mask[(height - 1 - y) * mask_row_bytes(width) + x / 8];
            masked(mask, width, height, x, y) <==> (byte as int / (if x % 8 == 0 {
                128int
            } else if x % 8 == 1 {
                64
            } else if x % 8 == 2 {
                32
            } else if x % 8 == 3 {
                16
            } else if x % 8 == 4 {
                8
            } else if x % 8 == 5 {
                4
            } else if x % 8 == 6 {
                2
            } else {
                1
            })) % 2 == 1
        }),
{
    let b = mask[(height - 1 - y) * mask_row_bytes(width) + x / 8];
    assert((b & (0x80u8 >> 0u8) != 0) == ((b / 128u8) % 2 == 1)) by (bit_vector);
    assert((b & (0x80u8 >> 1u8) != 0) == ((b / 64u8) % 2 == 1)) by (bit_vector);
    assert((b & (0x80u8 >> 2u8) != 0) == ((b / 32u8) % 2 == 1)) by (bit_vector);
    assert((b & (0x80u8 >> 3u8) != 0) == ((b / 16u8) % 2 == 1)) by (bit_vector);
    assert((b & (0x80u8 >> 4u8) != 0) == ((b / 8u8) % 2 == 1)) by (bit_vector);
    assert((b & (0x80u8 >> 5u8) != 0) == ((b / 4u8) % 2 == 1)) by (bit_vector);
    assert((b & (0x80u8 >> 6u8) != 0) == ((b / 2u8) % 2 == 1)) by (bit_vector);
    assert((b & (0x80u8 >> 7u8) != 0) == ((b / 1u8) % 2 == 1)) by (bit_vector);
}

/// Alpha from a mask leaves every colour alone, and makes a pixel transparent
/// where the mask says so and opaque everywhere else.
pub proof fn a_mask_decides_alpha_only(
    rgba: Seq<u8>,
    width: int,
    height: int,
    mask: Seq<u8>,
    x: int,
    y: int,
)
    requires
        rgba.len() == 4 * (width * height),
        0 <= x < width,
        0 <= y < height,
    ensures
        ({
            let after = with_mask_alpha(rgba, width, height, mask);
            let at = 4 * (y * width + x);
            &&& after.len() == rgba.len()
            &&& after[at] == rgba[at]
            &&& after[at + 1] == rgba[at + 1]
            &&& after[at + 2] == rgba[at + 2]
            &&& after[at + 3] == (if masked(mask, width, height, x, y) {
                0u8
            } else {
                255u8
            })
        }),
{
    lemma_pixel_index(x, y, width, height);
    let k = y * width + x;
    assert((4 * k + 3) / 4 == k);
}

/// An icon of which anything is seen is shown as drawn, and so is one without a
/// mask; only one that would be invisible takes its alpha from the mask.
pub proof fn only_an_invisible_icon_needs_its_mask(
    width: int,
    height: int,
    bgra: Seq<u8>,
    mask: Seq<u8>,
    k: int,
)
    requires
        0 <= k < bgra.len() as int / 4,
        bgra.len() % 4 == 0,
    ensures
        bgra[4 * k + 3] != 0 ==> pixels_of(width, height, bgra, Some(mask)) == rgba_of_bgra(bgra),
        pixels_of(width, height, bgra, None) == rgba_of_bgra(bgra),
        (forall|p: int| 0 <= p < bgra.len() as int / 4 ==> #[trigger] bgra[4 * p + 3] == 0)
            ==> pixels_of(width, height, bgra, Some(mask)) == with_mask_alpha(
            rgba_of_bgra(bgra),
            width,
            height,
            mask,
        ),
{
    let rgba = rgba_of_bgra(bgra);
    assert forall|p: int| 0 <= p < bgra.len() as int / 4 implies #[trigger] rgba[4 * p + 3]
        == bgra[4 * p + 3] by {
        assert((4 * p + 3) % 4 == 3);
    }
    if bgra[4 * k + 3] != 0 {
        assert(rgba[4 * k + 3] != 0);
    }
}

proof fn lemma_icon_index(entries: Seq<(AppKey, Option<IconPixels>)>, key: AppKeyView)
    ensures
        0 <= icon_index(entries, key) <= entries.len(),
        icon_index(entries, key) < entries.len() ==> same_app(
            entries[icon_index(entries, key)].0@,
            key,
        ),
        forall|j: int| 0 <= j < icon_index(entries, key) ==> !same_app(#[trigger] entries[j].0@, key),
    decreases entries.len(),
{
    if entries.len() > 0 && !same_app(entries[0].0@, key) {
        let rest = entries.drop_first();
        lemma_icon_index(rest, key);
        assert forall|j: int| 0 <= j < icon_index(entries, key) implies !same_app(
            #[trigger] entries[j].0@,
            key,
        ) by {
            if j > 0 {
                assert(entries[j] == rest[j - 1]);
            }
        }
    }
}

/// An icon is decoded once: from then on every process of the application is
/// given it, whatever is decoded by then.
pub proof fn an_icon_is_decoded_once(
    first: IconCache,
    second: IconCache,
    third: IconCache,
    key: AppKeyView,
    alike: AppKeyView,
    decoded: Option<IconPixels>,
    other: Option<IconPixels>,
    r: Option<IconPixels>,
    again: Option<IconPixels>,
)
    requires
        same_app(key, alike),
        icon_found(first, second, key, decoded, r),
        icon_found(second, third, alike, other, again),
    ensures
        second.knows(alike),
        same_icon(again, r),
        third.entries@ == second.entries@,
        !first.knows(key) ==> same_icon(r, decoded),
{
    lemma_icon_index(first.entries@, key);
    lemma_icon_index(second.entries@, alike);
    let n = first.entries@.len() as int;
    if first.knows(key) {
        let at = icon_index(first.entries@, key);
        let there = icon_index(second.entries@, alike);
        same_app_is_an_equivalence(first.entries@[at].0@, key, alike);
        if at < there {
            assert(!same_app(second.entries@[at].0@, alike));
        }
        if there < at {
            same_app_is_an_equivalence(second.entries@[there].0@, alike, key);
            assert(!same_app(first.entries@[there].0@, key));
        }
    } else {
        assert(second.entries@.last() == second.entries@[n]);
        let there = icon_index(second.entries@, alike);
        if there > n {
            assert(!same_app(second.entries@[n].0@, alike));
        }
        if there < n {
            same_app_is_an_equivalence(second.entries@[there].0@, alike, key);
            assert(second.entries@.drop_last()[there] == second.entries@[there]);
            assert(!same_app(first.entries@[there].0@, key));
        }
    }
}

} // verus!
