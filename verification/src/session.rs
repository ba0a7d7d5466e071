//! Audio sessions: one row per application stream, per endpoint.
//!
//! Windows has no global session list; each endpoint has its own. The endpoint
//! of a [`Session`] is therefore the ground truth for where an application is
//! playing.

use crate::float::{self, clamped};
use crate::process::{same_app, same_app_is_an_equivalence, AppKey, AppKeyView};
use crate::text::{opt_text, same_text};
use vstd::prelude::*;
use vstd::string::*;

verus! {

/// Reported when the session a caller asked for has already gone:
/// `HRESULT_FROM_WIN32(ERROR_NOT_FOUND)`.
pub const E_SESSION_NOT_FOUND: i32 = -2147023728;

/// The event context used when this application changes a session volume.
pub const EVENT_CONTEXT: u128 = 0x6d5f0a1e_9b34_4c77_8f21_0b7a2e5c9d10;

/// `AudioSessionStateActive`.
pub const AUDIO_SESSION_STATE_ACTIVE: i32 = 1;

/// `AudioSessionStateExpired`.
pub const AUDIO_SESSION_STATE_EXPIRED: i32 = 2;

/// Windows' session state, narrowed to the three values the API defines.
#[derive(Debug, Clone, Copy, PartialEq, Eq, Structural)]
pub enum SessionState {
    /// The stream is playing.
    Active,
    /// The stream exists but is not currently rendering.
    Inactive,
    /// Closed by the application; Windows has not reaped it yet.
    Expired,
}

/// The state that a raw value stands for. Whatever the API may grow later
/// counts as inactive.
pub open spec fn state_of_raw(raw: i32) -> SessionState {
    if raw == 1 {
        SessionState::Active
    } else if raw == 2 {
        SessionState::Expired
    } else {
        SessionState::Inactive
    }
}

impl SessionState {
    /// Reads the raw value.
    pub fn from_raw(raw: i32) -> (r: SessionState)
        ensures
            r == state_of_raw(raw),
    {
        if raw == AUDIO_SESSION_STATE_ACTIVE {
            SessionState::Active
        } else if raw == AUDIO_SESSION_STATE_EXPIRED {
            SessionState::Expired
        } else {
            SessionState::Inactive
        }
    }
}

/// One render stream on one endpoint.
#[derive(Debug, PartialEq, Eq)]
pub struct Session {
    /// The endpoint this stream is rendering into.
    pub device_id: String,
    /// Unique per stream, and the key the setters use to find this session
    /// again.
    pub instance_id: String,
    /// Groups the streams of one application.
    pub display_id: String,
    /// Owning process. `0` for the system-sounds pseudo session.
    pub process_id: u32,
    /// Windows' "System Sounds" session, which has no process behind it.
    pub is_system_sounds: bool,
    pub state: SessionState,
    /// The bits of a level, 0.0 – 1.0.
    pub volume: u32,
    pub muted: bool,
    /// The bits of the stream's peak amplitude, 0.0 – 1.0, for the meter.
    pub peak: u32,
}

impl Clone for Session {
    fn clone(&self) -> (r: Self)
        ensures
            r == *self,
    {
        Session {
            device_id: self.device_id.clone(),
            instance_id: self.instance_id.clone(),
            display_id: self.display_id.clone(),
            process_id: self.process_id,
            is_system_sounds: self.is_system_sounds,
            state: self.state,
            volume: self.volume,
            muted: self.muted,
            peak: self.peak,
        }
    }
}

impl Session {
    /// Whether this stream is worth putting on screen.
    ///
    /// Inactive sessions are kept: an app that is not currently playing is
    /// exactly the one a user opens the mixer to adjust before it starts.
    pub fn is_visible(&self) -> (r: bool)
        ensures
            r == (self.state != SessionState::Expired),
    {
        match self.state {
            SessionState::Expired => false,
            _ => true,
        }
    }
}

/// What Windows reports of one session. A reading that failed is missing.
#[derive(Debug)]
pub struct RawSession {
    pub state: Option<i32>,
    /// Whether the session has a volume interface.
    pub has_volume: bool,
    pub instance_id: Option<String>,
    pub display_id: Option<String>,
    /// The code in which `IsSystemSoundsSession` answers: 0 is yes, and any
    /// other code, success or not, is no.
    pub system_sounds: i32,
    pub process_id: Option<u32>,
    pub peak: Option<u32>,
    pub volume: Option<u32>,
    pub muted: Option<bool>,
}

/// Whether a session is worth a row: it is not expired, has a volume and can
/// be found again.
pub open spec fn is_row(raw: RawSession) -> bool {
    &&& raw.state is Some
    &&& state_of_raw(raw.state->0) != SessionState::Expired
    &&& raw.has_volume
    &&& raw.instance_id is Some
}

/// Whether `s` is the row for a session on an endpoint.
pub open spec fn reads_as(s: Session, raw: RawSession, device_id: Seq<char>) -> bool {
    &&& s.device_id@ == device_id
    &&& s.instance_id@ == raw.instance_id->0@
    &&& s.display_id@ == (match raw.display_id {
        Some(id) => id@,
        None => raw.instance_id->0@,
    })
    &&& s.process_id == (match raw.process_id {
        Some(pid) => pid,
        None => 0,
    })
    &&& s.is_system_sounds == (raw.system_sounds == 0)
    &&& s.state == state_of_raw(raw.state->0)
    &&& s.volume == (match raw.volume {
        Some(level) => level,
        None => float::ONE,
    })
    &&& s.muted == (raw.muted == Some(true))
    &&& s.peak == (match raw.peak {
        Some(level) => level,
        None => float::ZERO,
    })
}

/// Reads one session: nothing for an expired one, or for one without the
/// volume that makes it worth showing.
pub fn read_session(raw: &RawSession, device_id: &str) -> (r: Option<Session>)
    ensures
        r is Some == is_row(*raw),
        r is Some ==> reads_as(r->0, *raw, device_id@),
{
    let state = match raw.state {
        Some(value) => SessionState::from_raw(value),
        None => {
            return None;
        },
    };
    if let SessionState::Expired = state {
        return None;
    }
    if !raw.has_volume {
        return None;
    }
    let instance_id = match &raw.instance_id {
        Some(id) => id.clone(),
        None => {
            return None;
        },
    };
    let display_id = match &raw.display_id {
        Some(id) => id.clone(),
        None => instance_id.clone(),
    };
    Some(
        Session {
            device_id: device_id.to_owned(),
            instance_id,
            display_id,
            process_id: match raw.process_id {
                Some(pid) => pid,
                None => 0,
            },
            is_system_sounds: raw.system_sounds == 0,
            state,
            volume: match raw.volume {
                Some(level) => level,
                None => float::ONE,
            },
            muted: match raw.muted {
                Some(flag) => flag,
                None => false,
            },
            peak: match raw.peak {
                Some(level) => level,
                None => float::ZERO,
            },
        },
    )
}

/// The sessions of an endpoint that are worth a row.
pub open spec fn row_sessions(raws: Seq<RawSession>) -> Seq<RawSession> {
    raws.filter(|raw: RawSession| is_row(raw))
}

/// Whether `list` shows the sessions of one endpoint, in order.
pub open spec fn lists(list: Seq<Session>, raws: Seq<RawSession>, device_id: Seq<char>) -> bool {
    &&& list.len() == row_sessions(raws).len()
    &&& forall|i: int|
        0 <= i < list.len() ==> reads_as(#[trigger] list[i], row_sessions(raws)[i], device_id)
}

/// Every live session rendering into `device_id`.
pub fn sessions_on(device_id: &str, raws: &Vec<RawSession>) -> (r: Vec<Session>)
    ensures
        lists(r@, raws@, device_id@),
{
    let mut out: Vec<Session> = Vec::new();
    let mut i: usize = 0;
    proof {
        reveal(Seq::filter);
        assert(row_sessions(raws@.take(0)).len() == 0);
    }
    while i < raws.len()
        invariant
            i <= raws@.len(),
            lists(out@, raws@.take(i as int), device_id@),
        decreases raws@.len() - i,
    {
        proof {
            reveal(Seq::filter);
            assert(raws@.take(i + 1).drop_last() =~= raws@.take(i as int));
        }
        if let Some(session) = read_session(&raws[i], device_id) {
            out.push(session);
        }
        i = i + 1;
    }
    assert(raws@.take(i as int) =~= raws@);
    out
}

/// The session lists of all endpoints, one after another.
pub open spec fn joined(lists: Seq<Vec<Session>>) -> Seq<Session>
    decreases lists.len(),
{
    if lists.len() == 0 {
        Seq::empty()
    } else {
        joined(lists.drop_last()) + lists.last()@
    }
}

/// Every live session on every active render endpoint, in the order of the
/// endpoints. An endpoint that could not be read contributes an empty list.
pub fn all_sessions(lists: Vec<Vec<Session>>) -> (r: Vec<Session>)
    ensures
        r@ == joined(lists@),
{
    let mut rest: Vec<Vec<Session>> = lists;
    let ghost all = lists@;
    let ghost mut done: int = 0;
    let mut out: Vec<Session> = Vec::new();
    assert(all.take(0) =~= Seq::empty());
    while rest.len() > 0
        invariant
            0 <= done <= all.len(),
            rest@ == all.skip(done),
            out@ == joined(all.take(done)),
        decreases rest@.len(),
    {
        let mut list: Vec<Session> = rest.remove(0);
        out.append(&mut list);
        proof {
            assert(all.take(done + 1).drop_last() =~= all.take(done));
            assert(rest@ =~= all.skip(done + 1));
            done = done + 1;
        }
    }
    assert(all.take(done) =~= all);
    out
}

/// Where the session with an instance id is in the list of an endpoint.
pub open spec fn session_index(ids: Seq<Option<String>>, instance_id: Seq<char>) -> Option<int>
    decreases ids.len(),
{
    if ids.len() == 0 {
        None
    } else if opt_text(ids[0]) == Some(instance_id) {
        Some(0)
    } else {
        match session_index(ids.drop_first(), instance_id) {
            Some(i) => Some(i + 1),
            None => None,
        }
    }
}

/// Finds a session by instance id among those of its endpoint.
///
/// A session that has since disappeared is reported rather than passed over:
/// "the slider did nothing and said nothing" is the failure worth avoiding.
pub fn with_session(ids: &Vec<Option<String>>, instance_id: &str) -> (r: Result<usize, i32>)
    ensures
        (match r {
            Ok(i) => session_index(ids@, instance_id@) == Some(i as int) && i < ids@.len(),
            Err(code) => session_index(ids@, instance_id@) is None && code == -2147023728,
        }),
{
    let mut i: usize = 0;
    assert(ids@.skip(0) =~= ids@);
    while i < ids.len()
        invariant
            i <= ids@.len(),
            session_index(ids@, instance_id@) == (match session_index(
                ids@.skip(i as int),
                instance_id@,
            ) {
                Some(k) => Some(k + i),
                None => None,
            }),
        decreases ids@.len() - i,
    {
        if let Some(id) = &ids[i] {
            if same_text(id.as_str(), instance_id) {
                return Ok(i);
            }
        }
        assert(ids@.skip(i as int).drop_first() =~= ids@.skip(i + 1));
        i = i + 1;
    }
    Err(E_SESSION_NOT_FOUND)
}

/// Sets one stream's volume: tells which session of the endpoint to change,
/// and the level to set, which is held between silence and full scale.
pub fn set_volume(ids: &Vec<Option<String>>, instance_id: &str, level: u32) -> (r: Result<
    (usize, u32),
    i32,
>)
    ensures
        (match r {
            Ok((i, set)) => session_index(ids@, instance_id@) == Some(i as int) && set == clamped(
                level,
                float::ZERO,
                float::ONE,
            ),
            Err(code) => session_index(ids@, instance_id@) is None && code == -2147023728,
        }),
        r is Ok && !float::is_nan(level) ==> !float::below(r->Ok_0.1, float::ZERO) && !float::below(
            float::ONE,
            r->Ok_0.1,
        ),
        r is Ok && !float::below(level, float::ZERO) && !float::below(float::ONE, level)
            ==> r->Ok_0.1 == level,
{
    match with_session(ids, instance_id) {
        Ok(i) => Ok((i, float::clamp(level, float::ZERO, float::ONE))),
        Err(code) => Err(code),
    }
}

/// Mutes or unmutes one stream: tells which session of the endpoint to change
/// and how.
pub fn set_mute(ids: &Vec<Option<String>>, instance_id: &str, muted: bool) -> (r: Result<
    (usize, bool),
    i32,
>)
    ensures
        (match r {
            Ok((i, set)) => session_index(ids@, instance_id@) == Some(i as int) && set == muted,
            Err(code) => session_index(ids@, instance_id@) is None && code == -2147023728,
        }),
{
    match with_session(ids, instance_id) {
        Ok(i) => Ok((i, muted)),
        Err(code) => Err(code),
    }
}

/// No row is ever an expired session.
pub proof fn no_row_is_expired(list: Seq<Session>, raws: Seq<RawSession>, device_id: Seq<char>)
    requires
        lists(list, raws, device_id),
    ensures
        forall|i: int|
            0 <= i < list.len() ==> (#[trigger] list[i]).state != SessionState::Expired,
{
    assert forall|i: int| 0 <= i < list.len() implies (#[trigger] list[i]).state
        != SessionState::Expired by {
        assert(reads_as(list[i], row_sessions(raws)[i], device_id));
        lemma_row_sessions(raws, i);
    }
}

proof fn lemma_row_sessions(raws: Seq<RawSession>, i: int)
    requires
        0 <= i < row_sessions(raws).len(),
    ensures
        is_row(row_sessions(raws)[i]),
    decreases raws.len(),
{
    reveal(Seq::filter);
    if raws.len() > 0 {
        let rest = raws.drop_last();
        if i < row_sessions(rest).len() {
            lemma_row_sessions(rest, i);
        }
    }
}

// ---------------------------------------------------------------------------
// The mixer's rows
// ---------------------------------------------------------------------------

/// One application in the mixer, with the places of its streams among the
/// sessions.
#[derive(Debug)]
pub struct MixerRow {
    pub key: AppKey,
    pub streams: Vec<usize>,
}

/// What the mixer shows a session under. A stream that has ended is not shown,
/// nor is one of whose process nothing is known.
pub open spec fn row_key(session: Session, app: Option<AppKey>) -> Option<AppKeyView> {
    if session.state == SessionState::Expired {
        None
    } else if session.is_system_sounds {
        Some(AppKeyView::SystemSounds)
    } else {
        match app {
            Some(key) => Some(key@),
            None => None,
        }
    }
}

/// What the mixer shows each session under.
pub open spec fn row_keys(sessions: Seq<Session>, apps: Seq<Option<AppKey>>) -> Seq<
    Option<AppKeyView>,
> {
    Seq::new(sessions.len(), |i: int| row_key(sessions[i], apps[i]))
}

/// The places of an application among the first `n` sessions.
pub open spec fn row_streams(keys: Seq<Option<AppKeyView>>, app: AppKeyView, n: int) -> Seq<usize>
    decreases n,
{
    if n <= 0 {
        Seq::empty()
    } else if keys[n - 1] is Some && same_app(app, keys[n - 1]->0) {
        row_streams(keys, app, n - 1).push((n - 1) as usize)
    } else {
        row_streams(keys, app, n - 1)
    }
}

/// Whether `rows` shows the first `n` sessions: one row for each application,
/// with all of its streams, under the key of the first, in the order in which
/// the applications first appear.
pub open spec fn shows(rows: Seq<MixerRow>, keys: Seq<Option<AppKeyView>>, n: int) -> bool {
    &&& forall|g: int|
        0 <= g < rows.len() ==> {
            &&& (#[trigger] rows[g]).streams@ == row_streams(keys, rows[g].key@, n)
            &&& rows[g].streams@.len() > 0
            &&& keys[rows[g].streams@[0] as int] == Some(rows[g].key@)
        }
    &&& forall|a: int, b: int|
        0 <= a < b < rows.len() ==> (#[trigger] rows[a]).streams@[0] < (
        #[trigger] rows[b]).streams@[0]
    &&& forall|i: int|
        0 <= i < n && (#[trigger] keys[i]) is Some ==> exists|g: int|
            0 <= g < rows.len() && same_app((#[trigger] rows[g]).key@, keys[i]->0)
}

proof fn lemma_row_streams(keys: Seq<Option<AppKeyView>>, app: AppKeyView, n: int)
    requires
        0 <= n <= usize::MAX,
    ensures
        forall|j: int|
            0 <= j < row_streams(keys, app, n).len() ==> (#[trigger] row_streams(
                keys,
                app,
                n,
            )[j]) < n,
    decreases n,
{
    if n > 0 {
        lemma_row_streams(keys, app, n - 1);
        let rest = row_streams(keys, app, n - 1);
        assert forall|j: int| 0 <= j < row_streams(keys, app, n).len() implies (
        #[trigger] row_streams(keys, app, n)[j]) < n by {
            if j < rest.len() {
                assert(rest[j] < n - 1);
            }
        }
    }
}

/// No application has two rows.
pub proof fn rows_are_distinct(rows: Seq<MixerRow>, keys: Seq<Option<AppKeyView>>, n: int)
    requires
        shows(rows, keys, n),
    ensures
        forall|a: int, b: int|
            0 <= a < b < rows.len() ==> !same_app(
                (#[trigger] rows[a]).key@,
                (#[trigger] rows[b]).key@,
            ),
{
    assert forall|a: int, b: int| 0 <= a < b < rows.len() implies !same_app(
        (#[trigger] rows[a]).key@,
        (#[trigger] rows[b]).key@,
    ) by {
        if same_app(rows[a].key@, rows[b].key@) {
            lemma_same_streams(keys, rows[a].key@, rows[b].key@, n);
        }
    }
}

proof fn lemma_same_streams(keys: Seq<Option<AppKeyView>>, a: AppKeyView, b: AppKeyView, n: int)
    requires
        same_app(a, b),
    ensures
        row_streams(keys, a, n) == row_streams(keys, b, n),
    decreases n,
{
    if n > 0 {
        lemma_same_streams(keys, a, b, n - 1);
        if keys[n - 1] is Some {
            same_app_is_an_equivalence(a, b, keys[n - 1]->0);
            same_app_is_an_equivalence(b, a, keys[n - 1]->0);
        }
    }
}

fn shown_under(session: &Session, app: &Option<AppKey>) -> (r: Option<AppKey>)
    ensures
        (match r {
            Some(key) => row_key(*session, *app) == Some(key@),
            None => row_key(*session, *app) is None,
        }),
{
    if !session.is_visible() {
        None
    } else if session.is_system_sounds {
        Some(AppKey::SystemSounds)
    } else {
        match app {
            Some(key) => Some(key.clone()),
            None => None,
        }
    }
}

fn find_row(rows: &Vec<MixerRow>, key: &AppKey) -> (r: Option<usize>)
    ensures
        (match r {
            Some(g) => g < rows@.len() && same_app(rows@[g as int].key@, key@),
            None => forall|g: int|
                0 <= g < rows@.len() ==> !same_app((#[trigger] rows@[g]).key@, key@),
        }),
{
    let mut g: usize = 0;
    while g < rows.len()
        invariant
            g <= rows@.len(),
            forall|j: int| 0 <= j < g ==> !same_app((#[trigger] rows@[j]).key@, key@),
        decreases rows@.len() - g,
    {
        if rows[g].key.same_as(key) {
            return Some(g);
        }
        g = g + 1;
    }
    None
}

proof fn lemma_row_extended(
    before: Seq<MixerRow>,
    after: Seq<MixerRow>,
    keys: Seq<Option<AppKeyView>>,
    n: int,
    k: int,
)
    requires
        0 <= n < usize::MAX,
        shows(before, keys, n),
        keys[n] is Some,
        0 <= k < before.len(),
        same_app(before[k].key@, keys[n]->0),
        after.len() == before.len(),
        forall|g: int| 0 <= g < after.len() && g != k ==> #[trigger] after[g] == before[g],
        after[k].key == before[k].key,
        after[k].streams@ == before[k].streams@.push(n as usize),
    ensures
        shows(after, keys, n + 1),
{
    rows_are_distinct(before, keys, n);
    assert forall|g: int| 0 <= g < after.len() implies {
        &&& (#[trigger] after[g]).streams@ == row_streams(keys, after[g].key@, n + 1)
        &&& after[g].streams@.len() > 0
        &&& after[g].streams@[0] == before[g].streams@[0]
        &&& keys[after[g].streams@[0] as int] == Some(after[g].key@)
    } by {
        assert(before[g].streams@.len() > 0);
        if g != k {
            same_app_is_an_equivalence(before[g].key@, keys[n]->0, before[k].key@);
            same_app_is_an_equivalence(before[k].key@, keys[n]->0, keys[n]->0);
            if g < k {
                assert(!same_app(before[g].key@, before[k].key@));
            } else {
                assert(!same_app(before[k].key@, before[g].key@));
                same_app_is_an_equivalence(before[g].key@, before[k].key@, before[k].key@);
            }
        }
    }
    assert forall|a: int, b: int| 0 <= a < b < after.len() implies (#[trigger] after[a]).streams@[0]
        < (#[trigger] after[b]).streams@[0] by {
        assert(before[a].streams@[0] < before[b].streams@[0]);
    }
    assert forall|i: int| 0 <= i < n + 1 && (#[trigger] keys[i]) is Some implies exists|g: int|
        0 <= g < after.len() && same_app((#[trigger] after[g]).key@, keys[i]->0) by {
        let g = if i == n {
            k
        } else {
            choose|g: int|
                0 <= g < before.len() && same_app((#[trigger] before[g]).key@, keys[i]->0)
        };
        assert(same_app(before[g].key@, keys[i]->0));
        assert(same_app(after[g].key@, keys[i]->0));
    }
}

proof fn lemma_row_added(
    before: Seq<MixerRow>,
    added: MixerRow,
    keys: Seq<Option<AppKeyView>>,
    n: int,
)
    requires
        0 <= n < usize::MAX,
        shows(before, keys, n),
        keys[n] == Some(added.key@),
        added.streams@ == seq![n as usize],
        forall|g: int| 0 <= g < before.len() ==> !same_app((#[trigger] before[g]).key@, added.key@),
    ensures
        shows(before.push(added), keys, n + 1),
{
    let after = before.push(added);
    same_app_is_an_equivalence(added.key@, added.key@, added.key@);
    assert(row_streams(keys, added.key@, n).len() == 0) by {
        if row_streams(keys, added.key@, n).len() > 0 {
            let i = lemma_some_member(keys, added.key@, n);
            let g = choose|g: int|
                0 <= g < before.len() && same_app((#[trigger] before[g]).key@, keys[i]->0);
            same_app_is_an_equivalence(before[g].key@, keys[i]->0, added.key@);
            same_app_is_an_equivalence(added.key@, keys[i]->0, keys[i]->0);
        }
    }
    assert forall|g: int| 0 <= g < after.len() implies {
        &&& (#[trigger] after[g]).streams@ == row_streams(keys, after[g].key@, n + 1)
        &&& after[g].streams@.len() > 0
        &&& keys[after[g].streams@[0] as int] == Some(after[g].key@)
    } by {
        if g < before.len() {
            assert(after[g] == before[g]);
        } else {
            assert(row_streams(keys, added.key@, n + 1) =~= seq![n as usize]);
        }
    }
    assert forall|a: int, b: int| 0 <= a < b < after.len() implies (#[trigger] after[a]).streams@[0]
        < (#[trigger] after[b]).streams@[0] by {
        assert(after[a] == before[a]);
        lemma_row_streams(keys, before[a].key@, n);
        if b < before.len() {
            assert(after[b] == before[b]);
        }
    }
    assert forall|i: int| 0 <= i < n + 1 && (#[trigger] keys[i]) is Some implies exists|g: int|
        0 <= g < after.len() && same_app((#[trigger] after[g]).key@, keys[i]->0) by {
        if i == n {
            assert(after[before.len() as int] == added);
        } else {
            let g = choose|g: int|
                0 <= g < before.len() && same_app((#[trigger] before[g]).key@, keys[i]->0);
            assert(after[g] == before[g]);
        }
    }
}

proof fn lemma_some_member(keys: Seq<Option<AppKeyView>>, app: AppKeyView, n: int) -> (i: int)
    requires
        row_streams(keys, app, n).len() > 0,
    ensures
        0 <= i < n,
        keys[i] is Some,
        same_app(app, keys[i]->0),
    decreases n,
{
    if n > 0 && keys[n - 1] is Some && same_app(app, keys[n - 1]->0) {
        n - 1
    } else {
        lemma_some_member(keys, app, n - 1)
    }
}

/// The rows of the mixer, from the sessions and the application behind each.
pub fn mixer_rows(sessions: &Vec<Session>, apps: &Vec<Option<AppKey>>) -> (r: Vec<MixerRow>)
    requires
        apps@.len() == sessions@.len(),
    ensures
        shows(r@, row_keys(sessions@, apps@), sessions@.len() as int),
{
    let ghost keys = row_keys(sessions@, apps@);
    let mut rows: Vec<MixerRow> = Vec::new();
    let mut n: usize = 0;
    while n < sessions.len()
        invariant
            n <= sessions@.len(),
            apps@.len() == sessions@.len(),
            keys == row_keys(sessions@, apps@),
            shows(rows@, keys, n as int),
        decreases sessions@.len() - n,
    {
        let ghost before = rows@;
        match shown_under(&sessions[n], &apps[n]) {
            Some(key) => match find_row(&rows, &key) {
                Some(k) => {
                    rows[k].streams.push(n);
                    proof {
                        lemma_row_extended(before, rows@, keys, n as int, k as int);
                    }
                },
                None => {
                    let row = MixerRow { key, streams: vec![n] };
                    proof {
                        assert(row.streams@ =~= seq![n]);
                        lemma_row_added(before, row, keys, n as int);
                    }
                    rows.push(row);
                },
            },
            None => {
                assert(keys[n as int] is None);
            },
        }
        n = n + 1;
    }
    rows
}

// ---------------------------------------------------------------------------
// What a row shows
// ---------------------------------------------------------------------------

/// A row shows what Windows reports of the session, each reading where it
/// belongs and whatever the others are: the volume that is set, the mute, the
/// meter, the state and the process. What could not be read shows as full
/// volume, not muted, silent, and without a process.
pub proof fn a_row_shows_what_is_reported(s: Session, raw: RawSession, device_id: Seq<char>)
    requires
        is_row(raw),
        reads_as(s, raw, device_id),
    ensures
        s.device_id@ == device_id,
        raw.instance_id is Some && s.instance_id@ == raw.instance_id->0@,
        raw.display_id is Some ==> s.display_id@ == raw.display_id->0@,
        raw.display_id is None ==> s.display_id@ == s.instance_id@,
        raw.volume is Some ==> s.volume == raw.volume->0,
        raw.volume is None ==> s.volume == float::ONE,
        raw.muted is Some ==> s.muted == raw.muted->0,
        raw.muted is None ==> !s.muted,
        raw.peak is Some ==> s.peak == raw.peak->0,
        raw.peak is None ==> s.peak == float::ZERO,
        raw.process_id is Some ==> s.process_id == raw.process_id->0,
        raw.process_id is None ==> s.process_id == 0,
        s.is_system_sounds <==> raw.system_sounds == 0,
        raw.state is Some,
        s.state == SessionState::Active <==> raw.state->0 == AUDIO_SESSION_STATE_ACTIVE,
        s.state != SessionState::Expired,
{
}

/// The volume of a row does not depend on the meter, nor the meter on the
/// volume, nor either on the mute.
pub proof fn readings_do_not_mix(
    a: Session,
    b: Session,
    x: RawSession,
    y: RawSession,
    device_id: Seq<char>,
)
    requires
        reads_as(a, x, device_id),
        reads_as(b, y, device_id),
    ensures
        x.volume == y.volume ==> a.volume == b.volume,
        x.peak == y.peak ==> a.peak == b.peak,
        x.muted == y.muted ==> a.muted == b.muted,
        x.process_id == y.process_id ==> a.process_id == b.process_id,
        x.system_sounds == y.system_sounds ==> a.is_system_sounds == b.is_system_sounds,
        x.state == y.state ==> a.state == b.state,
{
}

/// A session is worth a row exactly if its state could be read and is not that
/// of one that has ended, it has a volume, and it can be found again.
pub proof fn only_sessions_that_ended_are_left_out(raw: RawSession)
    ensures
        raw.state is Some && raw.state->0 != AUDIO_SESSION_STATE_EXPIRED && raw.has_volume
            && raw.instance_id is Some ==> is_row(raw),
        raw.state == Some(AUDIO_SESSION_STATE_EXPIRED) ==> !is_row(raw),
        raw.state is None || !raw.has_volume || raw.instance_id is None ==> !is_row(raw),
{
}

/// Every session that is worth a row has one, and they stand in the order given.
pub proof fn every_session_has_its_row(
    list: Seq<Session>,
    raws: Seq<RawSession>,
    device_id: Seq<char>,
    i: int,
) -> (k: int)
    requires
        lists(list, raws, device_id),
        0 <= i < raws.len(),
        is_row(raws[i]),
    ensures
        0 <= k < list.len(),
        reads_as(list[k], raws[i], device_id),
        k == row_sessions(raws.take(i)).len(),
{
    let k = lemma_row_place(raws, i);
    assert(reads_as(list[k], row_sessions(raws)[k], device_id));
    k
}

proof fn lemma_row_place(raws: Seq<RawSession>, i: int) -> (k: int)
    requires
        0 <= i < raws.len(),
        is_row(raws[i]),
    ensures
        0 <= k < row_sessions(raws).len(),
        row_sessions(raws)[k] == raws[i],
        k == row_sessions(raws.take(i)).len(),
    decreases raws.len(),
{
    reveal(Seq::filter);
    let front = raws.drop_last();
    if i < front.len() {
        let k = lemma_row_place(front, i);
        assert(front.take(i) =~= raws.take(i));
        assert(row_sessions(raws)[k] == row_sessions(front)[k]);
        k
    } else {
        assert(raws.take(i) =~= front);
        row_sessions(front).len() as int
    }
}

/// Every session of every endpoint is listed, endpoint by endpoint.
pub proof fn every_endpoint_is_listed(all: Seq<Vec<Session>>, e: int, i: int)
    requires
        0 <= e < all.len(),
        0 <= i < all[e]@.len(),
    ensures
        joined(all.take(e)).len() + i < joined(all).len(),
        joined(all)[joined(all.take(e)).len() + i] == all[e]@[i],
    decreases all.len(),
{
    if e < all.len() - 1 {
        let front = all.drop_last();
        every_endpoint_is_listed(front, e, i);
        assert(front.take(e) =~= all.take(e));
    } else {
        assert(all.take(e) =~= all.drop_last());
    }
}

/// A session is found again by its instance id: the first that has it, and
/// none exactly where there is none.
pub proof fn a_session_is_found_again(ids: Seq<Option<String>>, instance_id: Seq<char>)
    ensures
        (match session_index(ids, instance_id) {
            Some(i) => {
                &&& 0 <= i < ids.len()
                &&& ids[i] is Some && ids[i]->0@ == instance_id
                &&& forall|j: int|
                    0 <= j < i ==> !((#[trigger] ids[j]) is Some && ids[j]->0@ == instance_id)
            },
            None => forall|j: int|
                0 <= j < ids.len() ==> !((#[trigger] ids[j]) is Some && ids[j]->0@ == instance_id),
        }),
    decreases ids.len(),
{
    if ids.len() > 0 && opt_text(ids[0]) != Some(instance_id) {
        let rest = ids.drop_first();
        a_session_is_found_again(rest, instance_id);
        assert forall|j: int|
            0 < j < ids.len() && (match session_index(rest, instance_id) {
                Some(i) => j < i + 1,
                None => true,
            }) implies !((#[trigger] ids[j]) is Some && ids[j]->0@ == instance_id) by {
            assert(rest[j - 1] == ids[j]);
        }
    }
}

/// The mixer shows every stream that has not ended: the system sounds as such,
/// and any other under its application, where that is known.
pub proof fn streams_are_shown_under_their_application(session: Session, app: Option<AppKey>)
    ensures
        session.state == SessionState::Expired ==> row_key(session, app) is None,
        session.state != SessionState::Expired && session.is_system_sounds ==> row_key(session, app)
            == Some(AppKeyView::SystemSounds),
        session.state != SessionState::Expired && !session.is_system_sounds && app is Some
            ==> row_key(session, app) == Some(app->0@),
        session.state != SessionState::Expired && !session.is_system_sounds && app is None
            ==> row_key(session, app) is None,
{
}

/// A row of the mixer holds exactly the streams of its application, in order.
pub proof fn a_row_holds_its_streams(keys: Seq<Option<AppKeyView>>, app: AppKeyView, n: int, i: int)
    requires
        0 <= i < n <= keys.len(),
        n <= usize::MAX,
    ensures
        row_streams(keys, app, n).contains(i as usize) == (keys[i] is Some && same_app(
            app,
            keys[i]->0,
        )),
        forall|a: int, b: int|
            0 <= a < b < row_streams(keys, app, n).len() ==> row_streams(keys, app, n)[a]
                < row_streams(keys, app, n)[b],
    decreases n,
{
    lemma_row_streams(keys, app, n - 1);
    let before = row_streams(keys, app, n - 1);
    let after = row_streams(keys, app, n);
    if n - 1 > 0 {
        a_row_holds_its_streams(
            keys,
            app,
            n - 1,
            if i < n - 1 {
                i
            } else {
                0
            },
        );
    }
    assert forall|a: int, b: int| 0 <= a < b < after.len() implies after[a] < after[b] by {
        if b == before.len() {
            assert(before[a] < n - 1);
        }
    }
    if i < n - 1 {
        if before.contains(i as usize) {
            let k = choose|k: int| 0 <= k < before.len() && before[k] == i as usize;
            assert(after[k] == i as usize);
        } else if after.contains(i as usize) {
            let k = choose|k: int| 0 <= k < after.len() && after[k] == i as usize;
            assert(k < before.len());
            assert(before[k] == i as usize);
        }
    } else {
        if keys[i] is Some && same_app(app, keys[i]->0) {
            assert(after[before.len() as int] == i as usize);
        } else if after.contains(i as usize) {
            let k = choose|k: int| 0 <= k < after.len() && after[k] == i as usize;
            assert(before[k] < n - 1);
        }
    }
}

} // verus!
