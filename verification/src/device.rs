//! Render endpoints: what is known of one, how they are listed, and which
//! changes to them matter.

use crate::sort::{by_rank, is_ordered, sort_by_rank, Ranked};
use crate::text::{
    ascii_lower, chars_of, comes_before, copy_opt, found, lemma_text_order_total,
    lemma_text_order_transitive, lowercase, occurs, opt_str, opt_text, same_text, string_of, text_before,
    to_ascii_lower, to_lowercase, trim, trim_end_of, trim_start_of, trimmed, trimmed_end_of,
    trimmed_start_of,
};
use vstd::prelude::*;
use vstd::string::*;

verus! {

/// Endpoint state, narrowed from the Win32 bit mask.
#[derive(Debug, Clone, Copy, PartialEq, Eq, Structural)]
pub enum DeviceState {
    Active,
    Disabled,
    NotPresent,
    Unplugged,
    Unknown,
}

pub const DEVICE_STATE_ACTIVE: u32 = 1;

pub const DEVICE_STATE_DISABLED: u32 = 2;

pub const DEVICE_STATE_NOTPRESENT: u32 = 4;

pub const DEVICE_STATE_UNPLUGGED: u32 = 8;

/// The state that a mask stands for: the lowest of the four bits decides.
pub open spec fn state_of_mask(raw: u32) -> DeviceState {
    if raw & 1 != 0 {
        DeviceState::Active
    } else if raw & 2 != 0 {
        DeviceState::Disabled
    } else if raw & 4 != 0 {
        DeviceState::NotPresent
    } else if raw & 8 != 0 {
        DeviceState::Unplugged
    } else {
        DeviceState::Unknown
    }
}

/// The word for a state.
pub open spec fn state_word(state: DeviceState) -> Seq<char> {
    match state {
        DeviceState::Active => "active"@,
        DeviceState::Disabled => "disabled"@,
        DeviceState::NotPresent => "not-present"@,
        DeviceState::Unplugged => "unplugged"@,
        DeviceState::Unknown => "unknown"@,
    }
}

impl DeviceState {
    /// Reads the Win32 bit mask.
    pub fn from_mask(raw: u32) -> (r: DeviceState)
        ensures
            r == state_of_mask(raw),
    {
        if raw & DEVICE_STATE_ACTIVE != 0 {
            DeviceState::Active
        } else if raw & DEVICE_STATE_DISABLED != 0 {
            DeviceState::Disabled
        } else if raw & DEVICE_STATE_NOTPRESENT != 0 {
            DeviceState::NotPresent
        } else if raw & DEVICE_STATE_UNPLUGGED != 0 {
            DeviceState::Unplugged
        } else {
            DeviceState::Unknown
        }
    }

    /// The state as a short string.
    pub fn label(&self) -> (r: &'static str)
        ensures
            r@ == state_word(*self),
    {
        match self {
            DeviceState::Active => "active",
            DeviceState::Disabled => "disabled",
            DeviceState::NotPresent => "not-present",
            DeviceState::Unplugged => "unplugged",
            DeviceState::Unknown => "unknown",
        }
    }
}

/// A render endpoint.
#[derive(Debug, PartialEq, Eq)]
pub struct DeviceInfo {
    /// Endpoint id, stable across reboots. This is what gets persisted.
    pub id: String,
    /// Presentable name.
    pub name: String,
    /// The adapter's name, when available. Disambiguates two
    /// identical-looking endpoints.
    pub adapter: Option<String>,
    /// Current state.
    pub state: DeviceState,
    /// Whether the endpoint is currently the default for any role.
    pub is_default: bool,
    /// Whether this looks like the virtual card.
    pub is_virtual: bool,
}

impl Clone for DeviceInfo {
    fn clone(&self) -> (r: Self)
        ensures
            r == *self,
    {
        DeviceInfo {
            id: self.id.clone(),
            name: self.name.clone(),
            adapter: copy_opt(&self.adapter),
            state: self.state,
            is_default: self.is_default,
            is_virtual: self.is_virtual,
        }
    }
}

/// A name, with the adapter behind it in brackets where that adds something.
pub open spec fn display_text(name: Seq<char>, adapter: Option<Seq<char>>) -> Seq<char> {
    match adapter {
        Some(a) => if a.len() > 0 && !occurs(name, a) {
            name + " ("@ + a + ")"@
        } else {
            name
        },
        None => name,
    }
}

impl DeviceInfo {
    /// Name plus adapter, for menus where two "Speakers" would be confusing.
    pub fn display(&self) -> (r: String)
        ensures
            r@ == display_text(self.name@, opt_text(self.adapter)),
    {
        match &self.adapter {
            Some(adapter) => {
                let name_chars = chars_of(self.name.as_str());
                let adapter_chars = chars_of(adapter.as_str());
                if adapter_chars.len() > 0 && !found(
                    name_chars.as_slice(),
                    adapter_chars.as_slice(),
                ) {
                    let mut s: String = self.name.clone();
                    s.append(" (");
                    s.append(adapter.as_str());
                    s.append(")");
                    s
                } else {
                    self.name.clone()
                }
            },
            None => self.name.clone(),
        }
    }
}

/// Whether a name holds one of the markers of the virtual card, whatever the
/// case of its letters.
pub open spec fn is_marked(name: Seq<char>) -> bool {
    let lowered = ascii_lower(name);
    ||| occurs(lowered, "fxsound"@)
    ||| occurs(lowered, "fxvad"@)
    ||| occurs(lowered, "audio enhancer"@)
}

fn name_is_marked(name: &str) -> (r: bool)
    ensures
        r == is_marked(name@),
{
    let chars = chars_of(name);
    let lowered = to_ascii_lower(chars.as_slice());
    let a = chars_of("fxsound");
    let b = chars_of("fxvad");
    let c = chars_of("audio enhancer");
    found(lowered.as_slice(), a.as_slice()) || found(lowered.as_slice(), b.as_slice()) || found(
        lowered.as_slice(),
        c.as_slice(),
    )
}

/// Whether a set of names looks like the virtual card.
pub fn looks_virtual(names: &[Option<&str>]) -> (r: bool)
    ensures
        r == exists|i: int|
            0 <= i < names@.len() && (#[trigger] names@[i]) is Some && is_marked(names@[i]->0@),
{
    let mut i: usize = 0;
    while i < names.len()
        invariant
            i <= names@.len(),
            forall|j: int|
                0 <= j < i ==> !((#[trigger] names@[j]) is Some && is_marked(names@[j]->0@)),
        decreases names@.len() - i,
    {
        if let Some(name) = names[i] {
            if name_is_marked(name) {
                assert(names@[i as int] is Some && is_marked(names@[i as int]->0@));
                return true;
            }
        }
        i = i + 1;
    }
    false
}

/// What Windows reports of one endpoint.
#[derive(Debug)]
pub struct RawEndpoint {
    /// The endpoint id, where it could be read.
    pub id: Option<String>,
    /// The name that the Sound control panel shows.
    pub friendly_name: Option<String>,
    /// The driver's own description.
    pub description: Option<String>,
    /// The adapter's name.
    pub adapter: Option<String>,
    /// The state mask, where it could be read.
    pub state: Option<u32>,
}

/// A property's text without the terminators and the white space around it;
/// nothing, if nothing is left.
pub open spec fn property_text(raw: Option<Seq<char>>) -> Option<Seq<char>> {
    match raw {
        Some(s) => {
            let t = trim(trim_end_of(trim_start_of(s, '\0'), '\0'));
            if t.len() == 0 {
                None
            } else {
                Some(t)
            }
        },
        None => None,
    }
}

/// Cleans up a string property.
pub fn string_property(raw: &Option<String>) -> (r: Option<String>)
    ensures
        opt_text(r) == property_text(opt_text(*raw)),
{
    match raw {
        Some(s) => {
            let chars = chars_of(s.as_str());
            let t = trimmed(trimmed_end_of(trimmed_start_of(chars.as_slice(), '\0'), '\0'));
            if t.len() == 0 {
                None
            } else {
                Some(string_of(t))
            }
        },
        None => None,
    }
}

/// The presentable name of an endpoint.
pub open spec fn endpoint_name_text(raw: RawEndpoint) -> Seq<char> {
    match property_text(opt_text(raw.friendly_name)) {
        Some(name) => name,
        None => match property_text(opt_text(raw.description)) {
            Some(name) => name,
            None => "Unknown endpoint"@,
        },
    }
}

/// Whether `d` is the endpoint that `raw` reports.
pub open spec fn describes(d: DeviceInfo, raw: RawEndpoint, default_ids: Seq<String>) -> bool {
    let name = endpoint_name_text(raw);
    let adapter = property_text(opt_text(raw.adapter));
    &&& raw.id is Some && d.id@ == raw.id->0@
    &&& d.name@ == name
    &&& opt_text(d.adapter) == adapter
    &&& d.state == (match raw.state {
        Some(mask) => state_of_mask(mask),
        None => DeviceState::Unknown,
    })
    &&& d.is_default == (exists|i: int|
        0 <= i < default_ids.len() && (#[trigger] default_ids[i])@ == raw.id->0@)
    &&& d.is_virtual == (is_marked(name) || (adapter is Some && is_marked(adapter->0)))
}

/// Whether a list of ids holds `id`.
pub fn holds_id(ids: &Vec<String>, id: &str) -> (r: bool)
    ensures
        r == exists|i: int| 0 <= i < ids@.len() && (#[trigger] ids@[i])@ == id@,
{
    let mut i: usize = 0;
    while i < ids.len()
        invariant
            i <= ids@.len(),
            forall|j: int| 0 <= j < i ==> (#[trigger] ids@[j])@ != id@,
        decreases ids@.len() - i,
    {
        if same_text(ids[i].as_str(), id) {
            return true;
        }
        i = i + 1;
    }
    false
}

/// Builds a [`DeviceInfo`] from what Windows reports. An endpoint without an
/// id is passed over.
pub fn describe(raw: &RawEndpoint, default_ids: &Vec<String>) -> (r: Option<DeviceInfo>)
    ensures
        r is Some == raw.id is Some,
        r is Some ==> describes(r->0, *raw, default_ids@),
{
    let id = match &raw.id {
        Some(id) => id.clone(),
        None => {
            return None;
        },
    };
    let name = match string_property(&raw.friendly_name) {
        Some(name) => name,
        None => match string_property(&raw.description) {
            Some(name) => name,
            None => "Unknown endpoint".to_owned(),
        },
    };
    let adapter = string_property(&raw.adapter);
    let state = match raw.state {
        Some(mask) => DeviceState::from_mask(mask),
        None => DeviceState::Unknown,
    };
    let is_virtual: bool = match &adapter {
        Some(a) => {
            let names: [Option<&str>; 2] = [Some(name.as_str()), Some(a.as_str())];
            let marked: bool = looks_virtual(&names);
            proof {
                if is_marked(name@) {
                    assert(names@[0] is Some && is_marked(names@[0]->0@));
                }
                if is_marked(a@) {
                    assert(names@[1] is Some && is_marked(names@[1]->0@));
                }
            }
            marked
        },
        None => {
            let names: [Option<&str>; 2] = [Some(name.as_str()), None];
            let marked: bool = looks_virtual(&names);
            proof {
                if is_marked(name@) {
                    assert(names@[0] is Some && is_marked(names@[0]->0@));
                }
            }
            marked
        },
    };
    let is_default: bool = holds_id(default_ids, id.as_str());
    Some(DeviceInfo { id, name, adapter, state, is_default, is_virtual })
}

/// The endpoints that have an id.
pub open spec fn with_id(raws: Seq<RawEndpoint>) -> Seq<RawEndpoint> {
    raws.filter(|raw: RawEndpoint| raw.id is Some)
}

/// Describes every endpoint that can be, in the order given.
pub fn collect(raws: &Vec<RawEndpoint>, default_ids: &Vec<String>) -> (r: Vec<DeviceInfo>)
    ensures
        r@.len() == with_id(raws@).len(),
        forall|i: int|
            0 <= i < r@.len() ==> describes(#[trigger] r@[i], with_id(raws@)[i], default_ids@),
{
    let mut out: Vec<DeviceInfo> = Vec::new();
    let mut i: usize = 0;
    proof {
        reveal(Seq::filter);
        assert(with_id(raws@.take(0)).len() == 0);
    }
    while i < raws.len()
        invariant
            i <= raws@.len(),
            out@.len() == with_id(raws@.take(i as int)).len(),
            forall|k: int|
                0 <= k < out@.len() ==> describes(
                    #[trigger] out@[k],
                    with_id(raws@.take(i as int))[k],
                    default_ids@,
                ),
        decreases raws@.len() - i,
    {
        proof {
            reveal(Seq::filter);
            assert(raws@.take(i + 1).drop_last() =~= raws@.take(i as int));
        }
        if let Some(info) = describe(&raws[i], default_ids) {
            out.push(info);
        }
        i = i + 1;
    }
    assert(raws@.take(i as int) =~= raws@);
    out
}

/// Defaults come first, then virtual cards, then the rest; within each group
/// by name, whatever its case.
impl Ranked for DeviceInfo {
    open spec fn ranks_before(&self, other: &Self) -> bool {
        if self.is_default != other.is_default {
            self.is_default
        } else if self.is_virtual != other.is_virtual {
            self.is_virtual
        } else {
            text_before(lowercase(self.name@), lowercase(other.name@))
        }
    }

    proof fn rank_laws(a: Self, b: Self, c: Self) {
        let x = lowercase(a.name@);
        let y = lowercase(b.name@);
        let z = lowercase(c.name@);
        lemma_text_order_total(x, y);
        lemma_text_order_total(y, z);
        lemma_text_order_total(x, z);
        if text_before(x, z) && text_before(z, y) {
            lemma_text_order_transitive(x, z, y);
        }
    }

    fn before(&self, other: &Self) -> (r: bool) {
        if self.is_default != other.is_default {
            self.is_default
        } else if self.is_virtual != other.is_virtual {
            self.is_virtual
        } else {
            let a = to_lowercase(self.name.as_str());
            let b = to_lowercase(other.name.as_str());
            let x = chars_of(a.as_str());
            let y = chars_of(b.as_str());
            comes_before(x.as_slice(), y.as_slice())
        }
    }
}

/// Lists the active render endpoints: default first, then virtual cards, then
/// the rest.
pub fn render_devices(collected: Vec<DeviceInfo>) -> (r: Vec<DeviceInfo>)
    ensures
        r@ == by_rank(collected@),
{
    sort_by_rank(collected)
}

/// The first of `devices` with the given id.
pub open spec fn find_by_id(devices: Seq<DeviceInfo>, id: Seq<char>) -> Option<DeviceInfo>
    decreases devices.len(),
{
    if devices.len() == 0 {
        None
    } else if devices[0].id@ == id {
        Some(devices[0])
    } else {
        find_by_id(devices.drop_first(), id)
    }
}

/// The first virtual card of `devices`.
pub open spec fn find_virtual(devices: Seq<DeviceInfo>) -> Option<DeviceInfo>
    decreases devices.len(),
{
    if devices.len() == 0 {
        None
    } else if devices[0].is_virtual {
        Some(devices[0])
    } else {
        find_virtual(devices.drop_first())
    }
}

/// The first physical device of `devices`.
pub open spec fn find_physical(devices: Seq<DeviceInfo>) -> Option<DeviceInfo>
    decreases devices.len(),
{
    if devices.len() == 0 {
        None
    } else if !devices[0].is_virtual {
        Some(devices[0])
    } else {
        find_physical(devices.drop_first())
    }
}

/// Looks up one endpoint by id among all render endpoints.
pub fn device_by_id(devices: &Vec<DeviceInfo>, id: &str) -> (r: Option<DeviceInfo>)
    ensures
        r == find_by_id(devices@, id@),
{
    let mut i: usize = 0;
    assert(devices@.skip(0) =~= devices@);
    while i < devices.len()
        invariant
            i <= devices@.len(),
            find_by_id(devices@, id@) == find_by_id(devices@.skip(i as int), id@),
        decreases devices@.len() - i,
    {
        if same_text(devices[i].id.as_str(), id) {
            return Some(devices[i].clone());
        }
        assert(devices@.skip(i as int).drop_first() =~= devices@.skip(i + 1));
        i = i + 1;
    }
    None
}

/// Finds the virtual card among the active render endpoints.
pub fn find_virtual_device(devices: &Vec<DeviceInfo>) -> (r: Option<DeviceInfo>)
    ensures
        r == find_virtual(devices@),
{
    let mut i: usize = 0;
    assert(devices@.skip(0) =~= devices@);
    while i < devices.len()
        invariant
            i <= devices@.len(),
            find_virtual(devices@) == find_virtual(devices@.skip(i as int)),
        decreases devices@.len() - i,
    {
        if devices[i].is_virtual {
            return Some(devices[i].clone());
        }
        assert(devices@.skip(i as int).drop_first() =~= devices@.skip(i + 1));
        i = i + 1;
    }
    None
}

/// Finds the first physical device in the order of the list.
pub fn find_physical_device(devices: &Vec<DeviceInfo>) -> (r: Option<DeviceInfo>)
    ensures
        r == find_physical(devices@),
{
    let mut i: usize = 0;
    assert(devices@.skip(0) =~= devices@);
    while i < devices.len()
        invariant
            i <= devices@.len(),
            find_physical(devices@) == find_physical(devices@.skip(i as int)),
        decreases devices@.len() - i,
    {
        if !devices[i].is_virtual {
            return Some(devices[i].clone());
        }
        assert(devices@.skip(i as int).drop_first() =~= devices@.skip(i + 1));
        i = i + 1;
    }
    None
}

/// Whether a device can be rendered to: a physical one that is not the one to
/// keep clear of.
pub open spec fn eligible(d: DeviceInfo, excluded: Option<Seq<char>>) -> bool {
    !d.is_virtual && Some(d.id@) != excluded
}

/// The first eligible device by name, whatever the case of its letters; of
/// two with the same name the one listed first.
pub open spec fn first_by_name(devices: Seq<DeviceInfo>, excluded: Option<Seq<char>>) -> Option<
    DeviceInfo,
>
    decreases devices.len(),
{
    if devices.len() == 0 {
        None
    } else {
        let best = first_by_name(devices.drop_last(), excluded);
        let last = devices.last();
        if eligible(last, excluded) && (best is None || text_before(
            lowercase(last.name@),
            lowercase(best->0.name@),
        )) {
            Some(last)
        } else {
            best
        }
    }
}

/// Executable [`first_by_name`].
pub fn first_physical_by_name(devices: &Vec<DeviceInfo>, excluded: Option<&str>) -> (r: Option<
    DeviceInfo,
>)
    ensures
        r == first_by_name(devices@, opt_str(excluded)),
{
    let mut best: Option<usize> = None;
    let mut i: usize = 0;
    while i < devices.len()
        invariant
            i <= devices@.len(),
            best is Some ==> best->0 < i,
            first_by_name(devices@.take(i as int), opt_str(excluded)) == (match best {
                Some(k) => Some(devices@[k as int]),
                None => None,
            }),
        decreases devices@.len() - i,
    {
        assert(devices@.take(i + 1).drop_last() =~= devices@.take(i as int));
        let barred: bool = match excluded {
            Some(id) => same_text(devices[i].id.as_str(), id),
            None => false,
        };
        if !devices[i].is_virtual && !barred {
            match best {
                None => {
                    best = Some(i);
                },
                Some(k) => {
                    let a = to_lowercase(devices[i].name.as_str());
                    let b = to_lowercase(devices[k].name.as_str());
                    let x = chars_of(a.as_str());
                    let y = chars_of(b.as_str());
                    if comes_before(x.as_slice(), y.as_slice()) {
                        best = Some(i);
                    }
                },
            }
        }
        i = i + 1;
    }
    assert(devices@.take(i as int) =~= devices@);
    match best {
        Some(k) => Some(devices[k].clone()),
        None => None,
    }
}

/// A device is chosen by name exactly where one is eligible; the chosen one is,
/// and no eligible one comes before it by its name in lower case.
pub proof fn lemma_first_by_name(devices: Seq<DeviceInfo>, excluded: Option<Seq<char>>)
    ensures
        first_by_name(devices, excluded) is Some == exists|i: int|
            0 <= i < devices.len() && eligible(#[trigger] devices[i], excluded),
        first_by_name(devices, excluded) is Some ==> eligible(
            first_by_name(devices, excluded)->0,
            excluded,
        ) && devices.contains(first_by_name(devices, excluded)->0),
        forall|i: int|
            0 <= i < devices.len() && eligible(#[trigger] devices[i], excluded) ==> !text_before(
                lowercase(devices[i].name@),
                lowercase(first_by_name(devices, excluded)->0.name@),
            ),
    decreases devices.len(),
{
    if devices.len() > 0 {
        let front = devices.drop_last();
        lemma_first_by_name(front, excluded);
        assert forall|i: int|
            0 <= i < devices.len() && eligible(#[trigger] devices[i], excluded) implies !text_before(
            lowercase(devices[i].name@),
            lowercase(first_by_name(devices, excluded)->0.name@),
        ) by {
            let x = lowercase(devices[i].name@);
            let z = lowercase(first_by_name(devices, excluded)->0.name@);
            lemma_text_order_total(x, z);
            if i < front.len() {
                assert(front[i] == devices[i]);
                let y = lowercase(first_by_name(front, excluded)->0.name@);
                lemma_text_order_total(x, y);
                lemma_text_order_total(y, z);
                if text_before(x, z) && text_before(z, y) {
                    lemma_text_order_transitive(x, z, y);
                }
            } else {
                assert(devices[i] == devices.last());
            }
        }
        if first_by_name(front, excluded) is Some {
            let k = choose|k: int|
                0 <= k < front.len() && front[k] == first_by_name(front, excluded)->0;
            assert(devices[k] == front[k]);
        }
        assert(devices[devices.len() - 1] == devices.last());
        assert forall|i: int|
            0 <= i < devices.len() && eligible(#[trigger] devices[i], excluded) implies first_by_name(
            devices,
            excluded,
        ) is Some by {
            if i < front.len() {
                assert(front[i] == devices[i]);
            }
        }
    }
}

/// The first eligible device in the order of a list.
pub open spec fn first_eligible(devices: Seq<DeviceInfo>, excluded: Option<Seq<char>>) -> Option<
    DeviceInfo,
>
    decreases devices.len(),
{
    if devices.len() == 0 {
        None
    } else {
        let before = first_eligible(devices.drop_last(), excluded);
        if before is None && eligible(devices.last(), excluded) {
            Some(devices.last())
        } else {
            before
        }
    }
}

/// Where no eligible device is a default, the one chosen by name is simply the
/// first eligible one in the list of render devices.
pub proof fn the_choice_by_name_is_the_first_listed(
    devices: Seq<DeviceInfo>,
    excluded: Option<Seq<char>>,
)
    requires
        is_ordered(devices),
        forall|i: int|
            0 <= i < devices.len() && eligible(#[trigger] devices[i], excluded)
                ==> !devices[i].is_default,
    ensures
        first_by_name(devices, excluded) == first_eligible(devices, excluded),
    decreases devices.len(),
{
    if devices.len() > 0 {
        let front = devices.drop_last();
        let last = devices.last();
        assert forall|i: int, j: int| 0 <= i < j < front.len() implies !front[j].ranks_before(
            &front[i],
        ) by {
            assert(front[i] == devices[i] && front[j] == devices[j]);
        }
        assert forall|i: int|
            0 <= i < front.len() && eligible(#[trigger] front[i], excluded) implies !front[i].is_default by {
            assert(front[i] == devices[i]);
        }
        the_choice_by_name_is_the_first_listed(front, excluded);
        lemma_first_by_name(front, excluded);
        if first_by_name(front, excluded) is Some && eligible(last, excluded) {
            let best = first_by_name(front, excluded)->0;
            let k = choose|k: int| 0 <= k < front.len() && front[k] == best;
            assert(devices[k] == best && devices[devices.len() - 1] == last);
            assert(!last.ranks_before(&best));
        }
    }
}

/// Whether the virtual card is currently installed and active.
pub fn virtual_device_present(devices: &Vec<DeviceInfo>) -> (r: bool)
    ensures
        r == (find_virtual(devices@) is Some),
        r == exists|i: int| 0 <= i < devices@.len() && (#[trigger] devices@[i]).is_virtual,
{
    proof {
        lemma_find_virtual(devices@);
    }
    find_virtual_device(devices).is_some()
}

/// A virtual card is found exactly where there is one.
pub proof fn lemma_find_virtual(devices: Seq<DeviceInfo>)
    ensures
        find_virtual(devices) is Some == exists|i: int|
            0 <= i < devices.len() && (#[trigger] devices[i]).is_virtual,
        find_virtual(devices) is Some ==> find_virtual(devices)->0.is_virtual && devices.contains(
            find_virtual(devices)->0,
        ),
    decreases devices.len(),
{
    if devices.len() > 0 && !devices[0].is_virtual {
        let rest = devices.drop_first();
        lemma_find_virtual(rest);
        if find_virtual(rest) is Some {
            let k = choose|k: int| 0 <= k < rest.len() && rest[k] == find_virtual(rest)->0;
            assert(devices[k + 1] == rest[k]);
        }
        assert forall|i: int| 0 <= i < devices.len() && (#[trigger] devices[i]).is_virtual implies
            find_virtual(devices) is Some by {
            assert(rest[i - 1] == devices[i]);
        }
    } else if devices.len() > 0 {
        assert(devices.contains(devices[0]));
    }
}

/// The roles that an endpoint can be the default for: console, multimedia and
/// communications.
pub const ROLE_COUNT: i32 = 3;

/// What to do next while making an endpoint the default.
#[derive(Debug, Clone, Copy, PartialEq, Eq, Structural)]
pub enum RoleStep {
    /// Make it the default for this role.
    Assign(i32),
    /// Every role has been set.
    Done,
    /// The system refused with this code.
    Failed(i32),
}

/// The next step while making an endpoint the default.
pub open spec fn role_step(done: i32, last: i32) -> RoleStep {
    if last < 0 {
        RoleStep::Failed(last)
    } else if done < 3 {
        RoleStep::Assign(done)
    } else {
        RoleStep::Done
    }
}

/// Makes an endpoint the default for every role, one after another; the first
/// refusal ends the attempt.
///
/// All three roles are set: leaving communications on the old device would
/// mean that voice applications keep bypassing the enhancer. `done` counts the
/// roles already set, `last` is the system's answer to the latest one.
pub fn set_default_device(done: i32, last: i32) -> (r: RoleStep)
    requires
        0 <= done <= 3,
    ensures
        r == role_step(done, last),
{
    if last < 0 {
        RoleStep::Failed(last)
    } else if done < ROLE_COUNT {
        RoleStep::Assign(done)
    } else {
        RoleStep::Done
    }
}

/// Whether restoring a default worked. A refusal is not an error: the device
/// may have disappeared since.
pub fn try_restore_default(outcome: RoleStep) -> (r: bool)
    ensures
        r == (outcome == RoleStep::Done),
{
    match outcome {
        RoleStep::Done => true,
        _ => false,
    }
}

// ---------------------------------------------------------------------------
// The apartment of a thread
// ---------------------------------------------------------------------------

/// `RPC_E_CHANGED_MODE`.
pub const RPC_E_CHANGED_MODE: i32 = -2147417850;

/// What a thread owes for having initialised COM.
///
/// Initialisation must be undone exactly as often as it succeeded. Where COM
/// was already there in the other apartment model the thread can use it, but
/// took no reference that it would have to give back.
#[derive(Debug, Clone, Copy, PartialEq, Eq, Structural)]
pub struct ComGuard {
    pub owns_initialisation: bool,
}

/// What an answer of `CoInitializeEx` comes to.
pub open spec fn apartment_of(hresult: i32) -> Result<ComGuard, i32> {
    if hresult >= 0 {
        Ok::<ComGuard, i32>(ComGuard { owns_initialisation: true })
    } else if hresult == -2147417850 {
        Ok(ComGuard { owns_initialisation: false })
    } else {
        Err(hresult)
    }
}

impl ComGuard {
    /// Judges the answer of `CoInitializeEx`.
    pub fn init(hresult: i32) -> (r: Result<ComGuard, i32>)
        ensures
            r == apartment_of(hresult),
    {
        if hresult >= 0 {
            Ok(ComGuard { owns_initialisation: true })
        } else if hresult == RPC_E_CHANGED_MODE {
            Ok(ComGuard { owns_initialisation: false })
        } else {
            Err(hresult)
        }
    }
}

// ---------------------------------------------------------------------------
// Change notification
// ---------------------------------------------------------------------------

/// Something happened to the audio devices.
#[derive(Debug, PartialEq, Eq)]
pub enum DeviceEvent {
    /// A different endpoint became the default for a render role.
    DefaultChanged { endpoint_id: Option<String> },
    /// An endpoint was added, removed, enabled, disabled or unplugged.
    StateChanged { endpoint_id: Option<String> },
    /// A property of an endpoint changed (usually its name).
    PropertyChanged { endpoint_id: Option<String> },
}

impl DeviceEvent {
    /// Whether this event should make the engine re-evaluate its endpoints.
    ///
    /// Property changes are excluded: renaming a device is no reason to
    /// rebuild the audio graph.
    pub fn requires_rebuild(&self) -> (r: bool)
        ensures
            r == !(self is PropertyChanged),
    {
        match self {
            DeviceEvent::DefaultChanged { .. } => true,
            DeviceEvent::StateChanged { .. } => true,
            DeviceEvent::PropertyChanged { .. } => false,
        }
    }
}

/// The callbacks that Windows makes.
#[derive(Debug, Clone, Copy, PartialEq, Eq, Structural)]
pub enum Notification {
    DeviceStateChanged,
    DeviceAdded,
    DeviceRemoved,
    /// With whether the change was on the render side.
    DefaultDeviceChanged { render: bool },
    PropertyValueChanged,
}

/// An id that is missing or empty is none.
pub open spec fn narrowed(id: Option<Seq<char>>) -> Option<Seq<char>> {
    match id {
        Some(s) => if s.len() == 0 {
            None
        } else {
            Some(s)
        },
        None => None,
    }
}

/// Reads the id that a callback hands over.
pub fn narrow_id(id: Option<String>) -> (r: Option<String>)
    ensures
        opt_text(r) == narrowed(opt_text(id)),
{
    match id {
        Some(s) => if s.as_str().is_empty() {
            None
        } else {
            Some(s)
        },
        None => None,
    }
}

/// The event that a callback stands for. Changes on the capture side cannot
/// break the graph and are dropped.
pub fn event_of(notification: Notification, id: Option<String>) -> (r: Option<DeviceEvent>)
    ensures
        (match (notification, r) {
            (Notification::DefaultDeviceChanged { render }, _) if !render => r is None,
            (
                Notification::DefaultDeviceChanged { .. },
                Some(DeviceEvent::DefaultChanged { endpoint_id }),
            ) => opt_text(endpoint_id) == narrowed(opt_text(id)),
            (
                Notification::PropertyValueChanged,
                Some(DeviceEvent::PropertyChanged { endpoint_id }),
            ) => opt_text(endpoint_id) == narrowed(opt_text(id)),
            (
                Notification::DeviceStateChanged
                | Notification::DeviceAdded
                | Notification::DeviceRemoved,
                Some(DeviceEvent::StateChanged { endpoint_id }),
            ) => opt_text(endpoint_id) == narrowed(opt_text(id)),
            _ => false,
        }),
{
    match notification {
        Notification::DefaultDeviceChanged { render } => if render {
            Some(DeviceEvent::DefaultChanged { endpoint_id: narrow_id(id) })
        } else {
            None
        },
        Notification::PropertyValueChanged => Some(
            DeviceEvent::PropertyChanged { endpoint_id: narrow_id(id) },
        ),
        _ => Some(DeviceEvent::StateChanged { endpoint_id: narrow_id(id) }),
    }
}

// ---------------------------------------------------------------------------
// What holds of devices
// ---------------------------------------------------------------------------

/// A device is found by its id wherever it stands: the first that has it.
pub proof fn a_device_is_found_by_its_id(devices: Seq<DeviceInfo>, id: Seq<char>, k: int)
    requires
        0 <= k < devices.len(),
        devices[k].id@ == id,
        forall|j: int| 0 <= j < k ==> (#[trigger] devices[j]).id@ != id,
    ensures
        find_by_id(devices, id) == Some(devices[k]),
    decreases devices.len(),
{
    if k > 0 {
        let rest = devices.drop_first();
        assert(devices[0].id@ != id);
        assert forall|j: int| 0 <= j < k - 1 implies (#[trigger] rest[j]).id@ != id by {
            assert(rest[j] == devices[j + 1]);
        }
        a_device_is_found_by_its_id(rest, id, k - 1);
    }
}

/// What is found by an id has it, is the first that does, and nothing is found
/// exactly where no device has it.
pub proof fn lemma_find_by_id(devices: Seq<DeviceInfo>, id: Seq<char>)
    ensures
        find_by_id(devices, id) is None == (forall|j: int|
            0 <= j < devices.len() ==> (#[trigger] devices[j]).id@ != id),
        find_by_id(devices, id) is Some ==> find_by_id(devices, id)->0.id@ == id && exists|k: int|
            0 <= k < devices.len() && devices[k] == find_by_id(devices, id)->0 && forall|j: int|
                0 <= j < k ==> (#[trigger] devices[j]).id@ != id,
    decreases devices.len(),
{
    if devices.len() > 0 && devices[0].id@ != id {
        let rest = devices.drop_first();
        lemma_find_by_id(rest, id);
        if find_by_id(rest, id) is Some {
            let k = choose|k: int|
                0 <= k < rest.len() && rest[k] == find_by_id(rest, id)->0 && forall|j: int|
                    0 <= j < k ==> (#[trigger] rest[j]).id@ != id;
            assert(devices[k + 1] == rest[k]);
            assert forall|j: int| 0 <= j < k + 1 implies (#[trigger] devices[j]).id@ != id by {
                if j > 0 {
                    assert(rest[j - 1] == devices[j]);
                }
            }
        } else {
            assert forall|j: int| 0 <= j < devices.len() implies (#[trigger] devices[j]).id@
                != id by {
                if j > 0 {
                    assert(rest[j - 1] == devices[j]);
                }
            }
        }
    } else if devices.len() > 0 {
        assert(devices[0].id@ == id);
    }
}

/// The virtual card that is found is the first in the list.
pub proof fn the_first_card_is_found(devices: Seq<DeviceInfo>, k: int)
    requires
        0 <= k < devices.len(),
        devices[k].is_virtual,
        forall|j: int| 0 <= j < k ==> !(#[trigger] devices[j]).is_virtual,
    ensures
        find_virtual(devices) == Some(devices[k]),
    decreases devices.len(),
{
    if k > 0 {
        let rest = devices.drop_first();
        assert(!devices[0].is_virtual);
        assert forall|j: int| 0 <= j < k - 1 implies !(#[trigger] rest[j]).is_virtual by {
            assert(rest[j] == devices[j + 1]);
        }
        the_first_card_is_found(rest, k - 1);
    }
}

/// The physical device that is found is the first in the list, and there is
/// none only where all are virtual.
pub proof fn the_first_physical_device_is_found(devices: Seq<DeviceInfo>, k: int)
    requires
        0 <= k <= devices.len(),
        k < devices.len() ==> !devices[k].is_virtual,
        forall|j: int| 0 <= j < k ==> (#[trigger] devices[j]).is_virtual,
    ensures
        find_physical(devices) == (if k < devices.len() {
            Some(devices[k])
        } else {
            None
        }),
    decreases devices.len(),
{
    if k > 0 {
        let rest = devices.drop_first();
        assert(devices[0].is_virtual);
        assert forall|j: int| 0 <= j < k - 1 implies (#[trigger] rest[j]).is_virtual by {
            assert(rest[j] == devices[j + 1]);
        }
        the_first_physical_device_is_found(rest, k - 1);
    }
}

/// The lowest of the four bits of a mask decides the state; without any, it is
/// unknown.
pub proof fn the_lowest_bit_decides(raw: u32)
    ensures
        raw % 2 == 1 ==> state_of_mask(raw) == DeviceState::Active,
        raw % 4 == 2 ==> state_of_mask(raw) == DeviceState::Disabled,
        raw % 8 == 4 ==> state_of_mask(raw) == DeviceState::NotPresent,
        raw % 16 == 8 ==> state_of_mask(raw) == DeviceState::Unplugged,
        raw % 16 == 0 ==> state_of_mask(raw) == DeviceState::Unknown,
{
    assert((raw & 1 != 0) == (raw % 2 == 1)) by (bit_vector);
    assert((raw & 2 != 0) == (raw % 4 >= 2)) by (bit_vector);
    assert((raw & 4 != 0) == (raw % 8 >= 4)) by (bit_vector);
    assert((raw & 8 != 0) == (raw % 16 >= 8)) by (bit_vector);
    assert((raw % 16) % 2 == raw % 2 && (raw % 16) % 4 == raw % 4 && (raw % 16) % 8 == raw % 8)
        by (bit_vector);
}

/// No two states are told by the same word.
pub proof fn states_are_told_apart(a: DeviceState, b: DeviceState)
    ensures
        state_word(a) == state_word(b) ==> a == b,
{
    reveal_strlit("active");
    reveal_strlit("disabled");
    reveal_strlit("not-present");
    reveal_strlit("unplugged");
    reveal_strlit("unknown");
    assert(state_word(DeviceState::Active).len() == 6);
    assert(state_word(DeviceState::Disabled).len() == 8);
    assert(state_word(DeviceState::NotPresent).len() == 11);
    assert(state_word(DeviceState::Unplugged).len() == 9);
    assert(state_word(DeviceState::Unknown).len() == 7);
}

/// A device is shown by its name, with the adapter in brackets behind it
/// exactly where there is one that the name does not mention.
pub proof fn a_device_is_shown_by_name(name: Seq<char>, adapter: Seq<char>)
    ensures
        display_text(name, None) == name,
        crate::text::starts_with(display_text(name, Some(adapter)), name),
        occurs(display_text(name, Some(adapter)), adapter),
        adapter.len() > 0 && !occurs(name, adapter) ==> display_text(name, Some(adapter)).len()
            == name.len() + adapter.len() + 3,
        adapter.len() == 0 || occurs(name, adapter) ==> display_text(name, Some(adapter)) == name,
{
    reveal_strlit(" (");
    reveal_strlit(")");
    let shown = display_text(name, Some(adapter));
    if adapter.len() > 0 && !occurs(name, adapter) {
        assert(shown =~= name + (" ("@ + adapter + ")"@));
        assert(shown =~= (name + " ("@) + adapter + ")"@);
        crate::text::a_part_occurs(Seq::empty(), name, " ("@ + adapter + ")"@);
        crate::text::a_part_occurs(name + " ("@, adapter, ")"@);
    } else {
        crate::text::a_part_occurs(Seq::empty(), name, Seq::empty());
        assert(name + Seq::<char>::empty() =~= name);
        if adapter.len() == 0 {
            assert(name.subrange(0, 0) =~= adapter);
            assert(crate::text::occurs_at(name, adapter, 0));
        }
    }
}

/// A name that mentions the card is marked, in whatever case and wherever it
/// mentions it; and what is marked does not depend on case.
pub proof fn the_card_is_recognised(a: Seq<char>, b: Seq<char>, name: Seq<char>, upper: Seq<char>)
    requires
        crate::text::same_ignoring_case(name, upper),
    ensures
        is_marked(a + "fxsound"@ + b),
        is_marked(a + "fxvad"@ + b),
        is_marked(a + "audio enhancer"@ + b),
        is_marked(name) == is_marked(upper),
        name.len() < 5 ==> !is_marked(name),
{
    reveal_strlit("fxsound");
    reveal_strlit("fxvad");
    reveal_strlit("audio enhancer");
    let x = ascii_lower(a);
    let y = ascii_lower(b);
    assert(ascii_lower(a + "fxsound"@ + b) =~= x + "fxsound"@ + y);
    assert(ascii_lower(a + "fxvad"@ + b) =~= x + "fxvad"@ + y);
    assert(ascii_lower(a + "audio enhancer"@ + b) =~= x + "audio enhancer"@ + y);
    crate::text::a_part_occurs(x, "fxsound"@, y);
    crate::text::a_part_occurs(x, "fxvad"@, y);
    crate::text::a_part_occurs(x, "audio enhancer"@, y);
}

/// A property that is clean is taken as it is; one that is missing, or made of
/// white space alone, is none.
pub proof fn clean_properties_stay(s: Seq<char>)
    ensures
        property_text(None) is None,
        s.len() > 0 && !crate::text::is_white(s[0]) && !crate::text::is_white(s.last()) && s[0]
            != '\0' && s.last() != '\0' ==> property_text(Some(s)) == Some(s),
        s.len() == 0 ==> property_text(Some(s)) is None,
        property_text(Some(s)) is Some ==> property_text(Some(s))->0.len() > 0,
{
    crate::text::trimming_of_takes_one_character_only(s, '\0');
    if s.len() > 0 && s[0] != '\0' && s.last() != '\0' {
        let t = trim_start_of(s, '\0');
        assert(t == s);
        assert(trim_end_of(s, '\0') == s);
        if !crate::text::is_white(s[0]) && !crate::text::is_white(s.last()) {
            crate::text::trimmed_text_stays(s);
        }
    }
}

/// A device is what Windows reports: the id as it is, the friendly name where
/// there is one and else the description, the state that the mask gives, a
/// default exactly if it is among the defaults, and virtual exactly if its name
/// or its adapter mentions the card.
pub proof fn a_device_is_what_is_reported(d: DeviceInfo, raw: RawEndpoint, ids: Seq<String>)
    requires
        describes(d, raw, ids),
    ensures
        raw.id is Some && d.id@ == raw.id->0@,
        property_text(opt_text(raw.friendly_name)) is Some ==> Some(d.name@) == property_text(
            opt_text(raw.friendly_name),
        ),
        property_text(opt_text(raw.friendly_name)) is None && property_text(
            opt_text(raw.description),
        ) is Some ==> Some(d.name@) == property_text(opt_text(raw.description)),
        opt_text(d.adapter) == property_text(opt_text(raw.adapter)),
        raw.state is Some ==> d.state == state_of_mask(raw.state->0),
        raw.state is None ==> d.state == DeviceState::Unknown,
        forall|i: int| 0 <= i < ids.len() && (#[trigger] ids[i])@ == d.id@ ==> d.is_default,
        (forall|i: int| 0 <= i < ids.len() ==> (#[trigger] ids[i])@ != d.id@) ==> !d.is_default,
        is_marked(d.name@) ==> d.is_virtual,
        d.adapter is Some && is_marked(d.adapter->0@) ==> d.is_virtual,
        !is_marked(d.name@) && (d.adapter is Some ==> !is_marked(d.adapter->0@)) ==> !d.is_virtual,
{
}

/// In the list of render devices the defaults come first, then the virtual
/// cards, then the rest, and within each of these the names are in order.
pub proof fn render_devices_are_in_order(collected: Seq<DeviceInfo>, i: int, j: int)
    requires
        0 <= i < j < by_rank(collected).len(),
    ensures
        ({
            let a = by_rank(collected)[i];
            let b = by_rank(collected)[j];
            &&& b.is_default ==> a.is_default
            &&& a.is_default == b.is_default && b.is_virtual ==> a.is_virtual
            &&& a.is_default == b.is_default && a.is_virtual == b.is_virtual ==> !text_before(
                lowercase(b.name@),
                lowercase(a.name@),
            )
        }),
        by_rank(collected).to_multiset() == collected.to_multiset(),
{
    crate::sort::sorting_orders(collected);
    assert(!by_rank(collected)[j].ranks_before(&by_rank(collected)[i]));
}

/// Making an endpoint the default sets each of the three roles in turn, stops at
/// the first refusal with its code, and is done only when all have been set.
pub proof fn every_role_is_set(done: i32, last: i32)
    requires
        0 <= done <= 3,
    ensures
        last < 0 ==> role_step(done, last) == RoleStep::Failed(last),
        last >= 0 && done < 3 ==> role_step(done, last) == RoleStep::Assign(done),
        last >= 0 && done == 3 ==> role_step(done, last) == RoleStep::Done,
{
}

/// A thread undoes the initialisation of COM exactly if it succeeded, and can
/// use COM also where that was there in the other model.
pub proof fn only_success_is_undone(hresult: i32)
    ensures
        apartment_of(hresult) is Ok && apartment_of(hresult)->Ok_0.owns_initialisation == (hresult
            >= 0) || hresult < 0,
        hresult < 0 && hresult != RPC_E_CHANGED_MODE ==> apartment_of(hresult) == Err::<
            ComGuard,
            i32,
        >(hresult),
        apartment_of(RPC_E_CHANGED_MODE) is Ok && !apartment_of(
            RPC_E_CHANGED_MODE,
        )->Ok_0.owns_initialisation,
{
}

/// An id that says something is kept, and an empty one is none.
pub proof fn ids_that_say_something_are_kept(id: Seq<char>)
    ensures
        id.len() > 0 ==> narrowed(Some(id)) == Some(id),
        id.len() == 0 ==> narrowed(Some(id)) is None,
        narrowed(None) is None,
{
}

} // verus!
