//! The read-only reports: what they say of devices, the driver, presets, rules
//! and sessions.

use crate::device::{
    device_by_id, display_text, find_by_id, lemma_find_by_id, state_word, DeviceInfo, DeviceState,
};
use crate::driver::{status_summary, DriverStatus};
use crate::engine::EngineStatus;
use crate::float;
use crate::preset::{embedded_count, summary_text, FacPreset, PresetEntry};
use crate::process::{storage_text, AppKey};
use crate::router::{RouteMethod, RouteRule, RouteTarget};
use crate::routing::on_card;
use crate::session::{Session, SessionState};
use crate::sort::{by_rank, sort_by_rank, sorting_orders, Ranked};
use crate::text::{
    chars_of, comes_before, decimal, ends_with, lemma_text_order_total, lemma_text_order_transitive,
    lowercase, opt_str, opt_text, same_text, string_of, text_before, texts, to_decimal, to_lowercase,
};
use vstd::prelude::*;
use vstd::slice::slice_subrange;
use vstd::string::*;

verus! {

// ---------------------------------------------------------------------------
// Columns
// ---------------------------------------------------------------------------

pub open spec fn spaces(n: int) -> Seq<char> {
    Seq::new(
        (if n > 0 {
            n
        } else {
            0
        }) as nat,
        |i: int| ' ',
    )
}

/// A text made at least so wide by spaces behind it.
pub open spec fn padded(s: Seq<char>, width: int) -> Seq<char> {
    s + spaces(width - s.len())
}

/// A text made at least so wide by spaces in front of it.
pub open spec fn right_aligned(s: Seq<char>, width: int) -> Seq<char> {
    spaces(width - s.len()) + s
}

/// A text cut to so many characters, the last of which then is an ellipsis.
pub open spec fn elided(s: Seq<char>, width: int) -> Seq<char> {
    if s.len() <= width {
        s
    } else {
        s.take(
            if width > 0 {
                width - 1
            } else {
                0
            },
        ).push('…')
    }
}

fn push_spaces(out: &mut String, n: usize)
    ensures
        final(out)@ == old(out)@ + spaces(n as int),
{
    let mut i: usize = 0;
    assert(out@ =~= old(out)@ + spaces(0));
    while i < n
        invariant
            i <= n,
            out@ == old(out)@ + spaces(i as int),
        decreases n - i,
    {
        out.push(' ');
        assert(out@ =~= old(out)@ + spaces(i + 1));
        i = i + 1;
    }
}

/// Executable [`padded`].
pub fn pad(s: &str, width: usize) -> (r: String)
    ensures
        r@ == padded(s@, width as int),
{
    let count: usize = chars_of(s).len();
    let mut out: String = s.to_owned();
    if count < width {
        push_spaces(&mut out, width - count);
    } else {
        assert(spaces(width - s@.len()) =~= Seq::empty());
        assert(out@ =~= padded(s@, width as int));
    }
    out
}

/// Executable [`right_aligned`].
pub fn align_right(s: &str, width: usize) -> (r: String)
    ensures
        r@ == right_aligned(s@, width as int),
{
    let count: usize = chars_of(s).len();
    let mut out: String = String::new();
    if count < width {
        push_spaces(&mut out, width - count);
        assert(out@ =~= spaces(width - s@.len()));
    } else {
        assert(spaces(width - s@.len()) =~= out@);
    }
    out.append(s);
    out
}

/// Shortens a label to `width` characters.
///
/// Counts characters rather than bytes, so that a Chinese name is not cut into
/// pieces.
pub fn trim(text: &str, width: usize) -> (r: String)
    ensures
        r@ == elided(text@, width as int),
{
    let chars = chars_of(text);
    if chars.len() <= width {
        return text.to_owned();
    }
    let keep: usize = if width > 0 {
        width - 1
    } else {
        0
    };
    let front = slice_subrange(chars.as_slice(), 0, keep);
    let mut out = string_of(front);
    out.push('…');
    assert(front@ =~= text@.take(keep as int));
    out
}

pub open spec fn yes_no_text(value: bool) -> Seq<char> {
    if value {
        "yes"@
    } else {
        "no"@
    }
}

pub fn yes_no(value: bool) -> (r: &'static str)
    ensures
        r@ == yes_no_text(value),
{
    if value {
        "yes"
    } else {
        "no"
    }
}

// ---------------------------------------------------------------------------
// Devices
// ---------------------------------------------------------------------------

/// The marker of a device: a star for the default, a V for the virtual card.
pub open spec fn marker_text(is_default: bool, is_virtual: bool) -> Seq<char> {
    if is_default {
        if is_virtual {
            "*V"@
        } else {
            "* "@
        }
    } else if is_virtual {
        " V"@
    } else {
        "  "@
    }
}

pub fn device_marker(info: &DeviceInfo) -> (r: &'static str)
    ensures
        r@ == marker_text(info.is_default, info.is_virtual),
{
    match (info.is_default, info.is_virtual) {
        (true, true) => "*V",
        (true, false) => "* ",
        (false, true) => " V",
        (false, false) => "  ",
    }
}

/// What is said of a device in brackets.
pub open spec fn tag_list(info: DeviceInfo) -> Seq<Seq<char>> {
    (if info.is_default {
        seq!["default"@]
    } else {
        Seq::empty()
    }) + (if info.is_virtual {
        seq!["VIRTUAL CARD"@]
    } else {
        Seq::empty()
    }) + (if info.state != DeviceState::Active {
        seq!["inactive"@]
    } else {
        Seq::empty()
    })
}

/// Words separated by commas.
pub open spec fn with_commas(words: Seq<Seq<char>>) -> Seq<char>
    decreases words.len(),
{
    if words.len() == 0 {
        Seq::empty()
    } else if words.len() == 1 {
        words[0]
    } else {
        with_commas(words.drop_last()) + ", "@ + words.last()
    }
}

/// The tag of a device.
pub open spec fn tag_text(info: DeviceInfo) -> Seq<char> {
    if tag_list(info).len() == 0 {
        Seq::empty()
    } else {
        "  ["@ + with_commas(tag_list(info)) + "]"@
    }
}

fn device_tag(info: &DeviceInfo) -> (r: String)
    ensures
        r@ == tag_text(*info),
{
    let mut words: Vec<&'static str> = Vec::new();
    if info.is_default {
        words.push("default");
    }
    if info.is_virtual {
        words.push("VIRTUAL CARD");
    }
    match info.state {
        DeviceState::Active => {},
        _ => {
            words.push("inactive");
        },
    }
    let ghost list = tag_list(*info);
    assert(words@.len() == list.len());
    assert(forall|i: int| 0 <= i < list.len() ==> words@[i]@ == #[trigger] list[i]);
    if words.len() == 0 {
        return String::new();
    }
    let mut joined: String = String::new();
    let mut i: usize = 0;
    while i < words.len()
        invariant
            i <= words@.len() == list.len(),
            forall|k: int| 0 <= k < list.len() ==> words@[k]@ == #[trigger] list[k],
            joined@ == with_commas(list.take(i as int)),
        decreases words@.len() - i,
    {
        assert(list.take(i + 1).drop_last() =~= list.take(i as int));
        assert(list.take(i + 1).last() == list[i as int]);
        if i > 0 {
            joined.append(", ");
        }
        joined.append(words[i]);
        assert(i == 0 ==> joined@ =~= list[0]);
        i = i + 1;
    }
    assert(list.take(i as int) =~= list);
    let mut out: String = "  [".to_owned();
    out.append(joined.as_str());
    out.append("]");
    out
}

/// The two lines for each device: its name and tag, and its id.
pub open spec fn device_lines(devices: Seq<DeviceInfo>) -> Seq<Seq<char>>
    decreases devices.len(),
{
    if devices.len() == 0 {
        Seq::empty()
    } else {
        let info = devices.last();
        device_lines(devices.drop_last()) + seq![
            "  "@ + display_text(info.name@, opt_text(info.adapter)) + tag_text(info),
            "      "@ + info.id@,
        ]
    }
}

/// The report on the active endpoints, of `all` that there are.
pub open spec fn endpoint_report(
    devices: Result<Vec<DeviceInfo>, String>,
    all: Option<usize>,
) -> Seq<Seq<char>> {
    match devices {
        Err(err) => seq!["  enumeration failed: "@ + err@],
        Ok(list) => if list@.len() == 0 {
            seq!["  (none)"@]
        } else {
            device_lines(list@) + (if all is Some && all->0 > list@.len() {
                seq![
                    "  (+"@ + decimal((all->0 - list@.len()) as nat)
                        + " disabled/unplugged endpoint(s) not listed)"@,
                ]
            } else {
                Seq::empty()
            })
        },
    }
}

fn joined2(a: &str, b: &str) -> (r: String)
    ensures
        r@ == a@ + b@,
{
    let mut out: String = a.to_owned();
    out.append(b);
    out
}

/// Lists every active render endpoint and marks the default and the virtual
/// card.
pub fn report_devices(devices: &Result<Vec<DeviceInfo>, String>, all: Option<usize>) -> (r: Vec<
    String,
>)
    ensures
        texts(r@) == endpoint_report(*devices, all),
{
    let mut out: Vec<String> = Vec::new();
    match devices {
        Err(err) => {
            out.push(joined2("  enumeration failed: ", err.as_str()));
            assert(texts(out@) =~= endpoint_report(*devices, all));
        },
        Ok(list) => {
            if list.len() == 0 {
                out.push("  (none)".to_owned());
                assert(texts(out@) =~= endpoint_report(*devices, all));
                return out;
            }
            let mut i: usize = 0;
            assert(texts(out@) =~= device_lines(list@.take(0)));
            while i < list.len()
                invariant
                    i <= list@.len(),
                    texts(out@) == device_lines(list@.take(i as int)),
                decreases list@.len() - i,
            {
                let ghost before = texts(out@);
                let mut line: String = "  ".to_owned();
                let shown = list[i].display();
                let tag = device_tag(&list[i]);
                line.append(shown.as_str());
                line.append(tag.as_str());
                let id_line = joined2("      ", list[i].id.as_str());
                out.push(line);
                out.push(id_line);
                proof {
                    assert(list@.take(i + 1).drop_last() =~= list@.take(i as int));
                    assert(texts(out@) =~= before + seq![line@, id_line@]);
                }
                i = i + 1;
            }
            assert(list@.take(i as int) =~= list@);
            let ghost rows = texts(out@);
            if let Some(count) = all {
                if count > list.len() {
                    let mut line: String = "  (+".to_owned();
                    let number = to_decimal((count - list.len()) as u64);
                    line.append(number.as_str());
                    line.append(" disabled/unplugged endpoint(s) not listed)");
                    out.push(line);
                    assert(texts(out@) =~= rows + seq![line@]);
                    return out;
                }
            }
            assert(rows + Seq::<Seq<char>>::empty() =~= rows);
        },
    }
    out
}

/// The line for an endpoint of whatever state.
pub fn endpoint_line(info: &DeviceInfo) -> (r: String)
    ensures
        r@ == "  "@ + marker_text(info.is_default, info.is_virtual) + " ["@ + state_word(info.state)
            + "] "@ + info.name@,
{
    let mut out: String = "  ".to_owned();
    out.append(device_marker(info));
    out.append(" [");
    out.append(info.state.label());
    out.append("] ");
    out.append(info.name.as_str());
    out
}

/// Levels in words: the volume and the peak in percent, as numbers.
#[derive(Debug)]
pub struct ShownLevels {
    pub volume: String,
    pub muted: bool,
    pub peak: String,
}

/// The columns that show levels.
pub open spec fn level_columns(volume: Seq<char>, muted: bool, peak: Seq<char>) -> Seq<char> {
    "vol "@ + right_aligned(volume, 3) + "%"@ + (if muted {
        "  MUTED"@
    } else {
        "       "@
    }) + "  peak "@ + right_aligned(peak, 5) + "%"@
}

fn show_levels(volume: &str, muted: bool, peak: &str) -> (r: String)
    ensures
        r@ == level_columns(volume@, muted, peak@),
{
    let mut out: String = "vol ".to_owned();
    let volume_column = align_right(volume, 3);
    out.append(volume_column.as_str());
    out.append("%");
    if muted {
        out.append("  MUTED");
    } else {
        out.append("       ");
    }
    out.append("  peak ");
    let peak_column = align_right(peak, 5);
    out.append(peak_column.as_str());
    out.append("%");
    out
}

/// The line for an output. One that opens but has no volume interface is a row
/// without levels rather than a failure.
pub open spec fn output_text(info: DeviceInfo, levels: Option<ShownLevels>) -> Seq<char> {
    if info.state != DeviceState::Active {
        "   (inactive) "@ + info.name@
    } else {
        "  "@ + marker_text(info.is_default, info.is_virtual) + " "@ + padded(
            elided(info.name@, 40),
            40,
        ) + " "@ + (match levels {
            Some(shown) => level_columns(shown.volume@, shown.muted, shown.peak@),
            None => "(no volume interface)"@,
        })
    }
}

/// Executable [`output_text`].
pub fn output_line(info: &DeviceInfo, levels: &Option<ShownLevels>) -> (r: String)
    ensures
        r@ == output_text(*info, *levels),
{
    match info.state {
        DeviceState::Active => {},
        _ => {
            return joined2("   (inactive) ", info.name.as_str());
        },
    }
    let mut out: String = "  ".to_owned();
    out.append(device_marker(info));
    out.append(" ");
    let short = trim(info.name.as_str(), 40);
    let name = pad(short.as_str(), 40);
    out.append(name.as_str());
    out.append(" ");
    match levels {
        Some(shown) => {
            let columns = show_levels(shown.volume.as_str(), shown.muted, shown.peak.as_str());
            out.append(columns.as_str());
        },
        None => {
            out.append("(no volume interface)");
        },
    }
    out
}

/// The report on the outputs.
pub open spec fn output_report(
    devices: Result<Vec<DeviceInfo>, String>,
    levels: Seq<Option<ShownLevels>>,
) -> Seq<Seq<char>> {
    match devices {
        Err(err) => seq!["  enumeration failed: "@ + err@],
        Ok(list) => if list@.len() == 0 {
            seq!["  (none)"@]
        } else {
            Seq::new(list@.len(), |i: int| output_text(list@[i], levels[i]))
        },
    }
}

/// Reports the outputs, each with its levels.
pub fn report_outputs(
    devices: &Result<Vec<DeviceInfo>, String>,
    levels: &Vec<Option<ShownLevels>>,
) -> (r: Vec<String>)
    requires
        devices is Ok ==> levels@.len() == devices->Ok_0@.len(),
    ensures
        texts(r@) == output_report(*devices, levels@),
{
    let mut out: Vec<String> = Vec::new();
    match devices {
        Err(err) => {
            out.push(joined2("  enumeration failed: ", err.as_str()));
            assert(texts(out@) =~= seq!["  enumeration failed: "@ + err@]);
        },
        Ok(list) => {
            if list.len() == 0 {
                out.push("  (none)".to_owned());
                assert(texts(out@) =~= seq!["  (none)"@]);
                return out;
            }
            let mut i: usize = 0;
            while i < list.len()
                invariant
                    i <= list@.len() == levels@.len(),
                    out@.len() == i,
                    forall|k: int|
                        0 <= k < i ==> (#[trigger] out@[k])@ == output_text(list@[k], levels@[k]),
                decreases list@.len() - i,
            {
                out.push(output_line(&list[i], &levels[i]));
                i = i + 1;
            }
            assert(texts(out@) =~= Seq::new(
                list@.len(),
                |i: int| output_text(list@[i], levels@[i]),
            ));
        },
    }
    out
}

// ---------------------------------------------------------------------------
// The driver
// ---------------------------------------------------------------------------

/// The report on the driver.
pub open spec fn driver_report(
    status: DriverStatus,
    elevated: bool,
    published: Option<String>,
) -> Seq<Seq<char>> {
    seq![
        "  state      : "@ + status_summary(
            status.package_staged,
            status.device_present,
            status.endpoint_active,
        ),
        "  package    : "@ + yes_no_text(status.package_staged),
        "  device node: "@ + yes_no_text(status.device_present),
        "  endpoint   : "@ + yes_no_text(status.endpoint_active),
        "  elevated   : "@ + yes_no_text(elevated),
        (match status.source_dir {
            Some(dir) => "  files      : "@ + dir@,
            None => "  files      : not found next to the executable"@,
        }),
    ] + (match published {
        Some(name) => seq!["  staged as  : "@ + name@],
        None => Seq::empty(),
    })
}

/// Reports what the driver layer can see.
pub fn report_driver(status: &DriverStatus, elevated: bool, published: &Option<String>) -> (r: Vec<
    String,
>)
    ensures
        texts(r@) == driver_report(*status, elevated, *published),
{
    let mut out: Vec<String> = Vec::new();
    let summary = status.summary();
    out.push(joined2("  state      : ", summary.as_str()));
    out.push(joined2("  package    : ", yes_no(status.package_staged)));
    out.push(joined2("  device node: ", yes_no(status.device_present)));
    out.push(joined2("  endpoint   : ", yes_no(status.endpoint_active)));
    out.push(joined2("  elevated   : ", yes_no(elevated)));
    match &status.source_dir {
        Some(dir) => {
            out.push(joined2("  files      : ", dir.as_str()));
        },
        None => {
            out.push("  files      : not found next to the executable".to_owned());
        },
    }
    if let Some(name) = published {
        out.push(joined2("  staged as  : ", name.as_str()));
    }
    assert(texts(out@) =~= driver_report(*status, elevated, *published));
    out
}

// ---------------------------------------------------------------------------
// Presets
// ---------------------------------------------------------------------------

/// Parsed presets stand by display name, whatever its case.
impl Ranked for FacPreset {
    open spec fn ranks_before(&self, other: &Self) -> bool {
        text_before(lowercase(self.name@), lowercase(other.name@))
    }

    proof fn rank_laws(a: Self, b: Self, c: Self) {
        let x = lowercase(a.name@);
        let y = lowercase(b.name@);
        let z = lowercase(c.name@);
        lemma_text_order_total(x, y);
        lemma_text_order_total(y, z);
        lemma_text_order_total(x, z);
        if text_before(x, z) && text_before(z, y) {
            lemma_text_order_transitive(x, z, y);
        }
    }

    fn before(&self, other: &Self) -> (r: bool) {
        let a = to_lowercase(self.name.as_str());
        let b = to_lowercase(other.name.as_str());
        let x = chars_of(a.as_str());
        let y = chars_of(b.as_str());
        comes_before(x.as_slice(), y.as_slice())
    }
}

/// Most presets that are listed.
pub const LISTED_PRESETS: usize = 30;

/// The row of a preset: its name, its number of bands and its effect levels.
pub open spec fn preset_row(p: FacPreset) -> Seq<char> {
    "  "@ + padded(p.name@, 20) + " "@ + right_aligned(decimal(p.bands@.len()), 2) + " band(s)  "@
        + summary_text(p.mains@, 6)
}

fn show_preset(p: &FacPreset) -> (r: String)
    ensures
        r@ == preset_row(*p),
{
    let mut out: String = "  ".to_owned();
    let name = pad(p.name.as_str(), 20);
    out.append(name.as_str());
    out.append(" ");
    let number = to_decimal(p.bands.len() as u64);
    let count = align_right(number.as_str(), 2);
    out.append(count.as_str());
    out.append(" band(s)  ");
    let summary = p.effect_summary();
    out.append(summary.as_str());
    out
}

/// The row of a listed preset that was read again, or could not be.
pub open spec fn entry_row(entry: PresetEntry, parsed: Result<FacPreset, String>) -> Seq<char> {
    match parsed {
        Ok(p) => preset_row(p),
        Err(err) => "  "@ + padded(entry.name@, 20) + " unreadable: "@ + err@,
    }
}

/// The map from slots to effects, in words.
pub open spec fn slot_map_line() -> Seq<char> {
    "  slot map   : Ambience->1 Bass->4 DynamicBoost->3 Fidelity->0 Surround->2"@
}

/// The smaller of two numbers.
pub open spec fn at_most(n: int, limit: int) -> int {
    if n < limit {
        n
    } else {
        limit
    }
}

/// The report on the presets: those in the folder, or, while it is empty, the
/// bundled ones.
pub open spec fn preset_report(
    library: Seq<PresetEntry>,
    parsed: Seq<Result<FacPreset, String>>,
    bundled: Seq<FacPreset>,
) -> Seq<Seq<char>> {
    let head = seq![
        "  "@ + decimal(library.len()) + " file(s) on disk, "@ + decimal(17)
            + " compiled into this binary"@,
    ];
    let rows = if library.len() == 0 {
        let sorted = by_rank(bundled);
        seq![
            "  (folder empty; parsing the embedded copies in place)"@,
            "  "@ + decimal(bundled.len()) + " of "@ + decimal(17) + " embedded file(s) parsed"@,
        ] + Seq::new(at_most(sorted.len() as int, 30) as nat, |i: int| preset_row(sorted[i]))
    } else {
        Seq::new(
            at_most(library.len() as int, 30) as nat,
            |i: int| entry_row(library[i], parsed[i]),
        )
    };
    let more = if library.len() > 30 {
        seq!["  ... and "@ + decimal((library.len() - 30) as nat) + " more"@]
    } else {
        Seq::empty()
    };
    head + rows + more + seq![slot_map_line()]
}

/// Reports every discoverable preset. `parsed` are the listed presets, read
/// again.
pub fn report_presets(
    library: &Vec<PresetEntry>,
    parsed: &Vec<Result<FacPreset, String>>,
    bundled: Vec<FacPreset>,
) -> (r: Vec<String>)
    requires
        parsed@.len() >= at_most(library@.len() as int, 30),
    ensures
        texts(r@) == preset_report(library@, parsed@, bundled@),
{
    let mut out: Vec<String> = Vec::new();
    let mut head: String = "  ".to_owned();
    let on_disk = to_decimal(library.len() as u64);
    let shipped = to_decimal(embedded_count() as u64);
    head.append(on_disk.as_str());
    head.append(" file(s) on disk, ");
    head.append(shipped.as_str());
    head.append(" compiled into this binary");
    out.push(head);
    let ghost top = texts(out@);
    let ghost mut rows: Seq<Seq<char>> = Seq::empty();
    assert(top =~= seq![head@]);
    if library.len() == 0 {
        let mut line: String = "  ".to_owned();
        let count = to_decimal(bundled.len() as u64);
        line.append(count.as_str());
        line.append(" of ");
        line.append(shipped.as_str());
        line.append(" embedded file(s) parsed");
        out.push("  (folder empty; parsing the embedded copies in place)".to_owned());
        out.push(line);
        let ghost intro = seq![
            "  (folder empty; parsing the embedded copies in place)"@,
            line@,
        ];
        let sorted = sort_by_rank(bundled);
        let limit: usize = if sorted.len() < LISTED_PRESETS {
            sorted.len()
        } else {
            LISTED_PRESETS
        };
        let ghost goal = Seq::new(limit as nat, |i: int| preset_row(sorted@[i]));
        assert(texts(out@) =~= top + (intro + goal.take(0)));
        let mut i: usize = 0;
        while i < limit
            invariant
                i <= limit <= sorted@.len(),
                goal == Seq::new(limit as nat, |i: int| preset_row(sorted@[i])),
                texts(out@) == top + (intro + goal.take(i as int)),
            decreases limit - i,
        {
            let ghost before = texts(out@);
            let row = show_preset(&sorted[i]);
            out.push(row);
            assert(texts(out@) =~= before.push(row@));
            assert(goal.take(i + 1) =~= goal.take(i as int).push(row@));
            assert(texts(out@) =~= top + (intro + goal.take(i + 1)));
            i = i + 1;
        }
        proof {
            assert(goal.take(limit as int) =~= goal);
            rows = intro + goal;
        }
    } else {
        let limit: usize = if library.len() < LISTED_PRESETS {
            library.len()
        } else {
            LISTED_PRESETS
        };
        let ghost goal = Seq::new(limit as nat, |i: int| entry_row(library@[i], parsed@[i]));
        assert(texts(out@) =~= top + goal.take(0));
        let mut i: usize = 0;
        while i < limit
            invariant
                i <= limit <= library@.len(),
                limit <= parsed@.len(),
                goal == Seq::new(limit as nat, |i: int| entry_row(library@[i], parsed@[i])),
                texts(out@) == top + goal.take(i as int),
            decreases limit - i,
        {
            let ghost before = texts(out@);
            let row = match &parsed[i] {
                Ok(p) => show_preset(p),
                Err(err) => {
                    let mut line: String = "  ".to_owned();
                    let name = pad(library[i].name.as_str(), 20);
                    line.append(name.as_str());
                    line.append(" unreadable: ");
                    line.append(err.as_str());
                    line
                },
            };
            out.push(row);
            assert(texts(out@) =~= before.push(row@));
            assert(goal.take(i + 1) =~= goal.take(i as int).push(row@));
            assert(texts(out@) =~= top + goal.take(i + 1));
            i = i + 1;
        }
        proof {
            assert(goal.take(limit as int) =~= goal);
            rows = goal;
        }
    }
    assert(texts(out@) == top + rows);
    let ghost mut more: Seq<Seq<char>> = Seq::empty();
    if library.len() > LISTED_PRESETS {
        let mut line: String = "  ... and ".to_owned();
        let number = to_decimal((library.len() - LISTED_PRESETS) as u64);
        line.append(number.as_str());
        line.append(" more");
        out.push(line);
        proof {
            more = seq![line@];
            assert(texts(out@) =~= top + rows + more);
        }
    } else {
        assert(top + rows + more =~= top + rows);
    }
    out.push("  slot map   : Ambience->1 Bass->4 DynamicBoost->3 Fidelity->0 Surround->2".to_owned());
    assert(texts(out@) =~= top + rows + more + seq![slot_map_line()]);
    out
}

// ---------------------------------------------------------------------------
// Rules
// ---------------------------------------------------------------------------

/// Where a rule sends its application. A device that is not plugged in is
/// pointed out: the rule is intact and does nothing until it comes back.
pub open spec fn destination_text(target: RouteTarget, devices: Seq<DeviceInfo>) -> Seq<char> {
    match target {
        RouteTarget::SystemDefault => "follow system (enhanced)"@,
        RouteTarget::Device { endpoint_id } => match find_by_id(devices, endpoint_id@) {
            Some(info) => display_text(info.name@, opt_text(info.adapter)),
            None => endpoint_id@ + "  <-- device not present"@,
        },
    }
}

fn destination(target: &RouteTarget, devices: &Vec<DeviceInfo>) -> (r: String)
    ensures
        r@ == destination_text(*target, devices@),
{
    match target {
        RouteTarget::SystemDefault => "follow system (enhanced)".to_owned(),
        RouteTarget::Device { endpoint_id } => match device_by_id(devices, endpoint_id.as_str()) {
            Some(info) => info.display(),
            None => joined2(endpoint_id.as_str(), "  <-- device not present"),
        },
    }
}

/// The name of a mechanism.
pub open spec fn method_name(method: RouteMethod) -> Seq<char> {
    match method {
        RouteMethod::Policy => "Policy"@,
        RouteMethod::Injection => "Injection"@,
    }
}

/// The lines for a rule.
pub open spec fn rule_lines(rule: RouteRule, devices: Seq<DeviceInfo>) -> Seq<Seq<char>> {
    seq![
        "  "@ + padded(elided(rule.display_name@, 34), 34) + " -> "@ + destination_text(
            rule.target,
            devices,
        ) + (if rule.enabled {
            ""@
        } else {
            "   (disabled)"@
        }),
        "      app    : "@ + storage_text(rule.app@),
        "      method : "@ + method_name(rule.method),
    ] + (if rule.target is Device {
        seq!["      note   : this application BYPASSES the enhancer"@]
    } else {
        Seq::empty()
    })
}

/// The report on the rules.
pub open spec fn rule_report(rules: Seq<RouteRule>, devices: Seq<DeviceInfo>) -> Seq<Seq<char>>
    decreases rules.len(),
{
    if rules.len() == 0 {
        Seq::empty()
    } else {
        rule_report(rules.drop_last(), devices) + rule_lines(rules.last(), devices)
    }
}

fn push_rule(rule: &RouteRule, devices: &Vec<DeviceInfo>, out: &mut Vec<String>)
    ensures
        texts(final(out)@) == texts(old(out)@) + rule_lines(*rule, devices@),
{
    let ghost before = texts(out@);
    let mut line: String = "  ".to_owned();
    let short = trim(rule.display_name.as_str(), 34);
    let name = pad(short.as_str(), 34);
    line.append(name.as_str());
    line.append(" -> ");
    let place = destination(&rule.target, devices);
    line.append(place.as_str());
    if rule.enabled {
        line.append("");
    } else {
        line.append("   (disabled)");
    }
    let key = rule.app.to_storage();
    let app_line = joined2("      app    : ", key.as_str());
    let method_line = match rule.method {
        RouteMethod::Policy => joined2("      method : ", "Policy"),
        RouteMethod::Injection => joined2("      method : ", "Injection"),
    };
    out.push(line);
    out.push(app_line);
    out.push(method_line);
    if rule.target.bypasses_enhancement() {
        out.push("      note   : this application BYPASSES the enhancer".to_owned());
    }
    assert(texts(out@) =~= before + rule_lines(*rule, devices@));
}

/// Reports the configured rules, resolved against the devices.
pub fn report_rules(rules: &Vec<RouteRule>, devices: &Vec<DeviceInfo>) -> (r: Vec<String>)
    ensures
        texts(r@) == (if rules@.len() == 0 {
            seq![
                "  (none — every application follows the system default, i.e. the enhanced path)"@,
            ]
        } else {
            rule_report(rules@, devices@)
        }),
{
    let mut out: Vec<String> = Vec::new();
    if rules.len() == 0 {
        out.push(
            "  (none — every application follows the system default, i.e. the enhanced path)".to_owned(),
        );
        assert(texts(out@) =~= seq![
            "  (none — every application follows the system default, i.e. the enhanced path)"@,
        ]);
        return out;
    }
    let mut i: usize = 0;
    assert(texts(out@) =~= rule_report(rules@.take(0), devices@));
    while i < rules.len()
        invariant
            i <= rules@.len(),
            texts(out@) == rule_report(rules@.take(i as int), devices@),
        decreases rules@.len() - i,
    {
        assert(rules@.take(i + 1).drop_last() =~= rules@.take(i as int));
        push_rule(&rules[i], devices, &mut out);
        i = i + 1;
    }
    assert(rules@.take(i as int) =~= rules@);
    out
}

// ---------------------------------------------------------------------------
// Sessions
// ---------------------------------------------------------------------------

/// The sessions of one application.
#[derive(Debug)]
pub struct SessionGroup {
    pub key: AppKey,
    pub storage: String,
    /// Which sessions, in order.
    pub streams: Vec<usize>,
}

/// Which of the first `n` sessions belong to an application.
pub open spec fn members(keys: Seq<AppKey>, storage: Seq<char>, n: int) -> Seq<usize>
    decreases n,
{
    if n <= 0 {
        Seq::empty()
    } else if storage_text(keys[n - 1]@) == storage {
        members(keys, storage, n - 1).push((n - 1) as usize)
    } else {
        members(keys, storage, n - 1)
    }
}

/// Whether `groups` holds the first `n` sessions by application, in the order
/// of their stored keys.
pub open spec fn grouped(groups: Seq<SessionGroup>, keys: Seq<AppKey>, n: int) -> bool {
    &&& forall|a: int, b: int|
        0 <= a < b < groups.len() ==> text_before(
            (#[trigger] groups[a]).storage@,
            (#[trigger] groups[b]).storage@,
        )
    &&& forall|g: int|
        0 <= g < groups.len() ==> {
            &&& (#[trigger] groups[g]).streams@.len() > 0
            &&& groups[g].streams@ == members(keys, groups[g].storage@, n)
            &&& groups[g].storage@ == storage_text(groups[g].key@)
        }
    &&& forall|i: int|
        0 <= i < n ==> exists|g: int|
            0 <= g < groups.len() && (#[trigger] groups[g]).storage@ == storage_text(
                (#[trigger] keys[i])@,
            )
}

proof fn lemma_group_extended(
    before: Seq<SessionGroup>,
    after: Seq<SessionGroup>,
    keys: Seq<AppKey>,
    n: int,
    k: int,
)
    requires
        0 <= n < keys.len(),
        grouped(before, keys, n),
        0 <= k < before.len(),
        before[k].storage@ == storage_text(keys[n]@),
        after.len() == before.len(),
        forall|g: int| 0 <= g < before.len() && g != k ==> #[trigger] after[g] == before[g],
        after[k].key == before[k].key,
        after[k].storage == before[k].storage,
        after[k].streams@ == before[k].streams@.push(n as usize),
    ensures
        grouped(after, keys, n + 1),
{
    let added = storage_text(keys[n]@);
    assert forall|a: int, b: int| 0 <= a < b < after.len() implies text_before(
        (#[trigger] after[a]).storage@,
        (#[trigger] after[b]).storage@,
    ) by {
        assert(after[a].storage@ == before[a].storage@);
        assert(after[b].storage@ == before[b].storage@);
    }
    assert forall|g: int| 0 <= g < after.len() implies {
        &&& (#[trigger] after[g]).streams@.len() > 0
        &&& after[g].streams@ == members(keys, after[g].storage@, n + 1)
        &&& after[g].storage@ == storage_text(after[g].key@)
    } by {
        if g != k {
            assert(after[g] == before[g]);
            if before[g].storage@ == added {
                if g < k {
                    assert(text_before(before[g].storage@, before[k].storage@));
                } else {
                    assert(text_before(before[k].storage@, before[g].storage@));
                }
                lemma_text_order_total(added, added);
            }
        } else {
            assert(before[k].streams@ == members(keys, added, n));
        }
    }
    assert forall|i: int| 0 <= i < n + 1 implies exists|g: int|
        0 <= g < after.len() && (#[trigger] after[g]).storage@ == storage_text(
            (#[trigger] keys[i])@,
        ) by {
        if i < n {
            let g = choose|g: int|
                0 <= g < before.len() && (#[trigger] before[g]).storage@ == storage_text(keys[i]@);
            assert(after[g].storage@ == before[g].storage@);
        } else {
            assert(after[k].storage@ == added);
        }
    }
}

proof fn lemma_no_members(groups: Seq<SessionGroup>, keys: Seq<AppKey>, n: int, storage: Seq<char>)
    requires
        0 <= n <= keys.len(),
        grouped(groups, keys, n),
        forall|g: int| 0 <= g < groups.len() ==> (#[trigger] groups[g]).storage@ != storage,
    ensures
        members(keys, storage, n).len() == 0,
{
    if members(keys, storage, n).len() > 0 {
        let i = lemma_member(keys, storage, n);
        let g = choose|g: int|
            0 <= g < groups.len() && (#[trigger] groups[g]).storage@ == storage_text(keys[i]@);
        assert(groups[g].storage@ == storage);
    }
}

proof fn lemma_member(keys: Seq<AppKey>, storage: Seq<char>, n: int) -> (i: int)
    requires
        members(keys, storage, n).len() > 0,
        n <= keys.len(),
    ensures
        0 <= i < n,
        storage_text(keys[i]@) == storage,
    decreases n,
{
    if storage_text(keys[n - 1]@) == storage {
        n - 1
    } else {
        lemma_member(keys, storage, n - 1)
    }
}

proof fn lemma_group_added(
    before: Seq<SessionGroup>,
    added: SessionGroup,
    keys: Seq<AppKey>,
    n: int,
    k: int,
)
    requires
        0 <= n < keys.len(),
        grouped(before, keys, n),
        0 <= k <= before.len(),
        added.storage@ == storage_text(keys[n]@),
        added.storage@ == storage_text(added.key@),
        added.streams@ == seq![n as usize],
        forall|g: int|
            0 <= g < k ==> text_before((#[trigger] before[g]).storage@, added.storage@),
        forall|g: int|
            k <= g < before.len() ==> text_before(added.storage@, (#[trigger] before[g]).storage@),
    ensures
        grouped(before.insert(k, added), keys, n + 1),
{
    let after = before.insert(k, added);
    let storage = added.storage@;
    assert forall|g: int| 0 <= g < before.len() implies (#[trigger] before[g]).storage@
        != storage by {
        lemma_text_order_total(before[g].storage@, storage);
    }
    lemma_no_members(before, keys, n, storage);
    assert(members(keys, storage, n) =~= Seq::empty());
    assert(members(keys, storage, n + 1) =~= seq![n as usize]);
    assert forall|a: int, b: int| 0 <= a < b < after.len() implies text_before(
        (#[trigger] after[a]).storage@,
        (#[trigger] after[b]).storage@,
    ) by {
        let x = if a < k {
            a
        } else {
            a - 1
        };
        let y = if b < k {
            b
        } else {
            b - 1
        };
        if a != k {
            assert(after[a] == before[x]);
        }
        if b != k {
            assert(after[b] == before[y]);
        }
    }
    assert forall|g: int| 0 <= g < after.len() implies {
        &&& (#[trigger] after[g]).streams@.len() > 0
        &&& after[g].streams@ == members(keys, after[g].storage@, n + 1)
        &&& after[g].storage@ == storage_text(after[g].key@)
    } by {
        let x = if g < k {
            g
        } else {
            g - 1
        };
        if g != k {
            assert(after[g] == before[x]);
        }
    }
    assert forall|i: int| 0 <= i < n + 1 implies exists|g: int|
        0 <= g < after.len() && (#[trigger] after[g]).storage@ == storage_text(
            (#[trigger] keys[i])@,
        ) by {
        if i < n {
            let g = choose|g: int|
                0 <= g < before.len() && (#[trigger] before[g]).storage@ == storage_text(keys[i]@);
            let h = if g < k {
                g
            } else {
                g + 1
            };
            assert(after[h] == before[g]);
        } else {
            assert(after[k].storage@ == storage);
        }
    }
}

/// The first group that does not come before a stored key.
fn find_group(groups: &Vec<SessionGroup>, storage: &str) -> (r: usize)
    ensures
        r <= groups@.len(),
        r < groups@.len() ==> !text_before(groups@[r as int].storage@, storage@),
        forall|g: int| 0 <= g < r ==> text_before((#[trigger] groups@[g]).storage@, storage@),
{
    let wanted = chars_of(storage);
    let mut k: usize = 0;
    while k < groups.len()
        invariant
            k <= groups@.len(),
            wanted@ == storage@,
            forall|g: int| 0 <= g < k ==> text_before((#[trigger] groups@[g]).storage@, storage@),
        decreases groups@.len() - k,
    {
        let other = chars_of(groups[k].storage.as_str());
        if !comes_before(other.as_slice(), wanted.as_slice()) {
            return k;
        }
        k = k + 1;
    }
    k
}

/// Groups sessions by application: one application can own several streams,
/// and they are one row. `keys` are the applications of the sessions.
pub fn group_sessions(keys: &Vec<AppKey>) -> (r: Vec<SessionGroup>)
    ensures
        grouped(r@, keys@, keys@.len() as int),
{
    let mut groups: Vec<SessionGroup> = Vec::new();
    let mut n: usize = 0;
    while n < keys.len()
        invariant
            n <= keys@.len(),
            grouped(groups@, keys@, n as int),
        decreases keys@.len() - n,
    {
        let storage = keys[n].to_storage();
        let k = find_group(&groups, storage.as_str());
        let ghost before = groups@;
        if k < groups.len() && same_text(groups[k].storage.as_str(), storage.as_str()) {
            let old_group = groups.remove(k);
            let SessionGroup { key, storage: kept, streams: old_streams } = old_group;
            let mut streams: Vec<usize> = old_streams;
            streams.push(n);
            groups.insert(k, SessionGroup { key, storage: kept, streams });
            proof {
                lemma_group_extended(before, groups@, keys@, n as int, k as int);
            }
        } else {
            let mut streams: Vec<usize> = Vec::new();
            streams.push(n);
            let added = SessionGroup { key: keys[n].clone(), storage, streams };
            proof {
                assert(added.streams@ =~= seq![n]);
                assert forall|g: int| k <= g < before.len() implies text_before(
                    added.storage@,
                    (#[trigger] before[g]).storage@,
                ) by {
                    lemma_text_order_total(before[k as int].storage@, added.storage@);
                    if g > k {
                        assert(text_before(before[k as int].storage@, before[g].storage@));
                        lemma_text_order_transitive(
                            added.storage@,
                            before[k as int].storage@,
                            before[g].storage@,
                        );
                    }
                }
                lemma_group_added(before, added, keys@, n as int, k as int);
            }
            groups.insert(k, added);
        }
        n = n + 1;
    }
    groups
}

/// The loudest of the first `n` levels, but not less than silence.
pub open spec fn loudest_of(levels: Seq<u32>, n: int) -> u32
    decreases n,
{
    if n <= 0 {
        0
    } else {
        let before = loudest_of(levels, n - 1);
        if float::below(before, levels[n - 1]) {
            levels[n - 1]
        } else {
            before
        }
    }
}

/// The loudest of several levels.
pub fn loudest(levels: &[u32]) -> (r: u32)
    ensures
        r == loudest_of(levels@, levels@.len() as int),
{
    let mut best: u32 = 0;
    let mut i: usize = 0;
    while i < levels.len()
        invariant
            i <= levels@.len(),
            best == loudest_of(levels@, i as int),
        decreases levels@.len() - i,
    {
        if float::less(best, levels[i]) {
            best = levels[i];
        }
        i = i + 1;
    }
    best
}

/// Every session that was grouped is one of those there are.
pub proof fn groups_stay_in_range(groups: Seq<SessionGroup>, keys: Seq<AppKey>)
    requires
        grouped(groups, keys, keys.len() as int),
        keys.len() <= usize::MAX,
    ensures
        streams_in_range(groups, keys.len() as int),
{
    assert forall|g: int, i: int|
        0 <= g < groups.len() && 0 <= i < (#[trigger] groups[g]).streams@.len() implies (
    #[trigger] groups[g].streams@[i]) < keys.len() by {
        lemma_members_in_range(keys, groups[g].storage@, keys.len() as int);
    }
}

proof fn lemma_members_in_range(keys: Seq<AppKey>, storage: Seq<char>, n: int)
    requires
        0 <= n <= usize::MAX,
    ensures
        forall|i: int|
            0 <= i < members(keys, storage, n).len() ==> (#[trigger] members(keys, storage, n)[i])
                < n,
    decreases n,
{
    if n > 0 {
        lemma_members_in_range(keys, storage, n - 1);
        let before = members(keys, storage, n - 1);
        let after = members(keys, storage, n);
        assert forall|i: int| 0 <= i < after.len() implies (#[trigger] after[i]) < n by {
            if i < before.len() {
                assert(after[i] == before[i]);
            }
        }
    }
}

/// Whether the groups speak of no session beyond the first `n`.
pub open spec fn streams_in_range(groups: Seq<SessionGroup>, n: int) -> bool {
    forall|g: int, i: int|
        0 <= g < groups.len() && 0 <= i < (#[trigger] groups[g]).streams@.len() ==> (
        #[trigger] groups[g].streams@[i]) < n
}

/// What is shown of an application: its name, and its loudest volume and peak
/// in percent.
#[derive(Debug)]
pub struct ShownGroup {
    pub name: String,
    pub volume: String,
    pub peak: String,
}

/// The name of a state.
pub open spec fn session_word(state: SessionState) -> Seq<char> {
    match state {
        SessionState::Active => "Active"@,
        SessionState::Inactive => "Inactive"@,
        SessionState::Expired => "Expired"@,
    }
}

/// The line for a stream: what it does, and on which device.
pub open spec fn stream_text(session: Session, devices: Seq<DeviceInfo>) -> Seq<char> {
    "      "@ + session_word(session.state) + " on "@ + (match find_by_id(
        devices,
        session.device_id@,
    ) {
        Some(info) => display_text(info.name@, opt_text(info.adapter)),
        None => session.device_id@,
    })
}

fn stream_line(session: &Session, devices: &Vec<DeviceInfo>) -> (r: String)
    ensures
        r@ == stream_text(*session, devices@),
{
    let mut out: String = "      ".to_owned();
    match session.state {
        SessionState::Active => out.append("Active"),
        SessionState::Inactive => out.append("Inactive"),
        SessionState::Expired => out.append("Expired"),
    }
    out.append(" on ");
    match device_by_id(devices, session.device_id.as_str()) {
        Some(info) => {
            let shown = info.display();
            out.append(shown.as_str());
        },
        None => {
            out.append(session.device_id.as_str());
        },
    }
    out
}

/// Whether every stream of a group is muted.
pub open spec fn all_muted(streams: Seq<usize>, sessions: Seq<Session>) -> bool {
    forall|i: int| 0 <= i < streams.len() ==> sessions[#[trigger] streams[i] as int].muted
}

/// The lines for an application.
pub open spec fn group_lines(
    group: SessionGroup,
    shown: ShownGroup,
    sessions: Seq<Session>,
    devices: Seq<DeviceInfo>,
) -> Seq<Seq<char>> {
    seq![
        "  "@ + padded(elided(shown.name@, 34), 34) + " "@ + right_aligned(
            decimal(group.streams@.len()),
            5,
        ) + " stream(s)  "@ + level_columns(
            shown.volume@,
            all_muted(group.streams@, sessions),
            shown.peak@,
        ),
        "      key: "@ + group.storage@,
    ] + (if group.key is SystemSounds {
        seq!["      note: no process behind this session"@]
    } else {
        Seq::empty()
    }) + Seq::new(
        group.streams@.len(),
        |i: int| stream_text(sessions[group.streams@[i] as int], devices),
    )
}

/// The lines for several applications.
pub open spec fn session_report(
    groups: Seq<SessionGroup>,
    shown: Seq<ShownGroup>,
    sessions: Seq<Session>,
    devices: Seq<DeviceInfo>,
    n: int,
) -> Seq<Seq<char>>
    decreases n,
{
    if n <= 0 {
        Seq::empty()
    } else {
        session_report(groups, shown, sessions, devices, n - 1) + group_lines(
            groups[n - 1],
            shown[n - 1],
            sessions,
            devices,
        )
    }
}

fn push_group(
    group: &SessionGroup,
    shown: &ShownGroup,
    sessions: &Vec<Session>,
    devices: &Vec<DeviceInfo>,
    out: &mut Vec<String>,
)
    requires
        forall|i: int|
            0 <= i < group.streams@.len() ==> (#[trigger] group.streams@[i]) < sessions@.len(),
    ensures
        texts(final(out)@) == texts(old(out)@) + group_lines(
            *group,
            *shown,
            sessions@,
            devices@,
        ),
{
    let ghost before = texts(out@);
    let count: usize = group.streams.len();
    let mut muted: bool = true;
    let mut i: usize = 0;
    while i < count
        invariant
            i <= count == group.streams@.len(),
            forall|k: int|
                0 <= k < group.streams@.len() ==> (#[trigger] group.streams@[k]) < sessions@.len(),
            muted == (forall|k: int|
                0 <= k < i ==> sessions@[#[trigger] group.streams@[k] as int].muted),
        decreases count - i,
    {
        let index: usize = group.streams[i];
        if !sessions[index].muted {
            muted = false;
        }
        i = i + 1;
    }
    let mut line: String = "  ".to_owned();
    let short = trim(shown.name.as_str(), 34);
    let name = pad(short.as_str(), 34);
    line.append(name.as_str());
    line.append(" ");
    let number = to_decimal(count as u64);
    let aligned = align_right(number.as_str(), 5);
    line.append(aligned.as_str());
    line.append(" stream(s)  ");
    let columns = show_levels(shown.volume.as_str(), muted, shown.peak.as_str());
    line.append(columns.as_str());
    let key_line = joined2("      key: ", group.storage.as_str());
    out.push(line);
    out.push(key_line);
    match group.key {
        AppKey::SystemSounds => {
            out.push("      note: no process behind this session".to_owned());
        },
        _ => {},
    }
    let ghost top = seq![line@, key_line@] + (if group.key is SystemSounds {
        seq!["      note: no process behind this session"@]
    } else {
        Seq::empty()
    });
    let ghost rows = Seq::new(
        group.streams@.len(),
        |i: int| stream_text(sessions@[group.streams@[i] as int], devices@),
    );
    assert(texts(out@) =~= before + top + rows.take(0));
    let mut j: usize = 0;
    while j < count
        invariant
            j <= count == group.streams@.len(),
            forall|k: int|
                0 <= k < group.streams@.len() ==> (#[trigger] group.streams@[k]) < sessions@.len(),
            rows == Seq::new(
                group.streams@.len(),
                |i: int| stream_text(sessions@[group.streams@[i] as int], devices@),
            ),
            texts(out@) == before + top + rows.take(j as int),
        decreases count - j,
    {
        let ghost so_far = texts(out@);
        let index: usize = group.streams[j];
        let row = stream_line(&sessions[index], devices);
        out.push(row);
        assert(texts(out@) =~= so_far.push(row@));
        assert(rows.take(j + 1) =~= rows.take(j as int).push(row@));
        assert(texts(out@) =~= before + top + rows.take(j + 1));
        j = j + 1;
    }
    assert(rows.take(count as int) =~= rows);
    assert(texts(out@) =~= before + group_lines(*group, *shown, sessions@, devices@));
}

/// Reports every session, grouped by application; `shown` are the words for
/// each group.
pub fn report_sessions(
    sessions: &Vec<Session>,
    groups: &Vec<SessionGroup>,
    shown: &Vec<ShownGroup>,
    devices: &Vec<DeviceInfo>,
) -> (r: Vec<String>)
    requires
        shown@.len() == groups@.len(),
        streams_in_range(groups@, sessions@.len() as int),
    ensures
        texts(r@) == (if sessions@.len() == 0 {
            seq!["  (none — nothing is playing, or no application has opened a stream)"@]
        } else {
            session_report(groups@, shown@, sessions@, devices@, groups@.len() as int)
        }),
{
    let mut out: Vec<String> = Vec::new();
    if sessions.len() == 0 {
        out.push("  (none — nothing is playing, or no application has opened a stream)".to_owned());
        assert(texts(out@) =~= seq![
            "  (none — nothing is playing, or no application has opened a stream)"@,
        ]);
        return out;
    }
    let mut n: usize = 0;
    assert(texts(out@) =~= session_report(groups@, shown@, sessions@, devices@, 0));
    while n < groups.len()
        invariant
            n <= groups@.len() == shown@.len(),
            streams_in_range(groups@, sessions@.len() as int),
            texts(out@) == session_report(groups@, shown@, sessions@, devices@, n as int),
        decreases groups@.len() - n,
    {
        push_group(&groups[n], &shown[n], sessions, devices, &mut out);
        n = n + 1;
    }
    out
}

// ---------------------------------------------------------------------------
// Routing
// ---------------------------------------------------------------------------

/// Where the system's output is.
#[derive(Debug, Clone, Copy, PartialEq, Eq, Structural)]
pub enum Diagnosis {
    /// On the card: audio flows through the enhancer.
    Enhanced,
    /// Past the card: the enhancer processes silence.
    Bypassed,
    /// There is no card.
    NoCard,
    /// There is a card, but no default.
    NoDefault,
}

/// Where the system's output is.
pub open spec fn diagnosis_of(
    default: Result<DeviceInfo, String>,
    card: Option<DeviceInfo>,
) -> Diagnosis {
    if card is None {
        Diagnosis::NoCard
    } else if default is Err {
        Diagnosis::NoDefault
    } else if on_card(card, default) {
        Diagnosis::Enhanced
    } else {
        Diagnosis::Bypassed
    }
}

/// Tells where the system's output is.
pub fn diagnose(default: &Result<DeviceInfo, String>, card: &Option<DeviceInfo>) -> (r: Diagnosis)
    ensures
        r == diagnosis_of(*default, *card),
{
    match (default, card) {
        (_, None) => Diagnosis::NoCard,
        (Err(_), Some(_)) => Diagnosis::NoDefault,
        (Ok(current), Some(card)) => if same_text(current.id.as_str(), card.id.as_str()) {
            Diagnosis::Enhanced
        } else {
            Diagnosis::Bypassed
        },
    }
}

/// Whether the machine is back where it started.
pub fn came_back(before: &Result<DeviceInfo, String>, after: &Result<DeviceInfo, String>) -> (r:
    bool)
    ensures
        r == (before is Ok && after is Ok && before->Ok_0.id@ == after->Ok_0.id@),
{
    match (before, after) {
        (Ok(a), Ok(b)) => same_text(a.id.as_str(), b.id.as_str()),
        _ => false,
    }
}

/// The report on where the system's output is.
pub open spec fn diagnosis_report(
    default: Result<DeviceInfo, String>,
    card: Option<DeviceInfo>,
) -> Seq<Seq<char>> {
    seq![
        "  system default output : "@ + (match default {
            Ok(info) => display_text(info.name@, opt_text(info.adapter)),
            Err(_) => "(no default render endpoint)"@,
        }),
    ] + (if card is None {
        seq![
            "  virtual card is default : n/a"@,
            "  -> FxSound's virtual sound card is NOT installed, so there is"@,
            "     nothing to capture from. Install the driver first."@,
        ]
    } else if default is Err {
        seq!["  virtual card is default : unknown (no default endpoint)"@]
    } else if on_card(card, default) {
        seq![
            "  virtual card is default : YES"@,
            "  -> audio flows through FxTrumpet. Enhancement can be heard."@,
        ]
    } else {
        seq![
            "  virtual card is default : NO"@,
            "      default is        : "@ + default->Ok_0.name@,
            "      virtual card is   : "@ + card->0.name@,
            "  -> applications render straight to the physical card."@,
            "     FxTrumpet captures the virtual card, which receives nothing,"@,
            "     so it processes silence: it looks healthy and does nothing."@,
        ]
    })
}

/// Reports where the system's output is.
pub fn report_diagnosis(default: &Result<DeviceInfo, String>, card: &Option<DeviceInfo>) -> (r: Vec<
    String,
>)
    ensures
        texts(r@) == diagnosis_report(*default, *card),
{
    let mut out: Vec<String> = Vec::new();
    match default {
        Ok(info) => {
            let shown = info.display();
            out.push(joined2("  system default output : ", shown.as_str()));
        },
        Err(_) => {
            out.push(joined2("  system default output : ", "(no default render endpoint)"));
        },
    }
    match diagnose(default, card) {
        Diagnosis::Enhanced => {
            out.push("  virtual card is default : YES".to_owned());
            out.push("  -> audio flows through FxTrumpet. Enhancement can be heard.".to_owned());
        },
        Diagnosis::Bypassed => {
            out.push("  virtual card is default : NO".to_owned());
            if let (Ok(current), Some(card)) = (default, card) {
                out.push(joined2("      default is        : ", current.name.as_str()));
                out.push(joined2("      virtual card is   : ", card.name.as_str()));
            }
            out.push("  -> applications render straight to the physical card.".to_owned());
            out.push("     FxTrumpet captures the virtual card, which receives nothing,".to_owned());
            out.push("     so it processes silence: it looks healthy and does nothing.".to_owned());
        },
        Diagnosis::NoCard => {
            out.push("  virtual card is default : n/a".to_owned());
            out.push("  -> FxSound's virtual sound card is NOT installed, so there is".to_owned());
            out.push("     nothing to capture from. Install the driver first.".to_owned());
        },
        Diagnosis::NoDefault => {
            out.push("  virtual card is default : unknown (no default endpoint)".to_owned());
        },
    }
    assert(texts(out@) =~= diagnosis_report(*default, *card));
    out
}

// ---------------------------------------------------------------------------
// A run of the engine
// ---------------------------------------------------------------------------

/// What has come to a counter since it was last read.
pub open spec fn growth(now: u64, last: u64) -> nat {
    if now >= last {
        (now - last) as nat
    } else {
        0
    }
}

fn grown(now: u64, last: u64) -> (r: String)
    ensures
        r@ == decimal(growth(now, last)),
{
    if now >= last {
        to_decimal(now - last)
    } else {
        to_decimal(0)
    }
}

/// A counter and what has come to it, in columns.
pub open spec fn counter_columns(now: u64, last: u64) -> Seq<char> {
    right_aligned(decimal(now as nat), 9) + " (+"@ + padded(decimal(growth(now, last)), 7) + ")"@
}

fn show_counter(now: u64, last: u64) -> (r: String)
    ensures
        r@ == counter_columns(now, last),
{
    let number = to_decimal(now);
    let mut out: String = align_right(number.as_str(), 9);
    out.append(" (+");
    let growth = grown(now, last);
    let column = pad(growth.as_str(), 7);
    out.append(column.as_str());
    out.append(")");
    out
}

/// How a run is going: `elapsed` is the time since it began, in seconds.
pub open spec fn progress_text(
    elapsed: Seq<char>,
    status: EngineStatus,
    last_captured: u64,
    last_rendered: u64,
) -> Seq<char> {
    "  "@ + right_aligned(elapsed, 5) + "s  running="@ + padded(
        if status.running {
            "true"@
        } else {
            "false"@
        },
        5,
    ) + " cap "@ + counter_columns(status.captured_frames, last_captured) + "  ren "@
        + counter_columns(status.rendered_frames, last_rendered) + "  under "@ + right_aligned(
        decimal(status.underruns as nat),
        6,
    ) + "  drop "@ + right_aligned(decimal(status.overruns as nat), 6) + "  buf "@ + right_aligned(
        decimal(status.latency_ms as nat),
        3,
    ) + " ms"@
}

/// Executable [`progress_text`].
pub fn progress_line(
    elapsed: &str,
    status: &EngineStatus,
    last_captured: u64,
    last_rendered: u64,
) -> (r: String)
    ensures
        r@ == progress_text(elapsed@, *status, last_captured, last_rendered),
{
    let mut out: String = "  ".to_owned();
    let time = align_right(elapsed, 5);
    out.append(time.as_str());
    out.append("s  running=");
    let running = if status.running {
        pad("true", 5)
    } else {
        pad("false", 5)
    };
    out.append(running.as_str());
    out.append(" cap ");
    let captured = show_counter(status.captured_frames, last_captured);
    out.append(captured.as_str());
    out.append("  ren ");
    let rendered = show_counter(status.rendered_frames, last_rendered);
    out.append(rendered.as_str());
    out.append("  under ");
    let underruns = to_decimal(status.underruns);
    let under_column = align_right(underruns.as_str(), 6);
    out.append(under_column.as_str());
    out.append("  drop ");
    let overruns = to_decimal(status.overruns);
    let drop_column = align_right(overruns.as_str(), 6);
    out.append(drop_column.as_str());
    out.append("  buf ");
    let latency = to_decimal(status.latency_ms as u64);
    let latency_column = align_right(latency.as_str(), 3);
    out.append(latency_column.as_str());
    out.append(" ms");
    out
}

/// What a run came to; `peak` is the level at its end.
pub open spec fn run_report(status: EngineStatus, peak: Seq<char>) -> Seq<Seq<char>> {
    seq![
        "  source : "@ + (match status.source {
            Some(text) => text@,
            None => "—"@,
        }),
        "  sink   : "@ + (match status.sink {
            Some(text) => text@,
            None => "—"@,
        }),
        "  result : "@ + crate::engine::summary_text(status),
    ] + (match status.last_error {
        Some(error) => seq!["  error  : "@ + error@],
        None => Seq::empty(),
    }) + seq![
        "  peak   : "@ + peak,
        "  clipped: "@ + decimal(status.clipped_samples as nat) + " sample(s)"@,
    ]
}

/// Executable [`run_report`].
pub fn report_run(status: &EngineStatus, peak: &str) -> (r: Vec<String>)
    ensures
        texts(r@) == run_report(*status, peak@),
{
    let mut out: Vec<String> = Vec::new();
    match &status.source {
        Some(text) => {
            out.push(joined2("  source : ", text.as_str()));
        },
        None => {
            out.push(joined2("  source : ", "—"));
        },
    }
    match &status.sink {
        Some(text) => {
            out.push(joined2("  sink   : ", text.as_str()));
        },
        None => {
            out.push(joined2("  sink   : ", "—"));
        },
    }
    let summary = status.summary();
    out.push(joined2("  result : ", summary.as_str()));
    if let Some(error) = &status.last_error {
        out.push(joined2("  error  : ", error.as_str()));
    }
    out.push(joined2("  peak   : ", peak));
    let count = to_decimal(status.clipped_samples);
    let mut line = joined2("  clipped: ", count.as_str());
    line.append(" sample(s)");
    out.push(line);
    assert(texts(out@) =~= run_report(*status, peak@));
    out
}

/// How the endpoints that a run was told to use are shown.
pub open spec fn override_text(source: Option<Seq<char>>, sink: Option<Seq<char>>) -> Option<
    Seq<char>,
> {
    if source is None && sink is None {
        None
    } else {
        Some(
            "  overrides: --source "@ + (match source {
                Some(id) => id,
                None => "(auto)"@,
            }) + " --sink "@ + (match sink {
                Some(id) => id,
                None => "(auto)"@,
            }),
        )
    }
}

/// The endpoints that a run was told to use, where it was told any.
pub fn override_line(source: Option<&str>, sink: Option<&str>) -> (r: Option<String>)
    ensures
        opt_text(r) == override_text(opt_str(source), opt_str(sink)),
{
    if source.is_none() && sink.is_none() {
        return None;
    }
    let mut out: String = "  overrides: --source ".to_owned();
    match source {
        Some(id) => out.append(id),
        None => out.append("(auto)"),
    }
    out.append(" --sink ");
    match sink {
        Some(id) => out.append(id),
        None => out.append("(auto)"),
    }
    Some(out)
}

/// What watching a run does next.
#[derive(Debug, Clone, Copy, PartialEq, Eq, Structural)]
pub enum WatchStep {
    /// Say how the run is going.
    Print,
    /// Nothing is due yet.
    Wait,
    /// The run is over.
    Stop,
}

/// How long to wait between two lines on a run, in milliseconds.
pub const WATCH_INTERVAL_MS: u64 = 500;

/// What watching a run does next, given how long it has run, how long it is to
/// run, and how long ago the last line was.
pub open spec fn watch_next(elapsed_ms: int, deadline_ms: int, since_print_ms: int) -> WatchStep {
    if since_print_ms >= 500 {
        WatchStep::Print
    } else if elapsed_ms >= deadline_ms {
        WatchStep::Stop
    } else {
        WatchStep::Wait
    }
}

/// Decides what watching a run does next: a line whenever one is due, even if
/// the time is up by then, and nothing more once it is.
pub fn watch_step(elapsed_ms: u64, deadline_ms: u64, since_print_ms: u64) -> (r: WatchStep)
    ensures
        r == watch_next(elapsed_ms as int, deadline_ms as int, since_print_ms as int),
{
    if since_print_ms >= WATCH_INTERVAL_MS {
        WatchStep::Print
    } else if elapsed_ms >= deadline_ms {
        WatchStep::Stop
    } else {
        WatchStep::Wait
    }
}

// ---------------------------------------------------------------------------
// What the columns show
// ---------------------------------------------------------------------------

proof fn lemma_ends(a: Seq<char>, b: Seq<char>)
    ensures
        ends_with(a + b, b),
        (a + b).take(a.len() as int) == a,
{
    assert((a + b).skip((a + b).len() - b.len()) =~= b);
    assert((a + b).take(a.len() as int) =~= a);
}

/// A column keeps its text whole: padding puts spaces behind it, aligning puts
/// them in front, and neither puts more than the width needs.
pub proof fn a_column_keeps_its_text(s: Seq<char>, width: int)
    requires
        width >= 0,
    ensures
        padded(s, width).len() == (if s.len() > width {
            s.len() as int
        } else {
            width
        }),
        right_aligned(s, width).len() == padded(s, width).len(),
        padded(s, width).take(s.len() as int) == s,
        right_aligned(s, width).skip(right_aligned(s, width).len() - s.len()) == s,
        forall|i: int| s.len() <= i < width ==> #[trigger] padded(s, width)[i] == ' ',
        forall|i: int| 0 <= i < width - s.len() ==> #[trigger] right_aligned(s, width)[i] == ' ',
{
    assert(padded(s, width).take(s.len() as int) =~= s);
    assert(right_aligned(s, width).skip(right_aligned(s, width).len() - s.len()) =~= s);
}

/// A text that fits is not cut; one that does not is cut to the width, keeps
/// its beginning, and says by its last character that it was cut.
pub proof fn a_long_text_is_cut(s: Seq<char>, width: int)
    requires
        width > 0,
    ensures
        elided(s, width).len() <= width,
        s.len() <= width ==> elided(s, width) == s,
        s.len() > width ==> elided(s, width).len() == width && elided(s, width).last() == '…',
        forall|i: int| 0 <= i < width - 1 && i < s.len() ==> #[trigger] elided(s, width)[i] == s[i],
{
}

/// Yes and no are not mixed up, and the marker of a device has its star for the
/// default and its letter for the virtual card, each in a column of its own.
pub proof fn marks_are_told_apart(info: DeviceInfo, value: bool)
    ensures
        yes_no_text(value)[0] == 'y' <==> value,
        yes_no_text(value)[0] == 'n' <==> !value,
        marker_text(info.is_default, info.is_virtual).len() == 2,
        marker_text(info.is_default, info.is_virtual)[0] == '*' <==> info.is_default,
        marker_text(info.is_default, info.is_virtual)[1] == 'V' <==> info.is_virtual,
{
    reveal_strlit("yes");
    reveal_strlit("no");
    reveal_strlit("*V");
    reveal_strlit("* ");
    reveal_strlit(" V");
    reveal_strlit("  ");
}

/// A device is tagged with what holds of it and with nothing else, and one of
/// which nothing holds has no tag.
pub proof fn a_device_is_tagged_with_what_holds(info: DeviceInfo)
    ensures
        tag_list(info).contains("default"@) <==> info.is_default,
        tag_list(info).contains("VIRTUAL CARD"@) <==> info.is_virtual,
        tag_list(info).contains("inactive"@) <==> info.state != DeviceState::Active,
        tag_text(info).len() == 0 <==> !info.is_default && !info.is_virtual && info.state
            == DeviceState::Active,
{
    reveal_strlit("default");
    reveal_strlit("VIRTUAL CARD");
    reveal_strlit("inactive");
    reveal_strlit("  [");
    let list = tag_list(info);
    let d: int = if info.is_default {
        1
    } else {
        0
    };
    let v: int = if info.is_virtual {
        1
    } else {
        0
    };
    assert("default"@[0] == 'd' && "VIRTUAL CARD"@[0] == 'V' && "inactive"@[0] == 'i');
    if info.is_default {
        assert(list[0] == "default"@);
    }
    if info.is_virtual {
        assert(list[d] == "VIRTUAL CARD"@);
    }
    if info.state != DeviceState::Active {
        assert(list[d + v] == "inactive"@);
    }
    assert(forall|i: int|
        0 <= i < list.len() ==> #[trigger] list[i] == (if i < d {
            "default"@
        } else if i < d + v {
            "VIRTUAL CARD"@
        } else {
            "inactive"@
        }));
}

/// Words in a row all stand in it, in order: the first leads it, and each of
/// the others follows a comma.
pub proof fn words_stand_in_a_row(words: Seq<Seq<char>>, word: Seq<char>)
    ensures
        with_commas(seq![word]) == word,
        words.len() > 0 ==> with_commas(words.push(word)) == with_commas(words) + ", "@ + word,
{
    if words.len() > 0 {
        assert(words.push(word).drop_last() =~= words);
    }
}

/// Levels stand in columns of their own, the volume in front of the peak, and
/// muting is said just where there is some.
pub proof fn levels_stand_in_their_columns(volume: Seq<char>, muted: bool, peak: Seq<char>)
    requires
        volume.len() <= 3,
        peak.len() <= 5,
    ensures
        level_columns(volume, muted, peak).len() == 28,
        level_columns(volume, muted, peak).subrange(7 - volume.len(), 7) == volume,
        level_columns(volume, muted, peak).subrange(27 - peak.len(), 27) == peak,
        level_columns(volume, muted, peak)[10] == 'M' <==> muted,
{
    reveal_strlit("vol ");
    reveal_strlit("%");
    reveal_strlit("  MUTED");
    reveal_strlit("       ");
    reveal_strlit("  peak ");
    let c = level_columns(volume, muted, peak);
    assert(c.subrange(7 - volume.len(), 7) =~= volume);
    assert(c.subrange(27 - peak.len(), 27) =~= peak);
}

/// The line for an active output has the marker, the name and then the levels,
/// each in its column; an inactive one has its name and no levels.
pub proof fn an_output_shows_its_name_and_levels(info: DeviceInfo, levels: Option<ShownLevels>)
    ensures
        info.state == DeviceState::Active ==> ({
            let line = output_text(info, levels);
            &&& line.subrange(2, 4) == marker_text(info.is_default, info.is_virtual)
            &&& line.subrange(5, 5 + elided(info.name@, 40).len() as int) == elided(info.name@, 40)
            &&& levels is Some ==> line.skip(46) == level_columns(
                levels->0.volume@,
                levels->0.muted,
                levels->0.peak@,
            )
            &&& levels is None ==> line.skip(46) == "(no volume interface)"@
        }),
        info.state != DeviceState::Active ==> ends_with(output_text(info, levels), info.name@)
            && output_text(info, levels).len() == 14 + info.name@.len(),
{
    reveal_strlit("  ");
    reveal_strlit(" ");
    reveal_strlit("   (inactive) ");
    marks_are_told_apart(info, true);
    let line = output_text(info, levels);
    if info.state == DeviceState::Active {
        let name = elided(info.name@, 40);
        a_long_text_is_cut(info.name@, 40);
        a_column_keeps_its_text(name, 40);
        assert(line.subrange(2, 4) =~= marker_text(info.is_default, info.is_virtual));
        assert forall|i: int| 0 <= i < name.len() implies line[5 + i] == name[i] by {
            assert(padded(name, 40).take(name.len() as int)[i] == name[i]);
        }
        assert(line.subrange(5, 5 + name.len() as int) =~= name);
        assert(line.skip(46) =~= (match levels {
            Some(shown) => level_columns(shown.volume@, shown.muted, shown.peak@),
            None => "(no volume interface)"@,
        }));
    } else {
        lemma_ends("   (inactive) "@, info.name@);
    }
}

/// Every output has its line, in order, with the levels that were read of it.
pub proof fn every_output_has_its_line(
    list: Vec<DeviceInfo>,
    levels: Seq<Option<ShownLevels>>,
    i: int,
)
    requires
        0 <= i < list@.len(),
    ensures
        output_report(Ok(list), levels).len() == list@.len(),
        output_report(Ok(list), levels)[i] == output_text(list@[i], levels[i]),
{
}

// ---------------------------------------------------------------------------
// What the reports tell
// ---------------------------------------------------------------------------

/// Every listed device has its two lines, in order: one ends in its tag, behind
/// its name, and the other ends in its id.
pub proof fn every_device_has_its_lines(devices: Seq<DeviceInfo>, k: int)
    requires
        0 <= k < devices.len(),
    ensures
        device_lines(devices).len() == 2 * devices.len(),
        ends_with(device_lines(devices)[2 * k + 1], devices[k].id@),
        ends_with(
            device_lines(devices)[2 * k],
            display_text(devices[k].name@, opt_text(devices[k].adapter)) + tag_text(devices[k]),
        ),
    decreases devices.len(),
{
    let front = devices.drop_last();
    let info = devices.last();
    if front.len() > 0 {
        every_device_has_its_lines(
            front,
            if k < front.len() {
                k
            } else {
                0
            },
        );
    } else {
        assert(device_lines(front).len() == 0);
    }
    if k < front.len() {
        assert(device_lines(devices)[2 * k] == device_lines(front)[2 * k]);
        assert(device_lines(devices)[2 * k + 1] == device_lines(front)[2 * k + 1]);
    }
    if k == front.len() {
        let shown = display_text(info.name@, opt_text(info.adapter)) + tag_text(info);
        lemma_ends("      "@, info.id@);
        lemma_ends("  "@, shown);
        assert("  "@ + display_text(info.name@, opt_text(info.adapter)) + tag_text(info) =~= "  "@
            + shown);
    }
}

/// The report lists the active endpoints, and says how many more there are just
/// where there are more.
pub proof fn endpoints_that_are_not_listed_are_counted(list: Vec<DeviceInfo>, all: Option<usize>)
    requires
        list@.len() > 0,
    ensures
        ({
            let report = endpoint_report(Ok(list), all);
            &&& report.take(2 * list@.len() as int) == device_lines(list@)
            &&& report.len() == 2 * list@.len() + (if all is Some && all->0 > list@.len() {
                1int
            } else {
                0
            })
            &&& forall|more: nat|
                all is Some && more > 0 && all->0 == list@.len() + more ==> report.last()
                    == "  (+"@ + #[trigger] decimal(more)
                    + " disabled/unplugged endpoint(s) not listed)"@
        }),
{
    every_device_has_its_lines(list@, 0);
    let report = endpoint_report(Ok(list), all);
    assert(report.take(2 * list@.len() as int) =~= device_lines(list@));
}

/// The report on the driver answers each question in its own line, and gives
/// the folder and the published name where there are any.
pub proof fn the_driver_report_answers_each_question(
    status: DriverStatus,
    elevated: bool,
    published: Option<String>,
)
    ensures
        ({
            let report = driver_report(status, elevated, published);
            &&& report.len() == (if published is Some {
                7int
            } else {
                6
            })
            &&& ends_with(report[1], "yes"@) <==> status.package_staged
            &&& ends_with(report[2], "yes"@) <==> status.device_present
            &&& ends_with(report[3], "yes"@) <==> status.endpoint_active
            &&& ends_with(report[4], "yes"@) <==> elevated
            &&& status.source_dir is Some ==> ends_with(report[5], status.source_dir->0@)
            &&& published is Some ==> ends_with(report[6], published->0@)
        }),
{
    let report = driver_report(status, elevated, published);
    lemma_answer("  package    : "@, status.package_staged);
    lemma_answer("  device node: "@, status.device_present);
    lemma_answer("  endpoint   : "@, status.endpoint_active);
    lemma_answer("  elevated   : "@, elevated);
    if let Some(dir) = status.source_dir {
        lemma_ends("  files      : "@, dir@);
    }
    if let Some(name) = published {
        lemma_ends("  staged as  : "@, name@);
    }
}

proof fn lemma_answer(question: Seq<char>, value: bool)
    ensures
        ends_with(question + yes_no_text(value), "yes"@) <==> value,
{
    reveal_strlit("yes");
    reveal_strlit("no");
    let line = question + yes_no_text(value);
    lemma_ends(question, yes_no_text(value));
    if !value {
        assert(line.last() == 'o');
        if ends_with(line, "yes"@) {
            assert(line.skip(line.len() - 3).last() == 's');
        }
    }
}

/// A preset's row starts with its name and ends with its effect levels.
pub proof fn a_preset_has_its_row(p: FacPreset)
    ensures
        preset_row(p).subrange(2, 2 + p.name@.len() as int) == p.name@,
        ends_with(preset_row(p), summary_text(p.mains@, 6)),
{
    reveal_strlit("  ");
    let name = padded(p.name@, 20);
    a_column_keeps_its_text(p.name@, 20);
    let row = preset_row(p);
    assert forall|i: int| 0 <= i < p.name@.len() implies row[2 + i] == p.name@[i] by {
        assert(name.take(p.name@.len() as int)[i] == p.name@[i]);
    }
    assert(row.subrange(2, 2 + p.name@.len() as int) =~= p.name@);
    let head = "  "@ + name + " "@ + right_aligned(decimal(p.bands@.len()), 2) + " band(s)  "@;
    lemma_ends(head, summary_text(p.mains@, 6));
}

/// A folder of presets is listed from its beginning, each with its own row, up
/// to as many as are listed at most; how many more there are is said behind.
pub proof fn presets_are_listed_in_order(
    library: Seq<PresetEntry>,
    parsed: Seq<Result<FacPreset, String>>,
    bundled: Seq<FacPreset>,
    i: int,
)
    requires
        0 <= i < library.len(),
        i < LISTED_PRESETS,
    ensures
        ({
            let report = preset_report(library, parsed, bundled);
            &&& report[1 + i] == entry_row(library[i], parsed[i])
            &&& report.len() == (if library.len() <= LISTED_PRESETS {
                (library.len() + 2) as int
            } else {
                LISTED_PRESETS + 3
            })
            &&& report.last() == slot_map_line()
            &&& forall|more: nat|
                more > 0 && library.len() == LISTED_PRESETS + more ==> report[31] == "  ... and "@
                    + #[trigger] decimal(more) + " more"@
        }),
{
}

/// While the folder is empty the bundled presets are listed instead, by name.
pub proof fn bundled_presets_are_listed_by_name(
    parsed: Seq<Result<FacPreset, String>>,
    bundled: Seq<FacPreset>,
    i: int,
)
    requires
        0 <= i < bundled.len(),
        i < LISTED_PRESETS,
    ensures
        preset_report(Seq::empty(), parsed, bundled)[3 + i] == preset_row(by_rank(bundled)[i]),
        by_rank(bundled).to_multiset() == bundled.to_multiset(),
        forall|a: int, b: int|
            0 <= a < b < bundled.len() ==> !text_before(
                lowercase((#[trigger] by_rank(bundled)[b]).name@),
                lowercase((#[trigger] by_rank(bundled)[a]).name@),
            ),
{
    sorting_orders(bundled);
    let sorted = by_rank(bundled);
    assert forall|a: int, b: int| 0 <= a < b < bundled.len() implies !text_before(
        lowercase((#[trigger] by_rank(bundled)[b]).name@),
        lowercase((#[trigger] by_rank(bundled)[a]).name@),
    ) by {
        assert(!sorted[b].ranks_before(&sorted[a]));
    }
}

/// A rule for a device that is there shows the device's name; one for a device
/// that is not shows the id that it waits for, and says so.
pub proof fn a_rule_shows_its_device(id: String, devices: Seq<DeviceInfo>, k: int)
    ensures
        (0 <= k < devices.len() && devices[k].id@ == id@ && forall|j: int|
            0 <= j < k ==> (#[trigger] devices[j]).id@ != id@) ==> destination_text(
            (RouteTarget::Device { endpoint_id: id }),
            devices,
        ) == display_text(devices[k].name@, opt_text(devices[k].adapter)),
        (forall|j: int| 0 <= j < devices.len() ==> (#[trigger] devices[j]).id@ != id@)
            ==> destination_text((RouteTarget::Device { endpoint_id: id }), devices).take(
            id@.len() as int,
        ) == id@ && ends_with(
            destination_text((RouteTarget::Device { endpoint_id: id }), devices),
            "not present"@,
        ),
{
    lemma_find_by_id(devices, id@);
    if forall|j: int| 0 <= j < devices.len() ==> (#[trigger] devices[j]).id@ != id@ {
        let text = destination_text((RouteTarget::Device { endpoint_id: id }), devices);
        assert(text.take(id@.len() as int) =~= id@);
        reveal_strlit("  <-- device not present");
        reveal_strlit("not present");
        assert(text.skip(text.len() - "not present"@.len()) =~= "not present"@);
    }
}

/// Every rule has its lines, in order, and those of one rule stand together: the
/// first says where it sends and whether it is off, the second and the third
/// name the application and the mechanism, and a fourth is there just where the
/// application passes the enhancer by.
pub proof fn every_rule_has_its_lines(
    rules: Seq<RouteRule>,
    devices: Seq<DeviceInfo>,
    k: int,
) -> (at: int)
    requires
        0 <= k < rules.len(),
    ensures
        ({
            let report = rule_report(rules, devices);
            let size: int = if rules[k].target is Device {
                4
            } else {
                3
            };
            &&& 0 <= at && at + size <= report.len()
            &&& report.subrange(at, at + size) == rule_lines(rules[k], devices)
            &&& k == 0 ==> at == 0
            &&& ends_with(report[at], "   (disabled)"@) || rules[k].enabled
            &&& rules[k].enabled ==> ends_with(
                report[at],
                destination_text(rules[k].target, devices),
            )
            &&& ends_with(report[at + 1], storage_text(rules[k].app@))
            &&& ends_with(report[at + 2], method_name(rules[k].method))
        }),
    decreases rules.len(),
{
    let report = rule_report(rules, devices);
    let front = rule_report(rules.drop_last(), devices);
    let lines = rule_lines(rules[k], devices);
    let size: int = if rules[k].target is Device {
        4
    } else {
        3
    };
    let at: int = if k == rules.len() - 1 {
        front.len() as int
    } else {
        every_rule_has_its_lines(rules.drop_last(), devices, k)
    };
    if k == 0 && k == rules.len() - 1 {
        assert(rules.drop_last().len() == 0);
    }
    assert(report.subrange(at, at + size) =~= lines);
    assert(report[at] == lines[0] && report[at + 1] == lines[1] && report[at + 2] == lines[2]);
    lemma_ends("      app    : "@, storage_text(rules[k].app@));
    lemma_ends("      method : "@, method_name(rules[k].method));
    let place = "  "@ + padded(elided(rules[k].display_name@, 34), 34) + " -> "@;
    let target = destination_text(rules[k].target, devices);
    lemma_ends(place + target, "   (disabled)"@);
    reveal_strlit("");
    lemma_ends(place, target);
    assert((place + target) + ""@ =~= place + target);
    at
}

/// The mechanisms are told apart.
pub proof fn mechanisms_are_told_apart(a: RouteMethod, b: RouteMethod)
    ensures
        method_name(a) == method_name(b) <==> a == b,
{
    reveal_strlit("Policy");
    reveal_strlit("Injection");
    assert("Policy"@[0] == 'P' && "Injection"@[0] == 'I');
}

/// A session is in the group of an application just where it is one of that
/// application's, and the sessions of a group keep their order.
pub proof fn a_group_holds_its_sessions(keys: Seq<AppKey>, storage: Seq<char>, n: int)
    requires
        0 <= n <= keys.len(),
        n <= usize::MAX,
    ensures
        forall|i: usize|
            members(keys, storage, n).contains(i) <==> i < n && storage_text(
                (#[trigger] keys[i as int])@,
            ) == storage,
        forall|a: int, b: int|
            0 <= a < b < members(keys, storage, n).len() ==> (#[trigger] members(
                keys,
                storage,
                n,
            )[a]) < (#[trigger] members(keys, storage, n)[b]),
    decreases n,
{
    let list = members(keys, storage, n);
    if n > 0 {
        let front = members(keys, storage, n - 1);
        a_group_holds_its_sessions(keys, storage, n - 1);
        lemma_members_in_range(keys, storage, n - 1);
        assert forall|i: usize|
            list.contains(i) <==> i < n && storage_text((#[trigger] keys[i as int])@)
                == storage by {
            if list.contains(i) {
                let j = choose|j: int| 0 <= j < list.len() && list[j] == i;
                if j < front.len() {
                    assert(front[j] == i);
                    assert(front.contains(i));
                }
            }
            if i < n && storage_text(keys[i as int]@) == storage {
                if i == n - 1 {
                    assert(list.last() == i);
                } else {
                    assert(front.contains(i));
                    let j = choose|j: int| 0 <= j < front.len() && front[j] == i;
                    assert(list[j] == i);
                }
            }
        }
        assert forall|a: int, b: int| 0 <= a < b < list.len() implies (#[trigger] list[a]) < (
        #[trigger] list[b]) by {
            assert(list[a] == front[a]);
            if b < front.len() {
                assert(list[b] == front[b]);
            }
        }
    } else {
        assert(list =~= Seq::empty());
    }
}

/// Every session is in one group and no more, with the sessions of its own
/// application.
pub proof fn a_session_is_in_one_group(
    groups: Seq<SessionGroup>,
    keys: Seq<AppKey>,
    i: usize,
) -> (at: int)
    requires
        grouped(groups, keys, keys.len() as int),
        keys.len() <= usize::MAX,
        i < keys.len(),
    ensures
        0 <= at < groups.len(),
        groups[at].storage@ == storage_text(keys[i as int]@),
        forall|g: int|
            0 <= g < groups.len() ==> ((#[trigger] groups[g]).streams@.contains(i) <==> g == at),
{
    let at = choose|g: int|
        0 <= g < groups.len() && (#[trigger] groups[g]).storage@ == storage_text(
            keys[i as int]@,
        );
    assert(keys[i as int] == keys[i as int]);
    assert forall|g: int| 0 <= g < groups.len() implies ((#[trigger] groups[g]).streams@.contains(i)
        <==> g == at) by {
        a_group_holds_its_sessions(keys, groups[g].storage@, keys.len() as int);
        assert(storage_text(keys[i as int]@) == groups[at].storage@);
        if g < at {
            assert(text_before(groups[g].storage@, groups[at].storage@));
        }
        if at < g {
            assert(text_before(groups[at].storage@, groups[g].storage@));
        }
        lemma_text_order_total(groups[g].storage@, groups[at].storage@);
    }
    at
}

/// The loudest of several levels is one of them, or silence, and none is
/// louder.
pub proof fn none_is_louder(levels: Seq<u32>, n: int)
    requires
        0 <= n <= levels.len(),
    ensures
        loudest_of(levels, n) == float::ZERO || levels.take(n).contains(loudest_of(levels, n)),
        forall|i: int| 0 <= i < n ==> !float::below(loudest_of(levels, n), #[trigger] levels[i]),
        !float::below(loudest_of(levels, n), float::ZERO),
    decreases n,
{
    if n > 0 {
        none_is_louder(levels, n - 1);
        let best = loudest_of(levels, n - 1);
        let now = loudest_of(levels, n);
        if levels.take(n - 1).contains(best) {
            let front = levels.take(n - 1);
            let j = choose|j: int| 0 <= j < front.len() && front[j] == best;
            assert(levels.take(n)[j] == best);
        }
        assert(levels.take(n)[n - 1] == levels[n - 1]);
    }
}

/// The states of a stream are told apart.
pub proof fn session_states_are_told_apart(a: SessionState, b: SessionState)
    ensures
        session_word(a) == session_word(b) <==> a == b,
{
    reveal_strlit("Active");
    reveal_strlit("Inactive");
    reveal_strlit("Expired");
    assert("Active"@[0] == 'A' && "Inactive"@[0] == 'I' && "Expired"@[0] == 'E');
}

/// A stream shows its own device: by name where that is there, else by id.
pub proof fn a_stream_shows_its_device(session: Session, devices: Seq<DeviceInfo>, k: int)
    ensures
        (0 <= k < devices.len() && devices[k].id@ == session.device_id@ && forall|j: int|
            0 <= j < k ==> (#[trigger] devices[j]).id@ != session.device_id@) ==> ends_with(
            stream_text(session, devices),
            display_text(devices[k].name@, opt_text(devices[k].adapter)),
        ),
        (forall|j: int| 0 <= j < devices.len() ==> (#[trigger] devices[j]).id@ != session.device_id@)
            ==> ends_with(stream_text(session, devices), session.device_id@),
        stream_text(session, devices).subrange(6, 6 + session_word(session.state).len() as int)
            == session_word(session.state),
{
    lemma_find_by_id(devices, session.device_id@);
    reveal_strlit("      ");
    let word = session_word(session.state);
    let shown = match find_by_id(devices, session.device_id@) {
        Some(info) => display_text(info.name@, opt_text(info.adapter)),
        None => session.device_id@,
    };
    lemma_ends("      "@ + word + " on "@, shown);
    assert(stream_text(session, devices).subrange(6, 6 + word.len() as int) =~= word);
}

/// Every application has its lines, in order, and they stand together: the
/// second names it, and every one of its streams has a line behind.
pub proof fn every_application_has_its_lines(
    groups: Seq<SessionGroup>,
    shown: Seq<ShownGroup>,
    sessions: Seq<Session>,
    devices: Seq<DeviceInfo>,
    n: int,
    k: int,
) -> (at: int)
    requires
        0 <= k < n,
    ensures
        ({
            let report = session_report(groups, shown, sessions, devices, n);
            let note: int = if groups[k].key is SystemSounds {
                1
            } else {
                0
            };
            let streams = groups[k].streams@;
            &&& 0 <= at && at + 2 + note + streams.len() <= report.len()
            &&& k == 0 ==> at == 0
            &&& ends_with(
                report[at],
                level_columns(shown[k].volume@, all_muted(streams, sessions), shown[k].peak@),
            )
            &&& ends_with(report[at + 1], groups[k].storage@)
            &&& forall|i: int|
                0 <= i < streams.len() ==> report[at + 2 + note + i] == stream_text(
                    sessions[#[trigger] streams[i] as int],
                    devices,
                )
        }),
    decreases n,
{
    let report = session_report(groups, shown, sessions, devices, n);
    let front = session_report(groups, shown, sessions, devices, n - 1);
    if k == n - 1 {
        let at: int = front.len() as int;
        let lines = group_lines(groups[k], shown[k], sessions, devices);
        let streams = groups[k].streams@;
        let columns = level_columns(shown[k].volume@, all_muted(streams, sessions), shown[k].peak@);
        assert(report[at] == lines[0] && report[at + 1] == lines[1]);
        let head = "  "@ + padded(elided(shown[k].name@, 34), 34) + " "@ + right_aligned(
            decimal(streams.len()),
            5,
        ) + " stream(s)  "@;
        lemma_ends(head, columns);
        lemma_ends("      key: "@, groups[k].storage@);
        let note: int = if groups[k].key is SystemSounds {
            1
        } else {
            0
        };
        assert forall|i: int| 0 <= i < streams.len() implies report[at + 2 + note + i]
            == stream_text(sessions[#[trigger] streams[i] as int], devices) by {
            assert(report[at + 2 + note + i] == lines[2 + note + i]);
        }
        at
    } else {
        let at = every_application_has_its_lines(groups, shown, sessions, devices, n - 1, k);
        assert(forall|j: int| 0 <= j < front.len() ==> report[j] == #[trigger] front[j]);
        let note: int = if groups[k].key is SystemSounds {
            1
        } else {
            0
        };
        let streams = groups[k].streams@;
        assert(report[at] == front[at] && report[at + 1] == front[at + 1]);
        assert forall|i: int| 0 <= i < streams.len() implies report[at + 2 + note + i]
            == stream_text(sessions[#[trigger] streams[i] as int], devices) by {
            assert(report[at + 2 + note + i] == front[at + 2 + note + i]);
        }
        at
    }
}

/// The enhancer is heard just where there is a card, there is a default, and
/// they are the same endpoint; with no card nothing else matters.
pub proof fn the_diagnosis_follows_the_ids(
    default: Result<DeviceInfo, String>,
    card: Option<DeviceInfo>,
)
    ensures
        diagnosis_of(default, card) == Diagnosis::Enhanced <==> (card is Some && default is Ok
            && card->0.id@ == default->Ok_0.id@),
        diagnosis_of(default, card) == Diagnosis::Bypassed <==> (card is Some && default is Ok
            && card->0.id@ != default->Ok_0.id@),
        diagnosis_of(default, card) == Diagnosis::NoCard <==> card is None,
        diagnosis_of(default, card) == Diagnosis::NoDefault <==> (card is Some && default is Err),
        diagnosis_report(default, card).len() == (match diagnosis_of(default, card) {
            Diagnosis::NoCard => 4int,
            Diagnosis::NoDefault => 2,
            Diagnosis::Enhanced => 3,
            Diagnosis::Bypassed => 7,
        }),
        default is Ok ==> ends_with(
            diagnosis_report(default, card)[0],
            display_text(default->Ok_0.name@, opt_text(default->Ok_0.adapter)),
        ),
        diagnosis_of(default, card) == Diagnosis::Bypassed ==> ends_with(
            diagnosis_report(default, card)[2],
            default->Ok_0.name@,
        ) && ends_with(diagnosis_report(default, card)[3], card->0.name@),
{
    if let Ok(info) = default {
        lemma_ends(
            "  system default output : "@,
            display_text(info.name@, opt_text(info.adapter)),
        );
        lemma_ends("      default is        : "@, info.name@);
    }
    if let Some(info) = card {
        lemma_ends("      virtual card is   : "@, info.name@);
    }
}

/// What has come to a counter makes up for the difference; a counter that
/// started over has gained nothing.
pub proof fn growth_makes_up_the_difference(now: u64, last: u64)
    ensures
        now >= last ==> last + growth(now, last) == now,
        now < last ==> growth(now, last) == 0,
{
}

/// A counter stands in front of what has come to it, each in its column.
pub proof fn a_counter_stands_in_its_columns(now: u64, last: u64)
    requires
        decimal(now as nat).len() <= 9,
        decimal(growth(now, last)).len() <= 7,
    ensures
        counter_columns(now, last).len() == 20,
        counter_columns(now, last).subrange(9 - decimal(now as nat).len(), 9) == decimal(
            now as nat,
        ),
        counter_columns(now, last).subrange(12, 12 + decimal(growth(now, last)).len() as int)
            == decimal(growth(now, last)),
{
    reveal_strlit(" (+");
    reveal_strlit(")");
    let c = counter_columns(now, last);
    let a = decimal(now as nat);
    let b = decimal(growth(now, last));
    assert(c.subrange(9 - a.len(), 9) =~= a);
    assert(c.subrange(12, 12 + b.len() as int) =~= b);
}

/// The line on a run shows each figure in a column of its own: what was
/// captured, what was rendered, what ran short, what was dropped and what is
/// waiting.
pub proof fn a_run_shows_its_figures(
    elapsed: Seq<char>,
    status: EngineStatus,
    last_captured: u64,
    last_rendered: u64,
)
    requires
        elapsed.len() <= 5,
        counter_columns(status.captured_frames, last_captured).len() == 20,
        counter_columns(status.rendered_frames, last_rendered).len() == 20,
        decimal(status.underruns as nat).len() <= 6,
        decimal(status.overruns as nat).len() <= 6,
        decimal(status.latency_ms as nat).len() <= 3,
    ensures
        ({
            let line = progress_text(elapsed, status, last_captured, last_rendered);
            &&& line.len() == 113
            &&& line.subrange(7 - elapsed.len(), 7) == elapsed
            &&& line[18] == 't' <==> status.running
            &&& line.subrange(28, 48) == counter_columns(status.captured_frames, last_captured)
            &&& line.subrange(54, 74) == counter_columns(status.rendered_frames, last_rendered)
            &&& line.subrange(88 - decimal(status.underruns as nat).len(), 88) == decimal(
                status.underruns as nat,
            )
            &&& line.subrange(101 - decimal(status.overruns as nat).len(), 101) == decimal(
                status.overruns as nat,
            )
            &&& line.subrange(110 - decimal(status.latency_ms as nat).len(), 110) == decimal(
                status.latency_ms as nat,
            )
        }),
{
    reveal_strlit("  ");
    reveal_strlit("s  running=");
    reveal_strlit("true");
    reveal_strlit("false");
    reveal_strlit(" cap ");
    reveal_strlit("  ren ");
    reveal_strlit("  under ");
    reveal_strlit("  drop ");
    reveal_strlit("  buf ");
    reveal_strlit(" ms");
    let line = progress_text(elapsed, status, last_captured, last_rendered);
    let under = decimal(status.underruns as nat);
    let over = decimal(status.overruns as nat);
    let wait = decimal(status.latency_ms as nat);
    assert(line.subrange(7 - elapsed.len(), 7) =~= elapsed);
    assert(line.subrange(28, 48) =~= counter_columns(status.captured_frames, last_captured));
    assert(line.subrange(54, 74) =~= counter_columns(status.rendered_frames, last_rendered));
    assert(line.subrange(88 - under.len(), 88) =~= under);
    assert(line.subrange(101 - over.len(), 101) =~= over);
    assert(line.subrange(110 - wait.len(), 110) =~= wait);
}

/// What a run came to names both ends, gives the result, and has a line for an
/// error just where there was one.
pub proof fn a_run_is_reported_whole(status: EngineStatus, peak: Seq<char>)
    ensures
        ({
            let report = run_report(status, peak);
            let size = report.len() as int;
            &&& size == (if status.last_error is Some {
                6int
            } else {
                5
            })
            &&& status.source is Some ==> ends_with(report[0], status.source->0@)
            &&& status.sink is Some ==> ends_with(report[1], status.sink->0@)
            &&& ends_with(report[2], crate::engine::summary_text(status))
            &&& status.last_error is Some ==> ends_with(report[3], status.last_error->0@)
            &&& ends_with(report[size - 2], peak)
            &&& ends_with(
                report[size - 1],
                decimal(status.clipped_samples as nat) + " sample(s)"@,
            )
        }),
{
    if let Some(text) = status.source {
        lemma_ends("  source : "@, text@);
    }
    if let Some(text) = status.sink {
        lemma_ends("  sink   : "@, text@);
    }
    lemma_ends("  result : "@, crate::engine::summary_text(status));
    if let Some(error) = status.last_error {
        lemma_ends("  error  : "@, error@);
    }
    lemma_ends("  peak   : "@, peak);
    let count = decimal(status.clipped_samples as nat) + " sample(s)"@;
    lemma_ends("  clipped: "@, count);
    assert("  clipped: "@ + decimal(status.clipped_samples as nat) + " sample(s)"@
        =~= "  clipped: "@ + count);
}

/// A run that was told its ends says which is which; one that was told neither
/// says nothing.
pub proof fn overrides_are_shown(source: Option<Seq<char>>, sink: Option<Seq<char>>)
    ensures
        override_text(source, sink) is Some <==> source is Some || sink is Some,
        source is Some ==> override_text(source, sink)->0.subrange(
            22,
            22 + source->0.len() as int,
        ) == source->0,
        sink is Some ==> ends_with(override_text(source, sink)->0, " --sink "@ + sink->0),
{
    reveal_strlit("  overrides: --source ");
    if let Some(id) = source {
        assert(override_text(source, sink)->0.subrange(22, 22 + id.len() as int) =~= id);
    }
    if let Some(id) = sink {
        let first = match source {
            Some(text) => text,
            None => "(auto)"@,
        };
        let head = "  overrides: --source "@ + first;
        lemma_ends(head, " --sink "@ + id);
        assert(head + " --sink "@ + id =~= head + (" --sink "@ + id));
    }
}

/// A line that is due is printed whatever the time; only then does a run whose
/// time is up end, and one that has time left waits.
pub proof fn a_due_line_is_printed_first(elapsed_ms: int, deadline_ms: int, since_print_ms: int)
    ensures
        watch_next(elapsed_ms, deadline_ms, since_print_ms) == WatchStep::Print <==> since_print_ms
            >= WATCH_INTERVAL_MS,
        watch_next(elapsed_ms, deadline_ms, since_print_ms) == WatchStep::Stop <==> since_print_ms
            < WATCH_INTERVAL_MS && deadline_ms <= elapsed_ms,
        watch_next(elapsed_ms, deadline_ms, since_print_ms) == WatchStep::Wait <==> since_print_ms
            < WATCH_INTERVAL_MS && elapsed_ms < deadline_ms,
{
}

} // verus!
