//! `.fac` presets: parsing, the embedded library, and the user's drop-in
//! folder.
//!
//! Applying a preset goes through the engine. Showing one does not: to list
//! presets, or to draw a curve before the engine has ever seen the file, the
//! name and the band table are read here.
//!
//! The format is plain text. Rather than trust line numbers, the parser looks
//! for the labelled sections; a labelled line is `value: label`.

use crate::ffi::{
    DfxEffectId, DFX_EFFECT_AMBIENCE, DFX_EFFECT_BASS, DFX_EFFECT_DYNAMIC_BOOST,
    DFX_EFFECT_FIDELITY, DFX_EFFECT_SURROUND,
};
use crate::path::{file_name, paths_equal, same_path, windows_file_name};
use crate::process::{find_last_index, last_index_of};
use crate::sort::{by_rank, sort_by_rank, Ranked};
use crate::text::{
    chars_of, comes_before, debug_quoted, decimal, eq_ignoring_case, from_utf8_lossy, has_prefix,
    is_digit, lemma_text_order_total, lemma_text_order_transitive, lowercase, natural, parse_i32,
    parse_natural, parse_unsigned, quoted, rows, same_chars, same_ignoring_case, same_text, signed,
    signed_decimal, split, split_at_char, split_chars, split_once, starts_with, string_of,
    strip_prefix, strip_suffix, text_before, to_decimal, to_lowercase, to_signed_decimal, trim,
    trim_end_of, trim_start, trimmed, trimmed_end_of, trimmed_start, unsigned, utf8_lossy,
    without_prefix, without_suffix,
};
use vstd::prelude::*;
use vstd::slice::slice_subrange;
use vstd::string::*;

verus! {

/// The six `Main` slots in a `.fac` file, in file order.
pub const NUM_MAIN_SLOTS: usize = 6;

/// The effect that a `Main` slot of the file sets.
///
/// These are not the same numbering: the file has Surround in slot 1 and
/// Ambience in slot 3. Slot 2 is reserved and has no effect.
pub open spec fn slot_effect(slot: int) -> Option<DfxEffectId> {
    if slot == 0 {
        Some(DFX_EFFECT_FIDELITY)
    } else if slot == 1 {
        Some(DFX_EFFECT_SURROUND)
    } else if slot == 3 {
        Some(DFX_EFFECT_AMBIENCE)
    } else if slot == 4 {
        Some(DFX_EFFECT_DYNAMIC_BOOST)
    } else if slot == 5 {
        Some(DFX_EFFECT_BASS)
    } else {
        None
    }
}

/// `.fac` `Main` slot to engine effect id.
pub fn main_slot_to_effect(slot: usize) -> (r: Option<DfxEffectId>)
    ensures
        r == slot_effect(slot as int),
{
    match slot {
        0 => Some(DFX_EFFECT_FIDELITY),
        1 => Some(DFX_EFFECT_SURROUND),
        3 => Some(DFX_EFFECT_AMBIENCE),
        4 => Some(DFX_EFFECT_DYNAMIC_BOOST),
        5 => Some(DFX_EFFECT_BASS),
        _ => None,
    }
}

/// The label of a `Main` slot.
pub open spec fn slot_label(slot: int) -> Seq<char> {
    if slot == 0 {
        "Fidelity"@
    } else if slot == 1 {
        "Surround"@
    } else if slot == 2 {
        "(reserved)"@
    } else if slot == 3 {
        "Ambience"@
    } else if slot == 4 {
        "DynamicBoost"@
    } else {
        "Bass"@
    }
}

/// Human-readable label for each `Main` slot, in file order.
pub fn main_slot_label(slot: usize) -> (r: &'static str)
    requires
        slot < 6,
    ensures
        r@ == slot_label(slot as int),
{
    match slot {
        0 => "Fidelity",
        1 => "Surround",
        2 => "(reserved)",
        3 => "Ambience",
        4 => "DynamicBoost",
        _ => "Bass",
    }
}

/// The slot that sets an effect.
pub open spec fn effect_slot(effect: DfxEffectId) -> Option<int> {
    if effect == DFX_EFFECT_FIDELITY {
        Some(0int)
    } else if effect == DFX_EFFECT_SURROUND {
        Some(1int)
    } else if effect == DFX_EFFECT_AMBIENCE {
        Some(3int)
    } else if effect == DFX_EFFECT_DYNAMIC_BOOST {
        Some(4int)
    } else if effect == DFX_EFFECT_BASS {
        Some(5int)
    } else {
        None
    }
}

/// The slot that sets an effect, by number.
fn slot_of_effect(effect: DfxEffectId) -> (r: Option<usize>)
    ensures
        (match r {
            Some(slot) => effect_slot(effect) == Some(slot as int) && slot < 6,
            None => effect_slot(effect) is None,
        }),
{
    let mut slot: usize = 0;
    while slot < NUM_MAIN_SLOTS
        invariant
            slot <= 6,
            forall|k: int| 0 <= k < slot ==> #[trigger] slot_effect(k) != Some(effect),
        decreases 6 - slot,
    {
        if let Some(candidate) = main_slot_to_effect(slot) {
            if candidate == effect {
                return Some(slot);
            }
        }
        slot = slot + 1;
    }
    assert(slot_effect(0) == Some(DFX_EFFECT_FIDELITY) && slot_effect(1) == Some(
        DFX_EFFECT_SURROUND,
    ) && slot_effect(3) == Some(DFX_EFFECT_AMBIENCE) && slot_effect(4) == Some(
        DFX_EFFECT_DYNAMIC_BOOST,
    ) && slot_effect(5) == Some(DFX_EFFECT_BASS));
    None
}

/// The slot map and the effect map undo each other.
pub proof fn slots_and_effects_agree(slot: int, effect: DfxEffectId)
    requires
        0 <= slot < 6,
    ensures
        (slot_effect(slot) == Some(effect)) == (effect_slot(effect) == Some(slot)),
{
}

/// One EQ band of a preset: the decimal texts of its centre frequency in Hz
/// and of its boost or cut in dB. What the file leaves out is empty.
#[derive(Debug, PartialEq, Eq)]
pub struct Band {
    pub frequency: String,
    pub gain: String,
}

/// One parsed `.fac` file.
#[derive(Debug, PartialEq, Eq)]
pub struct FacPreset {
    /// Where it came from.
    pub path: String,
    /// Display name, taken from the third line.
    pub name: String,
    /// Format version.
    pub version: u32,
    /// The six `Main` values, 0..=127 (MIDI scale).
    pub mains: [i32; 6],
    /// Whether the EQ section is switched on.
    pub eq_on: bool,
    /// The bands, in file order.
    pub bands: Vec<Band>,
    /// The "application dependent" integers. The first five are the
    /// per-effect enable flags in the order of the slots minus the reserved
    /// one.
    pub app_flags: Vec<i32>,
}

// ---------------------------------------------------------------------------
// The format
// ---------------------------------------------------------------------------

/// The lines of a file, whichever way they end.
pub open spec fn fac_lines(text: Seq<char>) -> Seq<Seq<char>> {
    let pieces = split(text, '\n');
    Seq::new(pieces.len(), |i: int| trim_end_of(pieces[i], '\r'))
}

/// The digits at the front of a text.
pub open spec fn leading_digits(s: Seq<char>) -> Seq<char>
    decreases s.len(),
{
    if s.len() > 0 && is_digit(s[0]) {
        seq![s[0]] + leading_digits(s.drop_first())
    } else {
        Seq::empty()
    }
}

/// The number at the front of a line.
pub open spec fn leading_number(line: Seq<char>) -> Option<int> {
    natural(leading_digits(trim_start(line)), u32::MAX as int)
}

/// Whether a line carries a label.
pub open spec fn is_labeled(line: Seq<char>, label: Seq<char>) -> bool {
    match split_once(line, ':') {
        Some((_, text)) => trim(text) == label,
        None => false,
    }
}

/// The number that a line gives for a label.
pub open spec fn labeled_number(line: Seq<char>, label: Seq<char>) -> Option<int> {
    match split_once(line, ':') {
        Some((value, text)) => if trim(text) == label {
            signed(trim(value), i32::MIN as int, i32::MAX as int)
        } else {
            None
        },
        None => None,
    }
}

/// The number of the first line that gives one for a label.
pub open spec fn find_labeled(lines: Seq<Seq<char>>, label: Seq<char>) -> Option<int>
    decreases lines.len(),
{
    if lines.len() == 0 {
        None
    } else if labeled_number(lines[0], label) is Some {
        labeled_number(lines[0], label)
    } else {
        find_labeled(lines.drop_first(), label)
    }
}

/// The first line that carries a label, or the number of lines.
pub open spec fn labeled_index(lines: Seq<Seq<char>>, label: Seq<char>) -> nat
    decreases lines.len(),
{
    if lines.len() == 0 || is_labeled(lines[0], label) {
        0
    } else {
        1 + labeled_index(lines.drop_first(), label)
    }
}

/// The value of an `Integer[i]` line. A value that is no number counts as 0.
pub open spec fn entry_value(line: Seq<char>) -> Option<int> {
    match split_once(line, ':') {
        None => None,
        Some((value, label)) => match strip_prefix(trim(label), "Integer["@) {
            None => None,
            Some(rest) => match strip_suffix(rest, "]"@) {
                None => None,
                Some(digits) => if unsigned(digits, u64::MAX as int) is None {
                    None
                } else {
                    match signed(trim(value), i32::MIN as int, i32::MAX as int) {
                        Some(n) => Some(n),
                        None => Some(0),
                    }
                },
            },
        },
    }
}

/// The values of the first `count` entry lines.
pub open spec fn entry_values(lines: Seq<Seq<char>>, count: int) -> Seq<int>
    decreases lines.len(),
{
    if lines.len() == 0 || count <= 0 {
        Seq::empty()
    } else {
        match entry_value(lines[0]) {
            Some(v) => seq![v] + entry_values(lines.drop_first(), count - 1),
            None => entry_values(lines.drop_first(), count),
        }
    }
}

/// The values behind a counting header. They need not follow it directly.
pub open spec fn indexed_block(lines: Seq<Seq<char>>, header: Seq<char>) -> Seq<int> {
    let at = labeled_index(lines, header) as int;
    if at < lines.len() {
        match leading_number(lines[at]) {
            Some(count) => entry_values(lines.skip(at + 1), count),
            None => Seq::empty(),
        }
    } else {
        Seq::empty()
    }
}

/// Whether a line opens a band.
pub open spec fn opens_band(line: Seq<char>) -> bool {
    starts_with(trim(line), "Band"@)
}

/// The first line that opens a band, or the number of lines.
pub open spec fn band_start(lines: Seq<Seq<char>>) -> nat
    decreases lines.len(),
{
    if lines.len() == 0 || opens_band(lines[0]) {
        0
    } else {
        1 + band_start(lines.drop_first())
    }
}

/// The value in front of a line's colon.
pub open spec fn value_text(line: Seq<char>) -> Seq<char> {
    match split_once(line, ':') {
        Some((value, _)) => trim(value),
        None => Seq::empty(),
    }
}

/// The bands at the front of `lines`, three lines each, up to `limit`. The
/// last one may lack its gain.
pub open spec fn band_triples(lines: Seq<Seq<char>>, limit: int) -> Seq<(Seq<char>, Seq<char>)>
    decreases lines.len(),
{
    if limit <= 0 || lines.len() < 2 || !opens_band(lines[0]) {
        Seq::empty()
    } else {
        if lines.len() == 2 {
            seq![(value_text(lines[1]), Seq::empty())]
        } else {
            seq![(value_text(lines[1]), value_text(lines[2]))] + band_triples(
                lines.skip(3),
                limit - 1,
            )
        }
    }
}

/// The bands of a file: those that follow the header, up to the declared
/// number, but at least one where there is one.
pub open spec fn eq_bands(lines: Seq<Seq<char>>) -> Seq<(Seq<char>, Seq<char>)> {
    let at = labeled_index(lines, "Number of EQ Bands"@) as int;
    if at < lines.len() {
        let declared = match leading_number(lines[at]) {
            Some(n) => n,
            None => 0,
        };
        let rest = lines.skip(at + 1);
        band_triples(
            rest.skip(band_start(rest) as int),
            if declared < 1 {
                1
            } else {
                declared
            },
        )
    } else {
        Seq::empty()
    }
}

pub open spec fn or_else(n: Option<int>, default: int) -> int {
    match n {
        Some(v) => v,
        None => default,
    }
}

pub open spec fn line_at(lines: Seq<Seq<char>>, i: int) -> Seq<char> {
    if 0 <= i < lines.len() {
        lines[i]
    } else {
        Seq::empty()
    }
}

/// The texts of a list of bands.
pub open spec fn band_texts(bands: Seq<Band>) -> Seq<(Seq<char>, Seq<char>)> {
    Seq::new(bands.len(), |i: int| (bands[i].frequency@, bands[i].gain@))
}

pub open spec fn ints(values: Seq<i32>) -> Seq<int> {
    Seq::new(values.len(), |i: int| values[i] as int)
}

/// Whether a text is that of a preset.
pub open spec fn is_preset(text: Seq<char>) -> bool {
    starts_with(line_at(fac_lines(text), 0), "CLASS1"@)
}

/// Whether `p` is what the text of a preset says.
pub open spec fn reads_as(p: FacPreset, path: Seq<char>, text: Seq<char>) -> bool {
    let lines = fac_lines(text);
    &&& p.path@ == path
    &&& p.version == or_else(
        if lines.len() > 1 {
            leading_number(lines[1])
        } else {
            None
        },
        0,
    )
    &&& p.name@ == trim(line_at(lines, 2))
    &&& forall|slot: int|
        0 <= slot < 6 ==> #[trigger] p.mains@[slot] == or_else(
            find_labeled(lines, "Main "@ + decimal(slot as nat)),
            0,
        )
    &&& p.eq_on == (or_else(find_labeled(lines, "On/Off Flag"@), 1) != 0)
    &&& band_texts(p.bands@) == eq_bands(lines)
    &&& ints(p.app_flags@) == indexed_block(lines, "Number of Application Dependent Integers"@)
}

/// A byte string without the mark that may stand in front of UTF-8 text.
pub open spec fn without_bom(bytes: Seq<u8>) -> Seq<u8> {
    if bytes.len() >= 3 && bytes[0] == 0xef && bytes[1] == 0xbb && bytes[2] == 0xbf {
        bytes.skip(3)
    } else {
        bytes
    }
}

// ---------------------------------------------------------------------------
// The parser
// ---------------------------------------------------------------------------

fn strip_bom(bytes: &[u8]) -> (r: &[u8])
    ensures
        r@ == without_bom(bytes@),
{
    if bytes.len() >= 3 && bytes[0] == 0xef && bytes[1] == 0xbb && bytes[2] == 0xbf {
        assert(bytes@.subrange(3, bytes@.len() as int) =~= bytes@.skip(3));
        slice_subrange(bytes, 3, bytes.len())
    } else {
        bytes
    }
}

fn lines_of(text: &str) -> (r: Vec<Vec<char>>)
    ensures
        rows(r@) == fac_lines(text@),
{
    let chars = chars_of(text);
    let pieces = split_chars(chars.as_slice(), '\n');
    let mut out: Vec<Vec<char>> = Vec::new();
    let mut i: usize = 0;
    while i < pieces.len()
        invariant
            i <= pieces@.len(),
            rows(pieces@) == split(text@, '\n'),
            rows(out@) == fac_lines(text@).take(i as int),
        decreases pieces@.len() - i,
    {
        let ghost before = rows(out@);
        let line = vstd::slice::slice_to_vec(trimmed_end_of(pieces[i].as_slice(), '\r'));
        out.push(line);
        assert(rows(pieces@)[i as int] == pieces@[i as int]@);
        assert(rows(out@) =~= before.push(line@));
        assert(rows(out@) =~= fac_lines(text@).take(i + 1));
        i = i + 1;
    }
    assert(rows(pieces@).len() == pieces@.len());
    assert(fac_lines(text@).take(i as int) =~= fac_lines(text@));
    out
}

/// Parses the leading integer of a line.
fn leading_int(line: &[char]) -> (r: Option<u32>)
    ensures
        (match r {
            Some(n) => leading_number(line@) == Some(n as int),
            None => leading_number(line@) is None,
        }),
{
    let s = trimmed_start(line);
    let mut n: usize = 0;
    assert(s@.skip(0) =~= s@);
    assert(leading_digits(s@) =~= s@.take(0) + leading_digits(s@.skip(0)));
    while n < s.len() && '0' <= s[n] && s[n] <= '9'
        invariant
            n <= s@.len(),
            leading_digits(s@) == s@.take(n as int) + leading_digits(s@.skip(n as int)),
        decreases s@.len() - n,
    {
        proof {
            let rest = s@.skip(n as int);
            assert(rest.drop_first() =~= s@.skip(n + 1));
            assert(s@.take(n + 1) =~= s@.take(n as int).push(s@[n as int]));
            assert(s@.take(n as int) + (seq![rest[0]] + leading_digits(rest.drop_first()))
                =~= s@.take(n + 1) + leading_digits(s@.skip(n + 1)));
        }
        n = n + 1;
    }
    let digits = slice_subrange(s, 0, n);
    proof {
        assert(s@.skip(n as int).len() == 0 || !is_digit(s@.skip(n as int)[0]));
        assert(digits@ =~= s@.take(n as int));
        assert(leading_digits(s@) =~= digits@);
    }
    match parse_natural(digits, 4294967295) {
        Some(v) => {
            Some(v as u32)
        },
        None => None,
    }
}

/// Finds the first line whose label part is `label` and whose value is a
/// number, and returns the number.
fn find_labeled_int(lines: &Vec<Vec<char>>, label: &[char]) -> (r: Option<i32>)
    ensures
        (match r {
            Some(n) => find_labeled(rows(lines@), label@) == Some(n as int),
            None => find_labeled(rows(lines@), label@) is None,
        }),
{
    let mut i: usize = 0;
    let ghost all = rows(lines@);
    assert(all.skip(0) =~= all);
    while i < lines.len()
        invariant
            i <= lines@.len(),
            all == rows(lines@),
            find_labeled(all, label@) == find_labeled(all.skip(i as int), label@),
        decreases lines@.len() - i,
    {
        assert(all.skip(i as int)[0] == lines@[i as int]@);
        if let Some((value, text)) = split_at_char(lines[i].as_slice(), ':') {
            if same_chars(trimmed(text), label) {
                if let Some(n) = parse_i32(trimmed(value)) {
                    return Some(n);
                }
            }
        }
        assert(all.skip(i as int).drop_first() =~= all.skip(i + 1));
        i = i + 1;
    }
    None
}

/// Finds the first line whose label part is `label`.
fn find_labeled_line(lines: &Vec<Vec<char>>, label: &[char]) -> (r: usize)
    ensures
        r == labeled_index(rows(lines@), label@),
        r <= lines@.len(),
{
    let mut i: usize = 0;
    let ghost all = rows(lines@);
    assert(all.skip(0) =~= all);
    while i < lines.len()
        invariant
            i <= lines@.len(),
            all == rows(lines@),
            labeled_index(all, label@) == i + labeled_index(all.skip(i as int), label@),
        decreases lines@.len() - i,
    {
        assert(all.skip(i as int)[0] == lines@[i as int]@);
        if let Some((_, text)) = split_at_char(lines[i].as_slice(), ':') {
            if same_chars(trimmed(text), label) {
                return i;
            }
        }
        assert(all.skip(i as int).drop_first() =~= all.skip(i + 1));
        i = i + 1;
    }
    i
}

fn entry_int(line: &[char]) -> (r: Option<i32>)
    ensures
        (match r {
            Some(n) => entry_value(line@) == Some(n as int),
            None => entry_value(line@) is None,
        }),
{
    let opening = chars_of("Integer[");
    let closing = chars_of("]");
    match split_at_char(line, ':') {
        None => None,
        Some((value, label)) => match without_prefix(trimmed(label), opening.as_slice()) {
            None => None,
            Some(rest) => match without_suffix(rest, closing.as_slice()) {
                None => None,
                Some(digits) => match parse_unsigned(digits, 18446744073709551615) {
                    None => None,
                    Some(_) => match parse_i32(trimmed(value)) {
                        Some(n) => Some(n),
                        None => Some(0),
                    },
                },
            },
        },
    }
}

/// Reads the values of the `Integer[i]` lines behind a counting header.
///
/// The entries are not adjacent to the header: counts of sibling sections
/// stand in between. The scan takes only lines that read as `Integer[i]` and
/// stops once the declared count is collected.
fn parse_indexed_block(lines: &Vec<Vec<char>>, header_label: &[char]) -> (r: Vec<i32>)
    ensures
        ints(r@) == indexed_block(rows(lines@), header_label@),
{
    let ghost all = rows(lines@);
    let at = find_labeled_line(lines, header_label);
    let mut out: Vec<i32> = Vec::new();
    assert(ints(out@) =~= Seq::empty());
    if at == lines.len() {
        return out;
    }
    assert(all[at as int] == lines@[at as int]@);
    let count: u32 = match leading_int(lines[at].as_slice()) {
        Some(count) => count,
        None => {
            return out;
        },
    };
    let mut left: u32 = count;
    let mut i: usize = at + 1;
    let ghost wanted = entry_values(all.skip(at + 1), count as int);
    assert(ints(out@) + entry_values(all.skip(i as int), left as int) =~= wanted);
    while i < lines.len() && left > 0
        invariant
            i <= lines@.len(),
            all == rows(lines@),
            ints(out@) + entry_values(all.skip(i as int), left as int) == wanted,
        decreases lines@.len() - i,
    {
        let ghost before = ints(out@);
        assert(all.skip(i as int)[0] == lines@[i as int]@);
        assert(all.skip(i as int).drop_first() =~= all.skip(i + 1));
        if let Some(value) = entry_int(lines[i].as_slice()) {
            out.push(value);
            left = left - 1;
            proof {
                assert(ints(out@) =~= before.push(value as int));
                assert(before + (seq![value as int] + entry_values(
                    all.skip(i + 1),
                    left as int,
                )) =~= ints(out@) + entry_values(all.skip(i + 1), left as int));
            }
        }
        i = i + 1;
    }
    assert(ints(out@) + Seq::<int>::empty() =~= ints(out@));
    out
}

/// Reads the value before the colon of a line.
fn value_before_colon(line: &[char]) -> (r: String)
    ensures
        r@ == value_text(line@),
{
    match split_at_char(line, ':') {
        Some((value, _)) => string_of(trimmed(value)),
        None => String::new(),
    }
}

fn line_opens_band(line: &[char]) -> (r: bool)
    ensures
        r == opens_band(line@),
{
    let prefix = chars_of("Band");
    has_prefix(trimmed(line), prefix.as_slice())
}

/// Scans the EQ section: `Band N` / `CF` / `Boost/Cut` triples.
///
/// No bands is not an error, just a preset with no curve.
fn parse_eq_bands(lines: &Vec<Vec<char>>) -> (r: Vec<Band>)
    ensures
        band_texts(r@) == eq_bands(rows(lines@)),
{
    let ghost all = rows(lines@);
    let label = chars_of("Number of EQ Bands");
    let at = find_labeled_line(lines, label.as_slice());
    let mut bands: Vec<Band> = Vec::new();
    assert(band_texts(bands@) =~= Seq::empty());
    let total: usize = lines.len();
    if at == total {
        return bands;
    }
    assert(all[at as int] == lines@[at as int]@);
    let declared: u32 = match leading_int(lines[at].as_slice()) {
        Some(n) => n,
        None => 0,
    };
    let mut left: u32 = if declared < 1 {
        1
    } else {
        declared
    };
    let ghost rest = all.skip(at + 1);
    let mut cursor: usize = at + 1;
    assert(rest.skip(0) =~= rest);
    while cursor < total && !line_opens_band(lines[cursor].as_slice())
        invariant
            at + 1 <= cursor <= total == lines@.len(),
            all == rows(lines@),
            rest == all.skip(at + 1),
            band_start(rest) == (cursor - at - 1) + band_start(rest.skip(cursor - at - 1)),
        decreases total - cursor,
    {
        let ghost k = cursor - at - 1;
        assert(rest.skip(k)[0] == lines@[cursor as int]@);
        assert(rest.skip(k).drop_first() =~= rest.skip(k + 1));
        cursor = cursor + 1;
    }
    proof {
        let k = cursor - at - 1;
        if cursor < total {
            assert(rest.skip(k)[0] == lines@[cursor as int]@);
        } else {
            assert(rest.skip(k).len() == 0);
        }
        assert(band_start(rest) == k);
        assert(rest.skip(k) =~= all.skip(cursor as int));
    }
    let ghost wanted = band_triples(all.skip(cursor as int), left as int);
    assert(band_texts(bands@) + wanted =~= wanted);
    while left > 0 && cursor < total && total - cursor >= 2 && line_opens_band(
        lines[cursor].as_slice(),
    )
        invariant
            cursor <= total == lines@.len(),
            all == rows(lines@),
            band_texts(bands@) + band_triples(all.skip(cursor as int), left as int) == wanted,
        decreases total - cursor,
    {
        let ghost here = all.skip(cursor as int);
        let ghost before = band_texts(bands@);
        proof {
            assert(here[0] == lines@[cursor as int]@);
            assert(here[1] == lines@[cursor + 1]@);
        }
        let frequency = value_before_colon(lines[cursor + 1].as_slice());
        let gain = if total - cursor > 2 {
            assert(here[2] == lines@[cursor + 2]@);
            value_before_colon(lines[cursor + 2].as_slice())
        } else {
            String::new()
        };
        bands.push(Band { frequency, gain });
        left = left - 1;
        proof {
            assert(band_texts(bands@) =~= before.push((frequency@, gain@)));
            if total - cursor > 2 {
                assert(here.skip(3) =~= all.skip(cursor + 3));
                assert(before + (seq![(frequency@, gain@)] + band_triples(
                    here.skip(3),
                    left as int,
                )) =~= band_texts(bands@) + band_triples(all.skip(cursor + 3), left as int));
            } else {
                assert(gain@ =~= Seq::empty());
                assert(band_triples(all.skip(total as int), left as int) =~= Seq::empty());
                assert(before + seq![(frequency@, Seq::<char>::empty())] =~= band_texts(bands@)
                    + band_triples(all.skip(total as int), left as int));
            }
        }
        cursor = if total - cursor > 2 {
            cursor + 3
        } else {
            total
        };
    }
    proof {
        let here = all.skip(cursor as int);
        if cursor < total {
            assert(here[0] == lines@[cursor as int]@);
        }
        assert(band_triples(here, left as int) =~= Seq::empty());
        assert(band_texts(bands@) + Seq::<(Seq<char>, Seq<char>)>::empty() =~= band_texts(bands@));
    }
    bands
}

fn main_value(lines: &Vec<Vec<char>>, slot: u64) -> (r: i32)
    ensures
        r == or_else(find_labeled(rows(lines@), "Main "@ + decimal(slot as nat)), 0),
{
    let mut label: String = "Main ".to_owned();
    let number = to_decimal(slot);
    label.append(number.as_str());
    let chars = chars_of(label.as_str());
    match find_labeled_int(lines, chars.as_slice()) {
        Some(n) => n,
        None => 0,
    }
}

/// The `Main` value of an effect.
pub open spec fn main_of(mains: Seq<i32>, effect: DfxEffectId) -> Option<i32> {
    match effect_slot(effect) {
        Some(slot) => Some(mains[slot]),
        None => None,
    }
}

/// Whether the flag of an effect is set. The flags leave out the reserved slot.
pub open spec fn flag_is_set(flags: Seq<i32>, effect: DfxEffectId) -> bool {
    match effect_slot(effect) {
        Some(slot) => {
            let flag = if slot > 2 {
                slot - 1
            } else {
                slot
            };
            flag < flags.len() && flags[flag] != 0
        },
        None => false,
    }
}

/// The message for a file that is no preset.
pub open spec fn not_a_preset(header: Seq<char>) -> Seq<char> {
    "not a CLASS1 preset file (first line was "@ + quoted(header) + ")"@
}

impl FacPreset {
    /// Parses the text of a `.fac` file. Accepts CRLF or LF.
    pub fn from_text(path: &str, text: &str) -> (r: Result<FacPreset, String>)
        ensures
            r is Ok == is_preset(text@),
            r is Ok ==> reads_as(r->Ok_0, path@, text@),
            r is Err ==> r->Err_0@ == not_a_preset(line_at(fac_lines(text@), 0)),
    {
        let lines = lines_of(text);
        let ghost all = rows(lines@);
        let none: Vec<char> = Vec::new();
        let header: &[char] = if lines.len() > 0 {
            lines[0].as_slice()
        } else {
            none.as_slice()
        };
        assert(header@ =~= line_at(all, 0));
        let magic = chars_of("CLASS1");
        if !has_prefix(header, magic.as_slice()) {
            let first = string_of(header);
            let shown = debug_quoted(first.as_str());
            let mut message: String = "not a CLASS1 preset file (first line was ".to_owned();
            message.append(shown.as_str());
            message.append(")");
            return Err(message);
        }
        let version: u32 = if lines.len() > 1 {
            assert(all[1] == lines@[1]@);
            match leading_int(lines[1].as_slice()) {
                Some(n) => n,
                None => 0,
            }
        } else {
            0
        };
        let name = if lines.len() > 2 {
            assert(all[2] == lines@[2]@);
            string_of(trimmed(lines[2].as_slice()))
        } else {
            String::new()
        };
        proof {
            if all.len() <= 2 {
                assert(line_at(all, 2) =~= Seq::empty());
                assert(trim(Seq::<char>::empty()) =~= Seq::empty());
            }
        }
        let mains: [i32; 6] = [
            main_value(&lines, 0),
            main_value(&lines, 1),
            main_value(&lines, 2),
            main_value(&lines, 3),
            main_value(&lines, 4),
            main_value(&lines, 5),
        ];
        let flags_label = chars_of("Number of Application Dependent Integers");
        let app_flags = parse_indexed_block(&lines, flags_label.as_slice());
        let bands = parse_eq_bands(&lines);
        let switch_label = chars_of("On/Off Flag");
        let eq_on: bool = match find_labeled_int(&lines, switch_label.as_slice()) {
            Some(n) => n != 0,
            None => true,
        };
        Ok(
            FacPreset {
                path: path.to_owned(),
                name,
                version,
                mains,
                eq_on,
                bands,
                app_flags,
            },
        )
    }

    /// Parses `.fac` content already in memory. Accepts CRLF or LF, and
    /// tolerates the mark in front of UTF-8 text.
    pub fn from_bytes(path: &str, bytes: &[u8]) -> (r: Result<FacPreset, String>)
        ensures
            ({
                let text = utf8_lossy(without_bom(bytes@));
                &&& r is Ok == is_preset(text)
                &&& r is Ok ==> reads_as(r->Ok_0, path@, text)
                &&& r is Err ==> r->Err_0@ == not_a_preset(line_at(fac_lines(text), 0))
            }),
    {
        let text = from_utf8_lossy(strip_bom(bytes));
        FacPreset::from_text(path, text.as_str())
    }

    /// The `Main` value that a given effect takes. The slider of the effect
    /// runs from 0 to 10 while this runs from 0 to 127.
    pub fn effect_main(&self, effect: DfxEffectId) -> (r: Option<i32>)
        ensures
            r == main_of(self.mains@, effect),
    {
        match slot_of_effect(effect) {
            Some(slot) => Some(self.mains[slot]),
            None => None,
        }
    }

    /// Whether the effect's own on/off flag is set.
    pub fn effect_enabled(&self, effect: DfxEffectId) -> (r: bool)
        ensures
            r == flag_is_set(self.app_flags@, effect),
    {
        match slot_of_effect(effect) {
            Some(slot) => {
                // The flags leave out the reserved slot.
                let flag: usize = if slot > 2 {
                    slot - 1
                } else {
                    slot
                };
                flag < self.app_flags.len() && self.app_flags[flag] != 0
            },
            None => false,
        }
    }

    /// A short summary of the effect levels, handy in logs.
    pub fn effect_summary(&self) -> (r: String)
        ensures
            r@ == summary_text(self.mains@, 6),
    {
        let mut out: String = String::new();
        let mut slot: usize = 0;
        while slot < NUM_MAIN_SLOTS
            invariant
                slot <= 6,
                out@ == summary_text(self.mains@, slot as int),
            decreases 6 - slot,
        {
            if main_slot_to_effect(slot).is_some() {
                if slot > 0 {
                    out.append(" ");
                }
                out.append(main_slot_label(slot));
                out.append("=");
                let number = to_signed_decimal(self.mains[slot] as i64);
                out.append(number.as_str());
            }
            slot = slot + 1;
        }
        out
    }
}

/// The levels of the first `n` slots, by label, without the reserved one.
pub open spec fn summary_text(mains: Seq<i32>, n: int) -> Seq<char>
    decreases n,
{
    if n <= 0 {
        Seq::empty()
    } else {
        let before = summary_text(mains, n - 1);
        if slot_effect(n - 1) is None {
            before
        } else {
            (if n == 1 {
                before
            } else {
                before + " "@
            }) + slot_label(n - 1) + "="@ + signed_decimal(mains[n - 1] as int)
        }
    }
}


// ---------------------------------------------------------------------------
// The library
// ---------------------------------------------------------------------------

#[derive(Debug, Clone, Copy, PartialEq, Eq, Structural)]
pub enum PresetOrigin {
    /// Shipped with the application and unpacked on first run.
    BuiltIn,
    /// Dropped into the preset folder by the user.
    User,
}

/// One entry in the preset chooser.
#[derive(Debug)]
pub struct PresetEntry {
    /// File on disk.
    pub path: String,
    /// Display name, from the file's third line.
    pub name: String,
    /// Where it came from, for grouping in the menu.
    pub origin: PresetOrigin,
}

/// Entries are equal if their paths are the same, however spelled.
impl PartialEq for PresetEntry {
    fn eq(&self, other: &Self) -> (r: bool) {
        paths_equal(self.path.as_str(), other.path.as_str()) && same_text(
            self.name.as_str(),
            other.name.as_str(),
        ) && self.origin == other.origin
    }
}

impl vstd::std_specs::cmp::PartialEqSpecImpl for PresetEntry {
    open spec fn obeys_eq_spec() -> bool {
        true
    }

    open spec fn eq_spec(&self, other: &Self) -> bool {
        &&& same_path(self.path@, other.path@)
        &&& self.name@ == other.name@
        &&& self.origin == other.origin
    }
}

impl Eq for PresetEntry {

}

impl Clone for PresetEntry {
    fn clone(&self) -> (r: Self)
        ensures
            r == *self,
    {
        PresetEntry { path: self.path.clone(), name: self.name.clone(), origin: self.origin }
    }
}

/// Entries stand by display name, whatever its case; of the same name what was
/// shipped comes first.
impl Ranked for PresetEntry {
    open spec fn ranks_before(&self, other: &Self) -> bool {
        let a = lowercase(self.name@);
        let b = lowercase(other.name@);
        if a != b {
            text_before(a, b)
        } else {
            self.origin == PresetOrigin::BuiltIn && other.origin == PresetOrigin::User
        }
    }

    proof fn rank_laws(a: Self, b: Self, c: Self) {
        let x = lowercase(a.name@);
        let y = lowercase(b.name@);
        let z = lowercase(c.name@);
        lemma_text_order_total(x, y);
        lemma_text_order_total(y, z);
        lemma_text_order_total(x, z);
        if text_before(x, z) && text_before(z, y) {
            lemma_text_order_transitive(x, z, y);
        }
        if text_before(y, x) && text_before(x, z) {
            lemma_text_order_transitive(y, x, z);
        }
    }

    fn before(&self, other: &Self) -> (r: bool) {
        let a = to_lowercase(self.name.as_str());
        let b = to_lowercase(other.name.as_str());
        let x = chars_of(a.as_str());
        let y = chars_of(b.as_str());
        if same_chars(x.as_slice(), y.as_slice()) {
            match (self.origin, other.origin) {
                (PresetOrigin::BuiltIn, PresetOrigin::User) => true,
                _ => false,
            }
        } else {
            comes_before(x.as_slice(), y.as_slice())
        }
    }
}

/// How many presets ship with the application.
pub const EMBEDDED_COUNT: usize = 17;

/// The file name of a preset that ships with the application.
pub open spec fn embedded_file(index: int) -> Seq<char> {
    if index == 0 {
        "Music.fac"@
    } else if index == 1 {
        "Movie.fac"@
    } else if index == 2 {
        "Gaming.fac"@
    } else if index == 3 {
        "BassBoost.fac"@
    } else if index == 4 {
        "General.fac"@
    } else if index == 5 {
        "Classical.fac"@
    } else if index == 6 {
        "Jazz.fac"@
    } else if index == 7 {
        "Pop.fac"@
    } else if index == 8 {
        "Metal.fac"@
    } else if index == 9 {
        "Trap.fac"@
    } else if index == 10 {
        "RnB.fac"@
    } else if index == 11 {
        "ClassicRock.fac"@
    } else if index == 12 {
        "ModernRock.fac"@
    } else if index == 13 {
        "AlternativeRock.fac"@
    } else if index == 14 {
        "Preset1.fac"@
    } else if index == 15 {
        "Preset2.fac"@
    } else {
        "Preset6.fac"@
    }
}

/// Executable [`embedded_file`].
pub fn embedded_file_name(index: usize) -> (r: &'static str)
    requires
        index < 17,
    ensures
        r@ == embedded_file(index as int),
{
    match index {
        0 => "Music.fac",
        1 => "Movie.fac",
        2 => "Gaming.fac",
        3 => "BassBoost.fac",
        4 => "General.fac",
        5 => "Classical.fac",
        6 => "Jazz.fac",
        7 => "Pop.fac",
        8 => "Metal.fac",
        9 => "Trap.fac",
        10 => "RnB.fac",
        11 => "ClassicRock.fac",
        12 => "ModernRock.fac",
        13 => "AlternativeRock.fac",
        14 => "Preset1.fac",
        15 => "Preset2.fac",
        _ => "Preset6.fac",
    }
}

/// How many presets ship with the application.
pub fn embedded_count() -> (r: usize)
    ensures
        r == 17,
{
    EMBEDDED_COUNT
}

/// Whether a file is one that ships with the application, by its name,
/// whatever the case of its letters.
pub open spec fn is_shipped(filename: Seq<char>) -> bool {
    exists|i: int| 0 <= i < 17 && same_ignoring_case(#[trigger] embedded_file(i), filename)
}

fn shipped(filename: &[char]) -> (r: bool)
    ensures
        r == is_shipped(filename@),
{
    let mut i: usize = 0;
    while i < EMBEDDED_COUNT
        invariant
            i <= 17,
            forall|j: int|
                0 <= j < i ==> !same_ignoring_case(#[trigger] embedded_file(j), filename@),
        decreases 17 - i,
    {
        let name = chars_of(embedded_file_name(i));
        if eq_ignoring_case(name.as_slice(), filename) {
            assert(same_ignoring_case(embedded_file(i as int), filename@));
            return true;
        }
        i = i + 1;
    }
    false
}

/// A file of the preset folder. Where it could not be read there is no
/// content.
#[derive(Debug)]
pub struct PresetFile {
    pub path: String,
    pub content: Option<Vec<u8>>,
}

/// Whether a path has the extension of a preset, whatever its case.
pub open spec fn has_fac_extension(path: Seq<char>) -> bool {
    match file_name(path) {
        Some(name) => {
            let dot = last_index_of(name, '.');
            dot > 0 && same_ignoring_case(name.skip(dot + 1), "fac"@)
        },
        None => false,
    }
}

/// The text of a file that could be read.
pub open spec fn file_text(file: PresetFile) -> Seq<char> {
    utf8_lossy(without_bom(file.content->0@))
}

/// Whether a file belongs into the list: a readable preset under a preset's
/// extension.
pub open spec fn is_listed(file: PresetFile) -> bool {
    has_fac_extension(file.path@) && file.content is Some && is_preset(file_text(file))
}

pub open spec fn listed_files(files: Seq<PresetFile>) -> Seq<PresetFile> {
    files.filter(|file: PresetFile| is_listed(file))
}

/// Whether `e` is the entry for a file.
pub open spec fn entry_for(e: PresetEntry, file: PresetFile, origin: PresetOrigin) -> bool {
    &&& e.path@ == file.path@
    &&& e.name@ == trim(line_at(fac_lines(file_text(file)), 2))
    &&& e.origin == origin
}

/// Where a file of the preset folder came from.
pub open spec fn origin_of(path: Seq<char>) -> PresetOrigin {
    if is_shipped(
        match file_name(path) {
            Some(name) => name,
            None => Seq::empty(),
        },
    ) {
        PresetOrigin::BuiltIn
    } else {
        PresetOrigin::User
    }
}

fn fac_extension(path: &str) -> (r: bool)
    ensures
        r == has_fac_extension(path@),
{
    match windows_file_name(path) {
        Some(name) => {
            let chars = chars_of(name.as_str());
            let size: usize = chars.len();
            match find_last_index(chars.as_slice(), '.') {
                Some(dot) => {
                    if dot == 0 {
                        return false;
                    }
                    let extension = slice_subrange(chars.as_slice(), dot + 1, size);
                    assert(extension@ =~= name@.skip(dot + 1));
                    let wanted = chars_of("fac");
                    eq_ignoring_case(extension, wanted.as_slice())
                },
                None => false,
            }
        },
        None => false,
    }
}

/// The origin of a file in the preset folder: decided by whether the file is
/// one that was shipped, not by which directory it came from.
pub fn preset_origin(path: &str) -> (r: PresetOrigin)
    ensures
        r == origin_of(path@),
{
    let filename = match windows_file_name(path) {
        Some(name) => name,
        None => String::new(),
    };
    let chars = chars_of(filename.as_str());
    assert(file_name(path@) is None ==> chars@ =~= Seq::empty());
    if shipped(chars.as_slice()) {
        PresetOrigin::BuiltIn
    } else {
        PresetOrigin::User
    }
}

fn entry_of(file: &PresetFile) -> (r: Option<PresetEntry>)
    ensures
        r is Some == is_listed(*file),
        r is Some ==> entry_for(r->0, *file, PresetOrigin::BuiltIn),
{
    if !fac_extension(file.path.as_str()) {
        return None;
    }
    match &file.content {
        Some(bytes) => match FacPreset::from_bytes(file.path.as_str(), bytes.as_slice()) {
            Ok(preset) => Some(
                PresetEntry {
                    path: file.path.clone(),
                    name: preset.name,
                    origin: PresetOrigin::BuiltIn,
                },
            ),
            Err(_) => None,
        },
        None => None,
    }
}

/// Lists every preset of a folder, sorted by display name.
///
/// Unreadable files are skipped rather than aborting the listing: one corrupt
/// preset must not hide the others.
pub fn list_dir(files: &Vec<PresetFile>, origin: PresetOrigin) -> (r: Vec<PresetEntry>)
    ensures
        exists|found: Seq<PresetEntry>|
            {
                &&& found.len() == listed_files(files@).len()
                &&& forall|i: int|
                    0 <= i < found.len() ==> entry_for(
                        #[trigger] found[i],
                        listed_files(files@)[i],
                        origin,
                    )
                &&& r@ == #[trigger] by_rank(found)
            },
{
    let mut out: Vec<PresetEntry> = Vec::new();
    let mut i: usize = 0;
    proof {
        reveal(Seq::filter);
        assert(listed_files(files@.take(0)).len() == 0);
    }
    while i < files.len()
        invariant
            i <= files@.len(),
            out@.len() == listed_files(files@.take(i as int)).len(),
            forall|k: int|
                0 <= k < out@.len() ==> entry_for(
                    #[trigger] out@[k],
                    listed_files(files@.take(i as int))[k],
                    origin,
                ),
        decreases files@.len() - i,
    {
        proof {
            reveal(Seq::filter);
            assert(files@.take(i + 1).drop_last() =~= files@.take(i as int));
        }
        if let Some(entry) = entry_of(&files[i]) {
            out.push(PresetEntry { path: entry.path, name: entry.name, origin });
        }
        i = i + 1;
    }
    assert(files@.take(i as int) =~= files@);
    sort_by_rank(out)
}

/// Every preset that can be seen, sorted by display name.
///
/// One folder serves both purposes: it is where the bundled files are unpacked
/// and where the user drops their own.
pub fn library(files: &Vec<PresetFile>) -> (r: Vec<PresetEntry>)
    ensures
        exists|found: Seq<PresetEntry>|
            {
                &&& found.len() == listed_files(files@).len()
                &&& forall|i: int|
                    0 <= i < found.len() ==> entry_for(
                        #[trigger] found[i],
                        listed_files(files@)[i],
                        origin_of(listed_files(files@)[i].path@),
                    )
                &&& r@ == #[trigger] by_rank(found)
            },
{
    let mut out: Vec<PresetEntry> = Vec::new();
    let mut i: usize = 0;
    proof {
        reveal(Seq::filter);
        assert(listed_files(files@.take(0)).len() == 0);
    }
    while i < files.len()
        invariant
            i <= files@.len(),
            out@.len() == listed_files(files@.take(i as int)).len(),
            forall|k: int|
                0 <= k < out@.len() ==> entry_for(
                    #[trigger] out@[k],
                    listed_files(files@.take(i as int))[k],
                    origin_of(listed_files(files@.take(i as int))[k].path@),
                ),
        decreases files@.len() - i,
    {
        proof {
            reveal(Seq::filter);
            assert(files@.take(i + 1).drop_last() =~= files@.take(i as int));
        }
        if let Some(entry) = entry_of(&files[i]) {
            let origin = preset_origin(entry.path.as_str());
            out.push(PresetEntry { path: entry.path, name: entry.name, origin });
        }
        i = i + 1;
    }
    assert(files@.take(i as int) =~= files@);
    sort_by_rank(out)
}

/// Parses every file that ships with the application, in order, leaving out
/// what is no preset.
pub fn embedded_presets(files: &Vec<PresetFile>) -> (r: Vec<FacPreset>)
    ensures
        r@.len() == bundled(files@).len(),
        forall|i: int|
            0 <= i < r@.len() ==> reads_as(
                #[trigger] r@[i],
                bundled(files@)[i].path@,
                file_text(bundled(files@)[i]),
            ),
{
    let mut out: Vec<FacPreset> = Vec::new();
    let mut i: usize = 0;
    proof {
        reveal(Seq::filter);
        assert(bundled(files@.take(0)).len() == 0);
    }
    while i < files.len()
        invariant
            i <= files@.len(),
            out@.len() == bundled(files@.take(i as int)).len(),
            forall|k: int|
                0 <= k < out@.len() ==> reads_as(
                    #[trigger] out@[k],
                    bundled(files@.take(i as int))[k].path@,
                    file_text(bundled(files@.take(i as int))[k]),
                ),
        decreases files@.len() - i,
    {
        proof {
            reveal(Seq::filter);
            assert(files@.take(i + 1).drop_last() =~= files@.take(i as int));
        }
        if let Some(bytes) = &files[i].content {
            if let Ok(preset) = FacPreset::from_bytes(files[i].path.as_str(), bytes.as_slice()) {
                out.push(preset);
            }
        }
        i = i + 1;
    }
    assert(files@.take(i as int) =~= files@);
    out
}

/// The files that hold a preset.
pub open spec fn bundled(files: Seq<PresetFile>) -> Seq<PresetFile> {
    files.filter(|file: PresetFile| file.content is Some && is_preset(file_text(file)))
}

/// Which of the bundled presets still have to be unpacked into the preset
/// folder, by index. Files that already exist are left alone, so a user can
/// edit a bundled preset and keep the edit.
pub fn unpack_embedded_presets(present: &[bool; 17]) -> (r: Vec<usize>)
    ensures
        forall|i: usize| #[trigger] r@.contains(i) == (i < 17 && !present@[i as int]),
        forall|a: int, b: int| 0 <= a < b < r@.len() ==> r@[a] < r@[b],
{
    let mut out: Vec<usize> = Vec::new();
    let mut i: usize = 0;
    while i < EMBEDDED_COUNT
        invariant
            i <= 17,
            forall|k: int| 0 <= k < out@.len() ==> #[trigger] out@[k] < i && !present@[out@[k] as int],
            forall|j: usize| j < i && !present@[j as int] ==> #[trigger] out@.contains(j),
            forall|a: int, b: int| 0 <= a < b < out@.len() ==> out@[a] < out@[b],
        decreases 17 - i,
    {
        if !present[i] {
            let ghost before = out@;
            out.push(i);
            proof {
                assert(out@[out@.len() - 1] == i);
                assert forall|j: usize| j < i + 1 && !present@[j as int] implies #[trigger] out@.contains(
                    j,
                ) by {
                    if j < i {
                        assert(before.contains(j));
                        let k = choose|k: int| 0 <= k < before.len() && before[k] == j;
                        assert(out@[k] == j);
                    }
                }
            }
        }
        i = i + 1;
    }
    out
}

// ---------------------------------------------------------------------------
// What holds of presets
// ---------------------------------------------------------------------------

/// Lines read back: a line that is ended with a line feed, with or without a
/// carriage return before it, is the first of the file's lines.
pub proof fn lines_read_back(line: Seq<char>, rest: Seq<char>)
    requires
        !line.contains('\n'),
        line.len() > 0 ==> line.last() != '\r',
    ensures
        fac_lines(line + seq!['\n'] + rest) == seq![line] + fac_lines(rest),
        fac_lines(line + seq!['\r', '\n'] + rest) == seq![line] + fac_lines(rest),
        fac_lines(line) == seq![line],
{
    lemma_first_line(line, seq!['\n'], rest);
    lemma_first_line(line, seq!['\r', '\n'], rest);
    assert(trim_end_of(line, '\r') == line);
    crate::text::lemma_index_of(line, '\n', line.len() as int);
    assert(split(line, '\n') =~= seq![line]);
    assert(fac_lines(line) =~= seq![line]);
}

proof fn lemma_first_line(line: Seq<char>, end: Seq<char>, rest: Seq<char>)
    requires
        !line.contains('\n'),
        line.len() > 0 ==> line.last() != '\r',
        end == seq!['\n'] || end == seq!['\r', '\n'],
    ensures
        fac_lines(line + end + rest) == seq![line] + fac_lines(rest),
{
    let s = line + end + rest;
    let head = if end.len() == 1 {
        line
    } else {
        line.push('\r')
    };
    let k = head.len() as int;
    assert forall|j: int| 0 <= j < k implies s[j] != '\n' by {
        if j < line.len() {
            assert(line.contains(line[j]));
        }
    }
    crate::text::lemma_index_of(s, '\n', k);
    assert(s.take(k) =~= head);
    assert(s.skip(k + 1) =~= rest);
    assert(split(s, '\n') =~= seq![head] + split(rest, '\n'));
    assert(trim_end_of(line, '\r') == line);
    if end.len() == 2 {
        assert(head.drop_last() =~= line);
    }
    assert(trim_end_of(head, '\r') == line);
    assert(fac_lines(s) =~= seq![line] + fac_lines(rest));
}

/// A number at the front of a line is read, whatever follows its digits.
pub proof fn leading_numbers_read_back(n: nat, rest: Seq<char>)
    requires
        n <= u32::MAX,
        rest.len() > 0 ==> !is_digit(rest[0]),
    ensures
        leading_number(decimal(n) + rest) == Some(n as int),
        leading_number(seq![' '] + decimal(n) + rest) == Some(n as int),
{
    crate::text::decimals_read_back(n);
    let d = decimal(n);
    lemma_leading_digits(d, rest);
    let s = d + rest;
    assert(is_digit(d[0]));
    assert(s[0] == d[0]);
    assert(trim_start(s) == s);
    let t = seq![' '] + d + rest;
    assert(t.drop_first() =~= s);
    assert(trim_start(t) == s);
}

proof fn lemma_leading_digits(d: Seq<char>, rest: Seq<char>)
    requires
        crate::text::all_digits(d),
        rest.len() > 0 ==> !is_digit(rest[0]),
    ensures
        leading_digits(d + rest) == d,
    decreases d.len(),
{
    if d.len() > 0 {
        let tail = d.drop_first();
        assert forall|i: int| 0 <= i < tail.len() implies is_digit(#[trigger] tail[i]) by {
            assert(d[i + 1] == tail[i]);
        }
        lemma_leading_digits(tail, rest);
        assert((d + rest).drop_first() =~= tail + rest);
        assert(is_digit(d[0]));
        assert(seq![d[0]] + tail =~= d);
    } else {
        assert(d + rest =~= rest);
    }
}

/// What stands in front of a line's colon is its value, and what stands behind
/// is its label, without the white space around either.
pub proof fn a_line_is_value_and_label(value: Seq<char>, label: Seq<char>, other: Seq<char>)
    requires
        !value.contains(':'),
        value.len() > 0 ==> !crate::text::is_white(value[0]) && !crate::text::is_white(
            value.last(),
        ),
        label.len() > 0 ==> !crate::text::is_white(label[0]) && !crate::text::is_white(
            label.last(),
        ),
    ensures
        value_text(value + seq![':', ' '] + label) == value,
        is_labeled(value + seq![':', ' '] + label, label),
        other != label ==> !is_labeled(value + seq![':', ' '] + label, other),
{
    lemma_split_at_colon(value, label);
}

/// A number that is written with a label reads back under that label, and under
/// no other.
pub proof fn labelled_numbers_read_back(n: int, label: Seq<char>, other: Seq<char>)
    requires
        i32::MIN <= n <= i32::MAX,
        label.len() > 0 ==> !crate::text::is_white(label[0]) && !crate::text::is_white(
            label.last(),
        ),
        other != label,
    ensures
        labeled_number(signed_decimal(n) + seq![':', ' '] + label, label) == Some(n),
        labeled_number(signed_decimal(n) + seq![':', ' '] + label, other) is None,
{
    let value = signed_decimal(n);
    crate::text::numbers_read_back(n, i32::MIN as int, i32::MAX as int);
    lemma_decimal_is_plain(n);
    lemma_split_at_colon(value, label);
}

proof fn lemma_decimal_is_plain(n: int)
    ensures
        signed_decimal(n).len() > 0,
        !signed_decimal(n).contains(':'),
        !crate::text::is_white(signed_decimal(n)[0]),
        !crate::text::is_white(signed_decimal(n).last()),
{
    let m: nat = if n < 0 {
        (-n) as nat
    } else {
        n as nat
    };
    crate::text::decimals_read_back(m);
    let d = decimal(m);
    let s = signed_decimal(n);
    assert forall|i: int| 0 <= i < s.len() implies s[i] == '-' || is_digit(s[i]) by {
        if n < 0 {
            if i > 0 {
                assert(is_digit(d[i - 1]));
            }
        } else {
            assert(is_digit(d[i]));
        }
    }
    if s.contains(':') {
        let i = choose|i: int| 0 <= i < s.len() && s[i] == ':';
        assert(s[i] == '-' || is_digit(s[i]));
    }
    assert(s[0] == '-' || is_digit(s[0]));
    assert(s[s.len() - 1] == '-' || is_digit(s[s.len() - 1]));
}

/// The first line that gives a number for a label decides, wherever it stands.
pub proof fn the_first_labelled_line_decides(lines: Seq<Seq<char>>, label: Seq<char>, k: int)
    requires
        0 <= k <= lines.len(),
        forall|j: int| 0 <= j < k ==> labeled_number(#[trigger] lines[j], label) is None,
        k < lines.len() ==> labeled_number(lines[k], label) is Some,
    ensures
        find_labeled(lines, label) == (if k < lines.len() {
            labeled_number(lines[k], label)
        } else {
            None
        }),
    decreases lines.len(),
{
    if k > 0 {
        let rest = lines.drop_first();
        assert(labeled_number(lines[0], label) is None);
        assert forall|j: int| 0 <= j < k - 1 implies labeled_number(
            #[trigger] rest[j],
            label,
        ) is None by {
            assert(rest[j] == lines[j + 1]);
        }
        the_first_labelled_line_decides(rest, label, k - 1);
    }
}

/// The first line that carries a label is found, wherever it stands.
pub proof fn the_first_label_is_found(lines: Seq<Seq<char>>, label: Seq<char>, k: int)
    requires
        0 <= k <= lines.len(),
        forall|j: int| 0 <= j < k ==> !is_labeled(#[trigger] lines[j], label),
        k < lines.len() ==> is_labeled(lines[k], label),
    ensures
        labeled_index(lines, label) == k,
    decreases lines.len(),
{
    if k > 0 {
        let rest = lines.drop_first();
        assert(!is_labeled(lines[0], label));
        assert forall|j: int| 0 <= j < k - 1 implies !is_labeled(#[trigger] rest[j], label) by {
            assert(rest[j] == lines[j + 1]);
        }
        the_first_label_is_found(rest, label, k - 1);
    }
}

proof fn lemma_band_start(lines: Seq<Seq<char>>, k: int)
    requires
        0 <= k <= lines.len(),
        forall|j: int| 0 <= j < k ==> !opens_band(#[trigger] lines[j]),
        k < lines.len() ==> opens_band(lines[k]),
    ensures
        band_start(lines) == k,
    decreases lines.len(),
{
    if k > 0 {
        let rest = lines.drop_first();
        assert(!opens_band(lines[0]));
        assert forall|j: int| 0 <= j < k - 1 implies !opens_band(#[trigger] rest[j]) by {
            assert(rest[j] == lines[j + 1]);
        }
        lemma_band_start(rest, k - 1);
    }
}

proof fn lemma_band_triples(lines: Seq<Seq<char>>, limit: int, n: int)
    requires
        0 <= n <= limit,
        3 * n <= lines.len(),
        forall|k: int| 0 <= k < n ==> opens_band(#[trigger] lines[3 * k]),
        n == limit || 3 * n + 1 >= lines.len() || !opens_band(lines[3 * n]),
    ensures
        band_triples(lines, limit).len() == n,
        forall|k: int|
            0 <= k < n ==> #[trigger] band_triples(lines, limit)[k] == (
                value_text(lines[3 * k + 1]),
                value_text(lines[3 * k + 2]),
            ),
    decreases n,
{
    if n > 0 {
        assert(opens_band(lines[3 * 0int]));
        let rest = lines.skip(3);
        assert forall|k: int| 0 <= k < n - 1 implies opens_band(#[trigger] rest[3 * k]) by {
            assert(rest[3 * k] == lines[3 * (k + 1)]);
        }
        if 3 * n + 1 < lines.len() {
            assert(rest[3 * (n - 1)] == lines[3 * n]);
        }
        lemma_band_triples(rest, limit - 1, n - 1);
        assert forall|k: int| 0 <= k < n implies #[trigger] band_triples(lines, limit)[k] == (
            value_text(lines[3 * k + 1]),
            value_text(lines[3 * k + 2]),
        ) by {
            if k > 0 {
                assert(band_triples(rest, limit - 1)[k - 1] == (
                    value_text(rest[3 * (k - 1) + 1]),
                    value_text(rest[3 * (k - 1) + 2]),
                ));
            }
        }
    }
}

/// Every band of the file is read, in order: where the header declares `n`
/// bands, and `n` of them stand from the first band line on, each with its
/// frequency and its gain, those are the bands, however many they are.
pub proof fn every_band_is_read(lines: Seq<Seq<char>>, at: int, first: int, n: int)
    requires
        0 <= at < first <= lines.len(),
        forall|j: int| 0 <= j < at ==> !is_labeled(#[trigger] lines[j], "Number of EQ Bands"@),
        is_labeled(lines[at], "Number of EQ Bands"@),
        leading_number(lines[at]) == Some(n),
        n >= 1,
        forall|j: int| at < j < first ==> !opens_band(#[trigger] lines[j]),
        first + 3 * n <= lines.len(),
        forall|k: int| 0 <= k < n ==> opens_band(#[trigger] lines[first + 3 * k]),
    ensures
        eq_bands(lines).len() == n,
        forall|k: int|
            0 <= k < n ==> #[trigger] eq_bands(lines)[k] == (
                value_text(lines[first + 3 * k + 1]),
                value_text(lines[first + 3 * k + 2]),
            ),
{
    assert(opens_band(lines[first + 3 * 0int]));
    the_bands_that_are_there_are_read(lines, at, first, n, n);
}

/// Where fewer bands stand there than the header declares, those that do are
/// read; and a header that declares none still takes one.
pub proof fn the_bands_that_are_there_are_read(
    lines: Seq<Seq<char>>,
    at: int,
    first: int,
    declared: int,
    n: int,
)
    requires
        0 <= at < first <= lines.len(),
        forall|j: int| 0 <= j < at ==> !is_labeled(#[trigger] lines[j], "Number of EQ Bands"@),
        is_labeled(lines[at], "Number of EQ Bands"@),
        leading_number(lines[at]) == Some(declared) || (leading_number(lines[at]) is None
            && declared == 0),
        0 <= n,
        n <= declared || (n == 1 && declared < 1),
        forall|j: int| at < j < first ==> !opens_band(#[trigger] lines[j]),
        first < lines.len() ==> opens_band(lines[first]),
        first + 3 * n <= lines.len(),
        forall|k: int| 0 <= k < n ==> opens_band(#[trigger] lines[first + 3 * k]),
        n == declared || (n == 1 && declared < 1) || first + 3 * n + 1 >= lines.len()
            || !opens_band(lines[first + 3 * n]),
        declared < 1 ==> n == 1 || first + 1 >= lines.len(),
    ensures
        eq_bands(lines).len() == n,
        forall|k: int|
            0 <= k < n ==> #[trigger] eq_bands(lines)[k] == (
                value_text(lines[first + 3 * k + 1]),
                value_text(lines[first + 3 * k + 2]),
            ),
{
    the_first_label_is_found(lines, "Number of EQ Bands"@, at);
    let rest = lines.skip(at + 1);
    let start = first - at - 1;
    assert forall|j: int| 0 <= j < start implies !opens_band(#[trigger] rest[j]) by {
        assert(rest[j] == lines[at + 1 + j]);
    }
    lemma_band_start(rest, start);
    let here = rest.skip(start);
    assert(here =~= lines.skip(first));
    assert forall|k: int| 0 <= k < n implies opens_band(#[trigger] here[3 * k]) by {
        assert(here[3 * k] == lines[first + 3 * k]);
    }
    let limit = if declared < 1 {
        1
    } else {
        declared
    };
    if first + 3 * n + 1 < lines.len() {
        assert(here[3 * n] == lines[first + 3 * n]);
    }
    lemma_band_triples(here, limit, n);
    assert forall|k: int| 0 <= k < n implies #[trigger] eq_bands(lines)[k] == (
        value_text(lines[first + 3 * k + 1]),
        value_text(lines[first + 3 * k + 2]),
    ) by {
        assert(band_triples(here, limit)[k] == (
            value_text(here[3 * k + 1]),
            value_text(here[3 * k + 2]),
        ));
    }
}

/// A file without the header has no bands.
pub proof fn no_header_no_bands(lines: Seq<Seq<char>>)
    requires
        forall|j: int|
            0 <= j < lines.len() ==> !is_labeled(#[trigger] lines[j], "Number of EQ Bands"@),
    ensures
        eq_bands(lines).len() == 0,
{
    the_first_label_is_found(lines, "Number of EQ Bands"@, lines.len() as int);
}

/// An entry that is written reads back.
pub proof fn entries_read_back(n: int, i: nat)
    requires
        i32::MIN <= n <= i32::MAX,
        i <= u64::MAX,
    ensures
        entry_value(
            signed_decimal(n) + seq![':', ' '] + ("Integer["@ + decimal(i) + "]"@),
        ) == Some(n),
{
    let label = "Integer["@ + decimal(i) + "]"@;
    let value = signed_decimal(n);
    lemma_entry_label(i);
    lemma_decimal_is_plain(n);
    lemma_split_at_colon(value, label);
    assert(signed(value, i32::MIN as int, i32::MAX as int) == Some(n)) by {
        crate::text::numbers_read_back(n, i32::MIN as int, i32::MAX as int);
    }
    assert(unsigned(decimal(i), u64::MAX as int) is Some) by {
        crate::text::numbers_read_back(i as int, 0, u64::MAX as int);
    }
}

proof fn lemma_entry_label(i: nat)
    ensures
        ({
            let label = "Integer["@ + decimal(i) + "]"@;
            &&& label.len() > 0
            &&& !crate::text::is_white(label[0])
            &&& !crate::text::is_white(label.last())
            &&& strip_prefix(label, "Integer["@) == Some(decimal(i) + "]"@)
            &&& strip_suffix(decimal(i) + "]"@, "]"@) == Some(decimal(i))
        }),
{
    reveal_strlit("Integer[");
    reveal_strlit("]");
    let label = "Integer["@ + decimal(i) + "]"@;
    assert(label =~= "Integer["@ + (decimal(i) + "]"@));
    assert(label[0] == 'I');
    assert(label.last() == ']');
    crate::text::a_part_occurs(Seq::empty(), "Integer["@, decimal(i) + "]"@);
    crate::text::a_part_occurs(decimal(i), "]"@, Seq::empty());
}

proof fn lemma_split_at_colon(value: Seq<char>, label: Seq<char>)
    requires
        !value.contains(':'),
        value.len() > 0 ==> !crate::text::is_white(value[0]) && !crate::text::is_white(
            value.last(),
        ),
        label.len() > 0 ==> !crate::text::is_white(label[0]) && !crate::text::is_white(
            label.last(),
        ),
    ensures
        (match split_once(value + seq![':', ' '] + label, ':') {
            Some((a, b)) => trim(a) == value && trim(b) == label,
            None => false,
        }),
{
    let s = value + seq![':', ' '] + label;
    let k = value.len() as int;
    assert forall|j: int| 0 <= j < k implies s[j] != ':' by {
        assert(value.contains(value[j]));
    }
    crate::text::lemma_index_of(s, ':', k);
    assert(s.take(k) =~= value);
    assert(s.skip(k + 1) =~= seq![' '] + label);
    crate::text::trimmed_text_stays(value);
    crate::text::trimmed_text_stays(label);
    assert((seq![' '] + label).drop_first() =~= label);
    assert(trim_start(seq![' '] + label) == trim_start(label));
}

/// Entries are collected one by one, past everything else, until as many have
/// been found as were declared: those of two stretches of lines are those of
/// the first and then those of the second, as far as any are still wanted.
pub proof fn entries_are_collected(a: Seq<Seq<char>>, b: Seq<Seq<char>>, count: int)
    requires
        0 <= count,
    ensures
        entry_values(a + b, count) == entry_values(a, count) + entry_values(
            b,
            count - entry_values(a, count).len(),
        ),
        entry_values(a, count).len() <= count,
        a.len() == 1 && count > 0 && entry_value(a[0]) is Some ==> entry_values(a, count) == seq![
            entry_value(a[0])->0,
        ],
        a.len() == 1 && entry_value(a[0]) is None ==> entry_values(a, count).len() == 0,
        a.len() == 0 || count == 0 ==> entry_values(a, count).len() == 0,
    decreases a.len(),
{
    if a.len() == 0 {
        assert(a + b =~= b);
        assert(entry_values(a, count) =~= Seq::empty());
        assert(Seq::<int>::empty() + entry_values(b, count) =~= entry_values(b, count));
    } else if count == 0 {
        assert(entry_values(a + b, 0) =~= Seq::empty());
        assert(entry_values(b, 0) =~= Seq::empty());
    } else {
        let rest = a.drop_first();
        assert((a + b).drop_first() =~= rest + b);
        match entry_value(a[0]) {
            Some(v) => {
                entries_are_collected(rest, b, count - 1);
                let x = entry_values(rest, count - 1);
                let y = entry_values(b, count - 1 - x.len());
                assert(seq![v] + (x + y) =~= (seq![v] + x) + y);
                if a.len() == 1 {
                    assert(x =~= Seq::empty());
                    assert(seq![v] + x =~= seq![v]);
                }
            },
            None => {
                entries_are_collected(rest, b, count);
            },
        }
    }
}

/// The entries behind a header are as many as it declares, where that many
/// follow it.
pub proof fn entries_follow_their_header(lines: Seq<Seq<char>>, header: Seq<char>, at: int, n: int)
    requires
        0 <= at < lines.len(),
        forall|j: int| 0 <= j < at ==> !is_labeled(#[trigger] lines[j], header),
        is_labeled(lines[at], header),
        leading_number(lines[at]) == Some(n),
    ensures
        indexed_block(lines, header) == entry_values(lines.skip(at + 1), n),
{
    the_first_label_is_found(lines, header, at);
}

/// A preset says what its lines say: the version of the second line, the name
/// of the third, each level of the line labelled with its slot, the switch of
/// its line, and zero or on where there is none.
pub proof fn a_preset_says_what_its_lines_say(
    p: FacPreset,
    path: Seq<char>,
    text: Seq<char>,
    slot: int,
    label: Seq<char>,
    k: int,
)
    requires
        reads_as(p, path, text),
        0 <= slot < 6,
        label.len() == 6,
        label.take(5) == "Main "@,
        label[5] == (48 + slot) as char,
        0 <= k <= fac_lines(text).len(),
        forall|j: int|
            0 <= j < k ==> labeled_number(#[trigger] fac_lines(text)[j], label) is None,
        k < fac_lines(text).len() ==> labeled_number(fac_lines(text)[k], label) is Some,
    ensures
        p.path@ == path,
        k < fac_lines(text).len() ==> Some(p.mains@[slot] as int) == labeled_number(
            fac_lines(text)[k],
            label,
        ),
        k == fac_lines(text).len() ==> p.mains@[slot] == 0,
        fac_lines(text).len() > 2 ==> p.name@ == trim(fac_lines(text)[2]),
        fac_lines(text).len() > 1 && leading_number(fac_lines(text)[1]) is Some ==> Some(
            p.version as int,
        ) == leading_number(fac_lines(text)[1]),
        band_texts(p.bands@) == eq_bands(fac_lines(text)),
        p.bands@.len() == eq_bands(fac_lines(text)).len(),
        forall|b: int|
            0 <= b < p.bands@.len() ==> (#[trigger] p.bands@[b]).frequency@ == eq_bands(
                fac_lines(text),
            )[b].0 && p.bands@[b].gain@ == eq_bands(fac_lines(text))[b].1,
        p.app_flags@.len() == indexed_block(
            fac_lines(text),
            "Number of Application Dependent Integers"@,
        ).len(),
        forall|f: int|
            0 <= f < p.app_flags@.len() ==> (#[trigger] p.app_flags@[f]) as int == indexed_block(
                fac_lines(text),
                "Number of Application Dependent Integers"@,
            )[f],
{
    let lines = fac_lines(text);
    reveal_strlit("Main ");
    assert(decimal(slot as nat) =~= seq![label[5]]);
    assert("Main "@ + decimal(slot as nat) =~= label) by {
        assert(label =~= label.take(5) + seq![label[5]]);
    }
    the_first_labelled_line_decides(lines, label, k);
    assert(p.mains@[slot] == or_else(find_labeled(lines, label), 0));
    assert(band_texts(p.bands@).len() == p.bands@.len());
    assert(ints(p.app_flags@).len() == p.app_flags@.len());
    assert forall|b: int| 0 <= b < p.bands@.len() implies (#[trigger] p.bands@[b]).frequency@
        == eq_bands(lines)[b].0 && p.bands@[b].gain@ == eq_bands(lines)[b].1 by {
        assert(band_texts(p.bands@)[b] == (p.bands@[b].frequency@, p.bands@[b].gain@));
    }
    assert forall|f: int| 0 <= f < p.app_flags@.len() implies (#[trigger] p.app_flags@[f]) as int
        == indexed_block(lines, "Number of Application Dependent Integers"@)[f] by {
        assert(ints(p.app_flags@)[f] == p.app_flags@[f] as int);
    }
}

/// The equaliser of a preset is on unless its line says zero.
pub proof fn the_switch_is_read(p: FacPreset, path: Seq<char>, text: Seq<char>, k: int)
    requires
        reads_as(p, path, text),
        0 <= k <= fac_lines(text).len(),
        forall|j: int|
            0 <= j < k ==> labeled_number(#[trigger] fac_lines(text)[j], "On/Off Flag"@) is None,
        k < fac_lines(text).len() ==> labeled_number(fac_lines(text)[k], "On/Off Flag"@) is Some,
    ensures
        k == fac_lines(text).len() ==> p.eq_on,
        k < fac_lines(text).len() ==> p.eq_on == (labeled_number(
            fac_lines(text)[k],
            "On/Off Flag"@,
        ) != Some(0int)),
{
    the_first_labelled_line_decides(fac_lines(text), "On/Off Flag"@, k);
}

/// A file is a preset exactly if its first line begins with the format's name,
/// whatever follows.
pub proof fn presets_are_known_by_their_first_line(rest: Seq<char>, text: Seq<char>)
    ensures
        is_preset("CLASS1"@ + rest),
        fac_lines(text).len() > 0,
        !starts_with(fac_lines(text)[0], "CLASS1"@) ==> !is_preset(text),
{
    let magic = "CLASS1"@;
    let s = magic + rest;
    reveal_strlit("CLASS1");
    crate::text::splitting_loses_nothing(text, '\n');
    crate::text::lemma_index_of_bound(s, '\n');
    let i = index_of_break(s);
    assert forall|j: int| 0 <= j < 6 implies s[j] == magic[j] && s[j] != '\n' by {}
    assert(i >= 6) by {
        if i < 6 {
            assert(s[i] == '\n');
        }
    }
    let piece = split(s, '\n')[0];
    assert(piece =~= s.take(i));
    lemma_kept_front(piece, '\r', 6);
    let line = fac_lines(s)[0];
    assert(line == trim_end_of(piece, '\r'));
    assert(line.take(6) =~= magic);
}

spec fn index_of_break(s: Seq<char>) -> int {
    crate::text::index_of(s, '\n') as int
}

proof fn lemma_kept_front(s: Seq<char>, c: char, k: int)
    requires
        0 < k <= s.len(),
        s[k - 1] != c,
    ensures
        trim_end_of(s, c).len() >= k,
        trim_end_of(s, c).take(k) == s.take(k),
{
    crate::text::trimming_of_takes_one_character_only(s, c);
    let t = trim_end_of(s, c);
    if t.len() < k {
        assert(s[k - 1] == c);
    }
    assert(t.take(k) =~= s.take(k));
}

/// The mark in front of UTF-8 text is taken off, and nothing else.
pub proof fn only_the_mark_is_taken_off(bytes: Seq<u8>)
    ensures
        without_bom(seq![0xefu8, 0xbbu8, 0xbfu8] + bytes) == bytes,
        without_bom(bytes) == bytes || bytes == seq![0xefu8, 0xbbu8, 0xbfu8] + without_bom(bytes),
        bytes.len() < 3 || bytes[0] != 0xef || bytes[1] != 0xbb || bytes[2] != 0xbf ==> without_bom(
            bytes,
        ) == bytes,
{
    let mark = seq![0xefu8, 0xbbu8, 0xbfu8];
    assert((mark + bytes).skip(3) =~= bytes);
    if bytes.len() >= 3 && bytes[0] == 0xef && bytes[1] == 0xbb && bytes[2] == 0xbf {
        assert(bytes =~= mark + bytes.skip(3));
    }
}

/// The slots of the file are not numbered like the effects: each effect has its
/// own level and its own flag.
pub proof fn every_effect_has_its_slot(mains: Seq<i32>, flags: Seq<i32>)
    requires
        mains.len() == 6,
        flags.len() == 5,
    ensures
        main_of(mains, DFX_EFFECT_FIDELITY) == Some(mains[0]),
        main_of(mains, DFX_EFFECT_SURROUND) == Some(mains[1]),
        main_of(mains, DFX_EFFECT_AMBIENCE) == Some(mains[3]),
        main_of(mains, DFX_EFFECT_DYNAMIC_BOOST) == Some(mains[4]),
        main_of(mains, DFX_EFFECT_BASS) == Some(mains[5]),
        flag_is_set(flags, DFX_EFFECT_FIDELITY) == (flags[0] != 0),
        flag_is_set(flags, DFX_EFFECT_SURROUND) == (flags[1] != 0),
        flag_is_set(flags, DFX_EFFECT_AMBIENCE) == (flags[2] != 0),
        flag_is_set(flags, DFX_EFFECT_DYNAMIC_BOOST) == (flags[3] != 0),
        flag_is_set(flags, DFX_EFFECT_BASS) == (flags[4] != 0),
        forall|effect: DfxEffectId|
            !(0 <= effect < 5) ==> (#[trigger] main_of(mains, effect)) is None && !flag_is_set(
                flags,
                effect,
            ),
{
}

/// A summary gives every level behind its label.
pub proof fn a_summary_gives_every_level(mains: Seq<i32>, n: int, slot: int)
    requires
        0 <= slot < n <= 6,
        slot != 2,
    ensures
        crate::text::occurs(
            summary_text(mains, n),
            slot_label(slot) + "="@ + signed_decimal(mains[slot] as int),
        ),
    decreases n,
{
    let part = slot_label(slot) + "="@ + signed_decimal(mains[slot] as int);
    let before = summary_text(mains, n - 1);
    if slot == n - 1 {
        let head = if n == 1 {
            before
        } else {
            before + " "@
        };
        assert(summary_text(mains, n) =~= head + part + Seq::<char>::empty());
        crate::text::a_part_occurs(head, part, Seq::empty());
    } else {
        a_summary_gives_every_level(mains, n - 1, slot);
        let i = choose|i: int| crate::text::occurs_at(before, part, i);
        let after = summary_text(mains, n);
        assert(after.take(before.len() as int) =~= before) by {
            if slot_effect(n - 1) is Some {
                let tail = " "@ + slot_label(n - 1) + "="@ + signed_decimal(mains[n - 1] as int);
                assert(after =~= before + tail);
            }
        }
        assert(after.subrange(i, i + part.len()) =~= before.subrange(i, i + part.len())) by {
            assert forall|j: int| i <= j < i + part.len() implies after[j] == before[j] by {
                assert(after.take(before.len() as int)[j] == after[j]);
            }
        }
        assert(crate::text::occurs_at(after, part, i));
    }
}

/// No two slots share a label.
pub proof fn labels_are_told_apart(a: int, b: int)
    requires
        0 <= a < 6,
        0 <= b < 6,
    ensures
        slot_label(a) == slot_label(b) ==> a == b,
{
    reveal_strlit("Fidelity");
    reveal_strlit("Surround");
    reveal_strlit("(reserved)");
    reveal_strlit("Ambience");
    reveal_strlit("DynamicBoost");
    reveal_strlit("Bass");
    assert(slot_label(0)[0] == 'F');
    assert(slot_label(1)[0] == 'S');
    assert(slot_label(2)[0] == '(');
    assert(slot_label(3)[0] == 'A');
    assert(slot_label(4)[0] == 'D');
    assert(slot_label(5)[0] == 'B');
}

/// Whether a file was shipped does not depend on the case of its name, and
/// every file that was shipped counts as such.
pub proof fn shipped_files_are_known(a: Seq<char>, b: Seq<char>, i: int)
    requires
        same_ignoring_case(a, b),
        0 <= i < 17,
    ensures
        is_shipped(a) == is_shipped(b),
        is_shipped(embedded_file(i)),
{
    assert(same_ignoring_case(embedded_file(i), embedded_file(i)));
    if is_shipped(a) {
        let k = choose|k: int| 0 <= k < 17 && same_ignoring_case(#[trigger] embedded_file(k), a);
        assert(same_ignoring_case(embedded_file(k), b));
    }
    if is_shipped(b) {
        let k = choose|k: int| 0 <= k < 17 && same_ignoring_case(#[trigger] embedded_file(k), b);
        assert(same_ignoring_case(embedded_file(k), a));
    }
}

/// A file has a preset's extension exactly if its name ends in it, behind a dot
/// and something before that.
pub proof fn the_extension_decides(path: Seq<char>, stem: Seq<char>, extension: Seq<char>)
    requires
        file_name(path) == Some(stem + seq!['.'] + extension),
        stem.len() > 0,
        !extension.contains('.'),
    ensures
        has_fac_extension(path) == same_ignoring_case(extension, "fac"@),
{
    let name = stem + seq!['.'] + extension;
    let k = stem.len() as int;
    lemma_last_dot(name, k);
    assert(name.skip(k + 1) =~= extension);
}

proof fn lemma_last_dot(s: Seq<char>, k: int)
    requires
        0 <= k < s.len(),
        s[k] == '.',
        forall|j: int| k < j < s.len() ==> s[j] != '.',
    ensures
        last_index_of(s, '.') == k,
    decreases s.len(),
{
    if s.len() - 1 > k {
        lemma_last_dot(s.drop_last(), k);
    }
}

/// A file is listed exactly if it has a preset's extension, could be read, and
/// holds a preset; what the others are does not matter.
pub proof fn every_preset_is_listed(files: Seq<PresetFile>, i: int)
    requires
        0 <= i < files.len(),
    ensures
        listed_files(files).contains(files[i]) == (has_fac_extension(files[i].path@)
            && files[i].content is Some && is_preset(file_text(files[i]))),
        listed_files(files).len() <= files.len(),
    decreases files.len(),
{
    reveal(Seq::filter);
    lemma_listed(files);
    lemma_listed_contains(files, i);
}

proof fn lemma_listed(files: Seq<PresetFile>)
    ensures
        listed_files(files).len() <= files.len(),
        forall|k: int|
            0 <= k < listed_files(files).len() ==> is_listed(#[trigger] listed_files(files)[k]),
    decreases files.len(),
{
    reveal(Seq::filter);
    if files.len() > 0 {
        lemma_listed(files.drop_last());
        let before = listed_files(files.drop_last());
        assert forall|k: int| 0 <= k < listed_files(files).len() implies is_listed(
            #[trigger] listed_files(files)[k],
        ) by {
            if k < before.len() {
                assert(is_listed(before[k]));
            }
        }
    }
}

proof fn lemma_listed_contains(files: Seq<PresetFile>, i: int)
    requires
        0 <= i < files.len(),
    ensures
        listed_files(files).contains(files[i]) == is_listed(files[i]),
    decreases files.len(),
{
    reveal(Seq::filter);
    lemma_listed(files);
    let all = listed_files(files);
    if all.contains(files[i]) {
        let k = choose|k: int| 0 <= k < all.len() && all[k] == files[i];
        assert(is_listed(all[k]));
    }
    if is_listed(files[i]) {
        let front = files.drop_last();
        let before = listed_files(front);
        if i < front.len() {
            lemma_listed_contains(front, i);
            assert(front[i] == files[i]);
            let k = choose|k: int| 0 <= k < before.len() && before[k] == files[i];
            assert(all[k] == files[i]);
        } else {
            assert(all[before.len() as int] == files[i]);
        }
    }
}

/// The entry of a file has the file's path, the name on its third line, and the
/// origin that its name gives; and entries stand in the order of their names.
pub proof fn entries_show_their_files(
    e: PresetEntry,
    file: PresetFile,
    origin: PresetOrigin,
    found: Seq<PresetEntry>,
    i: int,
    j: int,
)
    requires
        entry_for(e, file, origin),
        0 <= i < j < by_rank(found).len(),
    ensures
        e.path@ == file.path@,
        fac_lines(file_text(file)).len() > 2 ==> e.name@ == trim(fac_lines(file_text(file))[2]),
        e.origin == origin,
        file_name(file.path@) is Some ==> (origin_of(file.path@) == PresetOrigin::BuiltIn)
            == is_shipped(file_name(file.path@)->0),
        !text_before(
            lowercase(by_rank(found)[j].name@),
            lowercase(by_rank(found)[i].name@),
        ),
        by_rank(found).to_multiset() == found.to_multiset(),
{
    crate::sort::sorting_orders(found);
    assert(!by_rank(found)[j].ranks_before(&by_rank(found)[i]));
    lemma_text_order_total(
        lowercase(by_rank(found)[j].name@),
        lowercase(by_rank(found)[i].name@),
    );
}

} // verus!
