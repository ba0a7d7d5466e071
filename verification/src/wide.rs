//! UTF-16 text, as the system hands it out and takes it.

use crate::text::chars_of;
use vstd::prelude::*;
use vstd::string::*;

verus! {

/// Whether a number is that of a character: not a surrogate, and not beyond
/// the last code point.
pub open spec fn is_char_value(n: u32) -> bool {
    n <= 0xd7ff || 0xe000 <= n <= 0x10ffff
}

/// `char::from_u32`: the character with this number, if there is one.
pub assume_specification [char::from_u32] (i: u32) -> (r: Option<char>)
    ensures
        r == (if is_char_value(i) {
            Some(i as char)
        } else {
            None
        }),
;

/// The UTF-16 code units of one character.
pub open spec fn units_of(c: char) -> Seq<u16> {
    let n = c as u32;
    if n < 0x10000 {
        seq![n as u16]
    } else {
        seq![(0xd800 + (n - 0x10000) / 0x400) as u16, (0xdc00 + (n - 0x10000) % 0x400) as u16]
    }
}

/// A text in UTF-16.
pub open spec fn utf16(s: Seq<char>) -> Seq<u16>
    decreases s.len(),
{
    if s.len() == 0 {
        Seq::empty()
    } else {
        utf16(s.drop_last()) + units_of(s.last())
    }
}

pub open spec fn is_high(u: u16) -> bool {
    0xd800 <= u <= 0xdbff
}

pub open spec fn is_low(u: u16) -> bool {
    0xdc00 <= u <= 0xdfff
}

/// The character that a pair of surrogates stands for.
pub open spec fn paired(high: u16, low: u16) -> char {
    (0x10000 + (high - 0xd800) * 0x400 + (low - 0xdc00)) as char
}

/// The text that UTF-16 code units stand for. An unpaired surrogate is shown
/// as the replacement character.
pub open spec fn utf16_text(units: Seq<u16>) -> Seq<char>
    decreases units.len(),
{
    if units.len() == 0 {
        Seq::empty()
    } else if units.len() >= 2 && is_high(units[0]) && is_low(units[1]) {
        seq![paired(units[0], units[1])] + utf16_text(units.skip(2))
    } else if is_high(units[0]) || is_low(units[0]) {
        seq!['\u{fffd}'] + utf16_text(units.skip(1))
    } else {
        seq![units[0] as char] + utf16_text(units.skip(1))
    }
}

proof fn lemma_text_of_char(c: char, rest: Seq<u16>)
    ensures
        utf16_text(units_of(c) + rest) == seq![c] + utf16_text(rest),
{
    let all = units_of(c) + rest;
    let n = c as u32;
    if n < 0x10000 {
        assert(all.skip(1) =~= rest);
    } else {
        assert(all.skip(2) =~= rest);
        let d = (n - 0x10000) as int;
        assert(paired(all[0], all[1]) == c);
    }
}

proof fn lemma_text_of_utf16(s: Seq<char>, rest: Seq<u16>)
    ensures
        utf16_text(utf16(s) + rest) == s + utf16_text(rest),
    decreases s.len(),
{
    if s.len() == 0 {
        assert(utf16(s) + rest =~= rest);
        assert(s + utf16_text(rest) =~= utf16_text(rest));
    } else {
        let front = s.drop_last();
        let c = s.last();
        lemma_text_of_char(c, rest);
        lemma_text_of_utf16(front, units_of(c) + rest);
        assert(utf16(s) + rest =~= utf16(front) + (units_of(c) + rest));
        assert(front + (seq![c] + utf16_text(rest)) =~= s + utf16_text(rest));
    }
}

/// Text survives the way to UTF-16 and back.
pub proof fn utf16_round_trips(s: Seq<char>)
    ensures
        utf16_text(utf16(s)) == s,
{
    lemma_text_of_utf16(s, Seq::empty());
    assert(utf16(s) + Seq::<u16>::empty() =~= utf16(s));
    assert(s + utf16_text(Seq::empty()) =~= s);
}

/// Two texts with the same UTF-16 form are the same.
pub proof fn utf16_is_injective(a: Seq<char>, b: Seq<char>)
    requires
        utf16(a) == utf16(b),
    ensures
        a == b,
{
    utf16_round_trips(a);
    utf16_round_trips(b);
}

/// Encodes a text in UTF-16, without a terminator.
pub fn encode_utf16(value: &str) -> (r: Vec<u16>)
    ensures
        r@ == utf16(value@),
{
    let chars = chars_of(value);
    let mut out: Vec<u16> = Vec::new();
    let mut i: usize = 0;
    while i < chars.len()
        invariant
            i <= chars@.len(),
            out@ == utf16(chars@.take(i as int)),
        decreases chars@.len() - i,
    {
        let n: u32 = chars[i] as u32;
        let ghost before = out@;
        if n < 0x10000 {
            out.push(n as u16);
        } else {
            let d: u32 = n - 0x10000;
            out.push((0xd800 + d / 0x400) as u16);
            out.push((0xdc00 + d % 0x400) as u16);
        }
        assert(out@ =~= before + units_of(chars@[i as int]));
        assert(chars@.take(i + 1).drop_last() =~= chars@.take(i as int));
        i = i + 1;
    }
    assert(chars@.take(i as int) =~= chars@);
    out
}

/// Encodes a text as a NUL-terminated UTF-16 string.
pub fn to_wide(value: &str) -> (r: Vec<u16>)
    ensures
        r@ == utf16(value@).push(0),
{
    let mut out = encode_utf16(value);
    out.push(0);
    out
}

/// Decodes UTF-16, showing what is not as the replacement character.
pub fn from_utf16_lossy(units: &[u16]) -> (r: String)
    ensures
        r@ == utf16_text(units@),
{
    let mut out: String = String::new();
    let mut i: usize = 0;
    let size: usize = units.len();
    assert(units@.skip(0) =~= units@);
    assert(utf16_text(units@) =~= out@ + utf16_text(units@.skip(0)));
    while i < size
        invariant
            i <= size == units@.len(),
            utf16_text(units@) == out@ + utf16_text(units@.skip(i as int)),
        decreases size - i,
    {
        let u: u16 = units[i];
        let ghost before = out@;
        let ghost rest = units@.skip(i as int);
        if size - i >= 2 && 0xd800 <= u && u <= 0xdbff && 0xdc00 <= units[i + 1] && units[i + 1]
            <= 0xdfff {
            let n: u32 = 0x10000 + (u as u32 - 0xd800) * 0x400 + (units[i + 1] as u32 - 0xdc00);
            match char::from_u32(n) {
                Some(c) => {
                    out.push(c);
                },
                None => {
                    assert(false);
                },
            }
            proof {
                assert(rest.skip(2) =~= units@.skip(i + 2));
                assert(before + (seq![paired(rest[0], rest[1])] + utf16_text(rest.skip(2)))
                    =~= out@ + utf16_text(rest.skip(2)));
            }
            i = i + 2;
        } else {
            if 0xd800 <= u && u <= 0xdfff {
                out.push('\u{fffd}');
            } else {
                match char::from_u32(u as u32) {
                    Some(c) => {
                        out.push(c);
                    },
                    None => {
                        assert(false);
                    },
                }
            }
            proof {
                assert(rest.skip(1) =~= units@.skip(i + 1));
                assert(utf16_text(rest) =~= seq![out@.last()] + utf16_text(rest.skip(1)));
                assert(before + (seq![out@.last()] + utf16_text(rest.skip(1))) =~= out@
                    + utf16_text(rest.skip(1)));
            }
            i = i + 1;
        }
    }
    assert(units@.skip(size as int) =~= Seq::empty());
    assert(out@ + utf16_text(units@.skip(size as int)) =~= out@);
    out
}

/// The bytes of UTF-16 code units, low byte first.
pub open spec fn le_bytes(units: Seq<u16>) -> Seq<u8> {
    Seq::new(
        units.len() * 2,
        |p: int|
            if p % 2 == 0 {
                (units[p / 2] % 256) as u8
            } else {
                (units[p / 2] / 256) as u8
            },
    )
}

/// The code units in a byte string, low byte first. An odd byte at the end is
/// dropped.
pub open spec fn le_units(bytes: Seq<u8>) -> Seq<u16> {
    Seq::new(
        (bytes.len() as int / 2) as nat,
        |i: int| (bytes[2 * i] + 256 * bytes[2 * i + 1]) as u16,
    )
}

/// Code units survive the way to bytes and back.
pub proof fn le_bytes_round_trip(units: Seq<u16>)
    ensures
        le_units(le_bytes(units)) == units,
{
    assert(le_units(le_bytes(units)) =~= units);
}

/// Executable [`le_bytes`].
pub fn units_to_bytes(units: &[u16]) -> (r: Vec<u8>)
    ensures
        r@ == le_bytes(units@),
{
    let mut out: Vec<u8> = Vec::new();
    let mut i: usize = 0;
    while i < units.len()
        invariant
            i <= units@.len(),
            out@ == le_bytes(units@.take(i as int)),
        decreases units@.len() - i,
    {
        out.push((units[i] % 256) as u8);
        out.push((units[i] / 256) as u8);
        assert(out@ =~= le_bytes(units@.take(i + 1)));
        i = i + 1;
    }
    assert(units@.take(i as int) =~= units@);
    out
}

/// Executable [`le_units`].
pub fn bytes_to_units(bytes: &[u8]) -> (r: Vec<u16>)
    ensures
        r@ == le_units(bytes@),
{
    let mut out: Vec<u16> = Vec::new();
    let size: usize = bytes.len();
    let count: usize = size / 2;
    let mut i: usize = 0;
    while i < count
        invariant
            i <= count,
            size == bytes@.len(),
            count == size / 2,
            out@ == le_units(bytes@).take(i as int),
        decreases count - i,
    {
        out.push(bytes[2 * i] as u16 + 256 * (bytes[2 * i + 1] as u16));
        assert(out@ =~= le_units(bytes@).take(i + 1));
        i = i + 1;
    }
    assert(le_units(bytes@).take(count as int) =~= le_units(bytes@));
    out
}

/// A character of the basic plane is the code unit with its number; any other
/// is a high surrogate and a low one, ten bits in each.
pub proof fn characters_take_one_unit_or_two(c: char)
    ensures
        (c as u32) <= 0xffff ==> units_of(c).len() == 1 && units_of(c)[0] == c as u32,
        (c as u32) > 0xffff ==> units_of(c).len() == 2 && is_high(units_of(c)[0]) && is_low(
            units_of(c)[1],
        ) && (units_of(c)[0] - 0xd800) * 1024 + (units_of(c)[1] - 0xdc00) + 0x10000 == c as u32,
{
}

/// Texts put together stand together in UTF-16.
pub proof fn utf16_is_taken_piece_by_piece(a: Seq<char>, b: Seq<char>)
    ensures
        utf16(a + b) == utf16(a) + utf16(b),
    decreases b.len(),
{
    if b.len() == 0 {
        assert(a + b =~= a);
        assert(utf16(a) + utf16(b) =~= utf16(a));
    } else {
        assert((a + b).drop_last() =~= a + b.drop_last());
        utf16_is_taken_piece_by_piece(a, b.drop_last());
        assert(utf16(a + b) =~= utf16(a) + utf16(b));
    }
}

/// A surrogate without its other half stands for the replacement character,
/// and what follows it is read all the same.
pub proof fn half_a_pair_is_replaced(half: u16, rest: Seq<u16>)
    requires
        0xd800 <= half <= 0xdfff,
        rest.len() == 0 || !is_high(half) || !is_low(rest[0]),
    ensures
        utf16_text(seq![half] + rest) == seq!['\u{fffd}'] + utf16_text(rest),
{
    let all = seq![half] + rest;
    assert(all.skip(1) =~= rest);
    assert(all[0] == half);
    if rest.len() > 0 {
        assert(all[1] == rest[0]);
    }
}

/// A code unit is two bytes, the low one first.
pub proof fn the_low_byte_comes_first(units: Seq<u16>, i: int)
    requires
        0 <= i < units.len(),
    ensures
        le_bytes(units).len() == 2 * units.len(),
        le_bytes(units)[2 * i] + 256 * le_bytes(units)[2 * i + 1] == units[i],
{
}

/// Bytes are read two by two, the low one first; an odd one at the end is
/// passed over.
pub proof fn bytes_are_read_in_pairs(bytes: Seq<u8>, i: int)
    requires
        0 <= i,
        2 * i + 1 < bytes.len(),
    ensures
        le_units(bytes).len() == bytes.len() as int / 2,
        le_units(bytes)[i] == bytes[2 * i] + 256 * bytes[2 * i + 1],
        bytes.len() % 2 == 0 ==> forall|odd: u8| #[trigger] le_units(bytes.push(odd)) == le_units(
            bytes,
        ),
{
    if bytes.len() % 2 == 0 {
        assert forall|odd: u8| #[trigger] le_units(bytes.push(odd)) == le_units(bytes) by {
            assert(le_units(bytes.push(odd)) =~= le_units(bytes));
        }
    }
}

} // verus!
