//! Conversion between the sample formats of an endpoint and the levels that
//! the engine works on.
//!
//! A level is a single-precision number in `-1.0..=1.0`, carried as its bits.

use crate::engine::{SampleKind, StreamFormat};
use crate::float::{
    absolute, as_double, below, is_nan, magnitude, nearest, not_a_number, power_of_two, spacing,
    to_double, ONE, SIGN,
};
use vstd::prelude::*;

verus! {

// ---------------------------------------------------------------------------
// Single-precision numbers
// ---------------------------------------------------------------------------

/// The significand of a finite pattern.
pub open spec fn significand(x: u32) -> int {
    if magnitude(x) < 0x80_0000 {
        magnitude(x)
    } else {
        0x80_0000 + magnitude(x) % 0x80_0000
    }
}

/// The exponent of a finite pattern: its number is the significand times `2`
/// to the power of the exponent minus 150.
pub open spec fn exponent(x: u32) -> int {
    if magnitude(x) < 0x80_0000 {
        1
    } else {
        magnitude(x) / 0x80_0000
    }
}

/// Whether the number of a pattern is exactly `n` divided by `2` to the power
/// of `k`, where `k` is at most 31.
pub open spec fn is_ratio(x: u32, n: int, k: int) -> bool {
    &&& magnitude(x) < 0x7f80_0000
    &&& (x >= 0x8000_0000) == (n < 0)
    &&& significand(x) * power_of_two(exponent(x) as nat) == (if n < 0 {
        -n
    } else {
        n
    }) * power_of_two((150 - k) as nat)
}

/// How far apart the single-precision numbers around `n` are, but at least 1.
pub open spec fn single_spacing(n: int) -> int
    decreases n,
{
    if n < 0x100_0000 {
        1
    } else {
        2 * single_spacing(n / 2)
    }
}

/// `n` rounded to a single-precision number.
pub open spec fn as_single(n: int) -> int {
    nearest(n, single_spacing(n)) * single_spacing(n)
}

proof fn lemma_power_positive(k: nat)
    ensures
        power_of_two(k) >= 1,
    decreases k,
{
    if k > 0 {
        lemma_power_positive((k - 1) as nat);
    }
}

proof fn lemma_power_add(a: nat, b: nat)
    ensures
        power_of_two(a + b) == power_of_two(a) * power_of_two(b),
    decreases a,
{
    if a > 0 {
        lemma_power_add((a - 1) as nat, b);
        assert(power_of_two((a + b) as nat) == 2 * power_of_two((a + b - 1) as nat));
        assert(2 * (power_of_two((a - 1) as nat) * power_of_two(b)) == (2 * power_of_two(
            (a - 1) as nat,
        )) * power_of_two(b)) by (nonlinear_arith);
    } else {
        assert(1 * power_of_two(b) == power_of_two(b));
    }
}

proof fn lemma_power_table()
    ensures
        power_of_two(23) == 0x80_0000,
        power_of_two(8) == 0x100,
{
    reveal_with_fuel(power_of_two, 24);
}

/// The pattern of `m` times `2` to the power of `e`, minus 150.
fn pack(m: u64, e: u32, negative: bool) -> (r: u32)
    requires
        0 < m <= 0x100_0000,
        119 <= e <= 158,
    ensures
        magnitude(r) < 0x7f80_0000,
        (r >= 0x8000_0000) == negative,
        significand(r) * power_of_two(exponent(r) as nat) == m * power_of_two(e as nat),
{
    let mut top: u64 = m;
    let mut at: u32 = e;
    proof {
        assert(m * power_of_two(0) == m);
    }
    if m == 0x100_0000 {
        top = 0x80_0000;
        at = e + 1;
        assert(power_of_two(at as nat) == 2 * power_of_two(e as nat));
    } else {
        while top < 0x80_0000
            invariant
                0 < m < 0x100_0000,
                0 < top < 0x100_0000,
                e - 23 <= at <= e <= 158,
                119 <= e,
                top == m * power_of_two((e - at) as nat),
                top * power_of_two(at as nat) == m * power_of_two(e as nat),
            decreases at,
        {
            proof {
                let p = power_of_two((at - 1) as nat);
                assert(power_of_two(at as nat) == 2 * p);
                assert(top * (2 * p) == (2 * top) * p) by (nonlinear_arith);
                let up = power_of_two((e - at) as nat);
                assert(power_of_two((e - (at - 1)) as nat) == 2 * up);
                assert(2 * (m * up) == m * (2 * up)) by (nonlinear_arith);
                if at == e - 23 {
                    lemma_power_table();
                    assert(m * 0x80_0000 >= 0x80_0000);
                }
            }
            top = top * 2;
            at = at - 1;
        }
    }
    let bits: u32 = at * 0x80_0000 + (top as u32 - 0x80_0000);
    assert(bits < 0x7f80_0000 && bits / 0x80_0000 == at && bits % 0x80_0000 == top - 0x80_0000);
    if negative {
        bits + SIGN
    } else {
        bits
    }
}

/// A signed number rounded to single precision.
pub open spec fn single_of(n: int) -> int {
    if n < 0 {
        -as_single(-n)
    } else {
        as_single(n)
    }
}

proof fn lemma_single(n: int)
    requires
        0 <= n <= 0x8000_0000,
    ensures
        1 <= single_spacing(n) <= 256,
        n < 0x100_0000 ==> as_single(n) == n,
{
    reveal_with_fuel(single_spacing, 10);
    if n < 0x100_0000 {
        assert(nearest(n, 1) == n);
    }
}

/// The level `n` divided by `2` to the power of `k`, after rounding `n` to
/// single precision.
fn to_level(n: i64, k: u32) -> (r: u32)
    requires
        -0x8000_0000 <= n <= 0x8000_0000,
        k <= 31,
    ensures
        is_ratio(r, single_of(n as int), k as int),
{
    let size: u64 = if n < 0 {
        (-n) as u64
    } else {
        n as u64
    };
    if size == 0 {
        proof {
            lemma_single(0);
            assert(0 * power_of_two(1) == 0);
            assert(0 * power_of_two((150 - k) as nat) == 0);
        }
        return 0;
    }
    let mut half: u64 = size;
    let mut gap: u64 = 1;
    let mut g: u32 = 0;
    proof {
        lemma_single(size as int);
        lemma_power_table();
    }
    while half >= 0x100_0000
        invariant
            0 < size <= 0x8000_0000,
            half <= size,
            half as int == size as int / gap as int,
            gap == power_of_two(g as nat),
            g <= 8,
            1 <= gap,
            size < 0x100_0000 ==> gap == 1,
            size >= 0x100_0000 ==> half >= 0x80_0000,
            single_spacing(size as int) == gap * single_spacing(half as int),
            single_spacing(size as int) <= 256,
        decreases half,
    {
        proof {
            lemma_single(half as int);
            lemma_single(half as int / 2);
            let next = single_spacing(half as int / 2);
            assert(gap * (2 * next) == (gap * 2) * next) by (nonlinear_arith);
            assert(gap * 2 <= 256) by (nonlinear_arith)
                requires
                    (gap * 2) * next <= 256,
                    next >= 1,
            ;
            assert((size as int / gap as int) / 2 == size as int / (gap * 2)) by {
                vstd::arithmetic::div_mod::lemma_div_denominator(size as int, gap as int, 2);
            }
            if g == 8 {
                lemma_power_table();
            }
        }
        half = half / 2;
        gap = gap * 2;
        g = g + 1;
    }
    assert(gap * 1 == gap);
    let whole: u64 = size / gap;
    let rest: u64 = size % gap;
    let steps: u64 = if 2 * rest < gap || (2 * rest == gap && whole % 2 == 0) {
        whole
    } else {
        whole + 1
    };
    proof {
        assert(steps == nearest(size as int, gap as int));
        assert(as_single(size as int) == steps * gap);
        assert(whole == half);
        assert(0 < steps <= 0x100_0000);
        lemma_power_add(g as nat, (150 - k) as nat);
        assert((steps * gap) * power_of_two((150 - k) as nat) == steps * (power_of_two(g as nat)
            * power_of_two((150 - k) as nat))) by (nonlinear_arith)
            requires
                gap == power_of_two(g as nat),
        ;
        assert(steps * gap > 0) by (nonlinear_arith)
            requires
                steps > 0,
                gap > 0,
        ;
    }
    pack(steps, 150 - k + g, n < 0)
}

// ---------------------------------------------------------------------------
// Bytes
// ---------------------------------------------------------------------------

/// The unsigned number in bytes, low byte first.
pub open spec fn le_value(bytes: Seq<u8>) -> int
    decreases bytes.len(),
{
    if bytes.len() == 0 {
        0
    } else {
        bytes[0] + 256 * le_value(bytes.drop_first())
    }
}

/// The signed number of an unsigned one with so many values.
pub open spec fn as_signed(n: int, span: int) -> int {
    if n >= span / 2 {
        n - span
    } else {
        n
    }
}

fn read16(bytes: &[u8], at: usize) -> (r: u16)
    requires
        at + 2 <= bytes@.len(),
    ensures
        r == le_value(bytes@.subrange(at as int, at + 2)),
{
    proof {
        reveal_with_fuel(le_value, 3);
        let b = bytes@.subrange(at as int, at + 2);
        assert(b.drop_first()[0] == bytes@[at + 1]);
    }
    bytes[at] as u16 + 256 * (bytes[at + 1] as u16)
}

fn read32(bytes: &[u8], at: usize) -> (r: u32)
    requires
        at + 4 <= bytes@.len(),
    ensures
        r == le_value(bytes@.subrange(at as int, at + 4)),
{
    proof {
        reveal_with_fuel(le_value, 5);
        let b = bytes@.subrange(at as int, at + 4);
        let c = b.drop_first();
        let d = c.drop_first();
        assert(c[0] == bytes@[at + 1]);
        assert(d[0] == bytes@[at + 2]);
        assert(d.drop_first()[0] == bytes@[at + 3]);
    }
    bytes[at] as u32 + 256 * (bytes[at + 1] as u32) + 65536 * (bytes[at + 2] as u32) + 16777216 * (
    bytes[at + 3] as u32)
}

/// How many bytes a sample takes.
pub open spec fn sample_size(kind: SampleKind) -> int {
    match kind {
        SampleKind::Pcm16 => 2,
        _ => 4,
    }
}

/// Whether `level` is what the bytes of a sample stand for.
///
/// 16 bits go from -1.0 to just under 1.0; 24 bits stand left-aligned in their
/// container, whose low byte is padding; 32 bits are rounded to single
/// precision.
pub open spec fn decodes(kind: SampleKind, bytes: Seq<u8>, level: u32) -> bool {
    let n = le_value(bytes);
    match kind {
        SampleKind::Float32 => level == n,
        SampleKind::Pcm16 => is_ratio(level, as_signed(n, 0x1_0000), 15),
        SampleKind::Pcm24In32 => is_ratio(level, as_signed(n, 0x1_0000_0000) / 256, 23),
        SampleKind::Pcm32 => is_ratio(level, single_of(as_signed(n, 0x1_0000_0000)), 31),
    }
}

fn decode_sample(kind: SampleKind, bytes: &[u8], at: usize) -> (r: u32)
    requires
        at + sample_size(kind) <= bytes@.len(),
    ensures
        decodes(kind, bytes@.subrange(at as int, at + sample_size(kind)), r),
{
    match kind {
        SampleKind::Float32 => read32(bytes, at),
        SampleKind::Pcm16 => {
            let n: u16 = read16(bytes, at);
            let v: i64 = if n >= 0x8000 {
                n as i64 - 0x1_0000
            } else {
                n as i64
            };
            proof {
                lemma_single(
                    if v < 0 {
                        -v as int
                    } else {
                        v as int
                    },
                );
            }
            to_level(v, 15)
        },
        SampleKind::Pcm24In32 => {
            let n: u32 = read32(bytes, at);
            // Rounds toward negative infinity, as an arithmetic shift does.
            let v: i64 = if n >= 0x8000_0000 {
                (n / 256) as i64 - 0x100_0000
            } else {
                (n / 256) as i64
            };
            proof {
                lemma_single(
                    if v < 0 {
                        -v as int
                    } else {
                        v as int
                    },
                );
            }
            to_level(v, 23)
        },
        SampleKind::Pcm32 => {
            let n: u32 = read32(bytes, at);
            let v: i64 = if n >= 0x8000_0000 {
                n as i64 - 0x1_0000_0000
            } else {
                n as i64
            };
            to_level(v, 31)
        },
    }
}

/// Decodes a block of bytes into levels, which are put behind those in `out`.
/// An incomplete sample at the end is dropped.
pub fn decode_to_f32(bytes: &[u8], format: StreamFormat, out: &mut Vec<u32>)
    ensures
        ({
            let size = sample_size(format.kind);
            let count = bytes@.len() as int / size;
            &&& final(out)@.len() == old(out)@.len() + count
            &&& final(out)@.take(old(out)@.len() as int) == old(out)@
            &&& forall|i: int|
                0 <= i < count ==> decodes(
                    format.kind,
                    bytes@.subrange(size * i, size * i + size),
                    #[trigger] final(out)@[old(out)@.len() + i],
                )
        }),
{
    let size: usize = match format.kind {
        SampleKind::Pcm16 => 2,
        _ => 4,
    };
    let total: usize = bytes.len();
    let count: usize = total / size;
    let ghost start = out@;
    let mut i: usize = 0;
    assert(out@.take(start.len() as int) =~= start);
    while i < count
        invariant
            i <= count,
            size == sample_size(format.kind),
            size == 2 || size == 4,
            total == bytes@.len(),
            count == total / size,
            out@.len() == start.len() + i,
            out@.take(start.len() as int) == start,
            forall|k: int|
                0 <= k < i ==> decodes(
                    format.kind,
                    bytes@.subrange(size * k, size * k + size),
                    #[trigger] out@[start.len() + k],
                ),
        decreases count - i,
    {
        assert(size * i + size <= total) by (nonlinear_arith)
            requires
                i < count,
                count == total / size,
                size > 0,
        ;
        let level: u32 = decode_sample(format.kind, bytes, size * i);
        let ghost before = out@;
        out.push(level);
        proof {
            assert(out@.take(start.len() as int) =~= before.take(start.len() as int));
            assert forall|k: int| 0 <= k < i + 1 implies decodes(
                format.kind,
                bytes@.subrange(size * k, size * k + size),
                #[trigger] out@[start.len() + k],
            ) by {
                if k < i {
                    assert(out@[start.len() + k] == before[start.len() + k]);
                }
            }
        }
        i = i + 1;
    }
}


// ---------------------------------------------------------------------------
// Encoding
// ---------------------------------------------------------------------------

/// The greatest number of an integer format.
pub open spec fn full_scale(kind: SampleKind) -> int {
    match kind {
        SampleKind::Float32 => 0,
        SampleKind::Pcm16 => 32_767,
        SampleKind::Pcm24In32 => 8_388_607,
        SampleKind::Pcm32 => 2_147_483_647,
    }
}

/// The magnitude of a level, held to full scale.
pub open spec fn held(x: u32) -> u32 {
    if magnitude(x) > 0x3f80_0000 {
        0x3f80_0000
    } else {
        magnitude(x) as u32
    }
}

/// The product of a level with the full scale of a format, in single
/// precision, or for 32 bits in double precision.
pub open spec fn rounded_product(kind: SampleKind, x: u32) -> int {
    let p = significand(held(x)) * full_scale(kind);
    if kind == SampleKind::Pcm32 {
        as_double(p)
    } else {
        as_single(p)
    }
}

/// The integer that a level is encoded as: it is held to full scale, scaled,
/// and rounded to the nearest integer, halves away from zero. What is not a
/// number is encoded as silence.
pub open spec fn encoded(kind: SampleKind, x: u32) -> int {
    let d = power_of_two((150 - exponent(held(x))) as nat);
    let n = (2 * rounded_product(kind, x) + d) / (2 * d);
    if is_nan(x) {
        0
    } else if x >= 0x8000_0000 {
        -n
    } else {
        n
    }
}

proof fn lemma_power_monotone(a: nat, b: nat)
    requires
        a <= b,
    ensures
        power_of_two(a) <= power_of_two(b),
{
    lemma_power_add((b - a) as nat, a);
    lemma_power_positive((b - a) as nat);
    lemma_power_positive(a);
    assert(power_of_two((b - a) as nat) * power_of_two(a) >= power_of_two(a)) by (nonlinear_arith)
        requires
            power_of_two((b - a) as nat) >= 1,
            power_of_two(a) >= 1,
    ;
}

proof fn lemma_power_values()
    ensures
        power_of_two(22) == 0x40_0000,
        power_of_two(23) == 0x80_0000,
        power_of_two(24) == 0x100_0000,
        power_of_two(47) == 0x8000_0000_0000,
        power_of_two(55) == 0x80_0000_0000_0000,
        power_of_two(63) == 0x8000_0000_0000_0000,
{
    reveal_with_fuel(power_of_two, 25);
    lemma_power_add(23, 24);
    lemma_power_add(8, 47);
    lemma_power_add(8, 55);
}

proof fn lemma_single_spacing_power(n: int) -> (j: nat)
    requires
        0 <= n,
    ensures
        single_spacing(n) == power_of_two(j),
        n >= 0x100_0000 ==> power_of_two(j + 23) <= n,
        n < 0x100_0000 ==> j == 0,
    decreases n,
{
    lemma_power_values();
    if n < 0x100_0000 {
        0
    } else {
        let i = lemma_single_spacing_power(n / 2);
        lemma_power_add(1, i + 23);
        assert(power_of_two(1) == 2 * power_of_two(0));
        (i + 1) as nat
    }
}

proof fn lemma_double_spacing_power(n: int) -> (j: nat)
    requires
        0 <= n,
    ensures
        spacing(n) == power_of_two(j),
        n >= 0x20_0000_0000_0000 ==> power_of_two(j + 52) <= n,
        n < 0x20_0000_0000_0000 ==> j == 0,
    decreases n,
{
    lemma_power_values();
    lemma_power_add(5, 47);
    assert(power_of_two(5) == 32) by {
        reveal_with_fuel(power_of_two, 6);
    }
    if n < 0x20_0000_0000_0000 {
        0
    } else {
        let i = lemma_double_spacing_power(n / 2);
        lemma_power_add(1, i + 52);
        assert(power_of_two(1) == 2 * power_of_two(0));
        (i + 1) as nat
    }
}

/// Rounding to a multiple of `s` does not pass a multiple of `s`.
proof fn lemma_nearest_bound(p: int, s: int, b: int)
    requires
        0 <= p <= b * s,
        s >= 1,
    ensures
        0 <= nearest(p, s) <= b,
{
    let q = p / s;
    assert(p == s * q + p % s && 0 <= p % s < s) by (nonlinear_arith)
        requires
            q == p / s,
            s >= 1,
    ;
    assert(q <= b && (q == b ==> p % s == 0) && q >= 0) by (nonlinear_arith)
        requires
            p == s * q + p % s,
            0 <= p % s < s,
            0 <= p <= b * s,
            s >= 1,
    ;
}

proof fn lemma_held(x: u32)
    requires
        !is_nan(x),
    ensures
        1 <= exponent(held(x)) <= 127,
        0 <= significand(held(x)) < 0x100_0000,
        exponent(held(x)) == 127 ==> significand(held(x)) == 0x80_0000,
{
}

/// What is encoded never passes full scale: a level beyond it is clamped and
/// does not wrap around.
pub proof fn encoding_clamps(kind: SampleKind, x: u32)
    ensures
        -full_scale(kind) <= encoded(kind, x) <= full_scale(kind),
        !is_nan(x) && kind != SampleKind::Float32 ==> rounded_product(kind, x) <= full_scale(kind)
            * power_of_two((150 - exponent(held(x))) as nat),
        !is_nan(x) && kind != SampleKind::Float32 ==> rounded_product(kind, x) >= 0,
{
    if !is_nan(x) {
        lemma_held(x);
        lemma_power_values();
        let f = full_scale(kind);
        let m = significand(held(x));
        let e = exponent(held(x));
        let k = (150 - e) as nat;
        let d = power_of_two(k);
        lemma_power_positive(k);
        let p = m * f;
        assert(0 <= p < 0x100_0000 * 0x8000_0000) by (nonlinear_arith)
            requires
                p == m * f,
                0 <= m < 0x100_0000,
                0 <= f < 0x8000_0000,
        ;
        if kind == SampleKind::Float32 {
            lemma_single(0);
            assert(m * 0 == 0);
            assert((2 * 0 + d) / (2 * d) == 0) by (nonlinear_arith)
                requires
                    d >= 1,
            ;
        } else {
            if e == 127 {
                assert(d == 0x80_0000);
                assert(m * f == f * d);
            } else {
                lemma_power_monotone(24, k);
                assert(p <= f * d) by (nonlinear_arith)
                    requires
                        p == m * f,
                        0 <= m < 0x100_0000,
                        d >= 0x100_0000,
                        f >= 0,
                ;
            }
            let j: nat = if kind == SampleKind::Pcm32 {
                lemma_double_spacing_power(p)
            } else {
                lemma_single_spacing_power(p)
            };
            let s = power_of_two(j);
            lemma_power_positive(j);
            assert(j <= 23) by {
                if j > 23 {
                    if kind == SampleKind::Pcm32 {
                        lemma_power_monotone(55, j + 52);
                        assert(p < 0x80_0000_0000_0000);
                    } else {
                        lemma_power_monotone(47, j + 23);
                        assert(p < 0x100_0000 * 0x80_0000) by (nonlinear_arith)
                            requires
                                p == m * f,
                                0 <= m < 0x100_0000,
                                0 <= f < 0x80_0000,
                        ;
                    }
                }
            }
            lemma_power_add((k - j) as nat, j);
            let t = power_of_two((k - j) as nat);
            assert(f * (t * s) == (f * t) * s) by (nonlinear_arith);
            lemma_nearest_bound(p, s, f * t);
            let q = nearest(p, s) * s;
            assert(q == rounded_product(kind, x));
            assert(0 <= q <= f * d) by (nonlinear_arith)
                requires
                    q == nearest(p, s) * s,
                    0 <= nearest(p, s) <= f * t,
                    s >= 1,
                    d == t * s,
                    f * (t * s) == (f * t) * s,
            ;
            let n = (2 * q + d) / (2 * d);
            assert(0 <= n <= f) by (nonlinear_arith)
                requires
                    n == (2 * q + d) / (2 * d),
                    0 <= q <= f * d,
                    d >= 1,
            ;
        }
    }
}

fn to_single(n: u64) -> (r: u64)
    requires
        n <= 0x8000_0000_0000,
    ensures
        r == as_single(n as int),
        r <= 2 * n,
{
    let mut half: u64 = n;
    let mut gap: u64 = 1;
    assert(1 * single_spacing(n as int) == single_spacing(n as int));
    while half >= 0x100_0000
        invariant
            n <= 0x8000_0000_0000,
            1 <= gap,
            half as int == n as int / gap as int,
            gap == 1 || gap * 0x80_0000 <= n,
            single_spacing(n as int) == gap * single_spacing(half as int),
        decreases half,
    {
        proof {
            let next = single_spacing(half as int / 2);
            assert(gap * (2 * next) == (gap * 2) * next) by (nonlinear_arith);
            assert((n as int / gap as int) / 2 == n as int / (gap * 2)) by {
                vstd::arithmetic::div_mod::lemma_div_denominator(n as int, gap as int, 2);
            }
            assert(gap * 0x100_0000 <= n) by (nonlinear_arith)
                requires
                    half as int == n as int / gap as int,
                    half >= 0x100_0000,
                    gap >= 1,
                    n >= 0,
            ;
        }
        half = half / 2;
        gap = gap * 2;
    }
    assert(gap * 1 == gap);
    let whole: u64 = n / gap;
    let rest: u64 = n % gap;
    proof {
        assert(n == gap * whole + rest && 0 <= rest < gap) by (nonlinear_arith)
            requires
                whole == n / gap,
                rest == n % gap,
                gap >= 1,
        ;
        assert((whole + 1) * gap == gap * whole + gap) by (nonlinear_arith);
        assert(whole * gap == gap * whole) by (nonlinear_arith);
        assert(whole < 0x100_0000);
        if n == 0 {
            assert(gap == 1);
        }
    }
    if 2 * rest < gap || (2 * rest == gap && whole % 2 == 0) {
        whole * gap
    } else {
        (whole + 1) * gap
    }
}

/// The integer that a level is encoded as.
fn encode_level(kind: SampleKind, x: u32) -> (r: i64)
    ensures
        r == encoded(kind, x),
        -full_scale(kind) <= r <= full_scale(kind),
{
    proof {
        encoding_clamps(kind, x);
    }
    if not_a_number(x) {
        return 0;
    }
    let size: u32 = if absolute(x) > ONE {
        ONE
    } else {
        absolute(x)
    };
    let factor: u64 = match kind {
        SampleKind::Float32 => {
            return 0;
        },
        SampleKind::Pcm16 => 32_767,
        SampleKind::Pcm24In32 => 8_388_607,
        SampleKind::Pcm32 => 2_147_483_647,
    };
    let m: u64 = if size < 0x80_0000 {
        size as u64
    } else {
        (0x80_0000 + size % 0x80_0000) as u64
    };
    let e: u32 = if size < 0x80_0000 {
        1
    } else {
        size / 0x80_0000
    };
    assert(size == held(x) && m == significand(held(x)) && e == exponent(held(x)));
    proof {
        lemma_held(x);
        assert(m * factor < 0x100_0000 * 0x8000_0000) by (nonlinear_arith)
            requires
                0 <= m < 0x100_0000,
                0 <= factor < 0x8000_0000,
        ;
        if kind != SampleKind::Pcm32 {
            assert(m * factor <= 0x8000_0000_0000) by (nonlinear_arith)
                requires
                    0 <= m < 0x100_0000,
                    0 <= factor < 0x80_0000,
            ;
        }
    }
    let p: u64 = m * factor;
    let q: u128 = match kind {
        SampleKind::Pcm32 => to_double(p),
        _ => to_single(p) as u128,
    };
    let places: u32 = 150 - e;
    let ghost d = power_of_two(places as nat);
    if places > 63 {
        proof {
            lemma_power_values();
            lemma_power_monotone(63, places as nat);
            let n = (2 * q + d) / (2 * d);
            assert(n == 0) by (nonlinear_arith)
                requires
                    n == (2 * q + d) / (2 * d),
                    0 <= q < 0x4000_0000_0000_0000,
                    d >= 0x8000_0000_0000_0000,
            ;
        }
        return 0;
    }
    let mut span: u128 = 1;
    let mut i: u32 = 0;
    while i < places
        invariant
            i <= places <= 63,
            span == power_of_two(i as nat),
            1 <= span <= 0x8000_0000_0000_0000,
        decreases places - i,
    {
        proof {
            lemma_power_values();
            lemma_power_monotone((i + 1) as nat, 63);
        }
        span = span * 2;
        i = i + 1;
    }
    let n: u128 = (2 * q + span) / (2 * span);
    proof {
        assert(n <= full_scale(kind)) by {
            if x >= 0x8000_0000 {
                assert(encoded(kind, x) == -(n as int));
            } else {
                assert(encoded(kind, x) == n as int);
            }
        }
    }
    if x >= SIGN {
        -(n as i64)
    } else {
        n as i64
    }
}

/// Whether `bytes` is how a level is encoded. 24 bits stand left-aligned in
/// their container. A float is handed over as it is.
pub open spec fn encodes(kind: SampleKind, x: u32, bytes: Seq<u8>) -> bool {
    let n = le_value(bytes);
    match kind {
        SampleKind::Float32 => n == x,
        SampleKind::Pcm16 => as_signed(n, 0x1_0000) == encoded(kind, x),
        SampleKind::Pcm24In32 => as_signed(n, 0x1_0000_0000) == 256 * encoded(kind, x),
        SampleKind::Pcm32 => as_signed(n, 0x1_0000_0000) == encoded(kind, x),
    }
}

fn write16(out: &mut Vec<u8>, at: usize, n: u16)
    requires
        at + 2 <= old(out)@.len(),
    ensures
        final(out)@.len() == old(out)@.len(),
        le_value(final(out)@.subrange(at as int, at + 2)) == n,
        forall|p: int|
            0 <= p < old(out)@.len() && !(at <= p < at + 2) ==> final(out)@[p] == old(out)@[p],
{
    let total: usize = out.len();
    out.set(at, (n % 256) as u8);
    out.set(at + 1, (n / 256) as u8);
    proof {
        reveal_with_fuel(le_value, 3);
        let b = out@.subrange(at as int, at + 2);
        assert(b.drop_first()[0] == out@[at + 1]);
    }
}

fn write32(out: &mut Vec<u8>, at: usize, n: u32)
    requires
        at + 4 <= old(out)@.len(),
    ensures
        final(out)@.len() == old(out)@.len(),
        le_value(final(out)@.subrange(at as int, at + 4)) == n,
        forall|p: int|
            0 <= p < old(out)@.len() && !(at <= p < at + 4) ==> final(out)@[p] == old(out)@[p],
{
    let total: usize = out.len();
    out.set(at, (n % 256) as u8);
    out.set(at + 1, (n / 256 % 256) as u8);
    out.set(at + 2, (n / 65536 % 256) as u8);
    out.set(at + 3, (n / 16777216) as u8);
    proof {
        reveal_with_fuel(le_value, 5);
        let b = out@.subrange(at as int, at + 4);
        let c = b.drop_first();
        let d = c.drop_first();
        assert(c[0] == out@[at + 1]);
        assert(d[0] == out@[at + 2]);
        assert(d.drop_first()[0] == out@[at + 3]);
    }
}

fn encode_sample(kind: SampleKind, x: u32, out: &mut Vec<u8>, at: usize)
    requires
        at + sample_size(kind) <= old(out)@.len(),
    ensures
        final(out)@.len() == old(out)@.len(),
        encodes(kind, x, final(out)@.subrange(at as int, at + sample_size(kind))),
        forall|p: int|
            0 <= p < old(out)@.len() && !(at <= p < at + sample_size(kind)) ==> final(out)@[p]
                == old(out)@[p],
{
    match kind {
        SampleKind::Float32 => {
            write32(out, at, x);
        },
        SampleKind::Pcm16 => {
            let n: i64 = encode_level(kind, x);
            let wrapped: i64 = if n < 0 {
                n + 0x1_0000
            } else {
                n
            };
            write16(out, at, wrapped as u16);
        },
        SampleKind::Pcm24In32 => {
            let n: i64 = encode_level(kind, x) * 256;
            let wrapped: i64 = if n < 0 {
                n + 0x1_0000_0000
            } else {
                n
            };
            write32(out, at, wrapped as u32);
        },
        SampleKind::Pcm32 => {
            let n: i64 = encode_level(kind, x);
            let wrapped: i64 = if n < 0 {
                n + 0x1_0000_0000
            } else {
                n
            };
            write32(out, at, wrapped as u32);
        },
    }
}

/// Encodes levels into the front of `out`, as many as both hold. The rest of
/// `out` is left alone.
///
/// Levels are clamped rather than allowed to wrap: wrapping would turn a loud
/// passage into a burst of noise.
pub fn encode_from_f32(samples: &[u32], format: StreamFormat, out: &mut Vec<u8>)
    ensures
        final(out)@.len() == old(out)@.len(),
        ({
            let size = sample_size(format.kind);
            let room = old(out)@.len() as int / size;
            let count = if samples@.len() < room {
                samples@.len() as int
            } else {
                room
            };
            &&& forall|i: int|
                0 <= i < count ==> encodes(
                    format.kind,
                    #[trigger] samples@[i],
                    final(out)@.subrange(size * i, size * i + size),
                )
            &&& forall|p: int|
                size * count <= p < old(out)@.len() ==> final(out)@[p] == old(out)@[p]
        }),
{
    let size: usize = match format.kind {
        SampleKind::Pcm16 => 2,
        _ => 4,
    };
    let total: usize = out.len();
    let room: usize = total / size;
    let count: usize = if samples.len() < room {
        samples.len()
    } else {
        room
    };
    let ghost start = out@;
    let mut i: usize = 0;
    while i < count
        invariant
            i <= count <= room,
            count <= samples@.len(),
            size == sample_size(format.kind),
            size == 2 || size == 4,
            total == out@.len() == start.len(),
            room == total / size,
            forall|k: int|
                0 <= k < i ==> encodes(
                    format.kind,
                    #[trigger] samples@[k],
                    out@.subrange(size * k, size * k + size),
                ),
            forall|p: int| size * i <= p < total ==> out@[p] == start[p],
        decreases count - i,
    {
        assert(size * i + size <= total) by (nonlinear_arith)
            requires
                i < room,
                room == total / size,
                size > 0,
        ;
        let ghost before = out@;
        encode_sample(format.kind, samples[i], out, size * i);
        proof {
            assert forall|k: int| 0 <= k < i + 1 implies encodes(
                format.kind,
                #[trigger] samples@[k],
                out@.subrange(size * k, size * k + size),
            ) by {
                if k < i {
                    assert(size * k + size <= size * i) by (nonlinear_arith)
                        requires
                            k < i,
                            size > 0,
                    ;
                    assert(0 <= size * k) by (nonlinear_arith)
                        requires
                            0 <= k,
                            size > 0,
                    ;
                    assert(out@.subrange(size * k, size * k + size) =~= before.subrange(
                        size * k,
                        size * k + size,
                    ));
                }
            }
            assert(size * (i + 1) == size * i + size) by (nonlinear_arith);
        }
        i = i + 1;
    }
}

// ---------------------------------------------------------------------------
// What holds of samples
// ---------------------------------------------------------------------------

proof fn lemma_value_order(x: u32, y: u32)
    requires
        magnitude(x) < magnitude(y) < 0x7f80_0000,
    ensures
        significand(x) * power_of_two(exponent(x) as nat) < significand(y) * power_of_two(
            exponent(y) as nat,
        ),
{
    let a = exponent(x) as nat;
    let b = exponent(y) as nat;
    lemma_power_positive(a);
    lemma_power_positive(b);
    let p = power_of_two(a);
    let q = power_of_two(b);
    let s = significand(x);
    let t = significand(y);
    assert(a <= b);
    if a == b {
        assert(s < t);
        assert(s * p < t * p) by (nonlinear_arith)
            requires
                s < t,
                p >= 1,
        ;
    } else {
        assert(t >= 0x80_0000 && 0 <= s < 0x100_0000);
        lemma_power_monotone((a + 1) as nat, b);
        assert(power_of_two((a + 1) as nat) == 2 * p);
        assert(s * p < t * q) by (nonlinear_arith)
            requires
                0 <= s < 0x100_0000,
                t >= 0x80_0000,
                q >= 2 * p,
                p >= 1,
        ;
    }
}

/// A level stands for one number only, and greater numbers have greater levels:
/// two levels that are ratios over the same power of two are in the order of
/// the numbers.
pub proof fn levels_are_in_the_order_of_samples(x: u32, m: int, y: u32, n: int, k: int)
    requires
        0 <= k <= 31,
        is_ratio(x, m, k),
        is_ratio(y, n, k),
    ensures
        (m < n) == below(x, y),
        m == n ==> x == y,
{
    let d = power_of_two((150 - k) as nat);
    lemma_power_positive((150 - k) as nat);
    let a = if m < 0 {
        -m
    } else {
        m
    };
    let b = if n < 0 {
        -n
    } else {
        n
    };
    assert(a < b ==> a * d < b * d) by (nonlinear_arith)
        requires
            d >= 1,
    ;
    assert(b < a ==> b * d < a * d) by (nonlinear_arith)
        requires
            d >= 1,
    ;
    if magnitude(x) < magnitude(y) {
        lemma_value_order(x, y);
    }
    if magnitude(y) < magnitude(x) {
        lemma_value_order(y, x);
    }
    if magnitude(x) == magnitude(y) {
        assert(significand(x) == significand(y) && exponent(x) == exponent(y));
    }
    assert((a < b) == (magnitude(x) < magnitude(y)));
    assert((a == b) == (magnitude(x) == magnitude(y)));
    if m == 0 {
        lemma_zero_ratio(x, k);
    }
    if n == 0 {
        lemma_zero_ratio(y, k);
    }
    if m < 0 && n > 0 || m > 0 && n < 0 {
        if magnitude(x) == 0 || magnitude(y) == 0 {
            lemma_nonzero_ratio(x, m, k);
            lemma_nonzero_ratio(y, n, k);
        }
    }
    if m == 0 && n != 0 {
        lemma_nonzero_ratio(y, n, k);
    }
    if n == 0 && m != 0 {
        lemma_nonzero_ratio(x, m, k);
    }
}

proof fn lemma_zero_ratio(x: u32, k: int)
    requires
        0 <= k <= 31,
        is_ratio(x, 0, k),
    ensures
        x == 0,
{
    lemma_power_positive(exponent(x) as nat);
    assert(significand(x) == 0) by (nonlinear_arith)
        requires
            significand(x) * power_of_two(exponent(x) as nat) == 0 * power_of_two((150 - k) as nat),
            power_of_two(exponent(x) as nat) >= 1,
            significand(x) >= 0,
    ;
}

proof fn lemma_nonzero_ratio(x: u32, n: int, k: int)
    requires
        0 <= k <= 31,
        n != 0,
        is_ratio(x, n, k),
    ensures
        magnitude(x) > 0,
{
    lemma_power_positive((150 - k) as nat);
    if magnitude(x) == 0 {
        let a = if n < 0 {
            -n
        } else {
            n
        };
        assert(significand(x) == 0);
        assert(0 * power_of_two(exponent(x) as nat) == 0);
        assert(a * power_of_two((150 - k) as nat) > 0) by (nonlinear_arith)
            requires
                a > 0,
                power_of_two((150 - k) as nat) >= 1,
        ;
    }
}

/// The number of a level does not depend on how it is written as a ratio.
proof fn lemma_ratio_scales(x: u32, n: int, k: int, j: int)
    requires
        0 <= k <= j <= 31,
    ensures
        is_ratio(x, n, k) == is_ratio(x, n * power_of_two((j - k) as nat), j),
{
    let d = power_of_two((j - k) as nat);
    lemma_power_positive((j - k) as nat);
    lemma_power_add((j - k) as nat, (150 - j) as nat);
    let q = power_of_two((150 - j) as nat);
    let m = n * d;
    assert((m < 0) == (n < 0)) by (nonlinear_arith)
        requires
            m == n * d,
            d >= 1,
    ;
    if n < 0 {
        assert((-m) * q == (-n) * (d * q)) by (nonlinear_arith)
            requires
                m == n * d,
        ;
    } else {
        assert(m * q == n * (d * q)) by (nonlinear_arith)
            requires
                m == n * d,
        ;
    }
}

/// Every encoding means the same by a sample: 16 bits, and the same sample in
/// the upper bits of a container with 24 valid ones, decode to the same level.
pub proof fn encodings_agree(a: Seq<u8>, b: Seq<u8>, x: u32, y: u32)
    requires
        decodes(SampleKind::Pcm16, a, x),
        decodes(SampleKind::Pcm24In32, b, y),
        as_signed(le_value(b), 0x1_0000_0000) == 65536 * as_signed(le_value(a), 0x1_0000),
    ensures
        x == y,
{
    let n = as_signed(le_value(a), 0x1_0000);
    assert((65536 * n) / 256 == 256 * n);
    lemma_power_values();
    assert(power_of_two(8) == 256) by {
        reveal_with_fuel(power_of_two, 9);
    }
    lemma_ratio_scales(x, n, 15, 23);
    assert(n * 256 == 256 * n);
    levels_are_in_the_order_of_samples(x, 256 * n, y, 256 * n, 23);
}

proof fn lemma_single_of_multiple(n: int)
    requires
        0 <= n <= 0x8000,
    ensures
        as_single(65536 * n) == 65536 * n,
{
    let m = 65536 * n;
    reveal_with_fuel(single_spacing, 10);
    let s = single_spacing(m);
    assert(s == 1 || s == 2 || s == 4 || s == 8 || s == 16 || s == 32 || s == 64 || s == 128 || s
        == 256);
    assert(m % s == 0 && (m / s) * s == m);
    assert(nearest(m, s) == m / s);
}

/// A container with 32 valid bits whose upper half is a sample of 16 bits, and
/// whose lower half is empty, decodes to the level of that sample.
pub proof fn wide_encodings_agree(a: Seq<u8>, b: Seq<u8>, x: u32, y: u32)
    requires
        decodes(SampleKind::Pcm16, a, x),
        decodes(SampleKind::Pcm32, b, y),
        -0x8000 <= as_signed(le_value(a), 0x1_0000) <= 0x7fff,
        as_signed(le_value(b), 0x1_0000_0000) == 65536 * as_signed(le_value(a), 0x1_0000),
    ensures
        x == y,
{
    let n = as_signed(le_value(a), 0x1_0000);
    if n < 0 {
        lemma_single_of_multiple(-n);
    } else {
        lemma_single_of_multiple(n);
    }
    assert(single_of(65536 * n) == 65536 * n);
    assert(power_of_two(16) == 65536) by {
        reveal_with_fuel(power_of_two, 17);
    }
    lemma_ratio_scales(x, n, 15, 31);
    assert(n * 65536 == 65536 * n);
    levels_are_in_the_order_of_samples(x, 65536 * n, y, 65536 * n, 31);
}

/// A sample decodes to a level between -1.0 and 1.0 with the sample's own sign,
/// silence to silence, and the lowest sample to exactly -1.0.
pub proof fn decoded_levels_are_in_range(x: u32, n: int, k: int)
    requires
        0 <= k <= 31,
        is_ratio(x, n, k),
        -power_of_two(k as nat) <= n <= power_of_two(k as nat),
    ensures
        magnitude(x) <= 0x3f80_0000,
        n == 0 ==> x == 0,
        n < 0 ==> below(x, 0),
        n > 0 ==> below(0, x),
        n == -power_of_two(k as nat) ==> x == 0xbf80_0000,
{
    let one = 0xbf80_0000u32;
    let top = power_of_two(k as nat);
    lemma_power_positive(k as nat);
    lemma_power_add(k as nat, (150 - k) as nat);
    lemma_power_add(23, 127);
    assert(power_of_two(23) == 0x80_0000) by {
        reveal_with_fuel(power_of_two, 24);
    }
    assert(is_ratio(one, -top, k)) by {
        assert(significand(one) == 0x80_0000);
        assert(exponent(one) == 127);
    }
    let positive = 0x3f80_0000u32;
    assert(is_ratio(positive, top, k)) by {
        assert(significand(positive) == 0x80_0000);
        assert(exponent(positive) == 127);
    }
    levels_are_in_the_order_of_samples(x, n, one, -top, k);
    levels_are_in_the_order_of_samples(x, n, positive, top, k);
    levels_are_in_the_order_of_samples(positive, top, x, n, k);
    levels_are_in_the_order_of_samples(one, -top, x, n, k);
    if n == 0 {
        lemma_zero_ratio(x, k);
    } else {
        lemma_nonzero_ratio(x, n, k);
    }
}

/// A sample is read with the scale of its encoding: 16 bits over 32768, 24 bits
/// over 8388608, both exactly; floating point is taken as it is.
pub proof fn samples_are_read_to_scale(kind: SampleKind, bytes: Seq<u8>, x: u32)
    requires
        decodes(kind, bytes, x),
    ensures
        kind == SampleKind::Float32 ==> x == le_value(bytes),
        kind == SampleKind::Pcm16 ==> is_ratio(x, as_signed(le_value(bytes), 0x1_0000), 15),
        kind == SampleKind::Pcm24In32 && as_signed(le_value(bytes), 0x1_0000_0000) % 256 == 0
            ==> is_ratio(x, as_signed(le_value(bytes), 0x1_0000_0000), 31),
{
    if kind == SampleKind::Pcm24In32 {
        let n = as_signed(le_value(bytes), 0x1_0000_0000);
        assert(power_of_two(8) == 256) by {
            reveal_with_fuel(power_of_two, 9);
        }
        lemma_ratio_scales(x, n / 256, 23, 31);
        if n % 256 == 0 {
            assert((n / 256) * 256 == n);
        }
    }
}

/// Bytes are read with the lowest first.
pub proof fn bytes_are_read_lowest_first(a: u8, b: u8, c: u8, d: u8)
    ensures
        le_value(seq![a, b]) == a + 256 * b,
        le_value(seq![a, b, c, d]) == a + 256 * b + 65536 * c + 16777216 * d,
{
    reveal_with_fuel(le_value, 5);
    let s = seq![a, b, c, d];
    assert(s.drop_first() =~= seq![b, c, d]);
    assert(seq![b, c, d].drop_first() =~= seq![c, d]);
    assert(seq![c, d].drop_first() =~= seq![d]);
    assert(seq![d].drop_first() =~= Seq::empty());
    assert(seq![a, b].drop_first() =~= seq![b]);
    assert(seq![b].drop_first() =~= Seq::empty());
}

/// A signed number is the unsigned one, up to a whole span, and lies around
/// zero.
pub proof fn signed_numbers_lie_around_zero(n: int, span: int)
    requires
        0 <= n < span,
        span % 2 == 0,
    ensures
        -(span / 2) <= as_signed(n, span) < span / 2,
        as_signed(n, span) == n || as_signed(n, span) == n - span,
{
}

/// Samples take two bytes if they have 16 bits, and four otherwise; and the
/// greatest sample is the greatest that the valid bits hold.
pub proof fn samples_fill_their_container(kind: SampleKind)
    ensures
        kind == SampleKind::Pcm16 ==> sample_size(kind) == 2 && full_scale(kind) + 1
            == power_of_two(15),
        kind == SampleKind::Pcm24In32 ==> sample_size(kind) == 4 && full_scale(kind) + 1
            == power_of_two(23),
        kind == SampleKind::Pcm32 ==> sample_size(kind) == 4 && full_scale(kind) + 1
            == power_of_two(31),
        kind == SampleKind::Float32 ==> sample_size(kind) == 4,
{
    reveal_with_fuel(power_of_two, 32);
}

/// Encoding is even-handed: a level with its sign changed gives the sample with
/// its sign changed, silence gives silence, and so does what is no number.
pub proof fn encoding_is_symmetric(kind: SampleKind, x: u32)
    requires
        x < 0x8000_0000,
        kind != SampleKind::Float32,
    ensures
        encoded(kind, (x + 0x8000_0000) as u32) == -encoded(kind, x),
        encoded(kind, x) >= 0,
        is_nan(x) ==> encoded(kind, x) == 0,
{
    let y = (x + 0x8000_0000) as u32;
    assert(magnitude(y) == magnitude(x));
    if !is_nan(x) {
        encoding_clamps(kind, x);
        lemma_held(x);
        let d = power_of_two((150 - exponent(held(x))) as nat);
        lemma_power_positive((150 - exponent(held(x))) as nat);
        let r = rounded_product(kind, x);
        assert((2 * r + d) / (2 * d) >= 0) by (nonlinear_arith)
            requires
                r >= 0,
                d >= 1,
        ;
    }
}

proof fn lemma_single_spacing(n: int)
    requires
        0 <= n,
    ensures
        single_spacing(n) >= 1,
        n >= 0x100_0000 ==> single_spacing(n) * 0x80_0000 <= n,
    decreases n,
{
    if n >= 0x100_0000 {
        lemma_single_spacing(n / 2);
        if n / 2 < 0x100_0000 {
            assert(single_spacing(n / 2) == 1);
        }
    }
}

proof fn lemma_double_gap(n: int)
    requires
        0 <= n,
    ensures
        spacing(n) >= 1,
        n >= 0x20_0000_0000_0000 ==> spacing(n) * 0x10_0000_0000_0000 <= n,
    decreases n,
{
    if n >= 0x20_0000_0000_0000 {
        lemma_double_gap(n / 2);
        if n / 2 < 0x20_0000_0000_0000 {
            assert(spacing(n / 2) == 1);
        }
    }
}

/// What is encoded is what is heard: the sample differs from the level, held to
/// full scale and multiplied by the greatest sample, by half a step, plus what
/// rounding the product to a floating-point number may add: 1/512 of a step for
/// 16 bits, half a step for 24, and next to nothing for 32.
pub proof fn encoding_is_to_the_nearest_step(kind: SampleKind, x: u32)
    requires
        x < 0x8000_0000,
        !is_nan(x),
        kind != SampleKind::Float32,
    ensures
        ({
            let d = power_of_two((150 - exponent(held(x))) as nat);
            let p = significand(held(x)) * full_scale(kind);
            let off = encoded(kind, x) * d - p;
            let slack = if kind == SampleKind::Pcm16 {
                256int
            } else if kind == SampleKind::Pcm24In32 {
                1int
            } else {
                1_000_000int
            };
            &&& slack * (2 * off - d) <= d
            &&& slack * (-2 * off - d) <= d
        }),
        magnitude(x) <= 0x3f80_0000 ==> held(x) == x,
        magnitude(x) > 0x3f80_0000 ==> held(x) == 0x3f80_0000,
{
    lemma_held(x);
    lemma_power_values();
    encoding_clamps(kind, x);
    let f = full_scale(kind);
    let m = significand(held(x));
    let e = exponent(held(x));
    let k = (150 - e) as nat;
    let d = power_of_two(k);
    lemma_power_positive(k);
    lemma_power_monotone(23, k);
    assert(power_of_two(23) == 0x80_0000) by {
        reveal_with_fuel(power_of_two, 24);
    }
    let p = m * f;
    if e == 127 {
        assert(d == 0x80_0000);
        assert(m * f == f * d) by (nonlinear_arith)
            requires
                m == d,
        ;
    } else {
        lemma_power_monotone(24, k);
        assert(power_of_two(24) == 0x100_0000) by {
            reveal_with_fuel(power_of_two, 25);
        }
        assert(p <= f * d) by (nonlinear_arith)
            requires
                p == m * f,
                0 <= m < 0x100_0000,
                d >= 0x100_0000,
                f >= 0,
        ;
    }
    assert(0 <= p) by (nonlinear_arith)
        requires
            p == m * f,
            0 <= m,
            0 <= f,
    ;
    let r = rounded_product(kind, x);
    let gap = if kind == SampleKind::Pcm32 {
        spacing(p)
    } else {
        single_spacing(p)
    };
    if kind == SampleKind::Pcm32 {
        lemma_double_gap(p);
    } else {
        lemma_single_spacing(p);
    }
    crate::float::rounding_is_to_the_nearest(p, gap);
    assert(nearest(p, gap) * gap == gap * nearest(p, gap)) by (nonlinear_arith);
    assert(r == nearest(p, gap) * gap);
    assert(-gap <= 2 * (p - r) <= gap);
    let exact = kind != SampleKind::Pcm32 && p < 0x100_0000 || kind == SampleKind::Pcm32 && p
        < 0x20_0000_0000_0000;
    if exact {
        assert(gap == 1);
        assert(p == r);
    }
    let n = encoded(kind, x);
    assert(n == (2 * r + d) / (2 * d));
    assert(2 * d * n <= 2 * r + d < 2 * d * n + 2 * d) by (nonlinear_arith)
        requires
            n == (2 * r + d) / (2 * d),
            d >= 1,
    ;
    assert(2 * d * n == 2 * (n * d)) by (nonlinear_arith);
    let slack = if kind == SampleKind::Pcm16 {
        256int
    } else if kind == SampleKind::Pcm24In32 {
        1int
    } else {
        1_000_000int
    };
    assert(exact || slack * gap <= d) by {
        if !exact {
            if kind == SampleKind::Pcm16 {
                assert(gap * 0x80_0000 <= 32_767 * d);
            } else if kind == SampleKind::Pcm24In32 {
                assert(gap * 0x80_0000 <= 8_388_607 * d);
            } else {
                assert(gap * 0x10_0000_0000_0000 <= 2_147_483_647 * d);
            }
        }
    }
}

} // verus!
