//! Single-precision levels, carried as their IEEE 754 bit patterns.
//!
//! A level travels between threads as the 32 bits of an `f32`. What the logic
//! needs of it is order: which of two levels is greater, and where a level
//! lies between silence and full scale. Both can be read off the bits.

use vstd::prelude::*;

verus! {

/// The bits of `0.0`.
pub const ZERO: u32 = 0;

/// The bits of `1.0`.
pub const ONE: u32 = 0x3f80_0000;

/// The bits of positive infinity.
pub const INFINITY: u32 = 0x7f80_0000;

/// The sign bit.
pub const SIGN: u32 = 0x8000_0000;

/// The pattern without its sign.
pub open spec fn magnitude(x: u32) -> int {
    x as int % 0x8000_0000
}

/// Whether the pattern is not a number.
pub open spec fn is_nan(x: u32) -> bool {
    magnitude(x) > 0x7f80_0000
}

/// The place of a pattern on the number line: a greater number has a greater
/// rank, and the two zeros share one.
pub open spec fn rank(x: u32) -> int {
    if x >= 0x8000_0000 {
        -magnitude(x)
    } else {
        magnitude(x)
    }
}

/// `x == y`, as IEEE 754 compares.
pub open spec fn same(x: u32, y: u32) -> bool {
    !is_nan(x) && !is_nan(y) && rank(x) == rank(y)
}

/// `x < y`, as IEEE 754 compares.
pub open spec fn below(x: u32, y: u32) -> bool {
    !is_nan(x) && !is_nan(y) && rank(x) < rank(y)
}

/// `x`, held between `low` and `high`. What is not a number stays as it is.
pub open spec fn clamped(x: u32, low: u32, high: u32) -> u32 {
    if below(x, low) {
        low
    } else if below(high, x) {
        high
    } else {
        x
    }
}

/// Whether `x` is not a number.
pub fn not_a_number(x: u32) -> (r: bool)
    ensures
        r == is_nan(x),
{
    x % SIGN > INFINITY
}

/// Whether two levels are equal numbers.
pub fn equal(x: u32, y: u32) -> (r: bool)
    ensures
        r == same(x, y),
{
    !not_a_number(x) && !not_a_number(y) && (x == y || (x % SIGN == 0 && y % SIGN == 0))
}

/// Whether `x` is the smaller number.
pub fn less(x: u32, y: u32) -> (r: bool)
    ensures
        r == below(x, y),
{
    if not_a_number(x) || not_a_number(y) {
        return false;
    }
    if x >= SIGN {
        if y >= SIGN {
            y % SIGN < x % SIGN
        } else {
            x % SIGN != 0 || y != 0
        }
    } else {
        y < SIGN && x < y
    }
}

/// Holds a level between two others.
pub fn clamp(x: u32, low: u32, high: u32) -> (r: u32)
    ensures
        r == clamped(x, low, high),
{
    if less(x, low) {
        low
    } else if less(high, x) {
        high
    } else {
        x
    }
}

/// The level without its sign.
pub fn absolute(x: u32) -> (r: u32)
    ensures
        r as int == magnitude(x),
{
    x % SIGN
}

/// Clamping to the span from silence to full scale lands in that span, and
/// leaves a level alone that is already in it.
pub proof fn clamping_to_unit_lands_in_range(x: u32)
    requires
        !is_nan(x),
    ensures
        !below(clamped(x, ZERO, ONE), ZERO),
        !below(ONE, clamped(x, ZERO, ONE)),
        !below(x, ZERO) && !below(ONE, x) ==> clamped(x, ZERO, ONE) == x,
        clamped(clamped(x, ZERO, ONE), ZERO, ONE) == clamped(x, ZERO, ONE),
{
}

// ---------------------------------------------------------------------------
// Rounding
// ---------------------------------------------------------------------------

/// The integer nearest to `a / b`; of two that are equally near, the even one.
pub open spec fn nearest(a: int, b: int) -> int {
    let q = a / b;
    let r = a % b;
    if 2 * r < b || (2 * r == b && q % 2 == 0) {
        q
    } else {
        q + 1
    }
}

/// How far apart the double-precision numbers around `n` are, but at least 1.
pub open spec fn spacing(n: int) -> int
    decreases n,
{
    if n < 0x20_0000_0000_0000 {
        1
    } else {
        2 * spacing(n / 2)
    }
}

/// `n` as a double-precision number.
pub open spec fn as_double(n: int) -> int {
    nearest(n, spacing(n)) * spacing(n)
}

/// `2` to the power of `k`.
pub open spec fn power_of_two(k: nat) -> int
    decreases k,
{
    if k == 0 {
        1
    } else {
        2 * power_of_two((k - 1) as nat)
    }
}

/// Executable [`nearest`].
pub fn nearest_quotient(a: u128, b: u128) -> (r: u128)
    requires
        0 < b <= 0x1_0000_0000_0000_0000,
        a < 0x8000_0000_0000_0000_0000_0000_0000_0000,
    ensures
        r == nearest(a as int, b as int),
        r <= a / b + 1,
{
    let q: u128 = a / b;
    let rest: u128 = a % b;
    assert(q <= a) by (nonlinear_arith)
        requires
            q == a / b,
            b > 0,
    ;
    if 2 * rest < b || (2 * rest == b && q % 2 == 0) {
        q
    } else {
        q + 1
    }
}

proof fn lemma_spacing(n: int)
    requires
        0 <= n < 0x1_0000_0000_0000_0000,
    ensures
        1 <= spacing(n) <= 2048,
        n >= 0x20_0000_0000_0000 ==> spacing(n) * 0x10_0000_0000_0000 <= n,
        nearest(n, spacing(n)) * spacing(n) <= n + spacing(n),
        nearest(n, spacing(n)) * spacing(n) >= n - spacing(n),
        n < 0x20_0000_0000_0000 ==> nearest(n, spacing(n)) * spacing(n) == n,
{
    reveal_with_fuel(spacing, 13);
    let s = spacing(n);
    let q = n / s;
    assert(n == s * q + n % s && 0 <= n % s < s) by (nonlinear_arith)
        requires
            q == n / s,
            s >= 1,
    ;
    assert(nearest(n, s) * s <= n + s && nearest(n, s) * s >= n - s) by (nonlinear_arith)
        requires
            n == s * q + n % s,
            0 <= n % s < s,
            nearest(n, s) == q || nearest(n, s) == q + 1,
    ;
}

/// Executable [`as_double`].
pub fn to_double(n: u64) -> (r: u128)
    ensures
        r == as_double(n as int),
        r <= n + 2048,
        r >= n - 2048,
        n < 0x20_0000_0000_0000 ==> r == n,
{
    let mut half: u64 = n;
    let mut gap: u128 = 1;
    proof {
        lemma_spacing(n as int);
    }
    while half >= 0x20_0000_0000_0000
        invariant
            spacing(n as int) <= 2048,
            gap >= 1,
            spacing(n as int) == gap * spacing(half as int),
            1 <= spacing(half as int),
        decreases half,
    {
        proof {
            lemma_spacing(half as int);
            lemma_spacing(half as int / 2);
            let next = spacing(half as int / 2);
            assert(gap * (2 * next) == (gap * 2) * next) by (nonlinear_arith);
            assert(gap * 2 <= 2048) by (nonlinear_arith)
                requires
                    (gap * 2) * next <= 2048,
                    next >= 1,
                    gap >= 1,
            ;
        }
        half = half / 2;
        gap = gap * 2;
    }
    assert(gap * 1 == gap) by (nonlinear_arith);
    let steps: u128 = nearest_quotient(n as u128, gap);
    assert(steps * gap <= n + 2048) by {
        assert(steps == nearest(n as int, gap as int));
    }
    steps * gap
}

// ---------------------------------------------------------------------------
// What holds of levels
// ---------------------------------------------------------------------------

/// Numbers are in order: of two, exactly one is below the other or they are
/// the same, and what is not a number is neither.
pub proof fn levels_are_ordered(x: u32, y: u32)
    ensures
        !is_nan(x) && !is_nan(y) ==> (below(x, y) || below(y, x) || same(x, y)),
        !(below(x, y) && below(y, x)),
        !(below(x, y) && same(x, y)),
        same(x, y) == same(y, x),
        is_nan(x) || is_nan(y) ==> !below(x, y) && !same(x, y),
        same(x, x) == !is_nan(x),
{
}

/// The order is that of the numbers: among positive ones a greater pattern is
/// a greater number, changing both signs turns the order round, a negative
/// number is below zero, and the two zeros are the same.
pub proof fn the_order_is_that_of_the_numbers(x: u32, y: u32)
    requires
        x <= 0x7f80_0000,
        y <= 0x7f80_0000,
    ensures
        !is_nan(x),
        below(x, y) == (x < y),
        same(x, y) == (x == y),
        below((x + 0x8000_0000) as u32, (y + 0x8000_0000) as u32) == below(y, x),
        x > 0 ==> below((x + 0x8000_0000) as u32, y),
        same(0x8000_0000, 0),
{
}

/// A pattern beyond infinity, of either sign, is not a number.
pub proof fn beyond_infinity_is_no_number(x: u32)
    ensures
        is_nan(x) == (0x7f80_0000 < x < 0x8000_0000 || x > 0xff80_0000),
{
}

/// Holding a number between two others lands between them, leaves it alone if
/// it is there already, and keeps the order of two numbers.
pub proof fn clamping_lands_in_range(x: u32, y: u32, low: u32, high: u32)
    requires
        !is_nan(x),
        !is_nan(y),
        !is_nan(low),
        !is_nan(high),
        !below(high, low),
    ensures
        !below(clamped(x, low, high), low),
        !below(high, clamped(x, low, high)),
        !below(x, low) && !below(high, x) ==> clamped(x, low, high) == x,
        below(x, low) ==> clamped(x, low, high) == low,
        below(high, x) ==> clamped(x, low, high) == high,
        !below(y, x) ==> !below(clamped(y, low, high), clamped(x, low, high)),
{
}

/// Rounding goes to the nearest integer, and to the even one of two that are
/// equally near.
pub proof fn rounding_is_to_the_nearest(a: int, b: int)
    requires
        b > 0,
    ensures
        -b <= 2 * (a - b * nearest(a, b)) <= b,
        2 * (a - b * nearest(a, b)) == b || 2 * (a - b * nearest(a, b)) == -b ==> nearest(a, b) % 2
            == 0,
{
    let q = a / b;
    let r = a % b;
    assert(a == b * q + r && 0 <= r < b) by (nonlinear_arith)
        requires
            q == a / b,
            r == a % b,
            b > 0,
    ;
    assert(b * (q + 1) == b * q + b) by (nonlinear_arith);
}

/// Rounding to double precision moves a number by no more than half the
/// distance between its neighbours, and leaves small ones alone.
pub proof fn doubles_are_near(n: int)
    requires
        0 <= n < 0x1_0000_0000_0000_0000,
    ensures
        n < 0x20_0000_0000_0000 ==> as_double(n) == n,
        2 * (as_double(n) - n) <= spacing(n),
        2 * (n - as_double(n)) <= spacing(n),
{
    lemma_spacing(n);
    rounding_is_to_the_nearest(n, spacing(n));
    assert(nearest(n, spacing(n)) * spacing(n) == spacing(n) * nearest(n, spacing(n)))
        by (nonlinear_arith);
}

} // verus!
