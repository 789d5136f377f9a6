//! Colours with four eight-bit channels, and the two ways of combining them:
//! interpolation by a fraction, and compositing by alpha.
//!
//! All arithmetic is exact: a blend factor is a fraction of two integers and
//! every channel is the mathematical value rounded down.

use vstd::prelude::*;

verus! {

/// One pixel: red, green, blue and alpha.
#[derive(Clone, Copy, PartialEq, Eq, Debug, Structural)]
pub struct Color {
    pub r: u8,
    pub g: u8,
    pub b: u8,
    pub a: u8,
}

/// A pixel that shows nothing.
pub open spec fn transparent() -> Color {
    Color { r: 0, g: 0, b: 0, a: 0 }
}

/// `part` held to the range from nothing to `whole`.
pub open spec fn unit_part(part: int, whole: int) -> int {
    if part < 0 {
        0
    } else if part > whole {
        whole
    } else {
        part
    }
}

/// The channel value that lies `part / whole` of the way from `from` to `to`,
/// rounded down.
pub open spec fn mix(from: int, to: int, part: int, whole: int) -> int {
    ((whole - part) * from + part * to) / whole
}

/// `c1` moved towards `c2` by the fraction `numer / denom`, channel by channel.
/// A fraction above one counts as one.
pub open spec fn blend_spec(c1: Color, c2: Color, numer: int, denom: int) -> Color {
    let part = unit_part(numer, denom);
    Color {
        r: mix(c1.r as int, c2.r as int, part, denom) as u8,
        g: mix(c1.g as int, c2.g as int, part, denom) as u8,
        b: mix(c1.b as int, c2.b as int, part, denom) as u8,
        a: mix(c1.a as int, c2.a as int, part, denom) as u8,
    }
}

/// `src` laid over `dst`: each colour channel is `dst` moved towards `src` by
/// the alpha of `src`, and the alpha is the larger of the two.
pub open spec fn over_spec(dst: Color, src: Color) -> Color {
    Color {
        r: mix(dst.r as int, src.r as int, src.a as int, 255) as u8,
        g: mix(dst.g as int, src.g as int, src.a as int, 255) as u8,
        b: mix(dst.b as int, src.b as int, src.a as int, 255) as u8,
        a: if dst.a >= src.a {
            dst.a
        } else {
            src.a
        },
    }
}

/// Mixing adds to `from` the rounded-down share of the distance to `to`.
pub proof fn lemma_mix_shift(from: int, to: int, part: int, whole: int)
    requires
        0 < whole,
    ensures
        mix(from, to, part, whole) == from + (part * (to - from)) / whole,
{
    let total = (whole - part) * from + part * to;
    let share = part * (to - from);
    assert(total == share + from * whole) by (nonlinear_arith)
        requires
            total == (whole - part) * from + part * to,
            share == part * (to - from),
    ;
    vstd::arithmetic::div_mod::lemma_hoist_over_denominator(share, from, whole as nat);
}

/// A quotient lies between two integers when the dividend lies between their
/// multiples of the divisor.
proof fn lemma_floor_bounds(total: int, whole: int, low: int, high: int)
    requires
        0 < whole,
        whole * low <= total <= whole * high,
    ensures
        low <= total / whole <= high,
{
    assert(low <= total / whole <= high) by (nonlinear_arith)
        requires
            0 < whole,
            whole * low <= total <= whole * high,
    ;
}

/// Rounding down keeps the order of two fractions with positive denominators.
pub proof fn lemma_floor_ordered(a: int, b: int, c: int, d: int)
    requires
        0 < b,
        0 < d,
        a * d <= c * b,
    ensures
        a / b <= c / d,
{
    let q = a / b;
    assert(q * b <= a) by (nonlinear_arith)
        requires
            q == a / b,
            0 < b,
    ;
    assert(q * d <= c) by (nonlinear_arith)
        requires
            q * b <= a,
            a * d <= c * b,
            0 < b,
            0 < d,
    ;
    assert(q <= c / d) by (nonlinear_arith)
        requires
            q * d <= c,
            0 < d,
    ;
}

/// A mixed channel lies between its two ends, so it is a channel value again.
pub proof fn lemma_mix_between(from: int, to: int, part: int, whole: int)
    requires
        0 <= part <= whole,
        0 < whole,
    ensures
        from <= to ==> from <= mix(from, to, part, whole) <= to,
        to <= from ==> to <= mix(from, to, part, whole) <= from,
{
    lemma_mix_shift(from, to, part, whole);
    let gap = to - from;
    let share = part * gap;
    if from <= to {
        assert(whole * 0 <= share <= whole * gap) by (nonlinear_arith)
            requires
                share == part * gap,
                0 <= part <= whole,
                0 <= gap,
        ;
        lemma_floor_bounds(share, whole, 0, gap);
    }
    if to <= from {
        assert(whole * gap <= share <= whole * 0) by (nonlinear_arith)
            requires
                share == part * gap,
                0 <= part <= whole,
                gap <= 0,
        ;
        lemma_floor_bounds(share, whole, gap, 0);
    }
}

/// Mixing by a larger fraction moves a channel further from `from` towards
/// `to`, and never back.
pub proof fn lemma_mix_monotone(from: int, to: int, part_a: int, whole_a: int, part_b: int, whole_b: int)
    requires
        0 <= part_a <= whole_a,
        0 <= part_b <= whole_b,
        0 < whole_a,
        0 < whole_b,
        part_a * whole_b <= part_b * whole_a,
    ensures
        from <= to ==> mix(from, to, part_a, whole_a) <= mix(from, to, part_b, whole_b),
        to <= from ==> mix(from, to, part_a, whole_a) >= mix(from, to, part_b, whole_b),
{
    lemma_mix_shift(from, to, part_a, whole_a);
    lemma_mix_shift(from, to, part_b, whole_b);
    let gap = to - from;
    let a = part_a * whole_b;
    let b = part_b * whole_a;
    assert((part_a * gap) * whole_b == a * gap) by (nonlinear_arith)
        requires
            a == part_a * whole_b,
    ;
    assert((part_b * gap) * whole_a == b * gap) by (nonlinear_arith)
        requires
            b == part_b * whole_a,
    ;
    if from <= to {
        assert(a * gap <= b * gap) by (nonlinear_arith)
            requires
                a <= b,
                0 <= gap,
        ;
        lemma_floor_ordered(part_a * gap, whole_a, part_b * gap, whole_b);
    }
    if to <= from {
        assert(b * gap <= a * gap) by (nonlinear_arith)
            requires
                a <= b,
                gap <= 0,
        ;
        lemma_floor_ordered(part_b * gap, whole_b, part_a * gap, whole_a);
    }
}

/// At the fraction zero a blend is its first colour, and at one (or beyond)
/// its second, in every channel.
pub proof fn lemma_blend_endpoints(c1: Color, c2: Color, numer: int, denom: int)
    requires
        0 < denom,
    ensures
        numer <= 0 ==> blend_spec(c1, c2, numer, denom) == c1,
        numer >= denom ==> blend_spec(c1, c2, numer, denom) == c2,
{
    assert forall|from: int, to: int|
        #![trigger mix(from, to, 0, denom)]
        #![trigger mix(from, to, denom, denom)]
        mix(from, to, 0, denom) == from && mix(from, to, denom, denom) == to by {
        assert(((denom - 0) * from + 0 * to) / denom == from) by (nonlinear_arith)
            requires
                0 < denom,
        ;
        assert(((denom - denom) * from + denom * to) / denom == to) by (nonlinear_arith)
            requires
                0 < denom,
        ;
    }
}

/// Between two fractions of the unit interval, the larger one leaves every
/// channel of a blend at least as far along its way from `c1` to `c2`.
pub proof fn lemma_blend_monotone(c1: Color, c2: Color, n1: int, d1: int, n2: int, d2: int)
    requires
        0 < d1,
        0 < d2,
        0 <= n1 <= d1,
        0 <= n2 <= d2,
        n1 * d2 <= n2 * d1,
    ensures
        ({
            let x = blend_spec(c1, c2, n1, d1);
            let y = blend_spec(c1, c2, n2, d2);
            &&& c1.r <= c2.r ==> c1.r <= x.r <= y.r <= c2.r
            &&& c1.r >= c2.r ==> c1.r >= x.r >= y.r >= c2.r
            &&& c1.g <= c2.g ==> c1.g <= x.g <= y.g <= c2.g
            &&& c1.g >= c2.g ==> c1.g >= x.g >= y.g >= c2.g
            &&& c1.b <= c2.b ==> c1.b <= x.b <= y.b <= c2.b
            &&& c1.b >= c2.b ==> c1.b >= x.b >= y.b >= c2.b
            &&& c1.a <= c2.a ==> c1.a <= x.a <= y.a <= c2.a
            &&& c1.a >= c2.a ==> c1.a >= x.a >= y.a >= c2.a
        }),
{
    lemma_channel_monotone(c1.r, c2.r, n1, d1, n2, d2);
    lemma_channel_monotone(c1.g, c2.g, n1, d1, n2, d2);
    lemma_channel_monotone(c1.b, c2.b, n1, d1, n2, d2);
    lemma_channel_monotone(c1.a, c2.a, n1, d1, n2, d2);
}

proof fn lemma_channel_monotone(from: u8, to: u8, n1: int, d1: int, n2: int, d2: int)
    requires
        0 < d1,
        0 < d2,
        0 <= n1 <= d1,
        0 <= n2 <= d2,
        n1 * d2 <= n2 * d1,
    ensures
        ({
            let x = mix(from as int, to as int, n1, d1);
            let y = mix(from as int, to as int, n2, d2);
            &&& 0 <= x <= 255
            &&& 0 <= y <= 255
            &&& from <= to ==> from <= x <= y <= to
            &&& from >= to ==> from >= x >= y >= to
        }),
{
    lemma_mix_between(from as int, to as int, n1, d1);
    lemma_mix_between(from as int, to as int, n2, d2);
    lemma_mix_monotone(from as int, to as int, n1, d1, n2, d2);
}

/// One channel of a blend or of a composite.
fn mix_channel(from: u8, to: u8, part: u32, whole: u32) -> (v: u8)
    requires
        0 < whole,
        part <= whole,
    ensures
        v == mix(from as int, to as int, part as int, whole as int),
{
    proof {
        lemma_mix_between(from as int, to as int, part as int, whole as int);
        assert((whole - part) * from <= 0xffff_ffff * 255) by (nonlinear_arith)
            requires
                0 <= whole - part <= 0xffff_ffff,
                0 <= from <= 255,
        ;
        assert(part * to <= 0xffff_ffff * 255) by (nonlinear_arith)
            requires
                0 <= part <= 0xffff_ffff,
                0 <= to <= 255,
        ;
        assert(0 <= (whole - part) * from) by (nonlinear_arith)
            requires
                0 <= whole - part,
                0 <= from,
        ;
        assert(0 <= part * to) by (nonlinear_arith)
            requires
                0 <= part,
                0 <= to,
        ;
    }
    let rest: u64 = (whole - part) as u64;
    let total: u64 = rest * (from as u64) + (part as u64) * (to as u64);
    (total / (whole as u64)) as u8
}

/// Interpolates from `c1` to `c2` by the fraction `numer / denom`.
///
/// The fraction is held to the unit interval first, so any `numer` above
/// `denom` gives `c2`.
pub fn blend_colors(c1: Color, c2: Color, numer: u32, denom: u32) -> (c: Color)
    requires
        0 < denom,
    ensures
        c == blend_spec(c1, c2, numer as int, denom as int),
{
    let part: u32 = if numer > denom {
        denom
    } else {
        numer
    };
    Color {
        r: mix_channel(c1.r, c2.r, part, denom),
        g: mix_channel(c1.g, c2.g, part, denom),
        b: mix_channel(c1.b, c2.b, part, denom),
        a: mix_channel(c1.a, c2.a, part, denom),
    }
}

/// Lays `src` over `dst` by the alpha of `src`.
pub fn blend_over(dst: Color, src: Color) -> (c: Color)
    ensures
        c == over_spec(dst, src),
{
    let alpha: u32 = src.a as u32;
    Color {
        r: mix_channel(dst.r, src.r, alpha, 255),
        g: mix_channel(dst.g, src.g, alpha, 255),
        b: mix_channel(dst.b, src.b, alpha, 255),
        a: if dst.a >= src.a {
            dst.a
        } else {
            src.a
        },
    }
}

} // verus!
