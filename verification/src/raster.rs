//! The rocket, painted pixel by pixel.
//!
//! Every shape is given by a formula in exact integer arithmetic, so the
//! picture is the same on every machine.  `rocket_pixel` says what colour
//! each pixel has, and `draw_rocket` is proved to paint exactly that.

use crate::bitmap::is_grid;
use crate::bitmap::Bitmap;
use crate::color::blend_colors;
use crate::color::blend_over;
use crate::color::blend_spec;
use crate::color::over_spec;
use crate::color::transparent;
use crate::color::Color;
use vstd::prelude::*;

verus! {

/// The width of the picture in pixels.
pub const ROCKET_WIDTH: u32 = 256;

/// The height of the picture in pixels.
pub const ROCKET_HEIGHT: u32 = 384;

/// The colour of the lit side of the hull.
pub open spec fn spec_body_light() -> Color {
    Color { r: 209, g: 28, b: 64, a: 255 }
}

/// The colour of the shaded side of the hull.
pub open spec fn spec_body_dark() -> Color {
    Color { r: 167, g: 23, b: 50, a: 255 }
}

/// The colour of the fins.
pub open spec fn spec_fin_color() -> Color {
    Color { r: 127, g: 14, b: 39, a: 255 }
}

/// The colour of the rim of the flame.
pub open spec fn spec_flame_outer() -> Color {
    Color { r: 244, g: 82, b: 36, a: 255 }
}

/// The colour of the core of the flame.
pub open spec fn spec_flame_inner() -> Color {
    Color { r: 255, g: 237, b: 213, a: 255 }
}

/// The lit side of the hull.
#[verifier::when_used_as_spec(spec_body_light)]
pub fn body_light() -> (c: Color)
    ensures
        c == spec_body_light(),
{
    Color { r: 209, g: 28, b: 64, a: 255 }
}

/// The shaded side of the hull.
#[verifier::when_used_as_spec(spec_body_dark)]
pub fn body_dark() -> (c: Color)
    ensures
        c == spec_body_dark(),
{
    Color { r: 167, g: 23, b: 50, a: 255 }
}

/// The fins.
#[verifier::when_used_as_spec(spec_fin_color)]
pub fn fin_color() -> (c: Color)
    ensures
        c == spec_fin_color(),
{
    Color { r: 127, g: 14, b: 39, a: 255 }
}

/// The cool rim of the flame.
#[verifier::when_used_as_spec(spec_flame_outer)]
pub fn flame_outer() -> (c: Color)
    ensures
        c == spec_flame_outer(),
{
    Color { r: 244, g: 82, b: 36, a: 255 }
}

/// The hot core of the flame.
#[verifier::when_used_as_spec(spec_flame_inner)]
pub fn flame_inner() -> (c: Color)
    ensures
        c == spec_flame_inner(),
{
    Color { r: 255, g: 237, b: 213, a: 255 }
}

/// The largest `m` up to `bound` with `m * m * d <= n`, or zero if there is
/// none: the square root of `n / d`, rounded down, where that root is at most
/// `bound`.
pub open spec fn root_floor(n: int, d: int, bound: nat) -> nat
    decreases bound,
{
    if bound == 0 || bound * bound * d <= n {
        bound
    } else {
        root_floor(n, d, (bound - 1) as nat)
    }
}

/// `root_floor` is the rounded-down square root whenever the root lies below
/// `bound + 1`.
pub proof fn lemma_root_floor(n: int, d: int, bound: nat)
    requires
        0 <= n,
        0 < d,
        n < (bound + 1) * (bound + 1) * d,
    ensures
        ({
            let m = root_floor(n, d, bound);
            m <= bound && m * m * d <= n < (m + 1) * (m + 1) * d
        }),
    decreases bound,
{
    if bound == 0 {
        assert(0 * 0 * d == 0) by (nonlinear_arith);
    } else if bound * bound * d <= n {
    } else {
        lemma_root_floor(n, d, (bound - 1) as nat);
    }
}

fn root_floor_of(n: u64, d: u64, bound: u64) -> (m: u64)
    requires
        0 < d,
        bound * bound * d <= u64::MAX,
    ensures
        m == root_floor(n as int, d as int, bound as nat),
        m <= bound,
{
    let mut m: u64 = bound;
    loop
        invariant
            m <= bound,
            0 < d,
            bound * bound * d <= u64::MAX,
            root_floor(n as int, d as int, bound as nat) == root_floor(
                n as int,
                d as int,
                m as nat,
            ),
        ensures
            m == root_floor(n as int, d as int, bound as nat),
        decreases m,
    {
        if m == 0 {
            break ;
        }
        proof {
            assert(m * m <= bound * bound) by (nonlinear_arith)
                requires
                    m <= bound,
            ;
            assert(m * m <= m * m * d <= bound * bound * d) by (nonlinear_arith)
                requires
                    m * m <= bound * bound,
                    0 < d,
            ;
        }
        if m * m * d <= n {
            break ;
        }
        m = m - 1;
    }
    m
}

/// How far column `x` lies from the axis of the rocket.
pub open spec fn offset(x: int) -> int {
    if x >= 128 {
        x - 128
    } else {
        128 - x
    }
}

/// Where the fins begin, counted from the axis, in row `y`.
pub open spec fn fin_inner(y: int) -> int {
    28 + (8 * (y - 180)) / 45
}

/// Where the fins end, counted from the axis, in row `y`: with `t` running
/// from 0 to 1 down the fin, `28 + 25 * sqrt(t) * (1 - 0.4 * t)` rounded down.
pub open spec fn fin_outer(y: int) -> int {
    let k = y - 180;
    28 + root_floor(k * (225 - 2 * k) * (225 - 2 * k), 3645, 25) as int
}

/// Whether `(x, y)` lies on a fin.
pub open spec fn in_fin(x: int, y: int) -> bool {
    180 <= y < 225 && fin_inner(y) < fin_outer(y) && fin_inner(y) <= offset(x) <= fin_outer(y)
}

/// Half the width of the hull in row `y`: a half ellipse over the nose cone,
/// the full 32 pixels along the body, and a taper over its last rows.
pub open spec fn hull_half_width(y: int) -> int {
    if y < 90 {
        root_floor(64 * (y - 30) * (150 - y), 225, 32) as int
    } else if y <= 192 {
        32
    } else {
        (864 - 2 * y) / 15
    }
}

/// Whether `(x, y)` lies on the nose cone or the body.
pub open spec fn in_hull(x: int, y: int) -> bool {
    30 <= y < 210 && offset(x) <= hull_half_width(y)
}

/// The colour of the hull `shift` pixels right of the axis in a row that is
/// `half` pixels wide on either side: light on the left, and six tenths of
/// the way to dark on the right.
pub open spec fn hull_shade(shift: int, half: int) -> Color {
    if half > 0 {
        blend_spec(body_light(), body_dark(), 3 * (shift + half), 10 * half)
    } else {
        blend_spec(body_light(), body_dark(), 3, 10)
    }
}

/// The rocket without its flame.
pub open spec fn hull_pixel(x: int, y: int) -> Color {
    if in_hull(x, y) {
        hull_shade(x - 128, hull_half_width(y))
    } else if in_fin(x, y) {
        fin_color()
    } else {
        transparent()
    }
}

/// The outer edge of a fin is where the formula puts it: `fin_outer(y) - 28`
/// is the square root of `k * (225 - 2 k)^2 / 3645`, rounded down, where `k`
/// counts the rows from the top of the fin.  That number is
/// `25 * sqrt(t) * (1 - 0.4 * t)` squared, for `t = k / 45`.
pub proof fn lemma_fin_outer(y: int)
    requires
        180 <= y < 225,
    ensures
        ({
            let k = y - 180;
            let m = fin_outer(y) - 28;
            let n = k * (225 - 2 * k) * (225 - 2 * k);
            0 <= m <= 25 && m * m * 3645 <= n < (m + 1) * (m + 1) * 3645
        }),
{
    let k = y - 180;
    let side = 225 - 2 * k;
    assert(0 <= k * side * side <= 44 * 225 * 225) by (nonlinear_arith)
        requires
            0 <= k <= 44,
            0 <= side <= 225,
    ;
    assert((25 + 1) * (25 + 1) * 3645 == 2464020) by (nonlinear_arith);
    lemma_root_floor(k * side * side, 3645, 25);
}

/// The nose cone is half an ellipse: its half width in row `y` is the square
/// root of `64 * k * (120 - k) / 225`, rounded down, where `k` counts the rows
/// from the tip.  That number is `32 * sqrt(t * (2 - t))` squared, for
/// `t = k / 60`.
pub proof fn lemma_nose_half_width(y: int)
    requires
        30 <= y < 90,
    ensures
        ({
            let k = y - 30;
            let w = hull_half_width(y);
            let n = 64 * k * (120 - k);
            0 <= w <= 32 && w * w * 225 <= n < (w + 1) * (w + 1) * 225
        }),
{
    let k = y - 30;
    let up = 120 - k;
    assert(0 <= 64 * k * up <= 64 * 3600) by (nonlinear_arith)
        requires
            0 <= k <= 59,
            up == 120 - k,
    ;
    assert(64 * (y - 30) * (150 - y) == 64 * k * up);
    assert((32 + 1) * (32 + 1) * 225 == 245025) by (nonlinear_arith);
    lemma_root_floor(64 * k * up, 225, 32);
}

/// Lays `color` over the pixel in column `x` of row `y`.
pub fn blend_pixel(img: &mut Bitmap, x: u32, y: u32, color: Color)
    requires
        old(img).wf(),
        old(img).holds(x as int, y as int),
    ensures
        final(img).wf(),
        final(img).spec_width() == old(img).spec_width(),
        final(img).spec_height() == old(img).spec_height(),
        final(img)@ == old(img)@.update(
            y as int,
            old(img)@[y as int].update(x as int, over_spec(old(img)@[y as int][x as int], color)),
        ),
        forall|px: int, py: int|
            old(img).holds(px, py) ==> #[trigger] final(img)@[py][px] == if px == x && py == y {
                over_spec(old(img)@[py][px], color)
            } else {
                old(img)@[py][px]
            },
{
    let existing = img.get_pixel(x, y);
    img.put_pixel(x, y, blend_over(existing, color));
}

/// Paints the columns `lo ..= hi` of row `y` in one colour.
fn fill_span(img: &mut Bitmap, y: u32, lo: u32, hi: u32, color: Color)
    requires
        old(img).wf(),
        y < old(img).spec_height(),
        lo <= hi < old(img).spec_width(),
    ensures
        final(img).wf(),
        final(img).spec_width() == old(img).spec_width(),
        final(img).spec_height() == old(img).spec_height(),
        forall|px: int, py: int|
            old(img).holds(px, py) ==> #[trigger] final(img)@[py][px] == if py == y && lo <= px
                <= hi {
                color
            } else {
                old(img)@[py][px]
            },
{
    let ghost before = img@;
    let ghost width = img.spec_width();
    let mut x: u32 = lo;
    while x <= hi
        invariant
            lo <= x <= hi + 1,
            hi < width,
            y < before.len(),
            is_grid(before, width),
            img.wf(),
            img.spec_width() == width,
            img@.len() == before.len(),
            forall|px: int, py: int|
                0 <= px < width && 0 <= py < before.len() ==> #[trigger] img@[py][px] == if py == y
                    && lo <= px < x {
                    color
                } else {
                    before[py][px]
                },
        decreases hi + 1 - x,
    {
        img.put_pixel(x, y, color);
        x = x + 1;
    }
}

/// Paints the fins.
fn draw_fins(img: &mut Bitmap)
    requires
        old(img).wf(),
        old(img).spec_width() == 256,
        old(img).spec_height() == 384,
    ensures
        final(img).wf(),
        final(img).spec_width() == 256,
        final(img).spec_height() == 384,
        forall|px: int, py: int|
            old(img).holds(px, py) ==> #[trigger] final(img)@[py][px] == if in_fin(px, py) {
                fin_color()
            } else {
                old(img)@[py][px]
            },
{
    let ghost before = img@;
    let mut y: u32 = 180;
    while y < 225
        invariant
            180 <= y <= 225,
            img.wf(),
            img.spec_width() == 256,
            img@.len() == 384,
            before.len() == 384,
            is_grid(before, 256),
            forall|px: int, py: int|
                0 <= px < 256 && 0 <= py < 384 ==> #[trigger] img@[py][px] == if py < y && in_fin(
                    px,
                    py,
                ) {
                    fin_color()
                } else {
                    before[py][px]
                },
        decreases 225 - y,
    {
        let k: u64 = (y - 180) as u64;
        let side: u64 = 225 - 2 * k;
        let inner: u32 = 28 + ((8 * k) / 45) as u32;
        assert(k * side <= 44 * 225 && k * side * side <= 44 * 225 * 225) by (nonlinear_arith)
            requires
                0 <= k <= 44,
                0 <= side <= 225,
        ;
        let reach: u64 = root_floor_of(k * side * side, 3645, 25);
        let outer: u32 = 28 + reach as u32;
        assert(inner == fin_inner(y as int));
        assert(outer == fin_outer(y as int));
        if outer > inner {
            fill_span(img, y, 128 - outer, 128 - inner, fin_color());
            fill_span(img, y, 128 + inner, 128 + outer, fin_color());
        }
        y = y + 1;
    }
}

/// Paints row `y` of the hull, `half` pixels to either side of the axis.
fn shade_span(img: &mut Bitmap, y: u32, half: u32)
    requires
        old(img).wf(),
        old(img).spec_width() == 256,
        y < old(img).spec_height(),
        half <= 32,
    ensures
        final(img).wf(),
        final(img).spec_width() == 256,
        final(img).spec_height() == old(img).spec_height(),
        forall|px: int, py: int|
            old(img).holds(px, py) ==> #[trigger] final(img)@[py][px] == if py == y && offset(px)
                <= half {
                hull_shade(px - 128, half as int)
            } else {
                old(img)@[py][px]
            },
{
    let ghost before = img@;
    let first: u32 = 128 - half;
    let last: u32 = 128 + half;
    let mut x: u32 = first;
    while x <= last
        invariant
            first == 128 - half,
            last == 128 + half,
            half <= 32,
            first <= x <= last + 1,
            y < before.len(),
            is_grid(before, 256),
            img.wf(),
            img.spec_width() == 256,
            img@.len() == before.len(),
            forall|px: int, py: int|
                0 <= px < 256 && 0 <= py < before.len() ==> #[trigger] img@[py][px] == if py == y
                    && first <= px < x {
                    hull_shade(px - 128, half as int)
                } else {
                    before[py][px]
                },
        decreases last + 1 - x,
    {
        let c = if half > 0 {
            blend_colors(body_light(), body_dark(), 3 * (x - first), 10 * half)
        } else {
            blend_colors(body_light(), body_dark(), 3, 10)
        };
        img.put_pixel(x, y, c);
        x = x + 1;
    }
}

/// Paints the nose cone and the body.
fn draw_hull(img: &mut Bitmap)
    requires
        old(img).wf(),
        old(img).spec_width() == 256,
        old(img).spec_height() == 384,
    ensures
        final(img).wf(),
        final(img).spec_width() == 256,
        final(img).spec_height() == 384,
        forall|px: int, py: int|
            old(img).holds(px, py) ==> #[trigger] final(img)@[py][px] == if in_hull(px, py) {
                hull_shade(px - 128, hull_half_width(py))
            } else {
                old(img)@[py][px]
            },
{
    let ghost before = img@;
    let mut y: u32 = 30;
    while y < 210
        invariant
            30 <= y <= 210,
            img.wf(),
            img.spec_width() == 256,
            img@.len() == 384,
            before.len() == 384,
            is_grid(before, 256),
            forall|px: int, py: int|
                0 <= px < 256 && 0 <= py < 384 ==> #[trigger] img@[py][px] == if py < y && in_hull(
                    px,
                    py,
                ) {
                    hull_shade(px - 128, hull_half_width(py))
                } else {
                    before[py][px]
                },
        decreases 210 - y,
    {
        let half: u32 = if y < 90 {
            let down: u64 = (y - 30) as u64;
            let up: u64 = (150 - y) as u64;
            assert(64 * down * up <= 64 * 59 * 120) by (nonlinear_arith)
                requires
                    0 <= down <= 59,
                    0 <= up <= 120,
            ;
            root_floor_of(64 * down * up, 225, 32) as u32
        } else if y <= 192 {
            32
        } else {
            (864 - 2 * y) / 15
        };
        assert(half == hull_half_width(y as int));
        shade_span(img, y, half);
        y = y + 1;
    }
}

/// The fourth power.
pub open spec fn pow4(v: int) -> int {
    v * v * v * v
}

/// The fifth power.
pub open spec fn pow5(v: int) -> int {
    v * v * v * v * v
}

/// Whether a flame that is `width` pixels wide at its base is still at least
/// `h` pixels wide on either side of its axis `dy` rows further down.
///
/// With `t = dy / 70`, the half width of the flame is
/// `(1 - t^0.8) * width / 2`.  That is at least `h` exactly when
/// `t^4 <= (1 - 2 h / width)^5`, which is the comparison below with both
/// sides multiplied out.
pub open spec fn flame_reaches(dy: int, width: int, h: int) -> bool {
    pow4(dy) * pow5(width) <= pow4(70) * pow5(width - 2 * h)
}

/// The largest `m` up to `h` that the flame still reaches, or zero.
pub open spec fn flame_half_width_below(dy: int, width: int, h: nat) -> nat
    decreases h,
{
    if h == 0 || flame_reaches(dy, width, h as int) {
        h
    } else {
        flame_half_width_below(dy, width, (h - 1) as nat)
    }
}

/// The half width of a flame `dy` rows below its base, rounded down.
pub open spec fn flame_half_width(dy: int, width: int) -> int {
    flame_half_width_below(dy, width, (width / 2) as nat) as int
}

/// The half width of a flame is the largest that the flame still reaches:
/// it reaches that far, and no further.
pub proof fn lemma_flame_half_width(dy: int, width: int)
    requires
        0 <= dy <= 70,
        0 <= width,
    ensures
        ({
            let h = flame_half_width(dy, width);
            &&& 0 <= h <= width / 2
            &&& flame_reaches(dy, width, h)
            &&& forall|m: int| h < m <= width / 2 ==> !flame_reaches(dy, width, m)
        }),
{
    lemma_flame_half_width_below(dy, width, (width / 2) as nat);
}

proof fn lemma_flame_half_width_below(dy: int, width: int, top: nat)
    requires
        0 <= dy <= 70,
        0 <= width,
    ensures
        ({
            let h = flame_half_width_below(dy, width, top);
            &&& 0 <= h <= top
            &&& flame_reaches(dy, width, h as int)
            &&& forall|m: int| h < m <= top ==> !flame_reaches(dy, width, m)
        }),
    decreases top,
{
    if top == 0 {
        let a = dy * dy;
        let b = 70 * 70;
        assert(0 <= a <= b) by (nonlinear_arith)
            requires
                0 <= dy <= 70,
                a == dy * dy,
                b == 70 * 70,
        ;
        assert(0 <= a * dy <= b * 70) by (nonlinear_arith)
            requires
                0 <= dy <= 70,
                0 <= a <= b,
        ;
        let a3 = a * dy;
        let b3 = b * 70;
        assert(0 <= a3 * dy <= b3 * 70) by (nonlinear_arith)
            requires
                0 <= dy <= 70,
                0 <= a3 <= b3,
        ;
        assert(pow4(dy) <= pow4(70));
        let w2 = width * width;
        assert(0 <= w2) by (nonlinear_arith)
            requires
                w2 == width * width,
        ;
        let w4 = w2 * width * width;
        assert(w4 == w2 * w2 && 0 <= w4) by (nonlinear_arith)
            requires
                w4 == w2 * width * width,
                w2 == width * width,
        ;
        assert(0 <= w4 * width) by (nonlinear_arith)
            requires
                0 <= w4,
                0 <= width,
        ;
        assert(pow5(width) == w4 * width);
        assert(pow4(dy) * pow5(width) <= pow4(70) * pow5(width)) by (nonlinear_arith)
            requires
                pow4(dy) <= pow4(70),
                0 <= pow5(width),
        ;
        assert(width - 2 * 0 == width);
    } else if flame_reaches(dy, width, top as int) {
    } else {
        lemma_flame_half_width_below(dy, width, (top - 1) as nat);
    }
}

/// Half of `width`, rounded towards zero.
pub open spec fn half_toward_zero(width: int) -> int {
    if width >= 0 {
        width / 2
    } else {
        -((-width) / 2)
    }
}

/// The column of the axis of a flame whose left edge is `x`.
pub open spec fn flame_center(x: int, width: int) -> int {
    x + half_toward_zero(width)
}

/// How many pixels to either side of its axis a flame covers `dy` rows below
/// its base; `-1` where it covers none.  A flame of negative width has a half
/// width of zero or less, and covers its axis alone where that is zero.
pub open spec fn flame_extent(dy: int, width: int) -> int {
    if width >= 0 {
        flame_half_width(dy, width)
    } else if flame_half_width(dy, -width) == 0 {
        0
    } else {
        -1
    }
}

/// The colour of a flame `dx` pixels from its axis and `dy` rows below its
/// base, in a row that reaches `extent` pixels to either side.
///
/// Over the inner two fifths of the row the colour runs from the core to the
/// rim.  Outside them it is the rim, fading out linearly towards the tip.
pub open spec fn flame_color(dx: int, dy: int, extent: int) -> Color {
    let m = if extent < 1 {
        1
    } else {
        extent
    };
    if 5 * dx < 2 * m {
        blend_spec(flame_inner(), flame_outer(), 5 * dx, 2 * m)
    } else {
        Color {
            r: flame_outer().r,
            g: flame_outer().g,
            b: flame_outer().b,
            a: (((70 - dy) * 255) / 70) as u8,
        }
    }
}

/// The distance between two columns.
pub open spec fn apart(a: int, b: int) -> int {
    if a >= b {
        a - b
    } else {
        b - a
    }
}

/// Whether the flame with left edge `x`, base row `y` and the given width
/// covers the pixel `(px, py)`.
pub open spec fn in_flame(px: int, py: int, x: int, y: int, width: int) -> bool {
    0 <= py - y < 70 && apart(px, flame_center(x, width)) <= flame_extent(py - y, width)
}

/// What a pixel that showed `prev` shows once the flame is drawn.
pub open spec fn flame_over(prev: Color, px: int, py: int, x: int, y: int, width: int) -> Color {
    if in_flame(px, py, x, y, width) {
        over_spec(
            prev,
            flame_color(
                apart(px, flame_center(x, width)),
                py - y,
                flame_extent(py - y, width),
            ),
        )
    } else {
        prev
    }
}

proof fn lemma_pow5_bound(v: int, top: int)
    requires
        0 <= v <= top,
    ensures
        0 <= pow5(v) <= pow5(top),
        0 <= v * v <= top * top,
        0 <= v * v * v <= top * top * top,
        0 <= v * v * v * v <= top * top * top * top,
{
    assert(0 <= v * v <= top * top) by (nonlinear_arith)
        requires
            0 <= v <= top,
    ;
    let v2 = v * v;
    let t2 = top * top;
    assert(0 <= v2 * v <= t2 * top) by (nonlinear_arith)
        requires
            0 <= v <= top,
            0 <= v2 <= t2,
    ;
    let v3 = v2 * v;
    let t3 = t2 * top;
    assert(0 <= v3 * v <= t3 * top) by (nonlinear_arith)
        requires
            0 <= v <= top,
            0 <= v3 <= t3,
    ;
    let v4 = v3 * v;
    let t4 = t3 * top;
    assert(0 <= v4 * v <= t4 * top) by (nonlinear_arith)
        requires
            0 <= v <= top,
            0 <= v4 <= t4,
    ;
}

/// A flame that reaches some way reaches every shorter way too.
proof fn lemma_flame_reaches_less(dy: int, width: int, near: int, far: int)
    requires
        0 <= dy,
        0 <= near <= far,
        2 * far <= width,
        flame_reaches(dy, width, far),
    ensures
        flame_reaches(dy, width, near),
{
    lemma_pow5_bound(width - 2 * far, width - 2 * near);
    lemma_pow5_bound(0, 70);
    assert(pow4(70) * pow5(width - 2 * far) <= pow4(70) * pow5(width - 2 * near))
        by (nonlinear_arith)
        requires
            0 <= pow4(70),
            pow5(width - 2 * far) <= pow5(width - 2 * near),
    ;
}

fn fourth_power(v: u32) -> (p: u128)
    requires
        v <= 0x8000_0000,
    ensures
        p == pow4(v as int),
        p <= 0x1000_0000_0000_0000_0000_0000_0000_0000,
        v <= 70 ==> p <= 24010000,
{
    proof {
        lemma_pow5_bound(v as int, 0x8000_0000);
        assert(0x8000_0000 * 0x8000_0000 * 0x8000_0000 * 0x8000_0000
            == 0x1000_0000_0000_0000_0000_0000_0000_0000) by (nonlinear_arith);
        if v <= 70 {
            lemma_pow5_bound(v as int, 70);
        }
    }
    let w: u128 = v as u128;
    w * w * w * w
}

/// The product of `a` and `x` in two parts: the first counts in units of
/// `2^64`, the second is what is left below one unit.
fn wide_product(a: u128, x: u128) -> (r: (u128, u128))
    requires
        a <= 0x100_0000_0000_0000,
        x <= 0x1000_0000_0000_0000_0000_0000_0000_0000,
    ensures
        r.1 < 0x1_0000_0000_0000_0000,
        r.0 * 0x1_0000_0000_0000_0000 + r.1 == a * x,
{
    let upper: u128 = x / 0x1_0000_0000_0000_0000;
    let lower: u128 = x % 0x1_0000_0000_0000_0000;
    assert(a * lower <= 0x100_0000_0000_0000 * 0x1_0000_0000_0000_0000) by (nonlinear_arith)
        requires
            0 <= a <= 0x100_0000_0000_0000,
            0 <= lower <= 0x1_0000_0000_0000_0000,
    ;
    assert(a * upper <= 0x100_0000_0000_0000 * 0x1000_0000_0000_0000) by (nonlinear_arith)
        requires
            0 <= a <= 0x100_0000_0000_0000,
            0 <= upper <= 0x1000_0000_0000_0000,
    ;
    let low: u128 = a * lower;
    let high: u128 = a * upper;
    assert(a * x == high * 0x1_0000_0000_0000_0000 + low) by (nonlinear_arith)
        requires
            x == upper * 0x1_0000_0000_0000_0000 + lower,
            low == a * lower,
            high == a * upper,
    ;
    (high + low / 0x1_0000_0000_0000_0000, low % 0x1_0000_0000_0000_0000)
}

/// Whether a flame `width` wide still reaches `h` pixels from its axis `dy`
/// rows down.  The two sides of the comparison can take 180 bits, so each is
/// held in two parts.
fn flame_reaches_at(dy: u32, width: u32, h: u32) -> (b: bool)
    requires
        dy < 70,
        width <= 0x8000_0000,
        2 * h <= width,
    ensures
        b == flame_reaches(dy as int, width as int, h as int),
{
    let rest: u32 = width - 2 * h;
    let fall: u128 = fourth_power(dy);
    let scale: u128 = fourth_power(70);
    let base: u128 = fourth_power(width);
    let tail: u128 = fourth_power(rest);
    assert(fall * width <= 24010000 * 0x8000_0000) by (nonlinear_arith)
        requires
            0 <= fall <= 24010000,
            0 <= width <= 0x8000_0000,
    ;
    assert(scale * rest <= 24010000 * 0x8000_0000) by (nonlinear_arith)
        requires
            0 <= scale <= 24010000,
            0 <= rest <= 0x8000_0000,
    ;
    let left = wide_product(fall * (width as u128), base);
    let right = wide_product(scale * (rest as u128), tail);
    proof {
        let w = width as int;
        let p = rest as int;
        assert(pow4(dy as int) * pow5(w) == (pow4(dy as int) * w) * pow4(w)) by (nonlinear_arith)
            requires
                pow5(w) == pow4(w) * w,
        ;
        assert(pow4(70) * pow5(p) == (pow4(70) * p) * pow4(p)) by (nonlinear_arith)
            requires
                pow5(p) == pow4(p) * p,
        ;
    }
    left.0 < right.0 || (left.0 == right.0 && left.1 <= right.1)
}

fn flame_half_width_of(dy: u32, width: u32) -> (h: u32)
    requires
        dy < 70,
        width <= 0x8000_0000,
    ensures
        h == flame_half_width(dy as int, width as int),
        h <= width / 2,
{
    let top: u32 = width / 2;
    let mut low: u32 = 0;
    let mut high: u32 = top;
    proof {
        lemma_flame_half_width(dy as int, width as int);
        lemma_flame_reaches_less(
            dy as int,
            width as int,
            0,
            flame_half_width(dy as int, width as int),
        );
    }
    while low < high
        invariant
            dy < 70,
            width <= 0x8000_0000,
            top == width / 2,
            low <= high <= top,
            flame_reaches(dy as int, width as int, low as int),
            forall|m: int| high < m <= top ==> !flame_reaches(dy as int, width as int, m),
        decreases high - low,
    {
        let mid: u32 = low + (high - low + 1) / 2;
        if flame_reaches_at(dy, width, mid) {
            low = mid;
        } else {
            proof {
                assert forall|m: int| mid <= m <= top implies !flame_reaches(
                    dy as int,
                    width as int,
                    m,
                ) by {
                    if flame_reaches(dy as int, width as int, m) {
                        lemma_flame_reaches_less(dy as int, width as int, mid as int, m);
                    }
                }
            }
            high = mid - 1;
        }
    }
    proof {
        lemma_flame_half_width(dy as int, width as int);
        let found = flame_half_width(dy as int, width as int);
        if found < low {
            assert(!flame_reaches(dy as int, width as int, low as int));
        }
        if low < found {
            assert(!flame_reaches(dy as int, width as int, found));
        }
    }
    low
}

fn flame_color_of(dx: u32, dy: u32, extent: u32) -> (c: Color)
    requires
        dy < 70,
        dx <= extent <= 0x4000_0000,
    ensures
        c == flame_color(dx as int, dy as int, extent as int),
{
    let m: u64 = if extent < 1 {
        1
    } else {
        extent as u64
    };
    let across: u64 = 5 * (dx as u64);
    if across < 2 * m {
        blend_colors(flame_inner(), flame_outer(), across as u32, (2 * m) as u32)
    } else {
        let rim = flame_outer();
        Color { r: rim.r, g: rim.g, b: rim.b, a: (((70 - dy) * 255) / 70) as u8 }
    }
}

/// Draws a flame over what the bitmap shows: `width` pixels wide at its base,
/// with its left edge in column `x` and its base in row `y`, narrowing to a
/// tip seventy rows further down.  Pixels outside the bitmap are left out.
pub fn draw_flame(img: &mut Bitmap, x: i32, y: i32, width: i32)
    requires
        old(img).wf(),
    ensures
        final(img).wf(),
        final(img).spec_width() == old(img).spec_width(),
        final(img).spec_height() == old(img).spec_height(),
        forall|px: int, py: int|
            old(img).holds(px, py) ==> #[trigger] final(img)@[py][px] == flame_over(
                old(img)@[py][px],
                px,
                py,
                x as int,
                y as int,
                width as int,
            ),
{
    let ghost before = img@;
    let cols: i64 = img.width() as i64;
    let rows: i64 = img.height() as i64;
    let span: u32 = if width >= 0 {
        width as u32
    } else {
        (-(width as i64)) as u32
    };
    let lean: i64 = (span / 2) as i64;
    let center: i64 = if width >= 0 {
        x as i64 + lean
    } else {
        x as i64 - lean
    };
    assert(center == flame_center(x as int, width as int));
    let mut dy: u32 = 0;
    while dy < 70
        invariant
            dy <= 70,
            span <= 0x8000_0000,
            span == if width >= 0 {
                width as int
            } else {
                -width
            },
            center == flame_center(x as int, width as int),
            -0x1_0000_0000 <= center <= 0x1_0000_0000,
            is_grid(before, cols as nat),
            img.wf(),
            img.spec_width() == cols,
            img@.len() == rows,
            before.len() == rows,
            forall|px: int, py: int|
                0 <= px < cols && 0 <= py < rows ==> #[trigger] img@[py][px] == if py - y < dy {
                    flame_over(before[py][px], px, py, x as int, y as int, width as int)
                } else {
                    before[py][px]
                },
        decreases 70 - dy,
    {
        let half: u32 = flame_half_width_of(dy, span);
        let py: i64 = y as i64 + dy as i64;
        let ghost extent = flame_extent(dy as int, width as int);
        if (width >= 0 || half == 0) && 0 <= py && py < rows {
            assert(extent == half);
            let mut dx: u32 = 0;
            while dx <= half
                invariant
                    dy < 70,
                    dx <= half + 1,
                    half <= 0x4000_0000,
                    extent == half,
                    extent == flame_extent(dy as int, width as int),
                    py == y + dy,
                    0 <= py < rows,
                    center == flame_center(x as int, width as int),
                    -0x1_0000_0000 <= center <= 0x1_0000_0000,
                    is_grid(before, cols as nat),
                    img.wf(),
                    img.spec_width() == cols,
                    img@.len() == rows,
                    before.len() == rows,
                    forall|px: int, qy: int|
                        0 <= px < cols && 0 <= qy < rows ==> #[trigger] img@[qy][px] == if qy - y
                            < dy {
                            flame_over(before[qy][px], px, qy, x as int, y as int, width as int)
                        } else if qy == py && apart(px, center as int) < dx {
                            over_spec(
                                before[qy][px],
                                flame_color(apart(px, center as int), dy as int, extent),
                            )
                        } else {
                            before[qy][px]
                        },
                decreases half + 1 - dx,
            {
                let color = flame_color_of(dx, dy, half);
                let right: i64 = center + dx as i64;
                if 0 <= right && right < cols {
                    blend_pixel(img, right as u32, py as u32, color);
                }
                let left: i64 = center - dx as i64;
                if dx > 0 && 0 <= left && left < cols {
                    blend_pixel(img, left as u32, py as u32, color);
                }
                dx = dx + 1;
            }
        }
        dy = dy + 1;
    }
}

/// The colour of the pixel in column `x` of row `y` of the rocket: the hull
/// and the fins, with the flame laid over them.
pub open spec fn rocket_pixel(x: int, y: int) -> Color {
    flame_over(hull_pixel(x, y), x, y, 113, 207, 30)
}

/// The whole picture of the rocket.
pub open spec fn rocket_rows() -> Seq<Seq<Color>> {
    Seq::new(384, |y: int| Seq::new(256, |x: int| rocket_pixel(x, y)))
}

/// Paints the rocket on a fresh bitmap: first the fins, then the nose cone and
/// the body over them, then the flame over all of it.
pub fn draw_rocket() -> (img: Bitmap)
    ensures
        img.wf(),
        img.spec_width() == ROCKET_WIDTH,
        img.spec_height() == ROCKET_HEIGHT,
        img@ == rocket_rows(),
{
    let mut img = Bitmap::new(ROCKET_WIDTH, ROCKET_HEIGHT);
    draw_fins(&mut img);
    draw_hull(&mut img);
    draw_flame(&mut img, 113, 207, 30);
    assert forall|y: int| 0 <= y < 384 implies #[trigger] img@[y] =~= rocket_rows()[y] by {
        assert forall|x: int| 0 <= x < 256 implies img@[y][x] == rocket_rows()[y][x] by {
            assert(img.holds(x, y));
        }
    }
    assert(img@ =~= rocket_rows());
    img
}

} // verus!
