//! Colour effects: hue rotation in HSV space and the luminance-aware tint
//! blend. Hue is kept exactly as a multiple of `1 / (max - min)` degree, so
//! the only rounding is the final one to 8 bits (halves up).
use vstd::prelude::*;
use crate::pixel::{Pixel, luma};
use vstd::arithmetic::div_mod::lemma_fundamental_div_mod_converse as conv;

verus! {

pub open spec fn max3(p: Pixel) -> int {
    if p.r >= p.g && p.r >= p.b {
        p.r as int
    } else if p.g >= p.b {
        p.g as int
    } else {
        p.b as int
    }
}

pub open spec fn min3(p: Pixel) -> int {
    if p.r <= p.g && p.r <= p.b {
        p.r as int
    } else if p.g <= p.b {
        p.g as int
    } else {
        p.b as int
    }
}

/// Hue of `p` in degrees times `max3(p) - min3(p)`, in `0 .. 360 * delta`
/// (0 for a grey pixel).
pub open spec fn hue_pos(p: Pixel) -> int {
    let d = max3(p) - min3(p);
    if d == 0 {
        0
    } else if max3(p) == p.r {
        if p.g >= p.b {
            60 * (p.g - p.b)
        } else {
            360 * d + 60 * (p.g - p.b)
        }
    } else if max3(p) == p.g {
        60 * (2 * d + p.b - p.r)
    } else {
        60 * (4 * d + p.r - p.g)
    }
}

/// The pixel with channel extremes `hi` and `lo` whose hue, in degrees times
/// `hi - lo`, is `q` (`0 <= q < 360 * (hi - lo)`); the middle channel is
/// rounded to the nearest integer, halves up.
pub open spec fn from_hue(q: int, hi: int, lo: int) -> Pixel {
    let d = hi - lo;
    let sector = q / (60 * d);
    let u = q % (120 * d);
    let w = if u <= 60 * d { u } else { 120 * d - u };
    let mid = lo + (w + 30) / 60;
    let (r, g, b) = if sector == 0 {
        (hi, mid, lo)
    } else if sector == 1 {
        (mid, hi, lo)
    } else if sector == 2 {
        (lo, hi, mid)
    } else if sector == 3 {
        (lo, mid, hi)
    } else if sector == 4 {
        (mid, lo, hi)
    } else {
        (hi, lo, mid)
    };
    Pixel { r: r as u8, g: g as u8, b: b as u8 }
}

/// `p` with its hue turned by `degrees` (saturation and value kept).
pub open spec fn hue_rotated(p: Pixel, degrees: int) -> Pixel {
    let d = max3(p) - min3(p);
    if d == 0 {
        p
    } else {
        from_hue((hue_pos(p) + (degrees % 360) * d) % (360 * d), max3(p), min3(p))
    }
}

/// The fully saturated, full-value colour of hue `degrees`.
pub open spec fn hue_color(degrees: int) -> Pixel {
    from_hue((degrees % 360) * 255, 255, 0)
}

/// Middle channel and placement for hue position `q` (see `from_hue`).
fn pixel_from_hue(q: u32, hi: u8, lo: u8) -> (p: Pixel)
    requires
        lo < hi,
        q < 360 * (hi - lo),
    ensures
        p == from_hue(q as int, hi as int, lo as int),
{
    let d: u32 = (hi - lo) as u32;
    let sector: u32 = q / (60 * d);
    let u: u32 = q % (120 * d);
    let w: u32 = if u <= 60 * d { u } else { 120 * d - u };
    proof {
        assert((u as int) < 120 * (d as int)) by (nonlinear_arith)
            requires
                u as int == (q as int) % (120 * (d as int)),
                d > 0,
        ;
    }
    let mid_wide: u32 = lo as u32 + (w + 30) / 60;
    proof {
        assert(mid_wide <= hi);
    }
    let mid = mid_wide as u8;
    if sector == 0 {
        Pixel { r: hi, g: mid, b: lo }
    } else if sector == 1 {
        Pixel { r: mid, g: hi, b: lo }
    } else if sector == 2 {
        Pixel { r: lo, g: hi, b: mid }
    } else if sector == 3 {
        Pixel { r: lo, g: mid, b: hi }
    } else if sector == 4 {
        Pixel { r: mid, g: lo, b: hi }
    } else {
        Pixel { r: hi, g: lo, b: mid }
    }
}

/// Turns the hue of one pixel by `degrees`.
pub fn shift_pixel_hue(p: &Pixel, degrees: u32) -> (q: Pixel)
    ensures
        q == hue_rotated(*p, degrees as int),
{
    let hi: u8 = if p.r >= p.g && p.r >= p.b {
        p.r
    } else if p.g >= p.b {
        p.g
    } else {
        p.b
    };
    let lo: u8 = if p.r <= p.g && p.r <= p.b {
        p.r
    } else if p.g <= p.b {
        p.g
    } else {
        p.b
    };
    if hi == lo {
        return *p;
    }
    let d: u32 = (hi - lo) as u32;
    let pos: u32 = if hi == p.r {
        if p.g >= p.b {
            60 * (p.g - p.b) as u32
        } else {
            360 * d - 60 * (p.b - p.g) as u32
        }
    } else if hi == p.g {
        60 * (2 * d + p.b as u32 - p.r as u32)
    } else {
        60 * (4 * d + p.r as u32 - p.g as u32)
    };
    proof {
        assert(pos as int == hue_pos(*p));
        assert(pos < 360 * d);
        assert((degrees as int % 360) * (d as int) <= 359 * 255) by (nonlinear_arith)
            requires
                d <= 255,
                degrees as int % 360 <= 359,
        ;
    }
    let turned: u32 = (pos + (degrees % 360) * d) % (360 * d);
    proof {
        assert((turned as int) < 360 * (d as int)) by (nonlinear_arith)
            requires
                turned as int == (pos as int + (degrees as int % 360) * (d as int)) % (360 * (d as int)),
                d > 0,
        ;
    }
    pixel_from_hue(turned, hi, lo)
}

/// The fully saturated colour of hue `degrees`, used as the tint colour.
pub fn hue_to_rgb_pixel(degrees: u32) -> (p: Pixel)
    ensures
        p == hue_color(degrees as int),
{
    pixel_from_hue((degrees % 360) * 255, 255, 0)
}

/// Below this luminance (0.1 of white, in thousandths) a pixel counts as
/// near-black.
pub const DARK_LUMA: u32 = 25500;

/// Above this luminance (0.9 of white, in thousandths) a pixel counts as
/// near-white.
pub const BRIGHT_LUMA: u32 = 229500;

/// Tint strength, in thousandths, actually applied to `p` for a nominal
/// strength of `percent` (capped at 100): 30% of it on near-black and
/// near-white pixels.
pub open spec fn effective_strength(p: Pixel, percent: int) -> int {
    let s = if percent > 100 { 1000 } else { percent * 10 };
    if luma(p) < DARK_LUMA || luma(p) > BRIGHT_LUMA { s * 3 / 10 } else { s }
}

/// One channel blended toward its product with the tint channel:
/// `o * (1 - s) + o * t * s` on the unit scale, rounded halves up
/// (`s` in thousandths).
pub open spec fn blend_channel(o: int, t: int, s: int) -> int {
    (o * ((1000 - s) * 255 + t * s) + 127500) / 255000
}

/// `p` tinted toward `tint` with a nominal strength of `percent`.
pub open spec fn tinted(p: Pixel, tint: Pixel, percent: int) -> Pixel {
    let s = effective_strength(p, percent);
    Pixel {
        r: blend_channel(p.r as int, tint.r as int, s) as u8,
        g: blend_channel(p.g as int, tint.g as int, s) as u8,
        b: blend_channel(p.b as int, tint.b as int, s) as u8,
    }
}

fn blend_one(o: u8, t: u8, s: u32) -> (c: u8)
    requires
        s <= 1000,
    ensures
        c as int == blend_channel(o as int, t as int, s as int),
        c <= o,
{
    proof {
        assert((t as int) * (s as int) <= 255 * (s as int)) by (nonlinear_arith)
            requires
                t <= 255,
                s >= 0,
        ;
    }
    let weight: u32 = (1000 - s) * 255 + t as u32 * s;
    proof {
        assert(weight <= 255000);
        assert((o as int) * (weight as int) <= 255 * 255000) by (nonlinear_arith)
            requires
                o <= 255,
                weight <= 255000,
        ;
    }
    let v: u32 = (o as u32 * weight + 127500) / 255000;
    proof {
        assert(v <= o) by (nonlinear_arith)
            requires
                v as int == ((o as int) * (weight as int) + 127500) / 255000,
                weight <= 255000,
                o >= 0,
        ;
    }
    v as u8
}

/// Blends one pixel toward `tint`, multiplying the tint into the pixel's own
/// channels, with `strength_percent` (capped at 100) cut to 30% on
/// near-black and near-white pixels.
pub fn blend_tint_preserve_luminance(p: &Pixel, tint: &Pixel, strength_percent: u32) -> (q: Pixel)
    ensures
        q == tinted(*p, *tint, strength_percent as int),
{
    let s: u32 = if strength_percent > 100 { 1000 } else { strength_percent * 10 };
    let l = p.luminance();
    let s: u32 = if l < DARK_LUMA || l > BRIGHT_LUMA { s * 3 / 10 } else { s };
    Pixel { r: blend_one(p.r, tint.r, s), g: blend_one(p.g, tint.g, s), b: blend_one(p.b, tint.b, s) }
}

/// `x` brought back into `0 .. 360 * d` by at most one turn.
pub open spec fn wrap(x: int, d: int) -> int {
    if x < 0 {
        x + 360 * d
    } else if x >= 360 * d {
        x - 360 * d
    } else {
        x
    }
}

/// How far above the minimum the red channel lies, times 60, at hue
/// position `q` for chroma `d`: full on `0 .. 60d` and `300d .. 360d`,
/// falling on `60d .. 120d`, zero on `120d .. 240d`, rising on
/// `240d .. 300d`.
pub open spec fn trap(q: int, d: int) -> int {
    if q < 60 * d {
        60 * d
    } else if q < 120 * d {
        120 * d - q
    } else if q < 240 * d {
        0
    } else if q < 300 * d {
        q - 240 * d
    } else {
        60 * d
    }
}

/// Unrounded channels, times 60, of the colour at hue position `q` with
/// extremes `lo` and `lo + d`; green and blue are red turned by 120 and 240
/// degrees.
pub open spec fn exact_r(q: int, d: int, lo: int) -> int {
    60 * lo + trap(q, d)
}

pub open spec fn exact_g(q: int, d: int, lo: int) -> int {
    60 * lo + trap(wrap(q + 240 * d, d), d)
}

pub open spec fn exact_b(q: int, d: int, lo: int) -> int {
    60 * lo + trap(wrap(q + 120 * d, d), d)
}

/// `a` and `b` are at most 30 apart around a wheel of `360 * d`.
pub open spec fn close(a: int, b: int, d: int) -> bool {
    (-30 <= a - b <= 30) || (-30 <= a - b + 360 * d <= 30) || (-30 <= a - b - 360 * d <= 30)
}

/// Sector and folded position of `q`, the divisions that `from_hue` makes.
proof fn lemma_sector(q: int, d: int)
    requires
        d > 0,
        0 <= q < 360 * d,
    ensures
        q < 60 * d ==> q / (60 * d) == 0 && q % (120 * d) == q,
        60 * d <= q < 120 * d ==> q / (60 * d) == 1 && q % (120 * d) == q,
        120 * d <= q < 180 * d ==> q / (60 * d) == 2 && q % (120 * d) == q - 120 * d,
        180 * d <= q < 240 * d ==> q / (60 * d) == 3 && q % (120 * d) == q - 120 * d,
        240 * d <= q < 300 * d ==> q / (60 * d) == 4 && q % (120 * d) == q - 240 * d,
        300 * d <= q ==> q / (60 * d) == 5 && q % (120 * d) == q - 240 * d,
{
    if q < 60 * d {
        conv(q, 60 * d, 0, q);
        conv(q, 120 * d, 0, q);
    } else if q < 120 * d {
        conv(q, 60 * d, 1, q - 60 * d);
        conv(q, 120 * d, 0, q);
    } else if q < 180 * d {
        conv(q, 60 * d, 2, q - 120 * d);
        conv(q, 120 * d, 1, q - 120 * d);
    } else if q < 240 * d {
        conv(q, 60 * d, 3, q - 180 * d);
        conv(q, 120 * d, 1, q - 120 * d);
    } else if q < 300 * d {
        conv(q, 60 * d, 4, q - 240 * d);
        conv(q, 120 * d, 2, q - 240 * d);
    } else {
        conv(q, 60 * d, 5, q - 300 * d);
        conv(q, 120 * d, 2, q - 240 * d);
    }
}

/// `from_hue` rounds the exact channels, halves up.
proof fn lemma_from_hue_rounds(q: int, hi: int, lo: int)
    requires
        0 <= lo < hi <= 255,
        0 <= q < 360 * (hi - lo),
    ensures
        from_hue(q, hi, lo).r as int == (exact_r(q, hi - lo, lo) + 30) / 60,
        from_hue(q, hi, lo).g as int == (exact_g(q, hi - lo, lo) + 30) / 60,
        from_hue(q, hi, lo).b as int == (exact_b(q, hi - lo, lo) + 30) / 60,
{
    let d = hi - lo;
    lemma_sector(q, d);
    let u = q % (120 * d);
    let w = if u <= 60 * d { u } else { 120 * d - u };
    assert(0 <= w <= 60 * d);
    let mid = lo + (w + 30) / 60;
    assert(lo <= mid <= hi);
    assert((60 * hi + 30) / 60 == hi);
    assert((60 * lo + 30) / 60 == lo);
    assert(mid == (60 * lo + w + 30) / 60);
}

/// Exchanging `from_hue` and `hue_pos` moves the hue by at most 30 (the
/// rounding of the middle channel), and keeps the extremes.
proof fn lemma_hue_of_rounded(q: int, hi: int, lo: int)
    requires
        0 <= lo < hi <= 255,
        0 <= q < 360 * (hi - lo),
    ensures
        max3(from_hue(q, hi, lo)) == hi,
        min3(from_hue(q, hi, lo)) == lo,
        close(hue_pos(from_hue(q, hi, lo)), q, hi - lo),
{
    let d = hi - lo;
    lemma_sector(q, d);
    let u = q % (120 * d);
    let w = if u <= 60 * d { u } else { 120 * d - u };
    let mid = lo + (w + 30) / 60;
    assert(lo <= mid <= hi);
    assert(60 * (mid - lo) - w <= 30 && w - 60 * (mid - lo) <= 29);
}

/// The exact channels of a pixel's own hue are the pixel itself.
proof fn lemma_hue_pos_exact(p: Pixel)
    requires
        max3(p) > min3(p),
    ensures
        0 <= hue_pos(p) < 360 * (max3(p) - min3(p)),
        60 * p.r == exact_r(hue_pos(p), max3(p) - min3(p), min3(p)),
        60 * p.g == exact_g(hue_pos(p), max3(p) - min3(p), min3(p)),
        60 * p.b == exact_b(hue_pos(p), max3(p) - min3(p), min3(p)),
{
}

/// Two hue positions at most 30 apart give channels at most 30 apart
/// (`trap` has slope at most one and is continuous around the wheel).
proof fn lemma_trap_close(a: int, b: int, d: int)
    requires
        d > 0,
        0 <= a < 360 * d,
        0 <= b < 360 * d,
        close(a, b, d),
    ensures
        -30 <= trap(a, d) - trap(b, d) <= 30,
        close(wrap(a + 240 * d, d), wrap(b + 240 * d, d), d),
        close(wrap(a + 120 * d, d), wrap(b + 120 * d, d), d),
        0 <= wrap(a + 240 * d, d) < 360 * d,
        0 <= wrap(b + 240 * d, d) < 360 * d,
        0 <= wrap(a + 120 * d, d) < 360 * d,
        0 <= wrap(b + 120 * d, d) < 360 * d,
{
}

/// `(q + t) % (360 d)` for `q` and `t` in `0 .. 360 d`.
proof fn lemma_turn(q: int, t: int, d: int)
    requires
        d > 0,
        0 <= q < 360 * d,
        0 <= t < 360 * d,
    ensures
        (q + t) % (360 * d) == wrap(q + t, d),
{
    if q + t < 360 * d {
        conv(q + t, 360 * d, 0, q + t);
    } else {
        conv(q + t, 360 * d, 1, q + t - 360 * d);
    }
}

/// A turn by `degrees` is `from_hue` at the shifted position.
proof fn lemma_rotation_is(p: Pixel, degrees: int)
    requires
        max3(p) > min3(p),
        degrees >= 0,
    ensures
        0 <= (degrees % 360) * (max3(p) - min3(p)) < 360 * (max3(p) - min3(p)),
        0 <= hue_pos(p) < 360 * (max3(p) - min3(p)),
        hue_rotated(p, degrees) == from_hue(
            wrap(hue_pos(p) + (degrees % 360) * (max3(p) - min3(p)), max3(p) - min3(p)),
            max3(p),
            min3(p),
        ),
{
    let d = max3(p) - min3(p);
    let k = degrees % 360;
    assert(0 <= k * d < 360 * d) by (nonlinear_arith)
        requires
            0 <= k < 360,
            d > 0,
    ;
    lemma_hue_pos_exact(p);
    lemma_turn(hue_pos(p), k * d, d);
}

/// The two turns add up to a whole number of turns.
proof fn lemma_turns_add_up(degrees: int, d: int)
    requires
        0 <= degrees <= 360,
        d > 0,
    ensures
        (degrees % 360) * d + ((360 - degrees) % 360) * d == 0 || (degrees % 360) * d + ((360
            - degrees) % 360) * d == 360 * d,
{
    let k1 = degrees % 360;
    let k2 = (360 - degrees) % 360;
    if degrees == 0 || degrees == 360 {
        assert(k1 == 0 && k2 == 0);
    } else {
        assert(k1 == degrees && k2 == 360 - degrees);
        assert(k1 * d + k2 * d == 360 * d) by (nonlinear_arith)
            requires
                k1 + k2 == 360,
        ;
    }
}

/// Rounding an exact channel that is within 30 of `60 c` gives `c` or
/// `c + 1`.
proof fn lemma_round_back(c: int, e: int)
    requires
        -30 <= e - 60 * c <= 30,
    ensures
        0 <= (e + 30) / 60 - c <= 1,
{
}

/// Turning the hue by `degrees` and then by `360 - degrees` brings every
/// channel back to within one of where it was (the only loss is the
/// rounding of the middle channel, once per turn).
pub proof fn lemma_hue_round_trip(p: Pixel, degrees: int)
    requires
        0 <= degrees <= 360,
    ensures
        -1 <= hue_rotated(hue_rotated(p, degrees), 360 - degrees).r - p.r <= 1,
        -1 <= hue_rotated(hue_rotated(p, degrees), 360 - degrees).g - p.g <= 1,
        -1 <= hue_rotated(hue_rotated(p, degrees), 360 - degrees).b - p.b <= 1,
{
    let hi = max3(p);
    let lo = min3(p);
    let d = hi - lo;
    if d > 0 {
        lemma_hue_pos_exact(p);
        lemma_rotation_is(p, degrees);
        lemma_turns_add_up(degrees, d);
        let q0 = hue_pos(p);
        let t1 = (degrees % 360) * d;
        let t2 = ((360 - degrees) % 360) * d;
        let q1 = wrap(q0 + t1, d);
        let once = hue_rotated(p, degrees);
        lemma_hue_of_rounded(q1, hi, lo);
        lemma_rotation_is(once, 360 - degrees);
        let h1 = hue_pos(once);
        let q2 = wrap(h1 + t2, d);
        let twice = hue_rotated(once, 360 - degrees);
        assert(twice == from_hue(q2, hi, lo));
        assert(close(q2, q0, d));
        lemma_from_hue_rounds(q2, hi, lo);
        lemma_trap_close(q2, q0, d);
        lemma_trap_close(wrap(q2 + 240 * d, d), wrap(q0 + 240 * d, d), d);
        lemma_trap_close(wrap(q2 + 120 * d, d), wrap(q0 + 120 * d, d), d);
        lemma_round_back(p.r as int, exact_r(q2, d, lo));
        lemma_round_back(p.g as int, exact_g(q2, d, lo));
        lemma_round_back(p.b as int, exact_b(q2, d, lo));
    }
}

} // verus!
