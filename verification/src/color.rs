//! Pure color conversions shared by the compiler and adapters.
//!
//! sRGB bytes are the canonical form. Parsing `#RRGGBB`, mapping RGB to a
//! protocol's hue and saturation, and translating mireds to a warm/cold-white mix
//! live here once.

use vstd::prelude::*;

use crate::single::{lemma_near, lemma_zero, round, rounded, ONE};
use crate::text::{chars_of, hex_of, hex_value};

verus! {

/// The two digits at `i`, as a byte.
pub open spec fn byte_at(s: Seq<char>, i: int) -> u8 {
    (hex_value(s[i])->0 * 16 + hex_value(s[i + 1])->0) as u8
}

pub open spec fn all_hex(s: Seq<char>) -> bool {
    forall|i: int| 0 <= i < s.len() ==> hex_value(#[trigger] s[i]) is Some
}

/// The color that a text of six hexadecimal digits names, after at most one `#`.
pub open spec fn named_color(s: Seq<char>) -> Option<(u8, u8, u8)> {
    let h = if s.len() > 0 && s[0] == '#' {
        s.drop_first()
    } else {
        s
    };
    if h.len() == 6 && all_hex(h) {
        Some((byte_at(h, 0), byte_at(h, 2), byte_at(h, 4)))
    } else {
        None
    }
}

/// Parse a `#RRGGBB` (or bare `RRGGBB`) hex string into sRGB bytes. `None` on any
/// malformed input (wrong length, non-hex digits).
pub fn hex_to_rgb(s: &str) -> (r: Option<(u8, u8, u8)>)
    ensures
        r == named_color(s@),
{
    let cs = chars_of(s);
    let start: usize = if cs.len() > 0 && cs[0] == '#' {
        1
    } else {
        0
    };
    let ghost h = s@.skip(start as int);
    proof {
        if start == 1 {
            assert(h =~= s@.drop_first());
        } else {
            assert(h =~= s@);
        }
    }
    if cs.len() - start != 6 {
        return None;
    }
    let mut ds: Vec<u8> = Vec::new();
    let mut i: usize = 0;
    while i < 6
        invariant
            i <= 6,
            start <= 1,
            cs@.len() == start + 6,
            cs@ == s@,
            h == s@.skip(start as int),
            named_color(s@) is Some ==> all_hex(h),
            ds@.len() == i,
            forall|j: int|
                0 <= j < i ==> ds@[j] < 16 && hex_value(#[trigger] h[j]) == Some(ds@[j] as nat),
        decreases 6 - i,
    {
        assert(h[i as int] == cs@[start + i]);
        match hex_of(cs[start + i]) {
            Some(d) => ds.push(d),
            None => return None,
        }
        i += 1;
    }
    assert(all_hex(h));
    assert(hex_value(h[0]) is Some && hex_value(h[1]) is Some && hex_value(h[2]) is Some);
    assert(hex_value(h[3]) is Some && hex_value(h[4]) is Some && hex_value(h[5]) is Some);
    Some((ds[0] * 16 + ds[1], ds[2] * 16 + ds[3], ds[4] * 16 + ds[5]))
}

/// The warm end of the tunable-white range.
pub const WARM_KELVIN: u32 = 2700;

/// The cold end of the tunable-white range.
pub const COLD_KELVIN: u32 = 6500;

/// The color temperature of a number of mireds, inside the tunable-white range.
pub open spec fn tunable_kelvin(mireds: int) -> int {
    let kelvin = 1_000_000int / (if mireds < 1 {
        1
    } else {
        mireds
    });
    if kelvin < WARM_KELVIN {
        WARM_KELVIN as int
    } else if kelvin > COLD_KELVIN {
        COLD_KELVIN as int
    } else {
        kelvin
    }
}

/// The share of cold white in a color temperature, in percent.
pub open spec fn cold_share(kelvin: int) -> int {
    (kelvin - WARM_KELVIN) * 100 / 3800
}

/// The channel mix of a number of mireds: the warm and the cold level.
pub open spec fn warm_cold(mireds: int) -> (int, int) {
    let share = cold_share(tunable_kelvin(mireds));
    (255 * (100 - share) / 100, 255 * share / 100)
}

/// Convert mireds to a warm/cold-white channel mix (each `0..=255`).
///
/// Tunable-white hardware exposes two channels rather than a mireds value, so a
/// requested temperature is expressed as a blend. Requests outside
/// [`WARM_KELVIN`]..=[`COLD_KELVIN`] are honored at the nearest bound.
pub fn mireds_to_warm_cold(mireds: u16) -> (r: (u8, u8))
    ensures
        r.0 == warm_cold(mireds as int).0,
        r.1 == warm_cold(mireds as int).1,
{
    let m: u32 = if mireds < 1 {
        1
    } else {
        mireds as u32
    };
    let raw: u32 = 1_000_000 / m;
    let kelvin: u32 = if raw < WARM_KELVIN {
        WARM_KELVIN
    } else if raw > COLD_KELVIN {
        COLD_KELVIN
    } else {
        raw
    };
    let share: u32 = (kelvin - WARM_KELVIN) * 100 / (COLD_KELVIN - WARM_KELVIN);
    assert(share <= 100);
    let warm: u32 = 255 * (100 - share) / 100;
    let cold: u32 = 255 * share / 100;
    (warm as u8, cold as u8)
}

/// The mireds of a channel mix. None while both channels are off.
pub open spec fn mix_mireds(warm: int, cold: int) -> Option<int> {
    if warm == 0 && cold == 0 {
        None
    } else {
        Some(1_000_000int / (2700 + 3800 * (cold * 100 / (warm + cold)) / 100))
    }
}

/// Approximate mireds from a warm/cold-white channel mix: the inverse of
/// [`mireds_to_warm_cold`]. `None` when both channels are off.
pub fn warm_cold_to_mireds(warm: u64, cold: u64) -> (r: Option<u16>)
    ensures
        match r {
            Some(m) => mix_mireds(warm as int, cold as int) == Some(m as int),
            None => mix_mireds(warm as int, cold as int) is None,
        },
{
    if warm == 0 && cold == 0 {
        return None;
    }
    let total: u128 = warm as u128 + cold as u128;
    let share: u128 = (cold as u128) * 100 / total;
    assert(share <= 100) by (nonlinear_arith)
        requires
            share == (cold * 100) / (total as int),
            total == warm + cold,
            total > 0,
            warm >= 0,
            cold >= 0,
    ;
    let kelvin: u32 = WARM_KELVIN + (COLD_KELVIN - WARM_KELVIN) * (share as u32) / 100;
    let mireds: u32 = 1_000_000 / kelvin;
    assert(mireds <= 370) by (nonlinear_arith)
        requires
            mireds == 1_000_000u32 / kelvin,
            kelvin >= 2700,
    ;
    Some(mireds as u16)
}

/// The ends of the tunable-white range survive the way to a channel mix and back.
pub proof fn white_bounds_round_trip()
    ensures
        warm_cold(370) == (255int, 0int),
        mix_mireds(255, 0) == Some(370int),
        warm_cold(153) == (0int, 255int),
        mix_mireds(0, 255) == Some(153int),
{
    assert(1_000_000int / 370 == 2702);
    assert(cold_share(2702) == 0);
    assert(1_000_000int / 153 == 6535);
    assert(cold_share(6500) == 100);
    assert(1_000_000int / 2700 == 370);
    assert(1_000_000int / 6500 == 153);
}

// ------------------------------------------------------------ hue and saturation

pub open spec fn max3(r: int, g: int, b: int) -> int {
    let m = if r > g {
        r
    } else {
        g
    };
    if b > m {
        b
    } else {
        m
    }
}

pub open spec fn min3(r: int, g: int, b: int) -> int {
    let m = if r < g {
        r
    } else {
        g
    };
    if b < m {
        b
    } else {
        m
    }
}

/// The hue in sixths of the circle, as a numerator over the chroma.
pub open spec fn hue_numerator(r: int, g: int, b: int) -> int {
    let max = max3(r, g, b);
    let delta = max - min3(r, g, b);
    if max == r {
        if g < b {
            g - b + 6 * delta
        } else {
            g - b
        }
    } else if max == g {
        b - r + 2 * delta
    } else {
        r - g + 4 * delta
    }
}

/// The fraction `n / d` to nearest, halves up.
pub open spec fn to_nearest(n: int, d: int) -> int {
    (2 * n + d) / (2 * d)
}

/// The exact hue on a scale of 254 steps around the circle, to the nearest step.
pub open spec fn nearest_hue(r: int, g: int, b: int) -> int {
    let delta = max3(r, g, b) - min3(r, g, b);
    if delta == 0 {
        0
    } else {
        to_nearest(254 * hue_numerator(r, g, b), 6 * delta)
    }
}

/// The exact saturation on a scale of 254 steps, to the nearest step.
pub open spec fn nearest_sat(r: int, g: int, b: int) -> int {
    let max = max3(r, g, b);
    if max == 0 {
        0
    } else {
        to_nearest(254 * (max - min3(r, g, b)), max)
    }
}

// The conversion is made in single precision: every step below is rounded.

/// A channel as a fraction of full.
pub open spec fn fraction(v: int) -> nat {
    rounded((v * ONE) as nat, 255)
}

pub open spec fn greatest(a: nat, b: nat, c: nat) -> nat {
    let m = if a > b {
        a
    } else {
        b
    };
    if c > m {
        c
    } else {
        m
    }
}

pub open spec fn least(a: nat, b: nat, c: nat) -> nat {
    let m = if a < b {
        a
    } else {
        b
    };
    if c < m {
        c
    } else {
        m
    }
}

/// The distance of two numbers.
pub open spec fn apart(a: nat, b: nat) -> nat {
    rounded(if a < b {
        (b - a) as nat
    } else {
        (a - b) as nat
    }, 1)
}

/// `from` moved by `by`, down or up; never below zero.
pub open spec fn moved(from: nat, by: nat, down: bool) -> nat {
    rounded(if !down {
        from + by
    } else if by < from {
        (from - by) as nat
    } else {
        0
    }, 1)
}

/// The chroma of a color.
pub open spec fn chroma(r: int, g: int, b: int) -> nat {
    let (x, y, z) = (fraction(r), fraction(g), fraction(b));
    rounded((greatest(x, y, z) - least(x, y, z)) as nat, 1)
}

/// The hue in degrees.
pub open spec fn hue_degrees(r: int, g: int, b: int) -> nat {
    let (x, y, z) = (fraction(r), fraction(g), fraction(b));
    let max = greatest(x, y, z);
    let delta = chroma(r, g, b);
    if delta == 0 {
        0
    } else if max == x {
        let h = rounded(60 * rounded(apart(y, z) * (ONE as nat), delta), 1);
        if y < z {
            moved(360 * (ONE as nat), h, true)
        } else {
            h
        }
    } else if max == y {
        let t = rounded(apart(z, x) * (ONE as nat), delta);
        rounded(60 * moved(2 * (ONE as nat), t, z < x), 1)
    } else {
        let t = rounded(apart(x, y) * (ONE as nat), delta);
        rounded(60 * moved(4 * (ONE as nat), t, x < y), 1)
    }
}

/// A number to the nearest whole one, halves up, and at most 254.
pub open spec fn step_of(v: nat) -> int {
    let n = (2 * v + ONE) / (2 * ONE as int);
    if n < 254 {
        n
    } else {
        254
    }
}

/// The hue on a scale of 254 steps around the circle.
pub open spec fn hue_254(r: int, g: int, b: int) -> int {
    step_of(rounded(254 * rounded(hue_degrees(r, g, b), 360), 1))
}

/// The saturation on a scale of 254 steps.
pub open spec fn sat_254(r: int, g: int, b: int) -> int {
    let max = greatest(fraction(r), fraction(g), fraction(b));
    if max == 0 {
        0
    } else {
        step_of(rounded(254 * rounded(chroma(r, g, b) * (ONE as nat), max), 1))
    }
}

proof fn lemma_nearest_bound(n: int, d: int, top: int)
    requires
        0 <= n <= top * d,
        d > 0,
        top >= 0,
    ensures
        0 <= to_nearest(n, d) <= top,
{
    let q = (2 * n + d) / (2 * d);
    assert(q * (2 * d) <= 2 * n + d && 2 * n + d < (q + 1) * (2 * d)) by (nonlinear_arith)
        requires
            q == (2 * n + d) / (2 * d),
            d > 0,
            n >= 0,
    ;
    assert(q <= top) by (nonlinear_arith)
        requires
            q * (2 * d) <= 2 * n + d,
            n <= top * d,
            d > 0,
    ;
    assert(q >= 0) by (nonlinear_arith)
        requires
            2 * n + d < (q + 1) * (2 * d),
            d > 0,
            n >= 0,
    ;
}

fn fraction_of(v: u8) -> (r: u128)
    ensures
        r == fraction(v as int),
        r <= 2 * ONE + 1,
{
    round(v as u128 * ONE, 255)
}

fn apart_of(a: u128, b: u128) -> (r: u128)
    requires
        a <= 2 * ONE + 1,
        b <= 2 * ONE + 1,
    ensures
        r == apart(a as nat, b as nat),
        r <= 4 * ONE + 3,
{
    if a < b {
        round(b - a, 1)
    } else {
        round(a - b, 1)
    }
}

fn move_by(from: u128, by: u128, down: bool) -> (r: u128)
    requires
        from <= 360 * ONE,
        by <= 0x100_0000_0000_0000_0000_0000_0000,
    ensures
        r == moved(from as nat, by as nat, down),
        r <= 2 * (from + by) + 1,
{
    if !down {
        round(from + by, 1)
    } else if by < from {
        round(from - by, 1)
    } else {
        round(0, 1)
    }
}

/// The share of a distance in the chroma.
fn share_of(distance: u128, delta: u128) -> (r: u128)
    requires
        distance <= 4 * ONE + 3,
        0 < delta <= 4 * ONE + 3,
    ensures
        r == rounded(distance as nat * (ONE as nat), delta as nat),
        r <= 0x20_0000_0000_0000_0000_0000,
{
    let n: u128 = distance * ONE;
    proof {
        lemma_quotient(n as int, delta as int);
    }
    round(n, delta)
}

proof fn lemma_quotient(n: int, d: int)
    requires
        0 <= n,
        0 < d,
    ensures
        0 <= n / d <= n,
{
    assert(0 <= n / d <= n) by (nonlinear_arith)
        requires
            0 <= n,
            0 < d,
    ;
}

fn nearest_step(v: u128) -> (r: u8)
    requires
        v <= 0x100_0000_0000_0000_0000_0000_0000,
    ensures
        r == step_of(v as nat),
        r <= 254,
{
    let n: u128 = (2 * v + ONE) / (2 * ONE);
    if n < 254 {
        n as u8
    } else {
        254
    }
}

fn degrees(x: u128, y: u128, z: u128, max: u128, delta: u128) -> (r: u128)
    requires
        x <= 2 * ONE + 1,
        y <= 2 * ONE + 1,
        z <= 2 * ONE + 1,
        0 < delta <= 4 * ONE + 3,
    ensures
        r <= 0x10_0000_0000_0000_0000_0000_0000,
        r == (if max == x {
            let h = rounded(60 * rounded(apart(y as nat, z as nat) * (ONE as nat), delta as nat), 1);
            if y < z {
                moved(360 * (ONE as nat), h, true)
            } else {
                h
            }
        } else if max == y {
            let t = rounded(apart(z as nat, x as nat) * (ONE as nat), delta as nat);
            rounded(60 * moved(2 * (ONE as nat), t, z < x), 1)
        } else {
            let t = rounded(apart(x as nat, y as nat) * (ONE as nat), delta as nat);
            rounded(60 * moved(4 * (ONE as nat), t, x < y), 1)
        }),
{
    if max == x {
        let h: u128 = round(60 * share_of(apart_of(y, z), delta), 1);
        if y < z {
            move_by(360 * ONE, h, true)
        } else {
            h
        }
    } else if max == y {
        let t: u128 = share_of(apart_of(z, x), delta);
        round(60 * move_by(2 * ONE, t, z < x), 1)
    } else {
        let t: u128 = share_of(apart_of(x, y), delta);
        round(60 * move_by(4 * ONE, t, x < y), 1)
    }
}

/// Convert sRGB to a hue/saturation pair, each scaled to `0..=254`, as Matter's
/// ColorControl expects (hue over the circle, saturation over `0..=100%`), in single
/// precision.
///
/// The brightness of the color is discarded: brightness is a separate capability,
/// and a color command must not silently dim the bulb.
pub fn rgb_to_hue_sat_254(r: u8, g: u8, b: u8) -> (out: (u8, u8))
    ensures
        out.0 == hue_254(r as int, g as int, b as int),
        out.1 == sat_254(r as int, g as int, b as int),
        out.0 <= 254,
        out.1 <= 254,
{
    let (x, y, z): (u128, u128, u128) = (fraction_of(r), fraction_of(g), fraction_of(b));
    let m: u128 = if x > y {
        x
    } else {
        y
    };
    let max: u128 = if z > m {
        z
    } else {
        m
    };
    let l: u128 = if x < y {
        x
    } else {
        y
    };
    let min: u128 = if z < l {
        z
    } else {
        l
    };
    let delta: u128 = round(max - min, 1);
    let hue_deg: u128 = if delta == 0 {
        0
    } else {
        degrees(x, y, z, max, delta)
    };
    proof {
        lemma_quotient(hue_deg as int, 360);
    }
    let hue: u8 = nearest_step(round(254 * round(hue_deg, 360), 1));
    let sat: u8 = if max == 0 {
        0
    } else {
        nearest_step(round(254 * share_of(delta, max), 1))
    };
    (hue, sat)
}

/// The level of a channel that a hue does not touch: 255 at no saturation, 0 at
/// full.
pub open spec fn low_channel(sat: int) -> int {
    if sat > 254 {
        0
    } else {
        to_nearest(255 * (254 - sat), 254)
    }
}

/// The level of the channel between the low and the full one.
pub open spec fn mid_channel(hue: int, sat: int) -> int {
    let sector = hue * 6 / 254;
    let rem = hue * 6 % 254;
    let f = if sector % 2 == 0 {
        rem
    } else {
        254 - rem
    };
    let n = 255 * (sat * f + 254 * (254 - sat));
    if n < 0 {
        0
    } else {
        to_nearest(n, 64516)
    }
}

/// The color of a hue and saturation at full brightness.
pub open spec fn full_color(hue: int, sat: int) -> (int, int, int) {
    let sector = hue * 6 / 254;
    let x = mid_channel(hue, sat);
    let z = low_channel(sat);
    if sector == 0 {
        (255, x, z)
    } else if sector == 1 {
        (x, 255, z)
    } else if sector == 2 {
        (z, 255, x)
    } else if sector == 3 {
        (z, x, 255)
    } else if sector == 4 {
        (x, z, 255)
    } else {
        (255, z, x)
    }
}

/// Convert a hue/saturation pair (each `0..=254`) back to sRGB at full brightness:
/// the inverse of [`rgb_to_hue_sat_254`]. Because brightness is dropped on the way
/// out, it is assumed maximal on the way back.
pub fn hue_sat_254_to_rgb(hue: u8, sat: u8) -> (out: (u8, u8, u8))
    ensures
        out.0 == full_color(hue as int, sat as int).0,
        out.1 == full_color(hue as int, sat as int).1,
        out.2 == full_color(hue as int, sat as int).2,
{
    let (h, s): (i32, i32) = (hue as i32, sat as i32);
    let sector: i32 = h * 6 / 254;
    let rem: i32 = h * 6 % 254;
    let f: i32 = if sector % 2 == 0 {
        rem
    } else {
        254 - rem
    };
    assert(0 <= f <= 254);
    assert(0 <= s * f <= s * 254) by (nonlinear_arith)
        requires
            0 <= f <= 254,
            0 <= s,
    ;
    let n: i32 = 255 * (s * f + 254 * (254 - s));
    let x: i32 = if n < 0 {
        0
    } else {
        proof {
            lemma_nearest_bound(n as int, 64516, 255);
        }
        (2 * n + 64516) / (2 * 64516)
    };
    let z: i32 = if s > 254 {
        0
    } else {
        proof {
            lemma_nearest_bound(255 * (254 - s), 254, 255);
        }
        (2 * (255 * (254 - s)) + 254) / (2 * 254)
    };
    let (full, mid, low): (u8, u8, u8) = (255, x as u8, z as u8);
    if sector == 0 {
        (full, mid, low)
    } else if sector == 1 {
        (mid, full, low)
    } else if sector == 2 {
        (low, full, mid)
    } else if sector == 3 {
        (low, mid, full)
    } else if sector == 4 {
        (mid, low, full)
    } else {
        (full, low, mid)
    }
}

/// A shade of gray has neither hue nor saturation.
pub proof fn gray_has_no_saturation(v: int)
    ensures
        sat_254(v, v, v) == 0,
        hue_254(v, v, v) == 0,
{
    let x = fraction(v);
    lemma_zero(1);
    lemma_zero(360);
    assert(chroma(v, v, v) == 0);
    assert(hue_degrees(v, v, v) == 0);
    assert(step_of(0) == 0) by {
        assert(ONE == 1_099_511_627_776);
        assert(1_099_511_627_776int / 2_199_023_255_552int == 0);
    }
    if x > 0 {
        lemma_zero(x);
        let share = rounded(chroma(v, v, v) * (ONE as nat), x);
        assert(share == 0);
        assert(rounded(254 * share, 1) == 0);
        assert(greatest(x, x, x) == x);
    }
}

/// Scaling a color by a whole factor changes neither its exact hue nor its exact
/// saturation.
proof fn lemma_scaled_color(r: int, g: int, b: int, k: int)
    requires
        0 <= r,
        0 <= g,
        0 <= b,
        k >= 1,
    ensures
        nearest_hue(k * r, k * g, k * b) == nearest_hue(r, g, b),
        nearest_sat(k * r, k * g, k * b) == nearest_sat(r, g, b),
        max3(k * r, k * g, k * b) == k * max3(r, g, b),
        min3(k * r, k * g, k * b) == k * min3(r, g, b),
        hue_numerator(k * r, k * g, k * b) == k * hue_numerator(r, g, b),
{
    let max = max3(r, g, b);
    let min = min3(r, g, b);
    let delta = max - min;
    lemma_scaled_order(r, g, k);
    lemma_scaled_order(g, b, k);
    lemma_scaled_order(r, b, k);
    assert(max3(k * r, k * g, k * b) == k * max);
    assert(min3(k * r, k * g, k * b) == k * min);
    assert(k * max - k * min == k * delta) by (nonlinear_arith)
        requires
            delta == max - min,
    ;
    let n = hue_numerator(r, g, b);
    assert(hue_numerator(k * r, k * g, k * b) == k * n) by {
        assert(k * r - k * g == k * (r - g)) by (nonlinear_arith);
        assert(k * g - k * b == k * (g - b)) by (nonlinear_arith);
        assert(k * b - k * r == k * (b - r)) by (nonlinear_arith);
        assert(k * (g - b + 6 * delta) == k * (g - b) + 6 * (k * delta)) by (nonlinear_arith);
        assert(k * (b - r + 2 * delta) == k * (b - r) + 2 * (k * delta)) by (nonlinear_arith);
        assert(k * (r - g + 4 * delta) == k * (r - g) + 4 * (k * delta)) by (nonlinear_arith);
    }
    if delta > 0 {
        lemma_nearest_scales(254 * n, 6 * delta, k);
        assert(k * (254 * n) == 254 * (k * n)) by (nonlinear_arith);
        assert(k * (6 * delta) == 6 * (k * delta)) by (nonlinear_arith);
        assert(k * delta > 0) by (nonlinear_arith)
            requires
                k >= 1,
                delta > 0,
        ;
    } else {
        assert(k * delta == 0) by (nonlinear_arith)
            requires
                delta == 0,
        ;
    }
    if max > 0 {
        lemma_nearest_scales(254 * delta, max, k);
        assert(k * (254 * delta) == 254 * (k * delta)) by (nonlinear_arith);
        assert(k * max > 0) by (nonlinear_arith)
            requires
                k >= 1,
                max > 0,
        ;
    } else {
        assert(k * max == 0) by (nonlinear_arith)
            requires
                max == 0,
        ;
    }
}

proof fn lemma_scaled_order(x: int, y: int, k: int)
    requires
        k >= 1,
    ensures
        k * x < k * y <==> x < y,
        k * x == k * y <==> x == y,
{
    assert(k * x < k * y <==> x < y) by (nonlinear_arith)
        requires
            k >= 1,
    ;
    assert(k * x == k * y <==> x == y) by (nonlinear_arith)
        requires
            k >= 1,
    ;
}

proof fn lemma_nearest_scales(n: int, d: int, k: int)
    requires
        n >= 0,
        d > 0,
        k >= 1,
    ensures
        to_nearest(k * n, k * d) == to_nearest(n, d),
{
    let a = 2 * n + d;
    let c = 2 * d;
    assert(2 * (k * n) + k * d == k * a) by (nonlinear_arith)
        requires
            a == 2 * n + d,
    ;
    assert(2 * (k * d) == k * c) by (nonlinear_arith)
        requires
            c == 2 * d,
    ;
    vstd::arithmetic::div_mod::lemma_div_multiples_vanish_quotient(k, a, c);
}

// ------------------------------------------------------------ precision

proof fn lemma_fraction(v: int)
    requires
        0 <= v <= 255,
    ensures
        16_777_216 * (255 * fraction(v)) <= 16_777_216 * (v * ONE) + v * ONE,
        16_777_216 * (v * ONE) <= 16_777_216 * (255 * fraction(v)) + v * ONE,
{
    lemma_near((v * ONE) as nat, 255);
}

/// The fractions are ordered as the channels are.
proof fn lemma_fraction_order(v: int, w: int)
    requires
        0 <= v < w <= 255,
    ensures
        fraction(v) < fraction(w),
{
    lemma_fraction(v);
    lemma_fraction(w);
}

proof fn lemma_extremes(r: int, g: int, b: int)
    requires
        0 <= r <= 255,
        0 <= g <= 255,
        0 <= b <= 255,
    ensures
        greatest(fraction(r), fraction(g), fraction(b)) == fraction(max3(r, g, b)),
        least(fraction(r), fraction(g), fraction(b)) == fraction(min3(r, g, b)),
{
    if r < g {
        lemma_fraction_order(r, g);
    } else if g < r {
        lemma_fraction_order(g, r);
    }
    if r < b {
        lemma_fraction_order(r, b);
    } else if b < r {
        lemma_fraction_order(b, r);
    }
    if g < b {
        lemma_fraction_order(g, b);
    } else if b < g {
        lemma_fraction_order(b, g);
    }
}

/// The distance of two channels, against the exact one.
proof fn lemma_apart(v: int, w: int)
    requires
        0 <= v < w <= 255,
    ensures
        ({
            let d = apart(fraction(v), fraction(w));
            &&& 16_777_216 * (255 * d) <= 16_777_216 * ((w - v) * ONE) + (2 * w + 1) * ONE
            &&& 16_777_216 * ((w - v) * ONE) <= 16_777_216 * (255 * d) + (2 * w + 1) * ONE
            &&& d >= 2_147_483_648
            &&& d == apart(fraction(w), fraction(v))
        }),
{
    lemma_fraction(v);
    lemma_fraction(w);
    lemma_fraction_order(v, w);
    let gap = (fraction(w) - fraction(v)) as nat;
    assert(gap >= 4_000_000_000);
    lemma_near(gap, 1);
}

/// A quotient of distances on a scale, against the exact one: with `a` near `n / 255`
/// and `d` near `m / 255`, the rounded quotient is near `n / m`.
proof fn lemma_share(a: nat, d: nat)
    requires
        a == 0 || a >= 2_147_483_648,
        a <= 2 * ONE,
        2_147_483_648 <= d <= 2 * ONE,
    ensures
        ({
            let q = rounded(a * (ONE as nat), d);
            &&& 16_777_216 * (d * q) <= 16_777_216 * (a * ONE) + a * ONE
            &&& 16_777_216 * (a * ONE) <= 16_777_216 * (d * q) + a * ONE
            &&& a > 0 ==> q >= 536_870_912
            &&& a == 0 ==> q == 0
        }),
{
    let n = a * (ONE as nat);
    if a == 0 {
        lemma_zero(d);
        assert(d * 0 == 0);
    } else {
        assert(n >= 16_777_216 * d);
        lemma_near(n, d);
        let q = rounded(n, d);
        assert(q >= 536_870_912) by (nonlinear_arith)
            requires
                16_777_216 * n <= 16_777_216 * (d * q) + n,
                n >= 2_147_483_648 * 1_099_511_627_776,
                d <= 2 * 1_099_511_627_776,
        ;
    }
}

/// The saturation is the nearest step to the exact one, unless that lies right between
/// two steps.
pub proof fn saturation_is_the_nearest(r: int, g: int, b: int)
    requires
        0 <= r <= 255,
        0 <= g <= 255,
        0 <= b <= 255,
        max3(r, g, b) > 0 ==> (508 * (max3(r, g, b) - min3(r, g, b))) % (2 * max3(r, g, b))
            != max3(r, g, b),
    ensures
        sat_254(r, g, b) == nearest_sat(r, g, b),
{
    let top = max3(r, g, b);
    let low = min3(r, g, b);
    let delta = top - low;
    lemma_extremes(r, g, b);
    lemma_fraction(top);
    let a = fraction(top);
    if top == 0 {
        lemma_zero(255);
        assert(a == 0);
    } else if delta == 0 {
        gray_has_no_saturation(r);
        assert(to_nearest(0, top) == 0) by {
            lemma_nearest_bound(0, top, 0);
        }
    } else {
        lemma_apart(low, top);
        lemma_fraction_order(low, top);
        let d = chroma(r, g, b);
        assert(d == apart(fraction(low), a));
        lemma_share(d, a);
        let q = rounded(d * (ONE as nat), a);
        lemma_near(254 * q, 1);
        let t = rounded(254 * q, 1);
        lemma_sat_error(top, delta, a, d, q, t);
        lemma_step(254 * delta, top, t);
        lemma_nearest_bound(254 * delta, top, 254);
    }
}

/// The accumulated error of a saturation, against `254 * delta / top`.
proof fn lemma_sat_error(top: int, delta: int, a: nat, d: nat, q: nat, t: nat)
    requires
        0 < delta <= top <= 255,
        16_777_216 * (255 * a) <= 16_777_216 * (top * ONE) + top * ONE,
        16_777_216 * (top * ONE) <= 16_777_216 * (255 * a) + top * ONE,
        16_777_216 * (255 * d) <= 16_777_216 * (delta * ONE) + (2 * top + 1) * ONE,
        16_777_216 * (delta * ONE) <= 16_777_216 * (255 * d) + (2 * top + 1) * ONE,
        16_777_216 * (a * q) <= 16_777_216 * (d * ONE) + d * ONE,
        16_777_216 * (d * ONE) <= 16_777_216 * (a * q) + d * ONE,
        16_777_216 * t <= 16_777_216 * (254 * q) + 254 * q,
        16_777_216 * (254 * q) <= 16_777_216 * t + 254 * q,
    ensures
        2 * (t * top) < 2 * (254 * delta * ONE) + ONE,
        2 * (254 * delta * ONE) < 2 * (t * top) + ONE,
{
    let p = a * q;
    let w = a * t;
    let v = t * top;
    // The rounding of the last product, seen through the divisor.
    assert(16_777_216 * w <= 16_777_216 * (254 * p) + 254 * p) by (nonlinear_arith)
        requires
            w == a * t,
            p == a * q,
            16_777_216 * t <= 16_777_216 * (254 * q) + 254 * q,
    ;
    assert(16_777_216 * (254 * p) <= 16_777_216 * w + 254 * p) by (nonlinear_arith)
        requires
            w == a * t,
            p == a * q,
            16_777_216 * (254 * q) <= 16_777_216 * t + 254 * q,
    ;
    // The rounding of the divisor, seen through the product.
    assert(16_777_216 * (255 * w) <= 16_777_216 * (v * ONE) + v * ONE) by (nonlinear_arith)
        requires
            w == a * t,
            v == t * top,
            16_777_216 * (255 * a) <= 16_777_216 * (top * ONE) + top * ONE,
    ;
    assert(16_777_216 * (v * ONE) <= 16_777_216 * (255 * w) + v * ONE) by (nonlinear_arith)
        requires
            w == a * t,
            v == t * top,
            16_777_216 * (top * ONE) <= 16_777_216 * (255 * a) + top * ONE,
    ;
    // What is left is linear.
    assert(16_777_216 * w <= 16_777_216 * (254 * (d * ONE)) + 762 * (d * ONE));
    assert(16_777_216 * (254 * (d * ONE)) <= 16_777_216 * w + 762 * (d * ONE));
}

/// A number near a fraction that does not lie between two steps is rounded as the
/// fraction is.
proof fn lemma_step(n: int, d: int, t: nat)
    requires
        0 <= n <= 254 * d,
        0 < d,
        (2 * n) % (2 * d) != d,
        2 * (t * d) < 2 * (n * ONE) + ONE,
        2 * (n * ONE) < 2 * (t * d) + ONE,
    ensures
        step_of(t) == to_nearest(n, d),
{
    let k = to_nearest(n, d);
    lemma_nearest_bound(n, d, 254);
    let kd = k * d;
    assert(2 * kd <= 2 * n + d && 2 * n + d < 2 * kd + 2 * d) by (nonlinear_arith)
        requires
            k == (2 * n + d) / (2 * d),
            d > 0,
            n >= 0,
            kd == k * d,
    ;
    assert(2 * n + d != 2 * kd) by {
        if 2 * n + d == 2 * kd {
            assert(2 * n == (k - 1) * (2 * d) + d) by (nonlinear_arith)
                requires
                    2 * n + d == 2 * kd,
                    kd == k * d,
            ;
            vstd::arithmetic::div_mod::lemma_fundamental_div_mod_converse(2 * n, 2 * d, k - 1, d);
        }
    }
    assert(2 * (t * d) > (2 * kd - d) * ONE);
    assert(2 * (t * d) < (2 * kd + d) * ONE);
    let one = ONE as int;
    let ko = k * one;
    assert(2 * t > 2 * ko - one) by (nonlinear_arith)
        requires
            2 * (t * d) > (2 * kd - d) * one,
            kd == k * d,
            ko == k * one,
            d > 0,
    ;
    assert(2 * t < 2 * ko + one) by (nonlinear_arith)
        requires
            2 * (t * d) < (2 * kd + d) * one,
            kd == k * d,
            ko == k * one,
            d > 0,
    ;
    assert(k * (2 * one) == 2 * ko) by (nonlinear_arith)
        requires
            ko == k * one,
    ;
    vstd::arithmetic::div_mod::lemma_fundamental_div_mod_converse(
        2 * t + one,
        2 * one,
        k,
        2 * t + one - 2 * ko,
    );
}

/// A bound on a rounding, multiplied.
proof fn lemma_times(k: int, y: int, x: int)
    requires
        0 <= k,
        16_777_216 * y <= 16_777_216 * x + x,
        16_777_216 * x <= 16_777_216 * y + x,
    ensures
        16_777_216 * (k * y) <= 16_777_216 * (k * x) + k * x,
        16_777_216 * (k * x) <= 16_777_216 * (k * y) + k * x,
{
    assert(16_777_216 * (k * y) <= 16_777_216 * (k * x) + k * x) by (nonlinear_arith)
        requires
            0 <= k,
            16_777_216 * y <= 16_777_216 * x + x,
    ;
    assert(16_777_216 * (k * x) <= 16_777_216 * (k * y) + k * x) by (nonlinear_arith)
        requires
            0 <= k,
            16_777_216 * x <= 16_777_216 * y + x,
    ;
}

/// The share of the distance of two channels in the chroma, against the exact one.
proof fn lemma_ratio(v: int, w: int, low: int, top: int)
    requires
        0 <= low <= v <= top <= 255,
        low <= w <= top,
        low < top,
    ensures
        ({
            let delta = top - low;
            let n = if v < w {
                w - v
            } else {
                v - w
            };
            let x = rounded(
                apart(fraction(v), fraction(w)) * (ONE as nat),
                apart(fraction(low), fraction(top)),
            );
            &&& 16_777_216 * (delta * x) <= 16_777_216 * (n * ONE) + 1789 * ONE
            &&& 16_777_216 * (n * ONE) <= 16_777_216 * (delta * x) + 1789 * ONE
            &&& x <= ONE + ONE / 2
            &&& x == 0 || x >= 536_870_912
            &&& n == 0 ==> x == 0
        }),
{
    let delta = top - low;
    let n = if v < w {
        w - v
    } else {
        v - w
    };
    let p = apart(fraction(v), fraction(w));
    let d = apart(fraction(low), fraction(top));
    lemma_apart(low, top);
    if v < w {
        lemma_apart(v, w);
    } else if w < v {
        lemma_apart(w, v);
    } else {
        lemma_zero(1);
    }
    lemma_share(p, d);
    let x = rounded(p * (ONE as nat), d);
    let dx = d * x;
    let k = delta * x;
    assert(8 * p <= 9 * d);
    assert(x <= ONE + ONE / 2) by (nonlinear_arith)
        requires
            dx == d * x,
            16_777_216 * dx <= 16_777_216 * (p * ONE) + p * ONE,
            8 * p <= 9 * d,
            d > 0,
    ;
    let one = ONE as int;
    assert(16_777_216 * (255 * dx) <= 16_777_216 * (k * one) + 511 * (x * one)) by (nonlinear_arith)
        requires
            dx == d * x,
            k == delta * x,
            16_777_216 * (255 * d) <= 16_777_216 * (delta * one) + (2 * top + 1) * one,
            top <= 255,
            x >= 0,
            one > 0,
    ;
    assert(16_777_216 * (k * one) <= 16_777_216 * (255 * dx) + 511 * (x * one)) by (nonlinear_arith)
        requires
            dx == d * x,
            k == delta * x,
            16_777_216 * (delta * one) <= 16_777_216 * (255 * d) + (2 * top + 1) * one,
            top <= 255,
            x >= 0,
            one > 0,
    ;
}

/// The hue in degrees, against the exact one.
#[verifier::rlimit(60)]
#[verifier::spinoff_prover]
proof fn lemma_degrees(r: int, g: int, b: int)
    requires
        0 <= r <= 255,
        0 <= g <= 255,
        0 <= b <= 255,
        min3(r, g, b) < max3(r, g, b),
    ensures
        ({
            let delta = max3(r, g, b) - min3(r, g, b);
            let h = hue_degrees(r, g, b);
            let n = hue_numerator(r, g, b);
            &&& 16_777_216 * (delta * h) <= 16_777_216 * (60 * (n * ONE)) + 310_000 * ONE
            &&& 16_777_216 * (60 * (n * ONE)) <= 16_777_216 * (delta * h) + 310_000 * ONE
            &&& h == 0 || h >= 16_777_216 * 360
            &&& h <= 400 * ONE
        }),
{
    let top = max3(r, g, b);
    let low = min3(r, g, b);
    let delta = top - low;
    let one = ONE as int;
    lemma_extremes(r, g, b);
    lemma_fraction_order(low, top);
    lemma_apart(low, top);
    assert(chroma(r, g, b) == apart(fraction(low), fraction(top)));
    if r < g {
        lemma_fraction_order(r, g);
    } else if g < r {
        lemma_fraction_order(g, r);
    }
    if r < b {
        lemma_fraction_order(r, b);
    } else if b < r {
        lemma_fraction_order(b, r);
    }
    if g < b {
        lemma_fraction_order(g, b);
    } else if b < g {
        lemma_fraction_order(b, g);
    }
    let d = chroma(r, g, b);
    if top == r {
        lemma_ratio(g, b, low, top);
        let x = rounded(apart(fraction(g), fraction(b)) * (ONE as nat), d);
        lemma_sixty(x, delta);
        let h = rounded(60 * x, 1);
        if g < b {
            let rest = (360 * one - h) as nat;
            lemma_near(rest, 1);
            lemma_times(delta, rounded(rest, 1) as int, rest as int);
            assert(delta * rest == 360 * (delta * one) - delta * h) by (nonlinear_arith)
                requires
                    rest == 360 * one - h,
            ;
        }
    } else if top == g {
        lemma_ratio(b, r, low, top);
        let t = rounded(apart(fraction(b), fraction(r)) * (ONE as nat), d);
        lemma_moved(2, t, b < r, delta);
    } else {
        lemma_ratio(r, g, low, top);
        let t = rounded(apart(fraction(r), fraction(g)) * (ONE as nat), d);
        lemma_moved(4, t, r < g, delta);
    }
}

proof fn lemma_sixty(x: nat, delta: int)
    requires
        0 <= delta <= 255,
        x == 0 || x >= 536_870_912,
    ensures
        ({
            let h = rounded(60 * x, 1);
            &&& 16_777_216 * (delta * h) <= 16_777_216 * (60 * (delta * x)) + 60 * (delta * x)
            &&& 16_777_216 * (60 * (delta * x)) <= 16_777_216 * (delta * h) + 60 * (delta * x)
            &&& x == 0 ==> h == 0
            &&& x > 0 ==> h >= 16_777_216 * 360
            &&& 16_777_216 * h <= 16_777_217 * (60 * x)
        }),
{
    lemma_near(60 * x, 1);
    let h = rounded(60 * x, 1);
    if x == 0 {
        lemma_zero(1);
    }
    lemma_times(delta, h as int, (60 * x) as int);
    assert(delta * (60 * x) == 60 * (delta * x)) by (nonlinear_arith);
}

proof fn lemma_moved(base: nat, t: nat, down: bool, delta: int)
    requires
        base == 2 || base == 4,
        0 <= delta <= 255,
        t <= ONE + ONE / 2,
        t == 0 || t >= 536_870_912,
    ensures
        ({
            let h = rounded(60 * moved(base * (ONE as nat), t, down), 1);
            let exact = 60 * (base * (delta * ONE) + if down {
                -(delta * t)
            } else {
                delta * t
            });
            &&& 16_777_216 * (delta * h) <= 16_777_216 * exact + 200_000 * ONE
            &&& 16_777_216 * exact <= 16_777_216 * (delta * h) + 200_000 * ONE
            &&& h >= 16_777_216 * 360
            &&& h <= 400 * ONE
        }),
{
    let one = ONE as int;
    let from = base * (ONE as nat);
    let sum = if down {
        (from - t) as nat
    } else {
        from + t
    };
    assert(base * (delta * one) == if base == 2 {
        2 * (delta * one)
    } else {
        4 * (delta * one)
    });
    lemma_near(sum, 1);
    let y = moved(from, t, down);
    assert(y == rounded(sum, 1));
    lemma_times(delta, y as int, sum as int);
    lemma_sixty(y, delta);
    if down {
        assert(delta * sum == base * (delta * one) - delta * t) by (nonlinear_arith)
            requires
                sum == base * one - t,
        ;
    } else {
        assert(delta * sum == base * (delta * one) + delta * t) by (nonlinear_arith)
            requires
                sum == base * one + t,
        ;
    }
    assert(delta * t <= 255 * (one + one / 2)) by (nonlinear_arith)
        requires
            0 <= delta <= 255,
            t <= one + one / 2,
            one > 0,
    ;
    assert(0 <= delta * t) by (nonlinear_arith)
        requires
            0 <= delta,
            0 <= t,
    ;
}

/// The hue is the nearest step to the exact one, unless that lies right between two
/// steps.
pub proof fn hue_is_the_nearest(r: int, g: int, b: int)
    requires
        0 <= r <= 255,
        0 <= g <= 255,
        0 <= b <= 255,
        ({
            let delta = max3(r, g, b) - min3(r, g, b);
            delta > 0 ==> (508 * hue_numerator(r, g, b)) % (12 * delta) != 6 * delta
        }),
    ensures
        hue_254(r, g, b) == nearest_hue(r, g, b),
{
    let delta = max3(r, g, b) - min3(r, g, b);
    if delta == 0 {
        gray_has_no_saturation(r);
    } else {
        lemma_degrees(r, g, b);
        let one = ONE as int;
        let n = hue_numerator(r, g, b);
        let h = hue_degrees(r, g, b);
        lemma_near(h, 360);
        let z = rounded(h, 360);
        if h == 0 {
            lemma_zero(360);
            lemma_zero(1);
        }
        lemma_near(254 * z, 1);
        let t = rounded(254 * z, 1);
        lemma_times(delta, t as int, (254 * z) as int);
        lemma_times(delta, (360 * z) as int, h as int);
        assert(delta * (254 * z) == 254 * (delta * z)) by (nonlinear_arith);
        assert(delta * (360 * z) == 360 * (delta * z)) by (nonlinear_arith);
        assert(t * (6 * delta) == 6 * (delta * t)) by (nonlinear_arith);
        assert(delta * h <= 255 * (400 * one)) by (nonlinear_arith)
            requires
                0 <= delta <= 255,
                h <= 400 * one,
                one > 0,
        ;
        assert(0 <= n <= 6 * delta);
        lemma_step(254 * n, 6 * delta, t);
    }
}

/// Whether the exact hue or saturation of a color lies right between two steps.
pub open spec fn is_between_steps(r: int, g: int, b: int) -> bool {
    let top = max3(r, g, b);
    let delta = top - min3(r, g, b);
    ||| top > 0 && (508 * delta) % (2 * top) == top
    ||| delta > 0 && (508 * hue_numerator(r, g, b)) % (12 * delta) == 6 * delta
}

proof fn lemma_scaled_remainder(a: int, b: int, k: int)
    requires
        0 <= a,
        0 < b,
        1 <= k,
    ensures
        (k * a) % (k * b) == k * (a % b),
{
    let q = a / b;
    let m = a % b;
    vstd::arithmetic::div_mod::lemma_fundamental_div_mod(a, b);
    assert(a == b * q + m && 0 <= m < b);
    assert(k * a == q * (k * b) + k * m && 0 <= k * m < k * b) by (nonlinear_arith)
        requires
            a == b * q + m,
            0 <= m < b,
            1 <= k,
    ;
    vstd::arithmetic::div_mod::lemma_fundamental_div_mod_converse(k * a, k * b, q, k * m);
}

/// Brightness is discarded: a color and the same color at `k` times the brightness
/// have one hue and one saturation, unless these lie right between two steps.
pub proof fn brightness_is_discarded(r: int, g: int, b: int, k: int)
    requires
        0 <= r,
        0 <= g,
        0 <= b,
        k >= 1,
        k * max3(r, g, b) <= 255,
        !is_between_steps(r, g, b),
    ensures
        hue_254(k * r, k * g, k * b) == hue_254(r, g, b),
        sat_254(k * r, k * g, k * b) == sat_254(r, g, b),
{
    let top = max3(r, g, b);
    let delta = top - min3(r, g, b);
    let n = hue_numerator(r, g, b);
    lemma_scaled_color(r, g, b, k);
    assert(0 <= k * r <= 255 && 0 <= k * g <= 255 && 0 <= k * b <= 255 && top <= 255)
        by (nonlinear_arith)
        requires
            0 <= r <= top,
            0 <= g <= top,
            0 <= b <= top,
            k >= 1,
            k * top <= 255,
    ;
    assert(k * top - k * (top - delta) == k * delta) by (nonlinear_arith);
    if top > 0 {
        lemma_scaled_remainder(508 * delta, 2 * top, k);
        assert(k * (508 * delta) == 508 * (k * delta)) by (nonlinear_arith);
        assert(k * (2 * top) == 2 * (k * top)) by (nonlinear_arith);
        assert(k * ((508 * delta) % (2 * top)) != k * top) by (nonlinear_arith)
            requires
                (508 * delta) % (2 * top) != top,
                k >= 1,
        ;
    }
    if delta > 0 {
        lemma_scaled_remainder(508 * n, 12 * delta, k);
        assert(k * (508 * n) == 508 * (k * n)) by (nonlinear_arith);
        assert(k * (12 * delta) == 12 * (k * delta)) by (nonlinear_arith);
        assert(k * ((508 * n) % (12 * delta)) != 6 * (k * delta)) by (nonlinear_arith)
            requires
                (508 * n) % (12 * delta) != 6 * delta,
                k >= 1,
        ;
    } else {
        assert(k * delta == 0);
    }
    saturation_is_the_nearest(r, g, b);
    saturation_is_the_nearest(k * r, k * g, k * b);
    hue_is_the_nearest(r, g, b);
    hue_is_the_nearest(k * r, k * g, k * b);
}

} // verus!
