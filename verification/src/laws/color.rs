//! What colors and color temperatures are.

use vstd::prelude::*;

use crate::color::{
    cold_share, full_color, low_channel, max3, mid_channel, min3, mix_mireds, named_color,
    nearest_hue, nearest_sat, to_nearest, tunable_kelvin, warm_cold,
};
use crate::text::{digit, digit_value, hex_value};

verus! {

/// The ten digits count up from `0`, and each stands for its place.
pub proof fn digits_count_up(d: nat, c: char)
    ensures
        d < 10 ==> digit(d) as int == '0' as int + d,
        '0' <= c && c <= '9' ==> digit_value(c) == Some((c as int - '0' as int) as nat),
        c < '0' || c > '9' ==> digit_value(c) is None,
{
}

/// The letters from `a` to `f`, large or small, count on from ten.
pub proof fn hex_letters_count_on(c: char)
    ensures
        '0' <= c && c <= '9' ==> hex_value(c) == Some((c as int - '0' as int) as nat),
        'a' <= c && c <= 'f' ==> hex_value(c) == Some((10 + c as int - 'a' as int) as nat),
        'A' <= c && c <= 'F' ==> hex_value(c) == Some((10 + c as int - 'A' as int) as nat),
        hex_value(c) is Some ==> '0' <= c && c <= '9' || 'a' <= c && c <= 'f' || 'A' <= c && c
            <= 'F',
{
}

/// A color is written as two hexadecimal digits for each channel, red first, then green,
/// then blue; a `#` in front does not count.
pub proof fn colors_are_written_channel_by_channel(s: Seq<char>, r: u8, g: u8, b: u8)
    requires
        s.len() == 6,
        hex_value(s[0]) == Some((r / 16) as nat),
        hex_value(s[1]) == Some((r % 16) as nat),
        hex_value(s[2]) == Some((g / 16) as nat),
        hex_value(s[3]) == Some((g % 16) as nat),
        hex_value(s[4]) == Some((b / 16) as nat),
        hex_value(s[5]) == Some((b % 16) as nat),
    ensures
        named_color(s) == Some((r, g, b)),
        named_color(seq!['#'] + s) == Some((r, g, b)),
{
    let t = seq!['#'] + s;
    assert(t[0] == '#');
    assert(t.drop_first() =~= s);
    assert(s[0] != '#');
}

/// A text that does not hold six hexadecimal digits is no color.
pub proof fn other_texts_are_no_colors(s: Seq<char>)
    requires
        s.len() != 6 && s.len() != 7 || s.len() == 7 && s[0] != '#',
    ensures
        named_color(s) is None,
{
}

/// Of two color temperatures the warmer one, the one of more mireds, is mixed of no less
/// warm and no more cold white. The mix is as bright either way, all warm at the warm end
/// and all cold at the cold end.
pub proof fn warmer_is_warmer(mireds: int, warmer: int)
    requires
        1 <= mireds <= warmer,
    ensures
        0 <= warm_cold(mireds).0 <= warm_cold(warmer).0 <= 255,
        0 <= warm_cold(warmer).1 <= warm_cold(mireds).1 <= 255,
        254 <= warm_cold(mireds).0 + warm_cold(mireds).1 <= 255,
        mireds >= 370 ==> warm_cold(mireds) == (255int, 0int),
        mireds <= 153 ==> warm_cold(mireds) == (0int, 255int),
{
    let p = 1_000_000int / mireds;
    let q = 1_000_000int / warmer;
    assert(p >= q >= 0) by (nonlinear_arith)
        requires
            p == 1_000_000int / mireds,
            q == 1_000_000int / warmer,
            1 <= mireds <= warmer,
    ;
    if mireds >= 370 {
        assert(p <= 2702) by (nonlinear_arith)
            requires
                p == 1_000_000int / mireds,
                mireds >= 370,
        ;
    }
    if mireds <= 153 {
        assert(p >= 6535) by (nonlinear_arith)
            requires
                p == 1_000_000int / mireds,
                1 <= mireds <= 153,
        ;
    }
    let a = cold_share(tunable_kelvin(mireds));
    let b = cold_share(tunable_kelvin(warmer));
    assert(0 <= b <= a <= 100);
    assert(255 * (100 - a) / 100 + 255 * a / 100 >= 254);
}

/// A mix of warm and cold white is a temperature from the warmest to the coldest, the
/// warmest if it is all warm and the coldest if it is all cold. No mix is no temperature.
pub proof fn mixes_are_between_warm_and_cold(warm: int, cold: int)
    requires
        warm >= 0,
        cold >= 0,
    ensures
        warm == 0 && cold == 0 <==> mix_mireds(warm, cold) is None,
        warm > 0 || cold > 0 ==> 153 <= mix_mireds(warm, cold)->0 <= 370,
        warm > 0 && cold == 0 ==> mix_mireds(warm, cold) == Some(370int),
        warm == 0 && cold > 0 ==> mix_mireds(warm, cold) == Some(153int),
{
    if warm > 0 || cold > 0 {
        let share = cold * 100 / (warm + cold);
        assert(0 <= share <= 100) by (nonlinear_arith)
            requires
                share == cold * 100 / (warm + cold),
                warm >= 0,
                cold >= 0,
                warm + cold > 0,
        ;
        if cold == 0 {
            assert(share == 0) by (nonlinear_arith)
                requires
                    share == cold * 100 / (warm + cold),
                    cold == 0,
                    warm > 0,
            ;
        }
        if warm == 0 {
            assert(share == 100) by (nonlinear_arith)
                requires
                    share == cold * 100 / (warm + cold),
                    warm == 0,
                    cold > 0,
            ;
        }
        let kelvin = 2700 + 3800 * share / 100;
        assert(2700 <= kelvin <= 6500);
        assert(1_000_000int / 2700 == 370);
        assert(1_000_000int / 6500 == 153);
        assert(153 <= 1_000_000int / kelvin <= 370) by (nonlinear_arith)
            requires
                2700 <= kelvin <= 6500,
        ;
    }
}

/// The more cold white there is beside the same warm white, the fewer mireds.
pub proof fn colder_mixes_are_colder(warm: int, cold: int, colder: int)
    requires
        warm > 0,
        0 <= cold <= colder,
    ensures
        mix_mireds(warm, colder)->0 <= mix_mireds(warm, cold)->0,
{
    let s = cold * 100 / (warm + cold);
    let t = colder * 100 / (warm + colder);
    assert(cold * (warm + colder) <= colder * (warm + cold)) by (nonlinear_arith)
        requires
            warm > 0,
            0 <= cold <= colder,
    ;
    assert(s * (warm + cold) <= cold * 100) by (nonlinear_arith)
        requires
            s == cold * 100 / (warm + cold),
            warm + cold > 0,
    ;
    assert(colder * 100 < (t + 1) * (warm + colder)) by (nonlinear_arith)
        requires
            t == colder * 100 / (warm + colder),
            warm + colder > 0,
    ;
    assert(s <= t) by (nonlinear_arith)
        requires
            s * (warm + cold) <= cold * 100,
            colder * 100 < (t + 1) * (warm + colder),
            cold * (warm + colder) <= colder * (warm + cold),
            warm > 0,
            0 <= cold <= colder,
    ;
    assert(s >= 0) by (nonlinear_arith)
        requires
            s == cold * 100 / (warm + cold),
            warm + cold > 0,
            cold >= 0,
    ;
    let j = 2700 + 3800 * s / 100;
    let k = 2700 + 3800 * t / 100;
    assert(j <= k);
    assert(1_000_000int / k <= 1_000_000int / j) by (nonlinear_arith)
        requires
            0 < j <= k,
    ;
}

/// The hue says which channel is the strongest: it is in the third of the circle around
/// red, around green or around blue. Between two neighbours it leans to the stronger one.
pub proof fn hues_lean_to_the_strongest_channel(r: int, g: int, b: int)
    requires
        0 <= r <= 255,
        0 <= g <= 255,
        0 <= b <= 255,
    ensures
        0 <= nearest_hue(r, g, b) <= 254,
        r > g && g >= b ==> nearest_hue(r, g, b) <= 42,
        g >= r && r >= b && g > b ==> 42 <= nearest_hue(r, g, b) <= 85,
        g > b && b >= r ==> 85 <= nearest_hue(r, g, b) <= 127,
        b >= g && g >= r && b > r ==> 127 <= nearest_hue(r, g, b) <= 169,
        b > r && r >= g ==> 169 <= nearest_hue(r, g, b) <= 212,
        r >= b && b > g ==> nearest_hue(r, g, b) >= 212,
{
    let delta = max3(r, g, b) - min3(r, g, b);
    if delta > 0 {
        let n = crate::color::hue_numerator(r, g, b);
        let q = to_nearest(254 * n, 6 * delta);
        assert(q * (12 * delta) <= 508 * n + 6 * delta && 508 * n + 6 * delta < (q + 1) * (12
            * delta)) by (nonlinear_arith)
            requires
                q == (2 * (254 * n) + 6 * delta) / (2 * (6 * delta)),
                delta > 0,
        ;
        lemma_sector(q, n, delta);
    }
}

proof fn lemma_sector(q: int, n: int, delta: int)
    requires
        delta > 0,
        q * (12 * delta) <= 508 * n + 6 * delta,
        508 * n + 6 * delta < (q + 1) * (12 * delta),
    ensures
        n >= 0 ==> q >= 0,
        n <= delta ==> q <= 42,
        n >= delta ==> q >= 42,
        n <= 2 * delta ==> q <= 85,
        n >= 2 * delta ==> q >= 85,
        n <= 3 * delta ==> q <= 127,
        n >= 3 * delta ==> q >= 127,
        n <= 4 * delta ==> q <= 169,
        n >= 4 * delta ==> q >= 169,
        n <= 5 * delta ==> q <= 212,
        n >= 5 * delta ==> q >= 212,
        n <= 6 * delta ==> q <= 254,
{
    assert(n >= 0 ==> q >= 0) by (nonlinear_arith)
        requires
            delta > 0,
            508 * n + 6 * delta < (q + 1) * (12 * delta),
    ;
    assert(n <= delta ==> q <= 42) by (nonlinear_arith)
        requires
            delta > 0,
            q * (12 * delta) <= 508 * n + 6 * delta,
    ;
    assert(n >= delta ==> q >= 42) by (nonlinear_arith)
        requires
            delta > 0,
            508 * n + 6 * delta < (q + 1) * (12 * delta),
    ;
    assert(n <= 2 * delta ==> q <= 85) by (nonlinear_arith)
        requires
            delta > 0,
            q * (12 * delta) <= 508 * n + 6 * delta,
    ;
    assert(n >= 2 * delta ==> q >= 85) by (nonlinear_arith)
        requires
            delta > 0,
            508 * n + 6 * delta < (q + 1) * (12 * delta),
    ;
    assert(n <= 3 * delta ==> q <= 127) by (nonlinear_arith)
        requires
            delta > 0,
            q * (12 * delta) <= 508 * n + 6 * delta,
    ;
    assert(n >= 3 * delta ==> q >= 127) by (nonlinear_arith)
        requires
            delta > 0,
            508 * n + 6 * delta < (q + 1) * (12 * delta),
    ;
    assert(n <= 4 * delta ==> q <= 169) by (nonlinear_arith)
        requires
            delta > 0,
            q * (12 * delta) <= 508 * n + 6 * delta,
    ;
    assert(n >= 4 * delta ==> q >= 169) by (nonlinear_arith)
        requires
            delta > 0,
            508 * n + 6 * delta < (q + 1) * (12 * delta),
    ;
    assert(n <= 5 * delta ==> q <= 212) by (nonlinear_arith)
        requires
            delta > 0,
            q * (12 * delta) <= 508 * n + 6 * delta,
    ;
    assert(n >= 5 * delta ==> q >= 212) by (nonlinear_arith)
        requires
            delta > 0,
            508 * n + 6 * delta < (q + 1) * (12 * delta),
    ;
    assert(n <= 6 * delta ==> q <= 254) by (nonlinear_arith)
        requires
            delta > 0,
            q * (12 * delta) <= 508 * n + 6 * delta,
    ;
}

/// A color is fully saturated exactly if some channel is off while another is on, and not
/// at all if the channels are even.
pub proof fn saturation_is_the_spread_of_the_channels(r: int, g: int, b: int)
    requires
        0 <= r <= 255,
        0 <= g <= 255,
        0 <= b <= 255,
    ensures
        0 <= nearest_sat(r, g, b) <= 254,
        r == g && g == b ==> nearest_sat(r, g, b) == 0,
        min3(r, g, b) == 0 && max3(r, g, b) > 0 ==> nearest_sat(r, g, b) == 254,
{
    let top = max3(r, g, b);
    let low = min3(r, g, b);
    if top > 0 {
        let n = 254 * (top - low);
        let q = to_nearest(n, top);
        assert(q * (2 * top) <= 2 * n + top && 2 * n + top < (q + 1) * (2 * top))
            by (nonlinear_arith)
            requires
                q == (2 * n + top) / (2 * top),
                top > 0,
        ;
        assert(0 <= q <= 254) by (nonlinear_arith)
            requires
                q * (2 * top) <= 2 * n + top,
                2 * n + top < (q + 1) * (2 * top),
                0 <= n <= 254 * top,
                top > 0,
        ;
        if low == 0 {
            assert(q >= 254) by (nonlinear_arith)
                requires
                    2 * n + top < (q + 1) * (2 * top),
                    n == 254 * top,
                    top > 0,
            ;
        }
        if low == top {
            assert(q <= 0) by (nonlinear_arith)
                requires
                    q * (2 * top) <= 2 * n + top,
                    n == 0,
                    top > 0,
            ;
        }
    }
}

/// A hue shows in which channel is full and which of the others is the stronger one. Without
/// saturation every channel is full, and at full saturation the weakest one is off.
pub proof fn hues_show_in_the_channels(hue: int, sat: int)
    requires
        0 <= hue <= 254,
        0 <= sat <= 254,
    ensures
        ({
            let (r, g, b) = full_color(hue, sat);
            &&& hue <= 42 ==> r == 255 && g >= b
            &&& 43 <= hue <= 84 ==> g == 255 && r >= b
            &&& 85 <= hue <= 126 ==> g == 255 && b >= r
            &&& 127 <= hue <= 169 ==> b == 255 && g >= r
            &&& 170 <= hue <= 211 ==> b == 255 && r >= g
            &&& 212 <= hue ==> r == 255 && b >= g
            &&& sat == 0 ==> r == 255 && g == 255 && b == 255
            &&& sat == 254 ==> r == 0 || g == 0 || b == 0
            &&& 0 <= r <= 255 && 0 <= g <= 255 && 0 <= b <= 255
        }),
{
    let sector = hue * 6 / 254;
    let rem = hue * 6 % 254;
    let f = if sector % 2 == 0 {
        rem
    } else {
        254 - rem
    };
    let product = sat * f;
    assert(0 <= product <= 254 * sat) by (nonlinear_arith)
        requires
            product == sat * f,
            0 <= f <= 254,
            0 <= sat,
    ;
    if sat == 0 {
        assert(product == 0);
    }
    let n = 255 * (product + 254 * (254 - sat));
    assert(0 <= n <= 255 * 64516);
    assert(mid_channel(hue, sat) == to_nearest(n, 64516));
    assert(low_channel(sat) == to_nearest(255 * (254 - sat), 254));
    let low = (2 * (255 * (254 - sat)) + 254) / 508;
    assert(low * 508 <= 2 * (255 * (254 - sat)) + 254);
    assert(low * 129_032 <= 2 * n + 64516);
    assert(low <= (2 * n + 64516) / 129_032);
}

} // verus!
