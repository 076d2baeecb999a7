//! Hue and saturation, as VIA counts them (0 to 255), and RGB at full value.

use vstd::prelude::*;

verus! {

/// The larger of two numbers.
pub open spec fn larger(a: int, b: int) -> int {
    if a >= b {
        a
    } else {
        b
    }
}

/// The smaller of two numbers.
pub open spec fn smaller(a: int, b: int) -> int {
    if a <= b {
        a
    } else {
        b
    }
}

/// The RGB components of a hue and saturation at full value. The hue circle has
/// six regions of 43 steps; in each, one component is full, one is low, and one
/// rises or falls.
pub open spec fn rgb_of(h: u8, s: u8) -> (int, int, int) {
    let region = h as int / 43;
    let rest = (h as int % 43) * 6;
    let low = 255 - s;
    let falling = 255 - s * rest / 255;
    let rising = 255 - s * (255 - rest) / 255;
    if s == 0 {
        (255, 255, 255)
    } else if region == 0 {
        (255, rising, low)
    } else if region == 1 {
        (falling, 255, low)
    } else if region == 2 {
        (low, 255, rising)
    } else if region == 3 {
        (low, falling, 255)
    } else if region == 4 {
        (rising, low, 255)
    } else {
        (255, low, falling)
    }
}

proof fn shade_bounds(s: int, rest: int)
    requires
        0 <= s <= 255,
        0 <= rest <= 255,
    ensures
        0 <= s * rest <= 65025,
        0 <= s * rest / 255 <= s,
{
    assert(0 <= s * rest <= 255 * s) by (nonlinear_arith)
        requires
            0 <= s <= 255,
            0 <= rest <= 255,
    ;
}

/// RGB at full value for a hue and saturation.
pub fn hs_to_rgb(h: u8, s: u8) -> (rgb: (u8, u8, u8))
    ensures
        rgb.0 == rgb_of(h, s).0,
        rgb.1 == rgb_of(h, s).1,
        rgb.2 == rgb_of(h, s).2,
{
    if s == 0 {
        return (255, 255, 255);
    }
    let region: u8 = h / 43;
    let rest: u32 = (h % 43) as u32 * 6;
    let sat: u32 = s as u32;
    proof {
        shade_bounds(sat as int, rest as int);
        shade_bounds(sat as int, 255 - rest);
    }
    let low: u8 = 255 - s;
    let falling: u8 = (255 - sat * rest / 255) as u8;
    let rising: u8 = (255 - sat * (255 - rest) / 255) as u8;
    if region == 0 {
        (255, rising, low)
    } else if region == 1 {
        (falling, 255, low)
    } else if region == 2 {
        (low, 255, rising)
    } else if region == 3 {
        (low, falling, 255)
    } else if region == 4 {
        (rising, low, 255)
    } else {
        (255, low, falling)
    }
}

/// `a / b` rounded towards zero, for positive `b`.
pub open spec fn quotient(a: int, b: int) -> int {
    if a >= 0 {
        a / b
    } else {
        -((-a) / b)
    }
}

/// Hue and saturation of a color; 0 and 0 for black and the grays.
pub open spec fn hs_of(r: u8, g: u8, b: u8) -> (int, int) {
    let max = larger(larger(r as int, g as int), b as int);
    let min = smaller(smaller(r as int, g as int), b as int);
    let delta = max - min;
    if max == 0 || delta == 0 {
        (0, 0)
    } else {
        let h = if r == max {
            quotient(43 * (g - b), delta)
        } else if g == max {
            85 + quotient(43 * (b - r), delta)
        } else {
            171 + quotient(43 * (r - g), delta)
        };
        (h % 256, delta * 255 / max)
    }
}

/// `base` plus `43 * (x - y) / delta` rounded towards zero, on a circle of 256 steps.
fn hue(base: u32, x: u8, y: u8, delta: u32) -> (h: u8)
    requires
        base <= 171,
        0 < delta <= 255,
        x - y <= delta,
        y - x <= delta,
    ensures
        h == (base + quotient(43 * (x - y), delta as int)) % 256,
{
    if x >= y {
        let d: u32 = 43 * (x - y) as u32;
        proof {
            assert(d / delta <= 43) by (nonlinear_arith)
                requires
                    d <= 43 * delta,
                    delta > 0,
            ;
        }
        ((base + d / delta) % 256) as u8
    } else {
        let d: u32 = 43 * (y - x) as u32;
        proof {
            assert(d / delta <= 43) by (nonlinear_arith)
                requires
                    d <= 43 * delta,
                    delta > 0,
            ;
            assert(43 * (x - y) == -d);
        }
        ((base + 256 - d / delta) % 256) as u8
    }
}

/// Hue and saturation of a color.
pub fn rgb_to_hs(r: u8, g: u8, b: u8) -> (hs: (u8, u8))
    ensures
        hs.0 == hs_of(r, g, b).0,
        hs.1 == hs_of(r, g, b).1,
{
    let rg_max: u8 = if r >= g {
        r
    } else {
        g
    };
    let max: u8 = if rg_max >= b {
        rg_max
    } else {
        b
    };
    let rg_min: u8 = if r <= g {
        r
    } else {
        g
    };
    let min: u8 = if rg_min <= b {
        rg_min
    } else {
        b
    };
    let delta: u32 = (max - min) as u32;
    if max == 0 || delta == 0 {
        return (0, 0);
    }
    let m: u32 = max as u32;
    proof {
        assert(delta * 255 / m as int <= 255) by (nonlinear_arith)
            requires
                0 < m,
                delta <= m,
        ;
    }
    let s: u8 = (delta * 255 / m) as u8;
    let h: u8 = if r == max {
        hue(0, g, b, delta)
    } else if g == max {
        hue(85, b, r, delta)
    } else {
        hue(171, r, g, delta)
    };
    (h, s)
}

/// A color made from a hue and saturation is at full value, and its saturation
/// is the one it was made from.
pub proof fn saturation_round_trips(h: u8, s: u8)
    ensures
        ({
            let c = rgb_of(h, s);
            &&& 0 <= c.0 <= 255 && 0 <= c.1 <= 255 && 0 <= c.2 <= 255
            &&& larger(larger(c.0, c.1), c.2) == 255
            &&& hs_of(c.0 as u8, c.1 as u8, c.2 as u8).1 == s
        }),
{
    let rest = (h as int % 43) * 6;
    shade_bounds(s as int, rest);
    shade_bounds(s as int, 255 - rest);
    assert(s as int * 255 / 255 == s) by (nonlinear_arith);
}

/// The largest component divided into the distance to the smallest gives the
/// saturation, rounded down; where red is largest, the hue is the share of the
/// distance by which green exceeds blue, in 43 steps, rounded down. The grays have
/// neither.
pub proof fn hue_grows_with_green(r: u8, g: u8, b: u8)
    requires
        r >= g >= b,
    ensures
        ({
            let (h, s) = hs_of(r, g, b);
            &&& 0 <= h <= 43
            &&& 0 <= s <= 255
            &&& r == b ==> h == 0 && s == 0
            &&& r > b ==> h * (r - b) <= 43 * (g - b) < (h + 1) * (r - b)
            &&& r > b ==> s * r <= 255 * (r - b) < (s + 1) * r
        }),
{
    if r > b {
        let d = r - b;
        share(43 * (g - b), d, 43);
        share(255 * d, r as int, 255);
        assert(d * 255 == 255 * d);
    }
}

/// A quotient rounded down, without division.
proof fn share(a: int, b: int, most: int)
    requires
        0 <= a <= most * b,
        0 < b,
    ensures
        0 <= a / b <= most,
        (a / b) * b <= a < (a / b + 1) * b,
{
    let q = a / b;
    assert(q * b <= a < (q + 1) * b && 0 <= q <= most) by (nonlinear_arith)
        requires
            0 <= a <= most * b,
            0 < b,
            q == a / b,
    ;
}

/// Exchanging green and blue turns the hue the other way round the circle and
/// keeps the saturation.
pub proof fn hue_is_mirrored_at_red(r: u8, g: u8, b: u8)
    requires
        r >= g,
        r >= b,
    ensures
        hs_of(r, b, g).0 == (256 - hs_of(r, g, b).0) % 256,
        hs_of(r, b, g).1 == hs_of(r, g, b).1,
{
    let min = smaller(g as int, b as int);
    let d = r - min;
    if d > 0 {
        let far = larger(g as int, b as int) - min;
        share(43 * far, d, 43);
        share(0, d, 43);
        assert(quotient(43 * (g - b), d) == -quotient(43 * (b - g), d));
    }
}

/// Passing the components round, red to green and green to blue, turns the hue
/// by a third of the circle and keeps the saturation.
pub proof fn hue_turns_by_thirds(r: u8, g: u8, b: u8)
    requires
        r >= g,
        r > b,
    ensures
        hs_of(b, r, g).0 == (hs_of(r, g, b).0 + 85) % 256,
        hs_of(b, r, g).1 == hs_of(r, g, b).1,
        r > g ==> hs_of(g, b, r).0 == (hs_of(r, g, b).0 + 171) % 256,
        r > g ==> hs_of(g, b, r).1 == hs_of(r, g, b).1,
{
}

/// From hue 0, red is full, blue is as low as the saturation says and green
/// rises to full; past the first region green stays full and red falls.
pub proof fn green_rises_and_red_falls(h: u8, s: u8)
    requires
        h < 86,
    ensures
        ({
            let (r, g, b) = rgb_of(h, s);
            let rising = 255 - g;
            let falling = 255 - r;
            &&& b == 255 - s
            &&& h < 43 ==> r == 255 && 255 * rising <= s * (255 - 6 * h) < 255 * rising + 255
            &&& h >= 43 ==> g == 255 && 255 * falling <= s * (6 * h - 258) < 255 * falling + 255
        }),
{
    let rest = (h as int % 43) * 6;
    shade_bounds(s as int, rest);
    shade_bounds(s as int, 255 - rest);
    if s == 0 {
        assert(s * (255 - 6 * h) == 0) by (nonlinear_arith)
            requires
                s == 0,
        ;
        assert(s * (6 * h - 258) == 0) by (nonlinear_arith)
            requires
                s == 0,
        ;
    } else if h < 43 {
        assert(255 - 6 * h == 255 - rest);
    } else {
        assert(6 * h - 258 == rest);
    }
}

/// Two regions on, the components are passed round: what red was green is, and
/// what green was blue is.
pub proof fn colors_turn_by_thirds(h: u8, s: u8)
    requires
        h + 86 <= 255,
    ensures
        ({
            let (r, g, b) = rgb_of(h, s);
            rgb_of((h + 86) as u8, s) == (b, r, g)
        }),
{
}

/// The component between the largest and the smallest, `x` above the smallest of
/// three that lie `d` apart, comes out of a region near to where it was.
proof fn middle_is_near(d: int, x: int, h: int, k: int)
    requires
        0 < d <= 255,
        0 <= x <= d,
        h * d <= 43 * x < (h + 1) * d,
        0 <= h <= 43,
        0 <= k <= 42,
    ensures
        k == h || k == h - 1 ==> -12 <= d - x - d * (255 - k * 6) / 255 <= 12,
        k == 42 - h || k == 41 - h ==> -12 <= d - x - d * (k * 6) / 255 <= 12,
        h == 43 ==> x == d,
        h == 0 ==> x <= 5,
        h == 42 ==> d - x <= 6,
        k == 42 ==> d * (k * 6) / 255 >= d - 4 && d * (255 - k * 6) / 255 <= 3,
        k == 41 ==> d * (k * 6) / 255 >= d - 10 && d * (255 - k * 6) / 255 <= 9,
        k == 0 ==> d * (k * 6) / 255 == 0 && d * (255 - k * 6) / 255 == d,
        0 <= d * (255 - k * 6) / 255 <= d,
        0 <= d * (k * 6) / 255 <= d,
{
    shade_bounds(d, k * 6);
    shade_bounds(d, 255 - k * 6);
    let p = h * d;
    assert((h + 1) * d == p + d) by (nonlinear_arith)
        requires
            p == h * d,
    ;
    assert(h == 0 ==> p == 0) by (nonlinear_arith)
        requires
            p == h * d,
    ;
    assert(h == 42 ==> p == 42 * d) by (nonlinear_arith)
        requires
            p == h * d,
    ;
    assert(h == 43 ==> p == 43 * d) by (nonlinear_arith)
        requires
            p == h * d,
    ;
    assert(k == 0 ==> d * (k * 6) == 0 && d * (255 - k * 6) == 255 * d) by (nonlinear_arith);
    assert(k == 41 ==> d * (k * 6) == 246 * d && d * (255 - k * 6) == 9 * d) by (nonlinear_arith);
    assert(k == 42 ==> d * (k * 6) == 252 * d && d * (255 - k * 6) == 3 * d) by (nonlinear_arith);
    assert(k == h ==> d * (255 - k * 6) == 255 * d - 6 * p) by (nonlinear_arith)
        requires
            p == h * d,
    ;
    assert(k == h - 1 ==> d * (255 - k * 6) == 261 * d - 6 * p) by (nonlinear_arith)
        requires
            p == h * d,
    ;
    assert(k == 42 - h ==> d * (k * 6) == 252 * d - 6 * p) by (nonlinear_arith)
        requires
            p == h * d,
    ;
    assert(k == 41 - h ==> d * (k * 6) == 246 * d - 6 * p) by (nonlinear_arith)
        requires
            p == h * d,
    ;
}

/// What hue and saturation of a color at full value are, where the middle
/// component lies `x` above the smallest and the components lie `d` apart.
proof fn hue_at_full_value(r: u8, g: u8, b: u8, x: int, d: int) -> (h: int)
    requires
        r == 255 || g == 255 || b == 255,
        d == 255 - smaller(smaller(r as int, g as int), b as int),
        d > 0,
        x == r + g + b - 255 - (255 - d) - (255 - d),
    ensures
        0 <= h <= 43,
        0 <= x <= d,
        h * d <= 43 * x < (h + 1) * d,
        hs_of(r, g, b).1 == d,
        hs_of(r, g, b).0 == if r == 255 {
            if g >= b {
                h
            } else {
                (256 - h) % 256
            }
        } else if g == 255 {
            if b >= r {
                85 + h
            } else {
                85 - h
            }
        } else if r >= g {
            171 + h
        } else {
            171 - h
        },
{
    share(43 * x, d, 43);
    share(0, d, 43);
    assert(larger(larger(r as int, g as int), b as int) == 255);
    assert(d * 255 / 255 == d);
    43 * x / d
}

/// Twelve steps at most lie between a color at full value and the color that its
/// hue and saturation give back, in each component.
pub proof fn colors_round_trip(r: u8, g: u8, b: u8)
    requires
        r == 255 || g == 255 || b == 255,
    ensures
        ({
            let (h, s) = hs_of(r, g, b);
            let c = rgb_of(h as u8, s as u8);
            &&& 0 <= h <= 255 && 0 <= s <= 255
            &&& r - 12 <= c.0 <= r + 12
            &&& g - 12 <= c.1 <= g + 12
            &&& b - 12 <= c.2 <= b + 12
        }),
{
    let d = 255 - smaller(smaller(r as int, g as int), b as int);
    if d > 0 {
        let x = r + g + b - 255 - (255 - d) - (255 - d);
        let h = hue_at_full_value(r, g, b, x, d);
        color_is_near(r, g, b, x, d, h, hs_of(r, g, b).0 as u8);
    }
}

proof fn color_is_near(r: u8, g: u8, b: u8, x: int, d: int, h: int, hue: u8)
    requires
        r == 255 || g == 255 || b == 255,
        d == 255 - smaller(smaller(r as int, g as int), b as int),
        d > 0,
        x == r + g + b - 255 - (255 - d) - (255 - d),
        0 <= h <= 43,
        0 <= x <= d,
        h * d <= 43 * x < (h + 1) * d,
        hue == if r == 255 {
            if g >= b {
                h
            } else {
                (256 - h) % 256
            }
        } else if g == 255 {
            if b >= r {
                85 + h
            } else {
                85 - h
            }
        } else if r >= g {
            171 + h
        } else {
            171 - h
        },
    ensures
        ({
            let c = rgb_of(hue, d as u8);
            &&& r - 12 <= c.0 <= r + 12
            &&& g - 12 <= c.1 <= g + 12
            &&& b - 12 <= c.2 <= b + 12
        }),
{
    let k = hue as int % 43;
    middle_is_near(d, x, h, k);
    if r == 255 && g >= b {
        assert(hue == 43 * (hue as int / 43) + k);
    } else if r == 255 {
        assert(k == 0 || k == 41 - h || (h == 42 && k == 42) || (h == 43 && k == 41));
    } else if g == 255 && b >= r {
        assert((h == 0 && k == 42) || k == h - 1);
    } else if g == 255 {
        assert(k == 42 - h || (h == 43 && k == 42));
    } else if r >= g {
        assert((h == 0 && k == 42) || k == h - 1);
    } else {
        assert(k == 42 - h || (h == 43 && k == 42));
    }
}

/// What the conversions give: at full value every component comes back to within
/// twelve steps, and where red is largest and green exceeds blue the hue lies
/// between 0 and 43.
pub proof fn conversions_go_back_and_forth(r: u8, g: u8, b: u8, hs: (u8, u8), rgb: (u8, u8, u8))
    requires
        call_ensures(rgb_to_hs, (r, g, b), hs),
        call_ensures(hs_to_rgb, (hs.0, hs.1), rgb),
    ensures
        r == 255 || g == 255 || b == 255 ==> {
            &&& r - 12 <= rgb.0 <= r + 12
            &&& g - 12 <= rgb.1 <= g + 12
            &&& b - 12 <= rgb.2 <= b + 12
        },
        r >= g >= b ==> hs.0 <= 43,
        r >= g >= b && r > b ==> hs.0 * (r - b) <= 43 * (g - b) < (hs.0 + 1) * (r - b),
{
    if r == 255 || g == 255 || b == 255 {
        colors_round_trip(r, g, b);
    }
    if r >= g >= b {
        hue_grows_with_green(r, g, b);
    }
}

} // verus!
