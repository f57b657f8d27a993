//! Colours of the display.
//!
//! A hue is an angle on the colour circle, counted in thousandths of a
//! degree; saturation, value and the three colour channels are counted in
//! thousandths.

use vstd::prelude::*;
use crate::fixed::{abs_int, lemma_mul_le, min_int};

verus! {

/// A full turn of the hue circle.
pub const HUE_CIRCLE: i64 = 360_000;

/// One sixth of the hue circle.
pub const HUE_SECTOR: i64 = 60_000;

/// A colour by its red, green and blue channel.
#[derive(Clone, Copy, Debug, PartialEq, Eq, Structural)]
pub struct Rgb {
    pub r: u32,
    pub g: u32,
    pub b: u32,
}

/// The chroma of a colour: value times saturation.
pub open spec fn chroma(s: int, v: int) -> int {
    min_int(v, 1000) * min_int(s, 1000) / 1000
}

/// The chroma `c` times the distance of the hue from the nearest end of
/// its pair of sectors, as a part of one sector.
pub open spec fn rise_of(hue: int, c: int) -> int {
    let within = hue % (2 * HUE_SECTOR);
    c * (HUE_SECTOR - abs_int(within - HUE_SECTOR)) / (HUE_SECTOR as int)
}

/// The second largest channel of a colour above its smallest.
pub open spec fn second(h: int, s: int, v: int) -> int {
    rise_of(h % (HUE_CIRCLE as int), chroma(s, v))
}

/// The colour with hue `h`, saturation `s` and value `v`. A hue outside
/// the circle is wrapped into it; saturation and value above 1 count as 1.
pub open spec fn hsv_spec(h: int, s: int, v: int) -> Rgb {
    let hue = h % (HUE_CIRCLE as int);
    let c = chroma(s, v);
    let x = second(h, s, v);
    let m = min_int(v, 1000) - c;
    let (r, g, b) = if hue < HUE_SECTOR {
        (c, x, 0int)
    } else if hue < 2 * HUE_SECTOR {
        (x, c, 0int)
    } else if hue < 3 * HUE_SECTOR {
        (0int, c, x)
    } else if hue < 4 * HUE_SECTOR {
        (0int, x, c)
    } else if hue < 5 * HUE_SECTOR {
        (x, 0int, c)
    } else {
        (c, 0int, x)
    };
    Rgb { r: (r + m) as u32, g: (g + m) as u32, b: (b + m) as u32 }
}

/// Every channel of a colour is at most its value, and the largest
/// channel is its value.
pub proof fn lemma_channels_bounded(h: int, s: int, v: int)
    requires
        0 <= s,
        0 <= v,
    ensures
        0 <= second(h, s, v) <= chroma(s, v) <= min_int(v, 1000),
        hsv_spec(h, s, v).r <= min_int(v, 1000),
        hsv_spec(h, s, v).g <= min_int(v, 1000),
        hsv_spec(h, s, v).b <= min_int(v, 1000),
        hsv_spec(h, s, v).r == min_int(v, 1000) || hsv_spec(h, s, v).g == min_int(v, 1000)
            || hsv_spec(h, s, v).b == min_int(v, 1000),
{
    let vv = min_int(v, 1000);
    let ss = min_int(s, 1000);
    let c = chroma(s, v);
    lemma_mul_le(vv, ss, vv, 1000);
    assert(0 <= c <= vv);
    let within = (h % (HUE_CIRCLE as int)) % (2 * HUE_SECTOR);
    let rise = HUE_SECTOR - abs_int(within - HUE_SECTOR);
    assert(0 <= rise <= HUE_SECTOR);
    lemma_mul_le(c, rise, c, HUE_SECTOR as int);
    assert(0 <= second(h, s, v) <= c);
}

/// A hue wrapped into the circle.
pub fn wrap_hue(h: i64) -> (hue: i64)
    ensures
        hue == (h as int) % (HUE_CIRCLE as int),
        0 <= hue < HUE_CIRCLE,
{
    let turned: i64 = h % HUE_CIRCLE;
    if turned < 0 {
        turned + HUE_CIRCLE
    } else {
        turned
    }
}

/// The chroma of a colour with saturation `s` and value `v`.
pub fn chroma_of(s: u32, v: u32) -> (c: i64)
    ensures
        c == chroma(s as int, v as int),
        0 <= c <= min_int(v as int, 1000),
{
    let vv: i64 = if v > 1000 {
        1000
    } else {
        v as i64
    };
    let ss: i64 = if s > 1000 {
        1000
    } else {
        s as i64
    };
    proof {
        lemma_mul_le(vv as int, ss as int, vv as int, 1000);
    }
    vv * ss / 1000
}

/// The second largest channel above the smallest, for a hue inside the
/// circle and a chroma `c`.
pub fn second_of(hue: i64, c: i64) -> (x: i64)
    requires
        0 <= hue < HUE_CIRCLE,
        0 <= c <= 1000,
    ensures
        x == rise_of(hue as int, c as int),
        0 <= x <= c,
{
    let within: i64 = hue % (2 * HUE_SECTOR);
    let off: i64 = if within < HUE_SECTOR {
        HUE_SECTOR - within
    } else {
        within - HUE_SECTOR
    };
    let rise: i64 = HUE_SECTOR - off;
    proof {
        lemma_mul_le(c as int, rise as int, c as int, HUE_SECTOR as int);
    }
    c * rise / HUE_SECTOR
}

/// The colour with hue `h`, saturation `s` and value `v`.
pub fn hsv_to_color(h: i64, s: u32, v: u32) -> (rgb: Rgb)
    ensures
        rgb == hsv_spec(h as int, s as int, v as int),
        rgb.r <= 1000 && rgb.g <= 1000 && rgb.b <= 1000,
{
    proof {
        lemma_channels_bounded(h as int, s as int, v as int);
    }
    let hue: i64 = wrap_hue(h);
    let c: i64 = chroma_of(s, v);
    let x: i64 = second_of(hue, c);
    let vv: i64 = if v > 1000 {
        1000
    } else {
        v as i64
    };
    let m: i64 = vv - c;
    let (r, g, b): (i64, i64, i64) = if hue < HUE_SECTOR {
        (c, x, 0)
    } else if hue < 2 * HUE_SECTOR {
        (x, c, 0)
    } else if hue < 3 * HUE_SECTOR {
        (0, c, x)
    } else if hue < 4 * HUE_SECTOR {
        (0, x, c)
    } else if hue < 5 * HUE_SECTOR {
        (x, 0, c)
    } else {
        (c, 0, x)
    };
    Rgb { r: (r + m) as u32, g: (g + m) as u32, b: (b + m) as u32 }
}

} // verus!
