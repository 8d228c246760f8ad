//! The renderer's decision rules: which color each bar gets and where each
//! bar sits, computed in integer fixed point. Drawing itself happens outside
//! the library; these functions are pure, so a frame is a function of the
//! array state alone.
//!
//! Color policy, in priority order: settled positions are green, the two
//! positions of the current comparison are red, and every other bar wears a
//! rainbow color whose hue grows linearly with its value (low values toward
//! red and orange, high values toward blue and violet) at fixed saturation
//! and brightness.

use vstd::prelude::*;
use vstd::arithmetic::div_mod::{
    lemma_fundamental_div_mod, lemma_mod_bound, lemma_multiply_divide_le, lemma_div_pos_is_pos,
};
use vstd::arithmetic::mul::lemma_mul_inequality;
use crate::step::MAX_RUN_LEN;

verus! {

/// A color with 8-bit red, green and blue channels.
#[derive(Debug, Clone, Copy, PartialEq, Eq, Structural)]
pub struct Rgb {
    /// Red channel.
    pub r: u8,
    /// Green channel.
    pub g: u8,
    /// Blue channel.
    pub b: u8,
}

/// Hue one full turn, in millidegrees.
pub const HUE_TURN_MILLIDEG: u32 = 360000;

/// Hue of the highest bar, in millidegrees: the rainbow runs from red at the
/// low end to violet at 280 degrees.
pub const HUE_SPAN_MILLIDEG: u32 = 280000;

/// Saturation of the rainbow colors, in per mille.
pub const RAINBOW_SAT_PERMILLE: u32 = 800;

/// Brightness of the rainbow colors, in per mille.
pub const RAINBOW_VAL_PERMILLE: u32 = 900;

/// Color of settled bars.
pub open spec fn sorted_color() -> Rgb {
    Rgb { r: 0, g: 255, b: 0 }
}

/// Color of the two bars being compared.
pub open spec fn compare_color() -> Rgb {
    Rgb { r: 255, g: 51, b: 51 }
}

/// Background the frame is cleared to.
pub open spec fn background_color() -> Rgb {
    Rgb { r: 20, g: 20, b: 31 }
}

/// The background color at run time, for clearing a frame.
pub fn clear_color() -> (color: Rgb)
    ensures
        color == background_color(),
{
    Rgb { r: 20, g: 20, b: 31 }
}

/// Chroma of an HSV color: brightness scaled by saturation, in per mille.
pub open spec fn hsv_chroma(s_pm: int, v_pm: int) -> int {
    v_pm * s_pm / 1000
}

/// Secondary HSV component: the chroma scaled by how far the hue stands
/// from the nearest edge of its 120-degree double sector.
pub open spec fn hsv_second(h_md: int, c: int) -> int {
    let t = h_md % 120000;
    let dist = if t < 60000 {
        60000 - t
    } else {
        t - 60000
    };
    c * (60000 - dist) / 60000
}

/// A per-mille intensity as an 8-bit channel value.
pub open spec fn channel_byte(pm: int) -> u8 {
    (pm * 255 / 1000) as u8
}

/// HSV to RGB in fixed point: hue in millidegrees, saturation and
/// brightness in per mille. Each 60-degree sector orders the chroma, the
/// secondary component and zero into the three channels, and the match
/// offset `v - c` lifts them to the requested brightness.
pub open spec fn spec_hsv_to_rgb(h_md: int, s_pm: int, v_pm: int) -> Rgb {
    let c = hsv_chroma(s_pm, v_pm);
    let x = hsv_second(h_md, c);
    let m = v_pm - c;
    if h_md < 60000 {
        Rgb { r: channel_byte(c + m), g: channel_byte(x + m), b: channel_byte(m) }
    } else if h_md < 120000 {
        Rgb { r: channel_byte(x + m), g: channel_byte(c + m), b: channel_byte(m) }
    } else if h_md < 180000 {
        Rgb { r: channel_byte(m), g: channel_byte(c + m), b: channel_byte(x + m) }
    } else if h_md < 240000 {
        Rgb { r: channel_byte(m), g: channel_byte(x + m), b: channel_byte(c + m) }
    } else if h_md < 300000 {
        Rgb { r: channel_byte(x + m), g: channel_byte(m), b: channel_byte(c + m) }
    } else {
        Rgb { r: channel_byte(c + m), g: channel_byte(m), b: channel_byte(x + m) }
    }
}

/// `a * b / d` stays between 0 and `a` when the scale `b` is at most `d`.
proof fn lemma_scale_le(a: int, b: int, d: int)
    requires
        0 <= a,
        0 <= b <= d,
        0 < d,
    ensures
        0 <= a * b / d <= a,
{
    lemma_mul_inequality(b, d, a);
    assert(b * a <= d * a);
    assert(a * b <= d * a) by (nonlinear_arith)
        requires b * a <= d * a;
    lemma_multiply_divide_le(a * b, d, a);
    lemma_div_pos_is_pos(a * b, d);
    assert(0 <= a * b) by (nonlinear_arith)
        requires 0 <= a, 0 <= b;
}

/// Convert an HSV color to RGB at run time.
pub fn hsv_to_rgb(h_md: u32, s_pm: u32, v_pm: u32) -> (color: Rgb)
    requires
        h_md < HUE_TURN_MILLIDEG,
        s_pm <= 1000,
        v_pm <= 1000,
    ensures
        color == spec_hsv_to_rgb(h_md as int, s_pm as int, v_pm as int),
{
    proof {
        lemma_scale_le(v_pm as int, s_pm as int, 1000);
    }
    let c: u32 = v_pm * s_pm / 1000;
    let t: u32 = h_md % 120000;
    let dist: u32 = if t < 60000 {
        60000 - t
    } else {
        t - 60000
    };
    proof {
        lemma_mod_bound(h_md as int, 120000);
        lemma_scale_le(c as int, 60000 - dist, 60000);
    }
    let x: u32 = c * (60000 - dist) / 60000;
    let m: u32 = v_pm - c;
    let (r_pm, g_pm, b_pm): (u32, u32, u32) = if h_md < 60000 {
        (c + m, x + m, m)
    } else if h_md < 120000 {
        (x + m, c + m, m)
    } else if h_md < 180000 {
        (m, c + m, x + m)
    } else if h_md < 240000 {
        (m, x + m, c + m)
    } else if h_md < 300000 {
        (x + m, m, c + m)
    } else {
        (c + m, m, x + m)
    };
    Rgb { r: byte_of_permille(r_pm), g: byte_of_permille(g_pm), b: byte_of_permille(b_pm) }
}

/// Scale a per-mille intensity to an 8-bit channel at run time.
fn byte_of_permille(pm: u32) -> (b: u8)
    requires
        pm <= 1000,
    ensures
        b == channel_byte(pm as int),
{
    proof {
        lemma_scale_le(255, pm as int, 1000);
        assert(pm * 255 == 255 * pm) by (nonlinear_arith);
    }
    (pm * 255 / 1000) as u8
}

/// Rainbow hue of a bar: the value mapped linearly onto the hue span, so
/// the tallest bar of a run sits at the violet end.
pub open spec fn rainbow_hue(value: int, max_value: int) -> int {
    value * HUE_SPAN_MILLIDEG / max_value
}

/// Rainbow color of an unsettled, unhighlighted bar.
pub open spec fn spec_rainbow_color(value: int, max_value: int) -> Rgb {
    spec_hsv_to_rgb(
        rainbow_hue(value, max_value),
        RAINBOW_SAT_PERMILLE as int,
        RAINBOW_VAL_PERMILLE as int,
    )
}

/// Rainbow color of a bar at run time.
pub fn get_bar_color(value: usize, max_value: usize) -> (color: Rgb)
    requires
        1 <= value <= max_value,
        max_value <= MAX_RUN_LEN,
    ensures
        color == spec_rainbow_color(value as int, max_value as int),
{
    proof {
        lemma_mul_inequality(value as int, max_value as int, HUE_SPAN_MILLIDEG as int);
        assert(value * HUE_SPAN_MILLIDEG <= max_value * HUE_SPAN_MILLIDEG) by (nonlinear_arith)
            requires value * HUE_SPAN_MILLIDEG as int <= HUE_SPAN_MILLIDEG as int * max_value;
        lemma_multiply_divide_le(
            value as int * HUE_SPAN_MILLIDEG,
            max_value as int,
            HUE_SPAN_MILLIDEG as int,
        );
        lemma_div_pos_is_pos(value as int * HUE_SPAN_MILLIDEG, max_value as int);
        assert(0 <= value as int * HUE_SPAN_MILLIDEG) by (nonlinear_arith)
            requires 0 <= value as int;
    }
    let hue: u64 = (value as u64) * (HUE_SPAN_MILLIDEG as u64) / (max_value as u64);
    hsv_to_rgb(hue as u32, RAINBOW_SAT_PERMILLE, RAINBOW_VAL_PERMILLE)
}

/// The color a bar wears, by priority: green once settled, red while one of
/// the two compared positions, otherwise its rainbow color.
pub open spec fn spec_bar_color(
    value: int,
    position: int,
    sorted_here: bool,
    cmp_a: Option<usize>,
    cmp_b: Option<usize>,
    max_value: int,
) -> Rgb {
    if sorted_here {
        sorted_color()
    } else if cmp_a == Some(position as usize) || cmp_b == Some(position as usize) {
        compare_color()
    } else {
        spec_rainbow_color(value, max_value)
    }
}

/// Pick a bar's color at run time. The choice is a pure function of the
/// arguments: fixed inputs give a fixed color, whatever was drawn before.
pub fn bar_color(
    value: usize,
    position: usize,
    sorted_here: bool,
    cmp_a: Option<usize>,
    cmp_b: Option<usize>,
    max_value: usize,
) -> (color: Rgb)
    requires
        1 <= value <= max_value,
        max_value <= MAX_RUN_LEN,
    ensures
        color == spec_bar_color(
            value as int,
            position as int,
            sorted_here,
            cmp_a,
            cmp_b,
            max_value as int,
        ),
{
    if sorted_here {
        Rgb { r: 0, g: 255, b: 0 }
    } else {
        let highlighted = match cmp_a {
            Some(a) => a == position,
            None => false,
        } || match cmp_b {
            Some(b) => b == position,
            None => false,
        };
        if highlighted {
            Rgb { r: 255, g: 51, b: 51 }
        } else {
            get_bar_color(value, max_value)
        }
    }
}

/// Law: the color choice is deterministic and independent of the order of
/// prior calls. Two bars with equal value, position, sorted flag, highlight
/// pair and run size get equal colors.
pub proof fn lemma_bar_color_deterministic(
    value_1: int,
    position_1: int,
    sorted_1: bool,
    cmp_a_1: Option<usize>,
    cmp_b_1: Option<usize>,
    max_1: int,
    value_2: int,
    position_2: int,
    sorted_2: bool,
    cmp_a_2: Option<usize>,
    cmp_b_2: Option<usize>,
    max_2: int,
)
    requires
        value_1 == value_2,
        position_1 == position_2,
        sorted_1 == sorted_2,
        cmp_a_1 == cmp_a_2,
        cmp_b_1 == cmp_b_2,
        max_1 == max_2,
    ensures
        spec_bar_color(value_1, position_1, sorted_1, cmp_a_1, cmp_b_1, max_1) == spec_bar_color(
            value_2,
            position_2,
            sorted_2,
            cmp_a_2,
            cmp_b_2,
            max_2,
        ),
{
}

/// Where a bar sits in the window, in pixels: equal slots left to right,
/// height proportional to the value, anchored to the bottom edge.
#[derive(Debug, Clone, Copy, PartialEq, Eq, Structural)]
pub struct BarRect {
    /// Left edge.
    pub x: u32,
    /// Top edge.
    pub y: u32,
    /// Slot width.
    pub w: u32,
    /// Bar height.
    pub h: u32,
}

/// Compute a bar's rectangle. The slot width divides the window evenly, the
/// bar's height is its value's share of the window height, and the top edge
/// is measured down from the window's top, so every rectangle stays inside
/// the window.
pub fn bar_rect(
    position: usize,
    value: usize,
    len: usize,
    win_w: u32,
    win_h: u32,
) -> (rect: BarRect)
    requires
        1 <= len <= MAX_RUN_LEN,
        position < len,
        1 <= value <= len,
    ensures
        rect.w == win_w as int / len as int,
        rect.x == position as int * (win_w as int / len as int),
        rect.h == value as int * win_h as int / len as int,
        rect.y == win_h - rect.h,
        rect.x + rect.w <= win_w,
        rect.h <= win_h,
{
    let slot: u32 = win_w / (len as u32);
    proof {
        lemma_fundamental_div_mod(win_w as int, len as int);
        lemma_mod_bound(win_w as int, len as int);
        lemma_div_pos_is_pos(win_w as int, len as int);
        assert((position as int + 1) * slot as int <= len as int * slot as int) by {
            lemma_mul_inequality(position as int + 1, len as int, slot as int);
        }
        assert(len as int * slot as int <= win_w as int);
        assert(position as int * slot as int + slot as int == (position as int + 1)
            * slot as int) by (nonlinear_arith);
        lemma_mul_inequality(value as int, len as int, win_h as int);
        assert(value as int * win_h as int <= len as int * win_h as int) by (nonlinear_arith)
            requires value as int * win_h as int <= win_h as int * len as int;
        lemma_multiply_divide_le(value as int * win_h as int, len as int, win_h as int);
        lemma_div_pos_is_pos(value as int * win_h as int, len as int);
        assert(0 <= value as int * win_h as int) by (nonlinear_arith)
            requires 0 <= value as int, 0 <= win_h as int;
        assert(value as int * win_h as int <= 0xffff_ffff * 0xffff_ffff) by (nonlinear_arith)
            requires 0 <= value as int <= 0xffff_ffff, 0 <= win_h as int <= 0xffff_ffff;
    }
    let x: u32 = (position as u32) * slot;
    let h: u32 = (((value as u64) * (win_h as u64)) / (len as u64)) as u32;
    let y: u32 = win_h - h;
    BarRect { x, y, w: slot, h }
}

} // verus!
