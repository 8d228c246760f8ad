use sortviz::render::{bar_color, bar_rect, get_bar_color, hsv_to_rgb, Rgb};
use sortviz::audio::{envelope_permille, tone_frequency_millihertz, tone_index_for_value,
    tone_sample_count};

#[test]
fn hsv_primary_colors() {
    assert_eq!(hsv_to_rgb(0, 1000, 1000), Rgb { r: 255, g: 0, b: 0 });
    assert_eq!(hsv_to_rgb(120000, 1000, 1000), Rgb { r: 0, g: 255, b: 0 });
    assert_eq!(hsv_to_rgb(240000, 1000, 1000), Rgb { r: 0, g: 0, b: 255 });
}

#[test]
fn hsv_mid_sector_value() {
    // Hue 30 degrees at the run's fixed saturation and brightness:
    // chroma 720, secondary 360, offset 180 per mille.
    assert_eq!(hsv_to_rgb(30000, 800, 900), Rgb { r: 229, g: 137, b: 45 });
}

#[test]
fn rainbow_low_values_are_warm_high_values_cold() {
    // value 1 of 100: hue 2.8 degrees, in the red sector.
    assert_eq!(get_bar_color(1, 100), Rgb { r: 229, g: 54, b: 45 });
    // value 100 of 100: hue 280 degrees, in the violet sector.
    let violet = get_bar_color(100, 100);
    assert!(violet.b > violet.r && violet.r > violet.g);
}

#[test]
fn bar_color_priority_order() {
    // A settled position is green even while highlighted.
    assert_eq!(
        bar_color(3, 2, true, Some(2), None, 10),
        Rgb { r: 0, g: 255, b: 0 }
    );
    // A highlighted position is red whichever side of the pair names it.
    assert_eq!(
        bar_color(3, 2, false, Some(2), None, 10),
        Rgb { r: 255, g: 51, b: 51 }
    );
    assert_eq!(
        bar_color(3, 2, false, None, Some(2), 10),
        Rgb { r: 255, g: 51, b: 51 }
    );
    // Otherwise the bar wears its rainbow color.
    assert_eq!(bar_color(1, 2, false, Some(3), Some(4), 100), get_bar_color(1, 100));
}

#[test]
fn bar_color_is_deterministic() {
    let first = bar_color(7, 3, false, Some(1), Some(2), 50);
    // Interleave calls on other inputs: the choice must not depend on them.
    bar_color(50, 0, true, None, None, 50);
    bar_color(7, 3, false, Some(3), None, 50);
    let second = bar_color(7, 3, false, Some(1), Some(2), 50);
    assert_eq!(first, second);
}

#[test]
fn bar_rect_layout() {
    let r = bar_rect(2, 3, 5, 800, 600);
    assert_eq!((r.x, r.y, r.w, r.h), (320, 240, 160, 360));
    // The tallest bar fills the window height.
    let r = bar_rect(4, 5, 5, 800, 600);
    assert_eq!((r.x, r.y, r.w, r.h), (640, 0, 160, 600));
    // Every rectangle stays inside the window.
    for pos in 0..7usize {
        let r = bar_rect(pos, pos + 1, 7, 1024, 768);
        assert!(r.x + r.w <= 1024);
        assert!(r.y + r.h <= 768);
    }
}

#[test]
fn tone_lookup_validates_values() {
    assert_eq!(tone_index_for_value(0, 100), None);
    assert_eq!(tone_index_for_value(1, 100), Some(0));
    assert_eq!(tone_index_for_value(100, 100), Some(99));
    assert_eq!(tone_index_for_value(101, 100), None);
    assert_eq!(tone_index_for_value(1, 0), None);
}

#[test]
fn tone_frequencies_ramp_within_bounds() {
    assert_eq!(tone_frequency_millihertz(0, 100), 200_000);
    assert_eq!(tone_frequency_millihertz(50, 100), 1_100_000);
    assert_eq!(tone_frequency_millihertz(99, 100), 1_982_000);
    let mut prev = 0;
    for i in 0..100 {
        let f = tone_frequency_millihertz(i, 100);
        assert!((200_000..2_000_000).contains(&f));
        assert!(f >= prev);
        prev = f;
    }
}

#[test]
fn tone_buffer_shape() {
    assert_eq!(tone_sample_count(50), 2205);
    assert_eq!(tone_sample_count(1000), 44100);
    assert_eq!(tone_sample_count(0), 0);
}

#[test]
fn envelope_fades_linearly_to_silence() {
    assert_eq!(envelope_permille(0, 2205), 1000);
    assert_eq!(envelope_permille(2204, 2205), 0);
    let mid = envelope_permille(1102, 2205);
    assert!((499..=501).contains(&mid));
    let mut prev = 1001;
    for i in 0..100 {
        let e = envelope_permille(i, 100);
        assert!(e <= 1000);
        assert!(e < prev);
        prev = e;
    }
}
