use claude_usage_meter::percent_text::{decimal_text, percent_text};
use claude_usage_meter::snapshot::Percent;
use claude_usage_meter::tray_icon::{
    clamp_percent, ring_arc, ring_color, rounded_percent, RingArc, AMBER, GRAY, GREEN, RED,
};

fn percent(p: f32) -> Percent {
    Percent { bits: p.to_bits() }
}

#[test]
fn threshold_colors() {
    assert_eq!(ring_color(Some(percent(10.0))), GREEN);
    assert_eq!(ring_color(Some(percent(59.9))), GREEN);
    assert_eq!(ring_color(Some(percent(60.0))), AMBER);
    assert_eq!(ring_color(Some(percent(85.0))), RED);
    assert_eq!(ring_color(Some(percent(100.0))), RED);
    assert_eq!(ring_color(None), GRAY);
}

#[test]
fn colors_of_odd_numbers() {
    assert_eq!(ring_color(Some(percent(f32::NAN))), GREEN);
    assert_eq!(ring_color(Some(percent(-90.0))), GREEN);
    assert_eq!(ring_color(Some(percent(f32::INFINITY))), RED);
    assert_eq!(ring_color(Some(percent(f32::NEG_INFINITY))), GREEN);
    assert_eq!(ring_color(Some(percent(f32::MIN_POSITIVE / 2.0))), GREEN);
    assert_eq!(ring_color(Some(percent(84.99999))), AMBER);
}

/// Values around every border, and a walk over all exponents.
fn samples() -> Vec<f32> {
    let mut out = vec![f32::NAN, -f32::NAN, f32::INFINITY, f32::NEG_INFINITY];
    for bits in [0u32, 0x3f00_0000, 0x42aa_0000, 0x4270_0000, 0x42c8_0000, 0x42fe_0000, 0x4300_0000] {
        for d in -2i64..=2 {
            let b = (bits as i64 + d).max(0) as u32;
            out.push(f32::from_bits(b));
            out.push(-f32::from_bits(b));
        }
    }
    for e in 0..=254u32 {
        for m in [0u32, 1, 0x3f_ffff, 0x40_0000, 0x40_0001, 0x7f_ffff] {
            out.push(f32::from_bits((e << 23) | m));
            out.push(-f32::from_bits((e << 23) | m));
        }
    }
    for h in -300..=300 {
        out.push(h as f32 / 2.0);
    }
    out
}

#[test]
fn color_agrees_with_comparison() {
    for p in samples() {
        let expected = if p >= 85.0 {
            RED
        } else if p >= 60.0 {
            AMBER
        } else {
            GREEN
        };
        assert_eq!(ring_color(Some(percent(p))), expected, "{p}");
    }
}

#[test]
fn clamping_agrees_with_the_standard() {
    for p in samples() {
        assert_eq!(clamp_percent(percent(p)).bits, p.clamp(0.0, 100.0).to_bits(), "{p}");
    }
}

#[test]
fn clamping_keeps_colors() {
    for p in samples() {
        assert_eq!(ring_color(Some(clamp_percent(percent(p)))), ring_color(Some(percent(p))), "{p}");
    }
}

#[test]
fn rounding_agrees_with_the_standard() {
    for p in samples() {
        assert_eq!(rounded_percent(percent(p)), p.round() as i8, "{p}");
    }
}

#[test]
fn arc_appears_above_half_a_percent() {
    assert_eq!(ring_arc(None), None);
    assert_eq!(ring_arc(Some(percent(0.0))), None);
    assert_eq!(ring_arc(Some(percent(0.5))), None);
    assert_eq!(ring_arc(Some(percent(62.0))), Some(RingArc { pct: percent(62.0), color: AMBER }));
    assert_eq!(ring_arc(Some(percent(250.0))), Some(RingArc { pct: percent(100.0), color: RED }));
    for p in samples() {
        let frac = (p.clamp(0.0, 100.0) / 100.0).clamp(0.0, 1.0);
        assert_eq!(ring_arc(Some(percent(p))).is_some(), frac > 0.005, "{p}");
    }
}

#[test]
fn texts_agree_with_the_standard() {
    for p in samples() {
        assert_eq!(percent_text(percent(p)), format!("{p:.0}"), "{p}");
    }
    for n in 0..2000u32 {
        let p = n as f32 / 8.0;
        assert_eq!(percent_text(percent(p)), format!("{p:.0}"), "{p}");
    }
    assert_eq!(percent_text(percent(62.5)), "62");
    assert_eq!(percent_text(percent(63.5)), "64");
    assert_eq!(percent_text(percent(f32::NAN)), "NaN");
    assert_eq!(percent_text(percent(f32::NEG_INFINITY)), "-inf");
}

#[test]
fn digits_agree_with_the_standard() {
    for n in [0u128, 7, 10, 99, 1234567890, u64::MAX as u128, u128::MAX] {
        assert_eq!(decimal_text(n), format!("{n}"));
    }
}
