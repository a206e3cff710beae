use ploot::canvas::{dash, dot, dot_dash, dot_dot_dash, small_dot, solid, PIXEL_MAP};
use ploot::options::DashType;

#[test]
fn pixel_map_covers_all_bits() {
    let mut all = 0u8;
    for row in &PIXEL_MAP {
        for &bit in row {
            all |= bit;
        }
    }
    assert_eq!(all, 0xFF);
}

#[test]
fn solid_always_on() {
    for i in 0..20 {
        assert!(solid().is_on(i));
    }
}

#[test]
fn dash_pattern_alternates() {
    for i in 0..6 {
        assert!(dash().is_on(i), "step {i} should be on");
    }
    for i in 6..10 {
        assert!(!dash().is_on(i), "step {i} should be off");
    }
    assert!(dash().is_on(10));
}

// ── Further cases ───────────────────────────────────────────────────────

#[test]
fn dot_dash_pattern_steps() {
    let p = dot_dash();
    let expected = [
        true, true, false, false, false, false, true, true, true, true, true, true, false, false,
        false, false,
    ];
    for (i, e) in expected.iter().enumerate() {
        assert_eq!(p.is_on(i), *e, "step {i}");
    }
    // one period later the pattern repeats
    for (i, e) in expected.iter().enumerate() {
        assert_eq!(p.is_on(i + 16), *e, "step {}", i + 16);
    }
}

#[test]
fn dot_dot_dash_and_small_dot_periods() {
    let p = dot_dot_dash();
    let on: Vec<usize> = (0..22).filter(|&i| p.is_on(i)).collect();
    assert_eq!(on, vec![0, 1, 6, 7, 12, 13, 14, 15, 16, 17]);
    let s = small_dot();
    let on: Vec<usize> = (0..9).filter(|&i| s.is_on(i)).collect();
    assert_eq!(on, vec![0, 4, 8]);
    let d = dot();
    let on: Vec<usize> = (0..13).filter(|&i| d.is_on(i)).collect();
    assert_eq!(on, vec![0, 1, 6, 7, 12]);
}

#[test]
fn dash_pattern_is_periodic_far_out() {
    let p = dash();
    for i in 0..10 {
        assert_eq!(p.is_on(i), p.is_on(i + 10 * 1000));
    }
}

#[test]
fn dash_types_map_to_their_segments() {
    assert_eq!(DashType::Solid.to_pattern().segments, &[1]);
    assert_eq!(DashType::Dash.to_pattern().segments, &[6, 4]);
    assert_eq!(DashType::Dot.to_pattern().segments, &[2, 4]);
    assert_eq!(DashType::DotDash.to_pattern().segments, &[2, 4, 6, 4]);
    assert_eq!(DashType::DotDotDash.to_pattern().segments, &[2, 4, 2, 4, 6, 4]);
    assert_eq!(DashType::SmallDot.to_pattern().segments, &[1, 3]);
}

#[test]
fn segment_holding_the_step_decides() {
    let p = dash();
    for step in 0..6 {
        assert!(p.is_on(step));
    }
    for step in 6..10 {
        assert!(!p.is_on(step));
    }
    assert!(p.is_on(10));
    let q = dot_dash();
    // segments 2, 4, 6, 4: steps 6..12 fall in segment 2 (on), 12..16 in segment 3 (off)
    assert!(q.is_on(6) && q.is_on(11) && !q.is_on(12) && !q.is_on(15) && q.is_on(16));
}
