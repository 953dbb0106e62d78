use synth_tiles::geom::{lerp_coord, dist_sq, screen_to_world, Vec2I};
use synth_tiles::trig::{exp_neg_milli, sin_milli};

#[test]
fn sine_anchor_points() {
    assert_eq!(sin_milli(0), 0);
    assert_eq!(sin_milli(250), 1000);
    assert_eq!(sin_milli(500), 0);
    assert_eq!(sin_milli(750), -1000);
}

#[test]
fn sine_tracks_the_real_sine() {
    for p in 0..1000u64 {
        let approx = sin_milli(p) as f64 / 1000.0;
        let exact = (2.0 * std::f64::consts::PI * p as f64 / 1000.0).sin();
        assert!(
            (approx - exact).abs() < 0.003,
            "phase {p}: {approx} vs {exact}"
        );
    }
}

#[test]
fn sine_is_odd_around_the_half_turn() {
    for p in 1..500u64 {
        assert_eq!(sin_milli(p), -sin_milli(p + 500));
    }
}

#[test]
fn exponential_tracks_the_real_exponential() {
    for x in (0..14000u64).step_by(37) {
        let approx = exp_neg_milli(x) as f64 / 1000.0;
        let exact = (-(x as f64) / 1000.0).exp();
        assert!(
            (approx - exact).abs() < 0.012,
            "arg {x}: {approx} vs {exact}"
        );
    }
    assert_eq!(exp_neg_milli(0), 1000);
    assert_eq!(exp_neg_milli(20000), 0);
}

#[test]
fn smoothing_moves_two_fifths_of_the_gap() {
    assert_eq!(lerp_coord(0, 1000), 400);
    assert_eq!(lerp_coord(1000, 0), 600);
    assert_eq!(lerp_coord(-500, 500), -100);
    assert_eq!(lerp_coord(7, 7), 7);
}

#[test]
fn smoothing_converges_within_a_unit_after_fifty_ticks() {
    let target: i64 = 260_000;
    let mut c: i64 = -260_000;
    let mut prev_gap = (target - c).abs();
    for _ in 0..50 {
        c = lerp_coord(c, target);
        let gap = (target - c).abs();
        assert!(gap <= prev_gap, "the gap must shrink monotonically");
        prev_gap = gap;
    }
    assert!((target - c).abs() < 1000, "still {} milliunits away", target - c);
}

#[test]
fn squared_distance() {
    let a = Vec2I { x: 3000, y: 4000 };
    let o = Vec2I { x: 0, y: 0 };
    assert_eq!(dist_sq(a, o), 25_000_000);
    assert_eq!(dist_sq(a, a), 0);
}

#[test]
fn screen_coordinates_become_canvas_coordinates() {
    let p = screen_to_world(0, 0, 800_000, 600_000);
    assert_eq!((p.x, p.y), (-400_000, 300_000));
    let q = screen_to_world(400_000, 300_000, 800_000, 600_000);
    assert_eq!((q.x, q.y), (0, 0));
    let r = screen_to_world(800_000, 600_000, 800_000, 600_000);
    assert_eq!((r.x, r.y), (400_000, -300_000));
}
