use space_maze::fixmath::atan2_deg10;
use space_maze::fixmath::cos_deg10;
use space_maze::fixmath::isqrt;
use space_maze::fixmath::normalize_angle;
use space_maze::fixmath::sin_deg10;
use space_maze::fixmath::FP_ONE;

#[test]
fn sine_is_exact_at_axis_directions() {
    assert_eq!(sin_deg10(0), 0);
    assert_eq!(sin_deg10(900), FP_ONE);
    assert_eq!(sin_deg10(1800), 0);
    assert_eq!(sin_deg10(2700), -FP_ONE);
    assert_eq!(cos_deg10(0), FP_ONE);
    assert_eq!(cos_deg10(900), 0);
    assert_eq!(cos_deg10(1800), -FP_ONE);
    assert_eq!(cos_deg10(2700), 0);
}

#[test]
fn sine_stays_in_unit_range() {
    let mut a: i64 = -7200;
    while a <= 7200 {
        let s = sin_deg10(a);
        let c = cos_deg10(a);
        assert!(-FP_ONE <= s && s <= FP_ONE);
        assert!(-FP_ONE <= c && c <= FP_ONE);
        a += 37;
    }
}

#[test]
fn sine_is_close_to_the_real_sine() {
    let mut a: i64 = 0;
    while a < 3600 {
        let s = sin_deg10(a) as f64 / FP_ONE as f64;
        let exact = (a as f64 * std::f64::consts::PI / 1800.0).sin();
        assert!((s - exact).abs() < 0.01, "angle {} gave {} vs {}", a, s, exact);
        a += 10;
    }
}

#[test]
fn normalize_angle_wraps_into_one_turn() {
    assert_eq!(normalize_angle(0), 0);
    assert_eq!(normalize_angle(3600), 0);
    assert_eq!(normalize_angle(3700), 100);
    assert_eq!(normalize_angle(-100), 3500);
    assert_eq!(normalize_angle(-3600), 0);
    assert_eq!(normalize_angle(-7300), 3500);
}

#[test]
fn atan2_is_exact_on_the_axes_and_diagonal() {
    assert_eq!(atan2_deg10(0, 5000), 0);
    assert_eq!(atan2_deg10(5000, 0), 900);
    assert_eq!(atan2_deg10(0, -5000), 1800);
    assert_eq!(atan2_deg10(-5000, 0), -900);
    assert_eq!(atan2_deg10(7777, 7777), 450);
    assert_eq!(atan2_deg10(0, 0), 0);
}

#[test]
fn isqrt_brackets_its_argument() {
    assert_eq!(isqrt(0), 0);
    assert_eq!(isqrt(1), 1);
    assert_eq!(isqrt(15), 3);
    assert_eq!(isqrt(16), 4);
    assert_eq!(isqrt(1024 * 1024), 1024);
    let n: i64 = 123456789;
    let r = isqrt(n);
    assert!(r * r <= n && (r + 1) * (r + 1) > n);
}

#[test]
fn atan2_is_close_to_the_real_arc_tangent() {
    let mut k: i64 = 0;
    while k < 200 {
        let y = -9000 + 90 * k + 7;
        let x = 4000 - 37 * k;
        if x != 0 || y != 0 {
            let got = atan2_deg10(y, x) as f64 / 10.0;
            let exact = (y as f64).atan2(x as f64).to_degrees();
            let mut diff = (got - exact).abs();
            if diff > 180.0 {
                diff = 360.0 - diff;
            }
            assert!(diff < 0.5, "atan2({}, {}) gave {} vs {}", y, x, got, exact);
        }
        k += 1;
    }
}
