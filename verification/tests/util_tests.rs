use raytrace::fixed::{fx_div, fx_mul, fx_sqrt, SCALE};
use raytrace::rtweekend::{degrees_to_radians, random_double, random_double_2, tan_fx, INFINITY, PI};

#[test]
fn scale_and_constants() {
    assert_eq!(SCALE, 10000);
    assert_eq!(PI, 31416);
    assert!(INFINITY > 1_000_000_000);
}

#[test]
fn fixed_point_arithmetic_is_exact() {
    // 1.5 * 2.0 = 3.0; -1.5 * 2.0 = -3.0 (toward zero)
    assert_eq!(fx_mul(15000, 20000), 30000);
    assert_eq!(fx_mul(-15000, 20000), -30000);
    // 3.0 / 2.0 = 1.5; 1.0 / 3.0 truncates to 0.3333
    assert_eq!(fx_div(30000, 20000), 15000);
    assert_eq!(fx_div(10000, 30000), 3333);
    assert_eq!(fx_div(-10000, 30000), -3333);
    // sqrt(4.0) = 2.0; sqrt(2.0) truncates to 1.4142
    assert_eq!(fx_sqrt(40000), 20000);
    assert_eq!(fx_sqrt(20000), 14142);
    assert_eq!(fx_sqrt(0), 0);
}

#[test]
fn angle_conversion_and_tangent() {
    // 180 degrees is pi radians; 90 degrees is pi/2.
    assert_eq!(degrees_to_radians(1_800_000), 31416);
    assert_eq!(degrees_to_radians(900_000), 15708);
    // tan(0) = 0 and tan(45 degrees) is exactly one on the grid.
    assert_eq!(tan_fx(0), 0);
    assert_eq!(tan_fx(7854), 10000);
    // tan(30 degrees) is near 0.5774.
    let t30 = tan_fx(degrees_to_radians(300_000));
    assert!(5700 < t30 && t30 < 5850);
}

#[test]
fn uniform_draws_respect_their_ranges() {
    for _ in 0..256 {
        let d = random_double();
        assert!(0 <= d && d < SCALE);
        let e = random_double_2(-3, 7);
        assert!(-3 <= e && e < 7);
        let f = random_double_2(-20000, -10000);
        assert!(-20000 <= f && f < -10000);
    }
}
