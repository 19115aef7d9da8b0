use stackblur::options::Divisor;
use stackblur::options::Options;
use stackblur::options::Scaler;
use stackblur::options::MAX_RADIUS;
use stackblur::options::clamp_radius;

#[test]
fn default_options_blur_alpha_exactly() {
    let o = Options::default();
    assert!(o.blur_alpha);
    assert_eq!(o.divisor, Divisor::Exact);
}

#[test]
fn radius_is_clamped_to_the_largest() {
    assert_eq!(MAX_RADIUS, 254);
    assert_eq!(clamp_radius(1), 1);
    assert_eq!(clamp_radius(15), 15);
    assert_eq!(clamp_radius(254), 254);
    assert_eq!(clamp_radius(255), 254);
}

#[test]
fn exact_scaler_divides_by_the_sum_of_weights() {
    // radius 1: divisor 4
    let s = Scaler::new(1, Divisor::Exact);
    assert_eq!(s.scale(0), 0);
    assert_eq!(s.scale(3), 0);
    assert_eq!(s.scale(4), 1);
    assert_eq!(s.scale(7), 1);
    assert_eq!(s.scale(1020), 255);
    // radius 15: divisor 256
    let s = Scaler::new(15, Divisor::Exact);
    assert_eq!(s.scale(255), 0);
    assert_eq!(s.scale(256), 1);
    assert_eq!(s.scale(255 * 256), 255);
    // radius 254: divisor 65025
    let s = Scaler::new(254, Divisor::Exact);
    assert_eq!(s.scale(65024), 0);
    assert_eq!(s.scale(65025), 1);
    assert_eq!(s.scale(255 * 65025), 255);
}

#[test]
fn shifting_scaler_is_exact_or_one_more() {
    // radius 70: divisor 5041
    let exact = Scaler::new(70, Divisor::Exact);
    let shifted = Scaler::new(70, Divisor::MulShift);
    assert_eq!(exact.scale(856969), 169);
    assert_eq!(shifted.scale(856969), 170);
    assert_eq!(exact.scale(5041), 1);
    assert_eq!(shifted.scale(5041), 1);
    assert_eq!(shifted.scale(0), 0);
    assert_eq!(shifted.scale(255 * 5041), 255);
}

#[test]
fn scalers_differ_by_at_most_one() {
    for radius in 1..=254u32 {
        let d = radius * (radius + 2) + 1;
        let exact = Scaler::new(radius, Divisor::Exact);
        let shifted = Scaler::new(radius, Divisor::MulShift);
        let mut sums = vec![0, 1, d - 1, d, d + 1, 255 * d - 1, 255 * d, 128 * d + d - 1];
        let mut x: u32 = radius;
        for _ in 0..50 {
            x = x.wrapping_mul(1664525).wrapping_add(1013904223);
            sums.push(x % (255 * d + 1));
        }
        for sum in sums {
            let e = exact.scale(sum);
            let s = shifted.scale(sum);
            assert_eq!(e, sum / d);
            assert!(s == e || s == e + 1);
            assert!(s <= 255);
        }
    }
}

#[test]
fn scalers_keep_multiples_of_the_divisor() {
    for radius in [1u32, 2, 63, 64, 70, 200, 254] {
        let d = radius * (radius + 2) + 1;
        for strategy in [Divisor::Exact, Divisor::MulShift] {
            let s = Scaler::new(radius, strategy);
            for c in [0u32, 1, 127, 128, 254, 255] {
                assert_eq!(s.scale(c * d), c);
            }
        }
    }
}
