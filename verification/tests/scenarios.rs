use stackblur::blur;
use stackblur::blur::blur_horiz_with;
use stackblur::blur::blur_vert_with;
use stackblur::blur::blur_with;
use stackblur::blur_horiz;
use stackblur::blur_vert;
use stackblur::columns::Line;
use stackblur::error::BlurError;
use stackblur::line::blur_line;
use stackblur::line::blur_line_recomputed;
use stackblur::options::Divisor;
use stackblur::options::Options;
use stackblur::options::Scaler;
use stackblur::grid::holds_grid;
use stackblur::pass::pass_columns;
use stackblur::pass::pass_rows;
use stackblur::pass::Update;

const R: u32 = 0xffff0000;
const G: u32 = 0xff00ff00;
const B: u32 = 0xff0000ff;

fn channels(p: u32) -> [u64; 4] {
    [(p >> 24) as u64 & 255, (p >> 16) as u64 & 255, (p >> 8) as u64 & 255, p as u64 & 255]
}

/// One line blurred by the book: every window summed from scratch, with
/// indices clamped to the line.
fn reference_line(line: &[u32], r: usize, o: Options) -> Vec<u32> {
    let n = line.len() as i64;
    let d = (r * (r + 2) + 1) as u64;
    let m = ((1u64 << 32) + d - 1) / d;
    let mut out = Vec::new();
    for i in 0..n {
        let mut sums = [0u64; 4];
        for k in -(r as i64)..=(r as i64) {
            let j = (i + k).clamp(0, n - 1) as usize;
            let weight = (r as i64 + 1 - k.abs()) as u64;
            let c = channels(line[j]);
            for t in 0..4 {
                sums[t] += weight * c[t];
            }
        }
        let mut q = [0u64; 4];
        for t in 0..4 {
            q[t] = match o.divisor {
                Divisor::Exact => sums[t] / d,
                Divisor::MulShift => (sums[t] * m) >> 32,
            };
        }
        if !o.blur_alpha {
            q[0] = channels(line[i as usize])[0];
        }
        out.push((q[0] << 24 | q[1] << 16 | q[2] << 8 | q[3]) as u32);
    }
    out
}

fn reference_rows(buf: &mut [u32], w: usize, h: usize, r: usize, o: Options) {
    for y in 0..h {
        let row = reference_line(&buf[y * w..(y + 1) * w], r, o);
        buf[y * w..(y + 1) * w].copy_from_slice(&row);
    }
}

fn reference_columns(buf: &mut [u32], w: usize, h: usize, r: usize, o: Options) {
    for x in 0..w {
        let column: Vec<u32> = (0..h).map(|y| buf[y * w + x]).collect();
        let column = reference_line(&column, r, o);
        for y in 0..h {
            buf[y * w + x] = column[y];
        }
    }
}

fn reference_blur(buf: &mut [u32], w: usize, h: usize, r: usize, o: Options) {
    reference_rows(buf, w, h, r, o);
    reference_columns(buf, w, h, r, o);
}

fn noise(n: usize, seed: u32) -> Vec<u32> {
    let mut x = seed;
    (0..n)
        .map(|_| {
            x = x.wrapping_mul(1664525).wrapping_add(1013904223);
            x ^ (x >> 13)
        })
        .collect()
}

#[test]
fn four_by_four_golden() {
    let mut v = vec![R, G, G, R, G, R, B, G, G, B, R, G, R, G, G, R];
    assert_eq!(blur(&mut v, 4, 4, 1), Ok(()));
    assert_eq!(
        v,
        vec![
            0xff9f5f00, 0xff4f9f0f, 0xff3f9f1f, 0xff8f5f0f, 0xff4f9f0f, 0xff5f5f3f, 0xff4f5f4f,
            0xff3f9f1f, 0xff3f9f1f, 0xff4f5f4f, 0xff5f5f3f, 0xff4f9f0f, 0xff8f5f0f, 0xff3f9f1f,
            0xff4f9f0f, 0xff9f5f00
        ]
    );
}

#[test]
fn four_by_four_golden_rows_only() {
    let mut v = vec![R, G, G, R, G, R, B, G, G, B, R, G, R, G, G, R];
    blur_horiz(&mut v, 4, 1);
    assert_eq!(
        v,
        vec![
            0xffbf3f00, 0xff3fbf00, 0xff3fbf00, 0xffbf3f00, 0xff3fbf00, 0xff7f3f3f, 0xff3f3f7f,
            0xff00bf3f, 0xff00bf3f, 0xff3f3f7f, 0xff7f3f3f, 0xff3fbf00, 0xffbf3f00, 0xff3fbf00,
            0xff3fbf00, 0xffbf3f00
        ]
    );
}

#[test]
fn four_by_four_golden_recomputed() {
    let mut v = vec![R, G, G, R, G, R, B, G, G, B, R, G, R, G, G, R];
    assert_eq!(stackblur::recompute::blur(&mut v, 4, 4, 1), Ok(()));
    assert_eq!(
        v,
        vec![
            0xff9f5f00, 0xff4f9f0f, 0xff3f9f1f, 0xff8f5f0f, 0xff4f9f0f, 0xff5f5f3f, 0xff4f5f4f,
            0xff3f9f1f, 0xff3f9f1f, 0xff4f5f4f, 0xff5f5f3f, 0xff4f9f0f, 0xff8f5f0f, 0xff3f9f1f,
            0xff4f9f0f, 0xff9f5f00
        ]
    );
}

#[test]
fn single_row_of_three_radius_one() {
    let mut v = vec![0x10203040, 0x50607080, 0x90a0b0c0];
    blur_horiz(&mut v, 3, 1);
    // (3 * a + b) / 4, (a + 2 * b + c) / 4, (b + 3 * c) / 4
    assert_eq!(v, vec![0x20304050, 0x50607080, 0x8090a0b0]);
}

#[test]
fn boundary_replication_row_of_three_radius_five() {
    let a = 0x10203040;
    let b = 0x50607080;
    let c = 0x90a0b0c0;
    let mut v = vec![a, b, c];
    blur_horiz(&mut v, 3, 5);
    assert_eq!(v, reference_line(&[a, b, c], 5, Options::default()));
    // weights 1..6..1 over a a a a a a b c c c c, and so on: 36 in all
    assert_eq!(v, vec![0x3c4c5c6c, 0x50607080, 0x63738393]);
    // the same row written out with its edges repeated gives the same middle
    let mut wide = vec![a, a, a, a, a, a, b, c, c, c, c, c, c];
    blur_horiz(&mut wide, 13, 5);
    assert_eq!(&wide[5..8], &v[..]);
}

#[test]
fn boundary_replication_column_of_three_radius_five() {
    let mut v = vec![0x10203040, 0x50607080, 0x90a0b0c0];
    assert_eq!(blur_vert(&mut v, 1, 3, 5), Ok(()));
    assert_eq!(v, vec![0x3c4c5c6c, 0x50607080, 0x63738393]);
}

#[test]
fn single_pixel_is_kept_for_every_radius() {
    for radius in 1..=255u8 {
        for p in [0u32, 0x12345678, 0x80000001, u32::MAX] {
            let mut v = vec![p];
            assert_eq!(blur(&mut v, 1, 1, radius), Ok(()));
            assert_eq!(v, vec![p]);
            let mut v = vec![p];
            assert_eq!(stackblur::recompute::blur(&mut v, 1, 1, radius), Ok(()));
            assert_eq!(v, vec![p]);
        }
    }
}

#[test]
fn uniform_image_is_kept() {
    for (w, h) in [(1usize, 1usize), (1, 7), (7, 1), (3, 3), (5, 4), (16, 9)] {
        for radius in [1u8, 2, 3, 15, 100, 254, 255] {
            for blur_alpha in [true, false] {
                for divisor in [Divisor::Exact, Divisor::MulShift] {
                    for p in [0x12345678u32, 0xff0080ff, u32::MAX, 0] {
                        let mut v = vec![p; w * h];
                        let o = Options { blur_alpha, divisor };
                        assert_eq!(blur_with(&mut v, w, h, radius, o), Ok(()));
                        assert_eq!(v, vec![p; w * h]);
                    }
                }
            }
        }
    }
}

#[test]
fn blur_matches_the_reference() {
    for (w, h, radius) in [
        (1usize, 1usize, 1u8),
        (2, 2, 1),
        (5, 3, 1),
        (3, 5, 2),
        (8, 8, 3),
        (17, 11, 5),
        (4, 4, 15),
        (9, 2, 100),
        (2, 9, 254),
    ] {
        let input = noise(w * h, (w * 31 + h) as u32);
        let mut expected = input.clone();
        reference_blur(&mut expected, w, h, radius as usize, Options::default());
        let mut v = input.clone();
        assert_eq!(blur(&mut v, w, h, radius), Ok(()));
        assert_eq!(v, expected);
        let mut v = input.clone();
        assert_eq!(stackblur::recompute::blur(&mut v, w, h, radius), Ok(()));
        assert_eq!(v, expected);
    }
}

#[test]
fn blur_with_options_matches_the_reference() {
    for blur_alpha in [true, false] {
        for divisor in [Divisor::Exact, Divisor::MulShift] {
            let o = Options { blur_alpha, divisor };
            for (w, h, radius) in [(6usize, 5usize, 2u8), (3, 3, 70), (12, 7, 9)] {
                let input = noise(w * h, 99);
                let mut expected = input.clone();
                reference_blur(&mut expected, w, h, radius as usize, o);
                let mut v = input.clone();
                assert_eq!(blur_with(&mut v, w, h, radius, o), Ok(()));
                assert_eq!(v, expected);
            }
        }
    }
}

#[test]
fn alpha_is_kept_where_it_is_not_blurred() {
    let mut v = vec![0x10ff0000, 0x8000ff00, 0xff0000ff, 0x00ffffff];
    let o = Options { blur_alpha: false, divisor: Divisor::Exact };
    assert_eq!(blur_with(&mut v, 2, 2, 1, o), Ok(()));
    assert_eq!(v, vec![0x109f3f3f, 0x805fbf3f, 0xff5f3fbf, 0x009fbfbf]);
}

#[test]
fn passes_one_by_one_make_the_blur() {
    let input = noise(6 * 4, 7);
    let mut whole = input.clone();
    assert_eq!(blur(&mut whole, 6, 4, 2), Ok(()));
    let mut steps = input.clone();
    blur_horiz(&mut steps, 6, 2);
    assert_eq!(blur_vert(&mut steps, 6, 4, 2), Ok(()));
    assert_eq!(steps, whole);
    let mut steps = input.clone();
    let o = Options::default();
    blur_horiz_with(&mut steps, 6, 2, o);
    assert_eq!(blur_vert_with(&mut steps, 6, 4, 2, o), Ok(()));
    assert_eq!(steps, whole);
    let mut steps = input.clone();
    pass_rows(&mut steps, 6, 4, 2, o, Update::Recomputed);
    pass_columns(&mut steps, 6, 4, 2, o, Update::Sliding);
    assert_eq!(steps, whole);
}

#[test]
fn vertical_pass_matches_the_reference() {
    let input = noise(5 * 6, 3);
    let mut expected = input.clone();
    reference_columns(&mut expected, 5, 6, 2, Options::default());
    let mut v = input.clone();
    assert_eq!(blur_vert(&mut v, 5, 6, 2), Ok(()));
    assert_eq!(v, expected);
}

#[test]
fn horizontal_pass_takes_every_whole_row() {
    // 11 pixels in rows of 4: two whole rows, three pixels over
    let input = noise(11, 5);
    let mut expected = input.clone();
    reference_rows(&mut expected, 4, 2, 3, Options::default());
    let mut v = input.clone();
    blur_horiz(&mut v, 4, 3);
    assert_eq!(v, expected);
    assert_eq!(&v[8..], &input[8..]);
    let mut v = input.clone();
    stackblur::recompute::blur_horiz(&mut v, 4, 3);
    assert_eq!(v, expected);
    // no whole row: nothing happens
    let mut v = input.clone();
    blur_horiz(&mut v, 12, 3);
    assert_eq!(v, input);
    let mut none: Vec<u32> = Vec::new();
    blur_horiz(&mut none, 4, 3);
    assert!(none.is_empty());
}

#[test]
fn pixels_behind_the_grid_are_kept() {
    let input = noise(3 * 3 + 5, 11);
    let mut expected = input.clone();
    reference_blur(&mut expected[..9], 3, 3, 2, Options::default());
    let mut v = input.clone();
    assert_eq!(blur(&mut v, 3, 3, 2), Ok(()));
    assert_eq!(v, expected);
    assert_eq!(&v[9..], &input[9..]);
    let mut v = input.clone();
    assert_eq!(stackblur::recompute::blur(&mut v, 3, 3, 2), Ok(()));
    assert_eq!(v, expected);
}

#[test]
fn short_buffer_is_refused_and_kept() {
    let input = noise(9, 1);
    let mut v = input.clone();
    assert_eq!(
        blur(&mut v, 5, 5, 15),
        Err(BlurError::InvalidGeometry { len: 9, width: 5, height: 5 })
    );
    assert_eq!(v, input);
    assert_eq!(
        blur_vert(&mut v, 5, 2, 1),
        Err(BlurError::InvalidGeometry { len: 9, width: 5, height: 2 })
    );
    assert_eq!(v, input);
    assert_eq!(
        blur_with(&mut v, 10, 1, 1, Options::default()),
        Err(BlurError::InvalidGeometry { len: 9, width: 10, height: 1 })
    );
    assert_eq!(
        stackblur::recompute::blur(&mut v, 3, 4, 1),
        Err(BlurError::InvalidGeometry { len: 9, width: 3, height: 4 })
    );
    assert_eq!(v, input);
    assert_eq!(blur(&mut v, 3, 3, 1), Ok(()));
    let mut empty: Vec<u32> = Vec::new();
    assert_eq!(
        blur(&mut empty, 1, 1, 1),
        Err(BlurError::InvalidGeometry { len: 0, width: 1, height: 1 })
    );
}

#[test]
fn huge_dimensions_are_refused_without_overflow() {
    let mut v = vec![1u32, 2, 3, 4];
    assert_eq!(
        blur(&mut v, usize::MAX, usize::MAX, 1),
        Err(BlurError::InvalidGeometry { len: 4, width: usize::MAX, height: usize::MAX })
    );
    assert_eq!(
        blur(&mut v, 2, usize::MAX / 2 + 2, 1),
        Err(BlurError::InvalidGeometry { len: 4, width: 2, height: usize::MAX / 2 + 2 })
    );
    assert_eq!(v, vec![1, 2, 3, 4]);
}

#[test]
fn error_says_what_went_wrong() {
    let e = BlurError::InvalidGeometry { len: 9, width: 5, height: 5 };
    assert_eq!(e.describe(), "the buffer holds fewer pixels than width * height");
}

#[test]
fn holds_grid_compares_with_the_product() {
    assert!(holds_grid(12, 3, 4));
    assert!(holds_grid(13, 3, 4));
    assert!(!holds_grid(11, 3, 4));
    assert!(holds_grid(0, 3, 0));
    assert!(!holds_grid(0, 1, 1));
    assert!(!holds_grid(100, usize::MAX, 2));
    assert!(holds_grid(usize::MAX, 1, usize::MAX));
}

#[test]
fn radius_above_the_largest_is_clamped() {
    let input = noise(7 * 5, 21);
    let mut at_254 = input.clone();
    assert_eq!(blur(&mut at_254, 7, 5, 254), Ok(()));
    let mut at_255 = input.clone();
    assert_eq!(blur(&mut at_255, 7, 5, 255), Ok(()));
    assert_eq!(at_254, at_255);
    let mut expected = input.clone();
    reference_blur(&mut expected, 7, 5, 254, Options::default());
    assert_eq!(at_254, expected);
}

#[test]
fn largest_radius_on_white_and_black_does_not_overflow() {
    // a long line of white, then black: the sums reach 255 * 65025
    let mut v = vec![u32::MAX; 600];
    v.extend(vec![0u32; 600]);
    let mut expected = v.clone();
    reference_rows(&mut expected, 1200, 1, 254, Options::default());
    let mut slid = v.clone();
    blur_horiz(&mut slid, 1200, 254);
    assert_eq!(slid, expected);
    assert_eq!(slid[0], u32::MAX);
    assert_eq!(slid[1199], 0);
    let mut recomputed = v.clone();
    stackblur::recompute::blur_horiz(&mut recomputed, 1200, 254);
    assert_eq!(recomputed, expected);
}

#[test]
fn sliding_and_recomputing_agree() {
    let cases = [(13usize, 9usize, 1u8), (13, 9, 4), (13, 9, 30), (40, 2, 7), (2, 40, 7)];
    for (w, h, radius) in cases {
        let input = noise(w * h, radius as u32);
        let mut slid = input.clone();
        assert_eq!(blur(&mut slid, w, h, radius), Ok(()));
        let mut recomputed = input.clone();
        assert_eq!(stackblur::recompute::blur(&mut recomputed, w, h, radius), Ok(()));
        assert_eq!(slid, recomputed);
    }
}

#[test]
fn line_drivers_blur_a_strided_line() {
    // every third pixel from the second, four of them
    let input = noise(14, 8);
    let line = Line { start: 1, stride: 3, count: 4 };
    let cells: Vec<u32> = (0..4).map(|k| input[1 + 3 * k]).collect();
    let o = Options::default();
    let blurred = reference_line(&cells, 2, o);
    let mut expected = input.clone();
    for k in 0..4 {
        expected[1 + 3 * k] = blurred[k];
    }
    let scaler = Scaler::new(2, o.divisor);
    assert_eq!(scaler.radius(), 2);
    assert_eq!(scaler.strategy(), Divisor::Exact);
    let mut v = input.clone();
    blur_line(&mut v, &line, &scaler, o.blur_alpha);
    assert_eq!(v, expected);
    let mut v = input.clone();
    blur_line_recomputed(&mut v, &line, &scaler, o.blur_alpha);
    assert_eq!(v, expected);
}

#[test]
fn channels_are_blurred_apart() {
    let (w, h, radius) = (6usize, 5usize, 2u8);
    let reds = noise(w * h, 4);
    // red carries a pattern, the other channels are constant
    let input: Vec<u32> = reds.iter().map(|x| 0x80001122 | ((x & 255) << 16)).collect();
    // the pattern alone
    let alone: Vec<u32> = reds.iter().map(|x| (x & 255) << 16).collect();
    let mut v = input.clone();
    assert_eq!(blur(&mut v, w, h, radius), Ok(()));
    let mut a = alone.clone();
    assert_eq!(blur(&mut a, w, h, radius), Ok(()));
    for i in 0..w * h {
        assert_eq!(v[i] & 0xff00ffff, 0x80001122);
        assert_eq!(v[i] & 0x00ff0000, a[i] & 0x00ff0000);
        assert_eq!(a[i] & 0xff00ffff, 0);
    }
}

#[test]
fn divisor_strategies_stay_within_two() {
    for (w, h, radius) in [(9usize, 7usize, 1u8), (9, 7, 3), (9, 7, 70), (30, 3, 64), (5, 5, 254)] {
        let input = noise(w * h, radius as u32 + 1);
        let mut exact = input.clone();
        let o = Options { blur_alpha: true, divisor: Divisor::Exact };
        assert_eq!(blur_with(&mut exact, w, h, radius, o), Ok(()));
        let mut shifted = input.clone();
        let o = Options { blur_alpha: true, divisor: Divisor::MulShift };
        assert_eq!(blur_with(&mut shifted, w, h, radius, o), Ok(()));
        for i in 0..w * h {
            let e = channels(exact[i]);
            let s = channels(shifted[i]);
            for t in 0..4 {
                assert!(e[t] <= s[t] && s[t] <= e[t] + 2);
            }
        }
    }
}

#[test]
fn divisor_strategies_can_differ() {
    // radius 70, divisor 5041: a window that sums to 856969 in blue
    // gives 169 exactly and 170 by multiplication and shift
    let mut line = vec![0u32; 141];
    let mut left = 856969u32;
    // centre the window on index 70: weights 1..71..1
    for (i, p) in line.iter_mut().enumerate() {
        let weight = if i <= 70 { i as u32 + 1 } else { 141 - i as u32 };
        let c = (left / weight).min(255);
        *p = c;
        left -= c * weight;
    }
    assert_eq!(left, 0);
    let mut exact = line.clone();
    let o = Options { blur_alpha: true, divisor: Divisor::Exact };
    blur_horiz_with(&mut exact, 141, 70, o);
    let mut shifted = line.clone();
    let o = Options { blur_alpha: true, divisor: Divisor::MulShift };
    blur_horiz_with(&mut shifted, 141, 70, o);
    assert_eq!(exact[70], 169);
    assert_eq!(shifted[70], 170);
}
