use stackblur::pixel::alpha;
use stackblur::pixel::blue;
use stackblur::pixel::extract;
use stackblur::pixel::green;
use stackblur::pixel::pixel;
use stackblur::pixel::red;
use stackblur::pixel::Channel;

#[test]
fn channels_of_a_pixel() {
    let p = 0x12345678;
    assert_eq!(alpha(p), 0x12);
    assert_eq!(red(p), 0x34);
    assert_eq!(green(p), 0x56);
    assert_eq!(blue(p), 0x78);
}

#[test]
fn channels_of_the_extremes() {
    assert_eq!(alpha(0), 0);
    assert_eq!(blue(0), 0);
    assert_eq!(alpha(u32::MAX), 255);
    assert_eq!(red(u32::MAX), 255);
    assert_eq!(green(u32::MAX), 255);
    assert_eq!(blue(u32::MAX), 255);
    assert_eq!(alpha(0xff000000), 255);
    assert_eq!(red(0xff000000), 0);
}

#[test]
fn extract_names_the_channel() {
    let p = 0xa1b2c3d4;
    assert_eq!(extract(p, Channel::Alpha), 0xa1);
    assert_eq!(extract(p, Channel::Red), 0xb2);
    assert_eq!(extract(p, Channel::Green), 0xc3);
    assert_eq!(extract(p, Channel::Blue), 0xd4);
}

#[test]
fn pixel_packs_four_channels() {
    assert_eq!(pixel(0x12, 0x34, 0x56, 0x78), 0x12345678);
    assert_eq!(pixel(0, 0, 0, 0), 0);
    assert_eq!(pixel(255, 255, 255, 255), u32::MAX);
    assert_eq!(pixel(255, 0, 0, 0), 0xff000000);
    assert_eq!(pixel(0, 0, 0, 1), 1);
}

#[test]
fn packing_undoes_extraction() {
    for p in [0u32, 1, 0x12345678, 0x80000000, 0xff00ff00, 0xdeadbeef, u32::MAX] {
        assert_eq!(pixel(alpha(p), red(p), green(p), blue(p)), p);
    }
}

#[test]
fn extraction_undoes_packing() {
    for (a, r, g, b) in [(0, 0, 0, 0), (255, 255, 255, 255), (1, 2, 3, 4), (200, 0, 17, 255)] {
        let p = pixel(a, r, g, b);
        assert_eq!((alpha(p), red(p), green(p), blue(p)), (a, r, g, b));
    }
}

#[test]
fn pixel_lets_wide_arguments_run_over() {
    // bits above the low eight of an argument land in the channel above
    assert_eq!(pixel(0, 0, 0, 0x100), 0x00000100);
    assert_eq!(pixel(0, 0, 0x1ff, 0), 0x0001ff00);
    assert_eq!(pixel(0x1ff, 0, 0, 0), 0xff000000);
}
