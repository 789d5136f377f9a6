use termrocket::bitmap::Bitmap;
use termrocket::codec::encode_png;
use termrocket::codec::EncodeError;
use termrocket::color::Color;
use termrocket::raster::blend_pixel;
use termrocket::raster::draw_flame;
use termrocket::raster::draw_rocket;

fn rgba(r: u8, g: u8, b: u8, a: u8) -> Color {
    Color { r, g, b, a }
}

const CLEAR: Color = Color { r: 0, g: 0, b: 0, a: 0 };
const FIN: Color = Color { r: 127, g: 14, b: 39, a: 255 };
const CORE: Color = Color { r: 255, g: 237, b: 213, a: 255 };
const RIM: Color = Color { r: 244, g: 82, b: 36, a: 255 };

#[test]
fn new_bitmap_is_transparent() {
    let img = Bitmap::new(3, 2);
    assert_eq!(img.width(), 3);
    assert_eq!(img.height(), 2);
    for y in 0..2 {
        for x in 0..3 {
            assert_eq!(img.get_pixel(x, y), CLEAR);
        }
    }
}

#[test]
fn put_pixel_changes_one_pixel() {
    let mut img = Bitmap::new(4, 3);
    img.put_pixel(2, 1, rgba(9, 8, 7, 6));
    for y in 0..3 {
        for x in 0..4 {
            let want = if (x, y) == (2, 1) { rgba(9, 8, 7, 6) } else { CLEAR };
            assert_eq!(img.get_pixel(x, y), want);
        }
    }
    assert_eq!(img.width(), 4);
    assert_eq!(img.height(), 3);
}

#[test]
fn blend_pixel_composites_over_what_is_there() {
    let mut img = Bitmap::new(2, 2);
    img.put_pixel(1, 0, rgba(100, 100, 100, 200));
    blend_pixel(&mut img, 1, 0, rgba(200, 0, 100, 51));
    assert_eq!(img.get_pixel(1, 0), rgba(120, 80, 100, 200));
    blend_pixel(&mut img, 0, 1, rgba(200, 0, 100, 51));
    assert_eq!(img.get_pixel(0, 1), rgba(40, 0, 20, 51));
    assert_eq!(img.get_pixel(0, 0), CLEAR);
    assert_eq!(img.get_pixel(1, 1), CLEAR);
}

#[test]
fn rocket_has_its_size() {
    let img = draw_rocket();
    assert_eq!(img.width(), 256);
    assert_eq!(img.height(), 384);
}

#[test]
fn rocket_is_the_same_every_time() {
    let a = draw_rocket();
    let b = draw_rocket();
    for y in 0..384 {
        for x in 0..256 {
            assert_eq!(a.get_pixel(x, y), b.get_pixel(x, y));
        }
    }
}

#[test]
fn rocket_nose_and_body() {
    let img = draw_rocket();
    assert_eq!(img.get_pixel(0, 0), CLEAR);
    assert_eq!(img.get_pixel(128, 29), CLEAR);
    assert_eq!(img.get_pixel(128, 30), rgba(196, 26, 59, 255));
    assert_eq!(img.get_pixel(127, 30), CLEAR);
    assert_eq!(img.get_pixel(129, 30), CLEAR);
    assert_eq!(img.get_pixel(128, 31), rgba(196, 26, 59, 255));
    assert_eq!(img.get_pixel(96, 100), rgba(209, 28, 64, 255));
    assert_eq!(img.get_pixel(100, 100), rgba(207, 27, 63, 255));
    assert_eq!(img.get_pixel(128, 100), rgba(196, 26, 59, 255));
    assert_eq!(img.get_pixel(160, 100), rgba(183, 25, 55, 255));
    assert_eq!(img.get_pixel(95, 100), CLEAR);
    assert_eq!(img.get_pixel(161, 100), CLEAR);
    assert_eq!(img.get_pixel(128, 205), rgba(196, 26, 59, 255));
}

#[test]
fn rocket_body_tapers_at_its_end() {
    let img = draw_rocket();
    let left_edge = |y: u32| (0..256).find(|&x| img.get_pixel(x, y).a != 0).unwrap();
    // rows 90 ..= 192 are 32 wide on either side, row 193 is 31, row 209 is 29
    assert_eq!(img.get_pixel(96, 179), rgba(209, 28, 64, 255));
    assert_eq!(img.get_pixel(95, 179), CLEAR);
    assert_eq!(left_edge(150), 96);
    assert_eq!(img.get_pixel(157, 195), rgba(184, 25, 55, 255));
    assert_eq!(img.get_pixel(99, 195), rgba(208, 27, 63, 255));
}

#[test]
fn rocket_fins_are_behind_the_body() {
    let img = draw_rocket();
    assert_eq!(img.get_pixel(163, 200), FIN);
    assert_eq!(img.get_pixel(93, 200), FIN);
    assert_eq!(img.get_pixel(128 + 31, 200), FIN);
    // the body covers the inner end of the fin
    assert_eq!(img.get_pixel(128 + 30, 185), rgba(184, 25, 55, 255));
    assert_eq!(img.get_pixel(128 + 33, 185), FIN);
    // the fins go on below the body
    assert_eq!(img.get_pixel(128 + 35, 224), FIN);
    assert_eq!(img.get_pixel(128 - 43, 224), FIN);
    assert_eq!(img.get_pixel(128 + 44, 224), CLEAR);
    assert_eq!(img.get_pixel(128 + 34, 224), CLEAR);
    assert_eq!(img.get_pixel(128 + 35, 225), CLEAR);
    // the first row of the fins is empty: it ends where it begins
    assert_eq!(img.get_pixel(128 + 33, 180), CLEAR);
}

#[test]
fn rocket_flame_glows_over_the_body() {
    let img = draw_rocket();
    assert_eq!(img.get_pixel(128, 207), CORE);
    assert_eq!(img.get_pixel(128, 208), CORE);
    assert_eq!(img.get_pixel(135, 209), rgba(242, 80, 36, 255));
    assert_eq!(img.get_pixel(143, 207), RIM);
    assert_eq!(img.get_pixel(113, 207), RIM);
    assert_eq!(img.get_pixel(112, 207), rgba(203, 27, 62, 255));
    assert_eq!(img.get_pixel(144, 207), rgba(189, 25, 57, 255));
    assert_eq!(img.get_pixel(128, 210), CORE);
    assert_eq!(img.get_pixel(120, 215), rgba(215, 72, 31, 225));
    assert_eq!(img.get_pixel(136, 215), rgba(215, 72, 31, 225));
    assert_eq!(img.get_pixel(128, 250), CORE);
    assert_eq!(img.get_pixel(128, 276), CORE);
    assert_eq!(img.get_pixel(128, 277), CLEAR);
    assert_eq!(img.get_pixel(129, 276), CLEAR);
}

#[test]
fn rocket_matches_its_checksum() {
    let img = draw_rocket();
    let mut sum: u32 = 0;
    let mut painted = 0;
    for y in 0..384 {
        for x in 0..256 {
            let c = img.get_pixel(x, y);
            for v in [c.r, c.g, c.b, c.a] {
                sum = sum.wrapping_mul(31).wrapping_add(v as u32);
            }
            if c.a != 0 {
                painted += 1;
            }
        }
    }
    assert_eq!(painted, 12315);
    assert_eq!(sum, 273591264);
}

#[test]
fn flame_on_an_empty_bitmap() {
    let mut img = Bitmap::new(40, 80);
    draw_flame(&mut img, 5, 3, 30);
    // the axis is column 20, the base is row 3 and 15 wide on either side
    assert_eq!(img.get_pixel(20, 3), CORE);
    assert_eq!(img.get_pixel(4, 3), CLEAR);
    assert_eq!(img.get_pixel(5, 3), RIM);
    assert_eq!(img.get_pixel(35, 3), RIM);
    assert_eq!(img.get_pixel(36, 3), CLEAR);
    assert_eq!(img.get_pixel(20, 2), CLEAR);
    // one row down it is 14 wide; the rim has faded to 69 / 70 of 255
    assert_eq!(img.get_pixel(34, 4), rgba(240, 80, 35, 251));
    assert_eq!(img.get_pixel(35, 4), CLEAR);
    // the inner two fifths run from the core to the rim
    assert_eq!(img.get_pixel(21, 3), rgba(253, 211, 183, 255));
    assert_eq!(img.get_pixel(19, 3), rgba(253, 211, 183, 255));
    // the last rows are the axis alone
    assert_eq!(img.get_pixel(20, 72), CORE);
    assert_eq!(img.get_pixel(21, 72), CLEAR);
    assert_eq!(img.get_pixel(20, 73), CLEAR);
}

#[test]
fn flame_is_clipped_at_the_edges() {
    let mut img = Bitmap::new(10, 10);
    draw_flame(&mut img, -20, -65, 30);
    // the axis is column -5: only rows 65 .. 70 of the flame reach the
    // bitmap, and they are the axis alone
    for y in 0..10 {
        for x in 0..10 {
            assert_eq!(img.get_pixel(x, y), CLEAR);
        }
    }
    let mut img = Bitmap::new(10, 10);
    draw_flame(&mut img, 0, -60, 12);
    // rows 60 .. 70 of the flame, around column 6
    assert_eq!(img.get_pixel(6, 0), CORE);
    assert_eq!(img.get_pixel(6, 9), CORE);
    assert_eq!(img.get_pixel(5, 9), CLEAR);
    assert_eq!(img.get_pixel(0, 0), CLEAR);
}

#[test]
fn flame_of_no_width_is_its_axis() {
    let mut img = Bitmap::new(5, 75);
    draw_flame(&mut img, 2, 0, 0);
    for y in 0..70 {
        assert_eq!(img.get_pixel(2, y), CORE);
        assert_eq!(img.get_pixel(1, y), CLEAR);
        assert_eq!(img.get_pixel(3, y), CLEAR);
    }
    assert_eq!(img.get_pixel(2, 70), CLEAR);
}

#[test]
fn png_starts_with_the_signature() {
    let png = encode_png(&draw_rocket()).unwrap();
    assert_eq!(&png[..8], &[0x89, b'P', b'N', b'G', 0x0d, 0x0a, 0x1a, 0x0a]);
}

#[test]
fn png_is_lossless() {
    let img = draw_rocket();
    let png = encode_png(&img).unwrap();
    let back = image::load_from_memory(&png).unwrap().into_rgba8();
    assert_eq!(back.width(), 256);
    assert_eq!(back.height(), 384);
    for y in 0..384 {
        for x in 0..256 {
            let c = img.get_pixel(x, y);
            assert_eq!(back.get_pixel(x, y).0, [c.r, c.g, c.b, c.a]);
        }
    }
}

#[test]
fn png_is_the_same_every_time() {
    let a = encode_png(&draw_rocket()).unwrap();
    let b = encode_png(&draw_rocket()).unwrap();
    assert_eq!(a, b);
}

#[test]
fn png_of_a_small_bitmap_reads_back() {
    let mut img = Bitmap::new(2, 1);
    img.put_pixel(0, 0, rgba(1, 2, 3, 4));
    img.put_pixel(1, 0, rgba(250, 251, 252, 253));
    let png = encode_png(&img).unwrap();
    let back = image::load_from_memory(&png).unwrap().into_rgba8();
    assert_eq!(back.into_raw(), vec![1, 2, 3, 4, 250, 251, 252, 253]);
}

#[test]
fn png_of_nothing_is_refused() {
    assert_eq!(encode_png(&Bitmap::new(0, 0)), Err(EncodeError));
    assert_eq!(encode_png(&Bitmap::new(0, 5)), Err(EncodeError));
    assert_eq!(encode_png(&Bitmap::new(5, 0)), Err(EncodeError));
}

#[test]
fn flame_far_wider_than_the_bitmap() {
    let mut img = Bitmap::new(10, 80);
    // the axis is column 5; the bitmap shows the innermost part of the core
    draw_flame(&mut img, -99995, 3, 200001);
    assert_eq!(img.get_pixel(5, 2), CLEAR);
    assert_eq!(img.get_pixel(5, 3), CORE);
    assert_eq!(img.get_pixel(0, 3), rgba(254, 236, 212, 255));
    assert_eq!(img.get_pixel(9, 3), rgba(254, 236, 212, 255));
    assert_eq!(img.get_pixel(0, 40), rgba(254, 236, 212, 255));
    // in its last row the flame is still 1144 wide on either side
    assert_eq!(img.get_pixel(5, 72), CORE);
    assert_eq!(img.get_pixel(0, 72), rgba(254, 235, 211, 255));
    assert_eq!(img.get_pixel(9, 72), rgba(254, 235, 211, 255));
    assert_eq!(img.get_pixel(5, 73), CLEAR);
}

#[test]
fn flame_of_negative_width_is_the_axis_where_it_is_narrowest() {
    // half a pixel wide: the axis alone, in every row
    let mut img = Bitmap::new(7, 75);
    draw_flame(&mut img, 3, 0, -1);
    assert_eq!(img.get_pixel(3, 0), CORE);
    assert_eq!(img.get_pixel(3, 69), CORE);
    assert_eq!(img.get_pixel(3, 70), CLEAR);
    assert_eq!(img.get_pixel(2, 0), CLEAR);
    assert_eq!(img.get_pixel(4, 10), CLEAR);
    // thirty wide: nothing but the axis over the last five rows, and the
    // axis is fifteen to the left
    for width in [-30, -31] {
        let mut img = Bitmap::new(40, 75);
        draw_flame(&mut img, 20, 0, width);
        for y in 0..75 {
            for x in 0..40 {
                let want = if x == 5 && (65..70).contains(&y) { CORE } else { CLEAR };
                assert_eq!(img.get_pixel(x, y), want);
            }
        }
    }
}
