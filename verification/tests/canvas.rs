use captcha::{CaptchaError, Geometry, Image, Pixl};

fn white() -> Pixl {
    Pixl::new(255, 255, 255)
}

#[test]
fn new_fills_background() {
    let img = Image::new(7, 5).unwrap();
    for y in 0..5 {
        for x in 0..7 {
            assert_eq!(img.get_pixel(x, y), white());
        }
    }
    assert_eq!(img.width(), 7);
    assert_eq!(img.height(), 5);
}

#[test]
fn new_rejects_zero_dimensions() {
    assert_eq!(Image::new(0, 5).unwrap_err(), CaptchaError::InvalidDimensions);
    assert_eq!(Image::new(5, 0).unwrap_err(), CaptchaError::InvalidDimensions);
    assert_eq!(Image::new(0, 0).unwrap_err(), CaptchaError::InvalidDimensions);
}

#[test]
fn put_then_get_returns_written_pixel() {
    let mut img = Image::new(4, 4).unwrap();
    let p = Pixl::new(10, 20, 30);
    img.put_pixel(2, 3, p);
    assert_eq!(img.get_pixel(2, 3), p);
    assert_eq!(img.get_pixel(2, 2), white());
}

#[test]
fn out_of_range_put_changes_nothing() {
    let mut img = Image::new(4, 4).unwrap();
    img.put_pixel(4, 0, Pixl::black());
    img.put_pixel(0, 4, Pixl::black());
    img.put_pixel(1000, 1000, Pixl::black());
    for y in 0..4 {
        for x in 0..4 {
            assert_eq!(img.get_pixel(x, y), white());
        }
    }
}

#[test]
fn fill_circle_paints_exactly_the_disk() {
    let mut img = Image::new(9, 9).unwrap();
    let p = Pixl::new(1, 2, 3);
    img.fill_circle(4, 4, 2, p);
    for y in 0..9i64 {
        for x in 0..9i64 {
            let d2 = (x - 4) * (x - 4) + (y - 4) * (y - 4);
            let inside = ((d2 as f64).sqrt() as i64) <= 2;
            let got = img.get_pixel(x as u32, y as u32);
            if inside {
                assert_eq!(got, p, "pixel {} {} should be painted", x, y);
            } else {
                assert_eq!(got, white(), "pixel {} {} should be untouched", x, y);
            }
        }
    }
}

#[test]
fn fill_circle_clips_at_the_border() {
    let mut img = Image::new(3, 3).unwrap();
    img.fill_circle(0, 0, 1, Pixl::black());
    assert_eq!(img.get_pixel(0, 0), Pixl::black());
    assert_eq!(img.get_pixel(1, 0), Pixl::black());
    assert_eq!(img.get_pixel(0, 1), Pixl::black());
    assert_eq!(img.get_pixel(2, 2), white());
}

#[test]
fn extract_full_rectangle_is_identity() {
    let mut img = Image::new(6, 4).unwrap();
    for y in 0..4 {
        for x in 0..6 {
            img.put_pixel(x, y, Pixl::new((x * 10) as u8, (y * 10) as u8, 7));
        }
    }
    let full = Geometry::new(0, 5, 0, 3);
    let out = img.extract(&full).unwrap();
    assert_eq!(out.width(), 6);
    assert_eq!(out.height(), 4);
    for y in 0..4 {
        for x in 0..6 {
            assert_eq!(out.get_pixel(x, y), img.get_pixel(x, y));
        }
    }
}

#[test]
fn extract_sub_rectangle() {
    let mut img = Image::new(6, 4).unwrap();
    img.put_pixel(2, 1, Pixl::black());
    let out = img.extract(&Geometry::new(2, 4, 1, 2)).unwrap();
    assert_eq!(out.width(), 3);
    assert_eq!(out.height(), 2);
    assert_eq!(out.get_pixel(0, 0), Pixl::black());
    assert_eq!(out.get_pixel(1, 0), white());
}

#[test]
fn extract_rejects_bad_rectangles() {
    let img = Image::new(6, 4).unwrap();
    assert_eq!(
        img.extract(&Geometry::new(3, 2, 0, 1)).unwrap_err(),
        CaptchaError::InvalidDimensions
    );
    assert_eq!(
        img.extract(&Geometry::new(0, 6, 0, 1)).unwrap_err(),
        CaptchaError::GeometryUnderflow
    );
    assert_eq!(
        img.extract(&Geometry::new(0, 2, 0, 4)).unwrap_err(),
        CaptchaError::GeometryUnderflow
    );
}

#[test]
fn add_image_copies_and_clips() {
    let mut base = Image::new(4, 4).unwrap();
    let mut top = Image::new(2, 2).unwrap();
    let p = Pixl::new(9, 9, 9);
    top.put_pixel(0, 0, p);
    top.put_pixel(1, 1, p);
    base.add_image(3, 3, &top);
    assert_eq!(base.get_pixel(3, 3), p);
    assert_eq!(base.get_pixel(2, 2), white());
    // the rest of `top` fell outside and was clipped silently
    for y in 0..4 {
        for x in 0..4 {
            if !(x == 3 && y == 3) {
                assert_eq!(base.get_pixel(x, y), white());
            }
        }
    }
}

#[test]
fn clear_resets_to_background() {
    let mut img = Image::new(3, 3).unwrap();
    img.fill_circle(1, 1, 5, Pixl::black());
    img.clear();
    for y in 0..3 {
        for x in 0..3 {
            assert_eq!(img.get_pixel(x, y), white());
        }
    }
}

#[test]
fn set_color_replaces_only_pure_black() {
    let mut img = Image::new(3, 1).unwrap();
    img.put_pixel(0, 0, Pixl::black());
    img.put_pixel(1, 0, Pixl::new(0, 1, 2));
    img.set_color(&[50, 60, 70]);
    assert_eq!(img.get_pixel(0, 0), Pixl::new(50, 60, 70));
    assert_eq!(img.get_pixel(1, 0), Pixl::new(0, 1, 2));
    assert_eq!(img.get_pixel(2, 0), white());
}

#[test]
fn invert_twice_gives_the_pixel_back() {
    let mut p = Pixl::new(12, 200, 255);
    p.invert();
    assert_eq!(p, Pixl::new(243, 55, 0));
    p.invert();
    assert_eq!(p, Pixl::new(12, 200, 255));
}

#[test]
fn png_roundtrip_preserves_pixels() {
    let mut img = Image::new(5, 3).unwrap();
    img.put_pixel(0, 0, Pixl::new(1, 2, 3));
    img.put_pixel(4, 2, Pixl::new(200, 100, 50));
    let bytes = img.as_png().expect("encoding failed");
    // a PNG stream starts with the fixed signature
    assert_eq!(&bytes[0..4], &[137u8, 80, 78, 71]);
    let back = Image::from_png(bytes).expect("decoding failed");
    assert_eq!(back.width(), 5);
    assert_eq!(back.height(), 3);
    for y in 0..3 {
        for x in 0..5 {
            assert_eq!(back.get_pixel(x, y), img.get_pixel(x, y));
        }
    }
}

#[test]
fn from_png_rejects_garbage() {
    assert!(Image::from_png(vec![1, 2, 3, 4]).is_none());
    assert!(Image::from_png(Vec::new()).is_none());
}
