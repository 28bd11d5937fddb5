use captcha::filters::{Cow, Dots, Grid, Noise, Wave};
use captcha::{CaptchaError, Geometry, Image, Pixl, RandomSource};

fn white() -> Pixl {
    Pixl::new(255, 255, 255)
}

fn patterned(w: u32, h: u32) -> Image {
    let mut img = Image::new(w, h).unwrap();
    for y in 0..h {
        for x in 0..w {
            img.put_pixel(x, y, Pixl::new((x % 256) as u8, (y % 256) as u8, 77));
        }
    }
    img
}

fn same_pixels(a: &Image, b: &Image) -> bool {
    if a.width() != b.width() || a.height() != b.height() {
        return false;
    }
    for y in 0..a.height() {
        for x in 0..a.width() {
            if a.get_pixel(x, y) != b.get_pixel(x, y) {
                return false;
            }
        }
    }
    true
}

#[test]
fn grid_marks_exactly_the_lines() {
    let mut img = patterned(7, 5);
    let before = img.extract(&Geometry::new(0, 6, 0, 4)).unwrap();
    Grid::new(3, 2).draw(&mut img).unwrap();
    for y in 0..5 {
        for x in 0..7 {
            if x % 3 == 0 || y % 2 == 0 {
                assert_eq!(img.get_pixel(x, y), Pixl::black());
            } else {
                assert_eq!(img.get_pixel(x, y), before.get_pixel(x, y));
            }
        }
    }
}

#[test]
fn grid_rejects_zero_gap() {
    let mut img = patterned(4, 4);
    let before = img.extract(&Geometry::new(0, 3, 0, 3)).unwrap();
    assert_eq!(
        Grid::new(0, 2).draw(&mut img).unwrap_err(),
        CaptchaError::InvalidFilterParameter
    );
    assert_eq!(
        Grid::new(2, 0).draw(&mut img).unwrap_err(),
        CaptchaError::InvalidFilterParameter
    );
    assert!(same_pixels(&img, &before));
}

#[test]
fn noise_zero_is_identity() {
    let mut img = patterned(20, 10);
    let before = img.extract(&Geometry::new(0, 19, 0, 9)).unwrap();
    let mut rng = RandomSource::from_seed(7);
    Noise::new(0).sprinkle(&mut img, &mut rng);
    assert!(same_pixels(&img, &before));
}

#[test]
fn noise_one_blackens_everything() {
    let mut img = patterned(20, 10);
    let mut rng = RandomSource::from_seed(7);
    Noise::new(1000000).sprinkle(&mut img, &mut rng);
    for y in 0..10 {
        for x in 0..20 {
            assert_eq!(img.get_pixel(x, y), Pixl::black());
        }
    }
}

#[test]
fn dots_rejects_inverted_radius_range() {
    let mut img = patterned(10, 10);
    let before = img.extract(&Geometry::new(0, 9, 0, 9)).unwrap();
    let mut rng = RandomSource::from_seed(1);
    assert_eq!(
        Dots::new(3).min_radius(9).max_radius(2).draw(&mut img, &mut rng).unwrap_err(),
        CaptchaError::InvalidFilterParameter
    );
    assert!(same_pixels(&img, &before));
}

#[test]
fn dots_blacken_or_keep_each_pixel() {
    let mut img = patterned(30, 20);
    let before = img.extract(&Geometry::new(0, 29, 0, 19)).unwrap();
    let mut rng = RandomSource::from_seed(5);
    Dots::new(4).min_radius(2).max_radius(4).draw(&mut img, &mut rng).unwrap();
    let mut blackened = 0;
    for y in 0..20 {
        for x in 0..30 {
            let got = img.get_pixel(x, y);
            assert!(got == before.get_pixel(x, y) || got == Pixl::black());
            if got == Pixl::black() && before.get_pixel(x, y) != Pixl::black() {
                blackened += 1;
            }
        }
    }
    assert!(blackened > 0, "four dots of radius two or more must paint something");
}

#[test]
fn wave_offset_hits_exact_sine_points() {
    // a quarter turn in: full positive amplitude
    assert_eq!(captcha::filters::wave_offset_at(1, 100, 25, 100), 100);
    // three quarter turns in: full negative amplitude
    assert_eq!(captcha::filters::wave_offset_at(1, 100, 75, 100), -100);
    // at the origin the offset is zero
    assert_eq!(captcha::filters::wave_offset_at(1, 100, 0, 100), 0);
    // half a turn in: zero again
    assert_eq!(captcha::filters::wave_offset_at(1, 100, 50, 100), 0);
}

#[test]
fn wave_zero_amplitude_is_identity() {
    let mut img = patterned(16, 12);
    let before = img.extract(&Geometry::new(0, 15, 0, 11)).unwrap();
    Wave::new(3, 0).ripple(&mut img);
    assert!(same_pixels(&img, &before));
    let mut img2 = patterned(16, 12);
    Wave::new(3, 0).vertical().ripple(&mut img2);
    assert!(same_pixels(&img2, &before));
}

#[test]
fn wave_moves_a_column_down() {
    // amplitude 2 at a quarter turn: the column at x = 4 moves by the
    // full amplitude, so the destination row is the source row minus 2
    let mut img = Image::new(16, 8).unwrap();
    img.put_pixel(4, 5, Pixl::black());
    Wave::new(1, 2).ripple(&mut img);
    assert_eq!(img.get_pixel(4, 3), Pixl::black());
    assert_eq!(img.get_pixel(4, 5), white());
}

#[test]
fn wave_vertical_moves_a_row_left() {
    // the vertical wave is the transpose: its wavelength is the canvas
    // height, so on an 8 x 16 canvas with frequency 1 the row at a
    // quarter of the height moves by the full amplitude
    let mut img = Image::new(8, 16).unwrap();
    img.put_pixel(5, 4, Pixl::black());
    Wave::new(1, 2).vertical().ripple(&mut img);
    assert_eq!(img.get_pixel(3, 4), Pixl::black());
    assert_eq!(img.get_pixel(5, 4), white());
}

#[test]
fn cow_zero_circles_changes_nothing() {
    let mut img = patterned(20, 15);
    let before = img.extract(&Geometry::new(0, 19, 0, 14)).unwrap();
    let mut rng = RandomSource::from_seed(11);
    Cow::new().circles(0).smudge(&mut img, &mut rng).unwrap();
    assert!(same_pixels(&img, &before));
}

#[test]
fn cow_rejects_bad_parameters() {
    let mut img = patterned(20, 15);
    let before = img.extract(&Geometry::new(0, 19, 0, 14)).unwrap();
    let mut rng = RandomSource::from_seed(11);
    assert_eq!(
        Cow::new().min_radius(9).max_radius(3).smudge(&mut img, &mut rng).unwrap_err(),
        CaptchaError::InvalidFilterParameter
    );
    assert_eq!(
        Cow::new().area(Geometry::new(0, 30, 0, 5)).smudge(&mut img, &mut rng).unwrap_err(),
        CaptchaError::InvalidFilterParameter
    );
    assert_eq!(
        Cow::new().area(Geometry::new(5, 2, 0, 5)).smudge(&mut img, &mut rng).unwrap_err(),
        CaptchaError::InvalidFilterParameter
    );
    assert!(same_pixels(&img, &before));
}

#[test]
fn cow_inverts_or_keeps_each_pixel() {
    let mut img = patterned(30, 20);
    let before = img.extract(&Geometry::new(0, 29, 0, 19)).unwrap();
    let mut rng = RandomSource::from_seed(3);
    Cow::new().min_radius(3).max_radius(5).circles(4).smudge(&mut img, &mut rng).unwrap();
    let mut inverted_count = 0;
    for y in 0..20 {
        for x in 0..30 {
            let got = img.get_pixel(x, y);
            let mut inv = before.get_pixel(x, y);
            inv.invert();
            assert!(got == before.get_pixel(x, y) || got == inv);
            if got == inv && got != before.get_pixel(x, y) {
                inverted_count += 1;
            }
        }
    }
    assert!(inverted_count > 0, "four circles of radius three or more must invert something");
}
