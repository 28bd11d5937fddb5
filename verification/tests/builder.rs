use base64::Engine;
use captcha::filters::{Cow, Dots, Grid, Noise, Wave};
use captcha::{Captcha, CaptchaError, Font, Image, Pixl, RandomSource};

struct StubFont {
    x_glyph: String,
    y_glyph: String,
}

impl Font for StubFont {
    fn png_as_base64(&self, letter: char) -> Option<&str> {
        match letter {
            'x' => Some(self.x_glyph.as_str()),
            'y' => Some(self.y_glyph.as_str()),
            _ => None,
        }
    }

    fn chars(&self) -> Vec<char> {
        vec!['x', 'y']
    }
}

#[test]
fn five_explicit_chars_reveal_in_order() {
    let mut c = Captcha::new();
    c.add_char('a');
    c.add_char('b');
    c.add_char('c');
    c.add_char('d');
    c.add_char('e');
    assert_eq!(c.chars_as_string(), "abcde");
    assert_eq!(c.chars(), vec!['a', 'b', 'c', 'd', 'e']);
}

#[test]
fn missing_glyph_is_a_detectable_skip() {
    let mut c = Captcha::new();
    let area_before = c.text_area();
    c.add_char('~');
    assert_eq!(c.chars_as_string(), "");
    assert_eq!(c.chars().len(), 0);
    assert_eq!(c.text_area(), area_before);
}

#[test]
fn image_size() {
    let mut c = Captcha::new();
    c.view(8, 16).unwrap();
    assert_eq!(&c.canvas().width(), &8);
    assert_eq!(&c.canvas().height(), &16);
}

#[test]
fn gen_difficult_easy() {
    assert!(captcha::gen(captcha::Difficulty::Easy).as_png().is_some())
}

#[test]
fn by_name_output_size() {
    let c = captcha::by_name(captcha::Difficulty::Hard, captcha::CaptchaName::Mila);
    assert_eq!(c.canvas().width(), 220);
    assert_eq!(c.canvas().height(), 120);
    let c2 = captcha::by_name(captcha::Difficulty::Medium, captcha::CaptchaName::Amelia);
    assert_eq!(c2.canvas().width(), 220);
    assert_eq!(c2.canvas().height(), 120);
}

#[test]
fn view_yields_exactly_the_requested_size() {
    let mut c = Captcha::new();
    c.add_char('a');
    c.add_char('b');
    c.view(100, 60).unwrap();
    assert_eq!(c.canvas().width(), 100);
    assert_eq!(c.canvas().height(), 60);
}

#[test]
fn view_rejects_invalid_sizes() {
    let mut c = Captcha::new();
    assert_eq!(c.view(0, 10).unwrap_err(), CaptchaError::InvalidDimensions);
    assert_eq!(c.view(10, 0).unwrap_err(), CaptchaError::InvalidDimensions);
    assert_eq!(c.view(500, 10).unwrap_err(), CaptchaError::InvalidDimensions);
    assert_eq!(c.view(10, 500).unwrap_err(), CaptchaError::InvalidDimensions);
    // nothing was cropped by the rejected calls
    assert_eq!(c.canvas().width(), 400);
    assert_eq!(c.canvas().height(), 300);
}

#[test]
fn determinism_with_a_fixed_seed() {
    let run = || {
        let mut c = Captcha::from_rng(RandomSource::from_seed(42));
        c.add_random_char();
        c.add_random_char();
        c.add_random_char();
        c.apply_filter(Noise::new(150000)).unwrap();
        c.apply_filter(Grid::new(9, 7)).unwrap();
        c.view(220, 120).unwrap();
        (c.chars_as_string(), c.as_png().expect("no png"))
    };
    let (t1, p1) = run();
    let (t2, p2) = run();
    assert_eq!(t1, t2);
    assert_eq!(p1, p2);
}

#[test]
fn add_text_area_draws_a_red_frame() {
    let mut c = Captcha::new();
    c.add_char('a');
    c.add_char('b');
    let a = c.text_area();
    c.add_text_area();
    let red = Pixl::new(255, 0, 0);
    assert_eq!(c.canvas().get_pixel(a.left, a.top), red);
    assert_eq!(c.canvas().get_pixel(a.left, a.bottom - 1), red);
    assert_eq!(c.canvas().get_pixel(a.right, a.top), red);
}

#[test]
fn extract_crops_the_canvas() {
    let mut c = Captcha::new();
    c.add_char('a');
    let a = c.text_area();
    c.extract(a).unwrap();
    assert_eq!(c.canvas().width(), a.right - a.left + 1);
    assert_eq!(c.canvas().height(), a.bottom - a.top + 1);
}

#[test]
fn text_area_grows_to_the_right() {
    let mut c = Captcha::new();
    let before = c.text_area();
    c.add_char('a');
    let after = c.text_area();
    assert!(after.right > before.right);
    assert_eq!(after.left, before.left);
    assert!(after.top <= before.top);
    assert!(after.bottom >= before.bottom);
}

#[test]
fn as_base64_matches_the_png_bytes() {
    let mut c = Captcha::new();
    c.add_char('a');
    let png = c.as_png().expect("no png");
    let b64 = c.as_base64().expect("no base64");
    assert_eq!(b64, base64::prelude::BASE64_STANDARD.encode(&png));
}

#[test]
fn as_tuple_pairs_text_with_png() {
    let mut c = Captcha::new();
    c.add_char('a');
    c.add_char('b');
    let (text, png) = c.as_tuple().expect("no tuple");
    assert_eq!(text, "ab");
    assert_eq!(png, c.as_png().unwrap());
}

#[test]
fn set_color_recolors_the_export() {
    let mut c = Captcha::new();
    c.add_char('a');
    let plain = c.as_png().unwrap();
    c.set_color([0, 0, 255]);
    let colored = c.as_png().unwrap();
    assert_ne!(plain, colored, "a glyph draws marker pixels, so recoloring must show");
}

#[test]
fn supported_chars_covers_letters_and_digits() {
    let c = Captcha::new();
    let chars = c.supported_chars();
    assert_eq!(chars.len(), 36);
    assert!(chars.contains(&'a'));
    assert!(chars.contains(&'z'));
    assert!(chars.contains(&'0'));
    assert!(chars.contains(&'9'));
}

#[test]
fn set_chars_restricts_random_draws() {
    let mut c = Captcha::new();
    c.set_chars(&['a']);
    c.add_random_char();
    c.add_random_char();
    assert_eq!(c.chars_as_string(), "aa");
}

#[test]
fn add_random_chars_adds_at_most_n() {
    let mut c = Captcha::new();
    c.add_random_chars(5);
    assert_eq!(c.chars().len(), 5, "every built-in charset character has a glyph");
}

#[test]
fn set_font_switches_the_glyph_source() {
    let mut glyph = Image::new(8, 10).unwrap();
    glyph.fill_circle(4, 5, 2, Pixl::black());
    let png = glyph.as_png().unwrap();
    let b64 = base64::prelude::BASE64_STANDARD.encode(&png);
    let f = StubFont { x_glyph: b64.clone(), y_glyph: b64 };
    let mut c = Captcha::new();
    c.set_font(f);
    assert_eq!(c.supported_chars(), vec!['x', 'y']);
    c.add_char('x');
    c.add_char('a');
    assert_eq!(c.chars_as_string(), "x", "the stub font has no glyph for 'a'");
}

#[test]
fn typed_filter_entry_points_apply() {
    let mut c = Captcha::from_rng(RandomSource::from_seed(8));
    c.apply_noise(Noise::new(0));
    c.apply_grid(Grid::new(5, 5)).unwrap();
    assert_eq!(c.canvas().get_pixel(0, 0), Pixl::black(), "a grid line crosses the origin");
    c.apply_wave(Wave::new(1, 3));
    c.apply_dots(Dots::new(2)).unwrap();
    c.apply_cow(Cow::new().circles(1)).unwrap();
    assert_eq!(c.canvas().width(), 400);
    assert_eq!(c.canvas().height(), 300);
}

#[test]
fn builtin_as_wav_has_no_clips() {
    let mut c = Captcha::new();
    c.add_char('a');
    c.add_char('b');
    let clips = c.as_wav();
    assert_eq!(clips.len(), 2);
    assert!(clips.iter().all(|x| x.is_none()));
}
