//! Ready-made challenge recipes built from the builder's public
//! operations: fixed filter chains per difficulty, cropped to a common
//! output size.

use vstd::prelude::*;

use crate::captcha::{random_steps, Captcha, RngCaptcha};
use crate::filters::{Cow, Dots, Grid, Noise, Wave};
use crate::fonts::table_keys;
use crate::geometry::Geometry;
use crate::rng::RandomSource;

verus! {

/// Output width of every preset challenge, in pixels.
pub const OUT_W: u32 = 220;

/// Output height of every preset challenge, in pixels.
pub const OUT_H: u32 = 120;

/// The difficulty of a preset challenge.
pub enum Difficulty {
    Easy,
    Medium,
    Hard,
}

/// Names of the predefined challenge recipes.
pub enum CaptchaName {
    Amelia,
    Lucy,
    Mila,
}

/// The challenge's characters come from a run of four to six
/// random-insertion steps on a fresh builder whose character set is its
/// font's full key set: the preset recipes place characters only through
/// `add_random_char`, and the later filters and the crop leave the
/// revealed characters alone.
pub open spec fn preset_chars(c: RngCaptcha) -> bool {
    exists|start: RngCaptcha, mid: RngCaptcha, n: nat|
        #![trigger random_steps(start, mid, n)]
        {
            &&& 4 <= n <= 6
            &&& start.spec_chars().len() == 0
            &&& start.spec_charset() == table_keys(start.spec_font())
            &&& random_steps(start, mid, n)
            &&& c.spec_chars() == mid.spec_chars()
        }
}

/// Four to six characters, drawn at random.
fn rnd() -> (n: u32)
    ensures
        4 <= n <= 6,
{
    let mut r = RandomSource::fresh();
    4 + r.below(3)
}

/// A random preset challenge of the given difficulty: a 220 x 120 pixel
/// canvas holding four to six random characters behind that preset's
/// filter chain.
pub fn gen(d: Difficulty) -> (c: Captcha)
    ensures
        c.wf(),
        c.spec_img().spec_width() == OUT_W,
        c.spec_img().spec_height() == OUT_H,
        c.spec_chars().len() <= 6,
        preset_chars(c),
{
    let mut r = RandomSource::fresh();
    let pick = r.below(3);
    if pick == 0 {
        captcha_amelia(d)
    } else if pick == 1 {
        captcha_lucy(d)
    } else {
        captcha_mila(d)
    }
}

/// The predefined challenge with the given name and difficulty, sized
/// and filled like `gen`.
pub fn by_name(d: Difficulty, t: CaptchaName) -> (c: Captcha)
    ensures
        c.wf(),
        c.spec_img().spec_width() == OUT_W,
        c.spec_img().spec_height() == OUT_H,
        c.spec_chars().len() <= 6,
        preset_chars(c),
{
    match t {
        CaptchaName::Amelia => captcha_amelia(d),
        CaptchaName::Lucy => captcha_lucy(d),
        CaptchaName::Mila => captcha_mila(d),
    }
}

/// Noise and a grid whose density follows the difficulty, a horizontal
/// wave, then dots on the cropped output.
fn captcha_amelia(d: Difficulty) -> (c: Captcha)
    ensures
        c.wf(),
        c.spec_img().spec_width() == OUT_W,
        c.spec_img().spec_height() == OUT_H,
        c.spec_chars().len() <= 6,
        preset_chars(c),
{
    let mut c = Captcha::new();
    let ghost start = c;
    let n = rnd();
    c.add_random_chars(n);
    let ghost mid = c;
    match d {
        Difficulty::Easy => {
            let _ = c.apply_filter(Noise::new(200000));
            let _ = c.apply_filter(Grid::new(8, 8));
        },
        Difficulty::Medium => {
            let _ = c.apply_filter(Noise::new(300000));
            let _ = c.apply_filter(Grid::new(6, 6));
        },
        Difficulty::Hard => {
            let _ = c.apply_filter(Noise::new(500000));
            let _ = c.apply_filter(Grid::new(4, 4));
        },
    }
    let _ = c.apply_filter(Wave::new(2, 10));
    let _ = c.view(OUT_W, OUT_H);
    match d {
        Difficulty::Easy => {
            let _ = c.apply_filter(Dots::new(10).max_radius(7).min_radius(3));
        },
        Difficulty::Medium => {
            let _ = c.apply_filter(Dots::new(15).max_radius(7).min_radius(4));
        },
        Difficulty::Hard => {
            let _ = c.apply_filter(Dots::new(20).max_radius(7).min_radius(5));
        },
    }
    proof {
        assert(random_steps(start, mid, n as nat));
        assert(preset_chars(c));
    }
    c
}

/// Noise and a grid only, denser with the difficulty.
fn captcha_lucy(d: Difficulty) -> (c: Captcha)
    ensures
        c.wf(),
        c.spec_img().spec_width() == OUT_W,
        c.spec_img().spec_height() == OUT_H,
        c.spec_chars().len() <= 6,
        preset_chars(c),
{
    let noise: u32 = match d {
        Difficulty::Easy => 100000,
        Difficulty::Medium => 400000,
        Difficulty::Hard => 600000,
    };
    let gap: u32 = match d {
        Difficulty::Easy => 8,
        Difficulty::Medium => 6,
        Difficulty::Hard => 4,
    };
    let mut c = Captcha::new();
    let ghost start = c;
    let n = rnd();
    c.add_random_chars(n);
    let ghost mid = c;
    let _ = c.apply_filter(Noise::new(noise));
    let _ = c.apply_filter(Grid::new(gap, gap));
    let _ = c.view(OUT_W, OUT_H);
    proof {
        assert(random_steps(start, mid, n as nat));
        assert(preset_chars(c));
    }
    c
}

/// Noise following the difficulty, a horizontal wave, then one inverted
/// blob on the cropped output.
fn captcha_mila(d: Difficulty) -> (c: Captcha)
    ensures
        c.wf(),
        c.spec_img().spec_width() == OUT_W,
        c.spec_img().spec_height() == OUT_H,
        c.spec_chars().len() <= 6,
        preset_chars(c),
{
    let mut c = Captcha::new();
    let ghost start = c;
    let n = rnd();
    c.add_random_chars(n);
    let ghost mid = c;
    match d {
        Difficulty::Easy => {
            let _ = c.apply_filter(Noise::new(200000));
        },
        Difficulty::Medium => {
            let _ = c.apply_filter(Noise::new(300000));
        },
        Difficulty::Hard => {
            let _ = c.apply_filter(Noise::new(500000));
        },
    }
    let _ = c.apply_filter(Wave::new(2, 20));
    let _ = c.view(OUT_W, OUT_H);
    let _ = c.apply_filter(
        Cow::new().min_radius(40).max_radius(50).circles(1).area(Geometry::new(40, 150, 50, 70)),
    );
    proof {
        assert(random_steps(start, mid, n as nat));
        assert(preset_chars(c));
    }
    c
}

} // verus!
