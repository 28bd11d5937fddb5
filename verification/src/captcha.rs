use vstd::prelude::*;

use crate::codec::{b64_encode, base64_encoding_of, string_from_chars};
use crate::error::CaptchaError;
use crate::filters::{Cow, Dots, Filter, Grid, Noise, Wave, NOISE_DENOM};
use crate::fonts::{
    builtin_char, font_table, glyph_png, keys_of, table_keys, table_png, DefaultFont, Font,
};
use crate::geometry::Geometry;
use crate::images::{
    decodes_to_raster, pasted, pixels_of_raw, png_decoding_of, png_encoding_of, raw_of, Image,
};
use crate::pixel::{inverted, marker, Pixl};
use crate::rng::RandomSource;

verus! {

/// The working canvas width a fresh builder starts with.
pub const WORK_W: u32 = 400;

/// The working canvas height a fresh builder starts with.
pub const WORK_H: u32 = 300;

/// A challenge under construction: one canvas, the rectangle holding the
/// text placed so far, the revealed characters in insertion order, the
/// active glyph table and character set, an optional export color, and
/// the random source every randomized operation draws from.
pub struct RngCaptcha {
    img: Image,
    font: Vec<(char, String)>,
    text_area: Geometry,
    chars: Vec<char>,
    use_font_chars: Vec<char>,
    color: Option<Pixl>,
    rng: RandomSource,
}

/// A challenge builder with the crate's own random source.
pub type Captcha = RngCaptcha;

/// The glyph a font table yields for `c`, decoded down to a raster:
/// width, height and pixels. `None` when the table has no entry, the
/// entry is not valid base64, or the bytes do not decode to a raster
/// this crate can hold.
pub open spec fn glyph_raster(t: Seq<(char, String)>, c: char) -> Option<(nat, nat, Seq<Pixl>)> {
    match glyph_png(t, c) {
        None => None,
        Some(b) => if decodes_to_raster(b) {
            let d = png_decoding_of(b)->0;
            Some((d.0, d.1, pixels_of_raw(d.2)))
        } else {
            None
        },
    }
}

/// The column where the next glyph lands: the right edge of the text
/// area.
pub open spec fn glyph_x(ta: Geometry) -> int {
    ta.right as int
}

/// The row where a glyph of height `gh` lands: vertically centered on
/// the text area's midline.
pub open spec fn glyph_y(ta: Geometry, gh: int) -> int {
    (ta.top + ta.bottom) / 2 - gh / 2
}

/// The placement arithmetic stays within the coordinate type; a glyph
/// that would not fit is skipped like a missing one.
pub open spec fn placement_fits(ta: Geometry, gw: int, gh: int) -> bool {
    &&& glyph_y(ta, gh) >= 0
    &&& ta.right + gw - 1 <= u32::MAX
    &&& glyph_y(ta, gh) + gh - 1 <= u32::MAX
}

/// The text area after a `gw x gh` glyph is placed: the right edge moves
/// to the glyph's right edge, and top and bottom widen to cover it.
pub open spec fn grown_area(ta: Geometry, gw: int, gh: int) -> Geometry {
    let y = glyph_y(ta, gh);
    Geometry {
        left: ta.left,
        right: (ta.right + gw - 1) as u32,
        top: if y < ta.top {
            y as u32
        } else {
            ta.top
        },
        bottom: if y + gh - 1 > ta.bottom {
            (y + gh - 1) as u32
        } else {
            ta.bottom
        },
    }
}

/// Nothing observable about the builder changed (the random state may
/// have advanced).
pub open spec fn unchanged(pre: RngCaptcha, post: RngCaptcha) -> bool {
    &&& post.spec_img().same_content(pre.spec_img())
    &&& post.spec_font() == pre.spec_font()
    &&& post.spec_text_area() == pre.spec_text_area()
    &&& post.spec_chars() == pre.spec_chars()
    &&& post.spec_charset() == pre.spec_charset()
    &&& post.spec_color() == pre.spec_color()
}

/// What adding the character `c` does to a builder: on a glyph hit that
/// fits, the glyph raster is composited at the placement point, the text
/// area grows by the update formulas and `c` is appended to the revealed
/// characters; on a miss, or when the glyph cannot be placed, the
/// builder is unchanged, so a skipped character is observable by the
/// revealed character count.
pub open spec fn added_char(pre: RngCaptcha, post: RngCaptcha, c: char) -> bool {
    match glyph_raster(pre.spec_font(), c) {
        None => unchanged(pre, post),
        Some(g) => if !placement_fits(pre.spec_text_area(), g.0 as int, g.1 as int) {
            unchanged(pre, post)
        } else {
            let x = glyph_x(pre.spec_text_area());
            let y = glyph_y(pre.spec_text_area(), g.1 as int);
            &&& pasted(pre.spec_img(), g.0 as int, g.1 as int, g.2, x, y, post.spec_img())
            &&& post.spec_text_area() == grown_area(pre.spec_text_area(), g.0 as int, g.1 as int)
            &&& post.spec_chars() == pre.spec_chars().push(c)
            &&& post.spec_font() == pre.spec_font()
            &&& post.spec_charset() == pre.spec_charset()
            &&& post.spec_color() == pre.spec_color()
        },
    }
}

/// One random-insertion step: with an empty character set the builder is
/// unchanged; otherwise some character of the active set is added, with
/// `add_char`'s full effect.
pub open spec fn random_step(pre: RngCaptcha, post: RngCaptcha) -> bool {
    if pre.spec_charset().len() == 0 {
        unchanged(pre, post)
    } else {
        exists|k: int|
            0 <= k < pre.spec_charset().len() && added_char(pre, post, pre.spec_charset()[k])
    }
}

/// `post` arises from `pre` by exactly `n` random-insertion steps, in
/// order: there is a chain of intermediate builder states, each one
/// random-insertion step after the last.
pub open spec fn random_steps(pre: RngCaptcha, post: RngCaptcha, n: nat) -> bool
    decreases n,
{
    if n == 0 {
        unchanged(pre, post)
    } else {
        exists|mid: RngCaptcha|
            #![trigger random_step(mid, post)]
            random_steps(pre, mid, (n - 1) as nat) && random_step(mid, post)
    }
}

impl RngCaptcha {
    /// The canvas being built.
    pub closed spec fn spec_img(&self) -> Image {
        self.img
    }

    /// The active glyph table.
    pub closed spec fn spec_font(&self) -> Seq<(char, String)> {
        self.font@
    }

    /// The rectangle containing the text placed so far.
    pub closed spec fn spec_text_area(&self) -> Geometry {
        self.text_area
    }

    /// The characters placed so far, in insertion order.
    pub closed spec fn spec_chars(&self) -> Seq<char> {
        self.chars@
    }

    /// The characters random insertion draws from.
    pub closed spec fn spec_charset(&self) -> Seq<char> {
        self.use_font_chars@
    }

    /// The export color, when one was set.
    pub closed spec fn spec_color(&self) -> Option<Pixl> {
        self.color
    }

    /// The builder is well formed when its canvas is.
    pub open spec fn wf(&self) -> bool {
        self.spec_img().wf()
    }

    /// A builder over the given random source: a blank working canvas,
    /// the built-in font with its full character set, no characters, no
    /// export color, and the degenerate initial text area that seeds the
    /// first glyph position at a quarter of the width, half the height.
    pub fn from_rng(rng: RandomSource) -> (c: RngCaptcha)
        ensures
            c.wf(),
            c.spec_img().spec_width() == WORK_W,
            c.spec_img().spec_height() == WORK_H,
            forall|x: int, y: int|
                0 <= x < WORK_W && 0 <= y < WORK_H ==> c.spec_img().pix(x, y)
                    == crate::pixel::background(),
            c.spec_text_area() == (Geometry {
                left: WORK_W / 4,
                right: WORK_W / 4,
                top: WORK_H / 2,
                bottom: WORK_H / 2,
            }),
            c.spec_chars() =~= Seq::<char>::empty(),
            c.spec_color() is None,
            c.spec_charset() == table_keys(c.spec_font()),
            forall|q: int|
                0 <= q < c.spec_charset().len() ==> builtin_char(#[trigger] c.spec_charset()[q]),
    {
        let f = DefaultFont::new();
        let font = f.into_table();
        let use_font_chars = keys_of(&font);
        RngCaptcha {
            img: Image::blank(WORK_W, WORK_H),
            font,
            text_area: Geometry {
                left: WORK_W / 4,
                right: WORK_W / 4,
                top: WORK_H / 2,
                bottom: WORK_H / 2,
            },
            chars: Vec::new(),
            use_font_chars,
            color: None,
            rng,
        }
    }

    /// An empty challenge over a freshly seeded random source.
    pub fn new() -> (c: Captcha)
        ensures
            c.wf(),
            c.spec_img().spec_width() == WORK_W,
            c.spec_img().spec_height() == WORK_H,
            forall|x: int, y: int|
                0 <= x < WORK_W && 0 <= y < WORK_H ==> c.spec_img().pix(x, y)
                    == crate::pixel::background(),
            c.spec_text_area() == (Geometry {
                left: WORK_W / 4,
                right: WORK_W / 4,
                top: WORK_H / 2,
                bottom: WORK_H / 2,
            }),
            c.spec_chars() =~= Seq::<char>::empty(),
            c.spec_color() is None,
            c.spec_charset() == table_keys(c.spec_font()),
            forall|q: int|
                0 <= q < c.spec_charset().len() ==> builtin_char(#[trigger] c.spec_charset()[q]),
    {
        Captcha::from_rng(RandomSource::fresh())
    }

    /// Applies the filter `f` to the canvas, drawing any entropy it needs
    /// from the builder's random source. The canvas keeps its dimensions;
    /// a rejected filter leaves it unchanged, and the rest of the builder
    /// is untouched either way. Over an arbitrary `Filter` no more can be
    /// said here: to reason about a particular filter's effect on the
    /// canvas, use the typed entry points (`apply_noise`, `apply_grid`,
    /// `apply_dots`, `apply_wave`, `apply_cow`), which carry each
    /// filter's full contract.
    pub fn apply_filter<F: Filter>(&mut self, f: F) -> (r: Result<(), CaptchaError>)
        requires
            old(self).wf(),
        ensures
            final(self).wf(),
            final(self).spec_img().spec_width() == old(self).spec_img().spec_width(),
            final(self).spec_img().spec_height() == old(self).spec_img().spec_height(),
            r is Err ==> final(self).spec_img().same_content(old(self).spec_img()),
            final(self).spec_font() == old(self).spec_font(),
            final(self).spec_text_area() == old(self).spec_text_area(),
            final(self).spec_chars() == old(self).spec_chars(),
            final(self).spec_charset() == old(self).spec_charset(),
            final(self).spec_color() == old(self).spec_color(),
    {
        f.apply(&mut self.img, &mut self.rng)
    }

    /// Applies pixel noise with `Noise`'s full contract: every canvas
    /// pixel keeps its value or becomes the marker, probability zero
    /// changes nothing, and probability one or more blackens everything.
    /// The rest of the builder is untouched.
    pub fn apply_noise(&mut self, f: Noise)
        requires
            old(self).wf(),
        ensures
            final(self).wf(),
            final(self).spec_img().spec_width() == old(self).spec_img().spec_width(),
            final(self).spec_img().spec_height() == old(self).spec_img().spec_height(),
            final(self).spec_font() == old(self).spec_font(),
            final(self).spec_text_area() == old(self).spec_text_area(),
            final(self).spec_chars() == old(self).spec_chars(),
            final(self).spec_charset() == old(self).spec_charset(),
            final(self).spec_color() == old(self).spec_color(),
            forall|i: int, j: int|
                0 <= i < old(self).spec_img().spec_width() && 0 <= j < old(
                    self,
                ).spec_img().spec_height() ==> (final(self).spec_img().pix(i, j) == old(
                    self,
                ).spec_img().pix(i, j) || final(self).spec_img().pix(i, j) == marker()),
            f.prob == 0 ==> final(self).spec_img().same_content(old(self).spec_img()),
            f.prob >= NOISE_DENOM ==> forall|i: int, j: int|
                0 <= i < old(self).spec_img().spec_width() && 0 <= j < old(
                    self,
                ).spec_img().spec_height() ==> final(self).spec_img().pix(i, j) == marker(),
    {
        f.sprinkle(&mut self.img, &mut self.rng);
    }

    /// Draws a grid with `Grid`'s full contract: exactly the pixels on a
    /// marked row or column become the marker; a zero gap is rejected
    /// and nothing changes. The rest of the builder is untouched.
    pub fn apply_grid(&mut self, f: Grid) -> (r: Result<(), CaptchaError>)
        requires
            old(self).wf(),
        ensures
            final(self).wf(),
            final(self).spec_img().spec_width() == old(self).spec_img().spec_width(),
            final(self).spec_img().spec_height() == old(self).spec_img().spec_height(),
            final(self).spec_font() == old(self).spec_font(),
            final(self).spec_text_area() == old(self).spec_text_area(),
            final(self).spec_chars() == old(self).spec_chars(),
            final(self).spec_charset() == old(self).spec_charset(),
            final(self).spec_color() == old(self).spec_color(),
            r is Ok <==> f.x_gap >= 1 && f.y_gap >= 1,
            r is Err ==> final(self).spec_img().same_content(old(self).spec_img()) && r->Err_0
                == CaptchaError::InvalidFilterParameter,
            r is Ok ==> forall|i: int, j: int|
                0 <= i < old(self).spec_img().spec_width() && 0 <= j < old(
                    self,
                ).spec_img().spec_height() ==> final(self).spec_img().pix(i, j) == (
                if f.on_line(i, j) {
                    marker()
                } else {
                    old(self).spec_img().pix(i, j)
                }),
    {
        f.draw(&mut self.img)
    }

    /// Draws random dots with `Dots`'s full contract: the result is
    /// exactly a recorded set of `n` circles painted in the marker
    /// color; an inverted radius range is rejected and nothing changes.
    /// The rest of the builder is untouched.
    pub fn apply_dots(&mut self, f: Dots) -> (r: Result<(), CaptchaError>)
        requires
            old(self).wf(),
        ensures
            final(self).wf(),
            final(self).spec_img().spec_width() == old(self).spec_img().spec_width(),
            final(self).spec_img().spec_height() == old(self).spec_img().spec_height(),
            final(self).spec_font() == old(self).spec_font(),
            final(self).spec_text_area() == old(self).spec_text_area(),
            final(self).spec_chars() == old(self).spec_chars(),
            final(self).spec_charset() == old(self).spec_charset(),
            final(self).spec_color() == old(self).spec_color(),
            r is Ok <==> f.min_radius <= f.max_radius,
            r is Err ==> final(self).spec_img().same_content(old(self).spec_img()) && r->Err_0
                == CaptchaError::InvalidFilterParameter,
            r is Ok ==> exists|draws: Seq<(int, int, int)>|
                f.dots_applied(old(self).spec_img(), final(self).spec_img(), draws),
            f.n == 0 ==> final(self).spec_img().same_content(old(self).spec_img()),
    {
        f.draw(&mut self.img, &mut self.rng)
    }

    /// Applies a sinusoidal displacement with `Wave`'s full contract:
    /// afterwards every pixel is exactly `wave_pix` of the prior canvas.
    /// The rest of the builder is untouched.
    pub fn apply_wave(&mut self, f: Wave)
        requires
            old(self).wf(),
        ensures
            final(self).wf(),
            final(self).spec_img().spec_width() == old(self).spec_img().spec_width(),
            final(self).spec_img().spec_height() == old(self).spec_img().spec_height(),
            final(self).spec_font() == old(self).spec_font(),
            final(self).spec_text_area() == old(self).spec_text_area(),
            final(self).spec_chars() == old(self).spec_chars(),
            final(self).spec_charset() == old(self).spec_charset(),
            final(self).spec_color() == old(self).spec_color(),
            forall|i: int, j: int|
                0 <= i < old(self).spec_img().spec_width() && 0 <= j < old(
                    self,
                ).spec_img().spec_height() ==> final(self).spec_img().pix(i, j) == f.wave_pix(
                    old(self).spec_img(),
                    i,
                    j,
                ),
    {
        f.ripple(&mut self.img);
    }

    /// Grows and inverts one blob with `Cow`'s full contract: the result
    /// is exactly one recorded blob applied to the canvas; malformed
    /// parameters are rejected and nothing changes. The rest of the
    /// builder is untouched.
    pub fn apply_cow(&mut self, f: Cow) -> (r: Result<(), CaptchaError>)
        requires
            old(self).wf(),
        ensures
            final(self).wf(),
            final(self).spec_img().spec_width() == old(self).spec_img().spec_width(),
            final(self).spec_img().spec_height() == old(self).spec_img().spec_height(),
            final(self).spec_font() == old(self).spec_font(),
            final(self).spec_text_area() == old(self).spec_text_area(),
            final(self).spec_chars() == old(self).spec_chars(),
            final(self).spec_charset() == old(self).spec_charset(),
            final(self).spec_color() == old(self).spec_color(),
            r is Ok <==> f.valid_for(
                old(self).spec_img().spec_width() as int,
                old(self).spec_img().spec_height() as int,
            ),
            r is Err ==> final(self).spec_img().same_content(old(self).spec_img()) && r->Err_0
                == CaptchaError::InvalidFilterParameter,
            r is Ok ==> exists|seed: (int, int), draws: Seq<(int, int, int)>|
                f.blob_applied(old(self).spec_img(), final(self).spec_img(), seed, draws),
            r is Ok ==> forall|i: int, j: int|
                0 <= i < old(self).spec_img().spec_width() && 0 <= j < old(
                    self,
                ).spec_img().spec_height() ==> (final(self).spec_img().pix(i, j) == old(
                    self,
                ).spec_img().pix(i, j) || final(self).spec_img().pix(i, j) == inverted(
                    old(self).spec_img().pix(i, j),
                )),
            r is Ok && f.n == 0 ==> final(self).spec_img().same_content(old(self).spec_img()),
    {
        f.smudge(&mut self.img, &mut self.rng)
    }

    /// Installs a glyph table and a character set directly, as plain
    /// values: the rest of the builder is untouched.
    pub fn set_font_data(&mut self, table: Vec<(char, String)>, charset: Vec<char>)
        requires
            old(self).wf(),
        ensures
            final(self).wf(),
            final(self).spec_img() == old(self).spec_img(),
            final(self).spec_text_area() == old(self).spec_text_area(),
            final(self).spec_chars() == old(self).spec_chars(),
            final(self).spec_color() == old(self).spec_color(),
            final(self).spec_font() == table@,
            final(self).spec_charset() == charset@,
    {
        self.font = table;
        self.use_font_chars = charset;
    }

    /// Replaces the font used for characters added from now on; the
    /// characters random insertion draws from become the new font's.
    /// What the table and the set hold depends on the font's unverified
    /// answers; `set_font_data` installs them as values with an exact
    /// contract.
    pub fn set_font<F: Font>(&mut self, f: F)
        requires
            old(self).wf(),
        ensures
            final(self).wf(),
            final(self).spec_img() == old(self).spec_img(),
            final(self).spec_text_area() == old(self).spec_text_area(),
            final(self).spec_chars() == old(self).spec_chars(),
            final(self).spec_color() == old(self).spec_color(),
    {
        let table = font_table(&f);
        let charset = f.chars();
        self.set_font_data(table, charset);
    }

    /// Sets the color the marker pixels take at export time.
    pub fn set_color(&mut self, color: [u8; 3])
        requires
            old(self).wf(),
        ensures
            final(self).wf(),
            final(self).spec_img() == old(self).spec_img(),
            final(self).spec_font() == old(self).spec_font(),
            final(self).spec_text_area() == old(self).spec_text_area(),
            final(self).spec_chars() == old(self).spec_chars(),
            final(self).spec_charset() == old(self).spec_charset(),
            final(self).spec_color() == Some(Pixl { r: color[0], g: color[1], b: color[2] }),
    {
        let p = Pixl::new(color[0], color[1], color[2]);
        self.color = Some(p);
    }

    /// Restricts the characters random insertion draws from. The
    /// characters should exist in the current font: one without a glyph
    /// is skipped when drawn.
    pub fn set_chars(&mut self, c: &[char])
        requires
            old(self).wf(),
        ensures
            final(self).wf(),
            final(self).spec_img() == old(self).spec_img(),
            final(self).spec_font() == old(self).spec_font(),
            final(self).spec_text_area() == old(self).spec_text_area(),
            final(self).spec_chars() == old(self).spec_chars(),
            final(self).spec_color() == old(self).spec_color(),
            final(self).spec_charset() == c@,
    {
        let mut out: Vec<char> = Vec::new();
        let n = c.len();
        let mut i: usize = 0;
        while i < n
            invariant
                n == c@.len(),
                i <= n,
                out@ =~= c@.subrange(0, i as int),
            decreases n - i,
        {
            out.push(c[i]);
            i = i + 1;
        }
        proof {
            assert(out@ =~= c@);
        }
        self.use_font_chars = out;
    }

    /// The rectangle containing the text placed so far.
    pub fn text_area(&self) -> (g: Geometry)
        ensures
            g == self.spec_text_area(),
    {
        self.text_area
    }

    /// The characters placed so far, in insertion order.
    pub fn chars(&self) -> (r: Vec<char>)
        ensures
            r@ == self.spec_chars(),
    {
        let n = self.chars.len();
        let mut out: Vec<char> = Vec::new();
        let mut i: usize = 0;
        while i < n
            invariant
                n == self.chars@.len(),
                i <= n,
                out@ =~= self.chars@.subrange(0, i as int),
            decreases n - i,
        {
            out.push(self.chars[i]);
            i = i + 1;
        }
        proof {
            assert(out@ =~= self.chars@);
        }
        out
    }

    /// The characters placed so far, collected into a string.
    pub fn chars_as_string(&self) -> (s: String)
        ensures
            s@ == self.spec_chars(),
    {
        string_from_chars(&self.chars)
    }

    /// The characters the current font has glyphs for.
    pub fn supported_chars(&self) -> (r: Vec<char>)
        ensures
            r@ == table_keys(self.spec_font()),
    {
        keys_of(&self.font)
    }

    /// A read-only view of the canvas in its current state.
    pub fn canvas(&self) -> (r: &Image)
        ensures
            *r == self.spec_img(),
    {
        &self.img
    }

    /// Composites a decoded glyph at the placement point and updates the
    /// text area and the revealed characters; a glyph whose placement
    /// arithmetic would leave the coordinate type is skipped.
    fn paste_glyph(&mut self, c: char, g: Image)
        requires
            old(self).wf(),
            g.wf(),
        ensures
            final(self).wf(),
            !placement_fits(
                old(self).spec_text_area(),
                g.spec_width() as int,
                g.spec_height() as int,
            ) ==> unchanged(*old(self), *final(self)),
            placement_fits(
                old(self).spec_text_area(),
                g.spec_width() as int,
                g.spec_height() as int,
            ) ==> {
                let ta = old(self).spec_text_area();
                let gw = g.spec_width() as int;
                let gh = g.spec_height() as int;
                &&& pasted(
                    old(self).spec_img(),
                    gw,
                    gh,
                    g.pixels(),
                    glyph_x(ta),
                    glyph_y(ta, gh),
                    final(self).spec_img(),
                )
                &&& final(self).spec_text_area() == grown_area(ta, gw, gh)
                &&& final(self).spec_chars() == old(self).spec_chars().push(c)
                &&& final(self).spec_font() == old(self).spec_font()
                &&& final(self).spec_charset() == old(self).spec_charset()
                &&& final(self).spec_color() == old(self).spec_color()
            },
    {
        let gw = g.width();
        let gh = g.height();
        let ta = self.text_area;
        let mid: u32 = (((ta.top as u64) + (ta.bottom as u64)) / 2) as u32;
        let half: u32 = gh / 2;
        if half > mid {
            return ;
        }
        let y: u32 = mid - half;
        if (ta.right as u64) + (gw as u64) - 1 > (u32::MAX as u64) {
            return ;
        }
        if (y as u64) + (gh as u64) - 1 > (u32::MAX as u64) {
            return ;
        }
        let x: u32 = ta.right;
        self.img.add_image(x, y, &g);
        let new_top: u32 = if y < ta.top {
            y
        } else {
            ta.top
        };
        let new_right: u32 = ((x as u64) + (gw as u64) - 1) as u32;
        let nb: u64 = (y as u64) + (gh as u64) - 1;
        let new_bottom: u32 = if nb > (ta.bottom as u64) {
            nb as u32
        } else {
            ta.bottom
        };
        self.text_area = Geometry {
            left: ta.left,
            right: new_right,
            top: new_top,
            bottom: new_bottom,
        };
        self.chars.push(c);
    }

    /// Adds `c` using the current font: looks its glyph up, decodes it
    /// and composites it immediately to the right of the current text
    /// area, vertically centered on the area's midline. On a miss the
    /// call is a no-op, observable through the revealed character count.
    pub fn add_char(&mut self, c: char)
        requires
            old(self).wf(),
        ensures
            final(self).wf(),
            added_char(*old(self), *final(self), c),
    {
        let bytes: Option<Vec<u8>> = table_png(&self.font, c);
        let glyph: Option<Image> = match bytes {
            None => None,
            Some(v) => Image::from_png(v),
        };
        match glyph {
            None => {},
            Some(g) => self.paste_glyph(c, g),
        }
    }

    /// Adds one character drawn uniformly from the active character set,
    /// using the current font; with an empty set the call is a no-op.
    pub fn add_random_char(&mut self)
        requires
            old(self).wf(),
        ensures
            final(self).wf(),
            old(self).spec_charset().len() == 0 ==> unchanged(*old(self), *final(self)),
            old(self).spec_charset().len() > 0 ==> exists|k: int|
                0 <= k < old(self).spec_charset().len() && added_char(
                    *old(self),
                    *final(self),
                    old(self).spec_charset()[k],
                ),
    {
        let n = self.use_font_chars.len();
        if n == 0 {
            return ;
        }
        let len32: u32 = if n >= (u32::MAX as usize) {
            u32::MAX
        } else {
            n as u32
        };
        let k = self.rng.below(len32) as usize;
        let c = self.use_font_chars[k];
        self.add_char(c);
        proof {
            assert(0 <= k < old(self).spec_charset().len() && added_char(
                *old(self),
                *final(self),
                old(self).spec_charset()[k as int],
            ));
        }
    }

    /// Adds `n` random characters from the active character set, as `n`
    /// successive `add_random_char` steps in order. Glyph misses are
    /// skipped, so at most `n` characters are appended; the characters
    /// already placed stay as they are.
    pub fn add_random_chars(&mut self, n: u32)
        requires
            old(self).wf(),
        ensures
            final(self).wf(),
            random_steps(*old(self), *final(self), n as nat),
            final(self).spec_img().spec_width() == old(self).spec_img().spec_width(),
            final(self).spec_img().spec_height() == old(self).spec_img().spec_height(),
            final(self).spec_font() == old(self).spec_font(),
            final(self).spec_charset() == old(self).spec_charset(),
            final(self).spec_color() == old(self).spec_color(),
            final(self).spec_chars().len() <= old(self).spec_chars().len() + n,
            final(self).spec_chars().len() >= old(self).spec_chars().len(),
            forall|q: int|
                0 <= q < old(self).spec_chars().len() ==> final(self).spec_chars()[q] == old(self).spec_chars()[q],
    {
        let mut i: u32 = 0;
        while i < n
            invariant
                i <= n,
                self.wf(),
                random_steps(*old(self), *self, i as nat),
                self.spec_img().spec_width() == old(self).spec_img().spec_width(),
                self.spec_img().spec_height() == old(self).spec_img().spec_height(),
                self.spec_font() == old(self).spec_font(),
                self.spec_charset() == old(self).spec_charset(),
                self.spec_color() == old(self).spec_color(),
                self.spec_chars().len() <= old(self).spec_chars().len() + i,
                self.spec_chars().len() >= old(self).spec_chars().len(),
                forall|q: int|
                    0 <= q < old(self).spec_chars().len() ==> self.spec_chars()[q] == old(self).spec_chars()[q],
            decreases n - i,
        {
            let ghost prev = *self;
            self.add_random_char();
            proof {
                let n1 = (i + 1) as nat;
                assert((n1 - 1) as nat == i as nat);
                assert(random_steps(*old(self), prev, (n1 - 1) as nat));
                assert(random_step(prev, *self));
                assert(random_steps(*old(self), *self, n1));
            }
            i = i + 1;
        }
    }

    /// Draws the text area's frame in red on the canvas: both vertical
    /// edges over rows `[top, bottom)` and both horizontal edges over
    /// columns `[left, right)`, clipped to the canvas.
    pub fn add_text_area(&mut self)
        requires
            old(self).wf(),
        ensures
            final(self).wf(),
            final(self).spec_img().spec_width() == old(self).spec_img().spec_width(),
            final(self).spec_img().spec_height() == old(self).spec_img().spec_height(),
            forall|i: int, j: int|
                0 <= i < old(self).spec_img().spec_width() && 0 <= j < old(self).spec_img().spec_height() ==> final(self).spec_img().pix(i, j) == (if on_frame(
                    old(self).spec_text_area(),
                    i,
                    j,
                ) {
                    Pixl { r: 255, g: 0, b: 0 }
                } else {
                    old(self).spec_img().pix(i, j)
                }),
            final(self).spec_font() == old(self).spec_font(),
            final(self).spec_text_area() == old(self).spec_text_area(),
            final(self).spec_chars() == old(self).spec_chars(),
            final(self).spec_charset() == old(self).spec_charset(),
            final(self).spec_color() == old(self).spec_color(),
    {
        let ta = self.text_area;
        let w = self.img.width();
        let h = self.img.height();
        let red = Pixl::red();
        let mut y: u32 = ta.top;
        while y < ta.bottom
            invariant
                old(self).wf(),
                self.wf(),
                w == old(self).spec_img().spec_width(),
                h == old(self).spec_img().spec_height(),
                self.spec_img().spec_width() == w,
                self.spec_img().spec_height() == h,
                ta == old(self).spec_text_area(),
                self.spec_font() == old(self).spec_font(),
                self.spec_text_area() == old(self).spec_text_area(),
                self.spec_chars() == old(self).spec_chars(),
                self.spec_charset() == old(self).spec_charset(),
                self.spec_color() == old(self).spec_color(),
                red == (Pixl { r: 255, g: 0, b: 0 }),
                ta.top <= y,
                y <= ta.bottom || y == ta.top,
                forall|i: int, j: int|
                    0 <= i < w && 0 <= j < h ==> self.spec_img().pix(i, j) == (if (i == ta.left
                        || i == ta.right) && ta.top <= j < y {
                        red
                    } else {
                        old(self).spec_img().pix(i, j)
                    }),
            decreases ta.bottom - y,
        {
            let ghost pre = self.img;
            self.img.put_pixel(ta.left, y, red);
            let ghost mid = self.img;
            self.img.put_pixel(ta.right, y, red);
            proof {
                assert forall|i: int, j: int|
                    0 <= i < w && 0 <= j < h implies self.spec_img().pix(i, j) == (if (i
                    == ta.left || i == ta.right) && ta.top <= j < y + 1 {
                    red
                } else {
                    old(self).spec_img().pix(i, j)
                }) by {
                    if i == ta.right && j == y {
                        assert(self.spec_img().pix(i, j) == red);
                    } else {
                        assert(self.spec_img().pix(i, j) == mid.pix(i, j));
                    }
                    if i == ta.left && j == y {
                        assert(mid.pix(i, j) == red);
                    } else {
                        assert(mid.pix(i, j) == pre.pix(i, j));
                    }
                }
            }
            y = y + 1;
        }
        let mut x: u32 = ta.left;
        while x < ta.right
            invariant
                old(self).wf(),
                self.wf(),
                w == old(self).spec_img().spec_width(),
                h == old(self).spec_img().spec_height(),
                self.spec_img().spec_width() == w,
                self.spec_img().spec_height() == h,
                ta == old(self).spec_text_area(),
                self.spec_font() == old(self).spec_font(),
                self.spec_text_area() == old(self).spec_text_area(),
                self.spec_chars() == old(self).spec_chars(),
                self.spec_charset() == old(self).spec_charset(),
                self.spec_color() == old(self).spec_color(),
                red == (Pixl { r: 255, g: 0, b: 0 }),
                ta.left <= x,
                x <= ta.right || x == ta.left,
                forall|i: int, j: int|
                    0 <= i < w && 0 <= j < h ==> self.spec_img().pix(i, j) == (if ((i == ta.left
                        || i == ta.right) && ta.top <= j < ta.bottom) || ((j == ta.top || j
                        == ta.bottom) && ta.left <= i < x) {
                        red
                    } else {
                        old(self).spec_img().pix(i, j)
                    }),
            decreases ta.right - x,
        {
            let ghost pre = self.img;
            self.img.put_pixel(x, ta.top, red);
            let ghost mid = self.img;
            self.img.put_pixel(x, ta.bottom, red);
            proof {
                assert forall|i: int, j: int|
                    0 <= i < w && 0 <= j < h implies self.spec_img().pix(i, j) == (if ((i
                    == ta.left || i == ta.right) && ta.top <= j < ta.bottom) || ((j == ta.top || j
                    == ta.bottom) && ta.left <= i < x + 1) {
                    red
                } else {
                    old(self).spec_img().pix(i, j)
                }) by {
                    if i == x && j == ta.bottom {
                        assert(self.spec_img().pix(i, j) == red);
                    } else {
                        assert(self.spec_img().pix(i, j) == mid.pix(i, j));
                    }
                    if i == x && j == ta.top {
                        assert(mid.pix(i, j) == red);
                    } else {
                        assert(mid.pix(i, j) == pre.pix(i, j));
                    }
                }
            }
            x = x + 1;
        }
    }

    /// Crops the canvas to `area`, both bounds inclusive, replacing it by
    /// the extracted sub-canvas. The text area bookkeeping is left as it
    /// is, so later insertions relate to the old coordinates: cropping is
    /// conventionally the last geometric operation. A rectangle that is
    /// unordered or escapes the canvas is rejected and nothing changes.
    pub fn extract(&mut self, area: Geometry) -> (r: Result<(), CaptchaError>)
        requires
            old(self).wf(),
        ensures
            final(self).wf(),
            r is Ok <==> area.within(
                old(self).spec_img().spec_width() as int,
                old(self).spec_img().spec_height() as int,
            ),
            r is Err ==> final(self).spec_img() == old(self).spec_img() && r->Err_0 == (
            if area.ordered() {
                CaptchaError::GeometryUnderflow
            } else {
                CaptchaError::InvalidDimensions
            }),
            r is Ok ==> {
                &&& final(self).spec_img().spec_width() == area.spec_cols()
                &&& final(self).spec_img().spec_height() == area.spec_rows()
                &&& forall|i: int, j: int|
                    0 <= i < area.spec_cols() && 0 <= j < area.spec_rows() ==> final(self).spec_img().pix(i, j) == old(self).spec_img().pix(area.left + i, area.top + j)
            },
            final(self).spec_font() == old(self).spec_font(),
            final(self).spec_text_area() == old(self).spec_text_area(),
            final(self).spec_chars() == old(self).spec_chars(),
            final(self).spec_charset() == old(self).spec_charset(),
            final(self).spec_color() == old(self).spec_color(),
    {
        match self.img.extract(&area) {
            Ok(i) => {
                self.img = i;
                Ok(())
            },
            Err(e) => Err(e),
        }
    }

    /// Crops the canvas to a `w x h` window centered on the midpoint of
    /// the text area, clamped into the canvas, so the result has exactly
    /// the requested dimensions. Requested dimensions of zero, or larger
    /// than the canvas, are rejected and nothing changes.
    pub fn view(&mut self, w: u32, h: u32) -> (r: Result<(), CaptchaError>)
        requires
            old(self).wf(),
        ensures
            final(self).wf(),
            r is Ok <==> 1 <= w <= old(self).spec_img().spec_width() && 1 <= h <= old(self).spec_img().spec_height(),
            r is Err ==> final(self).spec_img() == old(self).spec_img() && r->Err_0
                == CaptchaError::InvalidDimensions,
            r is Ok ==> {
                let left0 = clamped_start(
                    (old(self).spec_text_area().left + old(self).spec_text_area().right) / 2,
                    w as int / 2,
                    w as int,
                    old(self).spec_img().spec_width() as int,
                );
                let top0 = clamped_start(
                    (old(self).spec_text_area().top + old(self).spec_text_area().bottom) / 2,
                    h as int / 2,
                    h as int,
                    old(self).spec_img().spec_height() as int,
                );
                &&& final(self).spec_img().spec_width() == w
                &&& final(self).spec_img().spec_height() == h
                &&& forall|i: int, j: int|
                    0 <= i < w && 0 <= j < h ==> final(self).spec_img().pix(i, j) == old(self).spec_img().pix(left0 + i, top0 + j)
            },
            final(self).spec_font() == old(self).spec_font(),
            final(self).spec_text_area() == old(self).spec_text_area(),
            final(self).spec_chars() == old(self).spec_chars(),
            final(self).spec_charset() == old(self).spec_charset(),
            final(self).spec_color() == old(self).spec_color(),
    {
        let cw = self.img.width();
        let ch = self.img.height();
        if w < 1 || h < 1 || w > cw || h > ch {
            return Err(CaptchaError::InvalidDimensions);
        }
        let ta = self.text_area;
        let mid_x: u64 = ((ta.left as u64) + (ta.right as u64)) / 2;
        let half_w: u64 = (w / 2) as u64;
        let mut left0: u64 = if mid_x > half_w {
            mid_x - half_w
        } else {
            0
        };
        if left0 + (w as u64) > (cw as u64) {
            left0 = (cw - w) as u64;
        }
        let mid_y: u64 = ((ta.top as u64) + (ta.bottom as u64)) / 2;
        let half_h: u64 = (h / 2) as u64;
        let mut top0: u64 = if mid_y > half_h {
            mid_y - half_h
        } else {
            0
        };
        if top0 + (h as u64) > (ch as u64) {
            top0 = (ch - h) as u64;
        }
        let area = Geometry {
            left: left0 as u32,
            right: (left0 as u32) + w - 1,
            top: top0 as u32,
            bottom: (top0 as u32) + h - 1,
        };
        match self.img.extract(&area) {
            Ok(i) => {
                self.img = i;
                Ok(())
            },
            Err(_) => {
                proof {
                    assert(false);
                }
                Err(CaptchaError::InvalidDimensions)
            },
        }
    }
}

impl RngCaptcha {
    /// The pixels the canvas exports: when a color was set, every marker
    /// pixel takes it; everything else keeps its value.
    pub open spec fn export_pixels(&self) -> Seq<Pixl> {
        match self.spec_color() {
            None => self.spec_img().pixels(),
            Some(c) => self.spec_img().pixels().map_values(
                |p: Pixl|
                    if p == marker() {
                        c
                    } else {
                        p
                    },
            ),
        }
    }

    /// The canvas, recolored for export and serialized as a PNG byte
    /// stream; `None` when the encoder fails. The builder itself is
    /// read-only here and can be exported any number of times.
    pub fn as_png(&self) -> (r: Option<Vec<u8>>)
        requires
            self.wf(),
        ensures
            r is Some <==> png_encoding_of(
                raw_of(self.export_pixels()),
                self.spec_img().spec_width() as nat,
                self.spec_img().spec_height() as nat,
            ) is Some,
            r is Some ==> r->0@ == png_encoding_of(
                raw_of(self.export_pixels()),
                self.spec_img().spec_width() as nat,
                self.spec_img().spec_height() as nat,
            )->0,
    {
        let i = self.apply_transformations();
        i.as_png()
    }

    /// A copy of the canvas with the export color applied to the marker
    /// pixels, when a color was set.
    fn apply_transformations(&self) -> (r: Image)
        requires
            self.wf(),
        ensures
            r.wf(),
            r.spec_width() == self.spec_img().spec_width(),
            r.spec_height() == self.spec_img().spec_height(),
            r.pixels() == self.export_pixels(),
    {
        let mut i = self.img.duplicate();
        match self.color {
            None => {
                proof {
                    assert(i.pixels() =~= self.export_pixels());
                }
            },
            Some(c) => {
                let ghost dup = i;
                i.set_color(&[c.r, c.g, c.b]);
                proof {
                    assert((Pixl { r: c.r, g: c.g, b: c.b }) == c);
                    assert forall|k: int|
                        0 <= k < i.pixels().len() implies i.pixels()[k]
                        == self.export_pixels()[k] by {
                        crate::images::lemma_pix_of_index(i, k);
                        crate::images::lemma_pix_of_index(dup, k);
                        crate::images::lemma_pix_of_index(self.spec_img(), k);
                    }
                    assert(i.pixels() =~= self.export_pixels());
                }
            },
        }
        i
    }

    /// The exported PNG, base64-encoded; `None` when encoding fails.
    pub fn as_base64(&self) -> (r: Option<String>)
        requires
            self.wf(),
        ensures
            r is Some <==> png_encoding_of(
                raw_of(self.export_pixels()),
                self.spec_img().spec_width() as nat,
                self.spec_img().spec_height() as nat,
            ) is Some,
            r is Some ==> r->0@ == base64_encoding_of(
                png_encoding_of(
                    raw_of(self.export_pixels()),
                    self.spec_img().spec_width() as nat,
                    self.spec_img().spec_height() as nat,
                )->0,
            ),
    {
        match self.as_png() {
            None => None,
            Some(p) => Some(b64_encode(&p)),
        }
    }

    /// One WAV clip per revealed character, drawn from the given clip
    /// table with fresh noise per clip; a character without a decodable
    /// clip yields `None` at its position.
    pub fn as_wav_from(&mut self, audio: &crate::audio::Audio) -> (r: Vec<Option<Vec<u8>>>)
        requires
            old(self).wf(),
        ensures
            final(self).wf(),
            unchanged(*old(self), *final(self)),
            r@.len() == old(self).spec_chars().len(),
            forall|q: int|
                0 <= q < r@.len() ==> crate::audio::wav_result_for(
                    audio.spec_data(),
                    old(self).spec_chars()[q],
                    #[trigger] r@[q],
                ),
    {
        let n = self.chars.len();
        let mut out: Vec<Option<Vec<u8>>> = Vec::new();
        let mut i: usize = 0;
        while i < n
            invariant
                self.wf(),
                unchanged(*old(self), *self),
                self.spec_chars() == old(self).spec_chars(),
                n == self.chars@.len(),
                i <= n,
                out@.len() == i,
                forall|q: int|
                    0 <= q < i ==> crate::audio::wav_result_for(
                        audio.spec_data(),
                        old(self).spec_chars()[q],
                        #[trigger] out@[q],
                    ),
            decreases n - i,
        {
            let c = self.chars[i];
            let clip = audio.as_wav(c, &mut self.rng);
            out.push(clip);
            i = i + 1;
        }
        out
    }

    /// One entry per revealed character, from the crate's built-in clip
    /// table. The crate ships no clips, so every entry is `None`; supply
    /// a table through `as_wav_from` for audible output.
    pub fn as_wav(&mut self) -> (r: Vec<Option<Vec<u8>>>)
        requires
            old(self).wf(),
        ensures
            final(self).wf(),
            unchanged(*old(self), *final(self)),
            r@.len() == old(self).spec_chars().len(),
            forall|q: int| 0 <= q < r@.len() ==> (#[trigger] r@[q]) is None,
    {
        let audio = crate::audio::Audio::new();
        self.as_wav_from(&audio)
    }

    /// The revealed characters as a string, paired with the exported PNG;
    /// `None` when encoding fails.
    pub fn as_tuple(&self) -> (r: Option<(String, Vec<u8>)>)
        requires
            self.wf(),
        ensures
            r is Some <==> png_encoding_of(
                raw_of(self.export_pixels()),
                self.spec_img().spec_width() as nat,
                self.spec_img().spec_height() as nat,
            ) is Some,
            r is Some ==> {
                let t = r->0;
                t.0@ == self.spec_chars() && t.1@ == png_encoding_of(
                    raw_of(self.export_pixels()),
                    self.spec_img().spec_width() as nat,
                    self.spec_img().spec_height() as nat,
                )->0
            },
    {
        match self.as_png() {
            None => None,
            Some(p) => Some((self.chars_as_string(), p)),
        }
    }
}

/// The pixel at `(x, y)` lies on the frame that `add_text_area` draws
/// around the rectangle `g`.
pub open spec fn on_frame(g: Geometry, x: int, y: int) -> bool {
    ||| ((x == g.left || x == g.right) && g.top <= y < g.bottom)
    ||| ((y == g.top || y == g.bottom) && g.left <= x < g.right)
}

/// Where a `size`-wide crop window starts on an axis: at `mid - half`,
/// clamped into `[0, limit - size]` so the window lies on the canvas.
pub open spec fn clamped_start(mid: int, half: int, size: int, limit: int) -> int {
    let s = if mid > half {
        mid - half
    } else {
        0
    };
    if s + size > limit {
        limit - size
    } else {
        s
    }
}

} // verus!
