use vstd::prelude::*;

use crate::error::CaptchaError;
use crate::filters::Filter;
use crate::images::Image;
use crate::pixel::{background, Pixl};
use crate::rng::RandomSource;

verus! {

/// Which axis the wave displaces pixels along.
#[derive(Clone, Copy, Debug, PartialEq, Eq, Structural)]
pub enum Direction {
    Horizontal,
    Vertical,
}

/// Numerator of the rational sine approximation, for a half-period angle
/// `a` in degrees, `0 <= a <= 180`.
pub open spec fn sine_num(a: int) -> int {
    4 * a * (180 - a)
}

/// Denominator of the rational sine approximation: `sine_num(a) /
/// sine_den(a)` approximates `sin` of `a` degrees, reaching exactly one
/// at `a == 90` and zero at both ends.
pub open spec fn sine_den(a: int) -> int {
    40500 - a * (180 - a)
}

/// The signed displacement the wave applies at coordinate `x` of an axis
/// of length `w`: the floor of `amp` scaled by the rational sine of the
/// angle `f * x / w` turns. On the negative half-wave the quotient is
/// rounded up before negation, so the result is the floor of the signed
/// value, and it stays within `[-amp, amp]`.
pub open spec fn wave_offset(f: int, amp: int, x: int, w: int) -> int
    recommends
        w >= 1,
{
    let phase = (f * x) % w;
    let a = (360 * phase) / w;
    if a < 180 {
        (amp * sine_num(a)) / sine_den(a)
    } else {
        -((amp * sine_num(a - 180) + sine_den(a - 180) - 1) / sine_den(a - 180))
    }
}

/// Computes `wave_offset` executably.
pub fn wave_offset_at(f: u32, amp: u32, x: u32, w: u32) -> (o: i64)
    requires
        w >= 1,
    ensures
        o == wave_offset(f as int, amp as int, x as int, w as int),
        -(amp as int) <= o <= amp as int,
{
    proof {
        assert((f as int) * (x as int) <= 0xffffffff * 0xffffffff) by (nonlinear_arith)
            requires
                0 <= f as int <= 0xffffffff,
                0 <= x as int <= 0xffffffff,
        ;
    }
    let phase: u64 = ((f as u64) * (x as u64)) % (w as u64);
    let a: u64 = (360 * phase) / (w as u64);
    proof {
        assert(360 * phase < 360 * (w as u64)) by (nonlinear_arith)
            requires
                phase < w as u64,
                w >= 1,
        ;
        assert(a < 360) by (nonlinear_arith)
            requires
                360 * (phase as int) < 360 * (w as int),
                a as int == (360 * (phase as int)) / (w as int),
                w >= 1,
                phase >= 0,
        ;
    }
    let abase: u64 = if a < 180 {
        a
    } else {
        a - 180
    };
    proof {
        assert(abase * (180 - abase) <= 8100) by (nonlinear_arith)
            requires
                0 <= abase <= 180,
        ;
    }
    let q: u64 = abase * (180 - abase);
    let num: u64 = 4 * q;
    let den: u64 = 40500 - q;
    proof {
        let ai = abase as int;
        assert(4 * (ai * (180 - ai)) == 4 * ai * (180 - ai)) by (nonlinear_arith);
        assert(num as int == sine_num(ai));
        assert(den as int == sine_den(ai));
    }
    proof {
        assert((amp as int) * (num as int) <= 0xffffffff * 32400) by (nonlinear_arith)
            requires
                0 <= amp as int <= 0xffffffff,
                0 <= num as int <= 32400,
        ;
    }
    proof {
        let ampi = amp as int;
        assert(ampi * num <= ampi * den) by (nonlinear_arith)
            requires
                num <= den,
                ampi >= 0,
        ;
        vstd::arithmetic::div_mod::lemma_div_is_ordered(
            ampi * (num as int),
            ampi * (den as int),
            den as int,
        );
        vstd::arithmetic::div_mod::lemma_div_multiples_vanish(ampi, den as int);
        assert((den as int) * ampi == ampi * (den as int)) by (nonlinear_arith);
        vstd::arithmetic::div_mod::lemma_div_is_ordered(
            ampi * (num as int) + (den as int) - 1,
            ampi * (den as int) + (den as int) - 1,
            den as int,
        );
        vstd::arithmetic::div_mod::lemma_fundamental_div_mod_converse(
            ampi * (den as int) + (den as int) - 1,
            den as int,
            ampi,
            den as int - 1,
        );
    }
    if a < 180 {
        let val: u64 = ((amp as u64) * num) / den;
        val as i64
    } else {
        let valn: u64 = ((amp as u64) * num + (den - 1)) / den;
        -(valn as i64)
    }
}

/// A one-dimensional sinusoidal pixel displacement: each pixel of the
/// original canvas is moved along one axis by the wave's offset at its
/// coordinate; pixels whose destination falls outside the canvas are
/// dropped, and positions no source pixel reaches become background.
pub struct Wave {
    pub f: u32,
    pub amp: u32,
    pub d: Direction,
}

impl Wave {
    pub fn new(f: u32, amp: u32) -> (v: Wave)
        ensures
            v == (Wave { f, amp, d: Direction::Horizontal }),
    {
        Wave { f, amp, d: Direction::Horizontal }
    }

    pub fn horizontal(self) -> (v: Wave)
        ensures
            v == (Wave { d: Direction::Horizontal, ..self }),
    {
        Wave { d: Direction::Horizontal, ..self }
    }

    pub fn vertical(self) -> (v: Wave)
        ensures
            v == (Wave { d: Direction::Vertical, ..self }),
    {
        Wave { d: Direction::Vertical, ..self }
    }

    pub fn direction(self, d: Direction) -> (v: Wave)
        ensures
            v == (Wave { d, ..self }),
    {
        Wave { d, ..self }
    }

    /// The pixel the transformed canvas shows at `(x, y)`, given the
    /// canvas `src` before the wave.
    pub open spec fn wave_pix(self, src: Image, x: int, y: int) -> Pixl {
        match self.d {
            Direction::Horizontal => {
                let off = wave_offset(
                    self.f as int,
                    self.amp as int,
                    x,
                    src.spec_width() as int,
                );
                if 0 <= y + off < src.spec_height() {
                    src.pix(x, y + off)
                } else {
                    background()
                }
            },
            Direction::Vertical => {
                let off = wave_offset(
                    self.f as int,
                    self.amp as int,
                    y,
                    src.spec_height() as int,
                );
                if 0 <= x + off < src.spec_width() {
                    src.pix(x + off, y)
                } else {
                    background()
                }
            },
        }
    }

    /// Applies the displacement, reading every pixel from a copy of the
    /// pre-filter canvas: afterwards the pixel at `(x, y)` is exactly
    /// `wave_pix` of the old canvas.
    pub fn ripple(&self, img: &mut Image)
        requires
            old(img).wf(),
        ensures
            final(img).wf(),
            final(img).spec_width() == old(img).spec_width(),
            final(img).spec_height() == old(img).spec_height(),
            forall|i: int, j: int|
                0 <= i < old(img).spec_width() && 0 <= j < old(img).spec_height()
                    ==> final(img).pix(i, j) == self.wave_pix(*old(img), i, j),
    {
        match self.d {
            Direction::Horizontal => ripple_h(self.f, self.amp, img),
            Direction::Vertical => ripple_v(self.f, self.amp, img),
        }
    }
}

/// The horizontal remap: source pixel `(x, y)` moves to row `y - off(x)`.
fn ripple_h(f: u32, amp: u32, img: &mut Image)
    requires
        old(img).wf(),
    ensures
        final(img).wf(),
        final(img).spec_width() == old(img).spec_width(),
        final(img).spec_height() == old(img).spec_height(),
        forall|i: int, j: int|
            0 <= i < old(img).spec_width() && 0 <= j < old(img).spec_height()
                ==> final(img).pix(i, j) == {
                let off = wave_offset(f as int, amp as int, i, old(img).spec_width() as int);
                if 0 <= j + off < old(img).spec_height() {
                    old(img).pix(i, j + off)
                } else {
                    background()
                }
            },
{
    let src = img.duplicate();
    img.clear();
    let w = img.width();
    let h = img.height();
    let mut x: u32 = 0;
    while x < w
        invariant
            old(img).wf(),
            img.wf(),
            src.wf(),
            src.same_content(*old(img)),
            w == old(img).spec_width(),
            h == old(img).spec_height(),
            img.spec_width() == w,
            img.spec_height() == h,
            x <= w,
            forall|i: int, j: int|
                0 <= i < w && 0 <= j < h ==> img.pix(i, j) == (if i < x {
                    let off = wave_offset(f as int, amp as int, i, w as int);
                    if 0 <= j + off < h {
                        src.pix(i, j + off)
                    } else {
                        background()
                    }
                } else {
                    background()
                }),
        decreases w - x,
    {
        let off: i64 = wave_offset_at(f, amp, x, w);
        let mut y: u32 = 0;
        while y < h
            invariant
                old(img).wf(),
                img.wf(),
                src.wf(),
                src.same_content(*old(img)),
                w == old(img).spec_width(),
                h == old(img).spec_height(),
                img.spec_width() == w,
                img.spec_height() == h,
                x < w,
                y <= h,
                off == wave_offset(f as int, amp as int, x as int, w as int),
                -(amp as int) <= off <= amp as int,
                forall|i: int, j: int|
                    0 <= i < w && 0 <= j < h ==> img.pix(i, j) == (if i < x {
                        let o2 = wave_offset(f as int, amp as int, i, w as int);
                        if 0 <= j + o2 < h {
                            src.pix(i, j + o2)
                        } else {
                            background()
                        }
                    } else if i == x && 0 <= j + off < y {
                        src.pix(i, j + off)
                    } else {
                        background()
                    }),
            decreases h - y,
        {
            let ny: i64 = y as i64 - off;
            if 0 <= ny && ny < h as i64 {
                let p = src.get_pixel(x, y);
                img.put_pixel(x, ny as u32, p);
            }
            y = y + 1;
        }
        x = x + 1;
    }
}

/// The vertical remap, the transpose of the horizontal one: source pixel
/// `(x, y)` moves to column `x - off(y)`, with the wave length the
/// canvas height.
fn ripple_v(f: u32, amp: u32, img: &mut Image)
    requires
        old(img).wf(),
    ensures
        final(img).wf(),
        final(img).spec_width() == old(img).spec_width(),
        final(img).spec_height() == old(img).spec_height(),
        forall|i: int, j: int|
            0 <= i < old(img).spec_width() && 0 <= j < old(img).spec_height()
                ==> final(img).pix(i, j) == {
                let off = wave_offset(f as int, amp as int, j, old(img).spec_height() as int);
                if 0 <= i + off < old(img).spec_width() {
                    old(img).pix(i + off, j)
                } else {
                    background()
                }
            },
{
    let src = img.duplicate();
    img.clear();
    let w = img.width();
    let h = img.height();
    let mut y: u32 = 0;
    while y < h
        invariant
            old(img).wf(),
            img.wf(),
            src.wf(),
            src.same_content(*old(img)),
            w == old(img).spec_width(),
            h == old(img).spec_height(),
            img.spec_width() == w,
            img.spec_height() == h,
            y <= h,
            forall|i: int, j: int|
                0 <= i < w && 0 <= j < h ==> img.pix(i, j) == (if j < y {
                    let off = wave_offset(f as int, amp as int, j, h as int);
                    if 0 <= i + off < w {
                        src.pix(i + off, j)
                    } else {
                        background()
                    }
                } else {
                    background()
                }),
        decreases h - y,
    {
        let off: i64 = wave_offset_at(f, amp, y, h);
        let mut x: u32 = 0;
        while x < w
            invariant
                old(img).wf(),
                img.wf(),
                src.wf(),
                src.same_content(*old(img)),
                w == old(img).spec_width(),
                h == old(img).spec_height(),
                img.spec_width() == w,
                img.spec_height() == h,
                y < h,
                x <= w,
                off == wave_offset(f as int, amp as int, y as int, h as int),
                -(amp as int) <= off <= amp as int,
                forall|i: int, j: int|
                    0 <= i < w && 0 <= j < h ==> img.pix(i, j) == (if j < y {
                        let o2 = wave_offset(f as int, amp as int, j, h as int);
                        if 0 <= i + o2 < w {
                            src.pix(i + o2, j)
                        } else {
                            background()
                        }
                    } else if j == y && 0 <= i + off < x {
                        src.pix(i + off, j)
                    } else {
                        background()
                    }),
            decreases w - x,
        {
            let nx: i64 = x as i64 - off;
            if 0 <= nx && nx < w as i64 {
                let p = src.get_pixel(x, y);
                img.put_pixel(nx as u32, y, p);
            }
            x = x + 1;
        }
        y = y + 1;
    }
}

impl Filter for Wave {
    fn apply(&self, img: &mut Image, _rng: &mut RandomSource) -> (r: Result<
        (),
        CaptchaError,
    >)
        ensures
            r is Ok,
            forall|i: int, j: int|
                0 <= i < old(img).spec_width() && 0 <= j < old(img).spec_height()
                    ==> final(img).pix(i, j) == self.wave_pix(*old(img), i, j),
    {
        self.ripple(img);
        Ok(())
    }
}

} // verus!
