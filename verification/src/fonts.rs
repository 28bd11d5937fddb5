use vstd::prelude::*;

use crate::codec::{b64_decode, b64_encode, base64_decoding_of, base64_encoding_of};
use crate::images::{lemma_pix_of_index, png_encoding_of, raw_of, Image};
use crate::pixel::{background, marker, Pixl};
use vstd::string::StringExecFns;

verus! {

/// A glyph source: a lookup from a character to a pre-rendered bitmap,
/// stored as a base64-encoded PNG. Absence of a glyph is a valid outcome,
/// not an error.
pub trait Font {
    /// The glyph for `letter` as a base64-encoded PNG, when the font has
    /// one.
    fn png_as_base64(&self, letter: char) -> Option<&str>;

    /// The characters this font has glyphs for.
    fn chars(&self) -> Vec<char>;
}

/// The first table entry for `c`, as the character sequence of its
/// base64 string.
pub open spec fn table_lookup(t: Seq<(char, String)>, c: char) -> Option<Seq<char>>
    decreases t.len(),
{
    if t.len() == 0 {
        None
    } else if t[0].0 == c {
        Some(t[0].1@)
    } else {
        table_lookup(t.drop_first(), c)
    }
}

/// The characters a font table has entries for, in table order.
pub open spec fn table_keys(t: Seq<(char, String)>) -> Seq<char> {
    Seq::new(t.len(), |i: int| t[i].0)
}

/// The decoded PNG bytes of the table's glyph for `c`: `None` when the
/// table has no entry or the entry is not valid base64.
pub open spec fn glyph_png(t: Seq<(char, String)>, c: char) -> Option<Seq<u8>> {
    match table_lookup(t, c) {
        None => None,
        Some(s) => base64_decoding_of(s),
    }
}

/// Finds the first entry for `c` in a font table.
pub(crate) fn lookup_in<'a>(t: &'a Vec<(char, String)>, c: char) -> (r: Option<&'a String>)
    ensures
        r is Some <==> table_lookup(t@, c) is Some,
        r is Some ==> r->0@ == table_lookup(t@, c)->0,
{
    let n = t.len();
    let mut i: usize = 0;
    proof {
        assert(t@.skip(0) =~= t@);
    }
    while i < n
        invariant
            n == t@.len(),
            i <= n,
            table_lookup(t@.skip(i as int), c) == table_lookup(t@, c),
        decreases n - i,
    {
        let pair = &t[i];
        proof {
            assert(t@.skip(i as int)[0] == t@[i as int]);
        }
        if pair.0 == c {
            return Some(&pair.1);
        }
        proof {
            assert(t@.skip(i as int).drop_first() =~= t@.skip(i as int + 1));
        }
        i = i + 1;
    }
    proof {
        assert(t@.skip(n as int) =~= Seq::<(char, String)>::empty());
    }
    None
}

/// Decodes a font's glyph for `letter` from base64 to PNG bytes; `None`
/// when the font lacks the glyph or the entry does not decode.
pub(crate) fn table_png(t: &Vec<(char, String)>, letter: char) -> (r: Option<Vec<u8>>)
    ensures
        r is Some <==> glyph_png(t@, letter) is Some,
        r is Some ==> r->0@ == glyph_png(t@, letter)->0,
{
    match lookup_in(t, letter) {
        None => None,
        Some(s) => b64_decode(s.as_str()),
    }
}

/// Copies a font into a plain table of `(character, base64 PNG)` rows,
/// one per character the font answers for, in the font's own order.
pub(crate) fn font_table<F: Font>(f: &F) -> (t: Vec<(char, String)>) {
    let cs = f.chars();
    let mut t: Vec<(char, String)> = Vec::new();
    let n = cs.len();
    let mut i: usize = 0;
    while i < n
        invariant
            n == cs@.len(),
            i <= n,
        decreases n - i,
    {
        let c = cs[i];
        match f.png_as_base64(c) {
            None => {},
            Some(s) => {
                t.push((c, String::from_str(s)));
            },
        }
        i = i + 1;
    }
    t
}

/// A character the built-in font covers: a latin lowercase letter or a
/// digit.
pub open spec fn builtin_char(c: char) -> bool {
    (97 <= c as u32 <= 122) || (48 <= c as u32 <= 57)
}

/// Copies the characters a font table has entries for, in table order.
pub(crate) fn keys_of(t: &Vec<(char, String)>) -> (r: Vec<char>)
    ensures
        r@ == table_keys(t@),
{
    let n = t.len();
    let mut out: Vec<char> = Vec::new();
    let mut i: usize = 0;
    while i < n
        invariant
            n == t@.len(),
            i <= n,
            out@.len() == i,
            forall|q: int| 0 <= q < i ==> out@[q] == table_keys(t@)[q],
        decreases n - i,
    {
        let pair = &t[i];
        out.push(pair.0);
        i = i + 1;
    }
    proof {
        assert(out@ =~= table_keys(t@));
    }
    out
}

/// The glyph source built into this crate: a table of small procedurally
/// drawn block glyphs for the latin lowercase letters and the digits,
/// each stored, like any font glyph, as a base64-encoded PNG.
pub struct DefaultFont {
    data: Vec<(char, String)>,
}

/// Width of a built-in glyph, in pixels.
pub const GLYPH_W: u32 = 16;

/// Height of a built-in glyph, in pixels.
pub const GLYPH_H: u32 = 24;

/// The pixel of the built-in block glyph for `c` at `(x, y)`: a 4 x 6
/// grid of cells, each 4 x 4 pixels, filled with the marker color on a
/// bit pattern derived from the character code.
pub open spec fn glyph_pix(c: char, x: int, y: int) -> Pixl {
    let bits = ((c as u32) as u64).wrapping_mul(0x9e3779b97f4a7c15);
    let cell = ((y / 4) * 4 + x / 4) as u64;
    if (bits >> cell) & 1 == 1 {
        marker()
    } else {
        background()
    }
}

/// The full pixel grid of the built-in glyph for `c`, row-major.
pub open spec fn builtin_glyph_pixels(c: char) -> Seq<Pixl> {
    Seq::new(
        (GLYPH_W * GLYPH_H) as nat,
        |k: int| glyph_pix(c, k % (GLYPH_W as int), k / (GLYPH_W as int)),
    )
}

/// Draws the block pattern for one character: exactly `glyph_pix` at
/// every position.
fn glyph_canvas(c: char) -> (img: Image)
    ensures
        img.wf(),
        img.spec_width() == GLYPH_W,
        img.spec_height() == GLYPH_H,
        img.pixels() == builtin_glyph_pixels(c),
{
    let code: u64 = (c as u32) as u64;
    let bits: u64 = code.wrapping_mul(0x9e3779b97f4a7c15);
    let mut img = Image::blank(GLYPH_W, GLYPH_H);
    let mut y: u32 = 0;
    while y < GLYPH_H
        invariant
            img.wf(),
            img.spec_width() == GLYPH_W,
            img.spec_height() == GLYPH_H,
            y <= GLYPH_H,
            bits == ((c as u32) as u64).wrapping_mul(0x9e3779b97f4a7c15),
            forall|i: int, j: int|
                0 <= i < GLYPH_W && 0 <= j < GLYPH_H ==> img.pix(i, j) == (if j < y {
                    glyph_pix(c, i, j)
                } else {
                    background()
                }),
        decreases GLYPH_H - y,
    {
        let mut x: u32 = 0;
        while x < GLYPH_W
            invariant
                img.wf(),
                img.spec_width() == GLYPH_W,
                img.spec_height() == GLYPH_H,
                y < GLYPH_H,
                x <= GLYPH_W,
                bits == ((c as u32) as u64).wrapping_mul(0x9e3779b97f4a7c15),
                forall|i: int, j: int|
                    0 <= i < GLYPH_W && 0 <= j < GLYPH_H ==> img.pix(i, j) == (if j < y || (j == y
                        && i < x) {
                        glyph_pix(c, i, j)
                    } else {
                        background()
                    }),
            decreases GLYPH_W - x,
        {
            let cell: u64 = ((y / 4) * 4 + x / 4) as u64;
            if (bits >> cell) & 1 == 1 {
                img.put_pixel(x, y, Pixl::black());
            }
            x = x + 1;
        }
        y = y + 1;
    }
    proof {
        assert forall|k: int|
            0 <= k < img.pixels().len() implies img.pixels()[k] == builtin_glyph_pixels(c)[k] by {
            lemma_pix_of_index(img, k);
        }
        assert(img.pixels() =~= builtin_glyph_pixels(c));
    }
    img
}

/// The table row the built-in font holds for `c`: present exactly when
/// the glyph's canvas encodes as a PNG, and then holding that encoding
/// in base64.
pub open spec fn builtin_row(c: char) -> Option<(char, Seq<char>)> {
    match png_encoding_of(raw_of(builtin_glyph_pixels(c)), GLYPH_W as nat, GLYPH_H as nat) {
        Some(png) => Some((c, base64_encoding_of(png))),
        None => None,
    }
}

/// The candidate characters of the built-in font, in order: the
/// lowercase latin letters, then the digits.
pub open spec fn builtin_chars() -> Seq<char> {
    Seq::new(
        36,
        |i: int|
            if i < 26 {
                ((97 + i) as u8) as char
            } else {
                ((48 + (i - 26)) as u8) as char
            },
    )
}

/// The built-in table over the first `i` candidate characters: one row
/// per candidate whose glyph encodes, in candidate order.
pub open spec fn builtin_table(i: nat) -> Seq<(char, Seq<char>)>
    decreases i,
{
    if i == 0 {
        Seq::empty()
    } else {
        let prev = builtin_table((i - 1) as nat);
        match builtin_row(builtin_chars()[i - 1]) {
            Some(row) => prev.push(row),
            None => prev,
        }
    }
}

/// A table's rows with their strings viewed as character sequences.
pub open spec fn view_rows(t: Seq<(char, String)>) -> Seq<(char, Seq<char>)> {
    t.map_values(|e: (char, String)| (e.0, e.1@))
}

impl DefaultFont {
    /// The glyph table: one row per built-in character whose glyph
    /// encoded successfully.
    pub closed spec fn spec_data(&self) -> Seq<(char, String)> {
        self.data@
    }

    /// Builds the table: for each candidate character in order, its
    /// block glyph is drawn, PNG-encoded and stored as base64 — exactly
    /// the rows of `builtin_table` over all 36 candidates.
    pub fn new() -> (f: DefaultFont)
        ensures
            view_rows(f.spec_data()) == builtin_table(36),
            forall|q: int|
                0 <= q < f.spec_data().len() ==> builtin_char((#[trigger] f.spec_data()[q]).0),
    {
        let mut data: Vec<(char, String)> = Vec::new();
        let mut b: u8 = 97;  // 'a'
        while b <= 122  // 'z'
            invariant
                97 <= b <= 123,
                view_rows(data@) == builtin_table((b - 97) as nat),
                forall|q: int|
                    0 <= q < data@.len() ==> builtin_char((#[trigger] data@[q]).0),
            decreases 123 - b,
        {
            let ghost i = (b - 97) as nat;
            push_glyph(&mut data, b as char);
            proof {
                assert(builtin_chars()[i as int] == ((97 + i) as u8) as char);
                assert(((97 + i) as u8) == b);
                assert(((i + 1) - 1) as nat == i);
                assert(builtin_table((i + 1) as nat) == (match builtin_row(
                    builtin_chars()[i as int],
                ) {
                    Some(row) => builtin_table(i).push(row),
                    None => builtin_table(i),
                }));
            }
            b = b + 1;
        }
        let mut d: u8 = 48;  // '0'
        while d <= 57  // '9'
            invariant
                48 <= d <= 58,
                view_rows(data@) == builtin_table((26 + (d - 48)) as nat),
                forall|q: int|
                    0 <= q < data@.len() ==> builtin_char((#[trigger] data@[q]).0),
            decreases 58 - d,
        {
            let ghost i = (26 + (d - 48)) as nat;
            push_glyph(&mut data, d as char);
            proof {
                assert(builtin_chars()[i as int] == ((48 + (i - 26)) as u8) as char);
                assert(((48 + (i - 26)) as u8) == d);
                assert(((i + 1) - 1) as nat == i);
                assert(builtin_table((i + 1) as nat) == (match builtin_row(
                    builtin_chars()[i as int],
                ) {
                    Some(row) => builtin_table(i).push(row),
                    None => builtin_table(i),
                }));
            }
            d = d + 1;
        }
        DefaultFont { data }
    }

    /// Hands the table over as plain rows.
    pub fn into_table(self) -> (t: Vec<(char, String)>)
        ensures
            t@ == self.spec_data(),
    {
        self.data
    }
}

/// Renders and appends one glyph row exactly when the glyph's canvas
/// encodes as a PNG — the row `builtin_row` describes; a character
/// whose canvas fails to encode is skipped, as a font may lack any
/// glyph.
fn push_glyph(data: &mut Vec<(char, String)>, c: char)
    ensures
        match builtin_row(c) {
            Some(row) => view_rows(final(data)@) == view_rows(old(data)@).push(row),
            None => final(data)@ == old(data)@,
        },
        final(data)@.len() >= old(data)@.len(),
        forall|q: int| 0 <= q < old(data)@.len() ==> final(data)@[q] == old(data)@[q],
        forall|q: int|
            old(data)@.len() <= q < final(data)@.len() ==> (#[trigger] final(data)@[q]).0 == c,
{
    let img = glyph_canvas(c);
    match img.as_png() {
        None => {},
        Some(png) => {
            let b64 = b64_encode(&png);
            data.push((c, b64));
            proof {
                assert(view_rows(data@) =~= view_rows(old(data)@).push((c, b64@)));
            }
        },
    }
}

impl Font for DefaultFont {
    fn png_as_base64(&self, letter: char) -> Option<&str> {
        match lookup_in(&self.data, letter) {
            None => None,
            Some(s) => Some(s.as_str()),
        }
    }

    fn chars(&self) -> Vec<char> {
        let n = self.data.len();
        let mut out: Vec<char> = Vec::new();
        let mut i: usize = 0;
        while i < n
            invariant
                n == self.data@.len(),
                i <= n,
            decreases n - i,
        {
            let pair = &self.data[i];
            out.push(pair.0);
            i = i + 1;
        }
        out
    }
}

} // verus!
