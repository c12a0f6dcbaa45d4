//! The frame buffer (pixel plane) of the panel.
//!
//! The plane holds one encoded byte per `(column, address row)` cell, where
//! an address row drives two physical rows at once: bits 0–2 of a cell hold
//! the 3-bit color of the top-half pixel, bits 3–5 the color of the
//! bottom-half pixel sharing the same address row. Bits 6–7 are unused and
//! are never disturbed by pixel writes.
//!
//! The plane takes no lock: it is meant to be filled before the scan loop
//! starts (or between scan passes). Mutating it while a scan of the same
//! address row is in flight may show one torn frame; that is accepted here.

use vstd::prelude::*;
use vstd::std_specs::iter::IteratorSpec;

use crate::error::DriverError;
use crate::font::find_glyph;
use crate::font::lemma_find_glyph_wf;
use crate::font::Font;
use crate::font::FontChar;

verus! {

broadcast use vstd::string::next_postcondition, vstd::string::axiom_spec_iter;

/// The frame buffer: `cols` columns by `rows` rows, stored as
/// `cols * (rows / 2)` encoded bytes, one per `(column, address row)` cell.
pub struct ImgBuffer {
    plane: Vec<u8>,
    rows: usize,
    cols: usize,
}

/// A 3-bit color: bit 0 is red, bit 1 green, bit 2 blue. Every non-zero
/// combination of the three is a legal color; 0 means off and has no variant.
#[derive(Clone, Copy, Debug, PartialEq, Eq, Structural)]
pub enum Color {
    Red,
    Green,
    Yellow,
    Blue,
    Purple,
    Teal,
    White,
}

impl Color {
    /// The 3-bit code of this color.
    pub open spec fn spec_code(self) -> u8 {
        match self {
            Color::Red => 1,
            Color::Green => 2,
            Color::Yellow => 3,
            Color::Blue => 4,
            Color::Purple => 5,
            Color::Teal => 6,
            Color::White => 7,
        }
    }

    /// Returns the 3-bit code driven onto the panel for this color.
    pub fn code(&self) -> (c: u8)
        ensures
            c == self.spec_code(),
            1 <= c <= 7,
    {
        match self {
            Color::Red => 1,
            Color::Green => 2,
            Color::Yellow => 3,
            Color::Blue => 4,
            Color::Purple => 5,
            Color::Teal => 6,
            Color::White => 7,
        }
    }
}

/// The color of the top-half pixel stored in a cell byte: bits 0–2.
pub open spec fn top_field(b: u8) -> u8 {
    b & 0x07
}

/// The color of the bottom-half pixel stored in a cell byte: bits 3–5.
pub open spec fn bottom_field(b: u8) -> u8 {
    (b >> 3) & 0x07
}

/// The unused high bits of a cell byte: bits 6–7.
pub open spec fn spare_bits(b: u8) -> u8 {
    b >> 6
}

/// A cell byte with its top-half color replaced by `c`: clears exactly
/// bits 0–2 and ORs the new code in.
pub open spec fn with_top(b: u8, c: u8) -> u8 {
    (b & 0xf8) | c
}

/// A cell byte with its bottom-half color replaced by `c`: clears exactly
/// bits 3–5 and ORs the new code in, shifted into place.
pub open spec fn with_bottom(b: u8, c: u8) -> u8 {
    (b & 0xc7) | ((c & 0x07) << 3)
}

/// The plane after a `set_pixel(x, y, c)` call: the one cell byte for
/// `(x, y mod rows/2)` has the 3-bit field of the half that `y` falls in
/// replaced by `c`; everything else is unchanged. Out-of-range coordinates
/// leave the plane as it is.
pub open spec fn spec_set_pixel(
    plane: Seq<u8>,
    cols: int,
    rows: int,
    x: int,
    y: int,
    c: u8,
) -> Seq<u8> {
    if 0 <= x < cols && 0 <= y < rows {
        let half = rows / 2;
        let idx = (y % half) * cols + x;
        let b = plane[idx];
        plane.update(idx, if y < half { with_top(b, c) } else { with_bottom(b, c) })
    } else {
        plane
    }
}

/// The storage cell for column `x` of address row `y % half` lies inside a
/// plane of `half * cols` bytes.
proof fn lemma_cell_index_bound(cols: int, half: int, x: int, y: int)
    requires
        cols >= 1,
        half >= 1,
        0 <= x < cols,
        0 <= y,
    ensures
        0 <= (y % half) * cols + x,
        (y % half) * cols + x < cols * half,
        y < half ==> y % half == y,
{
    let m = y % half;
    assert(0 <= m < half);
    if y < half {
        vstd::arithmetic::div_mod::lemma_small_mod(y as nat, half as nat);
    }
    assert(0 <= m * cols && m * cols + x < cols * half) by (nonlinear_arith)
        requires
            0 <= m,
            m < half,
            cols >= 1,
            0 <= x < cols,
    ;
}

/// Replacing the top field keeps the bottom field and the spare bits, and
/// reads back exactly the new code.
proof fn lemma_with_top(b: u8, c: u8)
    requires
        c <= 7,
    ensures
        top_field(with_top(b, c)) == c,
        bottom_field(with_top(b, c)) == bottom_field(b),
        spare_bits(with_top(b, c)) == spare_bits(b),
{
    assert(((b & 0xf8) | c) & 0x07 == c) by (bit_vector)
        requires
            c <= 7u8,
    ;
    assert((((b & 0xf8) | c) >> 3) & 0x07 == (b >> 3) & 0x07) by (bit_vector)
        requires
            c <= 7u8,
    ;
    assert(((b & 0xf8) | c) >> 6 == b >> 6) by (bit_vector)
        requires
            c <= 7u8,
    ;
}

/// Replacing the bottom field keeps the top field and the spare bits, and
/// reads back exactly the new code.
proof fn lemma_with_bottom(b: u8, c: u8)
    requires
        c <= 7,
    ensures
        bottom_field(with_bottom(b, c)) == c,
        top_field(with_bottom(b, c)) == top_field(b),
        spare_bits(with_bottom(b, c)) == spare_bits(b),
{
    assert((((b & 0xc7) | ((c & 0x07) << 3)) >> 3) & 0x07 == c) by (bit_vector)
        requires
            c <= 7u8,
    ;
    assert(((b & 0xc7) | ((c & 0x07) << 3)) & 0x07 == b & 0x07) by (bit_vector)
        requires
            c <= 7u8,
    ;
    assert(((b & 0xc7) | ((c & 0x07) << 3)) >> 6 == b >> 6) by (bit_vector)
        requires
            c <= 7u8,
    ;
}

impl ImgBuffer {
    /// The stored cell bytes, in address-row-major column order.
    pub closed spec fn view(&self) -> Seq<u8> {
        self.plane@
    }

    /// The configured number of rows.
    pub closed spec fn spec_rows(&self) -> usize {
        self.rows
    }

    /// The configured number of columns.
    pub closed spec fn spec_cols(&self) -> usize {
        self.cols
    }

    /// The structural invariant: even row count, at least one column, and
    /// exactly one byte of storage per `(column, address row)` cell.
    pub open spec fn wf(&self) -> bool {
        &&& self.spec_rows() >= 2
        &&& self.spec_rows() % 2 == 0
        &&& self.spec_cols() >= 1
        &&& self.view().len() == self.spec_cols() * (self.spec_rows() / 2)
    }

    /// Allocates the fixed 64-by-32 plane used by the panel, all cells off.
    pub fn new() -> (r: ImgBuffer)
        ensures
            r.wf(),
            r.spec_cols() == 64,
            r.spec_rows() == 32,
            r@ == Seq::new(1024, |i: int| 0u8),
    {
        let plane: Vec<u8> = vec![0u8; 1024];
        proof {
            assert(plane@ =~= Seq::new(1024, |i: int| 0u8));
        }
        ImgBuffer { plane, rows: 32, cols: 64 }
    }

    /// Returns the number of rows of the plane.
    pub fn rows(&self) -> (r: usize)
        ensures
            r == self.spec_rows(),
    {
        self.rows
    }

    /// Returns the number of columns of the plane.
    pub fn cols(&self) -> (r: usize)
        ensures
            r == self.spec_cols(),
    {
        self.cols
    }

    /// Returns the `cols` cell bytes of address row `row`, in column order,
    /// or `OutOfRange` for a row at or beyond `rows / 2`.
    pub fn get_display_row(&self, row: usize) -> (r: Result<&[u8], DriverError>)
        requires
            self.wf(),
        ensures
            r is Ok <==> row < self.spec_rows() / 2,
            r matches Ok(s) ==> s@.len() == self.spec_cols(),
            r matches Ok(s) ==> s@ == self@.subrange(
                row * self.spec_cols(),
                row * self.spec_cols() + self.spec_cols(),
            ),
            r matches Err(e) ==> e == DriverError::OutOfRange,
    {
        let half = self.rows / 2;
        if row < half {
            let n = self.plane.len();
            proof {
                lemma_cell_index_bound(
                    self.spec_cols() as int,
                    half as int,
                    self.spec_cols() - 1,
                    row as int,
                );
                assert(row as int % half as int == row as int);
                assert(row * self.spec_cols() + self.spec_cols() <= n);
            }
            let start = row * self.cols;
            let finish = start + self.cols;
            Ok(vstd::slice::slice_subrange(self.plane.as_slice(), start, finish))
        } else {
            Err(DriverError::OutOfRange)
        }
    }

    /// Writes `color` into the half-field of the cell addressed by
    /// `(x, y)`, leaving the other half-field and the spare bits of that
    /// cell, and every other cell, bit-for-bit unchanged. Coordinates
    /// outside the plane are rejected with `OutOfRange` and leave the plane
    /// untouched.
    pub fn set_pixel(&mut self, x: usize, y: usize, color: Color) -> (r: Result<(), DriverError>)
        requires
            old(self).wf(),
        ensures
            final(self).wf(),
            final(self).spec_cols() == old(self).spec_cols(),
            final(self).spec_rows() == old(self).spec_rows(),
            r is Ok <==> x < old(self).spec_cols() && y < old(self).spec_rows(),
            final(self)@ == spec_set_pixel(
                old(self)@,
                old(self).spec_cols() as int,
                old(self).spec_rows() as int,
                x as int,
                y as int,
                color.spec_code(),
            ),
            r matches Err(e) ==> e == DriverError::OutOfRange && final(self)@ == old(self)@,
            ({
                let half = old(self).spec_rows() / 2;
                let idx = ((y as int) % (half as int)) * old(self).spec_cols() + x;
                r is Ok ==> {
                    &&& y < half ==> top_field(final(self)@[idx]) == color.spec_code()
                        && bottom_field(final(self)@[idx]) == bottom_field(old(self)@[idx])
                    &&& y >= half ==> bottom_field(final(self)@[idx]) == color.spec_code()
                        && top_field(final(self)@[idx]) == top_field(old(self)@[idx])
                    &&& spare_bits(final(self)@[idx]) == spare_bits(old(self)@[idx])
                    &&& forall|j: int|
                        0 <= j < old(self)@.len() && j != idx ==> final(self)@[j] == old(self)@[j]
                }
            }),
    {
        if x >= self.cols || y >= self.rows {
            return Err(DriverError::OutOfRange);
        }
        let half = self.rows / 2;
        let n = self.plane.len();
        proof {
            lemma_cell_index_bound(self.spec_cols() as int, half as int, x as int, y as int);
            assert(((y as int) % (half as int)) * self.spec_cols() + x < n);
        }
        let idx = (y % half) * self.cols + x;
        let data = self.plane[idx];
        let code = color.code();
        let updated = if y < half {
            data & 0xf8 | code
        } else {
            data & 0xc7 | ((code & 0x07) << 3)
        };
        self.plane[idx] = updated;
        proof {
            if y < half {
                lemma_with_top(data, color.spec_code());
            } else {
                lemma_with_bottom(data, color.spec_code());
            }
        }
        Ok(())
    }

    /// Draws one glyph with its upper-left corner at `(x0, y0)`: every
    /// nonzero glyph byte lights its pixel in `color`; glyph pixels
    /// falling outside the plane are dropped.
    fn draw_font_char(&mut self, font_char: &FontChar, x0: usize, y0: usize, color: Color)
        requires
            old(self).wf(),
            font_char.wf(),
        ensures
            final(self).wf(),
            final(self).spec_cols() == old(self).spec_cols(),
            final(self).spec_rows() == old(self).spec_rows(),
            final(self)@ == spec_draw_char(
                old(self)@,
                old(self).spec_cols() as int,
                old(self).spec_rows() as int,
                font_char.spec_data(),
                font_char.spec_width() as int,
                x0 as int,
                y0 as int,
                color.spec_code(),
                0,
            ),
    {
        let data = font_char.data();
        let width = font_char.width();
        let n = data.len();
        let ghost cols = old(self).spec_cols() as int;
        let ghost rows = old(self).spec_rows() as int;
        let ghost code = color.spec_code();
        let mut i: usize = 0;
        while i < n
            invariant
                self.wf(),
                self.spec_cols() as int == cols,
                self.spec_rows() as int == rows,
                n == font_char.spec_data().len(),
                data@ == font_char.spec_data(),
                width == font_char.spec_width(),
                n == 0 || width >= 1,
                code == color.spec_code(),
                i <= n,
                spec_draw_char(
                    old(self)@,
                    cols,
                    rows,
                    font_char.spec_data(),
                    width as int,
                    x0 as int,
                    y0 as int,
                    code,
                    0,
                ) == spec_draw_char(
                    self@,
                    cols,
                    rows,
                    font_char.spec_data(),
                    width as int,
                    x0 as int,
                    y0 as int,
                    code,
                    i as int,
                ),
            decreases n - i,
        {
            let px = i % width;
            let py = i / width;
            let ghost pre = self@;
            if data[i] > 0 {
                match x0.checked_add(px) {
                    Some(x) => {
                        match y0.checked_add(py) {
                            Some(y) => {
                                let _ = self.set_pixel(x, y, color);
                            },
                            None => {},
                        }
                    },
                    None => {},
                }
            }
            proof {
                assert(self@ == (if font_char.spec_data()[i as int] > 0 {
                    spec_set_pixel(
                        pre,
                        cols,
                        rows,
                        x0 as int + (i as int) % (width as int),
                        y0 as int + (i as int) / (width as int),
                        code,
                    )
                } else {
                    pre
                }));
            }
            i += 1;
        }
    }

    /// Draws a string of glyphs left to right starting at `(x0, y0)`:
    /// characters the font has no glyph for are skipped, and each drawn
    /// glyph advances the cursor by its cell width plus one column of
    /// spacing. Glyph pixels falling outside the plane are dropped.
    pub fn draw_str(&mut self, text: &str, font: &Font, x0: usize, y0: usize, color: Color)
        requires
            old(self).wf(),
            font.wf(),
        ensures
            final(self).wf(),
            final(self).spec_cols() == old(self).spec_cols(),
            final(self).spec_rows() == old(self).spec_rows(),
            final(self)@ == spec_draw_str(
                old(self)@,
                old(self).spec_cols() as int,
                old(self).spec_rows() as int,
                *font,
                text@,
                x0 as int,
                y0 as int,
                color.spec_code(),
            ),
    {
        let cols = self.cols;
        let ghost rows = old(self).spec_rows() as int;
        let ghost code = color.spec_code();
        let mut x: usize = x0;
        let ghost mut gx: int = x0 as int;
        let mut it = text.chars();
        loop
            invariant
                self.wf(),
                font.wf(),
                cols == self.spec_cols(),
                self.spec_rows() as int == rows,
                code == color.spec_code(),
                gx <= cols ==> x as int == gx,
                gx > cols ==> x >= cols,
                it.decrease() is Some,
                spec_draw_str(old(self)@, cols as int, rows, *font, text@, x0 as int, y0 as int, code)
                    == spec_draw_str(
                    self@,
                    cols as int,
                    rows,
                    *font,
                    it.remaining(),
                    gx,
                    y0 as int,
                    code,
                ),
            ensures
                self.wf(),
                cols == self.spec_cols(),
                self.spec_rows() as int == rows,
                it.remaining().len() == 0,
                spec_draw_str(old(self)@, cols as int, rows, *font, text@, x0 as int, y0 as int, code)
                    == spec_draw_str(
                    self@,
                    cols as int,
                    rows,
                    *font,
                    it.remaining(),
                    gx,
                    y0 as int,
                    code,
                ),
            decreases it.decrease()->0,
        {
            let ghost rem = it.remaining();
            let c_opt = it.next();
            match c_opt {
                None => {
                    break ;
                },
                Some(c) => {
                    let ghost pre = self@;
                    match font.char(&c) {
                        None => {
                            proof {
                                assert(rem[0] == c && it.remaining() == rem.drop_first());
                            }
                        },
                        Some(fc) => {
                            proof {
                                lemma_find_glyph_wf(font.spec_chars(), c);
                            }
                            let width = fc.width();
                            self.draw_font_char(fc, x, y0, color);
                            proof {
                                assert(rem[0] == c && it.remaining() == rem.drop_first());
                                if gx > cols {
                                    lemma_draw_char_off_plane(
                                        pre,
                                        cols as int,
                                        rows,
                                        fc.spec_data(),
                                        fc.spec_width() as int,
                                        x as int,
                                        y0 as int,
                                        code,
                                        0,
                                    );
                                    lemma_draw_char_off_plane(
                                        pre,
                                        cols as int,
                                        rows,
                                        fc.spec_data(),
                                        fc.spec_width() as int,
                                        gx,
                                        y0 as int,
                                        code,
                                        0,
                                    );
                                }
                            }
                            match width.checked_add(1) {
                                Some(adv) => {
                                    match x.checked_add(adv) {
                                        Some(nx) => {
                                            if nx <= cols {
                                                x = nx;
                                            } else {
                                                x = cols;
                                            }
                                        },
                                        None => {
                                            x = cols;
                                        },
                                    }
                                },
                                None => {
                                    x = cols;
                                },
                            }
                            proof {
                                gx = gx + fc.spec_width() + 1;
                            }
                        },
                    }
                },
            }
        }
    }
}

/// The plane after a whole sequence of colors is written to the same
/// coordinates, first element first.
pub open spec fn spec_set_pixel_seq(
    plane: Seq<u8>,
    cols: int,
    rows: int,
    x: int,
    y: int,
    codes: Seq<u8>,
) -> Seq<u8>
    decreases codes.len(),
{
    if codes.len() == 0 {
        plane
    } else {
        spec_set_pixel_seq(
            spec_set_pixel(plane, cols, rows, x, y, codes[0]),
            cols,
            rows,
            x,
            y,
            codes.drop_first(),
        )
    }
}

/// Whatever sequence of colors is written to one coordinate pair, the
/// plane ends exactly as if the last of them had been written alone: no
/// bit of an earlier color survives.
pub proof fn lemma_set_pixel_last_write_wins(
    plane: Seq<u8>,
    cols: int,
    rows: int,
    x: int,
    y: int,
    codes: Seq<u8>,
)
    requires
        cols >= 1,
        rows >= 2,
        rows % 2 == 0,
        plane.len() == cols * (rows / 2),
        codes.len() > 0,
        forall|i: int| 0 <= i < codes.len() ==> #[trigger] codes[i] <= 7,
    ensures
        spec_set_pixel_seq(plane, cols, rows, x, y, codes) == spec_set_pixel(
            plane,
            cols,
            rows,
            x,
            y,
            codes.last(),
        ),
    decreases codes.len(),
{
    let p1 = spec_set_pixel(plane, cols, rows, x, y, codes[0]);
    if 0 <= x < cols && 0 <= y < rows {
        lemma_cell_index_bound(cols, rows / 2, x, y);
    }
    assert(p1.len() == plane.len());
    if codes.len() == 1 {
        assert(spec_set_pixel_seq(p1, cols, rows, x, y, codes.drop_first()) == p1);
    } else {
        let rest = codes.drop_first();
        assert(forall|i: int| 0 <= i < rest.len() ==> #[trigger] rest[i] <= 7);
        lemma_set_pixel_last_write_wins(p1, cols, rows, x, y, rest);
        lemma_set_pixel_overwrite(plane, cols, rows, x, y, codes[0], rest.last());
        assert(rest.last() == codes.last());
    }
}

/// The plane after one glyph is drawn at `(x0, y0)`, from cell offset `i`
/// on: each nonzero glyph byte sets the pixel under it to `code`, and
/// pixels falling outside the plane are dropped.
pub open spec fn spec_draw_char(
    plane: Seq<u8>,
    cols: int,
    rows: int,
    data: Seq<u8>,
    w: int,
    x0: int,
    y0: int,
    code: u8,
    i: int,
) -> Seq<u8>
    decreases data.len() - i,
{
    if i < 0 || i >= data.len() {
        plane
    } else {
        let p2 = if data[i] > 0 {
            spec_set_pixel(plane, cols, rows, x0 + i % w, y0 + i / w, code)
        } else {
            plane
        };
        spec_draw_char(p2, cols, rows, data, w, x0, y0, code, i + 1)
    }
}

/// The plane after a string is drawn left to right from `(x, y0)`: each
/// character's glyph, where the font has one, then the next character one
/// cell width plus one column of spacing further right.
pub open spec fn spec_draw_str(
    plane: Seq<u8>,
    cols: int,
    rows: int,
    font: Font,
    chars: Seq<char>,
    x: int,
    y0: int,
    code: u8,
) -> Seq<u8>
    decreases chars.len(),
{
    if chars.len() == 0 {
        plane
    } else {
        match find_glyph(font.spec_chars(), chars[0]) {
            Option::None => spec_draw_str(
                plane,
                cols,
                rows,
                font,
                chars.drop_first(),
                x,
                y0,
                code,
            ),
            Option::Some(fc) => spec_draw_str(
                spec_draw_char(
                    plane,
                    cols,
                    rows,
                    fc.spec_data(),
                    fc.spec_width() as int,
                    x,
                    y0,
                    code,
                    0,
                ),
                cols,
                rows,
                font,
                chars.drop_first(),
                x + fc.spec_width() + 1,
                y0,
                code,
            ),
        }
    }
}

/// A glyph drawn wholly at or beyond the right edge of the plane changes
/// nothing: every one of its pixels is out of range.
proof fn lemma_draw_char_off_plane(
    plane: Seq<u8>,
    cols: int,
    rows: int,
    data: Seq<u8>,
    w: int,
    x0: int,
    y0: int,
    code: u8,
    i: int,
)
    requires
        x0 >= cols,
        data.len() == 0 || w >= 1,
        i >= 0,
    ensures
        spec_draw_char(plane, cols, rows, data, w, x0, y0, code, i) == plane,
    decreases data.len() - i,
{
    if i < data.len() {
        assert(i % w >= 0);
        lemma_draw_char_off_plane(plane, cols, rows, data, w, x0, y0, code, i + 1);
    }
}

/// Writing a pixel replaces its half-field completely: writing color `c1`
/// and then color `c2` to the same coordinates leaves the plane exactly as
/// writing `c2` alone would, whatever `c1` was.
pub proof fn lemma_set_pixel_overwrite(
    plane: Seq<u8>,
    cols: int,
    rows: int,
    x: int,
    y: int,
    c1: u8,
    c2: u8,
)
    requires
        cols >= 1,
        rows >= 2,
        rows % 2 == 0,
        plane.len() == cols * (rows / 2),
        c1 <= 7,
        c2 <= 7,
    ensures
        spec_set_pixel(spec_set_pixel(plane, cols, rows, x, y, c1), cols, rows, x, y, c2)
            == spec_set_pixel(plane, cols, rows, x, y, c2),
{
    if 0 <= x < cols && 0 <= y < rows {
        let half = rows / 2;
        let idx = (y % half) * cols + x;
        lemma_cell_index_bound(cols, half, x, y);
        let b = plane[idx];
        let p1 = spec_set_pixel(plane, cols, rows, x, y, c1);
        let b1 = p1[idx];
        if y < half {
            assert(b1 == with_top(b, c1));
            assert((((b & 0xf8) | c1) & 0xf8) | c2 == (b & 0xf8) | c2) by (bit_vector)
                requires
                    c1 <= 7u8,
                    c2 <= 7u8,
            ;
            assert(with_top(b1, c2) == with_top(b, c2));
        } else {
            assert(b1 == with_bottom(b, c1));
            assert((((b & 0xc7) | ((c1 & 0x07) << 3)) & 0xc7) | ((c2 & 0x07) << 3) == (b & 0xc7)
                | ((c2 & 0x07) << 3)) by (bit_vector)
                requires
                    c1 <= 7u8,
                    c2 <= 7u8,
            ;
            assert(with_bottom(b1, c2) == with_bottom(b, c2));
        }
        assert(spec_set_pixel(p1, cols, rows, x, y, c2) =~= spec_set_pixel(
            plane,
            cols,
            rows,
            x,
            y,
            c2,
        ));
    }
}

} // verus!

