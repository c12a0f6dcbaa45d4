//! A fixed-cell bitmap font: glyphs cut out of a decoded image, keyed by
//! character. Each glyph stores one byte per pixel, `0` for background and
//! `255` for a lit pixel.

use vstd::prelude::*;

use crate::ppm::PPM;
use crate::ppm::Pixel;

verus! {

/// One glyph: a `width` by `height` cell of one byte per pixel.
pub struct FontChar {
    width: usize,
    height: usize,
    data: Vec<u8>,
}

impl FontChar {
    /// The glyph's cell width.
    pub closed spec fn spec_width(&self) -> usize {
        self.width
    }

    /// The glyph's cell height.
    pub closed spec fn spec_height(&self) -> usize {
        self.height
    }

    /// The glyph's pixel bytes, row by row.
    pub closed spec fn spec_data(&self) -> Seq<u8> {
        self.data@
    }

    /// A glyph a scan-line renderer can consume: pixel bytes, if any, come
    /// with a positive cell width to split them into rows.
    pub open spec fn wf(&self) -> bool {
        self.spec_data().len() == 0 || self.spec_width() >= 1
    }

    /// Builds a glyph from its cell size and pixel bytes.
    pub fn new(width: usize, height: usize, data: Vec<u8>) -> (r: Self)
        ensures
            r.spec_width() == width,
            r.spec_height() == height,
            r.spec_data() == data@,
    {
        Self { width, height, data }
    }

    /// Returns the glyph's cell width.
    pub fn width(&self) -> (r: usize)
        ensures
            r == self.spec_width(),
    {
        self.width
    }

    /// Returns the glyph's cell height.
    pub fn height(&self) -> (r: usize)
        ensures
            r == self.spec_height(),
    {
        self.height
    }

    /// Returns the glyph's pixel bytes, row by row.
    pub fn data(&self) -> (r: &Vec<u8>)
        ensures
            r@ == self.spec_data(),
    {
        &self.data
    }
}

/// The first glyph stored under `c`, scanning the entries in order.
pub open spec fn find_glyph(entries: Seq<(char, FontChar)>, c: char) -> Option<FontChar>
    decreases entries.len(),
{
    if entries.len() == 0 {
        None
    } else if entries[0].0 == c {
        Some(entries[0].1)
    } else {
        find_glyph(entries.drop_first(), c)
    }
}

/// The pixel bytes of the glyph whose cell of `w` by `h` image pixels has
/// its upper-left corner at `(x0, y0)` of an image holding the samples
/// `pix` at `img_w` samples per row, built from cell offset `i` on: `0`
/// for a black sample, `255` for any other, skipping offsets that point
/// past the decoded samples.
pub open spec fn glyph_data(
    pix: Seq<Pixel>,
    img_w: int,
    x0: int,
    y0: int,
    w: int,
    h: int,
    i: int,
) -> Seq<u8>
    decreases w * h - i,
{
    if i < 0 || i >= w * h {
        Seq::empty()
    } else {
        let x = x0 + i % w;
        let y = y0 + i / w;
        let idx = y * img_w + x;
        let here: Seq<u8> = if 0 <= idx < pix.len() {
            seq![
                if pix[idx].r == 0 && pix[idx].g == 0 && pix[idx].b == 0 {
                    0u8
                } else {
                    255u8
                },
            ]
        } else {
            Seq::empty()
        };
        here + glyph_data(pix, img_w, x0, y0, w, h, i + 1)
    }
}

/// A bitmap font: glyphs keyed by character, one entry per character.
pub struct Font {
    chars: Vec<(char, FontChar)>,
}

impl Font {
    /// The stored entries, in insertion order.
    pub closed spec fn spec_chars(&self) -> Seq<(char, FontChar)> {
        self.chars@
    }

    /// The structural invariant: no character is stored twice, and every
    /// glyph is one a renderer can consume.
    pub open spec fn wf(&self) -> bool {
        &&& forall|i: int, j: int|
            0 <= i < j < self.spec_chars().len() ==> self.spec_chars()[i].0
                != self.spec_chars()[j].0
        &&& forall|i: int| 0 <= i < self.spec_chars().len() ==> (#[trigger] self.spec_chars()[i]).1.wf()
    }

    /// An empty font.
    pub fn new() -> (r: Font)
        ensures
            r.wf(),
            r.spec_chars().len() == 0,
    {
        Font { chars: Vec::new() }
    }

    /// Returns the number of glyphs stored.
    pub fn len(&self) -> (r: usize)
        ensures
            r == self.spec_chars().len(),
    {
        self.chars.len()
    }

    /// Returns the glyph stored under `c`, if one is.
    pub fn char(&self, c: &char) -> (r: Option<&FontChar>)
        ensures
            r is Some <==> find_glyph(self.spec_chars(), *c) is Some,
            r matches Some(fc) ==> find_glyph(self.spec_chars(), *c) == Some(*fc),
    {
        let n = self.chars.len();
        proof {
            assert(self.spec_chars().skip(0) =~= self.spec_chars());
        }
        let mut i: usize = 0;
        while i < n
            invariant
                n == self.spec_chars().len(),
                i <= n,
                find_glyph(self.spec_chars(), *c) == find_glyph(
                    self.spec_chars().skip(i as int),
                    *c,
                ),
            decreases n - i,
        {
            if self.chars[i].0 == *c {
                proof {
                    assert(self.spec_chars().skip(i as int)[0] == self.spec_chars()[i as int]);
                }
                return Some(&self.chars[i].1);
            }
            proof {
                assert(self.spec_chars().skip(i as int).drop_first() =~= self.spec_chars().skip(
                    i + 1,
                ));
            }
            i += 1;
        }
        proof {
            assert(self.spec_chars().skip(n as int) =~= Seq::<(char, FontChar)>::empty());
        }
        None
    }

    /// Cuts the glyph for `c` out of a decoded image — a `width` by
    /// `height` cell with its upper-left corner at `(x0, y0)` — and stores
    /// it, replacing any glyph already stored under `c`.
    pub fn add_glyph(
        &mut self,
        c: char,
        image: &PPM,
        x0: usize,
        y0: usize,
        width: usize,
        height: usize,
    )
        requires
            old(self).wf(),
            width * height <= usize::MAX,
            x0 + width <= usize::MAX,
            y0 + height <= usize::MAX,
        ensures
            final(self).wf(),
            find_glyph(final(self).spec_chars(), c) matches Some(fc) && fc.spec_width() == width
                && fc.spec_height() == height && fc.spec_data() == glyph_data(
                image.spec_pixels(),
                image.spec_width() as int,
                x0 as int,
                y0 as int,
                width as int,
                height as int,
                0,
            ),
            forall|d: char|
                d != c ==> find_glyph(final(self).spec_chars(), d) == find_glyph(
                    old(self).spec_chars(),
                    d,
                ),
    {
        let num_pixels = width * height;
        let mut data: Vec<u8> = Vec::new();
        let ghost pix = image.spec_pixels();
        let ghost img_w = image.spec_width() as int;
        let mut i: usize = 0;
        while i < num_pixels
            invariant
                num_pixels == width * height,
                x0 + width <= usize::MAX,
                y0 + height <= usize::MAX,
                i <= num_pixels,
                pix == image.spec_pixels(),
                img_w == image.spec_width() as int,
                glyph_data(pix, img_w, x0 as int, y0 as int, width as int, height as int, 0)
                    == data@ + glyph_data(
                    pix,
                    img_w,
                    x0 as int,
                    y0 as int,
                    width as int,
                    height as int,
                    i as int,
                ),
            decreases num_pixels - i,
        {
            proof {
                if width > 0 {
                    vstd::arithmetic::div_mod::lemma_mod_bound(i as int, width as int);
                    vstd::arithmetic::div_mod::lemma_multiply_divide_lt(
                        i as int,
                        width as int,
                        height as int,
                    );
                }
            }
            let x = x0 + i % width;
            let y = y0 + i / width;
            let ghost pre = data@;
            match image.pixel(x, y) {
                Some(p) => {
                    if p.is_black() {
                        data.push(0);
                    } else {
                        data.push(255);
                    }
                },
                None => {},
            }
            proof {
                let gi = glyph_data(
                    pix,
                    img_w,
                    x0 as int,
                    y0 as int,
                    width as int,
                    height as int,
                    i as int,
                );
                let gnext = glyph_data(
                    pix,
                    img_w,
                    x0 as int,
                    y0 as int,
                    width as int,
                    height as int,
                    i + 1,
                );
                assert(data@ + gnext =~= pre + gi);
                assert(pre + gi =~= glyph_data(
                    pix,
                    img_w,
                    x0 as int,
                    y0 as int,
                    width as int,
                    height as int,
                    0,
                ));
            }
            i += 1;
        }
        proof {
            assert(glyph_data(
                pix,
                img_w,
                x0 as int,
                y0 as int,
                width as int,
                height as int,
                num_pixels as int,
            ) =~= Seq::<u8>::empty());
            assert(data@ + Seq::<u8>::empty() =~= data@);
        }
        let glyph = FontChar::new(width, height, data);
        proof {
            assert(glyph.wf()) by {
                if width == 0 {
                    assert(glyph_data(pix, img_w, x0 as int, y0 as int, 0, height as int, 0)
                        =~= Seq::<u8>::empty());
                }
            }
        }
        self.store(c, glyph);
    }

    /// Stores a glyph under `c`, replacing any glyph already there.
    fn store(&mut self, c: char, glyph: FontChar)
        requires
            old(self).wf(),
            glyph.wf(),
        ensures
            final(self).wf(),
            find_glyph(final(self).spec_chars(), c) == Some(glyph),
            forall|d: char|
                d != c ==> find_glyph(final(self).spec_chars(), d) == find_glyph(
                    old(self).spec_chars(),
                    d,
                ),
    {
        let n = self.chars.len();
        let mut i: usize = 0;
        while i < n
            invariant
                n == self.spec_chars().len(),
                i <= n,
                *self == *old(self),
                old(self).wf(),
                glyph.wf(),
                forall|j: int| 0 <= j < i ==> self.spec_chars()[j].0 != c,
            decreases n - i,
        {
            if self.chars[i].0 == c {
                self.chars[i] = (c, glyph);
                proof {
                    lemma_find_glyph_update(old(self).spec_chars(), self.spec_chars(), i as int, c);
                    assert forall|a: int, b: int|
                        0 <= a < b < self.spec_chars().len() implies self.spec_chars()[a].0
                        != self.spec_chars()[b].0 by {
                        assert(old(self).spec_chars()[a].0 != old(self).spec_chars()[b].0);
                    }
                    assert forall|a: int|
                        0 <= a < self.spec_chars().len() implies (#[trigger] self.spec_chars()[a]).1.wf() by {
                        if a != i {
                            assert(self.spec_chars()[a] == old(self).spec_chars()[a]);
                        }
                    }
                }
                return ;
            }
            i += 1;
        }
        self.chars.push((c, glyph));
        proof {
            lemma_find_glyph_append(old(self).spec_chars(), c, glyph);
            assert forall|a: int, b: int|
                0 <= a < b < self.spec_chars().len() implies self.spec_chars()[a].0
                != self.spec_chars()[b].0 by {
                if b < self.spec_chars().len() - 1 {
                    assert(old(self).spec_chars()[a].0 != old(self).spec_chars()[b].0);
                } else {
                    assert(self.spec_chars()[b].0 == c);
                    assert(old(self).spec_chars()[a].0 != c);
                }
            }
            assert forall|a: int|
                0 <= a < self.spec_chars().len() implies (#[trigger] self.spec_chars()[a]).1.wf() by {
                if a < self.spec_chars().len() - 1 {
                    assert(self.spec_chars()[a] == old(self).spec_chars()[a]);
                }
            }
        }
    }
}

/// A glyph found in a well-formed font is itself well formed.
pub proof fn lemma_find_glyph_wf(entries: Seq<(char, FontChar)>, c: char)
    requires
        forall|i: int| 0 <= i < entries.len() ==> (#[trigger] entries[i]).1.wf(),
    ensures
        find_glyph(entries, c) matches Some(fc) ==> fc.wf(),
    decreases entries.len(),
{
    if entries.len() > 0 && entries[0].0 != c {
        assert(forall|i: int|
            0 <= i < entries.drop_first().len() ==> (#[trigger] entries.drop_first()[i]).1.wf());
        lemma_find_glyph_wf(entries.drop_first(), c);
    }
}

/// Replacing the entry at `i` — the first and only one keyed `c` — makes
/// the lookup for `c` find the new glyph and leaves every other lookup
/// alone.
proof fn lemma_find_glyph_update(
    before: Seq<(char, FontChar)>,
    after: Seq<(char, FontChar)>,
    i: int,
    c: char,
)
    requires
        0 <= i < before.len(),
        after.len() == before.len(),
        before[i].0 == c,
        after[i].0 == c,
        forall|j: int| 0 <= j < before.len() && j != i ==> after[j] == before[j],
        forall|j: int| 0 <= j < i ==> before[j].0 != c,
    ensures
        find_glyph(after, c) == Some(after[i].1),
        forall|d: char| d != c ==> find_glyph(after, d) == find_glyph(before, d),
    decreases i,
{
    if i == 0 {
        assert forall|d: char| d != c implies find_glyph(after, d) == find_glyph(before, d) by {
            assert(after.drop_first() =~= before.drop_first());
            assert(find_glyph(after, d) == find_glyph(after.drop_first(), d));
            assert(find_glyph(before, d) == find_glyph(before.drop_first(), d));
        }
    } else {
        lemma_find_glyph_update(before.drop_first(), after.drop_first(), i - 1, c);
        assert(after[0] == before[0]);
        assert(after.drop_first()[i - 1].1 == after[i].1);
        assert forall|d: char| d != c implies find_glyph(after, d) == find_glyph(before, d) by {
            if after[0].0 != d {
                assert(find_glyph(after, d) == find_glyph(after.drop_first(), d));
                assert(find_glyph(before, d) == find_glyph(before.drop_first(), d));
            }
        }
        assert(find_glyph(after, c) == find_glyph(after.drop_first(), c));
    }
}

/// Appending an entry keyed `c` to entries none of which is keyed `c`
/// makes the lookup for `c` find it and leaves every other lookup alone.
proof fn lemma_find_glyph_append(entries: Seq<(char, FontChar)>, c: char, glyph: FontChar)
    requires
        forall|j: int| 0 <= j < entries.len() ==> entries[j].0 != c,
    ensures
        find_glyph(entries.push((c, glyph)), c) == Some(glyph),
        forall|d: char| d != c ==> find_glyph(entries.push((c, glyph)), d) == find_glyph(entries, d),
    decreases entries.len(),
{
    let pushed = entries.push((c, glyph));
    if entries.len() == 0 {
        assert(pushed.drop_first() =~= entries);
        assert forall|d: char| d != c implies find_glyph(pushed, d) == find_glyph(entries, d) by {
            assert(find_glyph(pushed, d) == find_glyph(pushed.drop_first(), d));
        }
    } else {
        lemma_find_glyph_append(entries.drop_first(), c, glyph);
        assert(pushed.drop_first() =~= entries.drop_first().push((c, glyph)));
        assert(pushed[0] == entries[0]);
        assert forall|d: char| d != c implies find_glyph(pushed, d) == find_glyph(entries, d) by {
            if entries[0].0 != d {
                assert(find_glyph(pushed, d) == find_glyph(pushed.drop_first(), d));
                assert(find_glyph(entries, d) == find_glyph(entries.drop_first(), d));
            }
        }
        assert(find_glyph(pushed, c) == find_glyph(pushed.drop_first(), c));
    }
}

} // verus!
