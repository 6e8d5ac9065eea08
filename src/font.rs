//! The glyph atlas: every requested character rasterised once and packed
//! into one grayscale image, with a table from character to placement.
use crate::packing::{
    GlyphBitmap, at, atlas_fits, atlas_height, atlas_pixel, box_height, covers, disjoint,
    floor_sqrt_u64, glyphs_wf, ideal_width, image_prefix, inside, lemma_aggregates,
    lemma_cursor_step, lemma_no_cover_right, lemma_no_other_cover, lemma_origin_bounds,
    lemma_origin_step, lemma_pixel_none, lemma_pixel_only, lemma_push_pixel, lemma_row_index,
    lemma_sqrt_below_at_least, lemma_table_wf, max_width, placed_char, shelf_cursor,
    shelf_origin, sum_width,
};
use crate::raster::{
    SlotBitmap, chars_from_codes, distinct, face_char_codes, lemma_code_injective,
    open_face_bytes, open_face_file, read_slot, render_char, set_pixel_height, slot_ok,
    slot_pixels, unique_chars,
};
use std::collections::HashMap;
use vstd::prelude::*;
use vstd::std_specs::hash::group_hash_axioms;

verus! {

broadcast use group_hash_axioms;

/// Placement of one character: where its bitmap sits relative to the text
/// cursor, how far the cursor moves after it, and where its rectangle lies
/// in the atlas image (in pixels; divided by the atlas size this gives the
/// texture coordinates).
#[derive(Debug, Clone, Copy, PartialEq, Eq, Structural)]
pub struct BitmapChar {
    pub x_offset: i32,
    pub y_offset: i32,
    pub x_advance: i32,
    pub width: i32,
    pub height: i32,
    pub tex_x: i32,
    pub tex_y: i32,
}

/// Represents possible errors that may occur during the font loading.
#[derive(Debug)]
pub enum FontError {
    /// Character set is empty
    EmptyFont,
    /// No font source was given
    NoFont,
    /// The rasteriser handed back a glyph the atlas cannot hold: rows
    /// shorter than its width, a buffer too short for its rows, or metrics
    /// out of range
    BadGlyph,
    /// The packed atlas does not fit a texture of 65535 x 65535 pixels
    TooLarge,
    /// FreeType library error
    FreetypeError(freetype::Error),
}

pub type FontResult = Result<BitmapFont, FontError>;

/// The build failed for want of a font source.
pub open spec fn is_no_font(r: FontResult) -> bool {
    match r {
        Err(FontError::NoFont) => true,
        _ => false,
    }
}

/// The build failed because there was no character to put in the atlas.
pub open spec fn is_empty_font(r: FontResult) -> bool {
    match r {
        Err(FontError::EmptyFont) => true,
        _ => false,
    }
}

/// Packing is deterministic: two atlases packed from the same glyphs have
/// the same size and image, and give every character the same metrics and
/// the same rectangle in the texture.
pub proof fn lemma_pack_deterministic(gs: Seq<GlyphBitmap>, a: BitmapFont, b: BitmapFont)
    requires
        a.packed_from(gs),
        b.packed_from(gs),
    ensures
        a.glyphs() == b.glyphs(),
        a.spec_width() == b.spec_width(),
        a.spec_height() == b.spec_height(),
        a.spec_image() == b.spec_image(),
{
    let w = a.spec_width() as int;
    assert forall|q: int| 0 <= q < a.spec_image().len() implies a.spec_image()[q] == b.spec_image()[q] by {
        assert(a.spec_image()[q] == atlas_pixel(gs, q % w, q / w));
        assert(b.spec_image()[q] == atlas_pixel(gs, q % w, q / w));
    }
    assert(a.spec_image() =~= b.spec_image());
    assert forall|c: u32| a.glyphs().contains_key(c) implies b.glyphs().contains_key(c) && a.glyphs()[c] == b.glyphs()[c] by {
        let i = choose|i: int| 0 <= i < gs.len() && gs[i].ch as u32 == c;
    }
    assert forall|c: u32| b.glyphs().contains_key(c) implies a.glyphs().contains_key(c) by {
        let i = choose|i: int| 0 <= i < gs.len() && gs[i].ch as u32 == c;
    }
    assert(a.glyphs() =~= b.glyphs());
}

/// A font rasterised into one packed grayscale texture.
#[derive(Debug)]
pub struct BitmapFont {
    width: u16,
    height: u16,
    chars: HashMap<u32, BitmapChar>,
    image: Vec<u8>,
}

impl BitmapFont {
    /// Every glyph rectangle lies inside the atlas, no two of them share a
    /// pixel, and the image holds `width * height` bytes.
    pub open spec fn wf(&self) -> bool {
        &&& forall|c: u32|
            #[trigger] self.glyphs().contains_key(c) ==> inside(
                self.glyphs()[c],
                self.spec_width() as int,
                self.spec_height() as int,
            )
        &&& forall|c: u32, d: u32|
            self.glyphs().contains_key(c) && self.glyphs().contains_key(d) && c != d ==> disjoint(
                #[trigger] self.glyphs()[c],
                #[trigger] self.glyphs()[d],
            )
        &&& self.spec_image().len() == self.spec_width() * self.spec_height()
        &&& self.spec_width() <= 65535
        &&& self.spec_height() <= 65535
    }

    /// The characters of the atlas, by code point.
    pub closed spec fn glyphs(&self) -> Map<u32, BitmapChar> {
        self.chars@
    }

    pub closed spec fn spec_width(&self) -> nat {
        self.width as nat
    }

    pub closed spec fn spec_height(&self) -> nat {
        self.height as nat
    }

    pub closed spec fn spec_image(&self) -> Seq<u8> {
        self.image@
    }

    /// The glyph drawn for `ch`, if the atlas has one.
    pub open spec fn glyph_of(&self, ch: char) -> Option<BitmapChar> {
        if self.glyphs().contains_key(ch as u32) {
            Some(self.glyphs()[ch as u32])
        } else {
            None
        }
    }

    /// The glyph of `ch` from what the rasteriser left in its slot: the
    /// bitmap rows without padding, `x_offset = left`,
    /// `y_offset = font_size - top` (from baseline-relative to
    /// top-relative), and the advance in whole pixels.
    pub fn glyph_from_slot(ch: char, font_size: u8, slot: &SlotBitmap) -> (r: Result<
        GlyphBitmap,
        FontError,
    >)
        ensures
            match r {
                Ok(g) => {
                    &&& slot_ok(*slot, font_size)
                    &&& g.wf()
                    &&& g.ch == ch
                    &&& g.width == slot.width
                    &&& g.height == slot.rows
                    &&& g.x_offset == slot.left
                    &&& g.y_offset == font_size - slot.top
                    &&& g.x_advance == slot.advance_x / 64
                    &&& slot_pixels(*slot, g.data@)
                },
                Err(e) => !slot_ok(*slot, font_size) && e is BadGlyph,
            },
    {
        if slot.width < 0 || slot.width > slot.pitch || slot.rows < 0 {
            return Err(FontError::BadGlyph);
        }
        let w = slot.width as usize;
        let h = slot.rows as usize;
        let pitch = slot.pitch as usize;
        assert(slot.rows * slot.pitch < 0x4000_0000_0000_0000) by (nonlinear_arith)
            requires 0 <= slot.rows <= i32::MAX, 0 <= slot.pitch <= i32::MAX;
        let need: u64 = slot.rows as u64 * slot.pitch as u64;
        let buf_len = slot.buffer.len();
        if need > buf_len as u64 {
            return Err(FontError::BadGlyph);
        }
        let y_offset: i64 = font_size as i64 - slot.top as i64;
        if y_offset < i32::MIN as i64 || y_offset > i32::MAX as i64 {
            return Err(FontError::BadGlyph);
        }
        let ax: i64 = slot.advance_x;
        let advance: i64 = ax >> 6u32;
        assert(advance == ax / 64) by (bit_vector)
            requires advance == ax >> 6u32;
        if advance < i32::MIN as i64 || advance > i32::MAX as i64 {
            return Err(FontError::BadGlyph);
        }
        let mut data: Vec<u8> = Vec::new();
        let mut row: usize = 0;
        while row < h
            invariant
                w == slot.width,
                h == slot.rows,
                pitch == slot.pitch,
                w <= pitch,
                buf_len == slot.buffer@.len(),
                h * pitch <= buf_len,
                row <= h,
                data@.len() == row * w,
                forall|r: int, c: int|
                    0 <= r < row && 0 <= c < w ==> #[trigger] data@[at(r, c, w as int)]
                        == slot.buffer@[at(r, c, pitch as int)],
            decreases h - row,
        {
            assert(row * pitch + pitch <= h * pitch) by (nonlinear_arith)
                requires row < h, pitch >= 0;
            let start = row * pitch;
            let mut c: usize = 0;
            while c < w
                invariant
                    w <= pitch,
                    start == row * pitch,
                    buf_len == slot.buffer@.len(),
                    start + pitch <= buf_len,
                    row < h,
                    c <= w,
                    data@.len() == row * w + c,
                    forall|r: int, k: int|
                        0 <= r < row && 0 <= k < w ==> #[trigger] data@[at(r, k, w as int)]
                            == slot.buffer@[at(r, k, pitch as int)],
                    forall|k: int|
                        0 <= k < c ==> #[trigger] data@[at(row as int, k, w as int)]
                            == slot.buffer@[at(row as int, k, pitch as int)],
                decreases w - c,
            {
                let ghost before = data@;
                data.push(slot.buffer[start + c]);
                proof {
                    assert forall|r: int, k: int| 0 <= r < row && 0 <= k < w implies #[trigger] data@[at(
                        r,
                        k,
                        w as int,
                    )] == slot.buffer@[at(r, k, pitch as int)] by {
                        lemma_row_index(r, k, w as int, row as int);
                        assert(data@[at(r, k, w as int)] == before[at(r, k, w as int)]);
                    }
                    assert forall|k: int| 0 <= k < c + 1 implies #[trigger] data@[at(row as int, k, w as int)]
                        == slot.buffer@[at(row as int, k, pitch as int)] by {
                        if k < c {
                            assert(data@[at(row as int, k, w as int)] == before[at(row as int, k, w as int)]);
                        }
                    }
                }
                c = c + 1;
            }
            proof {
                assert(row * w + w == (row + 1) * w) by (nonlinear_arith);
                assert forall|r: int, k: int| 0 <= r < row + 1 && 0 <= k < w implies #[trigger] data@[at(
                    r,
                    k,
                    w as int,
                )] == slot.buffer@[at(r, k, pitch as int)] by {
                    if r == row {
                        assert(data@[at(row as int, k, w as int)] == slot.buffer@[at(row as int, k, pitch as int)]);
                    }
                }
            }
            row = row + 1;
        }
        assert(data@.len() == slot.width * slot.rows) by (nonlinear_arith)
            requires data@.len() == row * w, row == h, w == slot.width, h == slot.rows;
        Ok(
            GlyphBitmap {
                ch,
                x_offset: slot.left,
                y_offset: y_offset as i32,
                x_advance: advance as i32,
                width: slot.width,
                height: slot.rows,
                data,
            },
        )
    }

    /// Builds the atlas of `font_size` pixels from a font file, for the
    /// characters `chars` or, without them, every character of the font.
    pub fn from_path(path: &str, font_size: u8, chars: Option<&[char]>) -> (r: FontResult)
        ensures
            chars matches Some(cs) ==> (is_empty_font(r) <==> cs@.len() == 0),
            !is_no_font(r),
            r matches Ok(f) ==> f.wf() && (chars matches Some(cs) ==> forall|c: char|
                #[trigger] f.glyph_of(c) is Some <==> cs@.contains(c)),
            r matches Ok(f) ==> exists|gs: Seq<GlyphBitmap>| #[trigger] f.packed_from(gs),
    {
        if let Some(cs) = chars {
            if cs.len() == 0 {
                return Err(FontError::EmptyFont);
            }
        }
        let library = match freetype::Library::init() {
            Ok(l) => l,
            Err(e) => return Err(FontError::FreetypeError(e)),
        };
        match open_face_file(&library, path) {
            Ok(face) => Self::new(&face, font_size, chars),
            Err(e) => Err(FontError::FreetypeError(e)),
        }
    }

    /// Builds the atlas of `font_size` pixels from the bytes of a font file,
    /// for the characters `chars` or, without them, every character of the font.
    pub fn from_bytes(data: &[u8], font_size: u8, chars: Option<&[char]>) -> (r: FontResult)
        ensures
            chars matches Some(cs) ==> (is_empty_font(r) <==> cs@.len() == 0),
            !is_no_font(r),
            r matches Ok(f) ==> f.wf() && (chars matches Some(cs) ==> forall|c: char|
                #[trigger] f.glyph_of(c) is Some <==> cs@.contains(c)),
            r matches Ok(f) ==> exists|gs: Seq<GlyphBitmap>| #[trigger] f.packed_from(gs),
    {
        if let Some(cs) = chars {
            if cs.len() == 0 {
                return Err(FontError::EmptyFont);
            }
        }
        let library = match freetype::Library::init() {
            Ok(l) => l,
            Err(e) => return Err(FontError::FreetypeError(e)),
        };
        match open_face_bytes(&library, data) {
            Ok(face) => Self::new(&face, font_size, chars),
            Err(e) => Err(FontError::FreetypeError(e)),
        }
    }

    /// Every character of the face's charmap, each once.
    fn get_all_face_chars(face: &freetype::Face) -> (r: Vec<char>)
        ensures
            distinct(r@),
    {
        let codes = face_char_codes(face);
        let cs = chars_from_codes(&codes);
        unique_chars(cs.as_slice())
    }

    /// Rasterises every needed character (each once) at `font_size` pixels
    /// and packs them into one atlas. An empty set of characters is an error,
    /// and so is the first glyph FreeType cannot render.
    #[verifier::rlimit(40)]
    fn new(face: &freetype::Face, font_size: u8, chars: Option<&[char]>) -> (r: FontResult)
        ensures
            chars matches Some(cs) ==> (is_empty_font(r) <==> cs@.len() == 0),
            !is_no_font(r),
            r matches Ok(f) ==> f.wf() && (chars matches Some(cs) ==> forall|c: char|
                #[trigger] f.glyph_of(c) is Some <==> cs@.contains(c)),
            r matches Ok(f) ==> exists|gs: Seq<GlyphBitmap>| #[trigger] f.packed_from(gs),
    {
        let needed = match chars {
            Some(cs) => unique_chars(cs),
            None => Self::get_all_face_chars(face),
        };
        proof {
            if chars is Some {
                let cs = chars.unwrap();
                if cs@.len() > 0 {
                    assert(cs@.contains(cs@[0]));
                    assert(needed@.contains(cs@[0]));
                }
                if needed@.len() > 0 {
                    assert(needed@.contains(needed@[0]));
                }
            }
        }
        if needed.len() == 0 {
            return Err(FontError::EmptyFont);
        }
        if let Err(e) = set_pixel_height(face, font_size) {
            return Err(FontError::FreetypeError(e));
        }
        let mut glyphs: Vec<GlyphBitmap> = Vec::new();
        let mut i: usize = 0;
        while i < needed.len()
            invariant
                i <= needed@.len(),
                distinct(needed@),
                chars matches Some(cs) ==> cs@.len() > 0,
                glyphs@.len() == i,
                forall|k: int| 0 <= k < i ==> (#[trigger] glyphs@[k]).wf() && glyphs@[k].ch == needed@[k],
            decreases needed@.len() - i,
        {
            let ch = needed[i];
            if let Err(e) = render_char(face, ch) {
                return Err(FontError::FreetypeError(e));
            }
            let slot = read_slot(face);
            let g = match Self::glyph_from_slot(ch, font_size, &slot) {
                Ok(g) => g,
                Err(e) => return Err(e),
            };
            glyphs.push(g);
            i = i + 1;
        }
        proof {
            assert forall|a: int, b: int|
                0 <= a < glyphs@.len() && 0 <= b < glyphs@.len() && a != b implies (#[trigger] glyphs@[a]).ch
                != (#[trigger] glyphs@[b]).ch by {
                assert(glyphs@[a].ch == needed@[a]);
                assert(glyphs@[b].ch == needed@[b]);
            }
        }
        let r = Self::pack(glyphs);
        proof {
            if r is Ok {
                assert(r->Ok_0.packed_from(glyphs@));
            }
            if r is Ok && chars is Some {
                let f = r->Ok_0;
                let cs = chars.unwrap();
                assert forall|c: char| #[trigger] f.glyph_of(c) is Some <==> cs@.contains(c) by {
                    if f.glyph_of(c) is Some {
                        assert(f.glyphs().contains_key(c as u32));
                        let k = choose|k: int| 0 <= k < glyphs@.len() && glyphs@[k].ch as u32 == c as u32;
                        lemma_code_injective(glyphs@[k].ch, c);
                        assert(needed@[k] == c);
                        assert(needed@.contains(c));
                    }
                    if cs@.contains(c) {
                        assert(needed@.contains(c));
                        let k = choose|k: int| 0 <= k < needed@.len() && needed@[k] == c;
                        assert(glyphs@[k].ch == c);
                        assert(f.glyphs().contains_key(glyphs@[k].ch as u32));
                    }
                }
            }
        }
        r
    }

    /// The atlas is the shelf packing of `gs`: its size, its image (pixel by
    /// pixel `atlas_pixel`), and for each glyph of `gs` (and no other
    /// character) the placement `placed_char` gives.
    pub open spec fn packed_from(&self, gs: Seq<GlyphBitmap>) -> bool {
        &&& self.wf()
        &&& self.spec_width() == ideal_width(gs)
        &&& self.spec_height() == atlas_height(gs)
        &&& forall|i: int|
            0 <= i < gs.len() ==> self.glyphs().contains_key(#[trigger] gs[i].ch as u32)
                && self.glyphs()[gs[i].ch as u32] == placed_char(gs, i)
        &&& forall|c: u32|
            #[trigger] self.glyphs().contains_key(c) ==> exists|i: int| 0 <= i < gs.len() && gs[i].ch as u32 == c
        &&& image_prefix(gs, self.spec_width() as int, self.spec_image())
    }

    /// Packs rasterised glyphs into one atlas (shelf packing): rows as wide as
    /// `ideal_width`, each as tall as the tallest glyph, filled in the order
    /// given; the image is zero wherever no glyph pixel lies.
    #[verifier::rlimit(40)]
    pub fn pack(glyphs: Vec<GlyphBitmap>) -> (r: Result<BitmapFont, FontError>)
        requires
            glyphs_wf(glyphs@),
        ensures
            match r {
                Ok(f) => glyphs@.len() > 0 && atlas_fits(glyphs@) && f.packed_from(glyphs@),
                Err(e) => {
                    ||| glyphs@.len() == 0 && e is EmptyFont
                    ||| glyphs@.len() > 0 && !atlas_fits(glyphs@) && e is TooLarge
                },
            },
    {
        let n = glyphs.len();
        if n == 0 {
            return Err(FontError::EmptyFont);
        }
        let ghost gs = glyphs@;
        proof {
            lemma_aggregates(gs);
        }
        // First pass: total width, widest and tallest glyph. The total is
        // capped at 2^32, past which the atlas is too wide anyway.
        let mut sum: u64 = 0;
        let mut max_w: u64 = 0;
        let mut bh: u64 = 0;
        let mut i: usize = 0;
        while i < n
            invariant
                n == glyphs.len(),
                gs == glyphs@,
                i <= n,
                glyphs_wf(gs),
                0 <= sum_width(gs.subrange(0, i as int)),
                sum == (if sum_width(gs.subrange(0, i as int)) < 0x1_0000_0000 {
                    sum_width(gs.subrange(0, i as int))
                } else {
                    0x1_0000_0000
                }),
                max_w == max_width(gs.subrange(0, i as int)),
                bh == box_height(gs.subrange(0, i as int)),
                max_w <= i32::MAX,
                bh <= i32::MAX,
            decreases n - i,
        {
            proof {
                assert(gs.subrange(0, i + 1).drop_last() =~= gs.subrange(0, i as int));
                assert(gs[i as int].wf());
            }
            let gw = glyphs[i].width as u64;
            let gh = glyphs[i].height as u64;
            if sum + gw < 0x1_0000_0000 {
                sum = sum + gw;
            } else {
                sum = 0x1_0000_0000;
            }
            if gw > max_w {
                max_w = gw;
            }
            if gh > bh {
                bh = gh;
            }
            i = i + 1;
        }
        proof {
            assert(gs.subrange(0, n as int) =~= gs);
        }
        let ghost area = sum_width(gs) * box_height(gs);
        if max_w > 65535 {
            return Err(FontError::TooLarge);
        }
        assert(sum * bh < 0x8000_0000_0000_0000) by (nonlinear_arith)
            requires sum <= 0x1_0000_0000, bh <= i32::MAX;
        if sum * bh >= 0x1_0000_0000 {
            proof {
                assert(area >= 0x1_0000_0000) by (nonlinear_arith)
                    requires
                        sum * bh >= 0x1_0000_0000,
                        sum_width(gs) >= sum,
                        bh == box_height(gs),
                        area == sum_width(gs) * box_height(gs),
                        bh >= 0;
                lemma_sqrt_below_at_least(area as nat, area as nat, 0x1_0000);
            }
            return Err(FontError::TooLarge);
        }
        proof {
            if sum_width(gs) >= 0x1_0000_0000 {
                assert(bh == 0) by (nonlinear_arith)
                    requires sum == 0x1_0000_0000, sum * bh < 0x1_0000_0000, bh >= 0;
            }
            assert(area == sum * bh) by (nonlinear_arith)
                requires
                    area == sum_width(gs) * box_height(gs),
                    bh == box_height(gs),
                    sum_width(gs) >= 0x1_0000_0000 ==> bh == 0,
                    sum_width(gs) < 0x1_0000_0000 ==> sum == sum_width(gs);
        }
        let root = floor_sqrt_u64(sum * bh);
        let w: u64 = if max_w > root { max_w } else { root };
        assert(w == ideal_width(gs));
        // Second pass: place the glyphs on shelves.
        let mut cols: Vec<u64> = Vec::new();
        let mut rows: Vec<u64> = Vec::new();
        let mut x: u64 = 0;
        let mut row: u64 = 0;
        i = 0;
        while i < n
            invariant
                n == glyphs.len(),
                gs == glyphs@,
                i <= n,
                glyphs_wf(gs),
                w == ideal_width(gs),
                w <= 65535,
                max_w == max_width(gs),
                forall|k: int| 0 <= k < gs.len() ==> (#[trigger] gs[k]).width <= max_width(gs),
                max_width(gs) <= w,
                x == shelf_cursor(gs, w as int, i as int).0,
                row == shelf_cursor(gs, w as int, i as int).1,
                x <= w,
                row <= i,
                cols@.len() == i,
                rows@.len() == i,
                forall|k: int|
                    0 <= k < i ==> cols@[k] == shelf_origin(gs, w as int, k).0 && rows@[k]
                        == shelf_origin(gs, w as int, k).1,
            decreases n - i,
        {
            assert(gs[i as int].wf());
            let gw = glyphs[i].width as u64;
            if x + gw > w {
                x = 0;
                row = row + 1;
            }
            cols.push(x);
            rows.push(row);
            x = x + gw;
            i = i + 1;
        }
        assert((row + 1) * bh < 0x1_0000_0000_0000_0000_0000_0000) by (nonlinear_arith)
            requires row <= 0xffff_ffff_ffff_ffff, bh <= i32::MAX;
        let height: u128 = (row as u128 + 1) * (bh as u128);
        if height > 65535 {
            return Err(FontError::TooLarge);
        }
        assert(height == atlas_height(gs));
        let image = Self::fill_image(&glyphs, &cols, &rows, w, bh, height as u64);
        // Last: the table from character to placement.
        let chars = Self::place_table(&glyphs, &cols, &rows, w, bh, row, height as u64);
        let font = BitmapFont { width: w as u16, height: height as u16, chars, image };
        proof {
            lemma_table_wf(gs, font.glyphs(), w as int, height as int);
        }
        Ok(font)
    }

    /// The table from character to placement.
    #[verifier::rlimit(60)]
    fn place_table(
        glyphs: &Vec<GlyphBitmap>,
        cols: &Vec<u64>,
        rows: &Vec<u64>,
        w: u64,
        bh: u64,
        row: u64,
        height: u64,
    ) -> (chars: HashMap<u32, BitmapChar>)
        requires
            glyphs_wf(glyphs@),
            w == ideal_width(glyphs@),
            bh == box_height(glyphs@),
            height == (row + 1) * bh,
            height <= 65535,
            row == shelf_cursor(glyphs@, w as int, glyphs@.len() as int).1,
            cols@.len() == glyphs@.len(),
            rows@.len() == glyphs@.len(),
            forall|k: int|
                0 <= k < glyphs@.len() ==> cols@[k] == shelf_origin(glyphs@, w as int, k).0
                    && rows@[k] == shelf_origin(glyphs@, w as int, k).1,
        ensures
            forall|k: int|
                0 <= k < glyphs@.len() ==> chars@.contains_key(#[trigger] glyphs@[k].ch as u32)
                    && chars@[glyphs@[k].ch as u32] == placed_char(glyphs@, k),
            forall|c: u32|
                #[trigger] chars@.contains_key(c) ==> exists|k: int|
                    0 <= k < glyphs@.len() && glyphs@[k].ch as u32 == c,
    {
        let ghost gs = glyphs@;
        let n = glyphs.len();
        let mut i: usize = 0;
        let mut chars: HashMap<u32, BitmapChar> = HashMap::new();
        while i < n
            invariant
                n == glyphs.len(),
                gs == glyphs@,
                i <= n,
                glyphs_wf(gs),
                w == ideal_width(gs),
                bh == box_height(gs),
                height == (row + 1) * bh,
                height <= 65535,
                row == shelf_cursor(gs, w as int, n as int).1,
                cols@.len() == n,
                rows@.len() == n,
                forall|k: int|
                    0 <= k < n ==> cols@[k] == shelf_origin(gs, w as int, k).0 && rows@[k]
                        == shelf_origin(gs, w as int, k).1,
                forall|k: int|
                    0 <= k < i ==> chars@.contains_key(#[trigger] gs[k].ch as u32) && chars@[gs[k].ch
                        as u32] == placed_char(gs, k),
                forall|c: u32|
                    #[trigger] chars@.contains_key(c) ==> exists|k: int|
                        0 <= k < i && gs[k].ch as u32 == c,
            decreases n - i,
        {
            proof {
                lemma_aggregates(gs);
                lemma_origin_bounds(gs, w as int, i as int);
                assert(rows@[i as int] * bh <= height) by (nonlinear_arith)
                    requires rows@[i as int] <= row, bh >= 0, height == (row + 1) * bh;
            }
            let g = &glyphs[i];
            let b = BitmapChar {
                x_offset: g.x_offset,
                y_offset: g.y_offset,
                x_advance: g.x_advance,
                width: g.width,
                height: g.height,
                tex_x: cols[i] as i32,
                tex_y: (rows[i] * bh) as i32,
            };
            chars.insert(g.ch as u32, b);
            proof {
                assert forall|k: int| 0 <= k < i + 1 implies chars@.contains_key(
                    #[trigger] gs[k].ch as u32,
                ) && chars@[gs[k].ch as u32] == placed_char(gs, k) by {
                    if k < i {
                        assert(gs[k].ch != gs[i as int].ch);
                    }
                }
            }
            i = i + 1;
        }
        chars
    }

    /// Assembles the atlas image shelf by shelf, line by line: on each line
    /// the glyphs of the shelf in order (a bitmap row, or zeros below a
    /// glyph shorter than the shelf), then zeros to the right edge.
    #[verifier::rlimit(60)]
    fn fill_image(
        glyphs: &Vec<GlyphBitmap>,
        cols: &Vec<u64>,
        rows: &Vec<u64>,
        w: u64,
        bh: u64,
        height: u64,
    ) -> (image: Vec<u8>)
        requires
            glyphs@.len() > 0,
            glyphs_wf(glyphs@),
            w == ideal_width(glyphs@),
            bh == box_height(glyphs@),
            w <= 65535,
            height <= 65535,
            height == (shelf_cursor(glyphs@, w as int, glyphs@.len() as int).1 + 1) * bh,
            cols@.len() == glyphs@.len(),
            rows@.len() == glyphs@.len(),
            forall|k: int|
                0 <= k < glyphs@.len() ==> cols@[k] == shelf_origin(glyphs@, w as int, k).0
                    && rows@[k] == shelf_origin(glyphs@, w as int, k).1,
        ensures
            image@.len() == w * height,
            image_prefix(glyphs@, w as int, image@),
    {
        let ghost gs = glyphs@;
        let n = glyphs.len();
        proof {
            lemma_aggregates(gs);
            lemma_origin_bounds(gs, w as int, n - 1);
            lemma_origin_step(gs, w as int, 0);
            lemma_cursor_step(gs, w as int, n - 1);
            assert(bh <= 65535) by (nonlinear_arith)
                requires height == (rows@[n - 1] + 1) * bh, height <= 65535, rows@[n - 1] >= 0, bh >= 0;
        }
        let mut image: Vec<u8> = Vec::new();
        let mut start: usize = 0;
        while start < n
            invariant
                n == gs.len(),
                gs == glyphs@,
                glyphs_wf(gs),
                w == ideal_width(gs),
                bh == box_height(gs),
                max_width(gs) <= w <= 65535,
                forall|k: int| 0 <= k < gs.len() ==> (#[trigger] gs[k]).width <= max_width(gs),
                forall|k: int| 0 <= k < gs.len() ==> (#[trigger] gs[k]).height <= box_height(gs),
                height == (rows@[n - 1] + 1) * bh,
                height <= 65535,
                bh <= 65535,
                cols@.len() == n,
                rows@.len() == n,
                forall|k: int|
                    0 <= k < n ==> cols@[k] == shelf_origin(gs, w as int, k).0 && rows@[k]
                        == shelf_origin(gs, w as int, k).1,
                start <= n,
                start < n ==> cols@[start as int] == 0,
                start < n ==> rows@[start as int] == (if start == 0 { 0 } else { rows@[start - 1] + 1 }),
                start == n ==> image@.len() == height * w,
                start < n ==> image@.len() == rows@[start as int] * bh * w,
                image_prefix(gs, w as int, image@),
            decreases n - start,
        {
            // The shelf holds the glyphs `start..end`.
            let mut end: usize = start + 1;
            while end < n && rows[end] == rows[start]
                invariant
                    start < end <= n,
                    rows@.len() == n,
                    forall|k: int| start <= k < end ==> rows@[k] == rows@[start as int],
                decreases n - end,
            {
                end = end + 1;
            }
            proof {
                lemma_origin_bounds(gs, w as int, end - 1);
                lemma_origin_bounds(gs, w as int, start as int);
                if end < n {
                    lemma_origin_step(gs, w as int, end - 1);
                }
            }
            let shelf_end = cols[end - 1] + glyphs[end - 1].width as u64;
            let mut line: u64 = 0;
            while line < bh
                invariant
                    n == gs.len(),
                    gs == glyphs@,
                    glyphs_wf(gs),
                    w as int == ideal_width(gs),
                    bh == box_height(gs),
                    bh <= 65535,
                    max_width(gs) <= w <= 65535,
                    forall|k: int| 0 <= k < gs.len() ==> (#[trigger] gs[k]).height <= box_height(gs),
                    forall|k: int| 0 <= k < gs.len() ==> (#[trigger] gs[k]).width <= max_width(gs),
                    cols@.len() == n,
                    rows@.len() == n,
                    forall|k: int|
                        0 <= k < n ==> cols@[k] == shelf_origin(gs, w as int, k).0 && rows@[k]
                            == shelf_origin(gs, w as int, k).1,
                    start < end <= n,
                    cols@[start as int] == 0,
                    rows@[start as int] >= 0,
                    forall|k: int| start <= k < end ==> rows@[k] == rows@[start as int],
                    end < n ==> rows@[end as int] == rows@[start as int] + 1,
                    shelf_end == cols@[end - 1] + gs[end - 1].width,
                    shelf_end <= w,
                    line <= bh,
                    image@.len() == rows@[start as int] * bh * w + line * w,
                    image_prefix(gs, w as int, image@),
                decreases bh - line,
            {
                let ghost y = rows@[start as int] * bh + line;
                assert(rows@[start as int] * bh * w + line * w == y * w) by (nonlinear_arith)
                    requires y == rows@[start as int] * bh + line;
                let mut g: usize = start;
                while g < end
                    invariant
                        n == gs.len(),
                        gs == glyphs@,
                        glyphs_wf(gs),
                        bh == box_height(gs),
                        forall|k: int| 0 <= k < gs.len() ==> (#[trigger] gs[k]).height <= box_height(gs),
                        cols@.len() == n,
                        rows@.len() == n,
                        forall|k: int|
                            0 <= k < n ==> cols@[k] == shelf_origin(gs, w as int, k).0 && rows@[k]
                                == shelf_origin(gs, w as int, k).1,
                        start <= g <= end,
                        end <= n,
                        line < bh,
                        bh <= 65535,
                        w as int == ideal_width(gs),
                        max_width(gs) <= w,
                        forall|k: int| 0 <= k < gs.len() ==> (#[trigger] gs[k]).width <= max_width(gs),
                        rows@[start as int] >= 0,
                        y == rows@[start as int] * bh + line,
                        cols@[start as int] == 0,
                        forall|k: int| start <= k < end ==> rows@[k] == rows@[start as int],
                        g < end ==> image@.len() == y * w + cols@[g as int],
                        g == end ==> image@.len() == y * w + shelf_end,
                        shelf_end == cols@[end - 1] + gs[end - 1].width,
                        shelf_end <= w,
                        image_prefix(gs, w as int, image@),
                    decreases end - g,
                {
                    let glyph = &glyphs[g];
                    assert(gs[g as int].wf());
                    proof {
                        lemma_origin_bounds(gs, w as int, g as int);
                    }
                    let gw = glyph.width as usize;
                    let ghost old_len = image@.len();
                    let ghost ox = cols@[g as int] as int;
                    let mut k: usize = 0;
                    if line < glyph.height as u64 {
                        let li = line as usize;
                        let data_len = glyph.data.len();
                        assert(li * gw + gw <= glyph.data@.len()) by (nonlinear_arith)
                            requires
                                li + 1 <= gs[g as int].height,
                                gw == gs[g as int].width,
                                gw >= 0,
                                glyph.data@.len() == gs[g as int].width * gs[g as int].height;
                        let base = li * gw;
                        while k < gw
                            invariant
                                k <= gw,
                                base + gw <= data_len,
                                data_len == glyph.data@.len(),
                                base == line * gw,
                                image@.len() == old_len + k,
                                old_len == y * w + ox,
                                n == gs.len(),
                                glyph == &gs[g as int],
                                start <= g < end,
                                end <= n,
                                gw == gs[g as int].width,
                                glyphs_wf(gs),
                                bh == box_height(gs),
                                forall|q: int| 0 <= q < gs.len() ==> (#[trigger] gs[q]).height <= box_height(gs),
                                ox == shelf_origin(gs, w as int, g as int).0,
                                ox + gw <= w,
                                0 <= ox,
                                rows@[start as int] == shelf_origin(gs, w as int, g as int).1,
                                rows@[start as int] >= 0,
                                y == rows@[start as int] * bh + line,
                                line < gs[g as int].height,
                                line < bh,
                                w as int == ideal_width(gs),
                                image_prefix(gs, w as int, image@),
                            decreases gw - k,
                        {
                            let v = glyph.data[base + k];
                            proof {
                                let x = ox + k;
                                assert(covers(gs, w as int, bh as int, g as int, x, y));
                                lemma_no_other_cover(gs, w as int, bh as int, g as int, x, y);
                                lemma_pixel_only(gs, w as int, bh as int, x, y, g as int, 0);
                                assert(at(y - rows@[start as int] * bh, x - ox, gw as int) == base + k);
                                lemma_push_pixel(gs, w as int, image@, y, x, v);
                            }
                            image.push(v);
                            k = k + 1;
                        }
                    } else {
                        while k < gw
                            invariant
                                k <= gw,
                                image@.len() == old_len + k,
                                old_len == y * w + ox,
                                n == gs.len(),
                                start <= g < end,
                                end <= n,
                                gw == gs[g as int].width,
                                glyphs_wf(gs),
                                bh == box_height(gs),
                                forall|q: int| 0 <= q < gs.len() ==> (#[trigger] gs[q]).height <= box_height(gs),
                                ox == shelf_origin(gs, w as int, g as int).0,
                                ox + gw <= w,
                                0 <= ox,
                                rows@[start as int] == shelf_origin(gs, w as int, g as int).1,
                                rows@[start as int] >= 0,
                                y == rows@[start as int] * bh + line,
                                line >= gs[g as int].height,
                                line < bh,
                                w as int == ideal_width(gs),
                                image_prefix(gs, w as int, image@),
                            decreases gw - k,
                        {
                            proof {
                                let x = ox + k;
                                lemma_no_other_cover(gs, w as int, bh as int, g as int, x, y);
                                lemma_pixel_none(gs, w as int, bh as int, x, y, 0);
                                lemma_push_pixel(gs, w as int, image@, y, x, 0u8);
                            }
                            image.push(0u8);
                            k = k + 1;
                        }
                    }
                    proof {
                        if g + 1 < end {
                            lemma_origin_step(gs, w as int, g as int);
                        }
                    }
                    g = g + 1;
                }
                let mut c: u64 = shelf_end;
                while c < w
                    invariant
                        shelf_end <= c <= w,
                        image@.len() == y * w + c,
                        n == gs.len(),
                        glyphs_wf(gs),
                        bh == box_height(gs),
                        forall|q: int| 0 <= q < gs.len() ==> (#[trigger] gs[q]).height <= box_height(gs),
                        0 < end <= n,
                        rows@.len() == n,
                        cols@.len() == n,
                        forall|k: int|
                            0 <= k < n ==> cols@[k] == shelf_origin(gs, w as int, k).0 && rows@[k]
                                == shelf_origin(gs, w as int, k).1,
                        shelf_end == cols@[end - 1] + gs[end - 1].width,
                        rows@[end - 1] == rows@[start as int],
                        end < n ==> rows@[end as int] == rows@[start as int] + 1,
                        rows@[start as int] >= 0,
                        y == rows@[start as int] * bh + line,
                        line < bh,
                        w as int == ideal_width(gs),
                        image_prefix(gs, w as int, image@),
                    decreases w - c,
                {
                    proof {
                        lemma_no_cover_right(gs, w as int, bh as int, end - 1, c as int, y);
                        lemma_pixel_none(gs, w as int, bh as int, c as int, y, 0);
                        lemma_push_pixel(gs, w as int, image@, y, c as int, 0u8);
                    }
                    image.push(0u8);
                    c = c + 1;
                }
                assert(rows@[start as int] * bh * w + line * w + w == rows@[start as int] * bh * w
                    + (line + 1) * w) by (nonlinear_arith);
                line = line + 1;
            }
            proof {
                let r = rows@[start as int];
                assert(r * bh * w + bh * w == (r + 1) * bh * w) by (nonlinear_arith);
                if end == n {
                    assert(rows@[n - 1] == r);
                }
            }
            start = end;
        }
        image
    }

    /// Width of the atlas image in pixels.
    pub fn get_width(&self) -> (r: u16)
        ensures
            r == self.spec_width(),
    {
        self.width
    }

    /// Height of the atlas image in pixels.
    pub fn get_height(&self) -> (r: u16)
        ensures
            r == self.spec_height(),
    {
        self.height
    }

    /// Return 8-bit texture raw data (grayscale).
    pub fn get_image(&self) -> (r: &[u8])
        ensures
            r@ == self.spec_image(),
    {
        self.image.as_slice()
    }

    /// The placement of `ch` in the atlas, if the atlas has it.
    pub fn find_char(&self, ch: char) -> (r: Option<&BitmapChar>)
        ensures
            match r {
                Some(b) => self.glyph_of(ch) == Some(*b),
                None => self.glyph_of(ch) is None,
            },
    {
        self.chars.get(&(ch as u32))
    }
}

} // verus!
