//! The glyph source: FreeType behind a few trusted calls, and the verified
//! handling of what it hands back (glyph slots, charmap codes).
use crate::packing::at;
use std::collections::HashSet;
use vstd::prelude::*;
use vstd::slice::slice_to_vec;
use vstd::utf8::is_scalar;

verus! {

/// FreeType's error, carried by `FontError::FreetypeError`.
#[verifier::external_type_specification]
#[verifier::external_body]
pub struct ExFtError(freetype::Error);

/// A FreeType instance; faces are opened through it.
#[verifier::external_type_specification]
#[verifier::external_body]
pub struct ExFtLibrary(freetype::Library);

/// The glyph slot of a face.
#[verifier::external_type_specification]
#[verifier::external_body]
pub struct ExFtGlyphSlot(freetype::GlyphSlot);

/// A bitmap rendered into a glyph slot.
#[verifier::external_type_specification]
#[verifier::external_body]
pub struct ExFtBitmap(freetype::Bitmap);

/// A FreeType font face; its glyph slot holds the last rendered glyph.
#[verifier::external_type_specification]
#[verifier::external_body]
#[verifier::reject_recursive_types(BYTES)]
pub struct ExFtFace<BYTES>(freetype::Face<BYTES>);

/// What the rasteriser left in its glyph slot after rendering one
/// character: the bitmap as FreeType lays it out (rows of `pitch` bytes)
/// and the placement metrics.
#[derive(Debug, Clone)]
pub struct SlotBitmap {
    pub width: i32,
    pub rows: i32,
    pub pitch: i32,
    pub buffer: Vec<u8>,
    pub left: i32,
    pub top: i32,
    /// Horizontal advance in 26.6 fixed point (1/64 pixel).
    pub advance_x: i64,
}

/// Whether a slot can become a glyph of the atlas: rows at least as long as
/// the width, a buffer that holds them all, and metrics that fit `i32`.
pub open spec fn slot_ok(s: SlotBitmap, font_size: u8) -> bool {
    &&& 0 <= s.width <= s.pitch
    &&& 0 <= s.rows
    &&& s.rows * s.pitch <= s.buffer@.len()
    &&& i32::MIN <= font_size - s.top <= i32::MAX
    &&& i32::MIN <= s.advance_x / 64 <= i32::MAX
}

/// The bitmap rows of a slot without their padding.
pub open spec fn slot_pixels(s: SlotBitmap, data: Seq<u8>) -> bool {
    &&& data.len() == s.width * s.rows
    &&& forall|r: int, c: int|
        0 <= r < s.rows && 0 <= c < s.width ==> #[trigger] data[at(r, c, s.width as int)]
            == s.buffer@[at(r, c, s.pitch as int)]
}

/// Relies on freetype::Library::init: a new FreeType instance, or the error
/// that stopped it.
pub assume_specification[ freetype::Library::init ]() -> (r: Result<
    freetype::Library,
    freetype::Error,
>);

/// Relies on freetype::Library::new_face: opens face 0 of the font file at
/// `path`, or returns FreeType's error.
#[verifier::external_body]
pub(crate) fn open_face_file(lib: &freetype::Library, path: &str) -> (r: Result<freetype::Face, freetype::Error>) {
    lib.new_face(path, 0)
}

/// Relies on freetype::Library::new_memory_face: opens face 0 of a font held
/// in memory (FreeType keeps its own copy of the bytes), or returns
/// FreeType's error.
#[verifier::external_body]
pub(crate) fn open_face_bytes(lib: &freetype::Library, data: &[u8]) -> (r: Result<freetype::Face, freetype::Error>) {
    lib.new_memory_face(data.to_vec(), 0)
}

/// Relies on freetype::Face::set_pixel_sizes: glyphs are rendered for a
/// nominal height of `size` pixels (width 0: the same as the height).
#[verifier::external_body]
pub(crate) fn set_pixel_height(face: &freetype::Face, size: u8) -> (r: Result<(), freetype::Error>) {
    face.set_pixel_sizes(0, size as u32)
}

/// Relies on freetype::Face::load_char with LoadFlag::RENDER: loads the glyph
/// of `ch` and renders it into the face's glyph slot.
#[verifier::external_body]
pub(crate) fn render_char(face: &freetype::Face, ch: char) -> (r: Result<(), freetype::Error>) {
    face.load_char(ch as usize, freetype::face::LoadFlag::RENDER)
}

/// Relies on freetype::Face::glyph: the face's glyph slot, which holds the
/// glyph loaded last.
pub assume_specification<BYTES>[ freetype::Face::<BYTES>::glyph ](face: &freetype::Face<BYTES>) -> &freetype::GlyphSlot;

/// Relies on freetype::GlyphSlot::bitmap: the bitmap rendered into the slot.
pub assume_specification[ freetype::GlyphSlot::bitmap ](slot: &freetype::GlyphSlot) -> freetype::Bitmap;

/// Relies on freetype::GlyphSlot::bitmap_left: the bitmap's left bearing in pixels.
pub assume_specification[ freetype::GlyphSlot::bitmap_left ](slot: &freetype::GlyphSlot) -> i32;

/// Relies on freetype::GlyphSlot::bitmap_top: the bitmap's top bearing in
/// pixels, upwards from the baseline.
pub assume_specification[ freetype::GlyphSlot::bitmap_top ](slot: &freetype::GlyphSlot) -> i32;

/// Relies on freetype::Bitmap::width: pixels in a bitmap row.
pub assume_specification[ freetype::Bitmap::width ](bitmap: &freetype::Bitmap) -> i32;

/// Relies on freetype::Bitmap::rows: rows of the bitmap.
pub assume_specification[ freetype::Bitmap::rows ](bitmap: &freetype::Bitmap) -> i32;

/// Relies on freetype::Bitmap::pitch: bytes from one bitmap row to the next.
pub assume_specification[ freetype::Bitmap::pitch ](bitmap: &freetype::Bitmap) -> i32;

/// Relies on freetype::Bitmap::buffer: the bitmap's bytes.
pub assume_specification[ freetype::Bitmap::buffer ](bitmap: &freetype::Bitmap) -> &[u8];

/// Relies on freetype::GlyphSlot::advance: the horizontal advance of the
/// loaded glyph, in 26.6 fixed point.
#[verifier::external_body]
fn advance_x(slot: &freetype::GlyphSlot) -> (r: i64) {
    slot.advance().x as i64
}

/// Copies the glyph slot's bitmap and metrics out as plain values.
pub(crate) fn read_slot(face: &freetype::Face) -> (r: SlotBitmap) {
    let glyph = face.glyph();
    let bitmap = glyph.bitmap();
    SlotBitmap {
        width: bitmap.width(),
        rows: bitmap.rows(),
        pitch: bitmap.pitch(),
        buffer: slice_to_vec(bitmap.buffer()),
        left: glyph.bitmap_left(),
        top: glyph.bitmap_top(),
        advance_x: advance_x(glyph),
    }
}

/// Relies on freetype::Face::chars: the character codes of the face's
/// active charmap, in the order FreeType walks it.
#[verifier::external_body]
pub(crate) fn face_char_codes(face: &freetype::Face) -> (r: Vec<usize>) {
    face.chars().map(|(code, _)| code).collect()
}

/// Relies on char::from_u32: the character with code `code`, if the code is
/// a Unicode scalar value.
#[verifier::external_body]
pub(crate) fn char_from_code(code: u32) -> (r: Option<char>)
    ensures
        r is Some <==> is_scalar(code),
        r matches Some(c) ==> c as u32 == code,
{
    char::from_u32(code)
}

/// Distinct characters have distinct codes.
pub proof fn lemma_code_injective(a: char, b: char)
    ensures
        a as u32 == b as u32 ==> a == b,
{
}

/// What a sequence holds after a push.
pub proof fn lemma_push_contains(s: Seq<char>, x: char)
    ensures
        forall|d: char| #[trigger] s.push(x).contains(d) <==> s.contains(d) || d == x,
{
    assert forall|d: char| #[trigger] s.push(x).contains(d) <==> s.contains(d) || d == x by {
        if s.contains(d) {
            let k = choose|k: int| 0 <= k < s.len() && s[k] == d;
            assert(s.push(x)[k] == d);
        }
        if d == x {
            assert(s.push(x)[s.len() as int] == d);
        }
        if s.push(x).contains(d) && d != x {
            let k = choose|k: int| 0 <= k < s.len() + 1 && s.push(x)[k] == d;
            assert(s[k] == d);
        }
    }
}

/// No character occurs twice.
pub open spec fn distinct(cs: Seq<char>) -> bool {
    forall|i: int, j: int| 0 <= i < cs.len() && 0 <= j < cs.len() && i != j ==> cs[i] != cs[j]
}

/// The characters of `cs` in order of first occurrence, each once.
pub fn unique_chars(cs: &[char]) -> (r: Vec<char>)
    ensures
        distinct(r@),
        forall|c: char| r@.contains(c) <==> cs@.contains(c),
{
    let mut seen: HashSet<u32> = HashSet::new();
    let mut r: Vec<char> = Vec::new();
    let mut i: usize = 0;
    while i < cs.len()
        invariant
            i <= cs@.len(),
            distinct(r@),
            forall|c: char| r@.contains(c) <==> cs@.subrange(0, i as int).contains(c),
            forall|c: char| #[trigger] r@.contains(c) <==> seen@.contains(c as u32),
        decreases cs@.len() - i,
    {
        let c = cs[i];
        let ghost pre = cs@.subrange(0, i as int);
        let ghost old_r = r@;
        proof {
            assert(cs@.subrange(0, i + 1) =~= pre.push(c));
            lemma_push_contains(pre, c);
        }
        if seen.insert(c as u32) {
            proof {
                assert forall|k: int| 0 <= k < r@.len() implies r@[k] != c by {
                    assert(r@.contains(r@[k]));
                }
            }
            r.push(c);
            proof {
                lemma_push_contains(old_r, c);
            }
        }
        proof {
            assert forall|d: char| #[trigger] r@.contains(d) <==> seen@.contains(d as u32) by {
                lemma_code_injective(d, c);
            }
        }
        i = i + 1;
    }
    proof {
        assert(cs@.subrange(0, cs@.len() as int) =~= cs@);
    }
    r
}

/// A charmap code that names a character: it fits `u32` and is a Unicode
/// scalar value.
pub open spec fn names_char(code: usize) -> bool {
    code <= u32::MAX && is_scalar(code as u32)
}

/// Some code among the first `n` of `codes` is that of `c`.
pub open spec fn listed(codes: Seq<usize>, n: int, c: char) -> bool {
    exists|k: int| 0 <= k < n && codes[k] == c as u32
}

/// The characters whose codes occur in `codes`, in that order; codes that
/// name no character are left out.
pub fn chars_from_codes(codes: &Vec<usize>) -> (r: Vec<char>)
    ensures
        forall|j: int| 0 <= j < r@.len() ==> listed(codes@, codes@.len() as int, #[trigger] r@[j]),
        forall|k: int|
            0 <= k < codes@.len() && names_char(#[trigger] codes@[k]) ==> exists|j: int|
                0 <= j < r@.len() && codes@[k] == (#[trigger] r@[j]) as u32,
{
    let mut r: Vec<char> = Vec::new();
    let mut i: usize = 0;
    while i < codes.len()
        invariant
            i <= codes@.len(),
            forall|j: int| 0 <= j < r@.len() ==> listed(codes@, i as int, #[trigger] r@[j]),
            forall|k: int|
                0 <= k < i && names_char(#[trigger] codes@[k]) ==> exists|j: int|
                    0 <= j < r@.len() && codes@[k] == (#[trigger] r@[j]) as u32,
        decreases codes@.len() - i,
    {
        let code = codes[i];
        let ghost old_r = r@;
        proof {
            assert forall|j: int| 0 <= j < old_r.len() implies listed(codes@, i + 1, #[trigger] old_r[j]) by {
                let k = choose|k: int| 0 <= k < i && codes@[k] == old_r[j] as u32;
            }
        }
        if code <= 0xffff_ffff {
            if let Some(c) = char_from_code(code as u32) {
                r.push(c);
                proof {
                    assert(r@[r@.len() - 1] == c);
                    assert(codes@[i as int] == c as u32);
                    assert(listed(codes@, i + 1, c));
                    assert forall|j: int| 0 <= j < r@.len() implies listed(codes@, i + 1, #[trigger] r@[j]) by {
                        if j < old_r.len() {
                            assert(r@[j] == old_r[j]);
                        }
                    }
                    assert forall|k: int| 0 <= k < i + 1 && names_char(#[trigger] codes@[k]) implies exists|j: int|
                        0 <= j < r@.len() && codes@[k] == (#[trigger] r@[j]) as u32 by {
                        if k < i {
                            let j = choose|j: int| 0 <= j < old_r.len() && codes@[k] == (#[trigger] old_r[j]) as u32;
                            assert(r@[j] == old_r[j]);
                        } else {
                            assert(r@[r@.len() - 1] == c);
                        }
                    }
                }
            }
        }
        i = i + 1;
    }
    r
}

} // verus!
