//! Text drawing for GPU pipelines: a font's glyphs rasterised once (with
//! FreeType) and shelf-packed into one grayscale atlas, and strings laid out
//! as quads over that atlas, with measuring, anchoring and the growth policy
//! of the vertex and index buffers. The GPU side (textures, buffers,
//! shaders, draw calls) lives outside this crate.
use vstd::prelude::*;

pub mod builder;
pub mod font;
pub mod packing;
pub mod raster;
pub mod renderer;

pub use builder::{new, FontSource, RendererError, RendererBuilder, DEFAULT_BUFFER_SIZE, DEFAULT_FONT_SIZE};
pub use font::{BitmapChar, BitmapFont, FontError, FontResult};
pub use packing::GlyphBitmap;
pub use raster::{chars_from_codes, unique_chars, SlotBitmap};
pub use renderer::{DrawPlan, HorizontalAnchor, Renderer, VerticalAnchor, Vertex};

verus! {

/// `c` doubled until it reaches `r` (a zero `c` stays zero).
pub open spec fn doubled_until(c: nat, r: nat) -> nat
    decreases (if c < r { r - c } else { 0 }),
{
    if c == 0 || c >= r {
        c
    } else {
        doubled_until(2 * c, r)
    }
}

/// The capacity a buffer of capacity `current` grows to so that it holds `required` items:
/// `max(current, 1)` doubled until it is at least `required`.
pub open spec fn grown_capacity(current: nat, required: nat) -> nat {
    doubled_until(if current < 1 { 1 } else { current }, required)
}

/// The capacity a buffer of `current_size` items grows to so that it holds
/// `desired_size`: `max(current_size, 1)` doubled until it is large enough.
/// Never smaller than either argument.
pub fn grow_buffer_size(current_size: usize, desired_size: usize) -> (r: usize)
    requires
        grown_capacity(current_size as nat, desired_size as nat) <= usize::MAX,
    ensures
        r == grown_capacity(current_size as nat, desired_size as nat),
        r >= current_size,
        r >= desired_size,
        r >= 1,
{
    let mut size = current_size;
    if size < 1 {
        size = 1;
    }
    while size < desired_size
        invariant
            size >= 1,
            size >= current_size,
            doubled_until(size as nat, desired_size as nat) == grown_capacity(
                current_size as nat,
                desired_size as nat,
            ),
            grown_capacity(current_size as nat, desired_size as nat) <= usize::MAX,
        decreases (if size < desired_size { desired_size - size } else { 0 }),
    {
        proof {
            lemma_doubled_until_at_least(2 * size as nat, desired_size as nat);
        }
        size = size * 2;
    }
    size
}

proof fn lemma_doubled_until_at_least(c: nat, r: nat)
    ensures
        doubled_until(c, r) >= c,
        c >= 1 ==> doubled_until(c, r) >= r,
    decreases (if c < r { r - c } else { 0 }),
{
    if c != 0 && c < r {
        lemma_doubled_until_at_least(2 * c, r);
    }
}

} // verus!
