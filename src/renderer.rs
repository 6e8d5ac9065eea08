//! Text layout: turns strings into glyph quads over the atlas, measures
//! them, and keeps the pending vertex and index lists until a flush.
use crate::font::{BitmapChar, BitmapFont};
use crate::{grow_buffer_size, grown_capacity};
use vstd::prelude::*;

verus! {

/// An anchor aligns text horizontally to its given x position.
#[derive(Debug, Clone, Copy, PartialEq, Eq, Structural)]
pub enum HorizontalAnchor {
    /// Anchor the left edge of the text
    Left,
    /// Anchor the horizontal mid-point of the text
    Center,
    /// Anchor the right edge of the text
    Right,
}

/// An anchor aligns text vertically to its given y position.
#[derive(Debug, Clone, Copy, PartialEq, Eq, Structural)]
pub enum VerticalAnchor {
    /// Anchor the top edge of the text
    Top,
    /// Anchor the vertical mid-point of the text
    Center,
    /// Anchor the bottom edge of the text
    Bottom,
}

/// One corner of a glyph quad. `pos` is in screen pixels, or an offset in
/// pixels from `world_pos` for text placed in the world; `tex` is the
/// texel of the atlas it samples (divided by the atlas size this gives the
/// texture coordinate). `world_pos` is `None` for screen-relative text.
#[derive(Debug, Clone, Copy)]
pub struct Vertex<C, W> {
    pub pos: [i64; 2],
    pub tex: [i32; 2],
    pub world_pos: Option<W>,
    pub color: C,
}

impl<C: Copy, W: Copy> Vertex<C, W> {
    /// Whether the vertex is placed in screen pixels (not in the world).
    pub fn screen_rel(&self) -> (r: bool)
        ensures
            r == self.world_pos is None,
    {
        self.world_pos.is_none()
    }
}

pub open spec fn vertex<C, W>(x: int, y: int, tx: int, ty: int, color: C, world: Option<W>) -> Vertex<
    C,
    W,
> {
    Vertex { pos: [x as i64, y as i64], tex: [tx as i32, ty as i32], world_pos: world, color }
}

/// The four corners of glyph `b` drawn with its cursor at `(x, y)`:
/// top-left, bottom-left, bottom-right, top-right.
pub open spec fn glyph_quad<C, W>(b: BitmapChar, x: int, y: int, color: C, world: Option<W>) -> Seq<
    Vertex<C, W>,
> {
    let x0 = x + b.x_offset;
    let y0 = y + b.y_offset;
    let x1 = x0 + b.width;
    let y1 = y0 + b.height;
    let u0 = b.tex_x as int;
    let v0 = b.tex_y as int;
    let u1 = u0 + b.width;
    let v1 = v0 + b.height;
    seq![
        vertex(x0, y0, u0, v0, color, world),
        vertex(x0, y1, u0, v1, color, world),
        vertex(x1, y1, u1, v1, color, world),
        vertex(x1, y0, u1, v0, color, world),
    ]
}

/// The six indices of the quad whose corners start at `base`: triangles
/// (top-left, bottom-left, top-right) and (top-right, bottom-left, bottom-right).
pub open spec fn quad_indices(base: int) -> Seq<u32> {
    seq![base as u32, (base + 1) as u32, (base + 3) as u32, (base + 3) as u32, (base + 1) as u32, (base + 2) as u32]
}

/// The cursor's x after the text: `x` plus the advances of the characters
/// the atlas has (the others are skipped).
pub open spec fn pen_x(font: BitmapFont, text: Seq<char>, x: int) -> int
    decreases text.len(),
{
    if text.len() == 0 {
        x
    } else {
        let p = pen_x(font, text.drop_last(), x);
        match font.glyph_of(text.last()) {
            Some(b) => p + b.x_advance,
            None => p,
        }
    }
}

/// How many of the characters the atlas has: one quad each.
pub open spec fn quad_count(font: BitmapFont, text: Seq<char>) -> nat
    decreases text.len(),
{
    if text.len() == 0 {
        0
    } else {
        quad_count(font, text.drop_last()) + (if font.glyph_of(text.last()) is Some { 1nat } else { 0nat })
    }
}

/// The vertices of the text drawn from `(x, y)`: one quad per character the
/// atlas has, the cursor moving right by each one's advance.
pub open spec fn text_vertices<C, W>(
    font: BitmapFont,
    text: Seq<char>,
    x: int,
    y: int,
    color: C,
    world: Option<W>,
) -> Seq<Vertex<C, W>>
    decreases text.len(),
{
    if text.len() == 0 {
        seq![]
    } else {
        let p = text.drop_last();
        let front = text_vertices(font, p, x, y, color, world);
        match font.glyph_of(text.last()) {
            Some(b) => front + glyph_quad(b, pen_x(font, p, x), y, color, world),
            None => front,
        }
    }
}

/// The indices of the text's quads, the first quad's corners at `base`.
pub open spec fn text_indices(font: BitmapFont, text: Seq<char>, base: int) -> Seq<u32>
    decreases text.len(),
{
    if text.len() == 0 {
        seq![]
    } else {
        let p = text.drop_last();
        let front = text_indices(font, p, base);
        match font.glyph_of(text.last()) {
            Some(b) => front + quad_indices(base + 4 * quad_count(font, p)),
            None => front,
        }
    }
}

/// The largest `y_offset + height` over the characters the atlas has (0 for none).
pub open spec fn text_height(font: BitmapFont, text: Seq<char>) -> int
    decreases text.len(),
{
    if text.len() == 0 {
        0
    } else {
        let h = text_height(font, text.drop_last());
        match font.glyph_of(text.last()) {
            Some(b) => if h < b.y_offset + b.height { b.y_offset + b.height } else { h },
            None => h,
        }
    }
}

/// Width of the text: the total advance of the characters the atlas has.
pub open spec fn text_width(font: BitmapFont, text: Seq<char>) -> int {
    pen_x(font, text, 0)
}

/// Half of `v`, rounded toward zero.
pub open spec fn half(v: int) -> int {
    if v >= 0 { v / 2 } else { -((-v) / 2) }
}

/// Where the text's cursor starts so that the anchored point of its
/// bounding box lies at `(x, y)`.
pub open spec fn anchored_origin(
    font: BitmapFont,
    text: Seq<char>,
    x: int,
    y: int,
    h: HorizontalAnchor,
    v: VerticalAnchor,
) -> (int, int) {
    let w = text_width(font, text);
    let t = text_height(font, text);
    (
        match h {
            HorizontalAnchor::Left => x,
            HorizontalAnchor::Center => x - half(w),
            HorizontalAnchor::Right => x - w,
        },
        match v {
            VerticalAnchor::Top => y,
            VerticalAnchor::Center => y - half(t),
            VerticalAnchor::Bottom => y - t,
        },
    )
}

} // verus!

verus! {

/// Moving the start of a text moves its pen by as much.
proof fn lemma_pen_shift(font: BitmapFont, text: Seq<char>, x: int, d: int)
    ensures
        pen_x(font, text, x + d) == pen_x(font, text, x) + d,
    decreases text.len(),
{
    if text.len() > 0 {
        lemma_pen_shift(font, text.drop_last(), x, d);
    }
}

/// The pen moves at most `2^31` per character.
proof fn lemma_pen_bound(font: BitmapFont, text: Seq<char>, x: int)
    ensures
        x - text.len() * 0x8000_0000 <= pen_x(font, text, x) <= x + text.len() * 0x8000_0000,
        quad_count(font, text) <= text.len(),
    decreases text.len(),
{
    if text.len() > 0 {
        lemma_pen_bound(font, text.drop_last(), x);
    }
}

/// Bounds on a text's measured size.
proof fn lemma_measure_bounds(font: BitmapFont, text: Seq<char>)
    ensures
        -(text.len() * 0x8000_0000) <= text_width(font, text) <= text.len() * 0x8000_0000,
        0 <= text_height(font, text) <= 0x1_0000_0000,
    decreases text.len(),
{
    lemma_pen_bound(font, text, 0);
    if text.len() > 0 {
        lemma_measure_bounds(font, text.drop_last());
    }
}

/// Text laid out from a point moved by `(dx, dy)` has every vertex moved by
/// as much, and nothing else changed.
proof fn lemma_vertices_shift<C, W>(
    font: BitmapFont,
    text: Seq<char>,
    x: int,
    y: int,
    dx: int,
    dy: int,
    color: C,
    world: Option<W>,
)
    requires
        text.len() <= 0x4000_0000,
        -0x4000_0000_0000_0000 <= x <= 0x4000_0000_0000_0000,
        -0x4000_0000_0000_0000 <= y <= 0x4000_0000_0000_0000,
        -0x4000_0000_0000_0000 <= x + dx <= 0x4000_0000_0000_0000,
        -0x4000_0000_0000_0000 <= y + dy <= 0x4000_0000_0000_0000,
    ensures
        ({
            let a = text_vertices(font, text, x + dx, y + dy, color, world);
            let b = text_vertices(font, text, x, y, color, world);
            &&& a.len() == b.len()
            &&& forall|i: int|
                0 <= i < a.len() ==> {
                    &&& (#[trigger] a[i]).pos[0] == b[i].pos[0] + dx
                    &&& a[i].pos[1] == b[i].pos[1] + dy
                    &&& a[i].tex == b[i].tex
                    &&& a[i].world_pos == b[i].world_pos
                    &&& a[i].color == b[i].color
                }
        }),
    decreases text.len(),
{
    if text.len() > 0 {
        let p = text.drop_last();
        lemma_vertices_shift(font, p, x, y, dx, dy, color, world);
        lemma_pen_shift(font, p, x, dx);
        lemma_pen_bound(font, p, x);
        lemma_pen_bound(font, p, x + dx);
        let a = text_vertices(font, text, x + dx, y + dy, color, world);
        let b = text_vertices(font, text, x, y, color, world);
        let ap = text_vertices(font, p, x + dx, y + dy, color, world);
        let bp = text_vertices(font, p, x, y, color, world);
        match font.glyph_of(text.last()) {
            Some(g) => {
                assert forall|i: int| 0 <= i < a.len() implies {
                    &&& (#[trigger] a[i]).pos[0] == b[i].pos[0] + dx
                    &&& a[i].pos[1] == b[i].pos[1] + dy
                    &&& a[i].tex == b[i].tex
                    &&& a[i].world_pos == b[i].world_pos
                    &&& a[i].color == b[i].color
                } by {
                    if i < ap.len() {
                        assert(a[i] == ap[i]);
                        assert(b[i] == bp[i]);
                    }
                }
            },
            None => {},
        }
    }
}

/// Every character the atlas has gives one quad: four vertices and six
/// indices, which name only those four vertices.
proof fn lemma_quad_counts<C, W>(
    font: BitmapFont,
    text: Seq<char>,
    x: int,
    y: int,
    base: int,
    color: C,
    world: Option<W>,
)
    requires
        0 <= base,
        base + 4 * text.len() <= 0x1_0000_0000,
    ensures
        text_vertices(font, text, x, y, color, world).len() == 4 * quad_count(font, text),
        text_indices(font, text, base).len() == 6 * quad_count(font, text),
        forall|k: int|
            0 <= k < text_indices(font, text, base).len() ==> base <= #[trigger] text_indices(
                font,
                text,
                base,
            )[k] < base + 4 * quad_count(font, text),
    decreases text.len(),
{
    lemma_pen_bound(font, text, x);
    if text.len() > 0 {
        let p = text.drop_last();
        lemma_quad_counts(font, p, x, y, base, color, world);
        lemma_pen_bound(font, p, x);
        let ix = text_indices(font, text, base);
        let ip = text_indices(font, p, base);
        if font.glyph_of(text.last()) is Some {
            let q = base + 4 * quad_count(font, p);
            assert forall|k: int| 0 <= k < ix.len() implies base <= #[trigger] ix[k] < base + 4 * quad_count(
                font,
                text,
            ) by {
                if k < ip.len() {
                    assert(ix[k] == ip[k]);
                }
            }
        }
    }
}

/// Text layout state: the atlas, and the quads added since the last flush.
pub struct Renderer<C, W> {
    font_bitmap: BitmapFont,
    vertex_data: Vec<Vertex<C, W>>,
    index_data: Vec<u32>,
}

impl<C: Copy, W: Copy> Renderer<C, W> {
    pub closed spec fn font(&self) -> BitmapFont {
        self.font_bitmap
    }

    /// The vertices added since the last flush.
    pub closed spec fn vertices(&self) -> Seq<Vertex<C, W>> {
        self.vertex_data@
    }

    /// The indices added since the last flush.
    pub closed spec fn indices(&self) -> Seq<u32> {
        self.index_data@
    }

    pub open spec fn wf(&self) -> bool {
        self.font().wf()
    }

    /// A renderer drawing with the atlas `font`, with nothing pending.
    pub fn from_font(font: BitmapFont) -> (r: Self)
        ensures
            r.font() == font,
            r.vertices() == Seq::<Vertex<C, W>>::empty(),
            r.indices() == Seq::<u32>::empty(),
    {
        Renderer { font_bitmap: font, vertex_data: Vec::new(), index_data: Vec::new() }
    }

    /// The atlas the text is drawn from.
    pub fn font_bitmap(&self) -> (r: &BitmapFont)
        ensures
            *r == self.font(),
    {
        &self.font_bitmap
    }

    /// The vertices added since the last flush.
    pub fn vertex_data(&self) -> (r: &[Vertex<C, W>])
        ensures
            r@ == self.vertices(),
    {
        self.vertex_data.as_slice()
    }

    /// The indices added since the last flush.
    pub fn index_data(&self) -> (r: &[u32])
        ensures
            r@ == self.indices(),
    {
        self.index_data.as_slice()
    }

    /// Appends the quads of `text` with its cursor starting at `(x, y)`.
    /// Characters the atlas lacks add nothing and do not move the cursor.
    fn add_generic(&mut self, text: &str, x: i64, y: i64, color: C, world: Option<W>)
        requires
            old(self).wf(),
            -0x4000_0000_0000_0000 <= x <= 0x4000_0000_0000_0000,
            -0x4000_0000_0000_0000 <= y <= 0x4000_0000_0000_0000,
            old(self).vertices().len() + 4 * text@.len() <= 0x1_0000_0000,
        ensures
            final(self).font() == old(self).font(),
            final(self).vertices() == old(self).vertices() + text_vertices(
                old(self).font(),
                text@,
                x as int,
                y as int,
                color,
                world,
            ),
            final(self).indices() == old(self).indices() + text_indices(
                old(self).font(),
                text@,
                old(self).vertices().len() as int,
            ),
    {
        let ghost font = self.font();
        let ghost old_v = self.vertices();
        let ghost old_i = self.indices();
        let ghost base = old_v.len() as int;
        let mut cur_x: i64 = x;
        let n = text.unicode_len();
        let mut i: usize = 0;
        while i < n
            invariant
                n == text@.len(),
                i <= n,
                self.font() == font,
                font.wf(),
                -0x4000_0000_0000_0000 <= x <= 0x4000_0000_0000_0000,
                -0x4000_0000_0000_0000 <= y <= 0x4000_0000_0000_0000,
                base == old_v.len(),
                base + 4 * n <= 0x1_0000_0000,
                cur_x == pen_x(font, text@.take(i as int), x as int),
                x - i * 0x8000_0000 <= cur_x <= x + i * 0x8000_0000,
                self.vertices() == old_v + text_vertices(font, text@.take(i as int), x as int, y as int, color, world),
                self.indices() == old_i + text_indices(font, text@.take(i as int), base),
                self.vertices().len() == base + 4 * quad_count(font, text@.take(i as int)),
                quad_count(font, text@.take(i as int)) <= i,
            decreases n - i,
        {
            let ch = text.get_char(i);
            let ghost pre = text@.take(i as int);
            proof {
                assert(text@.take(i + 1).drop_last() =~= pre);
                assert(text@.take(i + 1).last() == ch);
            }
            match self.font_bitmap.find_char(ch) {
                Some(info) => {
                    let b = *info;
                    proof {
                        assert(font.glyphs().contains_key(ch as u32));
                        assert(crate::packing::inside(b, font.spec_width() as int, font.spec_height() as int));
                        assert(font.spec_width() <= 65535);
                        assert(b.tex_x + b.width <= 65535);
                    }
                    assert(i < 0x4000_0000);
                    assert(i * 0x8000_0000 <= 0x2000_0000_0000_0000) by (nonlinear_arith)
                        requires i < 0x4000_0000;
                    let x0 = cur_x + b.x_offset as i64;
                    let y0 = y + b.y_offset as i64;
                    let x1 = x0 + b.width as i64;
                    let y1 = y0 + b.height as i64;
                    let u0 = b.tex_x;
                    let v0 = b.tex_y;
                    let u1 = u0 + b.width;
                    let v1 = v0 + b.height;
                    let index = self.vertex_data.len() as u32;
                    self.vertex_data.push(Vertex { pos: [x0, y0], tex: [u0, v0], world_pos: world, color });
                    self.vertex_data.push(Vertex { pos: [x0, y1], tex: [u0, v1], world_pos: world, color });
                    self.vertex_data.push(Vertex { pos: [x1, y1], tex: [u1, v1], world_pos: world, color });
                    self.vertex_data.push(Vertex { pos: [x1, y0], tex: [u1, v0], world_pos: world, color });
                    self.index_data.push(index);
                    self.index_data.push(index + 1);
                    self.index_data.push(index + 3);
                    self.index_data.push(index + 3);
                    self.index_data.push(index + 1);
                    self.index_data.push(index + 2);
                    cur_x = cur_x + b.x_advance as i64;
                    proof {
                        assert(self.vertices() =~= old_v + text_vertices(
                            font,
                            text@.take(i + 1),
                            x as int,
                            y as int,
                            color,
                            world,
                        ));
                        assert(self.indices() =~= old_i + text_indices(font, text@.take(i + 1), base));
                    }
                },
                None => {
                    proof {
                        assert(self.vertices() =~= old_v + text_vertices(
                            font,
                            text@.take(i + 1),
                            x as int,
                            y as int,
                            color,
                            world,
                        ));
                        assert(self.indices() =~= old_i + text_indices(font, text@.take(i + 1), base));
                    }
                },
            }
            i = i + 1;
        }
        proof {
            assert(text@.take(n as int) =~= text@);
        }
    }

    /// Add some text to the current draw scene relative to the top left
    /// corner of the screen using pixel coordinates.
    pub fn add(&mut self, text: &str, pos: [i32; 2], color: C)
        requires
            old(self).wf(),
            old(self).vertices().len() + 4 * text@.len() <= 0x1_0000_0000,
        ensures
            final(self).font() == old(self).font(),
            final(self).vertices() == old(self).vertices() + text_vertices(
                old(self).font(),
                text@,
                pos[0] as int,
                pos[1] as int,
                color,
                None::<W>,
            ),
            final(self).indices() == old(self).indices() + text_indices(
                old(self).font(),
                text@,
                old(self).vertices().len() as int,
            ),
    {
        self.add_generic(text, pos[0] as i64, pos[1] as i64, color, None)
    }

    /// Add some text to the draw scene anchored at a point of the world:
    /// the glyphs are laid out in pixels from that point.
    pub fn add_at(&mut self, text: &str, pos: W, color: C)
        requires
            old(self).wf(),
            old(self).vertices().len() + 4 * text@.len() <= 0x1_0000_0000,
        ensures
            final(self).font() == old(self).font(),
            final(self).vertices() == old(self).vertices() + text_vertices(
                old(self).font(),
                text@,
                0,
                0,
                color,
                Some(pos),
            ),
            final(self).indices() == old(self).indices() + text_indices(
                old(self).font(),
                text@,
                old(self).vertices().len() as int,
            ),
    {
        self.add_generic(text, 0, 0, color, Some(pos))
    }

    /// Add text to the draw scene by anchoring an edge or mid-point of its
    /// bounding box (see `measure`) to a position in screen pixels.
    pub fn add_anchored(
        &mut self,
        text: &str,
        pos: [i32; 2],
        horizontal: HorizontalAnchor,
        vertical: VerticalAnchor,
        color: C,
    )
        requires
            old(self).wf(),
            old(self).vertices().len() + 4 * text@.len() <= 0x1_0000_0000,
        ensures
            final(self).font() == old(self).font(),
            final(self).vertices() == old(self).vertices() + text_vertices(
                old(self).font(),
                text@,
                anchored_origin(old(self).font(), text@, pos[0] as int, pos[1] as int, horizontal, vertical).0,
                anchored_origin(old(self).font(), text@, pos[0] as int, pos[1] as int, horizontal, vertical).1,
                color,
                None::<W>,
            ),
            final(self).indices() == old(self).indices() + text_indices(
                old(self).font(),
                text@,
                old(self).vertices().len() as int,
            ),
    {
        if horizontal == HorizontalAnchor::Left && vertical == VerticalAnchor::Top {
            self.add_generic(text, pos[0] as i64, pos[1] as i64, color, None);
            return ;
        }
        let (width, height) = self.measure(text);
        proof {
            lemma_measure_bounds(self.font(), text@);
        }
        let px = pos[0] as i64;
        let py = pos[1] as i64;
        let x = match horizontal {
            HorizontalAnchor::Left => px,
            HorizontalAnchor::Center => px - half_toward_zero(width),
            HorizontalAnchor::Right => px - width,
        };
        let y = match vertical {
            VerticalAnchor::Top => py,
            VerticalAnchor::Center => py - half_toward_zero(height),
            VerticalAnchor::Bottom => py - height,
        };
        self.add_generic(text, x, y, color, None)
    }

    // Reports the height of the tallest glyph of the string, not of the
    // whole font: strings of one font may measure differently tall.
    /// Get the bounding box size of a string as rendered by this font: the
    /// total advance of its glyphs, and the largest `y_offset + height` of
    /// its glyphs.
    pub fn measure(&self, text: &str) -> (r: (i64, i64))
        requires
            self.wf(),
            text@.len() <= 0x4000_0000,
        ensures
            r.0 == text_width(self.font(), text@),
            r.1 == text_height(self.font(), text@),
            text@.len() == 0 ==> r == (0i64, 0i64),
    {
        let ghost font = self.font();
        let mut width: i64 = 0;
        let mut height: i64 = 0;
        let n = text.unicode_len();
        let mut i: usize = 0;
        while i < n
            invariant
                n == text@.len(),
                n <= 0x4000_0000,
                i <= n,
                self.font() == font,
                width == pen_x(font, text@.take(i as int), 0),
                -(i * 0x8000_0000) <= width <= i * 0x8000_0000,
                height == text_height(font, text@.take(i as int)),
                0 <= height <= 0x1_0000_0000,
            decreases n - i,
        {
            let ch = text.get_char(i);
            proof {
                assert(text@.take(i + 1).drop_last() =~= text@.take(i as int));
                assert(text@.take(i + 1).last() == ch);
                lemma_measure_bounds(font, text@.take(i + 1));
            }
            match self.font_bitmap.find_char(ch) {
                Some(info) => {
                    let b = *info;
                    width = width + b.x_advance as i64;
                    let top = b.y_offset as i64 + b.height as i64;
                    if height < top {
                        height = top;
                    }
                },
                None => {},
            }
            i = i + 1;
        }
        proof {
            assert(text@.take(n as int) =~= text@);
            lemma_measure_bounds(font, text@);
        }
        (width, height)
    }

    /// Drops the pending geometry (after it was drawn).
    pub fn clear(&mut self)
        ensures
            final(self).font() == old(self).font(),
            final(self).vertices() == Seq::<Vertex<C, W>>::empty(),
            final(self).indices() == Seq::<u32>::empty(),
    {
        self.vertex_data.clear();
        self.index_data.clear();
    }

    /// What a flush does with GPU buffers of `vertex_buffer_len` vertices
    /// and `index_buffer_len` indices: a buffer too small for the pending
    /// data is reallocated at the capacity `grow_buffer_size` gives, and
    /// the draw covers all pending indices. With nothing pending, nothing
    /// is reallocated and the draw covers no index.
    pub fn plan_draw(&self, vertex_buffer_len: usize, index_buffer_len: usize) -> (p: DrawPlan)
        requires
            grown_capacity(vertex_buffer_len as nat, self.vertices().len()) <= usize::MAX,
            grown_capacity(index_buffer_len as nat, self.indices().len()) <= usize::MAX,
        ensures
            p.vertex_buffer_len == (if self.vertices().len() > vertex_buffer_len {
                Some(grown_capacity(vertex_buffer_len as nat, self.vertices().len()) as usize)
            } else {
                None
            }),
            p.index_buffer_len == (if self.indices().len() > index_buffer_len {
                Some(grown_capacity(index_buffer_len as nat, self.indices().len()) as usize)
            } else {
                None
            }),
            p.index_count == self.indices().len(),
            self.vertices().len() == 0 && self.indices().len() == 0 ==> p.vertex_buffer_len is None
                && p.index_buffer_len is None && p.index_count == 0,
    {
        let ver_len = self.vertex_data.len();
        let ind_len = self.index_data.len();
        let vertex_buffer_len = if ver_len > vertex_buffer_len {
            Some(grow_buffer_size(vertex_buffer_len, ver_len))
        } else {
            None
        };
        let index_buffer_len = if ind_len > index_buffer_len {
            Some(grow_buffer_size(index_buffer_len, ind_len))
        } else {
            None
        };
        DrawPlan { vertex_buffer_len, index_buffer_len, index_count: ind_len }
    }
}

/// What a flush does: the GPU buffers that must be reallocated, at which
/// capacity, and how many indices the draw call covers.
#[derive(Debug, Clone, Copy, PartialEq, Eq, Structural)]
pub struct DrawPlan {
    pub vertex_buffer_len: Option<usize>,
    pub index_buffer_len: Option<usize>,
    pub index_count: usize,
}

/// `v / 2` rounded toward zero.
fn half_toward_zero(v: i64) -> (r: i64)
    requires
        v > i64::MIN,
    ensures
        r == half(v as int),
{
    if v >= 0 {
        v / 2
    } else {
        -((-v) / 2)
    }
}

} // verus!

verus! {

/// Adding a text whose characters are all in the atlas appends four
/// vertices and six indices per character, and every new index names one of
/// the new vertices: for `n` characters added after `base` vertices, each
/// index lies in `base..base + 4n`.
pub proof fn lemma_add_quads_per_char<C, W>(
    font: BitmapFont,
    text: Seq<char>,
    x: int,
    y: int,
    base: int,
    color: C,
    world: Option<W>,
)
    requires
        forall|i: int| 0 <= i < text.len() ==> font.glyph_of(#[trigger] text[i]) is Some,
        0 <= base,
        base + 4 * text.len() <= 0x1_0000_0000,
    ensures
        text_vertices(font, text, x, y, color, world).len() == 4 * text.len(),
        text_indices(font, text, base).len() == 6 * text.len(),
        forall|k: int|
            0 <= k < 6 * text.len() ==> base <= #[trigger] text_indices(font, text, base)[k] < base + 4
                * text.len(),
{
    lemma_all_present_count(font, text);
    lemma_quad_counts(font, text, x, y, base, color, world);
}

proof fn lemma_all_present_count(font: BitmapFont, text: Seq<char>)
    requires
        forall|i: int| 0 <= i < text.len() ==> font.glyph_of(#[trigger] text[i]) is Some,
    ensures
        quad_count(font, text) == text.len(),
    decreases text.len(),
{
    if text.len() > 0 {
        let p = text.drop_last();
        assert forall|i: int| 0 <= i < p.len() implies font.glyph_of(#[trigger] p[i]) is Some by {
            assert(p[i] == text[i]);
        }
        lemma_all_present_count(font, p);
        assert(font.glyph_of(text[text.len() - 1]) is Some);
    }
}

/// Anchoring the top-left corner is no anchoring: `add_anchored` with
/// `Left` and `Top` lays the text out exactly as `add` does.
pub proof fn lemma_anchor_left_top_is_add<C, W>(
    font: BitmapFont,
    text: Seq<char>,
    x: int,
    y: int,
    color: C,
)
    ensures
        anchored_origin(font, text, x, y, HorizontalAnchor::Left, VerticalAnchor::Top) == (x, y),
        text_vertices(
            font,
            text,
            anchored_origin(font, text, x, y, HorizontalAnchor::Left, VerticalAnchor::Top).0,
            anchored_origin(font, text, x, y, HorizontalAnchor::Left, VerticalAnchor::Top).1,
            color,
            None::<W>,
        ) == text_vertices(font, text, x, y, color, None::<W>),
{
}

/// Centring on both axes moves every vertex by `(-w/2, -h/2)` (halves
/// rounded toward zero) from where `add` puts it, `(w, h)` being what
/// `measure` reports; texture coordinates and colour stay as they are.
pub proof fn lemma_anchor_center_shift<C, W>(
    font: BitmapFont,
    text: Seq<char>,
    x: i32,
    y: i32,
    color: C,
)
    requires
        text.len() <= 0x4000_0000,
    ensures
        ({
            let w = text_width(font, text);
            let h = text_height(font, text);
            let o = anchored_origin(font, text, x as int, y as int, HorizontalAnchor::Center, VerticalAnchor::Center);
            let a = text_vertices(font, text, o.0, o.1, color, None::<W>);
            let b = text_vertices(font, text, x as int, y as int, color, None::<W>);
            &&& a.len() == b.len()
            &&& forall|i: int|
                0 <= i < a.len() ==> {
                    &&& (#[trigger] a[i]).pos[0] == b[i].pos[0] - half(w)
                    &&& a[i].pos[1] == b[i].pos[1] - half(h)
                    &&& a[i].tex == b[i].tex
                    &&& a[i].color == b[i].color
                    &&& a[i].world_pos == b[i].world_pos
                }
        }),
{
    let w = text_width(font, text);
    let h = text_height(font, text);
    lemma_measure_bounds(font, text);
    lemma_vertices_shift(font, text, x as int, y as int, -half(w), -half(h), color, None::<W>);
}

} // verus!

verus! {

proof fn lemma_pen_concat(font: BitmapFont, s: Seq<char>, t: Seq<char>, x: int)
    ensures
        pen_x(font, s + t, x) == pen_x(font, t, pen_x(font, s, x)),
    decreases t.len(),
{
    if t.len() == 0 {
        assert(s + t =~= s);
    } else {
        lemma_pen_concat(font, s, t.drop_last(), x);
        assert((s + t).drop_last() =~= s + t.drop_last());
        assert((s + t).last() == t.last());
    }
}

/// The measured width of two strings drawn one after the other is the sum
/// of their widths.
pub proof fn lemma_width_additive(font: BitmapFont, s: Seq<char>, t: Seq<char>)
    ensures
        text_width(font, s + t) == text_width(font, s) + text_width(font, t),
{
    lemma_pen_concat(font, s, t, 0);
    lemma_pen_shift(font, t, 0, pen_x(font, s, 0));
}

} // verus!
