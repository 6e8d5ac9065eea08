//! Shelf packing of glyph bitmaps into one atlas image, stated as spec
//! functions over the glyphs, with the lemmas that the packer's proof uses.
use crate::font::BitmapChar;
use vstd::arithmetic::div_mod::lemma_fundamental_div_mod_converse;
use vstd::prelude::*;

verus! {

/// One character as the rasteriser produced it, before packing: its
/// metrics and its bitmap (row-major, one byte per pixel).
#[derive(Debug, Clone)]
pub struct GlyphBitmap {
    pub ch: char,
    pub x_offset: i32,
    pub y_offset: i32,
    pub x_advance: i32,
    pub width: i32,
    pub height: i32,
    pub data: Vec<u8>,
}

impl GlyphBitmap {
    pub open spec fn wf(&self) -> bool {
        &&& 0 <= self.width
        &&& 0 <= self.height
        &&& self.data@.len() == self.width * self.height
    }
}

/// Every glyph is well formed and no character occurs twice.
pub open spec fn glyphs_wf(gs: Seq<GlyphBitmap>) -> bool {
    &&& forall|i: int| 0 <= i < gs.len() ==> (#[trigger] gs[i]).wf()
    &&& forall|i: int, j: int|
        0 <= i < gs.len() && 0 <= j < gs.len() && i != j ==> (#[trigger] gs[i]).ch != (#[trigger] gs[j]).ch
}

pub open spec fn max_of(a: int, b: int) -> int {
    if a < b { b } else { a }
}

/// Sum of the glyph widths.
pub open spec fn sum_width(gs: Seq<GlyphBitmap>) -> int
    decreases gs.len(),
{
    if gs.len() == 0 { 0 } else { sum_width(gs.drop_last()) + gs.last().width }
}

/// Widest glyph (0 for none).
pub open spec fn max_width(gs: Seq<GlyphBitmap>) -> int
    decreases gs.len(),
{
    if gs.len() == 0 { 0 } else { max_of(max_width(gs.drop_last()), gs.last().width as int) }
}

/// Tallest glyph (0 for none): the height of every shelf.
pub open spec fn box_height(gs: Seq<GlyphBitmap>) -> int
    decreases gs.len(),
{
    if gs.len() == 0 { 0 } else { max_of(box_height(gs.drop_last()), gs.last().height as int) }
}

/// The largest `k <= r` with `k * k <= x`.
pub open spec fn sqrt_below(r: nat, x: nat) -> nat
    decreases r,
{
    if r == 0 || r * r <= x { r } else { sqrt_below((r - 1) as nat, x) }
}

/// `floor(sqrt(x))`.
pub open spec fn floor_sqrt(x: nat) -> nat {
    sqrt_below(x, x)
}

/// Width of the atlas image: the widest glyph, or the side of a square of
/// the glyphs' total area if that is wider.
pub open spec fn ideal_width(gs: Seq<GlyphBitmap>) -> int {
    max_of(max_width(gs), floor_sqrt((sum_width(gs) * box_height(gs)) as nat) as int)
}

/// Shelf packing into rows of width `w`: the cursor `(column, row)` after
/// the first `n` glyphs have been placed.
pub open spec fn shelf_cursor(gs: Seq<GlyphBitmap>, w: int, n: int) -> (int, int)
    decreases n, 0int,
{
    if n <= 0 {
        (0, 0)
    } else {
        let o = shelf_origin(gs, w, n - 1);
        (o.0 + gs[n - 1].width, o.1)
    }
}

/// Shelf packing into rows of width `w`: the column and row of glyph `i`.
/// A glyph that would pass the right edge opens a new row.
pub open spec fn shelf_origin(gs: Seq<GlyphBitmap>, w: int, i: int) -> (int, int)
    decreases i, 1int,
{
    let c = shelf_cursor(gs, w, i);
    if c.0 + gs[i].width > w { (0, c.1 + 1) } else { c }
}

/// Height of the atlas image: as many shelves as the packing opened.
pub open spec fn atlas_height(gs: Seq<GlyphBitmap>) -> int {
    (shelf_cursor(gs, ideal_width(gs), gs.len() as int).1 + 1) * box_height(gs)
}

/// Whether the packed atlas fits a texture of 65535 x 65535 pixels.
pub open spec fn atlas_fits(gs: Seq<GlyphBitmap>) -> bool {
    ideal_width(gs) <= 65535 && atlas_height(gs) <= 65535
}

/// Where glyph `i` ends up in the atlas.
pub open spec fn placed_char(gs: Seq<GlyphBitmap>, i: int) -> BitmapChar {
    let o = shelf_origin(gs, ideal_width(gs), i);
    BitmapChar {
        x_offset: gs[i].x_offset,
        y_offset: gs[i].y_offset,
        x_advance: gs[i].x_advance,
        width: gs[i].width,
        height: gs[i].height,
        tex_x: o.0 as i32,
        tex_y: (o.1 * box_height(gs)) as i32,
    }
}

/// The rectangles of two glyphs in the atlas share no pixel.
pub open spec fn disjoint(a: BitmapChar, b: BitmapChar) -> bool {
    ||| a.tex_x + a.width <= b.tex_x
    ||| b.tex_x + b.width <= a.tex_x
    ||| a.tex_y + a.height <= b.tex_y
    ||| b.tex_y + b.height <= a.tex_y
}

/// The rectangle of a glyph lies inside an atlas of `w` x `h` pixels.
pub open spec fn inside(b: BitmapChar, w: int, h: int) -> bool {
    &&& 0 <= b.width
    &&& 0 <= b.height
    &&& 0 <= b.tex_x
    &&& b.tex_x + b.width <= w
    &&& 0 <= b.tex_y
    &&& b.tex_y + b.height <= h
}

pub proof fn lemma_aggregates(gs: Seq<GlyphBitmap>)
    requires
        forall|i: int| 0 <= i < gs.len() ==> (#[trigger] gs[i]).wf(),
    ensures
        0 <= sum_width(gs),
        0 <= max_width(gs) <= sum_width(gs),
        0 <= box_height(gs),
        forall|i: int| 0 <= i < gs.len() ==> (#[trigger] gs[i]).width <= max_width(gs),
        forall|i: int| 0 <= i < gs.len() ==> (#[trigger] gs[i]).height <= box_height(gs),
    decreases gs.len(),
{
    if gs.len() > 0 {
        let p = gs.drop_last();
        assert forall|i: int| 0 <= i < p.len() implies (#[trigger] p[i]).wf() by {
            assert(p[i] == gs[i]);
        }
        lemma_aggregates(p);
        assert forall|i: int| 0 <= i < gs.len() implies (#[trigger] gs[i]).width <= max_width(gs)
            && gs[i].height <= box_height(gs) by {
            if i < p.len() {
                assert(p[i] == gs[i]);
            }
        }
    }
}

pub proof fn lemma_sqrt_below(r: nat, x: nat, s: nat)
    requires
        s * s <= x < (s + 1) * (s + 1),
        s <= r,
    ensures
        sqrt_below(r, x) == s,
    decreases r,
{
    if r > s {
        assert(r * r >= (s + 1) * (s + 1)) by (nonlinear_arith)
            requires r >= s + 1;
        lemma_sqrt_below((r - 1) as nat, x, s);
    }
}

/// `floor(sqrt(x))` for `x < 2^32`.
pub(crate) fn floor_sqrt_u64(x: u64) -> (r: u64)
    requires
        x < 0x1_0000_0000,
    ensures
        r == floor_sqrt(x as nat),
        r * r <= x < (r + 1) * (r + 1),
        r < 0x1_0000,
{
    let mut r: u64 = 0;
    loop
        invariant
            r * r <= x,
            x < 0x1_0000_0000,
            r < 0x1_0000,
        ensures
            r * r <= x < (r + 1) * (r + 1),
            r < 0x1_0000,
        decreases 0x1_0000 - r,
    {
        let n1 = r + 1;
        assert(n1 * n1 <= 0x1_0000_0000) by (nonlinear_arith)
            requires n1 <= 0x1_0000;
        if n1 * n1 > x {
            break;
        }
        assert(n1 < 0x1_0000) by (nonlinear_arith)
            requires n1 * n1 <= x, x < 0x1_0000_0000;
        r = n1;
    }
    proof {
        assert(r <= x) by (nonlinear_arith)
            requires r * r <= x;
        lemma_sqrt_below(x as nat, x as nat, r as nat);
    }
    r
}

pub proof fn lemma_cursor_step(gs: Seq<GlyphBitmap>, w: int, n: int)
    requires
        0 <= n,
    ensures
        shelf_cursor(gs, w, n + 1).1 == shelf_cursor(gs, w, n).1 ==> shelf_cursor(gs, w, n + 1).0
            == shelf_cursor(gs, w, n).0 + gs[n].width,
        shelf_cursor(gs, w, n + 1).1 == shelf_cursor(gs, w, n).1 || shelf_cursor(gs, w, n + 1).1
            == shelf_cursor(gs, w, n).1 + 1,
        shelf_origin(gs, w, n).1 == shelf_cursor(gs, w, n).1 ==> shelf_origin(gs, w, n).0
            == shelf_cursor(gs, w, n).0,
        shelf_origin(gs, w, n).1 == shelf_cursor(gs, w, n).1 || (shelf_origin(gs, w, n).1
            == shelf_cursor(gs, w, n).1 + 1 && shelf_origin(gs, w, n).0 == 0),
{
}

/// The cursor moves forward: to a later row, or further right on the same row.
pub proof fn lemma_cursor_monotone(gs: Seq<GlyphBitmap>, w: int, i: int, n: int)
    requires
        0 <= i <= n <= gs.len(),
        forall|k: int| 0 <= k < gs.len() ==> (#[trigger] gs[k]).wf(),
    ensures
        shelf_cursor(gs, w, i).1 <= shelf_cursor(gs, w, n).1,
        shelf_cursor(gs, w, i).1 == shelf_cursor(gs, w, n).1 ==> shelf_cursor(gs, w, i).0
            <= shelf_cursor(gs, w, n).0,
    decreases n - i,
{
    if i < n {
        lemma_cursor_monotone(gs, w, i, n - 1);
        lemma_cursor_step(gs, w, n - 1);
        assert(gs[n - 1].wf());
    }
}

/// Two glyphs placed in order lie on different rows, or side by side.
pub proof fn lemma_origins_apart(gs: Seq<GlyphBitmap>, w: int, i: int, j: int)
    requires
        0 <= i < j < gs.len(),
        forall|k: int| 0 <= k < gs.len() ==> (#[trigger] gs[k]).wf(),
    ensures
        shelf_origin(gs, w, i).1 < shelf_origin(gs, w, j).1 || (shelf_origin(gs, w, i).1
            == shelf_origin(gs, w, j).1 && shelf_origin(gs, w, i).0 + gs[i].width
            <= shelf_origin(gs, w, j).0),
{
    lemma_cursor_monotone(gs, w, i + 1, j);
    lemma_cursor_step(gs, w, j);
}

/// In rows at least as wide as every glyph, each glyph fits its row.
pub proof fn lemma_origin_bounds(gs: Seq<GlyphBitmap>, w: int, i: int)
    requires
        0 <= i < gs.len(),
        forall|k: int| 0 <= k < gs.len() ==> (#[trigger] gs[k]).wf(),
        forall|k: int| 0 <= k < gs.len() ==> (#[trigger] gs[k]).width <= w,
    ensures
        0 <= shelf_origin(gs, w, i).0,
        shelf_origin(gs, w, i).0 + gs[i].width <= w,
        0 <= shelf_origin(gs, w, i).1 <= shelf_cursor(gs, w, gs.len() as int).1,
        0 <= shelf_cursor(gs, w, i).0 <= w,
        0 <= shelf_cursor(gs, w, i).1 <= i,
    decreases i,
{
    assert(gs[i].wf());
    if i > 0 {
        lemma_origin_bounds(gs, w, i - 1);
        lemma_cursor_step(gs, w, i - 1);
    }
    lemma_cursor_step(gs, w, i);
    lemma_cursor_monotone(gs, w, i + 1, gs.len() as int);
}

pub proof fn lemma_sqrt_below_at_least(r: nat, x: nat, k: nat)
    requires
        k <= r,
        k * k <= x,
    ensures
        sqrt_below(r, x) >= k,
    decreases r,
{
    if !(r == 0 || r * r <= x) {
        lemma_sqrt_below_at_least((r - 1) as nat, x, k);
    }
}

/// Consecutive glyphs stay on a row, or the second opens the next row at column 0;
/// on the same row the second starts where the first ends.
pub proof fn lemma_origin_step(gs: Seq<GlyphBitmap>, w: int, k: int)
    requires
        0 <= k,
    ensures
        shelf_origin(gs, w, k + 1).1 == shelf_origin(gs, w, k).1 ==> shelf_origin(gs, w, k + 1).0
            == shelf_origin(gs, w, k).0 + gs[k].width,
        shelf_origin(gs, w, k + 1).1 == shelf_origin(gs, w, k).1 || (shelf_origin(gs, w, k + 1).1
            == shelf_origin(gs, w, k).1 + 1 && shelf_origin(gs, w, k + 1).0 == 0),
        shelf_origin(gs, w, 0) == (0int, 0int) || shelf_origin(gs, w, 0) == (0int, 1int),
{
    lemma_cursor_step(gs, w, k + 1);
    lemma_cursor_step(gs, w, 0);
}

/// Glyph rectangles on rows `ri` and `rj` of height `bh` cannot meet vertically.
pub proof fn lemma_rows_apart(ri: int, rj: int, bh: int, h: int)
    requires
        0 <= ri < rj,
        0 <= h <= bh,
    ensures
        ri * bh + h <= rj * bh,
{
    assert(ri * bh + h <= rj * bh) by (nonlinear_arith)
        requires 0 <= ri < rj, 0 <= h <= bh;
}

/// The table that `pack` builds meets the atlas invariant: every rectangle
/// inside the `w` x `h` image, no two sharing a pixel.
pub proof fn lemma_table_wf(gs: Seq<GlyphBitmap>, m: Map<u32, BitmapChar>, w: int, h: int)
    requires
        gs.len() > 0,
        glyphs_wf(gs),
        w == ideal_width(gs),
        w <= 65535,
        h == (shelf_cursor(gs, w, gs.len() as int).1 + 1) * box_height(gs),
        h <= 65535,
        forall|k: int|
            0 <= k < gs.len() ==> m.contains_key(#[trigger] gs[k].ch as u32) && m[gs[k].ch as u32]
                == placed_char(gs, k),
        forall|c: u32| #[trigger] m.contains_key(c) ==> exists|k: int| 0 <= k < gs.len() && gs[k].ch as u32 == c,
    ensures
        forall|c: u32| #[trigger] m.contains_key(c) ==> inside(m[c], w, h),
        forall|c: u32, d: u32|
            m.contains_key(c) && m.contains_key(d) && c != d ==> disjoint(#[trigger] m[c], #[trigger] m[d]),
{
    let n = gs.len() as int;
    assert forall|c: u32| #[trigger] m.contains_key(c) implies inside(m[c], w, h) by {
        let k = choose|k: int| 0 <= k < n && gs[k].ch as u32 == c;
        lemma_placed_inside(gs, w, h, k);
    }
    assert forall|c: u32, d: u32| m.contains_key(c) && m.contains_key(d) && c != d implies disjoint(
        #[trigger] m[c],
        #[trigger] m[d],
    ) by {
        let k = choose|k: int| 0 <= k < n && gs[k].ch as u32 == c;
        let l = choose|l: int| 0 <= l < n && gs[l].ch as u32 == d;
        lemma_placed_disjoint(gs, w, h, k, l);
    }
}

/// Each placed glyph lies inside the atlas.
pub proof fn lemma_placed_inside(gs: Seq<GlyphBitmap>, w: int, h: int, k: int)
    requires
        0 <= k < gs.len(),
        glyphs_wf(gs),
        w == ideal_width(gs),
        w <= 65535,
        h == (shelf_cursor(gs, w, gs.len() as int).1 + 1) * box_height(gs),
        h <= 65535,
    ensures
        inside(placed_char(gs, k), w, h),
{
    let bh = box_height(gs);
    let row = shelf_cursor(gs, w, gs.len() as int).1;
    lemma_aggregates(gs);
    lemma_origin_bounds(gs, w, k);
    lemma_rows_apart(shelf_origin(gs, w, k).1, row + 1, bh, gs[k].height as int);
}

/// Two different placed glyphs share no pixel.
pub proof fn lemma_placed_disjoint(gs: Seq<GlyphBitmap>, w: int, h: int, k: int, l: int)
    requires
        0 <= k < gs.len(),
        0 <= l < gs.len(),
        k != l,
        glyphs_wf(gs),
        w == ideal_width(gs),
        w <= 65535,
        h == (shelf_cursor(gs, w, gs.len() as int).1 + 1) * box_height(gs),
        h <= 65535,
    ensures
        disjoint(placed_char(gs, k), placed_char(gs, l)),
{
    let bh = box_height(gs);
    let row = shelf_cursor(gs, w, gs.len() as int).1;
    lemma_aggregates(gs);
    lemma_origin_bounds(gs, w, k);
    lemma_origin_bounds(gs, w, l);
    lemma_rows_apart(shelf_origin(gs, w, k).1, row + 1, bh, gs[k].height as int);
    lemma_rows_apart(shelf_origin(gs, w, l).1, row + 1, bh, gs[l].height as int);
    if k < l {
        lemma_origins_apart(gs, w, k, l);
        if shelf_origin(gs, w, k).1 < shelf_origin(gs, w, l).1 {
            lemma_rows_apart(shelf_origin(gs, w, k).1, shelf_origin(gs, w, l).1, bh, gs[k].height as int);
        }
    } else {
        lemma_origins_apart(gs, w, l, k);
        if shelf_origin(gs, w, l).1 < shelf_origin(gs, w, k).1 {
            lemma_rows_apart(shelf_origin(gs, w, l).1, shelf_origin(gs, w, k).1, bh, gs[l].height as int);
        }
    }
}

/// Index of column `c` of row `r` in rows of `w` bytes.
pub open spec fn at(r: int, c: int, w: int) -> int {
    r * w + c
}

pub proof fn lemma_row_index(r: int, c: int, w: int, rows: int)
    requires
        0 <= r < rows,
        0 <= c < w,
    ensures
        0 <= r * w + c < rows * w,
        r * w + c < (r + 1) * w,
        r * w <= r * w + c,
{
    assert(0 <= r * w + c < rows * w) by (nonlinear_arith)
        requires 0 <= r < rows, 0 <= c < w;
    assert(r * w + c < (r + 1) * w) by (nonlinear_arith)
        requires 0 <= c < w;
}

/// Glyph `i`, packed in rows `w` wide and `bh` tall, covers pixel `(x, y)`.
pub open spec fn covers(gs: Seq<GlyphBitmap>, w: int, bh: int, i: int, x: int, y: int) -> bool {
    let o = shelf_origin(gs, w, i);
    &&& o.0 <= x < o.0 + gs[i].width
    &&& o.1 * bh <= y < o.1 * bh + gs[i].height
}

/// The pixel of glyph `i` that lands on `(x, y)`.
pub open spec fn glyph_pixel(gs: Seq<GlyphBitmap>, w: int, bh: int, i: int, x: int, y: int) -> u8 {
    let o = shelf_origin(gs, w, i);
    gs[i].data@[at(y - o.1 * bh, x - o.0, gs[i].width as int)]
}

/// The pixel at `(x, y)` from the first of glyphs `i..` covering it, or 0.
pub open spec fn pixel_from(gs: Seq<GlyphBitmap>, w: int, bh: int, x: int, y: int, i: int) -> u8
    decreases gs.len() - i,
{
    if i >= gs.len() || i < 0 {
        0
    } else if covers(gs, w, bh, i, x, y) {
        glyph_pixel(gs, w, bh, i, x, y)
    } else {
        pixel_from(gs, w, bh, x, y, i + 1)
    }
}

/// The byte of the atlas image at column `x`, row `y`: the pixel of the glyph
/// whose rectangle holds it, or 0 where no glyph lies.
pub open spec fn atlas_pixel(gs: Seq<GlyphBitmap>, x: int, y: int) -> u8 {
    pixel_from(gs, ideal_width(gs), box_height(gs), x, y, 0)
}

/// The first `len` bytes of the atlas image, row-major, `w` bytes a row.
pub open spec fn image_prefix(gs: Seq<GlyphBitmap>, w: int, img: Seq<u8>) -> bool {
    forall|q: int| 0 <= q < img.len() ==> #[trigger] img[q] == atlas_pixel(gs, q % w, q / w)
}

pub proof fn lemma_pixel_only(gs: Seq<GlyphBitmap>, w: int, bh: int, x: int, y: int, g: int, i: int)
    requires
        0 <= i <= g < gs.len(),
        covers(gs, w, bh, g, x, y),
        forall|j: int| 0 <= j < gs.len() && j != g ==> !covers(gs, w, bh, j, x, y),
    ensures
        pixel_from(gs, w, bh, x, y, i) == glyph_pixel(gs, w, bh, g, x, y),
    decreases g - i,
{
    if i < g {
        lemma_pixel_only(gs, w, bh, x, y, g, i + 1);
    }
}

pub proof fn lemma_pixel_none(gs: Seq<GlyphBitmap>, w: int, bh: int, x: int, y: int, i: int)
    requires
        0 <= i <= gs.len(),
        forall|j: int| 0 <= j < gs.len() ==> !covers(gs, w, bh, j, x, y),
    ensures
        pixel_from(gs, w, bh, x, y, i) == 0,
    decreases gs.len() - i,
{
    if i < gs.len() {
        lemma_pixel_none(gs, w, bh, x, y, i + 1);
    }
}

/// A pixel on row band `r` (rows `r * bh .. (r + 1) * bh`) and inside the
/// column span of glyph `g` of that row is covered by no other glyph.
pub proof fn lemma_no_other_cover(gs: Seq<GlyphBitmap>, w: int, bh: int, g: int, x: int, y: int)
    requires
        bh >= 0,
        0 <= g < gs.len(),
        forall|k: int| 0 <= k < gs.len() ==> (#[trigger] gs[k]).wf(),
        forall|k: int| 0 <= k < gs.len() ==> (#[trigger] gs[k]).height <= bh,
        shelf_origin(gs, w, g).1 >= 0,
        shelf_origin(gs, w, g).0 <= x < shelf_origin(gs, w, g).0 + gs[g].width,
        shelf_origin(gs, w, g).1 * bh <= y < shelf_origin(gs, w, g).1 * bh + bh,
    ensures
        forall|j: int| 0 <= j < gs.len() && j != g ==> !covers(gs, w, bh, j, x, y),
{
    assert forall|j: int| 0 <= j < gs.len() && j != g implies !covers(gs, w, bh, j, x, y) by {
        let rg = shelf_origin(gs, w, g).1;
        let rj = shelf_origin(gs, w, j).1;
        lemma_cursor_monotone(gs, w, 0, j);
        lemma_cursor_step(gs, w, j);
        if j < g {
            lemma_origins_apart(gs, w, j, g);
        } else {
            lemma_origins_apart(gs, w, g, j);
        }
        if rj < rg {
            lemma_rows_apart(rj, rg, bh, gs[j].height as int);
        } else if rg < rj {
            lemma_rows_apart(rg, rj, bh, bh);
        }
    }
}

/// A pixel on row band `r` right of the last glyph `e` of that row is
/// covered by no glyph.
pub proof fn lemma_no_cover_right(gs: Seq<GlyphBitmap>, w: int, bh: int, e: int, x: int, y: int)
    requires
        bh >= 0,
        0 <= e < gs.len(),
        e + 1 < gs.len() ==> shelf_origin(gs, w, e + 1).1 > shelf_origin(gs, w, e).1,
        forall|k: int| 0 <= k < gs.len() ==> (#[trigger] gs[k]).wf(),
        forall|k: int| 0 <= k < gs.len() ==> (#[trigger] gs[k]).height <= bh,
        shelf_origin(gs, w, e).1 >= 0,
        shelf_origin(gs, w, e).0 + gs[e].width <= x,
        shelf_origin(gs, w, e).1 * bh <= y < shelf_origin(gs, w, e).1 * bh + bh,
    ensures
        forall|j: int| 0 <= j < gs.len() ==> !covers(gs, w, bh, j, x, y),
{
    assert forall|j: int| 0 <= j < gs.len() implies !covers(gs, w, bh, j, x, y) by {
        let re = shelf_origin(gs, w, e).1;
        let rj = shelf_origin(gs, w, j).1;
        lemma_cursor_monotone(gs, w, 0, j);
        lemma_cursor_step(gs, w, j);
        if j < e {
            lemma_origins_apart(gs, w, j, e);
        } else if j > e {
            lemma_origins_apart(gs, w, e, j);
            if j > e + 1 {
                lemma_origins_apart(gs, w, e + 1, j);
            }
        }
        if rj < re {
            lemma_rows_apart(rj, re, bh, gs[j].height as int);
        } else if re < rj {
            lemma_rows_apart(re, rj, bh, bh);
        }
    }
}

/// Pushing the atlas pixel that belongs at the end keeps an image prefix.
pub proof fn lemma_push_pixel(gs: Seq<GlyphBitmap>, w: int, img: Seq<u8>, row: int, col: int, v: u8)
    requires
        image_prefix(gs, w, img),
        0 <= col < w,
        img.len() == row * w + col,
        v == atlas_pixel(gs, col, row),
    ensures
        image_prefix(gs, w, img.push(v)),
{
    lemma_fundamental_div_mod_converse(img.len() as int, w, row, col);
    assert forall|q: int| 0 <= q < img.push(v).len() implies #[trigger] img.push(v)[q] == atlas_pixel(
        gs,
        q % w,
        q / w,
    ) by {
        if q < img.len() {
            assert(img.push(v)[q] == img[q]);
        }
    }
}

} // verus!
