use gfx_text::{
    grow_buffer_size, BitmapFont, GlyphBitmap, HorizontalAnchor, Renderer, VerticalAnchor,
};

type Color = [f32; 4];
type World = [f32; 3];

const RED: Color = [1.0, 0.0, 0.0, 1.0];

fn glyph(ch: char, x_offset: i32, y_offset: i32, x_advance: i32, width: i32, height: i32) -> GlyphBitmap {
    GlyphBitmap { ch, x_offset, y_offset, x_advance, width, height, data: vec![255; (width * height) as usize] }
}

fn renderer() -> Renderer<Color, World> {
    let font = BitmapFont::pack(vec![glyph('a', 1, 2, 5, 3, 4), glyph('b', 0, 1, 6, 4, 6)]).unwrap();
    Renderer::from_font(font)
}

fn positions(r: &Renderer<Color, World>) -> Vec<[i64; 2]> {
    r.vertex_data().iter().map(|v| v.pos).collect()
}

#[test]
fn measure_of_empty_string_is_zero() {
    assert_eq!(renderer().measure(""), (0, 0));
}

#[test]
fn measure_is_total_advance_and_tallest_glyph() {
    let r = renderer();
    // advances 5 + 6; tallest y_offset + height is 1 + 6
    assert_eq!(r.measure("ab"), (11, 7));
    assert_eq!(r.measure("a"), (5, 6));
    // characters the atlas lacks are skipped
    assert_eq!(r.measure("a?b"), (11, 7));
    assert_eq!(r.measure("??"), (0, 0));
}

#[test]
fn measured_width_adds_over_concatenation() {
    let r = renderer();
    let (wa, _) = r.measure("ab");
    let (wb, _) = r.measure("ba?a");
    let (wab, _) = r.measure("abba?a");
    assert_eq!(wab, wa + wb);
    let zero_width = BitmapFont::pack(vec![glyph('z', 0, 0, 5, 0, 0)]).unwrap();
    let z: Renderer<Color, World> = Renderer::from_font(zero_width);
    assert_eq!(z.measure("z"), (5, 0));
    assert_eq!(z.measure("zz"), (10, 0));
}

#[test]
fn add_emits_four_vertices_and_six_indices_per_char() {
    let mut r = renderer();
    r.add("abab", [10, 20], RED);
    assert_eq!(r.vertex_data().len(), 16);
    assert_eq!(r.index_data().len(), 24);
    assert!(r.index_data().iter().all(|&i| i < 16));
    assert_eq!(&r.index_data()[0..6], &[0, 1, 3, 3, 1, 2]);
    assert_eq!(&r.index_data()[6..12], &[4, 5, 7, 7, 5, 6]);
    // second batch indexes past the first
    r.add("a", [0, 0], RED);
    assert_eq!(&r.index_data()[24..30], &[16, 17, 19, 19, 17, 18]);
}

#[test]
fn add_places_quads_at_cursor() {
    let mut r = renderer();
    r.add("ab", [10, 20], RED);
    let p = positions(&r);
    // 'a' at (10 + 1, 20 + 2), 3 x 4
    assert_eq!(&p[0..4], &[[11, 22], [11, 26], [14, 26], [14, 22]]);
    // 'b' after an advance of 5: (15 + 0, 20 + 1), 4 x 6
    assert_eq!(&p[4..8], &[[15, 21], [15, 27], [19, 27], [19, 21]]);
    let v = &r.vertex_data()[0];
    assert!(v.screen_rel());
    assert_eq!(v.color, RED);
    assert_eq!(v.world_pos, None);
}

#[test]
fn add_samples_the_glyph_rectangle() {
    let mut r = renderer();
    r.add("b", [0, 0], RED);
    let b = *r.font_bitmap().find_char('b').unwrap();
    let tex: Vec<[i32; 2]> = r.vertex_data().iter().map(|v| v.tex).collect();
    let (u0, v0, u1, v1) = (b.tex_x, b.tex_y, b.tex_x + 4, b.tex_y + 6);
    assert_eq!(tex, vec![[u0, v0], [u0, v1], [u1, v1], [u1, v0]]);
}

#[test]
fn add_skips_unknown_chars() {
    let mut r = renderer();
    r.add("?a?", [0, 0], RED);
    assert_eq!(r.vertex_data().len(), 4);
    assert_eq!(r.index_data().len(), 6);
    assert_eq!(positions(&r)[0], [1, 2]);
}

#[test]
fn add_at_tags_world_text() {
    let mut r = renderer();
    r.add_at("a", [1.0, 2.0, 3.0], RED);
    let v = &r.vertex_data()[0];
    assert!(!v.screen_rel());
    assert_eq!(v.world_pos, Some([1.0, 2.0, 3.0]));
    assert_eq!(v.pos, [1, 2]);
}

#[test]
fn anchored_left_top_equals_add() {
    let mut a = renderer();
    let mut b = renderer();
    a.add_anchored("abba", [7, -3], HorizontalAnchor::Left, VerticalAnchor::Top, RED);
    b.add("abba", [7, -3], RED);
    assert_eq!(positions(&a), positions(&b));
    assert_eq!(a.index_data(), b.index_data());
}

#[test]
fn anchored_center_shifts_by_half_the_measure() {
    let mut a = renderer();
    let mut b = renderer();
    let (w, h) = a.measure("ab");
    a.add_anchored("ab", [100, 50], HorizontalAnchor::Center, VerticalAnchor::Center, RED);
    b.add("ab", [100, 50], RED);
    let pa = positions(&a);
    let pb = positions(&b);
    assert_eq!(pa.len(), pb.len());
    for (x, y) in pa.iter().zip(pb.iter()) {
        assert_eq!(x[0], y[0] - w / 2);
        assert_eq!(x[1], y[1] - h / 2);
    }
    // (11, 7): halves 5 and 3
    assert_eq!(pa[0], [100 - 5 + 1, 50 - 3 + 2]);
}

#[test]
fn anchored_right_bottom_shifts_by_the_measure() {
    let mut a = renderer();
    a.add_anchored("ab", [100, 50], HorizontalAnchor::Right, VerticalAnchor::Bottom, RED);
    assert_eq!(positions(&a)[0], [100 - 11 + 1, 50 - 7 + 2]);
}

#[test]
fn flush_with_nothing_pending_reallocates_nothing() {
    let r = renderer();
    let plan = r.plan_draw(128, 128);
    assert_eq!(plan.vertex_buffer_len, None);
    assert_eq!(plan.index_buffer_len, None);
    assert_eq!(plan.index_count, 0);
}

#[test]
fn flush_grows_small_buffers() {
    let mut r = renderer();
    r.add("abababab", [0, 0], RED);
    // 32 vertices, 48 indices
    let plan = r.plan_draw(32, 20);
    assert_eq!(plan.vertex_buffer_len, None);
    assert_eq!(plan.index_buffer_len, Some(80));
    assert_eq!(plan.index_count, 48);
    r.clear();
    assert!(r.vertex_data().is_empty());
    assert!(r.index_data().is_empty());
    assert_eq!(r.measure("a"), (5, 6));
}

#[test]
fn grow_doubles_from_at_least_one() {
    assert_eq!(grow_buffer_size(0, 5), 8);
    assert_eq!(grow_buffer_size(128, 128), 128);
    assert_eq!(grow_buffer_size(100, 300), 400);
    assert_eq!(grow_buffer_size(0, 0), 1);
    assert_eq!(grow_buffer_size(300, 100), 300);
    assert_eq!(grow_buffer_size(1, 1025), 2048);
}

#[test]
fn builder_without_font_source_fails() {
    let b: gfx_text::RendererBuilder<Color> = gfx_text::new();
    assert_eq!(b.buffer_size(), 128);
    match b.build::<World>() {
        Err(gfx_text::RendererError::FontError(gfx_text::FontError::NoFont)) => {}
        Err(e) => panic!("expected NoFont, got {:?}", e),
        Ok(_) => panic!("expected NoFont"),
    }
}

#[test]
fn builder_with_empty_character_set_fails() {
    let b: gfx_text::RendererBuilder<Color> = gfx_text::RendererBuilder::new()
        .with_size(20)
        .with_buffer_size(64)
        .with_outline(1, RED)
        .with_font_data(&[0, 1, 2])
        .with_chars(&[]);
    assert_eq!(b.buffer_size(), 64);
    match b.build::<World>() {
        Err(gfx_text::RendererError::FontError(gfx_text::FontError::EmptyFont)) => {}
        Err(e) => panic!("expected EmptyFont, got {:?}", e),
        Ok(_) => panic!("expected EmptyFont"),
    }
}

#[test]
fn builder_with_missing_font_file_fails() {
    let b: gfx_text::RendererBuilder<Color> = gfx_text::RendererBuilder::new().with_font("/nonexistent/font.ttf");
    assert!(matches!(
        b.build::<World>(),
        Err(gfx_text::RendererError::FontError(gfx_text::FontError::FreetypeError(_)))
    ));
}

#[test]
fn font_path_wins_over_font_bytes() {
    let data = [1u8, 2, 3];
    let both: gfx_text::RendererBuilder<Color> =
        gfx_text::RendererBuilder::new().with_font_data(&data).with_font("/fonts/a.ttf");
    assert!(matches!(both.font_source(), gfx_text::FontSource::File("/fonts/a.ttf")));
    let bytes: gfx_text::RendererBuilder<Color> = gfx_text::RendererBuilder::new().with_font_data(&data);
    match bytes.font_source() {
        gfx_text::FontSource::Memory(d) => assert_eq!(d, &data[..]),
        other => panic!("expected the font bytes, got {:?}", other),
    }
    let none: gfx_text::RendererBuilder<Color> = gfx_text::RendererBuilder::new();
    assert!(matches!(none.font_source(), gfx_text::FontSource::Missing));
}
