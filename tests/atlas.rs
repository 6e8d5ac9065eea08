use gfx_text::{BitmapChar, BitmapFont, FontError, GlyphBitmap, SlotBitmap};

fn glyph(ch: char, width: i32, height: i32, fill: u8) -> GlyphBitmap {
    let mut data = Vec::new();
    for r in 0..height {
        for c in 0..width {
            data.push(fill.wrapping_add((r * width + c) as u8));
        }
    }
    GlyphBitmap { ch, x_offset: 1, y_offset: 2, x_advance: width + 1, width, height, data }
}

fn sample_glyphs() -> Vec<GlyphBitmap> {
    vec![glyph('a', 3, 4, 10), glyph('b', 5, 2, 50), glyph('c', 2, 3, 100)]
}

fn rect(b: &BitmapChar) -> (i32, i32, i32, i32) {
    (b.tex_x, b.tex_y, b.tex_x + b.width, b.tex_y + b.height)
}

#[test]
fn pack_empty_set_is_an_error() {
    match BitmapFont::pack(Vec::new()) {
        Err(FontError::EmptyFont) => {}
        other => panic!("expected EmptyFont, got {:?}", other.map(|_| ())),
    }
}

#[test]
fn pack_uses_shelf_layout() {
    let font = BitmapFont::pack(sample_glyphs()).unwrap();
    // sum of widths 10, tallest 4: floor(sqrt(40)) = 6, wider than the widest glyph (5)
    assert_eq!(font.get_width(), 6);
    // 'a' fills row 0, 'b' (5 wide) and 'c' each open a new row of height 4
    assert_eq!(font.get_height(), 12);
    let a = font.find_char('a').unwrap();
    let b = font.find_char('b').unwrap();
    let c = font.find_char('c').unwrap();
    assert_eq!((a.tex_x, a.tex_y), (0, 0));
    assert_eq!((b.tex_x, b.tex_y), (0, 4));
    assert_eq!((c.tex_x, c.tex_y), (0, 8));
    assert_eq!((a.x_offset, a.y_offset, a.x_advance, a.width, a.height), (1, 2, 4, 3, 4));
    assert!(font.find_char('z').is_none());
}

#[test]
fn pack_shares_rows_when_glyphs_fit() {
    let glyphs = vec![glyph('x', 2, 2, 0), glyph('y', 2, 2, 0), glyph('z', 2, 2, 0), glyph('w', 2, 2, 0)];
    let font = BitmapFont::pack(glyphs).unwrap();
    // sum 8, height 2: floor(sqrt(16)) = 4
    assert_eq!(font.get_width(), 4);
    assert_eq!(font.get_height(), 4);
    let pos: Vec<(i32, i32)> = ['x', 'y', 'z', 'w']
        .iter()
        .map(|&ch| {
            let b = font.find_char(ch).unwrap();
            (b.tex_x, b.tex_y)
        })
        .collect();
    assert_eq!(pos, vec![(0, 0), (2, 0), (0, 2), (2, 2)]);
}

#[test]
fn glyph_rectangles_do_not_overlap_and_stay_inside() {
    let glyphs = vec![
        glyph('a', 3, 4, 1),
        glyph('b', 5, 2, 2),
        glyph('c', 2, 3, 3),
        glyph(' ', 0, 0, 0),
        glyph('d', 4, 4, 4),
        glyph('e', 1, 1, 5),
    ];
    let font = BitmapFont::pack(glyphs).unwrap();
    let w = font.get_width() as i32;
    let h = font.get_height() as i32;
    let chars = ['a', 'b', 'c', ' ', 'd', 'e'];
    for &p in chars.iter() {
        let r = rect(font.find_char(p).unwrap());
        assert!(r.0 >= 0 && r.1 >= 0 && r.2 <= w && r.3 <= h);
        // normalised texture rectangle within [0, 1]
        assert!((r.2 as f32) / (w as f32) <= 1.0 && (r.3 as f32) / (h as f32) <= 1.0);
        for &q in chars.iter() {
            if p != q {
                let s = rect(font.find_char(q).unwrap());
                assert!(r.2 <= s.0 || s.2 <= r.0 || r.3 <= s.1 || s.3 <= r.1, "{} and {} overlap", p, q);
            }
        }
    }
}

#[test]
fn atlas_image_holds_glyph_pixels_and_zero_padding() {
    let glyphs = sample_glyphs();
    let font = BitmapFont::pack(glyphs.clone()).unwrap();
    let w = font.get_width() as usize;
    let h = font.get_height() as usize;
    let image = font.get_image();
    assert_eq!(image.len(), w * h);
    let mut covered = vec![false; w * h];
    for g in glyphs.iter() {
        let b = font.find_char(g.ch).unwrap();
        for r in 0..g.height as usize {
            for c in 0..g.width as usize {
                let p = (b.tex_y as usize + r) * w + b.tex_x as usize + c;
                assert_eq!(image[p], g.data[r * g.width as usize + c]);
                covered[p] = true;
            }
        }
    }
    for p in 0..w * h {
        if !covered[p] {
            assert_eq!(image[p], 0);
        }
    }
}

#[test]
fn packing_twice_gives_the_same_atlas() {
    let a = BitmapFont::pack(sample_glyphs()).unwrap();
    let b = BitmapFont::pack(sample_glyphs()).unwrap();
    assert_eq!(a.get_width(), b.get_width());
    assert_eq!(a.get_height(), b.get_height());
    assert_eq!(a.get_image(), b.get_image());
    for ch in ['a', 'b', 'c'] {
        assert_eq!(a.find_char(ch), b.find_char(ch));
    }
}

#[test]
fn atlas_too_wide_is_refused() {
    let wide = GlyphBitmap { ch: 'w', x_offset: 0, y_offset: 0, x_advance: 0, width: 70000, height: 0, data: Vec::new() };
    match BitmapFont::pack(vec![wide]) {
        Err(FontError::TooLarge) => {}
        other => panic!("expected TooLarge, got {:?}", other.map(|_| ())),
    }
}

#[test]
fn slot_rows_lose_their_padding() {
    let slot = SlotBitmap {
        width: 2,
        rows: 2,
        pitch: 4,
        buffer: vec![1, 2, 9, 9, 3, 4, 9, 9],
        left: -1,
        top: 12,
        advance_x: 7 * 64 + 10,
    };
    let g = BitmapFont::glyph_from_slot('q', 16, &slot).unwrap();
    assert_eq!(g.data, vec![1, 2, 3, 4]);
    assert_eq!((g.x_offset, g.y_offset, g.x_advance), (-1, 4, 7));
    assert_eq!((g.width, g.height, g.ch), (2, 2, 'q'));
}

#[test]
fn slot_advance_rounds_down() {
    let slot = SlotBitmap { width: 0, rows: 0, pitch: 0, buffer: Vec::new(), left: 0, top: 0, advance_x: -65 };
    let g = BitmapFont::glyph_from_slot(' ', 10, &slot).unwrap();
    assert_eq!(g.x_advance, -2);
    assert_eq!(g.y_offset, 10);
}

#[test]
fn slot_with_short_buffer_is_refused() {
    let slot = SlotBitmap { width: 2, rows: 2, pitch: 2, buffer: vec![1, 2, 3], left: 0, top: 0, advance_x: 0 };
    assert!(matches!(BitmapFont::glyph_from_slot('q', 16, &slot), Err(FontError::BadGlyph)));
    let narrow = SlotBitmap { width: 3, rows: 1, pitch: 2, buffer: vec![1, 2, 3], left: 0, top: 0, advance_x: 0 };
    assert!(matches!(BitmapFont::glyph_from_slot('q', 16, &narrow), Err(FontError::BadGlyph)));
}

#[test]
fn character_set_is_deduplicated_in_order() {
    assert_eq!(gfx_text::unique_chars(&['b', 'a', 'b', 'c', 'a']), vec!['b', 'a', 'c']);
    assert_eq!(gfx_text::unique_chars(&[]), Vec::<char>::new());
}

#[test]
fn charmap_codes_become_chars() {
    let codes: Vec<usize> = vec![0x41, 0xD800, 0x1F600, 0x1_0000_0000, 0x62];
    assert_eq!(gfx_text::chars_from_codes(&codes), vec!['A', '\u{1F600}', 'b']);
}

#[test]
fn empty_character_set_fails_before_loading() {
    match BitmapFont::from_bytes(&[1, 2, 3], 16, Some(&[])) {
        Err(FontError::EmptyFont) => {}
        other => panic!("expected EmptyFont, got {:?}", other.map(|_| ())),
    }
    match BitmapFont::from_path("/nonexistent/font.ttf", 16, Some(&[])) {
        Err(FontError::EmptyFont) => {}
        other => panic!("expected EmptyFont, got {:?}", other.map(|_| ())),
    }
}

#[test]
fn unreadable_font_is_a_freetype_error() {
    match BitmapFont::from_bytes(&[1, 2, 3, 4], 16, Some(&['a'])) {
        Err(FontError::FreetypeError(_)) => {}
        other => panic!("expected a FreeType error, got {:?}", other.map(|_| ())),
    }
    match BitmapFont::from_path("/nonexistent/font.ttf", 16, None) {
        Err(FontError::FreetypeError(_)) => {}
        other => panic!("expected a FreeType error, got {:?}", other.map(|_| ())),
    }
}
