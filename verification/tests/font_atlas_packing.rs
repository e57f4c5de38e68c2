use vulkan_ubershader_ui_demo::font_atlas::{
    default_atlas_chars, pack_font_atlas, FontAtlas, GlyphBitmap, RasterizedGlyph, FORMAT_R8_UNORM,
    FORMAT_UNDEFINED,
};

fn glyph(c: char, w: u32, h: u32, pixels: Vec<u8>, adv: f32) -> RasterizedGlyph {
    RasterizedGlyph {
        char_code: c,
        advance_width_bits: adv.to_bits(),
        outline: Some(GlyphBitmap { width: w, height: h, pixels }),
    }
}

fn blank(c: char, adv: f32) -> RasterizedGlyph {
    RasterizedGlyph { char_code: c, advance_width_bits: adv.to_bits(), outline: None }
}

fn entry(atlas: &FontAtlas, c: char) -> (u32, u32, u32, u32, f32) {
    let g = atlas.glyphs.iter().find(|g| g.char_code == c).expect("glyph entry");
    (g.atlas_x, g.atlas_y, g.width, g.height, f32::from_bits(g.advance_width_bits))
}

#[test]
fn formats_match_ash() {
    assert_eq!(FORMAT_R8_UNORM, ash::vk::Format::R8_UNORM.as_raw());
    assert_eq!(FORMAT_UNDEFINED, ash::vk::Format::UNDEFINED.as_raw());
}

#[test]
fn default_chars_are_printable_ascii() {
    let chars = default_atlas_chars();
    assert_eq!(chars.len(), 95);
    assert_eq!(chars[0], ' ');
    assert_eq!(chars[33], 'A');
    assert_eq!(chars[94], '~');
    let expected: Vec<char> = (32u8..=126u8).map(|c| c as char).collect();
    assert_eq!(chars, expected);
}

#[test]
fn empty_atlas_has_nothing() {
    let a = FontAtlas::new();
    assert!(a.texture_data.is_empty());
    assert_eq!((a.width, a.height, a.format), (0, 0, FORMAT_UNDEFINED));
    assert!(a.glyphs.is_empty());
}

#[test]
fn glyphs_are_packed_side_by_side() {
    let a_glyph = glyph('a', 2, 2, vec![1, 2, 3, 4], 5.5);
    let b_glyph = glyph('b', 1, 3, vec![7, 8, 9], 4.0);
    let atlas = pack_font_atlas(vec![a_glyph, blank(' ', 3.25), b_glyph]).unwrap();
    assert_eq!((atlas.width, atlas.height), (5, 3));
    assert_eq!(atlas.format, FORMAT_R8_UNORM);
    let expected: Vec<u8> = vec![
        1, 2, 0, 7, 0,
        3, 4, 0, 8, 0,
        0, 0, 0, 9, 0,
    ];
    assert_eq!(atlas.texture_data, expected);
    assert_eq!(atlas.glyphs.len(), 3);
    assert_eq!(entry(&atlas, 'a'), (0, 0, 2, 2, 5.5));
    assert_eq!(entry(&atlas, ' '), (3, 0, 0, 0, 3.25));
    assert_eq!(entry(&atlas, 'b'), (3, 0, 1, 3, 4.0));
}

#[test]
fn short_bitmaps_leave_zeros() {
    let atlas = pack_font_atlas(vec![glyph('x', 2, 2, vec![5, 6, 7], 1.0)]).unwrap();
    assert_eq!((atlas.width, atlas.height), (3, 2));
    assert_eq!(atlas.texture_data, vec![5, 6, 0, 7, 0, 0]);
}

#[test]
fn a_repeated_character_keeps_its_last_glyph() {
    let first = glyph('q', 1, 1, vec![10], 1.0);
    let second = glyph('q', 2, 1, vec![20, 30], 2.0);
    let atlas = pack_font_atlas(vec![first, second]).unwrap();
    assert_eq!((atlas.width, atlas.height), (5, 1));
    assert_eq!(atlas.texture_data, vec![10, 0, 20, 30, 0]);
    assert_eq!(atlas.glyphs.len(), 1);
    assert_eq!(entry(&atlas, 'q'), (2, 0, 2, 1, 2.0));
}

#[test]
fn zero_width_outline_reserves_a_column_but_does_not_advance() {
    let atlas = pack_font_atlas(vec![glyph('.', 0, 0, vec![], 1.0), glyph('i', 1, 2, vec![3, 4], 2.0)]).unwrap();
    assert_eq!((atlas.width, atlas.height), (3, 2));
    assert_eq!(atlas.texture_data, vec![3, 0, 0, 4, 0, 0]);
    assert_eq!(entry(&atlas, '.'), (0, 0, 0, 0, 1.0));
    assert_eq!(entry(&atlas, 'i'), (0, 0, 1, 2, 2.0));
}

#[test]
fn no_renderable_glyphs_give_the_empty_atlas() {
    let atlas = pack_font_atlas(vec![blank(' ', 8.0), blank('\t', 0.0)]).unwrap();
    assert!(atlas.texture_data.is_empty());
    assert_eq!((atlas.width, atlas.height, atlas.format), (0, 0, FORMAT_UNDEFINED));
    assert!(atlas.glyphs.is_empty());
    let flat = pack_font_atlas(vec![glyph('-', 3, 0, vec![], 1.0)]).unwrap();
    assert!(flat.texture_data.is_empty());
    assert_eq!((flat.width, flat.height), (0, 0));
    let none = pack_font_atlas(vec![]).unwrap();
    assert!(none.texture_data.is_empty());
}

#[test]
fn packing_twice_gives_the_same_atlas() {
    let make = || vec![glyph('a', 2, 1, vec![1, 2], 1.0), blank(' ', 2.0), glyph('b', 1, 2, vec![3, 4], 3.0)];
    let a = pack_font_atlas(make()).unwrap();
    let b = pack_font_atlas(make()).unwrap();
    assert_eq!((a.width, a.height, a.format), (b.width, b.height, b.format));
    assert_eq!(a.texture_data, b.texture_data);
    assert_eq!(a.glyphs.len(), b.glyphs.len());
}

#[test]
fn visible_glyphs_are_one_column_apart() {
    let atlas = pack_font_atlas(vec![glyph('a', 2, 1, vec![1, 2], 1.0), glyph('b', 3, 1, vec![3, 4, 5], 1.0)]).unwrap();
    let (ax, _, aw, _, _) = entry(&atlas, 'a');
    let (bx, _, bw, _, _) = entry(&atlas, 'b');
    assert_eq!(ax + aw + 1, bx);
    assert!(bx + bw + 1 <= atlas.width);
}
