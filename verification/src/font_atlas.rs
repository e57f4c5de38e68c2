use vstd::prelude::*;
use vstd::arithmetic::div_mod::{lemma_fundamental_div_mod, lemma_fundamental_div_mod_converse};

verus! {

/// Raw value of `VK_FORMAT_UNDEFINED`.
pub const FORMAT_UNDEFINED: i32 = 0;

/// Raw value of `VK_FORMAT_R8_UNORM`, the single-channel format of the atlas.
pub const FORMAT_R8_UNORM: i32 = 9;

/// Where a glyph lies in the atlas texture. The horizontal advance is kept
/// as the bit pattern of the `f32` that the rasteriser reported.
#[derive(Debug, Clone, Copy)]
pub struct GlyphInfo {
    pub char_code: char,
    pub atlas_x: u32,
    pub atlas_y: u32,
    pub width: u32,
    pub height: u32,
    pub advance_width_bits: u32,
}

/// The coverage bitmap of a rasterised glyph, row by row, one byte a pixel.
#[derive(Debug)]
pub struct GlyphBitmap {
    pub width: u32,
    pub height: u32,
    pub pixels: Vec<u8>,
}

/// A character as the rasteriser produced it: its outline bitmap when the
/// glyph has a pixel bounding box, and its advance width (as `f32` bits).
#[derive(Debug)]
pub struct RasterizedGlyph {
    pub char_code: char,
    pub advance_width_bits: u32,
    pub outline: Option<GlyphBitmap>,
}

/// A single-channel texture holding all glyphs side by side, and where each
/// character's glyph lies in it.
pub struct FontAtlas {
    pub texture_data: Vec<u8>,
    pub width: u32,
    pub height: u32,
    pub format: i32,
    pub glyphs: Vec<GlyphInfo>,
}

impl FontAtlas {
    /// The empty atlas: no texture, no glyphs, undefined format.
    pub fn new() -> (r: FontAtlas)
        ensures
            r.texture_data@.len() == 0,
            r.width == 0,
            r.height == 0,
            r.format == FORMAT_UNDEFINED,
            r.glyphs@.len() == 0,
    {
        FontAtlas {
            texture_data: Vec::new(),
            width: 0,
            height: 0,
            format: FORMAT_UNDEFINED,
            glyphs: Vec::new(),
        }
    }
}

/// The characters rendered when no character set is given: printable ASCII,
/// from the space (32) to the tilde (126), in order.
pub open spec fn default_chars_spec() -> Seq<char> {
    Seq::new(95, |i: int| (32 + i) as char)
}

/// Printable ASCII, from the space to the tilde, in order.
pub fn default_atlas_chars() -> (r: Vec<char>)
    ensures
        r@ == default_chars_spec(),
        r@.len() == 95,
        forall|i: int| 0 <= i < 95 ==> #[trigger] r@[i] == (32 + i) as char,
        r@[0] == ' ' && r@[94] == '~',
{
    let mut chars: Vec<char> = Vec::new();
    let mut c: u8 = 32;
    while c <= 126
        invariant
            32 <= c <= 127,
            chars@.len() == c - 32,
            forall|i: int| 0 <= i < chars@.len() ==> chars@[i] == (32 + i) as char,
        decreases 127 - c,
    {
        chars.push(c as char);
        c = c + 1;
    }
    assert(chars@ =~= default_chars_spec());
    chars
}

/// Width of a glyph's outline; 0 for a glyph without one.
pub open spec fn glyph_width(g: RasterizedGlyph) -> int {
    match g.outline {
        Some(b) => b.width as int,
        None => 0,
    }
}

/// Height of a glyph's outline; 0 for a glyph without one.
pub open spec fn glyph_height(g: RasterizedGlyph) -> int {
    match g.outline {
        Some(b) => b.height as int,
        None => 0,
    }
}

/// Columns reserved in the atlas for the first `n` glyphs: each glyph with
/// an outline takes its width plus one column of spacing.
pub open spec fn reserved_width(gs: Seq<RasterizedGlyph>, n: int) -> int
    decreases n,
{
    if n <= 0 {
        0
    } else {
        reserved_width(gs, n - 1) + if gs[n - 1].outline is Some {
            glyph_width(gs[n - 1]) + 1
        } else {
            0
        }
    }
}

/// Tallest outline among the first `n` glyphs (0 when there is none).
pub open spec fn reserved_height(gs: Seq<RasterizedGlyph>, n: int) -> int
    decreases n,
{
    if n <= 0 {
        0
    } else {
        let before = reserved_height(gs, n - 1);
        if glyph_height(gs[n - 1]) > before {
            glyph_height(gs[n - 1])
        } else {
            before
        }
    }
}

/// Column at which glyph `n` is placed: the first `n` glyphs each advance
/// the pen by their width plus one spacing column, when their width is
/// positive.
pub open spec fn pen_x(gs: Seq<RasterizedGlyph>, n: int) -> int
    decreases n,
{
    if n <= 0 {
        0
    } else {
        pen_x(gs, n - 1) + if glyph_width(gs[n - 1]) > 0 {
            glyph_width(gs[n - 1]) + 1
        } else {
            0
        }
    }
}

/// Width of the atlas packed from `gs`.
pub open spec fn atlas_width(gs: Seq<RasterizedGlyph>) -> int {
    reserved_width(gs, gs.len() as int)
}

/// Height of the atlas packed from `gs`.
pub open spec fn atlas_height(gs: Seq<RasterizedGlyph>) -> int {
    reserved_height(gs, gs.len() as int)
}

/// The table entry describing glyph `k` of `gs`.
pub open spec fn placement(gs: Seq<RasterizedGlyph>, k: int) -> GlyphInfo {
    GlyphInfo {
        char_code: gs[k].char_code,
        atlas_x: pen_x(gs, k) as u32,
        atlas_y: 0,
        width: glyph_width(gs[k]) as u32,
        height: glyph_height(gs[k]) as u32,
        advance_width_bits: gs[k].advance_width_bits,
    }
}

/// Glyph `k` is drawn at atlas pixel (`x`, `y`): it has a non-empty outline
/// whose bitmap holds a value for that pixel.
pub open spec fn covers(gs: Seq<RasterizedGlyph>, k: int, x: int, y: int) -> bool {
    &&& 0 <= k < gs.len()
    &&& gs[k].outline is Some
    &&& glyph_width(gs[k]) > 0
    &&& glyph_height(gs[k]) > 0
    &&& pen_x(gs, k) <= x < pen_x(gs, k) + glyph_width(gs[k])
    &&& 0 <= y < glyph_height(gs[k])
    &&& y * glyph_width(gs[k]) + (x - pen_x(gs, k)) < gs[k].outline->0.pixels@.len()
}

/// The bitmap value that glyph `k` contributes at atlas pixel (`x`, `y`).
pub open spec fn covered_value(gs: Seq<RasterizedGlyph>, k: int, x: int, y: int) -> u8 {
    gs[k].outline->0.pixels@[y * glyph_width(gs[k]) + (x - pen_x(gs, k))]
}

/// Index of the last of the first `n` glyphs whose character is `c`, or -1.
pub open spec fn last_occurrence(gs: Seq<RasterizedGlyph>, n: int, c: char) -> int
    decreases n,
{
    if n <= 0 {
        -1
    } else if gs[n - 1].char_code == c {
        n - 1
    } else {
        last_occurrence(gs, n - 1, c)
    }
}

/// `table` describes the first `n` glyphs of `gs` as a map from characters:
/// one entry per character that occurs among them, holding the placement of
/// its last occurrence.
pub open spec fn glyph_table_of_prefix(
    table: Seq<GlyphInfo>,
    gs: Seq<RasterizedGlyph>,
    n: int,
) -> bool {
    &&& forall|i: int, j: int|
        0 <= i < j < table.len() ==> #[trigger] table[i].char_code
            != #[trigger] table[j].char_code
    &&& forall|i: int|
        0 <= i < table.len() ==> {
            let k = last_occurrence(gs, n, #[trigger] table[i].char_code);
            0 <= k && table[i] == placement(gs, k)
        }
    &&& forall|k: int|
        0 <= k < n ==> exists|i: int|
            0 <= i < table.len() && #[trigger] table[i].char_code == #[trigger] gs[k].char_code
}

/// `table` describes all glyphs of `gs`, the later occurrence of a character
/// replacing the earlier one.
pub open spec fn glyph_table_of(table: Seq<GlyphInfo>, gs: Seq<RasterizedGlyph>) -> bool {
    glyph_table_of_prefix(table, gs, gs.len() as int)
}

/// The atlas texture after the first `n` glyphs have been copied into a
/// zeroed `width` x `height` texture, each at its pen position.
pub closed spec fn blitted_texture(gs: Seq<RasterizedGlyph>, n: int, width: int, height: int) -> Seq<u8>
    decreases n,
{
    if n <= 0 {
        Seq::new((width * height) as nat, |p: int| 0u8)
    } else {
        let before = blitted_texture(gs, n - 1, width, height);
        let g = gs[n - 1];
        if g.outline is Some && glyph_width(g) > 0 && glyph_height(g) > 0 {
            blit_rows(
                before,
                width,
                pen_x(gs, n - 1),
                g.outline->0,
                glyph_height(g),
                0,
            )
        } else {
            before
        }
    }
}

/// `tex` with the rows of `bm` before row `row`, and the first `col` pixels of
/// row `row`, copied in at column `cx` of a texture `width` pixels wide.
pub closed spec fn blit_rows(
    tex: Seq<u8>,
    width: int,
    cx: int,
    bm: GlyphBitmap,
    row: int,
    col: int,
) -> Seq<u8> {
    Seq::new(
        tex.len(),
        |p: int|
            {
                let y = p / width;
                let c = p % width - cx;
                if 0 <= c < bm.width && 0 <= y < bm.height && (y < row || (y == row && c < col))
                    && y * bm.width + c < bm.pixels@.len() {
                    bm.pixels@[y * bm.width + c]
                } else {
                    tex[p]
                }
            },
    )
}

/// The byte of a row-major texture `width` pixels wide at pixel (`x`, `y`).
pub open spec fn pixel_at(tex: Seq<u8>, width: int, x: int, y: int) -> u8 {
    tex[y * width + x]
}

/// Within a `width` x `height` texture holding the first `n` glyphs, every
/// pixel that one of them covers holds that glyph's bitmap value, and every
/// other pixel is zero.
pub open spec fn texture_shows_glyphs(
    tex: Seq<u8>,
    gs: Seq<RasterizedGlyph>,
    n: int,
    width: int,
    height: int,
) -> bool {
    &&& tex.len() == width * height
    &&& forall|k: int, x: int, y: int|
        0 <= k < n && #[trigger] covers(gs, k, x, y) ==> pixel_at(tex, width, x, y)
            == covered_value(gs, k, x, y)
    &&& forall|x: int, y: int|
        0 <= x < width && 0 <= y < height && (forall|k: int| 0 <= k < n ==> !covers(gs, k, x, y))
            ==> #[trigger] pixel_at(tex, width, x, y) == 0
}

/// No atlas pixel is covered by two glyphs: the outlines of distinct glyphs
/// occupy disjoint column ranges.
pub proof fn lemma_glyph_regions_disjoint(gs: Seq<RasterizedGlyph>, k1: int, k2: int, x: int, y1: int, y2: int)
    requires
        covers(gs, k1, x, y1),
        covers(gs, k2, x, y2),
    ensures
        k1 == k2,
{
    if k1 < k2 {
        lemma_prefix_bounds(gs, k1, k2);
    } else if k2 < k1 {
        lemma_prefix_bounds(gs, k2, k1);
    }
}

/// Every glyph's rectangle in the table lies inside the packed atlas.
pub proof fn lemma_placements_within_atlas(gs: Seq<RasterizedGlyph>, k: int)
    requires
        0 <= k < gs.len(),
        atlas_width(gs) <= u32::MAX,
    ensures
        placement(gs, k).atlas_x + placement(gs, k).width <= atlas_width(gs),
        placement(gs, k).atlas_y + placement(gs, k).height <= atlas_height(gs),
{
    lemma_prefix_bounds(gs, k, gs.len() as int);
}

proof fn lemma_blitted_texture_shows_glyphs(gs: Seq<RasterizedGlyph>, n: int, width: int, height: int)
    requires
        0 <= n <= gs.len(),
        reserved_width(gs, n) <= width,
        reserved_height(gs, n) <= height,
        0 < width,
        0 < height,
    ensures
        texture_shows_glyphs(blitted_texture(gs, n, width, height), gs, n, width, height),
    decreases n,
{
    assert(0 <= width * height) by (nonlinear_arith)
        requires
            0 < width,
            0 < height,
    ;
    let tex = blitted_texture(gs, n, width, height);
    if n == 0 {
        assert forall|x: int, y: int|
            0 <= x < width && 0 <= y < height && (forall|k: int|
                0 <= k < n ==> !covers(gs, k, x, y)) implies #[trigger] pixel_at(tex, width, x, y)
            == 0 by {
            lemma_index_in_grid(y, x, width, height);
        }
    } else {
        lemma_prefix_bounds(gs, n - 1, n);
        lemma_blitted_texture_shows_glyphs(gs, n - 1, width, height);
        let before = blitted_texture(gs, n - 1, width, height);
        let g = gs[n - 1];
        if g.outline is Some && glyph_width(g) > 0 && glyph_height(g) > 0 {
            let cx = pen_x(gs, n - 1);
            assert forall|k: int, x: int, y: int|
                0 <= k < n && #[trigger] covers(gs, k, x, y) implies pixel_at(tex, width, x, y)
                == covered_value(gs, k, x, y) by {
                lemma_prefix_bounds(gs, k, n);
                lemma_index_in_grid(y, x, width, height);
                if k < n - 1 {
                    lemma_prefix_bounds(gs, k, n - 1);
                }
            }
            assert forall|x: int, y: int|
                0 <= x < width && 0 <= y < height && (forall|k: int|
                    0 <= k < n ==> !covers(gs, k, x, y)) implies #[trigger] pixel_at(tex, width, x, y)
                == 0 by {
                lemma_index_in_grid(y, x, width, height);
                assert(!covers(gs, n - 1, x, y));
                assert(pixel_at(before, width, x, y) == 0);
            }
        } else {
            assert forall|k: int, x: int, y: int|
                0 <= k < n && #[trigger] covers(gs, k, x, y) implies pixel_at(tex, width, x, y)
                == covered_value(gs, k, x, y) by {
                if k == n - 1 {
                    assert(false);
                }
            }
            assert forall|x: int, y: int|
                0 <= x < width && 0 <= y < height && (forall|k: int|
                    0 <= k < n ==> !covers(gs, k, x, y)) implies #[trigger] pixel_at(tex, width, x, y)
                == 0 by {
                assert(pixel_at(before, width, x, y) == 0);
            }
        }
    }
}

/// `atlas` is the packing of `gs`: the empty atlas when no glyph has a
/// non-empty outline; otherwise an atlas of the packed size and format whose
/// texture shows every glyph at its place, and whose table maps every
/// character to the placement of its last glyph.
pub open spec fn atlas_packs(gs: Seq<RasterizedGlyph>, atlas: FontAtlas) -> bool {
    if atlas_width(gs) == 0 || atlas_height(gs) == 0 {
        &&& atlas.texture_data@.len() == 0
        &&& atlas.width == 0
        &&& atlas.height == 0
        &&& atlas.format == FORMAT_UNDEFINED
        &&& atlas.glyphs@.len() == 0
    } else {
        &&& atlas.width == atlas_width(gs)
        &&& atlas.height == atlas_height(gs)
        &&& atlas.format == FORMAT_R8_UNORM
        &&& texture_shows_glyphs(
            atlas.texture_data@,
            gs,
            gs.len() as int,
            atlas.width as int,
            atlas.height as int,
        )
        &&& glyph_table_of(atlas.glyphs@, gs)
    }
}

/// Packing is a function of the glyphs alone: two atlases packed from equal
/// glyph lists have the same size, format and texture, and hold the same
/// glyph entries.
pub proof fn lemma_packing_deterministic(gs: Seq<RasterizedGlyph>, a1: FontAtlas, a2: FontAtlas)
    requires
        atlas_packs(gs, a1),
        atlas_packs(gs, a2),
    ensures
        a1.width == a2.width,
        a1.height == a2.height,
        a1.format == a2.format,
        a1.texture_data@ == a2.texture_data@,
        a1.glyphs@.to_set() == a2.glyphs@.to_set(),
{
    if atlas_width(gs) == 0 || atlas_height(gs) == 0 {
        assert(a1.texture_data@ =~= a2.texture_data@);
        assert(a1.glyphs@.to_set() =~= a2.glyphs@.to_set());
    } else {
        let w = a1.width as int;
        let h = a1.height as int;
        let t1 = a1.texture_data@;
        let t2 = a2.texture_data@;
        assert forall|p: int| 0 <= p < t1.len() implies t1[p] == t2[p] by {
            let x = p % w;
            let y = p / w;
            lemma_fundamental_div_mod(p, w);
            assert(0 <= x < w);
            assert(0 <= y < h) by {
                if y >= h {
                    assert(w * y >= w * h) by (nonlinear_arith)
                        requires
                            y >= h,
                            w > 0,
                    ;
                }
                if y < 0 {
                    assert(w * y < 0) by (nonlinear_arith)
                        requires
                            y < 0,
                            w > 0,
                    ;
                }
            }
            assert(p == y * w + x) by (nonlinear_arith)
                requires
                    p == w * y + x,
            ;
            if exists|k: int| 0 <= k < gs.len() && covers(gs, k, x, y) {
                let k = choose|k: int| 0 <= k < gs.len() && covers(gs, k, x, y);
                assert(pixel_at(t1, w, x, y) == covered_value(gs, k, x, y));
                assert(pixel_at(t2, w, x, y) == covered_value(gs, k, x, y));
            } else {
                assert(pixel_at(t1, w, x, y) == 0);
                assert(pixel_at(t2, w, x, y) == 0);
            }
        }
        assert(t1 =~= t2);
        lemma_tables_agree(gs, a1.glyphs@, a2.glyphs@);
        lemma_tables_agree(gs, a2.glyphs@, a1.glyphs@);
        assert(a1.glyphs@.to_set() =~= a2.glyphs@.to_set());
    }
}

proof fn lemma_tables_agree(gs: Seq<RasterizedGlyph>, t1: Seq<GlyphInfo>, t2: Seq<GlyphInfo>)
    requires
        glyph_table_of(t1, gs),
        glyph_table_of(t2, gs),
    ensures
        forall|g: GlyphInfo| t1.contains(g) ==> t2.contains(g),
{
    assert forall|g: GlyphInfo| t1.contains(g) implies t2.contains(g) by {
        let i = choose|i: int| 0 <= i < t1.len() && t1[i] == g;
        let m = last_occurrence(gs, gs.len() as int, t1[i].char_code);
        lemma_last_occurrence_matches(gs, gs.len() as int, t1[i].char_code);
        assert(gs[m].char_code == g.char_code);
        let j = choose|j: int| 0 <= j < t2.len() && #[trigger] t2[j].char_code == #[trigger] gs[m].char_code;
        assert(t2[j] == g);
    }
}

proof fn lemma_last_occurrence_matches(gs: Seq<RasterizedGlyph>, n: int, c: char)
    requires
        0 <= n <= gs.len(),
    ensures
        last_occurrence(gs, n, c) < n,
        last_occurrence(gs, n, c) >= 0 ==> gs[last_occurrence(gs, n, c)].char_code == c,
    decreases n,
{
    if n > 0 {
        lemma_last_occurrence_matches(gs, n - 1, c);
    }
}

/// Glyphs with a visible outline sit one blank column apart: each one ends at
/// least one column before the atlas edge, and the column ranges of any two
/// distinct entries of the table, each widened by its spacing column, do not
/// overlap.
pub proof fn lemma_atlas_glyph_spacing(gs: Seq<RasterizedGlyph>, atlas: FontAtlas, i: int, j: int)
    requires
        atlas_packs(gs, atlas),
        0 <= i < atlas.glyphs@.len(),
        0 <= j < atlas.glyphs@.len(),
    ensures
        atlas.glyphs@[i].width > 0 ==> atlas.glyphs@[i].atlas_x + atlas.glyphs@[i].width + 1
            <= atlas.width,
        atlas.glyphs@[i].atlas_y + atlas.glyphs@[i].height <= atlas.height,
        i != j && atlas.glyphs@[i].width > 0 && atlas.glyphs@[j].width > 0 ==> {
            ||| atlas.glyphs@[i].atlas_x + atlas.glyphs@[i].width + 1 <= atlas.glyphs@[j].atlas_x
            ||| atlas.glyphs@[j].atlas_x + atlas.glyphs@[j].width + 1 <= atlas.glyphs@[i].atlas_x
        },
{
    let t = atlas.glyphs@;
    let n = gs.len() as int;
    let ki = last_occurrence(gs, n, t[i].char_code);
    let kj = last_occurrence(gs, n, t[j].char_code);
    lemma_last_occurrence_matches(gs, n, t[i].char_code);
    lemma_last_occurrence_matches(gs, n, t[j].char_code);
    lemma_prefix_bounds(gs, ki, n);
    lemma_prefix_bounds(gs, kj, n);
    if ki < kj {
        lemma_prefix_bounds(gs, ki, kj);
    } else if kj < ki {
        lemma_prefix_bounds(gs, kj, ki);
    }
}

/// Position in `table` of the entry for character `c`, if there is one.
fn find_glyph(table: &Vec<GlyphInfo>, c: char) -> (r: Option<usize>)
    ensures
        r matches Some(i) ==> i < table@.len() && table@[i as int].char_code == c,
        r is None ==> forall|i: int| 0 <= i < table@.len() ==> table@[i].char_code != c,
{
    let mut i: usize = 0;
    while i < table.len()
        invariant
            i <= table@.len(),
            forall|j: int| 0 <= j < i ==> table@[j].char_code != c,
        decreases table@.len() - i,
    {
        if table[i].char_code == c {
            return Some(i);
        }
        i = i + 1;
    }
    None
}

/// Packs rasterised glyphs side by side into one single-channel atlas: glyph
/// outlines are copied left to right on the top row, one column apart, and
/// every character is mapped to where its (last) glyph was placed. When no
/// glyph has a non-empty outline, the empty atlas is returned.
pub fn pack_font_atlas(glyphs: Vec<RasterizedGlyph>) -> (r: Result<FontAtlas, String>)
    requires
        atlas_width(glyphs@) <= u32::MAX,
        atlas_width(glyphs@) * atlas_height(glyphs@) <= u32::MAX,
    ensures
        r is Ok,
        r matches Ok(atlas) ==> atlas_packs(glyphs@, atlas),
{
    let ghost gs = glyphs@;
    let n = glyphs.len();
    let mut total_w_pack: u32 = 0;
    let mut max_r_h: u32 = 0;
    let mut i: usize = 0;
    while i < n
        invariant
            n == gs.len(),
            gs == glyphs@,
            i <= n,
            total_w_pack == reserved_width(gs, i as int),
            max_r_h == reserved_height(gs, i as int),
            reserved_width(gs, n as int) <= u32::MAX,
        decreases n - i,
    {
        proof {
            lemma_prefix_bounds(gs, i + 1, n as int);
        }
        match &glyphs[i].outline {
            Some(bm) => {
                total_w_pack = total_w_pack + bm.width + 1;
                if bm.height > max_r_h {
                    max_r_h = bm.height;
                }
            },
            None => {},
        }
        i = i + 1;
    }
    if total_w_pack == 0 || max_r_h == 0 {
        return Ok(FontAtlas::new());
    }
    let atlas_w = total_w_pack;
    let atlas_h = max_r_h;
    let mut atlas_data: Vec<u8> = vec![0u8; (atlas_w * atlas_h) as usize];
    proof {
        assert(atlas_data@ =~= blitted_texture(gs, 0, atlas_w as int, atlas_h as int));
    }
    let mut table: Vec<GlyphInfo> = Vec::new();
    let mut current_x: u32 = 0;
    let mut k: usize = 0;
    while k < n
        invariant
            n == gs.len(),
            gs == glyphs@,
            k <= n,
            atlas_w as int == reserved_width(gs, n as int),
            atlas_h as int == reserved_height(gs, n as int),
            atlas_w > 0,
            atlas_h > 0,
            atlas_w as int * atlas_h as int <= u32::MAX,
            current_x == pen_x(gs, k as int),
            atlas_data@.len() == atlas_w as int * atlas_h as int,
            atlas_data@ == blitted_texture(gs, k as int, atlas_w as int, atlas_h as int),
            glyph_table_of_prefix(table@, gs, k as int),
        decreases n - k,
    {
        proof {
            lemma_prefix_bounds(gs, k as int, n as int);
            lemma_prefix_bounds(gs, k + 1, n as int);
        }
        let g = &glyphs[k];
        let mut w: u32 = 0;
        let mut h: u32 = 0;
        match &g.outline {
            Some(bm) => {
                w = bm.width;
                h = bm.height;
                if bm.width > 0 && bm.height > 0 {
                    blit_glyph(&mut atlas_data, atlas_w, atlas_h, current_x, bm);
                }
            },
            None => {},
        }
        let info = GlyphInfo {
            char_code: g.char_code,
            atlas_x: current_x,
            atlas_y: 0,
            width: w,
            height: h,
            advance_width_bits: g.advance_width_bits,
        };
        assert(info == placement(gs, k as int));
        let ghost old_table = table@;
        let ghost mut slot: int = old_table.len() as int;
        match find_glyph(&table, g.char_code) {
            Some(idx) => {
                proof {
                    slot = idx as int;
                }
                table.set(idx, info);
            },
            None => {
                table.push(info);
            },
        }
        proof {
            let c = gs[k as int].char_code;
            assert forall|j: int|
                0 <= j < table@.len() implies {
                    let m = last_occurrence(gs, k + 1, #[trigger] table@[j].char_code);
                    0 <= m && table@[j] == placement(gs, m)
                } by {
                if table@[j].char_code != c {
                    assert(table@[j] == old_table[j]);
                }
            }
            assert forall|q: int|
                0 <= q < k + 1 implies exists|j: int|
                    0 <= j < table@.len() && #[trigger] table@[j].char_code
                        == #[trigger] gs[q].char_code by {
                if gs[q].char_code == c {
                    assert(table@[slot].char_code == gs[q].char_code);
                } else {
                    let j = choose|j: int|
                        0 <= j < old_table.len() && #[trigger] old_table[j].char_code
                            == #[trigger] gs[q].char_code;
                    assert(table@[j].char_code == gs[q].char_code);
                }
            }
        }
        if w > 0 {
            current_x = current_x + w + 1;
        }
        k = k + 1;
    }
    proof {
        lemma_blitted_texture_shows_glyphs(gs, n as int, atlas_w as int, atlas_h as int);
    }
    if atlas_w > 0 && atlas_h > 0 {
        if !gray_image_accepts(atlas_w, atlas_h, atlas_data.clone()) {
            return Err("GrayImage failed".to_string());
        }
    }
    Ok(
        FontAtlas {
            texture_data: atlas_data,
            width: atlas_w,
            height: atlas_h,
            format: FORMAT_R8_UNORM,
            glyphs: table,
        },
    )
}

/// `image::GrayImage::from_raw` (image 0.24): it accepts a buffer for a
/// single-channel image of `width` x `height` pixels exactly when the buffer
/// holds at least `width * height` bytes (a product that overflows `usize`
/// exceeds every buffer length and is refused too).
#[verifier::external_body]
fn gray_image_accepts(width: u32, height: u32, data: Vec<u8>) -> (ok: bool)
    ensures
        ok == (width as int * height as int <= data@.len()),
{
    image::GrayImage::from_raw(width, height, data).is_some()
}

proof fn lemma_pen_within_reserved(gs: Seq<RasterizedGlyph>, n: int)
    requires
        0 <= n <= gs.len(),
    ensures
        0 <= pen_x(gs, n) <= reserved_width(gs, n),
        0 <= reserved_height(gs, n),
    decreases n,
{
    if n > 0 {
        lemma_pen_within_reserved(gs, n - 1);
    }
}

proof fn lemma_prefix_bounds(gs: Seq<RasterizedGlyph>, n: int, m: int)
    requires
        0 <= n <= m <= gs.len(),
    ensures
        0 <= pen_x(gs, n) <= reserved_width(gs, n),
        reserved_width(gs, n) <= reserved_width(gs, m),
        reserved_height(gs, n) <= reserved_height(gs, m),
        pen_x(gs, n) <= pen_x(gs, m),
        n < m ==> glyph_height(gs[n]) <= reserved_height(gs, m),
        n < m && gs[n].outline is Some ==> pen_x(gs, n) + glyph_width(gs[n]) + 1 <= reserved_width(gs, m),
        n < m && glyph_width(gs[n]) > 0 ==> pen_x(gs, n) + glyph_width(gs[n]) + 1 <= pen_x(gs, m),
    decreases m - n,
{
    lemma_pen_within_reserved(gs, n);
    if n < m {
        lemma_prefix_bounds(gs, n + 1, m);
    }
}

proof fn lemma_index_in_grid(row: int, col: int, width: int, height: int)
    requires
        0 <= row < height,
        0 <= col < width,
    ensures
        row * width + col < width * height,
        0 <= row * width + col,
        row * width + col == (row * width + col) / width * width + col,
        (row * width + col) / width == row,
        (row * width + col) % width == col,
{
    assert(row * width + col < width * height) by (nonlinear_arith)
        requires
            0 <= row < height,
            0 <= col < width,
    ;
    assert(0 <= row * width) by (nonlinear_arith)
        requires
            0 <= row,
            0 <= width,
    ;
    lemma_fundamental_div_mod_converse(row * width + col, width, row, col);
}

proof fn lemma_bitmap_index(y: int, c: int, w: int, h: int, aw: int, ah: int)
    requires
        0 <= y < h <= ah,
        0 <= c < w <= aw,
    ensures
        0 <= y * w + c < aw * ah,
        y * w + c < h * w,
{
    assert(0 <= y * w + c < h * w) by (nonlinear_arith)
        requires
            0 <= y < h,
            0 <= c < w,
    ;
    assert(h * w <= aw * ah) by (nonlinear_arith)
        requires
            0 <= h <= ah,
            0 <= w <= aw,
    ;
}

/// Copies one glyph's bitmap into the atlas at column `cx`, row by row.
fn blit_glyph(atlas: &mut Vec<u8>, atlas_w: u32, atlas_h: u32, cx: u32, bm: &GlyphBitmap)
    requires
        old(atlas)@.len() == atlas_w as int * atlas_h as int,
        atlas_w as int * atlas_h as int <= u32::MAX,
        bm.width > 0,
        bm.height > 0,
        cx as int + bm.width as int <= atlas_w,
        bm.height <= atlas_h,
    ensures
        final(atlas)@ == blit_rows(old(atlas)@, atlas_w as int, cx as int, *bm, bm.height as int, 0),
{
    let ghost start = atlas@;
    let w = bm.width;
    let h = bm.height;
    let mut gy: u32 = 0;
    proof {
        assert(start =~= blit_rows(start, atlas_w as int, cx as int, *bm, 0, 0));
    }
    while gy < h
        invariant
            0 <= gy <= h,
            w == bm.width,
            h == bm.height,
            start.len() == atlas_w as int * atlas_h as int,
            atlas_w as int * atlas_h as int <= u32::MAX,
            w > 0,
            cx as int + w as int <= atlas_w,
            h <= atlas_h,
            atlas@ == blit_rows(start, atlas_w as int, cx as int, *bm, gy as int, 0),
        decreases h - gy,
    {
        let mut gx: u32 = 0;
        while gx < w
            invariant
                0 <= gy < h,
                0 <= gx <= w,
                w == bm.width,
                h == bm.height,
                start.len() == atlas_w as int * atlas_h as int,
                atlas_w as int * atlas_h as int <= u32::MAX,
                w > 0,
                cx as int + w as int <= atlas_w,
                h <= atlas_h,
                atlas@ == blit_rows(start, atlas_w as int, cx as int, *bm, gy as int, gx as int),
            decreases w - gx,
        {
            proof {
                lemma_index_in_grid(gy as int, cx + gx, atlas_w as int, atlas_h as int);
                lemma_bitmap_index(gy as int, gx as int, w as int, h as int, atlas_w as int, atlas_h as int);
            }
            let atlas_idx = ((gy * atlas_w) + (cx + gx)) as usize;
            let bm_idx = (gy * w + gx) as usize;
            let ghost before = atlas@;
            if bm_idx < bm.pixels.len() && atlas_idx < atlas.len() {
                atlas.set(atlas_idx, bm.pixels[bm_idx]);
            }
            proof {
                let next = blit_rows(start, atlas_w as int, cx as int, *bm, gy as int, gx + 1);
                assert forall|p: int| 0 <= p < atlas@.len() implies atlas@[p] == next[p] by {
                    if p != atlas_idx {
                        lemma_fundamental_div_mod(p, atlas_w as int);
                        if p / (atlas_w as int) == gy && p % (atlas_w as int) - cx == gx {
                            assert(p == (atlas_w as int) * gy + (cx + gx));
                            assert((atlas_w as int) * gy == gy * (atlas_w as int)) by (nonlinear_arith);
                        }
                    }
                }
                assert(atlas@ =~= next);
            }
            gx = gx + 1;
        }
        proof {
            assert(blit_rows(start, atlas_w as int, cx as int, *bm, gy as int, w as int)
                =~= blit_rows(start, atlas_w as int, cx as int, *bm, gy + 1, 0));
        }
        gy = gy + 1;
    }
}

} // verus!
