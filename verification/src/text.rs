//! Backend-agnostic glyph identity and its mapping onto the renderer's glyph
//! atlas: which atlas key a shaped glyph uses, where it ends up in the atlas,
//! and the indices of the quad that draws it.
use vstd::prelude::*;
use crate::atlas::{after_insert, key_code, GlyphAtlas, PlacedGlyph, AtlasInsert};
use crate::atlas;

verus! {

/// A stable identifier for a font face known to the text engine.
#[derive(Clone, Copy, Debug, PartialEq, Eq, Hash, Structural)]
pub struct FontId(pub u64);

/// A key for caching a glyph bitmap: the face, the glyph index within it,
/// the pixel size and a subpixel offset in 1/64 pixel.
#[derive(Clone, Copy, Debug, PartialEq, Eq, Hash, Structural)]
pub struct GlyphKey {
    pub font_id: FontId,
    pub glyph_id: u32,
    pub px_size: u16,
    pub subpixel_x_64: i16,
}

impl GlyphKey {
    pub fn new(font_id: FontId, glyph_id: u32, px_size: u16, subpixel_x_64: i16) -> (r: Self)
        ensures
            r == (GlyphKey { font_id, glyph_id, px_size, subpixel_x_64 }),
    {
        GlyphKey { font_id, glyph_id, px_size, subpixel_x_64 }
    }
}

/// The 16-bit pattern of a subpixel offset, read as unsigned.
pub open spec fn subpixel_bits(s: i16) -> u16 {
    if s >= 0 {
        s as u16
    } else {
        (s + 0x1_0000) as u16
    }
}

/// The atlas key under which a shaped glyph's bitmap is cached.
pub open spec fn atlas_key_spec(k: GlyphKey) -> atlas::GlyphKey {
    atlas::GlyphKey {
        font_id: k.font_id.0,
        glyph_id: k.glyph_id,
        font_px: k.px_size,
        variant: subpixel_bits(k.subpixel_x_64),
    }
}

/// Maps a text-engine glyph key to the atlas key of the renderer: the face id,
/// glyph index and size carry over, and the subpixel offset is kept as its bit pattern.
pub fn atlas_key(k: &GlyphKey) -> (r: atlas::GlyphKey)
    ensures
        r == atlas_key_spec(*k),
{
    let s: i16 = k.subpixel_x_64;
    let bits: u16 = s as u16;
    assert(bits == subpixel_bits(s)) by (bit_vector)
        requires
            bits == s as u16,
    ;
    atlas::GlyphKey::new(k.font_id.0, k.glyph_id, k.px_size, bits)
}

/// Distinct glyph keys map to distinct atlas keys, so glyphs never share a cache slot.
pub proof fn lemma_atlas_key_injective(a: GlyphKey, b: GlyphKey)
    ensures
        atlas_key_spec(a) == atlas_key_spec(b) ==> a == b,
{
    let sa = a.subpixel_x_64;
    let sb = b.subpixel_x_64;
    assert(subpixel_bits(sa) == subpixel_bits(sb) ==> sa == sb);
}

/// What the renderer draws a glyph from after asking the atlas for it: the
/// cached placement on a hit, the fresh placement when there was room, and
/// nothing when the atlas is full.
pub open spec fn placement_of(old_cache_entry: Option<PlacedGlyph>, outcome: AtlasInsert) -> Option<PlacedGlyph> {
    match outcome {
        AtlasInsert::AlreadyPresent => old_cache_entry,
        AtlasInsert::Placed(p) => Some(p),
        AtlasInsert::Full => None,
    }
}

/// Ensures the glyph `key` with a bitmap of `size_px` is in the atlas and returns
/// where it lies, with whether its bitmap still has to be uploaded; `None` when
/// the atlas has no room for it.
pub fn place_glyph(atlas: &mut GlyphAtlas, key: &GlyphKey, size_px: [u32; 2]) -> (r: (Option<PlacedGlyph>, bool))
    requires
        old(atlas).wf(),
    ensures
        final(atlas).wf(),
        ({
            let code = key_code(atlas_key_spec(*key));
            let (v, outcome) = after_insert(old(atlas)@, code, size_px[0], size_px[1]);
            &&& final(atlas)@ == v
            &&& r.1 == (outcome is Placed)
            &&& r.0 == placement_of(
                if old(atlas)@.cache.contains_key(code) { Some(old(atlas)@.cache[code]) } else { None },
                outcome,
            )
            &&& r.0 == (if v.cache.contains_key(code) { Some(v.cache[code]) } else { None })
        }),
{
    let akey = atlas_key(key);
    let ghost v0 = atlas@;
    let outcome = atlas.insert(akey, size_px);
    proof {
        crate::atlas::lemma_insert_then_lookup(v0, akey, size_px[0], size_px[1], akey);
    }
    match outcome {
        AtlasInsert::AlreadyPresent => (atlas.get(&akey), false),
        AtlasInsert::Placed(p) => (Some(p), true),
        AtlasInsert::Full => (None, false),
    }
}

/// The six indices of the two triangles of a glyph quad whose four corners
/// start at vertex `base` (top-left, top-right, bottom-right, bottom-left).
pub fn quad_indices(base: u32) -> (r: [u32; 6])
    requires
        base + 3 <= u32::MAX,
    ensures
        r@ == seq![base, (base + 1) as u32, (base + 2) as u32, base, (base + 2) as u32, (base + 3) as u32],
{
    [base, base + 1, base + 2, base, base + 2, base + 3]
}

} // verus!
