//! Glyph atlas placement and a light-weight CPU-side cache.
//!
//! The atlas answers two questions: where to place a new glyph bitmap in a 2D texture,
//! and how to find that placement again later. It is a row-based shelf packer: the atlas
//! is cut into horizontal shelves; a glyph goes into the first shelf with room for it,
//! otherwise a new shelf is opened below the last one.
//!
//! Every placement reserves a padding border around the glyph bitmap. Placements carry
//! the bitmap area in atlas pixels (`uv_px`); dividing by the atlas size gives the
//! normalized texture coordinates used for sampling.

use std::collections::HashMap;
use vstd::prelude::*;

verus! {

broadcast use vstd::std_specs::hash::group_hash_axioms;

/// Atlas coordinates in pixels (top-left origin).
#[derive(Copy, Clone, Debug, PartialEq, Eq, Hash)]
pub struct AtlasPx {
    pub x: u32,
    pub y: u32,
}

impl AtlasPx {
    pub fn new(x: u32, y: u32) -> (r: Self)
        ensures
            r == (AtlasPx { x, y }),
    {
        Self { x, y }
    }
}

/// Rectangle in atlas pixel coordinates.
#[derive(Copy, Clone, Debug, PartialEq, Eq, Hash)]
pub struct AtlasRectPx {
    pub min: AtlasPx,
    pub size: [u32; 2],
}

impl AtlasRectPx {
    pub fn new(min: AtlasPx, size: [u32; 2]) -> (r: Self)
        ensures
            r == (AtlasRectPx { min, size }),
    {
        Self { min, size }
    }

    /// One past the right-most pixel column, as a mathematical integer.
    pub open spec fn x_end(self) -> int {
        self.min.x + self.size[0]
    }

    /// One past the bottom-most pixel row, as a mathematical integer.
    pub open spec fn y_end(self) -> int {
        self.min.y + self.size[1]
    }

    pub fn width(self) -> (r: u32)
        ensures
            r == self.size[0],
    {
        self.size[0]
    }

    pub fn height(self) -> (r: u32)
        ensures
            r == self.size[1],
    {
        self.size[1]
    }

    /// Right edge (exclusive); the sum must fit in a `u32`.
    pub fn max_x(self) -> (r: u32)
        requires
            self.x_end() <= u32::MAX,
        ensures
            r == self.x_end(),
    {
        self.min.x + self.size[0]
    }

    /// Bottom edge (exclusive); the sum must fit in a `u32`.
    pub fn max_y(self) -> (r: u32)
        requires
            self.y_end() <= u32::MAX,
        ensures
            r == self.y_end(),
    {
        self.min.y + self.size[1]
    }
}

/// The glyph bitmap area (excluding padding) in atlas pixels.
///
/// Dividing `min` and `max` by the atlas width and height gives the UV rectangle.
#[derive(Copy, Clone, Debug, PartialEq, Eq, Hash)]
pub struct UvRectPx {
    pub min: [u32; 2],
    pub max: [u32; 2],
}

/// A placed glyph (including padding) in the atlas.
#[derive(Copy, Clone, Debug, PartialEq, Eq, Hash)]
pub struct PlacedGlyph {
    /// Rectangle (including padding) where the glyph bitmap was stored.
    pub rect_px: AtlasRectPx,
    /// Padding in pixels that was reserved around the glyph.
    pub padding_px: u32,
    /// The glyph bitmap area (excluding padding), in atlas pixels.
    pub uv_px: UvRectPx,
}

/// Key for a glyph: which font, which glyph, at which size and variant.
#[derive(Copy, Clone, Debug, PartialEq, Eq, Hash)]
pub struct GlyphKey {
    /// Font identifier (e.g. family or an internal ID).
    pub font_id: u64,
    /// Glyph id within the font.
    pub glyph_id: u32,
    /// Font size in pixels (or any consistent scale used during rasterization).
    pub font_px: u16,
    /// Extra variant bits (e.g. subpixel/AA mode, weight).
    pub variant: u16,
}

/// The 128-bit cache code of a glyph key: all four fields side by side.
pub open spec fn key_code(k: GlyphKey) -> u128 {
    (k.font_id as int * 0x1_0000_0000_0000_0000 + k.glyph_id as int * 0x1_0000_0000
        + k.font_px as int * 0x1_0000 + k.variant as int) as u128
}

/// Distinct glyph keys have distinct cache codes.
pub proof fn lemma_key_code_injective(a: GlyphKey, b: GlyphKey)
    ensures
        key_code(a) == key_code(b) <==> a == b,
{
    let fa = a.font_id as int;
    let fb = b.font_id as int;
    let ga = a.glyph_id as int;
    let gb = b.glyph_id as int;
    let pa = a.font_px as int;
    let pb = b.font_px as int;
    let va = a.variant as int;
    let vb = b.variant as int;
    let la = ga * 0x1_0000_0000 + pa * 0x1_0000 + va;
    let lb = gb * 0x1_0000_0000 + pb * 0x1_0000 + vb;
    let ca = fa * 0x1_0000_0000_0000_0000 + la;
    let cb = fb * 0x1_0000_0000_0000_0000 + lb;
    assert(0 <= la < 0x1_0000_0000_0000_0000);
    assert(0 <= lb < 0x1_0000_0000_0000_0000);
    assert(0 <= ca < 0x1_0000_0000_0000_0000_0000_0000_0000_0000);
    assert(0 <= cb < 0x1_0000_0000_0000_0000_0000_0000_0000_0000);
    if ca == cb {
        assert(fa == fb) by (nonlinear_arith)
            requires
                fa * 0x1_0000_0000_0000_0000 + la == fb * 0x1_0000_0000_0000_0000 + lb,
                0 <= la < 0x1_0000_0000_0000_0000,
                0 <= lb < 0x1_0000_0000_0000_0000,
        ;
        let ma = pa * 0x1_0000 + va;
        let mb = pb * 0x1_0000 + vb;
        assert(ga == gb) by (nonlinear_arith)
            requires
                ga * 0x1_0000_0000 + ma == gb * 0x1_0000_0000 + mb,
                0 <= ma < 0x1_0000_0000,
                0 <= mb < 0x1_0000_0000,
        ;
        assert(pa == pb) by (nonlinear_arith)
            requires
                pa * 0x1_0000 + va == pb * 0x1_0000 + vb,
                0 <= va < 0x1_0000,
                0 <= vb < 0x1_0000,
        ;
    }
}

impl GlyphKey {
    pub fn new(font_id: u64, glyph_id: u32, font_px: u16, variant: u16) -> (r: Self)
        ensures
            r == (GlyphKey { font_id, glyph_id, font_px, variant }),
    {
        Self { font_id, glyph_id, font_px, variant }
    }

    /// The key under which the atlas caches this glyph.
    fn cache_code(&self) -> (r: u128)
        ensures
            r == key_code(*self),
    {
        (self.font_id as u128) * 0x1_0000_0000_0000_0000 + (self.glyph_id as u128) * 0x1_0000_0000
            + (self.font_px as u128) * 0x1_0000 + (self.variant as u128)
    }
}

/// Result of trying to insert into the atlas.
#[derive(Copy, Clone, Debug, PartialEq, Eq)]
pub enum AtlasInsert {
    /// The glyph was already present; no upload needed.
    AlreadyPresent,
    /// The atlas has space and returned placement. The caller should upload the bitmap.
    Placed(PlacedGlyph),
    /// Atlas does not have space (no eviction strategy implemented here).
    Full,
}

/// A single shelf (row) in the atlas.
#[derive(Copy, Clone, Debug, PartialEq, Eq)]
pub struct Shelf {
    pub y: u32,
    pub height: u32,
    pub x_cursor: u32,
}

/// `a + b`, saturating at `u32::MAX`.
pub open spec fn sat_add(a: u32, b: u32) -> u32 {
    if a + b > u32::MAX {
        u32::MAX
    } else {
        (a + b) as u32
    }
}

/// `2 * a`, saturating at `u32::MAX`.
pub open spec fn sat_double(a: u32) -> u32 {
    if 2 * a > u32::MAX {
        u32::MAX
    } else {
        (2 * a) as u32
    }
}

/// The extent reserved for a glyph dimension: the bitmap plus padding on both sides.
pub open spec fn reserved(len: u32, pad: u32) -> u32 {
    sat_add(len, sat_double(pad))
}

/// Whether a glyph reserving `rw` x `rh` pixels fits at the end of a shelf.
pub open spec fn shelf_fits(s: Shelf, rw: u32, rh: u32, width: u32) -> bool {
    rh <= s.height && sat_add(s.x_cursor, rw) <= width
}

/// Index of the first shelf a glyph fits in (`shelves.len()` when none does).
pub open spec fn first_fit(shelves: Seq<Shelf>, rw: u32, rh: u32, width: u32) -> int
    decreases shelves.len(),
{
    if shelves.len() == 0 {
        0
    } else if shelf_fits(shelves[0], rw, rh, width) {
        0
    } else {
        1 + first_fit(shelves.drop_first(), rw, rh, width)
    }
}

/// The placement recorded for a glyph of `w` x `h` pixels whose reserved area starts at `min`.
pub open spec fn placed_at(min: AtlasPx, w: u32, h: u32, pad: u32) -> PlacedGlyph {
    let gx = sat_add(min.x, pad);
    let gy = sat_add(min.y, pad);
    PlacedGlyph {
        rect_px: AtlasRectPx { min, size: [reserved(w, pad), reserved(h, pad)] },
        padding_px: pad,
        uv_px: UvRectPx { min: [gx, gy], max: [sat_add(gx, w), sat_add(gy, h)] },
    }
}

/// The placement recorded for a glyph with an empty bitmap (e.g. whitespace).
pub open spec fn empty_placement(pad: u32) -> PlacedGlyph {
    PlacedGlyph {
        rect_px: AtlasRectPx { min: AtlasPx { x: 0, y: 0 }, size: [0, 0] },
        padding_px: pad,
        uv_px: UvRectPx { min: [0, 0], max: [0, 0] },
    }
}

/// A rectangle that covers at least one pixel.
pub open spec fn nonempty(r: AtlasRectPx) -> bool {
    r.size[0] > 0 && r.size[1] > 0
}

/// Two rectangles share no pixel.
pub open spec fn disjoint(a: AtlasRectPx, b: AtlasRectPx) -> bool {
    a.x_end() <= b.min.x || b.x_end() <= a.min.x || a.y_end() <= b.min.y || b.y_end() <= a.min.y
}

/// A rectangle lies in the filled part of a shelf.
pub open spec fn rect_in_shelf(r: AtlasRectPx, s: Shelf) -> bool {
    s.y <= r.min.y && r.y_end() <= s.y + s.height && r.x_end() <= s.x_cursor
}

pub open spec fn in_some_shelf(r: AtlasRectPx, shelves: Seq<Shelf>) -> bool {
    exists|i: int| 0 <= i < shelves.len() && #[trigger] rect_in_shelf(r, shelves[i])
}

/// The abstract state of an atlas.
#[verifier::ext_equal]
pub struct AtlasView {
    pub width: u32,
    pub height: u32,
    pub padding_px: u32,
    pub shelves: Seq<Shelf>,
    pub next_shelf_y: u32,
    /// Placements by cache code (see [`key_code`]).
    pub cache: Map<u128, PlacedGlyph>,
}

/// Atlas dimensions below `u32::MAX`, where no pixel arithmetic saturates.
pub open spec fn unsaturated(v: AtlasView) -> bool {
    v.width < u32::MAX && v.height < u32::MAX
}

/// The packing invariant: shelves are stacked top to bottom inside the atlas, every
/// non-empty placement lies in the filled part of a shelf, and no two non-empty
/// placements overlap.
pub open spec fn packing_inv(v: AtlasView) -> bool {
    unsaturated(v) ==> {
        &&& v.next_shelf_y <= v.height
        &&& forall|i: int|
            0 <= i < v.shelves.len() ==> (#[trigger] v.shelves[i]).x_cursor <= v.width
                && v.shelves[i].y + v.shelves[i].height <= v.next_shelf_y
        &&& forall|i: int, j: int|
            0 <= i < j < v.shelves.len() ==> #[trigger] v.shelves[i].y + v.shelves[i].height
                <= #[trigger] v.shelves[j].y
        &&& forall|k: u128|
            #[trigger] v.cache.contains_key(k) && nonempty(v.cache[k].rect_px) ==> in_some_shelf(
                v.cache[k].rect_px,
                v.shelves,
            )
        &&& forall|k1: u128, k2: u128|
            #[trigger] v.cache.contains_key(k1) && #[trigger] v.cache.contains_key(k2) && k1 != k2
                && nonempty(v.cache[k1].rect_px) && nonempty(v.cache[k2].rect_px) ==> disjoint(
                v.cache[k1].rect_px,
                v.cache[k2].rect_px,
            )
    }
}

/// The state of an atlas after inserting a glyph with cache code `code` and a
/// `w` x `h` pixel bitmap, and what the insertion reports.
pub open spec fn after_insert(v: AtlasView, code: u128, w: u32, h: u32) -> (AtlasView, AtlasInsert) {
    let pad = v.padding_px;
    let rw = reserved(w, pad);
    let rh = reserved(h, pad);
    if v.cache.contains_key(code) {
        (v, AtlasInsert::AlreadyPresent)
    } else if w == 0 || h == 0 {
        let p = empty_placement(pad);
        (AtlasView { cache: v.cache.insert(code, p), ..v }, AtlasInsert::Placed(p))
    } else if rw > v.width || rh > v.height {
        (v, AtlasInsert::Full)
    } else {
        let i = first_fit(v.shelves, rw, rh, v.width);
        if i < v.shelves.len() {
            let s = v.shelves[i];
            let p = placed_at(AtlasPx { x: s.x_cursor, y: s.y }, w, h, pad);
            (
                AtlasView {
                    shelves: v.shelves.update(i, Shelf { x_cursor: sat_add(s.x_cursor, rw), ..s }),
                    cache: v.cache.insert(code, p),
                    ..v
                },
                AtlasInsert::Placed(p),
            )
        } else if sat_add(v.next_shelf_y, rh) > v.height {
            (v, AtlasInsert::Full)
        } else {
            let p = placed_at(AtlasPx { x: 0, y: v.next_shelf_y }, w, h, pad);
            let s = Shelf { y: v.next_shelf_y, height: rh, x_cursor: sat_add(0, rw) };
            (
                AtlasView {
                    shelves: v.shelves.push(s),
                    next_shelf_y: sat_add(v.next_shelf_y, rh),
                    cache: v.cache.insert(code, p),
                    ..v
                },
                AtlasInsert::Placed(p),
            )
        }
    }
}

/// Whether shelf `s` can take a glyph reserving `rw` x `rh` pixels: it is at
/// least as tall, and its remaining width holds the glyph.
pub open spec fn shelf_has_room(s: Shelf, rw: int, rh: int, width: int) -> bool {
    rh <= s.height && s.x_cursor + rw <= width
}

/// The index of the first shelf with room, if `i` is such a shelf.
pub open spec fn first_with_room(shelves: Seq<Shelf>, i: int, rw: int, rh: int, width: int) -> bool {
    &&& 0 <= i < shelves.len()
    &&& shelf_has_room(shelves[i], rw, rh, width)
    &&& forall|j: int| 0 <= j < i ==> !shelf_has_room(#[trigger] shelves[j], rw, rh, width)
}

/// No shelf of the atlas has room for a glyph reserving `rw` x `rh` pixels.
pub open spec fn no_shelf_has_room(v: AtlasView, rw: int, rh: int) -> bool {
    forall|j: int| 0 <= j < v.shelves.len() ==> !shelf_has_room(#[trigger] v.shelves[j], rw, rh, v.width as int)
}

proof fn lemma_first_fit_none(shelves: Seq<Shelf>, rw: u32, rh: u32, width: u32, j: int)
    requires
        first_fit(shelves, rw, rh, width) >= shelves.len(),
        0 <= j < shelves.len(),
    ensures
        !shelf_fits(shelves[j], rw, rh, width),
    decreases shelves.len(),
{
    if j > 0 {
        let rest = shelves.drop_first();
        lemma_first_fit_none(rest, rw, rh, width, j - 1);
        assert(rest[j - 1] == shelves[j]);
    }
}

proof fn lemma_fits_iff_room(s: Shelf, rw: u32, rh: u32, width: u32)
    requires
        width < u32::MAX,
        rw <= width,
    ensures
        shelf_fits(s, rw, rh, width) == shelf_has_room(s, rw as int, rh as int, width as int),
{
}

/// Which shelf a new glyph goes to (for atlases below `u32::MAX` pixels on each
/// side): with the glyph reserving its bitmap plus the padding on every side, it
/// goes to the first existing shelf that is at least as tall and has room left,
/// placed at that shelf's cursor; when no shelf has room it opens a new shelf
/// below the others, at the left edge; and the atlas reports `Full` exactly when
/// the glyph is larger than the atlas, or no shelf has room and no new shelf fits.
pub proof fn lemma_insert_shelf_choice(v: AtlasView, k: GlyphKey, w: u32, h: u32, i: int)
    requires
        unsaturated(v),
        !v.cache.contains_key(key_code(k)),
        w > 0,
        h > 0,
    ensures
        (w + 2 * v.padding_px > v.width || h + 2 * v.padding_px > v.height) ==> after_insert(
            v,
            key_code(k),
            w,
            h,
        ).1 is Full,
        w + 2 * v.padding_px <= v.width && h + 2 * v.padding_px <= v.height && first_with_room(
            v.shelves,
            i,
            w + 2 * v.padding_px,
            h + 2 * v.padding_px,
            v.width as int,
        ) ==> after_insert(v, key_code(k), w, h).1 is Placed && after_insert(v, key_code(k), w, h).1->Placed_0.rect_px.min
            == (AtlasPx { x: v.shelves[i].x_cursor, y: v.shelves[i].y }),
        w + 2 * v.padding_px <= v.width && h + 2 * v.padding_px <= v.height && no_shelf_has_room(
            v,
            w + 2 * v.padding_px,
            h + 2 * v.padding_px,
        ) ==> (after_insert(v, key_code(k), w, h).1 is Full <==> v.next_shelf_y + h + 2 * v.padding_px
            > v.height),
        w + 2 * v.padding_px <= v.width && h + 2 * v.padding_px <= v.height && no_shelf_has_room(
            v,
            w + 2 * v.padding_px,
            h + 2 * v.padding_px,
        ) && v.next_shelf_y + h + 2 * v.padding_px <= v.height ==> after_insert(v, key_code(k), w, h).1 is Placed
            && after_insert(v, key_code(k), w, h).1->Placed_0.rect_px.min == (AtlasPx { x: 0, y: v.next_shelf_y }),
        after_insert(v, key_code(k), w, h).1 is Full ==> w + 2 * v.padding_px > v.width || h + 2
            * v.padding_px > v.height || (no_shelf_has_room(v, w + 2 * v.padding_px, h + 2 * v.padding_px)
            && v.next_shelf_y + h + 2 * v.padding_px > v.height),
{
    let pad = v.padding_px;
    let rw = reserved(w, pad);
    let rh = reserved(h, pad);
    let iw = w + 2 * pad;
    let ih = h + 2 * pad;
    assert(iw <= u32::MAX ==> rw == iw);
    assert(iw > u32::MAX ==> rw == u32::MAX);
    assert(ih <= u32::MAX ==> rh == ih);
    assert(ih > u32::MAX ==> rh == u32::MAX);
    if iw <= v.width && ih <= v.height {
        assert forall|j: int| 0 <= j < v.shelves.len() implies shelf_fits(#[trigger] v.shelves[j], rw, rh, v.width)
            == shelf_has_room(v.shelves[j], iw, ih, v.width as int) by {
            lemma_fits_iff_room(v.shelves[j], rw, rh, v.width);
        }
        lemma_first_fit_bounds(v.shelves, rw, rh, v.width);
        let f = first_fit(v.shelves, rw, rh, v.width);
        if first_with_room(v.shelves, i, iw, ih, v.width as int) {
            assert forall|j: int| 0 <= j < i implies !shelf_fits(#[trigger] v.shelves[j], rw, rh, v.width) by {
                assert(!shelf_has_room(v.shelves[j], iw, ih, v.width as int));
            }
            lemma_first_fit(v.shelves, rw, rh, v.width, i);
        }
        if no_shelf_has_room(v, iw, ih) {
            assert forall|j: int| 0 <= j < v.shelves.len() implies !shelf_fits(#[trigger] v.shelves[j], rw, rh, v.width) by {
                assert(!shelf_has_room(v.shelves[j], iw, ih, v.width as int));
            }
            lemma_first_fit(v.shelves, rw, rh, v.width, v.shelves.len() as int);
        }
        if f < v.shelves.len() {
            assert(shelf_has_room(v.shelves[f], iw, ih, v.width as int));
        } else {
            assert forall|j: int| 0 <= j < v.shelves.len() implies !shelf_has_room(#[trigger] v.shelves[j], iw, ih, v.width as int) by {
                lemma_first_fit_none(v.shelves, rw, rh, v.width, j);
            }
        }
    }
}

/// A new glyph with an empty bitmap (such as a space) is always cached, with an
/// empty rectangle at the origin and no UV area, whatever room the atlas has left;
/// the shelves do not change.
pub proof fn lemma_empty_bitmap_placed(v: AtlasView, k: GlyphKey, w: u32, h: u32)
    requires
        !v.cache.contains_key(key_code(k)),
        w == 0 || h == 0,
    ensures
        after_insert(v, key_code(k), w, h).1 is Placed,
        after_insert(v, key_code(k), w, h).1->Placed_0.rect_px.size == [0u32, 0u32],
        after_insert(v, key_code(k), w, h).1->Placed_0.rect_px.min == (AtlasPx { x: 0, y: 0 }),
        after_insert(v, key_code(k), w, h).1->Placed_0.uv_px.min == after_insert(v, key_code(k), w, h).1->Placed_0.uv_px.max,
        after_insert(v, key_code(k), w, h).0.shelves == v.shelves,
        after_insert(v, key_code(k), w, h).0.next_shelf_y == v.next_shelf_y,
{
}

/// Inserting keeps the packing invariant.
pub proof fn lemma_insert_preserves_packing(v: AtlasView, code: u128, w: u32, h: u32)
    requires
        packing_inv(v),
    ensures
        packing_inv(after_insert(v, code, w, h).0),
{
    let pad = v.padding_px;
    let rw = reserved(w, pad);
    let rh = reserved(h, pad);
    let nv = after_insert(v, code, w, h).0;
    if !unsaturated(v) || v.cache.contains_key(code) || rw > v.width || rh > v.height {
        return;
    }
    if w == 0 || h == 0 {
        assert forall|k: u128|
            #[trigger] nv.cache.contains_key(k) && nonempty(nv.cache[k].rect_px) implies in_some_shelf(
            nv.cache[k].rect_px,
            nv.shelves,
        ) by {
            assert(k != code);
            assert(v.cache.contains_key(k));
        }
        assert forall|k1: u128, k2: u128|
            #[trigger] nv.cache.contains_key(k1) && #[trigger] nv.cache.contains_key(k2) && k1 != k2
                && nonempty(nv.cache[k1].rect_px) && nonempty(nv.cache[k2].rect_px) implies disjoint(
            nv.cache[k1].rect_px,
            nv.cache[k2].rect_px,
        ) by {
            assert(v.cache.contains_key(k1) && v.cache.contains_key(k2));
        }
        return;
    }
    let i = first_fit(v.shelves, rw, rh, v.width);
    lemma_first_fit_bounds(v.shelves, rw, rh, v.width);
    if i < v.shelves.len() {
        let s = v.shelves[i];
        let p = placed_at(AtlasPx { x: s.x_cursor, y: s.y }, w, h, pad);
        let ns = Shelf { x_cursor: sat_add(s.x_cursor, rw), ..s };
        assert(rect_in_shelf(p.rect_px, ns));
        assert forall|j: int| 0 <= j < nv.shelves.len() implies (#[trigger] nv.shelves[j]).x_cursor
            <= nv.width && nv.shelves[j].y + nv.shelves[j].height <= nv.next_shelf_y by {
            assert(v.shelves[j].y + v.shelves[j].height <= v.next_shelf_y);
        }
        assert forall|a: int, b: int| 0 <= a < b < nv.shelves.len() implies #[trigger] nv.shelves[a].y
            + nv.shelves[a].height <= #[trigger] nv.shelves[b].y by {
            assert(v.shelves[a].y + v.shelves[a].height <= v.shelves[b].y);
        }
        assert forall|k: u128|
            #[trigger] nv.cache.contains_key(k) && nonempty(nv.cache[k].rect_px) implies in_some_shelf(
            nv.cache[k].rect_px,
            nv.shelves,
        ) by {
            if k == code {
                assert(rect_in_shelf(nv.cache[k].rect_px, nv.shelves[i]));
            } else {
                let r = v.cache[k].rect_px;
                assert(v.cache.contains_key(k));
                let j = choose|j: int| 0 <= j < v.shelves.len() && #[trigger] rect_in_shelf(r, v.shelves[j]);
                assert(rect_in_shelf(r, nv.shelves[j]));
            }
        }
        assert forall|k: u128|
            #[trigger] v.cache.contains_key(k) && nonempty(v.cache[k].rect_px) implies disjoint(
            v.cache[k].rect_px,
            p.rect_px,
        ) by {
            let r = v.cache[k].rect_px;
            let j = choose|j: int| 0 <= j < v.shelves.len() && #[trigger] rect_in_shelf(r, v.shelves[j]);
            if j < i {
                assert(v.shelves[j].y + v.shelves[j].height <= v.shelves[i].y);
            } else if j > i {
                assert(v.shelves[i].y + v.shelves[i].height <= v.shelves[j].y);
            }
        }
        assert forall|k1: u128, k2: u128|
            #[trigger] nv.cache.contains_key(k1) && #[trigger] nv.cache.contains_key(k2) && k1 != k2
                && nonempty(nv.cache[k1].rect_px) && nonempty(nv.cache[k2].rect_px) implies disjoint(
            nv.cache[k1].rect_px,
            nv.cache[k2].rect_px,
        ) by {
            if k1 == code {
                assert(v.cache.contains_key(k2));
            } else if k2 == code {
                assert(v.cache.contains_key(k1));
            } else {
                assert(v.cache.contains_key(k1) && v.cache.contains_key(k2));
            }
        }
    } else if sat_add(v.next_shelf_y, rh) > v.height {
    } else {
        let p = placed_at(AtlasPx { x: 0, y: v.next_shelf_y }, w, h, pad);
        let ns = Shelf { y: v.next_shelf_y, height: rh, x_cursor: sat_add(0, rw) };
        let n = v.shelves.len() as int;
        assert(nv.shelves[n] == ns);
        assert(rect_in_shelf(p.rect_px, ns));
        assert forall|j: int| 0 <= j < nv.shelves.len() implies (#[trigger] nv.shelves[j]).x_cursor
            <= nv.width && nv.shelves[j].y + nv.shelves[j].height <= nv.next_shelf_y by {
            if j < n {
                assert(nv.shelves[j] == v.shelves[j]);
                assert(v.shelves[j].y + v.shelves[j].height <= v.next_shelf_y);
            }
        }
        assert forall|a: int, b: int| 0 <= a < b < nv.shelves.len() implies #[trigger] nv.shelves[a].y
            + nv.shelves[a].height <= #[trigger] nv.shelves[b].y by {
            assert(nv.shelves[a] == v.shelves[a]);
            if b < n {
                assert(nv.shelves[b] == v.shelves[b]);
                assert(v.shelves[a].y + v.shelves[a].height <= v.shelves[b].y);
            } else {
                assert(v.shelves[a].y + v.shelves[a].height <= v.next_shelf_y);
            }
        }
        assert forall|k: u128|
            #[trigger] nv.cache.contains_key(k) && nonempty(nv.cache[k].rect_px) implies in_some_shelf(
            nv.cache[k].rect_px,
            nv.shelves,
        ) by {
            if k == code {
                assert(rect_in_shelf(nv.cache[k].rect_px, nv.shelves[n]));
            } else {
                let r = v.cache[k].rect_px;
                assert(v.cache.contains_key(k));
                let j = choose|j: int| 0 <= j < v.shelves.len() && #[trigger] rect_in_shelf(r, v.shelves[j]);
                assert(nv.shelves[j] == v.shelves[j]);
                assert(rect_in_shelf(r, nv.shelves[j]));
            }
        }
        assert forall|k: u128|
            #[trigger] v.cache.contains_key(k) && nonempty(v.cache[k].rect_px) implies disjoint(
            v.cache[k].rect_px,
            p.rect_px,
        ) by {
            let r = v.cache[k].rect_px;
            let j = choose|j: int| 0 <= j < v.shelves.len() && #[trigger] rect_in_shelf(r, v.shelves[j]);
            assert(v.shelves[j].y + v.shelves[j].height <= v.next_shelf_y);
        }
        assert forall|k1: u128, k2: u128|
            #[trigger] nv.cache.contains_key(k1) && #[trigger] nv.cache.contains_key(k2) && k1 != k2
                && nonempty(nv.cache[k1].rect_px) && nonempty(nv.cache[k2].rect_px) implies disjoint(
            nv.cache[k1].rect_px,
            nv.cache[k2].rect_px,
        ) by {
            if k1 == code {
                assert(v.cache.contains_key(k2));
            } else if k2 == code {
                assert(v.cache.contains_key(k1));
            } else {
                assert(v.cache.contains_key(k1) && v.cache.contains_key(k2));
            }
        }
    }
}

/// No two distinct cached glyphs with non-empty bitmaps overlap in the atlas
/// (for atlases smaller than `u32::MAX` in each dimension).
pub proof fn lemma_placements_disjoint(v: AtlasView, a: GlyphKey, b: GlyphKey)
    requires
        packing_inv(v),
        unsaturated(v),
        a != b,
        v.cache.contains_key(key_code(a)),
        v.cache.contains_key(key_code(b)),
        nonempty(v.cache[key_code(a)].rect_px),
        nonempty(v.cache[key_code(b)].rect_px),
    ensures
        disjoint(v.cache[key_code(a)].rect_px, v.cache[key_code(b)].rect_px),
{
    lemma_key_code_injective(a, b);
}

/// Every non-empty placement lies inside the atlas
/// (for atlases smaller than `u32::MAX` in each dimension).
pub proof fn lemma_placement_in_bounds(v: AtlasView, k: GlyphKey)
    requires
        packing_inv(v),
        unsaturated(v),
        v.cache.contains_key(key_code(k)),
        nonempty(v.cache[key_code(k)].rect_px),
    ensures
        v.cache[key_code(k)].rect_px.x_end() <= v.width,
        v.cache[key_code(k)].rect_px.y_end() <= v.height,
{
    let r = v.cache[key_code(k)].rect_px;
    assert(v.cache.contains_key(key_code(k)));
    let j = choose|j: int| 0 <= j < v.shelves.len() && #[trigger] rect_in_shelf(r, v.shelves[j]);
    assert(v.shelves[j].x_cursor <= v.width);
}

/// After an insertion that is not refused, the glyph is cached: a fresh placement is
/// what a later lookup returns, a cache hit changes nothing, and a refusal (`Full`)
/// changes nothing either. Placements of other glyphs never move.
pub proof fn lemma_insert_then_lookup(v: AtlasView, k: GlyphKey, w: u32, h: u32, other: GlyphKey)
    ensures
        ({
            let (nv, r) = after_insert(v, key_code(k), w, h);
            &&& r is Placed ==> !v.cache.contains_key(key_code(k)) && nv.cache.contains_key(
                key_code(k),
            ) && nv.cache[key_code(k)] == r->Placed_0
            &&& r is AlreadyPresent <==> v.cache.contains_key(key_code(k))
            &&& !(r is Placed) ==> nv == v
            &&& other != k ==> (nv.cache.contains_key(key_code(other)) <==> v.cache.contains_key(
                key_code(other),
            ))
            &&& other != k && v.cache.contains_key(key_code(other)) ==> nv.cache[key_code(other)]
                == v.cache[key_code(other)]
            &&& nv.width == v.width && nv.height == v.height && nv.padding_px == v.padding_px
        }),
{
    lemma_key_code_injective(k, other);
}

/// Inserting a glyph a second time is a cache hit and changes nothing.
pub proof fn lemma_insert_idempotent(v: AtlasView, k: GlyphKey, w: u32, h: u32)
    requires
        !(after_insert(v, key_code(k), w, h).1 is Full),
    ensures
        ({
            let nv = after_insert(v, key_code(k), w, h).0;
            after_insert(nv, key_code(k), w, h) == (nv, AtlasInsert::AlreadyPresent)
        }),
{
}

/// A fresh placement of a non-empty bitmap reserves the bitmap plus the padding on each
/// side, and its UV area is the bitmap itself, inset by the padding
/// (for atlases smaller than `u32::MAX` in each dimension).
pub proof fn lemma_placement_geometry(v: AtlasView, k: GlyphKey, w: u32, h: u32)
    requires
        packing_inv(v),
        unsaturated(v),
        w > 0,
        h > 0,
        after_insert(v, key_code(k), w, h).1 is Placed,
        !v.cache.contains_key(key_code(k)),
    ensures
        ({
            let p = after_insert(v, key_code(k), w, h).1->Placed_0;
            let pad = v.padding_px as int;
            &&& p.rect_px.size[0] == w + 2 * pad
            &&& p.rect_px.size[1] == h + 2 * pad
            &&& p.padding_px == v.padding_px
            &&& p.uv_px.min[0] == p.rect_px.min.x + pad
            &&& p.uv_px.min[1] == p.rect_px.min.y + pad
            &&& p.uv_px.max[0] == p.uv_px.min[0] + w
            &&& p.uv_px.max[1] == p.uv_px.min[1] + h
            &&& p.rect_px.x_end() <= v.width
            &&& p.rect_px.y_end() <= v.height
        }),
{
    let rw = reserved(w, v.padding_px);
    let rh = reserved(h, v.padding_px);
    lemma_first_fit_bounds(v.shelves, rw, rh, v.width);
    let i = first_fit(v.shelves, rw, rh, v.width);
    if i < v.shelves.len() {
        assert(v.shelves[i].y + v.shelves[i].height <= v.next_shelf_y);
    }
}

proof fn lemma_first_fit_bounds(shelves: Seq<Shelf>, rw: u32, rh: u32, width: u32)
    ensures
        0 <= first_fit(shelves, rw, rh, width) <= shelves.len(),
        first_fit(shelves, rw, rh, width) < shelves.len() ==> shelf_fits(
            shelves[first_fit(shelves, rw, rh, width)],
            rw,
            rh,
            width,
        ),
    decreases shelves.len(),
{
    if shelves.len() > 0 && !shelf_fits(shelves[0], rw, rh, width) {
        let rest = shelves.drop_first();
        lemma_first_fit_bounds(rest, rw, rh, width);
        let f = first_fit(rest, rw, rh, width);
        if f < rest.len() {
            assert(rest[f] == shelves[f + 1]);
        }
    }
}

/// A simple atlas allocator + placement cache.
///
/// The allocator reserves a padding border around each glyph to reduce sampling artifacts.
pub struct GlyphAtlas {
    width: u32,
    height: u32,
    padding_px: u32,
    shelves: Vec<Shelf>,
    next_shelf_y: u32,
    cache: HashMap<u128, PlacedGlyph>,
}

impl View for GlyphAtlas {
    type V = AtlasView;

    closed spec fn view(&self) -> AtlasView {
        AtlasView {
            width: self.width,
            height: self.height,
            padding_px: self.padding_px,
            shelves: self.shelves@,
            next_shelf_y: self.next_shelf_y,
            cache: self.cache@,
        }
    }
}

fn double_saturating(a: u32) -> (r: u32)
    ensures
        r == sat_double(a),
{
    if a <= u32::MAX / 2 {
        a * 2
    } else {
        u32::MAX
    }
}

/// Every glyph fitting none of the first `i` shelves but the `i`-th (or no shelf at all,
/// when `i` is the number of shelves) makes `i` the first fit.
proof fn lemma_first_fit(shelves: Seq<Shelf>, rw: u32, rh: u32, width: u32, i: int)
    requires
        0 <= i <= shelves.len(),
        forall|j: int| 0 <= j < i ==> !shelf_fits(#[trigger] shelves[j], rw, rh, width),
        i < shelves.len() ==> shelf_fits(shelves[i], rw, rh, width),
    ensures
        first_fit(shelves, rw, rh, width) == i,
    decreases i,
{
    if i > 0 {
        let rest = shelves.drop_first();
        assert forall|j: int| 0 <= j < i - 1 implies !shelf_fits(#[trigger] rest[j], rw, rh, width) by {
            assert(rest[j] == shelves[j + 1]);
        }
        assert(!shelf_fits(shelves[0], rw, rh, width));
        lemma_first_fit(rest, rw, rh, width, i - 1);
    } else if shelves.len() > 0 {
        assert(shelf_fits(shelves[0], rw, rh, width));
    }
}

impl GlyphAtlas {
    /// The atlas is well formed: it satisfies the packing invariant.
    pub open spec fn wf(&self) -> bool {
        packing_inv(self@)
    }

    /// Create an atlas of fixed size.
    ///
    /// `padding_px` is reserved around each glyph. A value of 1 is typical for linear sampling.
    pub fn new(width: u32, height: u32, padding_px: u32) -> (r: Self)
        ensures
            r.wf(),
            r@.width == width,
            r@.height == height,
            r@.padding_px == padding_px,
            r@.shelves == Seq::<Shelf>::empty(),
            r@.next_shelf_y == 0,
            r@.cache == Map::<u128, PlacedGlyph>::empty(),
    {
        Self {
            width,
            height,
            padding_px,
            shelves: Vec::new(),
            next_shelf_y: 0,
            cache: HashMap::new(),
        }
    }

    pub fn width(&self) -> (r: u32)
        ensures
            r == self@.width,
    {
        self.width
    }

    pub fn height(&self) -> (r: u32)
        ensures
            r == self@.height,
    {
        self.height
    }

    pub fn padding_px(&self) -> (r: u32)
        ensures
            r == self@.padding_px,
    {
        self.padding_px
    }

    /// Clear the atlas allocator and cache.
    ///
    /// The caller is responsible for clearing/re-initializing the GPU texture as needed.
    pub fn clear(&mut self)
        ensures
            final(self).wf(),
            final(self)@.width == old(self)@.width,
            final(self)@.height == old(self)@.height,
            final(self)@.padding_px == old(self)@.padding_px,
            final(self)@.shelves == Seq::<Shelf>::empty(),
            final(self)@.next_shelf_y == 0,
            final(self)@.cache == Map::<u128, PlacedGlyph>::empty(),
    {
        self.shelves.clear();
        self.next_shelf_y = 0;
        self.cache.clear();
    }

    /// Lookup an existing glyph placement.
    pub fn get(&self, key: &GlyphKey) -> (r: Option<PlacedGlyph>)
        ensures
            r == (if self@.cache.contains_key(key_code(*key)) {
                Some(self@.cache[key_code(*key)])
            } else {
                None
            }),
    {
        let code = key.cache_code();
        match self.cache.get(&code) {
            Some(p) => Some(*p),
            None => None,
        }
    }

    /// Returns the pixel rect (including padding) that should be updated in the GPU texture.
    pub fn upload_rect_px(placed: PlacedGlyph) -> (r: AtlasRectPx)
        ensures
            r == placed.rect_px,
    {
        placed.rect_px
    }

    /// Insert a glyph if absent.
    ///
    /// `bitmap_size_px` is the glyph bitmap dimensions (width, height) **excluding padding**.
    /// Returns `AlreadyPresent` on a cache hit, `Placed(..)` with the placement when space
    /// is found (first shelf that fits, else a new shelf), and `Full` when no space remains.
    pub fn insert(&mut self, key: GlyphKey, bitmap_size_px: [u32; 2]) -> (r: AtlasInsert)
        requires
            old(self).wf(),
        ensures
            final(self).wf(),
            (final(self)@, r) == after_insert(
                old(self)@,
                key_code(key),
                bitmap_size_px[0],
                bitmap_size_px[1],
            ),
    {
        let ghost v0 = self@;
        let code = key.cache_code();
        proof {
            lemma_insert_preserves_packing(v0, code, bitmap_size_px[0], bitmap_size_px[1]);
        }
        if self.cache.contains_key(&code) {
            return AtlasInsert::AlreadyPresent;
        }
        let glyph_w = bitmap_size_px[0];
        let glyph_h = bitmap_size_px[1];

        // An empty bitmap (e.g. whitespace) is still cached, with a 0-area rect.
        if glyph_w == 0 || glyph_h == 0 {
            let placed = PlacedGlyph {
                rect_px: AtlasRectPx::new(AtlasPx::new(0, 0), [0, 0]),
                padding_px: self.padding_px,
                uv_px: UvRectPx { min: [0, 0], max: [0, 0] },
            };
            self.cache.insert(code, placed);
            assert(self@ =~= after_insert(v0, code, glyph_w, glyph_h).0);
            return AtlasInsert::Placed(placed);
        }

        // Total reserved size includes padding on all sides.
        let pad = self.padding_px;
        let reserved_w = glyph_w.saturating_add(double_saturating(pad));
        let reserved_h = glyph_h.saturating_add(double_saturating(pad));

        // Quick reject if it can never fit.
        if reserved_w > self.width || reserved_h > self.height {
            return AtlasInsert::Full;
        }

        // Try to fit in existing shelves: first shelf that fits, left-to-right within it.
        let n = self.shelves.len();
        let mut i: usize = 0;
        while i < n
            invariant
                n == self.shelves.len(),
                i <= n,
                self@ == v0,
                v0 == old(self)@,
                packing_inv(after_insert(v0, code, bitmap_size_px[0], bitmap_size_px[1]).0),
                code == key_code(key),
                !v0.cache.contains_key(code),
                glyph_w == bitmap_size_px[0],
                glyph_h == bitmap_size_px[1],
                glyph_w > 0 && glyph_h > 0,
                pad == v0.padding_px,
                reserved_w == reserved(glyph_w, pad),
                reserved_h == reserved(glyph_h, pad),
                reserved_w <= v0.width && reserved_h <= v0.height,
                forall|j: int|
                    0 <= j < i ==> !shelf_fits(#[trigger] v0.shelves[j], reserved_w, reserved_h, v0.width),
            decreases n - i,
        {
            let shelf = self.shelves[i];
            if reserved_h <= shelf.height {
                let x = shelf.x_cursor;
                if x.saturating_add(reserved_w) <= self.width {
                    proof {
                        lemma_first_fit(v0.shelves, reserved_w, reserved_h, v0.width, i as int);
                    }
                    self.shelves.set(
                        i,
                        Shelf { y: shelf.y, height: shelf.height, x_cursor: x.saturating_add(reserved_w) },
                    );
                    let min = AtlasPx::new(x, shelf.y);
                    let placed = self.make_placed(min, glyph_w, glyph_h);
                    self.cache.insert(code, placed);
                    assert(self@ =~= after_insert(v0, code, glyph_w, glyph_h).0);
                    return AtlasInsert::Placed(placed);
                }
            }
            i += 1;
        }
        proof {
            lemma_first_fit(v0.shelves, reserved_w, reserved_h, v0.width, n as int);
        }

        // Create a new shelf.
        if self.next_shelf_y.saturating_add(reserved_h) > self.height {
            return AtlasInsert::Full;
        }
        let mut new_shelf = Shelf { y: self.next_shelf_y, height: reserved_h, x_cursor: 0 };
        let min = match self.try_place_in_shelf(&mut new_shelf, reserved_w, reserved_h) {
            Some(min) => min,
            None => {
                // Impossible: `reserved_w <= width` was checked above.
                return AtlasInsert::Full;
            },
        };
        self.next_shelf_y = self.next_shelf_y.saturating_add(new_shelf.height);
        self.shelves.push(new_shelf);
        let placed = self.make_placed(min, glyph_w, glyph_h);
        self.cache.insert(code, placed);
        assert(self@ =~= after_insert(v0, code, glyph_w, glyph_h).0);
        AtlasInsert::Placed(placed)
    }

    fn make_placed(&self, min: AtlasPx, glyph_w: u32, glyph_h: u32) -> (r: PlacedGlyph)
        ensures
            r == placed_at(min, glyph_w, glyph_h, self.padding_px),
    {
        let pad = self.padding_px;
        let reserved_w = glyph_w.saturating_add(double_saturating(pad));
        let reserved_h = glyph_h.saturating_add(double_saturating(pad));
        let rect_px = AtlasRectPx::new(min, [reserved_w, reserved_h]);

        // The UV area is the glyph bitmap (excluding padding).
        let glyph_min_x = min.x.saturating_add(pad);
        let glyph_min_y = min.y.saturating_add(pad);
        let glyph_max_x = glyph_min_x.saturating_add(glyph_w);
        let glyph_max_y = glyph_min_y.saturating_add(glyph_h);

        PlacedGlyph {
            rect_px,
            padding_px: pad,
            uv_px: UvRectPx { min: [glyph_min_x, glyph_min_y], max: [glyph_max_x, glyph_max_y] },
        }
    }

    fn try_place_in_shelf(&self, shelf: &mut Shelf, reserved_w: u32, _reserved_h: u32) -> (r:
        Option<AtlasPx>)
        ensures
            sat_add(old(shelf).x_cursor, reserved_w) > self@.width ==> r is None && *final(shelf)
                == *old(shelf),
            sat_add(old(shelf).x_cursor, reserved_w) <= self@.width ==> r == Some(
                AtlasPx { x: old(shelf).x_cursor, y: old(shelf).y },
            ) && *final(shelf) == (Shelf {
                x_cursor: sat_add(old(shelf).x_cursor, reserved_w),
                ..*old(shelf)
            }),
    {
        let x = shelf.x_cursor;
        if x.saturating_add(reserved_w) > self.width {
            return None;
        }
        shelf.x_cursor = shelf.x_cursor.saturating_add(reserved_w);
        Some(AtlasPx::new(x, shelf.y))
    }
}

} // verus!
