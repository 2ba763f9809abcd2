//! Tiny built-in bitmap font used as a fallback for text rendering.
//!
//! ASCII-ish coverage, monospaced metrics, and a CPU raster that outputs an `R8`
//! coverage mask (one byte per pixel, row-major) suitable for an `R8Unorm` atlas.
//! Glyphs are drawn procedurally from a handful of strokes: horizontal and vertical
//! bars, square dots and single pixels inside a padded cell.

use vstd::prelude::*;

verus! {

/// Pixel `(x, y)` of a row-major bitmap `w` pixels wide.
pub open spec fn pix(s: Seq<u8>, w: u32, x: int, y: int) -> u8 {
    s[y * w + x]
}

/// `new` is `old` with exactly the pixels selected by `cover` set to full coverage (255).
pub open spec fn paints(
    old: Seq<u8>,
    new: Seq<u8>,
    w: u32,
    h: u32,
    cover: spec_fn(int, int) -> bool,
) -> bool {
    &&& new.len() == old.len()
    &&& forall|x: int, y: int|
        0 <= x < w && 0 <= y < h ==> #[trigger] pix(new, w, x, y) == if cover(x, y) {
            255u8
        } else {
            pix(old, w, x, y)
        }
}

/// `a + b`, saturating at 255.
pub open spec fn sat_add_u8(a: u8, b: u8) -> u8 {
    if a + b > 255 {
        255u8
    } else {
        (a + b) as u8
    }
}

/// Pixel coordinates inside a `w` x `h` bitmap name distinct, in-range indices.
proof fn lemma_pixel_index(w: u32, h: u32, x: int, y: int, x2: int, y2: int)
    requires
        0 <= x < w,
        0 <= y < h,
        0 <= x2 < w,
        0 <= y2 < h,
    ensures
        0 <= y * w + x < w * h,
        y * w + x == y2 * w + x2 ==> x == x2 && y == y2,
{
    assert(0 <= y * w + x < w * h) by (nonlinear_arith)
        requires
            0 <= x < w,
            0 <= y < h,
    ;
    if y * w + x == y2 * w + x2 {
        assert(y == y2) by (nonlinear_arith)
            requires
                y * w + x == y2 * w + x2,
                0 <= x < w,
                0 <= x2 < w,
        ;
    }
}

/// Painting `c1` then `c2` paints their union.
proof fn lemma_paints_then(
    a: Seq<u8>,
    b: Seq<u8>,
    c: Seq<u8>,
    w: u32,
    h: u32,
    c1: spec_fn(int, int) -> bool,
    c2: spec_fn(int, int) -> bool,
)
    requires
        paints(a, b, w, h, c1),
        paints(b, c, w, h, c2),
    ensures
        paints(a, c, w, h, |x: int, y: int| c1(x, y) || c2(x, y)),
{
    assert forall|x: int, y: int| 0 <= x < w && 0 <= y < h implies #[trigger] pix(c, w, x, y) == if (
    |x: int, y: int| c1(x, y) || c2(x, y))(x, y) {
        255u8
    } else {
        pix(a, w, x, y)
    } by {
        assert(pix(b, w, x, y) == if c1(x, y) {
            255u8
        } else {
            pix(a, w, x, y)
        });
    }
}

/// Painting nothing leaves the bitmap as it is.
proof fn lemma_paints_nothing(a: Seq<u8>, w: u32, h: u32)
    ensures
        paints(a, a, w, h, |x: int, y: int| false),
{
}

/// Two covers that agree on every pixel paint the same.
proof fn lemma_paints_same_cover(
    a: Seq<u8>,
    b: Seq<u8>,
    w: u32,
    h: u32,
    c1: spec_fn(int, int) -> bool,
    c2: spec_fn(int, int) -> bool,
)
    requires
        paints(a, b, w, h, c1),
        forall|x: int, y: int| 0 <= x < w && 0 <= y < h ==> #[trigger] c1(x, y) == c2(x, y),
    ensures
        paints(a, b, w, h, c2),
{
    assert forall|x: int, y: int| 0 <= x < w && 0 <= y < h implies #[trigger] pix(b, w, x, y) == if c2(
        x,
        y,
    ) {
        255u8
    } else {
        pix(a, w, x, y)
    } by {
        assert(pix(b, w, x, y) == if c1(x, y) {
            255u8
        } else {
            pix(a, w, x, y)
        });
    }
}


/// Sets pixel `(x, y)` to full coverage; pixels outside the bitmap are ignored.
fn fill_px(pixels: &mut Vec<u8>, w: u32, h: u32, x: u32, y: u32)
    requires
        old(pixels)@.len() == w * h,
        w * h <= u32::MAX,
    ensures
        paints(old(pixels)@, final(pixels)@, w, h, |px: int, py: int| px == x && py == y),
{
    DebugFont::set_px(pixels, w, h, x, y, 255);
}



/// The geometry a glyph is drawn in: the bitmap size, the stroke thickness `t`, and the
/// padded box `[x0, x1) x [y0, y1)` with its midlines.
#[derive(Clone, Copy, Debug, PartialEq, Eq)]
pub struct GlyphCell {
    pub w: u32,
    pub h: u32,
    pub t: u32,
    pub box_w: u32,
    pub box_h: u32,
    pub x0: u32,
    pub y0: u32,
    pub x1: u32,
    pub y1: u32,
    pub mid_x: u32,
    pub mid_y: u32,
}

/// The cell of a `w` x `h` bitmap padded by `pad_x`, `pad_y` around a `box_w` x `box_h`
/// box, drawn with strokes `scale` pixels thick.
pub open spec fn cell_of(w: u32, h: u32, pad_x: u32, pad_y: u32, box_w: u32, box_h: u32, scale: u32) -> GlyphCell {
    GlyphCell {
        w,
        h,
        t: scale,
        box_w,
        box_h,
        x0: pad_x,
        y0: pad_y,
        x1: (pad_x + box_w) as u32,
        y1: (pad_y + box_h) as u32,
        mid_x: (pad_x + box_w / 2) as u32,
        mid_y: (pad_y + box_h / 2) as u32,
    }
}

/// Limits under which every coordinate the glyph strokes use fits its machine type.
pub open spec fn cell_fits(pad_x: u32, pad_y: u32, box_w: u32, box_h: u32, scale: u32) -> bool {
    &&& pad_x + box_w <= i32::MAX
    &&& pad_y + box_h <= i32::MAX
    &&& 3 * scale <= u32::MAX
    &&& box_w * box_h <= u32::MAX
}

/// `a - b`, saturating at 0.
pub open spec fn sat_sub(a: u32, b: u32) -> u32 {
    if a < b {
        0
    } else {
        (a - b) as u32
    }
}

/// `a + b`, saturating at `u32::MAX`.
pub open spec fn sat_add(a: u32, b: u32) -> u32 {
    if a + b > u32::MAX {
        u32::MAX
    } else {
        (a + b) as u32
    }
}

/// One stroke of a glyph (thickness and dot centre come from the cell).
#[derive(Clone, Copy, Debug, PartialEq, Eq)]
pub enum Stroke {
    /// Horizontal bar `[x0, x1) x [y, y + t)`.
    H { x0: u32, x1: u32, y: u32 },
    /// Vertical bar `[x, x + t) x [y0, y1)`.
    V { x: u32, y0: u32, y1: u32 },
    /// A `t` x `t` square at the cell centre moved by `(dx, dy)` (clamped at 0).
    Dot { dx: i32, dy: i32 },
    /// A single pixel.
    Px { x: u32, y: u32 },
}

/// Top-left corner of a dot, on one axis.
pub open spec fn dot_origin(mid: u32, d: i32) -> int {
    if mid + d < 0 {
        0
    } else {
        mid + d
    }
}

/// Whether a stroke covers pixel `(px, py)`.
pub open spec fn covers(s: Stroke, c: GlyphCell, px: int, py: int) -> bool {
    match s {
        Stroke::H { x0, x1, y } => x0 <= px < x1 && y <= py < y + c.t,
        Stroke::V { x, y0, y1 } => x <= px < x + c.t && y0 <= py < y1,
        Stroke::Dot { dx, dy } => {
            let xx = dot_origin(c.mid_x, dx);
            let yy = dot_origin(c.mid_y, dy);
            xx <= px < xx + c.t && yy <= py < yy + c.t
        },
        Stroke::Px { x, y } => px == x && py == y,
    }
}

/// Whether one of the first `n` strokes covers pixel `(px, py)`.
pub open spec fn covered_upto(strokes: Seq<Stroke>, n: int, c: GlyphCell, px: int, py: int) -> bool
    decreases n,
{
    if n <= 0 {
        false
    } else {
        covered_upto(strokes, n - 1, c, px, py) || covers(strokes[n - 1], c, px, py)
    }
}

/// Whether any of the strokes covers pixel `(px, py)`.
pub open spec fn covered(strokes: Seq<Stroke>, c: GlyphCell, px: int, py: int) -> bool {
    covered_upto(strokes, strokes.len() as int, c, px, py)
}

/// `-q` as an `i32` (for the non-negative quarter extents used by dots).
pub open spec fn neg(q: i32) -> i32 {
    (-q) as i32
}

/// The four bars outlining the cell's box (the placeholder glyph).
pub open spec fn box_strokes(c: GlyphCell) -> Seq<Stroke> {
    seq![
        Stroke::H { x0: c.x0, x1: c.x1, y: c.y0 },
        Stroke::H { x0: c.x0, x1: c.x1, y: sat_sub(c.y1, c.t) },
        Stroke::V { x: c.x0, y0: c.y0, y1: c.y1 },
        Stroke::V { x: sat_sub(c.x1, c.t), y0: c.y0, y1: c.y1 },
    ]
}

/// The strokes of a letter or digit: crude seven-segment style shapes; letters without
/// a dedicated shape get the placeholder box.
pub open spec fn alnum_strokes(ch: char, c: GlyphCell) -> Seq<Stroke> {
    let t = c.t;
    let top = Stroke::H { x0: c.x0, x1: c.x1, y: c.y0 };
    let mid = Stroke::H { x0: c.x0, x1: c.x1, y: c.mid_y };
    let bot = Stroke::H { x0: c.x0, x1: c.x1, y: sat_sub(c.y1, t) };
    let left = Stroke::V { x: c.x0, y0: c.y0, y1: c.y1 };
    let rx = sat_sub(c.x1, t);
    let right = Stroke::V { x: rx, y0: c.y0, y1: c.y1 };
    let right_up = Stroke::V { x: rx, y0: c.y0, y1: c.mid_y };
    let right_down = Stroke::V { x: rx, y0: c.mid_y, y1: c.y1 };
    let left_up = Stroke::V { x: c.x0, y0: c.y0, y1: c.mid_y };
    let left_down = Stroke::V { x: c.x0, y0: c.mid_y, y1: c.y1 };
    let stem = Stroke::V { x: c.mid_x, y0: c.y0, y1: c.y1 };
    let qw = (c.box_w / 4) as i32;
    let qh = (c.box_h / 4) as i32;
    if ch == '0' {
        seq![top, bot, left, right]
    } else if ch == '1' {
        seq![right]
    } else if ch == '2' {
        seq![top, mid, bot, right_up, left_down]
    } else if ch == '3' {
        seq![top, mid, bot, right]
    } else if ch == '4' {
        seq![mid, left, right]
    } else if ch == '5' {
        seq![top, mid, bot, left_up, right_down]
    } else if ch == '6' {
        seq![top, mid, bot, left, right_down]
    } else if ch == '7' {
        seq![top, right]
    } else if ch == '8' {
        seq![top, mid, bot, left, right]
    } else if ch == '9' {
        seq![top, mid, bot, right, left_up]
    } else if ch == 'A' || ch == 'a' {
        seq![top, mid, left, right]
    } else if ch == 'B' || ch == 'b' {
        seq![left, top, mid, bot, right_up, right_down]
    } else if ch == 'C' || ch == 'c' {
        seq![top, bot, left]
    } else if ch == 'D' || ch == 'd' {
        seq![left, top, bot, right]
    } else if ch == 'E' || ch == 'e' {
        seq![left, top, mid, bot]
    } else if ch == 'F' || ch == 'f' {
        seq![left, top, mid]
    } else if ch == 'G' || ch == 'g' {
        seq![top, bot, left, Stroke::H { x0: c.mid_x, x1: c.x1, y: c.mid_y }, right_down]
    } else if ch == 'H' || ch == 'h' {
        seq![left, right, mid]
    } else if ch == 'I' || ch == 'i' {
        seq![top, bot, stem]
    } else if ch == 'L' || ch == 'l' {
        seq![left, bot]
    } else if ch == 'M' || ch == 'm' {
        seq![left, right, Stroke::Dot { dx: neg(qw), dy: neg(qh) }, Stroke::Dot { dx: qw, dy: neg(qh) }]
    } else if ch == 'N' || ch == 'n' {
        seq![left, right, Stroke::Dot { dx: 0, dy: neg(qh) }, Stroke::Dot { dx: 0, dy: qh }]
    } else if ch == 'O' || ch == 'o' {
        seq![top, bot, left, right]
    } else if ch == 'P' || ch == 'p' {
        seq![left, top, mid, right_up]
    } else if ch == 'R' || ch == 'r' {
        seq![left, top, mid, right_up, Stroke::Dot { dx: 0, dy: qh }]
    } else if ch == 'S' || ch == 's' {
        seq![top, mid, bot, left_up, right_down]
    } else if ch == 'T' || ch == 't' {
        seq![top, stem]
    } else if ch == 'U' || ch == 'u' {
        seq![left, right, bot]
    } else if ch == 'X' || ch == 'x' {
        seq![
            Stroke::Dot { dx: neg(qw), dy: neg(qh) },
            Stroke::Dot { dx: qw, dy: neg(qh) },
            Stroke::Dot { dx: neg(qw), dy: qh },
            Stroke::Dot { dx: qw, dy: qh },
        ]
    } else if ch == 'Y' || ch == 'y' {
        seq![
            mid,
            Stroke::V { x: c.mid_x, y0: c.mid_y, y1: c.y1 },
            Stroke::Dot { dx: neg(qw), dy: neg(qh) },
            Stroke::Dot { dx: qw, dy: neg(qh) },
        ]
    } else if ch == 'Z' || ch == 'z' {
        seq![top, bot, Stroke::Dot { dx: qw, dy: neg(qh) }, Stroke::Dot { dx: neg(qw), dy: qh }]
    } else {
        box_strokes(c)
    }
}

/// The strokes of a punctuation mark (the two slashes are drawn as diagonals instead).
pub open spec fn punct_strokes(ch: char, c: GlyphCell) -> Seq<Stroke> {
    let t = c.t;
    let dot_low = Stroke::Px { x: c.mid_x, y: sat_sub(c.y1, (2 * t) as u32) };
    let half = c.box_w / 2;
    if ch == '-' {
        seq![Stroke::H { x0: c.x0, x1: c.x1, y: c.mid_y }]
    } else if ch == '_' {
        seq![Stroke::H { x0: c.x0, x1: c.x1, y: sat_sub(c.y1, t) }]
    } else if ch == '.' {
        seq![dot_low]
    } else if ch == ',' {
        seq![dot_low, Stroke::Px { x: sat_sub(c.mid_x, t), y: sat_sub(c.y1, t) }]
    } else if ch == ':' {
        seq![
            Stroke::Px { x: c.mid_x, y: sat_sub(c.mid_y, (2 * t) as u32) },
            Stroke::Px { x: c.mid_x, y: sat_add(c.mid_y, (2 * t) as u32) },
        ]
    } else if ch == '!' {
        seq![Stroke::V { x: c.mid_x, y0: c.y0, y1: sat_sub(c.y1, (3 * t) as u32) }, dot_low]
    } else if ch == '?' {
        seq![
            Stroke::H { x0: c.x0, x1: c.x1, y: c.y0 },
            Stroke::V { x: sat_sub(c.x1, t), y0: c.y0, y1: c.mid_y },
            Stroke::H { x0: c.x0, x1: c.x1, y: c.mid_y },
            dot_low,
        ]
    } else if ch == '+' {
        seq![Stroke::H { x0: c.x0, x1: c.x1, y: c.mid_y }, Stroke::V { x: c.mid_x, y0: c.y0, y1: c.y1 }]
    } else if ch == '=' {
        seq![
            Stroke::H { x0: c.x0, x1: c.x1, y: sat_sub(c.mid_y, (2 * t) as u32) },
            Stroke::H { x0: c.x0, x1: c.x1, y: sat_add(c.mid_y, (2 * t) as u32) },
        ]
    } else if ch == '(' {
        seq![
            Stroke::V { x: c.x0, y0: c.y0, y1: c.y1 },
            Stroke::Px { x: sat_add(c.x0, t), y: c.y0 },
            Stroke::Px { x: sat_add(c.x0, t), y: sat_sub(c.y1, t) },
        ]
    } else if ch == ')' {
        seq![
            Stroke::V { x: sat_sub(c.x1, t), y0: c.y0, y1: c.y1 },
            Stroke::Px { x: sat_sub(c.x1, (2 * t) as u32), y: c.y0 },
            Stroke::Px { x: sat_sub(c.x1, (2 * t) as u32), y: sat_sub(c.y1, t) },
        ]
    } else if ch == '[' {
        seq![
            Stroke::V { x: c.x0, y0: c.y0, y1: c.y1 },
            Stroke::H { x0: c.x0, x1: (c.x0 + half) as u32, y: c.y0 },
            Stroke::H { x0: c.x0, x1: (c.x0 + half) as u32, y: sat_sub(c.y1, t) },
        ]
    } else if ch == ']' {
        seq![
            Stroke::V { x: sat_sub(c.x1, t), y0: c.y0, y1: c.y1 },
            Stroke::H { x0: (c.x1 - half) as u32, x1: c.x1, y: c.y0 },
            Stroke::H { x0: (c.x1 - half) as u32, x1: c.x1, y: sat_sub(c.y1, t) },
        ]
    } else {
        box_strokes(c)
    }
}

/// Number of pixels drawn along a diagonal.
pub open spec fn diag_steps(c: GlyphCell) -> u32 {
    if c.box_h < 1 {
        1
    } else {
        c.box_h
    }
}

/// Column of the `i`-th pixel of a diagonal: `\` runs right from the left edge,
/// `/` runs left from the right edge.
pub open spec fn diag_x(c: GlyphCell, back: bool, i: int) -> int {
    let off = (i * c.box_w / diag_steps(c) as int) as u32;
    if back {
        sat_add(c.x0, off) as int
    } else {
        sat_sub(sat_sub(c.x1, 1), off) as int
    }
}

/// Whether one of the first `n` pixels of a diagonal is `(px, py)`.
pub open spec fn diag_upto(c: GlyphCell, back: bool, n: int, px: int, py: int) -> bool
    decreases n,
{
    if n <= 0 {
        false
    } else {
        diag_upto(c, back, n - 1, px, py) || (px == diag_x(c, back, n - 1) && py == sat_add(
            c.y0,
            (n - 1) as u32,
        ))
    }
}

/// Whether a punctuation mark covers pixel `(px, py)`.
pub open spec fn punct_covers(ch: char, c: GlyphCell, px: int, py: int) -> bool {
    if ch == '/' {
        diag_upto(c, false, diag_steps(c) as int, px, py)
    } else if ch == '\\' {
        diag_upto(c, true, diag_steps(c) as int, px, py)
    } else {
        covered(punct_strokes(ch, c), c, px, py)
    }
}

fn box_stroke_list(c: GlyphCell) -> (v: Vec<Stroke>)
    ensures
        v@ == box_strokes(c),
        forall|i: int| 0 <= i < v@.len() ==> dot_ok(#[trigger] v@[i], c),
{
    vec![
        Stroke::H { x0: c.x0, x1: c.x1, y: c.y0 },
        Stroke::H { x0: c.x0, x1: c.x1, y: c.y1.saturating_sub(c.t) },
        Stroke::V { x: c.x0, y0: c.y0, y1: c.y1 },
        Stroke::V { x: c.x1.saturating_sub(c.t), y0: c.y0, y1: c.y1 },
    ]
}

fn alnum_stroke_list(ch: char, c: GlyphCell) -> (v: Vec<Stroke>)
    requires
        c.box_w <= i32::MAX,
        c.box_h <= i32::MAX,
        c.mid_x + c.box_w / 4 <= i32::MAX,
        c.mid_y + c.box_h / 4 <= i32::MAX,
    ensures
        v@ == alnum_strokes(ch, c),
        forall|i: int| 0 <= i < v@.len() ==> dot_ok(#[trigger] v@[i], c),
{
    let t = c.t;
    let top = Stroke::H { x0: c.x0, x1: c.x1, y: c.y0 };
    let mid = Stroke::H { x0: c.x0, x1: c.x1, y: c.mid_y };
    let bot = Stroke::H { x0: c.x0, x1: c.x1, y: c.y1.saturating_sub(t) };
    let left = Stroke::V { x: c.x0, y0: c.y0, y1: c.y1 };
    let rx = c.x1.saturating_sub(t);
    let right = Stroke::V { x: rx, y0: c.y0, y1: c.y1 };
    let right_up = Stroke::V { x: rx, y0: c.y0, y1: c.mid_y };
    let right_down = Stroke::V { x: rx, y0: c.mid_y, y1: c.y1 };
    let left_up = Stroke::V { x: c.x0, y0: c.y0, y1: c.mid_y };
    let left_down = Stroke::V { x: c.x0, y0: c.mid_y, y1: c.y1 };
    let stem = Stroke::V { x: c.mid_x, y0: c.y0, y1: c.y1 };
    let qw = (c.box_w as i32) / 4;
    let qh = (c.box_h as i32) / 4;
    let nqw = -qw;
    let nqh = -qh;
    match ch {
        // Digits with classic 7-segment approximations.
        '0' => vec![top, bot, left, right],
        '1' => vec![right],
        '2' => vec![top, mid, bot, right_up, left_down],
        '3' => vec![top, mid, bot, right],
        '4' => vec![mid, left, right],
        '5' => vec![top, mid, bot, left_up, right_down],
        '6' => vec![top, mid, bot, left, right_down],
        '7' => vec![top, right],
        '8' => vec![top, mid, bot, left, right],
        '9' => vec![top, mid, bot, right, left_up],
        // Letters: crude approximations using box strokes.
        'A' | 'a' => vec![top, mid, left, right],
        'B' | 'b' => vec![left, top, mid, bot, right_up, right_down],
        'C' | 'c' => vec![top, bot, left],
        'D' | 'd' => vec![left, top, bot, right],
        'E' | 'e' => vec![left, top, mid, bot],
        'F' | 'f' => vec![left, top, mid],
        'G' | 'g' => vec![top, bot, left, Stroke::H { x0: c.mid_x, x1: c.x1, y: c.mid_y }, right_down],
        'H' | 'h' => vec![left, right, mid],
        'I' | 'i' => vec![top, bot, stem],
        'L' | 'l' => vec![left, bot],
        'M' | 'm' => vec![left, right, Stroke::Dot { dx: nqw, dy: nqh }, Stroke::Dot { dx: qw, dy: nqh }],
        'N' | 'n' => vec![left, right, Stroke::Dot { dx: 0, dy: nqh }, Stroke::Dot { dx: 0, dy: qh }],
        'O' | 'o' => vec![top, bot, left, right],
        'P' | 'p' => vec![left, top, mid, right_up],
        'R' | 'r' => vec![left, top, mid, right_up, Stroke::Dot { dx: 0, dy: qh }],
        'S' | 's' => vec![top, mid, bot, left_up, right_down],
        'T' | 't' => vec![top, stem],
        'U' | 'u' => vec![left, right, bot],
        'X' | 'x' => vec![
            Stroke::Dot { dx: nqw, dy: nqh },
            Stroke::Dot { dx: qw, dy: nqh },
            Stroke::Dot { dx: nqw, dy: qh },
            Stroke::Dot { dx: qw, dy: qh },
        ],
        'Y' | 'y' => vec![
            mid,
            Stroke::V { x: c.mid_x, y0: c.mid_y, y1: c.y1 },
            Stroke::Dot { dx: nqw, dy: nqh },
            Stroke::Dot { dx: qw, dy: nqh },
        ],
        'Z' | 'z' => vec![top, bot, Stroke::Dot { dx: qw, dy: nqh }, Stroke::Dot { dx: nqw, dy: qh }],
        // Any other letter: just a simple box.
        _ => box_stroke_list(c),
    }
}

fn punct_stroke_list(ch: char, c: GlyphCell) -> (v: Vec<Stroke>)
    requires
        3 * c.t <= u32::MAX,
        c.x0 + c.box_w / 2 <= u32::MAX,
        c.x1 >= c.box_w / 2,
    ensures
        v@ == punct_strokes(ch, c),
        forall|i: int| 0 <= i < v@.len() ==> dot_ok(#[trigger] v@[i], c),
{
    let t = c.t;
    let dot_low = Stroke::Px { x: c.mid_x, y: c.y1.saturating_sub(2 * t) };
    let half = c.box_w / 2;
    let right_half = c.x1 - half;
    match ch {
        '-' => vec![Stroke::H { x0: c.x0, x1: c.x1, y: c.mid_y }],
        '_' => vec![Stroke::H { x0: c.x0, x1: c.x1, y: c.y1.saturating_sub(t) }],
        '.' => vec![dot_low],
        ',' => vec![dot_low, Stroke::Px { x: c.mid_x.saturating_sub(t), y: c.y1.saturating_sub(t) }],
        ':' => vec![
            Stroke::Px { x: c.mid_x, y: c.mid_y.saturating_sub(2 * t) },
            Stroke::Px { x: c.mid_x, y: c.mid_y.saturating_add(2 * t) },
        ],
        '!' => vec![Stroke::V { x: c.mid_x, y0: c.y0, y1: c.y1.saturating_sub(3 * t) }, dot_low],
        '?' => vec![
            Stroke::H { x0: c.x0, x1: c.x1, y: c.y0 },
            Stroke::V { x: c.x1.saturating_sub(t), y0: c.y0, y1: c.mid_y },
            Stroke::H { x0: c.x0, x1: c.x1, y: c.mid_y },
            dot_low,
        ],
        '+' => vec![Stroke::H { x0: c.x0, x1: c.x1, y: c.mid_y }, Stroke::V { x: c.mid_x, y0: c.y0, y1: c.y1 }],
        '=' => vec![
            Stroke::H { x0: c.x0, x1: c.x1, y: c.mid_y.saturating_sub(2 * t) },
            Stroke::H { x0: c.x0, x1: c.x1, y: c.mid_y.saturating_add(2 * t) },
        ],
        '(' => vec![
            Stroke::V { x: c.x0, y0: c.y0, y1: c.y1 },
            Stroke::Px { x: c.x0.saturating_add(t), y: c.y0 },
            Stroke::Px { x: c.x0.saturating_add(t), y: c.y1.saturating_sub(t) },
        ],
        ')' => vec![
            Stroke::V { x: c.x1.saturating_sub(t), y0: c.y0, y1: c.y1 },
            Stroke::Px { x: c.x1.saturating_sub(2 * t), y: c.y0 },
            Stroke::Px { x: c.x1.saturating_sub(2 * t), y: c.y1.saturating_sub(t) },
        ],
        '[' => vec![
            Stroke::V { x: c.x0, y0: c.y0, y1: c.y1 },
            Stroke::H { x0: c.x0, x1: c.x0 + half, y: c.y0 },
            Stroke::H { x0: c.x0, x1: c.x0 + half, y: c.y1.saturating_sub(t) },
        ],
        ']' => vec![
            Stroke::V { x: c.x1.saturating_sub(t), y0: c.y0, y1: c.y1 },
            Stroke::H { x0: right_half, x1: c.x1, y: c.y0 },
            Stroke::H { x0: right_half, x1: c.x1, y: c.y1.saturating_sub(t) },
        ],
        // '{', '}', '*', '#', quotes and ';' fall back to the box.
        _ => box_stroke_list(c),
    }
}

fn make_cell(w: u32, h: u32, pad_x: u32, pad_y: u32, box_w: u32, box_h: u32, scale: u32) -> (c: GlyphCell)
    requires
        cell_fits(pad_x, pad_y, box_w, box_h, scale),
    ensures
        c == cell_of(w, h, pad_x, pad_y, box_w, box_h, scale),
{
    GlyphCell {
        w,
        h,
        t: scale,
        box_w,
        box_h,
        x0: pad_x,
        y0: pad_y,
        x1: pad_x + box_w,
        y1: pad_y + box_h,
        mid_x: pad_x + box_w / 2,
        mid_y: pad_y + box_h / 2,
    }
}

/// The dot centre of a stroke stays within `i32` range.
pub open spec fn dot_ok(s: Stroke, c: GlyphCell) -> bool {
    s matches Stroke::Dot { dx, dy } ==> c.mid_x + dx <= i32::MAX && c.mid_y + dy <= i32::MAX
}

/// Paints a `t` x `t` square at the cell centre moved by `(dx, dy)`, clamped at 0.
fn dot(pixels: &mut Vec<u8>, c: GlyphCell, dx: i32, dy: i32)
    requires
        old(pixels)@.len() == c.w * c.h,
        c.w * c.h <= u32::MAX,
        c.mid_x + dx <= i32::MAX,
        c.mid_y + dy <= i32::MAX,
        c.mid_x <= i32::MAX,
        c.mid_y <= i32::MAX,
    ensures
        paints(old(pixels)@, final(pixels)@, c.w, c.h, |px: int, py: int| covers(Stroke::Dot { dx, dy }, c, px, py)),
{
    let sx = c.mid_x as i32 + dx;
    let sy = c.mid_y as i32 + dy;
    let xx = if sx < 0 {
        0u32
    } else {
        sx as u32
    };
    let yy = if sy < 0 {
        0u32
    } else {
        sy as u32
    };
    // A t x t square: t rows of t pixels.
    DebugFont::hline(pixels, c.w, c.h, xx, xx.saturating_add(c.t), yy, c.t);
    proof {
        lemma_paints_same_cover(
            old(pixels)@,
            pixels@,
            c.w,
            c.h,
            |px: int, py: int| xx <= px < sat_add(xx, c.t) && yy <= py < yy + c.t,
            |px: int, py: int| covers(Stroke::Dot { dx, dy }, c, px, py),
        );
    }
}

/// Paints one stroke.
fn paint_stroke(pixels: &mut Vec<u8>, c: GlyphCell, s: Stroke)
    requires
        old(pixels)@.len() == c.w * c.h,
        c.w * c.h <= u32::MAX,
        c.mid_x <= i32::MAX,
        c.mid_y <= i32::MAX,
        s matches Stroke::Dot { dx, dy } ==> c.mid_x + dx <= i32::MAX && c.mid_y + dy <= i32::MAX,
    ensures
        paints(old(pixels)@, final(pixels)@, c.w, c.h, |px: int, py: int| covers(s, c, px, py)),
{
    match s {
        Stroke::H { x0, x1, y } => DebugFont::hline(pixels, c.w, c.h, x0, x1, y, c.t),
        Stroke::V { x, y0, y1 } => DebugFont::vline(pixels, c.w, c.h, x, y0, y1, c.t),
        Stroke::Dot { dx, dy } => dot(pixels, c, dx, dy),
        Stroke::Px { x, y } => fill_px(pixels, c.w, c.h, x, y),
    }
    proof {
        lemma_paints_same_cover(
            old(pixels)@,
            pixels@,
            c.w,
            c.h,
            |px: int, py: int| covers(s, c, px, py),
            |px: int, py: int| covers(s, c, px, py),
        );
    }
}

/// Paints every stroke of a list.
fn paint_strokes(pixels: &mut Vec<u8>, c: GlyphCell, strokes: &Vec<Stroke>)
    requires
        old(pixels)@.len() == c.w * c.h,
        c.w * c.h <= u32::MAX,
        c.mid_x <= i32::MAX,
        c.mid_y <= i32::MAX,
        forall|i: int| 0 <= i < strokes@.len() ==> dot_ok(#[trigger] strokes@[i], c),
    ensures
        paints(old(pixels)@, final(pixels)@, c.w, c.h, |px: int, py: int| covered(strokes@, c, px, py)),
{
    let ghost start = pixels@;
    let mut i: usize = 0;
    while i < strokes.len()
        invariant
            i <= strokes@.len(),
            start.len() == c.w * c.h,
            c.w * c.h <= u32::MAX,
            c.mid_x <= i32::MAX,
            c.mid_y <= i32::MAX,
            forall|k: int| 0 <= k < strokes@.len() ==> dot_ok(#[trigger] strokes@[k], c),
            paints(start, pixels@, c.w, c.h, |px: int, py: int| covered_upto(strokes@, i as int, c, px, py)),
        decreases strokes@.len() - i,
    {
        let ghost before = pixels@;
        let s = strokes[i];
        paint_stroke(pixels, c, s);
        proof {
            lemma_paints_then(
                start,
                before,
                pixels@,
                c.w,
                c.h,
                |px: int, py: int| covered_upto(strokes@, i as int, c, px, py),
                |px: int, py: int| covers(s, c, px, py),
            );
            lemma_paints_same_cover(
                start,
                pixels@,
                c.w,
                c.h,
                |px: int, py: int| covered_upto(strokes@, i as int, c, px, py) || covers(s, c, px, py),
                |px: int, py: int| covered_upto(strokes@, i + 1, c, px, py),
            );
        }
        i = i + 1;
    }
}

/// Paints one of the two diagonals of the cell's box, one pixel per row.
fn draw_diagonal(pixels: &mut Vec<u8>, c: GlyphCell, back: bool)
    requires
        old(pixels)@.len() == c.w * c.h,
        c.w * c.h <= u32::MAX,
        c.box_w * diag_steps(c) <= u32::MAX,
    ensures
        paints(
            old(pixels)@,
            final(pixels)@,
            c.w,
            c.h,
            |px: int, py: int| diag_upto(c, back, diag_steps(c) as int, px, py),
        ),
{
    let steps = if c.box_h < 1 {
        1
    } else {
        c.box_h
    };
    let ghost start = pixels@;
    let mut i: u32 = 0;
    while i < steps
        invariant
            i <= steps,
            steps == diag_steps(c),
            start.len() == c.w * c.h,
            c.w * c.h <= u32::MAX,
            c.box_w * steps <= u32::MAX,
            paints(start, pixels@, c.w, c.h, |px: int, py: int| diag_upto(c, back, i as int, px, py)),
        decreases steps - i,
    {
        assert(i * c.box_w <= steps * c.box_w) by (nonlinear_arith)
            requires
                i < steps,
        ;
        let off = i * c.box_w / steps;
        let xx = if back {
            c.x0.saturating_add(off)
        } else {
            c.x1.saturating_sub(1).saturating_sub(off)
        };
        let yy = c.y0.saturating_add(i);
        let ghost before = pixels@;
        fill_px(pixels, c.w, c.h, xx, yy);
        proof {
            lemma_paints_then(
                start,
                before,
                pixels@,
                c.w,
                c.h,
                |px: int, py: int| diag_upto(c, back, i as int, px, py),
                |px: int, py: int| px == xx && py == yy,
            );
            lemma_paints_same_cover(
                start,
                pixels@,
                c.w,
                c.h,
                |px: int, py: int| diag_upto(c, back, i as int, px, py) || (px == xx && py == yy),
                |px: int, py: int| diag_upto(c, back, i + 1, px, py),
            );
        }
        i = i + 1;
    }
}

/// Monospace font metrics in pixels (at the font's *base* pixel size).
#[derive(Clone, Copy, Debug, PartialEq, Eq)]
pub struct DebugFontMetrics {
    /// Base glyph advance (monospace cell width) in pixels.
    pub advance_px: u32,
    /// Base glyph cell height in pixels.
    pub height_px: u32,
    /// Baseline offset from the top of the cell in pixels.
    pub baseline_from_top_px: u32,
}

/// The base metrics: an 8 x 12 cell with the baseline 9 px from the top.
pub open spec fn base_metrics() -> DebugFontMetrics {
    DebugFontMetrics { advance_px: 8, height_px: 12, baseline_from_top_px: 9 }
}

/// A single rasterized glyph bitmap and its placement metrics.
#[derive(Clone, Debug)]
pub struct GlyphBitmap {
    pub ch: char,
    /// Bitmap dimensions in pixels (width, height).
    pub size_px: [u32; 2],
    /// Pixels in row-major order, one byte per pixel (coverage 0..=255).
    pub pixels: Vec<u8>,
    /// Bearing (left, top) in pixels relative to the pen position: `(0, -height)`, y down.
    pub bearing_px: [i32; 2],
    /// Advance (x, y) in whole pixels to apply to the pen after drawing this glyph.
    pub advance_px: [u32; 2],
}

/// Tiny builtin "font": a crude but readable bitmap for a subset of ASCII,
/// and a placeholder box for every other glyph.
#[derive(Debug)]
pub struct DebugFont {
    metrics: DebugFontMetrics,
}

/// The scale actually used: at least 1.
pub open spec fn effective_scale(scale: u32) -> u32 {
    if scale < 1 {
        1
    } else {
        scale
    }
}

/// The cell of a glyph rasterized at `scale`: an `8s x 12s` bitmap, padded by `s`
/// horizontally and `2s` vertically, with strokes `s` pixels thick.
pub open spec fn glyph_cell(scale: u32) -> GlyphCell {
    let s = effective_scale(scale);
    cell_of((8 * s) as u32, (12 * s) as u32, s, (2 * s) as u32, (6 * s) as u32, (8 * s) as u32, s)
}

pub open spec fn is_alnum(ch: char) -> bool {
    ('A' <= ch && ch <= 'Z') || ('a' <= ch && ch <= 'z') || ('0' <= ch && ch <= '9')
}

pub open spec fn is_punct(ch: char) -> bool {
    ch == ':' || ch == ';' || ch == '.' || ch == ',' || ch == '!' || ch == '?' || ch == '-' || ch
        == '_' || ch == '/' || ch == '\\' || ch == '(' || ch == ')' || ch == '[' || ch == ']' || ch
        == '{' || ch == '}' || ch == '\'' || ch == '"' || ch == '+' || ch == '=' || ch == '*' || ch
        == '#'
}

/// Whether the glyph for `ch` at `scale` covers pixel `(px, py)`: letters and digits
/// by their strokes, space by nothing, punctuation by its marks, anything else by the
/// placeholder box.
pub open spec fn glyph_covers(ch: char, scale: u32, px: int, py: int) -> bool {
    let c = glyph_cell(scale);
    if is_alnum(ch) {
        covered(alnum_strokes(ch, c), c, px, py)
    } else if ch == ' ' {
        false
    } else if is_punct(ch) {
        punct_covers(ch, c, px, py)
    } else {
        covered(box_strokes(c), c, px, py)
    }
}

/// The upper-case form of an ASCII letter; every other character is itself.
pub open spec fn ascii_upper(ch: char) -> char {
    if 'a' <= ch && ch <= 'z' {
        ((ch as u32) - 32) as char
    } else {
        ch
    }
}

/// The letters drawn as the placeholder box: J, K, Q, V and W in either case.
pub open spec fn boxed_letter(ch: char) -> bool {
    let u = ascii_upper(ch);
    u == 'J' || u == 'K' || u == 'Q' || u == 'V' || u == 'W'
}

/// A letter is drawn the same in both cases, and J, K, Q, V and W are drawn as
/// the placeholder box of an unknown glyph such as '@'.
pub proof fn lemma_letter_case(ch: char, scale: u32, px: int, py: int)
    ensures
        glyph_covers(ch, scale, px, py) == glyph_covers(ascii_upper(ch), scale, px, py),
        boxed_letter(ch) ==> glyph_covers(ch, scale, px, py) == glyph_covers('@', scale, px, py),
{
    let c = glyph_cell(scale);
    if 'a' <= ch && ch <= 'z' {
        let u = ascii_upper(ch);
        assert((u as u32) == (ch as u32) - 32);
        assert(is_alnum(u));
        assert(alnum_strokes(ch, c) == alnum_strokes(u, c));
    }
}

/// The seven segments of a digit display, in order: top, middle, bottom,
/// upper left, lower left, upper right, lower right; for each digit, which of
/// them the digit lights.
pub open spec fn digit_segments(d: char) -> Seq<bool> {
    if d == '0' {
        seq![true, false, true, true, true, true, true]
    } else if d == '1' {
        seq![false, false, false, false, false, true, true]
    } else if d == '2' {
        seq![true, true, true, false, true, true, false]
    } else if d == '3' {
        seq![true, true, true, false, false, true, true]
    } else if d == '4' {
        seq![false, true, false, true, true, true, true]
    } else if d == '5' {
        seq![true, true, true, true, false, false, true]
    } else if d == '6' {
        seq![true, true, true, true, true, false, true]
    } else if d == '7' {
        seq![true, false, false, false, false, true, true]
    } else if d == '8' {
        seq![true, true, true, true, true, true, true]
    } else {
        seq![true, true, true, true, false, true, true]
    }
}

/// A pixel inside segment `seg` of the glyph cell at scale `s` (see
/// [`digit_segments`]); the glyph box spans `[s, 7s) x [2s, 10s)`.
pub open spec fn segment_probe(seg: int, s: int) -> (int, int) {
    if seg == 0 {
        (3 * s, 2 * s)
    } else if seg == 1 {
        (3 * s, 6 * s)
    } else if seg == 2 {
        (3 * s, 9 * s)
    } else if seg == 3 {
        (s, 4 * s)
    } else if seg == 4 {
        (s, 8 * s)
    } else if seg == 5 {
        (6 * s, 3 * s)
    } else {
        (6 * s, 7 * s)
    }
}

/// Digits read as seven-segment figures: at every scale, the glyph of a digit
/// inks exactly the segments that digit lights on a seven-segment display (the
/// 4 with full-height sides, the 7 without a middle bar).
#[verifier::rlimit(100)]
#[verifier::spinoff_prover]
pub proof fn lemma_digit_segments(d: char, scale: u32, seg: int)
    requires
        '0' <= d <= '9',
        0 <= seg < 7,
        scale <= 6688,
    ensures
        glyph_covers(
            d,
            scale,
            segment_probe(seg, effective_scale(scale) as int).0,
            segment_probe(seg, effective_scale(scale) as int).1,
        ) == digit_segments(d)[seg],
{
    reveal_with_fuel(covered_upto, 6);
}

/// The 0 is hollow: at every scale, no pixel strictly inside its outline is inked.
pub proof fn lemma_zero_is_hollow(scale: u32, px: int, py: int)
    requires
        scale <= 6688,
        2 * effective_scale(scale) <= px < 6 * effective_scale(scale),
        3 * effective_scale(scale) <= py < 9 * effective_scale(scale),
    ensures
        !glyph_covers('0', scale, px, py),
{
    reveal_with_fuel(covered_upto, 5);
}

/// Different digits have different glyphs: at every scale some segment is inked
/// in one and blank in the other.
pub proof fn lemma_digits_distinct(d1: char, d2: char, scale: u32)
    requires
        '0' <= d1 <= '9',
        '0' <= d2 <= '9',
        d1 != d2,
        scale <= 6688,
    ensures
        exists|seg: int|
            0 <= seg < 7 && #[trigger] glyph_covers(
                d1,
                scale,
                segment_probe(seg, effective_scale(scale) as int).0,
                segment_probe(seg, effective_scale(scale) as int).1,
            ) != glyph_covers(
                d2,
                scale,
                segment_probe(seg, effective_scale(scale) as int).0,
                segment_probe(seg, effective_scale(scale) as int).1,
            ),
{
    let a = digit_segments(d1);
    let b = digit_segments(d2);
    assert(exists|seg: int| 0 <= seg < 7 && a[seg] != b[seg]);
    let seg = choose|seg: int| 0 <= seg < 7 && a[seg] != b[seg];
    lemma_digit_segments(d1, scale, seg);
    lemma_digit_segments(d2, scale, seg);
}

/// A pixel of the glyph cell at scale `s`: the seven digit segments of
/// [`segment_probe`], then the centre of the upper half.
pub open spec fn letter_probe(k: int, s: int) -> (int, int) {
    if k < 7 {
        segment_probe(k, s)
    } else {
        (4 * s, 4 * s)
    }
}

/// For each letter (either case), which of the [`letter_probe`] pixels its
/// glyph inks: the outline letters light the segments a seven-segment display
/// would, I and T their centre stem, and the letters drawn with dots (M, N, X,
/// Y, Z) only their bars and dots.
pub open spec fn letter_signature(ch: char) -> Seq<bool> {
    let u = ascii_upper(ch);
    if u == 'A' {
        seq![true, true, false, true, true, true, true, false]
    } else if u == 'B' {
        seq![true, true, true, true, true, true, true, false]
    } else if u == 'C' {
        seq![true, false, true, true, true, false, false, false]
    } else if u == 'D' {
        seq![true, false, true, true, true, true, true, false]
    } else if u == 'E' {
        seq![true, true, true, true, true, false, false, false]
    } else if u == 'F' {
        seq![true, true, false, true, true, false, false, false]
    } else if u == 'G' {
        seq![true, false, true, true, true, false, true, false]
    } else if u == 'H' {
        seq![false, true, false, true, true, true, true, false]
    } else if u == 'I' {
        seq![true, false, true, false, false, false, false, true]
    } else if u == 'J' {
        seq![true, false, true, true, true, true, true, false]
    } else if u == 'K' {
        seq![true, false, true, true, true, true, true, false]
    } else if u == 'L' {
        seq![false, false, true, true, true, false, false, false]
    } else if u == 'M' {
        seq![false, false, false, true, true, true, true, false]
    } else if u == 'N' {
        seq![false, false, false, true, true, true, true, true]
    } else if u == 'O' {
        seq![true, false, true, true, true, true, true, false]
    } else if u == 'P' {
        seq![true, true, false, true, true, true, false, false]
    } else if u == 'Q' {
        seq![true, false, true, true, true, true, true, false]
    } else if u == 'R' {
        seq![true, true, false, true, true, true, false, false]
    } else if u == 'S' {
        seq![true, true, true, true, false, false, true, false]
    } else if u == 'T' {
        seq![true, false, false, false, false, false, false, true]
    } else if u == 'U' {
        seq![false, false, true, true, true, true, true, false]
    } else if u == 'V' {
        seq![true, false, true, true, true, true, true, false]
    } else if u == 'W' {
        seq![true, false, true, true, true, true, true, false]
    } else if u == 'X' {
        seq![false, false, false, false, false, false, false, false]
    } else if u == 'Y' {
        seq![false, true, false, false, false, false, false, false]
    } else if u == 'Z' {
        seq![true, false, true, false, false, false, false, false]
    } else {
        Seq::empty()
    }
}

#[verifier::rlimit(100)]
#[verifier::spinoff_prover]
proof fn lemma_upper_shapes_a_f(u: char, scale: u32, k: int)
    requires
        'A' <= u <= 'F',
        0 <= k < 8,
        scale <= 6688,
    ensures
        glyph_covers(
            u,
            scale,
            letter_probe(k, effective_scale(scale) as int).0,
            letter_probe(k, effective_scale(scale) as int).1,
        ) == letter_signature(u)[k],
{
    reveal_with_fuel(covered_upto, 7);
}

#[verifier::rlimit(100)]
#[verifier::spinoff_prover]
proof fn lemma_upper_shapes_g_l(u: char, scale: u32, k: int)
    requires
        'G' <= u <= 'L',
        0 <= k < 8,
        scale <= 6688,
    ensures
        glyph_covers(
            u,
            scale,
            letter_probe(k, effective_scale(scale) as int).0,
            letter_probe(k, effective_scale(scale) as int).1,
        ) == letter_signature(u)[k],
{
    reveal_with_fuel(covered_upto, 7);
}

#[verifier::rlimit(100)]
#[verifier::spinoff_prover]
proof fn lemma_upper_shapes_m_r(u: char, scale: u32, k: int)
    requires
        'M' <= u <= 'R',
        0 <= k < 8,
        scale <= 6688,
    ensures
        glyph_covers(
            u,
            scale,
            letter_probe(k, effective_scale(scale) as int).0,
            letter_probe(k, effective_scale(scale) as int).1,
        ) == letter_signature(u)[k],
{
    reveal_with_fuel(covered_upto, 7);
}

#[verifier::rlimit(100)]
#[verifier::spinoff_prover]
proof fn lemma_upper_shapes_s_z(u: char, scale: u32, k: int)
    requires
        'S' <= u <= 'Z',
        0 <= k < 8,
        scale <= 6688,
    ensures
        glyph_covers(
            u,
            scale,
            letter_probe(k, effective_scale(scale) as int).0,
            letter_probe(k, effective_scale(scale) as int).1,
        ) == letter_signature(u)[k],
{
    reveal_with_fuel(covered_upto, 7);
}

/// Letters read as their intended shapes: at every scale, each letter's glyph
/// inks exactly the probe pixels of its signature.
pub proof fn lemma_letter_shapes(ch: char, scale: u32, k: int)
    requires
        ('A' <= ch <= 'Z') || ('a' <= ch <= 'z'),
        0 <= k < 8,
        scale <= 6688,
    ensures
        glyph_covers(
            ch,
            scale,
            letter_probe(k, effective_scale(scale) as int).0,
            letter_probe(k, effective_scale(scale) as int).1,
        ) == letter_signature(ch)[k],
{
    let p = letter_probe(k, effective_scale(scale) as int);
    lemma_letter_case(ch, scale, p.0, p.1);
    let u = ascii_upper(ch);
    if 'a' <= ch && ch <= 'z' {
        assert((u as u32) == (ch as u32) - 32);
    }
    assert(ascii_upper(u) == u);
    assert(letter_signature(ch) == letter_signature(u));
    if u <= 'F' {
        lemma_upper_shapes_a_f(u, scale, k);
    } else if u <= 'L' {
        lemma_upper_shapes_g_l(u, scale, k);
    } else if u <= 'R' {
        lemma_upper_shapes_m_r(u, scale, k);
    } else {
        lemma_upper_shapes_s_z(u, scale, k);
    }
}

/// The dash is a single bar across the glyph box at its middle row, the
/// underscore one along its bottom, and the full stop a single pixel at the
/// bottom of the centre column, two strokes above the box's bottom edge.
#[verifier::rlimit(100)]
#[verifier::spinoff_prover]
pub proof fn lemma_bar_marks(scale: u32, px: int, py: int)
    requires
        scale <= 6688,
    ensures
        ({
            let s = effective_scale(scale) as int;
            &&& glyph_covers('-', scale, px, py) <==> (s <= px < 7 * s && 6 * s <= py < 7 * s)
            &&& glyph_covers('_', scale, px, py) <==> (s <= px < 7 * s && 9 * s <= py < 10 * s)
            &&& glyph_covers('.', scale, px, py) <==> (px == 4 * s && py == 8 * s)
        }),
{
    reveal_with_fuel(covered_upto, 3);
}

/// Scale 0 draws as scale 1; every other scale is used as given.
pub proof fn lemma_scale_clamp(scale: u32)
    ensures
        scale == 0 ==> effective_scale(scale) == 1,
        scale > 0 ==> effective_scale(scale) == scale,
{
}

/// The space is blank, and a character the font has no glyph for is drawn as
/// the outline of the glyph box `[s, 7s) x [2s, 10s)`, `s` pixels thick.
pub proof fn lemma_space_and_placeholder(ch: char, scale: u32, px: int, py: int)
    requires
        scale <= 6688,
    ensures
        !glyph_covers(' ', scale, px, py),
        !is_alnum(ch) && !is_punct(ch) && ch != ' ' ==> (glyph_covers(ch, scale, px, py) <==> ({
            let s = effective_scale(scale) as int;
            &&& s <= px < 7 * s
            &&& 2 * s <= py < 10 * s
            &&& (px < 2 * s || px >= 6 * s || py < 3 * s || py >= 9 * s)
        })),
{
    reveal_with_fuel(covered_upto, 5);
}

impl DebugFont {
    #[verifier::type_invariant]
    spec fn inv(self) -> bool {
        self.metrics == base_metrics()
    }

    /// The font's metrics.
    pub closed spec fn font_metrics(self) -> DebugFontMetrics {
        self.metrics
    }

    /// Create a new debug font with fixed base metrics.
    ///
    /// Base cell is 8x12; baseline is at 9px from the top.
    pub fn new() -> (r: Self)
        ensures
            r.font_metrics() == base_metrics(),
    {
        Self { metrics: DebugFontMetrics { advance_px: 8, height_px: 12, baseline_from_top_px: 9 } }
    }

    pub fn metrics(&self) -> (r: DebugFontMetrics)
        ensures
            r == base_metrics(),
            r == self.font_metrics(),
    {
        proof {
            use_type_invariant(self);
        }
        self.metrics
    }

    /// Adds `v` to pixel `(x, y)` (saturating); pixels outside the bitmap are ignored.
    fn set_px(pixels: &mut Vec<u8>, w: u32, h: u32, x: u32, y: u32, v: u8)
        requires
            old(pixels)@.len() == w * h,
            w * h <= u32::MAX,
        ensures
            final(pixels)@.len() == old(pixels)@.len(),
            forall|px: int, py: int|
                0 <= px < w && 0 <= py < h ==> #[trigger] pix(final(pixels)@, w, px, py) == if px == x
                    && py == y {
                    sat_add_u8(pix(old(pixels)@, w, px, py), v)
                } else {
                    pix(old(pixels)@, w, px, py)
                },
    {
        if x >= w || y >= h {
            return;
        }
        proof {
            lemma_pixel_index(w, h, x as int, y as int, x as int, y as int);
        }
        let idx = (y * w + x) as usize;
        let cur = pixels[idx];
        pixels.set(idx, cur.saturating_add(v));
        proof {
            assert forall|px: int, py: int| 0 <= px < w && 0 <= py < h implies #[trigger] pix(
                pixels@,
                w,
                px,
                py,
            ) == if px == x && py == y {
                sat_add_u8(pix(old(pixels)@, w, px, py), v)
            } else {
                pix(old(pixels)@, w, px, py)
            } by {
                lemma_pixel_index(w, h, px, py, x as int, y as int);
            }
        }
    }

    /// Fills the rectangle `[x0, x1) x [y, y + thickness)`, clipped to the bitmap.
    fn hline(pixels: &mut Vec<u8>, w: u32, h: u32, x0: u32, x1: u32, y: u32, thickness: u32)
        requires
            old(pixels)@.len() == w * h,
            w * h <= u32::MAX,
        ensures
            paints(
                old(pixels)@,
                final(pixels)@,
                w,
                h,
                |px: int, py: int| x0 <= px < x1 && y <= py < y + thickness,
            ),
    {
        let cx0 = if x0 < w {
            x0
        } else {
            w
        };
        let cx1 = if x1 < w {
            x1
        } else {
            w
        };
        let ghost start = pixels@;
        let mut t: u32 = 0;
        while t < thickness
            invariant
                t <= thickness,
                start.len() == w * h,
                w * h <= u32::MAX,
                cx0 <= w && cx1 <= w,
                paints(start, pixels@, w, h, |px: int, py: int| cx0 <= px < cx1 && y <= py < y + t),
            decreases thickness - t,
        {
            let yy = y.saturating_add(t);
            let ghost row_start = pixels@;
            let mut x = cx0;
            while x < cx1
                invariant
                    cx0 <= x,
                    x <= cx1 || x == cx0,
                    row_start.len() == w * h,
                    w * h <= u32::MAX,
                    cx0 <= w && cx1 <= w,
                    yy == (if y + t > u32::MAX {
                        u32::MAX as int
                    } else {
                        y + t
                    }),
                    paints(row_start, pixels@, w, h, |px: int, py: int| cx0 <= px < x && py == yy),
                decreases cx1 - x,
            {
                let ghost before = pixels@;
                fill_px(pixels, w, h, x, yy);
                proof {
                    lemma_paints_then(
                        row_start,
                        before,
                        pixels@,
                        w,
                        h,
                        |px: int, py: int| cx0 <= px < x && py == yy,
                        |px: int, py: int| px == x && py == yy,
                    );
                    lemma_paints_same_cover(
                        row_start,
                        pixels@,
                        w,
                        h,
                        |px: int, py: int| (cx0 <= px < x && py == yy) || (px == x && py == yy),
                        |px: int, py: int| cx0 <= px < x + 1 && py == yy,
                    );
                }
                x = x + 1;
            }
            proof {
                lemma_paints_then(
                    start,
                    row_start,
                    pixels@,
                    w,
                    h,
                    |px: int, py: int| cx0 <= px < cx1 && y <= py < y + t,
                    |px: int, py: int| cx0 <= px < x && py == yy,
                );
                lemma_paints_same_cover(
                    start,
                    pixels@,
                    w,
                    h,
                    |px: int, py: int| (cx0 <= px < cx1 && y <= py < y + t) || (cx0 <= px < x && py == yy),
                    |px: int, py: int| cx0 <= px < cx1 && y <= py < y + (t + 1),
                );
            }
            t = t + 1;
        }
        proof {
            lemma_paints_same_cover(
                start,
                pixels@,
                w,
                h,
                |px: int, py: int| cx0 <= px < cx1 && y <= py < y + thickness,
                |px: int, py: int| x0 <= px < x1 && y <= py < y + thickness,
            );
        }
    }

    /// Fills the rectangle `[x, x + thickness) x [y0, y1)`, clipped to the bitmap.
    fn vline(pixels: &mut Vec<u8>, w: u32, h: u32, x: u32, y0: u32, y1: u32, thickness: u32)
        requires
            old(pixels)@.len() == w * h,
            w * h <= u32::MAX,
        ensures
            paints(
                old(pixels)@,
                final(pixels)@,
                w,
                h,
                |px: int, py: int| x <= px < x + thickness && y0 <= py < y1,
            ),
    {
        let cy0 = if y0 < h {
            y0
        } else {
            h
        };
        let cy1 = if y1 < h {
            y1
        } else {
            h
        };
        let ghost start = pixels@;
        let mut t: u32 = 0;
        while t < thickness
            invariant
                t <= thickness,
                start.len() == w * h,
                w * h <= u32::MAX,
                cy0 <= h && cy1 <= h,
                paints(start, pixels@, w, h, |px: int, py: int| x <= px < x + t && cy0 <= py < cy1),
            decreases thickness - t,
        {
            let xx = x.saturating_add(t);
            let ghost col_start = pixels@;
            let mut y = cy0;
            while y < cy1
                invariant
                    cy0 <= y,
                    y <= cy1 || y == cy0,
                    col_start.len() == w * h,
                    w * h <= u32::MAX,
                    cy0 <= h && cy1 <= h,
                    xx == (if x + t > u32::MAX {
                        u32::MAX as int
                    } else {
                        x + t
                    }),
                    paints(col_start, pixels@, w, h, |px: int, py: int| px == xx && cy0 <= py < y),
                decreases cy1 - y,
            {
                let ghost before = pixels@;
                fill_px(pixels, w, h, xx, y);
                proof {
                    lemma_paints_then(
                        col_start,
                        before,
                        pixels@,
                        w,
                        h,
                        |px: int, py: int| px == xx && cy0 <= py < y,
                        |px: int, py: int| px == xx && py == y,
                    );
                    lemma_paints_same_cover(
                        col_start,
                        pixels@,
                        w,
                        h,
                        |px: int, py: int| (px == xx && cy0 <= py < y) || (px == xx && py == y),
                        |px: int, py: int| px == xx && cy0 <= py < y + 1,
                    );
                }
                y = y + 1;
            }
            proof {
                lemma_paints_then(
                    start,
                    col_start,
                    pixels@,
                    w,
                    h,
                    |px: int, py: int| x <= px < x + t && cy0 <= py < cy1,
                    |px: int, py: int| px == xx && cy0 <= py < y,
                );
                lemma_paints_same_cover(
                    start,
                    pixels@,
                    w,
                    h,
                    |px: int, py: int| (x <= px < x + t && cy0 <= py < cy1) || (px == xx && cy0 <= py < y),
                    |px: int, py: int| x <= px < x + (t + 1) && cy0 <= py < cy1,
                );
            }
            t = t + 1;
        }
        proof {
            lemma_paints_same_cover(
                start,
                pixels@,
                w,
                h,
                |px: int, py: int| x <= px < x + thickness && cy0 <= py < cy1,
                |px: int, py: int| x <= px < x + thickness && y0 <= py < y1,
            );
        }
    }

    /// Rasterize a glyph at an integer scale.
    ///
    /// - `scale` is clamped to >= 1; the bitmap is `8 * scale` x `12 * scale` pixels, so
    ///   `scale <= 6688` is exactly the range where its pixel count fits a `u32`.
    /// - Output is an `R8` mask where 0 is transparent and 255 is fully covered.
    pub fn rasterize_glyph(&self, ch: char, scale: u32) -> (g: GlyphBitmap)
        requires
            scale <= 6688,
        ensures
            ({
                let s = effective_scale(scale);
                let w = 8 * s;
                let h = 12 * s;
                &&& g.ch == ch
                &&& g.size_px[0] == w && g.size_px[1] == h
                &&& g.pixels@.len() == w * h
                &&& forall|px: int, py: int|
                    0 <= px < w && 0 <= py < h ==> #[trigger] pix(g.pixels@, g.size_px[0], px, py)
                        == if glyph_covers(ch, scale, px, py) {
                        255u8
                    } else {
                        0u8
                    }
                &&& g.bearing_px[0] == 0 && g.bearing_px[1] == -h
                &&& g.advance_px[0] == w && g.advance_px[1] == 0
            }),
    {
        proof {
            use_type_invariant(self);
        }
        let ghost requested = scale;
        let scale = if scale < 1 {
            1
        } else {
            scale
        };
        assert(8 * scale * (12 * scale) <= u32::MAX && 6 * scale * (8 * scale) <= 8 * scale * (12
            * scale)) by (nonlinear_arith)
            requires
                1 <= scale <= 6688,
        ;
        let w = self.metrics.advance_px * scale;
        let h = self.metrics.height_px * scale;
        let mut pixels = vec![0u8; (w * h) as usize];
        let ghost blank = pixels@;

        // A small stroke font drawn into the cell with some padding.
        let pad_x = 1 * scale;
        let pad_y = 2 * scale;
        let bw = w.saturating_sub(2 * pad_x);
        let box_w = if bw < 1 {
            1
        } else {
            bw
        };
        let bh = h.saturating_sub(2 * pad_y);
        let box_h = if bh < 1 {
            1
        } else {
            bh
        };
        let ghost c = cell_of(w, h, pad_x, pad_y, box_w, box_h, scale);
        assert(c == glyph_cell(requested));
        let ghost cover = |px: int, py: int| glyph_covers(ch, requested, px, py);

        match ch {
            'A'..='Z' | 'a'..='z' | '0'..='9' => {
                self.draw_alnum(&mut pixels, w, h, ch, pad_x, pad_y, box_w, box_h, scale);
                proof {
                    lemma_paints_same_cover(
                        blank,
                        pixels@,
                        w,
                        h,
                        |px: int, py: int| covered(alnum_strokes(ch, c), c, px, py),
                        cover,
                    );
                }
            },
            ' ' => {
                // Space: nothing.
                proof {
                    lemma_paints_nothing(blank, w, h);
                    lemma_paints_same_cover(blank, pixels@, w, h, |px: int, py: int| false, cover);
                }
            },
            ':' | ';' | '.' | ',' | '!' | '?' | '-' | '_' | '/' | '\\' | '(' | ')' | '[' | ']'
            | '{' | '}' | '\'' | '"' | '+' | '=' | '*' | '#' => {
                self.draw_punct(&mut pixels, w, h, ch, pad_x, pad_y, box_w, box_h, scale);
                proof {
                    lemma_paints_same_cover(
                        blank,
                        pixels@,
                        w,
                        h,
                        |px: int, py: int| punct_covers(ch, c, px, py),
                        cover,
                    );
                }
            },
            _ => {
                // Placeholder box for unknown glyphs.
                self.draw_box(&mut pixels, w, h, pad_x, pad_y, box_w, box_h, scale);
                proof {
                    lemma_paints_same_cover(
                        blank,
                        pixels@,
                        w,
                        h,
                        |px: int, py: int| covered(box_strokes(c), c, px, py),
                        cover,
                    );
                }
            },
        }
        proof {
            assert forall|px: int, py: int| 0 <= px < w && 0 <= py < h implies #[trigger] pix(
                pixels@,
                w,
                px,
                py,
            ) == if cover(px, py) {
                255u8
            } else {
                0u8
            } by {
                lemma_pixel_index(w, h, px, py, px, py);
                assert(pix(blank, w, px, py) == 0u8);
            }
        }
        GlyphBitmap {
            ch,
            size_px: [w, h],
            pixels,
            // Top-left origin with y-down: shift up by the height to approximate the baseline.
            bearing_px: [0, -(h as i32)],
            advance_px: [self.metrics.advance_px * scale, 0],
        }
    }

    fn draw_box(
        &self,
        pixels: &mut Vec<u8>,
        w: u32,
        h: u32,
        pad_x: u32,
        pad_y: u32,
        box_w: u32,
        box_h: u32,
        scale: u32,
    )
        requires
            old(pixels)@.len() == w * h,
            w * h <= u32::MAX,
            cell_fits(pad_x, pad_y, box_w, box_h, scale),
        ensures
            paints(
                old(pixels)@,
                final(pixels)@,
                w,
                h,
                |px: int, py: int|
                    covered(
                        box_strokes(cell_of(w, h, pad_x, pad_y, box_w, box_h, scale)),
                        cell_of(w, h, pad_x, pad_y, box_w, box_h, scale),
                        px,
                        py,
                    ),
            ),
    {
        let c = make_cell(w, h, pad_x, pad_y, box_w, box_h, scale);
        let strokes = box_stroke_list(c);
        paint_strokes(pixels, c, &strokes);
    }

    /// Extremely crude "segment" glyphs: vertical strokes + horizontal strokes, and dots.
    /// Not pretty, but readable at demo sizes, and stable.
    fn draw_alnum(
        &self,
        pixels: &mut Vec<u8>,
        w: u32,
        h: u32,
        ch: char,
        pad_x: u32,
        pad_y: u32,
        box_w: u32,
        box_h: u32,
        scale: u32,
    )
        requires
            old(pixels)@.len() == w * h,
            w * h <= u32::MAX,
            cell_fits(pad_x, pad_y, box_w, box_h, scale),
        ensures
            paints(
                old(pixels)@,
                final(pixels)@,
                w,
                h,
                |px: int, py: int|
                    covered(
                        alnum_strokes(ch, cell_of(w, h, pad_x, pad_y, box_w, box_h, scale)),
                        cell_of(w, h, pad_x, pad_y, box_w, box_h, scale),
                        px,
                        py,
                    ),
            ),
    {
        let c = make_cell(w, h, pad_x, pad_y, box_w, box_h, scale);
        let strokes = alnum_stroke_list(ch, c);
        paint_strokes(pixels, c, &strokes);
    }

    fn draw_punct(
        &self,
        pixels: &mut Vec<u8>,
        w: u32,
        h: u32,
        ch: char,
        pad_x: u32,
        pad_y: u32,
        box_w: u32,
        box_h: u32,
        scale: u32,
    )
        requires
            old(pixels)@.len() == w * h,
            w * h <= u32::MAX,
            cell_fits(pad_x, pad_y, box_w, box_h, scale),
        ensures
            paints(
                old(pixels)@,
                final(pixels)@,
                w,
                h,
                |px: int, py: int|
                    punct_covers(ch, cell_of(w, h, pad_x, pad_y, box_w, box_h, scale), px, py),
            ),
    {
        let c = make_cell(w, h, pad_x, pad_y, box_w, box_h, scale);
        if ch == '/' {
            // Crude diagonal, right to left going down.
            assert(c.box_w * diag_steps(c) <= u32::MAX) by (nonlinear_arith)
                requires
                    c.box_w * c.box_h <= u32::MAX,
                    diag_steps(c) == c.box_h || (diag_steps(c) == 1 && c.box_h == 0),
            ;
            draw_diagonal(pixels, c, false);
        } else if ch == '\\' {
            assert(c.box_w * diag_steps(c) <= u32::MAX) by (nonlinear_arith)
                requires
                    c.box_w * c.box_h <= u32::MAX,
                    diag_steps(c) == c.box_h || (diag_steps(c) == 1 && c.box_h == 0),
            ;
            draw_diagonal(pixels, c, true);
        } else {
            let strokes = punct_stroke_list(ch, c);
            paint_strokes(pixels, c, &strokes);
        }
    }
}

} // verus!
