//! Renderer-side bookkeeping: render mode selection, scissor rectangles,
//! batching of clipped draw calls and growth of GPU buffer capacities.
use vstd::prelude::*;

verus! {

/// Rendering mode for rectangles.
#[derive(Clone, Copy, Debug, PartialEq, Eq, Structural)]
pub enum RenderMode {
    /// Signed-distance-field rendering with analytic anti-aliasing.
    Sdf,
    /// Mesh tessellation.
    Mesh,
    /// Chosen automatically (currently the SDF path).
    Auto,
}

/// Whether rectangles drawn under `mode` take the SDF path.
pub fn uses_sdf(mode: RenderMode) -> (r: bool)
    ensures
        r == !(mode is Mesh),
{
    match mode {
        RenderMode::Sdf => true,
        RenderMode::Mesh => false,
        RenderMode::Auto => true,
    }
}

/// A scissor rectangle in framebuffer pixels.
#[derive(Clone, Copy, Debug, PartialEq, Eq, Structural)]
pub struct ScissorRect {
    pub x: u32,
    pub y: u32,
    pub width: u32,
    pub height: u32,
}

/// A draw call over the index range `index_start..index_end`, clipped by `scissor`.
#[derive(Clone, Copy, Debug, PartialEq, Eq, Structural)]
pub struct ClippedDraw {
    pub scissor: ScissorRect,
    pub index_start: u32,
    pub index_end: u32,
}

/// The scissor rectangle spanning the pixel bounds `[min_x, max_x) x [min_y, max_y)`,
/// or `None` when it covers no pixel.
pub open spec fn scissor_spec(min_x: i32, min_y: i32, max_x: i32, max_y: i32) -> Option<ScissorRect> {
    if max_x - min_x <= 0 || max_y - min_y <= 0 {
        None
    } else {
        Some(
            ScissorRect {
                x: min_x as u32,
                y: min_y as u32,
                width: (max_x - min_x) as u32,
                height: (max_y - min_y) as u32,
            },
        )
    }
}

/// Builds the scissor rectangle of a clip region whose bounds have already been
/// clamped to the framebuffer and rounded outwards to whole pixels.
/// An empty region gives `None`: nothing is drawn for it.
pub fn scissor_from_bounds(min_x: i32, min_y: i32, max_x: i32, max_y: i32) -> (r: Option<ScissorRect>)
    requires
        min_x >= 0,
        min_y >= 0,
    ensures
        r == scissor_spec(min_x, min_y, max_x, max_y),
{
    let w: i32 = if max_x > min_x { max_x - min_x } else { 0 };
    let h: i32 = if max_y > min_y { max_y - min_y } else { 0 };
    if w > 0 && h > 0 {
        Some(ScissorRect { x: min_x as u32, y: min_y as u32, width: w as u32, height: h as u32 })
    } else {
        None
    }
}

/// The scissor rectangle spans exactly the pixel bounds: it starts at the minimum
/// corner and ends at the maximum one; bounds that enclose no pixel give none.
pub proof fn lemma_scissor_spans_bounds(min_x: i32, min_y: i32, max_x: i32, max_y: i32)
    requires
        min_x >= 0,
        min_y >= 0,
    ensures
        scissor_spec(min_x, min_y, max_x, max_y) is None <==> (max_x <= min_x || max_y <= min_y),
        scissor_spec(min_x, min_y, max_x, max_y) matches Some(r) ==> r.x == min_x && r.y == min_y && r.x + r.width
            == max_x && r.y + r.height == max_y && r.width > 0 && r.height > 0,
{
}

/// Whether `next` can be appended to `batch`: same scissor and contiguous indices.
pub open spec fn extends(batch: ClippedDraw, next: ClippedDraw) -> bool {
    batch.scissor == next.scissor && batch.index_end == next.index_start
}

/// The batches issued for `draws`, taken in order: a draw that extends the
/// previous batch is merged into it, any other draw opens a new batch.
pub open spec fn batches(draws: Seq<ClippedDraw>) -> Seq<ClippedDraw>
    decreases draws.len(),
{
    if draws.len() == 0 {
        Seq::empty()
    } else {
        let prev = batches(draws.drop_last());
        let d = draws.last();
        if prev.len() > 0 && extends(prev.last(), d) {
            prev.update(
                prev.len() - 1,
                ClippedDraw { scissor: prev.last().scissor, index_start: prev.last().index_start, index_end: d.index_end },
            )
        } else {
            prev.push(d)
        }
    }
}

/// Merges consecutive draws that share a scissor rectangle and continue each
/// other's index range, so that each batch is one draw call.
pub fn batch_draws(draws: &Vec<ClippedDraw>) -> (r: Vec<ClippedDraw>)
    ensures
        r@ == batches(draws@),
{
    let mut out: Vec<ClippedDraw> = Vec::new();
    let mut i: usize = 0;
    while i < draws.len()
        invariant
            i <= draws.len(),
            out@ == batches(draws@.take(i as int)),
        decreases draws.len() - i,
    {
        let d = draws[i];
        assert(draws@.take(i as int + 1).drop_last() == draws@.take(i as int));
        let n = out.len();
        if n > 0 && out[n - 1].scissor == d.scissor && out[n - 1].index_end == d.index_start {
            let last = out[n - 1];
            out.set(n - 1, ClippedDraw { scissor: last.scissor, index_start: last.index_start, index_end: d.index_end });
        } else {
            out.push(d);
        }
        i = i + 1;
    }
    assert(draws@.take(draws@.len() as int) == draws@);
    out
}

/// Batching never produces more batches than there were draws, and produces
/// none exactly when there were none.
pub proof fn lemma_batches_len(draws: Seq<ClippedDraw>)
    ensures
        batches(draws).len() <= draws.len(),
        batches(draws).len() == 0 <==> draws.len() == 0,
    decreases draws.len(),
{
    if draws.len() > 0 {
        lemma_batches_len(draws.drop_last());
    }
}

/// No two neighbouring batches could have been merged: each batch is maximal.
pub proof fn lemma_batches_maximal(draws: Seq<ClippedDraw>)
    ensures
        forall|i: int|
            0 <= i < batches(draws).len() - 1 ==> !extends(#[trigger] batches(draws)[i], batches(draws)[i + 1]),
    decreases draws.len(),
{
    if draws.len() > 0 {
        lemma_batches_maximal(draws.drop_last());
        let prev = batches(draws.drop_last());
        let d = draws.last();
        if prev.len() > 0 && extends(prev.last(), d) {
            let b = batches(draws);
            assert forall|i: int| 0 <= i < b.len() - 1 implies !extends(#[trigger] b[i], b[i + 1]) by {
                assert(b[i] == prev[i]);
                if i + 1 < prev.len() - 1 {
                    assert(b[i + 1] == prev[i + 1]);
                } else {
                    assert(b[i + 1].scissor == prev[i + 1].scissor);
                    assert(b[i + 1].index_start == prev[i + 1].index_start);
                }
            }
        }
    }
}

/// The batches start where the first draw starts and end where the last draw ends.
pub proof fn lemma_batches_span(draws: Seq<ClippedDraw>)
    requires
        draws.len() > 0,
    ensures
        batches(draws).len() > 0,
        batches(draws)[0].index_start == draws[0].index_start,
        batches(draws).last().index_end == draws.last().index_end,
    decreases draws.len(),
{
    lemma_batches_len(draws);
    if draws.len() > 1 {
        let p = draws.drop_last();
        lemma_batches_span(p);
        let prev = batches(p);
        assert(p[0] == draws[0]);
        if extends(prev.last(), draws.last()) {
            assert(batches(draws)[0].index_start == prev[0].index_start);
        } else {
            assert(batches(draws)[0] == prev[0]);
        }
    } else {
        assert(draws.drop_last().len() == 0);
        assert(batches(draws.drop_last()).len() == 0);
    }
}

/// Draws that all share one scissor rectangle and follow each other's index
/// ranges collapse into a single draw call over their whole range.
pub proof fn lemma_contiguous_draws_single_batch(draws: Seq<ClippedDraw>)
    requires
        draws.len() > 0,
        forall|i: int| 0 <= i < draws.len() - 1 ==> extends(#[trigger] draws[i], draws[i + 1]),
    ensures
        batches(draws) == seq![
            ClippedDraw {
                scissor: draws[0].scissor,
                index_start: draws[0].index_start,
                index_end: draws.last().index_end,
            },
        ],
    decreases draws.len(),
{
    if draws.len() > 1 {
        let p = draws.drop_last();
        assert forall|i: int| 0 <= i < p.len() - 1 implies extends(#[trigger] p[i], p[i + 1]) by {
            assert(extends(draws[i], draws[i + 1]));
        }
        lemma_contiguous_draws_single_batch(p);
        assert(extends(draws[draws.len() - 2], draws[draws.len() - 1]));
        lemma_same_scissor(draws, draws.len() - 1);
        let prev = batches(p);
        assert(prev.last().scissor == draws.last().scissor);
        assert(prev.last().index_end == draws.last().index_start);
    } else {
        assert(draws.drop_last().len() == 0);
        assert(batches(draws.drop_last()).len() == 0);
    }
}

proof fn lemma_same_scissor(draws: Seq<ClippedDraw>, k: int)
    requires
        0 <= k < draws.len(),
        forall|i: int| 0 <= i < draws.len() - 1 ==> extends(#[trigger] draws[i], draws[i + 1]),
    ensures
        draws[k].scissor == draws[0].scissor,
    decreases k,
{
    if k > 0 {
        lemma_same_scissor(draws, k - 1);
        assert(extends(draws[k - 1], draws[k]));
    }
}

/// The scissor rectangle and index of each element a draw call draws, in order.
pub open spec fn draw_span(d: ClippedDraw) -> Seq<(ScissorRect, int)> {
    Seq::new((d.index_end - d.index_start) as nat, |k: int| (d.scissor, d.index_start + k))
}

/// The elements drawn by a sequence of draw calls, in order.
pub open spec fn drawn(draws: Seq<ClippedDraw>) -> Seq<(ScissorRect, int)>
    decreases draws.len(),
{
    if draws.len() == 0 {
        Seq::empty()
    } else {
        drawn(draws.drop_last()) + draw_span(draws.last())
    }
}

/// Every draw call's index range runs forwards.
pub open spec fn forward_ranges(draws: Seq<ClippedDraw>) -> bool {
    forall|i: int| 0 <= i < draws.len() ==> (#[trigger] draws[i]).index_start <= draws[i].index_end
}

proof fn lemma_span_concat(b: ClippedDraw, d: ClippedDraw)
    requires
        b.index_start <= b.index_end,
        b.index_end == d.index_start,
        d.index_start <= d.index_end,
        b.scissor == d.scissor,
    ensures
        draw_span(ClippedDraw { scissor: b.scissor, index_start: b.index_start, index_end: d.index_end })
            == draw_span(b) + draw_span(d),
{
    let m = ClippedDraw { scissor: b.scissor, index_start: b.index_start, index_end: d.index_end };
    assert(draw_span(m) =~= draw_span(b) + draw_span(d));
}

/// Batching changes how many draw calls are made, never what is drawn: the
/// batches draw the same elements with the same scissor rectangles, in the same order.
pub proof fn lemma_batching_draws_the_same(draws: Seq<ClippedDraw>)
    requires
        forward_ranges(draws),
    ensures
        forward_ranges(batches(draws)),
        drawn(batches(draws)) == drawn(draws),
    decreases draws.len(),
{
    if draws.len() > 0 {
        let p = draws.drop_last();
        let d = draws.last();
        assert(forward_ranges(p)) by {
            assert forall|i: int| 0 <= i < p.len() implies (#[trigger] p[i]).index_start <= p[i].index_end by {
                assert(p[i] == draws[i]);
            }
        }
        assert(d.index_start <= d.index_end) by {
            assert(draws[draws.len() - 1] == d);
        }
        lemma_batching_draws_the_same(p);
        let prev = batches(p);
        let b = batches(draws);
        if prev.len() > 0 && extends(prev.last(), d) {
            let last = prev.last();
            assert(last == prev[prev.len() - 1]);
            assert(last.index_start <= last.index_end);
            lemma_span_concat(last, d);
            assert(b.drop_last() =~= prev.drop_last());
            assert(b.last() == ClippedDraw { scissor: last.scissor, index_start: last.index_start, index_end: d.index_end });
            assert(drawn(b) == drawn(b.drop_last()) + draw_span(b.last()));
            assert(drawn(prev) == drawn(prev.drop_last()) + draw_span(last));
            assert(drawn(b) =~= drawn(prev) + draw_span(d));
            assert forall|i: int| 0 <= i < b.len() implies (#[trigger] b[i]).index_start <= b[i].index_end by {
                if i < b.len() - 1 {
                    assert(b[i] == prev[i]);
                }
            }
        } else {
            assert(b.drop_last() =~= prev);
            assert(forall|i: int| 0 <= i < prev.len() ==> b[i] == prev[i]);
        }
        assert(drawn(draws) == drawn(p) + draw_span(d));
    }
}

/// Whether `n` is a power of two.
pub open spec fn is_pow2(n: nat) -> bool
    decreases n,
{
    if n == 1 {
        true
    } else if n == 0 || n % 2 == 1 {
        false
    } else {
        is_pow2(n / 2)
    }
}

/// The smallest power of two that is at least `n` (1 for `n == 0`).
pub open spec fn next_pow2(n: nat) -> nat
    decreases n,
{
    if n <= 1 {
        1
    } else {
        2 * next_pow2(((n + 1) / 2) as nat)
    }
}

proof fn lemma_next_pow2_props(n: nat)
    ensures
        is_pow2(next_pow2(n)),
        next_pow2(n) >= n,
        next_pow2(n) >= 1,
        n >= 1 ==> next_pow2(n) < 2 * n,
    decreases n,
{
    if n > 1 {
        let m = ((n + 1) / 2) as nat;
        lemma_next_pow2_props(m);
        let p = next_pow2(m);
        assert((2 * p) % 2 == 0);
        assert((2 * p) / 2 == p);
    }
}

/// Ascending by doubling from a power of two at most `n` reaches `next_pow2(n)`.
proof fn lemma_doubling_reaches(p: nat, n: nat)
    requires
        is_pow2(p),
        p < n,
    ensures
        next_pow2(n) >= 2 * p,
    decreases n,
{
    lemma_next_pow2_props(n);
    lemma_pow2_ge_between(p, next_pow2(n));
}

/// Of two powers of two, the larger one is a multiple of the smaller, so a
/// power of two above `p` is at least `2 * p`.
proof fn lemma_pow2_ge_between(p: nat, q: nat)
    requires
        is_pow2(p),
        is_pow2(q),
        p < q,
    ensures
        q >= 2 * p,
    decreases q,
{
    if p == 1 {
        assert(q != 1);
        assert(q % 2 == 0);
    } else {
        assert(q != 1);
        assert(p % 2 == 0 && q % 2 == 0);
        lemma_pow2_ge_between(p / 2, q / 2);
    }
}

/// `next_pow2(n)` is the smallest power of two at least `n`: it is a power of
/// two, it is at least `n`, and its half is below `n` (for `n > 1`).
pub proof fn lemma_next_pow2_smallest(n: nat)
    ensures
        is_pow2(next_pow2(n)),
        next_pow2(n) >= n,
        n <= 1 ==> next_pow2(n) == 1,
        n > 1 ==> next_pow2(n) / 2 < n,
        forall|q: nat| is_pow2(q) && q >= n ==> q >= next_pow2(n),
{
    lemma_next_pow2_props(n);
    assert forall|q: nat| is_pow2(q) && q >= n implies q >= next_pow2(n) by {
        if q < next_pow2(n) {
            lemma_pow2_ge_between(q, next_pow2(n));
        }
    }
}

/// Capacity a GPU buffer is given for `len` items: the current capacity when it
/// suffices, else the next power of two of twice the length.
pub open spec fn grown_capacity_spec(len: nat, capacity: nat) -> nat {
    if len > capacity {
        next_pow2(2 * len)
    } else {
        capacity
    }
}

/// Computes the smallest power of two that is at least `n`.
/// The result fits a `usize` exactly when `n` is at most half the range.
pub fn next_power_of_two(n: usize) -> (r: usize)
    requires
        n <= usize::MAX / 2 + 1,
    ensures
        r == next_pow2(n as nat),
{
    proof {
        lemma_next_pow2_props(n as nat);
        assert(usize::MAX % 2 == 1);
    }
    let mut p: usize = 1;
    while p < n
        invariant
            is_pow2(p as nat),
            p >= 1,
            p < n ==> 2 * p <= next_pow2(n as nat),
            p <= next_pow2(n as nat),
            next_pow2(n as nat) <= usize::MAX,
            next_pow2(n as nat) >= n,
            is_pow2(next_pow2(n as nat)),
        decreases next_pow2(n as nat) - p,
    {
        proof {
            lemma_doubling_reaches(p as nat, n as nat);
            assert((2 * p as nat) % 2 == 0);
            assert((2 * p as nat) / 2 == p as nat);
        }
        p = p * 2;
        proof {
            if p < n {
                lemma_doubling_reaches(p as nat, n as nat);
            }
        }
    }
    proof {
        if p > next_pow2(n as nat) {
            lemma_pow2_ge_between(next_pow2(n as nat), p as nat);
        }
        if p < next_pow2(n as nat) {
            lemma_pow2_ge_between(p as nat, next_pow2(n as nat));
            lemma_next_pow2_props(n as nat);
            if n >= 1 {
                assert(next_pow2(n as nat) < 2 * n);
            }
        }
    }
    p
}

/// Capacity of a GPU buffer after a frame that needs `len` items: it grows to
/// the next power of two of twice the length when `len` exceeds it.
pub fn grown_capacity(len: usize, capacity: usize) -> (r: usize)
    requires
        len > capacity ==> len <= usize::MAX / 4 + 1,
    ensures
        r == grown_capacity_spec(len as nat, capacity as nat),
        r >= len,
        r >= capacity,
{
    if len > capacity {
        proof {
            lemma_next_pow2_props(2 * len as nat);
            assert(usize::MAX % 4 == 3);
        }
        next_power_of_two(len * 2)
    } else {
        capacity
    }
}

/// A grown capacity is the smallest power of two with room for twice the length
/// (so less than four times the length), and
/// asking again for the same length leaves it unchanged.
pub proof fn lemma_grown_capacity_stable(len: nat, capacity: nat)
    requires
        len > capacity,
    ensures
        is_pow2(grown_capacity_spec(len, capacity)),
        grown_capacity_spec(len, capacity) >= 2 * len,
        grown_capacity_spec(len, capacity) < 4 * len,
        grown_capacity_spec(len, grown_capacity_spec(len, capacity)) == grown_capacity_spec(len, capacity),
{
    lemma_next_pow2_props(2 * len);
}

} // verus!
