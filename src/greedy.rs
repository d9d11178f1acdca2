//! Greedy merging of one layer's face mask into rectangles.
//!
//! A mask is a `CHUNK_SIZE` × `CHUNK_SIZE` grid, stored row by row, whose
//! cells hold the block id of a visible face, or 0 where no face is drawn.
//! Cells are scanned in row-major order; at each non-zero cell a rectangle
//! is grown first along the row while the cells match, then downward while
//! whole rows match, and its cells are cleared.
use vstd::prelude::*;
use crate::block::BlockId;
use crate::chunk::{n, CHUNK_SIZE};

verus! {

/// Number of cells of a mask.
pub const MASK_LEN: usize = 1024;

/// A rectangle of equal cells: rows `row .. row + height`, columns
/// `col .. col + width`.
#[derive(Clone, Copy, Debug, PartialEq, Eq, Structural)]
pub struct Rect {
    pub row: u32,
    pub col: u32,
    pub width: u32,
    pub height: u32,
    pub block: BlockId,
}

pub open spec fn idx(i: int, j: int) -> int {
    i * n() + j
}

/// Width of the run of cells equal to `v` in row `i` from column `j`,
/// given that its first `w` cells are known to match.
pub open spec fn width_from(m: Seq<BlockId>, i: int, j: int, v: BlockId, w: int) -> int
    decreases n() - j - w,
{
    if j + w < n() && m[idx(i, j + w)] == v {
        width_from(m, i, j, v, w + 1)
    } else {
        w
    }
}

/// Whether columns `j .. j + w` of row `i` all hold `v`.
pub open spec fn row_matches(m: Seq<BlockId>, i: int, j: int, w: int, v: BlockId) -> bool {
    forall|t: int| 0 <= t < w ==> m[#[trigger] idx(i, j + t)] == v
}

/// Number of rows from row `i` down whose columns `j .. j + w` all hold
/// `v`, given that the first `h` are known to.
pub open spec fn height_from(m: Seq<BlockId>, i: int, j: int, w: int, v: BlockId, h: int) -> int
    decreases n() - i - h,
{
    if i + h < n() && row_matches(m, i + h, j, w, v) {
        height_from(m, i, j, w, v, h + 1)
    } else {
        h
    }
}

pub open spec fn in_rect(k: int, i: int, j: int, w: int, h: int) -> bool {
    i <= k / n() < i + h && j <= k % n() < j + w
}

/// `m` with the cells of the rectangle at `(i, j)` of size `w` × `h` set to 0.
pub open spec fn cleared(m: Seq<BlockId>, i: int, j: int, w: int, h: int) -> Seq<BlockId> {
    Seq::new(m.len(), |k: int| if in_rect(k, i, j, w, h) { 0 } else { m[k] })
}

/// The rectangles that the scan emits from cell `k` on.
pub open spec fn greedy_from(m: Seq<BlockId>, k: int) -> Seq<Rect>
    decreases n() * n() - k,
{
    if k < 0 || k >= n() * n() {
        seq![]
    } else if m[k] == 0 {
        greedy_from(m, k + 1)
    } else {
        let i = k / n();
        let j = k % n();
        let v = m[k];
        let w = width_from(m, i, j, v, 1);
        let h = height_from(m, i, j, w, v, 1);
        seq![Rect { row: i as u32, col: j as u32, width: w as u32, height: h as u32, block: v }]
            + greedy_from(cleared(m, i, j, w, h), k + 1)
    }
}

/// The rectangles of mask `m`, in emission order.
pub open spec fn greedy_rects(m: Seq<BlockId>) -> Seq<Rect> {
    greedy_from(m, 0)
}

/// A rectangle lies inside the mask, is non-empty and holds a face.
pub open spec fn rect_ok(r: Rect) -> bool {
    &&& r.width >= 1 && r.height >= 1
    &&& r.col + r.width <= n()
    &&& r.row + r.height <= n()
    &&& r.block != 0
}

pub proof fn lemma_idx(i: int, j: int)
    requires
        0 <= i < n(),
        0 <= j < n(),
    ensures
        0 <= idx(i, j) < n() * n(),
        idx(i, j) / n() == i,
        idx(i, j) % n() == j,
{
    vstd::arithmetic::div_mod::lemma_fundamental_div_mod_converse(idx(i, j), n(), i, j);
}

pub proof fn lemma_split(k: int)
    requires
        0 <= k < n() * n(),
    ensures
        0 <= k / n() < n(),
        0 <= k % n() < n(),
        k == idx(k / n(), k % n()),
{
    vstd::arithmetic::div_mod::lemma_fundamental_div_mod(k, n());
    assert(n() * n() == 1024);
}

proof fn lemma_width_bounds(m: Seq<BlockId>, i: int, j: int, v: BlockId, w: int)
    requires
        0 <= j,
        1 <= w,
        j + w <= n(),
    ensures
        w <= width_from(m, i, j, v, w) <= n() - j,
    decreases n() - j - w,
{
    if j + w < n() && m[idx(i, j + w)] == v {
        lemma_width_bounds(m, i, j, v, w + 1);
    }
}

proof fn lemma_height_bounds(m: Seq<BlockId>, i: int, j: int, w: int, v: BlockId, h: int)
    requires
        0 <= i,
        1 <= h,
        i + h <= n(),
    ensures
        h <= height_from(m, i, j, w, v, h) <= n() - i,
    decreases n() - i - h,
{
    if i + h < n() && row_matches(m, i + h, j, w, v) {
        lemma_height_bounds(m, i, j, w, v, h + 1);
    }
}

/// Every emitted rectangle lies in the mask, and there are at most as many
/// as cells left to scan.
pub proof fn lemma_greedy_from_ok(m: Seq<BlockId>, k: int)
    requires
        m.len() == n() * n(),
        0 <= k <= n() * n(),
    ensures
        greedy_from(m, k).len() <= n() * n() - k,
        forall|t: int| 0 <= t < greedy_from(m, k).len() ==> rect_ok(#[trigger] greedy_from(m, k)[t]),
    decreases n() * n() - k,
{
    if k < n() * n() {
        if m[k] == 0 {
            lemma_greedy_from_ok(m, k + 1);
        } else {
            let i = k / n();
            let j = k % n();
            let v = m[k];
            lemma_split(k);
            lemma_width_bounds(m, i, j, v, 1);
            let w = width_from(m, i, j, v, 1);
            lemma_height_bounds(m, i, j, w, v, 1);
            let h = height_from(m, i, j, w, v, 1);
            let c = cleared(m, i, j, w, h);
            lemma_greedy_from_ok(c, k + 1);
            let g = greedy_from(m, k);
            assert(g == seq![Rect { row: i as u32, col: j as u32, width: w as u32, height: h as u32, block: v }]
                + greedy_from(c, k + 1));
            assert forall|t: int| 0 <= t < g.len() implies rect_ok(#[trigger] g[t]) by {
                if t > 0 {
                    assert(g[t] == greedy_from(c, k + 1)[t - 1]);
                }
            }
        }
    }
}

/// Scanning a stretch of empty cells emits nothing.
pub proof fn lemma_greedy_skip(m: Seq<BlockId>, k: int, k1: int)
    requires
        m.len() == n() * n(),
        0 <= k <= k1 <= n() * n(),
        forall|t: int| k <= t < k1 ==> m[t] == 0,
    ensures
        greedy_from(m, k) == greedy_from(m, k1),
    decreases k1 - k,
{
    if k < k1 {
        lemma_greedy_skip(m, k + 1, k1);
    }
}

/// A mask without faces gives no rectangle.
pub proof fn lemma_greedy_empty_mask(m: Seq<BlockId>)
    requires
        m.len() == n() * n(),
        forall|t: int| 0 <= t < m.len() ==> m[t] == 0,
    ensures
        greedy_rects(m).len() == 0,
{
    lemma_greedy_skip(m, 0, n() * n());
}

proof fn lemma_width_full_row(m: Seq<BlockId>, i: int, v: BlockId, w: int)
    requires
        m.len() == n() * n(),
        0 <= i < n(),
        1 <= w <= n(),
        forall|t: int| 0 <= t < m.len() ==> m[t] == v,
    ensures
        width_from(m, i, 0, v, w) == n(),
    decreases n() - w,
{
    if w < n() {
        lemma_idx(i, w);
        lemma_width_full_row(m, i, v, w + 1);
    }
}

proof fn lemma_height_full(m: Seq<BlockId>, v: BlockId, h: int)
    requires
        m.len() == n() * n(),
        1 <= h <= n(),
        forall|t: int| 0 <= t < m.len() ==> m[t] == v,
    ensures
        height_from(m, 0, 0, n(), v, h) == n(),
    decreases n() - h,
{
    if h < n() {
        assert forall|t: int| 0 <= t < n() implies m[#[trigger] idx(h, 0 + t)] == v by {
            lemma_idx(h, t);
        }
        lemma_height_full(m, v, h + 1);
    }
}

/// A mask whose cells all show the same face merges into one rectangle
/// covering the whole layer.
pub proof fn lemma_greedy_uniform_mask(m: Seq<BlockId>, v: BlockId)
    requires
        m.len() == n() * n(),
        v != 0,
        forall|t: int| 0 <= t < m.len() ==> m[t] == v,
    ensures
        greedy_rects(m) == seq![Rect { row: 0, col: 0, width: 32, height: 32, block: v }],
{
    lemma_split(0);
    lemma_width_full_row(m, 0, v, 1);
    lemma_height_full(m, v, 1);
    let c = cleared(m, 0, 0, n(), n());
    assert forall|t: int| 0 <= t < c.len() implies c[t] == 0 by {
        lemma_split(t);
    }
    lemma_greedy_skip(c, 1, n() * n());
    assert(greedy_from(c, 1) =~= seq![]);
    assert(greedy_rects(m) =~= seq![Rect { row: 0, col: 0, width: 32, height: 32, block: v }]);
}

/// A mask with a single face gives a single rectangle of one cell.
pub proof fn lemma_greedy_single_cell(m: Seq<BlockId>, k: int)
    requires
        m.len() == n() * n(),
        0 <= k < m.len(),
        m[k] != 0,
        forall|t: int| 0 <= t < m.len() && t != k ==> m[t] == 0,
    ensures
        greedy_rects(m) == seq![Rect { row: (k / n()) as u32, col: (k % n()) as u32, width: 1, height: 1, block: m[k] }],
{
    lemma_split(k);
    let i = k / n();
    let j = k % n();
    let v = m[k];
    lemma_greedy_skip(m, 0, k);
    if j + 1 < n() {
        lemma_idx(i, j + 1);
    }
    assert(width_from(m, i, j, v, 1) == 1);
    if i + 1 < n() {
        lemma_idx(i + 1, j);
        assert(m[idx(i + 1, j + 0)] == 0);
    }
    assert(height_from(m, i, j, 1, v, 1) == 1);
    let c = cleared(m, i, j, 1, 1);
    assert forall|t: int| 0 <= t < c.len() implies c[t] == 0 by {
        lemma_split(t);
        if t == k {
            assert(in_rect(t, i, j, 1, 1));
        }
    }
    lemma_greedy_skip(c, k + 1, n() * n());
    assert(greedy_from(c, k + 1) =~= seq![]);
    assert(greedy_rects(m) =~= seq![Rect { row: i as u32, col: j as u32, width: 1, height: 1, block: v }]);
}

/// Whether rectangle `r` covers cell `(i, j)`.
pub open spec fn covers(r: Rect, i: int, j: int) -> bool {
    r.row <= i < r.row + r.height && r.col <= j < r.col + r.width
}

/// The rectangles `rs` tile exactly the faces of mask `m`: each covers only
/// cells that hold its block, every face is covered, and no two overlap.
pub open spec fn tiles(rs: Seq<Rect>, m: Seq<BlockId>) -> bool {
    &&& forall|t: int, i: int, j: int| 0 <= t < rs.len() && #[trigger] covers(rs[t], i, j)
        ==> 0 <= i < n() && 0 <= j < n() && m[idx(i, j)] == rs[t].block
    &&& forall|i: int, j: int| 0 <= i < n() && 0 <= j < n() && m[#[trigger] idx(i, j)] != 0
        ==> exists|t: int| 0 <= t < rs.len() && #[trigger] covers(rs[t], i, j)
    &&& forall|t: int, u: int, i: int, j: int| 0 <= t < u < rs.len() && #[trigger] covers(rs[t], i, j)
        ==> !#[trigger] covers(rs[u], i, j)
}

proof fn lemma_width_cells(m: Seq<BlockId>, i: int, j: int, v: BlockId, w: int)
    requires
        0 <= j,
        1 <= w,
        j + w <= n(),
        forall|t: int| 0 <= t < w ==> m[#[trigger] idx(i, j + t)] == v,
    ensures
        forall|t: int| 0 <= t < width_from(m, i, j, v, w) ==> m[#[trigger] idx(i, j + t)] == v,
    decreases n() - j - w,
{
    if j + w < n() && m[idx(i, j + w)] == v {
        lemma_width_cells(m, i, j, v, w + 1);
    }
}

proof fn lemma_height_rows(m: Seq<BlockId>, i: int, j: int, w: int, v: BlockId, h: int)
    requires
        0 <= i,
        1 <= h,
        i + h <= n(),
        forall|r: int| 1 <= r < h ==> #[trigger] row_matches(m, i + r, j, w, v),
    ensures
        forall|r: int| 1 <= r < height_from(m, i, j, w, v, h) ==> #[trigger] row_matches(m, i + r, j, w, v),
    decreases n() - i - h,
{
    if i + h < n() && row_matches(m, i + h, j, w, v) {
        assert forall|r: int| 1 <= r < h + 1 implies #[trigger] row_matches(m, i + r, j, w, v) by {
            if r == h {
            }
        }
        lemma_height_rows(m, i, j, w, v, h + 1);
    }
}

/// The scan emits, from cell `k` on, rectangles that tile the faces of
/// `m` when no face lies before `k`.
proof fn lemma_greedy_from_tiles(m: Seq<BlockId>, k: int)
    requires
        m.len() == n() * n(),
        0 <= k <= n() * n(),
        forall|c: int| 0 <= c < k ==> m[c] == 0,
    ensures
        tiles(greedy_from(m, k), m),
    decreases n() * n() - k,
{
    let g = greedy_from(m, k);
    if k == n() * n() {
        assert forall|i: int, j: int| 0 <= i < n() && 0 <= j < n() && m[#[trigger] idx(i, j)] != 0
            implies exists|t: int| 0 <= t < g.len() && #[trigger] covers(g[t], i, j) by {
            lemma_idx(i, j);
        }
    } else if m[k] == 0 {
        lemma_greedy_from_tiles(m, k + 1);
    } else {
        let i = k / n();
        let j = k % n();
        let v = m[k];
        lemma_split(k);
        lemma_width_bounds(m, i, j, v, 1);
        let w = width_from(m, i, j, v, 1);
        lemma_height_bounds(m, i, j, w, v, 1);
        let h = height_from(m, i, j, w, v, 1);
        lemma_width_cells(m, i, j, v, 1);
        lemma_height_rows(m, i, j, w, v, 1);
        let rect = Rect { row: i as u32, col: j as u32, width: w as u32, height: h as u32, block: v };
        let c = cleared(m, i, j, w, h);
        assert forall|q: int| 0 <= q < k + 1 implies c[q] == 0 by {
            lemma_split(q);
        }
        lemma_greedy_from_tiles(c, k + 1);
        lemma_greedy_from_ok(c, k + 1);
        let rest = greedy_from(c, k + 1);
        assert(g == seq![rect] + rest);
        // cells of the new rectangle hold its block
        assert forall|a: int, b: int| covers(rect, a, b) implies m[idx(a, b)] == v by {
            if a == i {
                assert(m[idx(i, j + (b - j))] == v);
            } else {
                assert(row_matches(m, i + (a - i), j, w, v));
                assert(m[idx(a, j + (b - j))] == v);
            }
        }
        // a cell still holding a face after clearing lies outside the rectangle
        assert forall|a: int, b: int| 0 <= a < n() && 0 <= b < n() && c[idx(a, b)] != 0
            implies !covers(rect, a, b) && m[idx(a, b)] == c[idx(a, b)] by {
            lemma_idx(a, b);
        }
        assert forall|t: int, a: int, b: int| 0 <= t < g.len() && #[trigger] covers(g[t], a, b)
            implies 0 <= a < n() && 0 <= b < n() && m[idx(a, b)] == g[t].block by {
            if t > 0 {
                assert(g[t] == rest[t - 1]);
                assert(covers(rest[t - 1], a, b));
                assert(rect_ok(rest[t - 1]));
            }
        }
        assert forall|a: int, b: int| 0 <= a < n() && 0 <= b < n() && m[#[trigger] idx(a, b)] != 0
            implies exists|t: int| 0 <= t < g.len() && #[trigger] covers(g[t], a, b) by {
            lemma_idx(a, b);
            if covers(rect, a, b) {
                assert(covers(g[0], a, b));
            } else {
                assert(c[idx(a, b)] == m[idx(a, b)]);
                let t = choose|t: int| 0 <= t < rest.len() && #[trigger] covers(rest[t], a, b);
                assert(covers(g[t + 1], a, b));
            }
        }
        assert forall|t: int, u: int, a: int, b: int| 0 <= t < u < g.len() && #[trigger] covers(g[t], a, b)
            implies !#[trigger] covers(g[u], a, b) by {
            assert(g[u] == rest[u - 1]);
            if t == 0 {
                if covers(rest[u - 1], a, b) {
                    assert(rect_ok(rest[u - 1]));
                }
            } else {
                assert(g[t] == rest[t - 1]);
            }
        }
    }
}

/// The rectangles of a mask tile exactly its faces.
pub proof fn lemma_greedy_tiles(m: Seq<BlockId>)
    requires
        m.len() == n() * n(),
    ensures
        tiles(greedy_rects(m), m),
{
    lemma_greedy_from_tiles(m, 0);
}

fn row_is(mask: &Vec<BlockId>, i: usize, j: usize, w: usize, v: BlockId) -> (r: bool)
    requires
        mask@.len() == n() * n(),
        i < CHUNK_SIZE,
        j + w <= CHUNK_SIZE,
    ensures
        r == row_matches(mask@, i as int, j as int, w as int, v),
{
    let mut t: usize = 0;
    while t < w
        invariant
            t <= w,
            j + w <= CHUNK_SIZE,
            i < CHUNK_SIZE,
            mask@.len() == n() * n(),
            forall|u: int| 0 <= u < t ==> mask@[#[trigger] idx(i as int, j + u)] == v,
        decreases w - t,
    {
        proof {
            lemma_idx(i as int, (j + t) as int);
        }
        if mask[i * CHUNK_SIZE + j + t] != v {
            return false;
        }
        t += 1;
    }
    true
}

fn clear_rect(mask: &mut Vec<BlockId>, i: usize, j: usize, w: usize, h: usize)
    requires
        old(mask)@.len() == n() * n(),
        i + h <= CHUNK_SIZE,
        j + w <= CHUNK_SIZE,
    ensures
        final(mask)@ == cleared(old(mask)@, i as int, j as int, w as int, h as int),
{
    let ghost m0 = mask@;
    let mut r: usize = 0;
    while r < h
        invariant
            r <= h,
            i + h <= CHUNK_SIZE,
            j + w <= CHUNK_SIZE,
            m0.len() == n() * n(),
            mask@ == cleared(m0, i as int, j as int, w as int, r as int),
        decreases h - r,
    {
        let mut t: usize = 0;
        while t < w
            invariant
                t <= w,
                r < h,
                i + h <= CHUNK_SIZE,
                j + w <= CHUNK_SIZE,
                m0.len() == n() * n(),
                mask@ == Seq::new(m0.len(), |k: int|
                    if in_rect(k, i as int, j as int, w as int, r as int) || in_rect(k, (i + r) as int, j as int, t as int, 1) { 0 } else { m0[k] }),
            decreases w - t,
        {
            proof {
                lemma_idx((i + r) as int, (j + t) as int);
            }
            let ghost before = mask@;
            mask.set((i + r) * CHUNK_SIZE + j + t, 0);
            proof {
                let target = idx((i + r) as int, (j + t) as int);
                assert forall|k: int| 0 <= k < m0.len() implies #[trigger] mask@[k] == (
                    if in_rect(k, i as int, j as int, w as int, r as int) || in_rect(k, (i + r) as int, j as int, (t + 1) as int, 1) { 0 } else { m0[k] }) by {
                    lemma_split(k);
                    if k != target {
                        assert(k / n() != (i + r) || k % n() != (j + t));
                    }
                }
                assert(mask@ =~= Seq::new(m0.len(), |k: int|
                    if in_rect(k, i as int, j as int, w as int, r as int) || in_rect(k, (i + r) as int, j as int, (t + 1) as int, 1) { 0 } else { m0[k] }));
            }
            t += 1;
        }
        proof {
            assert(mask@ =~= cleared(m0, i as int, j as int, w as int, (r + 1) as int));
        }
        r += 1;
    }
}

/// Appends to `out` the rectangles of `mask`, in scan order, and leaves
/// the mask cleared.
pub fn greedy_merge(mask: &mut Vec<BlockId>, out: &mut Vec<Rect>)
    requires
        old(mask)@.len() == MASK_LEN,
    ensures
        final(out)@ == old(out)@ + greedy_rects(old(mask)@),
        final(mask)@.len() == MASK_LEN,
{
    let ghost m0 = mask@;
    let ghost out0 = out@;
    let mut k: usize = 0;
    while k < MASK_LEN
        invariant
            k <= MASK_LEN,
            mask@.len() == MASK_LEN,
            out0 + greedy_from(m0, 0) == out@ + greedy_from(mask@, k as int),
        decreases MASK_LEN - k,
    {
        let v = mask[k];
        if v != 0 {
            proof {
                lemma_split(k as int);
            }
            let i = k / CHUNK_SIZE;
            let j = k % CHUNK_SIZE;
            let mut w: usize = 1;
            while j + w < CHUNK_SIZE && mask[i * CHUNK_SIZE + j + w] == v
                invariant
                    1 <= w,
                    j + w <= CHUNK_SIZE,
                    i < CHUNK_SIZE,
                    mask@.len() == MASK_LEN,
                    width_from(mask@, i as int, j as int, v, w as int) == width_from(mask@, i as int, j as int, v, 1),
                decreases CHUNK_SIZE - j - w,
            {
                w += 1;
            }
            let mut h: usize = 1;
            while i + h < CHUNK_SIZE && row_is(mask, i + h, j, w, v)
                invariant
                    1 <= h,
                    i + h <= CHUNK_SIZE,
                    j + w <= CHUNK_SIZE,
                    mask@.len() == MASK_LEN,
                    height_from(mask@, i as int, j as int, w as int, v, h as int)
                        == height_from(mask@, i as int, j as int, w as int, v, 1),
                decreases CHUNK_SIZE - i - h,
            {
                h += 1;
            }
            let ghost before = mask@;
            out.push(Rect { row: i as u32, col: j as u32, width: w as u32, height: h as u32, block: v });
            clear_rect(mask, i, j, w, h);
            proof {
                let r = Rect { row: i as u32, col: j as u32, width: w as u32, height: h as u32, block: v };
                assert(greedy_from(before, k as int) == seq![r] + greedy_from(mask@, k + 1));
                vstd::seq_lib::lemma_concat_associative(out@.drop_last(), seq![r], greedy_from(mask@, k + 1));
                assert(out@.drop_last() + seq![r] == out@);
            }
        }
        k += 1;
    }
    proof {
        assert(out@ + greedy_from(mask@, MASK_LEN as int) == out@);
    }
}

} // verus!
