//! Collision of an axis-aligned box against the solid blocks of a world.
//!
//! Coordinates are fixed-point: a block is `UNITS_PER_BLOCK` units long,
//! and block `c` of an axis spans units `[c * UNITS_PER_BLOCK, (c + 1) *
//! UNITS_PER_BLOCK)`. A box spans `[min, min + size)` on each axis.
use vstd::prelude::*;
use crate::chunk::BlockPos;
use crate::world::BlockContainer;

verus! {

/// Length of a block, in position units.
pub const UNITS_PER_BLOCK: i64 = 1024;

/// Bound on coordinates, sizes and displacements, in position units.
pub const COORD_LIMIT: i64 = 0x100_0000_0000;

pub open spec fn s() -> int {
    1024
}

/// An axis-aligned box: its least corner and its size, in position units.
#[derive(Clone, Copy, Debug)]
pub struct Aabb {
    pub min: [i64; 3],
    pub size: [i64; 3],
}

pub open spec fn coord_ok(v: int) -> bool {
    -COORD_LIMIT <= v <= COORD_LIMIT
}

impl Aabb {
    pub open spec fn wf(&self) -> bool {
        forall|a: int| 0 <= a < 3 ==> coord_ok(#[trigger] self.min@[a] as int) && 1 <= self.size@[a] <= COORD_LIMIT
    }

    pub open spec fn lo(&self, a: int) -> int {
        self.min@[a] as int
    }

    /// One past the last unit of the box on axis `a`.
    pub open spec fn hi(&self, a: int) -> int {
        self.min@[a] + self.size@[a]
    }

    /// First block the box overlaps on axis `a`.
    pub open spec fn first_block(&self, a: int) -> int {
        self.lo(a) / s()
    }

    /// Last block the box overlaps on axis `a`.
    pub open spec fn last_block(&self, a: int) -> int {
        (self.hi(a) - 1) / s()
    }

    /// A box at `min` of size `size`.
    pub fn new(min: [i64; 3], size: [i64; 3]) -> (r: Aabb)
        ensures
            r.min == min,
            r.size == size,
    {
        Aabb { min, size }
    }

    /// Resolves a requested displacement of this box against `w`, each axis
    /// clipped on its own against the box where it stands; the three
    /// components apply together.
    pub fn move_check_collision<C: BlockContainer>(&self, w: &C, delta: [i64; 3]) -> (r: [i64; 3])
        requires
            w.container_wf(),
            self.wf(),
            forall|a: int| 0 <= a < 3 ==> coord_ok(#[trigger] delta@[a] as int),
        ensures
            forall|a: int| 0 <= a < 3 ==> swept(w, *self, a, #[trigger] delta@[a] as int, r@[a] as int),
    {
        let rx = sweep(w, self, 0, delta[0]);
        let ry = sweep(w, self, 1, delta[1]);
        let rz = sweep(w, self, 2, delta[2]);
        let r = [rx, ry, rz];
        assert forall|a: int| 0 <= a < 3 implies swept(w, *self, a, #[trigger] delta@[a] as int, r@[a] as int) by {
            if a == 0 {
            } else if a == 1 {
            } else {
            }
        }
        r
    }
}

/// The two axes other than `a`, in increasing order.
pub open spec fn others(a: int) -> (int, int) {
    if a == 0 {
        (1, 2)
    } else if a == 1 {
        (0, 2)
    } else {
        (0, 1)
    }
}

/// The block at index `c` along axis `a`, `j` and `k` along the others.
pub open spec fn block_on(a: int, c: int, j: int, k: int) -> (int, int, int) {
    if a == 0 {
        (c, j, k)
    } else if a == 1 {
        (j, c, k)
    } else {
        (j, k, c)
    }
}

/// Whether a solid block lies in layer `c` of axis `a` within the cross
/// section of `b`.
pub open spec fn layer_blocked<C: BlockContainer>(w: &C, b: Aabb, a: int, c: int) -> bool {
    let (o1, o2) = others(a);
    exists|j: int, k: int|
        b.first_block(o1) <= j <= b.last_block(o1) && b.first_block(o2) <= k <= b.last_block(o2)
            && w.full(#[trigger] block_on(a, c, j, k))
}

/// The displacement that `sweep` returns for box `b` asked to move `d`
/// along axis `a`: all of `d` if no solid layer lies in the way, else the
/// displacement that brings the leading face flush with the first one.
pub open spec fn swept<C: BlockContainer>(w: &C, b: Aabb, a: int, d: int, r: int) -> bool {
    if d > 0 {
        &&& 0 <= r <= d
        &&& forall|c: int| (b.hi(a) - 1) / s() + 1 <= c <= (b.hi(a) + r - 1) / s() ==> !#[trigger] layer_blocked(w, b, a, c)
        &&& r < d ==> (b.hi(a) + r) % s() == 0 && layer_blocked(w, b, a, (b.hi(a) + r) / s())
    } else if d < 0 {
        &&& d <= r <= 0
        &&& forall|c: int| (b.lo(a) + r) / s() <= c <= b.lo(a) / s() - 1 ==> !#[trigger] layer_blocked(w, b, a, c)
        &&& r > d ==> (b.lo(a) + r) % s() == 0 && layer_blocked(w, b, a, (b.lo(a) + r) / s() - 1)
    } else {
        r == 0
    }
}

fn block_index_of(v: i64) -> (r: i64)
    requires
        -COORD_LIMIT * 3 <= v <= COORD_LIMIT * 3,
    ensures
        r == v as int / s(),
        -COORD_LIMIT * 3 <= r <= COORD_LIMIT * 3,
{
    v.checked_div_euclid(UNITS_PER_BLOCK).unwrap()
}

fn layer_blocked_at<C: BlockContainer>(w: &C, b: &Aabb, a: usize, c: i64) -> (r: bool)
    requires
        w.container_wf(),
        b.wf(),
        a < 3,
        -COORD_LIMIT * 3 <= c <= COORD_LIMIT * 3,
    ensures
        r == layer_blocked(w, *b, a as int, c as int),
{
    let (o1, o2): (usize, usize) = if a == 0 {
        (1, 2)
    } else if a == 1 {
        (0, 2)
    } else {
        (0, 1)
    };
    let j0 = block_index_of(b.min[o1]);
    let j1 = block_index_of(b.min[o1] + b.size[o1] - 1);
    let k0 = block_index_of(b.min[o2]);
    let k1 = block_index_of(b.min[o2] + b.size[o2] - 1);
    let ghost bb = *b;
    let mut j = j0;
    while j <= j1
        invariant
            w.container_wf(),
            bb == *b,
            b.wf(),
            a < 3,
            (o1 as int, o2 as int) == others(a as int),
            j0 == b.first_block(o1 as int),
            j1 == b.last_block(o1 as int),
            k0 == b.first_block(o2 as int),
            k1 == b.last_block(o2 as int),
            j0 <= j <= j1 + 1,
            -COORD_LIMIT * 3 <= j1 <= COORD_LIMIT * 3,
            -COORD_LIMIT * 3 <= c <= COORD_LIMIT * 3,
            forall|jj: int, kk: int| j0 <= jj < j && k0 <= kk <= k1 ==> !w.full(#[trigger] block_on(a as int, c as int, jj, kk)),
        decreases j1 - j + 1,
    {
        let mut k = k0;
        while k <= k1
            invariant
                w.container_wf(),
                a < 3,
                b.wf(),
                (o1 as int, o2 as int) == others(a as int),
                j0 == b.first_block(o1 as int),
                j1 == b.last_block(o1 as int),
                k0 == b.first_block(o2 as int),
                k1 == b.last_block(o2 as int),
                j0 <= j <= j1,
                k0 <= k <= k1 + 1,
                -COORD_LIMIT * 3 <= j1 <= COORD_LIMIT * 3,
                -COORD_LIMIT * 3 <= k1 <= COORD_LIMIT * 3,
                forall|jj: int, kk: int| j0 <= jj < j && k0 <= kk <= k1 ==> !w.full(#[trigger] block_on(a as int, c as int, jj, kk)),
                forall|kk: int| k0 <= kk < k ==> !w.full(#[trigger] block_on(a as int, c as int, j as int, kk)),
            decreases k1 - k + 1,
        {
            let p = if a == 0 {
                BlockPos { px: c, py: j, pz: k }
            } else if a == 1 {
                BlockPos { px: j, py: c, pz: k }
            } else {
                BlockPos { px: j, py: k, pz: c }
            };
            if w.is_block_full(p) {
                assert(w.full(block_on(a as int, c as int, j as int, k as int)));
                return true;
            }
            k += 1;
        }
        j += 1;
    }
    false
}

/// The part of displacement `d` along axis `a` that box `b` can travel
/// before its leading face meets a solid block.
pub fn sweep<C: BlockContainer>(w: &C, b: &Aabb, a: usize, d: i64) -> (r: i64)
    requires
        w.container_wf(),
        b.wf(),
        a < 3,
        coord_ok(d as int),
    ensures
        swept(w, *b, a as int, d as int, r as int),
{
    let ai = a;
    if d > 0 {
        let e = b.min[ai] + b.size[ai];
        let c0 = block_index_of(e - 1) + 1;
        let c_end = block_index_of(e + d - 1);
        let mut c = c0;
        while c <= c_end
            invariant
                w.container_wf(),
                b.wf(),
                a < 3,
                e == b.hi(a as int),
                0 < d <= COORD_LIMIT,
                c0 == (e - 1) as int / s() + 1,
                c_end == (e + d - 1) as int / s(),
                c0 <= c <= c_end + 1,
                forall|cc: int| c0 <= cc < c ==> !#[trigger] layer_blocked(w, *b, a as int, cc),
            decreases c_end - c + 1,
        {
            if layer_blocked_at(w, b, a, c) {
                let r = c * UNITS_PER_BLOCK - e;
                assert((e + r - 1) as int / s() == c - 1);
                return r;
            }
            c += 1;
        }
        d
    } else if d < 0 {
        let lo = b.min[ai];
        let c_top = block_index_of(lo) - 1;
        let c_end = block_index_of(lo + d);
        let mut c = c_top;
        while c >= c_end
            invariant
                w.container_wf(),
                b.wf(),
                a < 3,
                lo == b.lo(a as int),
                -COORD_LIMIT <= d < 0,
                c_top == lo as int / s() - 1,
                c_end == (lo + d) as int / s(),
                c_end - 1 <= c <= c_top,
                forall|cc: int| c < cc <= c_top ==> !#[trigger] layer_blocked(w, *b, a as int, cc),
            decreases c - c_end + 1,
        {
            if layer_blocked_at(w, b, a, c) {
                let r = (c + 1) * UNITS_PER_BLOCK - lo;
                assert((lo + r) as int / s() == c + 1);
                return r;
            }
            c -= 1;
        }
        d
    } else {
        0
    }
}

/// A box whose requested move along an axis would enter a solid block
/// stops with its leading face exactly on that block's boundary: it does
/// not enter the block, and it does not stop short of it.
pub proof fn lemma_sweep_stops_flush<C: BlockContainer>(w: &C, b: Aabb, a: int, d: int, r: int, c: int)
    requires
        swept(w, b, a, d, r),
        layer_blocked(w, b, a, c),
        d > 0 ==> (b.hi(a) - 1) / s() + 1 <= c <= (b.hi(a) + d - 1) / s(),
        d < 0 ==> (b.lo(a) + d) / s() <= c <= b.lo(a) / s() - 1,
        d != 0,
    ensures
        d > 0 ==> r < d && (b.hi(a) + r) % s() == 0 && (b.hi(a) + r) / s() <= c
            && layer_blocked(w, b, a, (b.hi(a) + r) / s()),
        d < 0 ==> r > d && (b.lo(a) + r) % s() == 0 && (b.lo(a) + r) / s() - 1 >= c
            && layer_blocked(w, b, a, (b.lo(a) + r) / s() - 1),
{
    if d > 0 {
        if r == d {
            assert(!layer_blocked(w, b, a, c));
        }
        if (b.hi(a) + r) / s() > c {
            assert((b.hi(a) + r - 1) / s() >= c);
            assert(!layer_blocked(w, b, a, c));
        }
    } else {
        if r == d {
            assert(!layer_blocked(w, b, a, c));
        }
        if (b.lo(a) + r) / s() - 1 < c {
            assert(!layer_blocked(w, b, a, c));
        }
    }
}

} // verus!
