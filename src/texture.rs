//! Mipmap levels of a square RGBA texture.
use vstd::prelude::*;

verus! {

/// Number of mipmap levels made, the full-size image included.
pub const MIPMAP_LEVELS: usize = 5;

/// Side of mipmap level `k` of an image of side `size`: halved, rounding
/// down, at each level.
pub open spec fn level_size(size: int, k: nat) -> int
    decreases k,
{
    if k == 0 {
        size
    } else {
        level_size(size, (k - 1) as nat) / 2
    }
}

/// Byte `c` of pixel `(row, col)` of an image of side `s`.
pub open spec fn px(img: Seq<u8>, s: int, row: int, col: int, c: int) -> int {
    img[(row * s + col) * 4 + c] as int
}

/// Channel `c` of pixel `(row, col)` of the level below `prev` (side `ps`):
/// the rounded-down mean of the 2 × 2 pixels it covers.
pub open spec fn averaged(prev: Seq<u8>, ps: int, row: int, col: int, c: int) -> u8 {
    ((px(prev, ps, 2 * row, 2 * col, c) + px(prev, ps, 2 * row, 2 * col + 1, c) + px(prev, ps, 2 * row + 1, 2 * col, c)
        + px(prev, ps, 2 * row + 1, 2 * col + 1, c)) / 4) as u8
}

/// The level of side `cs` made from `prev`, of side `ps`.
pub open spec fn downsampled(prev: Seq<u8>, ps: int, cs: int) -> Seq<u8> {
    Seq::new((cs * cs * 4) as nat, |t: int| averaged(prev, ps, (t / 4) / cs, (t / 4) % cs, t % 4))
}

proof fn lemma_pixel_index(s: int, row: int, col: int, c: int)
    requires
        0 <= row < s,
        0 <= col < s,
        0 <= c < 4,
    ensures
        0 <= (row * s + col) * 4 + c < s * s * 4,
{
    assert(row * s + col < s * s) by (nonlinear_arith)
        requires
            0 <= row < s,
            0 <= col < s,
    ;
}

proof fn lemma_split_index(t: int, cs: int, row: int, col: int, c: int)
    requires
        cs > 0,
        0 <= row,
        0 <= col < cs,
        0 <= c < 4,
        t == (row * cs + col) * 4 + c,
    ensures
        t / 4 == row * cs + col,
        t % 4 == c,
        (t / 4) / cs == row,
        (t / 4) % cs == col,
{
    vstd::arithmetic::div_mod::lemma_fundamental_div_mod_converse(t, 4, row * cs + col, c);
    vstd::arithmetic::div_mod::lemma_fundamental_div_mod_converse(row * cs + col, cs, row, col);
}

/// The next level: each pixel the mean of the 2 × 2 pixels under it.
pub fn downsample(prev: &Vec<u8>, ps: usize) -> (r: Vec<u8>)
    requires
        ps <= 0x8000,
        ps >= 2,
        prev@.len() == ps * ps * 4,
    ensures
        r@ == downsampled(prev@, ps as int, ps as int / 2),
{
    let cs = ps / 2;
    let mut layer: Vec<u8> = Vec::new();
    let mut row: usize = 0;
    assert(ps * ps <= 0x4000_0000) by (nonlinear_arith)
        requires
            ps <= 0x8000,
    ;
    assert(cs * cs <= ps * ps) by (nonlinear_arith)
        requires
            cs <= ps,
            0 <= cs,
    ;
    while row < cs
        invariant
            cs == ps / 2,
            2 <= ps <= 0x8000,
            prev@.len() == ps * ps * 4,
            ps * ps <= 0x4000_0000,
            row <= cs,
            layer@.len() == row * cs * 4,
            forall|t: int| 0 <= t < layer@.len() ==> #[trigger] layer@[t] == averaged(prev@, ps as int, (t / 4) / (cs as int), (t / 4) % (cs as int), t % 4),
        decreases cs - row,
    {
        let mut col: usize = 0;
        while col < cs
            invariant
                cs == ps / 2,
                2 <= ps <= 0x8000,
                prev@.len() == ps * ps * 4,
                ps * ps <= 0x4000_0000,
                row < cs,
                col <= cs,
                layer@.len() == (row * cs + col) * 4,
                forall|t: int| 0 <= t < layer@.len() ==> #[trigger] layer@[t] == averaged(prev@, ps as int, (t / 4) / (cs as int), (t / 4) % (cs as int), t % 4),
            decreases cs - col,
        {
            let mut c: usize = 0;
            while c < 4
                invariant
                    cs == ps / 2,
                    2 <= ps <= 0x8000,
                    prev@.len() == ps * ps * 4,
                    ps * ps <= 0x4000_0000,
                    row < cs,
                    col < cs,
                    c <= 4,
                    layer@.len() == (row * cs + col) * 4 + c,
                    forall|t: int| 0 <= t < layer@.len() ==> #[trigger] layer@[t] == averaged(prev@, ps as int, (t / 4) / (cs as int), (t / 4) % (cs as int), t % 4),
                decreases 4 - c,
            {
                proof {
                    lemma_pixel_index(ps as int, 2 * row + 1, 2 * col + 1, c as int);
                    lemma_pixel_index(ps as int, 2 * row as int, 2 * col as int, c as int);
                    lemma_pixel_index(ps as int, 2 * row + 1, 2 * col as int, c as int);
                    lemma_pixel_index(ps as int, 2 * row as int, 2 * col + 1, c as int);
                    lemma_split_index(layer@.len() as int, cs as int, row as int, col as int, c as int);
                }
                let a = prev[(2 * row * ps + 2 * col) * 4 + c] as u16;
                let b = prev[(2 * row * ps + 2 * col + 1) * 4 + c] as u16;
                let d = prev[((2 * row + 1) * ps + 2 * col) * 4 + c] as u16;
                let e = prev[((2 * row + 1) * ps + 2 * col + 1) * 4 + c] as u16;
                layer.push(((a + b + d + e) / 4) as u8);
                c += 1;
            }
            col += 1;
        }
        assert((row * cs + cs) * 4 == (row + 1) * cs * 4) by (nonlinear_arith);
        row += 1;
    }
    assert(layer@ =~= downsampled(prev@, ps as int, cs as int));
    layer
}

/// The mipmap levels of a square RGBA image of side `size`: the image
/// itself, then each level halved from the one before, up to
/// `MIPMAP_LEVELS` levels and while the side stays positive.
pub fn generate_mipmaps(image: Vec<u8>, size: usize) -> (r: Vec<Vec<u8>>)
    requires
        size <= 0x8000,
        image@.len() == size * size * 4,
    ensures
        1 <= r@.len() <= MIPMAP_LEVELS,
        r@[0]@ == image@,
        forall|k: int| 0 < k < r@.len() ==> level_size(size as int, k as nat) > 0
            && #[trigger] r@[k]@ == downsampled(r@[k - 1]@, level_size(size as int, (k - 1) as nat), level_size(size as int, k as nat)),
        r@.len() < MIPMAP_LEVELS ==> level_size(size as int, r@.len()) == 0,
{
    let ghost img = image@;
    let mut levels: Vec<Vec<u8>> = Vec::new();
    levels.push(image);
    let mut cur = size;
    let mut level: usize = 1;
    while level < MIPMAP_LEVELS
        invariant
            1 <= level <= MIPMAP_LEVELS,
            levels@.len() == level,
            cur == level_size(size as int, (level - 1) as nat),
            cur <= 0x8000,
            levels@[level - 1]@.len() == cur * cur * 4,
            levels@[0]@ == img,
            forall|k: int| 0 < k < levels@.len() ==> level_size(size as int, k as nat) > 0
                && #[trigger] levels@[k]@ == downsampled(levels@[k - 1]@, level_size(size as int, (k - 1) as nat), level_size(size as int, k as nat)),
        ensures
            levels@.len() < MIPMAP_LEVELS ==> level_size(size as int, levels@.len()) == 0,
        decreases MIPMAP_LEVELS - level,
    {
        let next = cur / 2;
        if next == 0 {
            break;
        }
        let layer = downsample(&levels[level - 1], cur);
        assert(layer@.len() == next * next * 4);
        let ghost before = levels@;
        levels.push(layer);
        proof {
            assert forall|k: int| 0 < k < levels@.len() implies level_size(size as int, k as nat) > 0
                && #[trigger] levels@[k]@ == downsampled(levels@[k - 1]@, level_size(size as int, (k - 1) as nat), level_size(size as int, k as nat)) by {
                if k < level {
                    assert(levels@[k] == before[k]);
                    assert(levels@[k - 1] == before[k - 1]);
                }
            }
        }
        cur = next;
        level += 1;
    }
    levels
}

} // verus!
