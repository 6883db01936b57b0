use super::compositor::{tile_index, TileBuffer, TILE_BYTES, TILE_SIZE};
use vstd::prelude::*;

verus! {

/// The quadrant a parent pixel at `(x, y)` takes its colour from:
/// 0 top-left, 1 top-right, 2 bottom-left, 3 bottom-right.
pub open spec fn quadrant_index(x: int, y: int) -> int {
    (if y >= 128 { 2int } else { 0int }) + (if x >= 128 { 1int } else { 0int })
}

/// The four alpha values of the 2x2 block of child pixels under the parent
/// pixel at `(x, y)`.
pub open spec fn block_alphas(c: Seq<u8>, x: int, y: int) -> Seq<int> {
    let cx = (x % 128) * 2;
    let cy = (y % 128) * 2;
    seq![
        c[tile_index(cx, cy, 3)] as int,
        c[tile_index(cx + 1, cy, 3)] as int,
        c[tile_index(cx, cy + 1, 3)] as int,
        c[tile_index(cx + 1, cy + 1, 3)] as int,
    ]
}

/// Channel `ch` of the 2x2 block, each weighted by its alpha.
pub open spec fn weighted_sum(c: Seq<u8>, x: int, y: int, ch: int) -> int {
    let cx = (x % 128) * 2;
    let cy = (y % 128) * 2;
    let a = block_alphas(c, x, y);
    c[tile_index(cx, cy, ch)] * a[0] + c[tile_index(cx + 1, cy, ch)] * a[1] + c[tile_index(
        cx,
        cy + 1,
        ch,
    )] * a[2] + c[tile_index(cx + 1, cy + 1, ch)] * a[3]
}

/// Channel `ch` of the parent pixel at `(x, y)` downsampled from child
/// image `c`: the colour channels are the alpha-weighted mean of the 2x2
/// block, the alpha is the plain mean, each rounded half up; a block with
/// no alpha at all stays transparent black.
pub open spec fn blended(c: Seq<u8>, x: int, y: int, ch: int) -> int {
    let a = block_alphas(c, x, y);
    let total = a[0] + a[1] + a[2] + a[3];
    if total == 0 {
        0
    } else if ch == 3 {
        (total + 2) / 4
    } else {
        (2 * weighted_sum(c, x, y, ch) + total) / (2 * total)
    }
}

/// Channel `ch` of the parent pixel at `(x, y)`: blended from the child
/// that covers its quadrant, transparent black where that child is absent.
pub open spec fn parent_channel(children: Seq<Option<Seq<u8>>>, x: int, y: int, ch: int) -> int {
    match children[quadrant_index(x, y)] {
        Some(c) => blended(c, x, y, ch),
        None => 0,
    }
}

/// The pixel views of the children, `None` for an absent child.
pub open spec fn children_view(children: &[Option<&TileBuffer>; 4]) -> Seq<Option<Seq<u8>>> {
    Seq::new(
        4,
        |q: int|
            match children@[q] {
                Some(t) => Some(t.pixels@),
                None => None,
            },
    )
}

proof fn lemma_mean_bounds(s0: int, s1: int, s2: int, s3: int, a0: int, a1: int, a2: int, a3: int)
    requires
        0 <= s0 <= 255, 0 <= s1 <= 255, 0 <= s2 <= 255, 0 <= s3 <= 255,
        0 <= a0 <= 255, 0 <= a1 <= 255, 0 <= a2 <= 255, 0 <= a3 <= 255,
        a0 + a1 + a2 + a3 > 0,
    ensures
        0 <= (2 * (s0 * a0 + s1 * a1 + s2 * a2 + s3 * a3) + (a0 + a1 + a2 + a3)) / (2 * (a0 + a1 + a2 + a3)) <= 255,
        0 <= s0 * a0 + s1 * a1 + s2 * a2 + s3 * a3 <= 260100,
{
    let t = a0 + a1 + a2 + a3;
    let w = s0 * a0 + s1 * a1 + s2 * a2 + s3 * a3;
    assert(0 <= w <= 255 * t) by (nonlinear_arith)
        requires
            0 <= s0 <= 255, 0 <= s1 <= 255, 0 <= s2 <= 255, 0 <= s3 <= 255,
            0 <= a0, 0 <= a1, 0 <= a2, 0 <= a3,
            t == a0 + a1 + a2 + a3,
            w == s0 * a0 + s1 * a1 + s2 * a2 + s3 * a3,
    ;
    assert(0 <= (2 * w + t) / (2 * t) <= 255) by (nonlinear_arith)
        requires
            0 <= w <= 255 * t,
            t > 0,
    ;
}

/// Channel `ch` of a parent pixel downsampled from child pixels `c`.
fn blend_channel(c: &[u8; TILE_BYTES], x: usize, y: usize, ch: usize) -> (res: u8)
    requires
        x < 256,
        y < 256,
        ch < 4,
    ensures
        res == blended(c@, x as int, y as int, ch as int),
{
    let cx = (x % 128) * 2;
    let cy = (y % 128) * 2;
    let i00 = (cy * TILE_SIZE + cx) * 4;
    let i10 = (cy * TILE_SIZE + cx + 1) * 4;
    let i01 = ((cy + 1) * TILE_SIZE + cx) * 4;
    let i11 = ((cy + 1) * TILE_SIZE + cx + 1) * 4;
    let a00 = c[i00 + 3] as u32;
    let a10 = c[i10 + 3] as u32;
    let a01 = c[i01 + 3] as u32;
    let a11 = c[i11 + 3] as u32;
    let total = a00 + a10 + a01 + a11;
    if total == 0 {
        return 0;
    }
    if ch == 3 {
        return ((total + 2) / 4) as u8;
    }
    let s00 = c[i00 + ch] as u32;
    let s10 = c[i10 + ch] as u32;
    let s01 = c[i01 + ch] as u32;
    let s11 = c[i11 + ch] as u32;
    proof {
        lemma_mean_bounds(
            s00 as int,
            s10 as int,
            s01 as int,
            s11 as int,
            a00 as int,
            a10 as int,
            a01 as int,
            a11 as int,
        );
    }
    assert(s00 * a00 <= 65025) by (nonlinear_arith)
        requires
            s00 <= 255,
            a00 <= 255,
    ;
    assert(s10 * a10 <= 65025) by (nonlinear_arith)
        requires
            s10 <= 255,
            a10 <= 255,
    ;
    assert(s01 * a01 <= 65025) by (nonlinear_arith)
        requires
            s01 <= 255,
            a01 <= 255,
    ;
    assert(s11 * a11 <= 65025) by (nonlinear_arith)
        requires
            s11 <= 255,
            a11 <= 255,
    ;
    let w = s00 * a00 + s10 * a10 + s01 * a01 + s11 * a11;
    ((2 * w + total) / (2 * total)) as u8
}

/// Builds a parent tile from up to four children (top-left, top-right,
/// bottom-left, bottom-right): each parent pixel averages the 2x2 block of
/// child pixels beneath it.
pub fn downsample_quadrants(children: &[Option<&TileBuffer>; 4]) -> (res: TileBuffer)
    ensures
        forall|x: int, y: int, ch: int|
            0 <= x < 256 && 0 <= y < 256 && 0 <= ch < 4 ==> res.pixels@[tile_index(x, y, ch)]
                == parent_channel(children_view(children), x, y, ch),
{
    let mut parent = TileBuffer::new();
    let mut y: usize = 0;
    while y < 256
        invariant
            y <= 256,
            parent.pixels@.len() == TILE_BYTES,
            forall|px: int, py: int, ch: int|
                0 <= px < 256 && 0 <= py < y && 0 <= ch < 4 ==> parent.pixels@[tile_index(px, py, ch)]
                    == parent_channel(children_view(children), px, py, ch),
        decreases 256 - y,
    {
        let mut x: usize = 0;
        while x < 256
            invariant
                y < 256,
                x <= 256,
                parent.pixels@.len() == TILE_BYTES,
                forall|px: int, py: int, ch: int|
                    0 <= px < 256 && 0 <= py < 256 && 0 <= ch < 4 && (py < y || (py == y && px < x))
                        ==> parent.pixels@[tile_index(px, py, ch)] == parent_channel(
                        children_view(children),
                        px,
                        py,
                        ch,
                    ),
            decreases 256 - x,
        {
            let q = (if y >= 128 { 2usize } else { 0usize }) + (if x >= 128 { 1usize } else { 0usize });
            let dst = (y * TILE_SIZE + x) * 4;
            let mut ch: usize = 0;
            while ch < 4
                invariant
                    y < 256,
                    x < 256,
                    ch <= 4,
                    q == quadrant_index(x as int, y as int),
                    dst == tile_index(x as int, y as int, 0),
                    parent.pixels@.len() == TILE_BYTES,
                    forall|px: int, py: int, c: int|
                        0 <= px < 256 && 0 <= py < 256 && 0 <= c < 4 && (py < y || (py == y && px < x) || (py
                            == y && px == x && c < ch)) ==> parent.pixels@[tile_index(px, py, c)]
                            == parent_channel(children_view(children), px, py, c),
                decreases 4 - ch,
            {
                let v = match children[q] {
                    Some(child) => blend_channel(&child.pixels, x, y, ch),
                    None => 0u8,
                };
                let ghost before = parent.pixels@;
                parent.pixels[dst + ch] = v;
                proof {
                    assert forall|px: int, py: int, c: int|
                        0 <= px < 256 && 0 <= py < 256 && 0 <= c < 4 && (py < y || (py == y && px < x) || (
                        py == y && px == x && c < ch + 1)) implies parent.pixels@[tile_index(px, py, c)]
                        == parent_channel(children_view(children), px, py, c) by {
                        if !(py == y && px == x && c == ch) {
                            assert(tile_index(px, py, c) != dst + ch);
                        }
                    }
                }
                ch = ch + 1;
            }
            x = x + 1;
        }
        y = y + 1;
    }
    parent
}

proof fn lemma_rounded_mean(s: int, a: int)
    requires
        0 <= s,
        0 < a,
    ensures
        (2 * (s * a + s * a + s * a + s * a) + 4 * a) / (2 * (4 * a)) == s,
        (4 * a + 2) / 4 == a,
{
    assert(2 * (s * a + s * a + s * a + s * a) + 4 * a == 8 * a * s + 4 * a) by (nonlinear_arith);
    assert(2 * (4 * a) == 8 * a);
    assert((8 * a * s + 4 * a) / (8 * a) == s) by (nonlinear_arith)
        requires
            0 <= s,
            0 < a,
    {
        vstd::arithmetic::div_mod::lemma_fundamental_div_mod_converse(8 * a * s + 4 * a, 8 * a, s, 4 * a);
    }
}

/// Channel `k` of the child pixel at offset `(dx, dy)` in the 2x2 block
/// under the parent pixel at `(x, y)`.
pub open spec fn block_pixel(c: Seq<u8>, x: int, y: int, dx: int, dy: int, k: int) -> u8 {
    c[tile_index((x % 128) * 2 + dx, (y % 128) * 2 + dy, k)]
}

/// A 2x2 block of one pixel value downsamples to that value: the
/// alpha-weighted mean of equal colours is the colour, and the mean of
/// equal alphas is the alpha. A fully transparent block stays black.
pub proof fn lemma_blend_uniform(c: Seq<u8>, x: int, y: int, ch: int, p: Seq<u8>)
    requires
        c.len() == TILE_BYTES,
        0 <= x < 256,
        0 <= y < 256,
        0 <= ch < 4,
        p.len() == 4,
        forall|dx: int, dy: int, k: int|
            0 <= dx < 2 && 0 <= dy < 2 && 0 <= k < 4 ==> #[trigger] block_pixel(c, x, y, dx, dy, k) == p[k],
    ensures
        blended(c, x, y, ch) == if p[3] == 0 {
            0
        } else {
            p[ch] as int
        },
{
    assert(block_pixel(c, x, y, 0, 0, 3) == p[3]);
    assert(block_pixel(c, x, y, 1, 0, 3) == p[3]);
    assert(block_pixel(c, x, y, 0, 1, 3) == p[3]);
    assert(block_pixel(c, x, y, 1, 1, 3) == p[3]);
    assert(block_pixel(c, x, y, 0, 0, ch) == p[ch]);
    assert(block_pixel(c, x, y, 1, 0, ch) == p[ch]);
    assert(block_pixel(c, x, y, 0, 1, ch) == p[ch]);
    assert(block_pixel(c, x, y, 1, 1, ch) == p[ch]);
    if p[3] != 0 {
        lemma_rounded_mean(p[ch] as int, p[3] as int);
    }
}

} // verus!
