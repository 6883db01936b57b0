use super::coordinates::{quadrant_of, TileCoord};
use super::encoder::{format_extension, TileFormat};
use crate::common::coordinates::ChunkPos;
use crate::common::text::{append_int, decimal_string, decimal_text, int_text};
use crate::leveldb::keys::Dimension;
use vstd::prelude::*;

verus! {

/// The name of the directory a dimension's tiles are written to.
pub open spec fn dimension_dir(dim: Dimension) -> Seq<char> {
    match dim {
        Dimension::Overworld => "overworld"@,
        Dimension::Nether => "nether"@,
        Dimension::TheEnd => "the_end"@,
    }
}

/// The name of the directory a dimension's tiles are written to.
pub fn dimension_name(dim: Dimension) -> (res: &'static str)
    ensures
        res@ == dimension_dir(dim),
{
    match dim {
        Dimension::Overworld => "overworld",
        Dimension::Nether => "nether",
        Dimension::TheEnd => "the_end",
    }
}

/// The highest zoom level of a pyramid with `zoom_levels` levels; one level
/// or none leaves only level 0.
pub fn max_zoom_for(zoom_levels: u8) -> (res: u8)
    ensures
        res == if zoom_levels > 0 {
            zoom_levels - 1
        } else {
            0
        },
{
    zoom_levels.saturating_sub(1)
}

/// The column and row of the tile of the highest level that holds a chunk.
pub open spec fn tile_of_chunk(c: ChunkPos) -> (int, int) {
    (c.x as int / 16, c.z as int / 16)
}

/// The chunks of `s` that lie in tile `(x, y)`, in their order in `s`.
pub open spec fn chunks_in_tile(s: Seq<ChunkPos>, x: int, y: int) -> Seq<ChunkPos>
    decreases s.len(),
{
    if s.len() == 0 {
        s
    } else {
        let r = chunks_in_tile(s.drop_last(), x, y);
        if tile_of_chunk(s.last()) == (x, y) {
            r.push(s.last())
        } else {
            r
        }
    }
}

/// The chunks that one tile of the highest level is drawn from.
pub struct TileGroup {
    pub x: i32,
    pub y: i32,
    pub chunks: Vec<ChunkPos>,
}

/// The groups of `gs` are for distinct tiles.
pub open spec fn distinct_tiles(gs: Seq<TileGroup>) -> bool {
    forall|i: int, j: int|
        0 <= i < j < gs.len() ==> (gs[i].x, gs[i].y) != (gs[j].x, gs[j].y)
}

/// `gs` groups the chunks of `s` by tile: one group per tile that holds a
/// chunk, each with the chunks of its tile in their order in `s`.
pub open spec fn groups_chunks(gs: Seq<TileGroup>, s: Seq<ChunkPos>) -> bool {
    &&& distinct_tiles(gs)
    &&& forall|i: int|
        0 <= i < gs.len() ==> #[trigger] gs[i].chunks@ == chunks_in_tile(s, gs[i].x as int, gs[i].y as int)
            && gs[i].chunks@.len() > 0
    &&& forall|k: int|
        0 <= k < s.len() ==> exists|i: int|
            0 <= i < gs.len() && (gs[i].x as int, gs[i].y as int) == tile_of_chunk(#[trigger] s[k])
}

proof fn lemma_chunks_in_other_tile(s: Seq<ChunkPos>, x: int, y: int)
    requires
        forall|k: int| 0 <= k < s.len() ==> tile_of_chunk(#[trigger] s[k]) != (x, y),
    ensures
        chunks_in_tile(s, x, y).len() == 0,
    decreases s.len(),
{
    if s.len() > 0 {
        lemma_chunks_in_other_tile(s.drop_last(), x, y);
    }
}

proof fn lemma_chunks_in_tile_members(s: Seq<ChunkPos>, x: int, y: int, c: ChunkPos)
    ensures
        chunks_in_tile(s, x, y).contains(c) <==> (s.contains(c) && tile_of_chunk(c) == (x, y)),
    decreases s.len(),
{
    if s.len() > 0 {
        let r = chunks_in_tile(s.drop_last(), x, y);
        lemma_chunks_in_tile_members(s.drop_last(), x, y, c);
        if s.contains(c) {
            let k = choose|k: int| 0 <= k < s.len() && s[k] == c;
            if k < s.len() - 1 {
                assert(s.drop_last()[k] == c);
            }
        }
        if s.drop_last().contains(c) {
            let k = choose|k: int| 0 <= k < s.len() - 1 && s.drop_last()[k] == c;
            assert(s[k] == c);
        }
        if tile_of_chunk(s.last()) == (x, y) {
            assert(r.push(s.last())[r.len() as int] == s.last());
            if r.push(s.last()).contains(c) && c != s.last() {
                let k = choose|k: int| 0 <= k < r.len() + 1 && r.push(s.last())[k] == c;
                assert(r[k] == c);
            }
            if r.contains(c) {
                let k = choose|k: int| 0 <= k < r.len() && r[k] == c;
                assert(r.push(s.last())[k] == c);
            }
        }
        assert(s[s.len() - 1] == s.last());
    }
}

/// Some group of `gs` is for the tile whose 16x16 chunk columns hold `c`.
pub open spec fn in_some_group(gs: Seq<TileGroup>, c: ChunkPos) -> bool {
    exists|i: int|
        #![trigger gs[i]]
        0 <= i < gs.len() && gs[i].x * 16 <= c.x < gs[i].x * 16 + 16 && gs[i].y * 16 <= c.z < gs[i].y * 16 + 16
}

/// Grouping chunks by tile puts each chunk into the tile that covers its
/// 16x16 block of chunk columns: a group at column `x`, row `y` holds
/// exactly the chunks with `16 * x <= chunk.x < 16 * x + 16` and
/// `16 * y <= chunk.z < 16 * y + 16`, and every chunk is in a group.
pub proof fn lemma_groups_cover_their_chunks(gs: Seq<TileGroup>, s: Seq<ChunkPos>)
    requires
        groups_chunks(gs, s),
    ensures
        forall|i: int, c: ChunkPos|
            0 <= i < gs.len() ==> (#[trigger] gs[i].chunks@.contains(c) <==> (s.contains(c) && gs[i].x * 16
                <= c.x < gs[i].x * 16 + 16 && gs[i].y * 16 <= c.z < gs[i].y * 16 + 16)),
        forall|k: int| 0 <= k < s.len() ==> #[trigger] in_some_group(gs, s[k]),
{
    assert forall|i: int, c: ChunkPos| 0 <= i < gs.len() implies (#[trigger] gs[i].chunks@.contains(c) <==> (
    s.contains(c) && gs[i].x * 16 <= c.x < gs[i].x * 16 + 16 && gs[i].y * 16 <= c.z < gs[i].y * 16 + 16)) by {
        assert(gs[i].chunks@ == chunks_in_tile(s, gs[i].x as int, gs[i].y as int));
        lemma_chunks_in_tile_members(s, gs[i].x as int, gs[i].y as int, c);
    }
    assert forall|k: int| 0 <= k < s.len() implies #[trigger] in_some_group(gs, s[k]) by {
        let ck = s[k];
        assert(exists|i: int| 0 <= i < gs.len() && (gs[i].x as int, gs[i].y as int) == tile_of_chunk(ck));
        let i = choose|i: int| 0 <= i < gs.len() && (gs[i].x as int, gs[i].y as int) == tile_of_chunk(ck);
        assert(gs[i].x == s[k].x as int / 16 && gs[i].y == s[k].z as int / 16);
        assert(gs[i].x * 16 <= s[k].x < gs[i].x * 16 + 16);
        assert(gs[i].y * 16 <= s[k].z < gs[i].y * 16 + 16);
        assert(0 <= i < gs.len() && gs[i].x * 16 <= s[k].x < gs[i].x * 16 + 16 && gs[i].y * 16 <= s[k].z
            < gs[i].y * 16 + 16);
    }
}

/// The chunks grouped by the tile of the highest level that holds them.
pub fn group_chunks_by_tile(chunks: &Vec<ChunkPos>) -> (res: Vec<TileGroup>)
    ensures
        groups_chunks(res@, chunks@),
        forall|i: int, c: ChunkPos|
            0 <= i < res@.len() ==> (#[trigger] res@[i].chunks@.contains(c) <==> (chunks@.contains(c) && res@[i].x
                * 16 <= c.x < res@[i].x * 16 + 16 && res@[i].y * 16 <= c.z < res@[i].y * 16 + 16)),
{
    let mut groups: Vec<TileGroup> = Vec::new();
    let mut k: usize = 0;
    while k < chunks.len()
        invariant
            k <= chunks@.len(),
            groups_chunks(groups@, chunks@.take(k as int)),
        decreases chunks@.len() - k,
    {
        let c = chunks[k];
        let t = TileCoord::from_chunk_pos(c, 0);
        let ghost prev = groups@;
        let ghost before = chunks@.take(k as int);
        let ghost after = chunks@.take(k + 1);
        assert(after.drop_last() =~= before);
        assert(after.last() == c);
        let mut j: usize = 0;
        while j < groups.len()
            invariant
                j <= groups@.len(),
                groups@ == prev,
                forall|i: int| 0 <= i < j ==> (#[trigger] groups@[i].x, groups@[i].y) != (t.x, t.y),
            ensures
                j <= groups@.len(),
                groups@ == prev,
                forall|i: int| 0 <= i < j ==> (#[trigger] groups@[i].x, groups@[i].y) != (t.x, t.y),
                j == groups@.len() || (groups@[j as int].x == t.x && groups@[j as int].y == t.y),
            decreases groups@.len() - j,
        {
            if groups[j].x == t.x && groups[j].y == t.y {
                break;
            }
            j = j + 1;
        }
        if j < groups.len() && groups[j].x == t.x && groups[j].y == t.y {
            groups[j].chunks.push(c);
            proof {
                assert forall|i: int| 0 <= i < groups@.len() implies (#[trigger] groups@[i]).x == prev[i].x
                    && groups@[i].y == prev[i].y by {}
                assert(distinct_tiles(groups@));
                assert forall|i: int| 0 <= i < groups@.len() implies #[trigger] groups@[i].chunks@
                    == chunks_in_tile(after, groups@[i].x as int, groups@[i].y as int)
                    && groups@[i].chunks@.len() > 0 by {
                    assert(groups@[i].chunks@ == prev[i].chunks@ || i == j);
                }
                assert forall|m: int| 0 <= m < after.len() implies exists|i: int|
                    0 <= i < groups@.len() && (groups@[i].x as int, groups@[i].y as int)
                        == tile_of_chunk(#[trigger] after[m]) by {
                    if m < before.len() {
                        assert(before[m] == after[m]);
                        let i = choose|i: int|
                            0 <= i < prev.len() && (prev[i].x as int, prev[i].y as int) == tile_of_chunk(
                                before[m],
                            );
                        assert(groups@[i].x == prev[i].x && groups@[i].y == prev[i].y);
                    } else {
                        assert(groups@[j as int].x == t.x);
                    }
                }
            }
        } else {
            let mut fresh: Vec<ChunkPos> = Vec::new();
            fresh.push(c);
            proof {
                assert forall|m: int| 0 <= m < before.len() implies tile_of_chunk(#[trigger] before[m])
                    != (t.x as int, t.y as int) by {
                    if tile_of_chunk(before[m]) == (t.x as int, t.y as int) {
                        let i = choose|i: int|
                            0 <= i < prev.len() && (prev[i].x as int, prev[i].y as int) == tile_of_chunk(
                                before[m],
                            );
                        assert((prev[i].x, prev[i].y) != (t.x, t.y));
                    }
                }
                lemma_chunks_in_other_tile(before, t.x as int, t.y as int);
                assert(fresh@ =~= chunks_in_tile(after, t.x as int, t.y as int));
            }
            groups.push(TileGroup { x: t.x, y: t.y, chunks: fresh });
            proof {
                assert(distinct_tiles(groups@));
                assert forall|i: int| 0 <= i < groups@.len() implies #[trigger] groups@[i].chunks@
                    == chunks_in_tile(after, groups@[i].x as int, groups@[i].y as int)
                    && groups@[i].chunks@.len() > 0 by {
                    if i < prev.len() {
                        assert(groups@[i] == prev[i]);
                    }
                }
                assert forall|m: int| 0 <= m < after.len() implies exists|i: int|
                    0 <= i < groups@.len() && (groups@[i].x as int, groups@[i].y as int)
                        == tile_of_chunk(#[trigger] after[m]) by {
                    if m < before.len() {
                        assert(before[m] == after[m]);
                        let i = choose|i: int|
                            0 <= i < prev.len() && (prev[i].x as int, prev[i].y as int) == tile_of_chunk(
                                before[m],
                            );
                        assert(groups@[i] == prev[i]);
                    } else {
                        assert(groups@[prev.len() as int].x == t.x);
                    }
                }
            }
        }
        k = k + 1;
    }
    assert(chunks@.take(chunks@.len() as int) =~= chunks@);
    proof {
        lemma_groups_cover_their_chunks(groups@, chunks@);
    }
    groups
}

/// The slot of a quadrant in a parent's list of children: top-left,
/// top-right, bottom-left, bottom-right.
pub open spec fn quadrant_slot(x: int, y: int) -> int {
    quadrant_of(x, y).0 + 2 * quadrant_of(x, y).1
}

/// `t` has a parent, at column `px` and row `py`, and fills slot `q` of it.
pub open spec fn fills_slot(t: TileCoord, px: int, py: int, q: int) -> bool {
    &&& t.zoom > 0
    &&& t.x as int / 2 == px
    &&& t.y as int / 2 == py
    &&& quadrant_slot(t.x as int, t.y as int) == q
}

/// The position of the last tile of `s` that fills slot `q` of the parent
/// at `(px, py)`.
pub open spec fn last_in_slot(s: Seq<TileCoord>, px: int, py: int, q: int) -> Option<int>
    decreases s.len(),
{
    if s.len() == 0 {
        None
    } else if fills_slot(s.last(), px, py, q) {
        Some(s.len() - 1)
    } else {
        last_in_slot(s.drop_last(), px, py, q)
    }
}

/// A tile one level up, with the positions (in the list it was built from)
/// of the tiles that fill its four quadrants.
pub struct ParentGroup {
    pub x: i32,
    pub y: i32,
    pub children: [Option<usize>; 4],
}

/// The slot holds the position of the last tile that fills it.
pub open spec fn slot_matches(slot: Option<usize>, s: Seq<TileCoord>, px: int, py: int, q: int) -> bool {
    match last_in_slot(s, px, py, q) {
        None => slot is None,
        Some(i) => slot == Some(i as usize),
    }
}

/// At least one quadrant of the group is filled.
pub open spec fn has_child(g: ParentGroup) -> bool {
    ||| g.children[0] is Some
    ||| g.children[1] is Some
    ||| g.children[2] is Some
    ||| g.children[3] is Some
}

/// `gs` groups the tiles of `s` under their parents: one group per parent
/// of a tile of `s` (level 0 has none), each slot holding the last tile of
/// `s` that fills it.
pub open spec fn groups_parents(gs: Seq<ParentGroup>, s: Seq<TileCoord>) -> bool {
    &&& forall|i: int, j: int| 0 <= i < j < gs.len() ==> (gs[i].x, gs[i].y) != (gs[j].x, gs[j].y)
    &&& forall|i: int, q: int|
        0 <= i < gs.len() && 0 <= q < 4 ==> slot_matches(
            #[trigger] gs[i].children[q],
            s,
            gs[i].x as int,
            gs[i].y as int,
            q,
        )
    &&& forall|i: int| 0 <= i < gs.len() ==> has_child(#[trigger] gs[i])
    &&& forall|k: int|
        0 <= k < s.len() && (#[trigger] s[k]).zoom > 0 ==> exists|i: int|
            0 <= i < gs.len() && gs[i].x == s[k].x as int / 2 && gs[i].y == s[k].y as int / 2
}

proof fn lemma_last_in_slot_push(s: Seq<TileCoord>, t: TileCoord, px: int, py: int, q: int)
    ensures
        last_in_slot(s.push(t), px, py, q) == if fills_slot(t, px, py, q) {
            Some(s.len() as int)
        } else {
            last_in_slot(s, px, py, q)
        },
{
    assert(s.push(t).drop_last() =~= s);
}

proof fn lemma_last_in_slot_none(s: Seq<TileCoord>, px: int, py: int, q: int)
    requires
        forall|k: int| 0 <= k < s.len() ==> !fills_slot(#[trigger] s[k], px, py, q),
    ensures
        last_in_slot(s, px, py, q) is None,
    decreases s.len(),
{
    if s.len() > 0 {
        assert(!fills_slot(s[s.len() - 1], px, py, q));
        lemma_last_in_slot_none(s.drop_last(), px, py, q);
    }
}

proof fn lemma_slot_of(t: TileCoord)
    requires
        t.zoom > 0,
    ensures
        0 <= quadrant_slot(t.x as int, t.y as int) < 4,
        fills_slot(t, t.x as int / 2, t.y as int / 2, quadrant_slot(t.x as int, t.y as int)),
{
}

/// The tiles of one level grouped under their parents one level up; tiles
/// of level 0 have no parent and are left out.
pub fn group_by_parent(tiles: &Vec<TileCoord>) -> (res: Vec<ParentGroup>)
    ensures
        groups_parents(res@, tiles@),
{
    let mut groups: Vec<ParentGroup> = Vec::new();
    let mut k: usize = 0;
    while k < tiles.len()
        invariant
            k <= tiles@.len(),
            groups_parents(groups@, tiles@.take(k as int)),
        decreases tiles@.len() - k,
    {
        let t = tiles[k];
        let ghost prev = groups@;
        let ghost before = tiles@.take(k as int);
        let ghost after = tiles@.take(k + 1);
        assert(after =~= before.push(t));
        match t.parent() {
            None => {
                proof {
                    assert forall|i: int, q: int| 0 <= i < groups@.len() && 0 <= q < 4 implies slot_matches(
                        #[trigger] groups@[i].children[q],
                        after,
                        groups@[i].x as int,
                        groups@[i].y as int,
                        q,
                    ) by {
                        lemma_last_in_slot_push(before, t, groups@[i].x as int, groups@[i].y as int, q);
                    }
                    assert forall|m: int| 0 <= m < after.len() && (#[trigger] after[m]).zoom > 0 implies exists|i: int|
                        0 <= i < groups@.len() && groups@[i].x == after[m].x as int / 2 && groups@[i].y
                            == after[m].y as int / 2 by {
                        assert(before[m] == after[m]);
                    }
                }
            },
            Some(p) => {
                let (qx, qy) = t.quadrant_in_parent();
                let q: usize = qx + 2 * qy;
                proof {
                    lemma_slot_of(t);
                }
                let mut j: usize = 0;
                while j < groups.len()
                    invariant
                        j <= groups@.len(),
                        groups@ == prev,
                        forall|i: int| 0 <= i < j ==> (#[trigger] groups@[i].x, groups@[i].y) != (p.x, p.y),
                    ensures
                        j <= groups@.len(),
                        groups@ == prev,
                        forall|i: int| 0 <= i < j ==> (#[trigger] groups@[i].x, groups@[i].y) != (p.x, p.y),
                        j == groups@.len() || (groups@[j as int].x == p.x && groups@[j as int].y == p.y),
                    decreases groups@.len() - j,
                {
                    if groups[j].x == p.x && groups[j].y == p.y {
                        break;
                    }
                    j = j + 1;
                }
                if j == groups.len() {
                    let mut children: [Option<usize>; 4] = [None, None, None, None];
                    children[q] = Some(k);
                    proof {
                        assert forall|qq: int| 0 <= qq < 4 implies slot_matches(
                            children[qq],
                            after,
                            p.x as int,
                            p.y as int,
                            qq,
                        ) by {
                            lemma_last_in_slot_push(before, t, p.x as int, p.y as int, qq);
                            assert forall|m: int| 0 <= m < before.len() implies !fills_slot(
                                #[trigger] before[m],
                                p.x as int,
                                p.y as int,
                                qq,
                            ) by {
                                if fills_slot(before[m], p.x as int, p.y as int, qq) {
                                    assert(before[m].zoom > 0);
                                    let i = choose|i: int|
                                        0 <= i < prev.len() && prev[i].x == before[m].x as int / 2
                                            && prev[i].y == before[m].y as int / 2;
                                    assert((prev[i].x, prev[i].y) != (p.x, p.y));
                                }
                            }
                            lemma_last_in_slot_none(before, p.x as int, p.y as int, qq);
                        }
                    }
                    groups.push(ParentGroup { x: p.x, y: p.y, children });
                    proof {
                        assert forall|i: int, qq: int| 0 <= i < groups@.len() && 0 <= qq < 4 implies slot_matches(
                            #[trigger] groups@[i].children[qq],
                            after,
                            groups@[i].x as int,
                            groups@[i].y as int,
                            qq,
                        ) by {
                            if i < prev.len() {
                                assert(groups@[i] == prev[i]);
                                lemma_last_in_slot_push(before, t, groups@[i].x as int, groups@[i].y as int, qq);
                            }
                        }
                        assert forall|i: int| 0 <= i < groups@.len() implies has_child(#[trigger] groups@[i]) by {
                            if i < prev.len() {
                                assert(groups@[i] == prev[i]);
                            } else {
                                assert(groups@[i].children[q as int] is Some);
                            }
                        }
                        assert forall|m: int| 0 <= m < after.len() && (#[trigger] after[m]).zoom > 0 implies exists|i: int|
                            0 <= i < groups@.len() && groups@[i].x == after[m].x as int / 2 && groups@[i].y
                                == after[m].y as int / 2 by {
                            if m < before.len() {
                                assert(before[m] == after[m]);
                                let i = choose|i: int|
                                    0 <= i < prev.len() && prev[i].x == before[m].x as int / 2 && prev[i].y
                                        == before[m].y as int / 2;
                                assert(groups@[i] == prev[i]);
                            } else {
                                assert(groups@[prev.len() as int].x == p.x);
                            }
                        }
                    }
                } else {
                    let mut children = groups[j].children;
                    children[q] = Some(k);
                    let g = ParentGroup { x: p.x, y: p.y, children };
                    groups.set(j, g);
                    proof {
                        assert forall|i: int, qq: int| 0 <= i < groups@.len() && 0 <= qq < 4 implies slot_matches(
                            #[trigger] groups@[i].children[qq],
                            after,
                            groups@[i].x as int,
                            groups@[i].y as int,
                            qq,
                        ) by {
                            lemma_last_in_slot_push(before, t, groups@[i].x as int, groups@[i].y as int, qq);
                            if i != j {
                                assert(groups@[i] == prev[i]);
                            }
                        }
                        assert forall|i: int| 0 <= i < groups@.len() implies has_child(#[trigger] groups@[i]) by {
                            if i != j {
                                assert(groups@[i] == prev[i]);
                            } else {
                                assert(groups@[i].children[q as int] is Some);
                            }
                        }
                        assert forall|m: int| 0 <= m < after.len() && (#[trigger] after[m]).zoom > 0 implies exists|i: int|
                            0 <= i < groups@.len() && groups@[i].x == after[m].x as int / 2 && groups@[i].y
                                == after[m].y as int / 2 by {
                            if m < before.len() {
                                assert(before[m] == after[m]);
                                let i = choose|i: int|
                                    0 <= i < prev.len() && prev[i].x == before[m].x as int / 2 && prev[i].y
                                        == before[m].y as int / 2;
                                assert(groups@[i].x == prev[i].x && groups@[i].y == prev[i].y);
                            } else {
                                assert(groups@[j as int].x == p.x);
                            }
                        }
                    }
                }
            },
        }
        k = k + 1;
    }
    assert(tiles@.take(tiles@.len() as int) =~= tiles@);
    groups
}

/// `b` holds the smallest and largest column and row of the tiles of `s`
/// as `(min_x, max_x, min_y, max_y)`; with no tiles it is all zero.
pub open spec fn tile_bounds_of(s: Seq<TileCoord>, b: (i32, i32, i32, i32)) -> bool {
    if s.len() == 0 {
        b == (0i32, 0i32, 0i32, 0i32)
    } else {
        &&& forall|i: int|
            0 <= i < s.len() ==> b.0 <= (#[trigger] s[i]).x <= b.1 && b.2 <= s[i].y <= b.3
        &&& exists|i: int| 0 <= i < s.len() && (#[trigger] s[i]).x == b.0
        &&& exists|i: int| 0 <= i < s.len() && (#[trigger] s[i]).x == b.1
        &&& exists|i: int| 0 <= i < s.len() && (#[trigger] s[i]).y == b.2
        &&& exists|i: int| 0 <= i < s.len() && (#[trigger] s[i]).y == b.3
    }
}

/// The smallest and largest column and row of `tiles`, as
/// `(min_x, max_x, min_y, max_y)`; all zero when there are none.
pub fn tile_bounds(tiles: &Vec<TileCoord>) -> (res: (i32, i32, i32, i32))
    ensures
        tile_bounds_of(tiles@, res),
{
    if tiles.len() == 0 {
        return (0, 0, 0, 0);
    }
    let mut min_x = tiles[0].x;
    let mut max_x = tiles[0].x;
    let mut min_y = tiles[0].y;
    let mut max_y = tiles[0].y;
    let mut i: usize = 1;
    while i < tiles.len()
        invariant
            1 <= i <= tiles@.len(),
            forall|k: int|
                0 <= k < i ==> min_x <= (#[trigger] tiles@[k]).x <= max_x && min_y <= tiles@[k].y <= max_y,
            exists|k: int| 0 <= k < i && (#[trigger] tiles@[k]).x == min_x,
            exists|k: int| 0 <= k < i && (#[trigger] tiles@[k]).x == max_x,
            exists|k: int| 0 <= k < i && (#[trigger] tiles@[k]).y == min_y,
            exists|k: int| 0 <= k < i && (#[trigger] tiles@[k]).y == max_y,
        decreases tiles@.len() - i,
    {
        let t = tiles[i];
        if t.x < min_x {
            min_x = t.x;
        }
        if t.x > max_x {
            max_x = t.x;
        }
        if t.y < min_y {
            min_y = t.y;
        }
        if t.y > max_y {
            max_y = t.y;
        }
        i = i + 1;
    }
    (min_x, max_x, min_y, max_y)
}

/// Where a rendered map lies, in blocks, and how deep its pyramid goes.
#[derive(Clone, Copy, Debug, PartialEq, Eq)]
pub struct MapMetadata {
    pub center_x: i32,
    pub center_z: i32,
    pub min_block_x: i32,
    pub min_block_z: i32,
    pub max_block_x: i32,
    pub max_block_z: i32,
    pub max_zoom: u8,
}

/// Tiles from column (or row) `lo` to `hi` span blocks `256 * lo` up to
/// `256 * (hi + 1)`, and both ends fit in `i32`.
pub open spec fn block_range_fits(lo: i32, hi: i32) -> bool {
    &&& -0x80_0000 <= lo <= 0x7f_ffff
    &&& -0x80_0001 <= hi <= 0x7f_fffe
}

/// The block extent of the base tiles with bounds `(min_x, max_x, min_y,
/// max_y)`, each tile 256 blocks wide, and its centre.
pub fn map_metadata(bounds: (i32, i32, i32, i32), max_zoom: u8) -> (res: MapMetadata)
    requires
        block_range_fits(bounds.0, bounds.1),
        block_range_fits(bounds.2, bounds.3),
    ensures
        res.center_x == (bounds.0 + bounds.1) * 128 + 128,
        res.center_z == (bounds.2 + bounds.3) * 128 + 128,
        res.min_block_x == bounds.0 * 256,
        res.min_block_z == bounds.2 * 256,
        res.max_block_x == (bounds.1 + 1) * 256,
        res.max_block_z == (bounds.3 + 1) * 256,
        res.max_zoom == max_zoom,
{
    let (min_tx, max_tx, min_ty, max_ty) = bounds;
    MapMetadata {
        center_x: ((min_tx as i64 + max_tx as i64) * 128 + 128) as i32,
        center_z: ((min_ty as i64 + max_ty as i64) * 128 + 128) as i32,
        min_block_x: min_tx * 256,
        min_block_z: min_ty * 256,
        max_block_x: (max_tx + 1) * 256,
        max_block_z: (max_ty + 1) * 256,
        max_zoom,
    }
}

/// The metadata of the base tiles with the given bounds, when their block
/// range fits in `i32`; `None` when it does not.
pub fn try_map_metadata(bounds: (i32, i32, i32, i32), max_zoom: u8) -> (res: Option<MapMetadata>)
    ensures
        res is Some <==> block_range_fits(bounds.0, bounds.1) && block_range_fits(bounds.2, bounds.3),
        res matches Some(m) ==> {
            &&& m.center_x == (bounds.0 + bounds.1) * 128 + 128
            &&& m.center_z == (bounds.2 + bounds.3) * 128 + 128
            &&& m.min_block_x == bounds.0 * 256
            &&& m.min_block_z == bounds.2 * 256
            &&& m.max_block_x == (bounds.1 + 1) * 256
            &&& m.max_block_z == (bounds.3 + 1) * 256
            &&& m.max_zoom == max_zoom
        },
{
    let fits_x = -0x80_0000 <= bounds.0 && bounds.0 <= 0x7f_ffff && -0x80_0001 <= bounds.1 && bounds.1 <= 0x7f_fffe;
    let fits_y = -0x80_0000 <= bounds.2 && bounds.2 <= 0x7f_ffff && -0x80_0001 <= bounds.3 && bounds.3 <= 0x7f_fffe;
    if fits_x && fits_y {
        Some(map_metadata(bounds, max_zoom))
    } else {
        None
    }
}

/// The JSON object that describes a rendered map to the viewer.
pub open spec fn metadata_text(m: MapMetadata, ext: Seq<char>) -> Seq<char> {
    "{\"center_x\":"@ + int_text(m.center_x as int) + ",\"center_z\":"@ + int_text(m.center_z as int)
        + ",\"min_block_x\":"@ + int_text(m.min_block_x as int) + ",\"min_block_z\":"@ + int_text(
        m.min_block_z as int,
    ) + ",\"max_block_x\":"@ + int_text(m.max_block_x as int) + ",\"max_block_z\":"@ + int_text(
        m.max_block_z as int,
    ) + ",\"max_zoom\":"@ + decimal_text(m.max_zoom as nat) + ",\"format\":\""@ + ext + "\"}"@
}

/// The JSON object that describes a rendered map to the viewer.
pub fn metadata_json(meta: &MapMetadata, format: TileFormat) -> (res: String)
    ensures
        res@ == metadata_text(*meta, format_extension(format)),
{
    let mut s = String::new();
    s.append("{\"center_x\":");
    append_int(&mut s, meta.center_x);
    s.append(",\"center_z\":");
    append_int(&mut s, meta.center_z);
    s.append(",\"min_block_x\":");
    append_int(&mut s, meta.min_block_x);
    s.append(",\"min_block_z\":");
    append_int(&mut s, meta.min_block_z);
    s.append(",\"max_block_x\":");
    append_int(&mut s, meta.max_block_x);
    s.append(",\"max_block_z\":");
    append_int(&mut s, meta.max_block_z);
    s.append(",\"max_zoom\":");
    let zs = decimal_string(meta.max_zoom as u64);
    s.append(zs.as_str());
    s.append(",\"format\":\"");
    s.append(format.extension());
    s.append("\"}");
    s
}

} // verus!
