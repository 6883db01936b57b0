use super::colormap::{guessed_color, is_air_name, BlockColor, ColorMap};
use crate::common::coordinates::{block_subchunk_index, subchunk_index};
use crate::leveldb::reader::ChunkData;
use crate::subchunk::storage::{SubChunk, SubChunkStorage};
use vstd::prelude::*;

verus! {

/// The colour and height map of one chunk as seen from above.
pub struct ColumnScanResult {
    pub pixels: [u8; 1024],
    pub heightmap: [i16; 256],
}

/// A block that light meets on its way down a column: its height and the
/// colour it is drawn with.
#[derive(Clone, Copy, Debug, PartialEq, Eq)]
pub struct ColumnSample {
    pub world_y: i32,
    pub color: BlockColor,
}

/// The colour a colour map gives a name: its own entry, or the colour
/// guessed from the words in the name.
pub open spec fn color_of(cm: Map<Seq<char>, BlockColor>, name: Seq<char>) -> BlockColor {
    if cm.contains_key(name) {
        cm[name]
    } else {
        guessed_color(name)
    }
}

/// What a layer shows at block index `idx`: nothing when the stored index
/// lies outside its palette, when the block is air, or when its colour is
/// fully transparent.
pub open spec fn sample_at(
    layer: SubChunkStorage,
    idx: int,
    world_y: int,
    cm: Map<Seq<char>, BlockColor>,
) -> Option<ColumnSample> {
    let p = layer.blocks@[idx] as int;
    if p < layer.palette@.len() {
        let name = layer.palette@[p].name@;
        let c = color_of(cm, name);
        if !is_air_name(name) && c.rgba[3] != 0 {
            Some(ColumnSample { world_y: world_y as i32, color: c })
        } else {
            None
        }
    } else {
        None
    }
}

/// The samples met so far, and whether an opaque one has stopped the ray.
pub type ScanState = (Seq<ColumnSample>, bool);

/// One more position of the ray: a sample is kept until an opaque one has
/// been met, and an opaque one stops it.
pub open spec fn scan_step(st: ScanState, s: Option<ColumnSample>) -> ScanState {
    if st.1 {
        st
    } else {
        match s {
            None => st,
            Some(c) => (st.0.push(c), c.color.rgba[3] == 255),
        }
    }
}

/// The ray after the top `k` layers at one block (the last layer first).
pub open spec fn scan_layers(
    st: ScanState,
    layers: Seq<SubChunkStorage>,
    idx: int,
    world_y: int,
    cm: Map<Seq<char>, BlockColor>,
    k: nat,
) -> ScanState
    decreases k,
{
    if k == 0 {
        st
    } else {
        scan_step(
            scan_layers(st, layers, idx, world_y, cm, (k - 1) as nat),
            sample_at(layers[layers.len() - k], idx, world_y, cm),
        )
    }
}

/// The ray after the top `k` block levels of a subchunk at column `(x, z)`.
pub open spec fn scan_levels(
    st: ScanState,
    sc: SubChunk,
    sub_y: i8,
    x: int,
    z: int,
    cm: Map<Seq<char>, BlockColor>,
    k: nat,
) -> ScanState
    decreases k,
{
    if k == 0 {
        st
    } else {
        let y = 16 - k;
        scan_layers(
            scan_levels(st, sc, sub_y, x, z, cm, (k - 1) as nat),
            sc.layers@,
            subchunk_index(x, y, z),
            sub_y * 16 + y,
            cm,
            sc.layers@.len(),
        )
    }
}

/// The ray after the top `k` subchunks (the last one first).
pub open spec fn scan_subchunks(
    st: ScanState,
    subs: Seq<(i8, SubChunk)>,
    x: int,
    z: int,
    cm: Map<Seq<char>, BlockColor>,
    k: nat,
) -> ScanState
    decreases k,
{
    if k == 0 {
        st
    } else {
        let p = subs[subs.len() - k];
        scan_levels(scan_subchunks(st, subs, x, z, cm, (k - 1) as nat), p.1, p.0, x, z, cm, 16)
    }
}

/// The samples of column `(x, z)` from the top down through the first
/// opaque one: subchunks in reverse order, levels from 15 down to 0, and at
/// each block the layers in reverse order.
pub open spec fn column_scan(
    subs: Seq<(i8, SubChunk)>,
    x: int,
    z: int,
    cm: Map<Seq<char>, BlockColor>,
) -> Seq<ColumnSample> {
    scan_subchunks((Seq::empty(), false), subs, x, z, cm, subs.len()).0
}

proof fn lemma_layers_stopped(
    st: ScanState,
    layers: Seq<SubChunkStorage>,
    idx: int,
    world_y: int,
    cm: Map<Seq<char>, BlockColor>,
    j: nat,
    k: nat,
)
    requires
        j <= k,
        scan_layers(st, layers, idx, world_y, cm, j).1,
    ensures
        scan_layers(st, layers, idx, world_y, cm, k) == scan_layers(st, layers, idx, world_y, cm, j),
    decreases k,
{
    if k > j {
        lemma_layers_stopped(st, layers, idx, world_y, cm, j, (k - 1) as nat);
    }
}

proof fn lemma_layers_from_stopped(
    st: ScanState,
    layers: Seq<SubChunkStorage>,
    idx: int,
    world_y: int,
    cm: Map<Seq<char>, BlockColor>,
    k: nat,
)
    requires
        st.1,
    ensures
        scan_layers(st, layers, idx, world_y, cm, k) == st,
    decreases k,
{
    if k > 0 {
        lemma_layers_from_stopped(st, layers, idx, world_y, cm, (k - 1) as nat);
    }
}

proof fn lemma_levels_stopped(
    st: ScanState,
    sc: SubChunk,
    sub_y: i8,
    x: int,
    z: int,
    cm: Map<Seq<char>, BlockColor>,
    j: nat,
    k: nat,
)
    requires
        j <= k,
        scan_levels(st, sc, sub_y, x, z, cm, j).1,
    ensures
        scan_levels(st, sc, sub_y, x, z, cm, k) == scan_levels(st, sc, sub_y, x, z, cm, j),
    decreases k,
{
    if k > j {
        lemma_levels_stopped(st, sc, sub_y, x, z, cm, j, (k - 1) as nat);
        let y = 16 - k;
        lemma_layers_from_stopped(
            scan_levels(st, sc, sub_y, x, z, cm, (k - 1) as nat),
            sc.layers@,
            subchunk_index(x, y, z),
            sub_y * 16 + y,
            cm,
            sc.layers@.len(),
        );
    }
}

proof fn lemma_levels_from_stopped(
    st: ScanState,
    sc: SubChunk,
    sub_y: i8,
    x: int,
    z: int,
    cm: Map<Seq<char>, BlockColor>,
    k: nat,
)
    requires
        st.1,
    ensures
        scan_levels(st, sc, sub_y, x, z, cm, k) == st,
    decreases k,
{
    if k > 0 {
        lemma_levels_from_stopped(st, sc, sub_y, x, z, cm, (k - 1) as nat);
        let y = 16 - k;
        lemma_layers_from_stopped(st, sc.layers@, subchunk_index(x, y, z), sub_y * 16 + y, cm, sc.layers@.len());
    }
}

proof fn lemma_subchunks_stopped(
    st: ScanState,
    subs: Seq<(i8, SubChunk)>,
    x: int,
    z: int,
    cm: Map<Seq<char>, BlockColor>,
    j: nat,
    k: nat,
)
    requires
        j <= k,
        scan_subchunks(st, subs, x, z, cm, j).1,
    ensures
        scan_subchunks(st, subs, x, z, cm, k) == scan_subchunks(st, subs, x, z, cm, j),
    decreases k,
{
    if k > j {
        lemma_subchunks_stopped(st, subs, x, z, cm, j, (k - 1) as nat);
        let p = subs[subs.len() - k];
        lemma_levels_from_stopped(scan_subchunks(st, subs, x, z, cm, (k - 1) as nat), p.1, p.0, x, z, cm, 16);
    }
}

/// The ray is well formed: every sample shows some colour, and an opaque
/// sample, if any, is the last one and has stopped the ray.
pub open spec fn ray_ok(st: ScanState) -> bool {
    &&& forall|i: int| 0 <= i < st.0.len() ==> (#[trigger] st.0[i]).color.rgba[3] != 0
    &&& forall|i: int|
        0 <= i < st.0.len() && (#[trigger] st.0[i]).color.rgba[3] == 255 ==> i == st.0.len() - 1 && st.1
    &&& st.1 ==> st.0.len() > 0 && st.0[st.0.len() - 1].color.rgba[3] == 255
}

proof fn lemma_step_ok(st: ScanState, s: Option<ColumnSample>)
    requires
        ray_ok(st),
        s matches Some(c) ==> c.color.rgba[3] != 0,
    ensures
        ray_ok(scan_step(st, s)),
{
    let r = scan_step(st, s);
    if !st.1 {
        if let Some(c) = s {
            assert forall|i: int| 0 <= i < r.0.len() implies (#[trigger] r.0[i]).color.rgba[3] != 0 by {
                if i < st.0.len() {
                    assert(r.0[i] == st.0[i]);
                }
            }
            assert forall|i: int| 0 <= i < r.0.len() && (#[trigger] r.0[i]).color.rgba[3] == 255 implies i
                == r.0.len() - 1 && r.1 by {
                if i < st.0.len() {
                    assert(r.0[i] == st.0[i]);
                }
            }
        }
    }
}

proof fn lemma_layers_ok(
    st: ScanState,
    layers: Seq<SubChunkStorage>,
    idx: int,
    world_y: int,
    cm: Map<Seq<char>, BlockColor>,
    k: nat,
)
    requires
        ray_ok(st),
    ensures
        ray_ok(scan_layers(st, layers, idx, world_y, cm, k)),
    decreases k,
{
    if k > 0 {
        lemma_layers_ok(st, layers, idx, world_y, cm, (k - 1) as nat);
        lemma_step_ok(
            scan_layers(st, layers, idx, world_y, cm, (k - 1) as nat),
            sample_at(layers[layers.len() - k], idx, world_y, cm),
        );
    }
}

proof fn lemma_levels_ok(
    st: ScanState,
    sc: SubChunk,
    sub_y: i8,
    x: int,
    z: int,
    cm: Map<Seq<char>, BlockColor>,
    k: nat,
)
    requires
        ray_ok(st),
    ensures
        ray_ok(scan_levels(st, sc, sub_y, x, z, cm, k)),
    decreases k,
{
    if k > 0 {
        lemma_levels_ok(st, sc, sub_y, x, z, cm, (k - 1) as nat);
        let y = 16 - k;
        lemma_layers_ok(
            scan_levels(st, sc, sub_y, x, z, cm, (k - 1) as nat),
            sc.layers@,
            subchunk_index(x, y, z),
            sub_y * 16 + y,
            cm,
            sc.layers@.len(),
        );
    }
}

proof fn lemma_subchunks_ok(
    st: ScanState,
    subs: Seq<(i8, SubChunk)>,
    x: int,
    z: int,
    cm: Map<Seq<char>, BlockColor>,
    k: nat,
)
    requires
        ray_ok(st),
    ensures
        ray_ok(scan_subchunks(st, subs, x, z, cm, k)),
    decreases k,
{
    if k > 0 {
        lemma_subchunks_ok(st, subs, x, z, cm, (k - 1) as nat);
        let p = subs[subs.len() - k];
        lemma_levels_ok(scan_subchunks(st, subs, x, z, cm, (k - 1) as nat), p.1, p.0, x, z, cm, 16);
    }
}

/// The ray of a column ends at the first opaque block: every sample of a
/// column shows some colour, and none but the last is opaque.
pub proof fn lemma_ray_stops_at_opaque(subs: Seq<(i8, SubChunk)>, x: int, z: int, cm: Map<Seq<char>, BlockColor>)
    ensures
        forall|i: int|
            0 <= i < column_scan(subs, x, z, cm).len() ==> (#[trigger] column_scan(subs, x, z, cm)[i]).color.rgba[3]
                != 0,
        forall|i: int|
            0 <= i < column_scan(subs, x, z, cm).len() - 1 ==> (#[trigger] column_scan(subs, x, z, cm)[i]).color.rgba[3]
                != 255,
{
    let st0: ScanState = (Seq::empty(), false);
    lemma_subchunks_ok(st0, subs, x, z, cm, subs.len());
}

/// The name of the block at local `(x, y, z)` of a storage layer: the
/// palette entry of the index stored at `x * 256 + z * 16 + y`.
pub open spec fn block_name(layer: SubChunkStorage, x: int, y: int, z: int) -> Seq<char> {
    layer.palette@[layer.blocks@[x * 256 + z * 16 + y] as int].name@
}

/// The block at local `(x, y, z)` of a storage layer is drawn: its stored
/// index lies inside the palette, it is not air, and its colour is not
/// fully transparent.
pub open spec fn block_visible(layer: SubChunkStorage, x: int, y: int, z: int, cm: Map<Seq<char>, BlockColor>) -> bool {
    &&& (layer.blocks@[x * 256 + z * 16 + y] as int) < layer.palette@.len()
    &&& !is_air_name(block_name(layer, x, y, z))
    &&& color_of(cm, block_name(layer, x, y, z)).rgba[3] != 0
}

/// Sample `c` is what some layer of some subchunk of `subs` shows at the
/// block of column `(x, z)` at level `y` of that subchunk.
pub open spec fn shows_block_of_column(
    subs: Seq<(i8, SubChunk)>,
    x: int,
    z: int,
    cm: Map<Seq<char>, BlockColor>,
    c: ColumnSample,
) -> bool {
    exists|p: int, y: int, l: int|
        #![trigger block_visible(subs[p].1.layers@[l], x, y, z, cm)]
        0 <= p < subs.len() && 0 <= y < 16 && 0 <= l < subs[p].1.layers@.len() && block_visible(
            subs[p].1.layers@[l],
            x,
            y,
            z,
            cm,
        ) && c.world_y == subs[p].0 * 16 + y && c.color == color_of(cm, block_name(subs[p].1.layers@[l], x, y, z))
}

/// Every sample of the ray is one that column `(x, z)` shows.
spec fn ray_from_column(st: ScanState, subs: Seq<(i8, SubChunk)>, x: int, z: int, cm: Map<Seq<char>, BlockColor>) -> bool {
    forall|i: int| 0 <= i < st.0.len() ==> #[trigger] shows_block_of_column(subs, x, z, cm, st.0[i])
}

proof fn lemma_step_from_column(
    st: ScanState,
    s: Option<ColumnSample>,
    subs: Seq<(i8, SubChunk)>,
    x: int,
    z: int,
    cm: Map<Seq<char>, BlockColor>,
)
    requires
        ray_from_column(st, subs, x, z, cm),
        s matches Some(c) ==> shows_block_of_column(subs, x, z, cm, c),
    ensures
        ray_from_column(scan_step(st, s), subs, x, z, cm),
        scan_step(st, s).0.len() >= st.0.len(),
        ray_ok(st) && s is Some ==> scan_step(st, s).0.len() > 0,
{
    let r = scan_step(st, s);
    assert forall|i: int| 0 <= i < r.0.len() implies #[trigger] shows_block_of_column(subs, x, z, cm, r.0[i]) by {
        if i < st.0.len() {
            assert(r.0[i] == st.0[i]);
        }
    }
}

proof fn lemma_sample_shows(
    subs: Seq<(i8, SubChunk)>,
    p: int,
    y: int,
    l: int,
    x: int,
    z: int,
    cm: Map<Seq<char>, BlockColor>,
)
    requires
        0 <= p < subs.len(),
        0 <= y < 16,
        0 <= l < subs[p].1.layers@.len(),
    ensures
        sample_at(subs[p].1.layers@[l], subchunk_index(x, y, z), subs[p].0 * 16 + y, cm) is Some
            <==> block_visible(subs[p].1.layers@[l], x, y, z, cm),
        sample_at(subs[p].1.layers@[l], subchunk_index(x, y, z), subs[p].0 * 16 + y, cm) matches Some(c)
            ==> shows_block_of_column(subs, x, z, cm, c),
{
    let wy = subs[p].0 * 16 + y;
    assert((wy as i32) as int == wy);
    if block_visible(subs[p].1.layers@[l], x, y, z, cm) {
        assert(block_visible(subs[p].1.layers@[l], x, y, z, cm));
    }
}

proof fn lemma_layers_column(
    st: ScanState,
    subs: Seq<(i8, SubChunk)>,
    p: int,
    y: int,
    x: int,
    z: int,
    cm: Map<Seq<char>, BlockColor>,
    k: nat,
)
    requires
        0 <= p < subs.len(),
        0 <= y < 16,
        k <= subs[p].1.layers@.len(),
        ray_from_column(st, subs, x, z, cm),
        ray_ok(st),
    ensures
        ray_from_column(
            scan_layers(st, subs[p].1.layers@, subchunk_index(x, y, z), subs[p].0 * 16 + y, cm, k),
            subs,
            x,
            z,
            cm,
        ),
        scan_layers(st, subs[p].1.layers@, subchunk_index(x, y, z), subs[p].0 * 16 + y, cm, k).0.len()
            >= st.0.len(),
        (exists|l: int|
            subs[p].1.layers@.len() - k <= l < subs[p].1.layers@.len() && #[trigger] block_visible(
                subs[p].1.layers@[l],
                x,
                y,
                z,
                cm,
            )) ==> scan_layers(st, subs[p].1.layers@, subchunk_index(x, y, z), subs[p].0 * 16 + y, cm, k).0.len()
            > 0,
    decreases k,
{
    let layers = subs[p].1.layers@;
    let idx = subchunk_index(x, y, z);
    let wy = subs[p].0 * 16 + y;
    if k > 0 {
        lemma_layers_column(st, subs, p, y, x, z, cm, (k - 1) as nat);
        let prev = scan_layers(st, layers, idx, wy, cm, (k - 1) as nat);
        let l0 = layers.len() - k;
        lemma_sample_shows(subs, p, y, l0, x, z, cm);
        lemma_layers_ok(st, layers, idx, wy, cm, (k - 1) as nat);
        lemma_step_from_column(prev, sample_at(layers[l0], idx, wy, cm), subs, x, z, cm);
        if exists|l: int| layers.len() - k <= l < layers.len() && #[trigger] block_visible(layers[l], x, y, z, cm) {
            let l = choose|l: int| layers.len() - k <= l < layers.len() && #[trigger] block_visible(layers[l], x, y, z, cm);
            if l != l0 {
                assert(layers.len() - (k - 1) <= l);
            }
        }
    }
}

proof fn lemma_levels_column(
    st: ScanState,
    subs: Seq<(i8, SubChunk)>,
    p: int,
    x: int,
    z: int,
    cm: Map<Seq<char>, BlockColor>,
    k: nat,
)
    requires
        0 <= p < subs.len(),
        k <= 16,
        ray_from_column(st, subs, x, z, cm),
        ray_ok(st),
    ensures
        ray_from_column(scan_levels(st, subs[p].1, subs[p].0, x, z, cm, k), subs, x, z, cm),
        scan_levels(st, subs[p].1, subs[p].0, x, z, cm, k).0.len() >= st.0.len(),
        (exists|y: int, l: int|
            16 - k <= y < 16 && 0 <= l < subs[p].1.layers@.len() && #[trigger] block_visible(
                subs[p].1.layers@[l],
                x,
                y,
                z,
                cm,
            )) ==> scan_levels(st, subs[p].1, subs[p].0, x, z, cm, k).0.len() > 0,
    decreases k,
{
    let sc = subs[p].1;
    if k > 0 {
        lemma_levels_column(st, subs, p, x, z, cm, (k - 1) as nat);
        let prev = scan_levels(st, sc, subs[p].0, x, z, cm, (k - 1) as nat);
        let y0 = 16 - k;
        lemma_levels_ok(st, sc, subs[p].0, x, z, cm, (k - 1) as nat);
        lemma_layers_column(prev, subs, p, y0, x, z, cm, sc.layers@.len());
        if exists|y: int, l: int|
            16 - k <= y < 16 && 0 <= l < sc.layers@.len() && #[trigger] block_visible(sc.layers@[l], x, y, z, cm) {
            let (y, l) = choose|y: int, l: int|
                16 - k <= y < 16 && 0 <= l < sc.layers@.len() && #[trigger] block_visible(sc.layers@[l], x, y, z, cm);
            if y == y0 {
                assert(sc.layers@.len() - sc.layers@.len() <= l < sc.layers@.len());
            } else {
                assert(16 - (k - 1) <= y);
            }
        }
    }
}

proof fn lemma_subchunks_column(
    st: ScanState,
    subs: Seq<(i8, SubChunk)>,
    x: int,
    z: int,
    cm: Map<Seq<char>, BlockColor>,
    k: nat,
)
    requires
        k <= subs.len(),
        ray_from_column(st, subs, x, z, cm),
        ray_ok(st),
    ensures
        ray_from_column(scan_subchunks(st, subs, x, z, cm, k), subs, x, z, cm),
        scan_subchunks(st, subs, x, z, cm, k).0.len() >= st.0.len(),
        (exists|p: int, y: int, l: int|
            subs.len() - k <= p < subs.len() && 0 <= y < 16 && 0 <= l < subs[p].1.layers@.len()
                && #[trigger] block_visible(subs[p].1.layers@[l], x, y, z, cm)) ==> scan_subchunks(
            st,
            subs,
            x,
            z,
            cm,
            k,
        ).0.len() > 0,
    decreases k,
{
    if k > 0 {
        lemma_subchunks_column(st, subs, x, z, cm, (k - 1) as nat);
        let prev = scan_subchunks(st, subs, x, z, cm, (k - 1) as nat);
        let p0 = subs.len() - k;
        lemma_subchunks_ok(st, subs, x, z, cm, (k - 1) as nat);
        lemma_levels_column(prev, subs, p0, x, z, cm, 16);
        if exists|p: int, y: int, l: int|
            subs.len() - k <= p < subs.len() && 0 <= y < 16 && 0 <= l < subs[p].1.layers@.len()
                && #[trigger] block_visible(subs[p].1.layers@[l], x, y, z, cm) {
            let (p, y, l) = choose|p: int, y: int, l: int|
                subs.len() - k <= p < subs.len() && 0 <= y < 16 && 0 <= l < subs[p].1.layers@.len()
                    && #[trigger] block_visible(subs[p].1.layers@[l], x, y, z, cm);
            if p == p0 {
                assert(16 - 16 <= y < 16);
            } else {
                assert(subs.len() - (k - 1) <= p);
            }
        }
    }
}

/// The scan of column `(x, z)` reads that column and no other: each sample
/// is a drawn block of the column, at the block's height (16 times the
/// subchunk's index plus the level) and in the block's colour, the block
/// being the one stored at `x * 256 + z * 16 + y` of its layer; and when the
/// column holds any drawn block, the scan is not empty.
pub proof fn lemma_column_scan_reads_its_column(
    subs: Seq<(i8, SubChunk)>,
    x: int,
    z: int,
    cm: Map<Seq<char>, BlockColor>,
)
    ensures
        forall|i: int|
            0 <= i < column_scan(subs, x, z, cm).len() ==> #[trigger] shows_block_of_column(
                subs,
                x,
                z,
                cm,
                column_scan(subs, x, z, cm)[i],
            ),
        (exists|p: int, y: int, l: int|
            0 <= p < subs.len() && 0 <= y < 16 && 0 <= l < subs[p].1.layers@.len() && #[trigger] block_visible(
                subs[p].1.layers@[l],
                x,
                y,
                z,
                cm,
            )) ==> column_scan(subs, x, z, cm).len() > 0,
{
    let st0: ScanState = (Seq::empty(), false);
    lemma_subchunks_column(st0, subs, x, z, cm, subs.len());
}

/// What a layer shows at block index `idx` of a column at height `world_y`.
fn layer_sample(layer: &SubChunkStorage, idx: usize, world_y: i32, colormap: &ColorMap) -> (res: Option<ColumnSample>)
    requires
        idx < 4096,
    ensures
        res == sample_at(*layer, idx as int, world_y as int, colormap@),
{
    let p = layer.blocks[idx] as usize;
    match layer.palette.get(p) {
        None => None,
        Some(b) => {
            let name = b.name.as_str();
            if colormap.is_air(name) {
                return None;
            }
            let color = colormap.get(name);
            if color.rgba[3] == 0 {
                None
            } else {
                Some(ColumnSample { world_y, color })
            }
        },
    }
}

/// The samples of column `(x, z)` of a chunk, from the top down through the
/// first opaque one. Compositing them in order, each weighted by what the
/// ones above let through, gives the colour seen from above; the first one
/// gives the height of the column's surface.
pub fn column_samples(chunk: &ChunkData, colormap: &ColorMap, x: usize, z: usize) -> (res: Vec<ColumnSample>)
    requires
        x < 16,
        z < 16,
    ensures
        res@ == column_scan(chunk.subchunks@, x as int, z as int, colormap@),
        forall|i: int|
            0 <= i < res@.len() ==> #[trigger] shows_block_of_column(
                chunk.subchunks@,
                x as int,
                z as int,
                colormap@,
                res@[i],
            ),
        (exists|p: int, y: int, l: int|
            0 <= p < chunk.subchunks@.len() && 0 <= y < 16 && 0 <= l < chunk.subchunks@[p].1.layers@.len()
                && #[trigger] block_visible(chunk.subchunks@[p].1.layers@[l], x as int, y, z as int, colormap@))
            ==> res@.len() > 0,
{
    proof {
        lemma_column_scan_reads_its_column(chunk.subchunks@, x as int, z as int, colormap@);
    }
    let subs = &chunk.subchunks;
    let n = subs.len();
    let ghost cm = colormap@;
    let ghost st0: ScanState = (Seq::empty(), false);
    let mut samples: Vec<ColumnSample> = Vec::new();
    let mut done = false;
    let mut i = n;
    while i > 0 && !done
        invariant
            i <= n,
            n == subs@.len(),
            x < 16,
            z < 16,
            cm == colormap@,
            (samples@, done) == scan_subchunks(st0, subs@, x as int, z as int, cm, (n - i) as nat),
        decreases i,
    {
        i = i - 1;
        let sub_y = subs[i].0;
        let sc = &subs[i].1;
        let ghost st_sub: ScanState = (samples@, done);
        let mut local_y: usize = 16;
        while local_y > 0 && !done
            invariant
                local_y <= 16,
                i < n,
                n == subs@.len(),
                x < 16,
                z < 16,
                cm == colormap@,
                sub_y == subs@[i as int].0,
                *sc == subs@[i as int].1,
                st_sub == scan_subchunks(st0, subs@, x as int, z as int, cm, (n - i - 1) as nat),
                (samples@, done) == scan_levels(st_sub, *sc, sub_y, x as int, z as int, cm, (16 - local_y) as nat),
            decreases local_y,
        {
            local_y = local_y - 1;
            let idx = block_subchunk_index(x, local_y, z);
            let world_y = (sub_y as i32) * 16 + (local_y as i32);
            let layers = &sc.layers;
            let m = layers.len();
            let ghost st_level: ScanState = (samples@, done);
            let mut l = m;
            while l > 0 && !done
                invariant
                    l <= m,
                    m == layers@.len(),
                    *layers == sc.layers,
                    idx < 4096,
                    idx == subchunk_index(x as int, local_y as int, z as int),
                    world_y == sub_y * 16 + local_y,
                    cm == colormap@,
                    (samples@, done) == scan_layers(st_level, layers@, idx as int, world_y as int, cm, (m - l) as nat),
                decreases l,
            {
                l = l - 1;
                let s = layer_sample(&layers[l], idx, world_y, colormap);
                assert(layers@[layers@.len() - (m - l) as nat] == layers@[l as int]);
                match s {
                    None => {},
                    Some(c) => {
                        samples.push(c);
                        if c.color.rgba[3] == 255 {
                            done = true;
                        }
                    },
                }
            }
            proof {
                if done {
                    lemma_layers_stopped(st_level, layers@, idx as int, world_y as int, cm, (m - l) as nat, m as nat);
                }
            }
        }
        proof {
            if done {
                lemma_levels_stopped(st_sub, *sc, sub_y, x as int, z as int, cm, (16 - local_y) as nat, 16);
            }
        }
    }
    proof {
        if done {
            lemma_subchunks_stopped(st0, subs@, x as int, z as int, cm, (n - i) as nat, n as nat);
        }
    }
    samples
}

} // verus!
