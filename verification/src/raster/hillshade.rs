use vstd::prelude::*;

verus! {

/// The index of column `(x, z)` in a chunk's height map.
pub open spec fn column_index(x: int, z: int) -> int {
    z * 16 + x
}

/// The heights that shade column `(x, z)` of a chunk: its own, that of its
/// western neighbour and that of its northern neighbour. On the western or
/// northern edge of the chunk the column's own height stands in for the
/// missing neighbour, so that edge is drawn flat.
pub fn shading_heights(heightmap: &[i16; 256], x: usize, z: usize) -> (res: (i16, i16, i16))
    requires
        x < 16,
        z < 16,
    ensures
        res.0 == heightmap@[column_index(x as int, z as int)],
        res.1 == if x > 0 {
            heightmap@[column_index(x - 1, z as int)]
        } else {
            res.0
        },
        res.2 == if z > 0 {
            heightmap@[column_index(x as int, z - 1)]
        } else {
            res.0
        },
{
    let h_curr = heightmap[z * 16 + x];
    let h_west = if x > 0 {
        heightmap[z * 16 + (x - 1)]
    } else {
        h_curr
    };
    let h_north = if z > 0 {
        heightmap[(z - 1) * 16 + x]
    } else {
        h_curr
    };
    (h_curr, h_west, h_north)
}

} // verus!
