//! Terrain meshing: the triangle layout shared by every render tile.

use vstd::prelude::*;

verus! {

/// Vertices per tile side (cells per side plus one).
pub const TILE_VERTS: u32 = 17;

/// The `k`-th entry of a tile's index buffer: cell `q = k / 6` (row-major,
/// 16 per row) is split into triangles (a, c, b) and (b, c, d), where a is
/// its top-left vertex, b the next one to the right, c the one below a and d
/// the one below b.
pub open spec fn tri_index(k: int) -> int {
    let q = k / 6;
    let r = k % 6;
    let a = (q / 16) * 17 + q % 16;
    if r == 0 {
        a
    } else if r == 1 {
        a + 17
    } else if r == 2 {
        a + 1
    } else if r == 3 {
        a + 1
    } else if r == 4 {
        a + 17
    } else {
        a + 18
    }
}

proof fn lemma_div_mod(q: int, r: int, j: int, i: int)
    requires
        0 <= r < 6,
        0 <= i < 16,
        0 <= j,
        q == j * 16 + i,
    ensures
        (6 * q + r) / 6 == q,
        (6 * q + r) % 6 == r,
        q / 16 == j,
        q % 16 == i,
{
    assert((6 * q + r) / 6 == q && (6 * q + r) % 6 == r) by (nonlinear_arith)
        requires
            0 <= r < 6,
    ;
    assert(q / 16 == j && q % 16 == i) by (nonlinear_arith)
        requires
            0 <= i < 16,
            q == j * 16 + i,
    ;
}

/// The index buffer of a 16 x 16-cell tile mesh over its 17 x 17 vertices.
pub fn tile_indices() -> (idx: Vec<u32>)
    ensures
        idx@.len() == 1536,
        forall|k: int| 0 <= k < 1536 ==> #[trigger] idx@[k] as int == tri_index(k),
        forall|k: int| 0 <= k < 1536 ==> #[trigger] idx@[k] < TILE_VERTS * TILE_VERTS,
{
    let mut idx: Vec<u32> = Vec::new();
    let mut j: u32 = 0;
    while j < 16
        invariant
            j <= 16,
            idx@.len() == j * 16 * 6,
            forall|k: int| 0 <= k < idx@.len() ==> #[trigger] idx@[k] as int == tri_index(k),
        decreases 16 - j,
    {
        let mut i: u32 = 0;
        while i < 16
            invariant
                j < 16,
                i <= 16,
                idx@.len() == (j * 16 + i) * 6,
                forall|k: int| 0 <= k < idx@.len() ==> #[trigger] idx@[k] as int == tri_index(k),
            decreases 16 - i,
        {
            let a = j * 17 + i;
            let b = a + 1;
            let c = a + 17;
            let d = c + 1;
            let ghost q = (j * 16 + i) as int;
            proof {
                lemma_div_mod(q, 0, j as int, i as int);
                lemma_div_mod(q, 1, j as int, i as int);
                lemma_div_mod(q, 2, j as int, i as int);
                lemma_div_mod(q, 3, j as int, i as int);
                lemma_div_mod(q, 4, j as int, i as int);
                lemma_div_mod(q, 5, j as int, i as int);
            }
            idx.push(a);
            idx.push(c);
            idx.push(b);
            idx.push(b);
            idx.push(c);
            idx.push(d);
            i = i + 1;
        }
        j = j + 1;
    }
    proof {
        assert forall|k: int| 0 <= k < 1536 implies #[trigger] idx@[k] < TILE_VERTS * TILE_VERTS by {
            let q = k / 6;
            assert(0 <= q < 256);
            assert(0 <= q / 16 < 16 && 0 <= q % 16 < 16);
            assert(tri_index(k) <= 15 * 17 + 15 + 18);
        }
    }
    idx
}

} // verus!
