//! Terrain clipmap geometry: the ring layout of a terrain and the index
//! buffer of one square grid patch.
//!
//! A patch of resolution `r` has `(r + 1) x (r + 1)` vertices laid out row by
//! row; each of its `r x r` cells is drawn as two triangles.
use vstd::prelude::*;

verus! {

/// The clamped ring count and ring resolution of a terrain: `1..=8` rings,
/// resolution `4..=256`.
pub fn clipmap_layout(clipmap_rings: u32, ring_resolution: u32) -> (r: (u32, u32))
    ensures
        r.0 == (if clipmap_rings < 1 { 1 } else if clipmap_rings > 8 { 8 } else { clipmap_rings }),
        r.1 == (if ring_resolution < 4 { 4 } else if ring_resolution > 256 { 256 } else { ring_resolution }),
{
    let rings = if clipmap_rings < 1 {
        1
    } else if clipmap_rings > 8 {
        8
    } else {
        clipmap_rings
    };
    let resolution = if ring_resolution < 4 {
        4
    } else if ring_resolution > 256 {
        256
    } else {
        ring_resolution
    };
    (rings, resolution)
}

/// The six indices of cell (`row`, `col`) of a patch of resolution `res`:
/// top-left, bottom-left, top-right, then top-right, bottom-left, bottom-right.
pub open spec fn cell_indices(res: nat, row: nat, col: nat) -> Seq<int> {
    let tl: int = (row * (res + 1) + col) as int;
    let bl: int = tl + res + 1;
    seq![tl, bl, tl + 1, tl + 1, bl, bl + 1]
}

/// The indices of the first `cols` cells of row `row`.
pub open spec fn row_indices(res: nat, row: nat, cols: nat) -> Seq<int>
    decreases cols,
{
    if cols == 0 {
        Seq::empty()
    } else {
        row_indices(res, row, (cols - 1) as nat) + cell_indices(res, row, (cols - 1) as nat)
    }
}

/// The indices of the first `rows` rows of a patch of resolution `res`.
pub open spec fn patch_indices(res: nat, rows: nat) -> Seq<int>
    decreases rows,
{
    if rows == 0 {
        Seq::empty()
    } else {
        patch_indices(res, (rows - 1) as nat) + row_indices(res, (rows - 1) as nat, res)
    }
}

/// The index buffer of a grid patch of resolution `resolution`.
pub fn clipmap_indices(resolution: u32) -> (idx: Vec<u32>)
    requires
        (resolution + 1) * (resolution + 1) <= u32::MAX,
    ensures
        idx@.len() == patch_indices(resolution as nat, resolution as nat).len(),
        forall|k: int| 0 <= k < idx@.len() ==> #[trigger] idx@[k] == patch_indices(resolution as nat, resolution as nat)[k],
{
    let ghost res = resolution as nat;
    let mut idx: Vec<u32> = Vec::new();
    let mut row: u32 = 0;
    while row < resolution
        invariant
            res == resolution,
            (resolution + 1) * (resolution + 1) <= u32::MAX,
            0 <= row <= resolution,
            idx@.len() == patch_indices(res, row as nat).len(),
            forall|k: int| 0 <= k < idx@.len() ==> #[trigger] idx@[k] == patch_indices(res, row as nat)[k],
        decreases resolution - row,
    {
        let ghost before = idx@;
        let mut col: u32 = 0;
        while col < resolution
            invariant
                res == resolution,
                (resolution + 1) * (resolution + 1) <= u32::MAX,
                0 <= row < resolution,
                0 <= col <= resolution,
                before.len() == patch_indices(res, row as nat).len(),
                forall|k: int| 0 <= k < before.len() ==> #[trigger] before[k] == patch_indices(res, row as nat)[k],
                idx@.len() == before.len() + row_indices(res, row as nat, col as nat).len(),
                forall|k: int| 0 <= k < before.len() ==> #[trigger] idx@[k] == before[k],
                forall|k: int| 0 <= k < row_indices(res, row as nat, col as nat).len()
                    ==> #[trigger] idx@[before.len() + k] == row_indices(res, row as nat, col as nat)[k],
            decreases resolution - col,
        {
            assert(row * (resolution + 1) + col + resolution + 2 <= (resolution + 1) * (resolution + 1)) by (nonlinear_arith)
                requires
                    row < resolution,
                    col < resolution,
            ;
            let tl = row * (resolution + 1) + col;
            let tr = tl + 1;
            let bl = tl + (resolution + 1);
            let br = bl + 1;
            let ghost mid = idx@;
            idx.push(tl);
            idx.push(bl);
            idx.push(tr);
            idx.push(tr);
            idx.push(bl);
            idx.push(br);
            proof {
                let ri = row_indices(res, row as nat, col as nat);
                let ri1 = row_indices(res, row as nat, (col + 1) as nat);
                let c = cell_indices(res, row as nat, col as nat);
                assert(ri1 == ri + c);
                assert(ri1.len() == ri.len() + 6);
                assert forall|k: int| 0 <= k < ri1.len() implies #[trigger] idx@[before.len() + k] == ri1[k] by {
                    if k < ri.len() {
                        assert(idx@[before.len() + k] == mid[before.len() + k]);
                    } else {
                        assert(ri1[k] == c[k - ri.len()]);
                    }
                }
                assert forall|k: int| 0 <= k < before.len() implies #[trigger] idx@[k] == before[k] by {
                    assert(idx@[k] == mid[k]);
                }
            }
            col = col + 1;
        }
        proof {
            let p1 = patch_indices(res, (row + 1) as nat);
            let ri = row_indices(res, row as nat, res);
            assert(p1 == patch_indices(res, row as nat) + ri);
            assert forall|k: int| 0 <= k < idx@.len() implies #[trigger] idx@[k] == p1[k] by {
                if k >= before.len() {
                    assert(idx@[before.len() + (k - before.len())] == ri[k - before.len()]);
                }
            }
        }
        row = row + 1;
    }
    idx
}

/// A row of `cols` cells has six indices per cell, each naming a vertex of
/// the patch when the row and the cells are inside it.
proof fn lemma_row_indices(res: nat, row: nat, cols: nat)
    requires
        row < res,
        cols <= res,
    ensures
        row_indices(res, row, cols).len() == 6 * cols,
        forall|k: int| 0 <= k < row_indices(res, row, cols).len()
            ==> 0 <= #[trigger] row_indices(res, row, cols)[k] < (res + 1) * (res + 1),
    decreases cols,
{
    if cols > 0 {
        let c = (cols - 1) as nat;
        lemma_row_indices(res, row, c);
        assert(row * (res + 1) + c + res + 2 < (res + 1) * (res + 1)) by (nonlinear_arith)
            requires
                row < res,
                c < res,
        ;
        let prev = row_indices(res, row, c);
        let cell = cell_indices(res, row, c);
        assert forall|k: int| 0 <= k < row_indices(res, row, cols).len()
            implies 0 <= #[trigger] row_indices(res, row, cols)[k] < (res + 1) * (res + 1) by {
            if k >= prev.len() {
                assert(row_indices(res, row, cols)[k] == cell[k - prev.len()]);
            } else {
                assert(row_indices(res, row, cols)[k] == prev[k]);
            }
        }
    }
}

/// A patch of resolution `res` has six indices per cell, and each names one
/// of its `(res + 1) * (res + 1)` vertices.
pub proof fn lemma_patch_indices_in_range(res: nat, rows: nat)
    requires
        rows <= res,
    ensures
        patch_indices(res, rows).len() == 6 * res * rows,
        forall|k: int| 0 <= k < patch_indices(res, rows).len()
            ==> 0 <= #[trigger] patch_indices(res, rows)[k] < (res + 1) * (res + 1),
    decreases rows,
{
    if rows > 0 {
        let r = (rows - 1) as nat;
        lemma_patch_indices_in_range(res, r);
        lemma_row_indices(res, r, res);
        let prev = patch_indices(res, r);
        let ri = row_indices(res, r, res);
        assert(6 * res * rows == 6 * res * r + 6 * res) by (nonlinear_arith)
            requires
                rows == r + 1,
        ;
        assert forall|k: int| 0 <= k < patch_indices(res, rows).len()
            implies 0 <= #[trigger] patch_indices(res, rows)[k] < (res + 1) * (res + 1) by {
            if k >= prev.len() {
                assert(patch_indices(res, rows)[k] == ri[k - prev.len()]);
            } else {
                assert(patch_indices(res, rows)[k] == prev[k]);
            }
        }
    } else {
        assert(6 * res * rows == 0) by (nonlinear_arith)
            requires
                rows == 0,
        ;
    }
}

} // verus!
