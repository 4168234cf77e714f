//! Painter's-algorithm tile order with the drag boost applied to the tile
//! being dragged.

use vstd::prelude::*;

verus! {

/// Z-order boost applied to a tile in the activated drag phase.
pub const DRAG_Z_ORDER_BOOST: u32 = 0x1000;

/// What the tile ordering reads of a tile: its z-order and whether it is in
/// the activated drag phase.
#[derive(Clone, Copy, Debug, PartialEq, Eq, Structural)]
pub struct TileOrderKey {
    pub z_order: u32,
    pub drag_active: bool,
}

/// The effective z-order: boosted (saturating at `u32::MAX`) while dragged.
pub open spec fn effective_z(t: TileOrderKey) -> u32 {
    if t.drag_active {
        if t.z_order + DRAG_Z_ORDER_BOOST > u32::MAX {
            u32::MAX
        } else {
            (t.z_order + DRAG_Z_ORDER_BOOST) as u32
        }
    } else {
        t.z_order
    }
}

/// The effective sort key for a tile, applying the drag boost (saturating)
/// when the tile is being dragged.
pub fn effective_tile_z_order(tile: &TileOrderKey) -> (z: u32)
    ensures
        z == effective_z(*tile),
{
    if tile.drag_active {
        tile.z_order.saturating_add(DRAG_Z_ORDER_BOOST)
    } else {
        tile.z_order
    }
}

/// Tile `a` is painted before tile `b` (indices into `ts`): lower effective
/// z-order first, ties kept in their original order.
pub open spec fn painted_before(ts: Seq<TileOrderKey>, a: int, b: int) -> bool {
    effective_z(ts[a]) < effective_z(ts[b]) || (effective_z(ts[a]) == effective_z(ts[b]) && a < b)
}

/// `order` lists every index of `ts` exactly once, back to front.
pub open spec fn is_paint_order(ts: Seq<TileOrderKey>, order: Seq<usize>) -> bool {
    &&& order.len() == ts.len()
    &&& order.no_duplicates()
    &&& forall|i: int| 0 <= i < order.len() ==> #[trigger] order[i] < ts.len()
    &&& forall|i: int, j: int|
        0 <= i < j < order.len() ==> painted_before(ts, #[trigger] order[i] as int, #[trigger] order[j] as int)
}

/// Re-sort tiles by effective z-order (back to front, stable), applying the
/// drag boost to the dragged tile's key. Returns tile indices in paint order;
/// the tiles themselves are unchanged.
pub fn sort_tiles_with_drag_boost(tiles: &[TileOrderKey]) -> (order: Vec<usize>)
    ensures
        is_paint_order(tiles@, order@),
{
    let n = tiles.len();
    let mut order: Vec<usize> = Vec::new();
    let mut k: usize = 0;
    while k < n
        invariant
            n == tiles@.len(),
            0 <= k <= n,
            order@.len() == k,
            order@.no_duplicates(),
            forall|i: int| 0 <= i < order@.len() ==> #[trigger] order@[i] < k,
            forall|i: int, j: int|
                0 <= i < j < order@.len() ==> painted_before(
                    tiles@,
                    #[trigger] order@[i] as int,
                    #[trigger] order@[j] as int,
                ),
        decreases n - k,
    {
        let zk = effective_tile_z_order(&tiles[k]);
        let mut pos: usize = order.len();
        while pos > 0 && zk < effective_tile_z_order(&tiles[order[pos - 1]])
            invariant
                n == tiles@.len(),
                k < n,
                0 <= pos <= order@.len(),
                zk == effective_z(tiles@[k as int]),
                forall|i: int| 0 <= i < order@.len() ==> #[trigger] order@[i] < k,
                forall|i: int|
                    pos <= i < order@.len() ==> effective_z(tiles@[k as int]) < effective_z(
                        tiles@[#[trigger] order@[i] as int],
                    ),
            decreases pos,
        {
            pos = pos - 1;
        }
        let ghost before = order@;
        proof {
            assert forall|i: int| 0 <= i < pos implies painted_before(
                tiles@,
                #[trigger] before[i] as int,
                k as int,
            ) by {
                let p = pos as int - 1;
                assert(!(effective_z(tiles@[k as int]) < effective_z(tiles@[before[p] as int])));
                if i < p {
                    assert(painted_before(tiles@, before[i] as int, before[p] as int));
                }
            }
        }
        order.insert(pos, k);
        assert forall|i: int, j: int|
            0 <= i < j < order@.len() implies painted_before(
            tiles@,
            #[trigger] order@[i] as int,
            #[trigger] order@[j] as int,
        ) by {
            let p = pos as int;
            if j < p {
                assert(order@[i] == before[i] && order@[j] == before[j]);
            } else if j == p {
                assert(order@[i] == before[i]);
            } else if i < p {
                assert(order@[i] == before[i] && order@[j] == before[j - 1]);
            } else if i == p {
                assert(order@[j] == before[j - 1]);
            } else {
                assert(order@[i] == before[i - 1] && order@[j] == before[j - 1]);
            }
        }
        assert(order@.no_duplicates()) by {
            assert forall|i: int, j: int|
                0 <= i < j < order@.len() implies order@[i] != order@[j] by {
                let p = pos as int;
                if i == p || j == p {
                } else {
                    let bi = if i < p { i } else { i - 1 };
                    let bj = if j < p { j } else { j - 1 };
                    assert(order@[i] == before[bi] && order@[j] == before[bj]);
                }
            }
        }
        k = k + 1;
    }
    order
}

/// A dragged tile whose boosted z-order exceeds a resting tile's z-order is
/// painted after (above) it.
pub proof fn law_dragged_tile_painted_above(
    ts: Seq<TileOrderKey>,
    order: Seq<usize>,
    i: int,
    j: int,
)
    requires
        is_paint_order(ts, order),
        0 <= i < order.len(),
        0 <= j < order.len(),
        ts[order[i] as int].drag_active,
        !ts[order[j] as int].drag_active,
        ts[order[i] as int].z_order + DRAG_Z_ORDER_BOOST > ts[order[j] as int].z_order,
        ts[order[j] as int].z_order < u32::MAX,
    ensures
        j < i,
{
    if i < j {
        assert(painted_before(ts, order[i] as int, order[j] as int));
    }
}

} // verus!
