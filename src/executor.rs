//! Decisions of the iteration state machine that need no random draw:
//! completion, the prefill and forced sources, re-queueing protected cells,
//! bounds, and which cells position selection may pick.

use vstd::prelude::*;
use crate::cells::shaped;
use crate::grid::{BoundingBox, GridState};
use crate::prefill::{PrefillData, PrefillPlacement, protected_tile};
use crate::propagation::{ForcedPipeline, ForcedPosition};

verus! {

/// Parameters of tile extraction and selection.
#[derive(Clone, Copy, Debug)]
pub struct AlgorithmConfig {
    /// Number of top candidates kept for the final draw.
    pub candidates_considered: usize,
    /// Number of top adjacency candidates.
    pub adjacency_candidates_considered: usize,
    /// Maximum distance of pattern influence.
    pub pattern_influence_distance: usize,
    /// Radius for grid extension.
    pub grid_extension_radius: usize,
    /// Size of extracted tiles (3).
    pub tile_size: usize,
    /// Whether to add rotated tiles.
    pub include_rotations: bool,
    /// Whether to add reflected tiles.
    pub include_reflections: bool,
    /// Optional generation bounds (width, height) centred at the origin.
    pub bounds: Option<(usize, usize)>,
}

/// The bounds of a `width` by `height` area centred at the origin: it holds
/// exactly `width` rows and `height` columns, starting at `-(width / 2)` and
/// `-(height / 2)`.
pub fn generation_bounds_for(width: usize, height: usize) -> (r: BoundingBox)
    requires
        width <= i32::MAX,
        height <= i32::MAX,
    ensures
        r.min[0] == -((width / 2) as int),
        r.min[1] == -((height / 2) as int),
        r.max[0] == width - width / 2 - 1,
        r.max[1] == height - height / 2 - 1,
        r.max[0] - r.min[0] + 1 == width,
        r.max[1] - r.min[1] + 1 == height,
{
    let half_width = (width / 2) as i32;
    let half_height = (height / 2) as i32;
    let max_row = (width - width / 2) as i32 - 1;
    let max_col = (height - height / 2) as i32 - 1;
    BoundingBox { min: [-half_width, -half_height], max: [max_row, max_col] }
}

/// Sum of a tally.
pub open spec fn tally_sum(t: Seq<usize>) -> int
    decreases t.len(),
{
    if t.len() == 0 {
        0
    } else {
        tally_sum(t.drop_last()) + t.last()
    }
}

/// Number of cells in a bounding box (0 when it is empty).
pub open spec fn box_area(b: BoundingBox) -> int {
    let w = b.max[0] - b.min[0] + 1;
    let h = b.max[1] - b.min[1] + 1;
    if w <= 0 || h <= 0 { 0 } else { w * h }
}

/// Whether generation is complete: bounds are set and at least as many
/// tiles were placed as the bounds hold.
pub fn check_completion(bounds: &Option<BoundingBox>, selection_tally: &Vec<usize>) -> (r: bool)
    ensures
        r == (bounds.is_some() && tally_sum(selection_tally@) >= box_area(bounds.unwrap())),
{
    match bounds {
        None => false,
        Some(b) => {
            let mut total: u128 = 0;
            let mut k: usize = 0;
            while k < selection_tally.len()
                invariant
                    k <= selection_tally.len(),
                    total == tally_sum(selection_tally@.take(k as int)),
                    total <= k * 0xffff_ffff_ffff_ffff,
                decreases selection_tally.len() - k,
            {
                proof {
                    assert(selection_tally@.take(k + 1).drop_last() =~= selection_tally@.take(k as int));
                    assert(selection_tally@[k as int] <= 0xffff_ffff_ffff_ffff) by {
                        assert(usize::MAX <= 0xffff_ffff_ffff_ffff);
                    }
                    assert(total + selection_tally@[k as int] <= (k + 1) * 0xffff_ffff_ffff_ffff) by (nonlinear_arith)
                        requires total <= k * 0xffff_ffff_ffff_ffff, selection_tally@[k as int] <= 0xffff_ffff_ffff_ffff;
                    assert((k + 1) * 0xffff_ffff_ffff_ffff <= 0x1_0000_0000_0000_0000 * 0xffff_ffff_ffff_ffff) by (nonlinear_arith)
                        requires k + 1 <= 0x1_0000_0000_0000_0000;
                }
                total = total + selection_tally[k] as u128;
                k = k + 1;
            }
            proof {
                assert(selection_tally@.take(k as int) =~= selection_tally@);
            }
            let w: i64 = b.max[0] as i64 - b.min[0] as i64 + 1;
            let h: i64 = b.max[1] as i64 - b.min[1] as i64 + 1;
            let area: u128 = if w <= 0 || h <= 0 {
                0
            } else {
                proof {
                    assert(w * h <= 0x1_0000_0000 * 0x1_0000_0000) by (nonlinear_arith)
                        requires 0 < w <= 0x1_0000_0000, 0 < h <= 0x1_0000_0000;
                }
                (w as u128) * (h as u128)
            };
            total >= area
        },
    }
}

/// A cell that position selection may pick: inside the grid, not placed,
/// and inside the bounds if there are any.
pub open spec fn selectable(g: GridState, i: int, j: int, offset: [i32; 2]) -> bool {
    &&& 0 <= i < g.rows_spec()
    &&& 0 <= j < g.cols_spec()
    &&& g.locked_tiles@[i][j] <= 1
    &&& (g.generation_bounds.is_some() ==> g.generation_bounds.unwrap().contains_spec(
        [(i - offset[0]) as i32, (j - offset[1]) as i32],
    ))
}

/// Validity of a cell for position selection. A placed cell (locked value
/// above 1) is never valid.
pub fn is_selectable(grid_state: &GridState, i: usize, j: usize, system_offset: [i32; 2]) -> (r: bool)
    requires
        grid_state.wf(),
        0 <= system_offset[0] <= 0x7fff_0000,
        0 <= system_offset[1] <= 0x7fff_0000,
    ensures
        r == selectable(*grid_state, i as int, j as int, system_offset),
        r ==> grid_state.locked_tiles@[i as int][j as int] <= 1,
{
    if i >= grid_state.rows() || j >= grid_state.cols() {
        return false;
    }
    if grid_state.locked_tiles.get(i, j) > 1 {
        return false;
    }
    match &grid_state.generation_bounds {
        None => true,
        Some(b) => {
            let world: [i32; 2] = [
                (i as i64 - system_offset[0] as i64) as i32,
                (j as i64 - system_offset[1] as i64) as i32,
            ];
            b.contains(world)
        },
    }
}

/// A queued position that is still open: outside the grid (`outside_ok`)
/// or at an unplaced cell.
pub open spec fn still_open(g: GridState, p: [i32; 2], offset: [i32; 2], outside_ok: bool) -> bool {
    let i = p[0] + offset[0];
    let j = p[1] + offset[1];
    if 0 <= i < g.rows_spec() && 0 <= j < g.cols_spec() {
        g.locked_tiles@[i][j] <= 1
    } else {
        outside_ok
    }
}

fn open_at(grid_state: &GridState, p: [i32; 2], system_offset: [i32; 2], outside_ok: bool) -> (r: bool)
    requires
        grid_state.wf(),
    ensures
        r == still_open(*grid_state, p, system_offset, outside_ok),
{
    let i = p[0] as i64 + system_offset[0] as i64;
    let j = p[1] as i64 + system_offset[1] as i64;
    if 0 <= i && i < grid_state.rows() as i64 && 0 <= j && j < grid_state.cols() as i64 {
        grid_state.locked_tiles.get(i as usize, j as usize) <= 1
    } else {
        outside_ok
    }
}

/// Take prefill placements from the front of the queue until one is still
/// open (an unplaced cell, or outside the grid so the grid will grow).
/// Placements skipped on the way are dropped.
pub fn next_prefill_decision(grid_state: &GridState, prefill: &mut PrefillData, system_offset: [i32; 2]) -> (r: Option<
    PrefillPlacement,
>)
    requires
        grid_state.wf(),
    ensures
        final(prefill).protected_positions@ == old(prefill).protected_positions@,
        final(prefill).bounds == old(prefill).bounds,
        exists|n: int|
            0 <= n <= old(prefill).placement_queue@.len() && final(prefill).placement_queue@
                == old(prefill).placement_queue@.skip(n) && (forall|x: int|
                0 <= x < n - 1 ==> !still_open(*grid_state, #[trigger] old(prefill).placement_queue@[x].world_position, system_offset, true))
                && (r.is_some() ==> n > 0 && r.unwrap() == old(prefill).placement_queue@[n - 1] && still_open(
                *grid_state,
                r.unwrap().world_position,
                system_offset,
                true,
            )) && (r.is_none() ==> n == old(prefill).placement_queue@.len() && forall|x: int|
                0 <= x < n ==> !still_open(*grid_state, #[trigger] old(prefill).placement_queue@[x].world_position, system_offset, true)),
{
    let ghost start = prefill.placement_queue@;
    let ghost mut n: int = 0;
    loop
        invariant
            grid_state.wf(),
            0 <= n <= start.len(),
            prefill.placement_queue@ == start.skip(n),
            prefill.protected_positions@ == old(prefill).protected_positions@,
            prefill.bounds == old(prefill).bounds,
            start == old(prefill).placement_queue@,
            forall|x: int| 0 <= x < n ==> !still_open(*grid_state, #[trigger] start[x].world_position, system_offset, true),
        decreases start.len() - n,
    {
        match prefill.next_placement() {
            None => {
                proof {
                    assert(start.skip(n).len() == 0);
                }
                return None;
            },
            Some(placement) => {
                proof {
                    assert(start.skip(n)[0] == start[n]);
                    assert(start.skip(n).drop_first() =~= start.skip(n + 1));
                    n = n + 1;
                }
                if open_at(grid_state, placement.world_position, system_offset, true) {
                    return Some(placement);
                }
            },
        }
    }
}

/// Take forced positions from the front of the pipeline until one is
/// inside the grid and unplaced. Positions skipped on the way are dropped.
pub fn next_forced_decision(grid_state: &GridState, pipeline: &mut ForcedPipeline, system_offset: [i32; 2]) -> (r:
    Option<ForcedPosition>)
    requires
        grid_state.wf(),
        old(pipeline).wf(),
    ensures
        final(pipeline).wf(),
        exists|n: int|
            0 <= n <= old(pipeline)@.len() && final(pipeline)@ == old(pipeline)@.skip(n) && (forall|x: int|
                0 <= x < n - 1 ==> !still_open(*grid_state, #[trigger] old(pipeline)@[x].coordinates, system_offset, false))
                && (r.is_some() ==> n > 0 && r.unwrap() == old(pipeline)@[n - 1] && still_open(
                *grid_state,
                r.unwrap().coordinates,
                system_offset,
                false,
            )) && (r.is_none() ==> n == old(pipeline)@.len() && forall|x: int|
                0 <= x < n ==> !still_open(*grid_state, #[trigger] old(pipeline)@[x].coordinates, system_offset, false)),
{
    let ghost start = pipeline@;
    let ghost mut n: int = 0;
    loop
        invariant
            grid_state.wf(),
            0 <= n <= start.len(),
            pipeline@ == start.skip(n),
            pipeline.wf(),
            start == old(pipeline)@,
            forall|x: int| 0 <= x < n ==> !still_open(*grid_state, #[trigger] start[x].coordinates, system_offset, false),
        decreases start.len() - n,
    {
        match pipeline.take_next() {
            None => {
                return None;
            },
            Some(forced) => {
                proof {
                    assert(start.skip(n)[0] == start[n]);
                    assert(start.skip(n).drop_first() =~= start.skip(n + 1));
                    n = n + 1;
                }
                if open_at(grid_state, forced.coordinates, system_offset, false) {
                    return Some(forced);
                }
            },
        }
    }
}

/// `p` places a protected position with its protected tile value.
pub open spec fn protected_entry(protected: Seq<([i32; 2], usize)>, p: PrefillPlacement) -> bool {
    exists|k: int| 0 <= k < protected.len() && protected[k] == (p.world_position, p.tile_reference)
}

/// World position of a grid index.
pub open spec fn world_of(cell: [usize; 2], offset: [i32; 2]) -> [i32; 2] {
    [(cell[0] - offset[0]) as i32, (cell[1] - offset[1]) as i32]
}

/// Some protected entry sits at world position `w`.
pub open spec fn is_protected_at(protected: Seq<([i32; 2], usize)>, w: [i32; 2]) -> bool {
    exists|y: int| 0 <= y < protected.len() && (#[trigger] protected[y]).0 == w
}

/// `p` restores the protected tile of one of the given cells.
pub open spec fn restores_one_of(
    protected: Seq<([i32; 2], usize)>,
    cells: Seq<[usize; 2]>,
    offset: [i32; 2],
    p: PrefillPlacement,
) -> bool {
    exists|k: int|
        0 <= k < cells.len() && p.world_position == world_of(#[trigger] cells[k], offset) && protected_tile(
            protected,
            p.world_position,
        ) == Some(p.tile_reference)
}

/// After a deadlock repair, put back at the front of the prefill queue each
/// removed cell that the prefill protects, with its protected tile value.
pub fn requeue_protected(prefill: &mut PrefillData, unlocked_positions: &Vec<[usize; 2]>, system_offset: [i32; 2])
    requires
        forall|k: int|
            0 <= k < unlocked_positions.len() ==> (#[trigger] unlocked_positions@[k])[0] <= 0x7fff_0000
                && unlocked_positions@[k][1] <= 0x7fff_0000,
        0 <= system_offset[0] <= 0x7fff_0000,
        0 <= system_offset[1] <= 0x7fff_0000,
    ensures
        final(prefill).protected_positions@ == old(prefill).protected_positions@,
        final(prefill).bounds == old(prefill).bounds,
        final(prefill).placement_queue@.len() >= old(prefill).placement_queue@.len(),
        final(prefill).placement_queue@.len() <= old(prefill).placement_queue@.len() + unlocked_positions.len(),
        final(prefill).placement_queue@.skip(final(prefill).placement_queue@.len() - old(prefill).placement_queue@.len())
            == old(prefill).placement_queue@,
        forall|x: int|
            0 <= x < final(prefill).placement_queue@.len() - old(prefill).placement_queue@.len() ==> protected_entry(
                old(prefill).protected_positions@,
                #[trigger] final(prefill).placement_queue@[x],
            ),
        forall|x: int|
            0 <= x < final(prefill).placement_queue@.len() - old(prefill).placement_queue@.len() ==> restores_one_of(
                old(prefill).protected_positions@,
                unlocked_positions@,
                system_offset,
                #[trigger] final(prefill).placement_queue@[x],
            ),
        forall|k: int|
            0 <= k < unlocked_positions.len() && is_protected_at(
                old(prefill).protected_positions@,
                world_of(#[trigger] unlocked_positions@[k], system_offset),
            ) ==> exists|x: int|
                0 <= x < final(prefill).placement_queue@.len() - old(prefill).placement_queue@.len()
                    && final(prefill).placement_queue@[x].world_position == world_of(unlocked_positions@[k], system_offset),
{
    let ghost start = prefill.placement_queue@;
    let mut k: usize = 0;
    while k < unlocked_positions.len()
        invariant
            k <= unlocked_positions.len(),
            forall|y: int|
                0 <= y < unlocked_positions.len() ==> (#[trigger] unlocked_positions@[y])[0] <= 0x7fff_0000
                    && unlocked_positions@[y][1] <= 0x7fff_0000,
            0 <= system_offset[0] <= 0x7fff_0000,
            0 <= system_offset[1] <= 0x7fff_0000,
            prefill.protected_positions@ == old(prefill).protected_positions@,
            prefill.bounds == old(prefill).bounds,
            start == old(prefill).placement_queue@,
            start.len() <= prefill.placement_queue@.len() <= start.len() + k,
            prefill.placement_queue@.skip(prefill.placement_queue@.len() - start.len()) == start,
            forall|x: int|
                0 <= x < prefill.placement_queue@.len() - start.len() ==> protected_entry(
                    old(prefill).protected_positions@,
                    #[trigger] prefill.placement_queue@[x],
                ),
            forall|x: int|
                0 <= x < prefill.placement_queue@.len() - start.len() ==> restores_one_of(
                    old(prefill).protected_positions@,
                    unlocked_positions@,
                    system_offset,
                    #[trigger] prefill.placement_queue@[x],
                ),
            forall|y: int|
                0 <= y < k && is_protected_at(
                    old(prefill).protected_positions@,
                    world_of(#[trigger] unlocked_positions@[y], system_offset),
                ) ==> exists|x: int|
                    0 <= x < prefill.placement_queue@.len() - start.len()
                        && prefill.placement_queue@[x].world_position == world_of(unlocked_positions@[y], system_offset),
        decreases unlocked_positions.len() - k,
    {
        let cell = unlocked_positions[k];
        let world: [i32; 2] = [
            (cell[0] as i64 - system_offset[0] as i64) as i32,
            (cell[1] as i64 - system_offset[1] as i64) as i32,
        ];
        assert(world == world_of(cell, system_offset));
        let ghost before_k = prefill.placement_queue@;
        match prefill.is_protected(world) {
            Some(tile_ref) => {
                let ghost before = prefill.placement_queue@;
                let placement = PrefillPlacement { world_position: world, tile_reference: tile_ref };
                proof {
                    let y = choose|y: int|
                        0 <= y < prefill.protected_positions@.len() && (#[trigger] prefill.protected_positions@[y]).0
                            == world && prefill.protected_positions@[y].1 == tile_ref;
                    assert(prefill.protected_positions@[y] == (placement.world_position, placement.tile_reference));
                    assert(protected_entry(old(prefill).protected_positions@, placement));
                }
                prefill.queue_replacement(placement);
                proof {
                    let q = prefill.placement_queue@;
                    assert(q.skip(q.len() - start.len()) =~= before.skip(before.len() - start.len()));
                    assert forall|x: int| 0 <= x < q.len() - start.len() implies protected_entry(
                        old(prefill).protected_positions@,
                        #[trigger] q[x],
                    ) by {
                        if x > 0 {
                            assert(q[x] == before[x - 1]);
                        } else {
                            assert(q[0] == placement);
                        }
                    }
                    assert forall|x: int| 0 <= x < q.len() - start.len() implies restores_one_of(
                        old(prefill).protected_positions@,
                        unlocked_positions@,
                        system_offset,
                        #[trigger] q[x],
                    ) by {
                        if x > 0 {
                            assert(q[x] == before[x - 1]);
                        } else {
                            assert(q[0] == placement);
                            assert(unlocked_positions@[k as int] == cell);
                        }
                    }
                    assert forall|y: int|
                        0 <= y < k + 1 && is_protected_at(
                            old(prefill).protected_positions@,
                            world_of(#[trigger] unlocked_positions@[y], system_offset),
                        ) implies exists|x: int|
                            0 <= x < q.len() - start.len() && q[x].world_position == world_of(
                                unlocked_positions@[y],
                                system_offset,
                            ) by {
                        if y == k {
                            assert(q[0].world_position == world);
                        } else {
                            let x = choose|x: int|
                                0 <= x < before.len() - start.len() && before[x].world_position == world_of(
                                    unlocked_positions@[y],
                                    system_offset,
                                );
                            assert(q[x + 1] == before[x]);
                        }
                    }
                }
            },
            None => {
                proof {
                    assert(!is_protected_at(old(prefill).protected_positions@, world));
                }
            },
        }
        k = k + 1;
    }
}

/// Grow `bounds` to contain `prefill_bounds` when it does not already hold
/// both of its corners; returns whether it grew.
pub fn expand_bounds_for_prefill(bounds: &mut BoundingBox, prefill_bounds: &BoundingBox) -> (r: bool)
    ensures
        r == !(old(bounds).contains_spec(prefill_bounds.min) && old(bounds).contains_spec(prefill_bounds.max)),
        !r ==> *final(bounds) == *old(bounds),
        r ==> final(bounds).min[0] == (if old(bounds).min[0] < prefill_bounds.min[0] { old(bounds).min[0] } else { prefill_bounds.min[0] })
            && final(bounds).min[1] == (if old(bounds).min[1] < prefill_bounds.min[1] { old(bounds).min[1] } else { prefill_bounds.min[1] })
            && final(bounds).max[0] == (if old(bounds).max[0] > prefill_bounds.max[0] { old(bounds).max[0] } else { prefill_bounds.max[0] })
            && final(bounds).max[1] == (if old(bounds).max[1] > prefill_bounds.max[1] { old(bounds).max[1] } else { prefill_bounds.max[1] }),
{
    if bounds.contains(prefill_bounds.min) && bounds.contains(prefill_bounds.max) {
        return false;
    }
    let min0 = if bounds.min[0] < prefill_bounds.min[0] { bounds.min[0] } else { prefill_bounds.min[0] };
    let min1 = if bounds.min[1] < prefill_bounds.min[1] { bounds.min[1] } else { prefill_bounds.min[1] };
    let max0 = if bounds.max[0] > prefill_bounds.max[0] { bounds.max[0] } else { prefill_bounds.max[0] };
    let max1 = if bounds.max[1] > prefill_bounds.max[1] { bounds.max[1] } else { prefill_bounds.max[1] };
    *bounds = BoundingBox { min: [min0, min1], max: [max0, max1] };
    true
}

/// Count one more placement of tile value `tile` (entry `tile - 1`),
/// saturating; values outside the tally are ignored.
pub fn record_tally(selection_tally: &mut Vec<usize>, tile: usize)
    ensures
        final(selection_tally)@ == (if 1 <= tile && tile - 1 < old(selection_tally)@.len() {
            old(selection_tally)@.update(
                tile - 1,
                if old(selection_tally)@[tile - 1] == usize::MAX { usize::MAX } else { (old(selection_tally)@[tile - 1] + 1) as usize },
            )
        } else {
            old(selection_tally)@
        }),
{
    if 1 <= tile && tile - 1 < selection_tally.len() {
        let v = selection_tally[tile - 1];
        let nv = if v == usize::MAX { usize::MAX } else { v + 1 };
        selection_tally.set(tile - 1, nv);
    }
}

/// Number of placed cells (value above 1) in a row.
pub open spec fn row_placed(row: Seq<u32>) -> int
    decreases row.len(),
{
    if row.len() == 0 {
        0
    } else {
        row_placed(row.drop_last()) + if row.last() > 1 { 1int } else { 0int }
    }
}

/// Number of placed cells (value above 1) in a field.
pub open spec fn placed_count(cells: Seq<Seq<u32>>) -> int
    decreases cells.len(),
{
    if cells.len() == 0 {
        0
    } else {
        placed_count(cells.drop_last()) + row_placed(cells.last())
    }
}

proof fn lemma_row_update(row: Seq<u32>, j: int, v: u32)
    requires
        0 <= j < row.len(),
    ensures
        row_placed(row.update(j, v)) == row_placed(row) - (if row[j] > 1 { 1int } else { 0int }) + (if v > 1 {
            1int
        } else {
            0int
        }),
    decreases row.len(),
{
    if j == row.len() - 1 {
        assert(row.update(j, v).drop_last() =~= row.drop_last());
    } else {
        assert(row.update(j, v).drop_last() =~= row.drop_last().update(j, v));
        lemma_row_update(row.drop_last(), j, v);
    }
}

proof fn lemma_cells_update(cells: Seq<Seq<u32>>, i: int, row: Seq<u32>)
    requires
        0 <= i < cells.len(),
    ensures
        placed_count(cells.update(i, row)) == placed_count(cells) - row_placed(cells[i]) + row_placed(row),
    decreases cells.len(),
{
    if i == cells.len() - 1 {
        assert(cells.update(i, row).drop_last() =~= cells.drop_last());
    } else {
        assert(cells.update(i, row).drop_last() =~= cells.drop_last().update(i, row));
        lemma_cells_update(cells.drop_last(), i, row);
    }
}

proof fn lemma_tally_bump(t: Seq<usize>, k: int)
    requires
        0 <= k < t.len(),
        t[k] < usize::MAX,
    ensures
        tally_sum(t.update(k, (t[k] + 1) as usize)) == tally_sum(t) + 1,
    decreases t.len(),
{
    if k == t.len() - 1 {
        assert(t.update(k, (t[k] + 1) as usize).drop_last() =~= t.drop_last());
    } else {
        assert(t.update(k, (t[k] + 1) as usize).drop_last() =~= t.drop_last().update(k, (t[k] + 1) as usize));
        lemma_tally_bump(t.drop_last(), k);
    }
}

/// Tally conservation across one placement: when the tally total equals
/// the number of placed cells, placing tile value `tile` on an empty cell
/// (as `update_grid_state` does) and counting it (as `record_tally` does)
/// keeps the two equal.
pub proof fn lemma_placement_keeps_tally_total(
    old_cells: Seq<Seq<u32>>,
    new_cells: Seq<Seq<u32>>,
    rows: nat,
    cols: nat,
    old_tally: Seq<usize>,
    new_tally: Seq<usize>,
    i: int,
    j: int,
    tile: usize,
)
    requires
        placed_count(old_cells) == tally_sum(old_tally),
        shaped(old_cells, rows, cols),
        shaped(new_cells, rows, cols),
        0 <= i < rows,
        0 <= j < cols,
        old_cells[i][j] == 1,
        1 <= tile,
        tile - 1 < old_tally.len(),
        old_tally[tile - 1] < usize::MAX,
        forall|a: int, b: int|
            0 <= a < rows && 0 <= b < cols ==> new_cells[a][b] == (if a == i && b == j {
                old_cells[a][b] + tile
            } else {
                old_cells[a][b] as int
            }),
        new_tally == old_tally.update(tile - 1, (old_tally[tile - 1] + 1) as usize),
    ensures
        placed_count(new_cells) == tally_sum(new_tally),
{
    let v = new_cells[i][j];
    let row = old_cells[i].update(j, v);
    assert forall|a: int| 0 <= a < rows implies new_cells[a] =~= old_cells.update(i, row)[a] by {}
    assert(new_cells =~= old_cells.update(i, row));
    lemma_row_update(old_cells[i], j, v);
    lemma_cells_update(old_cells, i, row);
    lemma_tally_bump(old_tally, tile - 1);
}

} // verus!
