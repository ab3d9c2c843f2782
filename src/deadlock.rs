//! Deadlock repair: clearing placements around a contradiction, with a
//! radius that grows each time the same cell deadlocks again.

use vstd::prelude::*;
use crate::cells::shaped;
use crate::configuration::{ADJACENCY_LEVELS, BASE_REMOVAL_RADIUS, MAX_REMOVAL_RADIUS};
use crate::feasibility::FeasibilityCountLayer;
use crate::grid::{GridState, MAX_REMOVAL_COUNT};
use crate::propagation::{
    StepData, adjust_weights, chebyshev, offset_ok, refresh_counts, refreshed_counts,
    weights_after,
};
use crate::visualization::{TilePlacement, VisualizationCapture};

verus! {

/// What a deadlock repair removed.
#[derive(Debug)]
pub struct DeadlockResolutionResult {
    /// Number of placements removed.
    pub tiles_unlocked: usize,
    /// Grid indices of the removed placements, row-major.
    pub unlocked_positions: Vec<[usize; 2]>,
    /// Tile value that each removed placement held.
    pub unlocked_tiles: Vec<u32>,
    /// Chebyshev radius that was cleared.
    pub removal_radius: i32,
}

/// Weights after removing, in order, one placement at each of `cells`.
pub open spec fn lowered_all(w: Seq<Seq<u32>>, rows: nat, cols: nat, cells: Seq<[usize; 2]>) -> Seq<Seq<u32>>
    decreases cells.len(),
{
    if cells.len() == 0 {
        w
    } else {
        let prev = lowered_all(w, rows, cols, cells.drop_last());
        let c = cells.last();
        Seq::new(rows, |i: int| Seq::new(cols, |j: int| weights_after(prev, c[0] as int, c[1] as int, false, i, j)))
    }
}

/// Tally after taking one off the entry of each tile value (value `t` at
/// entry `t - 1`, when present), saturating at 0.
pub open spec fn tally_after(t: Seq<usize>, tiles: Seq<u32>) -> Seq<usize>
    decreases tiles.len(),
{
    if tiles.len() == 0 {
        t
    } else {
        let prev = tally_after(t, tiles.drop_last());
        let v = tiles.last();
        if 1 <= v && v - 1 < prev.len() {
            prev.update(v - 1, if prev[v - 1] == 0 { 0usize } else { (prev[v - 1] - 1) as usize })
        } else {
            prev
        }
    }
}

/// Removal events for the given grid indices.
pub open spec fn removal_events(cells: Seq<[usize; 2]>, offset: [i32; 2], iteration: usize) -> Seq<TilePlacement> {
    cells.map_values(
        |c: [usize; 2]|
            TilePlacement {
                row: (c[0] - offset[0]) as i32,
                col: (c[1] - offset[1]) as i32,
                tile_ref: None,
                iteration,
            },
    )
}

/// Row-major order on grid indices.
pub open spec fn before_in_scan(a: [usize; 2], b: [usize; 2]) -> bool {
    a[0] < b[0] || (a[0] == b[0] && a[1] < b[1])
}

/// Collect the placed cells within `radius` of `(ci, cj)`, row-major.
fn placed_cells_near(grid_state: &GridState, ci: usize, cj: usize, radius: usize) -> (r: (Vec<[usize; 2]>, Vec<u32>))
    requires
        grid_state.wf(),
        ci < grid_state.rows_spec(),
        cj < grid_state.cols_spec(),
        radius <= 255,
    ensures
        r.0.len() == r.1.len(),
        forall|a: int, b: int| 0 <= a < b < r.0.len() ==> before_in_scan(r.0@[a], r.0@[b]),
        forall|k: int|
            0 <= k < r.0.len() ==> {
                let c = #[trigger] r.0@[k];
                &&& c[0] < grid_state.rows_spec()
                &&& c[1] < grid_state.cols_spec()
                &&& chebyshev(c[0] as int, c[1] as int, ci as int, cj as int) <= radius
                &&& grid_state.locked_tiles@[c[0] as int][c[1] as int] >= 2
                &&& r.1@[k] == grid_state.locked_tiles@[c[0] as int][c[1] as int] - 1
            },
        forall|i: int, j: int|
            0 <= i < grid_state.rows_spec() && 0 <= j < grid_state.cols_spec() && chebyshev(i, j, ci as int, cj as int)
                <= radius && grid_state.locked_tiles@[i][j] >= 2 ==> exists|k: int|
                0 <= k < r.0.len() && #[trigger] r.0@[k] == [i as usize, j as usize],
{
    let rows = grid_state.rows();
    let cols = grid_state.cols();
    let r0: usize = if ci >= radius { ci - radius } else { 0 };
    let r1: usize = if ci + radius + 1 < rows { ci + radius + 1 } else { rows };
    let c0: usize = if cj >= radius { cj - radius } else { 0 };
    let c1: usize = if cj + radius + 1 < cols { cj + radius + 1 } else { cols };
    let mut cells: Vec<[usize; 2]> = Vec::new();
    let mut values: Vec<u32> = Vec::new();
    let mut i: usize = r0;
    while i < r1
        invariant
            grid_state.wf(),
            rows == grid_state.rows_spec(),
            cols == grid_state.cols_spec(),
            r0 <= i,
            r1 <= rows,
            c1 <= cols,
            r0 == (if ci >= radius { ci - radius } else { 0 }),
            r1 == (if ci + radius + 1 < rows { ci + radius + 1 } else { rows as int }),
            c0 == (if cj >= radius { cj - radius } else { 0 }),
            c1 == (if cj + radius + 1 < cols { cj + radius + 1 } else { cols as int }),
            cells.len() == values.len(),
            forall|k: int| 0 <= k < cells.len() ==> (#[trigger] cells@[k])[0] < i,
            forall|a: int, b: int| 0 <= a < b < cells.len() ==> before_in_scan(cells@[a], cells@[b]),
            forall|k: int|
                0 <= k < cells.len() ==> {
                    let c = #[trigger] cells@[k];
                    &&& c[0] < rows
                    &&& c[1] < cols
                    &&& chebyshev(c[0] as int, c[1] as int, ci as int, cj as int) <= radius
                    &&& grid_state.locked_tiles@[c[0] as int][c[1] as int] >= 2
                    &&& values@[k] == grid_state.locked_tiles@[c[0] as int][c[1] as int] - 1
                },
            forall|a: int, b: int|
                0 <= a < i && 0 <= b < cols && chebyshev(a, b, ci as int, cj as int) <= radius
                    && grid_state.locked_tiles@[a][b] >= 2 ==> exists|k: int|
                    0 <= k < cells.len() && #[trigger] cells@[k] == [a as usize, b as usize],
        decreases r1 - i,
    {
        let mut j: usize = c0;
        while j < c1
            invariant
                grid_state.wf(),
                rows == grid_state.rows_spec(),
                cols == grid_state.cols_spec(),
                r0 <= i < r1,
                r1 <= rows,
                c0 <= j,
                c1 <= cols,
                r0 == (if ci >= radius { ci - radius } else { 0 }),
                r1 == (if ci + radius + 1 < rows { ci + radius + 1 } else { rows as int }),
                c0 == (if cj >= radius { cj - radius } else { 0 }),
                c1 == (if cj + radius + 1 < cols { cj + radius + 1 } else { cols as int }),
                cells.len() == values.len(),
                forall|k: int| 0 <= k < cells.len() ==> before_in_scan(#[trigger] cells@[k], [i, j]),
                forall|a: int, b: int| 0 <= a < b < cells.len() ==> before_in_scan(cells@[a], cells@[b]),
                forall|k: int|
                    0 <= k < cells.len() ==> {
                        let c = #[trigger] cells@[k];
                        &&& c[0] < rows
                        &&& c[1] < cols
                        &&& chebyshev(c[0] as int, c[1] as int, ci as int, cj as int) <= radius
                        &&& grid_state.locked_tiles@[c[0] as int][c[1] as int] >= 2
                        &&& values@[k] == grid_state.locked_tiles@[c[0] as int][c[1] as int] - 1
                    },
                forall|a: int, b: int|
                    ((0 <= a < i && 0 <= b < cols) || (a == i && 0 <= b < j)) && chebyshev(a, b, ci as int, cj as int)
                        <= radius && grid_state.locked_tiles@[a][b] >= 2 ==> exists|k: int|
                        0 <= k < cells.len() && #[trigger] cells@[k] == [a as usize, b as usize],
            decreases c1 - j,
        {
            let locked = grid_state.locked_tiles.get(i, j);
            if locked > 1 {
                let ghost prev = cells@;
                cells.push([i, j]);
                values.push(locked - 1);
                proof {
                    assert forall|a: int, b: int|
                        ((0 <= a < i && 0 <= b < cols) || (a == i && 0 <= b < j + 1)) && chebyshev(a, b, ci as int, cj as int)
                            <= radius && grid_state.locked_tiles@[a][b] >= 2 implies exists|k: int|
                            0 <= k < cells.len() && #[trigger] cells@[k] == [a as usize, b as usize] by {
                        if a == i && b == j {
                            assert(cells@[cells.len() - 1] == [a as usize, b as usize]);
                        } else {
                            let k = choose|k: int| 0 <= k < prev.len() && #[trigger] prev[k] == [a as usize, b as usize];
                            assert(cells@[k] == prev[k]);
                        }
                    }
                }
            }
            proof {
                assert forall|k: int| 0 <= k < cells.len() implies before_in_scan(#[trigger] cells@[k], [i, (j + 1) as usize]) by {}
            }
            j = j + 1;
        }
        proof {
            assert forall|a: int, b: int|
                0 <= a < i + 1 && 0 <= b < cols && chebyshev(a, b, ci as int, cj as int) <= radius
                    && grid_state.locked_tiles@[a][b] >= 2 implies exists|k: int|
                    0 <= k < cells.len() && #[trigger] cells@[k] == [a as usize, b as usize] by {
                if a == i && !(b < j) {
                    assert(b >= c1 || b < c0);
                }
            }
        }
        i = i + 1;
    }
    (cells, values)
}

/// Repair a deadlock at grid index `contradiction_pos`: count one more
/// removal there (saturating at 255), clear every placement within
/// `min(count, MAX_REMOVAL_RADIUS)` of it (its cell back to empty, its tally
/// entry down by one, its adjacency weights taken back), and refresh the
/// tile counts of the windows within `ADJACENCY_LEVELS + 1` beyond that
/// radius.
pub fn resolve_spatial_deadlock(
    grid_state: &mut GridState,
    feasibility_layer: &mut FeasibilityCountLayer,
    contradiction_pos: [usize; 2],
    system_offset: [i32; 2],
    selection_tally: &mut Vec<usize>,
    step_data: &StepData,
    visualization: &mut Option<VisualizationCapture>,
    iteration: usize,
) -> (r: DeadlockResolutionResult)
    requires
        old(grid_state).wf(),
        step_data.wf(),
        step_data.source_tiles@.len() <= u32::MAX,
        shaped(old(feasibility_layer)@, old(grid_state).rows_spec(), old(grid_state).cols_spec()),
        contradiction_pos[0] < old(grid_state).rows_spec(),
        contradiction_pos[1] < old(grid_state).cols_spec(),
        offset_ok(system_offset),
    ensures
        final(grid_state).wf(),
        final(grid_state).dimensions == old(grid_state).dimensions,
        final(grid_state).unique_cell_count == old(grid_state).unique_cell_count,
        final(grid_state).generation_bounds == old(grid_state).generation_bounds,
        ({
            let cp = contradiction_pos;
            let old_count = old(grid_state).removal_count@[cp[0] as int][cp[1] as int];
            let new_count = if old_count >= MAX_REMOVAL_COUNT { MAX_REMOVAL_COUNT } else { (old_count + 1) as u32 };
            &&& final(grid_state).removal_count@ == old(grid_state).removal_count@.update(
                cp[0] as int,
                old(grid_state).removal_count@[cp[0] as int].update(cp[1] as int, new_count),
            )
            &&& r.removal_radius == (if BASE_REMOVAL_RADIUS + new_count < MAX_REMOVAL_RADIUS {
                BASE_REMOVAL_RADIUS + new_count
            } else {
                MAX_REMOVAL_RADIUS as int
            })
        }),
        r.tiles_unlocked == r.unlocked_positions.len(),
        r.unlocked_tiles.len() == r.unlocked_positions.len(),
        forall|a: int, b: int|
            0 <= a < b < r.unlocked_positions.len() ==> before_in_scan(r.unlocked_positions@[a], r.unlocked_positions@[b]),
        forall|k: int|
            0 <= k < r.unlocked_positions.len() ==> {
                let c = #[trigger] r.unlocked_positions@[k];
                &&& c[0] < old(grid_state).rows_spec()
                &&& c[1] < old(grid_state).cols_spec()
                &&& chebyshev(c[0] as int, c[1] as int, contradiction_pos[0] as int, contradiction_pos[1] as int)
                    <= r.removal_radius
                &&& old(grid_state).locked_tiles@[c[0] as int][c[1] as int] >= 2
                &&& r.unlocked_tiles@[k] == old(grid_state).locked_tiles@[c[0] as int][c[1] as int] - 1
            },
        forall|i: int, j: int|
            0 <= i < old(grid_state).rows_spec() && 0 <= j < old(grid_state).cols_spec() ==> {
                let cleared = chebyshev(i, j, contradiction_pos[0] as int, contradiction_pos[1] as int) <= r.removal_radius
                    && old(grid_state).locked_tiles@[i][j] >= 2;
                &&& cleared ==> exists|k: int|
                    0 <= k < r.unlocked_positions.len() && #[trigger] r.unlocked_positions@[k] == [i as usize, j as usize]
                &&& #[trigger] final(grid_state).locked_tiles@[i][j] == (if cleared {
                    1
                } else {
                    old(grid_state).locked_tiles@[i][j]
                })
            },
        final(grid_state).adjacency_weights@ == lowered_all(
            old(grid_state).adjacency_weights@,
            old(grid_state).rows_spec(),
            old(grid_state).cols_spec(),
            r.unlocked_positions@,
        ),
        final(selection_tally)@ == tally_after(old(selection_tally)@, r.unlocked_tiles@),
        shaped(final(feasibility_layer)@, old(grid_state).rows_spec(), old(grid_state).cols_spec()),
        final(feasibility_layer).total() == old(feasibility_layer).total(),
        forall|i: int, j: int|
            0 <= i < old(grid_state).rows_spec() && 0 <= j < old(grid_state).cols_spec() ==> #[trigger] final(feasibility_layer)@[i][j]
                == refreshed_counts(
                *final(grid_state),
                old(feasibility_layer)@,
                *step_data,
                contradiction_pos[0] as int,
                contradiction_pos[1] as int,
                ADJACENCY_LEVELS + 1 + r.removal_radius,
                i,
                j,
            ),
        old(visualization).is_none() ==> final(visualization).is_none(),
        old(visualization).is_some() ==> final(visualization).is_some() && final(visualization).unwrap().events()
            == old(visualization).unwrap().events() + removal_events(r.unlocked_positions@, system_offset, iteration),
{
    let ci = contradiction_pos[0];
    let cj = contradiction_pos[1];
    let count = grid_state.removal_count.get(ci, cj);
    let new_count: u32 = if count >= MAX_REMOVAL_COUNT { MAX_REMOVAL_COUNT } else { count + 1 };
    let ghost old_removal = grid_state.removal_count@;
    grid_state.removal_count.set(ci, cj, new_count);
    proof {
        assert forall|i: int, j: int|
            0 <= i < grid_state.rows_spec() && 0 <= j < grid_state.cols_spec() implies #[trigger] grid_state.removal_count@[i][j]
                <= MAX_REMOVAL_COUNT by {
            if i != ci || j != cj {
                assert(grid_state.removal_count@[i][j] == old_removal[i][j]);
            }
        }
    }
    let radius: i32 = if BASE_REMOVAL_RADIUS + (new_count as i32) < MAX_REMOVAL_RADIUS {
        BASE_REMOVAL_RADIUS + new_count as i32
    } else {
        MAX_REMOVAL_RADIUS
    };
    let (cells, values) = placed_cells_near(grid_state, ci, cj, radius as usize);
    let ghost g0 = *grid_state;
    let ghost tally0 = selection_tally@;
    let ghost viz0 = *visualization;
    let rows = grid_state.rows();
    let cols = grid_state.cols();
    let mut k: usize = 0;
    while k < cells.len()
        invariant
            grid_state.wf(),
            grid_state.dimensions == g0.dimensions,
            grid_state.unique_cell_count == g0.unique_cell_count,
            grid_state.generation_bounds == g0.generation_bounds,
            grid_state.removal_count@ == g0.removal_count@,
            rows == g0.rows_spec(),
            cols == g0.cols_spec(),
            offset_ok(system_offset),
            k <= cells.len(),
            cells.len() == values.len(),
            forall|a: int, b: int| 0 <= a < b < cells.len() ==> before_in_scan(cells@[a], cells@[b]),
            forall|x: int|
                0 <= x < cells.len() ==> {
                    let c = #[trigger] cells@[x];
                    &&& c[0] < rows
                    &&& c[1] < cols
                    &&& g0.locked_tiles@[c[0] as int][c[1] as int] >= 2
                },
            forall|i: int, j: int|
                0 <= i < rows && 0 <= j < cols ==> #[trigger] grid_state.locked_tiles@[i][j] == (if exists|x: int|
                    0 <= x < k && cells@[x] == [i as usize, j as usize] {
                    1
                } else {
                    g0.locked_tiles@[i][j]
                }),
            grid_state.adjacency_weights@ == lowered_all(g0.adjacency_weights@, rows as nat, cols as nat, cells@.take(k as int)),
            selection_tally@ == tally_after(tally0, values@.take(k as int)),
            viz0.is_none() ==> visualization.is_none(),
            viz0.is_some() ==> visualization.is_some() && visualization.unwrap().events() == viz0.unwrap().events()
                + removal_events(cells@.take(k as int), system_offset, iteration),
        decreases cells.len() - k,
    {
        let c = cells[k];
        let tile = values[k];
        let ghost locked_before = grid_state.locked_tiles@;
        grid_state.locked_tiles.set(c[0], c[1], 1);
        proof {
            assert forall|i: int, j: int|
                0 <= i < rows && 0 <= j < cols implies #[trigger] grid_state.locked_tiles@[i][j] == (if exists|x: int|
                    0 <= x < k + 1 && cells@[x] == [i as usize, j as usize] {
                    1
                } else {
                    g0.locked_tiles@[i][j]
                }) by {
                if i == c[0] && j == c[1] {
                    assert(cells@[k as int] == [i as usize, j as usize]);
                } else {
                    assert(grid_state.locked_tiles@[i][j] == locked_before[i][j]);
                    if exists|x: int| 0 <= x < k + 1 && cells@[x] == [i as usize, j as usize] {
                        let x = choose|x: int| 0 <= x < k + 1 && cells@[x] == [i as usize, j as usize];
                        if x == k {
                            assert(cells@[x][0] == i && cells@[x][1] == j);
                        }
                    }
                }
            }
        }
        let t = tile as usize;
        if 1 <= t && t - 1 < selection_tally.len() {
            let current = selection_tally[t - 1];
            let lowered = if current == 0 { 0 } else { current - 1 };
            selection_tally.set(t - 1, lowered);
        }
        proof {
            assert(values@.take(k + 1).drop_last() =~= values@.take(k as int));
            assert(cells@.take(k + 1).drop_last() =~= cells@.take(k as int));
        }
        let ghost w_before = grid_state.adjacency_weights@;
        adjust_weights(&mut grid_state.adjacency_weights, rows, cols, c[0] as i64, c[1] as i64, false);
        proof {
            let want = lowered_all(g0.adjacency_weights@, rows as nat, cols as nat, cells@.take(k + 1));
            assert forall|i: int| 0 <= i < rows implies grid_state.adjacency_weights@[i] =~= want[i] by {}
            assert(grid_state.adjacency_weights@ =~= want);
        }
        if visualization.is_some() {
            let mut viz = visualization.take().unwrap();
            viz.record_removal(
                (c[0] as i64 - system_offset[0] as i64) as i32,
                (c[1] as i64 - system_offset[1] as i64) as i32,
                iteration,
            );
            *visualization = Some(viz);
            proof {
                assert(removal_events(cells@.take(k + 1), system_offset, iteration) =~= removal_events(
                    cells@.take(k as int),
                    system_offset,
                    iteration,
                ).push(TilePlacement {
                    row: (c[0] - system_offset[0]) as i32,
                    col: (c[1] - system_offset[1]) as i32,
                    tile_ref: None,
                    iteration,
                }));
            }
        }
        k = k + 1;
    }
    proof {
        assert(cells@.take(cells.len() as int) =~= cells@);
        assert(values@.take(values.len() as int) =~= values@);
    }
    let coords: [i32; 2] = [(ci as i64 - system_offset[0] as i64) as i32, (cj as i64 - system_offset[1] as i64) as i32];
    refresh_counts(
        grid_state,
        feasibility_layer,
        coords,
        system_offset,
        ADJACENCY_LEVELS as i32 + 1 + radius,
        step_data,
    );
    let n = cells.len();
    DeadlockResolutionResult { tiles_unlocked: n, unlocked_positions: cells, unlocked_tiles: values, removal_radius: radius }
}

} // verus!
