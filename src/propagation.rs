//! Placement propagation: locking tiles, adjacency weights, forced
//! positions and the contradiction scan.

use vstd::prelude::*;
use crate::cache::ViableTilesCache;
use crate::cells::{CellArray, shaped};
use crate::grid::{GridState, cell_limit};
use crate::configuration::ADJACENCY_LEVELS;
use crate::feasibility::{FeasibilityCountLayer, matching_ids};
use crate::grid::{get_region_spans, span_end, span_start};
use crate::selection::{compute_viable_tiles_at_position, inside_grid, patch_at, read_patch, viable_set};
use crate::tiles::{Tile, index_wf, two_pow};
use crate::visualization::{TilePlacement, VisualizationCapture};

verus! {

/// Constant data of a run: the extracted tiles and their membership index.
pub struct StepData {
    /// Total number of distinct colors.
    pub unique_cell_count: usize,
    /// Radius used to grow the grid around a placement.
    pub grid_extension_radius: i32,
    /// All unique tiles extracted from the exemplar (id `k + 1` is entry `k`).
    pub source_tiles: Vec<Tile>,
    /// Membership index: entry `m` lists the tiles covering mask `m`.
    pub tile_compatibility_rules: Vec<Vec<usize>>,
}

impl StepData {
    /// The index belongs to the tiles and every tile value fits an `i32`.
    pub open spec fn wf(&self) -> bool {
        &&& two_pow(self.unique_cell_count as nat) <= usize::MAX
        &&& self.unique_cell_count < 0x7fff_ffff
        &&& index_wf(self.tile_compatibility_rules@, self.source_tiles@, self.unique_cell_count as nat)
        &&& forall|k: int, i: int, j: int|
            0 <= k < self.source_tiles@.len() && 0 <= i < 3 && 0 <= j < 3 ==> #[trigger] self.source_tiles@[k][i][j]
                <= i32::MAX
    }
}

/// A rectangular region of grid indices.
pub struct Region {
    /// Row indices.
    pub rows: std::ops::Range<usize>,
    /// Column indices.
    pub cols: std::ops::Range<usize>,
}

impl Region {
    /// Create a region from row and column ranges.
    pub fn new(rows: std::ops::Range<usize>, cols: std::ops::Range<usize>) -> (r: Self)
        ensures
            r.rows == rows,
            r.cols == cols,
    {
        Region { rows, cols }
    }

    /// The row range.
    pub fn rows(&self) -> (r: std::ops::Range<usize>)
        ensures
            r == self.rows,
    {
        self.rows.start..self.rows.end
    }

    /// The column range.
    pub fn cols(&self) -> (r: std::ops::Range<usize>)
        ensures
            r == self.cols,
    {
        self.cols.start..self.cols.end
    }
}

/// Chebyshev distance between grid indices.
pub open spec fn chebyshev(i: int, j: int, r: int, c: int) -> int {
    let di = if i >= r { i - r } else { r - i };
    let dj = if j >= c { j - c } else { c - j };
    if di >= dj { di } else { dj }
}

/// Total adjacency weight that one placement adds at Chebyshev distance
/// `d`: each level `l` in `1..=2` adds `3 - l` within distance `l`.
pub open spec fn adjacency_gain(d: int) -> int {
    if d <= 1 {
        3
    } else if d == 2 {
        1
    } else {
        0
    }
}

/// `w + g`, saturating at `u32::MAX`.
pub open spec fn raised(w: u32, g: int) -> u32 {
    if w + g > u32::MAX { u32::MAX } else { (w + g) as u32 }
}

/// `w - g`, saturating at 0.
pub open spec fn lowered(w: u32, g: int) -> u32 {
    if w - g < 0 { 0 } else { (w - g) as u32 }
}

/// The weights after adding (`raise`) or removing one placement at `(ci, cj)`.
pub open spec fn weights_after(old: Seq<Seq<u32>>, ci: int, cj: int, raise: bool, i: int, j: int) -> u32 {
    let g = adjacency_gain(chebyshev(i, j, ci, cj));
    if raise { raised(old[i][j], g) } else { lowered(old[i][j], g) }
}

/// Add or remove the adjacency weights of one placement at grid index
/// `(ci, cj)`.
pub(crate) fn adjust_weights(weights: &mut CellArray, rows: usize, cols: usize, ci: i64, cj: i64, raise: bool)
    requires
        shaped(old(weights)@, rows as nat, cols as nat),
        rows <= cell_limit(),
        cols <= cell_limit(),
        -0x1_0000_0000 <= ci <= 0x1_0000_0000,
        -0x1_0000_0000 <= cj <= 0x1_0000_0000,
    ensures
        shaped(final(weights)@, rows as nat, cols as nat),
        forall|i: int, j: int|
            0 <= i < rows && 0 <= j < cols ==> #[trigger] final(weights)@[i][j] == weights_after(
                old(weights)@,
                ci as int,
                cj as int,
                raise,
                i,
                j,
            ),
{
    let ghost before = weights@;
    let r0: i64 = if ci - 2 < 0 { 0 } else { ci - 2 };
    let r1: i64 = if ci + 3 > rows as i64 { rows as i64 } else { ci + 3 };
    let c0: i64 = if cj - 2 < 0 { 0 } else { cj - 2 };
    let c1: i64 = if cj + 3 > cols as i64 { cols as i64 } else { cj + 3 };
    let mut r: i64 = r0;
    while r < r1
        invariant
            shaped(weights@, rows as nat, cols as nat),
            shaped(before, rows as nat, cols as nat),
            0 <= r0 <= r,
            r1 <= rows,
            0 <= c0,
            c1 <= cols,
            r0 == (if ci - 2 < 0 { 0 } else { ci - 2 as int }),
            r1 == (if ci + 3 > rows { rows as int } else { ci + 3 }),
            c0 == (if cj - 2 < 0 { 0 } else { cj - 2 as int }),
            c1 == (if cj + 3 > cols { cols as int } else { cj + 3 }),
            forall|i: int, j: int|
                0 <= i < rows && 0 <= j < cols ==> #[trigger] weights@[i][j] == (if r0 <= i < r && c0 <= j < c1 {
                    weights_after(before, ci as int, cj as int, raise, i, j)
                } else {
                    before[i][j]
                }),
        decreases r1 - r,
    {
        let mut c: i64 = c0;
        while c < c1
            invariant
                shaped(weights@, rows as nat, cols as nat),
                shaped(before, rows as nat, cols as nat),
                0 <= r0 <= r < r1,
                r1 <= rows,
                0 <= c0 <= c,
                c1 <= cols,
                r0 == (if ci - 2 < 0 { 0 } else { ci - 2 as int }),
                r1 == (if ci + 3 > rows { rows as int } else { ci + 3 }),
                c0 == (if cj - 2 < 0 { 0 } else { cj - 2 as int }),
                c1 == (if cj + 3 > cols { cols as int } else { cj + 3 }),
                forall|i: int, j: int|
                    0 <= i < rows && 0 <= j < cols ==> #[trigger] weights@[i][j] == (if (r0 <= i < r && c0 <= j < c1) || (i
                        == r && c0 <= j < c) {
                        weights_after(before, ci as int, cj as int, raise, i, j)
                    } else {
                        before[i][j]
                    }),
            decreases c1 - c,
        {
            let dr = if r >= ci { r - ci } else { ci - r };
            let dc = if c >= cj { c - cj } else { cj - c };
            let d = if dr >= dc { dr } else { dc };
            let gain: u32 = if d <= 1 { 3 } else { 1 };
            let w = weights.get(r as usize, c as usize);
            let updated = if raise { w.saturating_add(gain) } else { w.saturating_sub(gain) };
            weights.set(r as usize, c as usize, updated);
            c = c + 1;
        }
        r = r + 1;
    }
}

/// World coordinates whose grid index is far from overflow.
pub open spec fn index_in_range(coordinates: [i32; 2], offset: [i32; 2]) -> bool {
    &&& -0x7fff_0000 <= coordinates[0] + offset[0] <= 0x7fff_0000
    &&& -0x7fff_0000 <= coordinates[1] + offset[1] <= 0x7fff_0000
}

/// The grid index of a world position lies inside the grid.
pub open spec fn on_grid(g: GridState, p: [i32; 2], offset: [i32; 2]) -> bool {
    &&& 0 <= p[0] + offset[0] < g.rows_spec()
    &&& 0 <= p[1] + offset[1] < g.cols_spec()
}

/// Lock tile value `selected_cell_reference` at a world position and raise
/// the adjacency weights around it (by 3 within distance 1, by 1 at
/// distance 2). A placement inside the grid is recorded for visualization.
pub fn update_grid_state(
    grid_state: &mut GridState,
    selected_cell_reference: usize,
    selection_coordinates: [i32; 2],
    system_offset: [i32; 2],
    visualization: &mut Option<VisualizationCapture>,
    iteration: usize,
)
    requires
        old(grid_state).wf(),
        1 <= selected_cell_reference <= old(grid_state).unique_cell_count,
        index_in_range(selection_coordinates, system_offset),
        on_grid(*old(grid_state), selection_coordinates, system_offset) ==> old(grid_state).locked_tiles@[
            selection_coordinates[0] + system_offset[0]][selection_coordinates[1] + system_offset[1]] == 1,
    ensures
        final(grid_state).wf(),
        final(grid_state).dimensions == old(grid_state).dimensions,
        final(grid_state).unique_cell_count == old(grid_state).unique_cell_count,
        final(grid_state).generation_bounds == old(grid_state).generation_bounds,
        final(grid_state).removal_count@ == old(grid_state).removal_count@,
        forall|i: int, j: int|
            0 <= i < old(grid_state).rows_spec() && 0 <= j < old(grid_state).cols_spec() ==> {
                &&& #[trigger] final(grid_state).adjacency_weights@[i][j] == weights_after(
                    old(grid_state).adjacency_weights@,
                    selection_coordinates[0] + system_offset[0],
                    selection_coordinates[1] + system_offset[1],
                    true,
                    i,
                    j,
                )
                &&& final(grid_state).adjacency_weights@[i][j] >= old(grid_state).adjacency_weights@[i][j]
                &&& final(grid_state).locked_tiles@[i][j] == (if i == selection_coordinates[0] + system_offset[0] && j
                    == selection_coordinates[1] + system_offset[1] {
                    old(grid_state).locked_tiles@[i][j] + selected_cell_reference
                } else {
                    old(grid_state).locked_tiles@[i][j] as int
                })
            },
        old(visualization).is_none() ==> final(visualization).is_none(),
        old(visualization).is_some() ==> final(visualization).is_some() && final(visualization).unwrap().events() == (
        if on_grid(*old(grid_state), selection_coordinates, system_offset) {
            old(visualization).unwrap().events().push(
                TilePlacement {
                    row: selection_coordinates[0],
                    col: selection_coordinates[1],
                    tile_ref: Some((selected_cell_reference + 1) as u32),
                    iteration,
                },
            )
        } else {
            old(visualization).unwrap().events()
        }),
{
    let ci = selection_coordinates[0] as i64 + system_offset[0] as i64;
    let cj = selection_coordinates[1] as i64 + system_offset[1] as i64;
    let rows = grid_state.rows();
    let cols = grid_state.cols();
    adjust_weights(&mut grid_state.adjacency_weights, rows, cols, ci, cj, true);
    if 0 <= ci && ci < rows as i64 && 0 <= cj && cj < cols as i64 {
        let locked = grid_state.locked_tiles.get(ci as usize, cj as usize);
        let value = locked + selected_cell_reference as u32;
        let ghost before = grid_state.locked_tiles@;
        grid_state.locked_tiles.set(ci as usize, cj as usize, value);
        proof {
            assert forall|i: int, j: int|
                0 <= i < grid_state.rows_spec() && 0 <= j < grid_state.cols_spec() implies 1
                    <= #[trigger] grid_state.locked_tiles@[i][j] <= grid_state.unique_cell_count + 1 by {
                if i != ci || j != cj {
                    assert(grid_state.locked_tiles@[i][j] == before[i][j]);
                }
            }
        }
        if visualization.is_some() {
            let mut viz = visualization.take().unwrap();
            viz.record_placement(selection_coordinates[0], selection_coordinates[1], value, iteration);
            *visualization = Some(viz);
        }
    }
}

/// A position whose viable set has exactly one value.
#[derive(Debug, Clone, Copy)]
pub struct ForcedPosition {
    /// World coordinates of the position.
    pub coordinates: [i32; 2],
    /// The single viable value.
    pub tile_reference: usize,
}

/// A position that forced detection examines: inside the bounds (if any),
/// inside the grid and not placed.
pub open spec fn open_cell(g: GridState, p: [i32; 2], offset: [i32; 2]) -> bool {
    &&& (g.generation_bounds.is_some() ==> g.generation_bounds.unwrap().contains_spec(p))
    &&& inside_grid(g, p, offset)
    &&& g.locked_tiles@[p[0] + offset[0]][p[1] + offset[1]] <= 1
}

/// `q` is one of the eight neighbours of `p`.
pub open spec fn is_neighbour(p: [i32; 2], q: [i32; 2]) -> bool {
    &&& -1 <= q[0] - p[0] <= 1
    &&& -1 <= q[1] - p[1] <= 1
    &&& q != p
}

/// `a` comes before `b` in row-major order.
pub open spec fn scan_before(a: [i32; 2], b: [i32; 2]) -> bool {
    a[0] < b[0] || (a[0] == b[0] && a[1] < b[1])
}

/// Only `v` is viable at `q`.
pub open spec fn forced_to(g: GridState, q: [i32; 2], offset: [i32; 2], data: StepData, v: int) -> bool {
    viable_set(g, q, offset, data) == set![v]
}

/// A sorted list whose elements are exactly the members of `{v}` is `[v]`.
proof fn lemma_single(r: Seq<usize>, s: Set<int>)
    requires
        forall|k: int| 0 <= k < r.len() ==> s.contains(r[k] as int),
        forall|v: usize| s.contains(v as int) ==> r.contains(v),
        forall|a: int, b: int| 0 <= a < b < r.len() ==> r[a] < r[b],
        forall|v: int| s.contains(v) ==> 1 <= v <= usize::MAX,
    ensures
        r.len() == 1 <==> exists|v: int| s == set![v],
        r.len() == 1 ==> s == set![r[0] as int],
{
    if r.len() == 1 {
        assert forall|v: int| s.contains(v) implies v == r[0] as int by {
            assert(r.contains(v as usize));
        }
        assert(s =~= set![r[0] as int]);
    }
    if exists|v: int| s == set![v] {
        let v = choose|v: int| s == set![v];
        assert(s.contains(v));
        assert(r.contains(v as usize));
        if r.len() > 1 {
            assert(s.contains(r[0] as int));
            assert(s.contains(r[1] as int));
            assert(r[0] < r[1]);
        }
    }
}

/// Values in a viable set are at least 1.
proof fn lemma_viable_positive(g: GridState, q: [i32; 2], offset: [i32; 2], data: StepData, v: int)
    requires
        viable_set(g, q, offset, data).contains(v),
        data.wf(),
    ensures
        1 <= v <= data.unique_cell_count,
{
    reveal(crate::selection::window_values);
    let w = choose|w: int| 0 <= w < 9 && crate::selection::window_ok(q, offset, w);
    assert(crate::selection::window_values(g, q, offset, data, w).contains(v));
}

/// The neighbours of `position` (row-major, skipping the position itself)
/// that are inside the bounds and the grid, not placed, and have exactly
/// one viable value, each with that value.
pub fn detect_forced_positions(
    grid_state: &GridState,
    position: [i32; 2],
    system_offset: [i32; 2],
    step_data: &StepData,
    cache: &mut ViableTilesCache,
) -> (r: Vec<ForcedPosition>)
    requires
        grid_state.wf(),
        step_data.wf(),
        old(cache).sound(*step_data),
        i32::MIN + 2 < position[0] < i32::MAX - 2,
        i32::MIN + 2 < position[1] < i32::MAX - 2,
        index_in_range(position, system_offset),
    ensures
        final(cache).sound(*step_data),
        forall|k: int|
            0 <= k < r.len() ==> {
                &&& is_neighbour(position, #[trigger] r@[k].coordinates)
                &&& open_cell(*grid_state, r@[k].coordinates, system_offset)
                &&& forced_to(*grid_state, r@[k].coordinates, system_offset, *step_data, r@[k].tile_reference as int)
            },
        forall|q: [i32; 2], v: int|
            is_neighbour(position, q) && open_cell(*grid_state, q, system_offset) && forced_to(
                *grid_state,
                q,
                system_offset,
                *step_data,
                v,
            ) ==> exists|k: int| 0 <= k < r.len() && (#[trigger] r@[k]).coordinates == q,
        forall|a: int, b: int| 0 <= a < b < r.len() ==> scan_before(r@[a].coordinates, r@[b].coordinates),
{
    let mut forced: Vec<ForcedPosition> = Vec::new();
    let mut di: i32 = -1;
    while di <= 1
        invariant
            grid_state.wf(),
            step_data.wf(),
            cache.sound(*step_data),
            -1 <= di <= 2,
            i32::MIN + 2 < position[0] < i32::MAX - 2,
            i32::MIN + 2 < position[1] < i32::MAX - 2,
            index_in_range(position, system_offset),
            forall|k: int|
                0 <= k < forced.len() ==> {
                    &&& is_neighbour(position, #[trigger] forced@[k].coordinates)
                    &&& open_cell(*grid_state, forced@[k].coordinates, system_offset)
                    &&& forced_to(*grid_state, forced@[k].coordinates, system_offset, *step_data, forced@[k].tile_reference as int)
                },
            forall|q: [i32; 2], v: int|
                is_neighbour(position, q) && q[0] - position[0] < di && open_cell(*grid_state, q, system_offset) && forced_to(
                    *grid_state,
                    q,
                    system_offset,
                    *step_data,
                    v,
                ) ==> exists|k: int| 0 <= k < forced.len() && (#[trigger] forced@[k]).coordinates == q,
            forall|a: int, b: int| 0 <= a < b < forced.len() ==> scan_before(forced@[a].coordinates, forced@[b].coordinates),
            forall|k: int| 0 <= k < forced.len() ==> (#[trigger] forced@[k]).coordinates[0] - position[0] < di,
        decreases 2 - di,
    {
        let mut dj: i32 = -1;
        while dj <= 1
            invariant
                grid_state.wf(),
                step_data.wf(),
                cache.sound(*step_data),
                -1 <= di <= 1,
                -1 <= dj <= 2,
                i32::MIN + 2 < position[0] < i32::MAX - 2,
                i32::MIN + 2 < position[1] < i32::MAX - 2,
                index_in_range(position, system_offset),
                forall|k: int|
                    0 <= k < forced.len() ==> {
                        &&& is_neighbour(position, #[trigger] forced@[k].coordinates)
                        &&& open_cell(*grid_state, forced@[k].coordinates, system_offset)
                        &&& forced_to(*grid_state, forced@[k].coordinates, system_offset, *step_data, forced@[k].tile_reference as int)
                    },
                forall|q: [i32; 2], v: int|
                    is_neighbour(position, q) && (q[0] - position[0] < di || (q[0] - position[0] == di && q[1]
                        - position[1] < dj)) && open_cell(*grid_state, q, system_offset) && forced_to(
                        *grid_state,
                        q,
                        system_offset,
                        *step_data,
                        v,
                    ) ==> exists|k: int| 0 <= k < forced.len() && (#[trigger] forced@[k]).coordinates == q,
                forall|a: int, b: int| 0 <= a < b < forced.len() ==> scan_before(forced@[a].coordinates, forced@[b].coordinates),
                forall|k: int|
                    0 <= k < forced.len() ==> (#[trigger] forced@[k]).coordinates[0] - position[0] < di || (
                    forced@[k].coordinates[0] - position[0] == di && forced@[k].coordinates[1] - position[1] < dj),
            decreases 2 - dj,
        {
            let check_pos: [i32; 2] = [position[0] + di, position[1] + dj];
            let ghost before = forced@;
            let in_bounds = match &grid_state.generation_bounds {
                Some(bounds) => bounds.contains(check_pos),
                None => true,
            };
            let row = check_pos[0] as i64 + system_offset[0] as i64;
            let col = check_pos[1] as i64 + system_offset[1] as i64;
            let mut eligible = !(di == 0 && dj == 0) && in_bounds && 0 <= row && row < grid_state.rows() as i64
                && 0 <= col && col < grid_state.cols() as i64;
            if eligible {
                eligible = grid_state.locked_tiles.get(row as usize, col as usize) <= 1;
            }
            proof {
                if di == 0 && dj == 0 {
                    assert(check_pos =~= position);
                }
                if check_pos == position {
                    assert(check_pos[0] == position[0]);
                    assert(check_pos[1] == position[1]);
                }
            }
            assert(eligible == (is_neighbour(position, check_pos) && open_cell(*grid_state, check_pos, system_offset)));
            if eligible {
                let viable = compute_viable_tiles_at_position(
                    grid_state,
                    check_pos,
                    system_offset,
                    step_data,
                    cache,
                );
                proof {
                    let s = viable_set(*grid_state, check_pos, system_offset, *step_data);
                    assert forall|v: int| s.contains(v) implies 1 <= v <= usize::MAX by {
                        lemma_viable_positive(*grid_state, check_pos, system_offset, *step_data, v);
                    }
                    lemma_single(viable@, s);
                }
                if viable.len() == 1 {
                    let ghost prior = forced@;
                    forced.push(ForcedPosition { coordinates: check_pos, tile_reference: viable[0] });
                    proof {
                        assert(forced@[forced.len() - 1].coordinates == check_pos);
                        assert forall|a: int, b: int| 0 <= a < b < forced.len() implies scan_before(
                            forced@[a].coordinates,
                            forced@[b].coordinates,
                        ) by {
                            assert(forced@[a] == prior[a]);
                            if b < prior.len() {
                                assert(forced@[b] == prior[b]);
                            }
                        }
                    }
                } else {
                    assert(forall|v: int| !forced_to(*grid_state, check_pos, system_offset, *step_data, v));
                }
            }
            proof {
                assert forall|k: int| 0 <= k < before.len() implies forced@[k] == before[k] by {}
                assert forall|k: int| 0 <= k < forced.len() implies (#[trigger] forced@[k]).coordinates[0] - position[0]
                    < di || (forced@[k].coordinates[0] - position[0] == di && forced@[k].coordinates[1] - position[1]
                    < dj + 1) by {
                    if k >= before.len() {
                        assert(forced@[k].coordinates == check_pos);
                    }
                }
                assert forall|q: [i32; 2], v: int|
                    is_neighbour(position, q) && (q[0] - position[0] < di || (q[0] - position[0] == di && q[1]
                        - position[1] < dj + 1)) && open_cell(*grid_state, q, system_offset) && forced_to(
                        *grid_state,
                        q,
                        system_offset,
                        *step_data,
                        v,
                    ) implies exists|k: int| 0 <= k < forced.len() && (#[trigger] forced@[k]).coordinates == q by {
                    if q[0] - position[0] == di && q[1] - position[1] == dj {
                        assert(q =~= check_pos);
                        assert(forced.len() == before.len() + 1);
                        assert(forced@[forced.len() - 1].coordinates == q);
                    } else {
                        let k = choose|k: int| 0 <= k < before.len() && (#[trigger] before[k]).coordinates == q;
                        assert(forced@[k] == before[k]);
                    }
                }
            }
            dj = dj + 1;
        }
        di = di + 1;
    }
    forced
}

/// The queue after offering `p`: appended unless its coordinates are queued.
pub open spec fn offer(q: Seq<ForcedPosition>, p: ForcedPosition) -> Seq<ForcedPosition> {
    if exists|k: int| 0 <= k < q.len() && (#[trigger] q[k]).coordinates == p.coordinates {
        q
    } else {
        q.push(p)
    }
}

/// The queue after offering each of `ps` in order.
pub open spec fn offer_all(q: Seq<ForcedPosition>, ps: Seq<ForcedPosition>) -> Seq<ForcedPosition>
    decreases ps.len(),
{
    if ps.len() == 0 {
        q
    } else {
        offer(offer_all(q, ps.drop_last()), ps.last())
    }
}

/// No two queued entries share coordinates.
pub open spec fn distinct_coordinates(q: Seq<ForcedPosition>) -> bool {
    forall|a: int, b: int| 0 <= a < b < q.len() ==> q[a].coordinates != q[b].coordinates
}

/// Integer key of a world position, one to one.
pub open spec fn coordinate_key(c: [i32; 2]) -> int {
    (c[0] + 0x8000_0000) * 0x1_0000_0000 + (c[1] + 0x8000_0000)
}

proof fn lemma_coordinate_key_injective(a: [i32; 2], b: [i32; 2])
    requires
        coordinate_key(a) == coordinate_key(b),
    ensures
        a == b,
{
    let a0 = a[0] + 0x8000_0000;
    let a1 = a[1] + 0x8000_0000;
    let b0 = b[0] + 0x8000_0000;
    let b1 = b[1] + 0x8000_0000;
    assert(a0 == b0 && a1 == b1) by (nonlinear_arith)
        requires
            a0 * 0x1_0000_0000 + a1 == b0 * 0x1_0000_0000 + b1,
            0 <= a1 < 0x1_0000_0000,
            0 <= b1 < 0x1_0000_0000,
            0 <= a0,
            0 <= b0,
    ;
    assert(a =~= b);
}

fn key_of(c: [i32; 2]) -> (r: u64)
    ensures
        r == coordinate_key(c),
{
    let hi = (c[0] as i64 + 0x8000_0000) as u64;
    let lo = (c[1] as i64 + 0x8000_0000) as u64;
    assert(hi * 0x1_0000_0000 + lo <= 0xffff_ffff * 0x1_0000_0000 + 0xffff_ffff) by (nonlinear_arith)
        requires
            hi <= 0xffff_ffff,
            lo <= 0xffff_ffff,
    ;
    hi * 0x1_0000_0000 + lo
}

/// Queue of positions with exactly one viable value, first offered first.
#[derive(Debug)]
pub struct ForcedPipeline {
    /// Queued positions.
    pub queue: std::collections::VecDeque<ForcedPosition>,
    queued: std::collections::HashSet<u64>,
}

impl ForcedPipeline {
    /// The queued positions, front first.
    pub closed spec fn view(&self) -> Seq<ForcedPosition> {
        self.queue@
    }

    /// No two queued positions share coordinates, and the key set holds
    /// exactly the keys of the queued coordinates.
    pub closed spec fn wf(&self) -> bool {
        &&& distinct_coordinates(self.queue@)
        &&& forall|e: u64|
            self.queued@.contains(e) <==> exists|k: int|
                0 <= k < self.queue@.len() && coordinate_key((#[trigger] self.queue@[k]).coordinates) == e
    }

    /// Create an empty pipeline.
    pub fn new() -> (r: Self)
        ensures
            r@.len() == 0,
            r.wf(),
    {
        ForcedPipeline { queue: std::collections::VecDeque::new(), queued: std::collections::HashSet::new() }
    }

    /// Offer each position in order; one whose coordinates are already
    /// queued is skipped (the first offer wins).
    pub fn add_positions(&mut self, positions: Vec<ForcedPosition>)
        requires
            old(self).wf(),
        ensures
            final(self).wf(),
            final(self)@ == offer_all(old(self)@, positions@),
    {
        let ghost start = self.queue@;
        let mut i: usize = 0;
        while i < positions.len()
            invariant
                i <= positions.len(),
                self.wf(),
                self.queue@ == offer_all(start, positions@.take(i as int)),
            decreases positions.len() - i,
        {
            let pos = positions[i];
            let key = key_of(pos.coordinates);
            let present = self.queued.contains(&key);
            proof {
                assert(positions@.take(i + 1).drop_last() =~= positions@.take(i as int));
                assert(positions@.take(i + 1).last() == pos);
                if present {
                    let k = choose|k: int|
                        0 <= k < self.queue@.len() && coordinate_key((#[trigger] self.queue@[k]).coordinates) == key;
                    lemma_coordinate_key_injective(self.queue@[k].coordinates, pos.coordinates);
                } else {
                    assert forall|k: int| 0 <= k < self.queue@.len() implies (#[trigger] self.queue@[k]).coordinates
                        != pos.coordinates by {
                        if self.queue@[k].coordinates == pos.coordinates {
                            assert(self.queued@.contains(key));
                        }
                    }
                }
            }
            if !present {
                let ghost before = self.queue@;
                self.queue.push_back(pos);
                self.queued.insert(key);
                proof {
                    assert(self.queue@ == before.push(pos));
                    assert forall|e: u64|
                        self.queued@.contains(e) <==> exists|k: int|
                            0 <= k < self.queue@.len() && coordinate_key((#[trigger] self.queue@[k]).coordinates) == e by {
                        if e == key {
                            assert(self.queue@[before.len() as int] == pos);
                        }
                        if exists|k: int| 0 <= k < self.queue@.len() && coordinate_key((#[trigger] self.queue@[k]).coordinates) == e {
                            let k = choose|k: int|
                                0 <= k < self.queue@.len() && coordinate_key((#[trigger] self.queue@[k]).coordinates) == e;
                            if k < before.len() {
                                assert(self.queue@[k] == before[k]);
                            }
                        }
                        if e != key && self.queued@.contains(e) {
                            let k = choose|k: int|
                                0 <= k < before.len() && coordinate_key((#[trigger] before[k]).coordinates) == e;
                            assert(self.queue@[k] == before[k]);
                        }
                    }
                    assert forall|a: int, b: int| 0 <= a < b < self.queue@.len() implies self.queue@[a].coordinates
                        != self.queue@[b].coordinates by {
                        assert(self.queue@[a] == before[a]);
                        if b < before.len() {
                            assert(self.queue@[b] == before[b]);
                        }
                    }
                }
            }
            i = i + 1;
        }
        assert(positions@.take(positions.len() as int) =~= positions@);
    }

    /// Remove and return the front position.
    pub fn take_next(&mut self) -> (r: Option<ForcedPosition>)
        requires
            old(self).wf(),
        ensures
            final(self).wf(),
            old(self)@.len() == 0 ==> r.is_none() && final(self)@ == old(self)@,
            old(self)@.len() > 0 ==> r == Some(old(self)@[0]) && final(self)@ == old(self)@.drop_first(),
    {
        let ghost before = self.queue@;
        let r = self.queue.pop_front();
        match r {
            Some(p) => {
                let key = key_of(p.coordinates);
                self.queued.remove(&key);
                proof {
                    assert(p == before[0]);
                    assert forall|e: u64|
                        self.queued@.contains(e) <==> exists|k: int|
                            0 <= k < self.queue@.len() && coordinate_key((#[trigger] self.queue@[k]).coordinates) == e by {
                        if exists|k: int| 0 <= k < self.queue@.len() && coordinate_key((#[trigger] self.queue@[k]).coordinates) == e {
                            let k = choose|k: int|
                                0 <= k < self.queue@.len() && coordinate_key((#[trigger] self.queue@[k]).coordinates) == e;
                            assert(self.queue@[k] == before[k + 1]);
                            if e == key {
                                lemma_coordinate_key_injective(before[k + 1].coordinates, before[0].coordinates);
                            }
                            assert(coordinate_key(before[k + 1].coordinates) == e);
                        }
                        if self.queued@.contains(e) {
                            let k = choose|k: int| 0 <= k < before.len() && coordinate_key((#[trigger] before[k]).coordinates) == e;
                            assert(k != 0);
                            assert(self.queue@[k - 1] == before[k]);
                        }
                    }
                    assert forall|a: int, b: int| 0 <= a < b < self.queue@.len() implies self.queue@[a].coordinates
                        != self.queue@[b].coordinates by {
                        assert(self.queue@[a] == before[a + 1]);
                        assert(self.queue@[b] == before[b + 1]);
                    }
                }
            },
            None => {},
        }
        r
    }

    /// Whether nothing is queued.
    pub fn is_empty(&self) -> (r: bool)
        ensures
            r == (self@.len() == 0),
    {
        self.queue.len() == 0
    }

    /// Number of queued positions.
    pub fn len(&self) -> (r: usize)
        ensures
            r == self@.len(),
    {
        self.queue.len()
    }
}

/// Cell `(i, j)` is unplaced, next to a placement, and has no viable value.
pub open spec fn contradiction_at(g: GridState, offset: [i32; 2], data: StepData, i: int, j: int) -> bool {
    &&& g.locked_tiles@[i][j] <= 1
    &&& g.adjacency_weights@[i][j] > 1
    &&& viable_set(g, [(i - offset[0]) as i32, (j - offset[1]) as i32], offset, data) == Set::<int>::empty()
}

/// Offsets that keep every grid index's world coordinate well inside `i32`.
pub open spec fn offset_ok(offset: [i32; 2]) -> bool {
    &&& 0 <= offset[0] <= cell_limit()
    &&& 0 <= offset[1] <= cell_limit()
}

/// The first cell in row-major order that is a contradiction, if any.
pub fn check_for_contradiction(
    grid_state: &GridState,
    system_offset: [i32; 2],
    step_data: &StepData,
    cache: &mut ViableTilesCache,
) -> (r: Option<[usize; 2]>)
    requires
        grid_state.wf(),
        step_data.wf(),
        old(cache).sound(*step_data),
        offset_ok(system_offset),
    ensures
        final(cache).sound(*step_data),
        r.is_none() ==> forall|i: int, j: int|
            0 <= i < grid_state.rows_spec() && 0 <= j < grid_state.cols_spec() ==> !contradiction_at(
                *grid_state,
                system_offset,
                *step_data,
                i,
                j,
            ),
        r.is_some() ==> {
            let c = r.unwrap();
            &&& c[0] < grid_state.rows_spec()
            &&& c[1] < grid_state.cols_spec()
            &&& contradiction_at(*grid_state, system_offset, *step_data, c[0] as int, c[1] as int)
            &&& forall|i: int, j: int|
                0 <= i < grid_state.rows_spec() && 0 <= j < grid_state.cols_spec() && (i < c[0] || (i == c[0]
                    && j < c[1])) ==> !contradiction_at(*grid_state, system_offset, *step_data, i, j)
        },
{
    let rows = grid_state.rows();
    let cols = grid_state.cols();
    let mut i: usize = 0;
    while i < rows
        invariant
            grid_state.wf(),
            step_data.wf(),
            cache.sound(*step_data),
            offset_ok(system_offset),
            rows == grid_state.rows_spec(),
            cols == grid_state.cols_spec(),
            i <= rows,
            forall|a: int, b: int|
                0 <= a < i && 0 <= b < cols ==> !contradiction_at(*grid_state, system_offset, *step_data, a, b),
        decreases rows - i,
    {
        let mut j: usize = 0;
        while j < cols
            invariant
                grid_state.wf(),
                step_data.wf(),
                cache.sound(*step_data),
                offset_ok(system_offset),
                rows == grid_state.rows_spec(),
                cols == grid_state.cols_spec(),
                i < rows,
                j <= cols,
                forall|a: int, b: int|
                    ((0 <= a < i && 0 <= b < cols) || (a == i && 0 <= b < j)) ==> !contradiction_at(
                        *grid_state,
                        system_offset,
                        *step_data,
                        a,
                        b,
                    ),
            decreases cols - j,
        {
            if grid_state.locked_tiles.get(i, j) <= 1 && grid_state.adjacency_weights.get(i, j) > 1 {
                let coords: [i32; 2] = [
                    (i as i64 - system_offset[0] as i64) as i32,
                    (j as i64 - system_offset[1] as i64) as i32,
                ];
                let viable = compute_viable_tiles_at_position(
                    grid_state,
                    coords,
                    system_offset,
                    step_data,
                    cache,
                );
                proof {
                    assert(coords == [(i - system_offset[0]) as i32, (j - system_offset[1]) as i32]);
                }
                if viable.len() == 0 {
                    proof {
                        assert(viable_set(*grid_state, coords, system_offset, *step_data) =~= Set::<int>::empty()) by {
                            assert forall|v: int| !viable_set(*grid_state, coords, system_offset, *step_data).contains(v) by {
                                if viable_set(*grid_state, coords, system_offset, *step_data).contains(v) {
                                    lemma_viable_positive(*grid_state, coords, system_offset, *step_data, v);
                                    assert(viable@.contains(v as usize));
                                }
                            }
                        }
                    }
                    return Some([i, j]);
                } else {
                    proof {
                        assert(viable_set(*grid_state, coords, system_offset, *step_data).contains(viable@[0] as int));
                    }
                }
            }
            j = j + 1;
        }
        i = i + 1;
    }
    None
}

/// The count layer after refreshing every window whose top-left index lies
/// in the square of `radius` around grid index `(ci, cj)`.
pub open spec fn refreshed_counts(
    g: GridState,
    old_counts: Seq<Seq<u32>>,
    data: StepData,
    ci: int,
    cj: int,
    radius: int,
    i: int,
    j: int,
) -> u32 {
    if span_start(ci, radius) <= i < span_end(ci, radius) && span_start(cj, radius) <= j < span_end(cj, radius)
        && i + 2 < g.rows_spec() && j + 2 < g.cols_spec() {
        matching_ids(
            patch_at(g.locked_tiles@, g.rows_spec() as int, g.cols_spec() as int, i, j),
            data.source_tiles@,
        ).len() as u32
    } else {
        old_counts[i][j]
    }
}

/// Refresh the tile counts of the windows whose top-left index lies within
/// `radius` of the world position `coordinates`.
pub(crate) fn refresh_counts(
    grid_state: &GridState,
    feasibility_layer: &mut FeasibilityCountLayer,
    coordinates: [i32; 2],
    system_offset: [i32; 2],
    radius: i32,
    step_data: &StepData,
)
    requires
        grid_state.wf(),
        step_data.wf(),
        step_data.source_tiles@.len() <= u32::MAX,
        shaped(old(feasibility_layer)@, grid_state.rows_spec(), grid_state.cols_spec()),
        index_in_range(coordinates, system_offset),
        0 <= radius <= 16,
    ensures
        shaped(final(feasibility_layer)@, grid_state.rows_spec(), grid_state.cols_spec()),
        final(feasibility_layer).total() == old(feasibility_layer).total(),
        forall|i: int, j: int|
            0 <= i < grid_state.rows_spec() && 0 <= j < grid_state.cols_spec() ==> #[trigger] final(feasibility_layer)@[i][j] == refreshed_counts(
                *grid_state,
                old(feasibility_layer)@,
                *step_data,
                coordinates[0] + system_offset[0],
                coordinates[1] + system_offset[1],
                radius as int,
                i,
                j,
            ),
{
    let ghost before = feasibility_layer@;
    let ghost ci = coordinates[0] + system_offset[0];
    let ghost cj = coordinates[1] + system_offset[1];
    let rows = grid_state.rows();
    let cols = grid_state.cols();
    let (row_span, col_span) = get_region_spans(&system_offset, &coordinates, radius);
    let mut sr: usize = row_span.start;
    while sr < row_span.end
        invariant
            grid_state.wf(),
            step_data.wf(),
            step_data.source_tiles@.len() <= u32::MAX,
            rows == grid_state.rows_spec(),
            cols == grid_state.cols_spec(),
            shaped(feasibility_layer@, rows as nat, cols as nat),
            shaped(before, rows as nat, cols as nat),
            feasibility_layer.total() == old(feasibility_layer).total(),
            row_span.start == span_start(ci, radius as int),
            row_span.end == span_end(ci, radius as int),
            col_span.start == span_start(cj, radius as int),
            col_span.end == span_end(cj, radius as int),
            row_span.start <= sr,
            row_span.end <= 0x8000_0000,
            col_span.end <= 0x8000_0000,
            forall|i: int, j: int|
                0 <= i < rows && 0 <= j < cols ==> #[trigger] feasibility_layer@[i][j] == (if i < sr {
                    refreshed_counts(*grid_state, before, *step_data, ci, cj, radius as int, i, j)
                } else {
                    before[i][j]
                }),
        decreases row_span.end - sr,
    {
        let mut sc: usize = col_span.start;
        while sc < col_span.end
            invariant
                grid_state.wf(),
                step_data.wf(),
                step_data.source_tiles@.len() <= u32::MAX,
                rows == grid_state.rows_spec(),
                cols == grid_state.cols_spec(),
                shaped(feasibility_layer@, rows as nat, cols as nat),
                shaped(before, rows as nat, cols as nat),
                feasibility_layer.total() == old(feasibility_layer).total(),
                row_span.start == span_start(ci, radius as int),
                row_span.end == span_end(ci, radius as int),
                col_span.start == span_start(cj, radius as int),
                col_span.end == span_end(cj, radius as int),
                row_span.start <= sr < row_span.end,
                col_span.start <= sc,
                row_span.end <= 0x8000_0000,
                col_span.end <= 0x8000_0000,
                forall|i: int, j: int|
                    0 <= i < rows && 0 <= j < cols ==> #[trigger] feasibility_layer@[i][j] == (if i < sr || (i == sr && j
                        < sc) {
                        refreshed_counts(*grid_state, before, *step_data, ci, cj, radius as int, i, j)
                    } else {
                        before[i][j]
                    }),
            decreases col_span.end - sc,
        {
            if sr + 2 < rows && sc + 2 < cols {
                let pattern = read_patch(grid_state, sr, sc);
                feasibility_layer.update_count(
                    rows,
                    cols,
                    sr,
                    sc,
                    &pattern,
                    &step_data.source_tiles,
                    &step_data.tile_compatibility_rules,
                    step_data.unique_cell_count,
                );
            }
            sc = sc + 1;
        }
        sr = sr + 1;
    }
}

/// Refresh the tile counts of the windows within `ADJACENCY_LEVELS` of a
/// placement at the world position `selection_coordinates`.
pub fn update_feasibility_counts(
    grid_state: &GridState,
    feasibility_layer: &mut FeasibilityCountLayer,
    selection_coordinates: [i32; 2],
    system_offset: [i32; 2],
    step_data: &StepData,
)
    requires
        grid_state.wf(),
        step_data.wf(),
        step_data.source_tiles@.len() <= u32::MAX,
        shaped(old(feasibility_layer)@, grid_state.rows_spec(), grid_state.cols_spec()),
        index_in_range(selection_coordinates, system_offset),
    ensures
        shaped(final(feasibility_layer)@, grid_state.rows_spec(), grid_state.cols_spec()),
        final(feasibility_layer).total() == old(feasibility_layer).total(),
        forall|i: int, j: int|
            0 <= i < grid_state.rows_spec() && 0 <= j < grid_state.cols_spec() ==> #[trigger] final(feasibility_layer)@[i][j] == refreshed_counts(
                *grid_state,
                old(feasibility_layer)@,
                *step_data,
                selection_coordinates[0] + system_offset[0],
                selection_coordinates[1] + system_offset[1],
                ADJACENCY_LEVELS as int,
                i,
                j,
            ),
{
    refresh_counts(
        grid_state,
        feasibility_layer,
        selection_coordinates,
        system_offset,
        ADJACENCY_LEVELS as i32,
        step_data,
    );
}

} // verus!
