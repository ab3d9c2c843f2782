//! Per-color tally conservation: the tally entry of each color equals the
//! number of cells holding it, across placements and deadlock repairs.

use vstd::prelude::*;
use crate::cells::shaped;
use crate::deadlock::{before_in_scan, tally_after};
use crate::executor::{placed_count, row_placed, tally_sum};

verus! {

/// Number of cells of a row that hold `v`.
pub open spec fn row_count(row: Seq<u32>, v: int) -> int
    decreases row.len(),
{
    if row.len() == 0 {
        0
    } else {
        row_count(row.drop_last(), v) + if row.last() == v { 1int } else { 0int }
    }
}

/// Number of cells of a field that hold `v`.
pub open spec fn value_count(cells: Seq<Seq<u32>>, v: int) -> int
    decreases cells.len(),
{
    if cells.len() == 0 {
        0
    } else {
        value_count(cells.drop_last(), v) + row_count(cells.last(), v)
    }
}

/// Tally entry `c` counts the cells holding tile value `c + 1` (stored as `c + 2`).
pub open spec fn tally_matches(cells: Seq<Seq<u32>>, tally: Seq<usize>) -> bool {
    forall|c: int| 0 <= c < tally.len() ==> #[trigger] tally[c] == value_count(cells, c + 2)
}

proof fn lemma_row_count_update(row: Seq<u32>, j: int, w: u32, v: int)
    requires
        0 <= j < row.len(),
    ensures
        row_count(row.update(j, w), v) == row_count(row, v) - (if row[j] == v { 1int } else { 0int }) + (if w == v {
            1int
        } else {
            0int
        }),
    decreases row.len(),
{
    if j == row.len() - 1 {
        assert(row.update(j, w).drop_last() =~= row.drop_last());
    } else {
        assert(row.update(j, w).drop_last() =~= row.drop_last().update(j, w));
        lemma_row_count_update(row.drop_last(), j, w, v);
    }
}

proof fn lemma_value_count_update(cells: Seq<Seq<u32>>, i: int, j: int, w: u32, v: int)
    requires
        0 <= i < cells.len(),
        0 <= j < cells[i].len(),
    ensures
        value_count(cells.update(i, cells[i].update(j, w)), v) == value_count(cells, v) - (if cells[i][j] == v {
            1int
        } else {
            0int
        }) + (if w == v { 1int } else { 0int }),
    decreases cells.len(),
{
    let row = cells[i].update(j, w);
    lemma_row_count_update(cells[i], j, w, v);
    if i == cells.len() - 1 {
        assert(cells.update(i, row).drop_last() =~= cells.drop_last());
    } else {
        assert(cells.update(i, row).drop_last() =~= cells.drop_last().update(i, row));
        lemma_value_count_update(cells.drop_last(), i, j, w, v);
    }
}

proof fn lemma_row_count_nonneg(row: Seq<u32>, v: int)
    ensures
        row_count(row, v) >= 0,
    decreases row.len(),
{
    if row.len() > 0 {
        lemma_row_count_nonneg(row.drop_last(), v);
    }
}

proof fn lemma_value_count_nonneg(cells: Seq<Seq<u32>>, v: int)
    ensures
        value_count(cells, v) >= 0,
    decreases cells.len(),
{
    if cells.len() > 0 {
        lemma_value_count_nonneg(cells.drop_last(), v);
        lemma_row_count_nonneg(cells.last(), v);
    }
}

/// Per-color tally conservation across one placement: placing tile value
/// `tile` on an empty cell (as `update_grid_state` does) and counting it
/// (as `record_tally` does) keeps every tally entry equal to the number of
/// cells holding its color.
pub proof fn lemma_placement_keeps_tally(
    old_cells: Seq<Seq<u32>>,
    new_cells: Seq<Seq<u32>>,
    rows: nat,
    cols: nat,
    old_tally: Seq<usize>,
    new_tally: Seq<usize>,
    i: int,
    j: int,
    tile: usize,
)
    requires
        tally_matches(old_cells, old_tally),
        shaped(old_cells, rows, cols),
        shaped(new_cells, rows, cols),
        0 <= i < rows,
        0 <= j < cols,
        old_cells[i][j] == 1,
        1 <= tile,
        tile + 1 <= u32::MAX,
        tile - 1 < old_tally.len(),
        old_tally[tile - 1] < usize::MAX,
        forall|a: int, b: int|
            0 <= a < rows && 0 <= b < cols ==> new_cells[a][b] == (if a == i && b == j {
                old_cells[a][b] + tile
            } else {
                old_cells[a][b] as int
            }),
        new_tally == old_tally.update(tile - 1, (old_tally[tile - 1] + 1) as usize),
    ensures
        tally_matches(new_cells, new_tally),
{
    let w = (tile + 1) as u32;
    assert forall|a: int| 0 <= a < rows implies new_cells[a] =~= old_cells.update(i, old_cells[i].update(j, w))[a] by {}
    assert(new_cells =~= old_cells.update(i, old_cells[i].update(j, w)));
    assert forall|c: int| 0 <= c < new_tally.len() implies #[trigger] new_tally[c] == value_count(new_cells, c + 2) by {
        lemma_value_count_update(old_cells, i, j, w, c + 2);
        assert(old_tally[c] == value_count(old_cells, c + 2));
    }
}

/// The field with every listed cell set to 1 (empty), in order.
pub open spec fn cleared(cells: Seq<Seq<u32>>, positions: Seq<[usize; 2]>) -> Seq<Seq<u32>>
    decreases positions.len(),
{
    if positions.len() == 0 {
        cells
    } else {
        let m = cleared(cells, positions.drop_last());
        let p = positions.last();
        if p[0] < m.len() && p[1] < m[p[0] as int].len() {
            m.update(p[0] as int, m[p[0] as int].update(p[1] as int, 1u32))
        } else {
            m
        }
    }
}

proof fn lemma_cleared_cells(cells: Seq<Seq<u32>>, rows: nat, cols: nat, positions: Seq<[usize; 2]>)
    requires
        shaped(cells, rows, cols),
        rows <= usize::MAX,
        cols <= usize::MAX,
    ensures
        shaped(cleared(cells, positions), rows, cols),
        forall|a: int, b: int|
            0 <= a < rows && 0 <= b < cols ==> #[trigger] cleared(cells, positions)[a][b] == (if exists|k: int|
                0 <= k < positions.len() && positions[k] == [a as usize, b as usize] {
                1u32
            } else {
                cells[a][b]
            }),
    decreases positions.len(),
{
    if positions.len() > 0 {
        let prev = positions.drop_last();
        lemma_cleared_cells(cells, rows, cols, prev);
        let p = positions.last();
        assert forall|a: int, b: int|
            0 <= a < rows && 0 <= b < cols implies #[trigger] cleared(cells, positions)[a][b] == (if exists|k: int|
                0 <= k < positions.len() && positions[k] == [a as usize, b as usize] {
                1u32
            } else {
                cells[a][b]
            }) by {
            if exists|k: int| 0 <= k < prev.len() && prev[k] == [a as usize, b as usize] {
                let k = choose|k: int| 0 <= k < prev.len() && prev[k] == [a as usize, b as usize];
                assert(positions[k] == prev[k]);
            }
            if exists|k: int| 0 <= k < positions.len() && positions[k] == [a as usize, b as usize] {
                let k = choose|k: int| 0 <= k < positions.len() && positions[k] == [a as usize, b as usize];
                if k < prev.len() {
                    assert(prev[k] == positions[k]);
                } else {
                    let q: [usize; 2] = [a as usize, b as usize];
                    assert(q[0] == a as usize && q[1] == b as usize);
                    assert(positions[k] == p);
                }
            }
            if a == p[0] && b == p[1] {
                assert(positions[positions.len() - 1] == [a as usize, b as usize]);
            }
        }
    }
}

/// Per-color tally conservation across a deadlock repair: clearing the
/// listed placed cells (as `resolve_spatial_deadlock` does, each with the
/// tile value it held) and taking each off the tally keeps every tally
/// entry equal to the number of cells holding its color.
pub proof fn lemma_repair_keeps_tally(
    old_cells: Seq<Seq<u32>>,
    new_cells: Seq<Seq<u32>>,
    rows: nat,
    cols: nat,
    old_tally: Seq<usize>,
    new_tally: Seq<usize>,
    positions: Seq<[usize; 2]>,
    tiles: Seq<u32>,
)
    requires
        tally_matches(old_cells, old_tally),
        shaped(old_cells, rows, cols),
        shaped(new_cells, rows, cols),
        rows <= usize::MAX,
        cols <= usize::MAX,
        positions.len() == tiles.len(),
        forall|a: int, b: int| 0 <= a < b < positions.len() ==> before_in_scan(positions[a], positions[b]),
        forall|k: int|
            0 <= k < positions.len() ==> {
                let p = #[trigger] positions[k];
                &&& p[0] < rows
                &&& p[1] < cols
                &&& old_cells[p[0] as int][p[1] as int] >= 2
                &&& tiles[k] == old_cells[p[0] as int][p[1] as int] - 1
            },
        forall|a: int, b: int|
            0 <= a < rows && 0 <= b < cols ==> new_cells[a][b] == (if exists|k: int|
                0 <= k < positions.len() && positions[k] == [a as usize, b as usize] {
                1u32
            } else {
                old_cells[a][b]
            }),
        new_tally == tally_after(old_tally, tiles),
    ensures
        tally_matches(new_cells, new_tally),
    decreases positions.len(),
{
    lemma_cleared_cells(old_cells, rows, cols, positions);
    let want = cleared(old_cells, positions);
    assert forall|a: int| 0 <= a < rows implies new_cells[a] =~= want[a] by {}
    assert(new_cells =~= want);
    if positions.len() > 0 {
        let prev = positions.drop_last();
        let prev_tiles = tiles.drop_last();
        let mid = cleared(old_cells, prev);
        let mid_tally = tally_after(old_tally, prev_tiles);
        lemma_cleared_cells(old_cells, rows, cols, prev);
        assert forall|a: int, b: int| 0 <= a < prev.len() && 0 <= b < prev.len() && a < b implies before_in_scan(
            prev[a],
            prev[b],
        ) by {
            assert(prev[a] == positions[a] && prev[b] == positions[b]);
        }
        assert forall|k: int| 0 <= k < prev.len() implies {
            let p = #[trigger] prev[k];
            &&& p[0] < rows
            &&& p[1] < cols
            &&& old_cells[p[0] as int][p[1] as int] >= 2
            &&& prev_tiles[k] == old_cells[p[0] as int][p[1] as int] - 1
        } by {
            assert(prev[k] == positions[k]);
        }
        lemma_repair_keeps_tally(old_cells, mid, rows, cols, old_tally, mid_tally, prev, prev_tiles);
        let n = positions.len() - 1;
        let p = positions[n];
        let t = tiles[n];
        assert(p == positions.last());
        assert(t == tiles.last());
        assert(mid[p[0] as int][p[1] as int] == old_cells[p[0] as int][p[1] as int]) by {
            if exists|k: int| 0 <= k < prev.len() && prev[k] == [p[0], p[1]] {
                let k = choose|k: int| 0 <= k < prev.len() && prev[k] == [p[0], p[1]];
                assert(before_in_scan(positions[k], positions[n]));
                assert(positions[k] == prev[k]);
            }
        }
        let v = old_cells[p[0] as int][p[1] as int];
        assert(mid.len() == rows && mid[p[0] as int].len() == cols);
        assert(want == mid.update(p[0] as int, mid[p[0] as int].update(p[1] as int, 1u32)));
        assert(tiles.drop_last() == prev_tiles);
        assert forall|c: int| 0 <= c < new_tally.len() implies #[trigger] new_tally[c] == value_count(new_cells, c + 2) by {
            lemma_value_count_update(mid, p[0] as int, p[1] as int, 1u32, c + 2);
            assert(mid_tally.len() == old_tally.len()) by {
                lemma_tally_after_len(old_tally, prev_tiles);
            }
            assert(mid_tally[c] == value_count(mid, c + 2));
            if c == t - 1 {
                lemma_value_count_update(mid, p[0] as int, p[1] as int, 1u32, c + 2);
                lemma_value_count_nonneg(want, c + 2);
            }
        }
    }
}

proof fn lemma_tally_after_len(t: Seq<usize>, tiles: Seq<u32>)
    ensures
        tally_after(t, tiles).len() == t.len(),
    decreases tiles.len(),
{
    if tiles.len() > 0 {
        lemma_tally_after_len(t, tiles.drop_last());
    }
}

/// `sum_{c < n} row_count(row, c + 2)`.
pub open spec fn row_color_sum(row: Seq<u32>, n: nat) -> int
    decreases n,
{
    if n == 0 {
        0
    } else {
        row_color_sum(row, (n - 1) as nat) + row_count(row, n as int + 1)
    }
}

/// `sum_{c < n} value_count(cells, c + 2)`.
pub open spec fn color_sum(cells: Seq<Seq<u32>>, n: nat) -> int
    decreases n,
{
    if n == 0 {
        0
    } else {
        color_sum(cells, (n - 1) as nat) + value_count(cells, n as int + 1)
    }
}

proof fn lemma_indicator_sum(row: Seq<u32>, n: nat)
    requires
        row.len() > 0,
    ensures
        row_color_sum(row, n) == row_color_sum(row.drop_last(), n) + (if 2 <= row.last() <= n + 1 {
            1int
        } else {
            0int
        }),
    decreases n,
{
    if n > 0 {
        lemma_indicator_sum(row, (n - 1) as nat);
    }
}

proof fn lemma_row_colors(row: Seq<u32>, n: nat)
    requires
        forall|j: int| 0 <= j < row.len() ==> #[trigger] row[j] <= n + 1,
    ensures
        row_color_sum(row, n) == row_placed(row),
    decreases row.len(),
{
    if row.len() == 0 {
        lemma_row_colors_empty(row, n);
    } else {
        let prev = row.drop_last();
        assert forall|j: int| 0 <= j < prev.len() implies #[trigger] prev[j] <= n + 1 by {
            assert(prev[j] == row[j]);
        }
        lemma_row_colors(prev, n);
        lemma_indicator_sum(row, n);
        assert(row.last() == row[row.len() - 1]);
    }
}

proof fn lemma_row_colors_empty(row: Seq<u32>, n: nat)
    requires
        row.len() == 0,
    ensures
        row_color_sum(row, n) == 0,
    decreases n,
{
    if n > 0 {
        lemma_row_colors_empty(row, (n - 1) as nat);
    }
}

proof fn lemma_color_sum_split(cells: Seq<Seq<u32>>, n: nat)
    requires
        cells.len() > 0,
    ensures
        color_sum(cells, n) == color_sum(cells.drop_last(), n) + row_color_sum(cells.last(), n),
    decreases n,
{
    if n > 0 {
        lemma_color_sum_split(cells, (n - 1) as nat);
    }
}

proof fn lemma_color_sum_empty(cells: Seq<Seq<u32>>, n: nat)
    requires
        cells.len() == 0,
    ensures
        color_sum(cells, n) == 0,
    decreases n,
{
    if n > 0 {
        lemma_color_sum_empty(cells, (n - 1) as nat);
    }
}

proof fn lemma_cells_colors(cells: Seq<Seq<u32>>, n: nat)
    requires
        forall|i: int, j: int| 0 <= i < cells.len() && 0 <= j < cells[i].len() ==> #[trigger] cells[i][j] <= n + 1,
    ensures
        color_sum(cells, n) == placed_count(cells),
    decreases cells.len(),
{
    if cells.len() == 0 {
        lemma_color_sum_empty(cells, n);
    } else {
        let prev = cells.drop_last();
        assert forall|i: int, j: int| 0 <= i < prev.len() && 0 <= j < prev[i].len() implies #[trigger] prev[i][j]
            <= n + 1 by {
            assert(prev[i] == cells[i]);
        }
        lemma_cells_colors(prev, n);
        let last = cells.last();
        assert forall|j: int| 0 <= j < last.len() implies #[trigger] last[j] <= n + 1 by {
            assert(last == cells[cells.len() - 1]);
        }
        lemma_row_colors(last, n);
        lemma_color_sum_split(cells, n);
    }
}

proof fn lemma_tally_prefix(cells: Seq<Seq<u32>>, tally: Seq<usize>, n: nat)
    requires
        tally_matches(cells, tally),
        n <= tally.len(),
    ensures
        tally_sum(tally.take(n as int)) == color_sum(cells, n),
    decreases n,
{
    if n > 0 {
        lemma_tally_prefix(cells, tally, (n - 1) as nat);
        assert(tally.take(n as int).drop_last() =~= tally.take(n - 1));
        assert(tally[n - 1] == value_count(cells, n as int + 1));
    }
}

/// Tally conservation in total: when every tally entry counts the cells
/// holding its color and no cell holds a value beyond the tally's colors,
/// the tally total equals the number of placed cells. With the per-color
/// laws above this gives the total across placements and repairs.
pub proof fn lemma_tally_total(cells: Seq<Seq<u32>>, tally: Seq<usize>)
    requires
        tally_matches(cells, tally),
        forall|i: int, j: int| 0 <= i < cells.len() && 0 <= j < cells[i].len() ==> #[trigger] cells[i][j] <= tally.len() + 1,
    ensures
        tally_sum(tally) == placed_count(cells),
{
    lemma_tally_prefix(cells, tally, tally.len());
    assert(tally.take(tally.len() as int) =~= tally);
    lemma_cells_colors(cells, tally.len());
}

} // verus!
