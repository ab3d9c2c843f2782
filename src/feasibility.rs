//! Counts of tiles that still fit each 3x3 window of the grid.

use vstd::prelude::*;
use crate::cells::{CellArray, shaped};
use crate::grid::cell_limit;
use crate::selection::tile_fits;
use crate::tiles::{
    Pattern, Tile, convert_tile_to_membership_booleans, index_wf, lemma_index_lists_every_match,
    lists_covering, membership_index, pattern_matches, two_pow,
};

verus! {

/// Indices of the tiles that fit pattern `p`.
pub open spec fn matching_ids(p: Pattern, tiles: Seq<Tile>) -> Set<int> {
    Set::new(|k: int| 0 <= k < tiles.len() && pattern_matches(p, tiles[k]))
}

/// For each top-left position of a 3x3 window, the number of tiles that fit
/// the window's current contents.
pub struct FeasibilityCountLayer {
    counts: CellArray,
    tile_count: usize,
}

impl FeasibilityCountLayer {
    /// The counts, row by row.
    pub closed spec fn view(&self) -> Seq<Seq<u32>> {
        self.counts@
    }

    /// Number of tiles in the set.
    pub closed spec fn total(&self) -> nat {
        self.tile_count as nat
    }

    /// A count layer where every window admits every tile.
    pub fn new(rows: usize, cols: usize, tile_count: usize) -> (r: Self)
        requires
            rows * cols <= cell_limit(),
            rows <= cell_limit(),
            cols <= cell_limit(),
            tile_count <= u32::MAX,
        ensures
            shaped(r@, rows as nat, cols as nat),
            r.total() == tile_count,
            forall|i: int, j: int| 0 <= i < rows && 0 <= j < cols ==> r@[i][j] == tile_count,
    {
        FeasibilityCountLayer { counts: CellArray::filled(rows, cols, tile_count as u32), tile_count }
    }

    /// Number of tiles in the set.
    pub fn tile_count(&self) -> (r: usize)
        ensures
            r == self.total(),
    {
        self.tile_count
    }

    /// The count at `(row, col)`.
    pub fn count_at(&self, row: usize, col: usize) -> (r: u32)
        requires
            row < self@.len(),
            col < self@[row as int].len(),
        ensures
            r == self@[row as int][col as int],
    {
        self.counts.get(row, col)
    }

    /// Store at `(row, col)`, when it lies in the layer, the number of tiles
    /// that fit `tile_grid`, found through the membership index.
    pub fn update_count(
        &mut self,
        rows: usize,
        cols: usize,
        row: usize,
        col: usize,
        tile_grid: &Pattern,
        source_tiles: &Vec<Tile>,
        dispatch_rules: &Vec<Vec<usize>>,
        unique_cell_count: usize,
    )
        requires
            shaped(old(self)@, rows as nat, cols as nat),
            index_wf(dispatch_rules@, source_tiles@, unique_cell_count as nat),
            two_pow(unique_cell_count as nat) <= usize::MAX,
            source_tiles@.len() <= u32::MAX,
            forall|k: int, i: int, j: int|
                0 <= k < source_tiles@.len() && 0 <= i < 3 && 0 <= j < 3 ==> #[trigger] source_tiles@[k][i][j]
                    <= i32::MAX,
        ensures
            shaped(final(self)@, rows as nat, cols as nat),
            final(self).total() == old(self).total(),
            final(self)@ == (if row < rows && col < cols {
                old(self)@.update(
                    row as int,
                    old(self)@[row as int].update(col as int, matching_ids(*tile_grid, source_tiles@).len() as u32),
                )
            } else {
                old(self)@
            }),
    {
        let count = count_fitting(tile_grid, source_tiles, dispatch_rules, unique_cell_count);
        if row < rows && col < cols {
            self.counts.set(row, col, count);
        }
    }

    /// Resize to `new_rows` by `new_cols` while the grid's origin moves by
    /// `(pad_rows, pad_cols)`: each kept count moves with its window, and
    /// new positions admit every tile.
    pub fn extend_to(
        &mut self,
        old_rows: usize,
        old_cols: usize,
        new_rows: usize,
        new_cols: usize,
        pad_rows: usize,
        pad_cols: usize,
    )
        requires
            shaped(old(self)@, old_rows as nat, old_cols as nat),
            new_rows * new_cols <= cell_limit(),
            new_rows <= cell_limit(),
            new_cols <= cell_limit(),
            pad_rows <= new_rows,
            pad_cols <= new_cols,
            old(self).total() <= u32::MAX,
        ensures
            shaped(final(self)@, new_rows as nat, new_cols as nat),
            final(self).total() == old(self).total(),
            forall|i: int, j: int|
                0 <= i < new_rows && 0 <= j < new_cols ==> #[trigger] final(self)@[i][j] == (if pad_rows <= i < pad_rows
                    + old_rows && pad_cols <= j < pad_cols + old_cols {
                    old(self)@[i - pad_rows][j - pad_cols]
                } else {
                    old(self).total() as u32
                }),
    {
        let mut fresh = CellArray::filled(new_rows, new_cols, self.tile_count as u32);
        let keep_rows = if old_rows < new_rows - pad_rows { old_rows } else { new_rows - pad_rows };
        let keep_cols = if old_cols < new_cols - pad_cols { old_cols } else { new_cols - pad_cols };
        let mut i: usize = 0;
        while i < keep_rows
            invariant
                shaped(self.counts@, old_rows as nat, old_cols as nat),
                shaped(fresh@, new_rows as nat, new_cols as nat),
                keep_rows <= old_rows && keep_rows + pad_rows <= new_rows,
                keep_cols <= old_cols && keep_cols + pad_cols <= new_cols,
                keep_rows == (if old_rows < new_rows - pad_rows { old_rows } else { (new_rows - pad_rows) as usize }),
                keep_cols == (if old_cols < new_cols - pad_cols { old_cols } else { (new_cols - pad_cols) as usize }),
                i <= keep_rows,
                forall|a: int, b: int|
                    0 <= a < new_rows && 0 <= b < new_cols ==> #[trigger] fresh@[a][b] == (if pad_rows <= a < pad_rows + i
                        && pad_cols <= b < pad_cols + keep_cols {
                        self.counts@[a - pad_rows][b - pad_cols]
                    } else {
                        self.tile_count as u32
                    }),
            decreases keep_rows - i,
        {
            let mut j: usize = 0;
            while j < keep_cols
                invariant
                    shaped(self.counts@, old_rows as nat, old_cols as nat),
                    shaped(fresh@, new_rows as nat, new_cols as nat),
                    keep_rows <= old_rows && keep_rows + pad_rows <= new_rows,
                    keep_cols <= old_cols && keep_cols + pad_cols <= new_cols,
                    i < keep_rows,
                    j <= keep_cols,
                    forall|a: int, b: int|
                        0 <= a < new_rows && 0 <= b < new_cols ==> #[trigger] fresh@[a][b] == (if (pad_rows <= a < pad_rows
                            + i && pad_cols <= b < pad_cols + keep_cols) || (a == pad_rows + i && pad_cols <= b < pad_cols
                            + j) {
                            self.counts@[a - pad_rows][b - pad_cols]
                        } else {
                            self.tile_count as u32
                        }),
                decreases keep_cols - j,
            {
                let v = self.counts.get(i, j);
                fresh.set(i + pad_rows, j + pad_cols, v);
                j = j + 1;
            }
            i = i + 1;
        }
        self.counts = fresh;
    }
}

/// Number of tiles that fit `p`, counted over the index entry of its mask.
fn count_fitting(p: &Pattern, source_tiles: &Vec<Tile>, dispatch_rules: &Vec<Vec<usize>>, unique_cell_count: usize) -> (r:
    u32)
    requires
        index_wf(dispatch_rules@, source_tiles@, unique_cell_count as nat),
        two_pow(unique_cell_count as nat) <= usize::MAX,
        source_tiles@.len() <= u32::MAX,
        forall|k: int, i: int, j: int|
            0 <= k < source_tiles@.len() && 0 <= i < 3 && 0 <= j < 3 ==> #[trigger] source_tiles@[k][i][j] <= i32::MAX,
    ensures
        r == matching_ids(*p, source_tiles@).len(),
{
    let flags = convert_tile_to_membership_booleans(p, unique_cell_count);
    let m = membership_index(&flags);
    let candidates = &dispatch_rules[m];
    proof {
        assert(lists_covering(dispatch_rules@[m as int]@, source_tiles@, m as nat, unique_cell_count as nat));
    }
    let n = source_tiles.len();
    let ghost mut seen: Set<int> = Set::empty();
    let mut count: u32 = 0;
    let mut x: usize = 0;
    while x < candidates.len()
        invariant
            x <= candidates.len(),
            n == source_tiles@.len(),
            n <= u32::MAX,
            lists_covering(candidates@, source_tiles@, m as nat, unique_cell_count as nat),
            seen.finite(),
            count == seen.len(),
            seen.len() <= x,
            forall|k: int|
                #[trigger] seen.contains(k) <==> (0 <= k < n && pattern_matches(*p, source_tiles@[k]) && exists|a: int|
                    0 <= a < x && candidates@[a] == k + 1),
        decreases candidates.len() - x,
    {
        let id = candidates[x];
        let fits = tile_fits(p, &source_tiles[id - 1]);
        proof {
            assert(1 <= candidates@[x as int] <= n);
        }
        if fits {
            proof {
                let k = id - 1;
                assert(!seen.contains(k as int)) by {
                    if seen.contains(k as int) {
                        let a = choose|a: int| 0 <= a < x && candidates@[a] == k + 1;
                        assert(candidates@[a] < candidates@[x as int]);
                    }
                }
                seen = seen.insert(k as int);
            }
            proof {
                assert(seen.len() <= n) by {
                    vstd::set_lib::lemma_int_range(0, n as int);
                    assert(seen.subset_of(vstd::set_lib::set_int_range(0, n as int)));
                    vstd::set_lib::lemma_len_subset(seen, vstd::set_lib::set_int_range(0, n as int));
                }
            }
            count = count + 1;
        }
        proof {
            assert forall|k: int|
                #[trigger] seen.contains(k) <==> (0 <= k < n && pattern_matches(*p, source_tiles@[k]) && exists|a: int|
                    0 <= a < x + 1 && candidates@[a] == k + 1) by {
                if 0 <= k < n && pattern_matches(*p, source_tiles@[k]) && candidates@[x as int] == k + 1 {
                    assert(fits);
                }
                if exists|a: int| 0 <= a < x && candidates@[a] == k + 1 {
                    let a = choose|a: int| 0 <= a < x && candidates@[a] == k + 1;
                    assert(0 <= a < x + 1);
                }
            }
        }
        x = x + 1;
    }
    proof {
        assert(seen =~= matching_ids(*p, source_tiles@)) by {
            assert forall|k: int| matching_ids(*p, source_tiles@).contains(k) implies seen.contains(k) by {
                lemma_index_lists_every_match(dispatch_rules@, source_tiles@, unique_cell_count as nat, *p, k);
                let a = choose|a: int| 0 <= a < candidates@.len() && candidates@[a] == (k + 1) as usize;
            }
        }
    }
    count
}

} // verus!
