//! Viable values at a grid position: the intersection, over the 3x3 windows
//! that contain the position, of the values that fitting tiles allow there.

use vstd::prelude::*;
use crate::bitset::TileBitset;
use crate::cache::{PatternKey, ViableTilesCache, unflatten};
use crate::grid::{GridState, get_region_spans, span_end, span_start};
use crate::propagation::StepData;
use crate::tiles::{
    Pattern, Tile, convert_tile_to_membership_booleans, index_wf, lemma_index_lists_every_match,
    membership_index, pattern_matches, two_pow, clamp_i32, lists_covering,
};

verus! {

/// The colors `1..=u` that occur at `(tr, tc)` in some tile fitting `p`.
pub open spec fn compatible_values(p: Pattern, tiles: Seq<Tile>, tr: int, tc: int, u: nat) -> Set<int> {
    Set::new(
        |v: int|
            1 <= v <= u && exists|k: int|
                0 <= k < tiles.len() && pattern_matches(p, #[trigger] tiles[k]) && tiles[k][tr][tc] == v,
    )
}

/// Whether a tile fits a pattern, cell by cell.
pub(crate) fn tile_fits(p: &Pattern, t: &Tile) -> (r: bool)
    ensures
        r == pattern_matches(*p, *t),
{
    let mut i: usize = 0;
    while i < 3
        invariant
            i <= 3,
            forall|a: int, b: int|
                0 <= a < i && 0 <= b < 3 ==> (p[a][b] == 0 || p[a][b] == -1 || p[a][b] == clamp_i32(t[a][b])),
        decreases 3 - i,
    {
        let mut j: usize = 0;
        while j < 3
            invariant
                i < 3,
                j <= 3,
                forall|a: int, b: int|
                    0 <= a < i && 0 <= b < 3 ==> (p[a][b] == 0 || p[a][b] == -1 || p[a][b] == clamp_i32(t[a][b])),
                forall|b: int| 0 <= b < j ==> (p[i as int][b] == 0 || p[i as int][b] == -1 || p[i as int][b] == clamp_i32(t[i as int][b])),
            decreases 3 - j,
        {
            let pv = p[i][j];
            let tv = t[i][j];
            let tv32: i32 = if tv <= i32::MAX as usize {
                tv as i32
            } else {
                i32::MAX
            };
            if !(pv == 0 || pv == -1 || pv == tv32) {
                return false;
            }
            j = j + 1;
        }
        i = i + 1;
    }
    true
}

/// The values that may appear at `(target_row, target_col)` among the tiles
/// that fit `tile_pattern`, found through the membership index.
pub fn find_compatible_values_at_offset_bitset(
    tile_pattern: &Pattern,
    source_tiles: &Vec<Tile>,
    dispatch_rules: &Vec<Vec<usize>>,
    unique_cell_count: usize,
    target_row: usize,
    target_col: usize,
) -> (r: TileBitset)
    requires
        index_wf(dispatch_rules@, source_tiles@, unique_cell_count as nat),
        two_pow(unique_cell_count as nat) <= usize::MAX,
        target_row < 3,
        target_col < 3,
        forall|k: int, i: int, j: int|
            0 <= k < source_tiles@.len() && 0 <= i < 3 && 0 <= j < 3 ==> #[trigger] source_tiles@[k][i][j] <= i32::MAX,
    ensures
        r.wf(),
        r.capacity() == unique_cell_count,
        forall|v: int|
            #[trigger] r.has(v) <==> compatible_values(
                *tile_pattern,
                source_tiles@,
                target_row as int,
                target_col as int,
                unique_cell_count as nat,
            ).contains(v),
{
    let flags = convert_tile_to_membership_booleans(tile_pattern, unique_cell_count);
    let m = membership_index(&flags);
    let candidates = &dispatch_rules[m];
    let ghost want = compatible_values(
        *tile_pattern,
        source_tiles@,
        target_row as int,
        target_col as int,
        unique_cell_count as nat,
    );
    proof {
        assert(lists_covering(dispatch_rules@[m as int]@, source_tiles@, m as nat, unique_cell_count as nat));
    }
    let mut result = TileBitset::new(unique_cell_count);
    let mut x: usize = 0;
    while x < candidates.len()
        invariant
            result.wf(),
            result.capacity() == unique_cell_count,
            x <= candidates.len(),
            lists_covering(candidates@, source_tiles@, m as nat, unique_cell_count as nat),
            target_row < 3,
            target_col < 3,
            forall|v: int|
                #[trigger] result.has(v) <==> (1 <= v <= unique_cell_count && exists|a: int|
                    0 <= a < x && pattern_matches(*tile_pattern, source_tiles@[candidates@[a] - 1])
                        && source_tiles@[candidates@[a] - 1][target_row as int][target_col as int] == v),
        decreases candidates.len() - x,
    {
        let id = candidates[x];
        let tile = &source_tiles[id - 1];
        let fits = tile_fits(tile_pattern, tile);
        let ghost before = result;
        if fits {
            result.insert(tile[target_row][target_col]);
        }
        proof {
            assert forall|v: int|
                #[trigger] result.has(v) <==> (1 <= v <= unique_cell_count && exists|a: int|
                    0 <= a < x + 1 && pattern_matches(*tile_pattern, source_tiles@[candidates@[a] - 1])
                        && source_tiles@[candidates@[a] - 1][target_row as int][target_col as int] == v) by {
                if result.has(v) && !before.has(v) {
                    assert(pattern_matches(*tile_pattern, source_tiles@[candidates@[x as int] - 1]));
                }
                if before.has(v) {
                    let a = choose|a: int|
                        0 <= a < x && pattern_matches(*tile_pattern, source_tiles@[candidates@[a] - 1])
                            && source_tiles@[candidates@[a] - 1][target_row as int][target_col as int] == v;
                    assert(0 <= a < x + 1);
                }
            }
        }
        x = x + 1;
    }
    let n = source_tiles.len();
    proof {
        assert forall|v: int| #[trigger] result.has(v) <==> want.contains(v) by {
            if result.has(v) {
                let a = choose|a: int|
                    0 <= a < candidates@.len() && pattern_matches(*tile_pattern, source_tiles@[candidates@[a] - 1])
                        && source_tiles@[candidates@[a] - 1][target_row as int][target_col as int] == v;
                let k = candidates@[a] - 1;
                assert(1 <= #[trigger] candidates@[a] <= source_tiles@.len());
                assert(pattern_matches(*tile_pattern, source_tiles@[k]));
            }
            if want.contains(v) {
                let k = choose|k: int|
                    0 <= k < source_tiles@.len() && pattern_matches(*tile_pattern, #[trigger] source_tiles@[k])
                        && source_tiles@[k][target_row as int][target_col as int] == v;
                lemma_index_lists_every_match(
                    dispatch_rules@,
                    source_tiles@,
                    unique_cell_count as nat,
                    *tile_pattern,
                    k,
                );
                let a = choose|a: int| 0 <= a < candidates@.len() && candidates@[a] == (k + 1) as usize;
                assert(source_tiles@[candidates@[a] - 1] == source_tiles@[k]);
            }
        }
    }
    result
}

/// Row of the `w`-th visited window relative to the position, plus one; the
/// window centered on the position comes first.
pub open spec fn window_di(w: int) -> int {
    if w == 1 || w == 5 || w == 6 {
        0
    } else if w == 4 || w == 7 || w == 8 {
        2
    } else {
        1
    }
}

/// Column of the `w`-th visited window relative to the position, plus one.
pub open spec fn window_dj(w: int) -> int {
    if w == 2 || w == 5 || w == 7 {
        0
    } else if w == 3 || w == 6 || w == 8 {
        2
    } else {
        1
    }
}

/// Position of the `w`-th visited window relative to the position, plus one.
fn window_offset(w: usize) -> (r: (i32, i32))
    ensures
        r.0 == window_di(w as int),
        r.1 == window_dj(w as int),
        0 <= r.0 <= 2,
        0 <= r.1 <= 2,
{
    let di: i32 = if w == 1 || w == 5 || w == 6 {
        0
    } else if w == 4 || w == 7 || w == 8 {
        2
    } else {
        1
    };
    let dj: i32 = if w == 2 || w == 5 || w == 7 {
        0
    } else if w == 3 || w == 6 || w == 8 {
        2
    } else {
        1
    };
    (di, dj)
}

/// Pattern of the window with top-left grid index `(rs, cs)`: a placed or
/// empty cell reads as its locked value minus one, a cell past the grid as 0.
pub open spec fn patch_at(locked: Seq<Seq<u32>>, rows: int, cols: int, rs: int, cs: int) -> Pattern {
    let cell = |a: int, b: int|
        if rs + a < rows && cs + b < cols {
            (locked[rs + a][cs + b] - 1) as i32
        } else {
            0i32
        };
    [[cell(0, 0), cell(0, 1), cell(0, 2)], [cell(1, 0), cell(1, 1), cell(1, 2)], [cell(2, 0), cell(2, 1), cell(2, 2)]]
}

/// Grid index of the center of window `w` along the row axis.
pub open spec fn center_row(position: [i32; 2], offset: [i32; 2], w: int) -> int {
    position[0] + window_di(w) - 1 + offset[0]
}

/// Grid index of the center of window `w` along the column axis.
pub open spec fn center_col(position: [i32; 2], offset: [i32; 2], w: int) -> int {
    position[1] + window_dj(w) - 1 + offset[1]
}

/// Window `w` lies wholly at non-negative grid indices.
pub open spec fn window_ok(position: [i32; 2], offset: [i32; 2], w: int) -> bool {
    &&& span_end(center_row(position, offset, w), 1) - span_start(center_row(position, offset, w), 1) > 2
    &&& span_end(center_col(position, offset, w), 1) - span_start(center_col(position, offset, w), 1) > 2
}

/// The values that window `w` allows at the position.
#[verifier::opaque]
pub open spec fn window_values(
    g: GridState,
    position: [i32; 2],
    offset: [i32; 2],
    data: StepData,
    w: int,
) -> Set<int> {
    compatible_values(
        patch_at(
            g.locked_tiles@,
            g.rows_spec() as int,
            g.cols_spec() as int,
            span_start(center_row(position, offset, w), 1),
            span_start(center_col(position, offset, w), 1),
        ),
        data.source_tiles@,
        2 - window_di(w),
        2 - window_dj(w),
        data.unique_cell_count as nat,
    )
}

/// The viable values at a position: those allowed by every window that
/// contains it, or none when no such window lies in the grid.
pub open spec fn viable_set(g: GridState, position: [i32; 2], offset: [i32; 2], data: StepData) -> Set<int> {
    Set::new(
        |v: int|
            (exists|w: int| 0 <= w < 9 && window_ok(position, offset, w)) && forall|w: int|
                0 <= w < 9 && window_ok(position, offset, w) ==> #[trigger] window_values(
                    g,
                    position,
                    offset,
                    data,
                    w,
                ).contains(v),
    )
}

/// A world position whose grid index lies inside the grid.
pub open spec fn inside_grid(g: GridState, position: [i32; 2], offset: [i32; 2]) -> bool {
    &&& 0 <= position[0] + offset[0] < g.rows_spec()
    &&& 0 <= position[1] + offset[1] < g.cols_spec()
    &&& i32::MIN < position[0] < i32::MAX
    &&& i32::MIN < position[1] < i32::MAX
}

/// One cell of a window: the locked value minus one, or 0 past the grid.
fn patch_cell(grid_state: &GridState, r: usize, c: usize) -> (v: i32)
    requires
        grid_state.wf(),
    ensures
        v == (if r < grid_state.rows_spec() && c < grid_state.cols_spec() {
            (grid_state.locked_tiles@[r as int][c as int] - 1) as i32
        } else {
            0i32
        }),
{
    if r < grid_state.rows() && c < grid_state.cols() {
        let locked = grid_state.locked_tiles.get(r, c);
        assert(1 <= grid_state.locked_tiles@[r as int][c as int]);
        (locked - 1) as i32
    } else {
        0
    }
}

/// Read the window whose top-left grid index is `(rs, cs)`.
pub(crate) fn read_patch(grid_state: &GridState, rs: usize, cs: usize) -> (r: Pattern)
    requires
        grid_state.wf(),
        rs <= 0x7fff_0000,
        cs <= 0x7fff_0000,
    ensures
        r == patch_at(
            grid_state.locked_tiles@,
            grid_state.rows_spec() as int,
            grid_state.cols_spec() as int,
            rs as int,
            cs as int,
        ),
{
    let p: Pattern = [
        [patch_cell(grid_state, rs, cs), patch_cell(grid_state, rs, cs + 1), patch_cell(grid_state, rs, cs + 2)],
        [patch_cell(grid_state, rs + 1, cs), patch_cell(grid_state, rs + 1, cs + 1), patch_cell(grid_state, rs + 1, cs + 2)],
        [patch_cell(grid_state, rs + 2, cs), patch_cell(grid_state, rs + 2, cs + 1), patch_cell(grid_state, rs + 2, cs + 2)],
    ];
    proof {
        let want = patch_at(
            grid_state.locked_tiles@,
            grid_state.rows_spec() as int,
            grid_state.cols_spec() as int,
            rs as int,
            cs as int,
        );
        assert(p[0] =~= want[0]);
        assert(p[1] =~= want[1]);
        assert(p[2] =~= want[2]);
        assert(p =~= want);
    }
    p
}

/// `v` is allowed by every in-grid window among the first `w`.
pub open spec fn agreed(g: GridState, position: [i32; 2], offset: [i32; 2], data: StepData, v: int, w: int) -> bool {
    forall|x: int|
        0 <= x < w && window_ok(position, offset, x) ==> #[trigger] window_values(
            g,
            position,
            offset,
            data,
            x,
        ).contains(v)
}

/// Some window among the first `w` lies in the grid.
pub open spec fn some_window(position: [i32; 2], offset: [i32; 2], w: int) -> bool {
    exists|x: int| 0 <= x < w && window_ok(position, offset, x)
}

/// The values allowed at the position by window `w`, or `None` when the
/// window does not lie in the grid.
fn window_step(
    grid_state: &GridState,
    position: [i32; 2],
    system_offset: [i32; 2],
    step_data: &StepData,
    cache: &mut ViableTilesCache,
    w: usize,
) -> (r: Option<TileBitset>)
    requires
        grid_state.wf(),
        step_data.wf(),
        old(cache).sound(*step_data),
        inside_grid(*grid_state, position, system_offset),
        w < 9,
    ensures
        final(cache).sound(*step_data),
        r.is_some() == window_ok(position, system_offset, w as int),
        r.is_some() ==> {
            let b = r.unwrap();
            &&& b.wf()
            &&& b.capacity() == step_data.unique_cell_count
            &&& forall|v: int|
                #[trigger] b.has(v) <==> window_values(*grid_state, position, system_offset, *step_data, w as int).contains(v)
        },
{
    let (di, dj) = window_offset(w);
    let (row_span, col_span) = get_region_spans(
        &system_offset,
        &[position[0] - 1 + di, position[1] - 1 + dj],
        1,
    );
    if row_span.end - row_span.start <= 2 || col_span.end - col_span.start <= 2 {
        return None;
    }
    let patch = read_patch(grid_state, row_span.start, col_span.start);
    let key = PatternKey::new(&patch, (2 - di) as usize, (2 - dj) as usize);
    let bits = cache.get_or_compute_pattern(key, step_data);
    proof {
        reveal(window_values);
        assert(unflatten(key.pattern_spec()) == patch);
    }
    Some(bits)
}

/// The viable values at `position`, in increasing order: those that every
/// 3x3 window containing the position allows there, given the locked cells.
/// Windows are visited centre first and the search stops as soon as the
/// running intersection is empty.
pub fn compute_viable_tiles_at_position(
    grid_state: &GridState,
    position: [i32; 2],
    system_offset: [i32; 2],
    step_data: &StepData,
    cache: &mut ViableTilesCache,
) -> (r: Vec<usize>)
    requires
        grid_state.wf(),
        step_data.wf(),
        old(cache).sound(*step_data),
        inside_grid(*grid_state, position, system_offset),
    ensures
        final(cache).sound(*step_data),
        forall|k: int| 0 <= k < r.len() ==> viable_set(*grid_state, position, system_offset, *step_data).contains(
            r@[k] as int,
        ),
        forall|v: usize|
            viable_set(*grid_state, position, system_offset, *step_data).contains(v as int) ==> r@.contains(v),
        forall|a: int, b: int| 0 <= a < b < r.len() ==> r@[a] < r@[b],
{
    let ghost g = *grid_state;
    let ghost d = *step_data;
    let mut current: Option<TileBitset> = None;
    let mut w: usize = 0;
    while w < 9
        invariant
            grid_state.wf(),
            step_data.wf(),
            g == *grid_state,
            d == *step_data,
            cache.sound(*step_data),
            inside_grid(*grid_state, position, system_offset),
            w <= 9,
            current.is_none() <==> !some_window(position, system_offset, w as int),
            current.is_some() ==> {
                let c = current.unwrap();
                &&& c.wf()
                &&& c.capacity() == step_data.unique_cell_count
                &&& forall|v: int| #[trigger] c.has(v) <==> agreed(g, position, system_offset, d, v, w as int)
            },
        decreases 9 - w,
    {
        let step = window_step(grid_state, position, system_offset, step_data, cache, w);
        match step {
            None => {
                proof {
                    assert forall|v: int| agreed(g, position, system_offset, d, v, w as int) == agreed(g, position, system_offset, d, v, w + 1) by {}
                    assert(some_window(position, system_offset, w as int) == some_window(position, system_offset, w + 1)) by {
                        if some_window(position, system_offset, w + 1) {
                            let x = choose|x: int| 0 <= x < w + 1 && window_ok(position, system_offset, x);
                            assert(x != w);
                        }
                    }
                }
            },
            Some(bits) => {
                proof {
                    assert(some_window(position, system_offset, w + 1));
                }
                match current {
                    None => {
                        proof {
                            assert forall|v: int| #[trigger] bits.has(v) <==> agreed(g, position, system_offset, d, v, w + 1) by {
                                if agreed(g, position, system_offset, d, v, w + 1) {
                                    assert(window_values(g, position, system_offset, d, w as int).contains(v));
                                } else {
                                    let x = choose|x: int| 0 <= x < w + 1 && window_ok(position, system_offset, x) && !window_values(g, position, system_offset, d, x).contains(v);
                                    if x < w {
                                        assert(some_window(position, system_offset, w as int));
                                    }
                                }
                            }
                        }
                        current = Some(bits);
                    },
                    Some(c) => {
                        let inter = c.intersection(&bits);
                        proof {
                            assert forall|v: int| #[trigger] inter.has(v) <==> agreed(g, position, system_offset, d, v, w + 1) by {
                                if agreed(g, position, system_offset, d, v, w + 1) {
                                    assert(window_values(g, position, system_offset, d, w as int).contains(v));
                                    assert(agreed(g, position, system_offset, d, v, w as int));
                                }
                                if inter.has(v) {
                                    assert(c.has(v));
                                    assert(bits.has(v));
                                }
                            }
                        }
                        if inter.is_empty() {
                            proof {
                                assert forall|v: int| !viable_set(g, position, system_offset, d).contains(v) by {
                                    assert(!inter.has(v));
                                    if viable_set(g, position, system_offset, d).contains(v) {
                                        assert(agreed(g, position, system_offset, d, v, w + 1));
                                    }
                                }
                            }
                            return Vec::new();
                        }
                        current = Some(inter);
                    },
                }
            },
        }
        w = w + 1;
    }
    match current {
        None => {
            proof {
                assert(w == 9);
                assert(!some_window(position, system_offset, 9));
                assert forall|v: usize| !viable_set(*grid_state, position, system_offset, *step_data).contains(v as int) by {
                    if viable_set(*grid_state, position, system_offset, *step_data).contains(v as int) {
                        assert(some_window(position, system_offset, 9));
                    }
                }
            }
            Vec::new()
        },
        Some(c) => {
            let r = c.to_vec();
            proof {
                assert forall|v: int| viable_set(g, position, system_offset, d).contains(v) <==> c.has(v) by {
                    if c.has(v) {
                        assert(agreed(g, position, system_offset, d, v, 9));
                    }
                }
                assert forall|v: usize| viable_set(*grid_state, position, system_offset, *step_data).contains(v as int) implies r@.contains(v) by {
                    assert(c.has(v as int));
                }
            }
            r
        },
    }
}

} // verus!
