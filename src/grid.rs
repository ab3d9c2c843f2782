//! World-coordinate rectangles and the index spans of square regions.

use vstd::prelude::*;
use crate::cells::{CellArray, shaped};
use crate::extension::{
    ExtensionInfo, calculate_extension, covered_max, covered_min, extension_fits, extension_spec,
};

verus! {

/// Axis-aligned, inclusive rectangle in world coordinates.
#[derive(Debug, Clone)]
pub struct BoundingBox {
    /// Minimum coordinates (inclusive).
    pub min: [i32; 2],
    /// Maximum coordinates (inclusive).
    pub max: [i32; 2],
}

impl BoundingBox {
    /// Whether `pos` lies in the rectangle.
    pub open spec fn contains_spec(&self, pos: [i32; 2]) -> bool {
        &&& self.min[0] <= pos[0] <= self.max[0]
        &&& self.min[1] <= pos[1] <= self.max[1]
    }

    /// Check if a position is within the bounds.
    pub fn contains(&self, pos: [i32; 2]) -> (r: bool)
        ensures
            r == self.contains_spec(pos),
    {
        pos[0] >= self.min[0] && pos[0] <= self.max[0] && pos[1] >= self.min[1] && pos[1]
            <= self.max[1]
    }
}

/// Lower end of a span: `center - radius`, clamped at zero.
pub open spec fn span_start(center: int, radius: int) -> int {
    if center - radius < 0 {
        0
    } else {
        center - radius
    }
}

/// Upper (exclusive) end of a span: `center + radius + 1`, clamped at zero.
pub open spec fn span_end(center: int, radius: int) -> int {
    if center + radius + 1 < 0 {
        0
    } else {
        center + radius + 1
    }
}

/// Grid index of a world coordinate along one axis.
pub open spec fn to_index(offset: i32, coordinate: i32) -> int {
    coordinate + offset
}

/// Index ranges covering the square of the given radius around a world
/// coordinate; ends are clamped at zero but not at the grid size.
pub fn get_region_spans(offset: &[i32; 2], coordinates: &[i32; 2], radius: i32) -> (r: (
    std::ops::Range<usize>,
    std::ops::Range<usize>,
))
    requires
        i32::MIN <= coordinates[0] + offset[0] <= i32::MAX,
        i32::MIN <= coordinates[1] + offset[1] <= i32::MAX,
        0 <= radius,
        coordinates[0] + offset[0] + radius + 1 <= i32::MAX,
        coordinates[1] + offset[1] + radius + 1 <= i32::MAX,
        coordinates[0] + offset[0] - radius >= i32::MIN,
        coordinates[1] + offset[1] - radius >= i32::MIN,
    ensures
        r.0.start == span_start(to_index(offset[0], coordinates[0]), radius as int),
        r.0.end == span_end(to_index(offset[0], coordinates[0]), radius as int),
        r.1.start == span_start(to_index(offset[1], coordinates[1]), radius as int),
        r.1.end == span_end(to_index(offset[1], coordinates[1]), radius as int),
{
    let index: [i32; 2] = [coordinates[0] + offset[0], coordinates[1] + offset[1]];
    let row_start: usize = if index[0] - radius < 0 {
        0
    } else {
        (index[0] - radius) as usize
    };
    let col_start: usize = if index[1] - radius < 0 {
        0
    } else {
        (index[1] - radius) as usize
    };
    let row_end: usize = if index[0] + radius + 1 < 0 {
        0
    } else {
        (index[0] + radius + 1) as usize
    };
    let col_end: usize = if index[1] + radius + 1 < 0 {
        0
    } else {
        (index[1] + radius + 1) as usize
    };
    (row_start..row_end, col_start..col_end)
}

/// The integer fields of the generation grid. Each field has `dimensions`
/// cells; world coordinate `w` sits at grid index `w + offset`.
pub struct GridState {
    /// Per-cell weight that grows near placed tiles; starts at 1.
    pub adjacency_weights: CellArray,
    /// Cell state: 1 = empty, `t + 1` = tile value `t` placed.
    pub locked_tiles: CellArray,
    /// How often a deadlock has centered on the cell (saturates at 255).
    pub removal_count: CellArray,
    /// Number of distinct colors in the exemplar.
    pub unique_cell_count: usize,
    /// Current grid dimensions (rows, cols).
    pub dimensions: (usize, usize),
    /// Optional inclusive world rectangle outside which nothing is placed.
    pub generation_bounds: Option<BoundingBox>,
}

/// Largest stored removal count.
pub const MAX_REMOVAL_COUNT: u32 = 255;

/// Largest number of cells a grid may hold.
pub open spec fn cell_limit() -> int {
    0x7fff_0000
}

impl GridState {
    /// Number of rows.
    pub open spec fn rows_spec(&self) -> nat {
        self.dimensions.0 as nat
    }

    /// Number of columns.
    pub open spec fn cols_spec(&self) -> nat {
        self.dimensions.1 as nat
    }

    /// Every field has the grid's dimensions, the grid fits `i32` coordinates,
    /// locked values stay within `1..=unique_cell_count + 1` and removal
    /// counts within a byte.
    pub open spec fn wf(&self) -> bool {
        &&& shaped(self.adjacency_weights@, self.rows_spec(), self.cols_spec())
        &&& shaped(self.locked_tiles@, self.rows_spec(), self.cols_spec())
        &&& shaped(self.removal_count@, self.rows_spec(), self.cols_spec())
        &&& self.rows_spec() * self.cols_spec() <= cell_limit()
        &&& self.rows_spec() <= cell_limit()
        &&& self.cols_spec() <= cell_limit()
        &&& self.unique_cell_count < 0x7fff_ffff
        &&& forall|i: int, j: int|
            0 <= i < self.rows_spec() && 0 <= j < self.cols_spec() ==> 1 <= #[trigger] self.locked_tiles@[i][j]
                <= self.unique_cell_count + 1
        &&& forall|i: int, j: int|
            0 <= i < self.rows_spec() && 0 <= j < self.cols_spec() ==> #[trigger] self.removal_count@[i][j]
                <= MAX_REMOVAL_COUNT
    }

    /// Value stored in `locked_tiles` at a grid index.
    pub open spec fn locked_at(&self, i: int, j: int) -> u32 {
        self.locked_tiles@[i][j]
    }

    /// Create a grid of `rows` by `cols` empty cells.
    pub fn new(rows: usize, cols: usize, unique_cell_count: usize) -> (r: Self)
        requires
            rows * cols <= cell_limit(),
            rows <= cell_limit(),
            cols <= cell_limit(),
            unique_cell_count < 0x7fff_ffff,
        ensures
            r.wf(),
            r.dimensions == (rows, cols),
            r.unique_cell_count == unique_cell_count,
            r.generation_bounds.is_none(),
            forall|i: int, j: int| 0 <= i < rows && 0 <= j < cols ==> r.adjacency_weights@[i][j] == 1,
            forall|i: int, j: int| 0 <= i < rows && 0 <= j < cols ==> r.locked_tiles@[i][j] == 1,
            forall|i: int, j: int| 0 <= i < rows && 0 <= j < cols ==> r.removal_count@[i][j] == 0,
    {
        GridState {
            adjacency_weights: CellArray::filled(rows, cols, 1),
            locked_tiles: CellArray::filled(rows, cols, 1),
            removal_count: CellArray::filled(rows, cols, 0),
            unique_cell_count,
            dimensions: (rows, cols),
            generation_bounds: None,
        }
    }

    /// Number of rows.
    pub fn rows(&self) -> (r: usize)
        ensures
            r == self.dimensions.0,
    {
        self.dimensions.0
    }

    /// Number of columns.
    pub fn cols(&self) -> (r: usize)
        ensures
            r == self.dimensions.1,
    {
        self.dimensions.1
    }

    /// Grow the grid so that the square of `radius` around `coordinates` fits,
    /// as far as the generation bounds allow. Returns the new offset and
    /// whether the grid grew. Old cells keep their world coordinates; new
    /// cells start empty, with weight 1 and removal count 0.
    pub fn extend_if_needed(&mut self, offset: [i32; 2], coordinates: &[i32; 2], radius: i32) -> (r: (
        [i32; 2],
        bool,
    ))
        requires
            old(self).wf(),
            extension_fits([old(self).dimensions.0, old(self).dimensions.1], offset, *coordinates, radius),
            old(self).generation_bounds.is_some() ==> bounds_fit(old(self).generation_bounds.unwrap()),
        ensures
            ({
                let info = planned_extension(
                    [old(self).dimensions.0, old(self).dimensions.1],
                    offset,
                    *coordinates,
                    radius,
                    old(self).generation_bounds,
                );
                let grows = info.needs_extension && fits_limit(old(self).dimensions, info);
                &&& r == (if grows { (info.new_offset, true) } else { (offset, false) })
                &&& final(self).dimensions == (if grows {
                    (
                        (old(self).dimensions.0 + info.pad_left + info.pad_right) as usize,
                        (old(self).dimensions.1 + info.pad_top + info.pad_bottom) as usize,
                    )
                } else {
                    old(self).dimensions
                })
                &&& grows ==> {
                    &&& final(self).locked_tiles@ == padded(old(self).locked_tiles@, final(self).dimensions, info, 1)
                    &&& final(self).adjacency_weights@ == padded(old(self).adjacency_weights@, final(self).dimensions, info, 1)
                    &&& final(self).removal_count@ == padded(old(self).removal_count@, final(self).dimensions, info, 0)
                }
                &&& !grows ==> {
                    &&& final(self).locked_tiles@ == old(self).locked_tiles@
                    &&& final(self).adjacency_weights@ == old(self).adjacency_weights@
                    &&& final(self).removal_count@ == old(self).removal_count@
                }
            }),
            final(self).wf(),
            final(self).unique_cell_count == old(self).unique_cell_count,
            final(self).generation_bounds == old(self).generation_bounds,
    {
        let mut info = calculate_extension([self.rows(), self.cols()], offset, coordinates, radius);
        match &self.generation_bounds {
            Some(bounds) => {
                info = self.constrain_extension(info, bounds, offset);
            },
            None => {},
        }
        let new_rows = self.dimensions.0 as u64 + info.pad_left as u64 + info.pad_right as u64;
        let new_cols = self.dimensions.1 as u64 + info.pad_top as u64 + info.pad_bottom as u64;
        if !info.needs_extension || new_rows > 0x7fff_0000 || new_cols > 0x7fff_0000 {
            return (offset, false);
        }
        assert(new_rows * new_cols <= 0x7fff_ffff * 0x7fff_ffff) by (nonlinear_arith)
            requires
                new_rows <= 0x7fff_0000,
                new_cols <= 0x7fff_0000,
        ;
        if new_rows * new_cols > 0x7fff_0000 {
            return (offset, false);
        }
        let dims = (new_rows as usize, new_cols as usize);
        self.locked_tiles = extend_field(&self.locked_tiles, self.dimensions, dims, &info, 1);
        self.adjacency_weights = extend_field(&self.adjacency_weights, self.dimensions, dims, &info, 1);
        self.removal_count = extend_field(&self.removal_count, self.dimensions, dims, &info, 0);
        self.dimensions = dims;
        (info.new_offset, true)
    }

    /// Reduce the padding so that the grid does not reach past `bounds`.
    fn constrain_extension(&self, info: ExtensionInfo, bounds: &BoundingBox, offset: [i32; 2]) -> (r:
        ExtensionInfo)
        requires
            self.wf(),
            bounds_fit(*bounds),
            offset[0] > i32::MIN,
            offset[1] > i32::MIN,
            info.pad_left <= u32::MAX,
            info.pad_right <= u32::MAX,
            info.pad_top <= u32::MAX,
            info.pad_bottom <= u32::MAX,
            info.needs_extension ==> info.new_offset == [(offset[0] + info.pad_left) as i32, (offset[1] + info.pad_top) as i32],
            info.needs_extension ==> offset[0] + info.pad_left <= i32::MAX && offset[1] + info.pad_top <= i32::MAX,
        ensures
            r == constrained(info, *bounds, offset, self.dimensions),
    {
        let current_min: [i64; 2] = [-(offset[0] as i64), -(offset[1] as i64)];
        let new_min: [i64; 2] = [current_min[0] - info.pad_left as i64, current_min[1] - info.pad_top as i64];
        let mut pad_left: u64 = info.pad_left as u64;
        let mut pad_top: u64 = info.pad_top as u64;
        let mut pad_right: u64 = info.pad_right as u64;
        let mut pad_bottom: u64 = info.pad_bottom as u64;
        if new_min[0] < bounds.min[0] as i64 {
            let excess = (bounds.min[0] as i64 - new_min[0]) as u64;
            pad_left = pad_left.saturating_sub(excess);
        }
        if new_min[1] < bounds.min[1] as i64 {
            let excess = (bounds.min[1] as i64 - new_min[1]) as u64;
            pad_top = pad_top.saturating_sub(excess);
        }
        let current_max: [i64; 2] = [
            current_min[0] + self.dimensions.0 as i64 - 1,
            current_min[1] + self.dimensions.1 as i64 - 1,
        ];
        let new_max: [i64; 2] = [current_max[0] + info.pad_right as i64, current_max[1] + info.pad_bottom as i64];
        if new_max[0] > bounds.max[0] as i64 {
            let excess = (new_max[0] - bounds.max[0] as i64) as u64;
            pad_right = pad_right.saturating_sub(excess);
        }
        if new_max[1] > bounds.max[1] as i64 {
            let excess = (new_max[1] - bounds.max[1] as i64) as u64;
            pad_bottom = pad_bottom.saturating_sub(excess);
        }
        let needs_extension = pad_left + pad_right + pad_top + pad_bottom > 0;
        let new_offset: [i32; 2] = if needs_extension {
            [(offset[0] as i64 + pad_left as i64) as i32, (offset[1] as i64 + pad_top as i64) as i32]
        } else {
            offset
        };
        ExtensionInfo {
            pad_left: pad_left as usize,
            pad_right: pad_right as usize,
            pad_top: pad_top as usize,
            pad_bottom: pad_bottom as usize,
            new_offset,
            needs_extension,
        }
    }
}

/// Bounds whose corners can be compared without overflow.
pub open spec fn bounds_fit(b: BoundingBox) -> bool {
    &&& b.min[0] > i32::MIN
    &&& b.min[1] > i32::MIN
}

/// `pad` reduced by `excess`, not below zero.
pub open spec fn reduce(pad: int, excess: int) -> int {
    if pad >= excess {
        pad - excess
    } else {
        0
    }
}

/// The padding of `info`, cut back so that the grid stays inside `b`.
pub open spec fn constrained(info: ExtensionInfo, b: BoundingBox, offset: [i32; 2], dims: (usize, usize)) -> ExtensionInfo {
    let new_min0 = -offset[0] - info.pad_left;
    let new_min1 = -offset[1] - info.pad_top;
    let new_max0 = -offset[0] + dims.0 - 1 + info.pad_right;
    let new_max1 = -offset[1] + dims.1 - 1 + info.pad_bottom;
    let pl = if new_min0 < b.min[0] { reduce(info.pad_left as int, b.min[0] - new_min0) } else { info.pad_left as int };
    let pt = if new_min1 < b.min[1] { reduce(info.pad_top as int, b.min[1] - new_min1) } else { info.pad_top as int };
    let pr = if new_max0 > b.max[0] { reduce(info.pad_right as int, new_max0 - b.max[0]) } else { info.pad_right as int };
    let pb = if new_max1 > b.max[1] { reduce(info.pad_bottom as int, new_max1 - b.max[1]) } else { info.pad_bottom as int };
    let needs = pl + pr + pt + pb > 0;
    ExtensionInfo {
        pad_left: pl as usize,
        pad_right: pr as usize,
        pad_top: pt as usize,
        pad_bottom: pb as usize,
        new_offset: if needs { [(offset[0] + pl) as i32, (offset[1] + pt) as i32] } else { offset },
        needs_extension: needs,
    }
}

/// The padding that `extend_if_needed` plans: the extension of
/// `calculate_extension`, cut back to the bounds if there are any.
pub open spec fn planned_extension(
    dims: [usize; 2],
    offset: [i32; 2],
    coordinates: [i32; 2],
    radius: i32,
    bounds: Option<BoundingBox>,
) -> ExtensionInfo {
    let info = choose|info: ExtensionInfo| extension_spec(info, dims, offset, coordinates, radius);
    match bounds {
        Some(b) => constrained(info, b, offset, (dims[0], dims[1])),
        None => info,
    }
}

/// The padded grid stays within the cell limit.
pub open spec fn fits_limit(dims: (usize, usize), info: ExtensionInfo) -> bool {
    let rows = dims.0 + info.pad_left + info.pad_right;
    let cols = dims.1 + info.pad_top + info.pad_bottom;
    rows <= cell_limit() && cols <= cell_limit() && rows * cols <= cell_limit()
}

/// `old` moved by the padding of `info` into a field of `dims`, with `fill`
/// in every new cell.
pub open spec fn padded(old: Seq<Seq<u32>>, dims: (usize, usize), info: ExtensionInfo, fill: u32) -> Seq<Seq<u32>> {
    Seq::new(
        dims.0 as nat,
        |i: int|
            Seq::new(
                dims.1 as nat,
                |j: int|
                    if info.pad_left <= i < info.pad_left + old.len() && info.pad_top <= j < info.pad_top
                        + old[i - info.pad_left].len() {
                        old[i - info.pad_left][j - info.pad_top]
                    } else {
                        fill
                    },
            ),
    )
}

/// A copy of `old` (of `old_dims`) inside a new field of `dims`, moved by
/// the padding of `info`, with `fill` in every new cell.
fn extend_field(old: &CellArray, old_dims: (usize, usize), dims: (usize, usize), info: &ExtensionInfo, fill: u32) -> (r: CellArray)
    requires
        shaped(old@, old_dims.0 as nat, old_dims.1 as nat),
        dims.0 == old_dims.0 + info.pad_left + info.pad_right,
        dims.1 == old_dims.1 + info.pad_top + info.pad_bottom,
        dims.0 * dims.1 <= cell_limit(),
        dims.0 <= cell_limit(),
        dims.1 <= cell_limit(),
    ensures
        r@ == padded(old@, dims, *info, fill),
        shaped(r@, dims.0 as nat, dims.1 as nat),
{
    let mut out = CellArray::filled(dims.0, dims.1, fill);
    let mut i: usize = 0;
    while i < old_dims.0
        invariant
            shaped(old@, old_dims.0 as nat, old_dims.1 as nat),
            shaped(out@, dims.0 as nat, dims.1 as nat),
            dims.0 == old_dims.0 + info.pad_left + info.pad_right,
            dims.1 == old_dims.1 + info.pad_top + info.pad_bottom,
            i <= old_dims.0,
            forall|a: int, b: int|
                0 <= a < dims.0 && 0 <= b < dims.1 ==> #[trigger] out@[a][b] == (if info.pad_left <= a < info.pad_left + i
                    && info.pad_top <= b < info.pad_top + old_dims.1 {
                    old@[a - info.pad_left][b - info.pad_top]
                } else {
                    fill
                }),
        decreases old_dims.0 - i,
    {
        let mut j: usize = 0;
        while j < old_dims.1
            invariant
                shaped(old@, old_dims.0 as nat, old_dims.1 as nat),
                shaped(out@, dims.0 as nat, dims.1 as nat),
                dims.0 == old_dims.0 + info.pad_left + info.pad_right,
                dims.1 == old_dims.1 + info.pad_top + info.pad_bottom,
                i < old_dims.0,
                j <= old_dims.1,
                forall|a: int, b: int|
                    0 <= a < dims.0 && 0 <= b < dims.1 ==> #[trigger] out@[a][b] == (if (info.pad_left <= a < info.pad_left + i
                        && info.pad_top <= b < info.pad_top + old_dims.1) || (a == info.pad_left + i && info.pad_top <= b
                        < info.pad_top + j) {
                        old@[a - info.pad_left][b - info.pad_top]
                    } else {
                        fill
                    }),
            decreases old_dims.1 - j,
        {
            let v = old.get(i, j);
            out.set(i + info.pad_left, j + info.pad_top, v);
            j = j + 1;
        }
        i = i + 1;
    }
    let ghost want = padded(old@, dims, *info, fill);
    assert forall|a: int| 0 <= a < dims.0 implies out@[a] =~= want[a] by {
        assert forall|b: int| 0 <= b < dims.1 implies out@[a][b] == want[a][b] by {
            if info.pad_left <= a < info.pad_left + old_dims.0 {
                assert(old@[a - info.pad_left].len() == old_dims.1);
            }
        }
    }
    assert(out@ =~= want);
    out
}

/// Extending toward a square that already lies inside the grid is a no-op:
/// no padding is planned, with or without generation bounds, so
/// `extend_if_needed` keeps the offset and every field.
pub proof fn lemma_extension_inside_grid_is_noop(
    dims: [usize; 2],
    offset: [i32; 2],
    coordinates: [i32; 2],
    radius: i32,
    bounds: Option<BoundingBox>,
)
    requires
        extension_fits(dims, offset, coordinates, radius),
        covered_min(offset[0] as int) <= coordinates[0] - radius,
        coordinates[0] + radius <= covered_max(dims[0] as int, offset[0] as int),
        covered_min(offset[1] as int) <= coordinates[1] - radius,
        coordinates[1] + radius <= covered_max(dims[1] as int, offset[1] as int),
    ensures
        !planned_extension(dims, offset, coordinates, radius, bounds).needs_extension,
{
    let info = choose|info: ExtensionInfo| extension_spec(info, dims, offset, coordinates, radius);
    let witness = ExtensionInfo {
        pad_left: 0,
        pad_right: 0,
        pad_top: 0,
        pad_bottom: 0,
        new_offset: offset,
        needs_extension: false,
    };
    assert(extension_spec(witness, dims, offset, coordinates, radius));
    assert(info.pad_left == 0 && info.pad_right == 0 && info.pad_top == 0 && info.pad_bottom == 0);
}

/// Padding a field whose cells all hold `v` with the fill value `v` gives a
/// field whose cells all hold `v` (an all-ones grid stays all ones).
pub proof fn lemma_padding_keeps_uniform(
    old: Seq<Seq<u32>>,
    dims: (usize, usize),
    info: ExtensionInfo,
    v: u32,
)
    requires
        forall|i: int, j: int| 0 <= i < old.len() && 0 <= j < old[i].len() ==> old[i][j] == v,
    ensures
        forall|i: int, j: int|
            0 <= i < dims.0 && 0 <= j < dims.1 ==> #[trigger] padded(old, dims, info, v)[i][j] == v,
{
}

/// The world rectangle that a grid of `dims` at `offset` covers lies in `b`.
pub open spec fn grid_within(dims: (usize, usize), offset: [i32; 2], b: BoundingBox) -> bool {
    &&& b.min[0] <= -offset[0]
    &&& -offset[0] + dims.0 - 1 <= b.max[0]
    &&& b.min[1] <= -offset[1]
    &&& -offset[1] + dims.1 - 1 <= b.max[1]
}

/// With generation bounds set, a grid that lies inside them still lies
/// inside them after `extend_if_needed`: the padding is cut back at the
/// bounds. So every cell, and every placement, stays in bounds.
pub proof fn lemma_extension_stays_in_bounds(
    dims: [usize; 2],
    offset: [i32; 2],
    coordinates: [i32; 2],
    radius: i32,
    b: BoundingBox,
)
    requires
        extension_fits(dims, offset, coordinates, radius),
        grid_within((dims[0], dims[1]), offset, b),
    ensures
        ({
            let info = planned_extension(dims, offset, coordinates, radius, Some(b));
            info.needs_extension ==> grid_within(
                (
                    (dims[0] + info.pad_left + info.pad_right) as usize,
                    (dims[1] + info.pad_top + info.pad_bottom) as usize,
                ),
                info.new_offset,
                b,
            )
        }),
{
    let pl = crate::extension::pad_before(offset[0] as int, coordinates[0] as int, radius as int);
    let pr = crate::extension::pad_after(dims[0] as int, offset[0] as int, coordinates[0] as int, radius as int);
    let pt = crate::extension::pad_before(offset[1] as int, coordinates[1] as int, radius as int);
    let pb = crate::extension::pad_after(dims[1] as int, offset[1] as int, coordinates[1] as int, radius as int);
    let needs = pl + pr + pt + pb > 0;
    let witness = ExtensionInfo {
        pad_left: pl as usize,
        pad_right: pr as usize,
        pad_top: pt as usize,
        pad_bottom: pb as usize,
        new_offset: if needs { [(offset[0] + pl) as i32, (offset[1] + pt) as i32] } else { offset },
        needs_extension: needs,
    };
    assert(extension_spec(witness, dims, offset, coordinates, radius));
    let raw = choose|info: ExtensionInfo| extension_spec(info, dims, offset, coordinates, radius);
    let info = planned_extension(dims, offset, coordinates, radius, Some(b));
    assert(info == constrained(raw, b, offset, (dims[0], dims[1])));
}

/// A cell of a grid that lies inside `b` has its world position inside `b`.
pub proof fn lemma_cells_in_bounds(dims: (usize, usize), offset: [i32; 2], b: BoundingBox, i: int, j: int)
    requires
        grid_within(dims, offset, b),
        0 <= i < dims.0,
        0 <= j < dims.1,
    ensures
        b.contains_spec([(i - offset[0]) as i32, (j - offset[1]) as i32]),
{
}

impl GridState {
    /// Smallest rectangle of grid indices holding every placed cell, as
    /// `(min_row, max_row, min_col, max_col)`, or `None` when nothing is placed.
    pub fn placed_bounds(&self) -> (r: Option<(usize, usize, usize, usize)>)
        requires
            self.wf(),
        ensures
            r.is_none() <==> forall|i: int, j: int|
                0 <= i < self.rows_spec() && 0 <= j < self.cols_spec() ==> self.locked_tiles@[i][j] <= 1,
            r.is_some() ==> {
                let (r0, r1, c0, c1) = r.unwrap();
                &&& r0 <= r1 < self.rows_spec()
                &&& c0 <= c1 < self.cols_spec()
                &&& forall|i: int, j: int|
                    0 <= i < self.rows_spec() && 0 <= j < self.cols_spec() && self.locked_tiles@[i][j] > 1 ==> r0 <= i
                        <= r1 && c0 <= j <= c1
                &&& exists|j: int| 0 <= j < self.cols_spec() && self.locked_tiles@[r0 as int][j] > 1
                &&& exists|j: int| 0 <= j < self.cols_spec() && self.locked_tiles@[r1 as int][j] > 1
                &&& exists|i: int| 0 <= i < self.rows_spec() && self.locked_tiles@[i][c0 as int] > 1
                &&& exists|i: int| 0 <= i < self.rows_spec() && self.locked_tiles@[i][c1 as int] > 1
            },
    {
        let rows = self.rows();
        let cols = self.cols();
        let mut found: Option<(usize, usize, usize, usize)> = None;
        let mut i: usize = 0;
        while i < rows
            invariant
                self.wf(),
                rows == self.rows_spec(),
                cols == self.cols_spec(),
                i <= rows,
                found.is_none() <==> forall|a: int, b: int| 0 <= a < i && 0 <= b < cols ==> self.locked_tiles@[a][b] <= 1,
                found.is_some() ==> {
                    let (r0, r1, c0, c1) = found.unwrap();
                    &&& r0 <= r1 < i
                    &&& c0 <= c1 < cols
                    &&& forall|a: int, b: int|
                        0 <= a < i && 0 <= b < cols && self.locked_tiles@[a][b] > 1 ==> r0 <= a <= r1 && c0 <= b <= c1
                    &&& exists|b: int| 0 <= b < cols && self.locked_tiles@[r0 as int][b] > 1
                    &&& exists|b: int| 0 <= b < cols && self.locked_tiles@[r1 as int][b] > 1
                    &&& exists|a: int| 0 <= a < i && self.locked_tiles@[a][c0 as int] > 1
                    &&& exists|a: int| 0 <= a < i && self.locked_tiles@[a][c1 as int] > 1
                },
            decreases rows - i,
        {
            let mut j: usize = 0;
            while j < cols
                invariant
                    self.wf(),
                    rows == self.rows_spec(),
                    cols == self.cols_spec(),
                    i < rows,
                    j <= cols,
                    found.is_none() <==> forall|a: int, b: int|
                        ((0 <= a < i && 0 <= b < cols) || (a == i && 0 <= b < j)) ==> self.locked_tiles@[a][b] <= 1,
                    found.is_some() ==> {
                        let (r0, r1, c0, c1) = found.unwrap();
                        &&& r0 <= r1 <= i
                        &&& c0 <= c1 < cols
                        &&& forall|a: int, b: int|
                            ((0 <= a < i && 0 <= b < cols) || (a == i && 0 <= b < j)) && self.locked_tiles@[a][b] > 1
                                ==> r0 <= a <= r1 && c0 <= b <= c1
                        &&& exists|b: int| 0 <= b < cols && self.locked_tiles@[r0 as int][b] > 1
                        &&& exists|b: int| 0 <= b < cols && self.locked_tiles@[r1 as int][b] > 1
                        &&& exists|a: int| 0 <= a <= i && self.locked_tiles@[a][c0 as int] > 1
                        &&& exists|a: int| 0 <= a <= i && self.locked_tiles@[a][c1 as int] > 1
                    },
                decreases cols - j,
            {
                if self.locked_tiles.get(i, j) > 1 {
                    let ghost prev = found;
                    found = match found {
                        None => Some((i, i, j, j)),
                        Some((r0, r1, c0, c1)) => Some((
                            r0,
                            i,
                            if j < c0 { j } else { c0 },
                            if j > c1 { j } else { c1 },
                        )),
                    };
                    proof {
                        let (r0, r1, c0, c1) = found.unwrap();
                        assert(self.locked_tiles@[i as int][j as int] > 1);
                        assert(exists|b: int| 0 <= b < cols && self.locked_tiles@[r1 as int][b] > 1);
                        match prev {
                            None => {
                                assert(exists|b: int| 0 <= b < cols && self.locked_tiles@[r0 as int][b] > 1);
                                assert(exists|a: int| 0 <= a <= i && self.locked_tiles@[a][c0 as int] > 1);
                                assert(exists|a: int| 0 <= a <= i && self.locked_tiles@[a][c1 as int] > 1);
                            },
                            Some((p0, p1, q0, q1)) => {
                                assert(r0 == p0);
                                if j < q0 {
                                    assert(exists|a: int| 0 <= a <= i && self.locked_tiles@[a][c0 as int] > 1);
                                } else {
                                    assert(c0 == q0);
                                }
                                if j > q1 {
                                    assert(exists|a: int| 0 <= a <= i && self.locked_tiles@[a][c1 as int] > 1);
                                } else {
                                    assert(c1 == q1);
                                }
                            },
                        }
                    }
                }
                j = j + 1;
            }
            i = i + 1;
        }
        found
    }
}

/// Every placed cell lies inside the generation bounds, as long as the grid
/// does (which `lemma_extension_stays_in_bounds` keeps across growth).
pub proof fn lemma_placements_in_bounds(g: GridState, offset: [i32; 2])
    requires
        g.wf(),
        g.generation_bounds.is_some(),
        grid_within(g.dimensions, offset, g.generation_bounds.unwrap()),
    ensures
        forall|i: int, j: int|
            0 <= i < g.rows_spec() && 0 <= j < g.cols_spec() && #[trigger] g.locked_tiles@[i][j] >= 2
                ==> g.generation_bounds.unwrap().contains_spec([(i - offset[0]) as i32, (j - offset[1]) as i32]),
{
    assert forall|i: int, j: int|
        0 <= i < g.rows_spec() && 0 <= j < g.cols_spec() && #[trigger] g.locked_tiles@[i][j] >= 2 implies g.generation_bounds.unwrap().contains_spec(
        [(i - offset[0]) as i32, (j - offset[1]) as i32],
    ) by {
        lemma_cells_in_bounds(g.dimensions, offset, g.generation_bounds.unwrap(), i, j);
    }
}

} // verus!
