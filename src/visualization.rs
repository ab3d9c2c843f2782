//! Record of placement and removal events for later animation.

use vstd::prelude::*;

verus! {

/// A single placement or removal event.
#[derive(Debug, Clone)]
pub struct TilePlacement {
    /// World row.
    pub row: i32,
    /// World column.
    pub col: i32,
    /// Locked value written (`None` for a removal).
    pub tile_ref: Option<u32>,
    /// Iteration of the event.
    pub iteration: usize,
}

/// Captures placement events during a run.
pub struct VisualizationCapture {
    placements: Vec<TilePlacement>,
    initial_dims: (usize, usize),
    color_mapping: Vec<[u8; 4]>,
    empty_color: [u8; 4],
}

/// Sum of channel `ch` over a palette.
pub open spec fn channel_sum(colors: Seq<[u8; 4]>, ch: int) -> nat
    decreases colors.len(),
{
    if colors.len() == 0 {
        0
    } else {
        channel_sum(colors.drop_last(), ch) + colors.last()[ch] as nat
    }
}

/// Color shown for empty cells: the per-channel mean of the palette (rounded
/// down), or opaque grey for an empty palette.
pub open spec fn empty_color_of(colors: Seq<[u8; 4]>) -> [u8; 4] {
    if colors.len() == 0 {
        [128u8, 128u8, 128u8, 255u8]
    } else {
        [
            (channel_sum(colors, 0) / colors.len()) as u8,
            (channel_sum(colors, 1) / colors.len()) as u8,
            (channel_sum(colors, 2) / colors.len()) as u8,
            (channel_sum(colors, 3) / colors.len()) as u8,
        ]
    }
}

/// Smallest of 0 and the rows of the events.
pub open spec fn min_row_of(p: Seq<TilePlacement>) -> int
    decreases p.len(),
{
    if p.len() == 0 {
        0
    } else if p.last().row < min_row_of(p.drop_last()) {
        p.last().row as int
    } else {
        min_row_of(p.drop_last())
    }
}

/// Largest of 0 and the rows of the events.
pub open spec fn max_row_of(p: Seq<TilePlacement>) -> int
    decreases p.len(),
{
    if p.len() == 0 {
        0
    } else if p.last().row > max_row_of(p.drop_last()) {
        p.last().row as int
    } else {
        max_row_of(p.drop_last())
    }
}

/// Smallest of 0 and the columns of the events.
pub open spec fn min_col_of(p: Seq<TilePlacement>) -> int
    decreases p.len(),
{
    if p.len() == 0 {
        0
    } else if p.last().col < min_col_of(p.drop_last()) {
        p.last().col as int
    } else {
        min_col_of(p.drop_last())
    }
}

/// Largest of 0 and the columns of the events.
pub open spec fn max_col_of(p: Seq<TilePlacement>) -> int
    decreases p.len(),
{
    if p.len() == 0 {
        0
    } else if p.last().col > max_col_of(p.drop_last()) {
        p.last().col as int
    } else {
        max_col_of(p.drop_last())
    }
}

proof fn lemma_extremes_bounded(p: Seq<TilePlacement>)
    ensures
        i32::MIN <= min_row_of(p) <= 0 <= max_row_of(p) <= i32::MAX,
        i32::MIN <= min_col_of(p) <= 0 <= max_col_of(p) <= i32::MAX,
    decreases p.len(),
{
    if p.len() > 0 {
        lemma_extremes_bounded(p.drop_last());
    }
}

impl VisualizationCapture {
    /// Recorded events, oldest first.
    pub closed spec fn events(&self) -> Seq<TilePlacement> {
        self.placements@
    }

    /// Color used for empty cells.
    pub closed spec fn empty_color_spec(&self) -> [u8; 4] {
        self.empty_color
    }

    /// Grid dimensions given at creation.
    pub closed spec fn initial_dims_spec(&self) -> (usize, usize) {
        self.initial_dims
    }

    /// Palette, indexed by tile value minus one.
    pub closed spec fn palette(&self) -> Seq<[u8; 4]> {
        self.color_mapping@
    }

    /// Start a capture; the empty color is the mean palette color.
    pub fn new(initial_rows: usize, initial_cols: usize, color_mapping: Vec<[u8; 4]>, max_iterations: usize) -> (r:
        Self)
        requires
            color_mapping.len() <= u32::MAX,
        ensures
            r.events().len() == 0,
            r.empty_color_spec() == empty_color_of(color_mapping@),
            r.initial_dims_spec() == (initial_rows, initial_cols),
            r.palette() == color_mapping@,
    {
        let empty_color = if color_mapping.len() == 0 {
            [128u8, 128u8, 128u8, 255u8]
        } else {
            let mut sums: [u64; 4] = [0, 0, 0, 0];
            let mut k: usize = 0;
            while k < color_mapping.len()
                invariant
                    k <= color_mapping.len(),
                    color_mapping.len() <= u32::MAX,
                    forall|ch: int| 0 <= ch < 4 ==> sums[ch] == channel_sum(color_mapping@.take(k as int), ch),
                    forall|ch: int| 0 <= ch < 4 ==> sums[ch] <= 255 * k,
                decreases color_mapping.len() - k,
            {
                let color = color_mapping[k];
                proof {
                    assert(color_mapping@.take(k + 1).drop_last() =~= color_mapping@.take(k as int));
                }
                sums = [
                    sums[0] + color[0] as u64,
                    sums[1] + color[1] as u64,
                    sums[2] + color[2] as u64,
                    sums[3] + color[3] as u64,
                ];
                k = k + 1;
            }
            proof {
                assert(color_mapping@.take(k as int) =~= color_mapping@);
            }
            let count = color_mapping.len() as u64;
            assert forall|ch: int| 0 <= ch < 4 implies sums[ch] / count <= 255 by {
                assert(sums[ch] <= 255 * count);
                assert(sums[ch] / count <= 255) by (nonlinear_arith)
                    requires sums[ch] <= 255 * count, count > 0;
            }
            [
                (sums[0] / count) as u8,
                (sums[1] / count) as u8,
                (sums[2] / count) as u8,
                (sums[3] / count) as u8,
            ]
        };
        VisualizationCapture {
            placements: Vec::with_capacity(max_iterations),
            initial_dims: (initial_rows, initial_cols),
            color_mapping,
            empty_color,
        }
    }

    /// Record a tile placement at a world position.
    pub fn record_placement(&mut self, row: i32, col: i32, tile_ref: u32, iteration: usize)
        ensures
            final(self).events() == old(self).events().push(
                TilePlacement { row, col, tile_ref: Some(tile_ref), iteration },
            ),
            final(self).palette() == old(self).palette(),
            final(self).empty_color_spec() == old(self).empty_color_spec(),
            final(self).initial_dims_spec() == old(self).initial_dims_spec(),
    {
        self.placements.push(TilePlacement { row, col, tile_ref: Some(tile_ref), iteration });
    }

    /// Record a tile removal at a world position.
    pub fn record_removal(&mut self, row: i32, col: i32, iteration: usize)
        ensures
            final(self).events() == old(self).events().push(
                TilePlacement { row, col, tile_ref: None, iteration },
            ),
            final(self).palette() == old(self).palette(),
            final(self).empty_color_spec() == old(self).empty_color_spec(),
            final(self).initial_dims_spec() == old(self).initial_dims_spec(),
    {
        self.placements.push(TilePlacement { row, col, tile_ref: None, iteration });
    }

    /// All recorded events.
    pub fn get_placements(&self) -> (r: &[TilePlacement])
        ensures
            r@ == self.events(),
    {
        self.placements.as_slice()
    }

    /// The palette.
    pub fn color_mapping(&self) -> (r: &[[u8; 4]])
        ensures
            r@ == self.palette(),
    {
        self.color_mapping.as_slice()
    }

    /// The color of empty cells.
    pub fn empty_color(&self) -> (r: [u8; 4])
        ensures
            r == self.empty_color_spec(),
    {
        self.empty_color
    }

    /// Number of recorded events.
    pub fn placement_count(&self) -> (r: usize)
        ensures
            r == self.events().len(),
    {
        self.placements.len()
    }

    /// Bounding rectangle of the events and the origin: `(min_row, min_col,
    /// rows, cols)`, or the initial dimensions at the origin when nothing was
    /// recorded.
    pub fn calculate_final_bounds(&self) -> (r: (i32, i32, usize, usize))
        ensures
            self.events().len() == 0 ==> r == (0i32, 0i32, self.initial_dims_spec().0, self.initial_dims_spec().1),
            self.events().len() > 0 ==> {
                let p = self.events();
                &&& r.0 == min_row_of(p)
                &&& r.1 == min_col_of(p)
                &&& r.2 == (max_row_of(p) - min_row_of(p) + 1) as usize
                &&& r.3 == (max_col_of(p) - min_col_of(p) + 1) as usize
            },
    {
        if self.placements.len() == 0 {
            return (0, 0, self.initial_dims.0, self.initial_dims.1);
        }
        let mut min_row: i32 = 0;
        let mut max_row: i32 = 0;
        let mut min_col: i32 = 0;
        let mut max_col: i32 = 0;
        let mut k: usize = 0;
        while k < self.placements.len()
            invariant
                k <= self.placements.len(),
                min_row == min_row_of(self.placements@.take(k as int)),
                max_row == max_row_of(self.placements@.take(k as int)),
                min_col == min_col_of(self.placements@.take(k as int)),
                max_col == max_col_of(self.placements@.take(k as int)),
            decreases self.placements.len() - k,
        {
            let p = &self.placements[k];
            proof {
                assert(self.placements@.take(k + 1).drop_last() =~= self.placements@.take(k as int));
            }
            if p.row < min_row {
                min_row = p.row;
            }
            if p.row > max_row {
                max_row = p.row;
            }
            if p.col < min_col {
                min_col = p.col;
            }
            if p.col > max_col {
                max_col = p.col;
            }
            k = k + 1;
        }
        proof {
            assert(self.placements@.take(k as int) =~= self.placements@);
            lemma_extremes_bounded(self.placements@);
        }
        let rows = (max_row as i64 - min_row as i64 + 1) as usize;
        let cols = (max_col as i64 - min_col as i64 + 1) as usize;
        (min_row, min_col, rows, cols)
    }
}

} // verus!
