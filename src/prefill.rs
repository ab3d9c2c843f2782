//! Prefilled placements: a queue of tiles to place first and the positions
//! they protect.

use vstd::prelude::*;
use crate::error::{AlgorithmError, Result};
use crate::grid::BoundingBox;

verus! {

/// A single placement instruction.
#[derive(Debug, Clone)]
pub struct PrefillPlacement {
    /// World coordinates (row, col).
    pub world_position: [i32; 2],
    /// Tile value (1-based).
    pub tile_reference: usize,
}

/// Prefill placements and the positions they protect.
pub struct PrefillData {
    /// Placements still to make, front first.
    pub placement_queue: std::collections::VecDeque<PrefillPlacement>,
    /// Protected positions with their tile values.
    pub protected_positions: Vec<([i32; 2], usize)>,
    /// Bounding box of all prefill positions.
    pub bounds: BoundingBox,
}

/// Tile value of a color: one plus its last index in the palette, if any.
pub open spec fn tile_of_color(palette: Seq<[u8; 4]>, color: [u8; 4]) -> Option<usize>
    decreases palette.len(),
{
    if palette.len() == 0 {
        None
    } else if palette.last() == color {
        Some(palette.len() as usize)
    } else {
        tile_of_color(palette.drop_last(), color)
    }
}

/// World position of pixel `(x, y)` in an image of `width` by `height`
/// centred at the origin, as (row, col).
pub open spec fn pixel_world(x: int, y: int, width: int, height: int) -> [i32; 2] {
    [(y - height / 2) as i32, (x - width / 2) as i32]
}

/// Placements for the first `n` pixels (row-major) whose color is in the palette.
pub open spec fn placements_of(pixels: Seq<[u8; 4]>, palette: Seq<[u8; 4]>, width: int, height: int, n: int) -> Seq<
    PrefillPlacement,
>
    decreases n,
{
    if n <= 0 {
        Seq::empty()
    } else {
        let prev = placements_of(pixels, palette, width, height, n - 1);
        match tile_of_color(palette, pixels[n - 1]) {
            Some(t) => prev.push(
                PrefillPlacement {
                    world_position: pixel_world((n - 1) % width, (n - 1) / width, width, height),
                    tile_reference: t,
                },
            ),
            None => prev,
        }
    }
}

/// Smallest row among the placements (`i32::MAX` when there are none).
pub open spec fn min_row_in(q: Seq<PrefillPlacement>) -> i32
    decreases q.len(),
{
    if q.len() == 0 {
        i32::MAX
    } else if q.last().world_position[0] < min_row_in(q.drop_last()) {
        q.last().world_position[0]
    } else {
        min_row_in(q.drop_last())
    }
}

/// Largest row among the placements (`i32::MIN` when there are none).
pub open spec fn max_row_in(q: Seq<PrefillPlacement>) -> i32
    decreases q.len(),
{
    if q.len() == 0 {
        i32::MIN
    } else if q.last().world_position[0] > max_row_in(q.drop_last()) {
        q.last().world_position[0]
    } else {
        max_row_in(q.drop_last())
    }
}

/// Smallest column among the placements (`i32::MAX` when there are none).
pub open spec fn min_col_in(q: Seq<PrefillPlacement>) -> i32
    decreases q.len(),
{
    if q.len() == 0 {
        i32::MAX
    } else if q.last().world_position[1] < min_col_in(q.drop_last()) {
        q.last().world_position[1]
    } else {
        min_col_in(q.drop_last())
    }
}

/// Largest column among the placements (`i32::MIN` when there are none).
pub open spec fn max_col_in(q: Seq<PrefillPlacement>) -> i32
    decreases q.len(),
{
    if q.len() == 0 {
        i32::MIN
    } else if q.last().world_position[1] > max_col_in(q.drop_last()) {
        q.last().world_position[1]
    } else {
        max_col_in(q.drop_last())
    }
}

/// Tile value of the first protected entry at world position `w`.
pub open spec fn protected_tile(p: Seq<([i32; 2], usize)>, w: [i32; 2]) -> Option<usize>
    decreases p.len(),
{
    if p.len() == 0 {
        None
    } else if p[0].0 == w {
        Some(p[0].1)
    } else {
        protected_tile(p.drop_first(), w)
    }
}

/// Tile value of a color in the palette (the last match wins).
fn lookup_color(palette: &Vec<[u8; 4]>, color: [u8; 4]) -> (r: Option<usize>)
    ensures
        r == tile_of_color(palette@, color),
{
    let mut k: usize = palette.len();
    assert(palette@.take(k as int) =~= palette@);
    while k > 0
        invariant
            k <= palette.len(),
            tile_of_color(palette@, color) == tile_of_color(palette@.take(k as int), color),
        decreases k,
    {
        let c = palette[k - 1];
        proof {
            assert(palette@.take(k as int).drop_last() =~= palette@.take(k - 1));
        }
        if c[0] == color[0] && c[1] == color[1] && c[2] == color[2] && c[3] == color[3] {
            proof {
                assert(c =~= color);
            }
            return Some(k);
        }
        proof {
            assert(c != color) by {
                if c == color {
                    assert(c[0] == color[0] && c[1] == color[1] && c[2] == color[2] && c[3] == color[3]);
                }
            }
        }
        k = k - 1;
    }
    None
}

impl PrefillData {
    /// Build the prefill from decoded pixels (row-major, `width` by `height`,
    /// RGBA). Pixels whose color is in the palette are queued, centred at the
    /// origin, with their tile value; the rest are ignored. Fails when no
    /// pixel has a palette color.
    pub fn from_pixels(width: u32, height: u32, pixels: &Vec<[u8; 4]>, color_mapping: &Vec<[u8; 4]>) -> (r: Result<Self>)
        requires
            pixels.len() == width * height,
            width <= i32::MAX,
            height <= i32::MAX,
        ensures
            r.is_err() <==> placements_of(pixels@, color_mapping@, width as int, height as int, pixels.len() as int).len() == 0,
            r.is_err() ==> r matches Err(AlgorithmError::InvalidSourceData { .. }),
            r.is_ok() ==> {
                let d = r.unwrap();
                let q = placements_of(pixels@, color_mapping@, width as int, height as int, pixels.len() as int);
                &&& d.placement_queue@ == q
                &&& d.protected_positions@.len() == q.len()
                &&& forall|k: int|
                    0 <= k < q.len() ==> #[trigger] d.protected_positions@[k] == (
                        q[k].world_position,
                        q[k].tile_reference,
                    )
                &&& forall|k: int| 0 <= k < q.len() ==> d.bounds.contains_spec(#[trigger] q[k].world_position)
                &&& d.bounds.min == [min_row_in(q), min_col_in(q)]
                &&& d.bounds.max == [max_row_in(q), max_col_in(q)]
            },
    {
        let mut queue: std::collections::VecDeque<PrefillPlacement> = std::collections::VecDeque::new();
        let mut protected: Vec<([i32; 2], usize)> = Vec::new();
        let mut min_row: i32 = i32::MAX;
        let mut max_row: i32 = i32::MIN;
        let mut min_col: i32 = i32::MAX;
        let mut max_col: i32 = i32::MIN;
        let half_w = (width / 2) as i32;
        let half_h = (height / 2) as i32;
        let mut p: usize = 0;
        if width == 0 {
            proof {
                assert(pixels.len() == 0) by (nonlinear_arith)
                    requires pixels.len() == width * height, width == 0;
            }
        }
        while p < pixels.len()
            invariant
                pixels.len() == width * height,
                width <= i32::MAX,
                height <= i32::MAX,
                width > 0 || pixels.len() == 0,
                half_w == width / 2,
                half_h == height / 2,
                p <= pixels.len(),
                queue@ == placements_of(pixels@, color_mapping@, width as int, height as int, p as int),
                protected@.len() == queue@.len(),
                forall|k: int| 0 <= k < queue@.len() ==> #[trigger] protected@[k] == (queue@[k].world_position, queue@[k].tile_reference),
                forall|k: int|
                    0 <= k < queue@.len() ==> (BoundingBox { min: [min_row, min_col], max: [max_row, max_col] }).contains_spec(
                        #[trigger] queue@[k].world_position,
                    ),
                min_row == min_row_in(queue@),
                max_row == max_row_in(queue@),
                min_col == min_col_in(queue@),
                max_col == max_col_in(queue@),
            decreases pixels.len() - p,
        {
            let x = (p % (width as usize)) as i32;
            let y = (p / (width as usize)) as i32;
            proof {
                assert((p as int) / (width as int) < height) by (nonlinear_arith)
                    requires p < width * height, width > 0;
            }
            match lookup_color(color_mapping, pixels[p]) {
                Some(tile) => {
                    let world: [i32; 2] = [y - half_h, x - half_w];
                    assert(world == pixel_world(p as int % width as int, p as int / width as int, width as int, height as int));
                    let ghost before = queue@;
                    queue.push_back(PrefillPlacement { world_position: world, tile_reference: tile });
                    protected.push((world, tile));
                    assert(queue@.drop_last() =~= before);
                    if world[0] < min_row {
                        min_row = world[0];
                    }
                    if world[0] > max_row {
                        max_row = world[0];
                    }
                    if world[1] < min_col {
                        min_col = world[1];
                    }
                    if world[1] > max_col {
                        max_col = world[1];
                    }
                    proof {
                        assert forall|k: int| 0 <= k < queue@.len() implies #[trigger] protected@[k] == (
                            queue@[k].world_position,
                            queue@[k].tile_reference,
                        ) by {
                            if k < before.len() {
                                assert(queue@[k] == before[k]);
                            }
                        }
                    }
                },
                None => {},
            }
            p = p + 1;
        }
        if queue.len() == 0 {
            return Err(AlgorithmError::InvalidSourceData {
                reason: "Prefill image contains no colors from source palette".to_owned(),
            });
        }
        let bounds = BoundingBox { min: [min_row, min_col], max: [max_row, max_col] };
        assert(bounds.min =~= [min_row, min_col]);
        assert(bounds.max =~= [max_row, max_col]);
        Ok(PrefillData {
            placement_queue: queue,
            protected_positions: protected,
            bounds,
        })
    }

    /// The tile value protected at a world position, if any (first entry wins).
    pub fn is_protected(&self, world_pos: [i32; 2]) -> (r: Option<usize>)
        ensures
            r == protected_tile(self.protected_positions@, world_pos),
            r.is_none() <==> forall|k: int|
                0 <= k < self.protected_positions@.len() ==> (#[trigger] self.protected_positions@[k]).0 != world_pos,
            r.is_some() ==> exists|k: int|
                0 <= k < self.protected_positions@.len() && (#[trigger] self.protected_positions@[k]).0 == world_pos
                    && self.protected_positions@[k].1 == r.unwrap() && forall|x: int|
                    0 <= x < k ==> self.protected_positions@[x].0 != world_pos,
    {
        let mut k: usize = 0;
        assert(self.protected_positions@.skip(0) =~= self.protected_positions@);
        while k < self.protected_positions.len()
            invariant
                k <= self.protected_positions@.len(),
                forall|x: int| 0 <= x < k ==> (#[trigger] self.protected_positions@[x]).0 != world_pos,
                protected_tile(self.protected_positions@, world_pos) == protected_tile(
                    self.protected_positions@.skip(k as int),
                    world_pos,
                ),
            decreases self.protected_positions@.len() - k,
        {
            let entry = self.protected_positions[k];
            proof {
                let rest = self.protected_positions@.skip(k as int);
                assert(rest[0] == entry);
                assert(rest.drop_first() =~= self.protected_positions@.skip(k + 1));
            }
            if entry.0[0] == world_pos[0] && entry.0[1] == world_pos[1] {
                proof {
                    assert(entry.0 =~= world_pos);
                }
                return Some(entry.1);
            }
            proof {
                assert(entry.0 != world_pos) by {
                    if entry.0 == world_pos {
                        assert(entry.0[0] == world_pos[0] && entry.0[1] == world_pos[1]);
                    }
                }
            }
            k = k + 1;
        }
        proof {
            assert(self.protected_positions@.skip(k as int).len() == 0);
        }
        None
    }

    /// Take the next placement from the front of the queue.
    pub fn next_placement(&mut self) -> (r: Option<PrefillPlacement>)
        ensures
            old(self).placement_queue@.len() == 0 ==> r.is_none() && final(self).placement_queue@ == old(self).placement_queue@,
            old(self).placement_queue@.len() > 0 ==> r == Some(old(self).placement_queue@[0])
                && final(self).placement_queue@ == old(self).placement_queue@.drop_first(),
            final(self).protected_positions@ == old(self).protected_positions@,
            final(self).bounds == old(self).bounds,
    {
        self.placement_queue.pop_front()
    }

    /// Put a replacement at the front of the queue.
    pub fn queue_replacement(&mut self, placement: PrefillPlacement)
        ensures
            final(self).placement_queue@ == seq![placement] + old(self).placement_queue@,
            final(self).protected_positions@ == old(self).protected_positions@,
            final(self).bounds == old(self).bounds,
    {
        self.placement_queue.push_front(placement);
        assert(self.placement_queue@ =~= seq![placement] + old(self).placement_queue@);
    }
}

} // verus!
