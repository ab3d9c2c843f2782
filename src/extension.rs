//! Padding arithmetic for growing the grid around a world coordinate.

use vstd::prelude::*;

verus! {

/// Types that have a fill value for newly added grid cells.
pub trait Extendable: Sized {
    /// The value to use for padding new cells.
    fn padding_value() -> Self;
}

impl Extendable for u32 {
    fn padding_value() -> (r: u32)
        ensures
            r == 1,
    {
        1
    }
}

impl Extendable for u8 {
    /// Removal counts of new cells start at zero.
    fn padding_value() -> (r: u8)
        ensures
            r == 0,
    {
        0
    }
}

/// Padding needed on each side of the grid and the offset that keeps world
/// coordinates stable.
#[derive(Debug, Clone, Copy)]
pub struct ExtensionInfo {
    /// Padding needed before the first row.
    pub pad_left: usize,
    /// Padding needed after the last row.
    pub pad_right: usize,
    /// Padding needed before the first column.
    pub pad_top: usize,
    /// Padding needed after the last column.
    pub pad_bottom: usize,
    /// Offset after the extension.
    pub new_offset: [i32; 2],
    /// Whether any padding is needed.
    pub needs_extension: bool,
}

/// Smallest world coordinate that the grid covers along an axis.
pub open spec fn covered_min(offset: int) -> int {
    -offset
}

/// Largest world coordinate that the grid covers along an axis.
pub open spec fn covered_max(dim: int, offset: int) -> int {
    -offset + dim - 1
}

/// Padding before the first index so that `coordinate - radius` is covered.
pub open spec fn pad_before(offset: int, coordinate: int, radius: int) -> int {
    if coordinate - radius < covered_min(offset) {
        covered_min(offset) - (coordinate - radius)
    } else {
        0
    }
}

/// Padding after the last index so that `coordinate + radius` is covered.
pub open spec fn pad_after(dim: int, offset: int, coordinate: int, radius: int) -> int {
    if coordinate + radius > covered_max(dim, offset) {
        coordinate + radius - covered_max(dim, offset)
    } else {
        0
    }
}

/// The inputs for which every padding and the new offset fit their types.
pub open spec fn extension_fits(
    current_dims: [usize; 2],
    offset: [i32; 2],
    coordinates: [i32; 2],
    radius: i32,
) -> bool {
    &&& current_dims[0] <= i32::MAX
    &&& current_dims[1] <= i32::MAX
    &&& offset[0] > i32::MIN
    &&& offset[1] > i32::MIN
    &&& coordinates[0] - radius >= -i32::MAX
    &&& coordinates[1] - radius >= -i32::MAX
    &&& coordinates[0] + radius <= i32::MAX
    &&& coordinates[1] + radius <= i32::MAX
}

/// What `calculate_extension` returns, stated over the world rectangle that
/// the grid covers.
pub open spec fn extension_spec(
    info: ExtensionInfo,
    current_dims: [usize; 2],
    offset: [i32; 2],
    coordinates: [i32; 2],
    radius: i32,
) -> bool {
    let pl = pad_before(offset[0] as int, coordinates[0] as int, radius as int);
    let pr = pad_after(current_dims[0] as int, offset[0] as int, coordinates[0] as int, radius as int);
    let pt = pad_before(offset[1] as int, coordinates[1] as int, radius as int);
    let pb = pad_after(current_dims[1] as int, offset[1] as int, coordinates[1] as int, radius as int);
    &&& info.pad_left == pl
    &&& info.pad_right == pr
    &&& info.pad_top == pt
    &&& info.pad_bottom == pb
    &&& info.needs_extension == (pl + pr + pt + pb > 0)
    &&& info.new_offset == (if info.needs_extension {
        [(offset[0] + pl) as i32, (offset[1] + pt) as i32]
    } else {
        offset
    })
}

/// Padding needed so that the square `[coordinate - radius, coordinate + radius]`
/// fits in a grid of `current_dims` whose world origin sits at `offset`.
pub fn calculate_extension(
    current_dims: [usize; 2],
    offset: [i32; 2],
    coordinates: &[i32; 2],
    radius: i32,
) -> (r: ExtensionInfo)
    requires
        extension_fits(current_dims, offset, *coordinates, radius),
    ensures
        extension_spec(r, current_dims, offset, *coordinates, radius),
        r.new_offset[0] >= offset[0],
        r.new_offset[1] >= offset[1],
{
    let dims: [i64; 2] = [current_dims[0] as i64, current_dims[1] as i64];
    let current_min: [i64; 2] = [-(offset[0] as i64), -(offset[1] as i64)];
    let current_max: [i64; 2] = [current_min[0] + dims[0] - 1, current_min[1] + dims[1] - 1];
    let low: [i64; 2] = [
        coordinates[0] as i64 - radius as i64,
        coordinates[1] as i64 - radius as i64,
    ];
    let high: [i64; 2] = [
        coordinates[0] as i64 + radius as i64,
        coordinates[1] as i64 + radius as i64,
    ];
    let pad_left: usize = if low[0] < current_min[0] {
        (current_min[0] - low[0]) as usize
    } else {
        0
    };
    let pad_right: usize = if high[0] > current_max[0] {
        (high[0] - current_max[0]) as usize
    } else {
        0
    };
    let pad_top: usize = if low[1] < current_min[1] {
        (current_min[1] - low[1]) as usize
    } else {
        0
    };
    let pad_bottom: usize = if high[1] > current_max[1] {
        (high[1] - current_max[1]) as usize
    } else {
        0
    };
    let needs_extension = pad_left as u64 + pad_right as u64 + pad_top as u64 + pad_bottom as u64 > 0;
    let new_offset: [i32; 2] = if needs_extension {
        [(offset[0] as i64 + pad_left as i64) as i32, (offset[1] as i64 + pad_top as i64) as i32]
    } else {
        offset
    };
    ExtensionInfo { pad_left, pad_right, pad_top, pad_bottom, new_offset, needs_extension }
}

} // verus!
