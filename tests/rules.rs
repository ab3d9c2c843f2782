use greedytile::cache::ViableTilesCache;
use greedytile::configuration::ADJACENCY_LEVELS;
use greedytile::deadlock::resolve_spatial_deadlock;
use greedytile::feasibility::FeasibilityCountLayer;
use greedytile::grid::GridState;
use greedytile::propagation::{ForcedPipeline, ForcedPosition, StepData};
use greedytile::selection::compute_viable_tiles_at_position;
use greedytile::tiles::{Tile, TileExtractor};

fn indexed(source_tiles: &[Tile], colors: usize) -> Vec<Vec<usize>> {
    let mut extractor = TileExtractor::from_tiles(source_tiles.to_vec());
    extractor.build_boolean_reference_rules(colors);
    extractor.get_boolean_reference_rules().clone()
}

fn step_data(source_tiles: &[Tile], colors: usize, radius: i32) -> StepData {
    StepData {
        unique_cell_count: colors,
        grid_extension_radius: radius,
        source_tiles: source_tiles.to_vec(),
        tile_compatibility_rules: indexed(source_tiles, colors),
    }
}

#[test]
fn test_forced_pipeline_deduplication() {
    let mut pipeline = ForcedPipeline::new();

    let positions = vec![
        ForcedPosition { coordinates: [1, 2], tile_reference: 5 },
        ForcedPosition { coordinates: [3, 4], tile_reference: 7 },
        ForcedPosition { coordinates: [5, 6], tile_reference: 9 },
    ];
    pipeline.add_positions(positions);

    let duplicates = vec![
        ForcedPosition { coordinates: [1, 2], tile_reference: 10 },
        ForcedPosition { coordinates: [7, 8], tile_reference: 11 },
        ForcedPosition { coordinates: [3, 4], tile_reference: 12 },
    ];
    pipeline.add_positions(duplicates);

    assert_eq!(pipeline.take_next().unwrap().coordinates, [1, 2]);
    assert_eq!(pipeline.take_next().unwrap().coordinates, [3, 4]);
    assert_eq!(pipeline.take_next().unwrap().coordinates, [5, 6]);
    assert_eq!(pipeline.take_next().unwrap().coordinates, [7, 8]);
    assert!(pipeline.take_next().is_none());
}

#[test]
fn test_compute_viable_tiles_at_position_basic() {
    let mut grid_state = GridState::new(5, 5, 2);
    let source_tiles: Vec<Tile> = vec![[[1, 1, 1], [1, 1, 1], [1, 1, 1]], [[2, 2, 2], [2, 2, 2], [2, 2, 2]]];
    grid_state.locked_tiles.set(1, 1, 1);
    grid_state.locked_tiles.set(1, 2, 2);
    let step_data = step_data(&source_tiles, 2, 5);
    let mut cache = ViableTilesCache::new();
    let viable = compute_viable_tiles_at_position(&grid_state, [2, 2], [0, 0], &step_data, &mut cache);
    assert!(!viable.is_empty(), "Should have at least one viable tile");
    assert!(viable.len() <= 2, "Should not exceed number of unique values");
    assert_eq!(viable, vec![1]);
}

#[test]
fn test_compute_viable_tiles_with_only_wildcards() {
    let grid_state = GridState::new(5, 5, 2);
    let source_tiles: Vec<Tile> = vec![[[1, 1, 1], [1, 1, 1], [1, 1, 1]], [[2, 2, 2], [2, 2, 2], [2, 2, 2]]];
    let step_data = step_data(&source_tiles, 2, 5);
    let mut cache = ViableTilesCache::new();
    let viable = compute_viable_tiles_at_position(&grid_state, [2, 2], [0, 0], &step_data, &mut cache);
    assert_eq!(viable.len(), 2, "All tiles should be viable with only wildcards");
    assert!(viable.contains(&1), "Should contain value 1");
    assert!(viable.contains(&2), "Should contain value 2");
}

#[test]
fn test_compute_viable_tiles_constrained_position() {
    let mut grid_state = GridState::new(5, 5, 2);
    let source_tiles: Vec<Tile> = vec![[[1, 2, 1], [2, 1, 2], [1, 2, 1]], [[2, 1, 2], [1, 2, 1], [2, 1, 2]]];
    grid_state.locked_tiles.set(1, 1, 1);
    grid_state.locked_tiles.set(1, 2, 2);
    grid_state.locked_tiles.set(2, 1, 2);
    grid_state.locked_tiles.set(2, 2, 1);
    let step_data = step_data(&source_tiles, 2, 5);
    let mut cache = ViableTilesCache::new();
    let viable = compute_viable_tiles_at_position(&grid_state, [1, 1], [0, 0], &step_data, &mut cache);
    assert!(!viable.is_empty(), "Should have viable values for checkerboard position");
    assert_eq!(viable, vec![2]);
}

#[test]
fn test_feasibility_count_layer_new() {
    let layer = FeasibilityCountLayer::new(5, 5, 10);
    assert_eq!(layer.count_at(0, 0) as usize, layer.tile_count());
    assert_eq!(layer.count_at(4, 4) as usize, layer.tile_count());
}

#[test]
fn test_feasibility_count_layer_extend_preserves_data() {
    let mut layer = FeasibilityCountLayer::new(2, 2, 10);
    let source_tiles: Vec<Tile> = vec![[[1, 2, 3], [4, 5, 6], [7, 8, 9]], [[9, 8, 7], [6, 5, 4], [3, 2, 1]]];
    let rules = indexed(&source_tiles, 10);
    let tile_grid = [[1, 2, 3], [4, 5, 6], [7, 8, 9]];
    layer.update_count(2, 2, 0, 0, &tile_grid, &source_tiles, &rules, 10);
    let first_count = layer.count_at(0, 0);
    assert_eq!(first_count, 1);

    layer.extend_to(2, 2, 4, 3, 0, 0);
    assert_eq!(layer.count_at(0, 0), first_count);
    let count_1_1 = layer.count_at(1, 1);
    assert_eq!(layer.count_at(1, 1), count_1_1);
    assert_eq!(layer.count_at(2, 0), 10);
    assert_eq!(layer.count_at(3, 2), 10);

    layer.extend_to(4, 3, 2, 2, 0, 0);
    assert_eq!(layer.count_at(0, 0), first_count);
}

#[test]
fn test_update_count_with_matching_tiles() {
    let mut layer = FeasibilityCountLayer::new(3, 3, 3);
    let source_tiles: Vec<Tile> = vec![
        [[1, 2, 3], [4, 5, 6], [7, 8, 9]],
        [[2, 3, 4], [5, 6, 7], [8, 9, 1]],
        [[3, 4, 5], [6, 7, 8], [9, 1, 2]],
    ];
    let rules = indexed(&source_tiles, 10);
    let tile_grid = [[0, 0, 0], [0, 0, 0], [0, 0, 0]];
    layer.update_count(3, 3, 0, 0, &tile_grid, &source_tiles, &rules, 10);
    assert_eq!(layer.count_at(0, 0), 3);
}

#[test]
fn test_update_count_with_partial_matches() {
    let mut layer = FeasibilityCountLayer::new(3, 3, 3);
    let source_tiles: Vec<Tile> = vec![
        [[1, 2, 3], [4, 5, 6], [7, 8, 9]],
        [[1, 2, 0], [4, 5, 0], [7, 8, 0]],
        [[9, 8, 7], [6, 5, 4], [3, 2, 1]],
    ];
    let rules = indexed(&source_tiles, 10);
    let tile_grid = [[1, 2, 0], [4, 5, 0], [7, 8, 0]];
    layer.update_count(3, 3, 1, 1, &tile_grid, &source_tiles, &rules, 10);
    assert_eq!(layer.count_at(1, 1), 2);
    assert_eq!(layer.tile_count(), 3);
}

#[test]
fn test_extend_to_same_dimensions() {
    let mut layer = FeasibilityCountLayer::new(3, 3, 10);
    let source_tiles: Vec<Tile> = vec![[[1; 3]; 3]];
    let rules = indexed(&source_tiles, 10);
    let tile_grid = [[1; 3]; 3];
    layer.update_count(3, 3, 1, 1, &tile_grid, &source_tiles, &rules, 10);
    let count = layer.count_at(1, 1);
    layer.extend_to(3, 3, 3, 3, 0, 0);
    assert_eq!(layer.count_at(1, 1), count);
}

#[test]
fn test_deadlock_resolution_unlocks_tiles_and_reverts_state() {
    let mut grid_state = GridState::new(5, 5, 2);
    let mut feasibility_layer = FeasibilityCountLayer::new(5, 5, 2);
    grid_state.locked_tiles.set(1, 1, 2);
    grid_state.locked_tiles.set(1, 2, 3);
    grid_state.locked_tiles.set(2, 1, 2);
    grid_state.locked_tiles.set(2, 2, 3);
    for row in 0..5 {
        for col in 0..5 {
            let mut weight = 1;
            for (locked_row, locked_col) in [(1, 1), (1, 2), (2, 1), (2, 2)] {
                let dist = ((row as i32 - locked_row).abs()).max((col as i32 - locked_col).abs());
                for level in 1..=ADJACENCY_LEVELS {
                    if dist == level as i32 {
                        weight += (1 + ADJACENCY_LEVELS - level) as u32;
                    }
                }
            }
            grid_state.adjacency_weights.set(row, col, weight);
        }
    }
    let mut selection_tally = vec![2, 2];
    let source_tiles: Vec<Tile> = vec![[[1, 0, 0], [0, 0, 0], [0, 0, 0]], [[2, 0, 0], [0, 0, 0], [0, 0, 0]]];
    let step_data = step_data(&source_tiles, 2, 2);
    let result = resolve_spatial_deadlock(
        &mut grid_state,
        &mut feasibility_layer,
        [2, 2],
        [0, 0],
        &mut selection_tally,
        &step_data,
        &mut None,
        0,
    );
    assert_eq!(result.tiles_unlocked, 4, "Should unlock 4 tiles (radius 1 due to removal count increment)");
    assert_eq!(result.unlocked_positions.len(), 4, "Should have 4 unlocked positions");
    assert_eq!(grid_state.locked_tiles.get(1, 1), 1, "Tile at [1,1] should be unlocked");
    assert_eq!(grid_state.locked_tiles.get(1, 2), 1, "Tile at [1,2] should be unlocked");
    assert_eq!(grid_state.locked_tiles.get(2, 1), 1, "Tile at [2,1] should be unlocked");
    assert_eq!(grid_state.locked_tiles.get(2, 2), 1, "Tile at [2,2] should be unlocked");
    assert_eq!(selection_tally.first().copied(), Some(0), "Tile type 1 count should be 0 (both removed)");
    assert_eq!(selection_tally.get(1).copied(), Some(0), "Tile type 2 count should be 0 (both removed)");
    assert_eq!(grid_state.adjacency_weights.get(2, 2), 0, "Center adjacency weight at [2,2] should be 0 after all tiles unlocked");
}

#[test]
fn count_layer_growth_keeps_world_positions() {
    let source_tiles: Vec<Tile> = vec![[[1; 3]; 3], [[2; 3]; 3]];
    let rules = indexed(&source_tiles, 2);
    let mut layer = FeasibilityCountLayer::new(2, 2, 2);
    layer.update_count(2, 2, 1, 1, &[[1; 3]; 3], &source_tiles, &rules, 2);
    assert_eq!(layer.count_at(1, 1), 1);
    layer.extend_to(2, 2, 5, 4, 2, 1);
    assert_eq!(layer.count_at(3, 2), 1);
    assert_eq!(layer.count_at(1, 1), 2);
    assert_eq!(layer.count_at(4, 3), 2);
}

#[test]
fn forced_positions_come_in_scan_order() {
    let source_tiles: Vec<Tile> = vec![[[1; 3]; 3]];
    let data = step_data(&source_tiles, 1, 2);
    let mut grid = GridState::new(7, 7, 1);
    grid.locked_tiles.set(3, 3, 2);
    let mut cache = ViableTilesCache::new();
    let forced = greedytile::propagation::detect_forced_positions(&grid, [0, 0], [3, 3], &data, &mut cache);
    let coords: Vec<[i32; 2]> = forced.iter().map(|f| f.coordinates).collect();
    assert_eq!(coords, vec![[-1, -1], [-1, 0], [-1, 1], [0, -1], [0, 1], [1, -1], [1, 0], [1, 1]]);
}
