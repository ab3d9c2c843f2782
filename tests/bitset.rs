use greedytile::bitset::TileBitset;
use greedytile::cache::{PatternKey, ViableTilesCache};
use greedytile::grid::GridState;
use greedytile::propagation::StepData;
use greedytile::tiles::TileExtractor;

#[test]
fn test_new_bitset() {
    let bitset = TileBitset::new(10);
    assert_eq!(bitset.count(), 0);
    assert!(bitset.is_empty());
}

#[test]
fn test_insert_and_contains() {
    let mut bitset = TileBitset::new(10);
    bitset.insert(5);
    assert!(bitset.contains(5));
    assert!(!bitset.contains(3));
    assert_eq!(bitset.count(), 1);
}

#[test]
fn test_intersection() {
    let mut set1 = TileBitset::new(10);
    set1.insert(1);
    set1.insert(3);
    set1.insert(5);

    let mut set2 = TileBitset::new(10);
    set2.insert(3);
    set2.insert(5);
    set2.insert(7);

    let intersection = set1.intersection(&set2);
    let result = intersection.to_vec();
    assert_eq!(result, vec![3, 5]);
}

#[test]
fn test_all_bits_set() {
    let bitset = TileBitset::all(5);
    for i in 1..=5 {
        assert!(bitset.contains(i));
    }
    assert_eq!(bitset.count(), 5);
}

#[test]
fn test_cache_new() {
    let cache = ViableTilesCache::new();
    assert_eq!(cache.stats.hits, 0);
    assert_eq!(cache.stats.misses, 0);
}

#[test]
fn test_pattern_key_creation() {
    let pattern = [[1, 2, 3], [4, 5, 6], [7, 8, 9]];
    let key = PatternKey::new(&pattern, 1, 1);

    let pattern2 = [[1, 2, 3], [4, 5, 6], [7, 8, 9]];
    let key2 = PatternKey::new(&pattern2, 1, 1);

    assert_eq!(key, key2);
    assert_ne!(key, PatternKey::new(&pattern2, 1, 2));
}

#[test]
fn test_bitset_operations() {
    let mut set1 = TileBitset::new(10);
    set1.insert(1);
    set1.insert(3);
    set1.insert(5);

    let mut set2 = TileBitset::new(10);
    set2.insert(3);
    set2.insert(5);
    set2.insert(7);

    let intersection = set1.intersection(&set2);
    assert_eq!(intersection.to_vec(), vec![3, 5]);
    assert!(!intersection.is_empty());
    assert_eq!(intersection.count(), 2);
}

#[test]
fn test_bitset_empty_intersection() {
    let mut set1 = TileBitset::new(10);
    set1.insert(1);
    set1.insert(2);

    let mut set2 = TileBitset::new(10);
    set2.insert(3);
    set2.insert(4);

    let intersection = set1.intersection(&set2);
    assert!(intersection.is_empty());
    assert_eq!(intersection.count(), 0);
    assert_eq!(intersection.to_vec(), Vec::<usize>::new());
}

#[test]
fn test_cache_behavior() {
    let tiles = vec![[[1, 2, 3], [4, 5, 6], [7, 8, 9]], [[5, 5, 5], [5, 5, 5], [5, 5, 5]]];
    let mut extractor = TileExtractor::from_tiles(tiles.clone());
    extractor.build_boolean_reference_rules(9);
    let data = StepData {
        unique_cell_count: 9,
        grid_extension_radius: 1,
        source_tiles: tiles,
        tile_compatibility_rules: extractor.get_boolean_reference_rules().clone(),
    };
    let mut cache = ViableTilesCache::new();

    let key = PatternKey::new(&[[1, 2, 3], [4, 5, 6], [7, 8, 9]], 1, 1);

    let result1_vec = cache.get_or_compute_pattern(key.clone(), &data).to_vec();
    assert_eq!(result1_vec, vec![5]);

    assert_eq!(cache.stats.misses, 1);
    assert_eq!(cache.stats.hits, 0);

    let result2_vec = cache.get_or_compute_pattern(key, &data).to_vec();

    assert_eq!(cache.stats.hits, 1);
    assert_eq!(result1_vec, result2_vec);
}

#[test]
fn test_pattern_key_equality() {
    let pattern1 = [[1, 2, 3], [4, 5, 6], [7, 8, 9]];
    let pattern2 = [[1, 2, 3], [4, 5, 6], [7, 8, 9]];
    let pattern3 = [[9, 8, 7], [6, 5, 4], [3, 2, 1]];

    let key1 = PatternKey::new(&pattern1, 1, 1);
    let key2 = PatternKey::new(&pattern2, 1, 1);
    let key3 = PatternKey::new(&pattern3, 1, 1);

    assert_eq!(key1, key2);
    assert_ne!(key1, key3);
}

#[test]
fn test_gridstate_extend_if_needed_preserves_existing_data() {
    let mut grid = GridState::new(3, 3, 2);
    grid.locked_tiles.set(0, 2, 5);
    grid.adjacency_weights.set(2, 0, 3);

    let offset = [0, 0];
    let coordinates = [5, 5];
    let radius = 2;

    let (new_offset, extended) = grid.extend_if_needed(offset, &coordinates, radius);

    assert!(extended, "Grid should have been extended");
    assert_eq!(new_offset, [0, 0], "Offset should remain the same (no left/top padding needed)");
    assert_eq!(grid.rows(), 8, "Grid should have 8 rows");
    assert_eq!(grid.cols(), 8, "Grid should have 8 columns");
    assert_eq!(grid.locked_tiles.get(0, 2), 5, "Locked tile should be preserved");
    assert_eq!(grid.adjacency_weights.get(2, 0), 3, "Adjacency weight should be preserved");
    assert_eq!(grid.locked_tiles.get(7, 7), 1, "New cells should have locked_tiles 1");
    assert_eq!(grid.adjacency_weights.get(0, 7), 1, "New cells should have adjacency_weights 1");
}

#[test]
fn intersection_leaves_operands_unchanged() {
    let mut a = TileBitset::new(6);
    a.insert(1);
    a.insert(4);
    let mut b = TileBitset::new(6);
    b.insert(4);
    let c = a.intersection(&b);
    assert_eq!(c.to_vec(), vec![4]);
    assert_eq!(a.to_vec(), vec![1, 4]);
    assert_eq!(b.to_vec(), vec![4]);
    let shorter = TileBitset::all(2);
    let mut d = TileBitset::all(6);
    d.intersect_with(&shorter);
    assert_eq!(d.to_vec(), vec![1, 2]);
}

#[test]
fn empty_capacity_and_empty_exemplar() {
    let none = TileBitset::new(0);
    assert!(none.is_empty());
    assert_eq!(none.to_vec(), Vec::<usize>::new());
    let mut none = none;
    none.insert(1);
    assert!(none.is_empty());
    let empty: Vec<Vec<usize>> = Vec::new();
    let extractor = TileExtractor::extract_tiles(&empty, 3, true, true);
    assert_eq!(extractor.source_tiles(), &[[[0usize; 3]; 3]]);
}

fn two_tile_data() -> StepData {
    let tiles = vec![[[1, 2, 3], [4, 5, 6], [7, 8, 9]], [[9, 8, 7], [6, 1, 4], [3, 2, 5]]];
    let mut extractor = TileExtractor::from_tiles(tiles.clone());
    extractor.build_boolean_reference_rules(9);
    StepData {
        unique_cell_count: 9,
        grid_extension_radius: 1,
        source_tiles: tiles,
        tile_compatibility_rules: extractor.get_boolean_reference_rules().clone(),
    }
}

#[test]
fn test_cache_miss_and_hit() {
    let data = two_tile_data();
    let mut cache = ViableTilesCache::new();
    let pattern = [[1, 2, 3], [4, 5, 6], [7, 8, 9]];
    let key = PatternKey::new(&pattern, 1, 1);

    let result1_vec = cache.get_or_compute_pattern(key.clone(), &data).to_vec();

    assert_eq!(cache.stats.misses, 1);
    assert_eq!(cache.stats.hits, 0);
    assert_eq!(result1_vec, vec![5]);

    let result2_vec = cache.get_or_compute_pattern(key, &data).to_vec();

    assert_eq!(cache.stats.hits, 1);
    assert_eq!(cache.stats.misses, 1);
    assert_eq!(result2_vec, vec![5]);
}

#[test]
fn test_different_patterns_different_results() {
    let data = two_tile_data();
    let mut cache = ViableTilesCache::new();

    let pattern1 = [[1, 2, 3], [4, 0, 6], [7, 8, 9]];
    let key1 = PatternKey::new(&pattern1, 1, 1);

    let pattern2 = [[9, 8, 7], [6, 0, 4], [3, 2, 5]];
    let key2 = PatternKey::new(&pattern2, 1, 1);

    let result1_vec = cache.get_or_compute_pattern(key1, &data).to_vec();
    let result2_vec = cache.get_or_compute_pattern(key2, &data).to_vec();

    assert_eq!(result1_vec, vec![5]);
    assert_eq!(result2_vec, vec![1]);
    assert_eq!(cache.stats.misses, 2);
    assert_eq!(cache.stats.hits, 0);
}
