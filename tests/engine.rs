use greedytile::bitset::TileBitset;
use greedytile::cache::{PatternKey, ViableTilesCache};
use greedytile::deadlock::resolve_spatial_deadlock;
use greedytile::executor::{
    check_completion, generation_bounds_for, is_selectable, next_forced_decision, next_prefill_decision, record_tally,
    requeue_protected,
};
use greedytile::prefill::PrefillData;
use greedytile::feasibility::FeasibilityCountLayer;
use greedytile::grid::{get_region_spans, BoundingBox, GridState};
use greedytile::propagation::{
    check_for_contradiction, detect_forced_positions, update_feasibility_counts, update_grid_state,
    ForcedPipeline, ForcedPosition, StepData,
};
use greedytile::selection::{compute_viable_tiles_at_position, find_compatible_values_at_offset_bitset};
use greedytile::tiles::{convert_tile_to_membership_booleans, membership_index, TileExtractor};
use greedytile::visualization::VisualizationCapture;

fn step_data(source: &Vec<Vec<usize>>, colors: usize, radius: i32) -> StepData {
    let mut extractor = TileExtractor::extract_tiles(source, 3, false, false);
    extractor.build_boolean_reference_rules(colors);
    StepData {
        unique_cell_count: colors,
        grid_extension_radius: radius,
        source_tiles: extractor.source_tiles().to_vec(),
        tile_compatibility_rules: extractor.get_boolean_reference_rules().clone(),
    }
}

fn checkerboard(n: usize) -> Vec<Vec<usize>> {
    (0..n).map(|r| (0..n).map(|c| 1 + (r + c) % 2).collect()).collect()
}

struct Run {
    grid: GridState,
    offset: [i32; 2],
    data: StepData,
    cache: ViableTilesCache,
    pipeline: ForcedPipeline,
    layer: FeasibilityCountLayer,
    tally: Vec<usize>,
    placements: Vec<([i32; 2], usize)>,
}

impl Run {
    fn new(data: StepData) -> Run {
        let colors = data.unique_cell_count;
        let tiles = data.source_tiles.len();
        let mut grid = GridState::new(1, 1, colors);
        let (offset, _) = grid.extend_if_needed([0, 0], &[0, 0], data.grid_extension_radius);
        let layer = FeasibilityCountLayer::new(grid.rows(), grid.cols(), tiles);
        Run {
            grid,
            offset,
            data,
            cache: ViableTilesCache::new(),
            pipeline: ForcedPipeline::new(),
            layer,
            tally: vec![0; colors],
            placements: Vec::new(),
        }
    }

    fn place(&mut self, pos: [i32; 2], tile: usize) {
        record_tally(&mut self.tally, tile);
        let (rows, cols) = (self.grid.rows(), self.grid.cols());
        let old_offset = self.offset;
        let (offset, grew) = self.grid.extend_if_needed(self.offset, &pos, self.data.grid_extension_radius);
        self.offset = offset;
        if grew {
            let pad_rows = (offset[0] - old_offset[0]) as usize;
            let pad_cols = (offset[1] - old_offset[1]) as usize;
            self.layer.extend_to(rows, cols, self.grid.rows(), self.grid.cols(), pad_rows, pad_cols);
        }
        let mut viz: Option<VisualizationCapture> = None;
        update_grid_state(&mut self.grid, tile, pos, self.offset, &mut viz, 0);
        update_feasibility_counts(&self.grid, &mut self.layer, pos, self.offset, &self.data);
        let forced = detect_forced_positions(&self.grid, pos, self.offset, &self.data, &mut self.cache);
        self.pipeline.add_positions(forced);
        self.placements.push((pos, tile));
    }

    fn locked_at(&self, pos: [i32; 2]) -> u32 {
        let i = (pos[0] + self.offset[0]) as usize;
        let j = (pos[1] + self.offset[1]) as usize;
        self.grid.locked_tiles.get(i, j)
    }
}

#[test]
fn single_color_exemplar_yields_one_tile_and_full_index() {
    let source = vec![vec![1; 4]; 4];
    let mut extractor = TileExtractor::extract_tiles(&source, 3, false, false);
    assert_eq!(extractor.source_tiles().len(), 1);
    extractor.build_boolean_reference_rules(1);
    let rules = extractor.get_boolean_reference_rules();
    assert_eq!(rules.len(), 2);
    assert_eq!(rules[0], vec![1]);
    assert_eq!(rules[1], vec![1]);
}

#[test]
fn single_color_run_is_driven_by_forced_placements() {
    let mut run = Run::new(step_data(&vec![vec![1; 4]; 4], 1, 2));
    run.place([0, 0], 1);
    while run.placements.len() < 10 {
        let next = next_forced_decision(&run.grid, &mut run.pipeline, run.offset)
            .expect("every neighbour of a placement is forced");
        run.place(next.coordinates, next.tile_reference);
        assert!(check_for_contradiction(&run.grid, run.offset, &run.data, &mut run.cache).is_none());
    }
    assert_eq!(run.tally, vec![10]);
    for (pos, tile) in &run.placements {
        assert_eq!(*tile, 1);
        assert_eq!(run.locked_at(*pos), 2);
    }
}

#[test]
fn checkerboard_exemplar_places_by_parity() {
    let extractor = TileExtractor::extract_tiles(&checkerboard(3), 3, false, false);
    assert_eq!(extractor.source_tiles().len(), 1);
    // A 3x3 checkerboard gives one tile, whose center is always color 1, so
    // a window centred on a color-2 cell has no fitting tile. A 4x4
    // checkerboard holds both parities.
    let source = checkerboard(4);
    assert_eq!(TileExtractor::extract_tiles(&source, 3, false, false).source_tiles().len(), 2);
    let mut run = Run::new(step_data(&source, 2, 2));
    run.place([0, 0], 1);
    while run.placements.len() < 20 {
        let next = next_forced_decision(&run.grid, &mut run.pipeline, run.offset)
            .expect("placements after the first are forced");
        run.place(next.coordinates, next.tile_reference);
        assert!(check_for_contradiction(&run.grid, run.offset, &run.data, &mut run.cache).is_none());
    }
    for (pos, tile) in &run.placements {
        let parity = ((pos[0] + pos[1]).rem_euclid(2)) as usize;
        assert_eq!(*tile, 1 + parity);
    }
}

#[test]
fn rotations_and_reflections_add_distinct_tiles() {
    let source = vec![vec![1, 2, 3], vec![4, 5, 6], vec![7, 8, 9]];
    assert_eq!(TileExtractor::extract_tiles(&source, 3, false, false).source_tiles().len(), 1);
    assert_eq!(TileExtractor::extract_tiles(&source, 3, true, false).source_tiles().len(), 4);
    assert_eq!(TileExtractor::extract_tiles(&source, 3, true, true).source_tiles().len(), 8);
    let r = TileExtractor::rotate_90(&[[1, 2, 3], [4, 5, 6], [7, 8, 9]]);
    assert_eq!(r, [[7, 4, 1], [8, 5, 2], [9, 6, 3]]);
    let m = TileExtractor::reflect(&[[1, 2, 3], [4, 5, 6], [7, 8, 9]]);
    assert_eq!(m, [[3, 2, 1], [6, 5, 4], [9, 8, 7]]);
    let symmetric = vec![vec![1; 3]; 3];
    assert_eq!(TileExtractor::extract_tiles(&symmetric, 3, true, true).source_tiles().len(), 1);
}

#[test]
fn membership_flags_and_index() {
    let flags = convert_tile_to_membership_booleans(&[[0, 2, 0], [-1, 0, 0], [0, 0, 3]], 3);
    assert_eq!(flags, vec![0, 1, 1]);
    assert_eq!(membership_index(&flags), 6);
    assert_eq!(membership_index(&vec![1, 0, 0]), 1);
}

#[test]
fn index_lists_every_matching_tile() {
    let source = vec![vec![1, 1, 2, 2], vec![1, 1, 2, 2], vec![1, 1, 2, 2]];
    let data = step_data(&source, 2, 2);
    assert_eq!(data.source_tiles.len(), 2);
    let pattern = [[1, 0, 0], [0, 0, 0], [0, 0, 0]];
    let flags = convert_tile_to_membership_booleans(&pattern, 2);
    let ids = &data.tile_compatibility_rules[membership_index(&flags)];
    assert_eq!(ids, &vec![1, 2]);
    let both = [[0, 0, 0], [0, 0, 2], [0, 1, 0]];
    let flags = convert_tile_to_membership_booleans(&both, 2);
    assert_eq!(&data.tile_compatibility_rules[membership_index(&flags)], &vec![1, 2]);
}

#[test]
fn compatible_values_respect_wildcards() {
    let source = vec![vec![1, 1, 2, 2], vec![1, 1, 2, 2], vec![1, 1, 2, 2]];
    let data = step_data(&source, 2, 2);
    // tiles: rows of [1, 1, 2] and rows of [1, 2, 2]
    let pattern = [[0, 0, 0], [0, 0, 0], [0, 0, 0]];
    let any = find_compatible_values_at_offset_bitset(
        &pattern, &data.source_tiles, &data.tile_compatibility_rules, 2, 1, 1);
    assert_eq!(any.to_vec(), vec![1, 2]);
    let corner = find_compatible_values_at_offset_bitset(
        &pattern, &data.source_tiles, &data.tile_compatibility_rules, 2, 0, 2);
    assert_eq!(corner.to_vec(), vec![2]);
    let first = find_compatible_values_at_offset_bitset(
        &[[0, 1, 0], [0, 0, 0], [0, 0, 0]], &data.source_tiles, &data.tile_compatibility_rules, 2, 2, 1);
    assert_eq!(first.to_vec(), vec![1]);
    let second = find_compatible_values_at_offset_bitset(
        &[[0, 2, 0], [0, -1, 0], [0, 0, 0]], &data.source_tiles, &data.tile_compatibility_rules, 2, 2, 1);
    assert_eq!(second.to_vec(), vec![2]);
    let none = find_compatible_values_at_offset_bitset(
        &[[2, 0, 0], [0, 0, 0], [0, 0, 0]], &data.source_tiles, &data.tile_compatibility_rules, 2, 1, 1);
    assert!(none.is_empty());
}

#[test]
fn cache_returns_the_same_answer_as_a_fresh_computation() {
    let source = vec![vec![1, 1, 2, 2], vec![1, 1, 2, 2], vec![1, 1, 2, 2]];
    let data = step_data(&source, 2, 2);
    let mut cache = ViableTilesCache::new();
    let pattern = [[1, 0, 0], [0, 0, 0], [0, 0, 0]];
    let first = cache.get_or_compute_pattern(PatternKey::new(&pattern, 1, 2), &data);
    let second = cache.get_or_compute_pattern(PatternKey::new(&pattern, 1, 2), &data);
    let fresh = find_compatible_values_at_offset_bitset(
        &pattern, &data.source_tiles, &data.tile_compatibility_rules, 2, 1, 2);
    assert_eq!(first.to_vec(), fresh.to_vec());
    assert_eq!(second.to_vec(), fresh.to_vec());
    assert_eq!(cache.stats.misses, 1);
    assert_eq!(cache.stats.hits, 1);
}

#[test]
fn bitset_operations() {
    let mut a = TileBitset::new(5);
    assert!(a.is_empty());
    a.insert(2);
    a.insert(5);
    a.insert(0);
    a.insert(6);
    assert_eq!(a.to_vec(), vec![2, 5]);
    assert_eq!(a.count(), 2);
    assert!(a.contains(5));
    assert!(!a.contains(0));
    let all = TileBitset::all(5);
    assert_eq!(all.count(), 5);
    let mut b = TileBitset::new(5);
    b.insert(5);
    b.insert(3);
    assert_eq!(a.intersection(&b).to_vec(), vec![5]);
    a.intersect_with(&b);
    assert_eq!(a.to_vec(), vec![5]);
}

#[test]
fn placed_cells_are_not_selectable_nor_forced() {
    let mut run = Run::new(step_data(&vec![vec![1; 4]; 4], 1, 2));
    run.place([0, 0], 1);
    let i = run.offset[0] as usize;
    let j = run.offset[1] as usize;
    assert!(!is_selectable(&run.grid, i, j, run.offset));
    assert!(is_selectable(&run.grid, i + 1, j, run.offset));
    let forced = detect_forced_positions(&run.grid, [1, 0], run.offset, &run.data, &mut run.cache);
    assert!(forced.iter().all(|f| f.coordinates != [0, 0]));
    assert_eq!(forced.len(), 7);
}

#[test]
fn adjacency_weights_rise_by_level() {
    let mut run = Run::new(step_data(&vec![vec![1; 4]; 4], 1, 2));
    run.place([0, 0], 1);
    let w = |run: &Run, p: [i32; 2]| {
        run.grid.adjacency_weights.get((p[0] + run.offset[0]) as usize, (p[1] + run.offset[1]) as usize)
    };
    assert_eq!(w(&run, [0, 0]), 4);
    assert_eq!(w(&run, [1, 1]), 4);
    assert_eq!(w(&run, [2, 0]), 2);
    assert_eq!(w(&run, [-2, 2]), 2);
    assert_eq!(w(&run, [0, 2]), 2);
    run.place([1, 0], 1);
    assert_eq!(w(&run, [0, 0]), 7);
    assert_eq!(w(&run, [3, 0]), 2);
    assert_eq!(w(&run, [-2, -2]), 2);
}

#[test]
fn conflicting_motifs_deadlock_and_escalate() {
    // Exemplar made of two tiles that cannot sit side by side: a solid
    // block of color 1 and a solid block of color 2.
    let source = vec![
        vec![1, 1, 1, 9, 2, 2, 2],
        vec![1, 1, 1, 9, 2, 2, 2],
        vec![1, 1, 1, 9, 2, 2, 2],
    ];
    let mut extractor = TileExtractor::extract_tiles(&source, 3, false, false);
    extractor.build_boolean_reference_rules(2);
    let data = StepData {
        unique_cell_count: 2,
        grid_extension_radius: 2,
        source_tiles: extractor.source_tiles().to_vec(),
        tile_compatibility_rules: extractor.get_boolean_reference_rules().clone(),
    };
    let mut run = Run::new(data);
    run.place([0, 0], 1);
    run.place([0, 2], 2);
    let c = check_for_contradiction(&run.grid, run.offset, &run.data, &mut run.cache).expect("contradiction");
    let world = [c[0] as i32 - run.offset[0], c[1] as i32 - run.offset[1]];
    assert!(compute_viable_tiles_at_position(&run.grid, world, run.offset, &run.data, &mut run.cache).is_empty());
    let mut viz = Some(VisualizationCapture::new(run.grid.rows(), run.grid.cols(), vec![[0, 0, 0, 255]; 2], 10));
    let first = resolve_spatial_deadlock(
        &mut run.grid, &mut run.layer, c, run.offset, &mut run.tally, &run.data, &mut viz, 3);
    assert_eq!(run.grid.removal_count.get(c[0], c[1]), 1);
    assert_eq!(first.removal_radius, 1);
    assert_eq!(first.tiles_unlocked, first.unlocked_positions.len());
    for p in &first.unlocked_positions {
        assert_eq!(run.grid.locked_tiles.get(p[0], p[1]), 1);
    }
    assert_eq!(viz.as_ref().unwrap().placement_count(), first.tiles_unlocked);
    let second = resolve_spatial_deadlock(
        &mut run.grid, &mut run.layer, c, run.offset, &mut run.tally, &run.data, &mut viz, 4);
    assert_eq!(run.grid.removal_count.get(c[0], c[1]), 2);
    assert_eq!(second.removal_radius, 2);
    assert!(second.removal_radius <= 6);
}

#[test]
fn deadlock_clears_placements_and_tally() {
    let mut run = Run::new(step_data(&vec![vec![1; 4]; 4], 1, 2));
    run.place([0, 0], 1);
    run.place([0, 1], 1);
    assert_eq!(run.tally, vec![2]);
    let c = [(run.offset[0]) as usize, (run.offset[1] + 1) as usize];
    let mut viz = None;
    let result = resolve_spatial_deadlock(
        &mut run.grid, &mut run.layer, c, run.offset, &mut run.tally, &run.data, &mut viz, 0);
    assert_eq!(result.removal_radius, 1);
    assert_eq!(result.tiles_unlocked, 2);
    assert_eq!(result.unlocked_tiles, vec![1, 1]);
    assert_eq!(run.tally, vec![0]);
    assert_eq!(run.locked_at([0, 0]), 1);
    assert_eq!(run.locked_at([0, 1]), 1);
    let i = run.offset[0] as usize;
    for j in 0..run.grid.cols() {
        assert_eq!(run.grid.adjacency_weights.get(i, j), 1);
    }
}

#[test]
fn bounded_grid_never_leaves_bounds() {
    let bounds = generation_bounds_for(5, 5);
    assert_eq!(bounds.min, [-2, -2]);
    assert_eq!(bounds.max, [2, 2]);
    let even = generation_bounds_for(4, 6);
    assert_eq!(even.min, [-2, -3]);
    assert_eq!(even.max, [1, 2]);
    let mut grid = GridState::new(1, 1, 1);
    grid.generation_bounds = Some(bounds);
    let (offset, grew) = grid.extend_if_needed([0, 0], &[0, 0], 6);
    assert!(grew);
    assert_eq!(offset, [2, 2]);
    assert_eq!((grid.rows(), grid.cols()), (5, 5));
    let (offset, grew) = grid.extend_if_needed(offset, &[2, 2], 6);
    assert!(!grew);
    assert_eq!(offset, [2, 2]);
}

#[test]
fn completion_counts_the_bounded_area() {
    let bounds = Some(BoundingBox { min: [-2, -2], max: [2, 2] });
    assert!(!check_completion(&bounds, &vec![10, 14]));
    assert!(check_completion(&bounds, &vec![10, 15]));
    assert!(!check_completion(&None, &vec![100]));
}

#[test]
fn extension_inside_grid_is_a_no_op_and_keeps_ones() {
    let mut grid = GridState::new(3, 3, 2);
    let (offset, grew) = grid.extend_if_needed([1, 1], &[0, 0], 1);
    assert!(!grew);
    assert_eq!(offset, [1, 1]);
    assert_eq!((grid.rows(), grid.cols()), (3, 3));
    let (offset, grew) = grid.extend_if_needed([1, 1], &[3, -2], 1);
    assert!(grew);
    assert_eq!(offset, [1, 3]);
    assert_eq!((grid.rows(), grid.cols()), (6, 5));
    for i in 0..grid.rows() {
        for j in 0..grid.cols() {
            assert_eq!(grid.locked_tiles.get(i, j), 1);
            assert_eq!(grid.adjacency_weights.get(i, j), 1);
            assert_eq!(grid.removal_count.get(i, j), 0);
        }
    }
}

#[test]
fn forced_pipeline_keeps_first_offer() {
    let mut pipeline = ForcedPipeline::new();
    pipeline.add_positions(vec![
        ForcedPosition { coordinates: [1, 1], tile_reference: 2 },
        ForcedPosition { coordinates: [0, 1], tile_reference: 1 },
        ForcedPosition { coordinates: [1, 1], tile_reference: 3 },
    ]);
    assert_eq!(pipeline.len(), 2);
    let first = pipeline.take_next().unwrap();
    assert_eq!(first.coordinates, [1, 1]);
    assert_eq!(first.tile_reference, 2);
    assert!(!pipeline.is_empty());
    pipeline.take_next();
    assert!(pipeline.take_next().is_none());
}

#[test]
fn region_spans_clamp_at_zero() {
    let (rows, cols) = get_region_spans(&[1, 1], &[0, 0], 2);
    assert_eq!((rows.start, rows.end), (0, 4));
    assert_eq!((cols.start, cols.end), (0, 4));
    let (rows, _) = get_region_spans(&[0, 0], &[-5, 0], 1);
    assert_eq!((rows.start, rows.end), (0, 0));
}

#[test]
fn feasibility_counts_follow_locked_cells() {
    let source = vec![vec![1, 1, 2, 2], vec![1, 1, 2, 2], vec![1, 1, 2, 2]];
    let mut run = Run::new(step_data(&source, 2, 2));
    assert_eq!(run.layer.tile_count(), 2);
    run.place([0, 0], 1);
    // the window holding color 1 in its top-middle cell admits only the
    // tile made of rows [1, 1, 2]
    let i = run.offset[0] as usize;
    let j = (run.offset[1] - 1) as usize;
    assert_eq!(run.layer.count_at(i, j), 1);
    // with color 1 in its top-left cell both tiles fit
    assert_eq!(run.layer.count_at(i, j + 1), 2);
    let far = [(run.offset[0] + 2) as usize, (run.offset[1] + 1) as usize];
    assert_eq!(run.layer.count_at(far[0], far[1]), 2);
}

#[test]
fn visualization_bounds_and_empty_color() {
    let mut viz = VisualizationCapture::new(4, 5, vec![[10, 20, 30, 255], [20, 41, 50, 255]], 8);
    assert_eq!(viz.empty_color(), [15, 30, 40, 255]);
    assert_eq!(viz.calculate_final_bounds(), (0, 0, 4, 5));
    viz.record_placement(-2, 3, 2, 1);
    viz.record_removal(1, -1, 2);
    assert_eq!(viz.placement_count(), 2);
    assert_eq!(viz.calculate_final_bounds(), (-2, -1, 4, 5));
    assert_eq!(viz.get_placements()[1].tile_ref, None);
    let grey = VisualizationCapture::new(1, 1, Vec::new(), 0);
    assert_eq!(grey.empty_color(), [128, 128, 128, 255]);
}

#[test]
fn protected_prefill_cells_are_requeued_after_repair() {
    let mut run = Run::new(step_data(&vec![vec![1; 4]; 4], 1, 2));
    let pixels = vec![[5, 5, 5, 255]; 9];
    let mut prefill = PrefillData::from_pixels(3, 3, &pixels, &vec![[5, 5, 5, 255]]).unwrap();
    while let Some(p) = next_prefill_decision(&run.grid, &mut prefill, run.offset) {
        run.place(p.world_position, p.tile_reference);
    }
    assert_eq!(run.placements.len(), 9);
    let c = [run.offset[0] as usize, run.offset[1] as usize];
    let mut viz = None;
    let result = resolve_spatial_deadlock(
        &mut run.grid, &mut run.layer, c, run.offset, &mut run.tally, &run.data, &mut viz, 0);
    assert_eq!(result.tiles_unlocked, 9);
    requeue_protected(&mut prefill, &result.unlocked_positions, run.offset);
    assert_eq!(prefill.placement_queue.len(), 9);
    let mut replaced = 0;
    while let Some(p) = next_prefill_decision(&run.grid, &mut prefill, run.offset) {
        assert_eq!(prefill.is_protected(p.world_position), Some(1));
        run.place(p.world_position, p.tile_reference);
        replaced += 1;
    }
    assert_eq!(replaced, 9);
    assert_eq!(run.locked_at([0, 0]), 2);
    assert_eq!(run.locked_at([-1, -1]), 2);
}

#[test]
fn identical_runs_give_identical_grids() {
    let play = || {
        let mut run = Run::new(step_data(&checkerboard(4), 2, 2));
        run.place([0, 0], 2);
        for _ in 0..15 {
            match next_forced_decision(&run.grid, &mut run.pipeline, run.offset) {
                Some(next) => run.place(next.coordinates, next.tile_reference),
                None => break,
            }
        }
        let mut cells = Vec::new();
        for i in 0..run.grid.rows() {
            for j in 0..run.grid.cols() {
                cells.push(run.grid.locked_tiles.get(i, j));
            }
        }
        (run.placements, cells)
    };
    let (a, cells_a) = play();
    let (b, cells_b) = play();
    assert_eq!(a, b);
    assert_eq!(cells_a, cells_b);
}
