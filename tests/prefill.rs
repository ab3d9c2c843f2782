use greedytile::error::AlgorithmError;
use greedytile::grid::BoundingBox;
use greedytile::prefill::{PrefillData, PrefillPlacement};

#[test]
fn test_prefill_placement_creation() {
    let test_cases = vec![
        ([0, 0], 1),
        ([i32::MAX, i32::MIN], usize::MAX),
        ([-100, 200], 42),
    ];

    for (world_pos, tile_ref) in test_cases {
        let placement = PrefillPlacement {
            world_position: world_pos,
            tile_reference: tile_ref,
        };

        assert_eq!(placement.world_position, world_pos);
        assert_eq!(placement.tile_reference, tile_ref);
    }

    let template = PrefillPlacement {
        world_position: [10, 20],
        tile_reference: 5,
    };

    let cloned = template.clone();
    assert_eq!(cloned.world_position, template.world_position);
    assert_eq!(cloned.tile_reference, template.tile_reference);
}

#[test]
fn test_prefill_data_is_protected() {
    let placement_queue = std::collections::VecDeque::new();
    let protected_positions = vec![([5, 10], 2), ([-3, 7], 4)];

    let bounds = BoundingBox {
        min: [-3, 7],
        max: [5, 10],
    };

    let prefill_data = PrefillData {
        placement_queue,
        protected_positions,
        bounds,
    };

    assert_eq!(prefill_data.is_protected([5, 10]), Some(2));
    assert_eq!(prefill_data.is_protected([-3, 7]), Some(4));
    assert_eq!(prefill_data.is_protected([0, 0]), None);
}

#[test]
fn test_prefill_data_queue_operations() {
    let mut placement_queue = std::collections::VecDeque::new();
    let placement1 = PrefillPlacement {
        world_position: [1, 2],
        tile_reference: 3,
    };
    let placement2 = PrefillPlacement {
        world_position: [4, 5],
        tile_reference: 6,
    };

    placement_queue.push_back(placement1);
    placement_queue.push_back(placement2);

    let bounds = BoundingBox {
        min: [1, 2],
        max: [4, 5],
    };

    let mut prefill_data = PrefillData {
        placement_queue,
        protected_positions: Vec::new(),
        bounds,
    };

    let next = prefill_data.next_placement();
    assert!(next.is_some());
    let next = next.unwrap();
    assert_eq!(next.world_position, [1, 2]);
    assert_eq!(next.tile_reference, 3);

    let replacement = PrefillPlacement {
        world_position: [7, 8],
        tile_reference: 9,
    };
    prefill_data.queue_replacement(replacement);

    let replacement_next = prefill_data.next_placement();
    assert!(replacement_next.is_some());
    let replacement_next = replacement_next.unwrap();
    assert_eq!(replacement_next.world_position, [7, 8]);
    assert_eq!(replacement_next.tile_reference, 9);
}

#[test]
fn prefill_from_pixels_centres_and_maps_palette() {
    let red = [255, 0, 0, 255];
    let blue = [0, 0, 255, 255];
    let clear = [0, 0, 0, 0];
    // 3 wide, 2 high, row-major
    let pixels = vec![red, clear, blue, clear, blue, clear];
    let palette = vec![red, blue];
    let data = PrefillData::from_pixels(3, 2, &pixels, &palette).unwrap();
    let queue: Vec<PrefillPlacement> = data.placement_queue.iter().cloned().collect();
    assert_eq!(queue.len(), 3);
    assert_eq!(queue[0].world_position, [-1, -1]);
    assert_eq!(queue[0].tile_reference, 1);
    assert_eq!(queue[1].world_position, [-1, 1]);
    assert_eq!(queue[1].tile_reference, 2);
    assert_eq!(queue[2].world_position, [0, 0]);
    assert_eq!(queue[2].tile_reference, 2);
    assert_eq!(data.bounds.min, [-1, -1]);
    assert_eq!(data.bounds.max, [0, 1]);
    assert_eq!(data.is_protected([0, 0]), Some(2));
}

#[test]
fn prefill_from_pixels_without_palette_colors_fails() {
    let pixels = vec![[1, 2, 3, 4]; 4];
    let palette = vec![[9, 9, 9, 255]];
    let result = PrefillData::from_pixels(2, 2, &pixels, &palette);
    assert!(matches!(result, Err(AlgorithmError::InvalidSourceData { .. })));
}

#[test]
fn prefill_duplicate_palette_color_takes_last_index() {
    let c = [7, 7, 7, 255];
    let pixels = vec![c];
    let palette = vec![c, [1, 1, 1, 255], c];
    let data = PrefillData::from_pixels(1, 1, &pixels, &palette).unwrap();
    assert_eq!(data.placement_queue[0].tile_reference, 3);
}
