use greedytile::cli::Cli;
use greedytile::configuration::{
    ADJACENCY_CANDIDATES_CONSIDERED, CANDIDATES_CONSIDERED, DEFAULT_MAX_ITERATIONS, DEFAULT_SEED,
    GIF_FRAME_DELAY_MS, MAX_GRID_DIMENSION, MAX_INDIVIDUAL_PROGRESS_BARS, OUTPUT_SUFFIX, PROGRESS_BAR_WIDTH,
    TILE_SIZE,
};
use greedytile::error::{computation_error, invalid_parameter, AlgorithmError, ErrorContext, WithContext};
use greedytile::visualization::VisualizationCapture;

fn cli(target: &str) -> Cli {
    Cli {
        target: target.to_string(),
        seed: DEFAULT_SEED,
        iterations: DEFAULT_MAX_ITERATIONS,
        visualize: false,
        quiet: false,
        no_skip: false,
        analysis: false,
        width: None,
        height: None,
        prefill: false,
        rotate: false,
        mirror: false,
    }
}

#[test]
fn test_skip_existing_logic() {
    let cli_default = cli("test.png");
    assert!(cli_default.skip_existing());

    let cli_no_skip = Cli { no_skip: true, ..cli("test.png") };
    assert!(!cli_no_skip.skip_existing());
}

#[test]
fn test_should_show_progress() {
    let cli_default = cli("test.png");
    assert!(cli_default.should_show_progress());

    let cli_quiet = Cli { quiet: true, ..cli("test.png") };
    assert!(!cli_quiet.should_show_progress());
}

#[test]
fn cli_bounds_are_rows_then_columns() {
    assert_eq!(cli("a.png").bounds(), None);
    assert_eq!(Cli { width: Some(8), ..cli("a.png") }.bounds(), Some((8, 8)));
    assert_eq!(Cli { height: Some(6), ..cli("a.png") }.bounds(), Some((6, 6)));
    assert_eq!(Cli { width: Some(8), height: Some(6), ..cli("a.png") }.bounds(), Some((6, 8)));
}

#[test]
fn test_candidates_considered_values() {
    assert_eq!(CANDIDATES_CONSIDERED, 15);
    assert_eq!(ADJACENCY_CANDIDATES_CONSIDERED, 30);
}

#[test]
fn test_tile_size_value() {
    assert_eq!(TILE_SIZE, 3);
}

#[test]
fn test_max_grid_dimension() {
    assert_eq!(MAX_GRID_DIMENSION, 10_000);
}

#[test]
fn test_constants_relationship() {
    assert_eq!(ADJACENCY_CANDIDATES_CONSIDERED, 30);
    assert_eq!(CANDIDATES_CONSIDERED, 15);
}

#[test]
fn test_max_progress_bars_value() {
    assert_eq!(MAX_INDIVIDUAL_PROGRESS_BARS, 5);
}

#[test]
fn test_progress_bar_width() {
    assert_eq!(PROGRESS_BAR_WIDTH, 50);
}

#[test]
fn test_default_seed_is_reproducible() {
    assert_eq!(DEFAULT_SEED, 42);
}

#[test]
fn test_default_iterations_is_reasonable() {
    assert_eq!(DEFAULT_MAX_ITERATIONS, 1000);
}

#[test]
fn test_output_suffix_format() {
    assert!(OUTPUT_SUFFIX.starts_with('_'));
    assert!(!OUTPUT_SUFFIX.is_empty());
    assert!(OUTPUT_SUFFIX.len() < 20);
}

#[test]
fn test_output_suffix_no_special_chars() {
    for ch in OUTPUT_SUFFIX.chars() {
        assert!(
            ch.is_alphanumeric() || ch == '_' || ch == '-',
            "Output suffix contains invalid character: {ch}"
        );
    }
}

#[test]
fn test_gif_frame_delay() {
    assert_eq!(GIF_FRAME_DELAY_MS, 5);
}

#[test]
fn test_error_context_with_position() {
    let error = AlgorithmError::NoValidPositions { iteration: 10, grid_dimensions: (50, 50) };

    let context = ErrorContext {
        iteration: Some(42),
        position: Some([100, 200]),
        grid_position: Some([10, 20]),
        operation: Some("pattern matching".to_string()),
    };

    let enriched = std::result::Result::<(), AlgorithmError>::Err(error).with_context(context);

    match enriched.unwrap_err() {
        AlgorithmError::NoValidPositions { iteration, .. } => {
            assert_eq!(iteration, 42);
        }
        _ => unreachable!("Expected NoValidPositions error"),
    }
}

#[test]
fn test_error_helper_functions() {
    let param_err = invalid_parameter("width", &(-5).to_string(), "must be positive");
    match param_err {
        AlgorithmError::InvalidParameter { parameter, value, reason } => {
            assert_eq!(parameter, "width");
            assert_eq!(value, "-5");
            assert_eq!(reason, "must be positive");
        }
        _ => unreachable!("Expected InvalidParameter error"),
    }

    let comp_err = computation_error("entropy calculation", "division by zero");
    match comp_err {
        AlgorithmError::Computation { operation, reason } => {
            assert_eq!(operation, "entropy calculation");
            assert_eq!(reason, "division by zero");
        }
        _ => unreachable!("Expected Computation error"),
    }
}

#[test]
fn test_visualization_capture_new() {
    let color_mapping = vec![[255, 0, 0, 255], [0, 255, 0, 255], [0, 0, 255, 255]];
    let viz = VisualizationCapture::new(10, 10, color_mapping, 10000);

    assert_eq!(viz.placement_count(), 0);
}

#[test]
fn test_record_placement() {
    let color_mapping = vec![[255, 0, 0, 255], [0, 255, 0, 255]];
    let mut viz = VisualizationCapture::new(10, 10, color_mapping, 100);

    viz.record_placement(5, 5, 2, 1);
    assert_eq!(viz.placement_count(), 1);

    viz.record_placement(6, 6, 3, 2);
    assert_eq!(viz.placement_count(), 2);
}

#[test]
fn test_record_removal() {
    let color_mapping = vec![[255, 0, 0, 255], [0, 255, 0, 255]];
    let mut viz = VisualizationCapture::new(10, 10, color_mapping, 100);

    viz.record_placement(5, 5, 2, 1);
    viz.record_placement(6, 6, 3, 2);
    viz.record_removal(5, 5, 3);
    viz.record_placement(7, 7, 2, 4);
    viz.record_removal(8, 8, 5);

    assert_eq!(viz.placement_count(), 5);

    let placements = viz.get_placements();
    assert_eq!(placements.first().unwrap().tile_ref, Some(2));
    assert_eq!(placements.get(1).unwrap().tile_ref, Some(3));
    assert_eq!(placements.get(2).unwrap().tile_ref, None);
    assert_eq!(placements.get(3).unwrap().tile_ref, Some(2));
    assert_eq!(placements.get(4).unwrap().tile_ref, None);

    let removal = placements.get(2).unwrap();
    assert_eq!(removal.row, 5);
    assert_eq!(removal.col, 5);
    assert_eq!(removal.iteration, 3);
}
