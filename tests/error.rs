use greedytile::error::{
    apply_context, computation_error, invalid_parameter, io_error, AlgorithmError, ErrorContext,
    InterpolationError, WithContext,
};

#[test]
fn test_error_context() {
    let result: std::result::Result<(), AlgorithmError> = Err(AlgorithmError::NoValidPositions {
        iteration: 0,
        grid_dimensions: (10, 10),
    });

    let context = ErrorContext {
        iteration: Some(99),
        ..Default::default()
    };

    let err = result.with_context(context).unwrap_err();
    match err {
        AlgorithmError::NoValidPositions { iteration, .. } => {
            assert_eq!(iteration, 99);
        }
        _ => unreachable!("Expected NoValidPositions error type"),
    }
}

#[test]
fn context_leaves_other_errors_alone() {
    let e = AlgorithmError::InvalidTileIndex { index: 4, max_tiles: 3 };
    let ctx = ErrorContext { iteration: Some(5), ..Default::default() };
    match apply_context(e, &ctx) {
        AlgorithmError::InvalidTileIndex { index, max_tiles } => {
            assert_eq!(index, 4);
            assert_eq!(max_tiles, 3);
        }
        _ => panic!("variant changed"),
    }
}

#[test]
fn context_without_iteration_keeps_it() {
    let e = AlgorithmError::NoValidPositions { iteration: 7, grid_dimensions: (2, 3) };
    match apply_context(e, &ErrorContext::default()) {
        AlgorithmError::NoValidPositions { iteration, grid_dimensions } => {
            assert_eq!(iteration, 7);
            assert_eq!(grid_dimensions, (2, 3));
        }
        _ => panic!("variant changed"),
    }
}

#[test]
fn error_constructors_fill_fields() {
    match invalid_parameter("seed", "x", "not a number") {
        AlgorithmError::InvalidParameter { parameter, value, reason } => {
            assert_eq!(parameter, "seed");
            assert_eq!(value, "x");
            assert_eq!(reason, "not a number");
        }
        _ => panic!("wrong variant"),
    }
    match computation_error("spline", "x not increasing") {
        AlgorithmError::Computation { operation, reason } => {
            assert_eq!(operation, "spline");
            assert_eq!(reason, "x not increasing");
        }
        _ => panic!("wrong variant"),
    }
    match io_error("missing") {
        AlgorithmError::InvalidParameter { parameter, value, reason } => {
            assert_eq!(parameter, "path");
            assert_eq!(value, "");
            assert_eq!(reason, "missing");
        }
        _ => panic!("wrong variant"),
    }
    let r: Result<(), AlgorithmError> = Err(io_error("m"));
    assert!(r.with_operation("load").is_err());
    assert_eq!(InterpolationError::new("too few points").message(), "too few points");
}
