//! Error kinds of the engine and the context attached to them.

use vstd::prelude::*;

verus! {

/// Errors of the engine. Outside errors (image decoding, file access) are
/// carried as their message.
#[derive(Debug)]
pub enum AlgorithmError {
    /// An image could not be loaded.
    ImageLoad {
        /// Path of the image.
        path: String,
        /// Message of the underlying error.
        reason: String,
    },
    /// Source data does not meet the engine's requirements.
    InvalidSourceData {
        /// What is wrong with the data.
        reason: String,
    },
    /// Position selection found no valid candidate.
    NoValidPositions {
        /// Iteration at which it happened.
        iteration: usize,
        /// Grid dimensions (rows, cols) at that time.
        grid_dimensions: (usize, usize),
    },
    /// A parameter failed validation.
    InvalidParameter {
        /// Name of the parameter.
        parameter: String,
        /// Offending value.
        value: String,
        /// Why it is invalid.
        reason: String,
    },
    /// A tile index beyond the tile set.
    InvalidTileIndex {
        /// The index.
        index: usize,
        /// Largest valid index.
        max_tiles: usize,
    },
    /// A generated image could not be written.
    ImageExport {
        /// Path of the output.
        path: String,
        /// Message of the underlying error.
        reason: String,
    },
    /// A file system operation failed.
    FileSystem {
        /// Path involved.
        path: String,
        /// Operation that failed.
        operation: String,
        /// Message of the underlying error.
        reason: String,
    },
    /// A numerical computation produced an invalid result.
    Computation {
        /// Name of the computation.
        operation: String,
        /// What went wrong.
        reason: String,
    },
}

/// Result type of the engine.
pub type Result<T> = core::result::Result<T, AlgorithmError>;

/// State of the run that enriches an error.
#[derive(Debug, Clone)]
pub struct ErrorContext {
    /// Current iteration.
    pub iteration: Option<usize>,
    /// World coordinates involved.
    pub position: Option<[i32; 2]>,
    /// Grid indices involved.
    pub grid_position: Option<[usize; 2]>,
    /// Operation being performed.
    pub operation: Option<String>,
}

impl Default for ErrorContext {
    fn default() -> (r: Self)
        ensures
            r.iteration.is_none(),
            r.position.is_none(),
            r.grid_position.is_none(),
            r.operation.is_none(),
    {
        ErrorContext { iteration: None, position: None, grid_position: None, operation: None }
    }
}

/// The error with the context's iteration written into a
/// `NoValidPositions` error; other errors are unchanged.
pub open spec fn in_context(e: AlgorithmError, context: ErrorContext) -> AlgorithmError {
    match e {
        AlgorithmError::NoValidPositions { iteration, grid_dimensions } => AlgorithmError::NoValidPositions {
            iteration: if context.iteration.is_some() { context.iteration.unwrap() } else { iteration },
            grid_dimensions,
        },
        other => other,
    }
}

/// Apply an error context: only `NoValidPositions` takes the iteration.
pub fn apply_context(error: AlgorithmError, context: &ErrorContext) -> (r: AlgorithmError)
    ensures
        r == in_context(error, *context),
{
    match error {
        AlgorithmError::NoValidPositions { iteration, grid_dimensions } => {
            let iteration = match context.iteration {
                Some(i) => i,
                None => iteration,
            };
            AlgorithmError::NoValidPositions { iteration, grid_dimensions }
        },
        other => other,
    }
}

/// Enriches errors with the state of the run.
pub trait WithContext<T>: Sized {
    /// Add error context to a result.
    fn with_context(self, context: ErrorContext) -> Result<T>;

    /// Add the operation being performed.
    fn with_operation(self, operation: &str) -> Result<T>;
}

impl<T> WithContext<T> for Result<T> {
    fn with_context(self, context: ErrorContext) -> Result<T> {
        match self {
            Ok(v) => Ok(v),
            Err(e) => Err(apply_context(e, &context)),
        }
    }

    fn with_operation(self, operation: &str) -> Result<T> {
        let context = ErrorContext {
            iteration: None,
            position: None,
            grid_position: None,
            operation: Some(operation.to_owned()),
        };
        self.with_context(context)
    }
}

/// An invalid-parameter error.
pub fn invalid_parameter(parameter: &str, value: &str, reason: &str) -> (r: AlgorithmError)
    ensures
        r matches AlgorithmError::InvalidParameter { parameter: p, value: v, reason: m } && p@ == parameter@ && v@
            == value@ && m@ == reason@,
{
    AlgorithmError::InvalidParameter {
        parameter: parameter.to_owned(),
        value: value.to_owned(),
        reason: reason.to_owned(),
    }
}

/// A computation error.
pub fn computation_error(operation: &str, reason: &str) -> (r: AlgorithmError)
    ensures
        r matches AlgorithmError::Computation { operation: o, reason: m } && o@ == operation@ && m@ == reason@,
{
    AlgorithmError::Computation { operation: operation.to_owned(), reason: reason.to_owned() }
}

/// An I/O failure reported as an invalid `path` parameter with `msg` as reason.
pub fn io_error(msg: &str) -> (r: AlgorithmError)
    ensures
        r matches AlgorithmError::InvalidParameter { parameter: p, value: v, reason: m } && p@ == "path"@ && v@.len()
            == 0 && m@ == msg@,
{
    proof {
        reveal_strlit("path");
    }
    AlgorithmError::InvalidParameter { parameter: "path".to_owned(), value: String::new(), reason: msg.to_owned() }
}

/// Error raised when spline interpolation cannot be set up.
#[derive(Debug, Clone)]
pub struct InterpolationError {
    message: String,
}

impl InterpolationError {
    /// Create an error with a message.
    pub fn new(message: &str) -> (r: Self)
        ensures
            r.message_spec() == message@,
    {
        InterpolationError { message: message.to_owned() }
    }

    /// The message.
    pub closed spec fn message_spec(&self) -> Seq<char> {
        self.message@
    }

    /// The message.
    pub fn message(&self) -> (r: &str)
        ensures
            r@ == self.message_spec(),
    {
        self.message.as_str()
    }
}

} // verus!
