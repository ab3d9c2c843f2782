//! Command-line options of the generator.

use vstd::prelude::*;

verus! {

/// Command-line options.
#[derive(Debug, Clone)]
pub struct Cli {
    /// Input PNG file or directory to process.
    pub target: String,
    /// Random seed for reproducible generation.
    pub seed: u64,
    /// Maximum iterations before stopping.
    pub iterations: usize,
    /// Write an animation of the run.
    pub visualize: bool,
    /// Suppress progress output.
    pub quiet: bool,
    /// Process files even if output exists.
    pub no_skip: bool,
    /// Capture and export analysis frames.
    pub analysis: bool,
    /// Maximum width in cells.
    pub width: Option<usize>,
    /// Maximum height in cells.
    pub height: Option<usize>,
    /// Use a prefill image if one exists.
    pub prefill: bool,
    /// Add rotated tiles.
    pub rotate: bool,
    /// Add mirrored tiles.
    pub mirror: bool,
}

impl Cli {
    /// Whether files whose output exists are skipped.
    pub fn skip_existing(&self) -> (r: bool)
        ensures
            r == !self.no_skip,
    {
        !self.no_skip
    }

    /// Whether progress is displayed.
    pub fn should_show_progress(&self) -> (r: bool)
        ensures
            r == !self.quiet,
    {
        !self.quiet
    }

    /// Generation bounds as (rows, cols) = (height, width): both when given,
    /// a square when only one is given, none otherwise.
    pub fn bounds(&self) -> (r: Option<(usize, usize)>)
        ensures
            r == (match (self.height, self.width) {
                (Some(h), Some(w)) => Some((h, w)),
                (Some(h), None) => Some((h, h)),
                (None, Some(w)) => Some((w, w)),
                (None, None) => None,
            }),
    {
        match (self.height, self.width) {
            (Some(h), Some(w)) => Some((h, w)),
            (Some(h), None) => Some((h, h)),
            (None, Some(w)) => Some((w, w)),
            (None, None) => None,
        }
    }
}

} // verus!
