//! Information-greedy tile synthesis: the integer core of a Wave Function
//! Collapse variant (grid growth, tile extraction, constraint lookup,
//! forced placements, contradiction scans and deadlock repair).

use vstd::prelude::*;

pub mod configuration;
pub mod grid;
pub mod extension;
pub mod bitset;
pub mod tiles;
pub mod cells;
pub mod propagation;
pub mod cache;
pub mod selection;
pub mod visualization;
pub mod feasibility;
pub mod deadlock;
pub mod error;
pub mod prefill;
pub mod executor;
pub mod cli;
pub mod laws;
