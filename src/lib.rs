//! Two-pass loudness normalisation with ffmpeg's `loudnorm` filter.
//!
//! The library holds the decisions: resolving and validating the command-line
//! targets (`config`), building the filter expressions of the analysis and the
//! correction pass (`filter`), and reading the loudness report out of the
//! analysis pass's diagnostic output (`analysis`). Running ffmpeg, the command
//! line itself and the progress spinner live in the program around it.
use vstd::prelude::*;

pub mod analysis;
pub mod config;
pub mod decimal;
pub mod error;
pub mod filter;
pub mod loudness;
pub mod text;

verus! {

} // verus!
