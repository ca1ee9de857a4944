use vstd::prelude::*;

use crate::decimal::is_measurement_text;

verus! {

/// The loudness report of the analysis pass, each value kept as the exact text
/// that the analysis printed.
pub struct Loudness {
    pub input_i: String,
    pub input_tp: String,
    pub input_lra: String,
    pub input_thresh: String,
    pub target_offset: String,
}

impl Loudness {
    /// Every value is the text of a number.
    pub open spec fn wf(&self) -> bool {
        &&& is_measurement_text(self.input_i@)
        &&& is_measurement_text(self.input_tp@)
        &&& is_measurement_text(self.input_lra@)
        &&& is_measurement_text(self.input_thresh@)
        &&& is_measurement_text(self.target_offset@)
    }
}

} // verus!
