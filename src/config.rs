use vstd::prelude::*;

use crate::decimal::{check_decimal_within, decimal_within};
use crate::error::{Field, LoudnormError};
use crate::text::chars_of;

verus! {

/// Default integrated-loudness target, in LUFS.
pub open spec fn default_integrated_loudness() -> Seq<char> {
    "-23.0"@
}

/// Default loudness-range target, in LU.
pub open spec fn default_loudness_range() -> Seq<char> {
    "7.0"@
}

/// Default true-peak ceiling, in dBTP.
pub open spec fn default_true_peak() -> Seq<char> {
    "-2.0"@
}

pub open spec fn text_or(v: Option<String>, default: Seq<char>) -> Seq<char> {
    match v {
        Some(s) => s@,
        None => default,
    }
}

/// The resolved command-line configuration. The numeric targets are kept as the
/// text the user wrote, so that they reach the filter expression unchanged.
pub struct CliConfig {
    pub input_path: String,
    pub integrated_loudness: String,
    pub loudness_range: String,
    pub true_peak: String,
    pub down_mix: bool,
    pub resample: bool,
}

/// The accepted ranges: out-of-range targets are rejected, never clamped.
pub open spec fn valid_integrated_loudness(s: Seq<char>) -> bool {
    decimal_within(s, -70, -5)
}

pub open spec fn valid_loudness_range(s: Seq<char>) -> bool {
    decimal_within(s, 1, 20)
}

pub open spec fn valid_true_peak(s: Seq<char>) -> bool {
    decimal_within(s, -9, 0)
}

impl CliConfig {
    /// Every numeric target is a numeral within its range.
    pub open spec fn wf(&self) -> bool {
        &&& valid_integrated_loudness(self.integrated_loudness@)
        &&& valid_loudness_range(self.loudness_range@)
        &&& valid_true_peak(self.true_peak@)
    }

    /// Resolves the command-line values into a configuration. An absent numeric
    /// target takes its default; the first problem found, in the order input,
    /// integrated loudness, loudness range, true peak, is reported.
    pub fn resolve(
        input: Option<String>,
        integrated_loudness: Option<String>,
        loudness_range: Option<String>,
        true_peak: Option<String>,
        down_mix: bool,
        resample: bool,
    ) -> (r: Result<CliConfig, LoudnormError>)
        ensures
            ({
                let i = text_or(integrated_loudness, default_integrated_loudness());
                let l = text_or(loudness_range, default_loudness_range());
                let t = text_or(true_peak, default_true_peak());
                if input is None {
                    r == Err::<CliConfig, LoudnormError>(LoudnormError::MissingInput)
                } else if !valid_integrated_loudness(i) {
                    r == Err::<CliConfig, LoudnormError>(
                        LoudnormError::InvalidArgument(Field::IntegratedLoudness),
                    )
                } else if !valid_loudness_range(l) {
                    r == Err::<CliConfig, LoudnormError>(
                        LoudnormError::InvalidArgument(Field::LoudnessRange),
                    )
                } else if !valid_true_peak(t) {
                    r == Err::<CliConfig, LoudnormError>(
                        LoudnormError::InvalidArgument(Field::TruePeak),
                    )
                } else {
                    &&& r matches Ok(c)
                    &&& c.input_path@ == input.unwrap()@
                    &&& c.integrated_loudness@ == i
                    &&& c.loudness_range@ == l
                    &&& c.true_peak@ == t
                    &&& c.down_mix == down_mix
                    &&& c.resample == resample
                }
            }),
            r matches Ok(c) ==> c.wf(),
    {
        let input_path = match input {
            Some(p) => p,
            None => {
                return Err(LoudnormError::MissingInput);
            },
        };
        let integrated_loudness = match integrated_loudness {
            Some(s) => s,
            None => String::from_str("-23.0"),
        };
        let loudness_range = match loudness_range {
            Some(s) => s,
            None => String::from_str("7.0"),
        };
        let true_peak = match true_peak {
            Some(s) => s,
            None => String::from_str("-2.0"),
        };
        if !check_decimal_within(&chars_of(integrated_loudness.as_str()), -70, -5) {
            return Err(LoudnormError::InvalidArgument(Field::IntegratedLoudness));
        }
        if !check_decimal_within(&chars_of(loudness_range.as_str()), 1, 20) {
            return Err(LoudnormError::InvalidArgument(Field::LoudnessRange));
        }
        if !check_decimal_within(&chars_of(true_peak.as_str()), -9, 0) {
            return Err(LoudnormError::InvalidArgument(Field::TruePeak));
        }
        Ok(CliConfig { input_path, integrated_loudness, loudness_range, true_peak, down_mix, resample })
    }
}

} // verus!
