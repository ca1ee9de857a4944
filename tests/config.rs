use loudnorm_helper::config::CliConfig;
use loudnorm_helper::error::{Field, LoudnormError};

fn resolve(i: Option<&str>, l: Option<&str>, t: Option<&str>) -> Result<CliConfig, LoudnormError> {
    CliConfig::resolve(
        Some("song.flac".to_string()),
        i.map(|s| s.to_string()),
        l.map(|s| s.to_string()),
        t.map(|s| s.to_string()),
        false,
        false,
    )
}

fn error_of(r: Result<CliConfig, LoudnormError>) -> LoudnormError {
    match r {
        Ok(_) => panic!("expected an error"),
        Err(e) => e,
    }
}

#[test]
fn defaults_apply() {
    let c = resolve(None, None, None).unwrap();
    assert_eq!(c.input_path, "song.flac");
    assert_eq!(c.integrated_loudness, "-23.0");
    assert_eq!(c.loudness_range, "7.0");
    assert_eq!(c.true_peak, "-2.0");
    assert!(!c.down_mix);
    assert!(!c.resample);
}

#[test]
fn flags_are_kept() {
    let c = CliConfig::resolve(Some("a.mp4".to_string()), None, None, None, true, true).unwrap();
    assert!(c.down_mix);
    assert!(c.resample);
    assert_eq!(c.input_path, "a.mp4");
}

#[test]
fn missing_input_is_reported_first() {
    let r = CliConfig::resolve(None, Some("oops".to_string()), None, None, false, false);
    assert_eq!(error_of(r), LoudnormError::MissingInput);
}

#[test]
fn values_are_kept_as_written() {
    let c = resolve(Some("-16"), Some("+11.50"), Some("-1.5")).unwrap();
    assert_eq!(c.integrated_loudness, "-16");
    assert_eq!(c.loudness_range, "+11.50");
    assert_eq!(c.true_peak, "-1.5");
}

#[test]
fn unparsable_numbers_are_rejected() {
    let il = LoudnormError::InvalidArgument(Field::IntegratedLoudness);
    for bad in ["abc", "", "-", ".", "-.", "-2 3", "--23", "-23.0.0", "inf", "-inf", "nan", "-2.3e", "-2.3e+", "e1", "-23e1.0", "0x17"] {
        assert_eq!(error_of(resolve(Some(bad), None, None)), il, "{}", bad);
    }
    assert_eq!(
        error_of(resolve(None, Some("seven"), None)),
        LoudnormError::InvalidArgument(Field::LoudnessRange)
    );
    assert_eq!(
        error_of(resolve(None, None, Some("x"))),
        LoudnormError::InvalidArgument(Field::TruePeak)
    );
}

#[test]
fn integrated_loudness_range_bounds() {
    let il = LoudnormError::InvalidArgument(Field::IntegratedLoudness);
    assert!(resolve(Some("-70.0"), None, None).is_ok());
    assert!(resolve(Some("-70"), None, None).is_ok());
    assert!(resolve(Some("-5"), None, None).is_ok());
    assert!(resolve(Some("-5.000"), None, None).is_ok());
    assert!(resolve(Some("-69.99"), None, None).is_ok());
    assert_eq!(error_of(resolve(Some("-70.01"), None, None)), il);
    assert_eq!(error_of(resolve(Some("-4.99"), None, None)), il);
    assert_eq!(error_of(resolve(Some("-71"), None, None)), il);
    assert_eq!(error_of(resolve(Some("23"), None, None)), il);
    assert_eq!(error_of(resolve(Some("-100000000000000000000000"), None, None)), il);
}

#[test]
fn loudness_range_bounds() {
    let lra = LoudnormError::InvalidArgument(Field::LoudnessRange);
    assert!(resolve(None, Some("1"), None).is_ok());
    assert!(resolve(None, Some("20.0"), None).is_ok());
    assert_eq!(error_of(resolve(None, Some("0.99"), None)), lra);
    assert_eq!(error_of(resolve(None, Some("20.1"), None)), lra);
    assert_eq!(error_of(resolve(None, Some("-7"), None)), lra);
}

#[test]
fn true_peak_bounds() {
    let tp = LoudnormError::InvalidArgument(Field::TruePeak);
    assert!(resolve(None, None, Some("0")).is_ok());
    assert!(resolve(None, None, Some("-0.0")).is_ok());
    assert!(resolve(None, None, Some("-9")).is_ok());
    assert_eq!(error_of(resolve(None, None, Some("0.1"))), tp);
    assert_eq!(error_of(resolve(None, None, Some("-9.5"))), tp);
}

#[test]
fn first_bad_field_is_reported() {
    assert_eq!(
        error_of(resolve(Some("1"), Some("99"), Some("5"))),
        LoudnormError::InvalidArgument(Field::IntegratedLoudness)
    );
    assert_eq!(
        error_of(resolve(None, Some("99"), Some("5"))),
        LoudnormError::InvalidArgument(Field::LoudnessRange)
    );
}

#[test]
fn float_forms_are_accepted_as_written() {
    for good in ["-23.", "-2.3e1", "-2.3E1", "-2.3e+1", "-230e-1", "-0.0000023e7", "-.5e2", "-7e0"] {
        let c = resolve(Some(good), None, None).unwrap();
        assert_eq!(c.integrated_loudness, good);
    }
    assert!(resolve(None, Some("5."), None).is_ok());
    assert!(resolve(None, Some("1E1"), None).is_ok());
    assert!(resolve(None, Some(".2e2"), None).is_ok());
    assert!(resolve(None, None, Some("-.5")).is_ok());
}

#[test]
fn exponents_move_values_out_of_range() {
    let il = LoudnormError::InvalidArgument(Field::IntegratedLoudness);
    assert_eq!(error_of(resolve(Some("-2.3e2"), None, None)), il);
    assert_eq!(error_of(resolve(Some("-2.3e-1"), None, None)), il);
    assert_eq!(error_of(resolve(Some("-7.00001e1"), None, None)), il);
    assert!(resolve(Some("-7e1"), None, None).is_ok());
    assert!(resolve(Some("-0.5e1"), None, None).is_ok());
    assert_eq!(error_of(resolve(Some("-0.4999e1"), None, None)), il);
    assert_eq!(error_of(resolve(Some("-2.3e100000000000000000000000000"), None, None)), il);
    assert_eq!(error_of(resolve(Some("-2.3e-100000000000000000000000000"), None, None)), il);
    let tp = LoudnormError::InvalidArgument(Field::TruePeak);
    assert!(resolve(None, None, Some("-2e-100000000000000000000000000")).is_ok());
    assert!(resolve(None, None, Some("0e999999999999999999999999")).is_ok());
    assert_eq!(error_of(resolve(None, None, Some("1e-100000000000000000000000000"))), tp);
    assert_eq!(error_of(resolve(None, None, Some(".1"))), tp);
}
