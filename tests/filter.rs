use loudnorm_helper::config::CliConfig;
use loudnorm_helper::filter::FilterSettings;
use loudnorm_helper::loudness::Loudness;

const DOWNMIX: &str = "aformat=sample_fmts=s16:sample_rates=48000:channel_layouts=stereo,";
const RESAMPLE: &str = ",aresample=osr=48000,aresample=resampler=soxr:precision=28";

fn config(down_mix: bool, resample: bool) -> CliConfig {
    CliConfig::resolve(
        Some("in.wav".to_string()),
        Some("-23.0".to_string()),
        Some("7.0".to_string()),
        Some("-2.0".to_string()),
        down_mix,
        resample,
    )
    .unwrap()
}

fn measurement() -> Loudness {
    Loudness {
        input_i: "-23.5".to_string(),
        input_tp: "-1.0".to_string(),
        input_lra: "5.0".to_string(),
        input_thresh: "-34.0".to_string(),
        target_offset: "0.5".to_string(),
    }
}

#[test]
fn correction_string_is_exact() {
    let c = config(false, false);
    let m = measurement();
    assert_eq!(
        FilterSettings::construct(&c, Some(&m)),
        "loudnorm=linear=true:I=-23.0:LRA=7.0:TP=-2.0:measured_I=-23.5:measured_TP=-1.0:measured_LRA=5.0:measured_thresh=-34.0:offset=0.5"
    );
}

#[test]
fn measurement_string_is_exact() {
    let c = config(false, false);
    assert_eq!(
        FilterSettings::construct(&c, None),
        "loudnorm=I=-23.0:LRA=7.0:TP=-2.0:print_format=json"
    );
}

#[test]
fn measurement_mode_asks_for_json_only() {
    for down_mix in [false, true] {
        let f = FilterSettings::construct(&config(down_mix, true), None);
        assert!(f.contains("print_format=json"));
        assert!(!f.contains("linear=true"));
        assert!(!f.contains(RESAMPLE));
    }
}

#[test]
fn correction_mode_carries_measurement() {
    let m = measurement();
    for down_mix in [false, true] {
        let f = FilterSettings::construct(&config(down_mix, false), Some(&m));
        assert!(f.contains("linear=true"));
        assert!(f.contains(":measured_I=-23.5"));
        assert!(f.contains(":measured_TP=-1.0"));
        assert!(f.contains(":measured_LRA=5.0"));
        assert!(f.contains(":measured_thresh=-34.0"));
        assert!(f.contains(":offset=0.5"));
        assert!(!f.contains("print_format=json"));
    }
}

#[test]
fn downmix_prefix_leads() {
    let m = measurement();
    let with = FilterSettings::construct(&config(true, false), Some(&m));
    assert!(with.starts_with(DOWNMIX));
    assert_eq!(&with[DOWNMIX.len()..], FilterSettings::construct(&config(false, false), Some(&m)));
    let measure = FilterSettings::construct(&config(true, false), None);
    assert_eq!(
        measure,
        format!("{}loudnorm=I=-23.0:LRA=7.0:TP=-2.0:print_format=json", DOWNMIX)
    );
    assert!(FilterSettings::construct(&config(false, false), None).starts_with("loudnorm="));
    assert!(FilterSettings::construct(&config(false, true), Some(&m)).starts_with("loudnorm="));
}

#[test]
fn resample_suffix_ends_correction() {
    let m = measurement();
    let with = FilterSettings::construct(&config(false, true), Some(&m));
    assert!(with.ends_with(RESAMPLE));
    assert_eq!(
        with,
        format!(
            "loudnorm=linear=true:I=-23.0:LRA=7.0:TP=-2.0:measured_I=-23.5:measured_TP=-1.0:measured_LRA=5.0:measured_thresh=-34.0:offset=0.5{}",
            RESAMPLE
        )
    );
    let without = FilterSettings::construct(&config(true, false), Some(&m));
    assert!(!without.contains(RESAMPLE));
    assert!(!without.contains("aresample"));
}

#[test]
fn downmix_and_resample_together() {
    let m = measurement();
    let f = FilterSettings::construct(&config(true, true), Some(&m));
    assert!(f.starts_with(DOWNMIX));
    assert!(f.ends_with(RESAMPLE));
}

#[test]
fn stages_absent_without_their_flags() {
    let m = measurement();
    for resample in [false, true] {
        let f = FilterSettings::construct(&config(false, resample), None);
        assert!(!f.contains("aformat="));
        assert!(!f.contains("aresample"));
        let f = FilterSettings::construct(&config(true, resample), None);
        assert!(!f.contains("aresample"));
    }
    let f = FilterSettings::construct(&config(false, true), Some(&m));
    assert!(!f.contains("aformat="));
    let f = FilterSettings::construct(&config(true, false), Some(&m));
    assert!(!f.contains("aresample"));
}

#[test]
fn exponent_targets_pass_through_unchanged() {
    let c = CliConfig::resolve(
        Some("in.wav".to_string()),
        Some("-2.3e1".to_string()),
        Some("7.".to_string()),
        Some("-.2e1".to_string()),
        false,
        false,
    )
    .unwrap();
    assert_eq!(
        FilterSettings::construct(&c, None),
        "loudnorm=I=-2.3e1:LRA=7.:TP=-.2e1:print_format=json"
    );
}
