use loudnorm_helper::analysis::LoudnessAnalyzer;
use loudnorm_helper::config::CliConfig;
use loudnorm_helper::error::LoudnormError;
use loudnorm_helper::loudness::Loudness;

const REPORT: &str = "{\"input_i\":\"-23.5\",\"input_tp\":\"-1.0\",\"input_lra\":\"5.0\",\"input_thresh\":\"-34.0\",\"target_offset\":\"0.5\"}";

fn error_of(r: Result<Loudness, LoudnormError>) -> LoudnormError {
    match r {
        Ok(_) => panic!("expected an error"),
        Err(e) => e,
    }
}

#[test]
fn extract_reads_report_after_noise() {
    let text = format!("[Parsed_loudnorm_0 @ 0x55d] ... noise ... \nsize=N/A time=00:01:00\n{}\n", REPORT);
    let l = LoudnessAnalyzer::extract(&text).unwrap();
    assert_eq!(l.input_i, "-23.5");
    assert_eq!(l.input_tp, "-1.0");
    assert_eq!(l.input_lra, "5.0");
    assert_eq!(l.input_thresh, "-34.0");
    assert_eq!(l.target_offset, "0.5");
}

#[test]
fn extract_reads_pretty_printed_report() {
    let text = "Input #0, wav, from 'ünïcode.wav':\n  Duration: 00:00:10.00\n[Parsed_loudnorm_0 @ 0x5581] \n{\n\t\"input_i\" : \"-27.61\",\n\t\"input_tp\" : \"-4.47\",\n\t\"input_lra\" : \"18.06\",\n\t\"input_thresh\" : \"-39.20\",\n\t\"target_offset\" : \"0.56\"\n}\n";
    let l = LoudnessAnalyzer::extract(text).unwrap();
    assert_eq!(l.input_i, "-27.61");
    assert_eq!(l.input_tp, "-4.47");
    assert_eq!(l.input_lra, "18.06");
    assert_eq!(l.input_thresh, "-39.20");
    assert_eq!(l.target_offset, "0.56");
}

#[test]
fn extract_takes_last_object() {
    let text = format!("{{\"other\":\"1\"}} log {}", REPORT);
    assert_eq!(LoudnessAnalyzer::extract(&text).unwrap().input_i, "-23.5");
}

#[test]
fn extract_accepts_infinite_values() {
    let text = "x {\"input_i\":\"-inf\",\"input_tp\":\"-inf\",\"input_lra\":\"0.00\",\"input_thresh\":\"-70.00\",\"target_offset\":\"inf\"}";
    let l = LoudnessAnalyzer::extract(text).unwrap();
    assert_eq!(l.input_i, "-inf");
    assert_eq!(l.target_offset, "inf");
}

#[test]
fn extract_without_brace_finds_nothing() {
    assert_eq!(error_of(LoudnessAnalyzer::extract("")), LoudnormError::NoJsonFound);
    assert_eq!(
        error_of(LoudnessAnalyzer::extract("no json here } at all")),
        LoudnormError::NoJsonFound
    );
}

#[test]
fn extract_truncated_is_malformed() {
    let text = "noise {\"input_i\":\"-23.5\",\"input_tp\":\"-1";
    assert_eq!(error_of(LoudnessAnalyzer::extract(text)), LoudnormError::MalformedJson);
    assert_eq!(error_of(LoudnessAnalyzer::extract("{")), LoudnormError::MalformedJson);
}

#[test]
fn extract_invalid_content_is_malformed() {
    let cases = [
        "{not json}",
        "{}",
        "{\"input_i\":\"-23.5\",\"input_tp\":\"-1.0\",\"input_lra\":\"5.0\",\"input_thresh\":\"-34.0\"}",
        "{\"input_i\":\"-23.5\",\"input_tp\":\"-1.0\",\"input_lra\":\"5.0\",\"input_thresh\":\"-34.0\",\"target_offset\":\"0.5\",\"extra\":\"1\"}",
        "{\"input_i\":-23.5,\"input_tp\":\"-1.0\",\"input_lra\":\"5.0\",\"input_thresh\":\"-34.0\",\"target_offset\":\"0.5\"}",
        "{\"input_i\":\"loud\",\"input_tp\":\"-1.0\",\"input_lra\":\"5.0\",\"input_thresh\":\"-34.0\",\"target_offset\":\"0.5\"}",
        "{\"input_i\":\"-23.5\",\"input_tp\":\"-1.0\",\"input_lra\":\"5.0\",\"input_thresh\":\"-34.0\",\"offset\":\"0.5\"}",
        "{\"input_i\":\"-23.5\",\"input_tp\":\"-1.0\",\"input_lra\":\"5.0\",\"input_thresh\":\"-34.0\",\"target_offset\":\"0.5\",\"input_i\":\"-20.0\"}",
        "{\"input_i\":\"-23.5\",\"input_i\":\"-23.5\",\"input_tp\":\"-1.0\",\"input_lra\":\"5.0\",\"input_thresh\":\"-34.0\",\"target_offset\":\"0.5\"}",
    ];
    for c in cases {
        assert_eq!(error_of(LoudnessAnalyzer::extract(c)), LoudnormError::MalformedJson, "{}", c);
    }
}

#[test]
fn extract_json_frames_last_object() {
    assert_eq!(LoudnessAnalyzer::extract_json("log ö {a} more {b} tail").unwrap(), "{b}");
    assert_eq!(LoudnessAnalyzer::extract_json("é{abc").unwrap(), "{abc");
    assert_eq!(LoudnessAnalyzer::extract_json("x}{y}}").unwrap(), "{y}");
    assert!(LoudnessAnalyzer::extract_json("nothing").is_none());
}

#[test]
fn fields_build_record() {
    let fields = vec![
        ("input_i".to_string(), "-23.5".to_string()),
        ("input_lra".to_string(), "5.0".to_string()),
        ("input_thresh".to_string(), "-34.0".to_string()),
        ("input_tp".to_string(), "-1.0".to_string()),
        ("target_offset".to_string(), "0.5".to_string()),
    ];
    let l = LoudnessAnalyzer::loudness_from_fields(fields).unwrap();
    assert_eq!(l.input_tp, "-1.0");
    assert_eq!(l.input_lra, "5.0");
    let short = vec![("input_i".to_string(), "-23.5".to_string())];
    assert_eq!(
        error_of(LoudnessAnalyzer::loudness_from_fields(short)),
        LoudnormError::MalformedJson
    );
}

#[test]
fn analysis_arguments_are_fixed() {
    let args = LoudnessAnalyzer::analysis_args("my file.wav", "loudnorm=I=-23.0");
    assert_eq!(
        args,
        vec!["-i", "my file.wav", "-hide_banner", "-vn", "-af", "loudnorm=I=-23.0", "-f", "null", "-"]
    );
}

fn config() -> CliConfig {
    CliConfig::resolve(Some("in.wav".to_string()), None, None, None, false, false).unwrap()
}

#[test]
fn failed_process_gives_no_filter() {
    let text = format!("noise {}", REPORT);
    match LoudnessAnalyzer::finish_analysis(&config(), false, Some(1), &text) {
        Err(e) => assert_eq!(e, LoudnormError::ProcessExecutionFailed(Some(1))),
        Ok(f) => panic!("unexpected filter {}", f),
    }
    match LoudnessAnalyzer::finish_analysis(&config(), false, None, "") {
        Err(e) => assert_eq!(e, LoudnormError::ProcessExecutionFailed(None)),
        Ok(f) => panic!("unexpected filter {}", f),
    }
}

#[test]
fn successful_process_gives_correction_filter() {
    let text = format!("noise {}", REPORT);
    assert_eq!(
        LoudnessAnalyzer::finish_analysis(&config(), true, Some(0), &text).unwrap(),
        "loudnorm=linear=true:I=-23.0:LRA=7.0:TP=-2.0:measured_I=-23.5:measured_TP=-1.0:measured_LRA=5.0:measured_thresh=-34.0:offset=0.5"
    );
    match LoudnessAnalyzer::finish_analysis(&config(), true, Some(0), "no report") {
        Err(e) => assert_eq!(e, LoudnormError::NoJsonFound),
        Ok(f) => panic!("unexpected filter {}", f),
    }
}

#[test]
fn extract_accepts_exponent_values() {
    let text = "{\"input_i\":\"-2.35e1\",\"input_tp\":\"-1.0\",\"input_lra\":\"5.\",\"input_thresh\":\"-34.0\",\"target_offset\":\".5\"}";
    let l = LoudnessAnalyzer::extract(text).unwrap();
    assert_eq!(l.input_i, "-2.35e1");
    assert_eq!(l.input_lra, "5.");
    assert_eq!(l.target_offset, ".5");
}
