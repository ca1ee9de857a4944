use vstd::prelude::*;

use crate::config::CliConfig;
use crate::decimal::{is_measurement_text, lemma_numeral_chars};
use crate::loudness::Loudness;
use crate::text::{
    contains, ends_with, lacks_char, lemma_lacking_char_excludes, lemma_lacks_concat,
    lemma_occurs_extend, lemma_occurs_pair, lemma_occurs_shift,
    lemma_only_before_concat, lemma_split_excludes_early, occurs_at, starts_with,
    char_only_before, lemma_pair_free_concat, lemma_pair_free_excludes, lemma_pair_free_of_lacks,
    lemma_pair_split_excludes, pair_free,
};

verus! {

pub open spec fn downmix_prefix(down_mix: bool) -> Seq<char> {
    if down_mix {
        "aformat=sample_fmts=s16:sample_rates=48000:channel_layouts=stereo,"@
    } else {
        Seq::empty()
    }
}

pub open spec fn resample_suffix(resample: bool) -> Seq<char> {
    if resample {
        ",aresample=osr=48000,aresample=resampler=soxr:precision=28"@
    } else {
        Seq::empty()
    }
}

/// The loudnorm filter of the analysis pass: report the measurements as JSON.
pub open spec fn loudnorm_measurement(c: CliConfig) -> Seq<char> {
    "loudnorm=I="@ + c.integrated_loudness@ + ":LRA="@ + c.loudness_range@ + ":TP="@
        + c.true_peak@ + ":print_format=json"@
}

/// The loudnorm filter of the correction pass: linear normalisation from the
/// measured values.
pub open spec fn loudnorm_correction(c: CliConfig, m: Loudness) -> Seq<char> {
    "loudnorm=linear=true:I="@ + c.integrated_loudness@ + ":LRA="@ + c.loudness_range@
        + ":TP="@ + c.true_peak@ + ":measured_I="@ + m.input_i@ + ":measured_TP="@
        + m.input_tp@ + ":measured_LRA="@ + m.input_lra@ + ":measured_thresh="@
        + m.input_thresh@ + ":offset="@ + m.target_offset@
}

pub open spec fn measurement_filter(c: CliConfig) -> Seq<char> {
    downmix_prefix(c.down_mix) + loudnorm_measurement(c)
}

pub open spec fn correction_filter(c: CliConfig, m: Loudness) -> Seq<char> {
    downmix_prefix(c.down_mix) + loudnorm_correction(c, m) + resample_suffix(c.resample)
}

pub open spec fn filter_text(c: CliConfig, m: Option<&Loudness>) -> Seq<char> {
    match m {
        None => measurement_filter(c),
        Some(l) => correction_filter(c, *l),
    }
}

pub struct FilterSettings;

impl FilterSettings {
    /// The filter expression for the analysis pass (no measurement) or for the
    /// correction pass (with the measurement of the analysis pass).
    pub fn construct(config: &CliConfig, loudness: Option<&Loudness>) -> (r: String)
        ensures
            r@ == filter_text(*config, loudness),
    {
        let mut filter = String::new();
        if config.down_mix {
            filter.append("aformat=sample_fmts=s16:sample_rates=48000:channel_layouts=stereo,");
        }
        assert(filter@ =~= downmix_prefix(config.down_mix));
        match loudness {
            None => {
                let mut body = String::from_str("loudnorm=I=");
                body.append(config.integrated_loudness.as_str());
                body.append(":LRA=");
                body.append(config.loudness_range.as_str());
                body.append(":TP=");
                body.append(config.true_peak.as_str());
                body.append(":print_format=json");
                filter.append(body.as_str());
            },
            Some(l) => {
                let mut body = String::from_str("loudnorm=linear=true:I=");
                body.append(config.integrated_loudness.as_str());
                body.append(":LRA=");
                body.append(config.loudness_range.as_str());
                body.append(":TP=");
                body.append(config.true_peak.as_str());
                body.append(":measured_I=");
                body.append(l.input_i.as_str());
                body.append(":measured_TP=");
                body.append(l.input_tp.as_str());
                body.append(":measured_LRA=");
                body.append(l.input_lra.as_str());
                body.append(":measured_thresh=");
                body.append(l.input_thresh.as_str());
                body.append(":offset=");
                body.append(l.target_offset.as_str());
                filter.append(body.as_str());
                if config.resample {
                    filter.append(",aresample=osr=48000,aresample=resampler=soxr:precision=28");
                } else {
                    assert(filter@ =~= filter@ + resample_suffix(false));
                }
            },
        }
        filter
    }
}

proof fn lemma_literal_chars()
    ensures
        lacks_char("aformat=sample_fmts=s16:sample_rates=48000:channel_layouts=stereo,"@, 'i'),
        lacks_char("aformat=sample_fmts=s16:sample_rates=48000:channel_layouts=stereo,"@, 'j'),
        lacks_char("aformat=sample_fmts=s16:sample_rates=48000:channel_layouts=stereo,"@, 'x'),
{
    reveal_strlit("aformat=sample_fmts=s16:sample_rates=48000:channel_layouts=stereo,");
}

proof fn lemma_value_chars(s: Seq<char>)
    requires
        is_measurement_text(s),
    ensures
        lacks_char(s, 'u'),
        lacks_char(s, 'a'),
        lacks_char(s, 's'),
        lacks_char(s, 'j'),
        lacks_char(s, 'x'),
{
    lemma_numeral_chars(s);
}

proof fn lemma_body_literals()
    ensures
        char_only_before("loudnorm=I="@, 'u', 3),
        lacks_char(":LRA="@, 'u'),
        lacks_char(":TP="@, 'u'),
        lacks_char(":print_format=json"@, 'u'),
        lacks_char("loudnorm=linear=true:I="@, 'j'),
        lacks_char(":LRA="@, 'j'),
        lacks_char(":TP="@, 'j'),
        lacks_char(":measured_I="@, 'j'),
        lacks_char(":measured_TP="@, 'j'),
        lacks_char(":measured_LRA="@, 'j'),
        lacks_char(":measured_thresh="@, 'j'),
        lacks_char(":offset="@, 'j'),
        lacks_char("loudnorm=linear=true:I="@, 'x'),
        lacks_char(":LRA="@, 'x'),
        lacks_char(":TP="@, 'x'),
        lacks_char(":measured_I="@, 'x'),
        lacks_char(":measured_TP="@, 'x'),
        lacks_char(":measured_LRA="@, 'x'),
        lacks_char(":measured_thresh="@, 'x'),
        lacks_char(":offset="@, 'x'),
{
    reveal_strlit("loudnorm=I=");
    reveal_strlit(":LRA=");
    reveal_strlit(":TP=");
    reveal_strlit(":print_format=json");
    reveal_strlit("loudnorm=linear=true:I=");
    reveal_strlit(":measured_I=");
    reveal_strlit(":measured_TP=");
    reveal_strlit(":measured_LRA=");
    reveal_strlit(":measured_thresh=");
    reveal_strlit(":offset=");
}

/// The correction filter body avoids character `ch` when its literals and the
/// values it carries do.
proof fn lemma_correction_lacks(c: CliConfig, m: Loudness, ch: char)
    requires
        c.wf(),
        m.wf(),
        ch == 'j' || ch == 'x',
    ensures
        lacks_char(loudnorm_correction(c, m), ch),
{
    lemma_body_literals();
    lemma_value_chars(c.integrated_loudness@);
    lemma_value_chars(c.loudness_range@);
    lemma_value_chars(c.true_peak@);
    lemma_value_chars(m.input_i@);
    lemma_value_chars(m.input_tp@);
    lemma_value_chars(m.input_lra@);
    lemma_value_chars(m.input_thresh@);
    lemma_value_chars(m.target_offset@);
    let s0 = "loudnorm=linear=true:I="@;
    let s1 = s0 + c.integrated_loudness@;
    lemma_lacks_concat(s0, c.integrated_loudness@, ch);
    let s2 = s1 + ":LRA="@;
    lemma_lacks_concat(s1, ":LRA="@, ch);
    let s3 = s2 + c.loudness_range@;
    lemma_lacks_concat(s2, c.loudness_range@, ch);
    let s4 = s3 + ":TP="@;
    lemma_lacks_concat(s3, ":TP="@, ch);
    let s5 = s4 + c.true_peak@;
    lemma_lacks_concat(s4, c.true_peak@, ch);
    let s6 = s5 + ":measured_I="@;
    lemma_lacks_concat(s5, ":measured_I="@, ch);
    let s7 = s6 + m.input_i@;
    lemma_lacks_concat(s6, m.input_i@, ch);
    let s8 = s7 + ":measured_TP="@;
    lemma_lacks_concat(s7, ":measured_TP="@, ch);
    let s9 = s8 + m.input_tp@;
    lemma_lacks_concat(s8, m.input_tp@, ch);
    let s10 = s9 + ":measured_LRA="@;
    lemma_lacks_concat(s9, ":measured_LRA="@, ch);
    let s11 = s10 + m.input_lra@;
    lemma_lacks_concat(s10, m.input_lra@, ch);
    let s12 = s11 + ":measured_thresh="@;
    lemma_lacks_concat(s11, ":measured_thresh="@, ch);
    let s13 = s12 + m.input_thresh@;
    lemma_lacks_concat(s12, m.input_thresh@, ch);
    let s14 = s13 + ":offset="@;
    lemma_lacks_concat(s13, ":offset="@, ch);
    lemma_lacks_concat(s14, m.target_offset@, ch);
}

/// For every valid configuration the analysis-pass filter asks for the JSON
/// report and does not ask for linear normalisation.
pub proof fn lemma_measurement_filter_reports_json(c: CliConfig)
    requires
        c.wf(),
    ensures
        contains(measurement_filter(c), "print_format=json"@),
        !contains(measurement_filter(c), "linear=true"@),
{
    let s = measurement_filter(c);
    let lit = ":print_format=json"@;
    let want = "print_format=json"@;
    reveal_strlit(":print_format=json");
    reveal_strlit("print_format=json");
    reveal_strlit("linear=true");
    assert(s.subrange(s.len() - want.len(), s.len() as int) =~= want);
    assert(occurs_at(s, want, s.len() - want.len()));
    lemma_body_literals();
    lemma_value_chars(c.integrated_loudness@);
    lemma_value_chars(c.loudness_range@);
    lemma_value_chars(c.true_peak@);
    let s0 = "loudnorm=I="@;
    reveal_strlit("loudnorm=I=");
    let s1 = s0 + c.integrated_loudness@;
    lemma_only_before_concat(s0, c.integrated_loudness@, 'u', 3);
    let s2 = s1 + ":LRA="@;
    lemma_only_before_concat(s1, ":LRA="@, 'u', 3);
    let s3 = s2 + c.loudness_range@;
    lemma_only_before_concat(s2, c.loudness_range@, 'u', 3);
    let s4 = s3 + ":TP="@;
    lemma_only_before_concat(s3, ":TP="@, 'u', 3);
    let s5 = s4 + c.true_peak@;
    lemma_only_before_concat(s4, c.true_peak@, 'u', 3);
    lemma_only_before_concat(s5, lit, 'u', 3);
    let body = loudnorm_measurement(c);
    let sub = "linear=true"@;
    let pre = downmix_prefix(c.down_mix);
    lemma_literal_chars();
    assert(s == pre + body);
    lemma_split_excludes_early(pre, body, sub, 1, 9);
}

/// For every valid configuration and measurement the correction-pass filter asks
/// for linear normalisation, carries each measured value under its key, and never
/// asks for the JSON report.
pub proof fn lemma_correction_filter_uses_measurement(c: CliConfig, m: Loudness)
    requires
        c.wf(),
        m.wf(),
    ensures
        contains(correction_filter(c, m), "linear=true"@),
        contains(correction_filter(c, m), ":measured_I="@ + m.input_i@),
        contains(correction_filter(c, m), ":measured_TP="@ + m.input_tp@),
        contains(correction_filter(c, m), ":measured_LRA="@ + m.input_lra@),
        contains(correction_filter(c, m), ":measured_thresh="@ + m.input_thresh@),
        contains(correction_filter(c, m), ":offset="@ + m.target_offset@),
        !contains(correction_filter(c, m), "print_format=json"@),
{
    let s = correction_filter(c, m);
    let pre = downmix_prefix(c.down_mix);
    let suf = resample_suffix(c.resample);
    reveal_strlit("loudnorm=linear=true:I=");
    reveal_strlit("linear=true");
    reveal_strlit("print_format=json");
    let t0 = "loudnorm=linear=true:I="@;
    let t1 = t0 + c.integrated_loudness@;
    let t2 = t1 + ":LRA="@;
    let t3 = t2 + c.loudness_range@;
    let t4 = t3 + ":TP="@;
    let t5 = t4 + c.true_peak@;
    let t6 = t5 + ":measured_I="@;
    let t7 = t6 + m.input_i@;
    let t8 = t7 + ":measured_TP="@;
    let t9 = t8 + m.input_tp@;
    let t10 = t9 + ":measured_LRA="@;
    let t11 = t10 + m.input_lra@;
    let t12 = t11 + ":measured_thresh="@;
    let t13 = t12 + m.input_thresh@;
    let t14 = t13 + ":offset="@;
    let t15 = t14 + m.target_offset@;
    assert(t15 == loudnorm_correction(c, m));
    assert(t0.subrange(9, 20) =~= "linear=true"@);
    assert(occurs_at(t0, "linear=true"@, 9));
    lemma_occurs_extend(t0, "linear=true"@, 9, c.integrated_loudness@);
    lemma_occurs_extend(t1, "linear=true"@, 9, ":LRA="@);
    lemma_occurs_extend(t2, "linear=true"@, 9, c.loudness_range@);
    lemma_occurs_extend(t3, "linear=true"@, 9, ":TP="@);
    lemma_occurs_extend(t4, "linear=true"@, 9, c.true_peak@);
    lemma_occurs_extend(t5, "linear=true"@, 9, ":measured_I="@);
    lemma_occurs_extend(t6, "linear=true"@, 9, m.input_i@);
    lemma_occurs_extend(t7, "linear=true"@, 9, ":measured_TP="@);
    lemma_occurs_extend(t8, "linear=true"@, 9, m.input_tp@);
    lemma_occurs_extend(t9, "linear=true"@, 9, ":measured_LRA="@);
    lemma_occurs_extend(t10, "linear=true"@, 9, m.input_lra@);
    lemma_occurs_extend(t11, "linear=true"@, 9, ":measured_thresh="@);
    lemma_occurs_extend(t12, "linear=true"@, 9, m.input_thresh@);
    lemma_occurs_extend(t13, "linear=true"@, 9, ":offset="@);
    lemma_occurs_extend(t14, "linear=true"@, 9, m.target_offset@);
    lemma_occurs_shift(pre, t15, "linear=true"@, 9);
    lemma_occurs_extend(pre + t15, "linear=true"@, 9 + pre.len() as int, suf);
    lemma_occurs_pair(t5, ":measured_I="@, m.input_i@);
    lemma_occurs_extend(t7, ":measured_I="@ + m.input_i@, t5.len() as int, ":measured_TP="@);
    lemma_occurs_extend(t8, ":measured_I="@ + m.input_i@, t5.len() as int, m.input_tp@);
    lemma_occurs_extend(t9, ":measured_I="@ + m.input_i@, t5.len() as int, ":measured_LRA="@);
    lemma_occurs_extend(t10, ":measured_I="@ + m.input_i@, t5.len() as int, m.input_lra@);
    lemma_occurs_extend(t11, ":measured_I="@ + m.input_i@, t5.len() as int, ":measured_thresh="@);
    lemma_occurs_extend(t12, ":measured_I="@ + m.input_i@, t5.len() as int, m.input_thresh@);
    lemma_occurs_extend(t13, ":measured_I="@ + m.input_i@, t5.len() as int, ":offset="@);
    lemma_occurs_extend(t14, ":measured_I="@ + m.input_i@, t5.len() as int, m.target_offset@);
    lemma_occurs_shift(pre, t15, ":measured_I="@ + m.input_i@, t5.len() as int);
    lemma_occurs_extend(pre + t15, ":measured_I="@ + m.input_i@, t5.len() + pre.len() as int, suf);
    lemma_occurs_pair(t7, ":measured_TP="@, m.input_tp@);
    lemma_occurs_extend(t9, ":measured_TP="@ + m.input_tp@, t7.len() as int, ":measured_LRA="@);
    lemma_occurs_extend(t10, ":measured_TP="@ + m.input_tp@, t7.len() as int, m.input_lra@);
    lemma_occurs_extend(t11, ":measured_TP="@ + m.input_tp@, t7.len() as int, ":measured_thresh="@);
    lemma_occurs_extend(t12, ":measured_TP="@ + m.input_tp@, t7.len() as int, m.input_thresh@);
    lemma_occurs_extend(t13, ":measured_TP="@ + m.input_tp@, t7.len() as int, ":offset="@);
    lemma_occurs_extend(t14, ":measured_TP="@ + m.input_tp@, t7.len() as int, m.target_offset@);
    lemma_occurs_shift(pre, t15, ":measured_TP="@ + m.input_tp@, t7.len() as int);
    lemma_occurs_extend(pre + t15, ":measured_TP="@ + m.input_tp@, t7.len() + pre.len() as int, suf);
    lemma_occurs_pair(t9, ":measured_LRA="@, m.input_lra@);
    lemma_occurs_extend(t11, ":measured_LRA="@ + m.input_lra@, t9.len() as int, ":measured_thresh="@);
    lemma_occurs_extend(t12, ":measured_LRA="@ + m.input_lra@, t9.len() as int, m.input_thresh@);
    lemma_occurs_extend(t13, ":measured_LRA="@ + m.input_lra@, t9.len() as int, ":offset="@);
    lemma_occurs_extend(t14, ":measured_LRA="@ + m.input_lra@, t9.len() as int, m.target_offset@);
    lemma_occurs_shift(pre, t15, ":measured_LRA="@ + m.input_lra@, t9.len() as int);
    lemma_occurs_extend(pre + t15, ":measured_LRA="@ + m.input_lra@, t9.len() + pre.len() as int, suf);
    lemma_occurs_pair(t11, ":measured_thresh="@, m.input_thresh@);
    lemma_occurs_extend(t13, ":measured_thresh="@ + m.input_thresh@, t11.len() as int, ":offset="@);
    lemma_occurs_extend(t14, ":measured_thresh="@ + m.input_thresh@, t11.len() as int, m.target_offset@);
    lemma_occurs_shift(pre, t15, ":measured_thresh="@ + m.input_thresh@, t11.len() as int);
    lemma_occurs_extend(pre + t15, ":measured_thresh="@ + m.input_thresh@, t11.len() + pre.len() as int, suf);
    lemma_occurs_pair(t13, ":offset="@, m.target_offset@);
    lemma_occurs_shift(pre, t15, ":offset="@ + m.target_offset@, t13.len() as int);
    lemma_occurs_extend(pre + t15, ":offset="@ + m.target_offset@, t13.len() + pre.len() as int, suf);
    lemma_correction_lacks(c, m, 'j');
    lemma_correction_lacks(c, m, 'x');
    lemma_literal_chars();
    lemma_lacks_concat(pre, loudnorm_correction(c, m), 'j');
    if c.resample {
        reveal_strlit(",aresample=osr=48000,aresample=resampler=soxr:precision=28");
        lemma_lacks_concat(pre + loudnorm_correction(c, m), resample_suffix(true), 'j');
    } else {
        lemma_lacks_concat(pre + loudnorm_correction(c, m), resample_suffix(false), 'j');
    }
    lemma_lacking_char_excludes(s, "print_format=json"@, 13);
}

/// With the downmix flag the filter starts with the conversion to 16-bit 48 kHz
/// stereo; without it, it starts directly with the loudnorm filter.
pub proof fn lemma_downmix_prefix(c: CliConfig, m: Option<&Loudness>)
    ensures
        c.down_mix ==> starts_with(
            filter_text(c, m),
            "aformat=sample_fmts=s16:sample_rates=48000:channel_layouts=stereo,"@,
        ),
        !c.down_mix ==> starts_with(filter_text(c, m), "loudnorm="@),
{
    let s = filter_text(c, m);
    let pre = downmix_prefix(c.down_mix);
    reveal_strlit("loudnorm=");
    reveal_strlit("loudnorm=I=");
    reveal_strlit("loudnorm=linear=true:I=");
    assert(s.take(pre.len() as int) =~= pre);
    if !c.down_mix {
        assert(s.take(9) =~= "loudnorm="@);
    }
}

/// In the correction pass the resample stage ends the filter exactly when the
/// resample flag is set, and does not appear anywhere otherwise.
pub proof fn lemma_resample_suffix(c: CliConfig, m: Loudness)
    requires
        c.wf(),
        m.wf(),
    ensures
        c.resample ==> ends_with(correction_filter(c, m), resample_suffix(true)),
        !c.resample ==> !contains(correction_filter(c, m), resample_suffix(true)),
{
    let s = correction_filter(c, m);
    let suf = resample_suffix(true);
    if c.resample {
        assert(s.skip(s.len() - suf.len()) =~= suf);
    } else {
        reveal_strlit(",aresample=osr=48000,aresample=resampler=soxr:precision=28");
        lemma_correction_lacks(c, m, 'x');
        lemma_literal_chars();
        let pre = downmix_prefix(c.down_mix);
        lemma_lacks_concat(pre, loudnorm_correction(c, m), 'x');
        assert(s =~= pre + loudnorm_correction(c, m));
        lemma_lacking_char_excludes(s, suf, 43);
    }
}

proof fn lemma_pair_literals()
    ensures
        pair_free("loudnorm=I="@, 'a', 'f'),
        pair_free("loudnorm=I="@, 'a', 'r'),
        pair_free(":LRA="@, 'a', 'f'),
        pair_free(":LRA="@, 'a', 'r'),
        pair_free(":TP="@, 'a', 'f'),
        pair_free(":TP="@, 'a', 'r'),
        pair_free(":print_format=json"@, 'a', 'f'),
        pair_free(":print_format=json"@, 'a', 'r'),
        pair_free("loudnorm=linear=true:I="@, 'a', 'f'),
        pair_free("loudnorm=linear=true:I="@, 's', 'a'),
        pair_free(":LRA="@, 'a', 'f'),
        pair_free(":LRA="@, 's', 'a'),
        pair_free(":TP="@, 'a', 'f'),
        pair_free(":TP="@, 's', 'a'),
        pair_free(":measured_I="@, 'a', 'f'),
        pair_free(":measured_I="@, 's', 'a'),
        pair_free(":measured_TP="@, 'a', 'f'),
        pair_free(":measured_TP="@, 's', 'a'),
        pair_free(":measured_LRA="@, 'a', 'f'),
        pair_free(":measured_LRA="@, 's', 'a'),
        pair_free(":measured_thresh="@, 'a', 'f'),
        pair_free(":measured_thresh="@, 's', 'a'),
        pair_free(":offset="@, 'a', 'f'),
        pair_free(":offset="@, 's', 'a'),
        pair_free(",aresample=osr=48000,aresample=resampler=soxr:precision=28"@, 'a', 'f'),
        pair_free("aformat=sample_fmts=s16:sample_rates=48000:channel_layouts=stereo,"@, 'a', 'r'),
        "aformat="@[0] == 'a' && "aformat="@[1] == 'f' && "aformat="@.len() == 8,
        "aresample"@[0] == 'a' && "aresample"@[1] == 'r' && "aresample"@[3] == 's' && "aresample"@[4] == 'a' && "aresample"@.len() == 9,
{
    reveal_strlit(",aresample=osr=48000,aresample=resampler=soxr:precision=28");
    reveal_strlit(":LRA=");
    reveal_strlit(":TP=");
    reveal_strlit(":measured_I=");
    reveal_strlit(":measured_LRA=");
    reveal_strlit(":measured_TP=");
    reveal_strlit(":measured_thresh=");
    reveal_strlit(":offset=");
    reveal_strlit(":print_format=json");
    reveal_strlit("loudnorm=I=");
    reveal_strlit("loudnorm=linear=true:I=");
    reveal_strlit("aformat=sample_fmts=s16:sample_rates=48000:channel_layouts=stereo,");
    reveal_strlit("aformat=");
    reveal_strlit("aresample");
}

/// The analysis-pass loudnorm filter is free of a pair that its literals are
/// free of and that cannot start in a value.
proof fn lemma_measurement_pair_free(c: CliConfig, a: char, b: char)
    requires
        c.wf(),
        a == 'a' || a == 's',
        pair_free("loudnorm=I="@, a, b),
        pair_free(":LRA="@, a, b),
        pair_free(":TP="@, a, b),
        pair_free(":print_format=json"@, a, b),
    ensures
        pair_free(loudnorm_measurement(c), a, b),
{
    let (i, l, t) = (c.integrated_loudness@, c.loudness_range@, c.true_peak@);
    lemma_value_chars(i);
    lemma_value_chars(l);
    lemma_value_chars(t);
    lemma_pair_free_of_lacks(i, a, b);
    lemma_pair_free_of_lacks(l, a, b);
    lemma_pair_free_of_lacks(t, a, b);
    let s1 = "loudnorm=I="@ + i;
    lemma_pair_free_concat("loudnorm=I="@, i, a, b);
    let s2 = s1 + ":LRA="@;
    lemma_pair_free_concat(s1, ":LRA="@, a, b);
    let s3 = s2 + l;
    lemma_pair_free_concat(s2, l, a, b);
    let s4 = s3 + ":TP="@;
    lemma_pair_free_concat(s3, ":TP="@, a, b);
    let s5 = s4 + t;
    lemma_pair_free_concat(s4, t, a, b);
    lemma_pair_free_concat(s5, ":print_format=json"@, a, b);
}

/// The correction-pass loudnorm filter is free of a pair that its literals are
/// free of and that cannot start in a value.
proof fn lemma_correction_pair_free(c: CliConfig, m: Loudness, a: char, b: char)
    requires
        c.wf(),
        m.wf(),
        a == 'a' || a == 's',
        pair_free("loudnorm=linear=true:I="@, a, b),
        pair_free(":LRA="@, a, b),
        pair_free(":TP="@, a, b),
        pair_free(":measured_I="@, a, b),
        pair_free(":measured_TP="@, a, b),
        pair_free(":measured_LRA="@, a, b),
        pair_free(":measured_thresh="@, a, b),
        pair_free(":offset="@, a, b),
    ensures
        pair_free(loudnorm_correction(c, m), a, b),
{
    let values = seq![
        c.integrated_loudness@,
        c.loudness_range@,
        c.true_peak@,
        m.input_i@,
        m.input_tp@,
        m.input_lra@,
        m.input_thresh@,
        m.target_offset@,
    ];
    assert forall|k: int| 0 <= k < 8 implies pair_free(#[trigger] values[k], a, b) by {
        lemma_value_chars(values[k]);
        lemma_pair_free_of_lacks(values[k], a, b);
    }
    assert(pair_free(values[0], a, b) && pair_free(values[1], a, b) && pair_free(values[2], a, b));
    assert(pair_free(values[3], a, b) && pair_free(values[4], a, b) && pair_free(values[5], a, b));
    assert(pair_free(values[6], a, b) && pair_free(values[7], a, b));
    let s1 = "loudnorm=linear=true:I="@ + values[0];
    lemma_pair_free_concat("loudnorm=linear=true:I="@, values[0], a, b);
    let s2 = s1 + ":LRA="@;
    lemma_pair_free_concat(s1, ":LRA="@, a, b);
    let s3 = s2 + values[1];
    lemma_pair_free_concat(s2, values[1], a, b);
    let s4 = s3 + ":TP="@;
    lemma_pair_free_concat(s3, ":TP="@, a, b);
    let s5 = s4 + values[2];
    lemma_pair_free_concat(s4, values[2], a, b);
    let s6 = s5 + ":measured_I="@;
    lemma_pair_free_concat(s5, ":measured_I="@, a, b);
    let s7 = s6 + values[3];
    lemma_pair_free_concat(s6, values[3], a, b);
    let s8 = s7 + ":measured_TP="@;
    lemma_pair_free_concat(s7, ":measured_TP="@, a, b);
    let s9 = s8 + values[4];
    lemma_pair_free_concat(s8, values[4], a, b);
    let s10 = s9 + ":measured_LRA="@;
    lemma_pair_free_concat(s9, ":measured_LRA="@, a, b);
    let s11 = s10 + values[5];
    lemma_pair_free_concat(s10, values[5], a, b);
    let s12 = s11 + ":measured_thresh="@;
    lemma_pair_free_concat(s11, ":measured_thresh="@, a, b);
    let s13 = s12 + values[6];
    lemma_pair_free_concat(s12, values[6], a, b);
    let s14 = s13 + ":offset="@;
    lemma_pair_free_concat(s13, ":offset="@, a, b);
    lemma_pair_free_concat(s14, values[7], a, b);
}

/// Without the downmix flag no format conversion appears anywhere in the filter.
pub proof fn lemma_no_downmix_no_aformat(c: CliConfig, m: Option<&Loudness>)
    requires
        c.wf(),
        !c.down_mix,
        m matches Some(l) ==> l.wf(),
    ensures
        !contains(filter_text(c, m), "aformat="@),
{
    lemma_pair_literals();
    let s = filter_text(c, m);
    match m {
        None => {
            lemma_measurement_pair_free(c, 'a', 'f');
            assert(s =~= loudnorm_measurement(c));
        },
        Some(l) => {
            lemma_correction_pair_free(c, *l, 'a', 'f');
            let m = *l;
            lemma_pair_free_concat(loudnorm_correction(c, m), resample_suffix(c.resample), 'a', 'f');
            assert(s =~= loudnorm_correction(c, m) + resample_suffix(c.resample));
        },
    }
    lemma_pair_free_excludes(s, "aformat="@, 0);
}

/// The resample stage never appears in the analysis-pass filter, nor in the
/// correction-pass filter without the resample flag.
pub proof fn lemma_no_resample_stage(c: CliConfig, m: Option<&Loudness>)
    requires
        c.wf(),
        m matches Some(l) ==> l.wf() && !c.resample,
    ensures
        !contains(filter_text(c, m), "aresample"@),
{
    lemma_pair_literals();
    let pre = downmix_prefix(c.down_mix);
    let s = filter_text(c, m);
    match m {
        None => {
            lemma_measurement_pair_free(c, 'a', 'r');
            lemma_pair_free_concat(pre, loudnorm_measurement(c), 'a', 'r');
            lemma_pair_free_excludes(s, "aresample"@, 0);
        },
        Some(l) => {
            lemma_correction_pair_free(c, *l, 's', 'a');
            let m = *l;
            assert(s =~= pre + loudnorm_correction(c, m));
            lemma_pair_split_excludes(pre, loudnorm_correction(c, m), "aresample"@, 0, 3);
        },
    }
}

} // verus!
