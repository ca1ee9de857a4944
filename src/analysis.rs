use vstd::prelude::*;

use crate::config::CliConfig;
use crate::decimal::{check_measurement_text, is_measurement_text};
use crate::error::LoudnormError;
use crate::filter::{correction_filter, FilterSettings};
use crate::loudness::Loudness;
use crate::text::{chars_of, lacks_char};

verus! {

/// Position of the last `{` in `s`, or -1 when there is none.
pub open spec fn last_open_brace(s: Seq<char>) -> int
    decreases s.len(),
{
    if s.len() == 0 {
        -1
    } else if s.last() == '{' {
        s.len() - 1
    } else {
        last_open_brace(s.drop_last())
    }
}

/// Position of the first `}` in `s` at or after `i`, or `s.len()` when there is none.
pub open spec fn first_close_from(s: Seq<char>, i: int) -> int
    decreases s.len() - i,
{
    if i >= s.len() {
        s.len() as int
    } else if s[i] == '}' {
        i
    } else {
        first_close_from(s, i + 1)
    }
}

/// The object embedded in diagnostic text: from the last `{` through the first
/// `}` after it, or through the end of the text when no `}` follows.
pub open spec fn json_frame(s: Seq<char>) -> Option<Seq<char>> {
    let start = last_open_brace(s);
    if start < 0 {
        None
    } else {
        let close = first_close_from(s, start);
        Some(s.subrange(start, if close < s.len() { close + 1 } else { s.len() as int }))
    }
}

/// The members of the JSON object written in `text`, in key order (a repeated
/// key keeps its last value), when `text` is one JSON object whose values are all
/// strings; `None` otherwise.
pub uninterp spec fn json_string_entries(text: Seq<char>) -> Option<Seq<(Seq<char>, Seq<char>)>>;

pub open spec fn entries_view(v: Seq<(String, String)>) -> Seq<(Seq<char>, Seq<char>)> {
    v.map_values(|p: (String, String)| (p.0@, p.1@))
}

/// The value of the first entry with key `key`.
pub open spec fn lookup(e: Seq<(Seq<char>, Seq<char>)>, key: Seq<char>) -> Option<Seq<char>>
    decreases e.len(),
{
    if e.len() == 0 {
        None
    } else if e[0].0 == key {
        Some(e[0].1)
    } else {
        lookup(e.drop_first(), key)
    }
}

pub open spec fn field_ok(e: Seq<(Seq<char>, Seq<char>)>, key: Seq<char>) -> bool {
    lookup(e, key) matches Some(v) && is_measurement_text(v)
}

/// The entries are exactly the five measured values of a loudness report.
pub open spec fn report_ok(e: Seq<(Seq<char>, Seq<char>)>) -> bool {
    &&& e.len() == 5
    &&& field_ok(e, "input_i"@)
    &&& field_ok(e, "input_tp"@)
    &&& field_ok(e, "input_lra"@)
    &&& field_ok(e, "input_thresh"@)
    &&& field_ok(e, "target_offset"@)
}

/// `l` holds the values of the entries `e`.
pub open spec fn record_matches(l: Loudness, e: Seq<(Seq<char>, Seq<char>)>) -> bool {
    &&& Some(l.input_i@) == lookup(e, "input_i"@)
    &&& Some(l.input_tp@) == lookup(e, "input_tp"@)
    &&& Some(l.input_lra@) == lookup(e, "input_lra"@)
    &&& Some(l.input_thresh@) == lookup(e, "input_thresh"@)
    &&& Some(l.target_offset@) == lookup(e, "target_offset"@)
}

/// The number of times `c` occurs in `s`.
pub open spec fn count_char(s: Seq<char>, c: char) -> nat
    decreases s.len(),
{
    if s.len() == 0 {
        0
    } else {
        count_char(s.drop_last(), c) + if s.last() == c {
            1nat
        } else {
            0nat
        }
    }
}

/// Each member of an object is written `key: value`, and neither the five keys
/// nor a measured value holds a `:`. So the report holds exactly five `:`; a
/// repeated member, which the parsed map would fold into one entry, adds one.
pub open spec fn five_members(f: Seq<char>) -> bool {
    count_char(f, ':') == 5
}

/// What extraction gives for diagnostic text `s`.
pub open spec fn extract_ok(s: Seq<char>, l: Loudness) -> bool {
    &&& json_frame(s) matches Some(f)
    &&& five_members(f)
    &&& json_string_entries(f) matches Some(e)
    &&& report_ok(e)
    &&& record_matches(l, e)
}

pub open spec fn extract_error(s: Seq<char>) -> Option<LoudnormError> {
    match json_frame(s) {
        None => Some(LoudnormError::NoJsonFound),
        Some(f) => if !five_members(f) {
            Some(LoudnormError::MalformedJson)
        } else {
            match json_string_entries(f) {
            None => Some(LoudnormError::MalformedJson),
            Some(e) => if report_ok(e) {
                None
            } else {
                Some(LoudnormError::MalformedJson)
            },
        }
        },
    }
}

/// The command line of the analysis pass, after the program name.
pub open spec fn analysis_args_spec(input_path: Seq<char>, filter: Seq<char>) -> Seq<Seq<char>> {
    seq!["-i"@, input_path, "-hide_banner"@, "-vn"@, "-af"@, filter, "-f"@, "null"@, "-"@]
}

/// Relies on `serde_json::from_str` into a `BTreeMap<String, String>`: it succeeds
/// exactly when the text is one JSON object whose values are all strings (the
/// parser closes an object only on `}`, `Deserializer::end_map`), and the map
/// hands its entries out in key order.
#[verifier::external_body]
fn parse_string_object(text: &str) -> (r: Option<Vec<(String, String)>>)
    ensures
        r is Some <==> json_string_entries(text@) is Some,
        r matches Some(v) ==> Some(entries_view(v@)) == json_string_entries(text@),
        lacks_char(text@, '}') ==> r is None,
{
    match serde_json::from_str::<std::collections::BTreeMap<String, String>>(text) {
        Ok(m) => Some(m.into_iter().collect()),
        Err(_) => None,
    }
}

/// The value of the first entry of `fields` whose key is `key`.
fn find_field(fields: &Vec<(String, String)>, key: &str) -> (r: Option<String>)
    ensures
        r matches Some(v) ==> lookup(entries_view(fields@), key@) == Some(v@),
        r is None ==> lookup(entries_view(fields@), key@) is None,
{
    let wanted = String::from_str(key);
    let ghost e = entries_view(fields@);
    assert(e.skip(0) =~= e);
    let mut i: usize = 0;
    while i < fields.len()
        invariant
            i <= fields@.len(),
            e == entries_view(fields@),
            lookup(e, key@) == lookup(e.skip(i as int), key@),
            wanted@ == key@,
        decreases fields@.len() - i,
    {
        proof {
            assert(e.skip(i as int).drop_first() =~= e.skip(i as int + 1));
            assert(e.skip(i as int)[0] == e[i as int]);
            assert(e[i as int] == (fields@[i as int].0@, fields@[i as int].1@));
        }
        if fields[i].0 == wanted {
            let v = fields[i].1.clone();
            assert(lookup(e.skip(i as int), key@) == Some(v@));
            return Some(v);
        }
        i = i + 1;
    }
    proof {
        assert(e.skip(i as int).len() == 0);
    }
    None
}

/// The number of `:` in `s`.
fn count_colons(s: &str) -> (r: usize)
    ensures
        r == count_char(s@, ':'),
{
    let cs = chars_of(s);
    let mut i: usize = 0;
    let mut k: usize = 0;
    while i < cs.len()
        invariant
            i <= cs@.len(),
            cs@ == s@,
            k == count_char(cs@.take(i as int), ':'),
            k <= i,
        decreases cs@.len() - i,
    {
        proof {
            assert(cs@.take(i as int + 1).drop_last() =~= cs@.take(i as int));
        }
        if cs[i] == ':' {
            k = k + 1;
        }
        i = i + 1;
    }
    assert(cs@.take(i as int) =~= cs@);
    k
}

/// A measured value that `find_field` found and that is the text of a number.
fn measured_value(fields: &Vec<(String, String)>, key: &str) -> (r: Option<String>)
    ensures
        r is Some <==> field_ok(entries_view(fields@), key@),
        r matches Some(v) ==> lookup(entries_view(fields@), key@) == Some(v@),
{
    match find_field(fields, key) {
        Some(v) => {
            if check_measurement_text(&chars_of(v.as_str())) {
                Some(v)
            } else {
                None
            }
        },
        None => None,
    }
}

proof fn lemma_last_open_brace(s: Seq<char>, p: int)
    requires
        p == -1 || (0 <= p < s.len() && s[p] == '{'),
        forall|k: int| p < k < s.len() ==> #[trigger] s[k] != '{',
    ensures
        last_open_brace(s) == p,
    decreases s.len(),
{
    if s.len() > 0 {
        let t = s.drop_last();
        if s.last() != '{' {
            assert forall|k: int| p < k < t.len() implies #[trigger] t[k] != '{' by {
                assert(t[k] == s[k]);
            }
            if p >= 0 {
                assert(t[p] == s[p]);
            }
            lemma_last_open_brace(t, p);
        }
    }
}

proof fn lemma_first_close_from(s: Seq<char>, i: int, q: int)
    requires
        0 <= i <= q <= s.len(),
        q == s.len() || s[q] == '}',
        forall|k: int| i <= k < q ==> #[trigger] s[k] != '}',
    ensures
        first_close_from(s, i) == q,
    decreases q - i,
{
    if i < q {
        lemma_first_close_from(s, i + 1, q);
    }
}

/// Text without `{` holds no object: extraction reports that none was found.
pub proof fn lemma_no_brace_no_json(s: Seq<char>)
    requires
        lacks_char(s, '{'),
    ensures
        json_frame(s) is None,
        extract_error(s) == Some(LoudnormError::NoJsonFound),
{
    lemma_last_open_brace(s, -1);
}

/// A report that follows log text without braces, and may be followed by more
/// such text, is framed exactly.
pub proof fn lemma_frame_after_noise(noise: Seq<char>, object: Seq<char>, tail: Seq<char>)
    requires
        lacks_char(noise, '{'),
        lacks_char(tail, '{'),
        object.len() >= 2,
        object[0] == '{',
        object.last() == '}',
        lacks_char(object.drop_first(), '{'),
        lacks_char(object.drop_last(), '}'),
    ensures
        json_frame(noise + object + tail) == Some(object),
{
    let s = noise + object + tail;
    let p = noise.len() as int;
    let q = p + object.len() - 1;
    assert(s[p] == object[0]);
    assert forall|k: int| p < k < s.len() implies #[trigger] s[k] != '{' by {
        if k < p + object.len() {
            assert(s[k] == object.drop_first()[k - p - 1]);
        } else {
            assert(s[k] == tail[k - p - object.len()]);
        }
    }
    lemma_last_open_brace(s, p);
    assert(s[q] == object.last());
    assert forall|k: int| p <= k < q implies #[trigger] s[k] != '}' by {
        assert(s[k] == object.drop_last()[k - p]);
    }
    lemma_first_close_from(s, p, q);
    assert(s.subrange(p, q + 1) =~= object);
}

pub struct LoudnessAnalyzer;

impl LoudnessAnalyzer {
    /// Frames the JSON object in diagnostic text: from the last `{` through the
    /// first `}` after it (or the end of the text); `None` when there is no `{`.
    pub fn extract_json(output: &str) -> (r: Option<String>)
        ensures
            r matches Some(j) ==> json_frame(output@) == Some(j@),
            r is None ==> json_frame(output@) is None,
    {
        let cs = chars_of(output);
        let ghost s = output@;
        let n = cs.len();
        let mut i: usize = n;
        assert(s.take(n as int) =~= s);
        while i > 0 && cs[i - 1] != '{'
            invariant
                i <= n,
                n == s.len(),
                cs@ == s,
                last_open_brace(s) == last_open_brace(s.take(i as int)),
            decreases i,
        {
            proof {
                assert(s.take(i as int).drop_last() =~= s.take(i as int - 1));
            }
            i = i - 1;
        }
        if i == 0 {
            return None;
        }
        let start = i - 1;
        proof {
            assert(s.take(i as int).last() == s[start as int]);
        }
        let mut j: usize = start;
        while j < n && cs[j] != '}'
            invariant
                start <= j <= n,
                n == s.len(),
                cs@ == s,
                first_close_from(s, start as int) == first_close_from(s, j as int),
            decreases n - j,
        {
            j = j + 1;
        }
        let end = if j < n {
            j + 1
        } else {
            n
        };
        let framed = output.substring_char(start, end);
        Some(String::from_str(framed))
    }

    /// Builds the loudness record from the members of the parsed object: exactly
    /// the five measured values, each the text of a number.
    pub fn loudness_from_fields(fields: Vec<(String, String)>) -> (r: Result<Loudness, LoudnormError>)
        ensures
            r is Ok <==> report_ok(entries_view(fields@)),
            r matches Ok(l) ==> record_matches(l, entries_view(fields@)) && l.wf(),
            r matches Err(x) ==> x == LoudnormError::MalformedJson,
    {
        if fields.len() != 5 {
            return Err(LoudnormError::MalformedJson);
        }
        let input_i = measured_value(&fields, "input_i");
        let input_tp = measured_value(&fields, "input_tp");
        let input_lra = measured_value(&fields, "input_lra");
        let input_thresh = measured_value(&fields, "input_thresh");
        let target_offset = measured_value(&fields, "target_offset");
        match (input_i, input_tp, input_lra, input_thresh, target_offset) {
            (Some(input_i), Some(input_tp), Some(input_lra), Some(input_thresh), Some(target_offset)) => {
                Ok(Loudness { input_i, input_tp, input_lra, input_thresh, target_offset })
            },
            _ => Err(LoudnormError::MalformedJson),
        }
    }

    /// Reads the loudness report out of the diagnostic text of the analysis pass.
    pub fn extract(output: &str) -> (r: Result<Loudness, LoudnormError>)
        ensures
            r matches Ok(l) ==> extract_ok(output@, l) && l.wf(),
            r matches Err(x) ==> extract_error(output@) == Some(x),
            r is Ok <==> extract_error(output@) is None,
            lacks_char(output@, '{') ==> r == Err::<Loudness, LoudnormError>(
                LoudnormError::NoJsonFound,
            ),
            json_frame(output@) matches Some(f) && lacks_char(f, '}') ==> r == Err::<
                Loudness,
                LoudnormError,
            >(LoudnormError::MalformedJson),
    {
        proof {
            if lacks_char(output@, '{') {
                lemma_no_brace_no_json(output@);
            }
        }
        match Self::extract_json(output) {
            None => Err(LoudnormError::NoJsonFound),
            Some(json) => {
                if count_colons(json.as_str()) != 5 {
                    return Err(LoudnormError::MalformedJson);
                }
                match parse_string_object(json.as_str()) {
                    None => Err(LoudnormError::MalformedJson),
                    Some(fields) => Self::loudness_from_fields(fields),
                }
            },
        }
    }

    /// The arguments of the analysis pass, each its own element so that nothing
    /// is ever interpreted by a shell.
    pub fn analysis_args(input_path: &str, filter: &str) -> (r: Vec<String>)
        ensures
            r@.map_values(|a: String| a@) == analysis_args_spec(input_path@, filter@),
    {
        let mut args: Vec<String> = Vec::new();
        args.push(String::from_str("-i"));
        args.push(String::from_str(input_path));
        args.push(String::from_str("-hide_banner"));
        args.push(String::from_str("-vn"));
        args.push(String::from_str("-af"));
        args.push(String::from_str(filter));
        args.push(String::from_str("-f"));
        args.push(String::from_str("null"));
        args.push(String::from_str("-"));
        assert(args@.map_values(|a: String| a@) =~= analysis_args_spec(input_path@, filter@));
        args
    }

    /// Decides the outcome of the analysis pass from how the program ended and
    /// what it wrote on its diagnostic stream: the correction filter, or an error.
    /// A failed run yields no filter at all.
    pub fn finish_analysis(
        config: &CliConfig,
        exited_ok: bool,
        exit_code: Option<i32>,
        diagnostics: &str,
    ) -> (r: Result<String, LoudnormError>)
        ensures
            !exited_ok ==> r == Err::<String, LoudnormError>(
                LoudnormError::ProcessExecutionFailed(exit_code),
            ),
            exited_ok ==> (r is Ok <==> extract_error(diagnostics@) is None),
            exited_ok ==> (r matches Err(x) ==> extract_error(diagnostics@) == Some(x)),
            r matches Ok(f) ==> exists|l: Loudness|
                extract_ok(diagnostics@, l) && f@ == #[trigger] correction_filter(*config, l),
    {
        if !exited_ok {
            return Err(LoudnormError::ProcessExecutionFailed(exit_code));
        }
        match Self::extract(diagnostics) {
            Ok(loudness) => {
                let f = FilterSettings::construct(config, Some(&loudness));
                assert(extract_ok(diagnostics@, loudness) && f@ == correction_filter(*config, loudness));
                Ok(f)
            },
            Err(e) => Err(e),
        }
    }
}

} // verus!
