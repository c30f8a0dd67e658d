//! Format detection and record parsing: a whole input is either one JSON
//! array of records or a JSONL stream with one record per non-blank line.
//! Array decoding fails the whole load; a bad JSONL line is only counted and
//! skipped, and one aggregated warning reports the count.

use vstd::prelude::*;
use vstd::string::StringExecFns;
use vstd::utf8::decode_utf8;
use vstd::utf8::valid_utf8;
use crate::model::Conversation;
use crate::model::ConversationView;
use crate::model::LoadError;
use crate::model::RawRecord;
use crate::model::records_view;
use crate::normalize::normalize;
use crate::normalize::normalize_spec;
use crate::normalize::lemma_turn_count;
use crate::strings::utf8_to_string;
use crate::textops::chars_of;
use crate::textops::chars_to_string;
use crate::textops::copy_range;
use crate::textops::dec_str;
use crate::textops::first_content_index;
use crate::textops::lines_spec;
use crate::textops::push_decimal;
use crate::textops::push_str_chars;
use crate::textops::skip_ws_from;
use crate::textops::split_lines;
use crate::textops::trim_bounds;
use crate::textops::trim_spec;

verus! {

/// The record that decoding one JSONL line yields: the `role` and `content`
/// string fields of the JSON object on that line, or nothing when the line is
/// not such an object.
pub uninterp spec fn line_record_of(line: Seq<char>) -> Option<(Seq<char>, Seq<char>)>;

/// The record sequence that decoding a whole JSON array yields, or nothing
/// when the text is not an array of objects with string `role` and `content`
/// fields.
pub uninterp spec fn array_records_of(text: Seq<char>) -> Option<Seq<(Seq<char>, Seq<char>)>>;

/// Relies on `serde_json::from_str`: decodes the line as one JSON value and
/// yields the `role` and `content` string fields of the object; the result
/// depends on the line alone.
#[verifier::external_body]
fn parse_record_line(line: &str) -> (r: Option<RawRecord>)
    ensures
        match r {
            Some(rec) => line_record_of(line@) == Some((rec.role@, rec.content@)),
            None => line_record_of(line@) is None,
        },
{
    let v: serde_json::Value = match serde_json::from_str(line) {
        Ok(v) => v,
        Err(_) => return None,
    };
    let mut m = match v {
        serde_json::Value::Object(m) => m,
        _ => return None,
    };
    match (m.remove("role"), m.remove("content")) {
        (Some(serde_json::Value::String(role)), Some(serde_json::Value::String(content))) => Some(
            RawRecord { role, content },
        ),
        _ => None,
    }
}

/// Relies on `serde_json::from_str`: decodes the whole text as one JSON array
/// and yields the `role` and `content` string fields of each element; any
/// element of another shape fails the whole decoding. The result depends on
/// the text alone.
#[verifier::external_body]
fn parse_array_records(text: &str) -> (r: Option<Vec<RawRecord>>)
    ensures
        match r {
            Some(v) => array_records_of(text@) == Some(records_view(v@)),
            None => array_records_of(text@) is None,
        },
{
    let vals = match serde_json::from_str::<serde_json::Value>(text) {
        Ok(serde_json::Value::Array(v)) => v,
        _ => return None,
    };
    let mut out = Vec::new();
    for v in vals {
        let mut m = match v { serde_json::Value::Object(m) => m, _ => return None };
        match (m.remove("role"), m.remove("content")) {
            (Some(serde_json::Value::String(role)), Some(serde_json::Value::String(content))) => out.push(RawRecord { role, content }),
            _ => return None,
        }
    }
    Some(out)
}

/// Format detection: the input is a JSON array exactly when its first
/// non-whitespace character is an opening bracket. A one-character heuristic:
/// JSONL whose first line happens to start with `[` is misdetected, by
/// design.
pub open spec fn detect_array(text: Seq<char>) -> bool {
    skip_ws_from(text, 0) < text.len() && text[skip_ws_from(text, 0)] == '['
}

/// The records of the non-blank JSONL lines from `i` on that decode, in input
/// order.
pub open spec fn jsonl_records_from(lines: Seq<Seq<char>>, i: int) -> Seq<(Seq<char>, Seq<char>)>
    decreases lines.len() - i,
        when 0 <= i <= lines.len()
{
    if i >= lines.len() {
        Seq::empty()
    } else {
        let t = trim_spec(lines[i]);
        let rest = jsonl_records_from(lines, i + 1);
        if t.len() == 0 {
            rest
        } else {
            match line_record_of(t) {
                Some(rc) => seq![rc] + rest,
                None => rest,
            }
        }
    }
}

/// How many non-blank JSONL lines from `i` on fail to decode.
pub open spec fn jsonl_failed_from(lines: Seq<Seq<char>>, i: int) -> int
    decreases lines.len() - i,
        when 0 <= i <= lines.len()
{
    if i >= lines.len() {
        0
    } else {
        let t = trim_spec(lines[i]);
        jsonl_failed_from(lines, i + 1) + (if t.len() > 0 && line_record_of(t) is None {
            1int
        } else {
            0int
        })
    }
}

/// The aggregated warning text for `n` failed JSONL lines.
pub open spec fn jsonl_warning(n: int) -> Seq<char> {
    dec_str(n) + " JSONL line(s) failed to parse"@
}

/// The warnings of a JSONL parse: exactly one aggregated message when any
/// line failed, none otherwise.
pub open spec fn jsonl_warning_seq(text: Seq<char>) -> Seq<Seq<char>> {
    if jsonl_failed_from(lines_spec(text), 0) > 0 {
        seq![jsonl_warning(jsonl_failed_from(lines_spec(text), 0))]
    } else {
        Seq::empty()
    }
}

/// Parses a JSONL stream: blank lines are skipped, each other line is decoded
/// independently, lines that fail to decode are counted and left out, and the
/// order of the decoded records is the line order.
pub fn parse_jsonl_with_errors(text: &str) -> (r: (Vec<RawRecord>, usize))
    ensures
        records_view(r.0@) == jsonl_records_from(lines_spec(text@), 0),
        r.1 as int == jsonl_failed_from(lines_spec(text@), 0),
{
    let v = chars_of(text);
    let lines = split_lines(&v);
    let ghost ld = lines.deep_view();
    let mut out: Vec<RawRecord> = Vec::new();
    let mut failed: usize = 0;
    let mut i: usize = 0;
    assert(records_view(out@) =~= Seq::<(Seq<char>, Seq<char>)>::empty());
    while i < lines.len()
        invariant
            i <= ld.len(),
            ld == lines.deep_view(),
            lines@.len() == ld.len(),
            failed <= i,
            records_view(out@) + jsonl_records_from(ld, i as int) == jsonl_records_from(ld, 0),
            failed as int + jsonl_failed_from(ld, i as int) == jsonl_failed_from(ld, 0),
        decreases ld.len() - i,
    {
        let ghost prev = records_view(out@);
        let line = &lines[i];
        assert(line@ == ld[i as int]);
        let (a, b) = trim_bounds(line);
        if a < b {
            let tv = copy_range(line, a, b);
            let ts = chars_to_string(&tv);
            assert(ts@ == trim_spec(ld[i as int]));
            match parse_record_line(ts.as_str()) {
                Some(rec) => {
                    let ghost rc = (rec.role@, rec.content@);
                    out.push(rec);
                    assert(records_view(out@) =~= prev.push(rc));
                    assert(prev.push(rc) + jsonl_records_from(ld, i + 1) =~= prev + (seq![rc]
                        + jsonl_records_from(ld, i + 1)));
                },
                None => {
                    failed = failed + 1;
                },
            }
        } else {
            assert(trim_spec(ld[i as int]).len() == 0);
        }
        i = i + 1;
    }
    assert(jsonl_records_from(ld, ld.len() as int) =~= Seq::<(Seq<char>, Seq<char>)>::empty());
    assert(records_view(out@) =~= records_view(out@) + jsonl_records_from(ld, ld.len() as int));
    (out, failed)
}

/// Parses a JSONL stream and keeps only the decoded records, without the
/// failure count.
pub fn parse_jsonl(text: &str) -> (r: Vec<RawRecord>)
    ensures
        records_view(r@) == jsonl_records_from(lines_spec(text@), 0),
{
    let (out, _) = parse_jsonl_with_errors(text);
    out
}

/// Parses the whole text as one JSON array of records. Any decoding failure
/// is fatal for the whole load.
pub fn parse_json(text: &str) -> (r: Result<Vec<RawRecord>, LoadError>)
    ensures
        match r {
            Ok(v) => array_records_of(text@) == Some(records_view(v@)),
            Err(e) => e == LoadError::ArrayParse && array_records_of(text@) is None,
        },
{
    match parse_array_records(text) {
        Some(v) => Ok(v),
        None => Err(LoadError::ArrayParse),
    }
}

/// Detects the input format and parses accordingly: an input whose first
/// non-whitespace character is `[` is one JSON array (any failure is fatal);
/// anything else is JSONL, where failing lines are skipped, counted, and
/// reported in one aggregated warning.
pub fn detect_and_parse(text: &str) -> (r: Result<(Vec<RawRecord>, Vec<String>), LoadError>)
    ensures
        match r {
            Ok(p) => if detect_array(text@) {
                array_records_of(text@) == Some(records_view(p.0@)) && p.1.deep_view()
                    == Seq::<Seq<char>>::empty()
            } else {
                records_view(p.0@) == jsonl_records_from(lines_spec(text@), 0) && p.1.deep_view()
                    == jsonl_warning_seq(text@)
            },
            Err(e) => e == LoadError::ArrayParse && detect_array(text@) && array_records_of(
                text@,
            ) is None,
        },
{
    let v = chars_of(text);
    let k = first_content_index(&v);
    if k < v.len() && v[k] == '[' {
        match parse_array_records(text) {
            Some(recs) => {
                let warnings: Vec<String> = Vec::new();
                assert(warnings.deep_view() =~= Seq::<Seq<char>>::empty());
                Ok((recs, warnings))
            },
            None => Err(LoadError::ArrayParse),
        }
    } else {
        let (recs, failed) = parse_jsonl_with_errors(text);
        let mut warnings: Vec<String> = Vec::new();
        if failed > 0 {
            let mut w: Vec<char> = Vec::new();
            push_decimal(&mut w, failed as u64);
            push_str_chars(&mut w, " JSONL line(s) failed to parse");
            let ws = chars_to_string(&w);
            assert(ws@ == jsonl_warning(failed as int));
            let ghost before = warnings.deep_view();
            warnings.push(ws);
            assert(warnings.deep_view() =~= before.push(ws@));
            assert(warnings.deep_view() =~= jsonl_warning_seq(text@));
        } else {
            assert(warnings.deep_view() =~= jsonl_warning_seq(text@));
        }
        Ok((recs, warnings))
    }
}

/// The byte count above which an input is annotated with a size warning.
pub open spec fn size_limit() -> int {
    (20 * 1024 * 1024) as int
}

/// The size warning text.
pub open spec fn size_warning() -> Seq<char> {
    "File larger than ~20MB"@
}

/// The warnings a successful load carries: the parse warnings, then the size
/// warning when the input was oversized.
pub open spec fn load_warnings(text: Seq<char>, nbytes: int) -> Seq<Seq<char>> {
    (if detect_array(text) {
        Seq::<Seq<char>>::empty()
    } else {
        jsonl_warning_seq(text)
    }) + (if nbytes > size_limit() {
        seq![size_warning()]
    } else {
        Seq::<Seq<char>>::empty()
    })
}

/// The conversation a successful load of `text` yields.
pub open spec fn loaded_conv(text: Seq<char>, nbytes: int) -> ConversationView {
    let base = normalize_spec(
        if detect_array(text) {
            array_records_of(text)->0
        } else {
            jsonl_records_from(lines_spec(text), 0)
        },
    );
    ConversationView { system: base.system, turns: base.turns, warnings: load_warnings(text, nbytes) }
}

/// Loads a conversation from a byte buffer: the bytes must be UTF-8, the text
/// is format-detected and parsed, the records are normalized, and parse
/// warnings plus a possible size warning are attached. A non-UTF-8 buffer or
/// a malformed JSON array aborts the load; oversized input is still processed
/// in full and only annotated.
pub fn load_from_bytes(bytes: &[u8]) -> (r: Result<Conversation, LoadError>)
    ensures
        match r {
            Ok(c) => valid_utf8(bytes@) && (detect_array(decode_utf8(bytes@))
                ==> array_records_of(decode_utf8(bytes@)) is Some) && c@ == loaded_conv(
                decode_utf8(bytes@),
                bytes@.len() as int,
            ),
            Err(e) => match e {
                LoadError::NonUtf8 => !valid_utf8(bytes@),
                LoadError::ArrayParse => valid_utf8(bytes@) && detect_array(decode_utf8(bytes@))
                    && array_records_of(decode_utf8(bytes@)) is None,
            },
        },
{
    let text = match utf8_to_string(bytes) {
        Some(t) => t,
        None => {
            return Err(LoadError::NonUtf8);
        },
    };
    let parsed = match detect_and_parse(text.as_str()) {
        Ok(p) => p,
        Err(e) => {
            return Err(e);
        },
    };
    let (recs, warnings) = parsed;
    let mut conv = normalize(recs);
    let ghost base = normalize_spec(records_view(recs@));
    conv.warnings = warnings;
    if bytes.len() > 20 * 1024 * 1024 {
        let ghost before = conv@.warnings;
        conv.warnings.push(String::from_str("File larger than ~20MB"));
        assert(conv@.warnings =~= before.push(size_warning()));
    }
    proof {
        assert(conv@.warnings =~= load_warnings(text@, bytes@.len() as int));
    }
    Ok(conv)
}

/// Partial JSONL tolerance: for JSONL input, the conversation holds exactly
/// one turn per decoded line (one of them possibly in the system slot
/// instead), and exactly one aggregated warning reports the number of failed
/// lines, none when every line decoded.
pub proof fn lemma_partial_jsonl_tolerance(text: Seq<char>, nbytes: int)
    requires
        !detect_array(text),
        nbytes <= size_limit(),
    ensures
        loaded_conv(text, nbytes).turns.len() + (if loaded_conv(text, nbytes).system is Some {
            1int
        } else {
            0int
        }) == jsonl_records_from(lines_spec(text), 0).len(),
        jsonl_records_from(lines_spec(text), 0).len() == jsonl_parsed_count(lines_spec(text), 0),
        loaded_conv(text, nbytes).warnings == (if jsonl_failed_from(lines_spec(text), 0) > 0 {
            seq![jsonl_warning(jsonl_failed_from(lines_spec(text), 0))]
        } else {
            Seq::<Seq<char>>::empty()
        }),
{
    let rs = jsonl_records_from(lines_spec(text), 0);
    lemma_turn_count(rs);
    lemma_jsonl_count(lines_spec(text), 0);
    assert(load_warnings(text, nbytes) =~= jsonl_warning_seq(text));
}

/// How many non-blank JSONL lines from `i` on decode successfully.
pub open spec fn jsonl_parsed_count(lines: Seq<Seq<char>>, i: int) -> int
    decreases lines.len() - i,
        when 0 <= i <= lines.len()
{
    if i >= lines.len() {
        0
    } else {
        let t = trim_spec(lines[i]);
        jsonl_parsed_count(lines, i + 1) + (if t.len() > 0 && line_record_of(t) is Some {
            1int
        } else {
            0int
        })
    }
}

proof fn lemma_jsonl_count(lines: Seq<Seq<char>>, i: int)
    requires
        0 <= i <= lines.len(),
    ensures
        jsonl_records_from(lines, i).len() == jsonl_parsed_count(lines, i),
    decreases lines.len() - i,
{
    if i < lines.len() {
        lemma_jsonl_count(lines, i + 1);
    }
}

} // verus!
