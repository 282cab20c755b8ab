//! Reading recognized text out of what a Sherpa-ONNX process printed.
use vstd::prelude::*;
use vstd::utf8::{decode_utf8, valid_utf8};
use crate::engine::{qwen_id, InstalledEngineConfig};
use crate::text::{
    chars_of, contains, contains_exec, ends_with, ends_with_exec, lines, lines_of, lit,
    lower_ascii_seq, lower_ascii_vec, matches_at, matches_at_exec, seq_eq, starts_with,
    starts_with_exec, str_eq, string_of, string_of_range, trim, trim_str, views, all_ws, is_ws,
    trim_start, trim_end, lemma_trim_start_len, lemma_trim_end_len,
};

verus! {

broadcast use vstd::string::group_string_axioms;

// ---------------------------------------------------------------------------
// Status lines
// ---------------------------------------------------------------------------

/// Lines that Sherpa prints about its own progress rather than the transcript.
pub open spec fn is_status_line(t: Seq<char>) -> bool {
    let lower = lower_ascii_seq(t);
    t == "Started"@ || t == "Done!"@ || t == "----"@ || starts_with(lower, "num threads:"@)
        || starts_with(lower, "decoding method:"@) || starts_with(lower, "elapsed seconds:"@)
        || starts_with(lower, "real time factor"@) || starts_with(lower, "creating recognizer"@)
        || starts_with(lower, "recognizer created"@) || starts_with(
        lower,
        "offlinerecognizerconfig"@,
    ) || starts_with(lower, "loading model"@) || contains(lower, "parse-options.cc:read:"@)
        || contains(lower, "sherpa-onnx"@) || ends_with(lower, ".wav"@) || ends_with(
        lower,
        ".mp3"@,
    ) || ends_with(lower, ".m4a"@) || ends_with(lower, ".flac"@) || ends_with(lower, ".ogg"@)
        || ends_with(lower, ".mp4"@)
}

fn lower_starts(lower: &Vec<char>, p: &str) -> (r: bool)
    ensures
        r == starts_with(lower@, p@),
{
    let vp = chars_of(p);
    starts_with_exec(lower.as_slice(), vp.as_slice())
}

fn lower_ends(lower: &Vec<char>, p: &str) -> (r: bool)
    ensures
        r == ends_with(lower@, p@),
{
    let vp = chars_of(p);
    ends_with_exec(lower.as_slice(), vp.as_slice())
}

fn lower_contains(lower: &Vec<char>, p: &str) -> (r: bool)
    ensures
        r == contains(lower@, p@),
{
    let vp = chars_of(p);
    contains_exec(lower.as_slice(), vp.as_slice())
}

pub fn is_sherpa_status_line(trimmed: &str) -> (r: bool)
    ensures
        r == is_status_line(trimmed@),
{
    let lower = lower_ascii_vec(chars_of(trimmed).as_slice());
    str_eq(trimmed, "Started") || str_eq(trimmed, "Done!") || str_eq(trimmed, "----")
        || lower_starts(&lower, "num threads:") || lower_starts(&lower, "decoding method:")
        || lower_starts(&lower, "elapsed seconds:") || lower_starts(&lower, "real time factor")
        || lower_starts(&lower, "creating recognizer") || lower_starts(
        &lower,
        "recognizer created",
    ) || lower_starts(&lower, "offlinerecognizerconfig") || lower_starts(
        &lower,
        "loading model",
    ) || lower_contains(&lower, "parse-options.cc:read:") || lower_contains(
        &lower,
        "sherpa-onnx",
    ) || lower_ends(&lower, ".wav") || lower_ends(&lower, ".mp3") || lower_ends(&lower, ".m4a")
        || lower_ends(&lower, ".flac") || lower_ends(&lower, ".ogg") || lower_ends(&lower, ".mp4")
}

// ---------------------------------------------------------------------------
// JSON results
// ---------------------------------------------------------------------------

/// The parts of a JSON result object that decide which text it carries: the
/// `text` string, and the `timestamps` and `tokens` arrays with each element
/// taken as a string where it is one.
#[derive(Debug, Clone)]
pub struct SherpaJsonFields {
    pub text: Option<String>,
    pub timestamps: Option<Vec<Option<String>>>,
    pub tokens: Option<Vec<Option<String>>>,
}

pub type JsonItemsView = Option<Seq<Option<Seq<char>>>>;

pub type JsonFieldsView = (Option<Seq<char>>, JsonItemsView, JsonItemsView);

pub open spec fn item_view(o: Option<String>) -> Option<Seq<char>> {
    match o {
        Some(s) => Some(s@),
        None => None,
    }
}

pub open spec fn items_view(o: Option<Vec<Option<String>>>) -> JsonItemsView {
    match o {
        Some(v) => Some(v@.map_values(|x: Option<String>| item_view(x))),
        None => None,
    }
}

pub open spec fn fields_view(f: SherpaJsonFields) -> JsonFieldsView {
    (item_view(f.text), items_view(f.timestamps), items_view(f.tokens))
}

/// What `serde_json` finds in a text: `None` when the text is not JSON, else
/// the fields of the parsed value.
pub uninterp spec fn sherpa_json_fields(text: Seq<char>) -> Option<JsonFieldsView>;

/// Parses `text` with `serde_json::from_str::<serde_json::Value>` and reads
/// the `text`, `timestamps` and `tokens` members with `Value::get`,
/// `Value::as_str` and `Value::as_array`. The contract only ties the result
/// to the text through `sherpa_json_fields`; what JSON is accepted is not
/// restated here.
#[verifier::external_body]
fn parse_sherpa_json_fields(text: &str) -> (r: Option<SherpaJsonFields>)
    ensures
        r matches Some(f) ==> sherpa_json_fields(text@) == Some(fields_view(f)),
        r is None ==> sherpa_json_fields(text@) is None,
{
    let value: serde_json::Value = serde_json::from_str(text).ok()?;
    let items = |v: Option<&serde_json::Value>| {
        v.and_then(|v| v.as_array()).map(
            |a| a.iter().map(|x| x.as_str().map(|s| s.to_string())).collect(),
        )
    };
    Some(SherpaJsonFields {
        text: value.get("text").and_then(|t| t.as_str()).map(|t| t.to_string()),
        timestamps: items(value.get("timestamps")),
        tokens: items(value.get("tokens")),
    })
}

/// The text a JSON result carries: its trimmed `text`, unless that is empty
/// or is the placeholder `language` that Qwen prints with empty timestamps
/// and the single token `language`.
pub open spec fn text_of_fields(f: JsonFieldsView) -> Option<Seq<char>> {
    match f.0 {
        None => None,
        Some(raw) => {
            let t = trim(raw);
            if t.len() == 0 {
                None
            } else if t == "language"@ && (f.1 matches Some(ts) && ts.len() == 0) && (f.2 matches Some(
                tokens,
            ) && tokens.len() == 1 && tokens[0] == Some("language"@)) {
                None
            } else {
                Some(t)
            }
        },
    }
}

pub fn text_from_sherpa_json_fields(fields: &SherpaJsonFields) -> (r: Option<String>)
    ensures
        item_view(r) == text_of_fields(fields_view(*fields)),
{
    let raw = match &fields.text {
        Some(t) => t,
        None => return None,
    };
    let text = trim_str(raw.as_str());
    if text.as_str().is_empty() {
        return None;
    }
    if str_eq(text.as_str(), "language") {
        let ts_empty = match &fields.timestamps {
            Some(ts) => ts.len() == 0,
            None => false,
        };
        let placeholder_tokens = match &fields.tokens {
            Some(tokens) => tokens.len() == 1 && match &tokens[0] {
                Some(t) => str_eq(t.as_str(), "language"),
                None => false,
            },
            None => false,
        };
        proof {
            if fields.tokens is Some {
                let tokens = fields.tokens->0;
                if tokens@.len() == 1 {
                    assert(items_view(fields.tokens)->0[0] == item_view(tokens@[0]));
                }
            }
        }
        if ts_empty && placeholder_tokens {
            return None;
        }
    }
    Some(text)
}

pub open spec fn json_text(t: Seq<char>) -> Option<Seq<char>> {
    if !starts_with(t, seq!['{']) {
        None
    } else {
        match sherpa_json_fields(t) {
            Some(f) => text_of_fields(f),
            None => None,
        }
    }
}

pub fn extract_sherpa_json_text(trimmed: &str) -> (r: Option<String>)
    ensures
        item_view(r) == json_text(trimmed@),
{
    let v = chars_of(trimmed);
    if v.len() == 0 || v[0] != '{' {
        proof {
            if v@.len() > 0 {
                assert(v@.subrange(0, 1)[0] == v@[0]);
            }
        }
        return None;
    }
    assert(v@.subrange(0, 1) =~= seq!['{']);
    match parse_sherpa_json_fields(trimmed) {
        Some(fields) => text_from_sherpa_json_fields(&fields),
        None => None,
    }
}

// ---------------------------------------------------------------------------
// Scanning output for JSON objects
// ---------------------------------------------------------------------------

/// The scanner's state: where the current top-level object started, the
/// brace depth, whether it is inside a string and after a backslash there,
/// and the spans of the complete top-level objects found so far.
pub ghost struct ScanState {
    pub start: Option<int>,
    pub depth: nat,
    pub in_string: bool,
    pub escaped: bool,
    pub spans: Seq<(int, int)>,
}

pub open spec fn scan_step(st: ScanState, index: int, ch: char) -> ScanState {
    if st.in_string {
        if st.escaped {
            ScanState { escaped: false, ..st }
        } else if ch == '\\' {
            ScanState { escaped: true, ..st }
        } else if ch == '"' {
            ScanState { in_string: false, ..st }
        } else {
            st
        }
    } else if ch == '"' {
        ScanState { in_string: true, ..st }
    } else if ch == '{' {
        ScanState {
            start: if st.depth == 0 {
                Some(index)
            } else {
                st.start
            },
            depth: st.depth + 1,
            ..st
        }
    } else if ch == '}' && st.depth > 0 {
        if st.depth == 1 {
            match st.start {
                Some(a) => ScanState {
                    start: None,
                    depth: 0,
                    spans: st.spans.push((a, index + 1)),
                    ..st
                },
                None => ScanState { depth: 0, ..st },
            }
        } else {
            ScanState { depth: (st.depth - 1) as nat, ..st }
        }
    } else {
        st
    }
}

pub open spec fn scan(s: Seq<char>) -> ScanState
    decreases s.len(),
{
    if s.len() == 0 {
        ScanState {
            start: None,
            depth: 0,
            in_string: false,
            escaped: false,
            spans: Seq::empty(),
        }
    } else {
        scan_step(scan(s.drop_last()), s.len() - 1, s.last())
    }
}

/// Texts of the JSON objects in `spans` of `s`, in order.
pub open spec fn span_texts(s: Seq<char>, spans: Seq<(int, int)>) -> Seq<Seq<char>>
    decreases spans.len(),
{
    if spans.len() == 0 {
        Seq::empty()
    } else {
        let prev = span_texts(s, spans.drop_last());
        let (a, b) = spans.last();
        match sherpa_json_fields(s.subrange(a, b)) {
            Some(f) => match text_of_fields(f) {
                Some(t) => prev.push(t),
                None => prev,
            },
            None => prev,
        }
    }
}

/// Texts of all complete top-level JSON objects in the output.
pub open spec fn json_texts(s: Seq<char>) -> Seq<Seq<char>> {
    span_texts(s, scan(s).spans)
}

pub proof fn lemma_spans_in_bounds(s: Seq<char>)
    ensures
        forall|k: int|
            0 <= k < scan(s).spans.len() ==> 0 <= (#[trigger] scan(s).spans[k]).0 < scan(
                s,
            ).spans[k].1 <= s.len(),
        scan(s).start matches Some(a) ==> 0 <= a < s.len(),
    decreases s.len(),
{
    if s.len() > 0 {
        lemma_spans_in_bounds(s.drop_last());
    }
}

pub proof fn lemma_span_texts_prefix(s: Seq<char>, t: Seq<char>, spans: Seq<(int, int)>)
    requires
        forall|k: int| 0 <= k < spans.len() ==> 0 <= (#[trigger] spans[k]).0 <= spans[k].1 <= s.len(),
        s.len() <= t.len(),
        s == t.take(s.len() as int),
    ensures
        span_texts(s, spans) == span_texts(t, spans),
    decreases spans.len(),
{
    if spans.len() > 0 {
        lemma_span_texts_prefix(s, t, spans.drop_last());
        let (a, b) = spans.last();
        assert(s.subrange(a, b) =~= t.subrange(a, b));
    }
}

pub fn extract_sherpa_json_texts(output: &str) -> (r: Vec<String>)
    ensures
        views(r@) == json_texts(output@),
{
    let v = chars_of(output);
    let mut texts: Vec<String> = Vec::new();
    let mut start: Option<usize> = None;
    let mut depth: usize = 0;
    let mut in_string = false;
    let mut escaped = false;
    let mut i: usize = 0;
    assert(views(texts@) =~= Seq::<Seq<char>>::empty());
    while i < v.len()
        invariant
            0 <= i <= v@.len(),
            v@ == output@,
            depth <= i,
            ({
                let st = scan(v@.take(i as int));
                &&& st.depth == depth as nat
                &&& st.in_string == in_string
                &&& st.escaped == escaped
                &&& st.start == (match start {
                    Some(a) => Some(a as int),
                    None => None,
                })
                &&& views(texts@) == span_texts(v@.take(i as int), st.spans)
            }),
        decreases v@.len() - i,
    {
        let ch = v[i];
        let ghost pre = v@.take(i as int);
        let ghost post = v@.take(i + 1);
        let ghost st0 = scan(pre);
        assert(post.drop_last() =~= pre);
        assert(post.last() == ch);
        proof {
            lemma_spans_in_bounds(pre);
            lemma_span_texts_prefix(pre, post, st0.spans);
        }
        if in_string {
            if escaped {
                escaped = false;
            } else if ch == '\\' {
                escaped = true;
            } else if ch == '"' {
                in_string = false;
            }
        } else if ch == '"' {
            in_string = true;
        } else if ch == '{' {
            if depth == 0 {
                start = Some(i);
            }
            depth += 1;
        } else if ch == '}' && depth > 0 {
            depth -= 1;
            if depth == 0 {
                if let Some(a) = start {
                    start = None;
                    let piece = string_of_range(v.as_slice(), a, i + 1);
                    assert(piece@ == post.subrange(a as int, i + 1));
                    let ghost before = views(texts@);
                    match parse_sherpa_json_fields(piece.as_str()) {
                        Some(fields) => {
                            match text_from_sherpa_json_fields(&fields) {
                                Some(t) => {
                                    texts.push(t);
                                    assert(views(texts@) =~= before.push(t@));
                                },
                                None => {},
                            }
                        },
                        None => {},
                    }
                    assert(st0.spans.push((a as int, i + 1)).drop_last() =~= st0.spans);
                }
            }
        }
        i += 1;
    }
    assert(v@.take(v@.len() as int) =~= v@);
    texts
}

// ---------------------------------------------------------------------------
// Picking the transcript
// ---------------------------------------------------------------------------

/// First position of `p` in `s` at or after `i`.
pub open spec fn find_from(s: Seq<char>, p: Seq<char>, i: int) -> Option<int>
    decreases s.len() + 1 - i,
{
    if i < 0 || i + p.len() > s.len() {
        None
    } else if matches_at(s, p, i) {
        Some(i)
    } else {
        find_from(s, p, i + 1)
    }
}

pub fn find_exec(s: &[char], p: &[char]) -> (r: Option<usize>)
    ensures
        r matches Some(i) ==> find_from(s@, p@, 0) == Some(i as int) && i + p@.len() <= s@.len(),
        r is None ==> find_from(s@, p@, 0) is None,
{
    if p.len() > s.len() {
        return None;
    }
    let last = s.len() - p.len();
    let mut i: usize = 0;
    loop
        invariant
            p@.len() <= s@.len(),
            last == s@.len() - p@.len(),
            0 <= i <= last,
            find_from(s@, p@, 0) == find_from(s@, p@, i as int),
        decreases last - i,
    {
        if matches_at_exec(s, p, i) {
            return Some(i);
        }
        if i == last {
            assert(find_from(s@, p@, i + 1) is None);
            return None;
        }
        i += 1;
    }
}

/// `best` after looking for `marker` in a trimmed line: the trimmed text
/// after its first occurrence, when that is not empty.
pub open spec fn after_marker(best: Seq<char>, t: Seq<char>, marker: Seq<char>) -> Seq<char> {
    match find_from(t, marker, 0) {
        Some(i) => {
            let rest = trim(t.skip(i + marker.len()));
            if rest.len() > 0 {
                rest
            } else {
                best
            }
        },
        None => best,
    }
}

pub open spec fn line_update(best: Seq<char>, line: Seq<char>) -> Seq<char> {
    let t = trim(line);
    if t.len() == 0 {
        best
    } else {
        match json_text(t) {
            Some(x) => x,
            None => if is_status_line(t) {
                best
            } else {
                after_marker(
                    after_marker(after_marker(best, t, "Decoded text:"@), t, "Result:"@),
                    t,
                    "result:"@,
                )
            },
        }
    }
}

pub open spec fn lines_fold(best: Seq<char>, ls: Seq<Seq<char>>) -> Seq<char>
    decreases ls.len(),
{
    if ls.len() == 0 {
        best
    } else {
        line_update(lines_fold(best, ls.drop_last()), ls.last())
    }
}

/// The transcript in Sherpa's output: the text of the last complete JSON
/// result object; failing that, line by line, the last JSON line text or
/// marker text (`Decoded text:`, `Result:`, `result:`) on lines that are not
/// status lines; empty when there is none.
pub open spec fn transcription_text(output: Seq<char>) -> Seq<char> {
    let js = json_texts(output);
    let best = if js.len() > 0 {
        js.last()
    } else {
        Seq::empty()
    };
    if best.len() > 0 {
        best
    } else {
        lines_fold(Seq::empty(), lines(output))
    }
}

proof fn lemma_span_texts_nonempty(s: Seq<char>, spans: Seq<(int, int)>)
    ensures
        forall|k: int|
            0 <= k < span_texts(s, spans).len() ==> #[trigger] span_texts(s, spans)[k].len() > 0,
    decreases spans.len(),
{
    if spans.len() > 0 {
        lemma_span_texts_nonempty(s, spans.drop_last());
        let prev = span_texts(s, spans.drop_last());
        let r = span_texts(s, spans);
        assert forall|k: int| 0 <= k < r.len() implies #[trigger] r[k].len() > 0 by {
            if k < prev.len() {
                assert(r[k] == prev[k]);
            }
        }
    }
}

/// Text from a complete JSON result object wins over everything else in the
/// output: when any such object carries usable text, the transcript is the
/// text of the last one, whatever status lines, other lines or markers say.
pub proof fn lemma_last_json_text_wins(output: Seq<char>)
    requires
        json_texts(output).len() > 0,
    ensures
        transcription_text(output) == json_texts(output).last(),
{
    lemma_span_texts_nonempty(output, scan(output).spans);
}

/// No `:` anywhere in `s`.
pub open spec fn no_colon(s: Seq<char>) -> bool {
    forall|i: int| 0 <= i < s.len() ==> #[trigger] s[i] != ':'
}

proof fn lemma_trim_end_append(a: Seq<char>, b: Seq<char>)
    requires
        !all_ws(b),
    ensures
        trim_end(a + b) == a + trim_end(b),
    decreases b.len(),
{
    assert((a + b).last() == b.last());
    if is_ws(b.last()) {
        assert((a + b).drop_last() =~= a + b.drop_last());
        assert(!all_ws(b.drop_last())) by {
            if all_ws(b.drop_last()) {
                assert forall|i: int| 0 <= i < b.len() implies is_ws(#[trigger] b[i]) by {
                    if i < b.len() - 1 {
                        assert(b[i] == b.drop_last()[i]);
                    }
                }
            }
        }
        lemma_trim_end_append(a, b.drop_last());
    }
}

proof fn lemma_trim_end_ws_suffix(x: Seq<char>, w: Seq<char>)
    requires
        all_ws(w),
    ensures
        trim_end(x + w) == trim_end(x),
    decreases w.len(),
{
    if w.len() > 0 {
        assert((x + w).last() == w.last());
        assert((x + w).drop_last() =~= x + w.drop_last());
        assert(is_ws(w[w.len() - 1]));
        assert(all_ws(w.drop_last())) by {
            assert forall|i: int| 0 <= i < w.drop_last().len() implies is_ws(
                #[trigger] w.drop_last()[i],
            ) by {
                assert(w.drop_last()[i] == w[i]);
            }
        }
        lemma_trim_end_ws_suffix(x, w.drop_last());
    } else {
        assert(x + w =~= x);
    }
}

proof fn lemma_trim_start_append(y: Seq<char>, w: Seq<char>)
    requires
        !all_ws(y),
    ensures
        trim_start(y + w) == trim_start(y) + w,
    decreases y.len(),
{
    assert((y + w)[0] == y[0]);
    if is_ws(y[0]) {
        assert((y + w).drop_first() =~= y.drop_first() + w);
        assert(!all_ws(y.drop_first())) by {
            if all_ws(y.drop_first()) {
                assert forall|i: int| 0 <= i < y.len() implies is_ws(#[trigger] y[i]) by {
                    if i > 0 {
                        assert(y[i] == y.drop_first()[i - 1]);
                    }
                }
            }
        }
        lemma_trim_start_append(y.drop_first(), w);
    }
}

proof fn lemma_trim_end_rest_ws(x: Seq<char>)
    ensures
        all_ws(x.skip(trim_end(x).len() as int)),
        x == trim_end(x) + x.skip(trim_end(x).len() as int),
    decreases x.len(),
{
    lemma_trim_end_len(x);
    if x.len() > 0 && is_ws(x.last()) {
        lemma_trim_end_rest_ws(x.drop_last());
        let n = trim_end(x).len() as int;
        assert(x.skip(n) =~= x.drop_last().skip(n).push(x.last()));
        assert forall|i: int| 0 <= i < x.skip(n).len() implies is_ws(#[trigger] x.skip(n)[i]) by {
            if i < x.skip(n).len() - 1 {
                assert(x.skip(n)[i] == x.drop_last().skip(n)[i]);
            }
        }
    } else {
        assert(x.skip(x.len() as int) =~= Seq::<char>::empty());
    }
    assert(x =~= trim_end(x) + x.skip(trim_end(x).len() as int));
}

proof fn lemma_trim_of_trim_end(x: Seq<char>)
    requires
        !all_ws(x),
    ensures
        trim(trim_end(x)) == trim(x),
{
    let e = trim_end(x);
    lemma_trim_end_rest_ws(x);
    lemma_trim_end_len(x);
    let w = x.skip(e.len() as int);
    lemma_trim_start_append(e, w);
    lemma_trim_start_len(e);
    lemma_trim_end_ws_suffix(trim_start(e), w);
}

proof fn lemma_no_colon_trim(l: Seq<char>)
    requires
        no_colon(l),
    ensures
        no_colon(trim(l)),
{
    lemma_trim_start_len(l);
    let a = trim_start(l);
    lemma_trim_end_len(a);
    assert forall|i: int| 0 <= i < trim(l).len() implies #[trigger] trim(l)[i] != ':' by {
        assert(trim(l)[i] == a[i]);
        assert(a[i] == l[i + (l.len() - a.len())]);
    }
}

/// A marker ending in `:` cannot be found where the only `:` is at `c`,
/// unless it ends exactly there.
proof fn lemma_find_none(s: Seq<char>, p: Seq<char>, i: int, c: int)
    requires
        p.len() > 0,
        p.last() == ':',
        forall|q: int| 0 <= q < s.len() && s[q] == ':' ==> q == c,
        !matches_at(s, p, c + 1 - p.len()),
    ensures
        find_from(s, p, i) is None,
    decreases s.len() + 1 - i,
{
    if !(i < 0 || i + p.len() > s.len()) {
        if matches_at(s, p, i) {
            assert(s.subrange(i, i + p.len())[p.len() - 1] == s[i + p.len() - 1]);
            assert(false);
        }
        lemma_find_none(s, p, i + 1, c);
    }
}

/// A line whose trimmed text does not open a JSON object and is blank, a
/// status line or free of `:` leaves the transcript found so far as it is.
proof fn lemma_neutral_line(best: Seq<char>, l: Seq<char>)
    requires
        !starts_with(trim(l), seq!['{']),
        trim(l).len() == 0 || is_status_line(trim(l)) || no_colon(l),
    ensures
        line_update(best, l) == best,
{
    let t = trim(l);
    if t.len() > 0 && !is_status_line(t) {
        lemma_no_colon_trim(l);
        reveal_strlit("Decoded text:");
        reveal_strlit("Result:");
        reveal_strlit("result:");
        lemma_find_none(t, "Decoded text:"@, 0, -1);
        lemma_find_none(t, "Result:"@, 0, -1);
        lemma_find_none(t, "result:"@, 0, -1);
    }
}

proof fn lemma_marker_line(best: Seq<char>, marker: Seq<char>, u: Seq<char>)
    requires
        marker == "Decoded text:"@ || marker == "Result:"@ || marker == "result:"@,
        no_colon(u),
        trim(u).len() > 0,
        !is_status_line(trim(marker + u)),
    ensures
        line_update(best, marker + u) == trim(u),
{
    reveal_strlit("Decoded text:");
    reveal_strlit("Result:");
    reveal_strlit("result:");
    let d = "Decoded text:"@;
    let r1 = "Result:"@;
    let r2 = "result:"@;
    let m = marker;
    lemma_trim_empty_iff(u);
    lemma_trim_end_append(m, u);
    let e = trim_end(u);
    lemma_trim_end_len(u);
    assert(!is_ws(m[0]));
    assert((m + u)[0] == m[0]);
    assert(trim_start(m + u) == m + u);
    assert(trim(m + u) == m + e);
    let t = m + e;
    assert forall|q: int| 0 <= q < t.len() && t[q] == ':' implies q == m.len() - 1 by {
        if q >= m.len() {
            assert(t[q] == e[q - m.len()]);
            assert(e[q - m.len()] == u[q - m.len()]);
        } else {
            assert(t[q] == m[q]);
        }
    }
    assert(!starts_with(t, seq!['{'])) by {
        assert(t.subrange(0, 1)[0] == m[0]);
    }
    assert(t.skip(m.len() as int) =~= e);
    lemma_trim_of_trim_end(u);
    let c = m.len() - 1;
    assert(matches_at(t, m, 0)) by {
        assert(t.subrange(0, m.len() as int) =~= m);
    }
    if m == d {
        assert(!matches_at(t, r1, c + 1 - r1.len())) by {
            assert(t.subrange(6, 13)[0] == t[6]);
        }
        assert(!matches_at(t, r2, c + 1 - r2.len())) by {
            assert(t.subrange(6, 13)[0] == t[6]);
        }
        lemma_find_none(t, r1, 0, c);
        lemma_find_none(t, r2, 0, c);
    } else if m == r1 {
        lemma_find_none(t, d, 0, c);
        assert(!matches_at(t, r2, 0)) by {
            assert(t.subrange(0, 7)[0] == t[0]);
        }
        lemma_find_none(t, r2, 0, c);
    } else {
        lemma_find_none(t, d, 0, c);
        assert(!matches_at(t, r1, 0)) by {
            assert(t.subrange(0, 7)[0] == t[0]);
        }
        lemma_find_none(t, r1, 0, c);
    }
}

proof fn lemma_trim_empty_iff(u: Seq<char>)
    ensures
        trim(u).len() > 0 ==> !all_ws(u),
{
    crate::text::lemma_trim_empty(u);
}

/// When the output holds no JSON result text, a line `Decoded text: T`,
/// `Result: T` or `result: T` (not a status line, `T` not blank and free of
/// `:`) gives the transcript `trim(T)`, as long as no later line (other than
/// blank lines, status lines and lines without `:`, none of them opening a
/// JSON object) could give another one.
pub proof fn lemma_last_marker_line_wins(output: Seq<char>, k: int, marker: Seq<char>, t: Seq<char>)
    requires
        json_texts(output).len() == 0,
        0 <= k < lines(output).len(),
        marker == "Decoded text:"@ || marker == "Result:"@ || marker == "result:"@,
        lines(output)[k] == marker + t,
        no_colon(t),
        trim(t).len() > 0,
        !is_status_line(trim(lines(output)[k])),
        forall|j: int|
            k < j < lines(output).len() ==> !starts_with(trim(#[trigger] lines(output)[j]), seq!['{'])
                && (trim(lines(output)[j]).len() == 0 || is_status_line(trim(lines(output)[j]))
                || no_colon(lines(output)[j])),
    ensures
        transcription_text(output) == trim(t),
{
    let ls = lines(output);
    assert forall|j: int| k < j <= ls.len() implies lines_fold(Seq::empty(), #[trigger] ls.take(j))
        == trim(t) by {
        lemma_fold_from(ls, k, t, marker, j);
    }
    assert(ls.take(ls.len() as int) =~= ls);
}

proof fn lemma_fold_from(ls: Seq<Seq<char>>, k: int, t: Seq<char>, marker: Seq<char>, j: int)
    requires
        0 <= k < j <= ls.len(),
        marker == "Decoded text:"@ || marker == "Result:"@ || marker == "result:"@,
        ls[k] == marker + t,
        no_colon(t),
        trim(t).len() > 0,
        !is_status_line(trim(ls[k])),
        forall|i: int|
            k < i < ls.len() ==> !starts_with(trim(#[trigger] ls[i]), seq!['{']) && (trim(
                ls[i],
            ).len() == 0 || is_status_line(trim(ls[i])) || no_colon(ls[i])),
    ensures
        lines_fold(Seq::empty(), ls.take(j)) == trim(t),
    decreases j - k,
{
    let lj = ls.take(j);
    assert(lj.drop_last() =~= ls.take(j - 1));
    assert(lj.last() == ls[j - 1]);
    if j == k + 1 {
        lemma_marker_line(lines_fold(Seq::empty(), ls.take(k)), marker, t);
    } else {
        lemma_fold_from(ls, k, t, marker, j - 1);
        lemma_neutral_line(trim(t), ls[j - 1]);
    }
}

fn apply_marker(best: String, t: &Vec<char>, marker: &str) -> (r: String)
    ensures
        r@ == after_marker(best@, t@, marker@),
{
    let m = chars_of(marker);
    match find_exec(t.as_slice(), m.as_slice()) {
        Some(i) => {
            let n = t.len();
            let ml = m.len();
            assert(i + ml <= n);
            let rest = string_of_range(t.as_slice(), i + ml, n);
            assert(rest@ =~= t@.skip(i + marker@.len()));
            let trimmed = trim_str(rest.as_str());
            if trimmed.as_str().is_empty() {
                best
            } else {
                trimmed
            }
        },
        None => best,
    }
}

pub fn extract_transcription_text(output: &str) -> (r: String)
    ensures
        r@ == transcription_text(output@),
{
    let mut best = String::new();
    let texts = extract_sherpa_json_texts(output);
    if texts.len() > 0 {
        best = lit(texts[texts.len() - 1].as_str());
        assert(views(texts@).last() == texts@[texts@.len() - 1]@);
    }
    if !best.as_str().is_empty() {
        return best;
    }
    let ls = lines_of(output);
    let ghost all = views(ls@);
    let mut i: usize = 0;
    assert(all.take(0) =~= Seq::<Seq<char>>::empty());
    while i < ls.len()
        invariant
            all == views(ls@),
            all == lines(output@),
            0 <= i <= ls@.len(),
            best@ == lines_fold(Seq::empty(), all.take(i as int)),
        decreases ls@.len() - i,
    {
        assert(all.take(i + 1).drop_last() =~= all.take(i as int));
        assert(all.take(i + 1).last() == ls@[i as int]@);
        let trimmed = trim_str(ls[i].as_str());
        if !trimmed.as_str().is_empty() {
            match extract_sherpa_json_text(trimmed.as_str()) {
                Some(text) => {
                    best = text;
                },
                None => {
                    if !is_sherpa_status_line(trimmed.as_str()) {
                        let t = chars_of(trimmed.as_str());
                        best = apply_marker(best, &t, "Decoded text:");
                        best = apply_marker(best, &t, "Result:");
                        best = apply_marker(best, &t, "result:");
                    }
                },
            }
        }
        i += 1;
    }
    assert(all.take(ls@.len() as int) =~= all);
    best
}

// ---------------------------------------------------------------------------
// Language drift of Qwen3-ASR
// ---------------------------------------------------------------------------

/// CJK Unified Ideographs, their extensions and the compatibility block.
pub open spec fn is_cjk(c: char) -> bool {
    let u = c as u32;
    (0x3400 <= u && u <= 0x4dbf) || (0x4e00 <= u && u <= 0x9fff) || (0xf900 <= u && u <= 0xfaff)
        || (0x20000 <= u && u <= 0x2a6df) || (0x2a700 <= u && u <= 0x2b73f) || (0x2b740 <= u && u
        <= 0x2b81f) || (0x2b820 <= u && u <= 0x2ceaf) || (0x30000 <= u && u <= 0x3134f)
}

pub fn is_cjk_text_char(ch: char) -> (r: bool)
    ensures
        r == is_cjk(ch),
{
    let u = ch as u32;
    (0x3400 <= u && u <= 0x4dbf) || (0x4e00 <= u && u <= 0x9fff) || (0xf900 <= u && u <= 0xfaff)
        || (0x20000 <= u && u <= 0x2a6df) || (0x2a700 <= u && u <= 0x2b73f) || (0x2b740 <= u && u
        <= 0x2b81f) || (0x2b820 <= u && u <= 0x2ceaf) || (0x30000 <= u && u <= 0x3134f)
}

/// Unicode `Alphabetic`, the property that `char::is_alphabetic` tests.
pub uninterp spec fn unicode_alphabetic(c: char) -> bool;

/// `char::is_alphabetic`; the Unicode table is named, not restated.
#[verifier::external_body]
fn char_is_alphabetic(c: char) -> (r: bool)
    ensures
        r == unicode_alphabetic(c),
{
    c.is_alphabetic()
}

/// Counts over the characters of a text: CJK characters, alphabetic
/// characters, finished words of two or more letters, and the length of the
/// word in progress.
pub open spec fn drift_counts(s: Seq<char>) -> (nat, nat, nat, nat)
    decreases s.len(),
{
    if s.len() == 0 {
        (0, 0, 0, 0)
    } else {
        let (cjk, alpha, words, cur) = drift_counts(s.drop_last());
        let c = s.last();
        let cjk2 = if is_cjk(c) {
            cjk + 1
        } else {
            cjk
        };
        if unicode_alphabetic(c) {
            (cjk2, alpha + 1, words, cur + 1)
        } else {
            (cjk2, alpha, if cur >= 2 {
                words + 1
            } else {
                words
            }, 0)
        }
    }
}

/// A Qwen result has drifted into another language when it holds no CJK
/// character, at least 32 alphabetic characters and at least six words of
/// two or more letters (words being the runs between non-alphabetic
/// characters).
pub open spec fn latin_drift(s: Seq<char>) -> bool {
    let (cjk, alpha, words, cur) = drift_counts(s);
    let total_words = if cur >= 2 {
        words + 1
    } else {
        words
    };
    cjk == 0 && alpha >= 32 && total_words >= 6
}

pub fn looks_like_qwen_latin_language_drift(text: &str) -> (r: bool)
    ensures
        r == latin_drift(text@),
{
    let v = chars_of(text);
    let mut cjk: usize = 0;
    let mut alpha: usize = 0;
    let mut words: usize = 0;
    let mut cur: usize = 0;
    let mut i: usize = 0;
    while i < v.len()
        invariant
            0 <= i <= v@.len(),
            v@ == text@,
            cjk <= i && alpha <= i && 2 * words + cur <= i,
            drift_counts(v@.take(i as int)) == (cjk as nat, alpha as nat, words as nat, cur as nat),
        decreases v@.len() - i,
    {
        assert(v@.take(i + 1).drop_last() =~= v@.take(i as int));
        let c = v[i];
        if is_cjk_text_char(c) {
            cjk += 1;
        }
        if char_is_alphabetic(c) {
            alpha += 1;
            cur += 1;
        } else {
            if cur >= 2 {
                words += 1;
            }
            cur = 0;
        }
        i += 1;
    }
    assert(v@.take(v@.len() as int) =~= v@);
    if cur >= 2 {
        words += 1;
    }
    cjk == 0 && alpha >= 32 && words >= 6
}

/// Qwen results that drifted into another language are dropped; other
/// models keep every text.
pub fn should_keep_sherpa_chunk_text(engine: &InstalledEngineConfig, text: &str) -> (r: bool)
    ensures
        r == (engine.model_id@ != qwen_id() || !latin_drift(text@)),
{
    if !str_eq(engine.model_id.as_str(), "qwen3-asr-0.6b") {
        return true;
    }
    !looks_like_qwen_latin_language_drift(text)
}

// ---------------------------------------------------------------------------
// WebSocket text
// ---------------------------------------------------------------------------

/// `String::from_utf8`: a string exactly when the bytes are valid UTF-8.
#[verifier::external_body]
pub(crate) fn utf8_to_string(bytes: &[u8]) -> (r: Option<String>)
    ensures
        r is Some <==> valid_utf8(bytes@),
        r matches Some(s) ==> s@ == decode_utf8(bytes@),
{
    String::from_utf8(bytes.to_vec()).ok()
}

/// What `encoding_rs::GBK.decode` makes of a byte string.
pub uninterp spec fn gbk_decoded(bytes: Seq<u8>) -> Seq<char>;

/// `encoding_rs::GBK.decode(bytes)`, the decoded text, named by
/// `gbk_decoded`: malformed sequences become U+FFFD, and a leading byte order
/// mark selects UTF-8 or UTF-16 instead of GBK (BOM sniffing). The decoder
/// panics when its buffer size overflows `usize`, which a quarter of `usize`
/// of input cannot reach.
#[verifier::external_body]
fn gbk_decode(bytes: &[u8]) -> (r: String)
    requires
        bytes@.len() <= usize::MAX / 4,
    ensures
        r@ == gbk_decoded(bytes@),
{
    let (text, _, _) = encoding_rs::GBK.decode(bytes);
    text.into_owned()
}

/// Replies are UTF-8; older Windows builds answer in GBK.
pub fn decode_sherpa_websocket_text(bytes: &[u8]) -> (r: String)
    requires
        bytes@.len() <= usize::MAX / 4,
    ensures
        r@ == (if valid_utf8(bytes@) {
            decode_utf8(bytes@)
        } else {
            gbk_decoded(bytes@)
        }),
{
    match utf8_to_string(bytes) {
        Some(text) => text,
        None => gbk_decode(bytes),
    }
}

} // verus!
