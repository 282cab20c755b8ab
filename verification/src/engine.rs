//! Installed engine configurations, worker profiles and engine command lines.
use vstd::prelude::*;
use crate::paths;
use crate::text::{
    append_str, chars_of, char_is_ws, decimal, decimal_string, is_ws, lit, push_char, replace,
    replace_str, starts_with, starts_with_exec, str_eq, views, words, words_state,
};

verus! {

broadcast use vstd::string::group_string_axioms;

pub const QWEN_ASR_MAX_NEW_TOKENS: usize = 128;

pub const LONG_AUDIO_CHUNK_SECONDS: u32 = 60;

pub const LLM_ASR_CHUNK_SECONDS: u32 = 20;

/// Audio longer than this many seconds is cut into chunks.
pub const LONG_AUDIO_THRESHOLD_SECONDS: u32 = 300;

pub const QWEN_ASR_CHUNK_SECONDS: u32 = 20;

/// The `engine.json` written next to an installed model.
#[derive(Debug, Clone)]
pub struct InstalledEngineConfig {
    pub engine: String,
    pub model_id: String,
    pub model_name: String,
    pub model_dir: String,
    pub executable: String,
    pub args: String,
    pub required_files: Vec<String>,
}

#[derive(Debug, Clone, Copy)]
pub struct TranscriptionPerformance {
    pub file_workers: usize,
    pub chunk_workers: usize,
    pub sherpa_threads: usize,
}

pub open spec fn performance_profile(mode: Seq<char>) -> TranscriptionPerformance {
    if mode == "stable"@ {
        TranscriptionPerformance { file_workers: 1, chunk_workers: 1, sherpa_threads: 4 }
    } else if mode == "fast"@ {
        TranscriptionPerformance { file_workers: 3, chunk_workers: 3, sherpa_threads: 2 }
    } else {
        TranscriptionPerformance { file_workers: 2, chunk_workers: 2, sherpa_threads: 2 }
    }
}

pub fn transcription_performance(mode: &str) -> (r: TranscriptionPerformance)
    ensures
        r == performance_profile(mode@),
{
    if str_eq(mode, "stable") {
        TranscriptionPerformance { file_workers: 1, chunk_workers: 1, sherpa_threads: 4 }
    } else if str_eq(mode, "fast") {
        TranscriptionPerformance { file_workers: 3, chunk_workers: 3, sherpa_threads: 2 }
    } else {
        TranscriptionPerformance { file_workers: 2, chunk_workers: 2, sherpa_threads: 2 }
    }
}

/// Acceleration modes no longer change the worker profile.
pub fn performance_for_acceleration(
    performance: TranscriptionPerformance,
    _acceleration_mode: &str,
) -> (r: TranscriptionPerformance)
    ensures
        r == performance,
{
    performance
}

pub open spec fn qwen_id() -> Seq<char> {
    "qwen3-asr-0.6b"@
}

/// The thread count that the Qwen3-ASR model uses for a worker profile.
pub open spec fn qwen_threads(p: TranscriptionPerformance) -> usize {
    if p.file_workers <= 1 && p.chunk_workers <= 1 {
        6
    } else if p.chunk_workers <= 2 {
        3
    } else {
        2
    }
}

pub fn performance_for_model_and_acceleration(
    performance: TranscriptionPerformance,
    engine: &InstalledEngineConfig,
    acceleration_mode: &str,
) -> (r: TranscriptionPerformance)
    ensures
        r.file_workers == performance.file_workers,
        r.chunk_workers == performance.chunk_workers,
        r.sherpa_threads == (if engine.model_id@ == qwen_id() {
            qwen_threads(performance)
        } else {
            performance.sherpa_threads
        }),
{
    let mut performance = performance_for_acceleration(performance, acceleration_mode);
    if str_eq(engine.model_id.as_str(), "qwen3-asr-0.6b") {
        if performance.file_workers <= 1 && performance.chunk_workers <= 1 {
            performance.sherpa_threads = 6;
        } else if performance.chunk_workers <= 2 {
            performance.sherpa_threads = 3;
        } else {
            performance.sherpa_threads = 2;
        }
    }
    performance
}

pub fn directml_transcription_supported_for_model(engine: &InstalledEngineConfig) -> (r: bool)
    ensures
        r == (engine.model_id@ == "sensevoice-small"@),
{
    str_eq(engine.model_id.as_str(), "sensevoice-small")
}

pub fn sherpa_daemon_supported_for_model(engine: &InstalledEngineConfig) -> (r: bool)
    ensures
        r == (engine.model_id@ == qwen_id()),
{
    str_eq(engine.model_id.as_str(), "qwen3-asr-0.6b")
}

pub fn is_sherpa_streaming_cli_model(engine: &InstalledEngineConfig) -> (r: bool)
    ensures
        r == (engine.model_id@ == "sherpa-zipformer-zh"@),
{
    str_eq(engine.model_id.as_str(), "sherpa-zipformer-zh")
}

/// Longest audio, in seconds, that a model transcribes in one pass; longer
/// audio is cut into chunks.
pub fn sherpa_max_single_pass_seconds(engine: &InstalledEngineConfig) -> (r: u32)
    ensures
        r == (if engine.model_id@ == qwen_id() {
            QWEN_ASR_CHUNK_SECONDS
        } else if engine.model_id@ == "sherpa-funasr-nano"@ {
            LLM_ASR_CHUNK_SECONDS
        } else {
            LONG_AUDIO_THRESHOLD_SECONDS
        }),
{
    if str_eq(engine.model_id.as_str(), "qwen3-asr-0.6b") {
        QWEN_ASR_CHUNK_SECONDS
    } else if str_eq(engine.model_id.as_str(), "sherpa-funasr-nano") {
        LLM_ASR_CHUNK_SECONDS
    } else {
        LONG_AUDIO_THRESHOLD_SECONDS
    }
}

/// Length in seconds of the pieces that long audio is cut into.
pub fn sherpa_chunk_seconds(engine: &InstalledEngineConfig) -> (r: u32)
    ensures
        r == (if engine.model_id@ == qwen_id() {
            QWEN_ASR_CHUNK_SECONDS
        } else if engine.model_id@ == "sherpa-funasr-nano"@ {
            LLM_ASR_CHUNK_SECONDS
        } else {
            LONG_AUDIO_CHUNK_SECONDS
        }),
{
    if str_eq(engine.model_id.as_str(), "qwen3-asr-0.6b") {
        QWEN_ASR_CHUNK_SECONDS
    } else if str_eq(engine.model_id.as_str(), "sherpa-funasr-nano") {
        LLM_ASR_CHUNK_SECONDS
    } else {
        LONG_AUDIO_CHUNK_SECONDS
    }
}

// ---------------------------------------------------------------------------
// Command-line splitting
// ---------------------------------------------------------------------------

/// Splits the rest `s` of an argument string, given the argument in progress,
/// whether a quote is open and the arguments finished so far. Double quotes
/// toggle quoting, `\"` stands for a literal quote, whitespace outside quotes
/// ends an argument; an unclosed quote gives `None`.
pub open spec fn split_args_from(
    s: Seq<char>,
    cur: Seq<char>,
    in_quotes: bool,
    parsed: Seq<Seq<char>>,
) -> Option<Seq<Seq<char>>>
    decreases s.len(),
{
    if s.len() == 0 {
        if in_quotes {
            None
        } else if cur.len() > 0 {
            Some(parsed.push(cur))
        } else {
            Some(parsed)
        }
    } else {
        let ch = s[0];
        if ch == '"' {
            split_args_from(s.drop_first(), cur, !in_quotes, parsed)
        } else if ch == '\\' && s.len() > 1 && s[1] == '"' {
            split_args_from(s.skip(2), cur.push('"'), in_quotes, parsed)
        } else if is_ws(ch) && !in_quotes {
            if cur.len() > 0 {
                split_args_from(s.drop_first(), Seq::empty(), in_quotes, parsed.push(cur))
            } else {
                split_args_from(s.drop_first(), cur, in_quotes, parsed)
            }
        } else {
            split_args_from(s.drop_first(), cur.push(ch), in_quotes, parsed)
        }
    }
}

pub open spec fn split_args(s: Seq<char>) -> Option<Seq<Seq<char>>> {
    split_args_from(s, Seq::empty(), false, Seq::empty())
}

/// How many of the quotes in `t` from index `k` on open or close quoting:
/// those not written as `\"`.
pub open spec fn unescaped_quotes_from(t: Seq<char>, k: int) -> nat
    decreases t.len() - k,
{
    if k < 0 || k >= t.len() {
        0
    } else {
        (if t[k] == '"' && (k == 0 || t[k - 1] != '\\') {
            1nat
        } else {
            0nat
        }) + unescaped_quotes_from(t, k + 1)
    }
}

proof fn lemma_split_from(t: Seq<char>, k: int, cur: Seq<char>, q: bool, parsed: Seq<Seq<char>>)
    requires
        0 <= k <= t.len(),
        k == 0 || k == t.len() || !(t[k - 1] == '\\' && t[k] == '"'),
        forall|i: int| 0 <= i < parsed.len() ==> #[trigger] parsed[i].len() > 0,
    ensures
        (split_args_from(t.skip(k), cur, q, parsed) is None) <==> (q != (unescaped_quotes_from(t, k)
            % 2 == 1)),
        split_args_from(t.skip(k), cur, q, parsed) matches Some(v) ==> forall|i: int|
            0 <= i < v.len() ==> #[trigger] v[i].len() > 0,
    decreases t.len() - k,
{
    let s = t.skip(k);
    if k < t.len() {
        assert(s[0] == t[k]);
        assert(s.drop_first() =~= t.skip(k + 1));
        let ch = t[k];
        if ch == '"' {
            lemma_split_from(t, k + 1, cur, !q, parsed);
        } else if ch == '\\' && s.len() > 1 && s[1] == '"' {
            assert(s[1] == t[k + 1]);
            assert(s.skip(2) =~= t.skip(k + 2));
            assert(unescaped_quotes_from(t, k + 1) == unescaped_quotes_from(t, k + 2));
            lemma_split_from(t, k + 2, cur.push('"'), q, parsed);
        } else if is_ws(ch) && !q {
            if cur.len() > 0 {
                let p2 = parsed.push(cur);
                assert forall|i: int| 0 <= i < p2.len() implies #[trigger] p2[i].len() > 0 by {
                    if i < parsed.len() {
                        assert(p2[i] == parsed[i]);
                    }
                }
                lemma_split_from(t, k + 1, Seq::empty(), q, p2);
            } else {
                lemma_split_from(t, k + 1, cur, q, parsed);
            }
        } else {
            if k + 1 < t.len() && ch == '\\' {
                assert(s[1] == t[k + 1]);
            }
            lemma_split_from(t, k + 1, cur.push(ch), q, parsed);
        }
    } else {
        if !q && cur.len() > 0 {
            let v = parsed.push(cur);
            assert forall|i: int| 0 <= i < v.len() implies #[trigger] v[i].len() > 0 by {
                if i < parsed.len() {
                    assert(v[i] == parsed[i]);
                }
            }
        }
    }
}

/// An argument string is refused exactly when it holds an odd number of
/// quotes that are not written as `\"` (a quote is left open), and none of
/// the arguments it splits into is empty.
pub proof fn lemma_split_args_quotes(s: Seq<char>)
    ensures
        split_args(s) is None <==> unescaped_quotes_from(s, 0) % 2 == 1,
        split_args(s) matches Some(v) ==> forall|i: int| 0 <= i < v.len() ==> #[trigger] v[i].len() > 0,
{
    assert(s.skip(0) =~= s);
    lemma_split_from(s, 0, Seq::empty(), false, Seq::empty());
}

proof fn lemma_split_unquoted(p: Seq<char>, s: Seq<char>, parsed: Seq<Seq<char>>)
    requires
        forall|i: int| 0 <= i < s.len() ==> s[i] != '"',
        parsed == words_state(p).0,
    ensures
        split_args_from(s, words_state(p).1, false, parsed) == Some(words(p + s)),
    decreases s.len(),
{
    if s.len() == 0 {
        assert(p + s =~= p);
    } else {
        let c = s[0];
        let p2 = p.push(c);
        assert(p2.drop_last() =~= p);
        assert(p + s =~= p2 + s.drop_first());
        assert forall|i: int| 0 <= i < s.drop_first().len() implies s.drop_first()[i] != '"' by {
            assert(s.drop_first()[i] == s[i + 1]);
        }
        if c == '\\' && s.len() > 1 {
            assert(s[1] != '"');
        }
        lemma_split_unquoted(p2, s.drop_first(), words_state(p2).0);
    }
}

/// Without any quote, an argument string splits exactly as
/// `str::split_whitespace` splits it (backslashes stay as they are).
pub proof fn lemma_unquoted_args_split_on_whitespace(s: Seq<char>)
    requires
        forall|i: int| 0 <= i < s.len() ==> s[i] != '"',
    ensures
        split_args(s) == Some(words(s)),
{
    let e = Seq::<char>::empty();
    assert(words_state(e) == (Seq::<Seq<char>>::empty(), e));
    lemma_split_unquoted(e, s, Seq::empty());
    assert(e + s =~= s);
}

pub fn split_command_args(args: &str) -> (r: Result<Vec<String>, String>)
    ensures
        r matches Ok(v) ==> split_args(args@) == Some(views(v@)),
        r is Err ==> split_args(args@) is None,
        r matches Err(e) ==> e@ == "Sherpa arguments contain an unclosed quote."@,
{
    let v = chars_of(args);
    let mut parsed: Vec<String> = Vec::new();
    let mut current = String::new();
    let mut in_quotes = false;
    let mut i: usize = 0;
    assert(v@.skip(0) =~= v@);
    assert(views(parsed@) =~= Seq::<Seq<char>>::empty());
    while i < v.len()
        invariant
            0 <= i <= v@.len(),
            split_args_from(v@.skip(i as int), current@, in_quotes, views(parsed@)) == split_args(
                args@,
            ),
            v@ == args@,
        decreases v@.len() - i,
    {
        let ch = v[i];
        let ghost rest = v@.skip(i as int);
        let ghost c0 = current@;
        let ghost q0 = in_quotes;
        let ghost p0 = views(parsed@);
        assert(rest[0] == ch);
        assert(rest.len() > 0);
        assert(rest.drop_first() =~= v@.skip(i + 1));
        if ch == '"' {
            assert(split_args_from(rest, c0, q0, p0) == split_args_from(
                v@.skip(i + 1),
                c0,
                !q0,
                p0,
            ));
            in_quotes = !in_quotes;
            i += 1;
        } else if ch == '\\' && i + 1 < v.len() && v[i + 1] == '"' {
            assert(rest.len() > 1 && rest[1] == v@[i + 1]);
            assert(rest.skip(2) =~= v@.skip(i + 2));
            assert(split_args_from(rest, c0, q0, p0) == split_args_from(
                v@.skip(i + 2),
                c0.push('"'),
                q0,
                p0,
            ));
            push_char(&mut current, '"');
            i += 2;
        } else if char_is_ws(ch) && !in_quotes {
            proof {
                if ch == '\\' && rest.len() > 1 {
                    assert(rest[1] == v@[i + 1]);
                }
            }
            if !current.as_str().is_empty() {
                let finished = current;
                parsed.push(finished);
                current = String::new();
                assert(views(parsed@) =~= p0.push(finished@));
                assert(split_args_from(rest, c0, q0, p0) == split_args_from(
                    v@.skip(i + 1),
                    Seq::empty(),
                    q0,
                    p0.push(c0),
                ));
            } else {
                assert(split_args_from(rest, c0, q0, p0) == split_args_from(
                    v@.skip(i + 1),
                    c0,
                    q0,
                    p0,
                ));
            }
            i += 1;
        } else {
            proof {
                if ch == '\\' && rest.len() > 1 {
                    assert(rest[1] == v@[i + 1]);
                }
            }
            assert(split_args_from(rest, c0, q0, p0) == split_args_from(
                v@.skip(i + 1),
                c0.push(ch),
                q0,
                p0,
            ));
            push_char(&mut current, ch);
            i += 1;
        }
    }
    assert(v@.skip(i as int) =~= Seq::<char>::empty());
    if in_quotes {
        return Err(lit("Sherpa arguments contain an unclosed quote."));
    }
    if !current.as_str().is_empty() {
        let finished = current;
        parsed.push(finished);
        assert(views(parsed@) =~= views(parsed@.drop_last()).push(finished@));
    }
    Ok(parsed)
}

// ---------------------------------------------------------------------------
// Setting an argument's value
// ---------------------------------------------------------------------------

/// Processes the arguments `items` from the left: an argument equal to `name`
/// gets `value` as the next argument (appended when it is the last one), an
/// argument starting with `prefix` becomes `prefix + value`. Returns the new
/// arguments and whether anything was replaced.
pub open spec fn set_arg_from(
    items: Seq<Seq<char>>,
    name: Seq<char>,
    value: Seq<char>,
    prefix: Seq<char>,
) -> (Seq<Seq<char>>, bool)
    decreases items.len(),
{
    if items.len() == 0 {
        (Seq::empty(), false)
    } else if items[0] == name {
        if items.len() > 1 {
            let rest = set_arg_from(items.skip(2), name, value, prefix);
            (seq![items[0], value] + rest.0, true)
        } else {
            (seq![items[0], value], true)
        }
    } else if starts_with(items[0], prefix) {
        let rest = set_arg_from(items.drop_first(), name, value, prefix);
        (seq![prefix + value] + rest.0, true)
    } else {
        let rest = set_arg_from(items.drop_first(), name, value, prefix);
        (seq![items[0]] + rest.0, rest.1)
    }
}

/// The arguments after setting `name` to `value`: occurrences of `name value`
/// and `name=...` are rewritten; `name=value` is appended when there was none
/// and `append_if_missing` holds.
pub open spec fn set_arg(
    items: Seq<Seq<char>>,
    name: Seq<char>,
    value: Seq<char>,
    append_if_missing: bool,
) -> Seq<Seq<char>> {
    let prefix = name.push('=');
    let r = set_arg_from(items, name, value, prefix);
    if append_if_missing && !r.1 {
        r.0.push(prefix + value)
    } else {
        r.0
    }
}

/// Each argument rewritten on its own: `prefix + value` in place of one that
/// starts with `prefix`, else unchanged.
pub open spec fn rewrite_each(items: Seq<Seq<char>>, value: Seq<char>, prefix: Seq<char>) -> Seq<
    Seq<char>,
> {
    Seq::new(
        items.len(),
        |i: int|
            if starts_with(items[i], prefix) {
                prefix + value
            } else {
                items[i]
            },
    )
}

proof fn lemma_set_arg_from_each(
    items: Seq<Seq<char>>,
    name: Seq<char>,
    value: Seq<char>,
    prefix: Seq<char>,
)
    requires
        forall|i: int| 0 <= i < items.len() ==> #[trigger] items[i] != name,
    ensures
        set_arg_from(items, name, value, prefix).0 == rewrite_each(items, value, prefix),
        set_arg_from(items, name, value, prefix).1 == exists|i: int|
            0 <= i < items.len() && starts_with(#[trigger] items[i], prefix),
    decreases items.len(),
{
    if items.len() > 0 {
        let rest = items.drop_first();
        assert forall|i: int| 0 <= i < rest.len() implies #[trigger] rest[i] != name by {
            assert(rest[i] == items[i + 1]);
        }
        lemma_set_arg_from_each(rest, name, value, prefix);
        let r = set_arg_from(items, name, value, prefix);
        let t = set_arg_from(rest, name, value, prefix);
        assert(items[0] != name);
        assert(r.0 =~= rewrite_each(items, value, prefix)) by {
            assert forall|i: int| 0 <= i < r.0.len() implies r.0[i] == rewrite_each(
                items,
                value,
                prefix,
            )[i] by {
                if i > 0 {
                    assert(r.0[i] == t.0[i - 1]);
                    assert(rest[i - 1] == items[i]);
                }
            }
        }
        if exists|i: int| 0 <= i < rest.len() && starts_with(#[trigger] rest[i], prefix) {
            let k = choose|k: int| 0 <= k < rest.len() && starts_with(#[trigger] rest[k], prefix);
            assert(items[k + 1] == rest[k]);
        }
        if exists|i: int| 0 <= i < items.len() && starts_with(#[trigger] items[i], prefix) {
            let k = choose|k: int| 0 <= k < items.len() && starts_with(#[trigger] items[k], prefix);
            if k > 0 {
                assert(rest[k - 1] == items[k]);
            }
        }
    }
}

/// When the option's name never stands as an argument of its own, setting it
/// rewrites each `name=...` argument to `name=value` in place and keeps every
/// other argument; `name=value` is added at the end only when none was there
/// and adding was asked for.
pub proof fn lemma_set_arg_rewrites_each(
    items: Seq<Seq<char>>,
    name: Seq<char>,
    value: Seq<char>,
    append_if_missing: bool,
)
    requires
        forall|i: int| 0 <= i < items.len() ==> #[trigger] items[i] != name,
    ensures
        ({
            let prefix = name.push('=');
            let found = exists|i: int|
                0 <= i < items.len() && starts_with(#[trigger] items[i], prefix);
            set_arg(items, name, value, append_if_missing) == if append_if_missing && !found {
                rewrite_each(items, value, prefix).push(prefix + value)
            } else {
                rewrite_each(items, value, prefix)
            }
        }),
{
    lemma_set_arg_from_each(items, name, value, name.push('='));
}

pub fn set_sherpa_arg_value(
    parsed: &mut Vec<String>,
    name: &str,
    value: &str,
    append_if_missing: bool,
)
    ensures
        views(final(parsed)@) == set_arg(views(old(parsed)@), name@, value@, append_if_missing),
{
    let mut items: Vec<String> = Vec::new();
    std::mem::swap(parsed, &mut items);
    let ghost orig = views(items@);
    let mut prefix = lit(name);
    push_char(&mut prefix, '=');
    let prefix_chars = chars_of(prefix.as_str());
    let mut with_value = lit(prefix.as_str());
    append_str(&mut with_value, value);
    let mut out: Vec<String> = Vec::new();
    let mut replaced = false;
    let mut index: usize = 0;
    let ghost total = set_arg_from(orig, name@, value@, prefix@);
    assert(orig.skip(0) =~= orig);
    while index < items.len()
        invariant
            orig == views(items@),
            0 <= index <= items@.len(),
            prefix@ == name@.push('='),
            prefix_chars@ == prefix@,
            with_value@ == prefix@ + value@,
            total == set_arg_from(orig, name@, value@, prefix@),
            views(out@) + set_arg_from(orig.skip(index as int), name@, value@, prefix@).0
                == total.0,
            (replaced || set_arg_from(orig.skip(index as int), name@, value@, prefix@).1)
                == total.1,
        decreases items@.len() - index,
    {
        let ghost rest = orig.skip(index as int);
        assert(rest[0] == items@[index as int]@);
        let ghost before = views(out@);
        if str_eq(items[index].as_str(), name) {
            out.push(lit(items[index].as_str()));
            out.push(lit(value));
            replaced = true;
            if index + 1 < items.len() {
                assert(rest.skip(2) =~= orig.skip(index + 2));
                assert(views(out@) =~= before + seq![rest[0], value@]);
                index += 2;
            } else {
                assert(views(out@) =~= before + seq![rest[0], value@]);
                assert(orig.skip(index + 1) =~= Seq::<Seq<char>>::empty());
                index += 1;
            }
        } else {
            let item_chars = chars_of(items[index].as_str());
            assert(rest.drop_first() =~= orig.skip(index + 1));
            if starts_with_exec(item_chars.as_slice(), prefix_chars.as_slice()) {
                out.push(lit(with_value.as_str()));
                replaced = true;
                assert(views(out@) =~= before + seq![prefix@ + value@]);
            } else {
                out.push(lit(items[index].as_str()));
                assert(views(out@) =~= before + seq![rest[0]]);
            }
            index += 1;
        }
        assert(views(out@) + set_arg_from(orig.skip(index as int), name@, value@, prefix@).0
            =~= total.0);
    }
    assert(orig.skip(index as int) =~= Seq::<Seq<char>>::empty());
    assert(views(out@) =~= total.0);
    if append_if_missing && !replaced {
        out.push(with_value);
        assert(views(out@) =~= total.0.push(prefix@ + value@));
    }
    *parsed = out;
}

pub open spec fn opt_threads_args(parsed: Seq<Seq<char>>, threads: Option<usize>) -> Seq<
    Seq<char>,
> {
    match threads {
        Some(t) => set_arg(parsed, "--num-threads"@, decimal(t as nat), true),
        None => parsed,
    }
}

/// The runtime mode is accepted for compatibility and does not change the
/// arguments.
pub fn sherpa_args_for_runtime(args: &str, threads: Option<usize>, _runtime_mode: &str) -> (r:
    Result<Vec<String>, String>)
    ensures
        r matches Ok(v) ==> split_args(args@) matches Some(p) && views(v@) == opt_threads_args(
            p,
            threads,
        ),
        r is Err <==> split_args(args@) is None,
        r matches Err(e) ==> e@ == "Sherpa arguments contain an unclosed quote."@,
{
    let mut parsed = split_command_args(args)?;
    if let Some(threads) = threads {
        let t = decimal_string(threads as u64);
        set_sherpa_arg_value(&mut parsed, "--num-threads", t.as_str(), true);
    }
    Ok(parsed)
}

pub fn sherpa_args_for_engine_runtime(
    engine: &InstalledEngineConfig,
    threads: Option<usize>,
    runtime_mode: &str,
) -> (r: Result<Vec<String>, String>)
    ensures
        r matches Ok(v) ==> split_args(engine.args@) matches Some(p) && views(v@) == (if engine.model_id@
            == qwen_id() {
            set_arg(
                opt_threads_args(p, threads),
                "--qwen3-asr-max-new-tokens"@,
                decimal(QWEN_ASR_MAX_NEW_TOKENS as nat),
                true,
            )
        } else {
            opt_threads_args(p, threads)
        }),
        r is Err <==> split_args(engine.args@) is None,
        r matches Err(e) ==> e@ == "Sherpa arguments contain an unclosed quote."@,
{
    let mut parsed = sherpa_args_for_runtime(engine.args.as_str(), threads, runtime_mode)?;
    if str_eq(engine.model_id.as_str(), "qwen3-asr-0.6b") {
        let t = decimal_string(QWEN_ASR_MAX_NEW_TOKENS as u64);
        set_sherpa_arg_value(&mut parsed, "--qwen3-asr-max-new-tokens", t.as_str(), true);
    }
    Ok(parsed)
}

/// The arguments of the long-running Sherpa WebSocket service: the
/// engine's own arguments for `runtime_mode`, then the service's port.
pub fn sherpa_daemon_args(engine: &InstalledEngineConfig, runtime_mode: &str, port: u16) -> (r:
    Result<Vec<String>, String>)
    ensures
        r matches Ok(v) ==> split_args(engine.args@) matches Some(p) && views(v@) == (if engine.model_id@
            == qwen_id() {
            set_arg(
                opt_threads_args(p, None),
                "--qwen3-asr-max-new-tokens"@,
                decimal(QWEN_ASR_MAX_NEW_TOKENS as nat),
                true,
            )
        } else {
            opt_threads_args(p, None)
        }).push("--port="@ + decimal(port as nat)),
        r is Err <==> split_args(engine.args@) is None,
        r matches Err(e) ==> e@ == "Sherpa arguments contain an unclosed quote."@,
{
    let mut args = sherpa_args_for_engine_runtime(engine, None, runtime_mode)?;
    let mut flag = lit("--port=");
    append_str(&mut flag, decimal_string(port as u64).as_str());
    let ghost before = views(args@);
    args.push(flag);
    assert(views(args@) =~= before.push(flag@));
    Ok(args)
}

// ---------------------------------------------------------------------------
// Installing a Sherpa model
// ---------------------------------------------------------------------------

/// The configuration written for a Sherpa model installed into `model_dir`,
/// with `{modelDir}` and `{exePath}` in the model's argument template
/// replaced by the model directory and the runtime executable.
pub open spec fn install_args(template: Seq<char>, model_dir: Seq<char>, executable: Seq<char>) -> Seq<char> {
    replace(replace(template, "{modelDir}"@, model_dir), "{exePath}"@, executable)
}

/// The `engine.json` for a Sherpa model: its files are the ones downloaded.
/// A model without files or without an argument template cannot be
/// installed this way.
pub fn sherpa_install_config(
    model_id: &str,
    model_name: &str,
    model_dir: &str,
    executable: &str,
    sherpa_args: &str,
    model_files: &Vec<String>,
) -> (r: Result<InstalledEngineConfig, String>)
    ensures
        (model_files@.len() == 0 || crate::text::trim(sherpa_args@).len() == 0) ==> (r matches Err(m)
            && m@ == model_name@ + " has no Sherpa install recipe"@),
        (model_files@.len() > 0 && crate::text::trim(sherpa_args@).len() > 0) ==> (r matches Ok(c)
            && c.engine@ == "sherpa-onnx"@ && c.model_id@ == model_id@ && c.model_name@
            == model_name@ && c.model_dir@ == model_dir@ && c.executable@ == executable@
            && c.args@ == install_args(sherpa_args@, model_dir@, executable@) && views(
            c.required_files@,
        ) == views(model_files@)),
{
    if model_files.len() == 0 || crate::text::is_blank(sherpa_args) {
        let mut m = lit(model_name);
        append_str(&mut m, " has no Sherpa install recipe");
        return Err(m);
    }
    proof {
        reveal_strlit("{modelDir}");
        reveal_strlit("{exePath}");
    }
    let with_dir = replace_str(sherpa_args, "{modelDir}", model_dir);
    let args = replace_str(with_dir.as_str(), "{exePath}", executable);
    let mut files: Vec<String> = Vec::new();
    let mut i: usize = 0;
    while i < model_files.len()
        invariant
            0 <= i <= model_files@.len(),
            views(files@) == views(model_files@).take(i as int),
        decreases model_files@.len() - i,
    {
        let ghost before = views(files@);
        files.push(model_files[i].clone());
        assert(views(files@) =~= before.push(model_files@[i as int]@));
        assert(views(model_files@).take(i + 1) =~= views(model_files@).take(i as int).push(
            model_files@[i as int]@,
        ));
        i += 1;
    }
    assert(views(model_files@).take(model_files@.len() as int) =~= views(model_files@));
    Ok(
        InstalledEngineConfig {
            engine: lit("sherpa-onnx"),
            model_id: lit(model_id),
            model_name: lit(model_name),
            model_dir: lit(model_dir),
            executable: lit(executable),
            args,
            required_files: files,
        },
    )
}

// ---------------------------------------------------------------------------
// Faster-Whisper worker arguments
// ---------------------------------------------------------------------------

pub open spec fn fill_placeholders(
    arg: Seq<char>,
    model_dir: Seq<char>,
    audio: Seq<char>,
    output: Seq<char>,
) -> Seq<char> {
    replace(
        replace(replace(arg, "{modelDir}"@, model_dir), "{audioPath}"@, audio),
        "{outputJson}"@,
        output,
    )
}

/// Worker arguments: the configured arguments with `{modelDir}`,
/// `{audioPath}` and `{outputJson}` filled in, then the audio, model directory
/// and output options.
pub fn faster_whisper_args_for_engine(
    engine: &InstalledEngineConfig,
    wav_path: &str,
    output_json_path: &str,
) -> (r: Result<Vec<String>, String>)
    ensures
        r matches Ok(v) ==> split_args(engine.args@) matches Some(p) && views(v@) == p.map_values(
            |a: Seq<char>| fill_placeholders(a, engine.model_dir@, wav_path@, output_json_path@),
        ) + seq![
            "--audio"@,
            wav_path@,
            "--model-dir"@,
            engine.model_dir@,
            "--output-json"@,
            output_json_path@,
        ],
        r is Err <==> split_args(engine.args@) is None,
{
    let split = split_command_args(engine.args.as_str())?;
    let ghost p = views(split@);
    proof {
        reveal_strlit("{modelDir}");
        reveal_strlit("{audioPath}");
        reveal_strlit("{outputJson}");
    }
    let mut args: Vec<String> = Vec::new();
    let mut i: usize = 0;
    while i < split.len()
        invariant
            p == views(split@),
            0 <= i <= split@.len(),
            "{modelDir}"@.len() > 0,
            "{audioPath}"@.len() > 0,
            "{outputJson}"@.len() > 0,
            views(args@) == p.take(i as int).map_values(
                |a: Seq<char>| fill_placeholders(a, engine.model_dir@, wav_path@, output_json_path@),
            ),
        decreases split@.len() - i,
    {
        let a1 = replace_str(split[i].as_str(), "{modelDir}", engine.model_dir.as_str());
        let a2 = replace_str(a1.as_str(), "{audioPath}", wav_path);
        let a3 = replace_str(a2.as_str(), "{outputJson}", output_json_path);
        let ghost f = |a: Seq<char>|
            fill_placeholders(a, engine.model_dir@, wav_path@, output_json_path@);
        assert(p[i as int] == split@[i as int]@);
        assert(a3@ == f(p[i as int]));
        let ghost before = views(args@);
        args.push(a3);
        assert(views(args@) =~= before.push(a3@));
        assert(p.take(i + 1) =~= p.take(i as int).push(p[i as int]));
        assert(p.take(i + 1).map_values(f) =~= p.take(i as int).map_values(f).push(f(p[i as int])));
        assert(views(args@) =~= p.take(i + 1).map_values(
            |a: Seq<char>| fill_placeholders(a, engine.model_dir@, wav_path@, output_json_path@),
        ));
        i += 1;
    }
    assert(p.take(split@.len() as int) =~= p);
    let ghost mapped = views(args@);
    args.push(lit("--audio"));
    args.push(lit(wav_path));
    args.push(lit("--model-dir"));
    args.push(engine.model_dir.clone());
    args.push(lit("--output-json"));
    args.push(lit(output_json_path));
    assert(views(args@) =~= mapped + seq![
        "--audio"@,
        wav_path@,
        "--model-dir"@,
        engine.model_dir@,
        "--output-json"@,
        output_json_path@,
    ]);
    Ok(args)
}

// ---------------------------------------------------------------------------
// Runtime executables
// ---------------------------------------------------------------------------

/// `Path::with_file_name`.
pub open spec fn with_file_name(p: Seq<char>, name: Seq<char>) -> Seq<char> {
    match (paths::file_name(p), paths::parent(p)) {
        (Some(_), Some(h)) => paths::join(h, name),
        _ => paths::join(p, name),
    }
}

pub fn with_file_name_exec(p: &str, name: &str) -> (r: String)
    ensures
        r@ == with_file_name(p@, name@),
{
    let f = paths::file_name_exec(p);
    let h = paths::parent_exec(p);
    match (f, h) {
        (Some(_), Some(h)) => paths::join_exec(h.as_str(), name),
        _ => paths::join_exec(p, name),
    }
}

/// Streaming models run through the streaming command-line tool next to the
/// offline one.
pub fn sherpa_cli_executable_for_engine(
    engine: &InstalledEngineConfig,
    runtime_executable: &str,
) -> (r: String)
    ensures
        r@ == (if engine.model_id@ == "sherpa-zipformer-zh"@ {
            with_file_name(runtime_executable@, "sherpa-onnx.exe"@)
        } else {
            runtime_executable@
        }),
{
    if is_sherpa_streaming_cli_model(engine) {
        with_file_name_exec(runtime_executable, "sherpa-onnx.exe")
    } else {
        lit(runtime_executable)
    }
}

pub fn sherpa_websocket_server_path(engine: &InstalledEngineConfig, executable: &str) -> (r:
    String)
    ensures
        r@ == (if engine.model_id@ == "sherpa-zipformer-zh"@ {
            with_file_name(executable@, "sherpa-onnx-online-websocket-server.exe"@)
        } else {
            with_file_name(executable@, "sherpa-onnx-offline-websocket-server.exe"@)
        }),
{
    if is_sherpa_streaming_cli_model(engine) {
        with_file_name_exec(executable, "sherpa-onnx-online-websocket-server.exe")
    } else {
        with_file_name_exec(executable, "sherpa-onnx-offline-websocket-server.exe")
    }
}

} // verus!
