//! Where the DirectML probe and the split SenseVoice and Qwen3-ASR pipelines
//! look for their model files, and how a model directory is chosen.
use vstd::prelude::*;
use crate::paths::{
    file_name, file_name_exec, join, join_exec, parent, parent_exec, same_path, same_path_exec,
};
use crate::text::{
    append_str, eq_ignore_ascii_case, join as join_text, join_strings, lit, lower_ascii_seq, str_eq,
    views,
};

verus! {

broadcast use vstd::string::group_string_axioms;

// ---------------------------------------------------------------------------
// Candidate directories
// ---------------------------------------------------------------------------

/// Whether `s` holds a path that is the same path as `p`.
pub open spec fn has_same_path(s: Seq<Seq<char>>, p: Seq<char>) -> bool {
    exists|i: int| 0 <= i < s.len() && same_path(#[trigger] s[i], p)
}

/// The paths of `s` with every later path dropped that is the same path (as
/// `Path` compares them) as one kept before it.
pub open spec fn dedup(s: Seq<Seq<char>>) -> Seq<Seq<char>>
    decreases s.len(),
{
    if s.len() == 0 {
        Seq::empty()
    } else {
        let prev = dedup(s.drop_last());
        if has_same_path(prev, s.last()) {
            prev
        } else {
            prev.push(s.last())
        }
    }
}

/// After removing repetitions no two paths left are the same path, each one
/// left comes from the list, and each path of the list is the same path as
/// one left.
pub proof fn lemma_dedup_unique_and_complete(s: Seq<Seq<char>>)
    ensures
        forall|i: int, j: int|
            0 <= i < j < dedup(s).len() ==> !same_path(#[trigger] dedup(s)[i], #[trigger] dedup(s)[j]),
        forall|p: Seq<char>| dedup(s).contains(p) ==> s.contains(p),
        forall|k: int| 0 <= k < s.len() ==> has_same_path(dedup(s), #[trigger] s[k]),
    decreases s.len(),
{
    if s.len() > 0 {
        let prev = dedup(s.drop_last());
        let x = s.last();
        lemma_dedup_unique_and_complete(s.drop_last());
        let d = dedup(s);
        assert forall|p: Seq<char>| d.contains(p) implies s.contains(p) by {
            let k = choose|k: int| 0 <= k < d.len() && d[k] == p;
            if k < prev.len() {
                assert(prev[k] == p);
                assert(prev.contains(p));
                assert(s.drop_last().contains(p));
                let m = choose|m: int| 0 <= m < s.drop_last().len() && s.drop_last()[m] == p;
                assert(s[m] == p);
            } else {
                assert(s[s.len() - 1] == p);
            }
        }
        assert forall|k: int| 0 <= k < s.len() implies has_same_path(d, #[trigger] s[k]) by {
            if k < s.len() - 1 {
                assert(s.drop_last()[k] == s[k]);
                assert(has_same_path(prev, s.drop_last()[k]));
                let j = choose|j: int| 0 <= j < prev.len() && same_path(#[trigger] prev[j], s[k]);
                assert(d[j] == prev[j]);
            } else if has_same_path(prev, x) {
                let j = choose|j: int| 0 <= j < prev.len() && same_path(#[trigger] prev[j], x);
                assert(d[j] == prev[j]);
            } else {
                assert(d[prev.len() as int] == x);
            }
        }
        assert forall|i: int, j: int| 0 <= i < j < d.len() implies !same_path(
            #[trigger] d[i],
            #[trigger] d[j],
        ) by {
            if j < prev.len() {
                assert(d[i] == prev[i] && d[j] == prev[j]);
            } else {
                assert(!has_same_path(prev, x));
                assert(d[i] == prev[i] && d[j] == x);
                if same_path(prev[i], x) {
                    assert(has_same_path(prev, x));
                }
            }
        }
    }
}

fn push_unique(v: &mut Vec<String>, p: String)
    ensures
        views(final(v)@) == (if has_same_path(views(old(v)@), p@) {
            views(old(v)@)
        } else {
            views(old(v)@).push(p@)
        }),
{
    let mut i: usize = 0;
    while i < v.len()
        invariant
            0 <= i <= v@.len(),
            v@ == old(v)@,
            forall|k: int| 0 <= k < i ==> !same_path(#[trigger] views(v@)[k], p@),
        decreases v@.len() - i,
    {
        if same_path_exec(v[i].as_str(), p.as_str()) {
            assert(same_path(views(v@)[i as int], p@));
            return;
        }
        i += 1;
    }
    assert(!has_same_path(views(v@), p@));
    let ghost before = views(v@);
    v.push(p);
    assert(views(v@) =~= before.push(p@));
}

fn dedup_paths(paths: &Vec<String>) -> (r: Vec<String>)
    ensures
        views(r@) == dedup(views(paths@)),
{
    let mut unique: Vec<String> = Vec::new();
    let mut i: usize = 0;
    while i < paths.len()
        invariant
            0 <= i <= paths@.len(),
            views(unique@) == dedup(views(paths@).take(i as int)),
        decreases paths@.len() - i,
    {
        assert(views(paths@).take(i + 1).drop_last() =~= views(paths@).take(i as int));
        push_unique(&mut unique, paths[i].clone());
        i += 1;
    }
    assert(views(paths@).take(paths@.len() as int) =~= views(paths@));
    unique
}

pub open spec fn probe_candidates(requested: Seq<char>, app_models_dir: Option<Seq<char>>) -> Seq<
    Seq<char>,
> {
    let own = seq![
        requested,
        join(requested, "sensevoice-small"@),
        join(requested, "qwen3-asr-0.6b"@),
    ];
    let siblings = match parent(requested) {
        Some(p) => seq![join(p, "sensevoice-small"@), join(p, "qwen3-asr-0.6b"@)],
        None => Seq::empty(),
    };
    let shared = match app_models_dir {
        Some(m) => seq![join(m, "sensevoice-small"@), join(m, "qwen3-asr-0.6b"@)],
        None => Seq::empty(),
    };
    dedup(own + siblings + shared)
}

/// Directories the DirectML probe tries, in order: the requested one, its
/// SenseVoice and Qwen3-ASR subdirectories, the same next to it, and the same
/// in the app's model directory; a later one that is the same path as an
/// earlier one (as `Path` compares them) is left out.
pub fn directml_probe_candidate_dirs(requested_model_dir: &str, app_models_dir: Option<String>) -> (r:
    Vec<String>)
    ensures
        views(r@) == probe_candidates(
            requested_model_dir@,
            match app_models_dir {
                Some(m) => Some(m@),
                None => None,
            },
        ),
        forall|a: int, b: int|
            0 <= a < b < r@.len() ==> !same_path(#[trigger] r@[a]@, #[trigger] r@[b]@),
{
    let mut candidates: Vec<String> = Vec::new();
    candidates.push(lit(requested_model_dir));
    candidates.push(join_exec(requested_model_dir, "sensevoice-small"));
    candidates.push(join_exec(requested_model_dir, "qwen3-asr-0.6b"));
    let ghost own = views(candidates@);
    match parent_exec(requested_model_dir) {
        Some(p) => {
            candidates.push(join_exec(p.as_str(), "sensevoice-small"));
            candidates.push(join_exec(p.as_str(), "qwen3-asr-0.6b"));
        },
        None => {},
    }
    let ghost with_siblings = views(candidates@);
    match &app_models_dir {
        Some(m) => {
            candidates.push(join_exec(m.as_str(), "sensevoice-small"));
            candidates.push(join_exec(m.as_str(), "qwen3-asr-0.6b"));
        },
        None => {},
    }
    let ghost p = parent(requested_model_dir@);
    assert(views(candidates@) =~= probe_candidates_list(
        requested_model_dir@,
        match app_models_dir {
            Some(m) => Some(m@),
            None => None,
        },
    ));
    let r = dedup_paths(&candidates);
    proof {
        lemma_dedup_unique_and_complete(views(candidates@));
        assert forall|a: int, b: int| 0 <= a < b < r@.len() implies !same_path(
            #[trigger] r@[a]@,
            #[trigger] r@[b]@,
        ) by {
            assert(views(r@)[a] == r@[a]@ && views(r@)[b] == r@[b]@);
        }
    }
    r
}

spec fn probe_candidates_list(requested: Seq<char>, app_models_dir: Option<Seq<char>>) -> Seq<
    Seq<char>,
> {
    let own = seq![
        requested,
        join(requested, "sensevoice-small"@),
        join(requested, "qwen3-asr-0.6b"@),
    ];
    let siblings = match parent(requested) {
        Some(p) => seq![join(p, "sensevoice-small"@), join(p, "qwen3-asr-0.6b"@)],
        None => Seq::empty(),
    };
    let shared = match app_models_dir {
        Some(m) => seq![join(m, "sensevoice-small"@), join(m, "qwen3-asr-0.6b"@)],
        None => Seq::empty(),
    };
    own + siblings + shared
}

pub open spec fn split_layouts(dir: Seq<char>) -> Seq<Seq<char>> {
    seq![
        join(dir, "sensevoice-directml"@),
        join(dir, "Sensevoice-Small-ONNX"@),
        join(join(dir, "SenseVoice-Small"@), "Sensevoice-Small-ONNX"@),
    ]
}

pub open spec fn split_candidates(requested: Seq<char>, app_models_dir: Option<Seq<char>>) -> Seq<
    Seq<char>,
> {
    let siblings = match parent(requested) {
        Some(p) => split_layouts(p),
        None => Seq::empty(),
    };
    let shared = match app_models_dir {
        Some(m) => split_layouts(m),
        None => Seq::empty(),
    };
    dedup(seq![requested] + split_layouts(requested) + siblings + shared)
}

fn push_split_layouts(v: &mut Vec<String>, dir: &str)
    ensures
        views(final(v)@) == views(old(v)@) + split_layouts(dir@),
{
    let ghost before = views(v@);
    v.push(join_exec(dir, "sensevoice-directml"));
    v.push(join_exec(dir, "Sensevoice-Small-ONNX"));
    let nested = join_exec(dir, "SenseVoice-Small");
    v.push(join_exec(nested.as_str(), "Sensevoice-Small-ONNX"));
    assert(views(v@) =~= before + split_layouts(dir@));
}

/// Directories that may hold the split SenseVoice ONNX files, in order: the
/// requested one and its known layouts, the same layouts next to it and in
/// the app's model directory; a later one that is the same path as an
/// earlier one (as `Path` compares them) is left out.
pub fn directml_split_sensevoice_candidate_dirs(
    requested_model_dir: &str,
    app_models_dir: Option<String>,
) -> (r: Vec<String>)
    ensures
        views(r@) == split_candidates(
            requested_model_dir@,
            match app_models_dir {
                Some(m) => Some(m@),
                None => None,
            },
        ),
        forall|a: int, b: int|
            0 <= a < b < r@.len() ==> !same_path(#[trigger] r@[a]@, #[trigger] r@[b]@),
{
    let mut candidates: Vec<String> = Vec::new();
    candidates.push(lit(requested_model_dir));
    push_split_layouts(&mut candidates, requested_model_dir);
    match parent_exec(requested_model_dir) {
        Some(p) => push_split_layouts(&mut candidates, p.as_str()),
        None => {},
    }
    match &app_models_dir {
        Some(m) => push_split_layouts(&mut candidates, m.as_str()),
        None => {},
    }
    assert(views(candidates@) =~= seq![requested_model_dir@] + split_layouts(requested_model_dir@)
        + match parent(requested_model_dir@) {
        Some(p) => split_layouts(p),
        None => Seq::empty(),
    } + match app_models_dir {
        Some(m) => split_layouts(m@),
        None => Seq::empty(),
    });
    let r = dedup_paths(&candidates);
    proof {
        lemma_dedup_unique_and_complete(views(candidates@));
        assert forall|a: int, b: int| 0 <= a < b < r@.len() implies !same_path(
            #[trigger] r@[a]@,
            #[trigger] r@[b]@,
        ) by {
            assert(views(r@)[a] == r@[a]@ && views(r@)[b] == r@[b]@);
        }
    }
    r
}

/// The files of the split SenseVoice pipeline in one directory.
#[derive(Debug, Clone)]
pub struct DirectMlSplitSenseVoiceCandidate {
    pub model_dir: String,
    pub encoder: String,
    pub ctc: String,
    pub tokenizer: String,
}

pub fn split_sensevoice_candidate_for_dir(model_dir: &str) -> (r: DirectMlSplitSenseVoiceCandidate)
    ensures
        r.model_dir@ == model_dir@,
        r.encoder@ == join(model_dir@, "SenseVoice-Encoder.fp16.onnx"@),
        r.ctc@ == join(model_dir@, "SenseVoice-CTC.fp16.onnx"@),
        r.tokenizer@ == join(model_dir@, "tokenizer.bpe.model"@),
{
    DirectMlSplitSenseVoiceCandidate {
        model_dir: lit(model_dir),
        encoder: join_exec(model_dir, "SenseVoice-Encoder.fp16.onnx"),
        ctc: join_exec(model_dir, "SenseVoice-CTC.fp16.onnx"),
        tokenizer: join_exec(model_dir, "tokenizer.bpe.model"),
    }
}

/// The labels of what is missing, given whether the directory and each of its
/// three files exist.
pub open spec fn split_missing(dir: bool, encoder: bool, ctc: bool, tokenizer: bool) -> Seq<
    Seq<char>,
> {
    (if dir {
        Seq::empty()
    } else {
        seq!["split model directory"@]
    }) + (if encoder {
        Seq::empty()
    } else {
        seq!["SenseVoice-Encoder.fp16.onnx"@]
    }) + (if ctc {
        Seq::empty()
    } else {
        seq!["SenseVoice-CTC.fp16.onnx"@]
    }) + (if tokenizer {
        Seq::empty()
    } else {
        seq!["tokenizer.bpe.model"@]
    })
}

fn push_if_missing(v: &mut Vec<String>, exists: bool, label: &str)
    ensures
        views(final(v)@) == views(old(v)@) + (if exists {
            Seq::empty()
        } else {
            seq![label@]
        }),
{
    let ghost before = views(v@);
    if !exists {
        v.push(lit(label));
    }
    assert(views(v@) =~= before + (if exists {
        Seq::empty()
    } else {
        seq![label@]
    }));
}

pub fn split_sensevoice_missing_files(
    model_dir_exists: bool,
    encoder_exists: bool,
    ctc_exists: bool,
    tokenizer_exists: bool,
) -> (r: Vec<String>)
    ensures
        views(r@) == split_missing(model_dir_exists, encoder_exists, ctc_exists, tokenizer_exists),
{
    let mut missing: Vec<String> = Vec::new();
    assert(views(missing@) =~= Seq::<Seq<char>>::empty());
    push_if_missing(&mut missing, model_dir_exists, "split model directory");
    push_if_missing(&mut missing, encoder_exists, "SenseVoice-Encoder.fp16.onnx");
    push_if_missing(&mut missing, ctc_exists, "SenseVoice-CTC.fp16.onnx");
    push_if_missing(&mut missing, tokenizer_exists, "tokenizer.bpe.model");
    assert(views(missing@) =~= split_missing(
        model_dir_exists,
        encoder_exists,
        ctc_exists,
        tokenizer_exists,
    ));
    missing
}

/// Index of the first candidate marked complete.
pub open spec fn first_complete(complete: Seq<bool>) -> Option<int>
    decreases complete.len(),
{
    if complete.len() == 0 {
        None
    } else {
        match first_complete(complete.drop_last()) {
            Some(i) => Some(i),
            None => if complete.last() {
                Some(complete.len() - 1)
            } else {
                None
            },
        }
    }
}

fn first_complete_exec(complete: &[bool]) -> (r: Option<usize>)
    ensures
        match r {
            Some(i) => first_complete(complete@) == Some(i as int) && i < complete@.len(),
            None => first_complete(complete@) is None,
        },
{
    let mut i: usize = 0;
    while i < complete.len()
        invariant
            0 <= i <= complete@.len(),
            first_complete(complete@.take(i as int)) is None,
        decreases complete@.len() - i,
    {
        assert(complete@.take(i + 1).drop_last() =~= complete@.take(i as int));
        if complete[i] {
            proof {
                lemma_first_complete_prefix(complete@, i as int);
            }
            return Some(i);
        }
        i += 1;
    }
    assert(complete@.take(complete@.len() as int) =~= complete@);
    None
}

proof fn lemma_first_complete_prefix(c: Seq<bool>, i: int)
    requires
        0 <= i < c.len(),
        first_complete(c.take(i)) is None,
        c[i],
    ensures
        first_complete(c) == Some(i),
    decreases c.len(),
{
    if c.len() - 1 == i {
        assert(c.drop_last() =~= c.take(i));
    } else {
        assert(c.drop_last().take(i) =~= c.take(i));
        lemma_first_complete_prefix(c.drop_last(), i);
    }
}

/// The first candidate with every split file present; otherwise the first
/// candidate; otherwise the requested directory. `complete[i]` tells whether
/// `candidates[i]` has every file.
pub fn select_directml_split_sensevoice_candidate(
    requested_model_dir: &str,
    candidates: &Vec<String>,
    complete: &[bool],
) -> (r: DirectMlSplitSenseVoiceCandidate)
    requires
        complete@.len() == candidates@.len(),
    ensures
        r.model_dir@ == (match first_complete(complete@) {
            Some(i) => candidates@[i]@,
            None => if candidates@.len() > 0 {
                candidates@[0]@
            } else {
                requested_model_dir@
            },
        }),
        r.encoder@ == join(r.model_dir@, "SenseVoice-Encoder.fp16.onnx"@),
        r.ctc@ == join(r.model_dir@, "SenseVoice-CTC.fp16.onnx"@),
        r.tokenizer@ == join(r.model_dir@, "tokenizer.bpe.model"@),
{
    match first_complete_exec(complete) {
        Some(i) => split_sensevoice_candidate_for_dir(candidates[i].as_str()),
        None => if candidates.len() > 0 {
            split_sensevoice_candidate_for_dir(candidates[0].as_str())
        } else {
            split_sensevoice_candidate_for_dir(requested_model_dir)
        },
    }
}

/// The first candidate ready for the probe (`ready[i]` for `candidates[i]`),
/// otherwise the requested directory.
pub fn select_directml_probe_model_dir(
    requested_model_dir: &str,
    candidates: &Vec<String>,
    ready: &[bool],
) -> (r: String)
    requires
        ready@.len() == candidates@.len(),
    ensures
        r@ == (match first_complete(ready@) {
            Some(i) => candidates@[i]@,
            None => requested_model_dir@,
        }),
{
    match first_complete_exec(ready) {
        Some(i) => candidates[i].clone(),
        None => lit(requested_model_dir),
    }
}

// ---------------------------------------------------------------------------
// Qwen3-ASR layout
// ---------------------------------------------------------------------------

/// The files of the Qwen3-ASR ONNX pipeline in one directory.
#[derive(Debug, Clone)]
pub struct DirectMlQwenCandidate {
    pub conv_frontend: String,
    pub encoder: String,
    pub decoder: String,
    pub tokenizer_dir: String,
}

pub fn qwen_candidate_for_dir(model_dir: &str) -> (r: DirectMlQwenCandidate)
    ensures
        r.conv_frontend@ == join(model_dir@, "conv_frontend.onnx"@),
        r.encoder@ == join(model_dir@, "encoder.int8.onnx"@),
        r.decoder@ == join(model_dir@, "decoder.int8.onnx"@),
        r.tokenizer_dir@ == join(model_dir@, "tokenizer"@),
{
    DirectMlQwenCandidate {
        conv_frontend: join_exec(model_dir, "conv_frontend.onnx"),
        encoder: join_exec(model_dir, "encoder.int8.onnx"),
        decoder: join_exec(model_dir, "decoder.int8.onnx"),
        tokenizer_dir: join_exec(model_dir, "tokenizer"),
    }
}

/// The files a Qwen3-ASR directory needs, by the label reported when one is
/// missing, in the order they are checked.
pub open spec fn qwen_required_labels() -> Seq<Seq<char>> {
    seq![
        "conv_frontend.onnx"@,
        "encoder.int8.onnx"@,
        "decoder.int8.onnx"@,
        "tokenizer/merges.txt"@,
        "tokenizer/tokenizer_config.json"@,
        "tokenizer/vocab.json"@,
    ]
}

/// The paths checked for those labels, in the same order.
pub fn qwen_required_paths(candidate: &DirectMlQwenCandidate) -> (r: Vec<String>)
    ensures
        views(r@) == seq![
            candidate.conv_frontend@,
            candidate.encoder@,
            candidate.decoder@,
            join(candidate.tokenizer_dir@, "merges.txt"@),
            join(candidate.tokenizer_dir@, "tokenizer_config.json"@),
            join(candidate.tokenizer_dir@, "vocab.json"@),
        ],
{
    let mut r: Vec<String> = Vec::new();
    r.push(candidate.conv_frontend.clone());
    r.push(candidate.encoder.clone());
    r.push(candidate.decoder.clone());
    r.push(join_exec(candidate.tokenizer_dir.as_str(), "merges.txt"));
    r.push(join_exec(candidate.tokenizer_dir.as_str(), "tokenizer_config.json"));
    r.push(join_exec(candidate.tokenizer_dir.as_str(), "vocab.json"));
    assert(views(r@) =~= seq![
        candidate.conv_frontend@,
        candidate.encoder@,
        candidate.decoder@,
        join(candidate.tokenizer_dir@, "merges.txt"@),
        join(candidate.tokenizer_dir@, "tokenizer_config.json"@),
        join(candidate.tokenizer_dir@, "vocab.json"@),
    ]);
    r
}

/// The labels whose file does not exist (`exists[i]` for label `i`), in order.
pub open spec fn missing_labels(labels: Seq<Seq<char>>, exists: Seq<bool>) -> Seq<Seq<char>>
    decreases labels.len(),
{
    if labels.len() == 0 {
        Seq::empty()
    } else {
        let prev = missing_labels(labels.drop_last(), exists);
        if exists[labels.len() - 1] {
            prev
        } else {
            prev.push(labels.last())
        }
    }
}

pub fn qwen_missing_files(exists: &[bool]) -> (r: Vec<String>)
    requires
        exists@.len() == 6,
    ensures
        views(r@) == missing_labels(qwen_required_labels(), exists@),
{
    let mut labels: Vec<String> = Vec::new();
    labels.push(lit("conv_frontend.onnx"));
    labels.push(lit("encoder.int8.onnx"));
    labels.push(lit("decoder.int8.onnx"));
    labels.push(lit("tokenizer/merges.txt"));
    labels.push(lit("tokenizer/tokenizer_config.json"));
    labels.push(lit("tokenizer/vocab.json"));
    assert(views(labels@) =~= qwen_required_labels());
    assert(labels@.len() == 6);
    let mut missing: Vec<String> = Vec::new();
    let mut i: usize = 0;
    while i < 6
        invariant
            0 <= i <= 6,
            exists@.len() == 6,
            labels@.len() == 6,
            views(labels@) == qwen_required_labels(),
            views(missing@) == missing_labels(qwen_required_labels().take(i as int), exists@),
        decreases 6 - i,
    {
        assert(qwen_required_labels().take(i + 1).drop_last() =~= qwen_required_labels().take(
            i as int,
        ));
        if !exists[i] {
            let ghost before = views(missing@);
            assert(views(labels@)[i as int] == labels@[i as int]@);
            missing.push(labels[i].clone());
            assert(views(missing@) =~= before.push(qwen_required_labels()[i as int]));
        }
        i += 1;
    }
    assert(qwen_required_labels().take(6) =~= qwen_required_labels());
    missing
}

/// A directory is taken for Qwen3-ASR when it is named `qwen3-asr-0.6b` (in
/// any ASCII case) or has every file the pipeline needs.
pub open spec fn qwen_layout(model_path: Seq<char>, missing_count: nat) -> bool {
    (match file_name(model_path) {
        Some(name) => lower_ascii_seq(name) == lower_ascii_seq("qwen3-asr-0.6b"@),
        None => false,
    }) || missing_count == 0
}

pub fn is_qwen_model_layout(model_path: &str, missing_files: &[String]) -> (r: bool)
    ensures
        r == qwen_layout(model_path@, missing_files@.len()),
{
    let dir_name_matches = match file_name_exec(model_path) {
        Some(name) => eq_ignore_ascii_case(name.as_str(), "qwen3-asr-0.6b"),
        None => false,
    };
    dir_name_matches || missing_files.len() == 0
}

// ---------------------------------------------------------------------------
// The probe's decisions
// ---------------------------------------------------------------------------

/// What the probe knows of the chosen directory before any session is made.
#[derive(Debug, Clone)]
pub struct ProbeModelFacts {
    pub model_id: Option<String>,
    pub model_name: Option<String>,
    pub is_sensevoice: bool,
    pub is_qwen: bool,
    pub missing_files: Vec<String>,
    pub model_ready: bool,
}

pub open spec fn opt_seq(o: Option<String>) -> Option<Seq<char>> {
    match o {
        Some(s) => Some(s@),
        None => None,
    }
}

/// The model family and the missing files of a probed directory.
/// `engine_model` is the `(model_id, model_name)` of its `engine.json` when
/// that reads; `sensevoice_files` tells whether `engine.json`,
/// `model.int8.onnx` and `tokens.txt` exist.
pub open spec fn probe_missing(
    model_id: Option<Seq<char>>,
    engine_read: bool,
    model_dir_exists: bool,
    sensevoice_files: Seq<bool>,
    qwen_missing: Seq<Seq<char>>,
) -> Seq<Seq<char>> {
    (if model_dir_exists {
        Seq::empty()
    } else {
        seq!["model directory"@]
    }) + if model_id == Some("sensevoice-small"@) {
        missing_labels(seq!["engine.json"@, "model.int8.onnx"@, "tokens.txt"@], sensevoice_files)
    } else if model_id == Some(qwen_model_id()) {
        qwen_missing
    } else if !engine_read {
        seq!["engine.json"@]
    } else {
        seq!["unsupported DirectML model family"@]
    }
}

pub open spec fn qwen_model_id() -> Seq<char> {
    "qwen3-asr-0.6b"@
}

pub fn directml_probe_model_facts(
    engine_model: Option<(String, String)>,
    qwen_layout_detected: bool,
    model_dir_exists: bool,
    sensevoice_files: &[bool],
    qwen_missing: &Vec<String>,
) -> (r: ProbeModelFacts)
    requires
        sensevoice_files@.len() == 3,
    ensures
        opt_seq(r.model_id) == (match engine_model {
            Some(e) => Some(e.0@),
            None => if qwen_layout_detected {
                Some(qwen_model_id())
            } else {
                None
            },
        }),
        opt_seq(r.model_name) == (match engine_model {
            Some(e) => Some(e.1@),
            None => if qwen_layout_detected {
                Some("Qwen3-ASR 0.6B"@)
            } else {
                None
            },
        }),
        r.is_sensevoice == (opt_seq(r.model_id) == Some("sensevoice-small"@)),
        r.is_qwen == (opt_seq(r.model_id) == Some(qwen_model_id())),
        views(r.missing_files@) == probe_missing(
            opt_seq(r.model_id),
            engine_model is Some,
            model_dir_exists,
            sensevoice_files@,
            views(qwen_missing@),
        ),
        r.model_ready == ((r.is_sensevoice || r.is_qwen) && r.missing_files@.len() == 0),
{
    let engine_read = engine_model.is_some();
    let (model_id, model_name) = match engine_model {
        Some((id, name)) => (Some(id), Some(name)),
        None => if qwen_layout_detected {
            (Some(lit("qwen3-asr-0.6b")), Some(lit("Qwen3-ASR 0.6B")))
        } else {
            (None, None)
        },
    };
    let is_sensevoice = match &model_id {
        Some(id) => str_eq(id.as_str(), "sensevoice-small"),
        None => false,
    };
    let is_qwen = match &model_id {
        Some(id) => str_eq(id.as_str(), "qwen3-asr-0.6b"),
        None => false,
    };
    let mut missing: Vec<String> = Vec::new();
    if !model_dir_exists {
        missing.push(lit("model directory"));
    }
    let ghost head = views(missing@);
    if is_sensevoice {
        let labels = ["engine.json", "model.int8.onnx", "tokens.txt"];
        let mut i: usize = 0;
        while i < 3
            invariant
                0 <= i <= 3,
                sensevoice_files@.len() == 3,
                labels@.map_values(|l: &str| l@) == seq![
                    "engine.json"@,
                    "model.int8.onnx"@,
                    "tokens.txt"@,
                ],
                views(missing@) == head + missing_labels(
                    seq!["engine.json"@, "model.int8.onnx"@, "tokens.txt"@].take(i as int),
                    sensevoice_files@,
                ),
            decreases 3 - i,
        {
            let ghost all = seq!["engine.json"@, "model.int8.onnx"@, "tokens.txt"@];
            assert(all.take(i + 1).drop_last() =~= all.take(i as int));
            assert(labels@[i as int]@ == all[i as int]);
            if !sensevoice_files[i] {
                let ghost before = views(missing@);
                missing.push(lit(labels[i]));
                assert(views(missing@) =~= before.push(all[i as int]));
            }
            i += 1;
        }
        assert(seq!["engine.json"@, "model.int8.onnx"@, "tokens.txt"@].take(3) =~= seq![
            "engine.json"@,
            "model.int8.onnx"@,
            "tokens.txt"@,
        ]);
    } else if is_qwen {
        let mut i: usize = 0;
        while i < qwen_missing.len()
            invariant
                0 <= i <= qwen_missing@.len(),
                views(missing@) == head + views(qwen_missing@).take(i as int),
            decreases qwen_missing@.len() - i,
        {
            let ghost before = views(missing@);
            missing.push(qwen_missing[i].clone());
            assert(views(missing@) =~= before.push(qwen_missing@[i as int]@));
            assert(views(qwen_missing@).take(i + 1) =~= views(qwen_missing@).take(i as int).push(
                qwen_missing@[i as int]@,
            ));
            i += 1;
        }
        assert(views(qwen_missing@).take(qwen_missing@.len() as int) =~= views(qwen_missing@));
    } else if !engine_read {
        missing.push(lit("engine.json"));
        assert(views(missing@) =~= head + seq!["engine.json"@]);
    } else {
        missing.push(lit("unsupported DirectML model family"));
        assert(views(missing@) =~= head + seq!["unsupported DirectML model family"@]);
    }
    assert(head =~= (if model_dir_exists {
        Seq::<Seq<char>>::empty()
    } else {
        seq!["model directory"@]
    }));
    let model_ready = (is_sensevoice || is_qwen) && missing.len() == 0;
    ProbeModelFacts { model_id, model_name, is_sensevoice, is_qwen, missing_files: missing, model_ready }
}

/// Whether the split SenseVoice sessions are tried, and otherwise why not.
pub fn split_session_skip_reason(
    is_sensevoice: bool,
    split_files_complete: bool,
    provider_ready: bool,
) -> (r: Option<String>)
    ensures
        (is_sensevoice && split_files_complete && provider_ready) <==> r is None,
        r matches Some(m) ==> m@ == (if is_sensevoice && !provider_ready {
            "Split SenseVoice session check skipped because the DirectML provider probe failed."@
        } else if is_sensevoice {
            "Split SenseVoice files are incomplete."@
        } else {
            "Split SenseVoice check skipped because the selected model is not SenseVoiceSmall."@
        }),
{
    if is_sensevoice && split_files_complete && provider_ready {
        None
    } else if is_sensevoice && !provider_ready {
        Some(
            lit(
                "Split SenseVoice session check skipped because the DirectML provider probe failed.",
            ),
        )
    } else if is_sensevoice {
        Some(lit("Split SenseVoice files are incomplete."))
    } else {
        Some(
            lit(
                "Split SenseVoice check skipped because the selected model is not SenseVoiceSmall.",
            ),
        )
    }
}

/// The model session the probe creates next.
#[derive(PartialEq, Eq, Structural, Debug, Clone, Copy)]
pub enum ModelSessionStep {
    /// The Qwen3-ASR encoder and decoder chain.
    QwenChain,
    /// The split SenseVoice sessions already created stand for the model.
    ReuseSplit,
    /// The single SenseVoice ONNX model.
    SenseVoiceModel,
    /// Skipped because the provider probe failed.
    SkipProviderFailed,
    /// Skipped because the model is not ready.
    SkipIncomplete,
}

pub fn model_session_step(
    is_qwen: bool,
    is_sensevoice: bool,
    model_ready: bool,
    provider_ready: bool,
    split_session_ready: bool,
) -> (r: ModelSessionStep)
    ensures
        r == (if is_qwen && model_ready && provider_ready {
            ModelSessionStep::QwenChain
        } else if split_session_ready {
            ModelSessionStep::ReuseSplit
        } else if is_sensevoice && model_ready && provider_ready {
            ModelSessionStep::SenseVoiceModel
        } else if !provider_ready {
            ModelSessionStep::SkipProviderFailed
        } else {
            ModelSessionStep::SkipIncomplete
        }),
{
    if is_qwen && model_ready && provider_ready {
        ModelSessionStep::QwenChain
    } else if split_session_ready {
        ModelSessionStep::ReuseSplit
    } else if is_sensevoice && model_ready && provider_ready {
        ModelSessionStep::SenseVoiceModel
    } else if !provider_ready {
        ModelSessionStep::SkipProviderFailed
    } else {
        ModelSessionStep::SkipIncomplete
    }
}

/// Why a skipped model session was skipped.
pub fn model_session_skip_message(step: ModelSessionStep) -> (r: Option<String>)
    ensures
        step == ModelSessionStep::SkipProviderFailed ==> (r matches Some(m) && m@
            == "DirectML session check skipped because the provider probe failed."@),
        step == ModelSessionStep::SkipIncomplete ==> (r matches Some(m) && m@
            == "DirectML session check skipped because prerequisites are incomplete."@),
        step != ModelSessionStep::SkipProviderFailed && step != ModelSessionStep::SkipIncomplete
            ==> r is None,
{
    match step {
        ModelSessionStep::SkipProviderFailed => Some(
            lit("DirectML session check skipped because the provider probe failed."),
        ),
        ModelSessionStep::SkipIncomplete => Some(
            lit("DirectML session check skipped because prerequisites are incomplete."),
        ),
        _ => None,
    }
}

/// The probe's summary line: the model session's own message when it ran;
/// else the provider's failure; else the missing files; else the lack of a
/// GPU; else the session's failure.
pub fn directml_probe_message(
    session_message: Option<String>,
    provider_error: Option<String>,
    missing_files: &Vec<String>,
    directml_candidate: bool,
    session_error: Option<String>,
) -> (r: String)
    ensures
        r@ == (match session_message {
            Some(m) => m@,
            None => match provider_error {
                Some(e) => e@,
                None => if missing_files@.len() > 0 {
                    "DirectML model files are incomplete: "@ + join_text(
                        views(missing_files@),
                        ", "@,
                    )
                } else if !directml_candidate {
                    "No usable Windows GPU adapter was detected by the DirectML probe."@
                } else {
                    match session_error {
                        Some(e) => e@,
                        None => "DirectML model session check failed."@,
                    }
                },
            },
        }),
{
    match session_message {
        Some(m) => m,
        None => match provider_error {
            Some(e) => e,
            None => {
                if missing_files.len() > 0 {
                    let mut m = lit("DirectML model files are incomplete: ");
                    append_str(&mut m, join_strings(missing_files, ", ").as_str());
                    m
                } else if !directml_candidate {
                    lit("No usable Windows GPU adapter was detected by the DirectML probe.")
                } else {
                    match session_error {
                        Some(e) => e,
                        None => lit("DirectML model session check failed."),
                    }
                }
            },
        },
    }
}

/// What the user should do next, from what the probe found.
pub open spec fn next_step_text(
    is_qwen: bool,
    session_ready: bool,
    provider_ready: bool,
    model_ready: bool,
    split_session_ready: bool,
    split_model_ready: bool,
) -> Seq<char> {
    if is_qwen && session_ready {
        "DirectML Qwen3-ASR 0.6B chain loads, but keep the stable Sherpa path until feature parity, decoded text quality, and decoder speed are proven on real samples."@
    } else if is_qwen && provider_ready && model_ready {
        "DirectML provider works, but Qwen chain smoke failed; inspect decoder cache shapes or unsupported operators."@
    } else if split_session_ready {
        "DirectML SenseVoice is ready for experimental transcription; compare timing and output quality with CPU before making it the default path."@
    } else if session_ready {
        "DirectML SenseVoice is ready for experimental transcription; run a real audio/video transcription to compare timing and output quality."@
    } else if provider_ready && split_model_ready {
        "DirectML provider works, but split SenseVoice session creation failed; inspect unsupported operators or try another ONNX Runtime version."@
    } else if provider_ready && model_ready {
        "DirectML provider works, but model session creation failed; use a DirectML-friendly model before enabling transcription."@
    } else if provider_ready {
        "DirectML provider works; select a supported SenseVoiceSmall or Qwen3-ASR 0.6B model directory before probing model acceleration."@
    } else {
        "Keep using the stable CPU/Sherpa path; DirectML provider session is not reliable on this machine."@
    }
}

pub fn directml_probe_next_step(
    is_qwen: bool,
    session_ready: bool,
    provider_ready: bool,
    model_ready: bool,
    split_session_ready: bool,
    split_model_ready: bool,
) -> (r: String)
    ensures
        r@ == next_step_text(
            is_qwen,
            session_ready,
            provider_ready,
            model_ready,
            split_session_ready,
            split_model_ready,
        ),
{
    if is_qwen && session_ready {
        lit(
            "DirectML Qwen3-ASR 0.6B chain loads, but keep the stable Sherpa path until feature parity, decoded text quality, and decoder speed are proven on real samples.",
        )
    } else if is_qwen && provider_ready && model_ready {
        lit(
            "DirectML provider works, but Qwen chain smoke failed; inspect decoder cache shapes or unsupported operators.",
        )
    } else if split_session_ready {
        lit(
            "DirectML SenseVoice is ready for experimental transcription; compare timing and output quality with CPU before making it the default path.",
        )
    } else if session_ready {
        lit(
            "DirectML SenseVoice is ready for experimental transcription; run a real audio/video transcription to compare timing and output quality.",
        )
    } else if provider_ready && split_model_ready {
        lit(
            "DirectML provider works, but split SenseVoice session creation failed; inspect unsupported operators or try another ONNX Runtime version.",
        )
    } else if provider_ready && model_ready {
        lit(
            "DirectML provider works, but model session creation failed; use a DirectML-friendly model before enabling transcription.",
        )
    } else if provider_ready {
        lit(
            "DirectML provider works; select a supported SenseVoiceSmall or Qwen3-ASR 0.6B model directory before probing model acceleration.",
        )
    } else {
        lit(
            "Keep using the stable CPU/Sherpa path; DirectML provider session is not reliable on this machine.",
        )
    }
}

} // verus!
