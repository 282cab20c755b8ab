//! Decisions around a transcription job: checking an installed model, which
//! pipeline runs, how chunk results are gathered, and which files are written.
use vstd::prelude::*;
use crate::audio::{ensure_relative_file_path, relative_inside};
use crate::config::{HotwordRule, UserSettings};
use crate::engine::InstalledEngineConfig;
use crate::hotwords::{apply_hotwords, hotwords_applied, rule_views};
use crate::paths::{file_name, file_name_exec, file_stem, file_stem_exec, join, join_exec};
use crate::subtitles::{kept_texts, transcript_text_from_chunks};
use crate::text::{
    append_str, decimal, decimal_string, decimal_string_u128, is_blank, join as join_text,
    join_strings, lit, str_eq, trim, trim_str, views,
};

verus! {

broadcast use vstd::string::group_string_axioms;

// ---------------------------------------------------------------------------
// Checking an installed model
// ---------------------------------------------------------------------------

/// Whether a model directory can be used, the model's name and what to tell
/// the user.
#[derive(Debug, Clone)]
pub struct ModelValidationResult {
    pub valid: bool,
    pub model_name: String,
    pub message: String,
}

/// The checks made before the model's `engine.json` is read: a directory is
/// configured, exists, and holds `engine.json`. `dir_exists` and
/// `engine_json_exists` are about the trimmed path. `None` when all pass.
pub fn model_dir_precheck(model_dir: &str, dir_exists: bool, engine_json_exists: bool) -> (r:
    Option<ModelValidationResult>)
    ensures
        trim(model_dir@).len() == 0 ==> (r matches Some(v) && !v.valid && v.model_name@.len() == 0
            && v.message@ == "No offline model has been configured."@),
        trim(model_dir@).len() > 0 && !dir_exists ==> (r matches Some(v) && !v.valid
            && v.model_name@.len() == 0 && v.message@
            == "The model directory does not exist. Download it again or select another model directory."@),
        trim(model_dir@).len() > 0 && dir_exists && !engine_json_exists ==> (r matches Some(v)
            && !v.valid && v.model_name@.len() == 0 && v.message@
            == "engine.json was not found in the model directory. Use one-click download in Settings."@),
        trim(model_dir@).len() > 0 && dir_exists && engine_json_exists ==> r is None,
{
    let invalid = |message: &str| -> (v: ModelValidationResult)
        ensures
            !v.valid && v.model_name@.len() == 0 && v.message@ == message@,
        { ModelValidationResult { valid: false, model_name: String::new(), message: lit(message) } };
    if is_blank(model_dir) {
        proof {
            crate::text::lemma_trim_empty(model_dir@);
        }
        return Some(invalid("No offline model has been configured."));
    }
    proof {
        crate::text::lemma_trim_empty(model_dir@);
    }
    if !dir_exists {
        return Some(
            invalid(
                "The model directory does not exist. Download it again or select another model directory.",
            ),
        );
    }
    if !engine_json_exists {
        return Some(
            invalid(
                "engine.json was not found in the model directory. Use one-click download in Settings.",
            ),
        );
    }
    None
}

/// The models a fresh install looks for, most preferred first.
pub open spec fn known_models() -> Seq<Seq<char>> {
    seq![
        "sensevoice-small"@,
        "qwen3-asr-0.6b"@,
        "sherpa-funasr-nano"@,
        "whisper-base"@,
        "sherpa-paraformer-zh"@,
        "sherpa-zipformer-zh"@,
    ]
}

/// `list` without the entries equal to `p`, in order.
pub open spec fn without(list: Seq<Seq<char>>, p: Seq<char>) -> Seq<Seq<char>>
    decreases list.len(),
{
    if list.len() == 0 {
        Seq::empty()
    } else {
        let rest = without(list.drop_last(), p);
        if list.last() == p {
            rest
        } else {
            rest.push(list.last())
        }
    }
}

proof fn lemma_without(list: Seq<Seq<char>>, p: Seq<char>)
    ensures
        forall|i: int| 0 <= i < without(list, p).len() ==> #[trigger] without(list, p)[i] != p,
        forall|i: int| 0 <= i < without(list, p).len() ==> list.contains(#[trigger] without(list, p)[i]),
        forall|m: Seq<char>| #[trigger] list.contains(m) && m != p ==> without(list, p).contains(m),
        (forall|i: int, j: int| 0 <= i < j < list.len() ==> #[trigger] list[i] != #[trigger] list[j])
            ==> (forall|i: int, j: int|
            0 <= i < j < without(list, p).len() ==> #[trigger] without(list, p)[i]
                != #[trigger] without(list, p)[j]),
    decreases list.len(),
{
    if list.len() > 0 {
        let init = list.drop_last();
        lemma_without(init, p);
        let w = without(list, p);
        let wi = without(init, p);
        assert forall|i: int| 0 <= i < w.len() implies list.contains(#[trigger] w[i]) by {
            if i < wi.len() {
                assert(w[i] == wi[i]);
                let k = choose|k: int| 0 <= k < init.len() && init[k] == wi[i];
                assert(list[k] == init[k]);
            } else {
                assert(w[i] == list.last());
                assert(list[list.len() - 1] == list.last());
            }
        }
        assert forall|m: Seq<char>| #[trigger] list.contains(m) && m != p implies w.contains(m) by {
            let k = choose|k: int| 0 <= k < list.len() && list[k] == m;
            if k < list.len() - 1 {
                assert(init[k] == m);
                assert(init.contains(m));
                let q = choose|q: int| 0 <= q < wi.len() && wi[q] == m;
                assert(w[q] == wi[q]);
            } else {
                assert(w[w.len() - 1] == m);
            }
        }
        if forall|i: int, j: int| 0 <= i < j < list.len() ==> #[trigger] list[i] != #[trigger] list[j] {
            assert forall|i: int, j: int| 0 <= i < j < init.len() implies #[trigger] init[i]
                != #[trigger] init[j] by {
                assert(init[i] == list[i] && init[j] == list[j]);
            }
            assert forall|i: int, j: int| 0 <= i < j < w.len() implies #[trigger] w[i]
                != #[trigger] w[j] by {
                if j < wi.len() {
                    assert(w[i] == wi[i] && w[j] == wi[j]);
                } else {
                    assert(w[j] == list.last());
                    assert(w[i] == wi[i]);
                    assert(init.contains(wi[i]));
                    let k = choose|k: int| 0 <= k < init.len() && init[k] == wi[i];
                    assert(list[k] == init[k]);
                    assert(list[list.len() - 1] == list.last());
                }
            }
        }
    }
}

/// Models are tried in order of preference: the preferred one first, then
/// every known model, and no model twice.
pub proof fn lemma_model_search_order(preferred: Seq<char>)
    ensures
        ({
            let r = seq![preferred] + without(known_models(), preferred);
            &&& r[0] == preferred
            &&& forall|m: Seq<char>| known_models().contains(m) ==> r.contains(m)
            &&& forall|i: int, j: int| 0 <= i < j < r.len() ==> #[trigger] r[i] != #[trigger] r[j]
        }),
{
    let k = known_models();
    reveal_strlit("sensevoice-small");
    reveal_strlit("qwen3-asr-0.6b");
    reveal_strlit("sherpa-funasr-nano");
    reveal_strlit("whisper-base");
    reveal_strlit("sherpa-paraformer-zh");
    reveal_strlit("sherpa-zipformer-zh");
    assert forall|i: int, j: int| 0 <= i < j < k.len() implies #[trigger] k[i] != #[trigger] k[j] by {
        if k[i] == k[j] {
            assert(k[i].len() == k[j].len());
            assert(k[i][0] == k[j][0]);
            assert(k[i][7] == k[j][7]);
        }
    }
    lemma_without(k, preferred);
    let w = without(k, preferred);
    let r = seq![preferred] + w;
    assert forall|m: Seq<char>| k.contains(m) implies r.contains(m) by {
        if m == preferred {
            assert(r[0] == m);
        } else {
            assert(w.contains(m));
            let q = choose|q: int| 0 <= q < w.len() && w[q] == m;
            assert(r[q + 1] == m);
        }
    }
    assert forall|i: int, j: int| 0 <= i < j < r.len() implies #[trigger] r[i] != #[trigger] r[j] by {
        if i == 0 {
            assert(r[j] == w[j - 1]);
        } else {
            assert(r[i] == w[i - 1] && r[j] == w[j - 1]);
        }
    }
}

/// The model directories, by name under the models directory, that are tried
/// before any other: the preferred model, then the known models in order of
/// preference, each once.
pub fn model_search_order(preferred_model_id: &str) -> (r: Vec<String>)
    ensures
        views(r@) == seq![preferred_model_id@] + without(known_models(), preferred_model_id@),
{
    let known: Vec<&str> = vec![
        "sensevoice-small",
        "qwen3-asr-0.6b",
        "sherpa-funasr-nano",
        "whisper-base",
        "sherpa-paraformer-zh",
        "sherpa-zipformer-zh",
    ];
    let ghost kv = known@.map_values(|s: &str| s@);
    assert(kv =~= known_models());
    let mut out: Vec<String> = Vec::new();
    out.push(lit(preferred_model_id));
    assert(kv.take(0) =~= Seq::<Seq<char>>::empty());
    assert(views(out@) =~= seq![preferred_model_id@] + without(kv.take(0), preferred_model_id@));
    let mut i: usize = 0;
    while i < known.len()
        invariant
            0 <= i <= known@.len(),
            kv == known@.map_values(|s: &str| s@),
            views(out@) == seq![preferred_model_id@] + without(kv.take(i as int), preferred_model_id@),
        decreases known@.len() - i,
    {
        assert(kv.take(i + 1).drop_last() =~= kv.take(i as int));
        assert(kv.take(i + 1).last() == known@[i as int]@);
        if !str_eq(known[i], preferred_model_id) {
            let ghost before = views(out@);
            out.push(lit(known[i]));
            assert(views(out@) =~= before.push(known@[i as int]@));
        }
        i += 1;
    }
    assert(kv.take(known@.len() as int) =~= kv);
    out
}

/// The id an installed model is known by: the `model_id` of its
/// `engine.json`, or, where that is blank, the name of its directory.
pub fn installed_model_id(engine_model_id: &str, model_dir: &str) -> (r: Option<String>)
    ensures
        trim(engine_model_id@).len() > 0 ==> (r matches Some(id) && id@ == engine_model_id@),
        trim(engine_model_id@).len() == 0 ==> match (r, file_name(model_dir@)) {
            (Some(id), Some(n)) => id@ == n,
            (None, None) => true,
            _ => false,
        },
{
    if is_blank(engine_model_id) {
        file_name_exec(model_dir)
    } else {
        Some(lit(engine_model_id))
    }
}

pub open spec fn supported_engine(e: Seq<char>) -> bool {
    e == "sherpa-onnx"@ || e == "faster-whisper"@
}

/// The first required file that is unsafe or missing, and why.
pub open spec fn required_files_problem(files: Seq<Seq<char>>, present: Seq<bool>) -> Option<
    Seq<char>,
>
    decreases files.len(),
{
    if files.len() == 0 {
        None
    } else if !relative_inside(files[0]) {
        Some("Unsafe file path in model config: "@ + ("invalid model file path: "@ + files[0]))
    } else if !present[0] {
        Some("Missing model file: "@ + files[0] + ". Download and configure the model again."@)
    } else {
        required_files_problem(files.drop_first(), present.drop_first())
    }
}

/// The verdict on a parsed `engine.json`.
pub open spec fn engine_verdict(
    engine: Seq<char>,
    executable_exists: bool,
    files: Seq<Seq<char>>,
    present: Seq<bool>,
) -> (bool, Seq<char>) {
    if !supported_engine(engine) {
        (false, "Unsupported engine: "@ + engine)
    } else if !executable_exists {
        (
            false,
            "The "@ + (if engine == "faster-whisper"@ {
                "Faster-Whisper worker"@
            } else {
                "Sherpa-ONNX executable"@
            }) + " does not exist. Download and configure the model again."@,
        )
    } else {
        match required_files_problem(files, present) {
            Some(m) => (false, m),
            None => (true, "Model is ready."@),
        }
    }
}

proof fn lemma_required_files_ok(files: Seq<Seq<char>>, present: Seq<bool>)
    requires
        files.len() == present.len(),
    ensures
        required_files_problem(files, present) is None <==> forall|i: int|
            0 <= i < files.len() ==> relative_inside(#[trigger] files[i]) && present[i],
    decreases files.len(),
{
    if files.len() > 0 {
        lemma_required_files_ok(files.drop_first(), present.drop_first());
        if required_files_problem(files, present) is None {
            assert forall|i: int| 0 <= i < files.len() implies relative_inside(#[trigger] files[i])
                && present[i] by {
                if i > 0 {
                    assert(files.drop_first()[i - 1] == files[i]);
                    assert(present.drop_first()[i - 1] == present[i]);
                }
            }
        } else if relative_inside(files[0]) && present[0] {
            let k = choose|k: int|
                0 <= k < files.drop_first().len() && !(relative_inside(
                    #[trigger] files.drop_first()[k],
                ) && present.drop_first()[k]);
            assert(files.drop_first()[k] == files[k + 1]);
            assert(present.drop_first()[k] == present[k + 1]);
        }
    }
}

/// A model directory that holds an `engine.json` is ready exactly when that
/// file names a supported engine, its runtime executable exists, and every
/// required file is a relative path inside the directory and is present; a
/// ready directory is reported as "Model is ready.". (Before this,
/// `model_dir_precheck` gives no verdict exactly when the trimmed path is
/// not empty, exists, and holds `engine.json`.)
pub proof fn lemma_model_ready_iff(
    engine: Seq<char>,
    executable_exists: bool,
    files: Seq<Seq<char>>,
    present: Seq<bool>,
)
    requires
        files.len() == present.len(),
    ensures
        engine_verdict(engine, executable_exists, files, present).0 <==> (supported_engine(engine)
            && executable_exists && forall|i: int|
            0 <= i < files.len() ==> relative_inside(#[trigger] files[i]) && present[i]),
        engine_verdict(engine, executable_exists, files, present).0 ==> engine_verdict(
            engine,
            executable_exists,
            files,
            present,
        ).1 == "Model is ready."@,
{
    lemma_required_files_ok(files, present);
    let v = engine_verdict(engine, executable_exists, files, present);
    if supported_engine(engine) && executable_exists {
        assert(v.0 == (required_files_problem(files, present) is None));
    } else {
        assert(!v.0);
    }
}

/// Checks a parsed `engine.json`: a supported engine, an existing runtime
/// executable, and every required file safe and present. `required_present[i]`
/// tells whether `required_files[i]` exists in the model directory.
pub fn validate_installed_engine(
    engine: &InstalledEngineConfig,
    executable_exists: bool,
    required_present: &[bool],
) -> (r: ModelValidationResult)
    requires
        required_present@.len() == engine.required_files@.len(),
    ensures
        r.model_name@ == engine.model_name@,
        (r.valid, r.message@) == engine_verdict(
            engine.engine@,
            executable_exists,
            views(engine.required_files@),
            required_present@,
        ),
{
    let name = engine.model_name.clone();
    if !(str_eq(engine.engine.as_str(), "sherpa-onnx") || str_eq(
        engine.engine.as_str(),
        "faster-whisper",
    )) {
        let mut m = lit("Unsupported engine: ");
        append_str(&mut m, engine.engine.as_str());
        return ModelValidationResult { valid: false, model_name: name, message: m };
    }
    if !executable_exists {
        let mut m = lit("The ");
        if str_eq(engine.engine.as_str(), "faster-whisper") {
            append_str(&mut m, "Faster-Whisper worker");
        } else {
            append_str(&mut m, "Sherpa-ONNX executable");
        }
        append_str(&mut m, " does not exist. Download and configure the model again.");
        return ModelValidationResult { valid: false, model_name: name, message: m };
    }
    let ghost files = views(engine.required_files@);
    assert(files.skip(0) =~= files);
    assert(required_present@.skip(0) =~= required_present@);
    let mut i: usize = 0;
    while i < engine.required_files.len()
        invariant
            0 <= i <= engine.required_files@.len(),
            required_present@.len() == engine.required_files@.len(),
            files == views(engine.required_files@),
            name@ == engine.model_name@,
            supported_engine(engine.engine@),
            executable_exists,
            required_files_problem(files, required_present@) == required_files_problem(
                files.skip(i as int),
                required_present@.skip(i as int),
            ),
        decreases engine.required_files@.len() - i,
    {
        let file = &engine.required_files[i];
        assert(files.skip(i as int)[0] == file@);
        assert(files.skip(i as int).drop_first() =~= files.skip(i + 1));
        assert(required_present@.skip(i as int).drop_first() =~= required_present@.skip(i + 1));
        assert(required_present@.skip(i as int)[0] == required_present@[i as int]);
        match ensure_relative_file_path(file.as_str()) {
            Err(e) => {
                let mut m = lit("Unsafe file path in model config: ");
                append_str(&mut m, e.as_str());
                return ModelValidationResult { valid: false, model_name: name, message: m };
            },
            Ok(_) => {},
        }
        if !required_present[i] {
            let mut m = lit("Missing model file: ");
            append_str(&mut m, file.as_str());
            append_str(&mut m, ". Download and configure the model again.");
            return ModelValidationResult { valid: false, model_name: name, message: m };
        }
        i += 1;
    }
    assert(files.skip(files.len() as int) =~= Seq::<Seq<char>>::empty());
    ModelValidationResult { valid: true, model_name: name, message: lit("Model is ready.") }
}

/// The settings pointed at an installed model. When the configured model
/// directory is not blank and validates (`configured_valid`, about its trimmed
/// path), the model found there (`from_configured`: id and directory) is
/// taken, or the settings stay as they are when none is found; otherwise a
/// model discovered in the app's model directory (`discovered`) is taken,
/// if there is one. Only the selected model's id and directory change.
pub fn bind_installed_model(
    settings: UserSettings,
    configured_valid: bool,
    from_configured: Option<(String, String)>,
    discovered: Option<(String, String)>,
) -> (r: UserSettings)
    ensures
        ({
            let chosen = if trim(settings.model_dir@).len() > 0 && configured_valid {
                from_configured
            } else {
                discovered
            };
            match chosen {
                Some((id, dir)) => r == (UserSettings {
                    selected_model_id: id,
                    model_dir: dir,
                    ..settings
                }),
                None => r == settings,
            }
        }),
{
    let chosen = if !is_blank(settings.model_dir.as_str()) && configured_valid {
        from_configured
    } else {
        discovered
    };
    match chosen {
        Some((id, dir)) => UserSettings { selected_model_id: id, model_dir: dir, ..settings },
        None => settings,
    }
}

// ---------------------------------------------------------------------------
// Choosing the pipeline
// ---------------------------------------------------------------------------

/// The pipeline a transcription job runs.
#[derive(PartialEq, Eq, Structural, Debug, Clone, Copy)]
pub enum TranscriptionRoute {
    /// The Faster-Whisper worker.
    FasterWhisper,
    /// The experimental DirectML SenseVoice pipeline (CPU Sherpa if it fails).
    DirectMlSenseVoice,
    /// Sherpa-ONNX on the CPU.
    SherpaCpu,
}

/// Faster-Whisper engines use their worker; DirectML is tried for the models
/// it supports; everything else runs Sherpa on the CPU, with a notice when
/// DirectML was asked for a model it does not support.
pub fn transcription_route(engine: &InstalledEngineConfig, acceleration_mode: &str) -> (r: (
    TranscriptionRoute,
    Option<String>,
))
    ensures
        engine.engine@ == "faster-whisper"@ ==> r.0 == TranscriptionRoute::FasterWhisper
            && r.1 is None,
        engine.engine@ != "faster-whisper"@ && acceleration_mode@ == "directml"@
            && engine.model_id@ == "sensevoice-small"@ ==> r.0
            == TranscriptionRoute::DirectMlSenseVoice && r.1 is None,
        engine.engine@ != "faster-whisper"@ && acceleration_mode@ == "directml"@
            && engine.model_id@ != "sensevoice-small"@ ==> (r.0 == TranscriptionRoute::SherpaCpu
            && (r.1 matches Some(n) && n@ == "DirectML transcription is not enabled for "@
            + engine.model_name@ + "; using optimized Sherpa CPU."@)),
        engine.engine@ != "faster-whisper"@ && acceleration_mode@ != "directml"@ ==> r.0
            == TranscriptionRoute::SherpaCpu && r.1 is None,
{
    if str_eq(engine.engine.as_str(), "faster-whisper") {
        return (TranscriptionRoute::FasterWhisper, None);
    }
    if str_eq(acceleration_mode, "directml") {
        if crate::engine::directml_transcription_supported_for_model(engine) {
            return (TranscriptionRoute::DirectMlSenseVoice, None);
        }
        let mut n = lit("DirectML transcription is not enabled for ");
        append_str(&mut n, engine.model_name.as_str());
        append_str(&mut n, "; using optimized Sherpa CPU.");
        return (TranscriptionRoute::SherpaCpu, Some(n));
    }
    (TranscriptionRoute::SherpaCpu, None)
}

/// The acceleration a finished job reports, and whether that was a fallback
/// from what was asked: Faster-Whisper reports `none` for a DirectML request,
/// DirectML reports itself, Sherpa reports `cpu`.
pub fn used_acceleration(route: TranscriptionRoute, acceleration_mode: &str) -> (r: (String, bool))
    ensures
        route == TranscriptionRoute::FasterWhisper ==> r.0@ == (if acceleration_mode@
            == "directml"@ {
            "none"@
        } else {
            acceleration_mode@
        }) && r.1 == (acceleration_mode@ == "directml"@),
        route == TranscriptionRoute::DirectMlSenseVoice ==> r.0@ == "directml"@ && !r.1,
        route == TranscriptionRoute::SherpaCpu ==> r.0@ == "cpu"@ && r.1 == (acceleration_mode@
            != "cpu"@),
{
    match route {
        TranscriptionRoute::FasterWhisper => {
            if str_eq(acceleration_mode, "directml") {
                (lit("none"), true)
            } else {
                (lit(acceleration_mode), false)
            }
        },
        TranscriptionRoute::DirectMlSenseVoice => (lit("directml"), false),
        TranscriptionRoute::SherpaCpu => (lit("cpu"), !str_eq(acceleration_mode, "cpu")),
    }
}

// ---------------------------------------------------------------------------
// Long audio
// ---------------------------------------------------------------------------

/// Workers for chunked transcription: the profile's count, at least one and
/// at most one per chunk.
pub open spec fn worker_count(chunk_workers: nat, total_segments: nat) -> nat {
    let w = if chunk_workers < 1 {
        1
    } else {
        chunk_workers
    };
    let t = if total_segments < 1 {
        1
    } else {
        total_segments
    };
    if w < t {
        w
    } else {
        t
    }
}

/// What the recogniser daemon answered is used when it is text that is not
/// blank; otherwise (an error, or only whitespace) the command-line
/// recogniser runs instead and `None` is returned.
pub fn daemon_transcript(answer: Result<String, String>) -> (r: Option<String>)
    ensures
        match answer {
            Ok(t) => if trim(t@).len() > 0 {
                r matches Some(u) && u@ == t@
            } else {
                r is None
            },
            Err(_) => r is None,
        },
{
    match answer {
        Ok(t) => {
            if is_blank(t.as_str()) {
                None
            } else {
                Some(t)
            }
        },
        Err(_) => None,
    }
}

pub fn chunk_worker_count(chunk_workers: usize, total_segments: usize) -> (r: usize)
    ensures
        r == worker_count(chunk_workers as nat, total_segments as nat),
{
    let w = if chunk_workers < 1 {
        1
    } else {
        chunk_workers
    };
    let t = if total_segments < 1 {
        1
    } else {
        total_segments
    };
    if w < t {
        w
    } else {
        t
    }
}

pub open spec fn opt_result_view(r: Option<Result<String, String>>) -> Option<
    Result<Seq<char>, Seq<char>>,
> {
    match r {
        Some(Ok(t)) => Some(Ok(t@)),
        Some(Err(e)) => Some(Err(e@)),
        None => None,
    }
}

/// The recognized chunks (index and trimmed text) and the problems, chunk by
/// chunk.
pub open spec fn chunk_outcomes(rs: Seq<Option<Result<Seq<char>, Seq<char>>>>) -> (
    Seq<(int, Seq<char>)>,
    Seq<Seq<char>>,
)
    decreases rs.len(),
{
    if rs.len() == 0 {
        (Seq::empty(), Seq::empty())
    } else {
        let prev = chunk_outcomes(rs.drop_last());
        let n = rs.len() as nat;
        match rs.last() {
            Some(Ok(t)) => if trim(t).len() > 0 {
                (prev.0.push(((n - 1) as int, trim(t))), prev.1)
            } else {
                (prev.0, prev.1.push("Chunk "@ + decimal(n) + " returned no recognized text"@))
            },
            Some(Err(e)) => (prev.0, prev.1.push("Chunk "@ + decimal(n) + " failed: "@ + e)),
            None => (prev.0, prev.1.push("Chunk "@ + decimal(n) + " returned no result"@)),
        }
    }
}

pub open spec fn indexed_views(v: Seq<(usize, String)>) -> Seq<(int, Seq<char>)> {
    v.map_values(|p: (usize, String)| (p.0 as int, p.1@))
}

/// The outcome of a chunked transcription: the chunks that produced text, in
/// order; else every chunk's problem; else a note that nothing was parsed.
pub fn gather_chunk_transcripts(results: &Vec<Option<Result<String, String>>>) -> (r: Result<
    Vec<(usize, String)>,
    String,
>)
    requires
        results@.len() < usize::MAX,
    ensures
        ({
            let o = chunk_outcomes(results@.map_values(|x: Option<Result<String, String>>| opt_result_view(x)));
            if o.0.len() > 0 {
                r matches Ok(v) && indexed_views(v@) == o.0
            } else if o.1.len() > 0 {
                r matches Err(m) && m@ == "Long-audio chunk transcription failed: "@ + join_text(
                    o.1,
                    "; "@,
                )
            } else {
                r matches Err(m) && m@
                    == "Sherpa ran, but no transcription text was parsed after long-audio chunking."@
            }
        }),
{
    let ghost rv = results@.map_values(|x: Option<Result<String, String>>| opt_result_view(x));
    let mut chunks: Vec<(usize, String)> = Vec::new();
    let mut errors: Vec<String> = Vec::new();
    let mut i: usize = 0;
    while i < results.len()
        invariant
            0 <= i <= results@.len(),
            results@.len() < usize::MAX,
            rv == results@.map_values(|x: Option<Result<String, String>>| opt_result_view(x)),
            (indexed_views(chunks@), views(errors@)) == chunk_outcomes(rv.take(i as int)),
        decreases results@.len() - i,
    {
        assert(rv.take(i + 1).drop_last() =~= rv.take(i as int));
        assert(rv.take(i + 1).last() == opt_result_view(results@[i as int]));
        let number = decimal_string((i + 1) as u64);
        let ghost before_c = indexed_views(chunks@);
        let ghost before_e = views(errors@);
        match &results[i] {
            Some(Ok(text)) => {
                let t = trim_str(text.as_str());
                if t.as_str().unicode_len() > 0 {
                    chunks.push((i, t));
                    assert(indexed_views(chunks@) =~= before_c.push((i as int, t@)));
                } else {
                    let mut m = lit("Chunk ");
                    append_str(&mut m, number.as_str());
                    append_str(&mut m, " returned no recognized text");
                    errors.push(m);
                    assert(views(errors@) =~= before_e.push(m@));
                }
            },
            Some(Err(e)) => {
                let mut m = lit("Chunk ");
                append_str(&mut m, number.as_str());
                append_str(&mut m, " failed: ");
                append_str(&mut m, e.as_str());
                errors.push(m);
                assert(views(errors@) =~= before_e.push(m@));
            },
            None => {
                let mut m = lit("Chunk ");
                append_str(&mut m, number.as_str());
                append_str(&mut m, " returned no result");
                errors.push(m);
                assert(views(errors@) =~= before_e.push(m@));
            },
        }
        i += 1;
    }
    assert(rv.take(results@.len() as int) =~= rv);
    if chunks.len() > 0 {
        return Ok(chunks);
    }
    if errors.len() > 0 {
        let mut m = lit("Long-audio chunk transcription failed: ");
        append_str(&mut m, join_strings(&errors, "; ").as_str());
        return Err(m);
    }
    Err(lit("Sherpa ran, but no transcription text was parsed after long-audio chunking."))
}

/// Each chunk's text with the hotwords applied, and the transcript they make
/// (cleaned chunk texts, blank ones left out, one per line).
pub fn hotword_chunk_texts(chunk_texts: &Vec<String>, hotwords: &[HotwordRule]) -> (r: (
    Vec<String>,
    String,
))
    ensures
        views(r.0@) == views(chunk_texts@).map_values(
            |t: Seq<char>| hotwords_applied(t, rule_views(hotwords@)),
        ),
        r.1@ == join_text(kept_texts(views(r.0@)), seq!['\n']),
{
    let mut out: Vec<String> = Vec::new();
    let mut i: usize = 0;
    while i < chunk_texts.len()
        invariant
            0 <= i <= chunk_texts@.len(),
            views(out@) == views(chunk_texts@).take(i as int).map_values(
                |t: Seq<char>| hotwords_applied(t, rule_views(hotwords@)),
            ),
        decreases chunk_texts@.len() - i,
    {
        let applied = apply_hotwords(chunk_texts[i].as_str(), hotwords);
        let ghost before = views(out@);
        out.push(applied);
        assert(views(out@) =~= before.push(applied@));
        assert(views(chunk_texts@).take(i + 1) =~= views(chunk_texts@).take(i as int).push(
            chunk_texts@[i as int]@,
        ));
        assert(views(out@) =~= views(chunk_texts@).take(i + 1).map_values(
            |t: Seq<char>| hotwords_applied(t, rule_views(hotwords@)),
        ));
        i += 1;
    }
    assert(views(chunk_texts@).take(chunk_texts@.len() as int) =~= views(chunk_texts@));
    let text = transcript_text_from_chunks(out.as_slice());
    (out, text)
}

// ---------------------------------------------------------------------------
// Output files
// ---------------------------------------------------------------------------

/// One written transcript file: its format key, its label and its path.
#[derive(Debug, Clone)]
pub struct TranscriptionOutputFile {
    pub format: String,
    pub label: String,
    pub path: String,
}

pub open spec fn output_file_view(f: TranscriptionOutputFile) -> (Seq<char>, Seq<char>, Seq<char>) {
    (f.format@, f.label@, f.path@)
}

/// The five files of a transcript, in order: plain text, timeline text,
/// one-line timeline text, SRT and marker list, named after the source's
/// stem (or `transcript`) and the time suffix.
pub open spec fn output_files(dir: Seq<char>, source: Seq<char>, suffix: nat) -> Seq<
    (Seq<char>, Seq<char>, Seq<char>),
> {
    let base = (match file_stem(source) {
        Some(s) => s,
        None => "transcript"@,
    }) + seq!['-'] + decimal(suffix);
    seq![
        ("plainText"@, "Plain text"@, join(dir, base + ".txt"@)),
        ("timelineText"@, "Timeline TXT"@, join(dir, base + "-timeline.txt"@)),
        (
            "timelineTxt"@,
            "Timeline TXT one-line (UTF-8 BOM)"@,
            join(dir, base + "-timeline-txt.txt"@),
        ),
        ("srt"@, "SRT subtitles"@, join(dir, base + ".srt"@)),
        ("resolveMarkers"@, "DaVinci Resolve markers"@, join(dir, base + ".markers.edl"@)),
    ]
}

/// Which of the five files is the primary result for a preferred format.
pub open spec fn primary_index(format: Seq<char>) -> int {
    if format == "timelineText"@ {
        1
    } else if format == "timelineTxt"@ {
        2
    } else if format == "srt"@ {
        3
    } else if format == "resolveMarkers"@ {
        4
    } else {
        0
    }
}

fn output_file(format: &str, label: &str, dir: &str, base: &str, ending: &str) -> (r:
    TranscriptionOutputFile)
    ensures
        output_file_view(r) == (format@, label@, join(dir@, base@ + ending@)),
{
    let mut name = lit(base);
    append_str(&mut name, ending);
    TranscriptionOutputFile { format: lit(format), label: lit(label), path: join_exec(dir, name.as_str()) }
}

/// The files a transcript is written to, the primary one's path first:
/// `(primary path, all paths, files)`.
pub fn plan_transcription_outputs(
    output_dir: &str,
    preferred_format: &str,
    source_audio_path: &str,
    suffix: u128,
) -> (r: (String, Vec<String>, Vec<TranscriptionOutputFile>))
    ensures
        r.2@.map_values(|f: TranscriptionOutputFile| output_file_view(f)) == output_files(
            output_dir@,
            source_audio_path@,
            suffix as nat,
        ),
        views(r.1@) == r.2@.map_values(|f: TranscriptionOutputFile| f.path@),
        r.0@ == output_files(output_dir@, source_audio_path@, suffix as nat)[primary_index(
            preferred_format@,
        )].2,
{
    let mut base = match file_stem_exec(source_audio_path) {
        Some(s) => s,
        None => lit("transcript"),
    };
    let dash = lit("-");
    proof {
        reveal_strlit("-");
        assert(dash@ =~= seq!['-']);
    }
    append_str(&mut base, dash.as_str());
    append_str(&mut base, decimal_string_u128(suffix).as_str());
    let b = base.as_str();
    let mut files: Vec<TranscriptionOutputFile> = Vec::new();
    files.push(output_file("plainText", "Plain text", output_dir, b, ".txt"));
    files.push(output_file("timelineText", "Timeline TXT", output_dir, b, "-timeline.txt"));
    files.push(
        output_file(
            "timelineTxt",
            "Timeline TXT one-line (UTF-8 BOM)",
            output_dir,
            b,
            "-timeline-txt.txt",
        ),
    );
    files.push(output_file("srt", "SRT subtitles", output_dir, b, ".srt"));
    files.push(
        output_file("resolveMarkers", "DaVinci Resolve markers", output_dir, b, ".markers.edl"),
    );
    let ghost expected = output_files(output_dir@, source_audio_path@, suffix as nat);
    assert(files@.map_values(|f: TranscriptionOutputFile| output_file_view(f)) =~= expected);
    let mut paths: Vec<String> = Vec::new();
    let mut i: usize = 0;
    while i < files.len()
        invariant
            0 <= i <= files@.len(),
            views(paths@) == files@.take(i as int).map_values(|f: TranscriptionOutputFile| f.path@),
        decreases files@.len() - i,
    {
        let ghost before = views(paths@);
        paths.push(files[i].path.clone());
        assert(views(paths@) =~= before.push(files@[i as int].path@));
        assert(files@.take(i + 1).map_values(|f: TranscriptionOutputFile| f.path@) =~= files@.take(
            i as int,
        ).map_values(|f: TranscriptionOutputFile| f.path@).push(files@[i as int].path@));
        i += 1;
    }
    assert(files@.take(files@.len() as int) =~= files@);
    let index: usize = if str_eq(preferred_format, "timelineText") {
        1
    } else if str_eq(preferred_format, "timelineTxt") {
        2
    } else if str_eq(preferred_format, "srt") {
        3
    } else if str_eq(preferred_format, "resolveMarkers") {
        4
    } else {
        0
    };
    assert(output_file_view(files@[index as int]) == expected[index as int]);
    let primary = files[index].path.clone();
    (primary, paths, files)
}

} // verus!
