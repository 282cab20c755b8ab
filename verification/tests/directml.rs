use hi_voicer::paths::{file_name_exec, parent_exec, same_path_exec};
use hi_voicer::acceleration::{
    directml_adapters_from_powershell_json, is_directml_candidate_adapter, parse_u64,
    DirectMlAdapterInfo,
};
use hi_voicer::directml::{
    directml_probe_candidate_dirs, directml_split_sensevoice_candidate_dirs, is_qwen_model_layout,
    qwen_candidate_for_dir, qwen_missing_files, qwen_required_paths,
    select_directml_probe_model_dir, select_directml_split_sensevoice_candidate,
    split_sensevoice_candidate_for_dir, split_sensevoice_missing_files,
};
use hi_voicer::acceleration::parse_i64;
use hi_voicer::directml::{
    directml_probe_message, directml_probe_model_facts, directml_probe_next_step,
    model_session_skip_message, model_session_step, split_session_skip_reason, ModelSessionStep,
};

#[test]
fn directml_probe_candidates_include_app_sensevoice_model() {
    let app_models_dir = r"C:\Users\tester\AppData\Local\com.local.hivoicer\models".to_string();
    let candidates =
        directml_probe_candidate_dirs(r"C:\Portable\Hi-Voicer\models", Some(app_models_dir.clone()));

    assert!(candidates.contains(&format!(r"{app_models_dir}\sensevoice-small")));
}

#[test]
fn directml_probe_candidates_include_app_qwen_model() {
    let app_models_dir = r"C:\Users\tester\AppData\Local\com.local.hivoicer\models".to_string();
    let candidates =
        directml_probe_candidate_dirs(r"C:\Portable\Hi-Voicer\models", Some(app_models_dir.clone()));

    assert!(candidates.contains(&format!(r"{app_models_dir}\qwen3-asr-0.6b")));
}

#[test]
fn directml_probe_candidates_include_sibling_sensevoice_model() {
    let candidates = directml_probe_candidate_dirs(r"C:\Models\sherpa-paraformer-zh", None);

    assert!(candidates.contains(&r"C:\Models\sensevoice-small".to_string()));
}

#[test]
fn probe_candidates_are_listed_once_in_order() {
    let candidates = directml_probe_candidate_dirs(r"C:\Models\x", Some(r"C:\Models".to_string()));
    assert_eq!(
        candidates,
        vec![
            r"C:\Models\x".to_string(),
            r"C:\Models\x\sensevoice-small".to_string(),
            r"C:\Models\x\qwen3-asr-0.6b".to_string(),
            r"C:\Models\sensevoice-small".to_string(),
            r"C:\Models\qwen3-asr-0.6b".to_string(),
        ]
    );
}

#[test]
fn split_sensevoice_candidates_cover_known_layouts() {
    let candidates = directml_split_sensevoice_candidate_dirs(r"C:\m\root", None);
    assert_eq!(candidates[0], r"C:\m\root");
    assert!(candidates.contains(&r"C:\m\root\SenseVoice-Small\Sensevoice-Small-ONNX".to_string()));
    assert!(candidates.contains(&r"C:\m\sensevoice-directml".to_string()));
    assert_eq!(candidates.len(), 7);
}

#[test]
fn split_sensevoice_candidate_selection_prefers_complete_layout() {
    let candidates = directml_split_sensevoice_candidate_dirs(r"C:\m\root", None);
    let mut complete = vec![false; candidates.len()];
    complete[3] = true;
    let selected = select_directml_split_sensevoice_candidate(r"C:\m\root", &candidates, &complete);
    assert_eq!(selected.model_dir, r"C:\m\root\SenseVoice-Small\Sensevoice-Small-ONNX");
    assert_eq!(
        selected.encoder,
        r"C:\m\root\SenseVoice-Small\Sensevoice-Small-ONNX\SenseVoice-Encoder.fp16.onnx"
    );
    let none = vec![false; candidates.len()];
    let fallback = select_directml_split_sensevoice_candidate(r"C:\m\root", &candidates, &none);
    assert_eq!(fallback.model_dir, r"C:\m\root");
    let direct = split_sensevoice_candidate_for_dir(r"D:\x");
    assert_eq!(direct.tokenizer, r"D:\x\tokenizer.bpe.model");
    assert_eq!(direct.ctc, r"D:\x\SenseVoice-CTC.fp16.onnx");
}

#[test]
fn split_sensevoice_missing_files_are_labelled() {
    assert!(split_sensevoice_missing_files(true, true, true, true).is_empty());
    assert_eq!(
        split_sensevoice_missing_files(false, true, false, true),
        vec!["split model directory".to_string(), "SenseVoice-CTC.fp16.onnx".to_string()]
    );
}

#[test]
fn qwen_layout_files_and_names() {
    let candidate = qwen_candidate_for_dir(r"C:\m\qwen3-asr-0.6b");
    assert_eq!(candidate.decoder, r"C:\m\qwen3-asr-0.6b\decoder.int8.onnx");
    let paths = qwen_required_paths(&candidate);
    assert_eq!(paths[5], r"C:\m\qwen3-asr-0.6b\tokenizer\vocab.json");
    let missing = qwen_missing_files(&[true, false, true, true, true, false]);
    assert_eq!(
        missing,
        vec!["encoder.int8.onnx".to_string(), "tokenizer/vocab.json".to_string()]
    );
    assert!(is_qwen_model_layout(r"C:\m\QWEN3-ASR-0.6B", &missing));
    assert!(!is_qwen_model_layout(r"C:\m\other", &missing));
    assert!(is_qwen_model_layout(r"C:\m\other", &[]));
}

#[test]
fn probe_model_dir_is_the_first_ready_candidate() {
    let candidates = vec!["a".to_string(), "b".to_string()];
    assert_eq!(select_directml_probe_model_dir("req", &candidates, &[false, true]), "b");
    assert_eq!(select_directml_probe_model_dir("req", &candidates, &[false, false]), "req");
}

#[test]
fn rejects_basic_display_adapter_as_directml_candidate() {
    let adapter = DirectMlAdapterInfo {
        name: "Microsoft Basic Display Adapter".to_string(),
        driver_version: None,
        adapter_ram_mb: None,
        status: Some("OK".to_string()),
    };

    assert!(!is_directml_candidate_adapter(&adapter));
}

#[test]
fn parses_directml_adapter_probe_json() {
    let adapters = directml_adapters_from_powershell_json(
        r#"[{"Name":"NVIDIA GeForce RTX 3060 Laptop GPU","DriverVersion":"31.0.15.8195","AdapterRAM":4293918720,"Status":"OK"}]"#,
    );

    assert_eq!(adapters.len(), 1);
    assert!(is_directml_candidate_adapter(&adapters[0]));
    assert_eq!(adapters[0].adapter_ram_mb, Some(4095));
}

#[test]
fn adapter_json_single_object_and_text_ram() {
    let adapters = directml_adapters_from_powershell_json(
        r#" {"Name":"  Intel Arc  ","AdapterRAM":"2147483648","Status":"Degraded"} "#,
    );
    assert_eq!(adapters.len(), 1);
    assert_eq!(adapters[0].name, "Intel Arc");
    assert_eq!(adapters[0].adapter_ram_mb, Some(2048));
    assert!(!is_directml_candidate_adapter(&adapters[0]));
    assert!(directml_adapters_from_powershell_json("not json").is_empty());
    assert!(directml_adapters_from_powershell_json(r#"[{"Name":"  "}]"#).is_empty());
}

#[test]
fn decimal_text_parses_like_str_parse() {
    assert_eq!(parse_u64("42"), Some(42));
    assert_eq!(parse_u64("+7"), Some(7));
    assert_eq!(parse_u64("18446744073709551615"), Some(u64::MAX));
    assert_eq!(parse_u64("18446744073709551616"), None);
    assert_eq!(parse_u64(""), None);
    assert_eq!(parse_u64("+"), None);
    assert_eq!(parse_u64("-1"), None);
    assert_eq!(parse_u64("1 "), None);
}

#[test]
fn probe_facts_for_sensevoice_list_missing_files() {
    let facts = directml_probe_model_facts(
        Some(("sensevoice-small".to_string(), "SenseVoiceSmall".to_string())),
        false,
        true,
        &[true, false, true],
        &Vec::new(),
    );
    assert!(facts.is_sensevoice);
    assert!(!facts.is_qwen);
    assert_eq!(facts.missing_files, vec!["model.int8.onnx".to_string()]);
    assert!(!facts.model_ready);

    let ready = directml_probe_model_facts(
        Some(("sensevoice-small".to_string(), "SenseVoiceSmall".to_string())),
        false,
        true,
        &[true, true, true],
        &Vec::new(),
    );
    assert!(ready.model_ready);
}

#[test]
fn probe_facts_infer_qwen_from_layout() {
    let facts = directml_probe_model_facts(
        None,
        true,
        true,
        &[false, false, false],
        &vec!["decoder".to_string()],
    );
    assert_eq!(facts.model_id.as_deref(), Some("qwen3-asr-0.6b"));
    assert_eq!(facts.model_name.as_deref(), Some("Qwen3-ASR 0.6B"));
    assert!(facts.is_qwen);
    assert_eq!(facts.missing_files, vec!["decoder".to_string()]);

    let unknown = directml_probe_model_facts(None, false, false, &[true, true, true], &Vec::new());
    assert_eq!(unknown.model_id, None);
    assert_eq!(
        unknown.missing_files,
        vec!["model directory".to_string(), "engine.json".to_string()]
    );
    let other = directml_probe_model_facts(
        Some(("whisper-base".to_string(), "Whisper".to_string())),
        false,
        true,
        &[true, true, true],
        &Vec::new(),
    );
    assert_eq!(other.missing_files, vec!["unsupported DirectML model family".to_string()]);
}

#[test]
fn probe_session_steps_follow_readiness() {
    assert_eq!(model_session_step(true, false, true, true, false), ModelSessionStep::QwenChain);
    assert_eq!(model_session_step(false, true, true, true, true), ModelSessionStep::ReuseSplit);
    assert_eq!(
        model_session_step(false, true, true, true, false),
        ModelSessionStep::SenseVoiceModel
    );
    assert_eq!(
        model_session_step(false, true, true, false, false),
        ModelSessionStep::SkipProviderFailed
    );
    assert_eq!(
        model_session_step(false, true, false, true, false),
        ModelSessionStep::SkipIncomplete
    );
    assert_eq!(
        model_session_skip_message(ModelSessionStep::SkipIncomplete).as_deref(),
        Some("DirectML session check skipped because prerequisites are incomplete.")
    );
    assert_eq!(model_session_skip_message(ModelSessionStep::QwenChain), None);
    assert_eq!(split_session_skip_reason(true, true, true), None);
    assert_eq!(
        split_session_skip_reason(true, true, false).as_deref(),
        Some("Split SenseVoice session check skipped because the DirectML provider probe failed.")
    );
    assert_eq!(
        split_session_skip_reason(true, false, true).as_deref(),
        Some("Split SenseVoice files are incomplete.")
    );
    assert_eq!(
        split_session_skip_reason(false, true, true).as_deref(),
        Some("Split SenseVoice check skipped because the selected model is not SenseVoiceSmall.")
    );
}

#[test]
fn probe_message_and_next_step() {
    let missing = vec!["tokens.txt".to_string(), "engine.json".to_string()];
    assert_eq!(
        directml_probe_message(None, None, &missing, true, None),
        "DirectML model files are incomplete: tokens.txt, engine.json"
    );
    assert_eq!(
        directml_probe_message(Some("ok".to_string()), Some("bad".to_string()), &missing, true, None),
        "ok"
    );
    assert_eq!(
        directml_probe_message(None, Some("provider failed".to_string()), &missing, true, None),
        "provider failed"
    );
    assert_eq!(
        directml_probe_message(None, None, &Vec::new(), false, None),
        "No usable Windows GPU adapter was detected by the DirectML probe."
    );
    assert_eq!(
        directml_probe_message(None, None, &Vec::new(), true, None),
        "DirectML model session check failed."
    );
    assert!(directml_probe_next_step(true, true, true, true, false, false)
        .starts_with("DirectML Qwen3-ASR 0.6B chain loads"));
    assert!(directml_probe_next_step(false, false, false, false, false, false)
        .starts_with("Keep using the stable CPU/Sherpa path"));
    assert!(directml_probe_next_step(false, false, true, false, false, true)
        .contains("split SenseVoice session creation failed"));
}

#[test]
fn signed_decimal_text_parses_like_str_parse() {
    assert_eq!(parse_i64("151644"), Some(151644));
    assert_eq!(parse_i64("-12"), Some(-12));
    assert_eq!(parse_i64("+7"), Some(7));
    assert_eq!(parse_i64("-9223372036854775808"), Some(i64::MIN));
    assert_eq!(parse_i64("9223372036854775808"), None);
    assert_eq!(parse_i64("-"), None);
    assert_eq!(parse_i64(" 1"), None);
    assert_eq!(parse_i64(""), None);
}

#[test]
fn candidate_dirs_drop_a_later_spelling_of_the_same_path() {
    let dirs = directml_probe_candidate_dirs("qwen3-asr-0.6b/", None);
    assert_eq!(
        dirs,
        vec![
            "qwen3-asr-0.6b/".to_string(),
            "qwen3-asr-0.6b/sensevoice-small".to_string(),
            "qwen3-asr-0.6b/qwen3-asr-0.6b".to_string(),
            "sensevoice-small".to_string(),
        ]
    );
    let split = directml_split_sensevoice_candidate_dirs(r"C:\models\.\x", Some(r"C:/models".to_string()));
    assert_eq!(split.len(), 7);
}

#[test]
fn paths_compare_by_components() {
    assert!(same_path_exec("a/b/", r"a\\b"));
    assert!(same_path_exec("a/./b", "a/b/."));
    assert!(same_path_exec(r"C:\x", "C:/x/"));
    assert!(!same_path_exec("/a", "a"));
    assert!(!same_path_exec("./a", "a"));
    assert!(!same_path_exec("a/../b", "b"));
    assert_eq!(file_name_exec("a/b/."), Some("b".to_string()));
    assert_eq!(parent_exec("a/b/."), Some("a".to_string()));
    assert_eq!(parent_exec("a/./b"), Some("a".to_string()));
    assert_eq!(file_name_exec("."), None);
    assert_eq!(parent_exec("."), Some(String::new()));
    assert_eq!(parent_exec(r"C:\a"), Some(r"C:\".to_string()));
}
