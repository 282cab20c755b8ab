use hi_voicer::transcription::bind_installed_model;
use hi_voicer::config::UserSettings;
use hi_voicer::transcription::daemon_transcript;
use hi_voicer::config::HotwordRule;
use hi_voicer::engine::InstalledEngineConfig;
use hi_voicer::transcription::{
    chunk_worker_count, gather_chunk_transcripts, hotword_chunk_texts, installed_model_id,
    model_dir_precheck, model_search_order, plan_transcription_outputs, transcription_route,
    used_acceleration, validate_installed_engine, TranscriptionRoute,
};

fn engine(engine: &str, model_id: &str, model_name: &str, files: &[&str]) -> InstalledEngineConfig {
    InstalledEngineConfig {
        engine: engine.to_string(),
        model_id: model_id.to_string(),
        model_name: model_name.to_string(),
        model_dir: "C:\\models\\demo".to_string(),
        executable: "C:\\runtime\\worker.exe".to_string(),
        args: "--device cpu --compute-type int8".to_string(),
        required_files: files.iter().map(|f| f.to_string()).collect(),
    }
}

#[test]
fn model_dir_checks_come_before_reading_engine_json() {
    let blank = model_dir_precheck("   ", true, true).expect("blank dir");
    assert!(!blank.valid);
    assert_eq!(blank.message, "No offline model has been configured.");
    let missing = model_dir_precheck("C:\\models\\demo", false, true).expect("missing dir");
    assert!(!missing.valid);
    assert!(missing.message.starts_with("The model directory does not exist."));
    let no_config = model_dir_precheck("C:\\models\\demo", true, false).expect("no engine.json");
    assert!(no_config.message.starts_with("engine.json was not found"));
    assert!(model_dir_precheck("C:\\models\\demo", true, true).is_none());
}

#[test]
fn faster_whisper_engine_config_is_accepted_when_files_are_present() {
    let config = engine("faster-whisper", "faster-whisper", "Faster-Whisper", &["model.bin"]);
    let validation = validate_installed_engine(&config, true, &[true]);
    assert!(validation.valid, "{}", validation.message);
    assert_eq!(validation.model_name, "Faster-Whisper");
    assert_eq!(validation.message, "Model is ready.");
}

#[test]
fn engine_validation_reports_each_problem() {
    let unsupported = engine("whisper.cpp", "x", "X", &[]);
    let r = validate_installed_engine(&unsupported, true, &[]);
    assert!(!r.valid);
    assert_eq!(r.message, "Unsupported engine: whisper.cpp");

    let worker = engine("faster-whisper", "fw", "FW", &[]);
    let r = validate_installed_engine(&worker, false, &[]);
    assert_eq!(
        r.message,
        "The Faster-Whisper worker does not exist. Download and configure the model again."
    );
    let sherpa = engine("sherpa-onnx", "s", "S", &[]);
    let r = validate_installed_engine(&sherpa, false, &[]);
    assert_eq!(
        r.message,
        "The Sherpa-ONNX executable does not exist. Download and configure the model again."
    );

    let unsafe_path = engine("sherpa-onnx", "s", "S", &["..\\secret.onnx"]);
    let r = validate_installed_engine(&unsafe_path, true, &[true]);
    assert!(!r.valid);
    assert!(r.message.starts_with("Unsafe file path in model config: "));

    let missing = engine("sherpa-onnx", "s", "S", &["model.onnx", "tokens.txt"]);
    let r = validate_installed_engine(&missing, true, &[true, false]);
    assert!(!r.valid);
    assert_eq!(
        r.message,
        "Missing model file: tokens.txt. Download and configure the model again."
    );
    assert_eq!(r.model_name, "S");
}

#[test]
fn transcription_routes_follow_engine_and_acceleration() {
    let fw = engine("faster-whisper", "fw", "FW", &[]);
    assert_eq!(transcription_route(&fw, "directml"), (TranscriptionRoute::FasterWhisper, None));
    let sense = engine("sherpa-onnx", "sensevoice-small", "SenseVoice", &[]);
    assert_eq!(
        transcription_route(&sense, "directml"),
        (TranscriptionRoute::DirectMlSenseVoice, None)
    );
    assert_eq!(transcription_route(&sense, "cpu"), (TranscriptionRoute::SherpaCpu, None));
    let qwen = engine("sherpa-onnx", "qwen3-asr-0.6b", "Qwen3-ASR", &[]);
    let (route, note) = transcription_route(&qwen, "directml");
    assert_eq!(route, TranscriptionRoute::SherpaCpu);
    assert_eq!(
        note.as_deref(),
        Some("DirectML transcription is not enabled for Qwen3-ASR; using optimized Sherpa CPU.")
    );
}

#[test]
fn used_acceleration_reports_fallbacks() {
    assert_eq!(
        used_acceleration(TranscriptionRoute::FasterWhisper, "directml"),
        ("none".to_string(), true)
    );
    assert_eq!(
        used_acceleration(TranscriptionRoute::FasterWhisper, "cpu"),
        ("cpu".to_string(), false)
    );
    assert_eq!(
        used_acceleration(TranscriptionRoute::DirectMlSenseVoice, "directml"),
        ("directml".to_string(), false)
    );
    assert_eq!(
        used_acceleration(TranscriptionRoute::SherpaCpu, "directml"),
        ("cpu".to_string(), true)
    );
    assert_eq!(
        used_acceleration(TranscriptionRoute::SherpaCpu, "cpu"),
        ("cpu".to_string(), false)
    );
}

#[test]
fn chunk_workers_are_clamped_to_the_segment_count() {
    assert_eq!(chunk_worker_count(4, 10), 4);
    assert_eq!(chunk_worker_count(4, 2), 2);
    assert_eq!(chunk_worker_count(0, 5), 1);
    assert_eq!(chunk_worker_count(3, 0), 1);
}

#[test]
fn chunk_results_keep_text_and_report_failures() {
    let results = vec![
        Some(Ok("  first  ".to_string())),
        Some(Err("timed out".to_string())),
        None,
        Some(Ok("   ".to_string())),
        Some(Ok("fifth".to_string())),
    ];
    let chunks = gather_chunk_transcripts(&results).expect("some chunks");
    assert_eq!(chunks, vec![(0, "first".to_string()), (4, "fifth".to_string())]);

    let failures = vec![
        Some(Err("timed out".to_string())),
        None,
        Some(Ok(String::new())),
    ];
    assert_eq!(
        gather_chunk_transcripts(&failures),
        Err("Long-audio chunk transcription failed: Chunk 1 failed: timed out; Chunk 2 returned no result; Chunk 3 returned no recognized text".to_string())
    );
    assert_eq!(
        gather_chunk_transcripts(&Vec::new()),
        Err("Sherpa ran, but no transcription text was parsed after long-audio chunking.".to_string())
    );
}

#[test]
fn hotwords_apply_to_each_chunk_before_joining() {
    let rules = vec![HotwordRule {
        id: "a".to_string(),
        source: "tao".to_string(),
        target: "Tauri".to_string(),
        enabled: true,
        ..Default::default()
    }];
    let chunks = vec!["tao one".to_string(), "  ".to_string(), "two tao".to_string()];
    let (applied, text) = hotword_chunk_texts(&chunks, &rules);
    assert_eq!(applied, vec!["Tauri one".to_string(), "  ".to_string(), "two Tauri".to_string()]);
    assert_eq!(text, "Tauri one\ntwo Tauri");
}

#[test]
fn output_plan_lists_five_files_next_to_each_other() {
    let (primary, paths, files) =
        plan_transcription_outputs("C:\\out", "plainText", "C:\\audio\\sample.wav", 1700000000000);
    assert_eq!(paths.len(), 5);
    assert_eq!(files.len(), 5);
    assert_eq!(primary, "C:\\out\\sample-1700000000000.txt");
    assert_eq!(
        files.iter().map(|f| f.format.as_str()).collect::<Vec<_>>(),
        vec!["plainText", "timelineText", "timelineTxt", "srt", "resolveMarkers"]
    );
    assert_eq!(paths[1], "C:\\out\\sample-1700000000000-timeline.txt");
    assert_eq!(paths[4], "C:\\out\\sample-1700000000000.markers.edl");
    assert_eq!(files[2].label, "Timeline TXT one-line (UTF-8 BOM)");
}

#[test]
fn output_plan_picks_the_requested_primary_file() {
    let (primary, _, files) =
        plan_transcription_outputs("C:\\out", "timelineTxt", "C:\\audio\\sample.wav", 7);
    assert!(primary.ends_with("-timeline-txt.txt"));
    assert!(files.iter().any(|file| file.path.ends_with("-timeline.txt")));
    assert!(files.iter().any(|file| file.path.ends_with("-timeline-txt.txt")));
    let (primary, _, _) =
        plan_transcription_outputs("C:\\out", "resolveMarkers", "C:\\audio\\sample.wav", 7);
    assert!(primary.starts_with("C:\\out\\"));
    assert!(primary.ends_with(".markers.edl"));
    let (primary, _, _) =
        plan_transcription_outputs("C:\\out", "timelineText", "C:\\audio\\sample.wav", 7);
    assert_eq!(primary, "C:\\out\\sample-7-timeline.txt");
    let (primary, _, _) = plan_transcription_outputs("C:\\out", "srt", "", 7);
    assert_eq!(primary, "C:\\out\\transcript-7.srt");
}

#[test]
fn model_search_starts_with_the_preferred_model() {
    assert_eq!(
        model_search_order("sensevoice-small"),
        vec![
            "sensevoice-small",
            "qwen3-asr-0.6b",
            "sherpa-funasr-nano",
            "whisper-base",
            "sherpa-paraformer-zh",
            "sherpa-zipformer-zh",
        ]
    );
    assert_eq!(
        model_search_order("custom"),
        vec![
            "custom",
            "sensevoice-small",
            "qwen3-asr-0.6b",
            "sherpa-funasr-nano",
            "whisper-base",
            "sherpa-paraformer-zh",
            "sherpa-zipformer-zh",
        ]
    );
    assert_eq!(model_search_order("whisper-base")[1], "sensevoice-small");
    assert_eq!(model_search_order("whisper-base").len(), 6);
}

#[test]
fn installed_model_id_falls_back_to_directory_name() {
    assert_eq!(
        installed_model_id("sensevoice-small", "C:\\models\\other"),
        Some("sensevoice-small".to_string())
    );
    assert_eq!(
        installed_model_id("  ", "C:\\models\\sherpa-paraformer-zh"),
        Some("sherpa-paraformer-zh".to_string())
    );
    assert_eq!(installed_model_id("", "C:\\"), None);
}

#[test]
fn daemon_answer_is_used_only_when_it_holds_text() {
    assert_eq!(daemon_transcript(Ok(" hi ".to_string())), Some(" hi ".to_string()));
    assert_eq!(daemon_transcript(Ok(" \n\t".to_string())), None);
    assert_eq!(daemon_transcript(Err("socket closed".to_string())), None);
}

#[test]
fn installed_model_binding_prefers_a_valid_configured_directory() {
    let mut settings = UserSettings::default();
    settings.model_dir = "  C:\\models\\a  ".to_string();
    settings.selected_model_id = "old".to_string();
    let found = Some(("a".to_string(), "C:\\models\\a".to_string()));
    let elsewhere = Some(("b".to_string(), "C:\\models\\b".to_string()));

    let bound = bind_installed_model(settings.clone(), true, found.clone(), elsewhere.clone());
    assert_eq!((bound.selected_model_id.as_str(), bound.model_dir.as_str()), ("a", "C:\\models\\a"));
    assert_eq!(bound.shortcut, settings.shortcut);

    let kept = bind_installed_model(settings.clone(), true, None, elsewhere.clone());
    assert_eq!((kept.selected_model_id.as_str(), kept.model_dir.as_str()), ("old", "  C:\\models\\a  "));

    let other = bind_installed_model(settings.clone(), false, found.clone(), elsewhere.clone());
    assert_eq!(other.selected_model_id, "b");

    let mut blank = settings.clone();
    blank.model_dir = "   ".to_string();
    let from_blank = bind_installed_model(blank, true, found, None);
    assert_eq!(from_blank.selected_model_id, "old");
}
