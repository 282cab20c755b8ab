use hi_voicer::engine::InstalledEngineConfig;
use hi_voicer::sherpa_output::{
    decode_sherpa_websocket_text, extract_sherpa_json_text, extract_sherpa_json_texts,
    extract_transcription_text, is_cjk_text_char, is_sherpa_status_line,
    looks_like_qwen_latin_language_drift, should_keep_sherpa_chunk_text,
};

#[test]
fn extracts_text_from_sherpa_json_output() {
    let output = r#"{"lang":"<|zh|>","text":"hello, test passed"}"#;

    assert_eq!(extract_transcription_text(output), "hello, test passed");
}

#[test]
fn ignores_sherpa_status_lines_without_text() {
    let output = r#"
Started
Done!
C:\Users\TOM\AppData\Local\com.local.hivoicer\transcodes\sample-16k-mono.wav
----
num threads: 4
decoding method: greedy_search
Elapsed seconds: 0.16
Real time factor: 0.04
"#;

    assert_eq!(extract_transcription_text(output), "");
}

#[test]
fn prefers_sherpa_json_text_over_status_lines() {
    let output = r#"
Started
decoding method: greedy_search
{"lang":"<|zh|>","text":"hello from audio"}
Elapsed seconds: 0.16
"#;

    assert_eq!(extract_transcription_text(output), "hello from audio");
}

#[test]
fn extracts_text_from_multiline_sherpa_json_output() {
    let output = r#"
Started
{
  "language": "zh",
  "text": "text from audio",
  "tokens": ["text", "from", "audio"]
}
Elapsed seconds: 0.16
"#;

    assert_eq!(extract_transcription_text(output), "text from audio");
}

#[test]
fn ignores_multiline_json_without_text() {
    let output = r#"
{
  "language": "zh",
  "duration": 2.1
}
"#;

    assert_eq!(extract_transcription_text(output), "");
}

#[test]
fn ignores_empty_text_json_with_metadata() {
    let output = r#"{"language":"zh","text":"","timestamps":[],"durations":[],"tokens":[],"ys_log_probs":[],"words":[]}"#;

    assert_eq!(extract_transcription_text(output), "");
}

#[test]
fn ignores_qwen_language_placeholder_result() {
    let output = r#"{"lang":"","emotion":"","event":"","text":"language","timestamps":[],"durations":[],"tokens":["language"],"ys_log_probs":[],"words":[]}"#;

    assert_eq!(extract_transcription_text(output), "");
}

#[test]
fn ignores_split_json_metadata_lines_without_complete_text() {
    let output = r#"
"language": "zh",
"text": "",
"timestamps": [],
"durations": [],
"tokens": [],
"words": []
"#;

    assert_eq!(extract_transcription_text(output), "");
}

#[test]
fn json_text_is_trimmed_and_non_json_is_refused() {
    assert_eq!(
        extract_sherpa_json_text(r#"{"text":"  spaced  "}"#),
        Some("spaced".to_string())
    );
    assert_eq!(extract_sherpa_json_text("not json"), None);
    assert_eq!(
        extract_sherpa_json_texts("{\"text\":\"a\"}\nnoise\n{\"text\":\"b\"}"),
        vec!["a".to_string(), "b".to_string()]
    );
}

#[test]
fn recognizes_status_lines() {
    assert!(is_sherpa_status_line("Started"));
    assert!(is_sherpa_status_line("Elapsed seconds: 0.16"));
    assert!(!is_sherpa_status_line("hello world"));
}

#[test]
fn decodes_gbk_sherpa_websocket_json_text() {
    let bytes = b"{\"text\":\"\xB9\xE3\xCE\xF7\"}";
    let decoded = decode_sherpa_websocket_text(bytes);

    assert_eq!(extract_transcription_text(&decoded), "广西");
}

#[test]
fn utf8_replies_are_decoded_as_utf8() {
    assert_eq!(decode_sherpa_websocket_text("广西".as_bytes()), "广西");
}

#[test]
fn qwen_latin_language_drift_can_be_detected_for_diagnostics() {
    let qwen = InstalledEngineConfig {
        engine: "sherpa-onnx".to_string(),
        model_id: "qwen3-asr-0.6b".to_string(),
        model_name: "Qwen3-ASR 0.6B".to_string(),
        model_dir: String::new(),
        executable: String::new(),
        args: String::new(),
        required_files: Vec::new(),
    };
    let paraformer = InstalledEngineConfig {
        model_id: "sherpa-paraformer-zh".to_string(),
        model_name: "Sherpa Paraformer".to_string(),
        ..qwen.clone()
    };

    assert!(!should_keep_sherpa_chunk_text(
        &qwen,
        "Un craciun obtinut in jurul ora si jumatate a fost actionat de explozie"
    ));
    assert!(should_keep_sherpa_chunk_text(
        &qwen,
        "\u{5E7F}\u{897F}\u{58EE}\u{65CF}\u{81EA}\u{6CBB}\u{533A} news report"
    ));
    assert!(should_keep_sherpa_chunk_text(
        &paraformer,
        "Un craciun obtinut in jurul ora si jumatate a fost actionat de explozie"
    ));
}

#[test]
fn cjk_characters_are_recognized() {
    assert!(is_cjk_text_char('广'));
    assert!(!is_cjk_text_char('a'));
    assert!(!looks_like_qwen_latin_language_drift("短"));
}

#[test]
fn last_json_text_wins_over_other_lines() {
    let output = "Result: marker text\n{\"text\":\"first\"}\nDecoded text: later\n{\"text\":\"second\"}\nstatus line";
    assert_eq!(extract_transcription_text(output), "second");
}
