use hi_voicer::cli::{parse_cli_command, qwen_greedy_token_limit, CliMode};

fn args(list: &[&str]) -> Vec<String> {
    list.iter().map(|a| a.to_string()).collect()
}

#[test]
fn ordinary_start_is_not_a_helper_mode() {
    assert!(parse_cli_command(&args(&[])).is_none());
    assert!(parse_cli_command(&args(&["--minimized"])).is_none());
}

#[test]
fn helper_modes_take_their_paths_in_order() {
    let probe = parse_cli_command(&args(&["--hi-voicer-directml-provider-probe"]))
        .expect("mode")
        .expect("parsed");
    assert_eq!(probe.mode, CliMode::DirectMlProviderProbe);
    assert!(probe.paths.is_empty());

    let wav = parse_cli_command(&args(&[
        "--hi-voicer-directml-sensevoice-transcribe-wav",
        "a.wav",
        "enc.onnx",
        "ctc.onnx",
        "tokens.txt",
        "extra",
    ]))
    .expect("mode")
    .expect("parsed");
    assert_eq!(wav.mode, CliMode::SenseVoiceTranscribeWav);
    assert_eq!(wav.paths, args(&["a.wav", "enc.onnx", "ctc.onnx", "tokens.txt"]));
    assert_eq!(wav.max_new_tokens, None);
}

#[test]
fn missing_paths_are_named() {
    let r = parse_cli_command(&args(&["--hi-voicer-directml-probe"])).expect("mode");
    assert_eq!(r.err(), Some("missing model path".to_string()));
    let r = parse_cli_command(&args(&[
        "--hi-voicer-directml-qwen-wav-smoke",
        "conv.onnx",
        "enc.onnx",
        "dec.onnx",
    ]))
    .expect("mode");
    assert_eq!(r.err(), Some("missing wav path".to_string()));
    let r = parse_cli_command(&args(&["--hi-voicer-directml-sensevoice-chain-smoke", "enc"]))
        .expect("mode");
    assert_eq!(r.err(), Some("missing CTC path".to_string()));
}

#[test]
fn greedy_modes_take_an_optional_token_limit() {
    let c = parse_cli_command(&args(&[
        "--hi-voicer-cpu-qwen-greedy-wav-smoke",
        "conv",
        "enc",
        "dec",
        "in.wav",
        "16",
    ]))
    .expect("mode")
    .expect("parsed");
    assert_eq!(c.mode, CliMode::CpuQwenGreedyWavSmoke);
    assert_eq!(c.max_new_tokens.as_deref(), Some("16"));
    assert_eq!(qwen_greedy_token_limit(c.max_new_tokens.as_deref()), Some(16));

    let c = parse_cli_command(&args(&[
        "--hi-voicer-directml-qwen-greedy-wav-smoke",
        "conv",
        "enc",
        "dec",
        "in.wav",
    ]))
    .expect("mode")
    .expect("parsed");
    assert_eq!(c.max_new_tokens, None);
    assert_eq!(qwen_greedy_token_limit(None), Some(8));
    assert_eq!(qwen_greedy_token_limit(Some("many")), None);
    assert_eq!(qwen_greedy_token_limit(Some("+3")), Some(3));
    assert_eq!(qwen_greedy_token_limit(Some("")), None);
}
