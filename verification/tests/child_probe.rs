use hi_voicer::child_probe::{
    child_probe_failure, provider_child_probe, qwen_child_probe, sensevoice_child_probe,
    split_sensevoice_child_probe,
};
use hi_voicer::cli::{parse_cli_command, CliMode};
use hi_voicer::directml::{qwen_candidate_for_dir, split_sensevoice_candidate_for_dir};

#[test]
fn helper_runs_have_fixed_limits_and_names() {
    let provider = provider_child_probe();
    assert_eq!(provider.args, vec!["--hi-voicer-directml-provider-probe"]);
    assert_eq!(provider.timeout_secs, 15);
    assert_eq!(provider.description, "DirectML provider identity child probe");

    let single = sensevoice_child_probe("C:\\m\\model.int8.onnx");
    assert_eq!(single.args, vec!["--hi-voicer-directml-probe", "C:\\m\\model.int8.onnx"]);
    assert_eq!(single.timeout_secs, 30);

    let split = split_sensevoice_child_probe(&split_sensevoice_candidate_for_dir("C:\\m"));
    assert_eq!(
        split.args,
        vec![
            "--hi-voicer-directml-sensevoice-chain-smoke",
            "C:\\m\\SenseVoice-Encoder.fp16.onnx",
            "C:\\m\\SenseVoice-CTC.fp16.onnx",
            "C:\\m\\tokenizer.bpe.model",
        ]
    );
    assert_eq!(split.timeout_secs, 90);

    let qwen = qwen_child_probe(&qwen_candidate_for_dir("C:\\q"));
    assert_eq!(qwen.args[0], "--hi-voicer-directml-qwen-chain-smoke");
    assert_eq!(qwen.args.len(), 4);
    assert_eq!(qwen.description, "DirectML Qwen3-ASR 0.6B conv-to-decoder child probe");
}

#[test]
fn helper_runs_are_read_back_as_their_modes() {
    let cases = [
        (provider_child_probe(), CliMode::DirectMlProviderProbe),
        (sensevoice_child_probe("model.onnx"), CliMode::DirectMlProbe),
        (split_sensevoice_child_probe(&split_sensevoice_candidate_for_dir("m")), CliMode::SenseVoiceChainSmoke),
        (qwen_child_probe(&qwen_candidate_for_dir("q")), CliMode::QwenChainSmoke),
    ];
    for (probe, mode) in cases {
        let parsed = parse_cli_command(&probe.args).expect("mode").expect("parsed");
        assert_eq!(parsed.mode, mode);
        assert_eq!(parsed.paths, probe.args[1..].to_vec());
        assert_eq!(parsed.max_new_tokens, None);
    }
}

#[test]
fn helper_failures_name_the_exit_and_the_output() {
    assert_eq!(
        child_probe_failure("DirectML SenseVoice session child probe", Some(-1073741819), " out ", "  err \n"),
        "DirectML SenseVoice session child probe failed with exit code -1073741819: err"
    );
    assert_eq!(
        child_probe_failure("probe", None, " only stdout ", "   "),
        "probe failed with exit code terminated by signal or native exception: only stdout"
    );
}
