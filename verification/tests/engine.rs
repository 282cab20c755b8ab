use hi_voicer::engine::{sherpa_daemon_args, sherpa_install_config};
use hi_voicer::engine::{
    directml_transcription_supported_for_model, faster_whisper_args_for_engine,
    performance_for_acceleration, performance_for_model_and_acceleration,
    set_sherpa_arg_value, sherpa_args_for_engine_runtime, sherpa_args_for_runtime,
    sherpa_chunk_seconds, sherpa_cli_executable_for_engine, sherpa_daemon_supported_for_model,
    sherpa_max_single_pass_seconds, sherpa_websocket_server_path, split_command_args,
    transcription_performance, InstalledEngineConfig, LLM_ASR_CHUNK_SECONDS,
    LONG_AUDIO_CHUNK_SECONDS, LONG_AUDIO_THRESHOLD_SECONDS, QWEN_ASR_CHUNK_SECONDS,
    QWEN_ASR_MAX_NEW_TOKENS, is_sherpa_streaming_cli_model,
};

fn engine(model_id: &str, model_name: &str) -> InstalledEngineConfig {
    InstalledEngineConfig {
        engine: "sherpa-onnx".to_string(),
        model_id: model_id.to_string(),
        model_name: model_name.to_string(),
        model_dir: String::new(),
        executable: String::new(),
        args: String::new(),
        required_files: Vec::new(),
    }
}

#[test]
fn retired_acceleration_modes_do_not_change_performance() {
    let fast = transcription_performance("fast");
    let retired_mode = performance_for_acceleration(fast, "cuda");
    let cpu = performance_for_acceleration(fast, "cpu");

    assert_eq!(retired_mode.file_workers, fast.file_workers);
    assert_eq!(retired_mode.chunk_workers, fast.chunk_workers);
    assert_eq!(retired_mode.sherpa_threads, fast.sherpa_threads);
    assert_eq!(cpu.file_workers, fast.file_workers);
    assert_eq!(cpu.chunk_workers, fast.chunk_workers);
    assert_eq!(cpu.sherpa_threads, fast.sherpa_threads);
}

#[test]
fn performance_profiles_have_expected_worker_counts() {
    let stable = transcription_performance("stable");
    assert_eq!((stable.file_workers, stable.chunk_workers, stable.sherpa_threads), (1, 1, 4));
    let fast = transcription_performance("fast");
    assert_eq!((fast.file_workers, fast.chunk_workers, fast.sherpa_threads), (3, 3, 2));
    let other = transcription_performance("anything else");
    assert_eq!((other.file_workers, other.chunk_workers, other.sherpa_threads), (2, 2, 2));
}

#[test]
fn directml_production_transcription_is_limited_to_sensevoice() {
    let sensevoice = InstalledEngineConfig {
        engine: "sherpa-onnx".to_string(),
        model_id: "sensevoice-small".to_string(),
        model_name: "SenseVoiceSmall".to_string(),
        model_dir: String::new(),
        executable: String::new(),
        args: String::new(),
        required_files: Vec::new(),
    };
    let qwen = InstalledEngineConfig {
        model_id: "qwen3-asr-0.6b".to_string(),
        model_name: "Qwen3-ASR 0.6B".to_string(),
        ..sensevoice.clone()
    };

    assert!(directml_transcription_supported_for_model(&sensevoice));
    assert!(!directml_transcription_supported_for_model(&qwen));
    assert!(!sherpa_daemon_supported_for_model(&sensevoice));
    assert!(sherpa_daemon_supported_for_model(&qwen));
}

#[test]
fn qwen_sherpa_uses_measured_thread_profile() {
    let qwen = engine("qwen3-asr-0.6b", "Qwen3-ASR 0.6B");
    let paraformer = InstalledEngineConfig {
        model_id: "sherpa-paraformer-zh".to_string(),
        model_name: "Paraformer".to_string(),
        ..qwen.clone()
    };

    assert_eq!(
        performance_for_model_and_acceleration(transcription_performance("stable"), &qwen, "cpu")
            .sherpa_threads,
        6
    );
    assert_eq!(
        performance_for_model_and_acceleration(
            transcription_performance("balanced"),
            &qwen,
            "cpu"
        )
        .sherpa_threads,
        3
    );
    assert_eq!(
        performance_for_model_and_acceleration(transcription_performance("fast"), &qwen, "cpu")
            .sherpa_threads,
        2
    );
    assert_eq!(
        performance_for_model_and_acceleration(
            transcription_performance("stable"),
            &paraformer,
            "cpu"
        )
        .sherpa_threads,
        transcription_performance("stable").sherpa_threads
    );
}

#[test]
fn derives_runtime_dir_from_executable_path() {
    let runtime_dir = hi_voicer::audio::sherpa_runtime_dir_from_executable(
        r"C:\HiVoicer\engines\sherpa\v1.13.2\sherpa-onnx-v1.13.2-cuda-12.x-cudnn-9.x-win-x64-cuda\bin\sherpa-onnx-offline.exe",
    )
    .expect("runtime dir");

    assert_eq!(
        runtime_dir,
        r"C:\HiVoicer\engines\sherpa\v1.13.2\sherpa-onnx-v1.13.2-cuda-12.x-cudnn-9.x-win-x64-cuda"
    );
}

#[test]
fn runtime_dir_needs_two_parent_levels() {
    let error = hi_voicer::audio::sherpa_runtime_dir_from_executable("sherpa.exe").unwrap_err();
    assert_eq!(error, "invalid Sherpa-ONNX executable path: sherpa.exe");
}

#[test]
fn websocket_server_path_is_derived_from_selected_runtime() {
    let engine = engine("sensevoice-small", "sensevoice-small");
    let cpu_executable = r"C:\HiVoicer\runtimes\sherpa-onnx-v1.13.2-win-x64-static-MT-Release-no-tts\bin\sherpa-onnx-offline.exe";
    let cuda_executable = r"C:\HiVoicer\runtimes\sherpa-onnx-v1.13.2-cuda-12.x-cudnn-9.x-win-x64-cuda\bin\sherpa-onnx-offline.exe";

    let cpu_server = sherpa_websocket_server_path(&engine, cpu_executable);
    let cuda_server = sherpa_websocket_server_path(&engine, cuda_executable);

    assert_ne!(cpu_server, cuda_server);
    assert!(cpu_server.contains("static-MT"));
    assert!(cuda_server.contains("cuda-12.x"));
    assert!(cpu_server.contains("sherpa-onnx-offline-websocket-server.exe"));
}

#[test]
fn zipformer_uses_streaming_sherpa_cli_and_server() {
    let engine = engine("sherpa-zipformer-zh", "Sherpa Zipformer");
    let offline_executable = r"C:\HiVoicer\runtimes\sherpa-onnx-v1.13.2-win-x64-static-MT-Release-no-tts\bin\sherpa-onnx-offline.exe";

    let cli_executable = sherpa_cli_executable_for_engine(&engine, offline_executable);
    let server_executable = sherpa_websocket_server_path(&engine, &cli_executable);

    assert!(is_sherpa_streaming_cli_model(&engine));
    assert!(cli_executable.ends_with("sherpa-onnx.exe"));
    assert!(server_executable.ends_with("sherpa-onnx-online-websocket-server.exe"));
}

#[test]
fn llm_asr_models_use_short_chunks() {
    let qwen = engine("qwen3-asr-0.6b", "Qwen3-ASR 0.6B");
    let funasr = InstalledEngineConfig {
        model_id: "sherpa-funasr-nano".to_string(),
        model_name: "Sherpa FunASR-Nano".to_string(),
        ..qwen.clone()
    };
    let paraformer = InstalledEngineConfig {
        model_id: "sherpa-paraformer-zh".to_string(),
        model_name: "Sherpa Paraformer".to_string(),
        ..qwen.clone()
    };

    assert_eq!(sherpa_chunk_seconds(&qwen), QWEN_ASR_CHUNK_SECONDS);
    assert_eq!(sherpa_chunk_seconds(&funasr), LLM_ASR_CHUNK_SECONDS);
    assert_eq!(
        sherpa_max_single_pass_seconds(&qwen) as f64,
        QWEN_ASR_CHUNK_SECONDS as f64
    );
    assert_eq!(sherpa_chunk_seconds(&paraformer), LONG_AUDIO_CHUNK_SECONDS);
    assert_eq!(sherpa_max_single_pass_seconds(&paraformer) as f64, 300.0);
    assert_eq!(LONG_AUDIO_THRESHOLD_SECONDS, 300);
}

#[test]
fn builds_faster_whisper_worker_args() {
    let engine = InstalledEngineConfig {
        engine: "faster-whisper".to_string(),
        model_id: "faster-whisper".to_string(),
        model_name: "Faster-Whisper".to_string(),
        model_dir: r"C:\Models\fw".to_string(),
        executable: r"C:\Engines\fw-worker.exe".to_string(),
        args: "--device cuda --compute-type int8_float16 --model {modelDir}".to_string(),
        required_files: Vec::new(),
    };
    let wav_path = r"C:\Audio\sample.wav";
    let output_path = r"C:\Temp\out.json";

    let args = faster_whisper_args_for_engine(&engine, wav_path, output_path).expect("args");

    assert!(args.contains(&"--device".to_string()));
    assert!(args.contains(&"cuda".to_string()));
    assert!(args.contains(&r"C:\Models\fw".to_string()));
    assert!(args.contains(&"--audio".to_string()));
    assert!(args.contains(&wav_path.to_string()));
    assert!(args.contains(&"--output-json".to_string()));
    assert!(args.contains(&output_path.to_string()));
}

#[test]
fn qwen_runtime_args_force_conservative_generation_limit() {
    let qwen = InstalledEngineConfig {
        args: "--qwen3-asr-max-new-tokens=128 --num-threads=6".to_string(),
        ..engine("qwen3-asr-0.6b", "Qwen3-ASR 0.6B")
    };

    let args = sherpa_args_for_engine_runtime(&qwen, Some(3), "cpu").expect("args");

    assert!(args.contains(&format!(
        "--qwen3-asr-max-new-tokens={QWEN_ASR_MAX_NEW_TOKENS}"
    )));
    assert!(args.contains(&"--num-threads=3".to_string()));
}

#[test]
fn rewrites_sherpa_num_threads_for_concurrent_workers() {
    assert_eq!(
        sherpa_args_for_runtime("--tokens=a --num-threads=4 --model=b", Some(2), "cpu")
            .expect("args"),
        vec![
            "--tokens=a".to_string(),
            "--num-threads=2".to_string(),
            "--model=b".to_string()
        ]
    );
    assert_eq!(
        sherpa_args_for_runtime("--tokens=a --num-threads 4", Some(1), "cpu").expect("args"),
        vec![
            "--tokens=a".to_string(),
            "--num-threads".to_string(),
            "1".to_string()
        ]
    );
}

#[test]
fn retired_cuda_runtime_args_do_not_force_cuda_provider() {
    assert_eq!(
        sherpa_args_for_runtime("--tokens=a --model=b", Some(2), "cuda").expect("args"),
        vec![
            "--tokens=a".to_string(),
            "--model=b".to_string(),
            "--num-threads=2".to_string()
        ]
    );
}

#[test]
fn retired_cuda_runtime_args_preserve_existing_provider_forms() {
    assert_eq!(
        sherpa_args_for_runtime("--provider=cpu --tokens=a", None, "cuda").expect("args"),
        vec!["--provider=cpu".to_string(), "--tokens=a".to_string()]
    );
    assert_eq!(
        sherpa_args_for_runtime("--provider cpu --tokens=a", None, "cuda").expect("args"),
        vec![
            "--provider".to_string(),
            "cpu".to_string(),
            "--tokens=a".to_string()
        ]
    );
}

#[test]
fn cpu_runtime_args_preserve_default_provider_behavior() {
    assert_eq!(
        sherpa_args_for_runtime("--tokens=a --model=b", Some(1), "cpu").expect("args"),
        vec![
            "--tokens=a".to_string(),
            "--model=b".to_string(),
            "--num-threads=1".to_string()
        ]
    );
}

#[test]
fn command_args_respect_quotes_and_reject_unclosed_ones() {
    assert_eq!(
        split_command_args(r#"--model "C:\My Models\a.onnx" --x="y z" say\"hi"#).expect("args"),
        vec![
            "--model".to_string(),
            r"C:\My Models\a.onnx".to_string(),
            "--x=y z".to_string(),
            "say\"hi".to_string()
        ]
    );
    assert_eq!(
        split_command_args("--model \"open").unwrap_err(),
        "Sherpa arguments contain an unclosed quote."
    );
}

#[test]
fn setting_an_argument_appends_when_missing() {
    let mut args = vec!["--a=1".to_string()];
    set_sherpa_arg_value(&mut args, "--b", "2", true);
    assert_eq!(args, vec!["--a=1".to_string(), "--b=2".to_string()]);
}

#[test]
fn daemon_args_add_the_service_port() {
    let mut e = engine("sensevoice-small", "SenseVoice");
    e.args = "--tokens=tokens.txt --num-threads=4".to_string();
    assert_eq!(
        sherpa_daemon_args(&e, "cpu", 6127).expect("args"),
        vec!["--tokens=tokens.txt", "--num-threads=4", "--port=6127"]
    );
    e.args = "--tokens=\"unclosed".to_string();
    assert_eq!(
        sherpa_daemon_args(&e, "cpu", 6127),
        Err("Sherpa arguments contain an unclosed quote.".to_string())
    );
}

#[test]
fn sherpa_install_config_fills_the_argument_template() {
    let files = vec!["model.int8.onnx".to_string(), "tokens.txt".to_string()];
    let config = sherpa_install_config(
        "sensevoice-small",
        "SenseVoiceSmall",
        "C:\\models\\sensevoice-small",
        "C:\\runtime\\sherpa-onnx-offline.exe",
        "--tokens={modelDir}\\tokens.txt --sense-voice-model={modelDir}\\model.int8.onnx --exe={exePath}",
        &files,
    )
    .expect("config");
    assert_eq!(config.engine, "sherpa-onnx");
    assert_eq!(config.model_id, "sensevoice-small");
    assert_eq!(
        config.args,
        "--tokens=C:\\models\\sensevoice-small\\tokens.txt --sense-voice-model=C:\\models\\sensevoice-small\\model.int8.onnx --exe=C:\\runtime\\sherpa-onnx-offline.exe"
    );
    assert_eq!(config.required_files, files);
    assert_eq!(
        sherpa_install_config("x", "Paraformer", "d", "e", "  ", &files).err(),
        Some("Paraformer has no Sherpa install recipe".to_string())
    );
    assert_eq!(
        sherpa_install_config("x", "Paraformer", "d", "e", "--a", &Vec::new()).err(),
        Some("Paraformer has no Sherpa install recipe".to_string())
    );
}

#[test]
fn unclosed_quotes_are_refused_and_escaped_quotes_do_not_count() {
    assert!(split_command_args(r#"--a "b c"#).is_err());
    assert!(split_command_args(r#"--a "b" "c"#).is_err());
    assert_eq!(
        split_command_args(r#"--a \"b --c "d e""#).unwrap(),
        vec!["--a", "\"b", "--c", "d e"]
    );
    let items = split_command_args(r#"  ""  x  "#).unwrap();
    assert_eq!(items, vec!["x"]);
}

#[test]
fn unquoted_arguments_split_like_split_whitespace() {
    let text = "  --model a\\b\t--threads 4\n --x  ";
    let expected: Vec<String> = text.split_whitespace().map(String::from).collect();
    assert_eq!(split_command_args(text).unwrap(), expected);
}

#[test]
fn setting_an_option_rewrites_each_assignment_in_place() {
    let mut args = vec![
        "--a=1".to_string(),
        "--num-threads=2".to_string(),
        "--b".to_string(),
        "--num-threads=3".to_string(),
    ];
    set_sherpa_arg_value(&mut args, "--num-threads", "8", true);
    assert_eq!(args, vec!["--a=1", "--num-threads=8", "--b", "--num-threads=8"]);
    let mut none = vec!["--a".to_string()];
    set_sherpa_arg_value(&mut none, "--num-threads", "8", true);
    assert_eq!(none, vec!["--a", "--num-threads=8"]);
    let mut kept = vec!["--a".to_string()];
    set_sherpa_arg_value(&mut kept, "--num-threads", "8", false);
    assert_eq!(kept, vec!["--a"]);
}
