use hi_voicer::audio::{
    audio_filter_chain, audio_output_codec_args, audio_output_extension,
    audio_preview_file_name, audio_processing_preset_slug, audio_segment_output_path,
    audio_tool_output_path, clean_optional_path, ensure_relative_file_path, ffmpeg_concat_line,
    ffmpeg_missing_detail, ffmpeg_missing_message, ffmpeg_runtime_search_roots,
    is_supported_audio_input, output_dir_near_source, processed_audio_output_path,
    recording_mix_filter, safe_output_file_name, sherpa_runtime_relative_executable,
    AudioProcessingOptions,
};
use hi_voicer::audio::{
    ffmpeg_concat_args, merge_concat_text, merge_sources_problem, merge_stream_copy,
    recording_mix_args,
};
use hi_voicer::audio::{ffmpeg_general_args, ffmpeg_pcm_args, sherpa_transcode_args};
use hi_voicer::audio::{
    audio_segment_ffmpeg_args, check_clip_segments, clip_segment_ffmpeg_args,
    numbered_piece_name, seconds_text_exec,
};

#[test]
fn audio_segment_output_defaults_next_to_source_audio() {
    let source = r"C:\Recordings\demo.wav";
    let output = audio_segment_output_path(source, None, Some("demo-segment-001.wav"), 1234, None)
        .expect("output path");

    assert_eq!(output, r"C:\Recordings\demo-segment-001.wav");
}

#[test]
fn segment_output_falls_back_to_generated_name_and_working_dir() {
    let output = audio_segment_output_path("demo.wav", None, Some("   "), 77, Some(r"C:\work"))
        .expect("output path");
    assert_eq!(output, r"C:\work\demo-segment-77.wav");
    assert_eq!(audio_segment_output_path("demo.wav", None, None, 77, None), None);
}

#[test]
fn processed_audio_output_uses_custom_directory_when_provided() {
    let input = r"C:\Recordings\voice.wav";
    let output = processed_audio_output_path(input, "voice-basic", Some(r"D:\Processed"), 1234, None)
        .expect("output path");

    assert_eq!(output, r"D:\Processed\voice-voice-basic-1234.wav");
}

#[test]
fn audio_output_format_only_accepts_supported_formats() {
    assert_eq!(audio_output_extension("mp3").expect("mp3"), "mp3");
    assert_eq!(audio_output_extension("opus").expect("opus"), "opus");
    assert!(audio_output_extension("../bad").is_err());
    assert_eq!(
        audio_output_extension("xml").unwrap_err(),
        "Unsupported output format: xml"
    );
}

#[test]
fn audio_output_codec_args_support_copy_and_reencode_modes() {
    assert_eq!(
        audio_output_codec_args("wav", false).expect("wav"),
        vec![
            "-vn".to_string(),
            "-acodec".to_string(),
            "pcm_s16le".to_string(),
            "-ar".to_string(),
            "48000".to_string(),
            "-ac".to_string(),
            "1".to_string()
        ]
    );
    assert_eq!(
        audio_output_codec_args("mp3", true).expect("copy"),
        vec!["-vn".to_string(), "-c:a".to_string(), "copy".to_string()]
    );
    assert!(audio_output_codec_args("bad", false).is_err());
    assert!(audio_output_codec_args("bad", true).is_ok());
}

#[test]
fn audio_tool_output_path_uses_requested_format_and_custom_name() {
    let input = r"C:\Recordings\voice.wav";
    let output = audio_tool_output_path(input, "clip", "mp3", Some(r"D:\Processed"), 1234, Some("take-one"), None)
        .expect("format")
        .expect("output path");

    assert_eq!(output, r"D:\Processed\take-one.mp3");

    let output = audio_tool_output_path(input, "clip", "flac", Some(r"D:\Processed"), 1234, Some("take-one.mp3"), None)
        .expect("format")
        .expect("output path");

    assert_eq!(output, r"D:\Processed\take-one.flac");
}

#[test]
fn tool_output_generated_name_and_refused_format() {
    let output = audio_tool_output_path(r"C:\a\voice.wav", "merged", "ogg", None, 5, None, None)
        .expect("format")
        .expect("output path");
    assert_eq!(output, r"C:\a\voice-merged-5.ogg");
    assert_eq!(
        audio_tool_output_path(r"C:\a\voice.wav", "x", "exe", None, 5, None, None).unwrap_err(),
        "Unsupported output format: exe"
    );
}

#[test]
fn optional_paths_and_names_are_cleaned() {
    assert_eq!(clean_optional_path(Some("  D:\\x  ")), Some(r"D:\x".to_string()));
    assert_eq!(clean_optional_path(Some("   ")), None);
    assert_eq!(safe_output_file_name(Some(r"..\evil\name.wav"), "f".to_string()), "name.wav");
    assert_eq!(safe_output_file_name(Some(".."), "fallback".to_string()), "fallback");
    assert_eq!(
        output_dir_near_source(r"C:\in\a.wav", Some("  "), None),
        Some(r"C:\in".to_string())
    );
}

#[test]
fn concat_lines_normalize_windows_paths() {
    let line = ffmpeg_concat_line(r"C:\Audio Files\voice.wav");

    assert_eq!(line, "file 'C:/Audio Files/voice.wav'");
}

#[test]
fn concat_lines_escape_quotes() {
    assert_eq!(ffmpeg_concat_line(r"C:\it's.wav"), r"file 'C:/it'\''s.wav'");
}

#[test]
fn recording_mix_filter_does_not_amplify_tracks() {
    let filter = recording_mix_filter(2);

    assert_eq!(
        filter,
        "amix=inputs=2:duration=longest:dropout_transition=0"
    );
    assert!(!filter.contains("volume="));
}

#[test]
fn missing_ffmpeg_message_is_offline_first() {
    let message = ffmpeg_missing_message();

    assert!(message.contains("offline audio"));
    assert!(message.contains("will not download"));
    assert!(message.contains("ffmpeg.exe"));
}

#[test]
fn missing_ffmpeg_detail_includes_actionable_search_locations() {
    let roots = vec![
        r"C:\Users\tester\AppData\Local\com.local.hivoicer\engines\ffmpeg".to_string(),
        r"C:\Program Files\Hi-Voicer\engines\ffmpeg".to_string(),
    ];

    let detail = ffmpeg_missing_detail(&roots);

    assert!(detail.contains("ffmpeg.exe was not found"));
    assert!(detail.contains(r"C:\Users\tester\AppData\Local\com.local.hivoicer\engines\ffmpeg"));
    assert!(detail.contains(r"C:\Program Files\Hi-Voicer\engines\ffmpeg"));
    assert!(detail.contains("PATH"));
    assert!(detail.contains("will not download"));
}

#[test]
fn ffmpeg_search_roots_are_ordered() {
    assert_eq!(
        ffmpeg_runtime_search_roots(r"C:\data", Some(r"C:\res"), Some(r"C:\bin")),
        vec![
            r"C:\data\engines\ffmpeg".to_string(),
            r"C:\res\engines\ffmpeg".to_string(),
            r"C:\res\ffmpeg".to_string(),
            r"C:\bin\engines\ffmpeg".to_string(),
            r"C:\bin\ffmpeg".to_string(),
        ]
    );
    assert_eq!(
        sherpa_runtime_relative_executable("rt"),
        r"engines\sherpa\v1.13.2\rt\bin\sherpa-onnx-offline.exe"
    );
}

#[test]
fn audio_processing_preset_slug_only_accepts_known_presets() {
    assert_eq!(
        audio_processing_preset_slug("voiceBasic").expect("preset"),
        "voice-basic"
    );
    assert_eq!(
        audio_processing_preset_slug("trimSilence").expect("preset"),
        "trim-silence"
    );
    assert!(audio_processing_preset_slug("../bad").is_err());
}

#[test]
fn trim_silence_filter_does_not_stop_at_first_internal_pause() {
    let filter = audio_filter_chain(&AudioProcessingOptions {
        preset: "voiceBasic".to_string(),
        normalize: true,
        trim_silence: true,
        hum_reduction: false,
        voice_filter: true,
        noise_reduction: true,
    });

    assert!(!filter.contains("stop_periods=1"));
    assert!(filter.contains("areverse,silenceremove=start_periods=1"));
}

#[test]
fn no_processing_step_gives_pass_through_filter() {
    let filter = audio_filter_chain(&AudioProcessingOptions {
        preset: "normalize".to_string(),
        normalize: false,
        trim_silence: false,
        hum_reduction: false,
        voice_filter: false,
        noise_reduction: false,
    });
    assert_eq!(filter, "anull");
}

#[test]
fn supported_inputs_are_recognized_by_extension() {
    assert!(is_supported_audio_input(r"C:\a\b.WAV"));
    assert!(is_supported_audio_input("clip.mkv"));
    assert!(!is_supported_audio_input("notes.txt"));
    assert!(!is_supported_audio_input("noext"));
}

#[test]
fn preview_names_carry_the_path_hash() {
    assert_eq!(audio_preview_file_name(r"C:\a\b.wav", 0xab), "00000000000000ab-b.wav");
    assert_eq!(audio_preview_file_name("", 1), "0000000000000001-audio-preview.wav");
}

#[test]
fn model_file_paths_must_stay_relative() {
    assert_eq!(ensure_relative_file_path(r"sub\model.onnx").unwrap(), r"sub\model.onnx");
    assert!(ensure_relative_file_path(r"..\x").is_err());
    assert!(ensure_relative_file_path(r"a\..\x").is_err());
    assert!(ensure_relative_file_path(r"C:\x").is_err());
    assert!(ensure_relative_file_path(r"\x").is_err());
    assert_eq!(
        ensure_relative_file_path("a/..").unwrap_err(),
        "invalid model file path: a/.."
    );
    assert!(ensure_relative_file_path("a/.../b").is_ok());
}

#[test]
fn audio_segment_args_keep_seek_before_input_and_duration_after_input() {
    let (pre_input_args, post_input_args) = audio_segment_ffmpeg_args(1000, 2000);

    assert_eq!(pre_input_args, vec!["-ss".to_string(), "0.850".to_string()]);
    assert_eq!(post_input_args, vec!["-t".to_string(), "1.300".to_string()]);

    let (pre_input_args, post_input_args) = audio_segment_ffmpeg_args(50, 100);
    assert_eq!(pre_input_args, vec!["-ss".to_string(), "0.000".to_string()]);
    assert_eq!(post_input_args, vec!["-t".to_string(), "0.250".to_string()]);
}

#[test]
fn seconds_are_written_with_three_decimals() {
    assert_eq!(seconds_text_exec(0), "0.000");
    assert_eq!(seconds_text_exec(7), "0.007");
    assert_eq!(seconds_text_exec(80_500), "80.500");
    assert_eq!(seconds_text_exec(123_456_789), "123456.789");
}

#[test]
fn clip_segments_are_checked_and_named() {
    assert_eq!(
        check_clip_segments(&[]).as_deref(),
        Some("At least one clip segment is required.")
    );
    assert_eq!(
        check_clip_segments(&[(0, 1000), (2000, 2000)]).as_deref(),
        Some("Every clip segment end time must be after start time.")
    );
    assert_eq!(check_clip_segments(&[(0, 1000), (1500, 2500)]), None);
    let (pre, post) = clip_segment_ffmpeg_args(1500, 2750);
    assert_eq!(pre, vec!["-ss".to_string(), "1.500".to_string()]);
    assert_eq!(post, vec!["-t".to_string(), "1.250".to_string()]);
    let (_, post) = clip_segment_ffmpeg_args(10, 10);
    assert_eq!(post, vec!["-t".to_string(), "0.001".to_string()]);
    assert_eq!(numbered_piece_name("clip", 1), "clip-001");
    assert_eq!(numbered_piece_name("clip", 1234), "clip-1234");
}

#[test]
fn ffmpeg_command_lines_are_assembled_in_order() {
    let pre = vec!["-ss".to_string(), "1.500".to_string()];
    let post = vec!["-t".to_string(), "2.000".to_string()];
    let args = ffmpeg_general_args(&pre, "in.mp4", &post, "wav", true, "out.wav").expect("args");
    assert_eq!(
        args,
        vec!["-y", "-ss", "1.500", "-i", "in.mp4", "-t", "2.000", "-vn", "-c:a", "copy", "out.wav"]
    );
    assert_eq!(
        ffmpeg_general_args(&pre, "in.mp4", &post, "xyz", false, "out.xyz"),
        Err("Unsupported output format: xyz".to_string())
    );
    let reencode = ffmpeg_general_args(&Vec::new(), "a.wav", &Vec::new(), "mp3", false, "b.mp3").expect("args");
    let codec = audio_output_codec_args("mp3", false).expect("codec");
    let mut expected = vec!["-y".to_string(), "-i".to_string(), "a.wav".to_string()];
    expected.extend(codec);
    expected.push("b.mp3".to_string());
    assert_eq!(reencode, expected);

    let pcm = ffmpeg_pcm_args(&Vec::new(), "a.wav", &vec!["-af".to_string(), "loudnorm".to_string()], "b.wav");
    assert_eq!(
        pcm,
        vec!["-y", "-i", "a.wav", "-af", "loudnorm", "-vn", "-acodec", "pcm_s16le", "-ar", "48000", "-ac", "1", "b.wav"]
    );
    assert_eq!(
        sherpa_transcode_args("in.mkv", "out.wav"),
        vec!["-y", "-i", "in.mkv", "-vn", "-ac", "1", "-ar", "16000", "-sample_fmt", "s16", "out.wav"]
    );
}

#[test]
fn merging_checks_sources_and_builds_the_concat_list() {
    let paths = vec!["C:\\a\\one.wav".to_string(), "C:\\b\\it's.wav".to_string()];
    assert_eq!(
        merge_concat_text(&paths),
        "file 'C:/a/one.wav'\nfile 'C:/b/it'\\''s.wav'"
    );
    assert_eq!(merge_stream_copy("copy"), Ok(true));
    assert_eq!(merge_stream_copy("reencode"), Ok(false));
    assert_eq!(merge_stream_copy("zip"), Err("Unsupported merge mode: zip".to_string()));
    assert_eq!(
        merge_sources_problem(&paths[..1].to_vec(), &[true]).as_deref(),
        Some("At least two audio files are required for merge.")
    );
    assert_eq!(
        merge_sources_problem(&paths, &[true, false]).as_deref(),
        Some("Merge source does not exist: C:\\b\\it's.wav")
    );
    assert_eq!(merge_sources_problem(&paths, &[true, true]), None);
    assert_eq!(
        ffmpeg_concat_args("list.txt", "wav", true, "out.wav").expect("args"),
        vec!["-y", "-f", "concat", "-safe", "0", "-i", "list.txt", "-vn", "-c:a", "copy", "out.wav"]
    );
    assert_eq!(
        ffmpeg_concat_args("list.txt", "doc", false, "out.doc"),
        Err("Unsupported output format: doc".to_string())
    );
}

#[test]
fn recorded_tracks_are_mixed_with_one_input_flag_each() {
    let inputs = vec!["mic.wav".to_string(), "system.wav".to_string()];
    assert_eq!(
        recording_mix_args(&inputs, "mixed.wav"),
        vec![
            "-y", "-i", "mic.wav", "-i", "system.wav", "-filter_complex",
            "amix=inputs=2:duration=longest:dropout_transition=0", "-vn", "-acodec", "pcm_s16le",
            "-ar", "48000", "-ac", "1", "mixed.wav",
        ]
    );
}
