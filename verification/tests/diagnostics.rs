use hi_voicer::diagnostics::{
    audio_config_detail, native_audio_diagnostics, system_audio_diagnostic_detail, DeviceProbe,
};

#[test]
fn audio_config_detail_includes_sample_rate_channels_and_format() {
    let detail = audio_config_detail(48_000, 1, "F32");

    assert!(detail.contains("48000 Hz"));
    assert!(detail.contains("1 channel"));
    assert!(detail.contains("F32"));
    assert_eq!(detail, "48000 Hz / 1 channel(s) / F32");
}

#[test]
fn system_audio_diagnostic_detail_marks_loopback_as_runtime_verified() {
    let detail = system_audio_diagnostic_detail(48_000, 2, "F32");

    assert!(detail.contains("48000 Hz"));
    assert!(detail.contains("WASAPI loopback"));
    assert!(detail.contains("verified when recording starts"));
}

#[test]
fn ready_environment_is_reported_as_ready() {
    let report = native_audio_diagnostics(
        DeviceProbe::Ready {
            name: Some("USB Mic".to_string()),
            sample_rate: 44_100,
            channels: 1,
            sample_format: "I16".to_string(),
        },
        DeviceProbe::Ready { name: None, sample_rate: 48_000, channels: 2, sample_format: "F32".to_string() },
        Ok(Some("C:\\ffmpeg\\bin\\ffmpeg.exe".to_string())),
        &Vec::new(),
    );
    assert!(report.microphone_available);
    assert_eq!(report.microphone_name.as_deref(), Some("USB Mic"));
    assert_eq!(report.microphone_detail.as_deref(), Some("44100 Hz / 1 channel(s) / I16"));
    assert_eq!(report.system_audio_name.as_deref(), Some("Default speaker"));
    assert!(report.system_audio_detail.unwrap().contains("WASAPI loopback"));
    assert!(report.ffmpeg_installed);
    assert_eq!(report.ffmpeg_detail.as_deref(), Some("Local ffmpeg runtime is installed."));
    assert_eq!(report.message, "Native audio environment looks ready.");
}

#[test]
fn missing_parts_need_attention() {
    let roots = vec!["C:\\data\\engines\\ffmpeg".to_string()];
    let report = native_audio_diagnostics(
        DeviceProbe::Missing,
        DeviceProbe::ConfigError { name: None, error: "device busy".to_string() },
        Ok(None),
        &roots,
    );
    assert!(!report.microphone_available);
    assert_eq!(report.microphone_name, None);
    assert_eq!(
        report.microphone_detail.as_deref(),
        Some("No default microphone input device was found.")
    );
    assert!(!report.system_audio_available);
    assert_eq!(report.system_audio_name.as_deref(), Some("Default speaker"));
    assert_eq!(report.system_audio_detail.as_deref(), Some("device busy"));
    assert!(!report.ffmpeg_installed);
    assert_eq!(
        report.ffmpeg_detail.as_deref(),
        Some("ffmpeg.exe was not found. Place ffmpeg.exe under one of these folders, or add ffmpeg to PATH: C:\\data\\engines\\ffmpeg | system PATH. Hi-Voicer will not download ffmpeg automatically.")
    );
    assert!(report.message.starts_with("Native audio environment needs attention"));
    let failed = native_audio_diagnostics(
        DeviceProbe::Missing,
        DeviceProbe::Missing,
        Err("search failed".to_string()),
        &roots,
    );
    assert_eq!(failed.ffmpeg_detail.as_deref(), Some("search failed"));
    assert_eq!(
        failed.system_audio_detail.as_deref(),
        Some("No default system output device was found.")
    );
}
