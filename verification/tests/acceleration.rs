use hi_voicer::acceleration::{acceleration_status_for_mode, acceleration_status_from_parts};

#[test]
fn acceleration_status_keeps_cpu_effective_when_cuda_is_unavailable() {
    let status = acceleration_status_from_parts("cuda", false, None, None, true, false, None, None);

    assert_eq!(status.selected_mode, "cuda");
    assert_eq!(status.effective_mode, "cpu");
    assert!(status.message.contains("CPU"));
}

#[test]
fn acceleration_status_reports_cuda_ready_when_runtime_is_installed() {
    let status = acceleration_status_from_parts(
        "cuda",
        true,
        Some("RTX 4090 / driver 555.85 / VRAM 24564 MB".to_string()),
        None,
        true,
        true,
        None,
        None,
    );

    assert_eq!(status.effective_mode, "cuda");
    assert!(status.cuda_runtime_installed);
    assert!(status.cuda_device_summary.is_some());
    assert!(status.message.contains("CUDA"));
}

#[test]
fn acceleration_status_uses_cpu_when_cuda_runtime_is_not_prepared() {
    let status = acceleration_status_from_parts(
        "cuda",
        true,
        Some("RTX 4090 / driver 555.85 / VRAM 24564 MB".to_string()),
        None,
        true,
        false,
        None,
        None,
    );

    assert_eq!(status.selected_mode, "cuda");
    assert_eq!(status.effective_mode, "cpu");
    assert!(!status.cuda_runtime_installed);
    assert!(status
        .message
        .contains("no local CUDA-capable Sherpa runtime"));
}

#[test]
fn acceleration_status_reports_prepare_failure_as_cpu_fallback() {
    let status = acceleration_status_from_parts(
        "cuda",
        true,
        None,
        None,
        true,
        false,
        None,
        Some("network error".to_string()),
    );

    assert_eq!(status.effective_mode, "cpu");
    assert!(status.message.contains("network error"));
}

#[test]
fn acceleration_status_reports_cuda_circuit_breaker_as_cpu_fallback() {
    let status = acceleration_status_from_parts(
        "cuda",
        true,
        None,
        None,
        true,
        true,
        Some("driver mismatch".to_string()),
        None,
    );

    assert_eq!(status.effective_mode, "cpu");
    assert_eq!(
        status.cuda_disabled_reason.as_deref(),
        Some("driver mismatch")
    );
    assert!(status.message.contains("disabled for this session"));
}

#[test]
fn cpu_selection_reports_compatibility_message() {
    let status = acceleration_status_from_parts("cpu", true, None, None, false, true, None, None);
    assert_eq!(status.effective_mode, "cpu");
    assert_eq!(
        status.message,
        "CPU is selected for maximum compatibility; CUDA runtime will not be loaded."
    );
}

#[test]
fn directml_mode_status_is_reported_as_selected() {
    let status = acceleration_status_for_mode("directml", true);
    assert_eq!(status.selected_mode, "directml");
    assert_eq!(status.effective_mode, "directml");
    assert!(status.cpu_runtime_installed);
    let cpu = acceleration_status_for_mode("cuda", false);
    assert_eq!(cpu.selected_mode, "cpu");
    assert_eq!(cpu.effective_mode, "cpu");
    assert!(!cpu.cpu_runtime_installed);
}

#[test]
fn smoke_test_report_names_modes_and_fallbacks() {
    let r = hi_voicer::acceleration::acceleration_smoke_test_result(
        "directml",
        "cpu".to_string(),
        Some("DirectML runtime is missing".to_string()),
        "  hello  ",
        42,
    );
    assert_eq!(r.requested_mode, "directml");
    assert_eq!(r.used_mode, "cpu");
    assert!(!r.fallback_used);
    assert_eq!(r.elapsed_ms, 42);
    assert_eq!(r.transcript_preview, "hello");
    assert_eq!(r.message, "CPU smoke test completed: DirectML runtime is missing");

    let long = "字".repeat(100);
    let r = hi_voicer::acceleration::acceleration_smoke_test_result("cuda", "cpu".to_string(), None, &long, 7);
    assert_eq!(r.requested_mode, "cpu");
    assert_eq!(r.transcript_preview.chars().count(), 80);
    assert_eq!(
        r.message,
        "CPU smoke test completed; silent audio does not need recognized text."
    );
}
