use hi_voicer::app_state::AppSnapshot;
use hi_voicer::config::{startup_registry_args, HotwordRule, TermCategory, UserSettings};
use hi_voicer::hotwords::{
    apply_hotwords, clipboard_settle_delay, default_acceleration_mode, default_export_format,
    default_performance_mode, default_save_output, normalize_shortcut,
};
use std::time::Duration;

#[test]
fn clipboard_settle_delay_scales_for_long_text() {
    let short_delay = Duration::from_millis(clipboard_settle_delay("short"));
    let long_delay = Duration::from_millis(clipboard_settle_delay(&"长文本".repeat(800)));

    assert!(short_delay >= Duration::from_millis(80));
    assert!(long_delay > short_delay);
    assert!(long_delay <= Duration::from_millis(980));
}

#[test]
fn clipboard_settle_delay_counts_characters_not_bytes() {
    assert_eq!(clipboard_settle_delay(""), 80);
    assert_eq!(clipboard_settle_delay(&"a".repeat(399)), 80);
    assert_eq!(clipboard_settle_delay(&"a".repeat(400)), 120);
    assert_eq!(clipboard_settle_delay(&"长".repeat(400)), 120);
    assert_eq!(clipboard_settle_delay(&"a".repeat(400 * 30)), 980);
}

#[test]
fn user_settings_normalization_rejects_invalid_runtime_modes() {
    let settings = UserSettings {
        shortcut: String::new(),
        selected_model_id: String::new(),
        paste_mode: "bad".to_string(),
        recording_mode: "bad".to_string(),
        recording_source: "speakers".to_string(),
        acceleration_mode: "gpu".to_string(),
        export_format: "xml".to_string(),
        theme: "blue".to_string(),
        term_categories: Vec::new(),
        ..UserSettings::default()
    }
    .normalized();

    assert_eq!(settings.shortcut, "CapsLock");
    assert_eq!(settings.selected_model_id, "sensevoice-small");
    assert_eq!(settings.paste_mode, "clipboard");
    assert_eq!(settings.recording_mode, "hold");
    assert_eq!(settings.recording_source, "microphone");
    assert_eq!(settings.acceleration_mode, "cpu");
    assert_eq!(settings.export_format, "plainText");
    assert_eq!(settings.theme, "light");
    assert!(!settings.term_categories.is_empty());
}

#[test]
fn normalization_keeps_valid_settings_and_is_idempotent() {
    let settings = UserSettings {
        paste_mode: "direct".to_string(),
        recording_mode: "toggle".to_string(),
        recording_source: "system".to_string(),
        acceleration_mode: "directml".to_string(),
        export_format: "srt".to_string(),
        theme: "dark".to_string(),
        model_dir: r"C:\Models".to_string(),
        input_model_dir: String::new(),
        transcription_model_dir: "  ".to_string(),
        directml_verified: false,
        directml_verified_at: Some("yesterday".to_string()),
        ..UserSettings::default()
    };
    let once = settings.normalized();
    assert_eq!(once.paste_mode, "direct");
    assert_eq!(once.recording_mode, "toggle");
    assert_eq!(once.recording_source, "system");
    assert_eq!(once.acceleration_mode, "directml");
    assert_eq!(once.export_format, "srt");
    assert_eq!(once.theme, "dark");
    assert_eq!(once.input_model_dir, r"C:\Models");
    assert_eq!(once.transcription_model_dir, r"C:\Models");
    assert_eq!(once.directml_verified_at, None);
    let twice = once.clone().normalized();
    assert_eq!(twice, once);
}

#[test]
fn default_settings_are_already_normalized() {
    let defaults = UserSettings::default();
    assert_eq!(defaults.clone().normalized(), defaults);
    assert_eq!(defaults.shortcut, "CapsLock");
    assert_eq!(defaults.acceleration_mode, "cpu");
    assert_eq!(defaults.term_categories.len(), hi_voicer::config::default_term_categories_vec().len());
}

#[test]
fn default_rule_and_category_are_empty() {
    let rule = HotwordRule::default();
    assert!(rule.source.is_empty());
    assert!(rule.enabled);
    let category = TermCategory::default();
    assert!(category.id.is_empty());
    let snapshot = AppSnapshot::default();
    assert_eq!(snapshot.readiness, "model-required");
    assert_eq!(snapshot.shortcut, "CapsLock");
}

#[test]
fn applies_enabled_hotword_replacements_longest_first() {
    let rules = vec![
        HotwordRule {
            id: "short".to_string(),
            source: "tao".to_string(),
            target: "Tauri".to_string(),
            enabled: true,
            ..Default::default()
        },
        HotwordRule {
            id: "long".to_string(),
            source: "tao app".to_string(),
            target: "Tauri app".to_string(),
            enabled: true,
            ..Default::default()
        },
        HotwordRule {
            id: "disabled".to_string(),
            source: "disabled term".to_string(),
            target: "SHOULD_NOT_APPEAR".to_string(),
            enabled: false,
            ..Default::default()
        },
    ];

    assert_eq!(
        apply_hotwords("tao app, disabled term", &rules),
        "Tauri app, disabled term"
    );
}

#[test]
fn hotwords_with_equal_length_apply_in_list_order_and_trim_sources() {
    let rules = vec![
        HotwordRule {
            source: " ab ".to_string(),
            target: "X".to_string(),
            enabled: true,
            ..Default::default()
        },
        HotwordRule {
            source: "bc  ".to_string(),
            target: "Y".to_string(),
            enabled: true,
            ..Default::default()
        },
        HotwordRule {
            source: "   ".to_string(),
            target: "blank".to_string(),
            enabled: true,
            ..Default::default()
        },
    ];
    // Both sources count four characters untrimmed; " ab " comes first.
    assert_eq!(apply_hotwords("abc bc", &rules), "Xc Y");
}

#[test]
fn shortcut_normalization_renames_keys_and_defaults_to_capslock() {
    assert_eq!(normalize_shortcut("   "), "CapsLock");
    assert_eq!(normalize_shortcut(" Ctrl + Win + Esc "), "Ctrl+Super+Escape");
    assert_eq!(normalize_shortcut("Alt++Space"), "Alt++Space");
    assert_eq!(normalize_shortcut("F8"), "F8");
}

#[test]
fn request_defaults() {
    assert!(default_save_output());
    assert_eq!(default_export_format(), "plainText");
    assert_eq!(default_performance_mode(), "balanced");
    assert_eq!(default_acceleration_mode(), "cpu");
}

#[test]
fn disabled_or_blank_rules_leave_text_unchanged() {
    let rules = vec![
        HotwordRule {
            id: "off".to_string(),
            source: "tao".to_string(),
            target: "Tauri".to_string(),
            enabled: false,
            ..Default::default()
        },
        HotwordRule {
            id: "blank".to_string(),
            source: "   ".to_string(),
            target: "X".to_string(),
            enabled: true,
            ..Default::default()
        },
    ];
    assert_eq!(apply_hotwords("tao app   x", &rules), "tao app   x");
}

#[test]
fn startup_entry_is_added_quoted_and_removed_by_name() {
    assert_eq!(
        startup_registry_args(true, "C:\\Program Files\\Hi-Voicer\\hi-voicer.exe"),
        vec![
            "add",
            "HKCU\\Software\\Microsoft\\Windows\\CurrentVersion\\Run",
            "/v",
            "Hi-Voicer",
            "/t",
            "REG_SZ",
            "/d",
            "\"C:\\Program Files\\Hi-Voicer\\hi-voicer.exe\"",
            "/f",
        ]
    );
    assert_eq!(
        startup_registry_args(false, "ignored"),
        vec!["delete", "HKCU\\Software\\Microsoft\\Windows\\CurrentVersion\\Run", "/v", "Hi-Voicer", "/f"]
    );
}

#[test]
fn hotwords_of_equal_length_apply_in_the_order_given() {
    let rule = |source: &str, target: &str| HotwordRule {
        id: source.to_string(),
        source: source.to_string(),
        target: target.to_string(),
        enabled: true,
        ..Default::default()
    };
    let rules = vec![rule("ab", "X"), rule("bc", "Y"), rule("abc", "Z")];
    assert_eq!(apply_hotwords("abcab bc", &rules), "ZX Y");
    let swapped = vec![rule("bc", "Y"), rule("ab", "X")];
    assert_eq!(apply_hotwords("abc", &swapped), "aY");
}
