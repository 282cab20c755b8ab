use hi_voicer::qwen::token_entries_from_members;
use hi_voicer::qwen::{
    clean_qwen_generated_text, decode_qwen_byte_level_piece, decode_qwen_token_ids,
    is_qwen_skippable_special_token, is_qwen_special_token, qwen_byte_to_unicode,
    qwen_feat_to_audio_tokens_len, qwen_unicode_to_byte, qwen_utf8_encode,
    qwen_valid_audio_tokens, truncate_qwen_audio_features,
};
use hi_voicer::qwen::{
    qwen_feature_attention_mask, qwen_feature_shape_problem, qwen_prompt_audio_tokens,
    qwen_tensor_dims, trim_qwen_audio_features,
};
use hi_voicer::qwen::{
    copy_qwen_cache_delta, qwen_logits_row, qwen_stop_token_ids, QwenGreedyDecoder,
};
use hi_voicer::qwen::{
    build_qwen_default_source_ids, qwen_id_to_token, qwen_required_token_id, qwen_token_entries,
    qwen_token_id,
};

#[test]
fn qwen_audio_token_len_matches_sherpa_chunk_formula() {
    assert_eq!(qwen_feat_to_audio_tokens_len(0, 100), 0);
    assert_eq!(qwen_feat_to_audio_tokens_len(100, 100), 13);
    assert_eq!(qwen_feat_to_audio_tokens_len(2076, 100), 270);
    assert_eq!(qwen_valid_audio_tokens(2076, 273), 270);
}

#[test]
fn qwen_valid_audio_tokens_are_capped_by_encoder_frames() {
    assert_eq!(qwen_valid_audio_tokens(2076, 100), 100);
    assert_eq!(qwen_feat_to_audio_tokens_len(5, 0), 0);
}

#[test]
fn qwen_audio_features_can_be_truncated_to_prompt_tokens() {
    let mut shape = vec![1, 3, 2];
    let mut data = vec![0.1, -0.2, 0.3, 0.4, 0.5, 0.6];

    let valid = truncate_qwen_audio_features(&mut shape, &mut data, 2);

    assert_eq!(valid, 2);
    assert_eq!(shape, vec![1, 2, 2]);
    assert_eq!(data, vec![0.1, -0.2, 0.3, 0.4]);
}

#[test]
fn feature_truncation_leaves_other_shapes_alone() {
    let mut shape = vec![2, 3, 2];
    let mut data = vec![0u8; 12];
    assert_eq!(truncate_qwen_audio_features(&mut shape, &mut data, 1), 3);
    assert_eq!(data.len(), 12);
    let mut shape = vec![1, 3, 2];
    let mut data = vec![0u8; 6];
    assert_eq!(truncate_qwen_audio_features(&mut shape, &mut data, 0), 3);
    assert_eq!(truncate_qwen_audio_features(&mut shape, &mut data, 9), 3);
    assert_eq!(data.len(), 6);
}

#[test]
fn byte_level_alphabet_round_trips_every_byte() {
    let table = qwen_byte_to_unicode();
    assert_eq!(table.len(), 256);
    assert_eq!(table[b'a' as usize], "a");
    assert_eq!(table[b'\n' as usize], "\u{010A}");
    assert_eq!(table[b' ' as usize], "\u{0120}");
    for (byte, piece) in table.iter().enumerate() {
        let ch = piece.chars().next().expect("one char");
        assert_eq!(qwen_unicode_to_byte(ch), Some(byte as u8));
    }
    assert_eq!(qwen_unicode_to_byte('你'), None);
    assert_eq!(qwen_utf8_encode(0xD800), "\u{FFFD}");
}

#[test]
fn special_tokens_are_recognized() {
    assert!(is_qwen_special_token("<|im_start|>"));
    assert!(!is_qwen_special_token("<asr_text>"));
    assert!(is_qwen_skippable_special_token("<|im_end|>"));
    assert!(!is_qwen_skippable_special_token("<|audio_pad|>"));
}

fn id_table() -> Vec<String> {
    let mut table = vec![String::new(); 151705];
    table[11528] = "ä½ł".to_string();
    table[2240] = "å¥½".to_string();
    table[198] = "Ċ".to_string();
    table[151644] = "<|im_start|>".to_string();
    table[151645] = "<|im_end|>".to_string();
    table[151704] = "<asr_text>".to_string();
    table[10] = "language".to_string();
    table[11] = "Ġzh".to_string();
    table
}

#[test]
fn qwen_decode_token_ids_restores_byte_level_text_and_specials() {
    let table = id_table();
    let decoded = decode_qwen_token_ids(&table, &[11528, 2240, 198, 151704]);
    let cleaned = clean_qwen_generated_text(&table, Some(151704), &[151704, 11528, 2240]);

    assert_eq!(decoded, "你好\n<asr_text>");
    assert_eq!(cleaned, "你好");
}

#[test]
fn decoding_skips_turn_markers_and_unknown_ids() {
    let table = id_table();
    assert_eq!(
        decode_qwen_token_ids(&table, &[151644, 11528, -1, 999_999, 151645, 2240]),
        "你好"
    );
    assert_eq!(decode_qwen_byte_level_piece("Ċa"), b"\na".to_vec());
    assert_eq!(decode_qwen_byte_level_piece("你"), "你".as_bytes().to_vec());
}

#[test]
fn generated_language_header_is_dropped() {
    let table = id_table();
    assert_eq!(
        clean_qwen_generated_text(&table, Some(151704), &[10, 11, 151704, 11528, 2240]),
        "你好"
    );
    assert_eq!(clean_qwen_generated_text(&table, None, &[11528, 2240]), "你好");
}

const SCAFFOLD_VOCAB: &str = r#"{"system":8948,"user":872,"assistant":77091,"Ċ":198}"#;
const SCAFFOLD_CONFIG: &str = r#"{"added_tokens_decoder":{"151644":{"content":"<|im_start|>"},"151645":{"content":"<|im_end|>"},"151669":{"content":"<|audio_start|>"},"151676":{"content":"<|audio_pad|>"},"151670":{"content":"<|audio_end|>"},"151643":{"content":"<|endoftext|>"}}}"#;

#[test]
fn qwen_default_source_ids_follow_sherpa_prompt_scaffold() {
    let entries = qwen_token_entries(SCAFFOLD_VOCAB, SCAFFOLD_CONFIG).expect("tokenizer");
    let ids = build_qwen_default_source_ids(&entries, 2).expect("build source ids");

    assert_eq!(
        ids,
        vec![
            151644, 8948, 198, 151645, 198, 151644, 872, 198, 151669, 151676, 151676, 151670,
            151645, 198, 151644, 77091, 198,
        ]
    );
}

#[test]
fn default_source_ids_name_the_first_missing_token() {
    let entries = qwen_token_entries(r#"{"system":1,"user":2,"Ċ":3}"#, SCAFFOLD_CONFIG)
        .expect("tokenizer");
    assert_eq!(
        build_qwen_default_source_ids(&entries, 1),
        Err("Qwen tokenizer is missing required token: assistant".to_string())
    );
    assert_eq!(
        qwen_required_token_id(&entries, "<|im_end|>"),
        Ok(151645)
    );
}

#[test]
fn tokenizer_files_are_read_into_token_pairs() {
    let entries = qwen_token_entries(
        r#"{"a":1,"b":"not an id"}"#,
        r#"{"added_tokens_decoder":{"7":{"content":"<x>"},"x":{"content":"<y>","id":9},"z":{"content":"<z>"},"8":{}}}"#,
    )
    .expect("tokenizer");
    assert_eq!(qwen_token_id(&entries, "a"), Some(1));
    assert_eq!(qwen_token_id(&entries, "b"), None);
    assert_eq!(qwen_token_id(&entries, "<x>"), Some(7));
    assert_eq!(qwen_token_id(&entries, "<y>"), Some(9));
    assert_eq!(qwen_token_id(&entries, "<z>"), None);
    assert!(qwen_token_entries("not json", "{}")
        .unwrap_err()
        .starts_with("Failed to parse Qwen vocab JSON: "));
    assert!(qwen_token_entries("{}", "{")
        .unwrap_err()
        .starts_with("Failed to parse Qwen tokenizer config JSON: "));
    assert_eq!(qwen_token_entries("[1]", "{}"), Ok(Vec::new()));
}

#[test]
fn id_table_has_a_slot_per_id() {
    let entries = vec![
        ("a".to_string(), 2),
        ("b".to_string(), 0),
        ("a".to_string(), 4),
        ("c".to_string(), -1),
    ];
    let table = qwen_id_to_token(&entries);
    assert_eq!(table, vec!["b", "", "", "", "a"]);
    assert_eq!(qwen_token_id(&entries, "a"), Some(4));
    let decoded = decode_qwen_token_ids(&qwen_id_to_token(&qwen_token_entries(
        r#"{"ä½ł":11528,"å¥½":2240,"Ċ":198}"#,
        r#"{"added_tokens_decoder":{"151704":{"content":"<asr_text>"}}}"#,
    ).expect("tokenizer")), &[11528, 2240, 198, 151704]);
    assert_eq!(decoded, "你好\n<asr_text>");
}

#[test]
fn cache_delta_is_copied_at_its_position() {
    let mut cache = vec![0u8; 3 * 1024];
    let delta = vec![7u8; 1024];
    copy_qwen_cache_delta(&mut cache, 1, &delta, 1);
    assert!(cache[..1024].iter().all(|v| *v == 0));
    assert!(cache[1024..2048].iter().all(|v| *v == 7));
    assert!(cache[2048..].iter().all(|v| *v == 0));

    let mut cache = vec![0u8; 2 * 1024];
    let delta = vec![9u8; 3 * 1024];
    copy_qwen_cache_delta(&mut cache, 1, &delta, 3);
    assert!(cache[1024..].iter().all(|v| *v == 9));
    assert_eq!(cache.len(), 2048);

    let mut cache = vec![0u8; 1024];
    copy_qwen_cache_delta(&mut cache, usize::MAX, &delta, 1);
    assert!(cache.iter().all(|v| *v == 0));
}

#[test]
fn logits_row_is_checked_against_the_shape() {
    assert_eq!(qwen_logits_row(12, &[1, 3, 4], 2), Ok((8, 12)));
    assert_eq!(
        qwen_logits_row(12, &[1, 3], 0),
        Err("Qwen decoder logits tensor must be at least 3-D.".to_string())
    );
    assert_eq!(
        qwen_logits_row(12, &[1, -3, 4], 0),
        Err("Invalid Qwen logits time dimension: -3".to_string())
    );
    assert_eq!(
        qwen_logits_row(12, &[1, 3, -4], 0),
        Err("Invalid Qwen logits vocab dimension: -4".to_string())
    );
    assert_eq!(
        qwen_logits_row(12, &[1, 3, 4], 3),
        Err("Qwen decoder logits index is invalid: time_index 3, shape [1, 3, 4]".to_string())
    );
    assert_eq!(
        qwen_logits_row(11, &[1, 3, 4], 2),
        Err("Qwen logits tensor is shorter than its shape.".to_string())
    );
}

#[test]
fn stop_tokens_default_to_the_usual_ids() {
    let entries = qwen_token_entries("{}", SCAFFOLD_CONFIG).expect("tokenizer");
    assert_eq!(qwen_stop_token_ids(&entries), (151645, 151643));
    let custom = vec![("<|im_end|>".to_string(), 5), ("<|endoftext|>".to_string(), 6)];
    assert_eq!(qwen_stop_token_ids(&custom), (5, 6));
}

#[test]
fn greedy_decoding_stops_at_stop_tokens_and_limits() {
    let mut d = QwenGreedyDecoder::start(11, 17, 4, 151645, 151643);
    assert_eq!(d.max_total_len, 512);
    assert_eq!(d.generated, vec![11]);
    assert_eq!(d.next_step(), Some((1, 11, 17)));
    d.accept(12);
    assert_eq!(d.next_step(), Some((2, 12, 18)));
    d.accept(151645);
    assert_eq!(d.next_step(), None);
    assert_eq!(d.generated, vec![11, 12]);
    assert_eq!(d.runs, 3);

    let mut d = QwenGreedyDecoder::start(1, 600, 3, 151645, 151643);
    assert_eq!(d.max_total_len, 611);
    d.accept(2);
    d.accept(3);
    assert_eq!(d.next_step(), None);
    assert_eq!(d.generated, vec![1, 2, 3]);

    let d = QwenGreedyDecoder::start(151643, 10, 8, 151645, 151643);
    assert!(d.generated.is_empty());
    assert_eq!(d.next_step(), None);
    let d = QwenGreedyDecoder::start(5, 10, 0, 151645, 151643);
    assert_eq!(d.generated, vec![5]);
    assert_eq!(d.next_step(), None);
}

fn silent_frames(data: &[f32], hidden: usize) -> Vec<bool> {
    data.chunks(hidden)
        .map(|frame| frame.iter().map(|v| v.abs()).fold(0.0f32, f32::max) <= 1e-6)
        .collect()
}

#[test]
fn qwen_audio_features_trim_trailing_zero_frames() {
    let mut shape = vec![1, 3, 2];
    let mut data = vec![0.1, -0.2, 0.3, 0.4, 0.0, 0.0];
    let silent = silent_frames(&data, 2);

    let valid = trim_qwen_audio_features(&mut shape, &mut data, &silent);

    assert_eq!(valid, 2);
    assert_eq!(shape, vec![1, 2, 2]);
    assert_eq!(data, vec![0.1, -0.2, 0.3, 0.4]);
}

#[test]
fn silent_feature_tensors_are_left_whole() {
    let mut shape = vec![1, 2, 2];
    let mut data = vec![0.0f32; 4];
    let silent = silent_frames(&data, 2);
    assert_eq!(trim_qwen_audio_features(&mut shape, &mut data, &silent), 2);
    assert_eq!(data.len(), 4);
    let mut odd = vec![2, 2, 2];
    let mut data = vec![0.0f32; 8];
    assert_eq!(trim_qwen_audio_features(&mut odd, &mut data, &[]), 2);
}

#[test]
fn encoder_inputs_are_sized_from_the_features() {
    assert_eq!(qwen_feature_attention_mask(4, 2), vec![true, true, false, false]);
    assert_eq!(qwen_feature_attention_mask(2, 5), vec![true, true]);
    assert_eq!(qwen_prompt_audio_tokens(270, 268), 268);
    assert_eq!(qwen_prompt_audio_tokens(0, 10), 1);
    assert_eq!(qwen_tensor_dims(&[1, 273, 1024], "conv output"), Ok(vec![1, 273, 1024]));
    assert_eq!(
        qwen_tensor_dims(&[1, -1, 1024], "conv output"),
        Err("Invalid Qwen conv output dim: -1".to_string())
    );
    assert_eq!(qwen_feature_shape_problem(2, 256), None);
    assert_eq!(
        qwen_feature_shape_problem(2, 255).as_deref(),
        Some("Qwen fbank feature shape is invalid: frames 2, values 255")
    );
    assert_eq!(
        qwen_feature_shape_problem(0, 0).as_deref(),
        Some("Qwen fbank feature shape is invalid: frames 0, values 0")
    );
}

#[test]
fn token_entries_come_from_parsed_members_in_order() {
    let vocab = vec![
        ("a".to_string(), Some(1)),
        ("skip".to_string(), None),
        ("b".to_string(), Some(2)),
    ];
    let added = vec![
        ("151643".to_string(), Some("<|endoftext|>".to_string()), None),
        ("7".to_string(), Some("<x>".to_string()), Some(9)),
        ("bad".to_string(), Some("<y>".to_string()), None),
        ("8".to_string(), None, Some(8)),
    ];
    assert_eq!(
        token_entries_from_members(&vocab, &added),
        vec![
            ("a".to_string(), 1),
            ("b".to_string(), 2),
            ("<|endoftext|>".to_string(), 151643),
            ("<x>".to_string(), 9),
        ]
    );
}
