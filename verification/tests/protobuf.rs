use hi_voicer::protobuf::{
    append_proto_int, append_proto_key, append_proto_message, append_proto_string,
    append_proto_varint, ctc_greedy_decode_top1, decode_sentencepiece_pieces,
    directml_identity_model_bytes, parse_sentencepiece_pieces, read_protobuf_varint,
    sentencepiece_piece_from_vocab_message, skip_protobuf_field,
};

fn protobuf_varint(value: u64) -> Vec<u8> {
    let mut value = value;
    let mut bytes = Vec::new();
    loop {
        let mut byte = (value & 0x7f) as u8;
        value >>= 7;
        if value != 0 {
            byte |= 0x80;
        }
        bytes.push(byte);
        if value == 0 {
            break;
        }
    }
    bytes
}

fn sentencepiece_test_model(pieces: &[&str]) -> Vec<u8> {
    let mut model = Vec::new();
    for piece in pieces {
        let mut vocab_message = Vec::new();
        vocab_message.push(0x0a);
        vocab_message.extend(protobuf_varint(piece.as_bytes().len() as u64));
        vocab_message.extend(piece.as_bytes());
        vocab_message.push(0x15);
        vocab_message.extend([0, 0, 0, 0]);

        model.push(0x0a);
        model.extend(protobuf_varint(vocab_message.len() as u64));
        model.extend(vocab_message);
    }
    model
}

#[test]
fn parses_sentencepiece_vocab_pieces() {
    let bytes = sentencepiece_test_model(&["<unk>", "<s>", "</s>", "▁hello", "世界"]);

    let pieces = parse_sentencepiece_pieces(&bytes).expect("parse tokenizer");

    assert_eq!(pieces[0], "<unk>");
    assert_eq!(pieces[3], "▁hello");
    assert_eq!(pieces[4], "世界");
}

#[test]
fn sentencepiece_errors_are_reported() {
    assert_eq!(
        parse_sentencepiece_pieces(&[]).unwrap_err(),
        "SentencePiece tokenizer did not contain any vocab pieces."
    );
    assert_eq!(
        parse_sentencepiece_pieces(&[0x0a, 0x05, 0x01]).unwrap_err(),
        "SentencePiece tokenizer ended inside a vocab message."
    );
    assert_eq!(
        parse_sentencepiece_pieces(&[0x0b]).unwrap_err(),
        "SentencePiece tokenizer contains an unsupported protobuf field."
    );
}

#[test]
fn varints_written_are_read_back() {
    for value in [0u64, 1, 127, 128, 300, 1 << 35, u64::MAX] {
        let mut out = vec![0xaa];
        append_proto_varint(&mut out, value);
        assert_eq!(&out[1..], protobuf_varint(value).as_slice());
        let mut offset = 1usize;
        assert_eq!(read_protobuf_varint(&out, &mut offset), Some(value));
        assert_eq!(offset, out.len());
    }
    let mut offset = 0usize;
    assert_eq!(read_protobuf_varint(&[0x80, 0x80], &mut offset), None);
}

#[test]
fn protobuf_fields_are_written_and_skipped() {
    let mut out = Vec::new();
    append_proto_key(&mut out, 1, 2);
    assert_eq!(out, vec![0x0a]);
    let mut out = Vec::new();
    append_proto_int(&mut out, 3, 150);
    assert_eq!(out, vec![0x18, 0x96, 0x01]);
    let mut out = Vec::new();
    append_proto_string(&mut out, 2, "hi");
    assert_eq!(out, vec![0x12, 2, b'h', b'i']);
    let mut out = Vec::new();
    append_proto_message(&mut out, 1, vec![7, 8]);
    assert_eq!(out, vec![0x0a, 2, 7, 8]);

    let bytes = [0x96, 0x01, 0x02, b'a', b'b', 1, 2, 3, 4];
    let mut offset = 0usize;
    assert!(skip_protobuf_field(&bytes, &mut offset, 0));
    assert_eq!(offset, 2);
    assert!(skip_protobuf_field(&bytes, &mut offset, 2));
    assert_eq!(offset, 5);
    assert!(skip_protobuf_field(&bytes, &mut offset, 5));
    assert_eq!(offset, 9);
    assert!(!skip_protobuf_field(&bytes, &mut offset, 1));
    assert!(!skip_protobuf_field(&bytes, &mut 0usize, 3));
}

#[test]
fn vocab_message_piece_is_read() {
    let message = [0x15, 0, 0, 0, 0, 0x0a, 0x02, b'o', b'k'];
    assert_eq!(sentencepiece_piece_from_vocab_message(&message), Some("ok".to_string()));
    assert_eq!(sentencepiece_piece_from_vocab_message(&[0x0a, 0x01, 0xff]), None);
}

#[test]
fn ctc_greedy_decode_skips_prompt_blank_and_repeats() {
    let pieces = vec![
        "<blank>".to_string(),
        "<s>".to_string(),
        "</s>".to_string(),
        "▁你".to_string(),
        "好".to_string(),
    ];
    let mut topk = vec![0i32; 1 * 9 * 2];
    for (frame, token) in [1, 2, 3, 3, 0, 4, 4, 0, 3].iter().enumerate() {
        topk[frame * 2] = *token;
    }

    let (ids, text) = ctc_greedy_decode_top1(&topk, &[1, 9, 2], 4, &pieces);

    assert_eq!(ids, vec![4]);
    assert_eq!(text, "好");
}

#[test]
fn sentencepiece_pieces_show_word_marks_as_spaces() {
    let pieces = vec!["<unk>".to_string(), "▁hello".to_string(), "▁world".to_string()];
    assert_eq!(decode_sentencepiece_pieces(&[1, 2, -1, 9], &pieces), "hello world");
}

#[test]
fn directml_identity_probe_model_has_expected_onnx_markers() {
    let bytes = directml_identity_model_bytes();
    let text = String::from_utf8_lossy(&bytes);

    assert!(text.contains("Identity"));
    assert!(text.contains("HiVoicerDirectMlIdentityGraph"));
}

#[test]
fn vocab_written_with_string_and_message_fields_reads_back_in_order() {
    let pieces = ["<unk>", "▁a", "長い単語", ""];
    let mut model = Vec::new();
    for piece in pieces {
        let mut entry = Vec::new();
        append_proto_string(&mut entry, 1, piece);
        append_proto_message(&mut model, 1, entry);
    }
    let read = parse_sentencepiece_pieces(&model).expect("pieces");
    assert_eq!(read, vec!["<unk>", "▁a", "長い単語", ""]);
}
