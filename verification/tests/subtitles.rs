use hi_voicer::subtitles::segment_char_weights;
use hi_voicer::subtitles::{
    clean_resolve_marker_text, clean_subtitle_text, clean_subtitle_text_one_line,
    frames_to_davinci_timecode, is_leading_punctuation, is_primary_sentence_break,
    is_secondary_sentence_break, resolve_marker_edl_from_segments, split_text_into_chunks,
    srt_text_from_segments, srt_timestamp, timeline_text_from_segments,
    timeline_txt_text_from_segments, transcript_text_from_chunks, SubtitleCue,
};

#[test]
fn transcript_chunks_keep_leading_punctuation_with_previous_line() {
    let chunks = split_text_into_chunks("第一句话。，第二句话继续说完。");

    assert_eq!(chunks, vec!["第一句话。，", "第二句话继续说完。"]);
    assert!(!chunks.iter().any(|chunk| chunk.starts_with('，')));
}

#[test]
fn transcript_chunks_prefer_sentence_breaks_before_hard_limits() {
    let text = "这是第一句完整的话。这是一个比较长的句子，里面有逗号，可以在需要的时候拆开，但不应该把标点放到下一行开头。";
    let chunks = split_text_into_chunks(text);

    assert!(chunks.len() >= 2);
    assert_eq!(chunks[0], "这是第一句完整的话。");
    assert!(!chunks.iter().any(|chunk| {
        chunk.starts_with('，') || chunk.starts_with('。') || chunk.starts_with('、')
    }));
}

#[test]
fn chunks_cut_at_the_hard_limit_and_keep_all_visible_text() {
    let text = "a".repeat(200);
    let chunks = split_text_into_chunks(&text);
    assert_eq!(chunks.len(), 3);
    assert_eq!(chunks[0].chars().count(), 82);
    assert_eq!(chunks.concat(), text);
    assert_eq!(split_text_into_chunks("   "), Vec::<String>::new());
    assert_eq!(split_text_into_chunks("，"), vec!["，".to_string()]);
    assert_eq!(split_text_into_chunks(" ，hi"), vec!["，hi".to_string()]);
}

#[test]
fn punctuation_classes() {
    assert!(is_primary_sentence_break('。'));
    assert!(is_primary_sentence_break('\n'));
    assert!(!is_primary_sentence_break('，'));
    assert!(is_secondary_sentence_break('，'));
    assert!(is_leading_punctuation('.'));
    assert!(!is_leading_punctuation('a'));
}

#[test]
fn subtitle_text_is_cleaned_line_by_line() {
    assert_eq!(clean_subtitle_text("  a \r\n\n  b  \n   \n"), "a\nb");
    assert_eq!(clean_subtitle_text_one_line(" a \n b  c "), "a b c");
    assert_eq!(
        transcript_text_from_chunks(&[" x ".to_string(), "  ".to_string(), "y\nz".to_string()]),
        "x\ny\nz"
    );
}

#[test]
fn marker_text_drops_tags_and_is_cut_to_length() {
    assert_eq!(clean_resolve_marker_text("<i>a|b</i>   c", 180), "a/b c");
    assert_eq!(clean_resolve_marker_text("<b></b>  ", 180), "Subtitle marker");
    assert_eq!(clean_resolve_marker_text("abc def", 5), "abc...");
    assert_eq!(clean_resolve_marker_text("abcdef", 0), "...");
}

#[test]
fn formats_timeline_timestamp_as_davinci_timecode() {
    // 80.5 seconds at 25 frames per second.
    assert_eq!(frames_to_davinci_timecode(2012), "00:01:20:12");
    assert_eq!(frames_to_davinci_timecode(90_000), "01:00:00:00");
    assert_eq!(frames_to_davinci_timecode(90_000 * 123 + 1), "123:00:00:01");
}

#[test]
fn formats_srt_timestamp_with_standard_millisecond_comma() {
    assert_eq!(srt_timestamp(80_500), "00:01:20,500");
    assert_eq!(srt_timestamp(3_600_007), "01:00:00,007");
}

fn cue(text: &str, start: u64, end: u64) -> SubtitleCue {
    SubtitleCue { text: text.to_string(), start, end }
}

#[test]
fn timeline_and_srt_outputs_skip_empty_cues() {
    let cues = vec![cue("hello", 0, 25), cue("  ", 25, 50), cue("two\nlines", 50, 75)];
    assert_eq!(
        timeline_text_from_segments(&cues),
        "[00:00:00:00 --> 00:00:01:00]\nhello\n[00:00:02:00 --> 00:00:03:00]\ntwo\nlines"
    );
    assert_eq!(
        timeline_txt_text_from_segments(&cues),
        "[00:00:00:00 --> 00:00:01:00] hello\n[00:00:02:00 --> 00:00:03:00] two lines"
    );
    let srt_cues = vec![cue("hello", 0, 1000), cue("", 1000, 2000), cue("bye", 2000, 3500)];
    assert_eq!(
        srt_text_from_segments(&srt_cues),
        "1\n00:00:00,000 --> 00:00:01,000\nhello\n\n2\n00:00:02,000 --> 00:00:03,500\nbye"
    );
}

#[test]
fn marker_list_has_one_frame_markers() {
    let edl = resolve_marker_edl_from_segments("sample", &[cue("hello", 0, 25)]);
    assert!(edl.contains("TITLE: sample"));
    assert!(edl.contains("FCM: NON-DROP FRAME"));
    assert!(edl.contains("01:00:00:00 01:00:00:01"));
    assert!(edl.contains("|C:ResolveColorYellow |M:hello |D:1"));
    assert_eq!(
        edl,
        "TITLE: sample\nFCM: NON-DROP FRAME\n\n001  001      V     C        01:00:00:00 01:00:00:01 01:00:00:00 01:00:00:01\n |C:ResolveColorYellow |M:hello |D:1\n"
    );
}

#[test]
fn chunks_never_open_with_punctuation_when_the_text_does_not() {
    let text = "甲".repeat(30) + "，" + &"乙".repeat(60) + "。。" + &"丙".repeat(90) + "、！";
    let chunks = split_text_into_chunks(&text);
    assert!(chunks.len() >= 2);
    for chunk in &chunks {
        let first = chunk.chars().next().expect("nonempty chunk");
        assert!(!is_leading_punctuation(first), "chunk opens with {first}");
    }
    assert_eq!(chunks.concat(), text);
}

#[test]
fn subtitle_lines_are_weighted_by_visible_characters() {
    let lines = vec!["你好 世界".to_string(), "   ".to_string(), "a\tb\u{3000}c".to_string()];
    assert_eq!(segment_char_weights(&lines), vec![4, 1, 3]);
    assert!(segment_char_weights(&[]).is_empty());
}

#[test]
fn marker_text_is_one_non_empty_line() {
    for (text, max) in [("a|b\nc", 80), ("", 10), ("<i></i>   ", 5), ("x|y z w v", 4), ("|||", 0)] {
        let m = clean_resolve_marker_text(text, max);
        assert!(!m.is_empty());
        assert!(!m.contains('|') && !m.contains('\n'));
    }
    assert_eq!(clean_resolve_marker_text("a|b\nc", 80), "a/b c");
}

#[test]
fn chunks_are_trimmed_and_none_after_the_first_opens_with_punctuation() {
    assert!(split_text_into_chunks(" \n\t ").is_empty());
    let chunks = split_text_into_chunks("，开头。 第二句。  ，第三句");
    assert!(!chunks.is_empty());
    for (i, c) in chunks.iter().enumerate() {
        assert!(!c.is_empty());
        assert_eq!(c.trim(), c);
        if i > 0 {
            assert!(!c.starts_with('，') && !c.starts_with('。'));
        }
    }
}
