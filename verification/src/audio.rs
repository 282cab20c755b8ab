//! Audio tool plumbing that is pure text: output file names and folders,
//! ffmpeg arguments and filter graphs, runtime locations and messages.
use vstd::prelude::*;
use crate::paths::{
    drive_len, extension, extension_exec, file_name, file_name_exec, file_stem, file_stem_exec,
    is_sep, join, join_exec, parent, parent_exec, char_is_sep,
};
use crate::text::{
    append_str, chars_of, decimal, decimal_string, decimal_string_u128, hex_padded16, hex, join as
    join_text, join_strings, lit, lower_ascii_seq, lower_ascii_vec, replace, replace_str, str_eq,
    string_of, trim, trim_str, views, zero_pad, zero_padded, push_char,
};

verus! {

broadcast use vstd::string::group_string_axioms;

// ---------------------------------------------------------------------------
// Output locations
// ---------------------------------------------------------------------------

/// A trimmed, non-blank optional path.
pub open spec fn cleaned_path(v: Option<Seq<char>>) -> Option<Seq<char>> {
    match v {
        Some(s) => if trim(s).len() > 0 {
            Some(trim(s))
        } else {
            None
        },
        None => None,
    }
}

pub open spec fn opt_view(v: Option<&str>) -> Option<Seq<char>> {
    match v {
        Some(s) => Some(s@),
        None => None,
    }
}

pub fn clean_optional_path(value: Option<&str>) -> (r: Option<String>)
    ensures
        match r {
            Some(s) => cleaned_path(opt_view(value)) == Some(s@),
            None => cleaned_path(opt_view(value)) is None,
        },
{
    match value {
        Some(v) => {
            let t = trim_str(v);
            if t.as_str().unicode_len() > 0 {
                Some(t)
            } else {
                None
            }
        },
        None => None,
    }
}

/// The folder an output goes to: the requested one, else the source's folder,
/// else the working directory (`None` when that is needed and unknown).
pub open spec fn output_dir(
    source: Seq<char>,
    destination: Option<Seq<char>>,
    working_dir: Option<Seq<char>>,
) -> Option<Seq<char>> {
    match cleaned_path(destination) {
        Some(d) => Some(d),
        None => match parent(source) {
            Some(p) => if p.len() > 0 {
                Some(p)
            } else {
                working_dir
            },
            None => working_dir,
        },
    }
}

pub fn output_dir_near_source(
    source_path: &str,
    destination_dir: Option<&str>,
    working_dir: Option<&str>,
) -> (r: Option<String>)
    ensures
        match r {
            Some(d) => output_dir(source_path@, opt_view(destination_dir), opt_view(working_dir))
                == Some(d@),
            None => output_dir(source_path@, opt_view(destination_dir), opt_view(working_dir)) is None,
        },
{
    if let Some(d) = clean_optional_path(destination_dir) {
        return Some(d);
    }
    if let Some(p) = parent_exec(source_path) {
        if p.as_str().unicode_len() > 0 {
            return Some(p);
        }
    }
    match working_dir {
        Some(w) => Some(lit(w)),
        None => None,
    }
}

/// The last component of a suggested name, when there is a non-blank one;
/// otherwise the fallback.
pub open spec fn safe_name(suggested: Option<Seq<char>>, fallback: Seq<char>) -> Seq<char> {
    match cleaned_path(suggested) {
        Some(s) => match file_name(s) {
            Some(n) => if trim(n).len() > 0 {
                n
            } else {
                fallback
            },
            None => fallback,
        },
        None => fallback,
    }
}

pub fn safe_output_file_name(suggested_name: Option<&str>, fallback: String) -> (r: String)
    ensures
        r@ == safe_name(opt_view(suggested_name), fallback@),
{
    match clean_optional_path(suggested_name) {
        Some(s) => match file_name_exec(s.as_str()) {
            Some(n) => if trim_str(n.as_str()).as_str().unicode_len() > 0 {
                n
            } else {
                fallback
            },
            None => fallback,
        },
        None => fallback,
    }
}

pub open spec fn stem_or(p: Seq<char>, default: Seq<char>) -> Seq<char> {
    match file_stem(p) {
        Some(s) => s,
        None => default,
    }
}

fn stem_or_exec(p: &str, default: &str) -> (r: String)
    ensures
        r@ == stem_or(p@, default@),
{
    match file_stem_exec(p) {
        Some(s) => s,
        None => lit(default),
    }
}

pub open spec fn segment_output_path(
    source: Seq<char>,
    destination: Option<Seq<char>>,
    suggested: Option<Seq<char>>,
    timestamp: nat,
    working_dir: Option<Seq<char>>,
) -> Option<Seq<char>> {
    let fallback = stem_or(source, "segment"@) + "-segment-"@ + decimal(timestamp) + ".wav"@;
    match output_dir(source, destination, working_dir) {
        Some(d) => Some(join(d, safe_name(suggested, fallback))),
        None => None,
    }
}

/// Where an exported segment is written: the suggested file name, else
/// `<stem>-segment-<timestamp>.wav`, in the output folder.
pub fn audio_segment_output_path(
    source_path: &str,
    destination_dir: Option<&str>,
    suggested_name: Option<&str>,
    timestamp: u128,
    working_dir: Option<&str>,
) -> (r: Option<String>)
    ensures
        match r {
            Some(p) => segment_output_path(
                source_path@,
                opt_view(destination_dir),
                opt_view(suggested_name),
                timestamp as nat,
                opt_view(working_dir),
            ) == Some(p@),
            None => segment_output_path(
                source_path@,
                opt_view(destination_dir),
                opt_view(suggested_name),
                timestamp as nat,
                opt_view(working_dir),
            ) is None,
        },
{
    let mut fallback = stem_or_exec(source_path, "segment");
    append_str(&mut fallback, "-segment-");
    append_str(&mut fallback, decimal_string_u128(timestamp).as_str());
    append_str(&mut fallback, ".wav");
    let name = safe_output_file_name(suggested_name, fallback);
    match output_dir_near_source(source_path, destination_dir, working_dir) {
        Some(d) => Some(join_exec(d.as_str(), name.as_str())),
        None => None,
    }
}

pub open spec fn processed_output_path(
    input: Seq<char>,
    preset_slug: Seq<char>,
    destination: Option<Seq<char>>,
    timestamp: nat,
    working_dir: Option<Seq<char>>,
) -> Option<Seq<char>> {
    match output_dir(input, destination, working_dir) {
        Some(d) => Some(
            join(
                d,
                stem_or(input, "audio"@) + seq!['-'] + preset_slug + seq!['-'] + decimal(timestamp)
                    + ".wav"@,
            ),
        ),
        None => None,
    }
}

/// Where a processed file is written: `<stem>-<preset>-<timestamp>.wav` in
/// the output folder.
pub fn processed_audio_output_path(
    input_path: &str,
    preset_slug: &str,
    destination_dir: Option<&str>,
    timestamp: u128,
    working_dir: Option<&str>,
) -> (r: Option<String>)
    ensures
        match r {
            Some(p) => processed_output_path(
                input_path@,
                preset_slug@,
                opt_view(destination_dir),
                timestamp as nat,
                opt_view(working_dir),
            ) == Some(p@),
            None => processed_output_path(
                input_path@,
                preset_slug@,
                opt_view(destination_dir),
                timestamp as nat,
                opt_view(working_dir),
            ) is None,
        },
{
    let dash = lit("-");
    proof {
        reveal_strlit("-");
        assert(dash@ =~= seq!['-']);
    }
    let mut name = stem_or_exec(input_path, "audio");
    append_str(&mut name, dash.as_str());
    append_str(&mut name, preset_slug);
    append_str(&mut name, dash.as_str());
    append_str(&mut name, decimal_string_u128(timestamp).as_str());
    append_str(&mut name, ".wav");
    match output_dir_near_source(input_path, destination_dir, working_dir) {
        Some(d) => Some(join_exec(d.as_str(), name.as_str())),
        None => None,
    }
}

// ---------------------------------------------------------------------------
// Output formats
// ---------------------------------------------------------------------------

pub open spec fn supported_output_format(f: Seq<char>) -> bool {
    f == "wav"@ || f == "mp3"@ || f == "m4a"@ || f == "aac"@ || f == "flac"@ || f == "ogg"@ || f
        == "opus"@
}

/// A time in whole milliseconds written as seconds with three decimals
/// (`format!("{:.3}", seconds)`).
pub open spec fn seconds_text(millis: nat) -> Seq<char> {
    decimal(millis / 1000) + seq!['.'] + zero_pad(decimal(millis % 1000), 3)
}

pub fn seconds_text_exec(millis: u64) -> (r: String)
    ensures
        r@ == seconds_text(millis as nat),
{
    let mut r = decimal_string(millis / 1000);
    push_char(&mut r, '.');
    append_str(&mut r, zero_padded(millis % 1000, 3).as_str());
    r
}

/// The seek and length of an exported segment, in milliseconds: 150 ms of
/// margin on each side, never before the start of the file, and at least
/// 100 ms long.
pub open spec fn segment_window(start_millis: nat, end_millis: nat) -> (nat, nat) {
    let start = if start_millis >= 150 {
        (start_millis - 150) as nat
    } else {
        0
    };
    let end = if end_millis + 150 >= start + 100 {
        end_millis + 150
    } else {
        start + 100
    };
    let duration = if end - start >= 100 {
        (end - start) as nat
    } else {
        100
    };
    (start, duration)
}

/// ffmpeg's arguments for one segment: the seek before the input, the
/// length after it.
pub fn audio_segment_ffmpeg_args(start_millis: u64, end_millis: u64) -> (r: (Vec<String>, Vec<String>))
    requires
        end_millis + 150 <= u64::MAX,
        start_millis + 100 <= u64::MAX,
    ensures
        views(r.0@) == seq!["-ss"@, seconds_text(segment_window(start_millis as nat, end_millis as nat).0)],
        views(r.1@) == seq!["-t"@, seconds_text(segment_window(start_millis as nat, end_millis as nat).1)],
{
    let start: u64 = if start_millis >= 150 {
        start_millis - 150
    } else {
        0
    };
    let end: u64 = if end_millis + 150 >= start + 100 {
        end_millis + 150
    } else {
        start + 100
    };
    let duration: u64 = if end - start >= 100 {
        end - start
    } else {
        100
    };
    let pre = vec![lit("-ss"), seconds_text_exec(start)];
    let post = vec![lit("-t"), seconds_text_exec(duration)];
    assert(views(pre@) =~= seq!["-ss"@, seconds_text(start as nat)]);
    assert(views(post@) =~= seq!["-t"@, seconds_text(duration as nat)]);
    (pre, post)
}

/// Why a list of clip segments, given as start and end milliseconds, cannot
/// be exported, if it cannot.
pub open spec fn clip_segments_problem(segments: Seq<(u64, u64)>) -> Option<Seq<char>> {
    if segments.len() == 0 {
        Some("At least one clip segment is required."@)
    } else if exists|i: int| 0 <= i < segments.len() && #[trigger] segments[i].1 <= segments[i].0 {
        Some("Every clip segment end time must be after start time."@)
    } else {
        None
    }
}

pub fn check_clip_segments(segments: &[(u64, u64)]) -> (r: Option<String>)
    ensures
        match (r, clip_segments_problem(segments@)) {
            (Some(m), Some(p)) => m@ == p,
            (None, None) => true,
            _ => false,
        },
{
    if segments.len() == 0 {
        return Some(lit("At least one clip segment is required."));
    }
    let mut i: usize = 0;
    while i < segments.len()
        invariant
            0 <= i <= segments@.len(),
            forall|k: int| 0 <= k < i ==> #[trigger] segments@[k].1 > segments@[k].0,
        decreases segments@.len() - i,
    {
        if segments[i].1 <= segments[i].0 {
            assert(segments@[i as int].1 <= segments@[i as int].0);
            return Some(lit("Every clip segment end time must be after start time."));
        }
        i += 1;
    }
    None
}

/// ffmpeg's arguments for one exported clip: the seek before the input and
/// the clip's length, at least one millisecond, after it.
pub fn clip_segment_ffmpeg_args(start_millis: u64, end_millis: u64) -> (r: (Vec<String>, Vec<String>))
    ensures
        views(r.0@) == seq!["-ss"@, seconds_text(start_millis as nat)],
        views(r.1@) == seq![
            "-t"@,
            seconds_text(if end_millis > start_millis + 1 {
                (end_millis - start_millis) as nat
            } else {
                1
            }),
        ],
{
    let duration: u64 = if end_millis > start_millis && end_millis - start_millis > 1 {
        end_millis - start_millis
    } else {
        1
    };
    let pre = vec![lit("-ss"), seconds_text_exec(start_millis)];
    let post = vec![lit("-t"), seconds_text_exec(duration)];
    assert(views(pre@) =~= seq!["-ss"@, seconds_text(start_millis as nat)]);
    assert(views(post@) =~= seq!["-t"@, seconds_text(duration as nat)]);
    (pre, post)
}

/// The name of the `index`-th numbered piece (from 1): `clip-001`.
pub fn numbered_piece_name(prefix: &str, index: u64) -> (r: String)
    ensures
        r@ == prefix@ + seq!['-'] + zero_pad(decimal(index as nat), 3),
{
    let mut r = lit(prefix);
    push_char(&mut r, '-');
    append_str(&mut r, zero_padded(index, 3).as_str());
    r
}

/// The file extension of a supported output format (the format's own name).
pub fn audio_output_extension(format: &str) -> (r: Result<String, String>)
    ensures
        supported_output_format(format@) <==> r is Ok,
        r matches Ok(e) ==> e@ == format@,
        r matches Err(m) ==> m@ == "Unsupported output format: "@ + format@,
{
    if str_eq(format, "wav") || str_eq(format, "mp3") || str_eq(format, "m4a") || str_eq(
        format,
        "aac",
    ) || str_eq(format, "flac") || str_eq(format, "ogg") || str_eq(format, "opus") {
        Ok(lit(format))
    } else {
        let mut m = lit("Unsupported output format: ");
        append_str(&mut m, format);
        Err(m)
    }
}

/// The ffmpeg encoder arguments for an output format.
pub open spec fn codec_args(format: Seq<char>) -> Seq<Seq<char>> {
    if format == "wav"@ {
        seq!["-vn"@, "-acodec"@, "pcm_s16le"@, "-ar"@, "48000"@, "-ac"@, "1"@]
    } else if format == "mp3"@ {
        seq!["-vn"@, "-acodec"@, "libmp3lame"@, "-b:a"@, "192k"@]
    } else if format == "m4a"@ || format == "aac"@ {
        seq!["-vn"@, "-acodec"@, "aac"@, "-b:a"@, "192k"@]
    } else if format == "flac"@ {
        seq!["-vn"@, "-acodec"@, "flac"@]
    } else if format == "ogg"@ {
        seq!["-vn"@, "-acodec"@, "libvorbis"@, "-q:a"@, "5"@]
    } else {
        seq!["-vn"@, "-acodec"@, "libopus"@, "-b:a"@, "128k"@]
    }
}

fn strings_of(parts: &[&str]) -> (r: Vec<String>)
    ensures
        views(r@) == parts@.map_values(|p: &str| p@),
{
    let mut r: Vec<String> = Vec::new();
    let mut i: usize = 0;
    while i < parts.len()
        invariant
            0 <= i <= parts@.len(),
            views(r@) == parts@.take(i as int).map_values(|p: &str| p@),
        decreases parts@.len() - i,
    {
        let ghost before = views(r@);
        r.push(lit(parts[i]));
        assert(views(r@) =~= before.push(parts@[i as int]@));
        assert(parts@.take(i + 1).map_values(|p: &str| p@) =~= parts@.take(i as int).map_values(
            |p: &str| p@,
        ).push(parts@[i as int]@));
        i += 1;
    }
    assert(parts@.take(parts@.len() as int) =~= parts@);
    r
}

/// Stream copy keeps the audio stream as it is; otherwise the format's encoder
/// is chosen. Unsupported formats are refused either way only when encoding.
pub fn audio_output_codec_args(format: &str, stream_copy: bool) -> (r: Result<Vec<String>, String>)
    ensures
        stream_copy ==> (r matches Ok(v) && views(v@) == seq!["-vn"@, "-c:a"@, "copy"@]),
        !stream_copy ==> (r is Ok <==> supported_output_format(format@)),
        !stream_copy ==> (r matches Ok(v) ==> views(v@) == codec_args(format@)),
        !stream_copy ==> (r matches Err(m) ==> m@ == "Unsupported output format: "@ + format@),
{
    if stream_copy {
        let v = strings_of(&["-vn", "-c:a", "copy"]);
        assert(views(v@) =~= seq!["-vn"@, "-c:a"@, "copy"@]);
        return Ok(v);
    }
    let ext = match audio_output_extension(format) {
        Ok(e) => e,
        Err(m) => return Err(m),
    };
    let e = ext.as_str();
    let v = if str_eq(e, "wav") {
        strings_of(&["-vn", "-acodec", "pcm_s16le", "-ar", "48000", "-ac", "1"])
    } else if str_eq(e, "mp3") {
        strings_of(&["-vn", "-acodec", "libmp3lame", "-b:a", "192k"])
    } else if str_eq(e, "m4a") || str_eq(e, "aac") {
        strings_of(&["-vn", "-acodec", "aac", "-b:a", "192k"])
    } else if str_eq(e, "flac") {
        strings_of(&["-vn", "-acodec", "flac"])
    } else if str_eq(e, "ogg") {
        strings_of(&["-vn", "-acodec", "libvorbis", "-q:a", "5"])
    } else {
        strings_of(&["-vn", "-acodec", "libopus", "-b:a", "128k"])
    };
    assert(views(v@) =~= codec_args(format@));
    Ok(v)
}

/// The file name with its extension set to `ext`, or `ext` appended when it
/// has none.
pub open spec fn with_output_extension(name: Seq<char>, ext: Seq<char>) -> Seq<char> {
    if extension(name) is Some {
        file_stem(name)->0 + seq!['.'] + ext
    } else {
        name + seq!['.'] + ext
    }
}

pub open spec fn tool_output_path(
    input: Seq<char>,
    suffix: Seq<char>,
    format: Seq<char>,
    destination: Option<Seq<char>>,
    timestamp: nat,
    suggested: Option<Seq<char>>,
    working_dir: Option<Seq<char>>,
) -> Option<Seq<char>> {
    let fallback = stem_or(input, "audio"@) + seq!['-'] + suffix + seq!['-'] + decimal(timestamp)
        + seq!['.'] + format;
    let name = with_output_extension(safe_name(suggested, fallback), format);
    match output_dir(input, destination, working_dir) {
        Some(d) => Some(join(d, name)),
        None => None,
    }
}

fn push_strings(out: &mut Vec<String>, items: &Vec<String>)
    ensures
        views(final(out)@) == views(old(out)@) + views(items@),
{
    let mut i: usize = 0;
    while i < items.len()
        invariant
            0 <= i <= items@.len(),
            views(out@) == views(old(out)@) + views(items@).take(i as int),
        decreases items@.len() - i,
    {
        let ghost before = views(out@);
        out.push(items[i].clone());
        assert(views(out@) =~= before.push(items@[i as int]@));
        assert(views(items@).take(i + 1) =~= views(items@).take(i as int).push(items@[i as int]@));
        i += 1;
    }
    assert(views(items@).take(items@.len() as int) =~= views(items@));
}

/// The ffmpeg command line that writes `output` in `output_format` from
/// `input`, with `pre_input` before the input and `post_input` after it.
pub fn ffmpeg_general_args(
    pre_input: &Vec<String>,
    input: &str,
    post_input: &Vec<String>,
    output_format: &str,
    stream_copy: bool,
    output: &str,
) -> (r: Result<Vec<String>, String>)
    ensures
        match (r, audio_output_codec_args_spec(output_format@, stream_copy)) {
            (Ok(v), Ok(codec)) => views(v@) == seq!["-y"@] + views(pre_input@) + seq!["-i"@, input@]
                + views(post_input@) + codec + seq![output@],
            (Err(m), Err(e)) => m@ == e,
            _ => false,
        },
{
    let codec = match audio_output_codec_args(output_format, stream_copy) {
        Ok(c) => c,
        Err(e) => return Err(e),
    };
    let mut args: Vec<String> = Vec::new();
    args.push(lit("-y"));
    push_strings(&mut args, pre_input);
    let ghost a = views(args@);
    args.push(lit("-i"));
    args.push(lit(input));
    assert(views(args@) =~= a + seq!["-i"@, input@]);
    push_strings(&mut args, post_input);
    push_strings(&mut args, &codec);
    let ghost b = views(args@);
    args.push(lit(output));
    assert(views(args@) =~= b.push(output@));
    assert(views(args@) =~= seq!["-y"@] + views(pre_input@) + seq!["-i"@, input@] + views(
        post_input@,
    ) + views(codec@) + seq![output@]);
    Ok(args)
}

/// The ffmpeg command line that converts `input` to the 16 kHz mono 16-bit
/// WAV the recognizers read.
pub fn sherpa_transcode_args(input: &str, output: &str) -> (r: Vec<String>)
    ensures
        views(r@) == seq![
            "-y"@,
            "-i"@,
            input@,
            "-vn"@,
            "-ac"@,
            "1"@,
            "-ar"@,
            "16000"@,
            "-sample_fmt"@,
            "s16"@,
            output@,
        ],
{
    let r = strings_of(&["-y", "-i", input, "-vn", "-ac", "1", "-ar", "16000", "-sample_fmt", "s16", output]);
    assert(views(r@) =~= seq![
        "-y"@,
        "-i"@,
        input@,
        "-vn"@,
        "-ac"@,
        "1"@,
        "-ar"@,
        "16000"@,
        "-sample_fmt"@,
        "s16"@,
        output@,
    ]);
    r
}

/// What `audio_output_codec_args` gives, as a value.
pub open spec fn audio_output_codec_args_spec(format: Seq<char>, stream_copy: bool) -> Result<
    Seq<Seq<char>>,
    Seq<char>,
> {
    if stream_copy {
        Ok(seq!["-vn"@, "-c:a"@, "copy"@])
    } else if supported_output_format(format) {
        Ok(codec_args(format))
    } else {
        Err("Unsupported output format: "@ + format)
    }
}

/// The ffmpeg command line that writes `output` as 48 kHz mono 16-bit PCM.
pub fn ffmpeg_pcm_args(pre_input: &Vec<String>, input: &str, post_input: &Vec<String>, output: &str) -> (r:
    Vec<String>)
    ensures
        views(r@) == seq!["-y"@] + views(pre_input@) + seq!["-i"@, input@] + views(post_input@)
            + seq!["-vn"@, "-acodec"@, "pcm_s16le"@, "-ar"@, "48000"@, "-ac"@, "1"@, output@],
{
    let mut args: Vec<String> = Vec::new();
    args.push(lit("-y"));
    push_strings(&mut args, pre_input);
    let ghost a = views(args@);
    args.push(lit("-i"));
    args.push(lit(input));
    assert(views(args@) =~= a + seq!["-i"@, input@]);
    push_strings(&mut args, post_input);
    let tail = strings_of(&["-vn", "-acodec", "pcm_s16le", "-ar", "48000", "-ac", "1", output]);
    push_strings(&mut args, &tail);
    assert(views(args@) =~= seq!["-y"@] + views(pre_input@) + seq!["-i"@, input@] + views(
        post_input@,
    ) + seq!["-vn"@, "-acodec"@, "pcm_s16le"@, "-ar"@, "48000"@, "-ac"@, "1"@, output@]);
    args
}

/// Where a converted, clipped or merged file is written: the suggested name
/// (its extension replaced by the format's) or `<stem>-<suffix>-<timestamp>`,
/// in the output folder. Unsupported formats are refused; `Ok(None)` when the
/// working directory is needed and unknown.
pub fn audio_tool_output_path(
    input_path: &str,
    suffix: &str,
    output_format: &str,
    destination_dir: Option<&str>,
    timestamp: u128,
    suggested_name: Option<&str>,
    working_dir: Option<&str>,
) -> (r: Result<Option<String>, String>)
    ensures
        r is Ok <==> supported_output_format(output_format@),
        r matches Err(m) ==> m@ == "Unsupported output format: "@ + output_format@,
        r matches Ok(o) ==> match o {
            Some(p) => tool_output_path(
                input_path@,
                suffix@,
                output_format@,
                opt_view(destination_dir),
                timestamp as nat,
                opt_view(suggested_name),
                opt_view(working_dir),
            ) == Some(p@),
            None => tool_output_path(
                input_path@,
                suffix@,
                output_format@,
                opt_view(destination_dir),
                timestamp as nat,
                opt_view(suggested_name),
                opt_view(working_dir),
            ) is None,
        },
{
    let ext = match audio_output_extension(output_format) {
        Ok(e) => e,
        Err(m) => return Err(m),
    };
    let dash = lit("-");
    let dot = lit(".");
    proof {
        reveal_strlit("-");
        reveal_strlit(".");
        assert(dash@ =~= seq!['-']);
        assert(dot@ =~= seq!['.']);
    }
    let mut fallback = stem_or_exec(input_path, "audio");
    append_str(&mut fallback, dash.as_str());
    append_str(&mut fallback, suffix);
    append_str(&mut fallback, dash.as_str());
    append_str(&mut fallback, decimal_string_u128(timestamp).as_str());
    append_str(&mut fallback, dot.as_str());
    append_str(&mut fallback, ext.as_str());
    let name = safe_output_file_name(suggested_name, fallback);
    let file = match extension_exec(name.as_str()) {
        Some(_) => {
            let mut f = match file_stem_exec(name.as_str()) {
                Some(s) => s,
                None => {
                    assert(false);
                    String::new()
                },
            };
            append_str(&mut f, dot.as_str());
            append_str(&mut f, ext.as_str());
            f
        },
        None => {
            let mut f = name;
            append_str(&mut f, dot.as_str());
            append_str(&mut f, ext.as_str());
            f
        },
    };
    match output_dir_near_source(input_path, destination_dir, working_dir) {
        Some(d) => Ok(Some(join_exec(d.as_str(), file.as_str()))),
        None => Ok(None),
    }
}

pub open spec fn supported_input_extension(e: Seq<char>) -> bool {
    let l = lower_ascii_seq(e);
    l == "wav"@ || l == "mp3"@ || l == "m4a"@ || l == "aac"@ || l == "flac"@ || l == "ogg"@ || l
        == "opus"@ || l == "wma"@ || l == "mp4"@ || l == "mov"@ || l == "mkv"@ || l == "webm"@
        || l == "avi"@
}

/// Audio and video files the tools accept, by extension in any ASCII case.
pub fn is_supported_audio_input(path: &str) -> (r: bool)
    ensures
        r == (extension(path@) matches Some(e) && supported_input_extension(e)),
{
    match extension_exec(path) {
        Some(e) => {
            let l = string_of(lower_ascii_vec(chars_of(e.as_str()).as_slice()).as_slice());
            let s = l.as_str();
            str_eq(s, "wav") || str_eq(s, "mp3") || str_eq(s, "m4a") || str_eq(s, "aac") || str_eq(
                s,
                "flac",
            ) || str_eq(s, "ogg") || str_eq(s, "opus") || str_eq(s, "wma") || str_eq(s, "mp4")
                || str_eq(s, "mov") || str_eq(s, "mkv") || str_eq(s, "webm") || str_eq(s, "avi")
        },
        None => false,
    }
}

/// The cached preview's file name: the source path's 64-bit hash in 16 hex
/// digits, a dash, and the source's file name (or `audio-preview.wav`).
pub open spec fn preview_name(source: Seq<char>, hash: u64) -> Seq<char> {
    let name = match file_name(source) {
        Some(n) => if trim(n).len() > 0 {
            n
        } else {
            "audio-preview.wav"@
        },
        None => "audio-preview.wav"@,
    };
    zero_pad(hex(hash as nat), 16) + seq!['-'] + name
}

/// `source_hash` is the hash of the source path's text.
pub fn audio_preview_file_name(source_path: &str, source_hash: u64) -> (r: String)
    ensures
        r@ == preview_name(source_path@, source_hash),
{
    let name = match file_name_exec(source_path) {
        Some(n) => if trim_str(n.as_str()).as_str().unicode_len() > 0 {
            n
        } else {
            lit("audio-preview.wav")
        },
        None => lit("audio-preview.wav"),
    };
    let dash = lit("-");
    proof {
        reveal_strlit("-");
        assert(dash@ =~= seq!['-']);
    }
    let mut r = hex_padded16(source_hash);
    append_str(&mut r, dash.as_str());
    append_str(&mut r, name.as_str());
    r
}

// ---------------------------------------------------------------------------
// ffmpeg arguments
// ---------------------------------------------------------------------------

pub open spec fn concat_line(path: Seq<char>) -> Seq<char> {
    "file '"@ + replace(replace(path, seq!['\\'], seq!['/']), seq!['\''], "'\\''"@) + seq!['\'']
}

/// A line of an ffmpeg concat list: forward slashes, quotes escaped.
pub fn ffmpeg_concat_line(path: &str) -> (r: String)
    ensures
        r@ == concat_line(path@),
{
    let backslash = lit("\\");
    let slash = lit("/");
    let quote = lit("'");
    proof {
        reveal_strlit("\\");
        reveal_strlit("/");
        reveal_strlit("'");
        assert(backslash@ =~= seq!['\\']);
        assert(slash@ =~= seq!['/']);
        assert(quote@ =~= seq!['\'']);
    }
    let forward = replace_str(path, backslash.as_str(), slash.as_str());
    let escaped = replace_str(forward.as_str(), quote.as_str(), "'\\''");
    let mut r = lit("file '");
    append_str(&mut r, escaped.as_str());
    append_str(&mut r, quote.as_str());
    r
}

/// The concat list ffmpeg reads to join `paths` in order.
pub fn merge_concat_text(paths: &Vec<String>) -> (r: String)
    ensures
        r@ == join_text(views(paths@).map_values(|p: Seq<char>| concat_line(p)), seq!['\n']),
{
    let mut lines: Vec<String> = Vec::new();
    let mut i: usize = 0;
    while i < paths.len()
        invariant
            0 <= i <= paths@.len(),
            views(lines@) == views(paths@).take(i as int).map_values(|p: Seq<char>| concat_line(p)),
        decreases paths@.len() - i,
    {
        let ghost before = views(lines@);
        lines.push(ffmpeg_concat_line(paths[i].as_str()));
        assert(views(lines@) =~= before.push(concat_line(paths@[i as int]@)));
        assert(views(paths@).take(i + 1).map_values(|p: Seq<char>| concat_line(p)) =~= views(
            paths@,
        ).take(i as int).map_values(|p: Seq<char>| concat_line(p)).push(
            concat_line(paths@[i as int]@),
        ));
        i += 1;
    }
    assert(views(paths@).take(paths@.len() as int) =~= views(paths@));
    let newline = lit("\n");
    proof {
        reveal_strlit("\n");
        assert(newline@ =~= seq!['\n']);
    }
    join_strings(&lines, newline.as_str())
}

/// Whether a merge copies the streams (`copy`) or encodes them again
/// (`reencode`); any other mode is refused.
pub fn merge_stream_copy(mode: &str) -> (r: Result<bool, String>)
    ensures
        mode@ == "copy"@ ==> r == Ok::<bool, String>(true),
        mode@ == "reencode"@ ==> r == Ok::<bool, String>(false),
        mode@ != "copy"@ && mode@ != "reencode"@ ==> (r matches Err(m) && m@
            == "Unsupported merge mode: "@ + mode@),
{
    assert("reencode"@ != "copy"@) by {
        reveal_strlit("copy");
        reveal_strlit("reencode");
        assert("reencode"@.len() == 8);
        assert("copy"@.len() == 4);
    }
    if str_eq(mode, "copy") {
        Ok(true)
    } else if str_eq(mode, "reencode") {
        Ok(false)
    } else {
        let mut m = lit("Unsupported merge mode: ");
        append_str(&mut m, mode);
        Err(m)
    }
}

/// Why the files cannot be merged, if they cannot: fewer than two, or the
/// first one that does not exist (`exists[i]` tells of `paths[i]`).
pub fn merge_sources_problem(paths: &Vec<String>, exists: &[bool]) -> (r: Option<String>)
    requires
        exists@.len() == paths@.len(),
    ensures
        paths@.len() < 2 ==> (r matches Some(m) && m@
            == "At least two audio files are required for merge."@),
        paths@.len() >= 2 ==> match r {
            None => forall|i: int| 0 <= i < paths@.len() ==> #[trigger] exists@[i],
            Some(m) => exists|i: int|
                0 <= i < paths@.len() && !#[trigger] exists@[i] && (forall|j: int|
                    0 <= j < i ==> exists@[j]) && m@ == "Merge source does not exist: "@
                    + paths@[i]@,
        },
{
    if paths.len() < 2 {
        return Some(lit("At least two audio files are required for merge."));
    }
    let mut i: usize = 0;
    while i < paths.len()
        invariant
            0 <= i <= paths@.len(),
            paths@.len() >= 2,
            exists@.len() == paths@.len(),
            forall|j: int| 0 <= j < i ==> exists@[j],
        decreases paths@.len() - i,
    {
        if !exists[i] {
            let mut m = lit("Merge source does not exist: ");
            append_str(&mut m, paths[i].as_str());
            assert(!exists@[i as int]);
            return Some(m);
        }
        i += 1;
    }
    None
}

/// The ffmpeg command line that joins the files of a concat list.
pub fn ffmpeg_concat_args(concat_path: &str, output_format: &str, stream_copy: bool, output: &str) -> (r:
    Result<Vec<String>, String>)
    ensures
        match (r, audio_output_codec_args_spec(output_format@, stream_copy)) {
            (Ok(v), Ok(codec)) => views(v@) == seq!["-y"@, "-f"@, "concat"@, "-safe"@, "0"@, "-i"@, concat_path@]
                + codec + seq![output@],
            (Err(m), Err(e)) => m@ == e,
            _ => false,
        },
{
    let codec = match audio_output_codec_args(output_format, stream_copy) {
        Ok(c) => c,
        Err(e) => return Err(e),
    };
    let mut args = strings_of(&["-y", "-f", "concat", "-safe", "0", "-i", concat_path]);
    push_strings(&mut args, &codec);
    let ghost b = views(args@);
    args.push(lit(output));
    assert(views(args@) =~= b.push(output@));
    assert(views(args@) =~= seq!["-y"@, "-f"@, "concat"@, "-safe"@, "0"@, "-i"@, concat_path@]
        + views(codec@) + seq![output@]);
    Ok(args)
}

/// The ffmpeg command line that mixes recorded tracks into one 48 kHz mono
/// WAV file.
pub fn recording_mix_args(inputs: &Vec<String>, output: &str) -> (r: Vec<String>)
    ensures
        views(r@) == seq!["-y"@] + input_flags(views(inputs@)) + seq![
            "-filter_complex"@,
            "amix=inputs="@ + decimal(inputs@.len() as nat) + ":duration=longest:dropout_transition=0"@,
            "-vn"@,
            "-acodec"@,
            "pcm_s16le"@,
            "-ar"@,
            "48000"@,
            "-ac"@,
            "1"@,
            output@,
        ],
{
    let mut args: Vec<String> = Vec::new();
    args.push(lit("-y"));
    let mut i: usize = 0;
    while i < inputs.len()
        invariant
            0 <= i <= inputs@.len(),
            views(args@) == seq!["-y"@] + input_flags(views(inputs@).take(i as int)),
        decreases inputs@.len() - i,
    {
        let ghost before = views(args@);
        args.push(lit("-i"));
        args.push(inputs[i].clone());
        assert(views(inputs@).take(i + 1).drop_last() =~= views(inputs@).take(i as int));
        assert(views(args@) =~= before + seq!["-i"@, inputs@[i as int]@]);
        i += 1;
    }
    assert(views(inputs@).take(inputs@.len() as int) =~= views(inputs@));
    let filter = recording_mix_filter(inputs.len());
    let tail = strings_of(&["-filter_complex", filter.as_str(), "-vn", "-acodec", "pcm_s16le", "-ar", "48000", "-ac", "1", output]);
    push_strings(&mut args, &tail);
    assert(views(args@) =~= seq!["-y"@] + input_flags(views(inputs@)) + seq![
        "-filter_complex"@,
        filter@,
        "-vn"@,
        "-acodec"@,
        "pcm_s16le"@,
        "-ar"@,
        "48000"@,
        "-ac"@,
        "1"@,
        output@,
    ]);
    args
}

/// `-i` before each input.
pub open spec fn input_flags(inputs: Seq<Seq<char>>) -> Seq<Seq<char>>
    decreases inputs.len(),
{
    if inputs.len() == 0 {
        Seq::empty()
    } else {
        input_flags(inputs.drop_last()) + seq!["-i"@, inputs.last()]
    }
}

/// Mixes the recorded tracks without raising their level.
pub fn recording_mix_filter(input_count: usize) -> (r: String)
    ensures
        r@ == "amix=inputs="@ + decimal(input_count as nat) + ":duration=longest:dropout_transition=0"@,
{
    let mut r = lit("amix=inputs=");
    append_str(&mut r, decimal_string(input_count as u64).as_str());
    append_str(&mut r, ":duration=longest:dropout_transition=0");
    r
}

/// The processing steps a user can turn on.
#[derive(Debug, Clone)]
pub struct AudioProcessingOptions {
    pub preset: String,
    pub normalize: bool,
    pub trim_silence: bool,
    pub hum_reduction: bool,
    pub voice_filter: bool,
    pub noise_reduction: bool,
}

/// The filters of the enabled steps, in processing order.
pub open spec fn filters_for(o: AudioProcessingOptions) -> Seq<Seq<char>> {
    (if o.trim_silence {
        seq![
            "silenceremove=start_periods=1:start_threshold=-45dB:start_silence=0.2"@,
            "areverse"@,
            "silenceremove=start_periods=1:start_threshold=-45dB:start_silence=0.3"@,
            "areverse"@,
        ]
    } else {
        Seq::empty()
    }) + (if o.voice_filter {
        seq!["highpass=f=80"@, "lowpass=f=7800"@]
    } else {
        Seq::empty()
    }) + (if o.hum_reduction {
        seq![
            "equalizer=f=50:t=q:w=1:g=-18"@,
            "equalizer=f=60:t=q:w=1:g=-18"@,
            "equalizer=f=100:t=q:w=1:g=-10"@,
            "equalizer=f=120:t=q:w=1:g=-10"@,
        ]
    } else {
        Seq::empty()
    }) + (if o.noise_reduction {
        seq!["afftdn=nf=-25"@]
    } else {
        Seq::empty()
    }) + (if o.normalize {
        seq!["loudnorm=I=-16:TP=-1.5:LRA=11"@]
    } else {
        Seq::empty()
    })
}

fn push_all(v: &mut Vec<String>, parts: &[&str])
    ensures
        views(final(v)@) == views(old(v)@) + parts@.map_values(|p: &str| p@),
{
    let ghost start = views(v@);
    let mut i: usize = 0;
    while i < parts.len()
        invariant
            0 <= i <= parts@.len(),
            views(v@) == start + parts@.take(i as int).map_values(|p: &str| p@),
        decreases parts@.len() - i,
    {
        let ghost before = views(v@);
        v.push(lit(parts[i]));
        assert(views(v@) =~= before.push(parts@[i as int]@));
        assert(parts@.take(i + 1).map_values(|p: &str| p@) =~= parts@.take(i as int).map_values(
            |p: &str| p@,
        ).push(parts@[i as int]@));
        i += 1;
    }
    assert(parts@.take(parts@.len() as int) =~= parts@);
}

/// The ffmpeg filter graph: the enabled filters joined by commas, or the
/// pass-through filter when none is enabled. Trailing silence is trimmed by
/// reversing the audio, so pauses inside the recording are kept.
pub fn audio_filter_chain(options: &AudioProcessingOptions) -> (r: String)
    ensures
        r@ == (if filters_for(*options).len() == 0 {
            "anull"@
        } else {
            join_text(filters_for(*options), seq![','])
        }),
{
    let mut filters: Vec<String> = Vec::new();
    let ghost mut expected: Seq<Seq<char>> = Seq::empty();
    if options.trim_silence {
        push_all(
            &mut filters,
            &[
                "silenceremove=start_periods=1:start_threshold=-45dB:start_silence=0.2",
                "areverse",
                "silenceremove=start_periods=1:start_threshold=-45dB:start_silence=0.3",
                "areverse",
            ],
        );
        proof {
            expected = expected + seq![
                "silenceremove=start_periods=1:start_threshold=-45dB:start_silence=0.2"@,
                "areverse"@,
                "silenceremove=start_periods=1:start_threshold=-45dB:start_silence=0.3"@,
                "areverse"@,
            ];
        }
    }
    assert(views(filters@) =~= expected);
    if options.voice_filter {
        push_all(&mut filters, &["highpass=f=80", "lowpass=f=7800"]);
        proof {
            expected = expected + seq!["highpass=f=80"@, "lowpass=f=7800"@];
        }
    }
    assert(views(filters@) =~= expected);
    if options.hum_reduction {
        push_all(
            &mut filters,
            &[
                "equalizer=f=50:t=q:w=1:g=-18",
                "equalizer=f=60:t=q:w=1:g=-18",
                "equalizer=f=100:t=q:w=1:g=-10",
                "equalizer=f=120:t=q:w=1:g=-10",
            ],
        );
        proof {
            expected = expected + seq![
                "equalizer=f=50:t=q:w=1:g=-18"@,
                "equalizer=f=60:t=q:w=1:g=-18"@,
                "equalizer=f=100:t=q:w=1:g=-10"@,
                "equalizer=f=120:t=q:w=1:g=-10"@,
            ];
        }
    }
    assert(views(filters@) =~= expected);
    if options.noise_reduction {
        push_all(&mut filters, &["afftdn=nf=-25"]);
        proof {
            expected = expected + seq!["afftdn=nf=-25"@];
        }
    }
    assert(views(filters@) =~= expected);
    if options.normalize {
        push_all(&mut filters, &["loudnorm=I=-16:TP=-1.5:LRA=11"]);
        proof {
            expected = expected + seq!["loudnorm=I=-16:TP=-1.5:LRA=11"@];
        }
    }
    assert(views(filters@) =~= expected);
    assert(views(filters@) =~= filters_for(*options));
    if filters.len() == 0 {
        return lit("anull");
    }
    let comma = lit(",");
    proof {
        reveal_strlit(",");
        assert(comma@ =~= seq![',']);
    }
    join_strings(&filters, comma.as_str())
}

pub open spec fn preset_slug(preset: Seq<char>) -> Option<Seq<char>> {
    if preset == "normalize"@ {
        Some("normalize"@)
    } else if preset == "trimSilence"@ {
        Some("trim-silence"@)
    } else if preset == "voiceBasic"@ {
        Some("voice-basic"@)
    } else if preset == "humReduction"@ {
        Some("hum-reduction"@)
    } else if preset == "lowHighPass"@ {
        Some("low-high-pass"@)
    } else {
        None
    }
}

/// The slug a known preset is written as in file names.
pub fn audio_processing_preset_slug(preset: &str) -> (r: Result<String, String>)
    ensures
        match r {
            Ok(s) => preset_slug(preset@) == Some(s@),
            Err(m) => preset_slug(preset@) is None && m@ == "Unsupported audio processing preset: "@
                + preset@,
        },
{
    if str_eq(preset, "normalize") {
        Ok(lit("normalize"))
    } else if str_eq(preset, "trimSilence") {
        Ok(lit("trim-silence"))
    } else if str_eq(preset, "voiceBasic") {
        Ok(lit("voice-basic"))
    } else if str_eq(preset, "humReduction") {
        Ok(lit("hum-reduction"))
    } else if str_eq(preset, "lowHighPass") {
        Ok(lit("low-high-pass"))
    } else {
        let mut m = lit("Unsupported audio processing preset: ");
        append_str(&mut m, preset);
        Err(m)
    }
}

// ---------------------------------------------------------------------------
// Runtimes and installs
// ---------------------------------------------------------------------------

/// The offline recognizer of a runtime, relative to the app data folder.
pub open spec fn runtime_relative_executable(runtime_name: Seq<char>) -> Seq<char> {
    join(
        join(join(join(join("engines"@, "sherpa"@), "v1.13.2"@), runtime_name), "bin"@),
        "sherpa-onnx-offline.exe"@,
    )
}

pub fn sherpa_runtime_relative_executable(runtime_name: &str) -> (r: String)
    ensures
        r@ == runtime_relative_executable(runtime_name@),
{
    let a = join_exec("engines", "sherpa");
    let b = join_exec(a.as_str(), "v1.13.2");
    let c = join_exec(b.as_str(), runtime_name);
    let d = join_exec(c.as_str(), "bin");
    join_exec(d.as_str(), "sherpa-onnx-offline.exe")
}

/// The runtime folder of a runtime's executable: two levels up (`bin` and
/// the executable dropped).
pub fn sherpa_runtime_dir_from_executable(executable: &str) -> (r: Result<String, String>)
    ensures
        match r {
            Ok(d) => (match parent(executable@) {
                Some(p) => parent(p),
                None => None,
            }) == Some(d@),
            Err(m) => (match parent(executable@) {
                Some(p) => parent(p),
                None => None,
            }) is None && m@ == "invalid Sherpa-ONNX executable path: "@ + executable@,
        },
{
    let up = match parent_exec(executable) {
        Some(p) => parent_exec(p.as_str()),
        None => None,
    };
    match up {
        Some(d) => Ok(d),
        None => {
            let mut m = lit("invalid Sherpa-ONNX executable path: ");
            append_str(&mut m, executable);
            Err(m)
        },
    }
}

/// Folders searched for a bundled ffmpeg, in order.
pub open spec fn ffmpeg_roots(
    data_dir: Seq<char>,
    resource_dir: Option<Seq<char>>,
    executable_dir: Option<Seq<char>>,
) -> Seq<Seq<char>> {
    seq![join(join(data_dir, "engines"@), "ffmpeg"@)] + match resource_dir {
        Some(r) => seq![join(join(r, "engines"@), "ffmpeg"@), join(r, "ffmpeg"@)],
        None => Seq::empty(),
    } + match executable_dir {
        Some(e) => seq![join(join(e, "engines"@), "ffmpeg"@), join(e, "ffmpeg"@)],
        None => Seq::empty(),
    }
}

pub fn ffmpeg_runtime_search_roots(
    data_dir: &str,
    resource_dir: Option<&str>,
    executable_dir: Option<&str>,
) -> (r: Vec<String>)
    ensures
        views(r@) == ffmpeg_roots(data_dir@, opt_view(resource_dir), opt_view(executable_dir)),
{
    let mut roots: Vec<String> = Vec::new();
    roots.push(join_exec(join_exec(data_dir, "engines").as_str(), "ffmpeg"));
    if let Some(r) = resource_dir {
        roots.push(join_exec(join_exec(r, "engines").as_str(), "ffmpeg"));
        roots.push(join_exec(r, "ffmpeg"));
    }
    if let Some(e) = executable_dir {
        roots.push(join_exec(join_exec(e, "engines").as_str(), "ffmpeg"));
        roots.push(join_exec(e, "ffmpeg"));
    }
    assert(views(roots@) =~= ffmpeg_roots(data_dir@, opt_view(resource_dir), opt_view(executable_dir)));
    roots
}

/// Where to put ffmpeg, listing every searched folder and the system PATH.
pub fn ffmpeg_missing_detail(roots: &Vec<String>) -> (r: String)
    ensures
        r@ == "ffmpeg.exe was not found. Place ffmpeg.exe under one of these folders, or add ffmpeg to PATH: "@
            + join_text(views(roots@).push("system PATH"@), " | "@)
            + ". Hi-Voicer will not download ffmpeg automatically."@,
{
    let mut locations: Vec<String> = Vec::new();
    let mut i: usize = 0;
    while i < roots.len()
        invariant
            0 <= i <= roots@.len(),
            views(locations@) == views(roots@).take(i as int),
        decreases roots@.len() - i,
    {
        let ghost before = views(locations@);
        locations.push(roots[i].clone());
        assert(views(locations@) =~= before.push(roots@[i as int]@));
        assert(views(roots@).take(i + 1) =~= views(roots@).take(i as int).push(roots@[i as int]@));
        i += 1;
    }
    assert(views(roots@).take(roots@.len() as int) =~= views(roots@));
    let ghost before = views(locations@);
    locations.push(lit("system PATH"));
    assert(views(locations@) =~= before.push("system PATH"@));
    let mut r = lit(
        "ffmpeg.exe was not found. Place ffmpeg.exe under one of these folders, or add ffmpeg to PATH: ",
    );
    append_str(&mut r, join_strings(&locations, " | ").as_str());
    append_str(&mut r, ". Hi-Voicer will not download ffmpeg automatically.");
    r
}

pub fn ffmpeg_missing_message() -> (r: String)
    ensures
        r@ == "ffmpeg is required for offline audio transcoding, subtitle segment export, recording mixdown, and audio processing. Install ffmpeg locally or place ffmpeg.exe under the app data engines\\ffmpeg folder or next to the application in an engines\\ffmpeg folder; Hi-Voicer will not download it automatically."@,
{
    lit(
        "ffmpeg is required for offline audio transcoding, subtitle segment export, recording mixdown, and audio processing. Install ffmpeg locally or place ffmpeg.exe under the app data engines\\ffmpeg folder or next to the application in an engines\\ffmpeg folder; Hi-Voicer will not download it automatically.",
    )
}

/// The pieces of a path between separators.
pub open spec fn path_parts_state(s: Seq<char>) -> (Seq<Seq<char>>, Seq<char>)
    decreases s.len(),
{
    if s.len() == 0 {
        (Seq::empty(), Seq::empty())
    } else {
        let prev = path_parts_state(s.drop_last());
        if is_sep(s.last()) {
            (prev.0.push(prev.1), Seq::empty())
        } else {
            (prev.0, prev.1.push(s.last()))
        }
    }
}

pub open spec fn path_parts(s: Seq<char>) -> Seq<Seq<char>> {
    path_parts_state(s).0.push(path_parts_state(s).1)
}

/// A model file path stays inside the model folder: no drive, no root, no
/// `..` component.
pub open spec fn relative_inside(p: Seq<char>) -> bool {
    drive_len(p) == 0 && !(p.len() > 0 && is_sep(p[0])) && !path_parts(p).contains(seq!['.', '.'])
}

pub fn ensure_relative_file_path(path: &str) -> (r: Result<String, String>)
    ensures
        r is Ok <==> relative_inside(path@),
        r matches Ok(p) ==> p@ == path@,
        r matches Err(m) ==> m@ == "invalid model file path: "@ + path@,
{
    let v = chars_of(path);
    let drive = v.len() >= 2 && v[1] == ':' && (('a' <= v[0] && v[0] <= 'z') || ('A' <= v[0]
        && v[0] <= 'Z'));
    let rooted = v.len() > 0 && char_is_sep(v[0]);
    let mut parent_dir = false;
    let mut done: Vec<String> = Vec::new();
    let mut cur = String::new();
    let mut i: usize = 0;
    while i < v.len()
        invariant
            0 <= i <= v@.len(),
            v@ == path@,
            (views(done@), cur@) == path_parts_state(v@.take(i as int)),
            parent_dir == views(done@).contains(seq!['.', '.']),
        decreases v@.len() - i,
    {
        assert(v@.take(i + 1).drop_last() =~= v@.take(i as int));
        if char_is_sep(v[i]) {
            let cv = chars_of(cur.as_str());
            let is_up = cv.len() == 2 && cv[0] == '.' && cv[1] == '.';
            proof {
                if is_up {
                    assert(cur@ =~= seq!['.', '.']);
                }
                if cur@ == seq!['.', '.'] {
                    assert(cv@[0] == '.' && cv@[1] == '.');
                }
            }
            let ghost before = views(done@);
            done.push(cur);
            cur = String::new();
            assert(views(done@) =~= before.push(done@[done@.len() - 1]@));
            parent_dir = parent_dir || is_up;
            proof {
                assert(views(done@).contains(seq!['.', '.']) <==> (before.contains(seq!['.', '.'])
                    || views(done@).last() == seq!['.', '.'])) by {
                    if views(done@).contains(seq!['.', '.']) {
                        let k = choose|k: int|
                            0 <= k < views(done@).len() && views(done@)[k] == seq!['.', '.'];
                        if k < before.len() {
                            assert(before[k] == seq!['.', '.']);
                        }
                    }
                    if before.contains(seq!['.', '.']) {
                        let k = choose|k: int| 0 <= k < before.len() && before[k] == seq!['.', '.'];
                        assert(views(done@)[k] == seq!['.', '.']);
                    }
                    if views(done@).last() == seq!['.', '.'] {
                        assert(views(done@)[views(done@).len() - 1] == seq!['.', '.']);
                    }
                }
            }
        } else {
            push_char(&mut cur, v[i]);
        }
        i += 1;
    }
    assert(v@.take(v@.len() as int) =~= v@);
    let cv = chars_of(cur.as_str());
    let last_up = cv.len() == 2 && cv[0] == '.' && cv[1] == '.';
    proof {
        if last_up {
            assert(cur@ =~= seq!['.', '.']);
        }
        if cur@ == seq!['.', '.'] {
            assert(cv@[0] == '.' && cv@[1] == '.');
        }
        let parts = path_parts(path@);
        assert(parts =~= views(done@).push(cur@));
        assert(parts.contains(seq!['.', '.']) <==> (views(done@).contains(seq!['.', '.'])
            || cur@ == seq!['.', '.'])) by {
            if parts.contains(seq!['.', '.']) {
                let k = choose|k: int| 0 <= k < parts.len() && parts[k] == seq!['.', '.'];
                if k < views(done@).len() {
                    assert(views(done@)[k] == seq!['.', '.']);
                }
            }
            if views(done@).contains(seq!['.', '.']) {
                let k = choose|k: int|
                    0 <= k < views(done@).len() && views(done@)[k] == seq!['.', '.'];
                assert(parts[k] == seq!['.', '.']);
            }
            if cur@ == seq!['.', '.'] {
                assert(parts[parts.len() - 1] == seq!['.', '.']);
            }
        }
    }
    if drive || rooted || parent_dir || last_up {
        let mut m = lit("invalid model file path: ");
        append_str(&mut m, path);
        Err(m)
    } else {
        Ok(lit(path))
    }
}

} // verus!
