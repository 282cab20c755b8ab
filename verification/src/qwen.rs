//! Qwen3-ASR text handling: the byte-level token alphabet, decoding generated
//! token ids to text, the prompt scaffold, and audio token counts.
use vstd::prelude::*;
use vstd::utf8::{decode_utf8, encode_utf8, valid_utf8};
use serde_json::Value;
use crate::acceleration::{parse_i64, parsed_i64};
use crate::sherpa_output::{find_exec, find_from};
use crate::text::{
    append_str, chars_of, debug_list, debug_list_string, decimal, decimal_string, ends_with, lit,
    push_char, replace, replace_str, signed_decimal, signed_decimal_string, starts_with,
    str_ends_with, str_eq, str_starts_with, string_of_range,
};

verus! {

broadcast use vstd::string::group_string_axioms;

// ---------------------------------------------------------------------------
// Audio token counts
// ---------------------------------------------------------------------------

/// Length after three convolutions with stride two, for a full chunk.
pub open spec fn conv_out_len(n: nat) -> nat {
    (((n + 1) / 2 + 1) / 2 + 1) / 2
}

/// Length after the same three convolutions, for the partial last chunk.
pub open spec fn after_cnn(n: nat) -> nat {
    if n == 0 {
        0
    } else {
        let a = (n - 1) as nat / 2 + 1;
        let b = (a - 1) as nat / 2 + 1;
        (b - 1) as nat / 2 + 1
    }
}

/// How many audio tokens the encoder produces for `feat_len` feature frames
/// processed in chunks of `chunk_size`.
pub open spec fn audio_tokens_len(feat_len: nat, chunk_size: nat) -> nat {
    if feat_len == 0 || chunk_size == 0 {
        0
    } else {
        (feat_len / chunk_size) * conv_out_len(chunk_size) + after_cnn(feat_len % chunk_size)
    }
}

fn conv_out_len_3x_stride2(n: usize) -> (r: usize)
    requires
        n < usize::MAX,
    ensures
        r == conv_out_len(n as nat),
        r <= n,
{
    let a = (n + 1) / 2;
    let b = (a + 1) / 2;
    (b + 1) / 2
}

fn after_cnn_exec(n: usize) -> (r: usize)
    ensures
        r == after_cnn(n as nat),
        r <= n,
{
    if n == 0 {
        return 0;
    }
    let a = (n - 1) / 2 + 1;
    let b = (a - 1) / 2 + 1;
    (b - 1) / 2 + 1
}

pub fn qwen_feat_to_audio_tokens_len(feat_len: usize, chunk_size: usize) -> (r: usize)
    requires
        chunk_size < usize::MAX,
    ensures
        r == audio_tokens_len(feat_len as nat, chunk_size as nat),
{
    if feat_len == 0 || chunk_size == 0 {
        return 0;
    }
    let full = feat_len / chunk_size;
    let rem = feat_len % chunk_size;
    let per_chunk = conv_out_len_3x_stride2(chunk_size);
    assert(full * per_chunk <= full * chunk_size) by (nonlinear_arith)
        requires
            per_chunk <= chunk_size,
    ;
    assert(full * chunk_size + rem == feat_len) by (nonlinear_arith)
        requires
            full == feat_len / chunk_size,
            rem == feat_len % chunk_size,
            chunk_size > 0,
    ;
    let tail = after_cnn_exec(rem);
    full * per_chunk + tail
}

pub open spec fn valid_audio_tokens(feat_frames: nat, conv_frames: nat) -> nat {
    let t = audio_tokens_len(feat_frames, 100);
    if t < conv_frames {
        t
    } else {
        conv_frames
    }
}

/// The audio tokens that carry speech: the count the features imply, at most
/// the frames the encoder produced.
pub fn qwen_valid_audio_tokens(feat_frames: usize, conv_frames: usize) -> (r: usize)
    ensures
        r == valid_audio_tokens(feat_frames as nat, conv_frames as nat),
{
    let t = qwen_feat_to_audio_tokens_len(feat_frames, 100);
    if t < conv_frames {
        t
    } else {
        conv_frames
    }
}

pub open spec fn is_feature_shape(shape: Seq<usize>) -> bool {
    shape.len() == 3 && shape[0] == 1 && shape[1] != 0 && shape[2] != 0
}

/// A `[1, frames, hidden]` feature tensor cut to its first `keep_frames`
/// frames, when that is fewer than it has and more than none, and its frame
/// count; a tensor of another shape is left alone.
pub open spec fn truncation<T>(shape: Seq<usize>, data: Seq<T>, keep_frames: nat) -> (
    Seq<usize>,
    Seq<T>,
    nat,
) {
    if !is_feature_shape(shape) {
        (shape, data, if shape.len() > 1 {
            shape[1] as nat
        } else {
            0
        })
    } else {
        let frames = shape[1] as nat;
        let hidden = shape[2] as nat;
        let keep = if keep_frames < frames {
            keep_frames
        } else {
            frames
        };
        if 0 < keep < frames && keep * hidden <= usize::MAX {
            (
                shape.update(1, keep as usize),
                data.take(
                    if keep * hidden < data.len() {
                        (keep * hidden) as int
                    } else {
                        data.len() as int
                    },
                ),
                keep,
            )
        } else {
            (shape, data, frames)
        }
    }
}

/// Keeps the first `keep_frames` frames of a `[1, frames, hidden]` feature
/// tensor and returns its frame count.
pub fn truncate_qwen_audio_features<T>(shape: &mut Vec<usize>, data: &mut Vec<T>, keep_frames: usize) -> (r:
    usize)
    ensures
        (final(shape)@, final(data)@, r as nat) == truncation(old(shape)@, old(data)@, keep_frames as nat),
{
    if shape.len() != 3 || shape[0] != 1 || shape[1] == 0 || shape[2] == 0 {
        return if shape.len() > 1 {
            shape[1]
        } else {
            0
        };
    }
    let frames = shape[1];
    let hidden = shape[2];
    let keep = if keep_frames < frames {
        keep_frames
    } else {
        frames
    };
    if keep > 0 && keep < frames {
        if let Some(len) = keep.checked_mul(hidden) {
            data.truncate(len);
            shape.set(1, keep);
        }
    }
    shape[1]
}

/// How many frames remain when the silent frames at the end are dropped:
/// up to and including the last frame that is not silent.
pub open spec fn frames_before_trailing_silence(silent: Seq<bool>) -> nat
    decreases silent.len(),
{
    if silent.len() == 0 {
        0
    } else if !silent.last() {
        silent.len()
    } else {
        frames_before_trailing_silence(silent.drop_last())
    }
}

/// Drops the silent frames at the end of a `[1, frames, hidden]` feature
/// tensor, where `frame_is_silent[i]` tells whether frame `i` is silent, and
/// returns its frame count. A tensor that is silent throughout, or of
/// another shape, is left alone.
pub fn trim_qwen_audio_features<T>(shape: &mut Vec<usize>, data: &mut Vec<T>, frame_is_silent: &[bool]) -> (r:
    usize)
    requires
        is_feature_shape(old(shape)@) ==> frame_is_silent@.len() == old(shape)@[1],
    ensures
        (final(shape)@, final(data)@, r as nat) == truncation(
            old(shape)@,
            old(data)@,
            frames_before_trailing_silence(frame_is_silent@),
        ),
{
    if shape.len() != 3 || shape[0] != 1 || shape[1] == 0 || shape[2] == 0 {
        return if shape.len() > 1 {
            shape[1]
        } else {
            0
        };
    }
    let mut valid = frame_is_silent.len();
    assert(frame_is_silent@.take(valid as int) =~= frame_is_silent@);
    while valid > 0 && frame_is_silent[valid - 1]
        invariant
            valid <= frame_is_silent@.len(),
            frames_before_trailing_silence(frame_is_silent@) == frames_before_trailing_silence(
                frame_is_silent@.take(valid as int),
            ),
        decreases valid,
    {
        assert(frame_is_silent@.take(valid as int).drop_last() =~= frame_is_silent@.take(valid - 1));
        valid -= 1;
    }
    proof {
        if valid > 0 {
            assert(frame_is_silent@.take(valid as int).last() == frame_is_silent@[valid - 1]);
        } else {
            assert(frame_is_silent@.take(0) =~= Seq::<bool>::empty());
        }
    }
    truncate_qwen_audio_features(shape, data, valid)
}

/// Which encoder frames carry audio: the first `valid_audio_tokens` of
/// `conv_frames`.
pub fn qwen_feature_attention_mask(conv_frames: usize, valid_audio_tokens: usize) -> (r: Vec<bool>)
    ensures
        r@.len() == conv_frames,
        forall|i: int| 0 <= i < conv_frames ==> r@[i] == (i < valid_audio_tokens),
{
    let mut mask: Vec<bool> = Vec::new();
    let mut i: usize = 0;
    while i < conv_frames
        invariant
            0 <= i <= conv_frames,
            mask@.len() == i,
            forall|k: int| 0 <= k < i ==> mask@[k] == (k < valid_audio_tokens),
        decreases conv_frames - i,
    {
        mask.push(i < valid_audio_tokens);
        i += 1;
    }
    mask
}

/// The audio placeholders of the prompt: the valid audio tokens, at most the
/// frames left after trimming, and at least one.
pub fn qwen_prompt_audio_tokens(valid_audio_tokens: usize, trimmed_frames: usize) -> (r: usize)
    ensures
        r == (if valid_audio_tokens < trimmed_frames {
            if valid_audio_tokens < 1 {
                1
            } else {
                valid_audio_tokens
            }
        } else if trimmed_frames < 1 {
            1
        } else {
            trimmed_frames
        }),
{
    let m = if valid_audio_tokens < trimmed_frames {
        valid_audio_tokens
    } else {
        trimmed_frames
    };
    if m < 1 {
        1
    } else {
        m
    }
}

/// A tensor's dimensions as `usize`, or the first one that is not one.
pub fn qwen_tensor_dims(shape: &[i64], label: &str) -> (r: Result<Vec<usize>, String>)
    ensures
        match r {
            Ok(v) => v@.len() == shape@.len() && forall|i: int|
                0 <= i < shape@.len() ==> dim_as_usize(#[trigger] shape@[i]) == Some(v@[i]),
            Err(m) => exists|i: int|
                0 <= i < shape@.len() && dim_as_usize(#[trigger] shape@[i]) is None && (forall|j: int|
                    0 <= j < i ==> dim_as_usize(shape@[j]) is Some) && m@ == "Invalid Qwen "@
                    + label@ + " dim: "@ + signed_decimal(shape@[i] as int),
        },
{
    let mut dims: Vec<usize> = Vec::new();
    let mut i: usize = 0;
    while i < shape.len()
        invariant
            0 <= i <= shape@.len(),
            dims@.len() == i,
            forall|k: int| 0 <= k < i ==> dim_as_usize(#[trigger] shape@[k]) == Some(dims@[k]),
        decreases shape@.len() - i,
    {
        match dim_to_usize(shape[i]) {
            Some(d) => dims.push(d),
            None => {
                let mut m = lit("Invalid Qwen ");
                append_str(&mut m, label);
                append_str(&mut m, " dim: ");
                append_str(&mut m, signed_decimal_string(shape[i]).as_str());
                assert(forall|j: int| 0 <= j < i ==> dim_as_usize(shape@[j]) is Some);
                return Err(m);
            },
        }
        i += 1;
    }
    Ok(dims)
}

/// Checks that fbank features hold 128 values per frame and at least one
/// frame.
pub fn qwen_feature_shape_problem(frames: usize, values: usize) -> (r: Option<String>)
    ensures
        (frames == 0 || values != frames * 128) <==> r is Some,
        r matches Some(m) ==> m@ == "Qwen fbank feature shape is invalid: frames "@ + decimal(
            frames as nat,
        ) + ", values "@ + decimal(values as nat),
{
    if frames == 0 || frames > usize::MAX / 128 || values != frames * 128 {
        assert(frames > usize::MAX / 128 ==> values != frames * 128) by (nonlinear_arith)
            requires
                values <= usize::MAX,
        ;
        let mut m = lit("Qwen fbank feature shape is invalid: frames ");
        append_str(&mut m, decimal_string(frames as u64).as_str());
        append_str(&mut m, ", values ");
        append_str(&mut m, decimal_string(values as u64).as_str());
        Some(m)
    } else {
        None
    }
}

// ---------------------------------------------------------------------------
// The byte-level alphabet
// ---------------------------------------------------------------------------

/// Bytes that stand for themselves in the byte-level alphabet.
pub open spec fn printable_byte(b: nat) -> bool {
    (33 <= b && b <= 126) || (161 <= b && b <= 172) || (174 <= b && b <= 255)
}

/// How many bytes below `b` do not stand for themselves.
pub open spec fn unprintable_below(b: nat) -> nat
    decreases b,
{
    if b == 0 {
        0
    } else {
        unprintable_below((b - 1) as nat) + if printable_byte((b - 1) as nat) {
            0nat
        } else {
            1nat
        }
    }
}

/// The code point that spells byte `b`: the byte itself when it is printable,
/// else the next code point from 256 on, in byte order.
pub open spec fn byte_code(b: nat) -> nat {
    if printable_byte(b) {
        b
    } else {
        256 + unprintable_below(b)
    }
}

/// The `k`-th byte (from 0) that is not printable.
pub open spec fn nth_unprintable(k: nat) -> nat {
    if k < 33 {
        k
    } else if k < 67 {
        (127 + (k - 33)) as nat
    } else {
        173
    }
}

/// The byte a code point spells, if it spells one.
pub open spec fn code_byte(cp: nat) -> Option<u8> {
    if cp <= 255 && printable_byte(cp) {
        Some(cp as u8)
    } else if 256 <= cp && cp < 256 + 68 {
        Some(nth_unprintable((cp - 256) as nat) as u8)
    } else {
        None
    }
}

proof fn lemma_unprintable_below(b: nat)
    requires
        b <= 256,
    ensures
        unprintable_below(b) == (if b <= 33 {
            b
        } else if b <= 127 {
            33
        } else if b <= 161 {
            (33 + (b - 127)) as nat
        } else if b <= 173 {
            67
        } else {
            68
        }),
    decreases b,
{
    if b > 0 {
        lemma_unprintable_below((b - 1) as nat);
    }
}

/// Every byte has a code point in the alphabet, and reading that code point
/// back gives the byte: the alphabet loses no byte.
pub proof fn lemma_byte_alphabet_roundtrip(b: u8)
    ensures
        code_byte(byte_code(b as nat)) == Some(b),
{
    lemma_unprintable_below(b as nat);
}

/// A code point that spells a byte is that byte's code point: no two code
/// points spell the same byte.
pub proof fn lemma_byte_alphabet_inverse(cp: nat)
    requires
        code_byte(cp) is Some,
    ensures
        byte_code(code_byte(cp)->0 as nat) == cp,
{
    let b = code_byte(cp)->0 as nat;
    lemma_unprintable_below(b);
}

fn byte_code_exec(b: u8) -> (r: u32)
    ensures
        r == byte_code(b as nat),
        r < 0xD800,
{
    proof {
        lemma_unprintable_below(b as nat);
    }
    let v = b as u32;
    if (33 <= v && v <= 126) || (161 <= v && v <= 172) || 174 <= v {
        v
    } else if v <= 32 {
        256 + v
    } else if v <= 160 {
        256 + 33 + (v - 127)
    } else {
        256 + 67
    }
}

pub open spec fn is_scalar_value(cp: u32) -> bool {
    cp < 0xD800 || (0xE000 <= cp && cp <= 0x10FFFF)
}

/// `char::from_u32`: the character with code `cp`, none for a surrogate or a
/// value above `0x10FFFF`.
#[verifier::external_body]
fn char_from_u32(cp: u32) -> (r: Option<char>)
    ensures
        r is Some <==> is_scalar_value(cp),
        r matches Some(c) ==> c as u32 == cp,
{
    char::from_u32(cp)
}

/// The one-character string for a code point, U+FFFD when it is not a
/// character.
pub fn qwen_utf8_encode(code_point: u32) -> (r: String)
    ensures
        is_scalar_value(code_point) ==> r@.len() == 1 && r@[0] as u32 == code_point,
        !is_scalar_value(code_point) ==> r@ == seq!['\u{FFFD}'],
{
    let c = match char_from_u32(code_point) {
        Some(c) => c,
        None => '\u{FFFD}',
    };
    let mut r = String::new();
    push_char(&mut r, c);
    assert(r@ =~= seq![c]);
    r
}

/// The byte-level alphabet: entry `b` is the one-character string that spells
/// byte `b`.
pub fn qwen_byte_to_unicode() -> (r: Vec<String>)
    ensures
        r@.len() == 256,
        forall|b: int|
            0 <= b < 256 ==> (#[trigger] r@[b])@.len() == 1 && r@[b]@[0] as u32 == byte_code(
                b as nat,
            ),
{
    let mut table: Vec<String> = Vec::new();
    let mut b: u32 = 0;
    while b < 256
        invariant
            0 <= b <= 256,
            table@.len() == b,
            forall|k: int|
                0 <= k < b ==> (#[trigger] table@[k])@.len() == 1 && table@[k]@[0] as u32
                    == byte_code(k as nat),
        decreases 256 - b,
    {
        let code = byte_code_exec(b as u8);
        let piece = qwen_utf8_encode(code);
        table.push(piece);
        b += 1;
    }
    table
}

/// The byte a character of the alphabet spells, if it spells one.
pub fn qwen_unicode_to_byte(c: char) -> (r: Option<u8>)
    ensures
        r == code_byte(c as nat),
{
    let cp = c as u32;
    if (33 <= cp && cp <= 126) || (161 <= cp && cp <= 172) || (174 <= cp && cp <= 255) {
        Some(cp as u8)
    } else if 256 <= cp && cp < 256 + 68 {
        let k = cp - 256;
        if k < 33 {
            Some(k as u8)
        } else if k < 67 {
            Some((127 + (k - 33)) as u8)
        } else {
            Some(173)
        }
    } else {
        None
    }
}

// ---------------------------------------------------------------------------
// Decoding generated token ids
// ---------------------------------------------------------------------------

/// Tokens written `<|...|>`.
pub open spec fn special_token(t: Seq<char>) -> bool {
    starts_with(t, "<|"@) && ends_with(t, "|>"@)
}

pub open spec fn skippable_special_token(t: Seq<char>) -> bool {
    t == "<|im_start|>"@ || t == "<|im_end|>"@
}

pub fn is_qwen_special_token(token: &str) -> (r: bool)
    ensures
        r == special_token(token@),
{
    str_starts_with(token, "<|") && str_ends_with(token, "|>")
}

pub fn is_qwen_skippable_special_token(token: &str) -> (r: bool)
    ensures
        r == skippable_special_token(token@),
{
    str_eq(token, "<|im_start|>") || str_eq(token, "<|im_end|>")
}

/// The bytes a byte-level piece spells: each character of the alphabet gives
/// its byte, any other character its own UTF-8 encoding.
pub open spec fn piece_bytes(piece: Seq<char>) -> Seq<u8>
    decreases piece.len(),
{
    if piece.len() == 0 {
        Seq::empty()
    } else {
        piece_bytes(piece.drop_last()) + match code_byte(piece.last() as nat) {
            Some(b) => seq![b],
            None => encode_utf8(seq![piece.last()]),
        }
    }
}

pub fn decode_qwen_byte_level_piece(piece: &str) -> (r: Vec<u8>)
    ensures
        r@ == piece_bytes(piece@),
{
    let v = chars_of(piece);
    let mut bytes: Vec<u8> = Vec::new();
    let mut i: usize = 0;
    while i < v.len()
        invariant
            0 <= i <= v@.len(),
            v@ == piece@,
            bytes@ == piece_bytes(v@.take(i as int)),
        decreases v@.len() - i,
    {
        assert(v@.take(i + 1).drop_last() =~= v@.take(i as int));
        let ghost before = bytes@;
        match qwen_unicode_to_byte(v[i]) {
            Some(b) => {
                bytes.push(b);
                assert(bytes@ =~= before + seq![b]);
            },
            None => {
                let mut one = String::new();
                push_char(&mut one, v[i]);
                assert(one@ =~= seq![v@[i as int]]);
                let enc = one.as_str().as_bytes();
                let mut k: usize = 0;
                while k < enc.len()
                    invariant
                        0 <= k <= enc@.len(),
                        bytes@ == before + enc@.take(k as int),
                    decreases enc@.len() - k,
                {
                    bytes.push(enc[k]);
                    assert(enc@.take(k + 1) =~= enc@.take(k as int).push(enc@[k as int]));
                    k += 1;
                }
                assert(enc@.take(enc@.len() as int) =~= enc@);
            },
        }
        i += 1;
    }
    assert(v@.take(v@.len() as int) =~= v@);
    bytes
}

/// What `String::from_utf8_lossy` makes of a byte string.
pub uninterp spec fn lossy_utf8(bytes: Seq<u8>) -> Seq<char>;

/// `String::from_utf8_lossy(bytes).into_owned()`: invalid sequences become
/// U+FFFD (named by `lossy_utf8`); valid UTF-8 is decoded unchanged.
#[verifier::external_body]
fn utf8_lossy(bytes: &[u8]) -> (r: String)
    ensures
        r@ == lossy_utf8(bytes@),
        valid_utf8(bytes@) ==> r@ == decode_utf8(bytes@),
{
    String::from_utf8_lossy(bytes).into_owned()
}

/// The text of a run of byte-level bytes: their UTF-8 decoding when they are
/// valid UTF-8, else what `String::from_utf8_lossy` makes of them.
pub open spec fn bytes_text(bytes: Seq<u8>) -> Seq<char> {
    if valid_utf8(bytes) {
        decode_utf8(bytes)
    } else {
        lossy_utf8(bytes)
    }
}

/// The token an id names, if the id is in range.
pub open spec fn token_of(tokens: Seq<Seq<char>>, id: i64) -> Option<Seq<char>> {
    if 0 <= id && id < tokens.len() {
        Some(tokens[id as int])
    } else {
        None
    }
}

/// Text decoded so far and bytes of byte-level pieces not yet decoded.
pub open spec fn decode_state(tokens: Seq<Seq<char>>, ids: Seq<i64>) -> (Seq<char>, Seq<u8>)
    decreases ids.len(),
{
    if ids.len() == 0 {
        (Seq::empty(), Seq::empty())
    } else {
        let prev = decode_state(tokens, ids.drop_last());
        match token_of(tokens, ids.last()) {
            None => prev,
            Some(t) => if t.len() == 0 {
                prev
            } else if special_token(t) {
                let out = if prev.1.len() > 0 {
                    prev.0 + bytes_text(prev.1)
                } else {
                    prev.0
                };
                (
                    if skippable_special_token(t) {
                        out
                    } else {
                        out + t
                    },
                    Seq::empty(),
                )
            } else {
                (prev.0, prev.1 + piece_bytes(t))
            },
        }
    }
}

/// The text of generated token ids: byte-level pieces decoded as UTF-8,
/// special tokens kept except the turn markers, U+FFFD removed.
pub open spec fn decoded_text(tokens: Seq<Seq<char>>, ids: Seq<i64>) -> Seq<char> {
    let st = decode_state(tokens, ids);
    let out = if st.1.len() > 0 {
        st.0 + bytes_text(st.1)
    } else {
        st.0
    };
    replace(out, "\u{FFFD}"@, Seq::empty())
}

/// Whether `id` names a byte-level token: in range, not empty, not special.
pub open spec fn byte_level_id(tokens: Seq<Seq<char>>, id: i64) -> bool {
    0 <= id < tokens.len() && tokens[id as int].len() > 0 && !special_token(tokens[id as int])
}

/// The bytes that the byte-level tokens of `ids` spell, one after the other.
pub open spec fn spelled_bytes(tokens: Seq<Seq<char>>, ids: Seq<i64>) -> Seq<u8>
    decreases ids.len(),
{
    if ids.len() == 0 {
        Seq::empty()
    } else {
        spelled_bytes(tokens, ids.drop_last()) + piece_bytes(tokens[ids.last() as int])
    }
}

proof fn lemma_byte_level_state(tokens: Seq<Seq<char>>, ids: Seq<i64>)
    requires
        forall|k: int| 0 <= k < ids.len() ==> byte_level_id(tokens, #[trigger] ids[k]),
    ensures
        decode_state(tokens, ids) == (Seq::<char>::empty(), spelled_bytes(tokens, ids)),
    decreases ids.len(),
{
    if ids.len() > 0 {
        let init = ids.drop_last();
        assert forall|k: int| 0 <= k < init.len() implies byte_level_id(tokens, #[trigger] init[k]) by {
            assert(init[k] == ids[k]);
        }
        lemma_byte_level_state(tokens, init);
        assert(byte_level_id(tokens, ids[ids.len() - 1]));
        assert(token_of(tokens, ids.last()) == Some(tokens[ids.last() as int]));
    }
}

/// Byte-level tokens decode together: the text of a run of byte-level tokens
/// is the UTF-8 decoding of all their bytes taken one after the other,
/// however a character's bytes are split across tokens (with U+FFFD removed).
pub proof fn lemma_byte_level_tokens_decode_together(tokens: Seq<Seq<char>>, ids: Seq<i64>)
    requires
        forall|k: int| 0 <= k < ids.len() ==> byte_level_id(tokens, #[trigger] ids[k]),
        valid_utf8(spelled_bytes(tokens, ids)),
    ensures
        decoded_text(tokens, ids) == replace(
            decode_utf8(spelled_bytes(tokens, ids)),
            "\u{FFFD}"@,
            Seq::empty(),
        ),
{
    lemma_byte_level_state(tokens, ids);
    let b = spelled_bytes(tokens, ids);
    if b.len() > 0 {
        assert(Seq::<char>::empty() + bytes_text(b) =~= decode_utf8(b));
    } else {
        assert(decode_utf8(b) =~= Seq::<char>::empty());
    }
}

pub open spec fn token_views(v: Seq<String>) -> Seq<Seq<char>> {
    v.map_values(|s: String| s@)
}

/// Decodes generated ids with the table from id to token.
pub fn decode_qwen_token_ids(id_to_token: &Vec<String>, token_ids: &[i64]) -> (r: String)
    ensures
        r@ == decoded_text(token_views(id_to_token@), token_ids@),
{
    let ghost tokens = token_views(id_to_token@);
    let mut output = String::new();
    let mut pending: Vec<u8> = Vec::new();
    let mut i: usize = 0;
    while i < token_ids.len()
        invariant
            0 <= i <= token_ids@.len(),
            tokens == token_views(id_to_token@),
            (output@, pending@) == decode_state(tokens, token_ids@.take(i as int)),
        decreases token_ids@.len() - i,
    {
        assert(token_ids@.take(i + 1).drop_last() =~= token_ids@.take(i as int));
        let id = token_ids[i];
        assert(token_ids@.take(i + 1).last() == id);
        i += 1;
        if id < 0 || id as u64 >= id_to_token.len() as u64 {
            continue ;
        }
        let token = &id_to_token[id as usize];
        assert(token_of(tokens, id) == Some(token@));
        if token.as_str().unicode_len() == 0 {
            continue ;
        }
        if is_qwen_special_token(token.as_str()) {
            if pending.len() > 0 {
                let text = utf8_lossy(pending.as_slice());
                append_str(&mut output, text.as_str());
                pending = Vec::new();
            }
            if !is_qwen_skippable_special_token(token.as_str()) {
                append_str(&mut output, token.as_str());
            }
            assert(pending@ =~= Seq::<u8>::empty());
        } else {
            let bytes = decode_qwen_byte_level_piece(token.as_str());
            let ghost before = pending@;
            let mut k: usize = 0;
            while k < bytes.len()
                invariant
                    0 <= k <= bytes@.len(),
                    pending@ == before + bytes@.take(k as int),
                decreases bytes@.len() - k,
            {
                pending.push(bytes[k]);
                assert(bytes@.take(k + 1) =~= bytes@.take(k as int).push(bytes@[k as int]));
                k += 1;
            }
            assert(bytes@.take(bytes@.len() as int) =~= bytes@);
        }
    }
    assert(token_ids@.take(token_ids@.len() as int) =~= token_ids@);
    if pending.len() > 0 {
        let text = utf8_lossy(pending.as_slice());
        append_str(&mut output, text.as_str());
    }
    let replacement = lit("\u{FFFD}");
    proof {
        reveal_strlit("\u{FFFD}");
        reveal_strlit("");
        assert(""@ =~= Seq::<char>::empty());
    }
    replace_str(output.as_str(), replacement.as_str(), "")
}

/// Position of the first `id` among the first `window` ids.
pub open spec fn first_position(ids: Seq<i64>, id: i64) -> Option<int>
    decreases ids.len(),
{
    if ids.len() == 0 {
        None
    } else {
        match first_position(ids.drop_last(), id) {
            Some(p) => Some(p),
            None => if ids.last() == id {
                Some(ids.len() - 1)
            } else {
                None
            },
        }
    }
}

fn first_position_exec(ids: &[i64], id: i64, window: usize) -> (r: Option<usize>)
    requires
        window <= ids@.len(),
    ensures
        r matches Some(p) ==> first_position(ids@.take(window as int), id) == Some(p as int) && p
            < window,
        r is None ==> first_position(ids@.take(window as int), id) is None,
{
    let mut i: usize = 0;
    while i < window
        invariant
            0 <= i <= window <= ids@.len(),
            first_position(ids@.take(i as int), id) is None,
        decreases window - i,
    {
        assert(ids@.take(i + 1).drop_last() =~= ids@.take(i as int));
        if ids[i] == id {
            proof {
                assert(ids@.take(window as int).take(i as int) =~= ids@.take(i as int));
                lemma_first_position_prefix(ids@.take(window as int), id, i as int);
            }
            return Some(i);
        }
        i += 1;
    }
    assert(ids@.take(window as int).take(window as int) =~= ids@.take(window as int));
    None
}

proof fn lemma_first_position_prefix(s: Seq<i64>, id: i64, i: int)
    requires
        0 <= i < s.len(),
        first_position(s.take(i), id) is None,
        s[i] == id,
    ensures
        first_position(s, id) == Some(i),
    decreases s.len(),
{
    if s.len() - 1 == i {
        assert(s.drop_last() =~= s.take(i));
    } else {
        assert(s.drop_last().take(i) =~= s.take(i));
        lemma_first_position_prefix(s.drop_last(), id, i);
    }
}

/// The ids left once a leading `language ...<asr_text>` header within the
/// first 16 ids is dropped.
pub open spec fn ids_after_header(tokens: Seq<Seq<char>>, ids: Seq<i64>, asr_text_id: Option<i64>) -> Seq<
    i64,
> {
    match asr_text_id {
        None => ids,
        Some(a) => {
            let window = if ids.len() < 16 {
                ids.len() as int
            } else {
                16
            };
            match first_position(ids.take(window), a) {
                Some(p) => if p > 0 {
                    let prefix = decoded_text(tokens, ids.take(p + 1));
                    if starts_with(prefix, "language "@) && ends_with(prefix, "<asr_text>"@) {
                        ids.skip(p + 1)
                    } else {
                        ids
                    }
                } else {
                    ids
                },
                None => ids,
            }
        },
    }
}

/// The transcript in generated ids: the header dropped, the ids decoded, and
/// anything up to the first `<asr_text>` removed.
pub open spec fn generated_text(tokens: Seq<Seq<char>>, ids: Seq<i64>, asr_text_id: Option<i64>) -> Seq<
    char,
> {
    let text = decoded_text(tokens, ids_after_header(tokens, ids, asr_text_id));
    match find_from(text, "<asr_text>"@, 0) {
        Some(p) => text.skip(p + "<asr_text>"@.len()),
        None => text,
    }
}

fn copy_ids(ids: &[i64], start: usize, end: usize) -> (r: Vec<i64>)
    requires
        start <= end <= ids@.len(),
    ensures
        r@ == ids@.subrange(start as int, end as int),
{
    let mut r: Vec<i64> = Vec::new();
    let mut i = start;
    while i < end
        invariant
            start <= i <= end <= ids@.len(),
            r@ == ids@.subrange(start as int, i as int),
        decreases end - i,
    {
        r.push(ids[i]);
        assert(ids@.subrange(start as int, i + 1) =~= ids@.subrange(start as int, i as int).push(
            ids@[i as int],
        ));
        i += 1;
    }
    r
}

/// `asr_text_id` is the id of `<asr_text>` where the tokenizer has one.
pub fn clean_qwen_generated_text(
    id_to_token: &Vec<String>,
    asr_text_id: Option<i64>,
    generated_ids: &[i64],
) -> (r: String)
    ensures
        r@ == generated_text(token_views(id_to_token@), generated_ids@, asr_text_id),
{
    let ghost tokens = token_views(id_to_token@);
    let n = generated_ids.len();
    let mut cleaned = copy_ids(generated_ids, 0, n);
    assert(generated_ids@.subrange(0, n as int) =~= generated_ids@);
    if let Some(a) = asr_text_id {
        let window = if n < 16 {
            n
        } else {
            16
        };
        if let Some(position) = first_position_exec(generated_ids, a, window) {
            if position > 0 {
                let head = copy_ids(generated_ids, 0, position + 1);
                assert(generated_ids@.subrange(0, position + 1) =~= generated_ids@.take(
                    position + 1,
                ));
                let prefix = decode_qwen_token_ids(id_to_token, head.as_slice());
                if str_starts_with(prefix.as_str(), "language ") && str_ends_with(
                    prefix.as_str(),
                    "<asr_text>",
                ) {
                    cleaned = copy_ids(generated_ids, position + 1, n);
                    assert(generated_ids@.subrange(position + 1, n as int) =~= generated_ids@.skip(
                        position + 1,
                    ));
                }
            }
        }
    }
    assert(cleaned@ == ids_after_header(tokens, generated_ids@, asr_text_id));
    let text = decode_qwen_token_ids(id_to_token, cleaned.as_slice());
    let tv = chars_of(text.as_str());
    let marker = chars_of("<asr_text>");
    let total = tv.len();
    let ml = marker.len();
    match find_exec(tv.as_slice(), marker.as_slice()) {
        Some(p) => {
            assert(p + ml <= total);
            let from = p + ml;
            assert(tv@.subrange(from as int, tv@.len() as int) =~= tv@.skip(from as int));
            string_of_range(tv.as_slice(), from, tv.len())
        },
        None => text,
    }
}

// ---------------------------------------------------------------------------
// Token tables
// ---------------------------------------------------------------------------

/// A tokenizer's `(token, id)` pairs in the order they were read: the vocabulary
/// first, then the added tokens. A later pair for a token replaces an earlier one.
pub open spec fn entry_views(entries: Seq<(String, i64)>) -> Seq<(Seq<char>, i64)> {
    entries.map_values(|e: (String, i64)| (e.0@, e.1))
}

/// The id of a token: that of its last pair.
pub open spec fn token_id(entries: Seq<(Seq<char>, i64)>, token: Seq<char>) -> Option<i64>
    decreases entries.len(),
{
    if entries.len() == 0 {
        None
    } else if entries.last().0 == token {
        Some(entries.last().1)
    } else {
        token_id(entries.drop_last(), token)
    }
}

pub fn qwen_token_id(entries: &Vec<(String, i64)>, token: &str) -> (r: Option<i64>)
    ensures
        r == token_id(entry_views(entries@), token@),
{
    let ghost ev = entry_views(entries@);
    let mut j = entries.len();
    assert(ev.take(ev.len() as int) =~= ev);
    while j > 0
        invariant
            0 <= j <= entries@.len(),
            ev == entry_views(entries@),
            token_id(ev, token@) == token_id(ev.take(j as int), token@),
        decreases j,
    {
        assert(ev.take(j as int).drop_last() =~= ev.take(j - 1));
        assert(ev.take(j as int).last() == (entries@[j - 1].0@, entries@[j - 1].1));
        if str_eq(entries[j - 1].0.as_str(), token) {
            return Some(entries[j - 1].1);
        }
        j -= 1;
    }
    None
}

/// The id of a token the prompt needs, or why it cannot be built.
pub fn qwen_required_token_id(entries: &Vec<(String, i64)>, token: &str) -> (r: Result<i64, String>)
    ensures
        match r {
            Ok(id) => token_id(entry_views(entries@), token@) == Some(id),
            Err(m) => token_id(entry_views(entries@), token@) is None
                && m@ == "Qwen tokenizer is missing required token: "@ + token@,
        },
{
    match qwen_token_id(entries, token) {
        Some(id) => Ok(id),
        None => {
            let mut m = lit("Qwen tokenizer is missing required token: ");
            append_str(&mut m, token);
            Err(m)
        },
    }
}

/// The tokens the default prompt is made of, in the order they are looked up.
pub open spec fn scaffold_tokens() -> Seq<Seq<char>> {
    seq![
        "<|im_start|>"@,
        "<|im_end|>"@,
        "<|audio_start|>"@,
        "<|audio_pad|>"@,
        "<|audio_end|>"@,
        "system"@,
        "user"@,
        "assistant"@,
        "\u{010A}"@,
    ]
}

/// The first scaffold token the table lacks.
pub open spec fn first_missing(entries: Seq<(Seq<char>, i64)>, tokens: Seq<Seq<char>>) -> Option<
    Seq<char>,
>
    decreases tokens.len(),
{
    if tokens.len() == 0 {
        None
    } else if token_id(entries, tokens[0]) is None {
        Some(tokens[0])
    } else {
        first_missing(entries, tokens.drop_first())
    }
}

/// The chat prompt around `n` audio placeholders: a system turn, a user turn
/// holding the audio, and the opening of the assistant turn.
pub open spec fn scaffold(
    im_start: i64,
    im_end: i64,
    audio_start: i64,
    audio_pad: i64,
    audio_end: i64,
    system: i64,
    user: i64,
    assistant: i64,
    nl: i64,
    n: nat,
) -> Seq<i64> {
    seq![im_start, system, nl, im_end, nl, im_start, user, nl, audio_start] + Seq::new(
        n,
        |i: int| audio_pad,
    ) + seq![audio_end, im_end, nl, im_start, assistant, nl]
}

pub open spec fn id_of(entries: Seq<(Seq<char>, i64)>, token: Seq<char>) -> i64 {
    token_id(entries, token)->0
}

pub open spec fn default_source_ids(entries: Seq<(Seq<char>, i64)>, n: nat) -> Result<
    Seq<i64>,
    Seq<char>,
> {
    match first_missing(entries, scaffold_tokens()) {
        Some(t) => Err("Qwen tokenizer is missing required token: "@ + t),
        None => Ok(
            scaffold(
                id_of(entries, "<|im_start|>"@),
                id_of(entries, "<|im_end|>"@),
                id_of(entries, "<|audio_start|>"@),
                id_of(entries, "<|audio_pad|>"@),
                id_of(entries, "<|audio_end|>"@),
                id_of(entries, "system"@),
                id_of(entries, "user"@),
                id_of(entries, "assistant"@),
                id_of(entries, "\u{010A}"@),
                n,
            ),
        ),
    }
}

fn push_ids(out: &mut Vec<i64>, ids: &[i64])
    ensures
        final(out)@ == old(out)@ + ids@,
{
    let mut i: usize = 0;
    while i < ids.len()
        invariant
            0 <= i <= ids@.len(),
            out@ == old(out)@ + ids@.take(i as int),
        decreases ids@.len() - i,
    {
        out.push(ids[i]);
        assert(ids@.take(i + 1) =~= ids@.take(i as int).push(ids@[i as int]));
        i += 1;
    }
    assert(ids@.take(ids@.len() as int) =~= ids@);
}

/// The default prompt's token ids for `audio_token_len` audio placeholders.
pub fn build_qwen_default_source_ids(entries: &Vec<(String, i64)>, audio_token_len: usize) -> (r:
    Result<Vec<i64>, String>)
    ensures
        match r {
            Ok(v) => default_source_ids(entry_views(entries@), audio_token_len as nat) == Ok::<
                Seq<i64>,
                Seq<char>,
            >(v@),
            Err(m) => default_source_ids(entry_views(entries@), audio_token_len as nat) == Err::<
                Seq<i64>,
                Seq<char>,
            >(m@),
        },
{
    let ghost ev = entry_views(entries@);
    let ghost toks = scaffold_tokens();
    proof {
        assert(toks.drop_first() =~= toks.subrange(1, 9));
        assert(toks.subrange(1, 9).drop_first() =~= toks.subrange(2, 9));
        assert(toks.subrange(2, 9).drop_first() =~= toks.subrange(3, 9));
        assert(toks.subrange(3, 9).drop_first() =~= toks.subrange(4, 9));
        assert(toks.subrange(4, 9).drop_first() =~= toks.subrange(5, 9));
        assert(toks.subrange(5, 9).drop_first() =~= toks.subrange(6, 9));
        assert(toks.subrange(6, 9).drop_first() =~= toks.subrange(7, 9));
        assert(toks.subrange(7, 9).drop_first() =~= toks.subrange(8, 9));
        assert(toks.subrange(8, 9).drop_first() =~= Seq::<Seq<char>>::empty());
        reveal_with_fuel(first_missing, 10);
    }
    let im_start = match qwen_required_token_id(entries, "<|im_start|>") {
        Ok(v) => v,
        Err(m) => return Err(m),
    };
    let im_end = match qwen_required_token_id(entries, "<|im_end|>") {
        Ok(v) => v,
        Err(m) => return Err(m),
    };
    let audio_start = match qwen_required_token_id(entries, "<|audio_start|>") {
        Ok(v) => v,
        Err(m) => return Err(m),
    };
    let audio_pad = match qwen_required_token_id(entries, "<|audio_pad|>") {
        Ok(v) => v,
        Err(m) => return Err(m),
    };
    let audio_end = match qwen_required_token_id(entries, "<|audio_end|>") {
        Ok(v) => v,
        Err(m) => return Err(m),
    };
    let system = match qwen_required_token_id(entries, "system") {
        Ok(v) => v,
        Err(m) => return Err(m),
    };
    let user = match qwen_required_token_id(entries, "user") {
        Ok(v) => v,
        Err(m) => return Err(m),
    };
    let assistant = match qwen_required_token_id(entries, "assistant") {
        Ok(v) => v,
        Err(m) => return Err(m),
    };
    let nl = match qwen_required_token_id(entries, "\u{010A}") {
        Ok(v) => v,
        Err(m) => return Err(m),
    };
    let mut ids: Vec<i64> = Vec::new();
    push_ids(&mut ids, &[im_start, system, nl, im_end, nl, im_start, user, nl, audio_start]);
    let mut k: usize = 0;
    let ghost head = ids@;
    while k < audio_token_len
        invariant
            0 <= k <= audio_token_len,
            ids@ == head + Seq::new(k as nat, |i: int| audio_pad),
        decreases audio_token_len - k,
    {
        ids.push(audio_pad);
        assert(Seq::new((k + 1) as nat, |i: int| audio_pad) =~= Seq::new(
            k as nat,
            |i: int| audio_pad,
        ).push(audio_pad));
        k += 1;
    }
    push_ids(&mut ids, &[audio_end, im_end, nl, im_start, assistant, nl]);
    assert(ids@ =~= scaffold(
        im_start,
        im_end,
        audio_start,
        audio_pad,
        audio_end,
        system,
        user,
        assistant,
        nl,
        audio_token_len as nat,
    ));
    Ok(ids)
}

/// Whether the pair at `i` is the last one for its token.
pub open spec fn is_final(e: Seq<(Seq<char>, i64)>, i: int) -> bool {
    forall|j: int| i < j < e.len() ==> #[trigger] e[j].0 != e[i].0
}

/// `t` with `token` stored at `id`, grown with empty strings as needed;
/// negative ids are ignored.
pub open spec fn table_step(t: Seq<Seq<char>>, token: Seq<char>, id: i64) -> Seq<Seq<char>> {
    if id < 0 {
        t
    } else {
        let grown = if id >= t.len() {
            t + Seq::new((id + 1 - t.len()) as nat, |i: int| Seq::<char>::empty())
        } else {
            t
        };
        grown.update(id as int, token)
    }
}

/// The table from id to token after the first `k` pairs; only the last pair
/// of each token counts.
pub open spec fn id_table_upto(e: Seq<(Seq<char>, i64)>, k: int) -> Seq<Seq<char>>
    decreases k,
{
    if k <= 0 {
        seq![Seq::<char>::empty()]
    } else {
        let t = id_table_upto(e, k - 1);
        if is_final(e, k - 1) {
            table_step(t, e[k - 1].0, e[k - 1].1)
        } else {
            t
        }
    }
}

/// The table from id to token: one slot per id up to the largest, the token
/// with that id where there is one and the empty string elsewhere. Where two
/// tokens share an id, the one read last holds the slot.
pub fn qwen_id_to_token(entries: &Vec<(String, i64)>) -> (r: Vec<String>)
    requires
        forall|i: int| 0 <= i < entries@.len() ==> #[trigger] entries@[i].1 < usize::MAX,
    ensures
        token_views(r@) == id_table_upto(entry_views(entries@), entries@.len() as int),
{
    let ghost ev = entry_views(entries@);
    let mut table: Vec<String> = Vec::new();
    table.push(String::new());
    assert(token_views(table@) =~= seq![Seq::<char>::empty()]);
    let mut k: usize = 0;
    while k < entries.len()
        invariant
            0 <= k <= entries@.len(),
            ev == entry_views(entries@),
            forall|i: int| 0 <= i < entries@.len() ==> #[trigger] entries@[i].1 < usize::MAX,
            token_views(table@) == id_table_upto(ev, k as int),
        decreases entries@.len() - k,
    {
        let token = &entries[k].0;
        let id = entries[k].1;
        let mut last = true;
        let mut j = k + 1;
        while j < entries.len()
            invariant
                k < j <= entries@.len(),
                ev == entry_views(entries@),
                token@ == entries@[k as int].0@,
                last == (forall|m: int| k < m < j ==> #[trigger] ev[m].0 != ev[k as int].0),
            decreases entries@.len() - j,
        {
            let ghost old_last = last;
            let same = str_eq(entries[j].0.as_str(), token.as_str());
            if same {
                last = false;
            }
            proof {
                assert(ev[j as int].0 == entries@[j as int].0@);
                assert(ev[k as int].0 == entries@[k as int].0@);
                if same {
                    assert(!(forall|m: int| k < m < j + 1 ==> #[trigger] ev[m].0 != ev[k as int].0))
                        by {
                        assert(ev[j as int].0 == ev[k as int].0);
                    }
                } else if old_last {
                    assert forall|m: int| k < m < j + 1 implies #[trigger] ev[m].0 != ev[k as int].0 by {
                        if m < j {
                        }
                    }
                } else {
                    let w = choose|m: int| k < m < j && #[trigger] ev[m].0 == ev[k as int].0;
                    assert(!(forall|m: int| k < m < j + 1 ==> #[trigger] ev[m].0 != ev[k as int].0))
                        by {
                        assert(ev[w].0 == ev[k as int].0);
                    }
                }
            }
            j += 1;
        }
        assert(last == is_final(ev, k as int));
        if last && id >= 0 {
            let index = id as usize;
            let ghost before = token_views(table@);
            while table.len() <= index
                invariant
                    index < usize::MAX,
                    index == id,
                    before.len() <= table@.len(),
                    table@.len() <= index + 1 || table@.len() == before.len(),
                    token_views(table@) == before + Seq::new(
                        (table@.len() - before.len()) as nat,
                        |i: int| Seq::<char>::empty(),
                    ),
                decreases index + 1 - table@.len(),
            {
                let ghost prev = token_views(table@);
                table.push(String::new());
                assert(token_views(table@) =~= prev.push(Seq::<char>::empty()));
                assert(before + Seq::new(
                    (table@.len() - before.len()) as nat,
                    |i: int| Seq::<char>::empty(),
                ) =~= (before + Seq::new(
                    (table@.len() - 1 - before.len()) as nat,
                    |i: int| Seq::<char>::empty(),
                )).push(Seq::<char>::empty()));
            }
            let ghost grown = token_views(table@);
            table.set(index, token.clone());
            assert(token_views(table@) =~= grown.update(index as int, token@));
            proof {
                if id >= before.len() {
                    assert(grown =~= before + Seq::new(
                        (id + 1 - before.len()) as nat,
                        |i: int| Seq::<char>::empty(),
                    ));
                } else {
                    assert(grown =~= before);
                }
            }
        }
        k += 1;
    }
    table
}

// ---------------------------------------------------------------------------
// Reading the tokenizer files
// ---------------------------------------------------------------------------

pub type AddedTokenView = (Seq<char>, Option<Seq<char>>, Option<i64>);

/// What `serde_json` finds in `vocab.json`: `None` when it is not JSON; else
/// each member of a top-level object, in the order the parsed object lists
/// them, with its value where that is an `i64` (no members for another value).
pub uninterp spec fn vocab_members(text: Seq<char>) -> Option<Seq<(Seq<char>, Option<i64>)>>;

/// What `serde_json` finds in `tokenizer_config.json`: `None` when it is not
/// JSON; else each member of the `added_tokens_decoder` object with its
/// `content` string and `id` integer where present.
pub uninterp spec fn added_token_members(text: Seq<char>) -> Option<Seq<AddedTokenView>>;

/// Parses `text` with `serde_json::from_str::<serde_json::Value>` and lists
/// the members of the top-level object with `Value::as_object` and
/// `Value::as_i64`. On failure the error is serde_json's message; its text
/// is not stated.
#[verifier::external_body]
fn parse_vocab_members(text: &str) -> (r: Result<Vec<(String, Option<i64>)>, String>)
    ensures
        r matches Ok(v) ==> vocab_members(text@) == Some(
            v@.map_values(|m: (String, Option<i64>)| (m.0@, m.1)),
        ),
        r is Err ==> vocab_members(text@) is None,
{
    let value: Value = serde_json::from_str(text).map_err(|e| e.to_string())?;
    let members = value.as_object().map(|o| o.iter().map(|(k, v)| (k.clone(), v.as_i64())).collect());
    Ok(members.unwrap_or_default())
}

/// Parses `text` with `serde_json::from_str::<serde_json::Value>` and lists
/// the members of `added_tokens_decoder` with `Value::get`, `Value::as_object`,
/// `Value::as_str` and `Value::as_i64`. On failure the error is serde_json's
/// message; its text is not stated.
#[verifier::external_body]
fn parse_added_tokens(text: &str) -> (r: Result<Vec<(String, Option<String>, Option<i64>)>, String>)
    ensures
        r matches Ok(v) ==> added_token_members(text@) == Some(
            v@.map_values(|m: (String, Option<String>, Option<i64>)| (m.0@, opt_text(m.1), m.2)),
        ),
        r is Err ==> added_token_members(text@) is None,
{
    let value: Value = serde_json::from_str(text).map_err(|e| e.to_string())?;
    let added = value.get("added_tokens_decoder").and_then(Value::as_object);
    let field = |v: &Value| v.get("content").and_then(Value::as_str).map(String::from);
    let members = added.map(|o| o.iter().map(|(k, v)| (k.clone(), field(v), v.get("id").and_then(Value::as_i64))).collect());
    Ok(members.unwrap_or_default())
}

pub open spec fn opt_text(o: Option<String>) -> Option<Seq<char>> {
    match o {
        Some(s) => Some(s@),
        None => None,
    }
}

/// The vocabulary members whose value is an integer id.
pub open spec fn vocab_entries(m: Seq<(Seq<char>, Option<i64>)>) -> Seq<(Seq<char>, i64)>
    decreases m.len(),
{
    if m.len() == 0 {
        Seq::empty()
    } else {
        let prev = vocab_entries(m.drop_last());
        match m.last().1 {
            Some(id) => prev.push((m.last().0, id)),
            None => prev,
        }
    }
}

/// The added tokens with content; the id is the `id` member or, without one,
/// the member's key read as a number.
pub open spec fn added_entries(m: Seq<AddedTokenView>) -> Seq<(Seq<char>, i64)>
    decreases m.len(),
{
    if m.len() == 0 {
        Seq::empty()
    } else {
        let prev = added_entries(m.drop_last());
        let (key, content, id) = m.last();
        match content {
            None => prev,
            Some(t) => match (if id is Some {
                id
            } else {
                parsed_i64(key)
            }) {
                Some(i) => prev.push((t, i)),
                None => prev,
            },
        }
    }
}

/// The token pairs of parsed tokenizer files: each vocabulary member with an
/// integer id, then each added token with content, its id being the `id`
/// member or, without one, its key read as a number.
pub fn token_entries_from_members(
    vocab: &Vec<(String, Option<i64>)>,
    added: &Vec<(String, Option<String>, Option<i64>)>,
) -> (r: Vec<(String, i64)>)
    ensures
        entry_views(r@) == vocab_entries(vocab@.map_values(|m: (String, Option<i64>)| (m.0@, m.1)))
            + added_entries(
            added@.map_values(|m: (String, Option<String>, Option<i64>)| (m.0@, opt_text(m.1), m.2)),
        ),
{
    let ghost vm = vocab@.map_values(|m: (String, Option<i64>)| (m.0@, m.1));
    let ghost am = added@.map_values(
        |m: (String, Option<String>, Option<i64>)| (m.0@, opt_text(m.1), m.2),
    );
    let mut entries: Vec<(String, i64)> = Vec::new();
    let mut i: usize = 0;
    while i < vocab.len()
        invariant
            0 <= i <= vocab@.len(),
            vm == vocab@.map_values(|m: (String, Option<i64>)| (m.0@, m.1)),
            entry_views(entries@) == vocab_entries(vm.take(i as int)),
        decreases vocab@.len() - i,
    {
        assert(vm.take(i + 1).drop_last() =~= vm.take(i as int));
        assert(vm.take(i + 1).last() == (vocab@[i as int].0@, vocab@[i as int].1));
        if let Some(id) = vocab[i].1 {
            let ghost before = entry_views(entries@);
            entries.push((vocab[i].0.clone(), id));
            assert(entry_views(entries@) =~= before.push((vocab@[i as int].0@, id)));
        }
        i += 1;
    }
    assert(vm.take(vocab@.len() as int) =~= vm);
    let ghost head = entry_views(entries@);
    let mut k: usize = 0;
    while k < added.len()
        invariant
            0 <= k <= added@.len(),
            am == added@.map_values(
                |m: (String, Option<String>, Option<i64>)| (m.0@, opt_text(m.1), m.2),
            ),
            entry_views(entries@) == head + added_entries(am.take(k as int)),
        decreases added@.len() - k,
    {
        assert(am.take(k + 1).drop_last() =~= am.take(k as int));
        assert(am.take(k + 1).last() == (added@[k as int].0@, opt_text(added@[k as int].1), added@[k as int].2));
        let (key, content, id) = (&added[k].0, &added[k].1, added[k].2);
        if let Some(t) = content {
            let resolved = match id {
                Some(i) => Some(i),
                None => parse_i64(key.as_str()),
            };
            if let Some(i) = resolved {
                let ghost before = entry_views(entries@);
                entries.push((t.clone(), i));
                assert(entry_views(entries@) =~= before.push((t@, i)));
            }
        }
        k += 1;
    }
    assert(am.take(added@.len() as int) =~= am);
    entries
}

/// The token pairs of a tokenizer: the vocabulary, then the added tokens.
pub fn qwen_token_entries(vocab_text: &str, config_text: &str) -> (r: Result<Vec<(String, i64)>, String>)
    ensures
        match (vocab_members(vocab_text@), added_token_members(config_text@)) {
            (Some(v), Some(a)) => r matches Ok(e) && entry_views(e@) == vocab_entries(v)
                + added_entries(a),
            (None, _) => r matches Err(m) && m@.take(33) == "Failed to parse Qwen vocab JSON: "@,
            (Some(_), None) => r matches Err(m) && m@.take(44)
                == "Failed to parse Qwen tokenizer config JSON: "@,
        },
{
    let vocab = match parse_vocab_members(vocab_text) {
        Ok(v) => v,
        Err(e) => {
            let mut m = lit("Failed to parse Qwen vocab JSON: ");
            proof {
                reveal_strlit("Failed to parse Qwen vocab JSON: ");
            }
            append_str(&mut m, e.as_str());
            assert(m@.take(33) =~= "Failed to parse Qwen vocab JSON: "@);
            return Err(m);
        },
    };
    let added = match parse_added_tokens(config_text) {
        Ok(a) => a,
        Err(e) => {
            let mut m = lit("Failed to parse Qwen tokenizer config JSON: ");
            proof {
                reveal_strlit("Failed to parse Qwen tokenizer config JSON: ");
            }
            append_str(&mut m, e.as_str());
            assert(m@.take(44) =~= "Failed to parse Qwen tokenizer config JSON: "@);
            return Err(m);
        },
    };
    Ok(token_entries_from_members(&vocab, &added))
}


// ---------------------------------------------------------------------------
// Greedy decoding
// ---------------------------------------------------------------------------

/// Values per position in one layer's key or value cache (8 heads of 128).
pub const QWEN_KV_WIDTH: usize = 1024;

pub open spec fn saturating(n: int) -> int {
    if n > usize::MAX {
        usize::MAX as int
    } else {
        n
    }
}

/// Where a decoder's cache delta lands in a layer's cache, and how many
/// values are copied: as many as the delta's positions hold, as the delta
/// has, and as fit after the start (products and differences saturate).
pub open spec fn cache_copy_range(target_len: nat, start_position: nat, delta_len: nat, seq_len: nat) -> (
    int,
    int,
) {
    let start = saturating(start_position * QWEN_KV_WIDTH);
    let room = if target_len >= start {
        target_len - start
    } else {
        0
    };
    let wanted = saturating(seq_len * QWEN_KV_WIDTH);
    let n = if wanted < delta_len {
        wanted
    } else {
        delta_len as int
    };
    (start, if n < room {
        n
    } else {
        room
    })
}

/// Copies the delta a decoder run returned into a layer's cache at
/// `start_position`; values that do not fit are left out.
pub fn copy_qwen_cache_delta<T: Copy>(target: &mut Vec<T>, start_position: usize, delta: &[T], seq_len: usize)
    ensures
        ({
            let (start, n) = cache_copy_range(
                old(target)@.len(),
                start_position as nat,
                delta@.len(),
                seq_len as nat,
            );
            final(target)@ == if n > 0 {
                old(target)@.take(start) + delta@.take(n) + old(target)@.skip(start + n)
            } else {
                old(target)@
            }
        }),
{
    let start: usize = match start_position.checked_mul(QWEN_KV_WIDTH) {
        Some(v) => v,
        None => usize::MAX,
    };
    let wanted: usize = match seq_len.checked_mul(QWEN_KV_WIDTH) {
        Some(v) => v,
        None => usize::MAX,
    };
    let room: usize = if target.len() >= start {
        target.len() - start
    } else {
        0
    };
    let mut n = if wanted < delta.len() {
        wanted
    } else {
        delta.len()
    };
    if room < n {
        n = room;
    }
    let ghost initial = target@;
    let total = target.len();
    let mut i: usize = 0;
    while i < n
        invariant
            0 <= i <= n,
            initial.len() == total,
            n <= delta@.len(),
            n > 0 ==> start + n <= initial.len(),
            target@.len() == initial.len(),
            forall|k: int| 0 <= k < start ==> target@[k] == initial[k],
            forall|k: int| 0 <= k < i ==> target@[start + k] == delta@[k],
            forall|k: int| start + i <= k < initial.len() ==> target@[k] == initial[k],
            n == 0 ==> target@ == initial,
        decreases n - i,
    {
        target.set(start + i, delta[i]);
        i += 1;
    }
    if n > 0 {
        assert(target@ =~= initial.take(start as int) + delta@.take(n as int) + initial.skip(
            start + n,
        ));
    } else {
        assert(target@ =~= initial);
    }
}

/// An `i64` dimension read as `usize`, as `usize::try_from` reads it.
pub open spec fn dim_as_usize(d: i64) -> Option<usize> {
    if 0 <= d <= usize::MAX {
        Some(d as usize)
    } else {
        None
    }
}

fn dim_to_usize(d: i64) -> (r: Option<usize>)
    ensures
        r == dim_as_usize(d),
{
    if d < 0 {
        None
    } else if d as u64 as u128 > usize::MAX as u128 {
        None
    } else {
        Some(d as u64 as usize)
    }
}

/// The row of a `[batch, time, vocab]` logits tensor that holds the scores
/// for `time_index`, as a range of the flat data, or why there is none.
pub open spec fn logits_row(logits_len: nat, shape: Seq<i64>, time_index: nat) -> Result<
    (int, int),
    Seq<char>,
> {
    if shape.len() < 3 {
        Err("Qwen decoder logits tensor must be at least 3-D."@)
    } else {
        match dim_as_usize(shape[1]) {
            None => Err("Invalid Qwen logits time dimension: "@ + signed_decimal(shape[1] as int)),
            Some(time_dim) => match dim_as_usize(shape[2]) {
                None => Err(
                    "Invalid Qwen logits vocab dimension: "@ + signed_decimal(shape[2] as int),
                ),
                Some(vocab) => if time_index >= time_dim || vocab == 0 {
                    Err(
                        "Qwen decoder logits index is invalid: time_index "@ + decimal(time_index)
                            + ", shape "@ + debug_list(shape),
                    )
                } else if time_index * vocab > usize::MAX {
                    Err("Qwen logits offset overflowed."@)
                } else if time_index * vocab + vocab > usize::MAX {
                    Err("Qwen logits end offset overflowed."@)
                } else if time_index * vocab + vocab > logits_len {
                    Err("Qwen logits tensor is shorter than its shape."@)
                } else {
                    Ok((time_index * vocab, time_index * vocab + vocab))
                },
            },
        }
    }
}

/// Checks a logits tensor's shape and finds the row the next token is picked
/// from; the caller takes the highest finite score in that row.
pub fn qwen_logits_row(logits_len: usize, logits_shape: &[i64], time_index: usize) -> (r: Result<
    (usize, usize),
    String,
>)
    ensures
        match r {
            Ok((a, b)) => logits_row(logits_len as nat, logits_shape@, time_index as nat) == Ok::<
                (int, int),
                Seq<char>,
            >((a as int, b as int)),
            Err(m) => logits_row(logits_len as nat, logits_shape@, time_index as nat) == Err::<
                (int, int),
                Seq<char>,
            >(m@),
        },
{
    if logits_shape.len() < 3 {
        return Err(lit("Qwen decoder logits tensor must be at least 3-D."));
    }
    let time_dim = match dim_to_usize(logits_shape[1]) {
        Some(v) => v,
        None => {
            let mut m = lit("Invalid Qwen logits time dimension: ");
            append_str(&mut m, signed_decimal_string(logits_shape[1]).as_str());
            return Err(m);
        },
    };
    let vocab_size = match dim_to_usize(logits_shape[2]) {
        Some(v) => v,
        None => {
            let mut m = lit("Invalid Qwen logits vocab dimension: ");
            append_str(&mut m, signed_decimal_string(logits_shape[2]).as_str());
            return Err(m);
        },
    };
    if time_index >= time_dim || vocab_size == 0 {
        let mut m = lit("Qwen decoder logits index is invalid: time_index ");
        append_str(&mut m, decimal_string(time_index as u64).as_str());
        append_str(&mut m, ", shape ");
        append_str(&mut m, debug_list_string(logits_shape).as_str());
        return Err(m);
    }
    let start = match time_index.checked_mul(vocab_size) {
        Some(v) => v,
        None => return Err(lit("Qwen logits offset overflowed.")),
    };
    let end = match start.checked_add(vocab_size) {
        Some(v) => v,
        None => return Err(lit("Qwen logits end offset overflowed.")),
    };
    if end > logits_len {
        return Err(lit("Qwen logits tensor is shorter than its shape."));
    }
    Ok((start, end))
}

/// The ids that end a generated answer: `<|im_end|>` and `<|endoftext|>`
/// from the tokenizer, or their usual ids where the tokenizer lacks them.
pub fn qwen_stop_token_ids(entries: &Vec<(String, i64)>) -> (r: (i64, i64))
    ensures
        r.0 == match token_id(entry_views(entries@), "<|im_end|>"@) {
            Some(id) => id,
            None => 151645,
        },
        r.1 == match token_id(entry_views(entries@), "<|endoftext|>"@) {
            Some(id) => id,
            None => 151643,
        },
{
    let im_end = match qwen_token_id(entries, "<|im_end|>") {
        Some(id) => id,
        None => 151645,
    };
    let endoftext = match qwen_token_id(entries, "<|endoftext|>") {
        Some(id) => id,
        None => 151643,
    };
    (im_end, endoftext)
}

/// The state of greedy decoding after the prompt has been run: the token the
/// last run picked, how many runs there were, the cache position the next
/// run writes, and the ids generated so far.
pub struct QwenGreedyDecoder {
    pub im_end_id: i64,
    pub endoftext_id: i64,
    pub max_new_tokens: usize,
    pub max_total_len: usize,
    pub next_token: i64,
    pub runs: usize,
    pub cur_len: usize,
    pub generated: Vec<i64>,
}

impl QwenGreedyDecoder {
    pub open spec fn is_stop(&self, token: i64) -> bool {
        token == self.im_end_id || token == self.endoftext_id
    }

    /// Whether another decoder step runs.
    pub open spec fn can_step(&self) -> bool {
        self.runs < self.max_new_tokens && !self.is_stop(self.next_token) && self.cur_len
            < self.max_total_len
    }

    /// What every state of the decoder keeps: no stop token among the
    /// generated ids, at most one id per run, and the cache filled up to the
    /// prompt and one position per step.
    pub open spec fn wf(&self, context_len: nat) -> bool {
        &&& 1 <= self.runs
        &&& self.generated@.len() <= self.runs
        &&& forall|i: int|
            0 <= i < self.generated@.len() ==> !#[trigger] self.is_stop(self.generated@[i])
        &&& self.cur_len == context_len + self.runs - 1
        &&& (self.runs <= self.max_new_tokens || self.runs == 1)
    }

    /// The cache length a decoding run allows: room for the prompt, the
    /// new tokens and a small margin, and never less than 512.
    pub open spec fn total_len(context_len: nat, max_new_tokens: nat) -> nat {
        if context_len + max_new_tokens + 8 > 512 {
            context_len + max_new_tokens + 8
        } else {
            512
        }
    }

    /// The decoder after the prompt run picked `first_token`.
    pub fn start(
        first_token: i64,
        context_len: usize,
        max_new_tokens: usize,
        im_end_id: i64,
        endoftext_id: i64,
    ) -> (r: Self)
        requires
            context_len + max_new_tokens + 8 <= usize::MAX,
        ensures
            r.wf(context_len as nat),
            r.im_end_id == im_end_id,
            r.endoftext_id == endoftext_id,
            r.max_new_tokens == max_new_tokens,
            r.max_total_len == Self::total_len(context_len as nat, max_new_tokens as nat),
            r.next_token == first_token,
            r.runs == 1,
            r.cur_len == context_len,
            r.generated@ == (if first_token == im_end_id || first_token == endoftext_id {
                Seq::<i64>::empty()
            } else {
                seq![first_token]
            }),
    {
        let needed = context_len + max_new_tokens + 8;
        let max_total_len = if needed > 512 {
            needed
        } else {
            512
        };
        let mut generated: Vec<i64> = Vec::new();
        if first_token != im_end_id && first_token != endoftext_id {
            generated.push(first_token);
        }
        QwenGreedyDecoder {
            im_end_id,
            endoftext_id,
            max_new_tokens,
            max_total_len,
            next_token: first_token,
            runs: 1,
            cur_len: context_len,
            generated,
        }
    }

    /// The next decoder step, as its number, its input token and its cache
    /// position; `None` when decoding is over.
    pub fn next_step(&self) -> (r: Option<(usize, i64, usize)>)
        ensures
            r == (if self.can_step() {
                Some((self.runs, self.next_token, self.cur_len))
            } else {
                None
            }),
    {
        if self.runs < self.max_new_tokens && self.next_token != self.im_end_id && self.next_token
            != self.endoftext_id && self.cur_len < self.max_total_len {
            Some((self.runs, self.next_token, self.cur_len))
        } else {
            None
        }
    }

    /// Takes the token a decoder step picked.
    pub fn accept(&mut self, token: i64)
        requires
            old(self).can_step(),
        ensures
            final(self).next_token == token,
            final(self).runs == old(self).runs + 1,
            final(self).cur_len == old(self).cur_len + 1,
            final(self).generated@ == (if old(self).is_stop(token) {
                old(self).generated@
            } else {
                old(self).generated@.push(token)
            }),
            final(self).im_end_id == old(self).im_end_id,
            final(self).endoftext_id == old(self).endoftext_id,
            final(self).max_new_tokens == old(self).max_new_tokens,
            final(self).max_total_len == old(self).max_total_len,
    {
        self.next_token = token;
        self.runs = self.runs + 1;
        self.cur_len = self.cur_len + 1;
        if token != self.im_end_id && token != self.endoftext_id {
            self.generated.push(token);
        }
    }
}

/// Greedy decoding keeps its state well formed: whatever token a step
/// picks, the generated ids hold no stop token, grow by at most one per
/// run, and the runs stay within the token limit.
pub proof fn lemma_greedy_step_keeps_wf(
    before: QwenGreedyDecoder,
    after: QwenGreedyDecoder,
    token: i64,
    context_len: nat,
)
    requires
        before.wf(context_len),
        before.can_step(),
        after.next_token == token,
        after.runs == before.runs + 1,
        after.cur_len == before.cur_len + 1,
        after.generated@ == (if before.is_stop(token) {
            before.generated@
        } else {
            before.generated@.push(token)
        }),
        after.im_end_id == before.im_end_id,
        after.endoftext_id == before.endoftext_id,
        after.max_new_tokens == before.max_new_tokens,
        after.max_total_len == before.max_total_len,
    ensures
        after.wf(context_len),
        after.runs <= after.max_new_tokens,
        after.generated@.len() <= after.max_new_tokens,
{
    assert forall|i: int| 0 <= i < after.generated@.len() implies !#[trigger] after.is_stop(
        after.generated@[i],
    ) by {
        if i < before.generated@.len() {
            assert(after.generated@[i] == before.generated@[i]);
            assert(!before.is_stop(before.generated@[i]));
        }
    }
}

} // verus!
