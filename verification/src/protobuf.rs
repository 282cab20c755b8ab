//! The small part of the protobuf wire format that Hi-Voicer writes and reads:
//! a probe ONNX model and the vocabulary of a SentencePiece tokenizer.
use vstd::prelude::*;
use vstd::utf8::{decode_utf8, encode_utf8, valid_utf8};
use crate::sherpa_output::utf8_to_string;
use crate::text::{append_str, chars_of, lit, replace, replace_str, trim, trim_str, views};

verus! {

broadcast use vstd::string::group_string_axioms;

// ---------------------------------------------------------------------------
// Encoding
// ---------------------------------------------------------------------------

/// Base-128 varint, least significant group first, high bit on every byte
/// but the last.
pub open spec fn varint(n: nat) -> Seq<u8>
    decreases n,
{
    if n < 128 {
        seq![n as u8]
    } else {
        seq![((n % 128) + 128) as u8] + varint(n / 128)
    }
}

pub fn append_proto_varint(out: &mut Vec<u8>, value: u64)
    ensures
        final(out)@ == old(out)@ + varint(value as nat),
{
    let ghost initial = value;
    let mut value = value;
    let ghost start = old(out)@;
    while value >= 0x80
        invariant
            out@ + varint(value as nat) == start + varint(initial as nat),
        decreases value,
    {
        let ghost before = out@;
        let ghost v0 = value;
        let b = (value as u8) | 0x80;
        assert(b == ((v0 % 128) + 128) as u8) by (bit_vector)
            requires
                b == (v0 as u8) | 0x80,
        ;
        out.push(b);
        value = value >> 7;
        assert(value == v0 / 128) by (bit_vector)
            requires
                value == v0 >> 7,
        ;
        assert(varint(v0 as nat) =~= seq![((v0 % 128) + 128) as u8] + varint(value as nat));
        assert(out@ + varint(value as nat) =~= before + varint(v0 as nat));
    }
    let ghost before = out@;
    out.push(value as u8);
    assert(varint(value as nat) =~= seq![value as u8]);
    assert(out@ =~= before + varint(value as nat));
}

pub open spec fn proto_key(field_number: nat, wire_type: nat) -> Seq<u8> {
    varint(field_number * 8 + wire_type)
}

pub fn append_proto_key(out: &mut Vec<u8>, field_number: u32, wire_type: u8)
    requires
        wire_type < 8,
    ensures
        final(out)@ == old(out)@ + proto_key(field_number as nat, wire_type as nat),
{
    let k = ((field_number as u64) << 3) | wire_type as u64;
    let f = field_number as u64;
    let w = wire_type as u64;
    assert(((f << 3) | w) == f * 8 + w) by (bit_vector)
        requires
            f < 0x1_0000_0000,
            w < 8,
    ;
    append_proto_varint(out, k);
}

pub open spec fn proto_int(field_number: nat, value: nat) -> Seq<u8> {
    proto_key(field_number, 0) + varint(value)
}

pub fn append_proto_int(out: &mut Vec<u8>, field_number: u32, value: u64)
    ensures
        final(out)@ == old(out)@ + proto_int(field_number as nat, value as nat),
{
    append_proto_key(out, field_number, 0);
    append_proto_varint(out, value);
    assert(out@ =~= old(out)@ + proto_int(field_number as nat, value as nat));
}

/// A length-delimited field.
pub open spec fn proto_bytes(field_number: nat, data: Seq<u8>) -> Seq<u8> {
    proto_key(field_number, 2) + varint(data.len()) + data
}

fn append_bytes(out: &mut Vec<u8>, data: &[u8])
    ensures
        final(out)@ == old(out)@ + data@,
{
    let mut i: usize = 0;
    while i < data.len()
        invariant
            0 <= i <= data@.len(),
            out@ == old(out)@ + data@.take(i as int),
        decreases data@.len() - i,
    {
        out.push(data[i]);
        assert(data@.take(i + 1) =~= data@.take(i as int).push(data@[i as int]));
        i += 1;
    }
    assert(data@.take(data@.len() as int) =~= data@);
}

pub fn append_proto_string(out: &mut Vec<u8>, field_number: u32, value: &str)
    ensures
        final(out)@ == old(out)@ + proto_bytes(field_number as nat, encode_utf8(value@)),
{
    let bytes = value.as_bytes();
    append_proto_key(out, field_number, 2);
    append_proto_varint(out, bytes.len() as u64);
    append_bytes(out, bytes);
    assert(out@ =~= old(out)@ + proto_bytes(field_number as nat, encode_utf8(value@)));
}

pub fn append_proto_message(out: &mut Vec<u8>, field_number: u32, value: Vec<u8>)
    ensures
        final(out)@ == old(out)@ + proto_bytes(field_number as nat, value@),
{
    append_proto_key(out, field_number, 2);
    append_proto_varint(out, value.len() as u64);
    append_bytes(out, value.as_slice());
    assert(out@ =~= old(out)@ + proto_bytes(field_number as nat, value@));
}

// ---------------------------------------------------------------------------
// The DirectML probe model
// ---------------------------------------------------------------------------

/// `TensorShapeProto` with one dimension of size 1.
pub open spec fn probe_tensor_shape() -> Seq<u8> {
    proto_bytes(1, proto_int(1, 1))
}

/// `TypeProto.Tensor` of float with that shape.
pub open spec fn probe_tensor_type() -> Seq<u8> {
    proto_int(1, 1) + proto_bytes(2, probe_tensor_shape())
}

pub open spec fn probe_value_info(name: Seq<char>) -> Seq<u8> {
    proto_bytes(1, encode_utf8(name)) + proto_bytes(2, proto_bytes(1, probe_tensor_type()))
}

/// An ONNX model (IR 7, opset 13) with one `Identity` node from `X` to `Y`.
pub open spec fn identity_model() -> Seq<u8> {
    let node = proto_bytes(1, encode_utf8("X"@)) + proto_bytes(2, encode_utf8("Y"@)) + proto_bytes(
        3,
        encode_utf8("IdentityNode"@),
    ) + proto_bytes(4, encode_utf8("Identity"@));
    let graph = proto_bytes(1, node) + proto_bytes(2, encode_utf8("HiVoicerDirectMlIdentityGraph"@))
        + proto_bytes(11, probe_value_info("X"@)) + proto_bytes(12, probe_value_info("Y"@));
    let opset = proto_int(2, 13);
    proto_int(1, 7) + proto_bytes(2, encode_utf8("hi-voicer-directml-probe"@)) + proto_bytes(
        7,
        graph,
    ) + proto_bytes(8, opset)
}

fn probe_dim() -> (r: Vec<u8>)
    ensures
        r@ == proto_int(1, 1),
{
    let mut out = Vec::new();
    append_proto_int(&mut out, 1, 1);
    out
}

fn probe_shape() -> (r: Vec<u8>)
    ensures
        r@ == probe_tensor_shape(),
{
    let mut out = Vec::new();
    append_proto_message(&mut out, 1, probe_dim());
    out
}

fn probe_type() -> (r: Vec<u8>)
    ensures
        r@ == probe_tensor_type(),
{
    let mut out = Vec::new();
    append_proto_int(&mut out, 1, 1);
    append_proto_message(&mut out, 2, probe_shape());
    out
}

fn probe_info(name: &str) -> (r: Vec<u8>)
    ensures
        r@ == probe_value_info(name@),
{
    let mut type_proto = Vec::new();
    append_proto_message(&mut type_proto, 1, probe_type());
    let mut out = Vec::new();
    append_proto_string(&mut out, 1, name);
    append_proto_message(&mut out, 2, type_proto);
    out
}

pub fn directml_identity_model_bytes() -> (r: Vec<u8>)
    ensures
        r@ == identity_model(),
{
    let mut node = Vec::new();
    append_proto_string(&mut node, 1, "X");
    append_proto_string(&mut node, 2, "Y");
    append_proto_string(&mut node, 3, "IdentityNode");
    append_proto_string(&mut node, 4, "Identity");
    let mut graph = Vec::new();
    append_proto_message(&mut graph, 1, node);
    append_proto_string(&mut graph, 2, "HiVoicerDirectMlIdentityGraph");
    append_proto_message(&mut graph, 11, probe_info("X"));
    append_proto_message(&mut graph, 12, probe_info("Y"));
    let mut opset = Vec::new();
    append_proto_int(&mut opset, 2, 13);
    let mut model = Vec::new();
    append_proto_int(&mut model, 1, 7);
    append_proto_string(&mut model, 2, "hi-voicer-directml-probe");
    append_proto_message(&mut model, 7, graph);
    append_proto_message(&mut model, 8, opset);
    assert(model@ =~= identity_model());
    model
}

// ---------------------------------------------------------------------------
// Decoding
// ---------------------------------------------------------------------------

/// Reads a varint from `off` with `shift` bits already read into `acc`:
/// the value (none when the bytes end first or more than 64 bits would be
/// read) and the offset reached.
pub open spec fn read_varint_from(bytes: Seq<u8>, off: int, shift: nat, acc: u64) -> (Option<u64>, int)
    decreases bytes.len() - off,
{
    if off < 0 || off >= bytes.len() || shift >= 64 {
        (None, off)
    } else {
        let b = bytes[off];
        let acc2 = acc | (((b & 0x7f) as u64) << (shift as u64));
        if b & 0x80 == 0 {
            (Some(acc2), off + 1)
        } else {
            read_varint_from(bytes, off + 1, shift + 7, acc2)
        }
    }
}

pub open spec fn read_varint(bytes: Seq<u8>, off: int) -> (Option<u64>, int) {
    read_varint_from(bytes, off, 0, 0)
}

pub fn read_protobuf_varint(bytes: &[u8], offset: &mut usize) -> (r: Option<u64>)
    requires
        *old(offset) <= bytes@.len(),
    ensures
        (r, *final(offset) as int) == read_varint(bytes@, *old(offset) as int),
        *old(offset) <= *final(offset) <= bytes@.len(),
        r is Some ==> *old(offset) < *final(offset),
{
    let mut value: u64 = 0;
    let mut shift: u32 = 0;
    let ghost start = *offset;
    while *offset < bytes.len() && shift < 64
        invariant
            start == *old(offset),
            start <= *offset <= bytes@.len(),
            shift <= 70,
            shift % 7 == 0,
            *offset - start == shift / 7,
            read_varint(bytes@, start as int) == read_varint_from(
                bytes@,
                *offset as int,
                shift as nat,
                value,
            ),
        decreases bytes@.len() - *offset,
    {
        let byte = bytes[*offset];
        let ghost off0 = *offset as int;
        let ghost v0 = value;
        let ghost sh: nat = shift as nat;
        assert((sh as u64) == (shift as u64));
        *offset += 1;
        value = value | (((byte & 0x7f) as u64) << (shift as u64));
        assert(read_varint_from(bytes@, off0, sh, v0) == (if byte & 0x80 == 0 {
            (Some(value), off0 + 1)
        } else {
            read_varint_from(bytes@, off0 + 1, sh + 7, value)
        }));
        if byte & 0x80 == 0 {
            assert(*offset == off0 + 1);
            assert(start == *old(offset));
            assert(read_varint(bytes@, start as int) == (Some(value), off0 + 1));
            return Some(value);
        }
        shift += 7;
    }
    None
}

/// Skips a field's payload of the given wire type: whether it fits, and the
/// offset reached (saturating).
pub open spec fn skip_field(bytes: Seq<u8>, off: int, wire_type: u64) -> (bool, int) {
    if wire_type == 0 {
        let r = read_varint(bytes, off);
        (r.0 is Some, r.1)
    } else if wire_type == 1 {
        let o = sat_add(off, 8);
        (o <= bytes.len(), o)
    } else if wire_type == 2 {
        let r = read_varint(bytes, off);
        match r.0 {
            None => (false, r.1),
            Some(len) => if len > usize::MAX {
                (false, r.1)
            } else {
                let o = sat_add(r.1, len as int);
                (o <= bytes.len(), o)
            },
        }
    } else if wire_type == 5 {
        let o = sat_add(off, 4);
        (o <= bytes.len(), o)
    } else {
        (false, off)
    }
}

pub open spec fn sat_add(a: int, b: int) -> int {
    if a + b > usize::MAX {
        usize::MAX as int
    } else {
        a + b
    }
}

pub proof fn lemma_skip_field_bounds(bytes: Seq<u8>, off: int, wire: u64)
    requires
        0 <= off <= bytes.len() <= usize::MAX,
    ensures
        skip_field(bytes, off, wire).1 >= off,
        skip_field(bytes, off, wire).0 ==> skip_field(bytes, off, wire).1 <= bytes.len(),
{
    lemma_read_varint_progress(bytes, off, 0, 0);
}

pub fn skip_protobuf_field(bytes: &[u8], offset: &mut usize, wire_type: u64) -> (r: bool)
    requires
        *old(offset) <= bytes@.len(),
    ensures
        (r, *final(offset) as int) == skip_field(bytes@, *old(offset) as int, wire_type),
        *final(offset) >= *old(offset),
        r ==> *final(offset) <= bytes@.len(),
{
    let n = bytes.len();
    assert(n == bytes@.len());
    proof {
        lemma_skip_field_bounds(bytes@, *offset as int, wire_type);
    }
    if wire_type == 0 {
        read_protobuf_varint(bytes, offset).is_some()
    } else if wire_type == 1 {
        *offset = offset.saturating_add(8);
        *offset <= bytes.len()
    } else if wire_type == 2 {
        match read_protobuf_varint(bytes, offset) {
            None => false,
            Some(length) => {
                if length > usize::MAX as u64 {
                    return false;
                }
                *offset = offset.saturating_add(length as usize);
                *offset <= bytes.len()
            },
        }
    } else if wire_type == 5 {
        *offset = offset.saturating_add(4);
        *offset <= bytes.len()
    } else {
        false
    }
}

/// Scans a `SentencePiece` message from `off` for its `piece` field (field 1,
/// length-delimited): its UTF-8 text, none when it is missing, malformed,
/// not UTF-8, or comes after a field that cannot be skipped.
/// (A byte string longer than `usize::MAX` cannot be in memory and gives
/// `None`.)
pub open spec fn piece_from(message: Seq<u8>, off: int) -> Option<Seq<char>>
    decreases message.len() - off,
{
    if off < 0 || off >= message.len() || message.len() > usize::MAX {
        None
    } else {
        let (key, o1) = read_varint(message, off);
        match key {
            None => None,
            Some(k) => {
                let field = k >> 3;
                let wire = k & 7;
                if field == 1 && wire == 2 {
                    let (len, o2) = read_varint(message, o1);
                    match len {
                        None => None,
                        Some(l) => if l > usize::MAX || o2 + l > message.len() {
                            None
                        } else if valid_utf8(message.subrange(o2, o2 + l as int)) {
                            Some(decode_utf8(message.subrange(o2, o2 + l as int)))
                        } else {
                            None
                        },
                    }
                } else {
                    let (ok, o2) = skip_field(message, o1, wire);
                    if !ok {
                        None
                    } else {
                        proof {
                            lemma_read_varint_progress(message, off, 0, 0);
                            lemma_skip_field_bounds(message, o1, wire);
                        }
                        piece_from(message, o2)
                    }
                }
            },
        }
    }
}

pub proof fn lemma_read_varint_progress(bytes: Seq<u8>, off: int, shift: nat, acc: u64)
    requires
        0 <= off,
    ensures
        off <= read_varint_from(bytes, off, shift, acc).1,
        read_varint_from(bytes, off, shift, acc).0 is Some ==> off < read_varint_from(
            bytes,
            off,
            shift,
            acc,
        ).1 <= bytes.len(),
        off <= bytes.len() ==> read_varint_from(bytes, off, shift, acc).1 <= bytes.len(),
    decreases bytes.len() - off,
{
    if off < 0 || off >= bytes.len() || shift >= 64 {
    } else {
        let b = bytes[off];
        let acc2 = acc | (((b & 0x7f) as u64) << (shift as u64));
        if b & 0x80 != 0 {
            lemma_read_varint_progress(bytes, off + 1, shift + 7, acc2);
        }
    }
}

proof fn lemma_read_varint_encoded(bytes: Seq<u8>, off: int, shift: u64, acc: u64, m: u64)
    requires
        0 <= off,
        off + varint(m as nat).len() <= bytes.len(),
        bytes.subrange(off, off + varint(m as nat).len()) == varint(m as nat),
        shift <= 63,
        m <= (0xffff_ffff_ffff_ffffu64 >> shift),
    ensures
        read_varint_from(bytes, off, shift as nat, acc) == (
            Some(acc | (m << shift)),
            (off + varint(m as nat).len()) as int,
        ),
    decreases m,
{
    let v = varint(m as nat);
    let b = bytes[off];
    assert(bytes.subrange(off, off + v.len())[0] == b);
    assert(((shift as nat) as u64) == shift);
    if m < 128 {
        assert(v =~= seq![m as u8]);
        assert(b & 0x80u8 == 0 && ((b & 0x7fu8) as u64) == m) by (bit_vector)
            requires
                b == m as u8,
                m < 128,
        ;
    } else {
        let m2 = m >> 7u64;
        assert(m2 == m / 128 && m2 < m) by (bit_vector)
            requires
                m2 == m >> 7u64,
                m >= 128,
        ;
        assert(v =~= seq![((m as nat % 128) + 128) as u8] + varint(m2 as nat));
        assert(b & 0x80u8 != 0 && ((b & 0x7fu8) as u64) == m & 127u64) by (bit_vector)
            requires
                b == ((m % 128) + 128) as u8,
        ;
        assert(shift <= 56 && m2 <= (0xffff_ffff_ffff_ffffu64 >> (shift + 7))) by (bit_vector)
            requires
                m >= 128,
                shift <= 63,
                m <= (0xffff_ffff_ffff_ffffu64 >> shift),
                m2 == m >> 7u64,
        ;
        let acc2 = acc | ((m & 127u64) << shift);
        assert((acc2 | (m2 << (shift + 7))) == (acc | (m << shift))) by (bit_vector)
            requires
                acc2 == acc | ((m & 127u64) << shift),
                m2 == m >> 7u64,
                shift <= 56,
        ;
        assert(bytes.subrange(off + 1, off + 1 + varint(m2 as nat).len()) =~= varint(m2 as nat))
            by {
            assert(bytes.subrange(off + 1, off + 1 + varint(m2 as nat).len()) =~= bytes.subrange(
                off,
                off + v.len(),
            ).drop_first());
        }
        lemma_read_varint_encoded(bytes, off + 1, (shift + 7) as u64, acc2, m2);
        assert(((shift + 7) as nat) == (shift as nat) + 7);
    }
}

/// Reading a varint back where one was written gives the value written and
/// ends right after it, whatever precedes and follows it.
pub proof fn lemma_varint_roundtrip(n: u64, before: Seq<u8>, after: Seq<u8>)
    ensures
        read_varint(before + varint(n as nat) + after, before.len() as int) == (
            Some(n),
            (before.len() + varint(n as nat).len()) as int,
        ),
{
    let bytes = before + varint(n as nat) + after;
    let off = before.len() as int;
    assert(bytes.subrange(off, off + varint(n as nat).len()) =~= varint(n as nat));
    assert(n <= (0xffff_ffff_ffff_ffffu64 >> 0u64) && (0u64 | (n << 0u64)) == n) by (bit_vector);
    lemma_read_varint_encoded(bytes, off, 0, 0, n);
}

pub fn sentencepiece_piece_from_vocab_message(message: &[u8]) -> (r: Option<String>)
    ensures
        match r {
            Some(s) => piece_from(message@, 0) == Some(s@),
            None => piece_from(message@, 0) is None,
        },
{
    let mut offset: usize = 0;
    while offset < message.len()
        invariant
            offset <= message@.len(),
            piece_from(message@, 0) == piece_from(message@, offset as int),
        decreases message@.len() - offset,
    {
        let start = offset;
        proof {
            lemma_read_varint_progress(message@, offset as int, 0, 0);
        }
        let key = match read_protobuf_varint(message, &mut offset) {
            Some(k) => k,
            None => return None,
        };
        let field_number = key >> 3;
        let wire_type = key & 0x07;
        if field_number == 1 && wire_type == 2 {
            let length = match read_protobuf_varint(message, &mut offset) {
                Some(l) => l,
                None => return None,
            };
            if length > usize::MAX as u64 {
                return None;
            }
            let length = length as usize;
            let end = match offset.checked_add(length) {
                Some(e) => e,
                None => return None,
            };
            if end > message.len() {
                return None;
            }
            let mut piece: Vec<u8> = Vec::new();
            let mut i = offset;
            while i < end
                invariant
                    offset <= i <= end <= message@.len(),
                    piece@ == message@.subrange(offset as int, i as int),
                decreases end - i,
            {
                piece.push(message[i]);
                assert(message@.subrange(offset as int, i + 1) =~= message@.subrange(
                    offset as int,
                    i as int,
                ).push(message@[i as int]));
                i += 1;
            }
            return utf8_to_string(piece.as_slice());
        }
        if !skip_protobuf_field(message, &mut offset, wire_type) {
            return None;
        }
    }
    None
}

/// What the vocabulary pieces of a tokenizer model are, or why they cannot be
/// read, scanning top-level fields from `off` with `acc` pieces found so far.
pub open spec fn pieces_from(bytes: Seq<u8>, off: int, acc: Seq<Seq<char>>) -> Result<
    Seq<Seq<char>>,
    Seq<char>,
>
    decreases bytes.len() - off,
{
    if off < 0 || off >= bytes.len() || bytes.len() > usize::MAX {
        if acc.len() == 0 {
            Err("SentencePiece tokenizer did not contain any vocab pieces."@)
        } else {
            Ok(acc)
        }
    } else {
        let (key, o1) = read_varint(bytes, off);
        match key {
            None => pieces_from(bytes, bytes.len() as int, acc),
            Some(k) => {
                let field = k >> 3;
                let wire = k & 7;
                if field == 1 && wire == 2 {
                    let (len, o2) = read_varint(bytes, o1);
                    match len {
                        None => pieces_from(bytes, bytes.len() as int, acc),
                        Some(l) => if l > usize::MAX {
                            Err("SentencePiece vocab message is too large."@)
                        } else if o2 + l > usize::MAX {
                            Err("SentencePiece vocab message length overflowed."@)
                        } else if o2 + l > bytes.len() {
                            Err("SentencePiece tokenizer ended inside a vocab message."@)
                        } else {
                            let next = match piece_from(bytes.subrange(o2, o2 + l as int), 0) {
                                Some(p) => acc.push(p),
                                None => acc,
                            };
                            proof {
                                lemma_read_varint_progress(bytes, off, 0, 0);
                                lemma_read_varint_progress(bytes, o1, 0, 0);
                            }
                            pieces_from(bytes, o2 + l, next)
                        },
                    }
                } else {
                    let (ok, o2) = skip_field(bytes, o1, wire);
                    if !ok {
                        Err("SentencePiece tokenizer contains an unsupported protobuf field."@)
                    } else {
                        proof {
                            lemma_read_varint_progress(bytes, off, 0, 0);
                            lemma_skip_field_bounds(bytes, o1, wire);
                        }
                        pieces_from(bytes, o2, acc)
                    }
                }
            },
        }
    }
}

/// A vocabulary entry of a tokenizer model: a `SentencePiece` message whose
/// `piece` field holds `piece` as UTF-8, as field 1 of the model.
pub open spec fn vocab_entry(piece: Seq<char>) -> Seq<u8> {
    proto_bytes(1, proto_bytes(1, encode_utf8(piece)))
}

/// A tokenizer model that lists `pieces` as its vocabulary, in order.
pub open spec fn vocab_model(pieces: Seq<Seq<char>>) -> Seq<u8>
    decreases pieces.len(),
{
    if pieces.len() == 0 {
        Seq::empty()
    } else {
        vocab_model(pieces.drop_last()) + vocab_entry(pieces.last())
    }
}

proof fn lemma_vocab_model_prefix(ps: Seq<Seq<char>>, j: int)
    requires
        0 <= j <= ps.len(),
    ensures
        vocab_model(ps.take(j)).len() <= vocab_model(ps).len(),
        vocab_model(ps).take(vocab_model(ps.take(j)).len() as int) == vocab_model(ps.take(j)),
    decreases ps.len(),
{
    if j == ps.len() {
        assert(ps.take(j) =~= ps);
        assert(vocab_model(ps).take(vocab_model(ps).len() as int) =~= vocab_model(ps));
    } else {
        let init = ps.drop_last();
        lemma_vocab_model_prefix(init, j);
        assert(init.take(j) =~= ps.take(j));
        let m = vocab_model(ps);
        assert(m == vocab_model(init) + vocab_entry(ps.last()));
        assert(m.take(vocab_model(ps.take(j)).len() as int) =~= vocab_model(init).take(
            vocab_model(ps.take(j)).len() as int,
        ));
    }
}

proof fn lemma_key_is_piece_field()
    ensures
        (10u64 >> 3u64) == 1u64,
        (10u64 & 7u64) == 2u64,
{
    assert((10u64 >> 3u64) == 1u64 && (10u64 & 7u64) == 2u64) by (bit_vector);
}

proof fn lemma_entry_piece(piece: Seq<char>)
    requires
        proto_bytes(1, encode_utf8(piece)).len() <= usize::MAX,
    ensures
        piece_from(proto_bytes(1, encode_utf8(piece)), 0) == Some(piece),
{
    broadcast use vstd::utf8::encode_utf8_valid_utf8, vstd::utf8::encode_utf8_decode_utf8;

    let enc = encode_utf8(piece);
    let inner = proto_bytes(1, enc);
    let e = enc.len();
    assert(proto_key(1, 2) == varint(10));
    assert(varint(10) =~= seq![10u8]);
    lemma_key_is_piece_field();
    lemma_varint_roundtrip(10, Seq::empty(), varint(e) + enc);
    assert(Seq::<u8>::empty() + varint(10) + (varint(e) + enc) =~= inner);
    assert(e <= u64::MAX);
    lemma_varint_roundtrip(e as u64, varint(10), enc);
    assert(varint(10) + varint(e as nat) + enc =~= inner);
    let o2 = 1 + varint(e).len();
    assert(inner.subrange(o2 as int, (o2 + e) as int) =~= enc);
}

proof fn lemma_pieces_from_entry_step(
    b: Seq<u8>,
    off: int,
    acc: Seq<Seq<char>>,
    l: u64,
    o2: int,
    piece: Seq<char>,
)
    requires
        0 <= off < b.len() <= usize::MAX,
        off + 1 < o2,
        read_varint(b, off) == (Some(10u64), off + 1),
        read_varint(b, off + 1) == (Some(l), o2),
        (10u64 >> 3u64) == 1u64,
        (10u64 & 7u64) == 2u64,
        o2 + l <= b.len(),
        piece_from(b.subrange(o2, o2 + l as int), 0) == Some(piece),
    ensures
        pieces_from(b, off, acc) == pieces_from(b, o2 + l as int, acc.push(piece)),
{
    assert(l <= usize::MAX);
}

proof fn lemma_entry_reads(before: Seq<u8>, piece: Seq<char>, after: Seq<u8>, acc: Seq<Seq<char>>)
    requires
        (before + vocab_entry(piece) + after).len() <= usize::MAX,
    ensures
        pieces_from(before + vocab_entry(piece) + after, before.len() as int, acc) == pieces_from(
            before + vocab_entry(piece) + after,
            (before.len() + vocab_entry(piece).len()) as int,
            acc.push(piece),
        ),
{
    let inner = proto_bytes(1, encode_utf8(piece));
    let entry = vocab_entry(piece);
    let b = before + entry + after;
    let l = inner.len();
    let o2 = before.len() + 1 + varint(l).len();
    assert(entry =~= varint(10) + varint(l) + inner) by {
        assert(proto_key(1, 2) == varint(10));
    }
    assert(varint(10) =~= seq![10u8]);
    lemma_key_is_piece_field();
    assert(l <= u64::MAX);
    assert(read_varint(b, before.len() as int) == (Some(10u64), (before.len() + 1) as int)) by {
        lemma_varint_roundtrip(10, before, varint(l) + inner + after);
        assert(before + varint(10) + (varint(l) + inner + after) =~= b);
    }
    assert(read_varint(b, (before.len() + 1) as int) == (Some(l as u64), o2 as int)) by {
        lemma_varint_roundtrip(l as u64, before + varint(10), inner + after);
        assert(before + varint(10) + varint(l as nat) + (inner + after) =~= b);
    }
    assert(b.subrange(o2 as int, (o2 + l) as int) =~= inner);
    lemma_entry_piece(piece);
    lemma_pieces_from_entry_step(b, before.len() as int, acc, l as u64, o2 as int, piece);
}

proof fn lemma_vocab_model_reads_from(ps: Seq<Seq<char>>, k: int)
    requires
        0 <= k <= ps.len(),
        ps.len() > 0,
        vocab_model(ps).len() <= usize::MAX,
    ensures
        pieces_from(vocab_model(ps), vocab_model(ps.take(k)).len() as int, ps.take(k)) == Ok::<
            Seq<Seq<char>>,
            Seq<char>,
        >(ps),
    decreases ps.len() - k,
{
    let b = vocab_model(ps);
    lemma_vocab_model_prefix(ps, k);
    if k == ps.len() {
        assert(ps.take(k) =~= ps);
    } else {
        lemma_vocab_model_prefix(ps, k + 1);
        lemma_vocab_model_reads_from(ps, k + 1);
        let before = vocab_model(ps.take(k));
        let piece = ps[k];
        let entry = vocab_entry(piece);
        assert(vocab_model(ps.take(k + 1)) == before + entry) by {
            assert(ps.take(k + 1).drop_last() =~= ps.take(k));
            assert(ps.take(k + 1).last() == piece);
        }
        let after = b.skip((before.len() + entry.len()) as int);
        assert(b =~= before + entry + after) by {
            assert(b.take((before.len() + entry.len()) as int) == before + entry);
        }
        lemma_entry_reads(before, piece, after, ps.take(k));
        assert(ps.take(k).push(piece) =~= ps.take(k + 1));
    }
}

/// A tokenizer model that lists vocabulary entries reads back as exactly
/// those pieces, in order.
pub proof fn lemma_sentencepiece_roundtrip(pieces: Seq<Seq<char>>)
    requires
        pieces.len() > 0,
        vocab_model(pieces).len() <= usize::MAX,
    ensures
        pieces_from(vocab_model(pieces), 0, Seq::empty()) == Ok::<Seq<Seq<char>>, Seq<char>>(pieces),
{
    lemma_vocab_model_reads_from(pieces, 0);
    assert(pieces.take(0) =~= Seq::<Seq<char>>::empty());
    assert(vocab_model(Seq::<Seq<char>>::empty()) =~= Seq::<u8>::empty());
}

pub open spec fn result_views(r: Result<Vec<String>, String>) -> Result<Seq<Seq<char>>, Seq<char>> {
    match r {
        Ok(v) => Ok(views(v@)),
        Err(e) => Err(e@),
    }
}

/// The vocabulary pieces of a serialized SentencePiece model.
pub fn parse_sentencepiece_pieces(bytes: &[u8]) -> (r: Result<Vec<String>, String>)
    ensures
        result_views(r) == pieces_from(bytes@, 0, Seq::empty()),
{
    let mut offset: usize = 0;
    let mut pieces: Vec<String> = Vec::new();
    assert(views(pieces@) =~= Seq::<Seq<char>>::empty());
    while offset < bytes.len()
        invariant
            offset <= bytes@.len(),
            pieces_from(bytes@, 0, Seq::empty()) == pieces_from(
                bytes@,
                offset as int,
                views(pieces@),
            ),
        decreases bytes@.len() - offset,
    {
        let start = offset;
        let key = match read_protobuf_varint(bytes, &mut offset) {
            Some(k) => k,
            None => {
                offset = bytes.len();
                continue ;
            },
        };
        let field_number = key >> 3;
        let wire_type = key & 0x07;
        if field_number == 1 && wire_type == 2 {
            let length = match read_protobuf_varint(bytes, &mut offset) {
                Some(l) => l,
                None => {
                    offset = bytes.len();
                    continue ;
                },
            };
            if length > usize::MAX as u64 {
                return Err(lit("SentencePiece vocab message is too large."));
            }
            let length = length as usize;
            let end = match offset.checked_add(length) {
                Some(e) => e,
                None => return Err(lit("SentencePiece vocab message length overflowed.")),
            };
            if end > bytes.len() {
                return Err(lit("SentencePiece tokenizer ended inside a vocab message."));
            }
            let mut message: Vec<u8> = Vec::new();
            let mut i = offset;
            while i < end
                invariant
                    offset <= i <= end <= bytes@.len(),
                    message@ == bytes@.subrange(offset as int, i as int),
                decreases end - i,
            {
                message.push(bytes[i]);
                assert(bytes@.subrange(offset as int, i + 1) =~= bytes@.subrange(
                    offset as int,
                    i as int,
                ).push(bytes@[i as int]));
                i += 1;
            }
            let ghost before = views(pieces@);
            if let Some(piece) = sentencepiece_piece_from_vocab_message(message.as_slice()) {
                pieces.push(piece);
                assert(views(pieces@) =~= before.push(piece@));
            }
            offset = end;
            continue ;
        }
        if !skip_protobuf_field(bytes, &mut offset, wire_type) {
            return Err(lit("SentencePiece tokenizer contains an unsupported protobuf field."));
        }
    }
    assert(offset == bytes@.len());
    assert(pieces_from(bytes@, offset as int, views(pieces@)) == (if views(pieces@).len() == 0 {
        Err("SentencePiece tokenizer did not contain any vocab pieces."@)
    } else {
        Ok(views(pieces@))
    }));
    if pieces.len() == 0 {
        return Err(lit("SentencePiece tokenizer did not contain any vocab pieces."));
    }
    Ok(pieces)
}

// ---------------------------------------------------------------------------
// Token decoding
// ---------------------------------------------------------------------------

/// The pieces of the valid token ids, with `▁` shown as a space, concatenated.
pub open spec fn joined_pieces(ids: Seq<i32>, pieces: Seq<Seq<char>>) -> Seq<char>
    decreases ids.len(),
{
    if ids.len() == 0 {
        Seq::empty()
    } else {
        let prev = joined_pieces(ids.drop_last(), pieces);
        let id = ids.last();
        if 0 <= id < pieces.len() {
            prev + replace(pieces[id as int], seq!['▁'], seq![' '])
        } else {
            prev
        }
    }
}

pub fn decode_sentencepiece_pieces(token_ids: &[i32], pieces: &[String]) -> (r: String)
    ensures
        r@ == trim(joined_pieces(token_ids@, pieces@.map_values(|p: String| p@))),
{
    let ghost ps = pieces@.map_values(|p: String| p@);
    let mut text = String::new();
    let mut i: usize = 0;
    while i < token_ids.len()
        invariant
            0 <= i <= token_ids@.len(),
            ps == pieces@.map_values(|p: String| p@),
            text@ == joined_pieces(token_ids@.take(i as int), ps),
        decreases token_ids@.len() - i,
    {
        assert(token_ids@.take(i + 1).drop_last() =~= token_ids@.take(i as int));
        let id = token_ids[i];
        if id >= 0 && (id as usize) < pieces.len() {
            proof {
                reveal_strlit("▁");
                reveal_strlit(" ");
                assert("▁"@ =~= seq!['▁']);
                assert(" "@ =~= seq![' ']);
            }
            let shown = replace_str(pieces[id as usize].as_str(), "▁", " ");
            append_str(&mut text, shown.as_str());
        }
        i += 1;
    }
    assert(token_ids@.take(token_ids@.len() as int) =~= token_ids@);
    trim_str(text.as_str())
}

/// Greedy CTC collapse of the top-1 tokens of frames `4 .. end`, where `end`
/// is the number of frames limited to the valid frames after the prompt:
/// repeats are merged, blanks (token 0) dropped, and reading stops at the
/// first frame beyond the data.
pub open spec fn ctc_collapse(
    topk: Seq<i32>,
    top_k: int,
    frame: int,
    end: int,
    previous: Option<i32>,
) -> Seq<i32>
    decreases end - frame,
{
    if frame >= end {
        Seq::empty()
    } else {
        let offset = if frame * top_k > usize::MAX {
            usize::MAX as int
        } else {
            frame * top_k
        };
        if offset >= topk.len() {
            Seq::empty()
        } else {
            let token = topk[offset];
            if Some(token) == previous {
                ctc_collapse(topk, top_k, frame + 1, end, previous)
            } else if token != 0 {
                seq![token] + ctc_collapse(topk, top_k, frame + 1, end, Some(token))
            } else {
                ctc_collapse(topk, top_k, frame + 1, end, Some(token))
            }
        }
    }
}

pub open spec fn ctc_end(topk_shape: Seq<usize>, valid_frames: usize) -> int {
    let time_steps: int = if topk_shape.len() > 1 {
        topk_shape[1] as int
    } else {
        0
    };
    let limit = if valid_frames + 4 > usize::MAX {
        usize::MAX as int
    } else {
        valid_frames + 4
    };
    if time_steps < limit {
        time_steps
    } else {
        limit
    }
}

pub open spec fn ctc_top_k(topk_shape: Seq<usize>) -> int {
    if topk_shape.len() > 2 {
        topk_shape[2] as int
    } else {
        100
    }
}

/// The top-1 token of each frame from `frame` up to `end`, stopping at the
/// first frame whose row lies outside the buffer.
pub open spec fn frame_tokens(topk: Seq<i32>, top_k: int, frame: int, end: int) -> Seq<i32>
    decreases end - frame,
{
    if frame >= end {
        Seq::empty()
    } else {
        let offset = if frame * top_k > usize::MAX {
            usize::MAX as int
        } else {
            frame * top_k
        };
        if offset >= topk.len() {
            Seq::empty()
        } else {
            seq![topk[offset]] + frame_tokens(topk, top_k, frame + 1, end)
        }
    }
}

/// Standard CTC collapse of frame tokens: token `i` is emitted when it is not
/// the blank (0) and differs from the token of the frame just before it, so
/// runs merge and a blank between two equal tokens keeps both.
pub open spec fn ctc_standard(t: Seq<i32>) -> Seq<i32>
    decreases t.len(),
{
    if t.len() == 0 {
        Seq::empty()
    } else {
        let i = t.len() - 1;
        let prev = ctc_standard(t.drop_last());
        if t[i] != 0 && (i == 0 || t[i] != t[i - 1]) {
            prev.push(t[i])
        } else {
            prev
        }
    }
}

spec fn ctc_from(t: Seq<i32>, previous: Option<i32>) -> Seq<i32>
    decreases t.len(),
{
    if t.len() == 0 {
        Seq::empty()
    } else {
        (if t[0] != 0 && Some(t[0]) != previous {
            seq![t[0]]
        } else {
            Seq::empty()
        }) + ctc_from(t.drop_first(), Some(t[0]))
    }
}

proof fn lemma_ctc_collapse_from(
    topk: Seq<i32>,
    top_k: int,
    frame: int,
    end: int,
    previous: Option<i32>,
)
    ensures
        ctc_collapse(topk, top_k, frame, end, previous) == ctc_from(
            frame_tokens(topk, top_k, frame, end),
            previous,
        ),
    decreases end - frame,
{
    if frame < end {
        let t = frame_tokens(topk, top_k, frame, end);
        lemma_ctc_collapse_from(topk, top_k, frame + 1, end, previous);
        if t.len() > 0 {
            let token = t[0];
            assert(t.drop_first() =~= frame_tokens(topk, top_k, frame + 1, end));
            lemma_ctc_collapse_from(topk, top_k, frame + 1, end, Some(token));
            if token != 0 && Some(token) != previous {
                assert(ctc_from(t, previous) == seq![token] + ctc_from(t.drop_first(), Some(token)));
            } else {
                assert(ctc_from(t, previous) =~= ctc_from(t.drop_first(), Some(token)));
            }
        }
    }
}

proof fn lemma_ctc_standard_split(p: Seq<i32>, t: Seq<i32>)
    ensures
        ctc_standard(p + t) == ctc_standard(p) + ctc_from(
            t,
            if p.len() > 0 {
                Some(p.last())
            } else {
                None
            },
        ),
    decreases t.len(),
{
    if t.len() == 0 {
        assert(p + t =~= p);
        assert(ctc_standard(p) + Seq::<i32>::empty() =~= ctc_standard(p));
    } else {
        let x = t[0];
        let p2 = p.push(x);
        lemma_ctc_standard_split(p2, t.drop_first());
        assert(p + t =~= p2 + t.drop_first());
        assert(p2.drop_last() =~= p);
        let prev = if p.len() > 0 {
            Some(p.last())
        } else {
            None
        };
        let head = if x != 0 && Some(x) != prev {
            seq![x]
        } else {
            Seq::<i32>::empty()
        };
        assert(ctc_standard(p2) =~= ctc_standard(p) + head);
        assert(ctc_from(t, prev) == head + ctc_from(t.drop_first(), Some(x)));
        assert(ctc_standard(p) + head + ctc_from(t.drop_first(), Some(x)) =~= ctc_standard(p) + (
        head + ctc_from(t.drop_first(), Some(x))));
    }
}

/// Greedy CTC decoding is the standard collapse of the frames' top-1 tokens
/// (from the first frame after the prompt, up to the frame limit or the end
/// of the buffer): a token is kept when it is not the blank and differs from
/// the previous frame's token, so `[a, a, 0, a]` gives `[a, a]`.
pub proof fn lemma_ctc_greedy_is_standard_collapse(topk: Seq<i32>, top_k: int, start: int, end: int)
    ensures
        ctc_collapse(topk, top_k, start, end, None) == ctc_standard(
            frame_tokens(topk, top_k, start, end),
        ),
{
    let t = frame_tokens(topk, top_k, start, end);
    lemma_ctc_collapse_from(topk, top_k, start, end, None);
    lemma_ctc_standard_split(Seq::empty(), t);
    assert(Seq::<i32>::empty() + t =~= t);
    assert(ctc_standard(Seq::<i32>::empty()) + ctc_from(t, None) =~= ctc_from(t, None));
}

pub fn ctc_greedy_decode_top1(
    topk_indices: &[i32],
    topk_shape: &[usize],
    valid_frames: usize,
    pieces: &[String],
) -> (r: (Vec<i32>, String))
    ensures
        r.0@ == ctc_collapse(
            topk_indices@,
            ctc_top_k(topk_shape@),
            4,
            ctc_end(topk_shape@, valid_frames),
            None,
        ),
        r.1@ == trim(joined_pieces(r.0@, pieces@.map_values(|p: String| p@))),
{
    let prompt_len: usize = 4;
    let time_steps = if topk_shape.len() > 1 {
        topk_shape[1]
    } else {
        0
    };
    let top_k = if topk_shape.len() > 2 {
        topk_shape[2]
    } else {
        100
    };
    let end = if time_steps < valid_frames.saturating_add(prompt_len) {
        time_steps
    } else {
        valid_frames.saturating_add(prompt_len)
    };
    let ghost total = ctc_collapse(topk_indices@, top_k as int, 4, end as int, None);
    let mut collapsed: Vec<i32> = Vec::new();
    let mut previous: Option<i32> = None;
    let mut frame = prompt_len;
    while frame < end
        invariant
            4 <= frame,
            frame <= end || end < 4,
            collapsed@ + ctc_collapse(topk_indices@, top_k as int, frame as int, end as int, previous)
                == total,
        decreases end - frame,
    {
        let offset = match frame.checked_mul(top_k) {
            Some(o) => o,
            None => usize::MAX,
        };
        if offset >= topk_indices.len() {
            frame = end;
            assert(collapsed@ =~= total);
            continue ;
        }
        let token_id = topk_indices[offset];
        let ghost before = collapsed@;
        if Some(token_id) == previous {
            frame += 1;
            continue ;
        }
        previous = Some(token_id);
        if token_id != 0 {
            collapsed.push(token_id);
            assert(collapsed@ + ctc_collapse(
                topk_indices@,
                top_k as int,
                frame + 1,
                end as int,
                previous,
            ) =~= before + (seq![token_id] + ctc_collapse(
                topk_indices@,
                top_k as int,
                frame + 1,
                end as int,
                previous,
            )));
        }
        frame += 1;
    }
    assert(collapsed@ =~= total);
    let text = decode_sentencepiece_pieces(collapsed.as_slice(), pieces);
    (collapsed, text)
}

} // verus!
