//! The client side of the WebSocket framing spoken to the local Sherpa service:
//! building masked frames, reading frames back, and assembling a message.
use vstd::prelude::*;
use crate::text::{append_str, decimal, decimal_string, lit};

verus! {

// ---------------------------------------------------------------------------
// Model
// ---------------------------------------------------------------------------

/// The masking key this client puts on every frame it sends.
pub open spec fn mask_key() -> Seq<u8> {
    seq![0x12u8, 0x34u8, 0x56u8, 0x78u8]
}

/// `256^k`.
pub open spec fn pow256(k: nat) -> nat
    decreases k,
{
    if k == 0 {
        1
    } else {
        256 * pow256((k - 1) as nat)
    }
}

/// The `k` low-order base-256 digits of `n`, most significant first.
pub open spec fn be_bytes(n: nat, k: nat) -> Seq<u8>
    decreases k,
{
    if k == 0 {
        Seq::empty()
    } else {
        be_bytes(n / 256, (k - 1) as nat).push((n % 256) as u8)
    }
}

/// The number whose big-endian bytes are `b`.
pub open spec fn be_value(b: Seq<u8>) -> nat
    decreases b.len(),
{
    if b.len() == 0 {
        0
    } else {
        be_value(b.drop_last()) * 256 + b.last() as nat
    }
}

/// Each byte xor-ed with the key byte at its position modulo four.
pub open spec fn xor_mask(p: Seq<u8>, key: Seq<u8>) -> Seq<u8> {
    Seq::new(p.len(), |i: int| p[i] ^ key[i % 4])
}

/// The second header byte (mask bit set) and the extended length, if any.
pub open spec fn length_field(len: nat) -> Seq<u8> {
    if len <= 125 {
        seq![(128 + len) as u8]
    } else if len <= 0xffff {
        seq![254u8] + be_bytes(len, 2)
    } else {
        seq![255u8] + be_bytes(len, 8)
    }
}

/// A final, masked frame with the given opcode and payload.
pub open spec fn frame_bytes(opcode: u8, payload: Seq<u8>) -> Seq<u8> {
    seq![0x80u8 | (opcode & 0x0fu8)] + length_field(payload.len()) + mask_key() + xor_mask(
        payload,
        mask_key(),
    )
}

/// Bytes of extended length that follow a 7-bit length code.
pub open spec fn ext_len(code: u8) -> int {
    if code == 126 {
        2
    } else if code == 127 {
        8
    } else {
        0
    }
}

pub open spec fn is_masked(b1: u8) -> bool {
    b1 & 0x80u8 != 0
}

/// Length of the header of a frame whose second byte is `b1`.
pub open spec fn header_len(b1: u8) -> int {
    2 + ext_len(b1 & 0x7fu8) + if is_masked(b1) {
        4int
    } else {
        0int
    }
}

/// The payload length announced by a complete header `h`.
pub open spec fn payload_len(h: Seq<u8>) -> nat {
    let code = h[1] & 0x7fu8;
    if code == 126 || code == 127 {
        be_value(h.subrange(2, 2 + ext_len(code)))
    } else {
        code as nat
    }
}

/// `(fin, opcode, unmasked payload)` of a frame that fills `b` exactly.
pub open spec fn decoded_frame(b: Seq<u8>) -> Option<(bool, u8, Seq<u8>)> {
    if b.len() < 2 || b.len() < header_len(b[1]) {
        None
    } else {
        let h = header_len(b[1]);
        if b.len() != h + payload_len(b) {
            None
        } else {
            let body = b.subrange(h, b.len() as int);
            let data = if is_masked(b[1]) {
                xor_mask(body, b.subrange(h - 4, h))
            } else {
                body
            };
            Some((b[0] & 0x80u8 != 0, b[0] & 0x0fu8, data))
        }
    }
}

// ---------------------------------------------------------------------------
// Lemmas
// ---------------------------------------------------------------------------

proof fn lemma_be_bytes_len(n: nat, k: nat)
    ensures
        be_bytes(n, k).len() == k,
    decreases k,
{
    if k > 0 {
        lemma_be_bytes_len(n / 256, (k - 1) as nat);
    }
}

proof fn lemma_be_roundtrip(n: nat, k: nat)
    requires
        n < pow256(k),
    ensures
        be_value(be_bytes(n, k)) == n,
    decreases k,
{
    if k == 0 {
    } else {
        let p = pow256((k - 1) as nat);
        assert(n / 256 < p) by (nonlinear_arith)
            requires
                n < 256 * p,
        ;
        lemma_be_roundtrip(n / 256, (k - 1) as nat);
        let b = be_bytes(n, k);
        assert(b.drop_last() =~= be_bytes(n / 256, (k - 1) as nat));
        assert(n == (n / 256) * 256 + n % 256) by (nonlinear_arith);
    }
}

proof fn lemma_be_value_bound(b: Seq<u8>)
    ensures
        be_value(b) < pow256(b.len()),
    decreases b.len(),
{
    if b.len() > 0 {
        lemma_be_value_bound(b.drop_last());
        let v = be_value(b.drop_last());
        let p = pow256(b.drop_last().len());
        let l = b.last() as nat;
        assert(v * 256 + l < 256 * p) by (nonlinear_arith)
            requires
                v < p,
                l < 256,
        ;
    }
}

proof fn lemma_pow256_facts()
    ensures
        pow256(2) == 0x10000,
        pow256(8) == 0x1_0000_0000_0000_0000,
{
    reveal_with_fuel(pow256, 9);
}

/// Decoding a frame built by `websocket_frame` gives back a final frame with
/// the low four bits of the opcode and the payload it was built with.
pub proof fn lemma_websocket_frame_roundtrip(opcode: u8, payload: Seq<u8>)
    requires
        payload.len() <= u64::MAX,
    ensures
        decoded_frame(frame_bytes(opcode, payload)) == Some((true, opcode & 0x0fu8, payload)),
{
    let len = payload.len();
    let b = frame_bytes(opcode, payload);
    let key = mask_key();
    let lf = length_field(len);
    lemma_pow256_facts();
    assert(forall|x: u8| #![auto] 128 <= x ==> x & 0x80u8 != 0 && x & 0x7fu8 == x - 128)
        by (bit_vector);
    assert((0x80u8 | (opcode & 0x0fu8)) & 0x80u8 != 0 && (0x80u8 | (opcode & 0x0fu8)) & 0x0fu8
        == opcode & 0x0fu8) by (bit_vector);
    assert(forall|a: u8, k: u8| #![auto] (a ^ k) ^ k == a) by (bit_vector);
    let ext: int = if len <= 125 {
        0
    } else if len <= 0xffff {
        2
    } else {
        8
    };
    if len <= 125 {
        assert(lf[0] == 128 + len);
    } else if len <= 0xffff {
        lemma_be_bytes_len(len, 2);
        lemma_be_roundtrip(len, 2);
    } else {
        lemma_be_bytes_len(len, 8);
        lemma_be_roundtrip(len, 8);
    }
    assert(lf.len() == 1 + ext);
    assert(b[0] == 0x80u8 | (opcode & 0x0fu8));
    assert(b[1] == lf[0]);
    assert(b[1] >= 128);
    assert(ext_len(b[1] & 0x7fu8) == ext);
    assert(is_masked(b[1]));
    let h = header_len(b[1]);
    assert(h == 6 + ext);
    assert(b.subrange(2, 2 + ext) =~= lf.subrange(1, 1 + ext));
    if ext > 0 {
        assert(lf.subrange(1, 1 + ext) =~= be_bytes(len, ext as nat));
    }
    assert(payload_len(b) == len);
    assert(b.len() == h + len);
    let body = b.subrange(h, b.len() as int);
    assert(body =~= xor_mask(payload, key));
    assert(b.subrange(h - 4, h) =~= key);
    assert(xor_mask(body, key) =~= payload);
}

// ---------------------------------------------------------------------------
// Building frames
// ---------------------------------------------------------------------------

fn mask_byte(i: usize) -> (b: u8)
    requires
        i < 4,
    ensures
        b == mask_key()[i as int],
{
    if i == 0 {
        0x12
    } else if i == 1 {
        0x34
    } else if i == 2 {
        0x56
    } else {
        0x78
    }
}

fn push_be(out: &mut Vec<u8>, n: u64, k: usize)
    ensures
        final(out)@ == old(out)@ + be_bytes(n as nat, k as nat),
    decreases k,
{
    if k == 0 {
        assert(old(out)@ + be_bytes(n as nat, 0) =~= old(out)@);
    } else {
        push_be(out, n / 256, k - 1);
        out.push((n % 256) as u8);
        assert(final(out)@ =~= old(out)@ + be_bytes(n as nat, k as nat));
    }
}

/// A final, masked client frame carrying `payload`.
pub fn websocket_frame(opcode: u8, payload: &[u8]) -> (frame: Vec<u8>)
    ensures
        frame@ == frame_bytes(opcode, payload@),
{
    let mut frame: Vec<u8> = Vec::new();
    frame.push(0x80 | (opcode & 0x0f));
    let len = payload.len();
    if len <= 125 {
        frame.push((128 + len) as u8);
    } else if len <= 0xffff {
        frame.push(254);
        push_be(&mut frame, len as u64, 2);
    } else {
        frame.push(255);
        push_be(&mut frame, len as u64, 8);
    }
    let mut k: usize = 0;
    while k < 4
        invariant
            0 <= k <= 4,
            frame@ == seq![0x80u8 | (opcode & 0x0fu8)] + length_field(len as nat) + mask_key().take(
                k as int,
            ),
        decreases 4 - k,
    {
        frame.push(mask_byte(k));
        assert(mask_key().take(k + 1) =~= mask_key().take(k as int).push(mask_key()[k as int]));
        k += 1;
    }
    assert(mask_key().take(4) =~= mask_key());
    let ghost head = frame@;
    let mut i: usize = 0;
    while i < len
        invariant
            0 <= i <= len,
            len == payload@.len(),
            frame@ == head + xor_mask(payload@.take(i as int), mask_key()),
        decreases len - i,
    {
        frame.push(payload[i] ^ mask_byte(i % 4));
        assert(xor_mask(payload@.take(i + 1), mask_key()) =~= xor_mask(
            payload@.take(i as int),
            mask_key(),
        ).push(payload@[i as int] ^ mask_key()[(i as int) % 4]));
        i += 1;
    }
    assert(payload@.take(len as int) =~= payload@);
    frame
}

/// The payload size of each binary frame an audio payload is sent in.
pub const WEBSOCKET_CHUNK_BYTES: usize = 10240;

/// `p` cut into pieces of `size` bytes, the last one possibly shorter, as
/// `<[u8]>::chunks` cuts it.
pub open spec fn pieces(p: Seq<u8>, size: nat) -> Seq<Seq<u8>>
    decreases p.len(),
{
    if p.len() == 0 || size == 0 {
        Seq::empty()
    } else if p.len() <= size {
        seq![p]
    } else {
        seq![p.take(size as int)] + pieces(p.skip(size as int), size)
    }
}

pub open spec fn frame_views(frames: Seq<Vec<u8>>) -> Seq<Seq<u8>> {
    frames.map_values(|f: Vec<u8>| f@)
}

/// The binary frames that carry `payload`, one per piece of
/// `WEBSOCKET_CHUNK_BYTES` bytes.
pub fn websocket_binary_frames(payload: &[u8]) -> (r: Vec<Vec<u8>>)
    ensures
        frame_views(r@) == pieces(payload@, WEBSOCKET_CHUNK_BYTES as nat).map_values(
            |c: Seq<u8>| frame_bytes(2, c),
        ),
{
    let size = WEBSOCKET_CHUNK_BYTES;
    let mut frames: Vec<Vec<u8>> = Vec::new();
    let mut pos: usize = 0;
    let len = payload.len();
    assert(payload@.skip(0) =~= payload@);
    assert(frame_views(frames@) =~= Seq::<Seq<u8>>::empty());
    assert(Seq::<Seq<u8>>::empty() + pieces(payload@, size as nat).map_values(
        |c: Seq<u8>| frame_bytes(2, c),
    ) =~= pieces(payload@, size as nat).map_values(|c: Seq<u8>| frame_bytes(2, c)));
    while pos < len
        invariant
            pos <= len,
            len == payload@.len(),
            size == 10240,
            frame_views(frames@) + pieces(payload@.skip(pos as int), size as nat).map_values(
                |c: Seq<u8>| frame_bytes(2, c),
            ) == pieces(payload@, size as nat).map_values(|c: Seq<u8>| frame_bytes(2, c)),
        decreases len - pos,
    {
        let end = if len - pos <= size {
            len
        } else {
            pos + size
        };
        let mut piece: Vec<u8> = Vec::new();
        let mut i = pos;
        while i < end
            invariant
                pos <= i <= end,
                end <= len,
                len == payload@.len(),
                piece@ == payload@.subrange(pos as int, i as int),
            decreases end - i,
        {
            piece.push(payload[i]);
            assert(payload@.subrange(pos as int, i + 1) =~= payload@.subrange(pos as int, i as int).push(
                payload@[i as int],
            ));
            i += 1;
        }
        let frame = websocket_frame(2, piece.as_slice());
        let ghost rest = payload@.skip(pos as int);
        let ghost f = |c: Seq<u8>| frame_bytes(2, c);
        proof {
            if len - pos <= size {
                assert(piece@ =~= rest);
                assert(pieces(rest, size as nat) == seq![rest]);
                assert(payload@.skip(end as int) =~= Seq::<u8>::empty());
                assert(pieces(payload@.skip(end as int), size as nat) =~= Seq::<Seq<u8>>::empty());
            } else {
                assert(piece@ =~= rest.take(size as int));
                assert(rest.skip(size as int) =~= payload@.skip(end as int));
                assert(pieces(rest, size as nat) == seq![rest.take(size as int)] + pieces(
                    payload@.skip(end as int),
                    size as nat,
                ));
            }
            assert(pieces(rest, size as nat).map_values(f) =~= seq![frame_bytes(2, piece@)]
                + pieces(payload@.skip(end as int), size as nat).map_values(f));
        }
        let ghost before = frame_views(frames@);
        frames.push(frame);
        assert(frame_views(frames@) =~= before.push(frame@));
        assert(frame_views(frames@) + pieces(payload@.skip(end as int), size as nat).map_values(f)
            =~= before + pieces(rest, size as nat).map_values(f));
        pos = end;
    }
    assert(payload@.skip(len as int) =~= Seq::<u8>::empty());
    assert(pieces(payload@.skip(len as int), size as nat).map_values(
        |c: Seq<u8>| frame_bytes(2, c),
    ) =~= Seq::<Seq<u8>>::empty());
    assert(frame_views(frames@) =~= frame_views(frames@) + Seq::<Seq<u8>>::empty());
    frames
}

/// The pieces joined back together, in order.
pub open spec fn concat_all(ps: Seq<Seq<u8>>) -> Seq<u8>
    decreases ps.len(),
{
    if ps.len() == 0 {
        Seq::empty()
    } else {
        ps[0] + concat_all(ps.drop_first())
    }
}

proof fn lemma_pieces_cover(p: Seq<u8>, size: nat)
    requires
        size > 0,
    ensures
        concat_all(pieces(p, size)) == p,
        forall|i: int|
            0 <= i < pieces(p, size).len() ==> 0 < #[trigger] pieces(p, size)[i].len() <= size,
    decreases p.len(),
{
    if p.len() == 0 {
        assert(pieces(p, size) =~= Seq::<Seq<u8>>::empty());
        assert(concat_all(Seq::<Seq<u8>>::empty()) == Seq::<u8>::empty());
        assert(p =~= Seq::<u8>::empty());
    } else if p.len() <= size {
        let ps = pieces(p, size);
        assert(ps == seq![p]);
        assert(ps.drop_first() =~= Seq::<Seq<u8>>::empty());
        assert(concat_all(ps.drop_first()) == Seq::<u8>::empty());
        assert(concat_all(ps) == ps[0] + concat_all(ps.drop_first()));
        assert(p + Seq::<u8>::empty() =~= p);
    } else {
        let head = p.take(size as int);
        let tail = p.skip(size as int);
        lemma_pieces_cover(tail, size);
        let ps = pieces(p, size);
        assert(ps == seq![head] + pieces(tail, size));
        assert(ps.drop_first() =~= pieces(tail, size));
        assert(concat_all(ps) == ps[0] + concat_all(ps.drop_first()));
        assert(head + tail =~= p);
        assert forall|i: int| 0 <= i < ps.len() implies 0 < #[trigger] ps[i].len() <= size by {
            if i > 0 {
                assert(ps[i] == pieces(tail, size)[i - 1]);
            }
        }
    }
}

/// Sending an audio payload loses nothing: every frame decodes to a final
/// binary frame, and the frames' payloads, joined in order, are the audio
/// payload; no frame is empty or longer than the chunk size.
pub proof fn lemma_binary_frames_carry_payload(payload: Seq<u8>)
    ensures
        ({
            let ps = pieces(payload, WEBSOCKET_CHUNK_BYTES as nat);
            &&& concat_all(ps) == payload
            &&& forall|i: int|
                0 <= i < ps.len() ==> decoded_frame(#[trigger] frame_bytes(2, ps[i])) == Some(
                    (true, 2u8, ps[i]),
                ) && 0 < ps[i].len() <= WEBSOCKET_CHUNK_BYTES
        }),
{
    let ps = pieces(payload, WEBSOCKET_CHUNK_BYTES as nat);
    lemma_pieces_cover(payload, WEBSOCKET_CHUNK_BYTES as nat);
    assert(2u8 & 0x0fu8 == 2u8) by (bit_vector);
    assert forall|i: int| 0 <= i < ps.len() implies decoded_frame(#[trigger] frame_bytes(2, ps[i]))
        == Some((true, 2u8, ps[i])) && 0 < ps[i].len() <= WEBSOCKET_CHUNK_BYTES by {
        lemma_websocket_frame_roundtrip(2, ps[i]);
    }
}

// ---------------------------------------------------------------------------
// The audio payload
// ---------------------------------------------------------------------------

/// The `k` low-order bytes of `n`, least significant first (`to_le_bytes`).
pub open spec fn le_bytes(n: nat, k: nat) -> Seq<u8>
    decreases k,
{
    if k == 0 {
        Seq::empty()
    } else {
        seq![(n % 256) as u8] + le_bytes(n / 256, (k - 1) as nat)
    }
}

/// The position of the highest set bit of `a` (for `a >= 1`).
pub open spec fn top_bit(a: nat) -> nat
    decreases a,
{
    if a < 2 {
        0
    } else {
        1 + top_bit(a / 2)
    }
}

pub open spec fn pow2(k: nat) -> nat
    decreases k,
{
    if k == 0 {
        1
    } else {
        2 * pow2((k - 1) as nat)
    }
}

/// The bits of the single-precision float `s / 32768`, which is exact: the
/// sign, the exponent `top_bit(|s|) - 15` biased by 127, and the bits of
/// `|s|` below its top bit as the fraction.
pub open spec fn sample_f32_bits(s: i16) -> nat {
    if s == 0 {
        0
    } else {
        let a: nat = if s < 0 {
            (-s) as nat
        } else {
            s as nat
        };
        let k = top_bit(a);
        ((if s < 0 {
            0x8000_0000nat
        } else {
            0nat
        }) + (k + 112) * 0x80_0000 + (a - pow2(k)) * pow2((23 - k) as nat)) as nat
    }
}

/// Each sample as a little-endian `f32` in `[-1, 1)`.
pub open spec fn sample_payload(samples: Seq<i16>) -> Seq<u8>
    decreases samples.len(),
{
    if samples.len() == 0 {
        Seq::empty()
    } else {
        sample_payload(samples.drop_last()) + le_bytes(sample_f32_bits(samples.last()), 4)
    }
}

/// What the Sherpa service expects: the sample rate and the byte length of
/// the samples as little-endian 32-bit integers, then the samples.
pub open spec fn sherpa_payload(sample_rate: u32, samples: Seq<i16>) -> Seq<u8> {
    le_bytes(sample_rate as nat, 4) + le_bytes(samples.len() * 4, 4) + sample_payload(samples)
}

proof fn lemma_pow2_facts(k: nat)
    ensures
        pow2(k) >= 1,
        pow2(k + 1) == 2 * pow2(k),
        k <= 23 ==> pow2(k) * pow2((23 - k) as nat) == 0x80_0000,
    decreases k,
{
    if k > 0 {
        lemma_pow2_facts((k - 1) as nat);
    }
    if k <= 23 {
        lemma_pow2_sum(k, (23 - k) as nat);
        lemma_pow2_small();
    }
}

proof fn lemma_pow2_small()
    ensures
        pow2(16) == 0x10000,
        pow2(23) == 0x80_0000,
        pow2(30) == 0x4000_0000,
{
    reveal_with_fuel(pow2, 31);
}

proof fn lemma_pow2_sum(a: nat, b: nat)
    ensures
        pow2(a) * pow2(b) == pow2(a + b),
    decreases a,
{
    if a == 0 {
        assert(pow2(a) == 1);
        assert(a + b == b);
    } else {
        lemma_pow2_sum((a - 1) as nat, b);
        assert(((a - 1) as nat + b) as nat == (a + b - 1) as nat);
        assert(pow2(a + b) == 2 * pow2((a + b - 1) as nat));
        assert(pow2(a) == 2 * pow2((a - 1) as nat));
        let x = pow2((a - 1) as nat);
        let y = pow2(b);
        assert((2 * x) * y == 2 * (x * y)) by (nonlinear_arith);
    }
}

proof fn lemma_top_bit_bounds(a: nat)
    requires
        a >= 1,
    ensures
        pow2(top_bit(a)) <= a < 2 * pow2(top_bit(a)),
    decreases a,
{
    if a >= 2 {
        lemma_top_bit_bounds(a / 2);
        lemma_pow2_facts(top_bit(a / 2));
    }
}

proof fn lemma_pow2_monotone(i: nat, j: nat)
    requires
        i <= j,
    ensures
        pow2(i) <= pow2(j),
    decreases j,
{
    if i < j {
        lemma_pow2_monotone(i, (j - 1) as nat);
        lemma_pow2_facts((j - 1) as nat);
    }
}

fn pow2_exec(k: u32) -> (r: u32)
    requires
        k <= 31,
    ensures
        r == pow2(k as nat),
{
    let mut r: u32 = 1;
    let mut i: u32 = 0;
    while i < k
        invariant
            i <= k <= 31,
            r == pow2(i as nat),
        decreases k - i,
    {
        proof {
            lemma_pow2_monotone(i as nat, 30);
            lemma_pow2_small();
        }
        r = r * 2;
        i += 1;
    }
    r
}

/// The bits of the `f32` value `s / 32768`.
pub fn sample_f32_bits_exec(s: i16) -> (r: u32)
    ensures
        r == sample_f32_bits(s),
{
    if s == 0 {
        return 0;
    }
    let a: u32 = if s < 0 {
        (0 - (s as i32)) as u32
    } else {
        s as u32
    };
    let mut x = a;
    let mut k: u32 = 0;
    assert(pow2(0) == 1);
    while x >= 2
        invariant
            1 <= x <= a,
            a <= 32768,
            k <= 16,
            k + top_bit(x as nat) == top_bit(a as nat),
            x * pow2(k as nat) <= a,
        decreases x,
    {
        proof {
            lemma_pow2_facts(k as nat);
            assert((x / 2) * pow2((k + 1) as nat) <= x * pow2(k as nat)) by (nonlinear_arith)
                requires
                    pow2((k + 1) as nat) == 2 * pow2(k as nat),
                    x >= 2,
            ;
            lemma_pow2_small();
            assert(k + 1 <= 16) by {
                if k + 1 > 16 {
                    lemma_pow2_monotone(16, (k + 1) as nat);
                    assert(pow2((k + 1) as nat) >= 0x10000);
                    assert((x / 2) * pow2((k + 1) as nat) >= 0x10000) by (nonlinear_arith)
                        requires
                            x / 2 >= 1,
                            pow2((k + 1) as nat) >= 0x10000,
                    ;
                }
            }
        }
        x = x / 2;
        k += 1;
    }
    proof {
        lemma_top_bit_bounds(a as nat);
        lemma_pow2_facts(k as nat);
        if k >= 16 {
            lemma_pow2_monotone(16, k as nat);
        }
        lemma_pow2_small();
    }
    assert(k <= 15);
    let p = pow2_exec(k);
    let q = pow2_exec(23 - k);
    let fraction_part = a - p;
    assert(fraction_part * q < 0x80_0000) by (nonlinear_arith)
        requires
            fraction_part < p,
            p * q == 0x80_0000,
    ;
    let fraction = fraction_part * q;
    let sign: u32 = if s < 0 {
        0x8000_0000
    } else {
        0
    };
    sign + (k + 112) * 0x80_0000 + fraction
}

fn push_le32(out: &mut Vec<u8>, n: u64)
    ensures
        final(out)@ == old(out)@ + le_bytes(n as nat, 4),
{
    let mut x = n;
    let mut i: usize = 0;
    while i < 4
        invariant
            0 <= i <= 4,
            out@ + le_bytes(x as nat, (4 - i) as nat) == old(out)@ + le_bytes(n as nat, 4),
        decreases 4 - i,
    {
        let ghost before = out@;
        out.push((x % 256) as u8);
        assert(le_bytes(x as nat, (4 - i) as nat) =~= seq![(x % 256) as u8] + le_bytes(
            (x / 256) as nat,
            (4 - i - 1) as nat,
        ));
        assert(out@ + le_bytes((x / 256) as nat, (4 - i - 1) as nat) =~= before + le_bytes(
            x as nat,
            (4 - i) as nat,
        ));
        x = x / 256;
        i += 1;
    }
    assert(out@ + le_bytes(x as nat, 0) =~= out@);
}

/// The bytes sent to the Sherpa service for 16-bit samples recorded at
/// `sample_rate`; an error when their size does not fit in `usize`.
pub fn sherpa_websocket_payload(sample_rate: u32, samples: &[i16]) -> (r: Result<Vec<u8>, String>)
    ensures
        samples@.len() * 4 > usize::MAX ==> (r matches Err(m) && m@
            == "Audio is too large to send to the Sherpa service."@),
        samples@.len() * 4 <= usize::MAX ==> (r matches Ok(p) && p@ == sherpa_payload(
            sample_rate,
            samples@,
        )),
{
    let audio_bytes = match samples.len().checked_mul(4) {
        Some(n) => n,
        None => return Err(lit("Audio is too large to send to the Sherpa service.")),
    };
    let mut payload: Vec<u8> = Vec::new();
    push_le32(&mut payload, sample_rate as u64);
    push_le32(&mut payload, audio_bytes as u64);
    let ghost head = payload@;
    assert(samples@.take(0) =~= Seq::<i16>::empty());
    let mut i: usize = 0;
    while i < samples.len()
        invariant
            0 <= i <= samples@.len(),
            payload@ == head + sample_payload(samples@.take(i as int)),
        decreases samples@.len() - i,
    {
        let bits = sample_f32_bits_exec(samples[i]);
        push_le32(&mut payload, bits as u64);
        assert(samples@.take(i + 1).drop_last() =~= samples@.take(i as int));
        assert(samples@.take(i + 1).last() == samples@[i as int]);
        assert(payload@ =~= head + sample_payload(samples@.take(i + 1)));
        i += 1;
    }
    assert(samples@.take(samples@.len() as int) =~= samples@);
    Ok(payload)
}

// ---------------------------------------------------------------------------
// Opening the connection
// ---------------------------------------------------------------------------

/// The port the local Sherpa service listens on.
pub const SHERPA_DAEMON_PORT: u16 = 6127;

/// The fixed `Sec-WebSocket-Key` of the upgrade request.
pub fn sherpa_websocket_key() -> (r: &'static str)
    ensures
        r@ == "dGhlIHNhbXBsZSBub25jZQ=="@,
{
    "dGhlIHNhbXBsZSBub25jZQ=="
}

/// The HTTP request that upgrades a connection to the service on `port`
/// to a WebSocket.
pub fn sherpa_websocket_handshake(port: u16, key: &str) -> (r: String)
    ensures
        r@ == "GET / HTTP/1.1\r\nHost: 127.0.0.1:"@ + decimal(port as nat)
            + "\r\nUpgrade: websocket\r\nConnection: Upgrade\r\nSec-WebSocket-Key: "@ + key@
            + "\r\nSec-WebSocket-Version: 13\r\n\r\n"@,
{
    let mut r = lit("GET / HTTP/1.1\r\nHost: 127.0.0.1:");
    append_str(&mut r, decimal_string(port as u64).as_str());
    append_str(&mut r, "\r\nUpgrade: websocket\r\nConnection: Upgrade\r\nSec-WebSocket-Key: ");
    append_str(&mut r, key);
    append_str(&mut r, "\r\nSec-WebSocket-Version: 13\r\n\r\n");
    r
}

/// Whether the bytes received so far hold the end of the response's header
/// (an empty line).
pub open spec fn header_complete(r: Seq<u8>) -> bool {
    exists|i: int|
        0 <= i && i + 4 <= r.len() && #[trigger] r.subrange(i, i + 4) == seq![13u8, 10u8, 13u8, 10u8]
}

pub fn http_header_complete(response: &[u8]) -> (r: bool)
    ensures
        r == header_complete(response@),
{
    let n = response.len();
    if n < 4 {
        return false;
    }
    let mut i: usize = 0;
    while i <= n - 4
        invariant
            n == response@.len(),
            n >= 4,
            i <= n - 3,
            forall|j: int| 0 <= j < i ==> #[trigger] response@.subrange(j, j + 4) != seq![
                13u8,
                10u8,
                13u8,
                10u8,
            ],
        decreases n - i,
    {
        if response[i] == 13 && response[i + 1] == 10 && response[i + 2] == 13 && response[i + 3]
            == 10 {
            assert(response@.subrange(i as int, i + 4) =~= seq![13u8, 10u8, 13u8, 10u8]);
            return true;
        }
        assert(response@.subrange(i as int, i + 4)[0] == response@[i as int]);
        assert(response@.subrange(i as int, i + 4)[1] == response@[i + 1]);
        assert(response@.subrange(i as int, i + 4)[2] == response@[i + 2]);
        assert(response@.subrange(i as int, i + 4)[3] == response@[i + 3]);
        i += 1;
    }
    assert forall|j: int| 0 <= j && j + 4 <= n implies #[trigger] response@.subrange(j, j + 4)
        != seq![13u8, 10u8, 13u8, 10u8] by {
        assert(j < i);
    }
    false
}

/// The status line of a switched-protocols answer, for HTTP/1.`minor`.
pub open spec fn switching_status(minor: u8) -> Seq<u8> {
    seq![72u8, 84u8, 84u8, 80u8, 47u8, 49u8, 46u8, minor, 32u8, 49u8, 48u8, 49u8]
}

/// Whether the service's answer starts with `HTTP/1.1 101` or
/// `HTTP/1.0 101`.
pub open spec fn upgrade_accepted(r: Seq<u8>) -> bool {
    r.len() >= 12 && (r.take(12) == switching_status(49) || r.take(12) == switching_status(48))
}

pub fn websocket_upgrade_accepted(response: &[u8]) -> (r: bool)
    ensures
        r == upgrade_accepted(response@),
{
    if response.len() < 12 {
        return false;
    }
    let head: [u8; 7] = [72, 84, 84, 80, 47, 49, 46];
    let tail: [u8; 4] = [32, 49, 48, 49];
    let mut same = true;
    let mut i: usize = 0;
    while i < 7
        invariant
            0 <= i <= 7,
            response@.len() >= 12,
            head@ == seq![72u8, 84u8, 84u8, 80u8, 47u8, 49u8, 46u8],
            same == (forall|j: int| 0 <= j < i ==> response@[j] == head@[j]),
        decreases 7 - i,
    {
        if response[i] != head[i] {
            same = false;
        }
        i += 1;
    }
    let mut k: usize = 0;
    while k < 4
        invariant
            0 <= k <= 4,
            response@.len() >= 12,
            tail@ == seq![32u8, 49u8, 48u8, 49u8],
            same == ((forall|j: int| 0 <= j < 7 ==> response@[j] == seq![72u8, 84u8, 84u8, 80u8, 47u8, 49u8, 46u8][j])
                && forall|j: int| 0 <= j < k ==> response@[8 + j] == tail@[j]),
        decreases 4 - k,
    {
        if response[8 + k] != tail[k] {
            same = false;
        }
        k += 1;
    }
    let minor = response[7];
    let r = same && (minor == 49 || minor == 48);
    proof {
        let t = response@.take(12);
        if r {
            assert(t =~= switching_status(minor));
        } else {
            if t == switching_status(49) || t == switching_status(48) {
                assert(t[7] == minor);
                assert forall|j: int| 0 <= j < 7 implies response@[j] == seq![72u8, 84u8, 84u8, 80u8, 47u8, 49u8, 46u8][j] by {
                    assert(t[j] == response@[j]);
                }
                assert forall|j: int| 0 <= j < 4 implies response@[8 + j] == seq![32u8, 49u8, 48u8, 49u8][j] by {
                    assert(t[8 + j] == response@[8 + j]);
                }
            }
        }
    }
    r
}

// ---------------------------------------------------------------------------
// Reading frames
// ---------------------------------------------------------------------------

/// A frame as received: final flag, opcode and unmasked payload.
pub struct WebSocketFrame {
    pub fin: bool,
    pub opcode: u8,
    pub payload: Vec<u8>,
}

/// How many header bytes a frame has, given its second byte.
pub fn websocket_header_len(b1: u8) -> (n: usize)
    ensures
        n == header_len(b1),
{
    let code = b1 & 0x7f;
    let ext: usize = if code == 126 {
        2
    } else if code == 127 {
        8
    } else {
        0
    };
    if b1 & 0x80 != 0 {
        2 + ext + 4
    } else {
        2 + ext
    }
}

/// The payload length announced by a complete frame header.
pub fn websocket_payload_len(header: &[u8]) -> (n: u64)
    requires
        header@.len() >= 2,
        header@.len() >= header_len(header@[1]),
    ensures
        n == payload_len(header@),
{
    let code = header[1] & 0x7f;
    if code != 126 && code != 127 {
        return code as u64;
    }
    let end: usize = if code == 126 {
        4
    } else {
        10
    };
    let mut value: u64 = 0;
    let mut i: usize = 2;
    proof {
        lemma_pow256_facts();
        assert(header@.subrange(2, 2) =~= Seq::<u8>::empty());
    }
    while i < end
        invariant
            2 <= i <= end <= header@.len(),
            end == 4 || end == 10,
            value == be_value(header@.subrange(2, i as int)),
            pow256(2) == 0x10000,
            pow256(8) == 0x1_0000_0000_0000_0000,
        decreases end - i,
    {
        let ghost pre = header@.subrange(2, i as int);
        let ghost next = header@.subrange(2, i + 1);
        assert(next.drop_last() =~= pre);
        proof {
            lemma_be_value_bound(next);
            if end == 4 {
                assert(next.len() <= 2);
                lemma_pow256_mono(next.len(), 2);
            } else {
                lemma_pow256_mono(next.len(), 8);
            }
        }
        value = value * 256 + header[i] as u64;
        i += 1;
    }
    value
}

proof fn lemma_pow256_mono(a: nat, b: nat)
    requires
        a <= b,
    ensures
        pow256(a) <= pow256(b),
    decreases b,
{
    if a < b {
        lemma_pow256_mono(a, (b - 1) as nat);
    }
}

/// Reads one complete frame occupying all of `bytes`; `None` when the bytes
/// are not exactly one frame.
pub fn decode_websocket_frame(bytes: &[u8]) -> (r: Option<WebSocketFrame>)
    ensures
        match r {
            None => decoded_frame(bytes@) is None,
            Some(f) => decoded_frame(bytes@) == Some((f.fin, f.opcode, f.payload@)),
        },
{
    if bytes.len() < 2 {
        return None;
    }
    let h = websocket_header_len(bytes[1]);
    if bytes.len() < h {
        return None;
    }
    let len = websocket_payload_len(bytes);
    if (bytes.len() - h) as u64 != len {
        return None;
    }
    let masked = bytes[1] & 0x80 != 0;
    let mut payload: Vec<u8> = Vec::new();
    let mut i: usize = h;
    while i < bytes.len()
        invariant
            h <= i <= bytes@.len(),
            h == header_len(bytes@[1]),
            h >= 2,
            masked == is_masked(bytes@[1]),
            masked ==> h >= 6,
            payload@ == (if masked {
                xor_mask(bytes@.subrange(h as int, i as int), bytes@.subrange(h - 4, h as int))
            } else {
                bytes@.subrange(h as int, i as int)
            }),
        decreases bytes@.len() - i,
    {
        let b = if masked {
            bytes[i] ^ bytes[h - 4 + (i - h) % 4]
        } else {
            bytes[i]
        };
        payload.push(b);
        proof {
            let body = bytes@.subrange(h as int, i + 1);
            assert(body.drop_last() =~= bytes@.subrange(h as int, i as int));
            if masked {
                assert(xor_mask(body, bytes@.subrange(h - 4, h as int)) =~= xor_mask(
                    bytes@.subrange(h as int, i as int),
                    bytes@.subrange(h - 4, h as int),
                ).push(b));
            } else {
                assert(body =~= bytes@.subrange(h as int, i as int).push(b));
            }
        }
        i += 1;
    }
    Some(WebSocketFrame { fin: bytes[0] & 0x80 != 0, opcode: bytes[0] & 0x0f, payload })
}

// ---------------------------------------------------------------------------
// Assembling a message
// ---------------------------------------------------------------------------

/// What reading one more frame means for the message being assembled.
#[derive(PartialEq, Eq, Structural, Debug, Clone, Copy)]
pub enum WebSocketRead {
    /// More frames are needed.
    Incomplete,
    /// The message is complete.
    Complete,
    /// The service closed the connection before a message arrived.
    Closed,
}

/// Takes one received frame into `message`: data frames (opcodes 0 to 2) are
/// appended, a close frame ends the exchange, other control frames are
/// ignored. A final frame completes a non-empty message.
pub fn websocket_accept_frame(message: &mut Vec<u8>, fin: bool, opcode: u8, payload: &[u8]) -> (r:
    WebSocketRead)
    ensures
        opcode <= 2 ==> final(message)@ == old(message)@ + payload@,
        opcode > 2 ==> final(message)@ == old(message)@,
        opcode == 8 ==> r == WebSocketRead::Closed,
        opcode != 8 ==> (r == WebSocketRead::Complete <==> (fin && final(message)@.len() > 0)),
        opcode != 8 ==> r != WebSocketRead::Closed,
{
    if opcode <= 2 {
        let mut i: usize = 0;
        let ghost start = message@;
        while i < payload.len()
            invariant
                0 <= i <= payload@.len(),
                message@ == start + payload@.take(i as int),
            decreases payload@.len() - i,
        {
            message.push(payload[i]);
            assert(payload@.take(i + 1) =~= payload@.take(i as int).push(payload@[i as int]));
            i += 1;
        }
        assert(payload@.take(payload@.len() as int) =~= payload@);
    } else if opcode == 8 {
        return WebSocketRead::Closed;
    }
    if fin && message.len() > 0 {
        WebSocketRead::Complete
    } else {
        WebSocketRead::Incomplete
    }
}

} // verus!
