//! Where long recordings are cut into chunks: near every chunk length, at
//! the quietest stretch within a few seconds of the target.
use vstd::prelude::*;

verus! {

/// The layout numbers of a 16-bit PCM WAV file's interleaved samples.
pub struct ChunkLayout {
    /// Samples per second over all channels, at least one.
    pub samples_per_second: usize,
    /// Samples per chunk, at least one second's worth.
    pub target_samples: usize,
    /// How far from the target a cut may move.
    pub search_radius: usize,
    /// Samples in the window whose energy is compared.
    pub analysis_window: usize,
    /// Distance between the windows that are compared.
    pub step: usize,
    /// Interleaved channels, at least one; cuts fall on a whole frame.
    pub channels: usize,
}

pub open spec fn at_least_one(n: nat) -> nat {
    if n < 1 {
        1
    } else {
        n
    }
}

/// The layout for a file with `sample_rate` frames per second of `channels`
/// channels, cut every `chunk_seconds` seconds.
pub open spec fn layout_of(sample_rate: nat, channels: nat, chunk_seconds: nat) -> (nat, nat, nat, nat, nat, nat) {
    let sps = at_least_one(sample_rate * channels);
    (sps, sps * at_least_one(chunk_seconds), sps * 8, sps / 4, at_least_one(channels) * 512, at_least_one(channels))
}

pub open spec fn layout_view(l: ChunkLayout) -> (nat, nat, nat, nat, nat, nat) {
    (
        l.samples_per_second as nat,
        l.target_samples as nat,
        l.search_radius as nat,
        l.analysis_window as nat,
        l.step as nat,
        l.channels as nat,
    )
}

/// Whether cutting `len` samples with this layout stays within `usize`.
pub open spec fn layout_fits(len: nat, sample_rate: nat, channels: nat, chunk_seconds: nat) -> bool {
    let sps = at_least_one(sample_rate * channels);
    len + sps * (at_least_one(chunk_seconds) + 29) <= usize::MAX
}

pub fn chunk_layout(sample_rate: u32, channels: u16, chunk_seconds: u32) -> (r: ChunkLayout)
    requires
        layout_fits(0, sample_rate as nat, channels as nat, chunk_seconds as nat),
    ensures
        layout_view(r) == layout_of(sample_rate as nat, channels as nat, chunk_seconds as nat),
        r.samples_per_second * (at_least_one(chunk_seconds as nat) + 29) <= usize::MAX,
        r.step > 0,
        r.channels > 0,
{
    assert(sample_rate as nat * channels as nat <= 0xffff_ffff * 0xffff) by (nonlinear_arith)
        requires
            sample_rate <= 0xffff_ffff,
            channels <= 0xffff,
    ;
    let product: u64 = sample_rate as u64 * channels as u64;
    let seconds: usize = if chunk_seconds < 1 {
        1
    } else {
        chunk_seconds as usize
    };
    let ghost sps_n = at_least_one(sample_rate as nat * channels as nat);
    assert(sps_n <= usize::MAX) by (nonlinear_arith)
        requires
            sps_n * (seconds + 29) <= usize::MAX,
            sps_n >= 1,
            seconds >= 1,
    ;
    let sps: usize = if product < 1 {
        1
    } else {
        product as usize
    };
    assert(sps == sps_n);
    assert(sps * seconds + sps * 29 <= usize::MAX) by (nonlinear_arith)
        requires
            sps * (seconds + 29) <= usize::MAX,
    ;
    let ch: usize = if channels < 1 {
        1
    } else {
        channels as usize
    };
    ChunkLayout {
        samples_per_second: sps,
        target_samples: sps * seconds,
        search_radius: sps * 8,
        analysis_window: sps / 4,
        step: ch * 512,
        channels: ch,
    }
}

/// The sum of the squares of the samples in `[a, b)`.
pub open spec fn energy(s: Seq<i16>, a: int, b: int) -> int
    decreases b - a,
{
    if b <= a {
        0
    } else {
        energy(s, a, b - 1) + (s[b - 1] as int) * (s[b - 1] as int)
    }
}

pub proof fn lemma_energy_bounds(s: Seq<i16>, a: int, b: int)
    ensures
        0 <= energy(s, a, b),
        a <= b ==> energy(s, a, b) <= (b - a) * 0x4000_0000,
    decreases b - a,
{
    if b > a {
        lemma_energy_bounds(s, a, b - 1);
        let v = s[b - 1] as int;
        assert(0 <= v * v <= 0x4000_0000) by (nonlinear_arith)
            requires
                -32768 <= v <= 32767,
        ;
    }
}

pub open spec fn min_int(a: int, b: int) -> int {
    if a < b {
        a
    } else {
        b
    }
}

pub open spec fn max_int(a: int, b: int) -> int {
    if a > b {
        a
    } else {
        b
    }
}

/// The energy of the window that starts at `probe`, cut at the end.
pub open spec fn window_energy(s: Seq<i16>, probe: int, window: int) -> int {
    energy(s, probe, min_int(probe + window, s.len() as int))
}

/// The start of the quietest window among `probe`, `probe + step`, ...
/// below `end`; the first one wins a tie. `best` is the energy of
/// `best_index`, the quietest window before `probe`, if any.
pub open spec fn quietest(
    s: Seq<i16>,
    probe: int,
    end: int,
    step: int,
    window: int,
    best_index: int,
    best: Option<int>,
) -> int
    decreases if end > probe {
        end - probe
    } else {
        0
    },
{
    if probe >= end || step <= 0 {
        best_index
    } else {
        let e = window_energy(s, probe, window);
        if best is None || e < best->0 {
            quietest(s, probe + step, end, step, window, probe, Some(e))
        } else {
            quietest(s, probe + step, end, step, window, best_index, best)
        }
    }
}

/// Where the chunk that starts at `cursor` ends: the quietest window within
/// the search radius of the target, but at least twenty seconds in, moved
/// back to the start of its frame.
pub open spec fn next_cut(s: Seq<i16>, cursor: int, l: (nat, nat, nat, nat, nat, nat)) -> int {
    let (sps, target_samples, radius, window, step, channels) = l;
    let len = s.len() as int;
    let target = cursor + target_samples;
    let start = max_int(max_int(target - radius, 0), cursor + sps * 20);
    let end = min_int(target + radius, max_int(len - (window + 1), 0));
    let best = quietest(s, start, end, step as int, window as int, min_int(target, len), None);
    best - best % (channels as int)
}

/// The cuts after `cursor`, in order.
pub open spec fn cuts_after(s: Seq<i16>, cursor: int, l: (nat, nat, nat, nat, nat, nat)) -> Seq<int>
    decreases s.len() - cursor,
{
    if cursor < 0 || cursor >= s.len() || cursor + l.1 >= s.len() {
        Seq::empty()
    } else {
        let b = next_cut(s, cursor, l);
        if b <= cursor || b >= s.len() {
            Seq::empty()
        } else {
            seq![b] + cuts_after(s, b, l)
        }
    }
}

/// The chunk boundaries of a recording: its start, every cut, and its end;
/// none for an empty recording.
pub open spec fn chunk_boundaries(s: Seq<i16>, l: (nat, nat, nat, nat, nat, nat)) -> Seq<int> {
    if s.len() == 0 {
        Seq::empty()
    } else {
        seq![0int] + cuts_after(s, 0, l) + seq![s.len() as int]
    }
}

proof fn lemma_cuts_after_ordered(s: Seq<i16>, cursor: int, l: (nat, nat, nat, nat, nat, nat))
    requires
        l.5 > 0,
    ensures
        forall|i: int|
            0 <= i < cuts_after(s, cursor, l).len() ==> cursor < #[trigger] cuts_after(s, cursor, l)[i]
                < s.len(),
        forall|i: int, j: int|
            0 <= i < j < cuts_after(s, cursor, l).len() ==> #[trigger] cuts_after(s, cursor, l)[i]
                < #[trigger] cuts_after(s, cursor, l)[j],
        forall|i: int|
            0 <= i < cuts_after(s, cursor, l).len() ==> #[trigger] cuts_after(s, cursor, l)[i] % (
            l.5 as int) == 0,
    decreases s.len() - cursor,
{
    if cursor < 0 || cursor >= s.len() || cursor + l.1 >= s.len() {
    } else {
        let b = next_cut(s, cursor, l);
        if b <= cursor || b >= s.len() {
        } else {
            lemma_cuts_after_ordered(s, b, l);
            let rest = cuts_after(s, b, l);
            let c = cuts_after(s, cursor, l);
            assert(c == seq![b] + rest);
            let ch = l.5 as int;
            let best = quietest(
                s,
                max_int(max_int(cursor + l.1 - l.2, 0), cursor + l.0 * 20),
                min_int(cursor + l.1 + l.2, max_int(s.len() - (l.3 + 1), 0)),
                l.4 as int,
                l.3 as int,
                min_int(cursor + l.1, s.len() as int),
                None,
            );
            assert(b == best - best % ch);
            assert((best - best % ch) % ch == 0) by (nonlinear_arith)
                requires
                    ch > 0,
            ;
            assert forall|i: int| 0 <= i < c.len() implies cursor < #[trigger] c[i] < s.len() && c[i]
                % ch == 0 by {
                if i > 0 {
                    assert(c[i] == rest[i - 1]);
                }
            }
            assert forall|i: int, j: int| 0 <= i < j < c.len() implies #[trigger] c[i] < #[trigger] c[j] by {
                if i == 0 {
                    assert(c[j] == rest[j - 1]);
                } else {
                    assert(c[i] == rest[i - 1]);
                    assert(c[j] == rest[j - 1]);
                }
            }
        }
    }
}

/// The boundaries of a recording start at its first sample, end at its
/// end and strictly increase, so the chunks cover it exactly and none is
/// empty; every cut between two chunks falls on a whole frame.
pub proof fn lemma_chunk_boundaries_partition(
    s: Seq<i16>,
    sample_rate: nat,
    channels: nat,
    chunk_seconds: nat,
)
    requires
        s.len() > 0,
    ensures
        ({
            let b = chunk_boundaries(s, layout_of(sample_rate, channels, chunk_seconds));
            &&& b.len() >= 2
            &&& b[0] == 0
            &&& b.last() == s.len()
            &&& forall|i: int, j: int| 0 <= i < j < b.len() ==> #[trigger] b[i] < #[trigger] b[j]
            &&& forall|i: int|
                0 < i < b.len() - 1 ==> #[trigger] b[i] % (at_least_one(channels) as int) == 0
        }),
{
    let l = layout_of(sample_rate, channels, chunk_seconds);
    lemma_cuts_after_ordered(s, 0, l);
    let cuts = cuts_after(s, 0, l);
    let b = chunk_boundaries(s, l);
    assert(b == seq![0int] + cuts + seq![s.len() as int]);
    assert forall|i: int, j: int| 0 <= i < j < b.len() implies #[trigger] b[i] < #[trigger] b[j] by {
        if i > 0 {
            assert(b[i] == cuts[i - 1]);
        }
        if j < b.len() - 1 {
            assert(b[j] == cuts[j - 1]);
        }
    }
    assert forall|i: int| 0 < i < b.len() - 1 implies #[trigger] b[i] % (at_least_one(channels) as int)
        == 0 by {
        assert(b[i] == cuts[i - 1]);
    }
}

/// The samples between consecutive boundaries of `b`, one piece after the
/// other.
pub open spec fn joined_pieces(s: Seq<i16>, b: Seq<int>) -> Seq<i16>
    decreases b.len(),
{
    if b.len() < 2 {
        Seq::empty()
    } else {
        joined_pieces(s, b.drop_last()) + s.subrange(b[b.len() - 2], b.last())
    }
}

proof fn lemma_joined_pieces(s: Seq<i16>, b: Seq<int>)
    requires
        b.len() >= 2,
        b[0] == 0,
        forall|i: int, j: int| 0 <= i < j < b.len() ==> #[trigger] b[i] < #[trigger] b[j],
        b.last() <= s.len(),
    ensures
        joined_pieces(s, b) == s.take(b.last()),
    decreases b.len(),
{
    let init = b.drop_last();
    if b.len() == 2 {
        assert(joined_pieces(s, init) =~= Seq::<i16>::empty());
        assert(s.subrange(0, b[1]) =~= s.take(b[1]));
    } else {
        assert(init[0] == b[0]);
        assert forall|i: int, j: int| 0 <= i < j < init.len() implies #[trigger] init[i]
            < #[trigger] init[j] by {
            assert(init[i] == b[i] && init[j] == b[j]);
        }
        assert(init.last() == b[b.len() - 2]);
        assert(b[b.len() - 2] < b[b.len() - 1]);
        lemma_joined_pieces(s, init);
        assert(s.take(b[b.len() - 2]) + s.subrange(b[b.len() - 2], b.last()) =~= s.take(b.last()));
    }
}

/// The chunks of a recording, read one after the other, give back every
/// sample of it in order, and none of them is empty.
pub proof fn lemma_chunks_rejoin_recording(
    s: Seq<i16>,
    sample_rate: nat,
    channels: nat,
    chunk_seconds: nat,
)
    requires
        s.len() > 0,
    ensures
        ({
            let b = chunk_boundaries(s, layout_of(sample_rate, channels, chunk_seconds));
            &&& joined_pieces(s, b) == s
            &&& forall|i: int| 0 <= i < b.len() - 1 ==> #[trigger] b[i] < b[i + 1]
        }),
{
    lemma_chunk_boundaries_partition(s, sample_rate, channels, chunk_seconds);
    let b = chunk_boundaries(s, layout_of(sample_rate, channels, chunk_seconds));
    lemma_joined_pieces(s, b);
    assert(s.take(s.len() as int) =~= s);
    assert forall|i: int| 0 <= i < b.len() - 1 implies #[trigger] b[i] < b[i + 1] by {
        assert(b[i] < b[i + 1]);
    }
}

/// Cuts every `t` samples after `cursor`, up to (not at) `len`.
pub open spec fn fixed_cuts(len: int, t: int, cursor: int) -> Seq<int>
    decreases len - cursor,
{
    if t <= 0 || cursor + t >= len {
        Seq::empty()
    } else {
        seq![cursor + t] + fixed_cuts(len, t, cursor + t)
    }
}

proof fn lemma_short_chunks_cut_on_target(
    s: Seq<i16>,
    k: nat,
    sample_rate: nat,
    channels: nat,
    chunk_seconds: nat,
)
    requires
        sample_rate >= 1,
        channels >= 1,
        chunk_seconds <= 11,
    ensures
        ({
            let l = layout_of(sample_rate, channels, chunk_seconds);
            cuts_after(s, (k * l.1) as int, l) == fixed_cuts(s.len() as int, l.1 as int, (k * l.1) as int)
        }),
    decreases s.len() - k * layout_of(sample_rate, channels, chunk_seconds).1,
{
    let l = layout_of(sample_rate, channels, chunk_seconds);
    let sps = sample_rate * channels;
    let c1 = at_least_one(chunk_seconds);
    let t = l.1 as int;
    let cursor = (k * l.1) as int;
    assert(sps >= 1) by (nonlinear_arith)
        requires
            sample_rate >= 1,
            channels >= 1,
            sps == sample_rate * channels,
    ;
    assert(l.0 == sps && l.5 == channels);
    assert(t == sps * c1);
    assert(1 <= c1 <= 11);
    assert(t >= sps && t <= sps * 11) by (nonlinear_arith)
        requires
            t == sps * c1,
            1 <= c1 <= 11,
            sps >= 1,
    ;
    let len = s.len() as int;
    if cursor >= len || cursor + t >= len {
    } else {
        let target = cursor + t;
        let start = max_int(max_int(target - l.2, 0), cursor + l.0 * 20);
        let end = min_int(target + l.2, max_int(len - (l.3 + 1), 0));
        assert(start >= end);
        let best = quietest(s, start, end, l.4 as int, l.3 as int, min_int(target, len), None);
        assert(best == target);
        assert(target == (k + 1) * t) by (nonlinear_arith)
            requires
                target == k * t + t,
        ;
        assert(target == ((k + 1) * sample_rate * c1) * channels) by (nonlinear_arith)
            requires
                target == (k + 1) * t,
                t == sps * c1,
                sps == sample_rate * channels,
        ;
        vstd::arithmetic::div_mod::lemma_mod_multiples_basic(
            ((k + 1) * sample_rate * c1) as int,
            channels as int,
        );
        assert(next_cut(s, cursor, l) == target);
        assert((k + 1) * l.1 == target);
        lemma_short_chunks_cut_on_target(s, k + 1, sample_rate, channels, chunk_seconds);
    }
}

proof fn lemma_fixed_cuts_index(len: int, t: int, cursor: int)
    requires
        t > 0,
    ensures
        forall|i: int|
            0 <= i < fixed_cuts(len, t, cursor).len() ==> #[trigger] fixed_cuts(len, t, cursor)[i]
                == cursor + (i + 1) * t,
        fixed_cuts(len, t, cursor).len() > 0 ==> 0 < len - fixed_cuts(len, t, cursor).last() <= t,
        fixed_cuts(len, t, cursor).len() == 0 ==> len - cursor <= t,
    decreases len - cursor,
{
    if cursor + t < len {
        lemma_fixed_cuts_index(len, t, cursor + t);
        let f = fixed_cuts(len, t, cursor);
        let rest = fixed_cuts(len, t, cursor + t);
        assert(f == seq![cursor + t] + rest);
        assert forall|i: int| 0 <= i < f.len() implies #[trigger] f[i] == cursor + (i + 1) * t by {
            if i > 0 {
                assert(f[i] == rest[i - 1]);
                assert(rest[i - 1] == cursor + t + ((i - 1) + 1) * t);
                assert(cursor + t + ((i - 1) + 1) * t == cursor + (i + 1) * t) by (nonlinear_arith);
            } else {
                assert(f[0] == cursor + t);
                assert((0 + 1) * t == t);
            }
        }
        if rest.len() > 0 {
            assert(f.last() == rest.last());
        }
    }
}

/// When chunks are at most eleven seconds long, no cut can move (the search
/// for a quiet spot starts twenty seconds in), so the recording is cut every
/// `T = sample_rate * channels * chunk_seconds` samples: boundary `i` is
/// `i * T`, and the last chunk holds between one and `T` samples.
pub proof fn lemma_short_chunks_are_fixed(
    s: Seq<i16>,
    sample_rate: nat,
    channels: nat,
    chunk_seconds: nat,
)
    requires
        s.len() > 0,
        sample_rate >= 1,
        channels >= 1,
        chunk_seconds <= 11,
    ensures
        ({
            let l = layout_of(sample_rate, channels, chunk_seconds);
            let t = sample_rate * channels * at_least_one(chunk_seconds);
            let b = chunk_boundaries(s, l);
            &&& b.len() >= 2
            &&& forall|i: int| 0 <= i < b.len() - 1 ==> #[trigger] b[i] == i * t
            &&& 0 < s.len() - b[b.len() - 2] <= t
            &&& b.last() == s.len()
        }),
{
    let l = layout_of(sample_rate, channels, chunk_seconds);
    let t = sample_rate * channels * at_least_one(chunk_seconds);
    assert(l.1 == t) by (nonlinear_arith)
        requires
            sample_rate >= 1,
            channels >= 1,
            l.1 == at_least_one(sample_rate * channels) * at_least_one(chunk_seconds),
            t == sample_rate * channels * at_least_one(chunk_seconds),
    ;
    assert(t > 0) by (nonlinear_arith)
        requires
            sample_rate >= 1,
            channels >= 1,
            t == sample_rate * channels * at_least_one(chunk_seconds),
    ;
    lemma_short_chunks_cut_on_target(s, 0, sample_rate, channels, chunk_seconds);
    assert(0 * l.1 == 0);
    let f = fixed_cuts(s.len() as int, t as int, 0);
    lemma_fixed_cuts_index(s.len() as int, t as int, 0);
    let b = chunk_boundaries(s, l);
    assert(b == seq![0int] + f + seq![s.len() as int]);
    assert forall|i: int| 0 <= i < b.len() - 1 implies #[trigger] b[i] == i * t by {
        if i > 0 {
            assert(b[i] == f[i - 1]);
        }
    }
    if f.len() > 0 {
        assert(b[b.len() - 2] == f.last());
    }
}

fn window_energy_exec(samples: &[i16], probe: usize, window: usize) -> (r: u128)
    requires
        probe + window <= usize::MAX,
    ensures
        r == window_energy(samples@, probe as int, window as int),
{
    let stop = if probe + window < samples.len() {
        probe + window
    } else {
        samples.len()
    };
    let mut total: u128 = 0;
    let mut i = probe;
    proof {
        lemma_energy_bounds(samples@, probe as int, probe as int);
    }
    while i < stop
        invariant
            probe <= i,
            i <= stop || stop < probe,
            stop < probe ==> i == probe,
            stop <= samples@.len(),
            stop == min_int(probe + window, samples@.len() as int),
            total == energy(samples@, probe as int, i as int),
        decreases stop - i,
    {
        proof {
            lemma_energy_bounds(samples@, probe as int, i as int);
        }
        let v = samples[i] as i64;
        assert(0 <= v * v <= 0x4000_0000) by (nonlinear_arith)
            requires
                -32768 <= v <= 32767,
        ;
        let sq: u128 = (v * v) as u128;
        assert(total + sq <= u128::MAX) by (nonlinear_arith)
            requires
                total <= (i - probe) * 0x4000_0000,
                sq <= 0x4000_0000,
                probe <= i,
                i <= usize::MAX,
        ;
        total = total + sq;
        i += 1;
    }
    if stop < probe {
        assert(energy(samples@, probe as int, stop as int) == 0);
    }
    total
}

/// The chunk boundaries of interleaved 16-bit samples recorded at
/// `sample_rate` frames per second over `channels` channels, cut about every
/// `chunk_seconds` seconds: each chunk runs from one boundary to the next.
pub fn plan_wav_chunk_boundaries(samples: &[i16], sample_rate: u32, channels: u16, chunk_seconds: u32) -> (r: Vec<usize>)
    requires
        layout_fits(samples@.len(), sample_rate as nat, channels as nat, chunk_seconds as nat),
    ensures
        r@.map_values(|b: usize| b as int) == chunk_boundaries(
            samples@,
            layout_of(sample_rate as nat, channels as nat, chunk_seconds as nat),
        ),
        samples@.len() == 0 ==> r@.len() == 0,
        samples@.len() > 0 ==> {
            &&& r@.len() >= 2
            &&& r@[0] == 0
            &&& r@.last() == samples@.len()
            &&& forall|i: int, j: int| 0 <= i < j < r@.len() ==> #[trigger] r@[i] < #[trigger] r@[j]
            &&& forall|i: int|
                0 < i < r@.len() - 1 ==> (#[trigger] r@[i]) as int % (at_least_one(channels as nat) as int) == 0
        },
{
    let layout = &chunk_layout(sample_rate, channels, chunk_seconds);
    let ghost seconds = at_least_one(chunk_seconds as nat);
    assert(samples@.len() + layout.target_samples + layout.search_radius + layout.samples_per_second
        * 20 + layout.analysis_window + 1 <= usize::MAX) by (nonlinear_arith)
        requires
            samples@.len() + layout.samples_per_second * (seconds + 29) <= usize::MAX,
            layout.target_samples == layout.samples_per_second * seconds,
            layout.search_radius == layout.samples_per_second * 8,
            layout.analysis_window == layout.samples_per_second / 4,
            layout.samples_per_second >= 1,
    ;
    let ghost l = layout_view(*layout);
    let len = samples.len();
    let mut out: Vec<usize> = Vec::new();
    if len == 0 {
        return out;
    }
    out.push(0);
    let mut cursor: usize = 0;
    while cursor + layout.target_samples < len
        invariant
            len == samples@.len(),
            l == layout_view(*layout),
            samples@.len() + layout.target_samples + layout.search_radius + layout.samples_per_second
                * 20 + layout.analysis_window + 1 <= usize::MAX,
            layout.step > 0,
            layout.channels > 0,
            cursor < len,
            out@.len() > 0,
            out@.map_values(|b: usize| b as int) + cuts_after(samples@, cursor as int, l) == seq![
                0int,
            ] + cuts_after(samples@, 0, l),
        ensures
            out@.map_values(|b: usize| b as int) + cuts_after(samples@, cursor as int, l) == seq![
                0int,
            ] + cuts_after(samples@, 0, l),
            cuts_after(samples@, cursor as int, l) == Seq::<int>::empty(),
        decreases len - cursor,
    {
        let target = cursor + layout.target_samples;
        let low = if target >= layout.search_radius {
            target - layout.search_radius
        } else {
            0
        };
        let floor = cursor + layout.samples_per_second * 20;
        let start = if low > floor {
            low
        } else {
            floor
        };
        let limit = if len >= layout.analysis_window + 1 {
            len - (layout.analysis_window + 1)
        } else {
            0
        };
        let end = if target + layout.search_radius < limit {
            target + layout.search_radius
        } else {
            limit
        };
        let mut best_index = if target < len {
            target
        } else {
            len
        };
        let mut best: Option<u128> = None;
        let ghost first_index = best_index as int;
        let mut probe = start;
        while probe < end
            invariant
                len == samples@.len(),
                end < len,
                layout.step > 0,
                samples@.len() + layout.analysis_window + 1 <= usize::MAX,
                quietest(
                    samples@,
                    start as int,
                    end as int,
                    layout.step as int,
                    layout.analysis_window as int,
                    first_index,
                    None,
                ) == quietest(
                    samples@,
                    probe as int,
                    end as int,
                    layout.step as int,
                    layout.analysis_window as int,
                    best_index as int,
                    match best {
                        Some(e) => Some(e as int),
                        None => None,
                    },
                ),
            decreases if end > probe {
                end - probe
            } else {
                0
            },
        {
            let e = window_energy_exec(samples, probe, layout.analysis_window);
            let better = match best {
                None => true,
                Some(b) => e < b,
            };
            if better {
                best = Some(e);
                best_index = probe;
            }
            let ghost old_probe = probe as int;
            probe = match probe.checked_add(layout.step) {
                Some(v) => v,
                None => usize::MAX,
            };
            proof {
                if old_probe + layout.step > usize::MAX {
                    let bv = match best {
                        Some(e) => Some(e as int),
                        None => None,
                    };
                    assert(quietest(samples@, old_probe + layout.step, end as int, layout.step as int, layout.analysis_window as int, best_index as int, bv) == best_index as int);
                    assert(quietest(samples@, probe as int, end as int, layout.step as int, layout.analysis_window as int, best_index as int, bv) == best_index as int);
                }
            }
        }
        assert(best_index % layout.channels <= best_index) by (nonlinear_arith)
            requires
                layout.channels > 0,
        ;
        let boundary = best_index - best_index % layout.channels;
        assert(quietest(samples@, probe as int, end as int, layout.step as int, layout.analysis_window as int, best_index as int, match best {
            Some(e) => Some(e as int),
            None => None,
        }) == best_index as int);
        assert(boundary as int == next_cut(samples@, cursor as int, l));
        if boundary <= cursor || boundary >= len {
            break;
        }
        let ghost before = out@.map_values(|b: usize| b as int);
        out.push(boundary);
        assert(out@.map_values(|b: usize| b as int) =~= before.push(boundary as int));
        assert(cuts_after(samples@, cursor as int, l) == seq![boundary as int] + cuts_after(
            samples@,
            boundary as int,
            l,
        ));
        assert(before + cuts_after(samples@, cursor as int, l) =~= before.push(boundary as int)
            + cuts_after(samples@, boundary as int, l));
        cursor = boundary;
    }
    let ghost before = out@.map_values(|b: usize| b as int);
    out.push(len);
    assert(out@.map_values(|b: usize| b as int) =~= before.push(len as int));
    proof {
        let m = out@.map_values(|b: usize| b as int);
        lemma_chunk_boundaries_partition(samples@, sample_rate as nat, channels as nat, chunk_seconds as nat);
        assert forall|i: int| 0 <= i < out@.len() implies out@[i] as int == #[trigger] m[i] by {}
        assert forall|i: int, j: int| 0 <= i < j < out@.len() implies #[trigger] out@[i] < #[trigger] out@[j] by {
            assert(m[i] < m[j]);
        }
        assert forall|i: int| 0 < i < out@.len() - 1 implies (#[trigger] out@[i]) as int % (at_least_one(channels as nat) as int) == 0 by {
            assert(m[i] % (at_least_one(channels as nat) as int) == 0);
        }
        assert(m[0] == 0 && m.last() == len);
    }
    out
}

} // verus!
