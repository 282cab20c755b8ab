//! Turning a transcript into subtitle text: splitting it into display chunks,
//! cleaning lines, and rendering timeline, SRT and marker-list outputs.
use vstd::prelude::*;
use crate::text::{
    all_ws, append_str, chars_of, collapse_whitespace, decimal, is_blank, is_ws, join, join_strings,
    lemma_trim_empty, lines, lines_of, lit, push_char, replace, replace_str, string_of, trim,
    trim_end, trim_end_vec, trim_str, views, words, words_state, zero_pad, zero_padded,
    decimal_string,
};

verus! {

broadcast use vstd::string::group_string_axioms;

// ---------------------------------------------------------------------------
// Punctuation classes
// ---------------------------------------------------------------------------

pub open spec fn primary_break(c: char) -> bool {
    c == '。' || c == '！' || c == '？' || c == '!' || c == '?' || c == '\n'
}

pub open spec fn secondary_break(c: char) -> bool {
    c == '，' || c == '；' || c == '、' || c == ',' || c == ';'
}

pub open spec fn leading_punctuation(c: char) -> bool {
    c == '。' || c == '！' || c == '？' || c == '，' || c == '、' || c == '；' || c == '.' || c
        == '!' || c == '?' || c == ';' || c == ','
}

/// Characters that end a sentence.
pub fn is_primary_sentence_break(character: char) -> (r: bool)
    ensures
        r == primary_break(character),
{
    character == '。' || character == '！' || character == '？' || character == '!' || character
        == '?' || character == '\n'
}

/// Characters that end a clause.
pub fn is_secondary_sentence_break(character: char) -> (r: bool)
    ensures
        r == secondary_break(character),
{
    character == '，' || character == '；' || character == '、' || character == ',' || character
        == ';'
}

/// Punctuation that must not open a subtitle line.
pub fn is_leading_punctuation(character: char) -> (r: bool)
    ensures
        r == leading_punctuation(character),
{
    character == '。' || character == '！' || character == '？' || character == '，' || character
        == '、' || character == '；' || character == '.' || character == '!' || character == '?'
        || character == ';' || character == ','
}

// ---------------------------------------------------------------------------
// Chunking
// ---------------------------------------------------------------------------

/// A chunk aims for this many characters and breaks at a clause boundary
/// once it has them.
pub const TARGET_CHUNK_CHARS: usize = 56;

/// A chunk is cut here whatever the character.
pub const MAX_CHUNK_CHARS: usize = 82;

pub open spec fn should_break(count: nat, c: char) -> bool {
    primary_break(c) || (count >= TARGET_CHUNK_CHARS && secondary_break(c)) || count
        >= MAX_CHUNK_CHARS
}

/// Chunks so far, the chunk in progress, and punctuation read before any
/// chunk existed.
pub type ChunkState = (Seq<Seq<char>>, Seq<char>, Seq<char>);

pub open spec fn chunk_step(st: ChunkState, c: char) -> ChunkState {
    let chunks = st.0;
    let current = st.1;
    let pending = st.2;
    if all_ws(current) && leading_punctuation(c) {
        if chunks.len() > 0 {
            (chunks.update(chunks.len() - 1, chunks.last().push(c)), Seq::empty(), pending)
        } else {
            (chunks, Seq::empty(), pending.push(c))
        }
    } else {
        let flush = current.len() == 0 && pending.len() > 0;
        let cur = if flush {
            pending.push(c)
        } else {
            current.push(c)
        };
        let pend = if flush {
            Seq::empty()
        } else {
            pending
        };
        if should_break(cur.len(), c) {
            let t = trim(cur);
            (
                if t.len() > 0 {
                    chunks.push(t)
                } else {
                    chunks
                },
                Seq::empty(),
                pend,
            )
        } else {
            (chunks, cur, pend)
        }
    }
}

pub open spec fn chunk_state(s: Seq<char>) -> ChunkState
    decreases s.len(),
{
    if s.len() == 0 {
        (Seq::empty(), Seq::empty(), Seq::empty())
    } else {
        chunk_step(chunk_state(s.drop_last()), s.last())
    }
}

/// The display chunks of a transcript.
pub open spec fn text_chunks(s: Seq<char>) -> Seq<Seq<char>> {
    let st = chunk_state(s);
    let t = trim(st.1);
    let chunks = if t.len() > 0 {
        st.0.push(t)
    } else {
        st.0
    };
    if chunks.len() == 0 && trim(s).len() > 0 {
        seq![trim(s)]
    } else {
        chunks
    }
}

/// Splits a transcript into subtitle-sized chunks: at sentence ends, at clause
/// ends once a chunk is long enough, and at a hard length limit; punctuation
/// that would open a chunk stays with the chunk before it.
pub fn split_text_into_chunks(text: &str) -> (r: Vec<String>)
    ensures
        views(r@) == text_chunks(text@),
{
    let v = chars_of(text);
    let mut chunks: Vec<String> = Vec::new();
    let mut current = String::new();
    let mut pending = String::new();
    let mut i: usize = 0;
    while i < v.len()
        invariant
            0 <= i <= v@.len(),
            v@ == text@,
            (views(chunks@), current@, pending@) == chunk_state(v@.take(i as int)),
        decreases v@.len() - i,
    {
        let c = v[i];
        assert(v@.take(i + 1).drop_last() =~= v@.take(i as int));
        assert(v@.take(i + 1).last() == c);
        let blank = is_blank(current.as_str());
        if blank && is_leading_punctuation(c) {
            current = String::new();
            if chunks.len() > 0 {
                let ghost before = views(chunks@);
                let mut last = chunks.pop().unwrap();
                push_char(&mut last, c);
                chunks.push(last);
                assert(views(chunks@) =~= before.update(before.len() - 1, before.last().push(c)));
            } else {
                push_char(&mut pending, c);
            }
        } else {
            if current.as_str().unicode_len() == 0 && pending.as_str().unicode_len() > 0 {
                current = pending;
                pending = String::new();
            }
            push_char(&mut current, c);
            let count = current.as_str().unicode_len();
            let brk = is_primary_sentence_break(c) || (count >= TARGET_CHUNK_CHARS
                && is_secondary_sentence_break(c)) || count >= MAX_CHUNK_CHARS;
            if brk {
                let chunk = trim_str(current.as_str());
                if chunk.as_str().unicode_len() > 0 {
                    let ghost before = views(chunks@);
                    chunks.push(chunk);
                    assert(views(chunks@) =~= before.push(chunk@));
                }
                current = String::new();
            }
        }
        i += 1;
    }
    assert(v@.take(v@.len() as int) =~= v@);
    let chunk = trim_str(current.as_str());
    if chunk.as_str().unicode_len() > 0 {
        let ghost before = views(chunks@);
        chunks.push(chunk);
        assert(views(chunks@) =~= before.push(chunk@));
    }
    if chunks.len() == 0 {
        let whole = trim_str(text);
        if whole.as_str().unicode_len() > 0 {
            chunks.push(whole);
            assert(views(chunks@) =~= seq![whole@]);
        }
    }
    chunks
}

/// The non-whitespace characters of `s`, in order.
pub open spec fn visible(s: Seq<char>) -> Seq<char>
    decreases s.len(),
{
    if s.len() == 0 {
        Seq::empty()
    } else if is_ws(s.last()) {
        visible(s.drop_last())
    } else {
        visible(s.drop_last()).push(s.last())
    }
}

/// The chunks written one after another.
pub open spec fn concat_all(chunks: Seq<Seq<char>>) -> Seq<char>
    decreases chunks.len(),
{
    if chunks.len() == 0 {
        Seq::empty()
    } else {
        concat_all(chunks.drop_last()) + chunks.last()
    }
}

proof fn lemma_visible_add(a: Seq<char>, b: Seq<char>)
    ensures
        visible(a + b) == visible(a) + visible(b),
    decreases b.len(),
{
    if b.len() == 0 {
        assert(a + b =~= a);
        assert(visible(a) + visible(b) =~= visible(a));
    } else {
        lemma_visible_add(a, b.drop_last());
        assert((a + b).drop_last() =~= a + b.drop_last());
        assert((a + b).last() == b.last());
        if !is_ws(b.last()) {
            assert(visible(a) + visible(b) =~= (visible(a) + visible(b.drop_last())).push(
                b.last(),
            ));
        }
    }
}

proof fn lemma_visible_push(a: Seq<char>, c: char)
    ensures
        visible(a.push(c)) == (if is_ws(c) {
            visible(a)
        } else {
            visible(a).push(c)
        }),
{
    assert(a.push(c).drop_last() =~= a);
}

proof fn lemma_visible_all_ws(s: Seq<char>)
    requires
        all_ws(s),
    ensures
        visible(s) == Seq::<char>::empty(),
    decreases s.len(),
{
    if s.len() > 0 {
        assert(is_ws(s[s.len() - 1]));
        lemma_visible_all_ws(s.drop_last());
    }
}

proof fn lemma_visible_trim_start(s: Seq<char>)
    ensures
        visible(crate::text::trim_start(s)) == visible(s),
    decreases s.len(),
{
    if s.len() > 0 && is_ws(s[0]) {
        lemma_visible_trim_start(s.drop_first());
        assert(s =~= seq![s[0]] + s.drop_first());
        lemma_visible_add(seq![s[0]], s.drop_first());
        assert(seq![s[0]].drop_last() =~= Seq::<char>::empty());
        lemma_visible_push(Seq::<char>::empty(), s[0]);
        assert(Seq::<char>::empty().push(s[0]) =~= seq![s[0]]);
        assert(visible(seq![s[0]]) =~= Seq::<char>::empty());
        assert(Seq::<char>::empty() + visible(s.drop_first()) =~= visible(s.drop_first()));
    }
}

proof fn lemma_visible_trim_end(s: Seq<char>)
    ensures
        visible(trim_end(s)) == visible(s),
    decreases s.len(),
{
    if s.len() > 0 && is_ws(s.last()) {
        lemma_visible_trim_end(s.drop_last());
    }
}

proof fn lemma_visible_trim(s: Seq<char>)
    ensures
        visible(trim(s)) == visible(s),
{
    lemma_visible_trim_start(s);
    lemma_visible_trim_end(crate::text::trim_start(s));
}

spec fn chunk_inv(st: ChunkState, s: Seq<char>) -> bool {
    &&& forall|i: int| 0 <= i < st.0.len() ==> #[trigger] st.0[i].len() > 0
    &&& st.2.len() > 0 ==> st.1.len() == 0
    &&& st.0.len() > 0 ==> st.2.len() == 0
    &&& visible(concat_all(st.0) + st.2 + st.1) == visible(s)
}

proof fn lemma_chunk_state_inv(s: Seq<char>)
    ensures
        chunk_inv(chunk_state(s), s),
    decreases s.len(),
{
    if s.len() == 0 {
        assert(concat_all(Seq::<Seq<char>>::empty()) + Seq::<char>::empty() + Seq::<char>::empty()
            =~= Seq::<char>::empty());
    } else {
        let prefix = s.drop_last();
        let c = s.last();
        lemma_chunk_state_inv(prefix);
        let st = chunk_state(prefix);
        let chunks = st.0;
        let current = st.1;
        let pending = st.2;
        let next = chunk_step(st, c);
        assert(next == chunk_state(s));
        assert(s =~= prefix.push(c));
        lemma_visible_push(prefix, c);
        let flat = concat_all(chunks);
        if all_ws(current) && leading_punctuation(c) {
            assert(!is_ws(c));
            lemma_visible_all_ws(current);
            lemma_visible_add(flat + pending, current);
            assert(current + Seq::<char>::empty() =~= current);
            assert(visible(flat + pending) + Seq::<char>::empty() =~= visible(flat + pending));
            if chunks.len() > 0 {
                let nc = chunks.update(chunks.len() - 1, chunks.last().push(c));
                assert(nc.drop_last() =~= chunks.drop_last());
                assert(concat_all(nc) =~= flat.push(c));
                assert(pending =~= Seq::<char>::empty());
                assert(flat + pending =~= flat);
                assert(concat_all(nc) + next.2 + next.1 =~= flat.push(c));
                lemma_visible_push(flat, c);
                assert(forall|i: int| 0 <= i < nc.len() ==> #[trigger] nc[i].len() > 0) by {
                    assert forall|i: int| 0 <= i < nc.len() implies #[trigger] nc[i].len() > 0 by {
                        if i < nc.len() - 1 {
                            assert(nc[i] == chunks[i]);
                        }
                    }
                }
            } else {
                assert(concat_all(chunks) =~= Seq::<char>::empty());
                assert(concat_all(next.0) + next.2 + next.1 =~= (flat + pending).push(c));
                lemma_visible_push(flat + pending, c);
            }
        } else {
            let flush = current.len() == 0 && pending.len() > 0;
            let cur = if flush {
                pending.push(c)
            } else {
                current.push(c)
            };
            let pend = if flush {
                Seq::<char>::empty()
            } else {
                pending
            };
            assert(pend.len() == 0);
            assert(flat + pend + cur =~= (flat + pending + current).push(c));
            lemma_visible_push(flat + pending + current, c);
            lemma_visible_add(flat, cur);
            assert(flat + pend + cur =~= flat + cur);
            if should_break(cur.len(), c) {
                let t = trim(cur);
                lemma_visible_trim(cur);
                lemma_trim_empty(cur);
                if t.len() > 0 {
                    assert(chunks.push(t).drop_last() =~= chunks);
                    assert(concat_all(next.0) + next.2 + next.1 =~= flat + t);
                    lemma_visible_add(flat, t);
                    assert(forall|i: int| 0 <= i < next.0.len() ==> #[trigger] next.0[i].len() > 0)
                        by {
                        assert forall|i: int| 0 <= i < next.0.len() implies #[trigger] next.0[i].len()
                            > 0 by {
                            if i < chunks.len() {
                                assert(next.0[i] == chunks[i]);
                            }
                        }
                    }
                } else {
                    lemma_visible_all_ws(cur);
                    assert(concat_all(next.0) + next.2 + next.1 =~= flat);
                    assert(visible(flat) + Seq::<char>::empty() =~= visible(flat));
                }
            } else {
                assert(concat_all(next.0) + next.2 + next.1 =~= flat + pend + cur);
            }
        }
    }
}

/// Chunking loses and reorders none of the transcript's visible characters:
/// the chunks, read in order, hold exactly the non-whitespace characters of
/// the text.
pub proof fn lemma_chunks_keep_visible_text(s: Seq<char>)
    ensures
        visible(concat_all(text_chunks(s))) == visible(s),
{
    lemma_chunk_state_inv(s);
    let st = chunk_state(s);
    let flat = concat_all(st.0);
    let t = trim(st.1);
    lemma_visible_trim(st.1);
    lemma_trim_empty(st.1);
    lemma_visible_trim(s);
    lemma_trim_empty(s);
    let chunks = if t.len() > 0 {
        st.0.push(t)
    } else {
        st.0
    };
    if t.len() > 0 {
        assert(st.0.push(t).drop_last() =~= st.0);
        assert(st.2 =~= Seq::<char>::empty());
        assert(flat + st.2 + st.1 =~= flat + st.1);
        lemma_visible_add(flat, st.1);
        lemma_visible_add(flat, t);
    } else {
        lemma_visible_all_ws(st.1);
        lemma_visible_add(flat + st.2, st.1);
        assert(visible(flat + st.2) + Seq::<char>::empty() =~= visible(flat + st.2));
        if st.0.len() > 0 {
            assert(st.2 =~= Seq::<char>::empty());
            assert(flat + st.2 =~= flat);
        }
    }
    if chunks.len() == 0 && trim(s).len() > 0 {
        assert(seq![trim(s)].drop_last() =~= Seq::<Seq<char>>::empty());
        assert(concat_all(seq![trim(s)].drop_last()) =~= Seq::<char>::empty());
        assert(Seq::<char>::empty() + trim(s) =~= trim(s));
        assert(concat_all(seq![trim(s)]) =~= trim(s));
    } else if chunks.len() == 0 {
        lemma_visible_all_ws(s);
        assert(concat_all(chunks) =~= Seq::<char>::empty());
    }
}

/// A text that begins, after any whitespace, with punctuation that must not
/// open a line.
pub open spec fn starts_punct(t: Seq<char>) -> bool {
    t.len() > 0 && leading_punctuation(t[0])
}

pub open spec fn opens_with_punctuation(s: Seq<char>) -> bool {
    starts_punct(crate::text::trim_start(s))
}

proof fn lemma_trim_start_ws_prefix(p: Seq<char>, q: Seq<char>)
    requires
        all_ws(p),
    ensures
        crate::text::trim_start(p + q) == crate::text::trim_start(q),
    decreases p.len(),
{
    if p.len() == 0 {
        assert(p + q =~= q);
    } else {
        assert(is_ws(p[0]));
        assert((p + q)[0] == p[0]);
        assert((p + q).drop_first() =~= p.drop_first() + q);
        assert(all_ws(p.drop_first())) by {
            assert forall|i: int| 0 <= i < p.drop_first().len() implies is_ws(
                #[trigger] p.drop_first()[i],
            ) by {
                assert(p.drop_first()[i] == p[i + 1]);
            }
        }
        lemma_trim_start_ws_prefix(p.drop_first(), q);
    }
}

proof fn lemma_trim_start_push(p: Seq<char>, c: char)
    requires
        !all_ws(p),
    ensures
        crate::text::trim_start(p.push(c)) == crate::text::trim_start(p).push(c),
    decreases p.len(),
{
    assert(p.len() > 0);
    assert(p.push(c)[0] == p[0]);
    if is_ws(p[0]) {
        assert(p.push(c).drop_first() =~= p.drop_first().push(c));
        assert(!all_ws(p.drop_first())) by {
            let k = choose|k: int| 0 <= k < p.len() && !is_ws(#[trigger] p[k]);
            assert(k > 0);
            assert(p.drop_first()[k - 1] == p[k]);
        }
        lemma_trim_start_push(p.drop_first(), c);
    }
}

proof fn lemma_visible_empty_all_ws(x: Seq<char>)
    requires
        visible(x).len() == 0,
    ensures
        all_ws(x),
    decreases x.len(),
{
    if x.len() > 0 {
        if !is_ws(x.last()) {
            assert(visible(x).len() == visible(x.drop_last()).len() + 1);
        }
        lemma_visible_empty_all_ws(x.drop_last());
        assert forall|i: int| 0 <= i < x.len() implies is_ws(#[trigger] x[i]) by {
            if i < x.len() - 1 {
                assert(x[i] == x.drop_last()[i]);
            }
        }
    }
}

proof fn lemma_trim_first(x: Seq<char>)
    requires
        trim(x).len() > 0,
    ensures
        trim(x)[0] == crate::text::trim_start(x)[0],
{
    crate::text::lemma_trim_end_len(crate::text::trim_start(x));
}

proof fn lemma_opening_prefix(prefix: Seq<char>, c: char)
    requires
        !opens_with_punctuation(prefix.push(c)),
    ensures
        !opens_with_punctuation(prefix),
        all_ws(prefix) && !is_ws(c) ==> !leading_punctuation(c),
{
    crate::text::lemma_trim_start_len(prefix);
    if !all_ws(prefix) {
        lemma_trim_start_push(prefix, c);
        assert(crate::text::trim_start(prefix.push(c))[0] == crate::text::trim_start(prefix)[0]);
    } else {
        lemma_trim_start_ws_prefix(prefix, seq![c]);
        assert(prefix + seq![c] =~= prefix.push(c));
        if !is_ws(c) {
            assert(crate::text::trim_start(seq![c]) == seq![c]);
        }
    }
}

spec fn punct_inv(st: ChunkState) -> bool {
    &&& forall|i: int| 0 <= i < st.0.len() ==> !starts_punct(#[trigger] st.0[i])
    &&& st.2.len() == 0
    &&& !starts_punct(crate::text::trim_start(st.1))
}

proof fn lemma_chunk_state_no_punct(s: Seq<char>)
    requires
        !opens_with_punctuation(s),
    ensures
        punct_inv(chunk_state(s)),
    decreases s.len(),
{
    if s.len() > 0 {
        let prefix = s.drop_last();
        let c = s.last();
        assert(s =~= prefix.push(c));
        lemma_opening_prefix(prefix, c);
        lemma_chunk_state_no_punct(prefix);
        lemma_chunk_state_inv(prefix);
        let st = chunk_state(prefix);
        let chunks = st.0;
        let current = st.1;
        let next = chunk_step(st, c);
        assert(next == chunk_state(s));
        if all_ws(current) && leading_punctuation(c) {
            if chunks.len() > 0 {
                let nc = chunks.update(chunks.len() - 1, chunks.last().push(c));
                assert forall|i: int| 0 <= i < nc.len() implies !starts_punct(#[trigger] nc[i]) by {
                    if i == nc.len() - 1 {
                        assert(chunks[i].len() > 0);
                        assert(nc[i][0] == chunks[i][0]);
                    } else {
                        assert(nc[i] == chunks[i]);
                    }
                }
                assert(crate::text::trim_start(Seq::<char>::empty()) =~= Seq::<char>::empty());
            } else {
                lemma_visible_all_ws(current);
                assert(concat_all(chunks) =~= Seq::<char>::empty());
                assert(concat_all(chunks) + st.2 + current =~= current);
                lemma_visible_empty_all_ws(prefix);
                assert(!is_ws(c));
                assert(false);
            }
        } else {
            let cur = current.push(c);
            assert(current.len() == 0 ==> current.push(c) =~= seq![c]);
            assert(!starts_punct(crate::text::trim_start(cur))) by {
                if all_ws(current) {
                    lemma_trim_start_ws_prefix(current, seq![c]);
                    assert(current + seq![c] =~= cur);
                    if !is_ws(c) {
                        assert(crate::text::trim_start(seq![c]) == seq![c]);
                    } else {
                        assert(seq![c].drop_first() =~= Seq::<char>::empty());
                        assert(crate::text::trim_start(seq![c]) == crate::text::trim_start(
                            Seq::<char>::empty(),
                        ));
                        assert(crate::text::trim_start(Seq::<char>::empty()).len() == 0);
                    }
                } else {
                    lemma_trim_start_push(current, c);
                    crate::text::lemma_trim_start_len(current);
                    assert(crate::text::trim_start(cur)[0] == crate::text::trim_start(current)[0]);
                }
            }
            if should_break(cur.len(), c) {
                let t = trim(cur);
                if t.len() > 0 {
                    lemma_trim_first(cur);
                    assert forall|i: int| 0 <= i < next.0.len() implies !starts_punct(
                        #[trigger] next.0[i],
                    ) by {
                        if i < chunks.len() {
                            assert(next.0[i] == chunks[i]);
                        }
                    }
                }
                assert(crate::text::trim_start(Seq::<char>::empty()) =~= Seq::<char>::empty());
            }
        }
    }
}

/// When a transcript does not itself open with such punctuation, no chunk
/// opens with punctuation that belongs to the line before.
pub proof fn lemma_chunks_do_not_open_with_punctuation(s: Seq<char>)
    requires
        !opens_with_punctuation(s),
    ensures
        forall|i: int| 0 <= i < text_chunks(s).len() ==> !starts_punct(#[trigger] text_chunks(s)[i]),
{
    lemma_chunk_state_no_punct(s);
    let st = chunk_state(s);
    let t = trim(st.1);
    if t.len() > 0 {
        lemma_trim_first(st.1);
    }
    if trim(s).len() > 0 {
        lemma_trim_first(s);
    }
    assert forall|i: int| 0 <= i < text_chunks(s).len() implies !starts_punct(
        #[trigger] text_chunks(s)[i],
    ) by {
        if t.len() > 0 && i < st.0.len() {
            assert(st.0.push(t)[i] == st.0[i]);
        }
    }
}

/// Non-empty, with no whitespace at either end.
pub open spec fn trimmed_nonempty(x: Seq<char>) -> bool {
    x.len() > 0 && !is_ws(x[0]) && !is_ws(x.last())
}

proof fn lemma_trim_is_trimmed(x: Seq<char>)
    requires
        trim(x).len() > 0,
    ensures
        trimmed_nonempty(trim(x)),
{
    let ts = crate::text::trim_start(x);
    crate::text::lemma_trim_start_len(x);
    crate::text::lemma_trim_end_len(ts);
    lemma_trim_first(x);
}

proof fn lemma_trim_fixed(x: Seq<char>)
    requires
        trimmed_nonempty(x),
    ensures
        trim(x) == x,
{
    assert(crate::text::trim_start(x) == x);
    assert(trim_end(x) == x);
}

spec fn shape_inv(st: ChunkState) -> bool {
    &&& forall|i: int| 0 <= i < st.0.len() ==> trimmed_nonempty(#[trigger] st.0[i])
    &&& forall|i: int| 1 <= i < st.0.len() ==> !starts_punct(#[trigger] st.0[i])
    &&& st.0.len() > 0 ==> !starts_punct(crate::text::trim_start(st.1))
}

proof fn lemma_punct_not_ws(c: char)
    requires
        leading_punctuation(c),
    ensures
        !is_ws(c),
{
}

proof fn lemma_chunk_state_shape(s: Seq<char>)
    ensures
        shape_inv(chunk_state(s)),
    decreases s.len(),
{
    if s.len() > 0 {
        let prefix = s.drop_last();
        let c = s.last();
        lemma_chunk_state_shape(prefix);
        lemma_chunk_state_inv(prefix);
        let st = chunk_state(prefix);
        let chunks = st.0;
        let current = st.1;
        let next = chunk_step(st, c);
        assert(next == chunk_state(s));
        assert(crate::text::trim_start(Seq::<char>::empty()) =~= Seq::<char>::empty());
        if all_ws(current) && leading_punctuation(c) {
            lemma_punct_not_ws(c);
            if chunks.len() > 0 {
                let nc = chunks.update(chunks.len() - 1, chunks.last().push(c));
                assert forall|i: int| 0 <= i < nc.len() implies trimmed_nonempty(#[trigger] nc[i])
                    && (i >= 1 ==> !starts_punct(nc[i])) by {
                    if i == nc.len() - 1 {
                        assert(nc[i][0] == chunks[i][0]);
                        assert(nc[i].last() == c);
                    } else {
                        assert(nc[i] == chunks[i]);
                    }
                }
            }
        } else {
            let flush = current.len() == 0 && st.2.len() > 0;
            let cur = if flush {
                st.2.push(c)
            } else {
                current.push(c)
            };
            assert(chunks.len() > 0 ==> !starts_punct(crate::text::trim_start(cur))) by {
                if chunks.len() > 0 {
                    assert(!flush);
                    assert(current.len() == 0 ==> current.push(c) =~= seq![c]);
                    if all_ws(current) {
                        lemma_trim_start_ws_prefix(current, seq![c]);
                        assert(current + seq![c] =~= cur);
                        if !is_ws(c) {
                            assert(crate::text::trim_start(seq![c]) == seq![c]);
                        } else {
                            assert(seq![c].drop_first() =~= Seq::<char>::empty());
                            assert(crate::text::trim_start(seq![c]) == crate::text::trim_start(
                                Seq::<char>::empty(),
                            ));
                        }
                    } else {
                        lemma_trim_start_push(current, c);
                        crate::text::lemma_trim_start_len(current);
                        assert(crate::text::trim_start(cur)[0] == crate::text::trim_start(
                            current,
                        )[0]);
                    }
                }
            }
            if should_break(cur.len(), c) {
                let t = trim(cur);
                if t.len() > 0 {
                    lemma_trim_is_trimmed(cur);
                    lemma_trim_first(cur);
                    let nc = chunks.push(t);
                    assert forall|i: int| 0 <= i < nc.len() implies trimmed_nonempty(#[trigger] nc[i])
                        && (i >= 1 ==> !starts_punct(nc[i])) by {
                        if i < chunks.len() {
                            assert(nc[i] == chunks[i]);
                        }
                    }
                }
            }
        }
    }
}

/// The chunks of a transcript: there are none exactly when the transcript is
/// blank; each one is non-empty with no whitespace at either end (it equals
/// its own trim); and none after the first opens with punctuation, which
/// stays with the chunk before it.
pub proof fn lemma_chunks_shape(s: Seq<char>)
    ensures
        text_chunks(s).len() == 0 <==> trim(s).len() == 0,
        forall|i: int|
            0 <= i < text_chunks(s).len() ==> #[trigger] text_chunks(s)[i].len() > 0 && trim(
                text_chunks(s)[i],
            ) == text_chunks(s)[i],
        forall|i: int| 1 <= i < text_chunks(s).len() ==> !starts_punct(#[trigger] text_chunks(s)[i]),
{
    lemma_chunk_state_shape(s);
    lemma_chunk_state_inv(s);
    let st = chunk_state(s);
    let t = trim(st.1);
    let r = text_chunks(s);
    let chunks = if t.len() > 0 {
        st.0.push(t)
    } else {
        st.0
    };
    if t.len() > 0 {
        lemma_trim_is_trimmed(st.1);
        if st.0.len() > 0 {
            lemma_trim_first(st.1);
        }
    }
    assert forall|i: int| 0 <= i < chunks.len() implies trimmed_nonempty(#[trigger] chunks[i]) && (i
        >= 1 ==> !starts_punct(chunks[i])) by {
        if i < st.0.len() {
            assert(chunks[i] == st.0[i]);
        }
    }
    if chunks.len() == 0 && trim(s).len() > 0 {
        lemma_trim_is_trimmed(s);
        assert(r == seq![trim(s)]);
    }
    assert forall|i: int| 0 <= i < r.len() implies #[trigger] r[i].len() > 0 && trim(r[i]) == r[i]
        && (i >= 1 ==> !starts_punct(r[i])) by {
        if chunks.len() == 0 && trim(s).len() > 0 {
            assert(r[i] == trim(s));
        } else {
            assert(r[i] == chunks[i]);
        }
        lemma_trim_fixed(r[i]);
    }
    if trim(s).len() == 0 {
        lemma_trim_empty(s);
        lemma_visible_all_ws(s);
        lemma_visible_add(concat_all(st.0) + st.2, st.1);
        lemma_visible_add(concat_all(st.0), st.2);
        if st.0.len() > 0 {
            lemma_visible_add(concat_all(st.0.drop_last()), st.0.last());
            lemma_visible_empty_all_ws(st.0.last());
            assert(trimmed_nonempty(st.0[st.0.len() - 1]));
            assert(false);
        }
        lemma_visible_empty_all_ws(st.1);
        lemma_trim_empty(st.1);
    }
}

/// A character that is shown and is not punctuation kept with the line
/// before.
pub open spec fn visible_word_char(x: char) -> bool {
    !is_ws(x) && !(x == '。' || x == '！' || x == '？' || x == '，' || x == '、' || x == '；' || x
        == '.' || x == '!' || x == '?' || x == ';' || x == ',')
}

/// Whether a chunk in progress must end at `x` when `x` is its character at
/// position `i`: a sentence end, a clause end once 56 characters are there,
/// or the 82nd character.
pub open spec fn chunk_ends_at(i: int, x: char) -> bool {
    (x == '。' || x == '！' || x == '？' || x == '!' || x == '?' || x == '\n') || (i >= 55 && (x
        == '，' || x == '；' || x == '、' || x == ',' || x == ';')) || i >= 81
}

/// No character where the chunk had to end is both preceded and followed
/// by word characters of the same chunk.
pub open spec fn ends_respected(c: Seq<char>) -> bool {
    forall|k: int, i: int, j: int|
        0 <= k < i < j < c.len() && visible_word_char(#[trigger] c[k]) && chunk_ends_at(
            i,
            #[trigger] c[i],
        ) ==> !visible_word_char(#[trigger] c[j])
}

spec fn progress_ok(cur: Seq<char>) -> bool {
    forall|k: int, i: int|
        0 <= k < i < cur.len() && chunk_ends_at(i, #[trigger] cur[i]) ==> !visible_word_char(
            #[trigger] cur[k],
        )
}

spec fn ends_inv(st: ChunkState, s: Seq<char>) -> bool {
    &&& forall|m: int| 0 <= m < st.0.len() ==> ends_respected(#[trigger] st.0[m])
    &&& progress_ok(st.1)
    &&& forall|m: int| 0 <= m < st.2.len() ==> leading_punctuation(#[trigger] st.2[m])
    &&& (st.0.len() == 0 && all_ws(st.1)) ==> forall|m: int|
        0 <= m < s.len() ==> !visible_word_char(#[trigger] s[m])
}

proof fn lemma_trim_index(x: Seq<char>)
    ensures
        ({
            let off = x.len() - crate::text::trim_start(x).len();
            &&& 0 <= off
            &&& trim(x).len() + off <= x.len()
            &&& forall|i: int| 0 <= i < trim(x).len() ==> #[trigger] trim(x)[i] == x[i + off]
        }),
{
    crate::text::lemma_trim_start_len(x);
    let a = crate::text::trim_start(x);
    crate::text::lemma_trim_end_len(a);
    let off = x.len() - a.len();
    assert forall|i: int| 0 <= i < trim(x).len() implies #[trigger] trim(x)[i] == x[i + off] by {
        assert(trim(x)[i] == a[i]);
        assert(a[i] == x.skip(off)[i]);
    }
}

proof fn lemma_trim_keeps_progress(cur: Seq<char>)
    requires
        progress_ok(cur.drop_last()),
        cur.len() > 0,
    ensures
        ends_respected(trim(cur)),
{
    lemma_trim_index(cur);
    let t = trim(cur);
    let off = cur.len() - crate::text::trim_start(cur).len();
    let p = cur.drop_last();
    assert forall|k: int, i: int, j: int|
        0 <= k < i < j < t.len() && visible_word_char(#[trigger] t[k]) && chunk_ends_at(
            i,
            #[trigger] t[i],
        ) implies !visible_word_char(#[trigger] t[j]) by {
        assert(t[i] == cur[i + off] && t[k] == cur[k + off]);
        assert(i + off < cur.len() - 1);
        assert(p[i + off] == cur[i + off] && p[k + off] == cur[k + off]);
        assert(chunk_ends_at(i + off, p[i + off]));
        assert(!visible_word_char(p[k + off]));
    }
}

proof fn lemma_chunk_state_ends(s: Seq<char>)
    ensures
        ends_inv(chunk_state(s), s),
    decreases s.len(),
{
    if s.len() == 0 {
        return;
    }
    let prefix = s.drop_last();
    let c = s.last();
    lemma_chunk_state_ends(prefix);
    lemma_chunk_state_inv(prefix);
    let st = chunk_state(prefix);
    let chunks = st.0;
    let current = st.1;
    let pending = st.2;
    let next = chunk_step(st, c);
    assert(next == chunk_state(s));
    assert(s =~= prefix.push(c));
    assert forall|m: int| 0 <= m < prefix.len() implies prefix[m] == #[trigger] s[m] by {}
    if all_ws(current) && leading_punctuation(c) {
        assert(!visible_word_char(c));
        assert(progress_ok(Seq::<char>::empty()));
        if chunks.len() > 0 {
            let last = chunks.last();
            let nc = chunks.update(chunks.len() - 1, last.push(c));
            assert(ends_respected(last));
            assert(ends_respected(last.push(c))) by {
                let l2 = last.push(c);
                assert forall|k: int, i: int, j: int|
                    0 <= k < i < j < l2.len() && visible_word_char(#[trigger] l2[k])
                        && chunk_ends_at(i, #[trigger] l2[i]) implies !visible_word_char(
                    #[trigger] l2[j],
                ) by {
                    assert(l2[k] == last[k] && l2[i] == last[i]);
                    if j < last.len() {
                        assert(l2[j] == last[j]);
                    }
                }
            }
            assert forall|m: int| 0 <= m < nc.len() implies ends_respected(#[trigger] nc[m]) by {
                if m < nc.len() - 1 {
                    assert(nc[m] == chunks[m]);
                }
            }
        } else {
            let np = pending.push(c);
            assert forall|m: int| 0 <= m < np.len() implies leading_punctuation(#[trigger] np[m]) by {
                if m < pending.len() {
                    assert(np[m] == pending[m]);
                }
            }
            assert forall|m: int| 0 <= m < s.len() implies !visible_word_char(#[trigger] s[m]) by {
                if m < prefix.len() {
                    assert(s[m] == prefix[m]);
                }
            }
        }
    } else {
        let flush = current.len() == 0 && pending.len() > 0;
        let old = if flush {
            pending
        } else {
            current
        };
        let cur = old.push(c);
        assert(cur.drop_last() =~= old);
        assert(progress_ok(old)) by {
            if flush {
                assert forall|k: int, i: int|
                    0 <= k < i < old.len() && chunk_ends_at(i, #[trigger] old[i])
                        implies !visible_word_char(#[trigger] old[k]) by {
                    assert(leading_punctuation(old[k]));
                }
            }
        }
        if should_break(cur.len(), c) {
            let t = trim(cur);
            lemma_trim_keeps_progress(cur);
            assert(progress_ok(Seq::<char>::empty()));
            if t.len() > 0 {
                let nc = chunks.push(t);
                assert forall|m: int| 0 <= m < nc.len() implies ends_respected(#[trigger] nc[m]) by {
                    if m < chunks.len() {
                        assert(nc[m] == chunks[m]);
                    }
                }
            } else {
                // The finished piece was blank, so `c` is whitespace.
                crate::text::lemma_trim_empty(cur);
                assert(cur[cur.len() - 1] == c);
                assert(is_ws(c));
                assert(!visible_word_char(c));
                if chunks.len() == 0 {
                    assert(all_ws(old)) by {
                        assert forall|m: int| 0 <= m < old.len() implies is_ws(#[trigger] old[m]) by {
                            assert(cur[m] == old[m]);
                        }
                    }
                    assert(!flush) by {
                        if flush {
                            assert(leading_punctuation(pending[0]));
                            assert(is_ws(old[0]));
                            lemma_punct_not_ws(pending[0]);
                        }
                    }
                    assert forall|m: int| 0 <= m < s.len() implies !visible_word_char(#[trigger] s[m]) by {
                        if m < prefix.len() {
                            assert(s[m] == prefix[m]);
                        }
                    }
                }
            }
        } else {
            assert(progress_ok(cur)) by {
                assert forall|k: int, i: int|
                    0 <= k < i < cur.len() && chunk_ends_at(i, #[trigger] cur[i])
                        implies !visible_word_char(#[trigger] cur[k]) by {
                    if i == cur.len() - 1 {
                        assert(cur[i] == c);
                        assert(should_break(cur.len(), c));
                    } else {
                        assert(cur[i] == old[i] && cur[k] == old[k]);
                    }
                }
            }
            if chunks.len() == 0 && all_ws(cur) {
                assert(is_ws(cur[cur.len() - 1]));
                assert(!flush) by {
                    if flush {
                        assert(cur[0] == pending[0]);
                        lemma_punct_not_ws(pending[0]);
                    }
                }
                assert(all_ws(current)) by {
                    assert forall|m: int| 0 <= m < current.len() implies is_ws(#[trigger] current[m]) by {
                        assert(cur[m] == current[m]);
                    }
                }
                assert forall|m: int| 0 <= m < s.len() implies !visible_word_char(#[trigger] s[m]) by {
                    if m < prefix.len() {
                        assert(s[m] == prefix[m]);
                    } else {
                        assert(s[m] == c);
                        assert(cur[cur.len() - 1] == c);
                    }
                }
            }
        }
    }
}

/// Every chunk ends where it must: once a chunk in progress has a sentence
/// end (。！？!? or a line break), a clause end (，；、,;) at its 56th
/// character or later, or reaches 82 characters, no further word character
/// joins that chunk; only punctuation kept with the line before may follow.
/// (Punctuation that opens the whole transcript is carried into the first
/// chunk; the rule counts from the first word character.)
pub proof fn lemma_chunks_end_where_they_must(s: Seq<char>)
    ensures
        forall|m: int| 0 <= m < text_chunks(s).len() ==> ends_respected(#[trigger] text_chunks(s)[m]),
{
    lemma_chunk_state_ends(s);
    lemma_chunk_state_inv(s);
    let st = chunk_state(s);
    let t = trim(st.1);
    let r = text_chunks(s);
    if t.len() > 0 {
        assert(st.1.push('x').drop_last() =~= st.1);
        lemma_trim_index(st.1);
        let off = st.1.len() - crate::text::trim_start(st.1).len();
        assert(ends_respected(t)) by {
            assert forall|k: int, i: int, j: int|
                0 <= k < i < j < t.len() && visible_word_char(#[trigger] t[k]) && chunk_ends_at(
                    i,
                    #[trigger] t[i],
                ) implies !visible_word_char(#[trigger] t[j]) by {
                assert(t[i] == st.1[i + off] && t[k] == st.1[k + off]);
                assert(chunk_ends_at(i + off, st.1[i + off]));
            }
        }
    }
    let chunks = if t.len() > 0 {
        st.0.push(t)
    } else {
        st.0
    };
    assert forall|m: int| 0 <= m < chunks.len() implies ends_respected(#[trigger] chunks[m]) by {
        if m < st.0.len() {
            assert(chunks[m] == st.0[m]);
        }
    }
    if chunks.len() == 0 && trim(s).len() > 0 {
        crate::text::lemma_trim_empty(st.1);
        lemma_trim_index(s);
        let ts = trim(s);
        let off = s.len() - crate::text::trim_start(s).len();
        assert(ends_respected(ts)) by {
            assert forall|k: int, i: int, j: int|
                0 <= k < i < j < ts.len() && visible_word_char(#[trigger] ts[k]) && chunk_ends_at(
                    i,
                    #[trigger] ts[i],
                ) implies !visible_word_char(#[trigger] ts[j]) by {
                assert(ts[k] == s[k + off]);
            }
        }
        assert(r == seq![ts]);
    }
}

// ---------------------------------------------------------------------------
// Cleaning subtitle text
// ---------------------------------------------------------------------------

/// The trimmed, non-empty lines among `ls`.
pub open spec fn kept_lines(ls: Seq<Seq<char>>) -> Seq<Seq<char>>
    decreases ls.len(),
{
    if ls.len() == 0 {
        Seq::empty()
    } else {
        let prev = kept_lines(ls.drop_last());
        if trim(ls.last()).len() > 0 {
            prev.push(trim(ls.last()))
        } else {
            prev
        }
    }
}

pub open spec fn cleaned(s: Seq<char>) -> Seq<char> {
    join(kept_lines(lines(s)), seq!['\n'])
}

pub open spec fn cleaned_one_line(s: Seq<char>) -> Seq<char> {
    join(words(cleaned(s)), seq![' '])
}

/// The characters of `s` that are not white space.
pub open spec fn visible_count(s: Seq<char>) -> nat
    decreases s.len(),
{
    if s.len() == 0 {
        0
    } else {
        visible_count(s.drop_last()) + if crate::text::is_ws(s.last()) {
            0nat
        } else {
            1nat
        }
    }
}

/// How much of a cue's time a subtitle line gets: its visible characters,
/// at least one.
pub open spec fn line_weight(s: Seq<char>) -> nat {
    if visible_count(s) < 1 {
        1
    } else {
        visible_count(s)
    }
}

/// The weight of each subtitle line, in order.
pub fn segment_char_weights(lines: &[String]) -> (r: Vec<usize>)
    ensures
        r@.len() == lines@.len(),
        forall|i: int| 0 <= i < lines@.len() ==> r@[i] == line_weight(#[trigger] lines@[i]@),
{
    let mut out: Vec<usize> = Vec::new();
    let mut i: usize = 0;
    while i < lines.len()
        invariant
            0 <= i <= lines@.len(),
            out@.len() == i,
            forall|k: int| 0 <= k < i ==> out@[k] == line_weight(#[trigger] lines@[k]@),
        decreases lines@.len() - i,
    {
        let v = crate::text::chars_of(lines[i].as_str());
        let mut count: usize = 0;
        let mut j: usize = 0;
        while j < v.len()
            invariant
                0 <= j <= v@.len(),
                v@ == lines@[i as int]@,
                count == visible_count(v@.take(j as int)),
                count <= j,
            decreases v@.len() - j,
        {
            assert(v@.take(j + 1).drop_last() =~= v@.take(j as int));
            if !crate::text::char_is_ws(v[j]) {
                count += 1;
            }
            j += 1;
        }
        assert(v@.take(v@.len() as int) =~= v@);
        out.push(if count < 1 {
            1
        } else {
            count
        });
        i += 1;
    }
    out
}

/// Each line trimmed, blank lines dropped, the rest joined by `\n`.
pub fn clean_subtitle_text(text: &str) -> (r: String)
    ensures
        r@ == cleaned(text@),
{
    let ls = lines_of(text);
    let mut kept: Vec<String> = Vec::new();
    let mut i: usize = 0;
    while i < ls.len()
        invariant
            0 <= i <= ls@.len(),
            views(kept@) == kept_lines(views(ls@).take(i as int)),
        decreases ls@.len() - i,
    {
        assert(views(ls@).take(i + 1).drop_last() =~= views(ls@).take(i as int));
        let t = trim_str(ls[i].as_str());
        if t.as_str().unicode_len() > 0 {
            let ghost before = views(kept@);
            kept.push(t);
            assert(views(kept@) =~= before.push(t@));
        }
        i += 1;
    }
    assert(views(ls@).take(ls@.len() as int) =~= views(ls@));
    let nl = lit("\n");
    proof {
        reveal_strlit("\n");
        assert(nl@ =~= seq!['\n']);
    }
    join_strings(&kept, nl.as_str())
}

/// The cleaned text with every run of whitespace, line breaks included,
/// turned into one space.
pub fn clean_subtitle_text_one_line(text: &str) -> (r: String)
    ensures
        r@ == cleaned_one_line(text@),
{
    let c = clean_subtitle_text(text);
    let v = chars_of(c.as_str());
    collapse_whitespace(v.as_slice())
}

pub open spec fn kept_texts(texts: Seq<Seq<char>>) -> Seq<Seq<char>>
    decreases texts.len(),
{
    if texts.len() == 0 {
        Seq::empty()
    } else {
        let prev = kept_texts(texts.drop_last());
        if cleaned(texts.last()).len() > 0 {
            prev.push(cleaned(texts.last()))
        } else {
            prev
        }
    }
}

/// The cleaned texts of the transcription chunks, empty ones left out,
/// one per line.
pub fn transcript_text_from_chunks(chunk_texts: &[String]) -> (r: String)
    ensures
        r@ == join(kept_texts(views(chunk_texts@)), seq!['\n']),
{
    let mut kept: Vec<String> = Vec::new();
    let mut i: usize = 0;
    while i < chunk_texts.len()
        invariant
            0 <= i <= chunk_texts@.len(),
            views(kept@) == kept_texts(views(chunk_texts@).take(i as int)),
        decreases chunk_texts@.len() - i,
    {
        assert(views(chunk_texts@).take(i + 1).drop_last() =~= views(chunk_texts@).take(
            i as int,
        ));
        let t = clean_subtitle_text(chunk_texts[i].as_str());
        if t.as_str().unicode_len() > 0 {
            let ghost before = views(kept@);
            kept.push(t);
            assert(views(kept@) =~= before.push(t@));
        }
        i += 1;
    }
    assert(views(chunk_texts@).take(chunk_texts@.len() as int) =~= views(chunk_texts@));
    let nl = lit("\n");
    proof {
        reveal_strlit("\n");
        assert(nl@ =~= seq!['\n']);
    }
    join_strings(&kept, nl.as_str())
}

// ---------------------------------------------------------------------------
// Marker text
// ---------------------------------------------------------------------------

/// The text outside `<...>` tags, and whether a tag is still open.
pub open spec fn untagged_state(s: Seq<char>) -> (Seq<char>, bool)
    decreases s.len(),
{
    if s.len() == 0 {
        (Seq::empty(), false)
    } else {
        let prev = untagged_state(s.drop_last());
        let c = s.last();
        if c == '<' {
            (prev.0, true)
        } else if c == '>' && prev.1 {
            (prev.0, false)
        } else if !prev.1 {
            (prev.0.push(c), prev.1)
        } else {
            prev
        }
    }
}

/// Marker text: tags removed, `|` replaced by `/`, whitespace collapsed to
/// single spaces; a placeholder when nothing is left; cut to `max_length - 1`
/// characters plus `...` when longer than `max_length`.
pub open spec fn marker_text(s: Seq<char>, max_length: nat) -> Seq<char> {
    let one_line = join(words(replace(untagged_state(s).0, seq!['|'], seq!['/'])), seq![' ']);
    if one_line.len() == 0 {
        "Subtitle marker"@
    } else if one_line.len() > max_length {
        let keep = if max_length >= 1 {
            (max_length - 1) as nat
        } else {
            0nat
        };
        trim_end(one_line.take(keep as int)) + "..."@
    } else {
        one_line
    }
}

/// Text that fits on one marker line: no `|` and no line break.
pub open spec fn marker_safe(s: Seq<char>) -> bool {
    forall|i: int| 0 <= i < s.len() ==> #[trigger] s[i] != '|' && s[i] != '\n'
}

proof fn lemma_replace_bar(s: Seq<char>)
    ensures
        forall|i: int| 0 <= i < replace(s, seq!['|'], seq!['/']).len() ==> #[trigger] replace(
            s,
            seq!['|'],
            seq!['/'],
        )[i] != '|',
    decreases s.len(),
{
    let r = replace(s, seq!['|'], seq!['/']);
    if s.len() >= 1 {
        lemma_replace_bar(s.drop_first());
        let rest = replace(s.drop_first(), seq!['|'], seq!['/']);
        if s.subrange(0, 1) == seq!['|'] {
            assert(s.skip(1) =~= s.drop_first());
            assert forall|i: int| 0 <= i < r.len() implies #[trigger] r[i] != '|' by {
                if i > 0 {
                    assert(r[i] == rest[i - 1]);
                }
            }
        } else {
            assert(s.subrange(0, 1) =~= seq![s[0]]);
            assert forall|i: int| 0 <= i < r.len() implies #[trigger] r[i] != '|' by {
                if i > 0 {
                    assert(r[i] == rest[i - 1]);
                }
            }
        }
    }
}

proof fn lemma_words_state_safe(s: Seq<char>)
    requires
        forall|i: int| 0 <= i < s.len() ==> #[trigger] s[i] != '|',
    ensures
        forall|k: int| 0 <= k < words_state(s).0.len() ==> marker_safe(#[trigger] words_state(s).0[k]),
        marker_safe(words_state(s).1),
    decreases s.len(),
{
    if s.len() > 0 {
        let p = s.drop_last();
        assert forall|i: int| 0 <= i < p.len() implies #[trigger] p[i] != '|' by {
            assert(p[i] == s[i]);
        }
        lemma_words_state_safe(p);
        let prev = words_state(p);
        let st = words_state(s);
        let c = s.last();
        assert(is_ws('\n'));
        if is_ws(c) {
            if prev.1.len() > 0 {
                assert forall|k: int| 0 <= k < st.0.len() implies marker_safe(#[trigger] st.0[k]) by {
                    if k < prev.0.len() {
                        assert(st.0[k] == prev.0[k]);
                    }
                }
            }
        } else {
            assert forall|i: int| 0 <= i < st.1.len() implies #[trigger] st.1[i] != '|' && st.1[i]
                != '\n' by {
                if i < prev.1.len() {
                    assert(st.1[i] == prev.1[i]);
                }
            }
        }
    }
}

proof fn lemma_join_safe(parts: Seq<Seq<char>>)
    requires
        forall|k: int| 0 <= k < parts.len() ==> marker_safe(#[trigger] parts[k]),
    ensures
        marker_safe(join(parts, seq![' '])),
    decreases parts.len(),
{
    if parts.len() > 1 {
        let init = parts.drop_last();
        assert forall|k: int| 0 <= k < init.len() implies marker_safe(#[trigger] init[k]) by {
            assert(init[k] == parts[k]);
        }
        lemma_join_safe(init);
        let a = join(init, seq![' ']);
        let b = parts.last();
        assert(marker_safe(b));
        let j = a + seq![' '] + b;
        assert forall|i: int| 0 <= i < j.len() implies #[trigger] j[i] != '|' && j[i] != '\n' by {
            if i < a.len() {
                assert(j[i] == a[i]);
            } else if i == a.len() {
                assert(j[i] == ' ');
            } else {
                assert(j[i] == b[i - a.len() - 1]);
            }
        }
    } else if parts.len() == 1 {
        assert(marker_safe(parts[0]));
    }
}

proof fn lemma_trim_end_safe(s: Seq<char>)
    requires
        marker_safe(s),
    ensures
        marker_safe(trim_end(s)),
    decreases s.len(),
{
    if s.len() > 0 && is_ws(s.last()) {
        assert forall|i: int| 0 <= i < s.drop_last().len() implies #[trigger] s.drop_last()[i] != '|'
            && s.drop_last()[i] != '\n' by {
            assert(s.drop_last()[i] == s[i]);
        }
        lemma_trim_end_safe(s.drop_last());
    }
}

/// A marker's text is never empty and stays on one line of the marker list:
/// it holds no `|` and no line break.
pub proof fn lemma_marker_text_one_line(s: Seq<char>, max_length: nat)
    ensures
        marker_text(s, max_length).len() > 0,
        marker_safe(marker_text(s, max_length)),
{
    let r = replace(untagged_state(s).0, seq!['|'], seq!['/']);
    lemma_replace_bar(untagged_state(s).0);
    lemma_words_state_safe(r);
    let ws = words(r);
    assert forall|k: int| 0 <= k < ws.len() implies marker_safe(#[trigger] ws[k]) by {
        let st = words_state(r);
        if st.1.len() > 0 && k == st.0.len() {
            assert(ws[k] == st.1);
        } else {
            assert(ws[k] == st.0[k]);
        }
    }
    lemma_join_safe(ws);
    let one_line = join(ws, seq![' ']);
    reveal_strlit("Subtitle marker");
    reveal_strlit("...");
    assert(marker_safe("Subtitle marker"@));
    assert(marker_safe("..."@));
    if one_line.len() > max_length && one_line.len() > 0 {
        let keep: nat = if max_length >= 1 {
            (max_length - 1) as nat
        } else {
            0nat
        };
        let cut = one_line.take(keep as int);
        assert forall|i: int| 0 <= i < cut.len() implies #[trigger] cut[i] != '|' && cut[i] != '\n' by {
            assert(cut[i] == one_line[i]);
        }
        lemma_trim_end_safe(cut);
        let t = trim_end(cut);
        let m = t + "..."@;
        assert forall|i: int| 0 <= i < m.len() implies #[trigger] m[i] != '|' && m[i] != '\n' by {
            if i < t.len() {
                assert(m[i] == t[i]);
            } else {
                assert(m[i] == "..."@[i - t.len()]);
            }
        }
    }
}

pub fn clean_resolve_marker_text(text: &str, max_length: usize) -> (r: String)
    ensures
        r@ == marker_text(text@, max_length as nat),
{
    let v = chars_of(text);
    let mut without_tags = String::new();
    let mut in_tag = false;
    let mut i: usize = 0;
    while i < v.len()
        invariant
            0 <= i <= v@.len(),
            v@ == text@,
            (without_tags@, in_tag) == untagged_state(v@.take(i as int)),
        decreases v@.len() - i,
    {
        assert(v@.take(i + 1).drop_last() =~= v@.take(i as int));
        let c = v[i];
        if c == '<' {
            in_tag = true;
        } else if c == '>' && in_tag {
            in_tag = false;
        } else if !in_tag {
            push_char(&mut without_tags, c);
        }
        i += 1;
    }
    assert(v@.take(v@.len() as int) =~= v@);
    let bar = lit("|");
    let slash = lit("/");
    proof {
        reveal_strlit("|");
        reveal_strlit("/");
        assert(bar@ =~= seq!['|']);
        assert(slash@ =~= seq!['/']);
    }
    let replaced = replace_str(without_tags.as_str(), bar.as_str(), slash.as_str());
    let rv = chars_of(replaced.as_str());
    let one_line = collapse_whitespace(rv.as_slice());
    let count = one_line.as_str().unicode_len();
    if count == 0 {
        return lit("Subtitle marker");
    }
    if count > max_length {
        let keep = max_length.saturating_sub(1);
        let ov = chars_of(one_line.as_str());
        let mut taken: Vec<char> = Vec::new();
        let mut k: usize = 0;
        while k < keep
            invariant
                0 <= k <= keep,
                keep < ov@.len(),
                taken@ == ov@.take(k as int),
            decreases keep - k,
        {
            taken.push(ov[k]);
            assert(ov@.take(k + 1) =~= ov@.take(k as int).push(ov@[k as int]));
            k += 1;
        }
        let cut = trim_end_vec(taken.as_slice());
        let mut out = string_of(cut.as_slice());
        append_str(&mut out, "...");
        return out;
    }
    one_line
}

// ---------------------------------------------------------------------------
// Timecodes
// ---------------------------------------------------------------------------

/// Frames per second of the editing timeline the outputs target.
pub const DAVINCI_TIMECODE_FPS: u64 = 25;

pub open spec fn two_digits(n: nat) -> Seq<char> {
    zero_pad(decimal(n), 2)
}

/// `HH:MM:SS:FF` for a frame count at 25 frames per second.
pub open spec fn timecode(frames: nat) -> Seq<char> {
    let per_hour = 25 * 3600nat;
    let per_minute = 25 * 60nat;
    let rem = frames % per_hour;
    let rem2 = rem % per_minute;
    two_digits(frames / per_hour) + seq![':'] + two_digits(rem / per_minute) + seq![':']
        + two_digits(rem2 / 25) + seq![':'] + two_digits(rem2 % 25)
}

/// `HH:MM:SS,mmm` for a time in milliseconds.
pub open spec fn srt_time(millis: nat) -> Seq<char> {
    two_digits(millis / 3_600_000) + seq![':'] + two_digits((millis % 3_600_000) / 60_000) + seq![
        ':',
    ] + two_digits((millis % 60_000) / 1000) + seq![','] + zero_pad(decimal(millis % 1000), 3)
}

fn colon() -> (r: String)
    ensures
        r@ == seq![':'],
{
    let r = lit(":");
    proof {
        reveal_strlit(":");
    }
    r
}

pub fn frames_to_davinci_timecode(frames: u64) -> (r: String)
    ensures
        r@ == timecode(frames as nat),
{
    let per_hour = DAVINCI_TIMECODE_FPS * 60 * 60;
    let per_minute = DAVINCI_TIMECODE_FPS * 60;
    let hours = frames / per_hour;
    let remainder = frames % per_hour;
    let minutes = remainder / per_minute;
    let remainder = remainder % per_minute;
    let seconds = remainder / DAVINCI_TIMECODE_FPS;
    let frame = remainder % DAVINCI_TIMECODE_FPS;
    let sep = colon();
    let mut r = zero_padded(hours, 2);
    append_str(&mut r, sep.as_str());
    append_str(&mut r, zero_padded(minutes, 2).as_str());
    append_str(&mut r, sep.as_str());
    append_str(&mut r, zero_padded(seconds, 2).as_str());
    append_str(&mut r, sep.as_str());
    append_str(&mut r, zero_padded(frame, 2).as_str());
    r
}

pub fn srt_timestamp(millis: u64) -> (r: String)
    ensures
        r@ == srt_time(millis as nat),
{
    let sep = colon();
    let comma = lit(",");
    proof {
        reveal_strlit(",");
    }
    let mut r = zero_padded(millis / 3_600_000, 2);
    append_str(&mut r, sep.as_str());
    append_str(&mut r, zero_padded((millis % 3_600_000) / 60_000, 2).as_str());
    append_str(&mut r, sep.as_str());
    append_str(&mut r, zero_padded((millis % 60_000) / 1000, 2).as_str());
    append_str(&mut r, comma.as_str());
    append_str(&mut r, zero_padded(millis % 1000, 3).as_str());
    r
}

// ---------------------------------------------------------------------------
// Subtitle outputs
// ---------------------------------------------------------------------------

/// A subtitle entry whose start and end are whole frames (timeline and marker
/// outputs) or whole milliseconds (SRT), as the output being written needs.
pub struct SubtitleCue {
    pub text: String,
    pub start: u64,
    pub end: u64,
}

pub open spec fn timeline_entries(cues: Seq<SubtitleCue>) -> Seq<Seq<char>>
    decreases cues.len(),
{
    if cues.len() == 0 {
        Seq::empty()
    } else {
        let prev = timeline_entries(cues.drop_last());
        let c = cues.last();
        let text = cleaned(c.text@);
        if text.len() > 0 {
            prev.push(
                seq!['['] + timecode(c.start as nat) + " --> "@ + timecode(c.end as nat) + seq![
                    ']',
                    '\n',
                ] + text,
            )
        } else {
            prev
        }
    }
}

pub open spec fn timeline_txt_entries(cues: Seq<SubtitleCue>) -> Seq<Seq<char>>
    decreases cues.len(),
{
    if cues.len() == 0 {
        Seq::empty()
    } else {
        let prev = timeline_txt_entries(cues.drop_last());
        let c = cues.last();
        let text = cleaned_one_line(c.text@);
        if text.len() > 0 {
            prev.push(
                seq!['['] + timecode(c.start as nat) + " --> "@ + timecode(c.end as nat) + seq![
                    ']',
                    ' ',
                ] + text,
            )
        } else {
            prev
        }
    }
}

pub open spec fn srt_entries(cues: Seq<SubtitleCue>) -> Seq<Seq<char>>
    decreases cues.len(),
{
    if cues.len() == 0 {
        Seq::empty()
    } else {
        let prev = srt_entries(cues.drop_last());
        let c = cues.last();
        let text = cleaned(c.text@);
        if text.len() > 0 {
            prev.push(
                decimal(prev.len() + 1) + seq!['\n'] + srt_time(c.start as nat) + " --> "@
                    + srt_time(c.end as nat) + seq!['\n'] + text,
            )
        } else {
            prev
        }
    }
}

fn timeline_head(start: u64, end: u64, close: &str) -> (r: String)
    ensures
        r@ == seq!['['] + timecode(start as nat) + " --> "@ + timecode(end as nat) + close@,
{
    let mut r = lit("[");
    proof {
        reveal_strlit("[");
    }
    append_str(&mut r, frames_to_davinci_timecode(start).as_str());
    append_str(&mut r, " --> ");
    append_str(&mut r, frames_to_davinci_timecode(end).as_str());
    append_str(&mut r, close);
    r
}

/// `[start --> end]` and the cleaned text on the next line, for each cue with
/// text; times are frames.
pub fn timeline_text_from_segments(segments: &[SubtitleCue]) -> (r: String)
    ensures
        r@ == join(timeline_entries(segments@), seq!['\n']),
{
    let close = lit("]\n");
    proof {
        reveal_strlit("]\n");
    }
    let mut entries: Vec<String> = Vec::new();
    let mut i: usize = 0;
    while i < segments.len()
        invariant
            0 <= i <= segments@.len(),
            close@ == seq![']', '\n'],
            views(entries@) == timeline_entries(segments@.take(i as int)),
        decreases segments@.len() - i,
    {
        assert(segments@.take(i + 1).drop_last() =~= segments@.take(i as int));
        let cue = &segments[i];
        let text = clean_subtitle_text(cue.text.as_str());
        if text.as_str().unicode_len() > 0 {
            let mut entry = timeline_head(cue.start, cue.end, close.as_str());
            append_str(&mut entry, text.as_str());
            let ghost before = views(entries@);
            entries.push(entry);
            assert(views(entries@) =~= before.push(entry@));
        }
        i += 1;
    }
    assert(segments@.take(segments@.len() as int) =~= segments@);
    let nl = lit("\n");
    proof {
        reveal_strlit("\n");
        assert(nl@ =~= seq!['\n']);
    }
    join_strings(&entries, nl.as_str())
}

/// `[start --> end] text` on one line for each cue with text; times are frames.
pub fn timeline_txt_text_from_segments(segments: &[SubtitleCue]) -> (r: String)
    ensures
        r@ == join(timeline_txt_entries(segments@), seq!['\n']),
{
    let close = lit("] ");
    proof {
        reveal_strlit("] ");
    }
    let mut entries: Vec<String> = Vec::new();
    let mut i: usize = 0;
    while i < segments.len()
        invariant
            0 <= i <= segments@.len(),
            close@ == seq![']', ' '],
            views(entries@) == timeline_txt_entries(segments@.take(i as int)),
        decreases segments@.len() - i,
    {
        assert(segments@.take(i + 1).drop_last() =~= segments@.take(i as int));
        let cue = &segments[i];
        let text = clean_subtitle_text_one_line(cue.text.as_str());
        if text.as_str().unicode_len() > 0 {
            let mut entry = timeline_head(cue.start, cue.end, close.as_str());
            append_str(&mut entry, text.as_str());
            let ghost before = views(entries@);
            entries.push(entry);
            assert(views(entries@) =~= before.push(entry@));
        }
        i += 1;
    }
    assert(segments@.take(segments@.len() as int) =~= segments@);
    let nl = lit("\n");
    proof {
        reveal_strlit("\n");
        assert(nl@ =~= seq!['\n']);
    }
    join_strings(&entries, nl.as_str())
}

/// Numbered SRT entries for the cues with text, separated by blank lines;
/// times are milliseconds.
pub fn srt_text_from_segments(segments: &[SubtitleCue]) -> (r: String)
    ensures
        r@ == join(srt_entries(segments@), seq!['\n', '\n']),
{
    let nl = lit("\n");
    proof {
        reveal_strlit("\n");
    }
    let mut entries: Vec<String> = Vec::new();
    let mut i: usize = 0;
    while i < segments.len()
        invariant
            0 <= i <= segments@.len(),
            nl@ == seq!['\n'],
            views(entries@) == srt_entries(segments@.take(i as int)),
            entries@.len() <= i,
        decreases segments@.len() - i,
    {
        assert(segments@.take(i + 1).drop_last() =~= segments@.take(i as int));
        let cue = &segments[i];
        let text = clean_subtitle_text(cue.text.as_str());
        if text.as_str().unicode_len() > 0 {
            let mut entry = decimal_string((entries.len() + 1) as u64);
            append_str(&mut entry, nl.as_str());
            append_str(&mut entry, srt_timestamp(cue.start).as_str());
            append_str(&mut entry, " --> ");
            append_str(&mut entry, srt_timestamp(cue.end).as_str());
            append_str(&mut entry, nl.as_str());
            append_str(&mut entry, text.as_str());
            let ghost before = views(entries@);
            entries.push(entry);
            assert(views(entries@) =~= before.push(entry@));
        }
        i += 1;
    }
    assert(segments@.take(segments@.len() as int) =~= segments@);
    let sep = lit("\n\n");
    proof {
        reveal_strlit("\n\n");
        assert(sep@ =~= seq!['\n', '\n']);
    }
    join_strings(&entries, sep.as_str())
}

/// Frame at which the marker timeline starts (one hour in).
pub const TIMELINE_START_FRAMES: u64 = 90000;

/// Longest marker text.
pub const MAX_MARKER_TEXT_LENGTH: usize = 180;

pub open spec fn edl_event_line(index: nat, start: nat) -> Seq<char> {
    let s = timecode((TIMELINE_START_FRAMES + start) as nat);
    let e = timecode((TIMELINE_START_FRAMES + start + 1) as nat);
    zero_pad(decimal(index + 1), 3) + "  001      V     C        "@ + s + seq![' '] + e + seq![' ']
        + s + seq![' '] + e
}

pub open spec fn edl_comment_line(text: Seq<char>) -> Seq<char> {
    " |C:ResolveColorYellow |M:"@ + marker_text(text, MAX_MARKER_TEXT_LENGTH as nat) + " |D:1"@
}

pub open spec fn edl_events(cues: Seq<SubtitleCue>) -> Seq<Seq<char>>
    decreases cues.len(),
{
    if cues.len() == 0 {
        Seq::empty()
    } else {
        let c = cues.last();
        edl_events(cues.drop_last()) + seq![
            edl_event_line((cues.len() - 1) as nat, c.start as nat),
            edl_comment_line(c.text@),
            Seq::empty(),
        ]
    }
}

pub open spec fn marker_edl(title: Seq<char>, cues: Seq<SubtitleCue>) -> Seq<char> {
    join(seq!["TITLE: "@ + title, "FCM: NON-DROP FRAME"@, Seq::empty()] + edl_events(cues), seq!['\n'])
}

fn edl_event(index: usize, start: u64) -> (r: String)
    requires
        start + TIMELINE_START_FRAMES + 1 <= u64::MAX,
        index < usize::MAX,
    ensures
        r@ == edl_event_line(index as nat, start as nat),
{
    let sp = lit(" ");
    proof {
        reveal_strlit(" ");
        assert(sp@ =~= seq![' ']);
    }
    let start_frame = TIMELINE_START_FRAMES + start;
    let start_tc = frames_to_davinci_timecode(start_frame);
    let end_tc = frames_to_davinci_timecode(start_frame + 1);
    let mut event = zero_padded((index + 1) as u64, 3);
    append_str(&mut event, "  001      V     C        ");
    append_str(&mut event, start_tc.as_str());
    append_str(&mut event, sp.as_str());
    append_str(&mut event, end_tc.as_str());
    append_str(&mut event, sp.as_str());
    append_str(&mut event, start_tc.as_str());
    append_str(&mut event, sp.as_str());
    append_str(&mut event, end_tc.as_str());
    event
}

fn edl_comment(text: &str) -> (r: String)
    ensures
        r@ == edl_comment_line(text@),
{
    let mut comment = lit(" |C:ResolveColorYellow |M:");
    append_str(&mut comment, clean_resolve_marker_text(text, MAX_MARKER_TEXT_LENGTH).as_str());
    append_str(&mut comment, " |D:1");
    comment
}

/// An edit decision list with one one-frame marker per cue, each carrying the
/// cue's text; cue starts are frames from the timeline start. Every marker
/// lasts one frame, the shortest the list allows.
pub fn resolve_marker_edl_from_segments(title: &str, segments: &[SubtitleCue]) -> (r: String)
    requires
        forall|i: int|
            0 <= i < segments@.len() ==> #[trigger] segments@[i].start + TIMELINE_START_FRAMES
                + 1 <= u64::MAX,
    ensures
        r@ == marker_edl(title@, segments@),
{
    let mut lines: Vec<String> = Vec::new();
    let mut head = lit("TITLE: ");
    append_str(&mut head, title);
    lines.push(head);
    lines.push(lit("FCM: NON-DROP FRAME"));
    lines.push(String::new());
    assert(views(lines@) =~= seq!["TITLE: "@ + title@, "FCM: NON-DROP FRAME"@, Seq::empty()]);
    let ghost header = views(lines@);
    let mut i: usize = 0;
    while i < segments.len()
        invariant
            0 <= i <= segments@.len(),
            header == seq!["TITLE: "@ + title@, "FCM: NON-DROP FRAME"@, Seq::<char>::empty()],
            forall|k: int|
                0 <= k < segments@.len() ==> #[trigger] segments@[k].start + TIMELINE_START_FRAMES
                    + 1 <= u64::MAX,
            views(lines@) == header + edl_events(segments@.take(i as int)),
        decreases segments@.len() - i,
    {
        assert(segments@.take(i + 1).drop_last() =~= segments@.take(i as int));
        let cue = &segments[i];
        assert(segments@[i as int].start + TIMELINE_START_FRAMES + 1 <= u64::MAX);
        let event = edl_event(i, cue.start);
        let comment = edl_comment(cue.text.as_str());
        let ghost before = views(lines@);
        lines.push(event);
        lines.push(comment);
        lines.push(String::new());
        assert(views(lines@) =~= before + seq![event@, comment@, Seq::<char>::empty()]);
        assert(segments@.take(i + 1).len() - 1 == i);
        i += 1;
    }
    assert(segments@.take(segments@.len() as int) =~= segments@);
    let nl = lit("\n");
    proof {
        reveal_strlit("\n");
        assert(nl@ =~= seq!['\n']);
    }
    join_strings(&lines, nl.as_str())
}

} // verus!
