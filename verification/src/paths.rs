//! Windows-style path text.
//!
//! Hi-Voicer targets Windows desktops, so paths are handled as text with the
//! Windows rules: `\` and `/` both separate components, a leading `X:` is a drive
//! prefix, and new components are joined with `\`. As with `Path`, empty and
//! `.` components are ignored (a `.` that opens a relative path stays), so two
//! paths are the same path when their prefix, root and components agree.
use vstd::prelude::*;
use crate::text::{append_str, chars_of, lit, push_char, str_eq, string_of_range, views};

verus! {

pub open spec fn is_sep(c: char) -> bool {
    c == '\\' || c == '/'
}

pub open spec fn is_ascii_alpha(c: char) -> bool {
    ('a' <= c && c <= 'z') || ('A' <= c && c <= 'Z')
}

/// Length of a leading drive prefix such as `C:` (2), else 0.
pub open spec fn drive_len(s: Seq<char>) -> int {
    if s.len() >= 2 && s[1] == ':' && is_ascii_alpha(s[0]) {
        2
    } else {
        0
    }
}

pub open spec fn is_bare_drive(s: Seq<char>) -> bool {
    s.len() == 2 && drive_len(s) == 2
}

pub open spec fn strip_trailing_seps(s: Seq<char>) -> Seq<char>
    decreases s.len(),
{
    if s.len() > 0 && is_sep(s.last()) {
        strip_trailing_seps(s.drop_last())
    } else {
        s
    }
}

/// Position just after the last separator of `s`, or 0.
pub open spec fn last_sep_end(s: Seq<char>) -> int
    decreases s.len(),
{
    if s.len() == 0 {
        0
    } else if is_sep(s.last()) {
        s.len() as int
    } else {
        last_sep_end(s.drop_last())
    }
}

/// Where the final component of `s` starts (after the last separator and
/// after a drive prefix).
pub open spec fn name_start(s: Seq<char>) -> int {
    let k = last_sep_end(s);
    if k < drive_len(s) {
        drive_len(s)
    } else {
        k
    }
}

pub proof fn lemma_strip_trailing_seps_len(s: Seq<char>)
    ensures
        strip_trailing_seps(s).len() <= s.len(),
        strip_trailing_seps(s) == s.take(strip_trailing_seps(s).len() as int),
    decreases s.len(),
{
    if s.len() > 0 && is_sep(s.last()) {
        lemma_strip_trailing_seps_len(s.drop_last());
        assert(s.drop_last().take(strip_trailing_seps(s).len() as int) =~= s.take(
            strip_trailing_seps(s).len() as int,
        ));
    } else {
        assert(s.take(s.len() as int) =~= s);
    }
}

pub proof fn lemma_last_sep_end_len(s: Seq<char>)
    ensures
        0 <= last_sep_end(s) <= s.len(),
        last_sep_end(s) > 0 ==> is_sep(s[last_sep_end(s) - 1]),
    decreases s.len(),
{
    if s.len() > 0 && !is_sep(s.last()) {
        lemma_last_sep_end_len(s.drop_last());
    }
}

/// Whether `t` ends in a `.` component that `Path` ignores: a `.` after a
/// separator (one that opens a relative path counts).
pub open spec fn ends_in_cur_dir(t: Seq<char>) -> bool {
    t.len() > 0 && t.last() == '.' && name_start(t) == t.len() - 1 && name_start(t) > drive_len(t)
}

/// `s` without trailing separators and trailing `.` components.
pub open spec fn trim_tail(s: Seq<char>) -> Seq<char>
    decreases s.len(),
{
    let t = strip_trailing_seps(s);
    if ends_in_cur_dir(t) {
        proof {
            lemma_strip_trailing_seps_len(s);
        }
        trim_tail(t.take(t.len() - 1))
    } else {
        t
    }
}

/// `Path::file_name`: the final component, trailing separators and `.`
/// components ignored; none for an empty path, a root, a bare drive, `.` or
/// `..`.
pub open spec fn file_name(p: Seq<char>) -> Option<Seq<char>> {
    let t = trim_tail(p);
    let name = t.skip(name_start(t));
    if name.len() == 0 || name == seq!['.', '.'] || name == seq!['.'] {
        None
    } else {
        Some(name)
    }
}

/// Length of the prefix and root of `s` (`C:\` is 3, `\` 1, `C:` 2).
pub open spec fn root_len(s: Seq<char>) -> int {
    if s.len() > drive_len(s) && is_sep(s[drive_len(s)]) {
        drive_len(s) + 1
    } else {
        drive_len(s)
    }
}

/// `Path::parent`: the path without its final component, trailing
/// separators and `.` components removed unless only the prefix and root
/// remain.
pub open spec fn parent(p: Seq<char>) -> Option<Seq<char>> {
    let t = trim_tail(p);
    let k = name_start(t);
    let head = t.take(k);
    if t.skip(k).len() == 0 {
        None
    } else if trim_tail(head).len() as int <= drive_len(head) {
        Some(head.take(root_len(head)))
    } else {
        Some(trim_tail(head))
    }
}

/// The non-empty pieces of `s` between separators, without `.` pieces.
pub open spec fn normal_parts(s: Seq<char>) -> Seq<Seq<char>>
    decreases s.len(),
{
    if s.len() == 0 {
        Seq::empty()
    } else {
        let k = last_sep_end(s);
        let piece = s.skip(k);
        proof {
            lemma_last_sep_end_len(s);
        }
        let rest = if k > 0 {
            normal_parts(s.take(k - 1))
        } else {
            Seq::empty()
        };
        if piece.len() == 0 || piece == seq!['.'] {
            rest
        } else {
            rest.push(piece)
        }
    }
}

/// What `Path` compares: the prefix, whether there is a root, and the
/// components (a `.` that opens a relative path is kept as a component).
pub open spec fn path_key(p: Seq<char>) -> (Seq<char>, bool, Seq<Seq<char>>) {
    let d = drive_len(p);
    let rest = p.skip(d);
    let root = rest.len() > 0 && is_sep(rest[0]);
    let lead_dot = !root && rest.len() > 0 && rest[0] == '.' && (rest.len() == 1 || is_sep(
        rest[1],
    ));
    let lead = if lead_dot {
        seq![seq!['.']]
    } else {
        Seq::empty()
    };
    (p.take(d), root, lead + normal_parts(rest))
}

/// `a` and `b` name the same path as `Path`'s `==` sees it.
pub open spec fn same_path(a: Seq<char>, b: Seq<char>) -> bool {
    path_key(a) == path_key(b)
}

/// `PathBuf::push` / `Path::join`.
pub open spec fn join(base: Seq<char>, name: Seq<char>) -> Seq<char> {
    if drive_len(name) == 2 {
        name
    } else if name.len() > 0 && is_sep(name[0]) {
        base.take(drive_len(base)) + name
    } else if base.len() > 0 && !is_sep(base.last()) && !is_bare_drive(base) {
        base + seq!['\\'] + name
    } else {
        base + name
    }
}

/// Position of the dot that starts an extension in a file name, if any
/// (the last dot, when it is not the first character).
pub open spec fn ext_dot(name: Seq<char>) -> Option<int>
    decreases name.len(),
{
    if name.len() <= 1 {
        None
    } else if name.last() == '.' {
        Some(name.len() - 1)
    } else {
        ext_dot(name.drop_last())
    }
}

/// `Path::file_stem`.
pub open spec fn file_stem(p: Seq<char>) -> Option<Seq<char>> {
    match file_name(p) {
        None => None,
        Some(name) => match ext_dot(name) {
            None => Some(name),
            Some(d) => Some(name.take(d)),
        },
    }
}

/// `Path::extension`.
pub open spec fn extension(p: Seq<char>) -> Option<Seq<char>> {
    match file_name(p) {
        None => None,
        Some(name) => match ext_dot(name) {
            None => None,
            Some(d) => Some(name.skip(d + 1)),
        },
    }
}

// ---------------------------------------------------------------------------
// Executable counterparts
// ---------------------------------------------------------------------------

pub fn char_is_sep(c: char) -> (r: bool)
    ensures
        r == is_sep(c),
{
    c == '\\' || c == '/'
}

fn drive_len_exec(s: &[char]) -> (r: usize)
    ensures
        r as int == drive_len(s@),
{
    if s.len() >= 2 && s[1] == ':' && (('a' <= s[0] && s[0] <= 'z') || ('A' <= s[0] && s[0]
        <= 'Z')) {
        2
    } else {
        0
    }
}

fn strip_trailing_seps_len(s: &[char], to: usize) -> (r: usize)
    requires
        to <= s@.len(),
    ensures
        r <= to,
        strip_trailing_seps(s@.take(to as int)) == s@.take(r as int),
{
    let mut j = to;
    while j > 0 && char_is_sep(s[j - 1])
        invariant
            j <= to <= s@.len(),
            strip_trailing_seps(s@.take(to as int)) == strip_trailing_seps(s@.take(j as int)),
        decreases j,
    {
        assert(s@.take(j as int).drop_last() =~= s@.take(j - 1));
        j -= 1;
    }
    if j > 0 {
        assert(s@.take(j as int).last() == s@[j - 1]);
    }
    j
}

fn last_sep_end_exec(s: &[char], to: usize) -> (r: usize)
    requires
        to <= s@.len(),
    ensures
        r <= to,
        r as int == last_sep_end(s@.take(to as int)),
{
    let mut j = to;
    while j > 0 && !char_is_sep(s[j - 1])
        invariant
            j <= to <= s@.len(),
            last_sep_end(s@.take(to as int)) == last_sep_end(s@.take(j as int)),
        decreases j,
    {
        assert(s@.take(j as int).drop_last() =~= s@.take(j - 1));
        j -= 1;
    }
    if j > 0 {
        assert(s@.take(j as int).last() == s@[j - 1]);
    }
    j
}

fn drive_len_of_prefix(s: &[char], t: usize) -> (r: usize)
    requires
        t <= s@.len(),
    ensures
        r as int == drive_len(s@.take(t as int)),
        r <= t,
{
    let d = drive_len_exec(s);
    proof {
        if t >= 2 {
            assert(s@.take(t as int)[0] == s@[0] && s@.take(t as int)[1] == s@[1]);
        }
    }
    if t >= 2 {
        d
    } else {
        0
    }
}

fn name_start_of_prefix(s: &[char], t: usize) -> (r: usize)
    requires
        t <= s@.len(),
    ensures
        r as int == name_start(s@.take(t as int)),
        r <= t,
{
    let k = last_sep_end_exec(s, t);
    let d = drive_len_of_prefix(s, t);
    if k < d {
        d
    } else {
        k
    }
}

/// The length of `trim_tail` of the first `to` characters of `s`.
fn trim_tail_len(s: &[char], to: usize) -> (r: usize)
    requires
        to <= s@.len(),
    ensures
        r <= to,
        trim_tail(s@.take(to as int)) == s@.take(r as int),
{
    let mut j = to;
    loop
        invariant
            j <= to <= s@.len(),
            trim_tail(s@.take(to as int)) == trim_tail(s@.take(j as int)),
        decreases j,
    {
        let t = strip_trailing_seps_len(s, j);
        let k = name_start_of_prefix(s, t);
        let d = drive_len_of_prefix(s, t);
        let ghost ts = s@.take(t as int);
        assert(ts.take(t as int) =~= ts);
        if t > 0 && s[t - 1] == '.' && k == t - 1 && k > d {
            assert(ends_in_cur_dir(ts));
            assert(ts.take(t - 1) =~= s@.take(t - 1));
            j = t - 1;
        } else {
            proof {
                if t > 0 {
                    assert(ts.last() == s@[t - 1]);
                }
            }
            assert(!ends_in_cur_dir(ts));
            return t;
        }
    }
}

/// The trimmed length `t` of `p` and where its final component starts.
fn split_last_component(p: &[char]) -> (r: (usize, usize))
    ensures
        r.1 <= r.0 <= p@.len(),
        trim_tail(p@) == p@.take(r.0 as int),
        r.1 as int == name_start(p@.take(r.0 as int)),
{
    assert(p@.take(p@.len() as int) =~= p@);
    let t = trim_tail_len(p, p.len());
    let k = name_start_of_prefix(p, t);
    (t, k)
}

pub fn file_name_exec(p: &str) -> (r: Option<String>)
    ensures
        r matches Some(n) ==> file_name(p@) == Some(n@),
        r is None ==> file_name(p@) is None,
{
    let v = chars_of(p);
    let (t, k) = split_last_component(v.as_slice());
    let ghost ts = v@.take(t as int);
    let ghost name = v@.subrange(k as int, t as int);
    assert(ts.skip(k as int) =~= name);
    if k == t || (t - k == 2 && v[k] == '.' && v[k + 1] == '.') || (t - k == 1 && v[k] == '.') {
        proof {
            if t - k == 2 && v@[k as int] == '.' && v@[k + 1] == '.' {
                assert(name =~= seq!['.', '.']);
            }
            if t - k == 1 && v@[k as int] == '.' {
                assert(name =~= seq!['.']);
            }
        }
        None
    } else {
        proof {
            if name == seq!['.', '.'] {
                assert(name[0] == v@[k as int]);
                assert(name[1] == v@[k + 1]);
            }
            if name == seq!['.'] {
                assert(name[0] == v@[k as int]);
            }
        }
        Some(string_of_range(v.as_slice(), k, t))
    }
}

pub fn parent_exec(p: &str) -> (r: Option<String>)
    ensures
        r matches Some(n) ==> parent(p@) == Some(n@),
        r is None ==> parent(p@) is None,
{
    let v = chars_of(p);
    let (t, k) = split_last_component(v.as_slice());
    let ghost ts = v@.take(t as int);
    assert(ts.skip(k as int).len() == t - k);
    if k == t {
        return None;
    }
    let ghost head = v@.take(k as int);
    assert(ts.take(k as int) =~= head);
    let h = trim_tail_len(v.as_slice(), k);
    let dh = drive_len_of_prefix(v.as_slice(), k);
    if h <= dh {
        let rl: usize = if k > dh && char_is_sep(v[dh]) {
            dh + 1
        } else {
            dh
        };
        proof {
            if k > dh {
                assert(head[dh as int] == v@[dh as int]);
            }
        }
        assert(rl as int == root_len(head));
        assert(head.take(rl as int) =~= v@.subrange(0, rl as int));
        Some(string_of_range(v.as_slice(), 0, rl))
    } else {
        assert(v@.take(h as int) =~= v@.subrange(0, h as int));
        Some(string_of_range(v.as_slice(), 0, h))
    }
}

/// The pieces of the first `to` characters of `s`, as `normal_parts`.
fn normal_parts_exec(s: &[char], to: usize) -> (r: Vec<String>)
    requires
        to <= s@.len(),
    ensures
        views(r@) == normal_parts(s@.take(to as int)),
    decreases to,
{
    if to == 0 {
        assert(s@.take(0) =~= Seq::<char>::empty());
        return Vec::new();
    }
    let ghost st = s@.take(to as int);
    let k = last_sep_end_exec(s, to);
    proof {
        lemma_last_sep_end_len(st);
    }
    let mut r = if k > 0 {
        assert(st.take(k - 1) =~= s@.take(k - 1));
        normal_parts_exec(s, k - 1)
    } else {
        Vec::new()
    };
    let ghost piece = st.skip(k as int);
    assert(piece =~= s@.subrange(k as int, to as int));
    if k == to || (to - k == 1 && s[k] == '.') {
        proof {
            if to - k == 1 && s@[k as int] == '.' {
                assert(piece =~= seq!['.']);
            }
        }
        r
    } else {
        proof {
            if piece == seq!['.'] {
                assert(piece[0] == s@[k as int]);
            }
        }
        let ghost before = views(r@);
        r.push(string_of_range(s, k, to));
        assert(views(r@) =~= before.push(piece));
        r
    }
}

fn strings_eq(a: &Vec<String>, b: &Vec<String>) -> (r: bool)
    ensures
        r == (views(a@) == views(b@)),
{
    if a.len() != b.len() {
        assert(views(a@).len() != views(b@).len());
        return false;
    }
    let mut i: usize = 0;
    while i < a.len()
        invariant
            a@.len() == b@.len(),
            0 <= i <= a@.len(),
            forall|k: int| 0 <= k < i ==> a@[k]@ == b@[k]@,
        decreases a@.len() - i,
    {
        if !str_eq(a[i].as_str(), b[i].as_str()) {
            assert(views(a@)[i as int] != views(b@)[i as int]);
            return false;
        }
        i += 1;
    }
    assert(views(a@) =~= views(b@));
    true
}

/// The parts of `path_key`: prefix, root, components.
fn path_key_exec(p: &str) -> (r: (String, bool, Vec<String>))
    ensures
        (r.0@, r.1, views(r.2@)) == path_key(p@),
{
    let v = chars_of(p);
    let n = v.len();
    let d = drive_len_exec(v.as_slice());
    let prefix = string_of_range(v.as_slice(), 0, d);
    assert(v@.take(d as int) =~= v@.subrange(0, d as int));
    let rest_s = string_of_range(v.as_slice(), d, n);
    let rest = chars_of(rest_s.as_str());
    let ghost rs = v@.skip(d as int);
    assert(rest@ =~= rs);
    let root = rest.len() > 0 && char_is_sep(rest[0]);
    let lead_dot = !root && rest.len() > 0 && rest[0] == '.' && (rest.len() == 1 || char_is_sep(
        rest[1],
    ));
    let mut comps: Vec<String> = Vec::new();
    if lead_dot {
        let dot = lit(".");
        proof {
            reveal_strlit(".");
            assert(dot@ =~= seq!['.']);
        }
        comps.push(dot);
        assert(views(comps@) =~= seq![seq!['.']]);
    } else {
        assert(views(comps@) =~= Seq::<Seq<char>>::empty());
    }
    let ghost lead = views(comps@);
    assert(lead =~= (if lead_dot {
        seq![seq!['.']]
    } else {
        Seq::<Seq<char>>::empty()
    }));
    let parts = normal_parts_exec(rest.as_slice(), rest.len());
    assert(rest@.take(rest@.len() as int) =~= rs);
    let mut i: usize = 0;
    while i < parts.len()
        invariant
            0 <= i <= parts@.len(),
            views(comps@) == lead + views(parts@).take(i as int),
        decreases parts@.len() - i,
    {
        let ghost before = views(comps@);
        let part = parts[i].clone();
        comps.push(part);
        assert(views(comps@) =~= before.push(parts@[i as int]@));
        assert(views(parts@).take(i + 1) =~= views(parts@).take(i as int).push(parts@[i as int]@));
        assert(views(comps@) =~= lead + views(parts@).take(i + 1));
        i += 1;
    }
    assert(views(parts@).take(parts@.len() as int) =~= views(parts@));
    (prefix, root, comps)
}

/// Whether `a` and `b` name the same path, as `Path`'s `==` compares them.
pub fn same_path_exec(a: &str, b: &str) -> (r: bool)
    ensures
        r == same_path(a@, b@),
{
    let ka = path_key_exec(a);
    let kb = path_key_exec(b);
    str_eq(ka.0.as_str(), kb.0.as_str()) && ka.1 == kb.1 && strings_eq(&ka.2, &kb.2)
}

pub fn join_exec(base: &str, name: &str) -> (r: String)
    ensures
        r@ == join(base@, name@),
{
    let vb = chars_of(base);
    let vn = chars_of(name);
    let dn = drive_len_exec(vn.as_slice());
    if dn == 2 {
        return lit(name);
    }
    if vn.len() > 0 && char_is_sep(vn[0]) {
        let db = drive_len_exec(vb.as_slice());
        let mut r = string_of_range(vb.as_slice(), 0, db);
        append_str(&mut r, name);
        return r;
    }
    let db = drive_len_exec(vb.as_slice());
    let mut r = lit(base);
    if vb.len() > 0 && !char_is_sep(vb[vb.len() - 1]) && !(vb.len() == 2 && db == 2) {
        push_char(&mut r, '\\');
    }
    append_str(&mut r, name);
    r
}

fn ext_dot_exec(name: &[char]) -> (r: Option<usize>)
    ensures
        r matches Some(d) ==> ext_dot(name@) == Some(d as int) && d < name@.len(),
        r is None ==> ext_dot(name@) is None,
{
    let mut j = name.len();
    assert(name@.take(name@.len() as int) =~= name@);
    while j > 1 && name[j - 1] != '.'
        invariant
            j <= name@.len(),
            ext_dot(name@) == ext_dot(name@.take(j as int)),
        decreases j,
    {
        assert(name@.take(j as int).drop_last() =~= name@.take(j - 1));
        j -= 1;
    }
    assert(name@.take(name@.len() as int) =~= name@);
    if j > 1 {
        assert(name@.take(j as int).last() == name@[j - 1]);
        Some(j - 1)
    } else {
        None
    }
}

pub fn file_stem_exec(p: &str) -> (r: Option<String>)
    ensures
        r matches Some(n) ==> file_stem(p@) == Some(n@),
        r is None ==> file_stem(p@) is None,
{
    match file_name_exec(p) {
        None => None,
        Some(name) => {
            let v = chars_of(name.as_str());
            match ext_dot_exec(v.as_slice()) {
                None => Some(name),
                Some(d) => {
                    assert(v@.subrange(0, d as int) =~= v@.take(d as int));
                    Some(string_of_range(v.as_slice(), 0, d))
                },
            }
        },
    }
}

pub fn extension_exec(p: &str) -> (r: Option<String>)
    ensures
        r matches Some(n) ==> extension(p@) == Some(n@),
        r is None ==> extension(p@) is None,
{
    match file_name_exec(p) {
        None => None,
        Some(name) => {
            let v = chars_of(name.as_str());
            match ext_dot_exec(v.as_slice()) {
                None => None,
                Some(d) => {
                    let n = v.len();
                    assert(d < n);
                    assert(v@.subrange(d + 1, v@.len() as int) =~= v@.skip(d + 1));
                    Some(string_of_range(v.as_slice(), d + 1, n))
                },
            }
        },
    }
}

} // verus!
