//! Text that the dictation path produces or consumes: hotword replacement,
//! shortcut normalization, clipboard timing and request defaults.
use vstd::prelude::*;
use crate::config::{HotwordRule, HotwordRuleView};
use crate::text::{
    all_ws, join, lemma_trim_empty, lit, replace, replace_str, split, split_char, str_eq, trim,
    trim_str, views, join_strings, is_blank,
};

verus! {

broadcast use vstd::string::group_string_axioms;

// ---------------------------------------------------------------------------
// Hotwords
// ---------------------------------------------------------------------------

/// A rule takes part when it is enabled and its source is not blank.
pub open spec fn is_active(r: HotwordRuleView) -> bool {
    r.enabled && !all_ws(r.source)
}

/// The rules that take part, in the order they were given.
pub open spec fn active_rules(rules: Seq<HotwordRuleView>) -> Seq<HotwordRuleView>
    decreases rules.len(),
{
    if rules.len() == 0 {
        Seq::empty()
    } else {
        let prev = active_rules(rules.drop_last());
        if is_active(rules.last()) {
            prev.push(rules.last())
        } else {
            prev
        }
    }
}

/// `r` placed after every rule whose source has at least as many characters,
/// and ahead of every shorter one.
pub open spec fn insert_by_len(sorted: Seq<HotwordRuleView>, r: HotwordRuleView) -> Seq<
    HotwordRuleView,
>
    decreases sorted.len(),
{
    if sorted.len() == 0 {
        seq![r]
    } else if sorted.last().source.len() >= r.source.len() {
        sorted.push(r)
    } else {
        insert_by_len(sorted.drop_last(), r).push(sorted.last())
    }
}

/// The rules ordered by the character count of their source, longest first;
/// rules of equal length keep their relative order.
pub open spec fn longest_first(rules: Seq<HotwordRuleView>) -> Seq<HotwordRuleView>
    decreases rules.len(),
{
    if rules.len() == 0 {
        Seq::empty()
    } else {
        insert_by_len(longest_first(rules.drop_last()), rules.last())
    }
}

/// Each rule in turn replaces every occurrence of its trimmed source.
pub open spec fn apply_rules(text: Seq<char>, rules: Seq<HotwordRuleView>) -> Seq<char>
    decreases rules.len(),
{
    if rules.len() == 0 {
        text
    } else {
        replace(apply_rules(text, rules.drop_last()), trim(rules.last().source), rules.last().target)
    }
}

pub open spec fn hotwords_applied(text: Seq<char>, rules: Seq<HotwordRuleView>) -> Seq<char> {
    apply_rules(text, longest_first(active_rules(rules)))
}

pub open spec fn rule_views(rules: Seq<HotwordRule>) -> Seq<HotwordRuleView> {
    rules.map_values(|r: HotwordRule| r@)
}

pub open spec fn picked(idx: Seq<usize>, rules: Seq<HotwordRule>) -> Seq<HotwordRuleView> {
    idx.map_values(|i: usize| rules[i as int]@)
}

pub open spec fn sorted_longest_first(s: Seq<HotwordRuleView>) -> bool {
    forall|i: int, j: int| 0 <= i < j < s.len() ==> s[i].source.len() >= s[j].source.len()
}

proof fn lemma_insert_at(s: Seq<HotwordRuleView>, r: HotwordRuleView, j: int)
    requires
        0 <= j <= s.len(),
        forall|m: int| j <= m < s.len() ==> s[m].source.len() < r.source.len(),
        j > 0 ==> s[j - 1].source.len() >= r.source.len(),
    ensures
        insert_by_len(s, r) == s.insert(j, r),
    decreases s.len(),
{
    if s.len() == 0 {
        assert(s.insert(j, r) =~= seq![r]);
    } else if j == s.len() {
        assert(s.insert(j, r) =~= s.push(r));
    } else {
        lemma_insert_at(s.drop_last(), r, j);
        assert(s.insert(j, r) =~= s.drop_last().insert(j, r).push(s.last()));
    }
}

proof fn lemma_insert_keeps_bound(s: Seq<HotwordRuleView>, r: HotwordRuleView, c: nat)
    requires
        forall|i: int| 0 <= i < s.len() ==> s[i].source.len() >= c,
        r.source.len() >= c,
    ensures
        forall|i: int|
            0 <= i < insert_by_len(s, r).len() ==> insert_by_len(s, r)[i].source.len() >= c,
        insert_by_len(s, r).len() == s.len() + 1,
    decreases s.len(),
{
    if s.len() > 0 && s.last().source.len() < r.source.len() {
        lemma_insert_keeps_bound(s.drop_last(), r, c);
    }
}

proof fn lemma_insert_sorted(s: Seq<HotwordRuleView>, r: HotwordRuleView)
    requires
        sorted_longest_first(s),
    ensures
        sorted_longest_first(insert_by_len(s, r)),
    decreases s.len(),
{
    if s.len() > 0 && s.last().source.len() < r.source.len() {
        let t = insert_by_len(s.drop_last(), r);
        lemma_insert_sorted(s.drop_last(), r);
        lemma_insert_keeps_bound(s.drop_last(), r, s.last().source.len());
        assert(sorted_longest_first(t.push(s.last())));
    }
}

proof fn lemma_insert_multiset(s: Seq<HotwordRuleView>, r: HotwordRuleView)
    ensures
        insert_by_len(s, r).to_multiset() =~= s.to_multiset().insert(r),
    decreases s.len(),
{
    broadcast use vstd::seq_lib::group_to_multiset_ensures;

    if s.len() == 0 {
        assert(seq![r] =~= Seq::<HotwordRuleView>::empty().push(r));
    } else if s.last().source.len() < r.source.len() {
        lemma_insert_multiset(s.drop_last(), r);
        assert(s =~= s.drop_last().push(s.last()));
    }
}

/// A disabled rule, or one whose source is blank, changes nothing: adding it
/// to the rules gives the same text.
pub proof fn lemma_inactive_rule_has_no_effect(
    text: Seq<char>,
    rules: Seq<HotwordRuleView>,
    r: HotwordRuleView,
)
    requires
        !is_active(r),
    ensures
        hotwords_applied(text, rules.push(r)) == hotwords_applied(text, rules),
{
    assert(rules.push(r).drop_last() =~= rules);
    assert(rules.push(r).last() == r);
}

/// Without any enabled rule that has a source, the text is left as it is.
pub proof fn lemma_no_active_rule_keeps_text(text: Seq<char>, rules: Seq<HotwordRuleView>)
    requires
        forall|i: int| 0 <= i < rules.len() ==> !is_active(#[trigger] rules[i]),
    ensures
        hotwords_applied(text, rules) == text,
    decreases rules.len(),
{
    if rules.len() > 0 {
        let init = rules.drop_last();
        assert forall|i: int| 0 <= i < init.len() implies !is_active(#[trigger] init[i]) by {
            assert(init[i] == rules[i]);
        }
        lemma_no_active_rule_keeps_text(text, init);
        assert(!is_active(rules[rules.len() - 1]));
        lemma_inactive_rule_has_no_effect(text, init, rules.last());
        assert(init.push(rules.last()) =~= rules);
    } else {
        assert(active_rules(rules) =~= Seq::<HotwordRuleView>::empty());
    }
}

/// The order in which hotword rules are applied has non-increasing source
/// lengths: longer sources are replaced first.
pub proof fn lemma_longest_first_sorted(rules: Seq<HotwordRuleView>)
    ensures
        sorted_longest_first(longest_first(rules)),
    decreases rules.len(),
{
    if rules.len() > 0 {
        lemma_longest_first_sorted(rules.drop_last());
        lemma_insert_sorted(longest_first(rules.drop_last()), rules.last());
    }
}

/// Ordering the rules neither drops nor duplicates any of them.
pub proof fn lemma_longest_first_permutation(rules: Seq<HotwordRuleView>)
    ensures
        longest_first(rules).to_multiset() =~= rules.to_multiset(),
    decreases rules.len(),
{
    broadcast use vstd::seq_lib::group_to_multiset_ensures;

    if rules.len() > 0 {
        lemma_longest_first_permutation(rules.drop_last());
        lemma_insert_multiset(longest_first(rules.drop_last()), rules.last());
        assert(rules =~= rules.drop_last().push(rules.last()));
    }
}

/// The rules of `s` whose source has `n` characters, in order.
pub open spec fn of_len(s: Seq<HotwordRuleView>, n: nat) -> Seq<HotwordRuleView>
    decreases s.len(),
{
    if s.len() == 0 {
        Seq::empty()
    } else {
        let prev = of_len(s.drop_last(), n);
        if s.last().source.len() == n {
            prev.push(s.last())
        } else {
            prev
        }
    }
}

proof fn lemma_insert_of_len(s: Seq<HotwordRuleView>, r: HotwordRuleView, n: nat)
    ensures
        of_len(insert_by_len(s, r), n) == (if r.source.len() == n {
            of_len(s, n).push(r)
        } else {
            of_len(s, n)
        }),
    decreases s.len(),
{
    if s.len() == 0 {
        assert(seq![r].drop_last() =~= Seq::<HotwordRuleView>::empty());
        assert(of_len(Seq::<HotwordRuleView>::empty(), n) == Seq::<HotwordRuleView>::empty());
        assert(seq![r].last() == r);
        if r.source.len() == n {
            assert(of_len(seq![r], n) =~= seq![r]);
            assert(Seq::<HotwordRuleView>::empty().push(r) =~= seq![r]);
        }
    } else if s.last().source.len() >= r.source.len() {
        assert(s.push(r).drop_last() =~= s);
    } else {
        let ins = insert_by_len(s.drop_last(), r);
        lemma_insert_of_len(s.drop_last(), r, n);
        assert(insert_by_len(s, r) == ins.push(s.last()));
        assert(ins.push(s.last()).drop_last() =~= ins);
        assert(ins.push(s.last()).last() == s.last());
        let a = of_len(s.drop_last(), n);
        assert(of_len(s, n) == (if s.last().source.len() == n {
            a.push(s.last())
        } else {
            a
        }));
        if r.source.len() == n {
            assert(s.last().source.len() != n);
            assert(of_len(insert_by_len(s, r), n) == of_len(ins, n));
        } else if s.last().source.len() == n {
            assert(of_len(insert_by_len(s, r), n) == of_len(ins, n).push(s.last()));
        } else {
            assert(of_len(insert_by_len(s, r), n) == of_len(ins, n));
        }
    }
}

/// Ordering the rules longest first keeps rules whose sources have the same
/// length in the order they were given: for every length, the rules of that
/// length come out in their original order.
pub proof fn lemma_longest_first_stable(rules: Seq<HotwordRuleView>, n: nat)
    ensures
        of_len(longest_first(rules), n) == of_len(rules, n),
    decreases rules.len(),
{
    if rules.len() > 0 {
        lemma_longest_first_stable(rules.drop_last(), n);
        lemma_insert_of_len(longest_first(rules.drop_last()), rules.last(), n);
    }
}

/// Replaces the enabled, non-blank hotword sources in `text` by their
/// targets, longest source first.
pub fn apply_hotwords(text: &str, hotwords: &[HotwordRule]) -> (r: String)
    ensures
        r@ == hotwords_applied(text@, rule_views(hotwords@)),
{
    let ghost views_all = rule_views(hotwords@);
    // The rules that take part.
    let mut active: Vec<usize> = Vec::new();
    let mut k: usize = 0;
    while k < hotwords.len()
        invariant
            0 <= k <= hotwords@.len(),
            views_all == rule_views(hotwords@),
            picked(active@, hotwords@) == active_rules(views_all.take(k as int)),
            forall|m: int| 0 <= m < active@.len() ==> active@[m] < hotwords@.len(),
            forall|m: int|
                0 <= m < active@.len() ==> is_active(#[trigger] hotwords@[active@[m] as int]@),
        decreases hotwords@.len() - k,
    {
        assert(views_all.take(k + 1).drop_last() =~= views_all.take(k as int));
        let rule = &hotwords[k];
        let blank = is_blank(rule.source.as_str());
        let ghost prev = active@;
        if rule.enabled && !blank {
            active.push(k);
            assert(picked(active@, hotwords@) =~= picked(prev, hotwords@).push(
                hotwords@[k as int]@,
            ));
        }
        k += 1;
    }
    assert(views_all.take(hotwords@.len() as int) =~= views_all);
    // Longest source first, stable among equal lengths.
    let mut order: Vec<usize> = Vec::new();
    let mut a: usize = 0;
    while a < active.len()
        invariant
            0 <= a <= active@.len(),
            forall|m: int| 0 <= m < active@.len() ==> active@[m] < hotwords@.len(),
            forall|m: int|
                0 <= m < active@.len() ==> is_active(#[trigger] hotwords@[active@[m] as int]@),
            forall|m: int| 0 <= m < order@.len() ==> order@[m] < hotwords@.len(),
            forall|m: int|
                0 <= m < order@.len() ==> is_active(#[trigger] hotwords@[order@[m] as int]@),
            picked(order@, hotwords@) == longest_first(picked(active@, hotwords@).take(a as int)),
        decreases active@.len() - a,
    {
        let r = active[a];
        let key = hotwords[r].source.as_str().unicode_len();
        let mut j = order.len();
        while j > 0 && hotwords[order[j - 1]].source.as_str().unicode_len() < key
            invariant
                0 <= j <= order@.len(),
                r < hotwords@.len(),
                key == hotwords@[r as int].source@.len(),
                forall|m: int| 0 <= m < order@.len() ==> order@[m] < hotwords@.len(),
                forall|m: int|
                    j <= m < order@.len() ==> hotwords@[order@[m] as int].source@.len() < key,
            decreases j,
        {
            j -= 1;
        }
        let ghost before = picked(order@, hotwords@);
        proof {
            lemma_insert_at(before, hotwords@[r as int]@, j as int);
            assert(picked(active@, hotwords@).take(a + 1).drop_last() =~= picked(
                active@,
                hotwords@,
            ).take(a as int));
        }
        order.insert(j, r);
        assert(picked(order@, hotwords@) =~= before.insert(j as int, hotwords@[r as int]@));
        a += 1;
    }
    assert(picked(active@, hotwords@).take(active@.len() as int) =~= picked(active@, hotwords@));
    // Apply the rules in that order.
    let mut next = lit(text);
    let mut i: usize = 0;
    let ghost ordered = picked(order@, hotwords@);
    assert(ordered.take(0) =~= Seq::<HotwordRuleView>::empty());
    while i < order.len()
        invariant
            0 <= i <= order@.len(),
            ordered == picked(order@, hotwords@),
            forall|m: int| 0 <= m < order@.len() ==> order@[m] < hotwords@.len(),
            forall|m: int|
                0 <= m < order@.len() ==> is_active(#[trigger] hotwords@[order@[m] as int]@),
            next@ == apply_rules(text@, ordered.take(i as int)),
        decreases order@.len() - i,
    {
        let rule = &hotwords[order[i]];
        assert(is_active(hotwords@[order@[i as int] as int]@));
        let source = trim_str(rule.source.as_str());
        proof {
            lemma_trim_empty(rule.source@);
            assert(ordered.take(i + 1).drop_last() =~= ordered.take(i as int));
        }
        next = replace_str(next.as_str(), source.as_str(), rule.target.as_str());
        i += 1;
    }
    assert(ordered.take(order@.len() as int) =~= ordered);
    next
}

// ---------------------------------------------------------------------------
// Shortcuts, clipboard timing, request defaults
// ---------------------------------------------------------------------------

/// One `+`-separated key of a shortcut, trimmed, with `Win` and `Esc`
/// spelled the way the shortcut registry expects.
pub open spec fn shortcut_key(part: Seq<char>) -> Seq<char> {
    let t = trim(part);
    if t == "Win"@ {
        "Super"@
    } else if t == "Esc"@ {
        "Escape"@
    } else {
        t
    }
}

pub open spec fn normalized_shortcut(s: Seq<char>) -> Seq<char> {
    if trim(s).len() == 0 {
        "CapsLock"@
    } else {
        join(split(trim(s), '+').map_values(|p: Seq<char>| shortcut_key(p)), "+"@)
    }
}

fn shortcut_key_exec(part: &str) -> (r: String)
    ensures
        r@ == shortcut_key(part@),
{
    let t = trim_str(part);
    if str_eq(t.as_str(), "Win") {
        lit("Super")
    } else if str_eq(t.as_str(), "Esc") {
        lit("Escape")
    } else {
        t
    }
}

/// The shortcut with its keys trimmed and renamed; `CapsLock` when blank.
pub fn normalize_shortcut(shortcut: &str) -> (r: String)
    ensures
        r@ == normalized_shortcut(shortcut@),
{
    let trimmed = trim_str(shortcut);
    proof {
        lemma_trim_empty(shortcut@);
    }
    if trimmed.as_str().unicode_len() == 0 {
        return lit("CapsLock");
    }
    let parts = split_char(trimmed.as_str(), '+');
    let mut keys: Vec<String> = Vec::new();
    let mut i: usize = 0;
    while i < parts.len()
        invariant
            0 <= i <= parts@.len(),
            views(keys@) == views(parts@).take(i as int).map_values(
                |p: Seq<char>| shortcut_key(p),
            ),
        decreases parts@.len() - i,
    {
        let key = shortcut_key_exec(parts[i].as_str());
        let ghost prev = keys@;
        keys.push(key);
        assert(views(keys@) =~= views(prev).push(key@));
        assert(views(parts@).take(i + 1) =~= views(parts@).take(i as int).push(parts@[i as int]@));
        assert(views(keys@) =~= views(parts@).take(i + 1).map_values(
            |p: Seq<char>| shortcut_key(p),
        ));
        i += 1;
    }
    assert(views(parts@).take(parts@.len() as int) =~= views(parts@));
    join_strings(&keys, "+")
}

/// Milliseconds to wait after filling the clipboard: 80, plus 40 for every
/// full 400 characters, the extra capped at 900.
pub open spec fn clipboard_settle_millis(chars: nat) -> nat {
    let extra = (chars / 400) * 40;
    80 + if extra < 900 {
        extra
    } else {
        900
    }
}

pub fn clipboard_settle_delay(text: &str) -> (millis: u64)
    ensures
        millis == clipboard_settle_millis(text@.len()),
{
    let count = text.unicode_len() as u64;
    let q = count / 400;
    assert(q * 40 <= u64::MAX) by (nonlinear_arith)
        requires
            q == count / 400,
            count <= u64::MAX,
    ;
    let extra = q * 40;
    80 + if extra < 900 {
        extra
    } else {
        900
    }
}

pub fn default_save_output() -> (r: bool)
    ensures
        r,
{
    true
}

pub fn default_export_format() -> (r: String)
    ensures
        r@ == "plainText"@,
{
    lit("plainText")
}

pub fn default_performance_mode() -> (r: String)
    ensures
        r@ == "balanced"@,
{
    lit("balanced")
}

pub fn default_acceleration_mode() -> (r: String)
    ensures
        r@ == "cpu"@,
{
    lit("cpu")
}

} // verus!
