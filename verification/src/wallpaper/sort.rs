//! Composite, stable ordering of wallpaper entries by a list of sort rules.

use vstd::prelude::*;

use crate::control_proto::{
    direction_of_wire, sort_key_of_wire, SortDirection, WallpaperSortKey, WallpaperSortRule,
};
use crate::queue::{relative_path, relative_under_root};
use crate::text::{i64_text, int_text, compare_text, lemma_text_order_basics, lemma_text_order_transitive, text_order};
use crate::wallpaper_type::WallpaperEntry;

verus! {

/// What `str::to_lowercase` returns for a string: its Unicode lower-case
/// mapping.
pub uninterp spec fn lowercase(s: Seq<char>) -> Seq<char>;

/// `str::to_lowercase` from std. Trusted to return the Unicode lower-case
/// mapping of its argument, a function of the argument alone (it depends on
/// no locale); the mapping itself is left unstated.
#[verifier::external_body]
fn to_lowercase(s: &str) -> (r: String)
    ensures
        r@ == lowercase(s@),
{
    s.to_lowercase()
}

/// The time an entry sorts by under "last modified": its modification time,
/// or its creation time when the modification time is unknown.
pub open spec fn last_modified_time(e: WallpaperEntry) -> i64 {
    match e.modified_at {
        Some(t) => t,
        None => e.create_at,
    }
}

/// The "last modified" sort time of an entry.
pub fn last_modified_key(entry: &WallpaperEntry) -> (r: i64)
    ensures
        r == last_modified_time(*entry),
{
    match entry.modified_at {
        Some(t) => t,
        None => entry.create_at,
    }
}

/// The size an entry sorts by: its size, or zero when unknown.
pub open spec fn size_or_zero(e: WallpaperEntry) -> i64 {
    match e.size {
        Some(s) => s,
        None => 0,
    }
}

/// Three-way comparison of two integers: -1, 0 or 1.
pub open spec fn int_order(a: int, b: int) -> int {
    if a < b {
        -1
    } else if a > b {
        1
    } else {
        0
    }
}

/// Ascending comparison of two entries under one sort key.
pub open spec fn key_order(key: WallpaperSortKey, a: WallpaperEntry, b: WallpaperEntry) -> int {
    match key {
        WallpaperSortKey::Name => text_order(lowercase(a.name@), lowercase(b.name@)),
        WallpaperSortKey::WpType => text_order(a.wp_type@, b.wp_type@),
        WallpaperSortKey::Size => int_order(size_or_zero(a) as int, size_or_zero(b) as int),
        WallpaperSortKey::LastModified => int_order(
            last_modified_time(a) as int,
            last_modified_time(b) as int,
        ),
        WallpaperSortKey::Unspecified => 0,
    }
}

/// Comparison under one key, reversed when `desc` holds.
pub open spec fn directed_order(key: WallpaperSortKey, desc: bool, a: WallpaperEntry, b: WallpaperEntry) -> int {
    if desc {
        -key_order(key, a, b)
    } else {
        key_order(key, a, b)
    }
}

/// Comparison under one wire rule. A rule whose key is unknown or
/// unspecified orders nothing; a rule sorts descending only when its
/// direction is exactly the descending one.
pub open spec fn rule_order(rule: WallpaperSortRule, a: WallpaperEntry, b: WallpaperEntry) -> int {
    match sort_key_of_wire(rule.key) {
        Some(k) => if k == WallpaperSortKey::Unspecified {
            0
        } else {
            directed_order(k, direction_of_wire(rule.direction) == Some(SortDirection::Desc), a, b)
        },
        None => 0,
    }
}

/// Lexicographic comparison under a list of rules: the first rule that
/// tells two entries apart decides.
pub open spec fn rules_order(rules: Seq<WallpaperSortRule>, a: WallpaperEntry, b: WallpaperEntry) -> int
    decreases rules.len(),
{
    if rules.len() == 0 {
        0
    } else if rule_order(rules[0], a, b) != 0 {
        rule_order(rules[0], a, b)
    } else {
        rules_order(rules.drop_first(), a, b)
    }
}

/// `p` lists each index below `n` exactly once.
pub open spec fn is_index_permutation(p: Seq<int>, n: nat) -> bool {
    &&& p.len() == n
    &&& forall|i: int| 0 <= i < n ==> 0 <= #[trigger] p[i] < n
    &&& forall|i: int, j: int| 0 <= i < j < n ==> #[trigger] p[i] != #[trigger] p[j]
    &&& forall|v: int| 0 <= v < n ==> #[trigger] p.contains(v)
}

/// `out` is `inp` rearranged: position `i` of `out` holds what position
/// `p[i]` of `inp` held.
pub open spec fn arranged_by(out: Seq<&WallpaperEntry>, inp: Seq<&WallpaperEntry>, p: Seq<int>) -> bool {
    &&& out.len() == inp.len()
    &&& is_index_permutation(p, inp.len())
    &&& forall|i: int| 0 <= i < out.len() ==> #[trigger] out[i] == inp[p[i]]
}

/// `out` is ordered by `rules`, and entries the rules do not tell apart keep
/// the order of their input positions `p`.
pub open spec fn sorted_by_rules(out: Seq<&WallpaperEntry>, p: Seq<int>, rules: Seq<WallpaperSortRule>) -> bool {
    forall|i: int, j: int|
        #![trigger out[i], out[j]]
        0 <= i < j < out.len() ==> {
            ||| rules_order(rules, *out[i], *out[j]) < 0
            ||| (rules_order(rules, *out[i], *out[j]) == 0 && p[i] < p[j])
        }
}

/// `out` is the stable sort of `inp` under `rules`.
pub open spec fn is_stable_sort(out: Seq<&WallpaperEntry>, inp: Seq<&WallpaperEntry>, rules: Seq<WallpaperSortRule>) -> bool {
    exists|p: Seq<int>| arranged_by(out, inp, p) && sorted_by_rules(out, p, rules)
}

/// One key's comparison is a total preorder: antisymmetric, equal entries
/// compare alike against any third, and strictly-less is transitive.
pub proof fn lemma_directed_order_preorder(
    key: WallpaperSortKey,
    desc: bool,
    a: WallpaperEntry,
    b: WallpaperEntry,
    c: WallpaperEntry,
)
    ensures
        directed_order(key, desc, a, b) == -directed_order(key, desc, b, a),
        -1 <= directed_order(key, desc, a, b) <= 1,
        directed_order(key, desc, a, b) == 0 ==> directed_order(key, desc, a, c) == directed_order(key, desc, b, c),
        directed_order(key, desc, a, b) < 0 && directed_order(key, desc, b, c) < 0 ==> directed_order(key, desc, a, c) < 0,
{
    match key {
        WallpaperSortKey::Name => {
            let (la, lb, lc) = (lowercase(a.name@), lowercase(b.name@), lowercase(c.name@));
            lemma_text_order_basics(la, lb);
            lemma_text_order_basics(la, lc);
            lemma_text_order_basics(lb, lc);
            if desc {
                if text_order(lb, la) < 0 && text_order(lc, lb) < 0 {
                    lemma_text_order_basics(lb, la);
                    lemma_text_order_basics(lc, lb);
                    lemma_text_order_basics(lc, la);
                    lemma_text_order_transitive(lc, lb, la);
                }
            } else if text_order(la, lb) < 0 && text_order(lb, lc) < 0 {
                lemma_text_order_transitive(la, lb, lc);
            }
        },
        WallpaperSortKey::WpType => {
            let (la, lb, lc) = (a.wp_type@, b.wp_type@, c.wp_type@);
            lemma_text_order_basics(la, lb);
            lemma_text_order_basics(la, lc);
            lemma_text_order_basics(lb, lc);
            if desc {
                if text_order(lb, la) < 0 && text_order(lc, lb) < 0 {
                    lemma_text_order_basics(lb, la);
                    lemma_text_order_basics(lc, lb);
                    lemma_text_order_basics(lc, la);
                    lemma_text_order_transitive(lc, lb, la);
                }
            } else if text_order(la, lb) < 0 && text_order(lb, lc) < 0 {
                lemma_text_order_transitive(la, lb, lc);
            }
        },
        _ => {},
    }
}

/// A single rule's comparison is a total preorder as well.
pub proof fn lemma_rule_order_preorder(rule: WallpaperSortRule, a: WallpaperEntry, b: WallpaperEntry, c: WallpaperEntry)
    ensures
        rule_order(rule, a, b) == -rule_order(rule, b, a),
        rule_order(rule, a, b) == 0 ==> rule_order(rule, a, c) == rule_order(rule, b, c),
        rule_order(rule, a, b) < 0 && rule_order(rule, b, c) < 0 ==> rule_order(rule, a, c) < 0,
{
    match sort_key_of_wire(rule.key) {
        Some(k) => {
            let desc = direction_of_wire(rule.direction) == Some(SortDirection::Desc);
            lemma_directed_order_preorder(k, desc, a, b, c);
        },
        None => {},
    }
}


/// Three-way comparison of two integers.
fn compare_i64(a: i64, b: i64) -> (r: i8)
    ensures
        r as int == int_order(a as int, b as int),
{
    if a < b {
        -1
    } else if a > b {
        1
    } else {
        0
    }
}

/// Compares two entries under one key, reversed when `desc` holds. Names
/// compare by their lower-case forms.
pub fn compare_entries(key: WallpaperSortKey, desc: bool, a: &WallpaperEntry, b: &WallpaperEntry) -> (r: i8)
    ensures
        r as int == directed_order(key, desc, *a, *b),
{
    let o: i8 = match key {
        WallpaperSortKey::Name => {
            let la = to_lowercase(a.name.as_str());
            let lb = to_lowercase(b.name.as_str());
            compare_text(la.as_str(), lb.as_str())
        },
        WallpaperSortKey::WpType => compare_text(a.wp_type.as_str(), b.wp_type.as_str()),
        WallpaperSortKey::Size => {
            let sa: i64 = match a.size {
                Some(v) => v,
                None => 0,
            };
            let sb: i64 = match b.size {
                Some(v) => v,
                None => 0,
            };
            compare_i64(sa, sb)
        },
        WallpaperSortKey::LastModified => compare_i64(last_modified_key(a), last_modified_key(b)),
        WallpaperSortKey::Unspecified => 0,
    };
    proof {
        lemma_directed_order_preorder(key, desc, *a, *b, *b);
    }
    if desc {
        -o
    } else {
        o
    }
}

/// The comparison under a one-rule list is that rule's comparison.
proof fn lemma_single_rule(rule: WallpaperSortRule, a: WallpaperEntry, b: WallpaperEntry)
    ensures
        rules_order(seq![rule], a, b) == rule_order(rule, a, b),
{
    assert(seq![rule][0] == rule);
    assert(seq![rule].drop_first() =~= Seq::<WallpaperSortRule>::empty());
    assert(rules_order(Seq::<WallpaperSortRule>::empty(), a, b) == 0);
}

/// Stable sort of `entries` by one rule whose key is `key` and whose
/// direction is descending exactly when `desc` holds.
fn sort_pass(entries: &mut [&WallpaperEntry], rule: WallpaperSortRule, key: WallpaperSortKey, desc: bool)
    requires
        sort_key_of_wire(rule.key) == Some(key),
        key != WallpaperSortKey::Unspecified,
        desc == (direction_of_wire(rule.direction) == Some(SortDirection::Desc)),
    ensures
        is_stable_sort(final(entries)@, old(entries)@, seq![rule]),
{
    let ghost inp = entries@;
    let n = entries.len();
    let mut out: Vec<&WallpaperEntry> = Vec::new();
    let ghost mut q: Seq<int> = Seq::empty();
    let mut i: usize = 0;
    while i < n
        invariant
            n == inp.len(),
            entries@ == inp,
            i <= n,
            sort_key_of_wire(rule.key) == Some(key),
            key != WallpaperSortKey::Unspecified,
            desc == (direction_of_wire(rule.direction) == Some(SortDirection::Desc)),
            out@.len() == i,
            q.len() == i,
            forall|k: int| 0 <= k < i ==> 0 <= #[trigger] q[k] < i,
            forall|k: int, l: int| 0 <= k < l < i ==> #[trigger] q[k] != #[trigger] q[l],
            forall|v: int| 0 <= v < i ==> #[trigger] q.contains(v),
            forall|k: int| 0 <= k < i ==> #[trigger] out@[k] == inp[q[k]],
            forall|k: int, l: int|
                #![trigger out@[k], out@[l]]
                0 <= k < l < i ==> {
                    ||| rule_order(rule, *out@[k], *out@[l]) < 0
                    ||| (rule_order(rule, *out@[k], *out@[l]) == 0 && q[k] < q[l])
                },
        decreases n - i,
    {
        let x: &WallpaperEntry = entries[i];
        let mut p: usize = 0;
        loop
            invariant_except_break
                p <= out@.len(),
            invariant
                out@.len() == i,
                sort_key_of_wire(rule.key) == Some(key),
                key != WallpaperSortKey::Unspecified,
                desc == (direction_of_wire(rule.direction) == Some(SortDirection::Desc)),
                forall|k: int| 0 <= k < p ==> rule_order(rule, *#[trigger] out@[k], *x) <= 0,
            ensures
                p <= out@.len(),
                p < out@.len() ==> rule_order(rule, *out@[p as int], *x) > 0,
            decreases out@.len() - p,
        {
            if p >= out.len() {
                break;
            }
            let c = compare_entries(key, desc, out[p], x);
            if c > 0 {
                break;
            }
            p = p + 1;
        }
        let ghost old_out = out@;
        let ghost old_q = q;
        out.insert(p, x);
        proof {
            q = old_q.insert(p as int, i as int);
            assert forall|k: int| 0 <= k < i + 1 implies 0 <= #[trigger] q[k] < i + 1 by {
                if k < p {
                    assert(q[k] == old_q[k]);
                } else if k > p {
                    assert(q[k] == old_q[k - 1]);
                }
            }
            assert forall|k: int, l: int| 0 <= k < l < i + 1 implies #[trigger] q[k] != #[trigger] q[l] by {
                if k < p && l < p {
                } else if k < p && l == p {
                    assert(old_q[k] < i);
                } else if k < p && l > p {
                    assert(q[l] == old_q[l - 1]);
                } else if k == p {
                    assert(q[l] == old_q[l - 1]);
                    assert(old_q[l - 1] < i);
                } else {
                    assert(q[k] == old_q[k - 1]);
                    assert(q[l] == old_q[l - 1]);
                }
            }
            assert forall|v: int| 0 <= v < i + 1 implies #[trigger] q.contains(v) by {
                if v == i {
                    assert(q[p as int] == v);
                } else {
                    assert(old_q.contains(v));
                    let k0 = choose|k: int| 0 <= k < old_q.len() && #[trigger] old_q[k] == v;
                    if k0 < p {
                        assert(q[k0] == v);
                    } else {
                        assert(q[k0 + 1] == v);
                    }
                }
            }
            assert forall|k: int| 0 <= k < i + 1 implies #[trigger] out@[k] == inp[q[k]] by {
                if k < p {
                    assert(out@[k] == old_out[k]);
                } else if k > p {
                    assert(out@[k] == old_out[k - 1]);
                }
            }
            assert forall|k: int, l: int|
                #![trigger out@[k], out@[l]]
                0 <= k < l < i + 1 implies {
                    ||| rule_order(rule, *out@[k], *out@[l]) < 0
                    ||| (rule_order(rule, *out@[k], *out@[l]) == 0 && q[k] < q[l])
                } by {
                if k < p && l < p {
                    assert(old_out[k] == out@[k] && old_out[l] == out@[l]);
                } else if k < p && l == p {
                    assert(old_out[k] == out@[k]);
                    assert(rule_order(rule, *old_out[k], *x) <= 0);
                    assert(old_q[k] < i);
                } else if k < p && l > p {
                    assert(old_out[k] == out@[k] && old_out[l - 1] == out@[l]);
                    assert(q[l] == old_q[l - 1]);
                } else if k == p {
                    let y = old_out[l - 1];
                    assert(y == out@[l]);
                    let z = old_out[p as int];
                    assert(rule_order(rule, *z, *x) > 0);
                    lemma_rule_order_preorder(rule, *z, *x, *y);
                    lemma_rule_order_preorder(rule, *x, *z, *y);
                    lemma_rule_order_preorder(rule, *z, *y, *x);
                    lemma_rule_order_preorder(rule, *x, *y, *z);
                    if l - 1 > p {
                        assert(rule_order(rule, *z, *y) <= 0);
                    } else {
                        lemma_rule_order_preorder(rule, *z, *z, *z);
                    }
                    assert(rule_order(rule, *x, *y) < 0);
                } else {
                    assert(old_out[k - 1] == out@[k] && old_out[l - 1] == out@[l]);
                    assert(q[k] == old_q[k - 1]);
                    assert(q[l] == old_q[l - 1]);
                }
            }
        }
        i = i + 1;
    }
    proof {
        assert(arranged_by(out@, inp, q));
        assert forall|k: int, l: int|
            #![trigger out@[k], out@[l]]
            0 <= k < l < out@.len() implies {
                ||| rules_order(seq![rule], *out@[k], *out@[l]) < 0
                ||| (rules_order(seq![rule], *out@[k], *out@[l]) == 0 && q[k] < q[l])
            } by {
            lemma_single_rule(rule, *out@[k], *out@[l]);
        }
        assert(sorted_by_rules(out@, q, seq![rule]));
    }
    let mut k: usize = 0;
    while k < n
        invariant
            k <= n,
            entries@.len() == n,
            out@.len() == n,
            forall|j: int| 0 <= j < k ==> entries@[j] == out@[j],
        decreases n - k,
    {
        entries[k] = out[k];
        k = k + 1;
    }
    assert(entries@ =~= out@);
}


/// Stable-sorting, by one more rule, a list already stably sorted by later
/// rules leaves it stably sorted by the rule followed by those later rules:
/// the newly applied rule becomes the primary key.
pub proof fn lemma_stable_pass_refines(
    orig: Seq<&WallpaperEntry>,
    cur: Seq<&WallpaperEntry>,
    perm: Seq<int>,
    next: Seq<&WallpaperEntry>,
    q: Seq<int>,
    rules: Seq<WallpaperSortRule>,
)
    requires
        rules.len() > 0,
        arranged_by(cur, orig, perm),
        sorted_by_rules(cur, perm, rules.drop_first()),
        arranged_by(next, cur, q),
        sorted_by_rules(next, q, seq![rules[0]]),
    ensures
        arranged_by(next, orig, Seq::new(q.len(), |i: int| perm[q[i]])),
        sorted_by_rules(next, Seq::new(q.len(), |i: int| perm[q[i]]), rules),
{
    let np = Seq::new(q.len(), |i: int| perm[q[i]]);
    let n = orig.len();
    assert forall|i: int| 0 <= i < n implies 0 <= #[trigger] np[i] < n by {
        assert(0 <= q[i] < n);
    }
    assert forall|i: int, j: int| 0 <= i < j < n implies #[trigger] np[i] != #[trigger] np[j] by {
        assert(q[i] != q[j]);
        if q[i] < q[j] {
            assert(perm[q[i]] != perm[q[j]]);
        } else {
            assert(perm[q[j]] != perm[q[i]]);
        }
    }
    assert forall|v: int| 0 <= v < n implies #[trigger] np.contains(v) by {
        assert(perm.contains(v));
        let a = choose|a: int| 0 <= a < perm.len() && #[trigger] perm[a] == v;
        assert(q.contains(a));
        let b = choose|b: int| 0 <= b < q.len() && #[trigger] q[b] == a;
        assert(np[b] == v);
    }
    assert forall|i: int| 0 <= i < next.len() implies #[trigger] next[i] == orig[np[i]] by {
        assert(next[i] == cur[q[i]]);
        assert(cur[q[i]] == orig[perm[q[i]]]);
    }
    assert forall|i: int, j: int|
        #![trigger next[i], next[j]]
        0 <= i < j < next.len() implies {
            ||| rules_order(rules, *next[i], *next[j]) < 0
            ||| (rules_order(rules, *next[i], *next[j]) == 0 && np[i] < np[j])
        } by {
        lemma_single_rule(rules[0], *next[i], *next[j]);
        if rule_order(rules[0], *next[i], *next[j]) == 0 {
            assert(q[i] < q[j]);
            let (a, b) = (q[i], q[j]);
            assert(next[i] == cur[a] && next[j] == cur[b]);
            assert({
                ||| rules_order(rules.drop_first(), *cur[a], *cur[b]) < 0
                ||| (rules_order(rules.drop_first(), *cur[a], *cur[b]) == 0 && perm[a] < perm[b])
            });
        }
    }
}

/// Applies composite sort rules in place. Rules are applied from the last
/// to the first, each by a stable sort, so the first rule ends up as the
/// primary key and entries that no rule tells apart keep their order.
/// Rules with an unknown or unspecified key are skipped.
pub fn apply_wallpaper_sorts(entries: &mut [&WallpaperEntry], sorts: &[WallpaperSortRule])
    ensures
        is_stable_sort(final(entries)@, old(entries)@, sorts@),
{
    let ghost orig = entries@;
    let ghost mut perm: Seq<int> = Seq::new(orig.len(), |i: int| i);
    let mut r: usize = sorts.len();
    proof {
        assert forall|v: int| 0 <= v < orig.len() implies #[trigger] perm.contains(v) by {
            assert(perm[v] == v);
        }
        assert forall|i: int, j: int|
            #![trigger entries@[i], entries@[j]]
            0 <= i < j < entries@.len() implies {
                ||| rules_order(sorts@.subrange(r as int, sorts@.len() as int), *entries@[i], *entries@[j]) < 0
                ||| (rules_order(sorts@.subrange(r as int, sorts@.len() as int), *entries@[i], *entries@[j]) == 0 && perm[i] < perm[j])
            } by {
            assert(sorts@.subrange(r as int, sorts@.len() as int).len() == 0);
        }
    }
    while r > 0
        invariant
            r <= sorts@.len(),
            arranged_by(entries@, orig, perm),
            sorted_by_rules(entries@, perm, sorts@.subrange(r as int, sorts@.len() as int)),
        decreases r,
    {
        r = r - 1;
        let rule = sorts[r];
        let ghost rules = sorts@.subrange(r as int, sorts@.len() as int);
        assert(rules[0] == rule);
        assert(rules.drop_first() =~= sorts@.subrange(r + 1, sorts@.len() as int));
        match WallpaperSortKey::from_wire(rule.key) {
            Some(key) => {
                if key != WallpaperSortKey::Unspecified {
                    let desc = matches!(SortDirection::from_wire(rule.direction), Some(SortDirection::Desc));
                    let ghost cur = entries@;
                    sort_pass(entries, rule, key, desc);
                    proof {
                        let q = choose|q: Seq<int>| arranged_by(entries@, cur, q) && sorted_by_rules(entries@, q, seq![rule]);
                        lemma_stable_pass_refines(orig, cur, perm, entries@, q, rules);
                        perm = Seq::new(q.len(), |i: int| perm[q[i]]);
                    }
                } else {
                    proof { lemma_skipped_rule(entries@, perm, rules); }
                }
            },
            None => {
                proof { lemma_skipped_rule(entries@, perm, rules); }
            },
        }
    }
    proof {
        assert(sorts@.subrange(0, sorts@.len() as int) =~= sorts@);
    }
}

/// A rule that orders nothing leaves a stable order by the later rules
/// stable under the longer list.
proof fn lemma_skipped_rule(out: Seq<&WallpaperEntry>, p: Seq<int>, rules: Seq<WallpaperSortRule>)
    requires
        rules.len() > 0,
        forall|a: WallpaperEntry, b: WallpaperEntry| rule_order(rules[0], a, b) == 0,
        sorted_by_rules(out, p, rules.drop_first()),
    ensures
        sorted_by_rules(out, p, rules),
{
    assert forall|i: int, j: int|
        #![trigger out[i], out[j]]
        0 <= i < j < out.len() implies {
            ||| rules_order(rules, *out[i], *out[j]) < 0
            ||| (rules_order(rules, *out[i], *out[j]) == 0 && p[i] < p[j])
        } by {
        assert(rule_order(rules[0], *out[i], *out[j]) == 0);
    }
}


/// The entries a list of references points at.
pub open spec fn deref_entries(s: Seq<&WallpaperEntry>) -> Seq<WallpaperEntry> {
    s.map_values(|r: &WallpaperEntry| *r)
}

/// `keys` holds the pair (`root`, `rel`).
pub open spec fn key_listed(keys: Seq<(String, String)>, root: Seq<char>, rel: Seq<char>) -> bool {
    exists|i: int| 0 <= i < keys.len() && (#[trigger] keys[i]).0@ == root && keys[i].1@ == rel
}

/// An entry passes the filter when there is none, or when its
/// (library root, path relative to that root) pair is among the matched
/// keys; an entry outside its own library root never passes a filter.
pub open spec fn entry_selected(e: WallpaperEntry, keys: Option<Seq<(String, String)>>) -> bool {
    match keys {
        None => true,
        Some(ks) => match relative_path(e.library_root@, e.resource@) {
            Some(rel) => key_listed(ks, e.library_root@, rel),
            None => false,
        },
    }
}

/// The entries of `all` that pass the filter, in their order.
pub open spec fn selected_entries(all: Seq<WallpaperEntry>, keys: Option<Seq<(String, String)>>) -> Seq<WallpaperEntry>
    decreases all.len(),
{
    if all.len() == 0 {
        Seq::empty()
    } else {
        let rest = selected_entries(all.drop_last(), keys);
        if entry_selected(all.last(), keys) {
            rest.push(all.last())
        } else {
            rest
        }
    }
}

/// Whether the pair (`root`, `rel`) is among `keys`.
fn contains_key(keys: &Vec<(String, String)>, root: &String, rel: &String) -> (r: bool)
    ensures
        r == key_listed(keys@, root@, rel@),
{
    let mut i: usize = 0;
    while i < keys.len()
        invariant
            i <= keys@.len(),
            forall|k: int| 0 <= k < i ==> !((#[trigger] keys@[k]).0@ == root@ && keys@[k].1@ == rel@),
        decreases keys@.len() - i,
    {
        let pair = &keys[i];
        if pair.0 == *root && pair.1 == *rel {
            return true;
        }
        i = i + 1;
    }
    false
}

/// Whether `e` passes the filter given by `matched_keys`.
fn passes_filter(e: &WallpaperEntry, matched_keys: Option<&Vec<(String, String)>>) -> (r: bool)
    ensures
        r == entry_selected(*e, match matched_keys {
            Some(k) => Some(k@),
            None => None,
        }),
{
    match matched_keys {
        None => true,
        Some(keys) => match relative_under_root(e.library_root.as_str(), e.resource.as_str()) {
            Some(rel) => contains_key(keys, &e.library_root, &rel),
            None => false,
        },
    }
}

/// The user-visible ordered list of entry ids: the entries that pass the
/// filter (all of them when `matched_keys` is `None`), stably sorted by
/// `sorts`, each given by its item id in decimal.
pub fn ordered_entry_ids(
    all: &Vec<WallpaperEntry>,
    matched_keys: Option<&Vec<(String, String)>>,
    sorts: &[WallpaperSortRule],
) -> (ids: Vec<String>)
    ensures
        exists|selected: Seq<&WallpaperEntry>, ordered: Seq<&WallpaperEntry>|
            {
                &&& deref_entries(selected) == selected_entries(all@, match matched_keys {
                    Some(k) => Some(k@),
                    None => None,
                })
                &&& is_stable_sort(ordered, selected, sorts@)
                &&& ids@.len() == ordered.len()
                &&& forall|i: int| 0 <= i < ids@.len() ==> (#[trigger] ids@[i])@ == int_text(ordered[i].item_id as int)
            },
{
    let ghost keys = match matched_keys {
        Some(k) => Some(k@),
        None => None,
    };
    let mut filtered: Vec<&WallpaperEntry> = Vec::new();
    let mut i: usize = 0;
    while i < all.len()
        invariant
            i <= all@.len(),
            keys == match matched_keys {
                Some(k) => Some(k@),
                None => None::<Seq<(String, String)>>,
            },
            deref_entries(filtered@) == selected_entries(all@.take(i as int), keys),
        decreases all@.len() - i,
    {
        let e: &WallpaperEntry = &all[i];
        let keep = passes_filter(e, matched_keys);
        let ghost before = filtered@;
        if keep {
            filtered.push(e);
        }
        proof {
            let t = all@.take(i + 1);
            assert(t.drop_last() =~= all@.take(i as int));
            assert(t.last() == all@[i as int]);
            if keep {
                assert(deref_entries(filtered@) =~= deref_entries(before).push(*e));
            } else {
                assert(filtered@ == before);
            }
        }
        i = i + 1;
    }
    assert(all@.take(all@.len() as int) =~= all@);
    let ghost selected = filtered@;
    assert(deref_entries(selected) == selected_entries(all@, keys));
    if sorts.len() > 0 {
        apply_wallpaper_sorts(filtered.as_mut_slice(), sorts);
    } else {
        proof {
            let p = Seq::new(filtered@.len(), |k: int| k);
            assert forall|v: int| 0 <= v < selected.len() implies #[trigger] p.contains(v) by {
                assert(p[v] == v);
            }
            assert(arranged_by(filtered@, selected, p));
            assert(sorted_by_rules(filtered@, p, sorts@));
        }
    }
    let mut ids: Vec<String> = Vec::new();
    let mut k: usize = 0;
    while k < filtered.len()
        invariant
            k <= filtered@.len(),
            ids@.len() == k,
            forall|m: int| 0 <= m < k ==> (#[trigger] ids@[m])@ == int_text(filtered@[m].item_id as int),
        decreases filtered@.len() - k,
    {
        ids.push(i64_text(filtered[k].item_id));
        k = k + 1;
    }
    proof {
        let ordered = filtered@;
        assert(deref_entries(selected) == selected_entries(all@, keys));
        assert(is_stable_sort(ordered, selected, sorts@));
        assert(forall|i: int| 0 <= i < ids@.len() ==> (#[trigger] ids@[i])@ == int_text(ordered[i].item_id as int));
    }
    ids
}

/// The comparison under a list of rules is antisymmetric.
pub proof fn lemma_rules_order_antisymmetric(rules: Seq<WallpaperSortRule>, a: WallpaperEntry, b: WallpaperEntry)
    ensures
        rules_order(rules, a, b) == -rules_order(rules, b, a),
    decreases rules.len(),
{
    if rules.len() > 0 {
        lemma_rule_order_preorder(rules[0], a, b, b);
        lemma_rules_order_antisymmetric(rules.drop_first(), a, b);
    }
}

/// Two stable sorts of one list by the same rules put the same input
/// position at each of the first `k` places.
proof fn lemma_positions_agree(
    inp: Seq<&WallpaperEntry>,
    o1: Seq<&WallpaperEntry>,
    p1: Seq<int>,
    o2: Seq<&WallpaperEntry>,
    p2: Seq<int>,
    rules: Seq<WallpaperSortRule>,
    k: nat,
)
    requires
        arranged_by(o1, inp, p1),
        sorted_by_rules(o1, p1, rules),
        arranged_by(o2, inp, p2),
        sorted_by_rules(o2, p2, rules),
        k <= inp.len(),
    ensures
        forall|i: int| 0 <= i < k ==> p1[i] == p2[i],
    decreases k,
{
    if k > 0 {
        lemma_positions_agree(inp, o1, p1, o2, p2, rules, (k - 1) as nat);
        let n = inp.len() as int;
        let i = k - 1;
        let x = p1[i];
        let y = p2[i];
        if x != y {
            assert(0 <= y < n);
            assert(p1.contains(y));
            let m = choose|m: int| 0 <= m < p1.len() && #[trigger] p1[m] == y;
            if m < i {
                assert(p2[m] == y);
                assert(p2[m] != p2[i]);
            }
            assert(m > i);
            assert(0 <= x < n);
            assert(p2.contains(x));
            let m2 = choose|m: int| 0 <= m < p2.len() && #[trigger] p2[m] == x;
            if m2 < i {
                assert(p1[m2] == x);
                assert(p1[m2] != p1[i]);
            }
            assert(m2 > i);
            assert(o1[i] == inp[x] && o1[m] == inp[y]);
            assert(o2[i] == inp[y] && o2[m2] == inp[x]);
            lemma_rules_order_antisymmetric(rules, *inp[x], *inp[y]);
            assert({
                ||| rules_order(rules, *o1[i], *o1[m]) < 0
                ||| (rules_order(rules, *o1[i], *o1[m]) == 0 && p1[i] < p1[m])
            });
            assert({
                ||| rules_order(rules, *o2[i], *o2[m2]) < 0
                ||| (rules_order(rules, *o2[i], *o2[m2]) == 0 && p2[i] < p2[m2])
            });
        }
    }
}

/// A stable sort is unique: two lists that are both stable sorts of the
/// same list by the same rules are equal. So the contract of
/// `apply_wallpaper_sorts` fixes its result completely.
pub proof fn lemma_stable_sort_unique(
    inp: Seq<&WallpaperEntry>,
    o1: Seq<&WallpaperEntry>,
    o2: Seq<&WallpaperEntry>,
    rules: Seq<WallpaperSortRule>,
)
    requires
        is_stable_sort(o1, inp, rules),
        is_stable_sort(o2, inp, rules),
    ensures
        o1 == o2,
{
    let p1 = choose|p: Seq<int>| arranged_by(o1, inp, p) && sorted_by_rules(o1, p, rules);
    let p2 = choose|p: Seq<int>| arranged_by(o2, inp, p) && sorted_by_rules(o2, p, rules);
    lemma_positions_agree(inp, o1, p1, o2, p2, rules, inp.len());
    assert forall|i: int| 0 <= i < o1.len() implies o1[i] == o2[i] by {
        assert(p1[i] == p2[i]);
    }
    assert(o1 =~= o2);
}

/// With a filter, an entry passes exactly when some matched key holds both
/// its library root and its path relative to that root; an entry outside
/// its root passes no filter.
pub proof fn lemma_filter_matches_whole_key(e: WallpaperEntry, keys: Seq<(String, String)>)
    ensures
        entry_selected(e, Some(keys)) <==> match relative_path(e.library_root@, e.resource@) {
            Some(rel) => exists|i: int|
                0 <= i < keys.len() && (#[trigger] keys[i]).0@ == e.library_root@ && keys[i].1@ == rel,
            None => false,
        },
{
}

/// Without a filter every entry passes.
pub proof fn lemma_no_filter_keeps_all(e: WallpaperEntry)
    ensures
        entry_selected(e, None),
{
}

/// The selected entries are the entries of `all` that pass the filter, in
/// their order: each selected entry comes from `all` and passes, every
/// entry of `all` that passes is selected, and entries keep their relative
/// order.
pub proof fn lemma_selected_entries_are_filter(all: Seq<WallpaperEntry>, keys: Option<Seq<(String, String)>>)
    ensures
        forall|k: int| #![trigger selected_entries(all, keys)[k]]
            0 <= k < selected_entries(all, keys).len() ==> exists|j: int| #![trigger all[j]]
                0 <= j < all.len() && selected_entries(all, keys)[k] == all[j] && entry_selected(all[j], keys),
        forall|j: int| 0 <= j < all.len() && #[trigger] entry_selected(all[j], keys)
            ==> selected_entries(all, keys).contains(all[j]),
        forall|k: int| 0 <= k < selected_entries(all, keys).len() ==> entry_selected(#[trigger] selected_entries(all, keys)[k], keys),
        selected_entries(all, keys).len() <= all.len(),
    decreases all.len(),
{
    if all.len() > 0 {
        let front = all.drop_last();
        lemma_selected_entries_are_filter(front, keys);
        let sf = selected_entries(front, keys);
        let sa = selected_entries(all, keys);
        assert forall|k: int| #![trigger sa[k]] 0 <= k < sa.len() implies exists|j: int| #![trigger all[j]]
            0 <= j < all.len() && sa[k] == all[j] && entry_selected(all[j], keys) by {
            if k < sf.len() {
                assert(sa[k] == sf[k]);
                let j = choose|j: int| #![trigger front[j]] 0 <= j < front.len() && sf[k] == front[j] && entry_selected(front[j], keys);
                assert(front[j] == all[j]);
                assert(sa[k] == all[j]);
            } else {
                assert(sa[k] == all[all.len() - 1]);
            }
        }
        assert forall|j: int| 0 <= j < all.len() && #[trigger] entry_selected(all[j], keys) implies sa.contains(all[j]) by {
            if j < front.len() {
                assert(front[j] == all[j]);
                assert(sf.contains(front[j]));
                let k = choose|k: int| 0 <= k < sf.len() && sf[k] == front[j];
                assert(sa[k] == sf[k]);
            } else {
                assert(sa[sa.len() - 1] == all[j]);
            }
        }
        assert forall|k: int| 0 <= k < sa.len() implies entry_selected(#[trigger] sa[k], keys) by {
            if k < sf.len() {
                assert(sa[k] == sf[k]);
            }
        }
        assert(forall|k: int| #![trigger selected_entries(all, keys)[k]]
            0 <= k < selected_entries(all, keys).len() ==> exists|j: int| #![trigger all[j]]
                0 <= j < all.len() && selected_entries(all, keys)[k] == all[j] && entry_selected(all[j], keys));
    } else {
        assert(selected_entries(all, keys).len() == 0);
    }
}

/// Each key's comparison is antisymmetric: swapping the entries flips it.
pub proof fn lemma_key_order_antisymmetric(key: WallpaperSortKey, a: WallpaperEntry, b: WallpaperEntry)
    ensures
        key_order(key, a, b) == -key_order(key, b, a),
{
    lemma_text_order_basics(lowercase(a.name@), lowercase(b.name@));
    lemma_text_order_basics(a.wp_type@, b.wp_type@);
}

/// What a wire rule means: key 1 sorts by lower-cased name, 2 by type, 3
/// by size (zero when unknown) and 4 by last-modified time, each ascending
/// under direction 0; direction 1 sorts the other way round, which is the
/// ascending comparison with the entries swapped; any other direction is
/// ascending; and any other key, 0 included, orders nothing.
pub proof fn lemma_rule_meaning(key: i32, direction: i32, a: WallpaperEntry, b: WallpaperEntry)
    ensures
        rule_order((WallpaperSortRule { key: key, direction: 1 }), a, b)
            == rule_order((WallpaperSortRule { key: key, direction: 0 }), b, a),
        direction != 1 ==> rule_order((WallpaperSortRule { key: key, direction: direction }), a, b)
            == rule_order((WallpaperSortRule { key: key, direction: 0 }), a, b),
        !(1 <= key <= 4) ==> rule_order((WallpaperSortRule { key: key, direction: direction }), a, b) == 0,
        rule_order((WallpaperSortRule { key: 1, direction: 0 }), a, b) == text_order(lowercase(a.name@), lowercase(b.name@)),
        rule_order((WallpaperSortRule { key: 2, direction: 0 }), a, b) == text_order(a.wp_type@, b.wp_type@),
        rule_order((WallpaperSortRule { key: 3, direction: 0 }), a, b) < 0 <==> size_or_zero(a) < size_or_zero(b),
        rule_order((WallpaperSortRule { key: 3, direction: 0 }), a, b) > 0 <==> size_or_zero(a) > size_or_zero(b),
        rule_order((WallpaperSortRule { key: 4, direction: 0 }), a, b) < 0
            <==> last_modified_time(a) < last_modified_time(b),
        rule_order((WallpaperSortRule { key: 4, direction: 0 }), a, b) > 0
            <==> last_modified_time(a) > last_modified_time(b),
{
    match sort_key_of_wire(key) {
        Some(k) => lemma_key_order_antisymmetric(k, a, b),
        None => {},
    }
}

/// The first rule is the primary key: when it tells two entries apart it
/// decides, whatever the later rules say; when it does not, the later rules
/// decide as if it were absent.
pub proof fn lemma_first_rule_decides(
    first: WallpaperSortRule,
    rest: Seq<WallpaperSortRule>,
    a: WallpaperEntry,
    b: WallpaperEntry,
)
    ensures
        rule_order(first, a, b) != 0 ==> rules_order(seq![first] + rest, a, b) == rule_order(first, a, b),
        rule_order(first, a, b) == 0 ==> rules_order(seq![first] + rest, a, b) == rules_order(rest, a, b),
{
    let rules = seq![first] + rest;
    assert(rules[0] == first);
    assert(rules.drop_first() =~= rest);
}

} // verus!
