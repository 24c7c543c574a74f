use vstd::prelude::*;

use crate::diff::ArrayDiffV;
use crate::diff::DiffV;
use crate::diff::EntryDiffV;
use crate::model::CfgV;
use crate::model::array_diff;
use crate::model::find_key_from;
use crate::model::missing_of;
use crate::model::object_diff_entries;
use crate::model::object_pass;
use crate::model::overlap;
use crate::model::pairs_from;
use crate::model::remove_key;
use crate::model::values_diff;
use crate::path::ArrayIndex;
use crate::path::PathElV;
use crate::path::el_matches;
use crate::path::is_ignored;
use crate::path::path_matches;
use crate::value::ValueV;
use crate::value::is_float_text;
use crate::value::keys_unique;
use crate::value::value_wf;

verus! {

/// Reflexivity: comparing any well-formed value with itself, at any path and
/// under any configuration whose epsilon is a decimal number text, finds no
/// difference.
pub proof fn lemma_values_diff_reflexive(cfg: CfgV, path: Seq<PathElV>, v: ValueV)
    requires
        value_wf(v),
        is_float_text(cfg.approx_float_eq_epsilon),
    ensures
        values_diff(cfg, path, v, v) is None,
    decreases v, 0int, 0int,
{
    match v {
        ValueV::Array(es) => {
            lemma_pairs_from_reflexive(cfg, path, es, 0);
            assert(values_diff(cfg, path, v, v) is None);
        },
        ValueV::Object(es) => {
            assert(es.skip(0) =~= es);
            lemma_object_pass_reflexive(cfg, path, es, 0);
            assert(missing_of(Seq::<(Seq<char>, ValueV)>::empty()) =~= Seq::<
                (Seq<char>, EntryDiffV),
            >::empty());
            assert(values_diff(cfg, path, v, v) is None);
        },
        _ => {},
    }
}

proof fn lemma_pairs_from_reflexive(cfg: CfgV, path: Seq<PathElV>, es: Seq<ValueV>, i: int)
    requires
        0 <= i,
        forall|j: int| 0 <= j < es.len() ==> value_wf(#[trigger] es[j]),
        is_float_text(cfg.approx_float_eq_epsilon),
    ensures
        pairs_from(cfg, path, es, es, i) == Seq::<(usize, crate::diff::DiffV)>::empty(),
    decreases es, 0int, es.len() - i,
{
    if i < overlap(es, es) {
        let child = path.push(PathElV::ArrayIndex(ArrayIndex::Index(i as usize)));
        lemma_values_diff_reflexive(cfg, child, es[i]);
        lemma_pairs_from_reflexive(cfg, path, es, i + 1);
    }
}

proof fn lemma_object_pass_reflexive(
    cfg: CfgV,
    path: Seq<PathElV>,
    es: Seq<(Seq<char>, ValueV)>,
    i: int,
)
    requires
        0 <= i <= es.len(),
        forall|j: int| 0 <= j < es.len() ==> value_wf(#[trigger] es[j].1),
        is_float_text(cfg.approx_float_eq_epsilon),
    ensures
        object_pass(cfg, path, es, es.skip(i), i) == (
            Seq::<(Seq<char>, EntryDiffV)>::empty(),
            Seq::<(Seq<char>, ValueV)>::empty(),
        ),
    decreases es, 0int, es.len() - i,
{
    let tgt = es.skip(i);
    if i >= es.len() {
        assert(tgt =~= Seq::<(Seq<char>, ValueV)>::empty());
    } else {
        let k = es[i].0;
        let child = path.push(PathElV::Key(k));
        assert(tgt[0] == es[i]);
        assert(crate::model::find_key_from(tgt, k, 0) == Some(0int));
        assert(tgt.remove(0) =~= es.skip(i + 1));
        lemma_object_pass_reflexive(cfg, path, es, i + 1);
        if is_ignored(cfg.ignore_paths, child, true) {
            assert(remove_key(tgt, k) == es.skip(i + 1));
        } else {
            lemma_values_diff_reflexive(cfg, child, es[i].1);
            assert(values_diff(cfg, child, es[i].1, tgt[0].1) is None);
        }
    }
}

/// Reflexivity at the root: for every well-formed value and every
/// configuration whose epsilon is a decimal number text, the comparison of
/// the value with itself reports no difference.
pub proof fn lemma_compare_reflexive(cfg: CfgV, v: ValueV)
    requires
        value_wf(v),
        is_float_text(cfg.approx_float_eq_epsilon),
    ensures
        values_diff(cfg, Seq::<PathElV>::empty(), v, v) is None,
{
    lemma_values_diff_reflexive(cfg, Seq::<PathElV>::empty(), v);
}

/// Wildcard matching, element level: the wildcard array position covers
/// every concrete index.
pub proof fn lemma_wildcard_covers_any_index(n: usize)
    ensures
        el_matches(
            PathElV::ArrayIndex(ArrayIndex::All),
            PathElV::ArrayIndex(ArrayIndex::Index(n)),
        ),
{
}

/// Wildcard matching, path level: a rule that covers a path and holds the
/// wildcard at position `k` also covers the path with any concrete index put
/// at that position.
pub proof fn lemma_wildcard_matches_every_index(
    rule: Seq<PathElV>,
    actual: Seq<PathElV>,
    k: int,
    n: usize,
)
    requires
        path_matches(rule, actual),
        0 <= k < rule.len(),
        rule[k] == PathElV::ArrayIndex(ArrayIndex::All),
    ensures
        path_matches(rule, actual.update(k, PathElV::ArrayIndex(ArrayIndex::Index(n)))),
{
    let updated = actual.update(k, PathElV::ArrayIndex(ArrayIndex::Index(n)));
    assert forall|i: int| 0 <= i < rule.len() implies el_matches(rule[i], updated[i]) by {
        if i != k {
            assert(updated[i] == actual[i]);
        }
    }
}

/// Array classification totality: for any two arrays the outcome is exactly
/// one of nothing, `PairsOnly`, `Shorter` or `Longer`, selected solely by
/// the sign of the length difference and the presence of differing pairs.
pub proof fn lemma_array_classification(
    cfg: CfgV,
    path: Seq<PathElV>,
    ss: Seq<ValueV>,
    ts: Seq<ValueV>,
)
    ensures
        ss.len() > ts.len() ==> (array_diff(cfg, path, ss, ts) matches Some(d) && d is Longer
            && d->Longer_extra_length == (ss.len() - ts.len()) as usize),
        ss.len() < ts.len() ==> (array_diff(cfg, path, ss, ts) matches Some(d) && d is Shorter
            && d->Shorter_missing_elements == ts.skip(ss.len() as int)),
        ss.len() == ts.len() && pairs_from(cfg, path, ss, ts, 0).len() > 0 ==> (array_diff(
            cfg,
            path,
            ss,
            ts,
        ) matches Some(d) && d is PairsOnly && d->PairsOnly_different_pairs == pairs_from(
            cfg,
            path,
            ss,
            ts,
            0,
        )),
        ss.len() == ts.len() && pairs_from(cfg, path, ss, ts, 0).len() == 0 ==> array_diff(
            cfg,
            path,
            ss,
            ts,
        ) is None,
{
}

/// Whether a difference tree holds no empty composite: a `PairsOnly` node
/// and an `Object` node carry at least one entry, and an optional pair list
/// is absent rather than empty, at every depth.
pub open spec fn no_empty_composites(d: DiffV) -> bool
    decreases d,
{
    match d {
        DiffV::Scalar(_) => true,
        DiffV::Type { source_type, source_value, target_type, target_value } => true,
        DiffV::Array(a) => array_no_empty(a),
        DiffV::Object { different_entries } => different_entries.len() > 0 && entries_no_empty(
            different_entries,
        ),
    }
}

/// Every pair's difference holds no empty composite.
pub open spec fn pairs_no_empty(ps: Seq<(usize, DiffV)>) -> bool
    decreases ps,
{
    forall|i: int| 0 <= i < ps.len() ==> no_empty_composites((#[trigger] ps[i]).1)
}

/// An optional pair list is absent rather than empty, and clean throughout.
pub open spec fn opt_pairs_no_empty(o: Option<Seq<(usize, DiffV)>>) -> bool
    decreases o,
{
    match o {
        Some(ps) => ps.len() > 0 && pairs_no_empty(ps),
        None => true,
    }
}

/// An array difference holds no empty composite.
pub open spec fn array_no_empty(a: ArrayDiffV) -> bool
    decreases a,
{
    match a {
        ArrayDiffV::PairsOnly { different_pairs } => different_pairs.len() > 0 && pairs_no_empty(
            different_pairs,
        ),
        ArrayDiffV::Shorter { different_pairs, missing_elements } => opt_pairs_no_empty(
            different_pairs,
        ),
        ArrayDiffV::Longer { different_pairs, extra_length } => opt_pairs_no_empty(
            different_pairs,
        ),
    }
}

/// An entry difference holds no empty composite.
pub open spec fn entry_no_empty(e: EntryDiffV) -> bool
    decreases e,
{
    match e {
        EntryDiffV::Value { value_diff } => no_empty_composites(value_diff),
        _ => true,
    }
}

/// Every recorded entry holds no empty composite.
pub open spec fn entries_no_empty(es: Seq<(Seq<char>, EntryDiffV)>) -> bool
    decreases es,
{
    forall|i: int| 0 <= i < es.len() ==> entry_no_empty((#[trigger] es[i]).1)
}

/// No empty composite is ever emitted: when two values are judged unequal,
/// the difference that describes it carries at least one entry in every
/// composite node, at every depth — absence of difference at a composite
/// node omits the node instead.
pub proof fn lemma_diff_no_empty_composites(cfg: CfgV, path: Seq<PathElV>, s: ValueV, t: ValueV)
    ensures
        values_diff(cfg, path, s, t) matches Some(d) ==> no_empty_composites(d),
    decreases s, 0int, 0int,
{
    match (s, t) {
        (ValueV::Array(a), ValueV::Array(b)) => {
            lemma_pairs_no_empty(cfg, path, a, b, 0);
        },
        (ValueV::Object(a), ValueV::Object(b)) => {
            lemma_object_pass_no_empty(cfg, path, a, b, 0);
            let pass = object_pass(cfg, path, a, b, 0);
            let all = pass.0 + missing_of(pass.1);
            assert forall|i: int| 0 <= i < all.len() implies entry_no_empty(
                (#[trigger] all[i]).1,
            ) by {
                if i < pass.0.len() {
                    assert(all[i] == pass.0[i]);
                } else {
                    assert(all[i] == missing_of(pass.1)[i - pass.0.len()]);
                    assert(missing_of(pass.1)[i - pass.0.len()] == (
                        pass.1[i - pass.0.len()].0,
                        EntryDiffV::Missing { value: pass.1[i - pass.0.len()].1 },
                    ));
                }
            }
        },
        _ => {},
    }
}

proof fn lemma_pairs_no_empty(
    cfg: CfgV,
    path: Seq<PathElV>,
    ss: Seq<ValueV>,
    ts: Seq<ValueV>,
    i: int,
)
    ensures
        pairs_no_empty(pairs_from(cfg, path, ss, ts, i)),
    decreases ss, 0int, overlap(ss, ts) - i,
{
    if 0 <= i < overlap(ss, ts) {
        let child = path.push(PathElV::ArrayIndex(ArrayIndex::Index(i as usize)));
        lemma_diff_no_empty_composites(cfg, child, ss[i], ts[i]);
        lemma_pairs_no_empty(cfg, path, ss, ts, i + 1);
        let rest = pairs_from(cfg, path, ss, ts, i + 1);
        match values_diff(cfg, child, ss[i], ts[i]) {
            Some(d) => {
                let whole = seq![(i as usize, d)] + rest;
                assert forall|x: int| 0 <= x < whole.len() implies no_empty_composites(
                    (#[trigger] whole[x]).1,
                ) by {
                    if x > 0 {
                        assert(whole[x] == rest[x - 1]);
                    }
                }
            },
            None => {},
        }
    }
}

proof fn lemma_object_pass_no_empty(
    cfg: CfgV,
    path: Seq<PathElV>,
    src: Seq<(Seq<char>, ValueV)>,
    tgt: Seq<(Seq<char>, ValueV)>,
    i: int,
)
    ensures
        entries_no_empty(object_pass(cfg, path, src, tgt, i).0),
    decreases src, 0int, src.len() - i,
{
    if 0 <= i < src.len() {
        let k = src[i].0;
        let child = path.push(PathElV::Key(k));
        let present = find_key_from(tgt, k, 0) is Some;
        if is_ignored(cfg.ignore_paths, child, present) {
            lemma_object_pass_no_empty(cfg, path, src, remove_key(tgt, k), i + 1);
        } else {
            match find_key_from(tgt, k, 0) {
                None => {
                    lemma_object_pass_no_empty(cfg, path, src, tgt, i + 1);
                    let rest = object_pass(cfg, path, src, tgt, i + 1);
                    let whole = seq![(k, EntryDiffV::Extra { value: src[i].1 })] + rest.0;
                    assert forall|x: int| 0 <= x < whole.len() implies entry_no_empty(
                        (#[trigger] whole[x]).1,
                    ) by {
                        if x > 0 {
                            assert(whole[x] == rest.0[x - 1]);
                        }
                    }
                },
                Some(j) => {
                    lemma_object_pass_no_empty(cfg, path, src, tgt.remove(j), i + 1);
                    lemma_diff_no_empty_composites(cfg, child, src[i].1, tgt[j].1);
                    let rest = object_pass(cfg, path, src, tgt.remove(j), i + 1);
                    match values_diff(cfg, child, src[i].1, tgt[j].1) {
                        Some(d) => {
                            let whole = seq![(k, EntryDiffV::Value { value_diff: d })] + rest.0;
                            assert forall|x: int| 0 <= x < whole.len() implies entry_no_empty(
                                (#[trigger] whole[x]).1,
                            ) by {
                                if x > 0 {
                                    assert(whole[x] == rest.0[x - 1]);
                                }
                            }
                        },
                        None => {},
                    }
                },
            }
        }
    }
}

/// The recorded entries that carry the given key, in order.
pub open spec fn entries_with_key(es: Seq<(Seq<char>, EntryDiffV)>, k: Seq<char>) -> Seq<
    (Seq<char>, EntryDiffV),
>
    decreases es.len(),
{
    if es.len() == 0 {
        Seq::empty()
    } else if es[0].0 == k {
        seq![es[0]] + entries_with_key(es.drop_first(), k)
    } else {
        entries_with_key(es.drop_first(), k)
    }
}

/// The object entries that carry the given key, in order.
pub open spec fn targets_with_key(es: Seq<(Seq<char>, ValueV)>, k: Seq<char>) -> Seq<
    (Seq<char>, ValueV),
>
    decreases es.len(),
{
    if es.len() == 0 {
        Seq::empty()
    } else if es[0].0 == k {
        seq![es[0]] + targets_with_key(es.drop_first(), k)
    } else {
        targets_with_key(es.drop_first(), k)
    }
}

proof fn lemma_entries_with_key_add(
    a: Seq<(Seq<char>, EntryDiffV)>,
    b: Seq<(Seq<char>, EntryDiffV)>,
    k: Seq<char>,
)
    ensures
        entries_with_key(a + b, k) == entries_with_key(a, k) + entries_with_key(b, k),
    decreases a.len(),
{
    if a.len() == 0 {
        assert(a + b =~= b);
        assert(entries_with_key(a, k) + entries_with_key(b, k) =~= entries_with_key(b, k));
    } else {
        assert((a + b).drop_first() =~= a.drop_first() + b);
        lemma_entries_with_key_add(a.drop_first(), b, k);
        assert((a + b)[0] == a[0]);
        if a[0].0 == k {
            assert(seq![a[0]] + (entries_with_key(a.drop_first(), k) + entries_with_key(b, k))
                =~= (seq![a[0]] + entries_with_key(a.drop_first(), k)) + entries_with_key(b, k));
        }
    }
}

proof fn lemma_targets_with_key_add(
    a: Seq<(Seq<char>, ValueV)>,
    b: Seq<(Seq<char>, ValueV)>,
    k: Seq<char>,
)
    ensures
        targets_with_key(a + b, k) == targets_with_key(a, k) + targets_with_key(b, k),
    decreases a.len(),
{
    if a.len() == 0 {
        assert(a + b =~= b);
        assert(targets_with_key(a, k) + targets_with_key(b, k) =~= targets_with_key(b, k));
    } else {
        assert((a + b).drop_first() =~= a.drop_first() + b);
        lemma_targets_with_key_add(a.drop_first(), b, k);
        assert((a + b)[0] == a[0]);
        if a[0].0 == k {
            assert(seq![a[0]] + (targets_with_key(a.drop_first(), k) + targets_with_key(b, k))
                =~= (seq![a[0]] + targets_with_key(a.drop_first(), k)) + targets_with_key(b, k));
        }
    }
}

proof fn lemma_targets_no_key_empty(es: Seq<(Seq<char>, ValueV)>, k: Seq<char>)
    requires
        forall|x: int| 0 <= x < es.len() ==> (#[trigger] es[x]).0 != k,
    ensures
        targets_with_key(es, k) == Seq::<(Seq<char>, ValueV)>::empty(),
    decreases es.len(),
{
    if es.len() > 0 {
        assert forall|x: int| 0 <= x < es.drop_first().len() implies (#[trigger] es.drop_first()[x]).0
            != k by {
            assert(es.drop_first()[x] == es[x + 1]);
        }
        lemma_targets_no_key_empty(es.drop_first(), k);
    }
}

proof fn lemma_find_shift(es: Seq<(Seq<char>, ValueV)>, k: Seq<char>, i: int)
    requires
        es.len() > 0,
        0 <= i,
    ensures
        find_key_from(es, k, i + 1) == (match find_key_from(es.drop_first(), k, i) {
            Some(j) => Some(j + 1),
            None => None::<int>,
        }),
    decreases es.len() - i,
{
    if i < es.drop_first().len() {
        assert(es.drop_first()[i] == es[i + 1]);
        if es[i + 1].0 != k {
            lemma_find_shift(es, k, i + 1);
        }
    }
}

proof fn lemma_find_filter(es: Seq<(Seq<char>, ValueV)>, k: Seq<char>)
    ensures
        find_key_from(es, k, 0) is None <==> targets_with_key(es, k).len() == 0,
        find_key_from(es, k, 0) matches Some(j0) ==> (0 <= j0 < es.len() && es[j0].0 == k
            && targets_with_key(es, k)[0] == es[j0] && forall|x: int|
            0 <= x < j0 ==> (#[trigger] es[x]).0 != k),
    decreases es.len(),
{
    if es.len() > 0 {
        lemma_find_filter(es.drop_first(), k);
        if es[0].0 != k {
            lemma_find_shift(es, k, 0);
            match find_key_from(es.drop_first(), k, 0) {
                Some(jp) => {
                    assert(es.drop_first()[jp] == es[jp + 1]);
                    assert forall|x: int| 0 <= x < jp + 1 implies (#[trigger] es[x]).0 != k by {
                        if x > 0 {
                            assert(es.drop_first()[x - 1] == es[x]);
                        }
                    }
                },
                None => {},
            }
        }
    }
}

proof fn lemma_targets_singleton(x: (Seq<char>, ValueV), k: Seq<char>)
    ensures
        targets_with_key(seq![x], k) == (if x.0 == k {
            seq![x]
        } else {
            Seq::<(Seq<char>, ValueV)>::empty()
        }),
{
    assert(seq![x].drop_first() =~= Seq::<(Seq<char>, ValueV)>::empty());
    assert(targets_with_key(Seq::<(Seq<char>, ValueV)>::empty(), k) =~= Seq::<
        (Seq<char>, ValueV),
    >::empty());
    if x.0 == k {
        assert(targets_with_key(seq![x], k) =~= seq![x]);
    } else {
        assert(targets_with_key(seq![x], k) =~= Seq::<(Seq<char>, ValueV)>::empty());
    }
}

proof fn lemma_remove_preserves_unique(es: Seq<(Seq<char>, ValueV)>, j: int)
    requires
        0 <= j < es.len(),
        forall|a: int, b: int| 0 <= a < b < es.len() ==> (#[trigger] es[a]).0 != (#[trigger] es[b]).0,
    ensures
        forall|a: int, b: int|
            0 <= a < b < es.remove(j).len() ==> (#[trigger] es.remove(j)[a]).0 != (
            #[trigger] es.remove(j)[b]).0,
{
    assert forall|a: int, b: int|
        0 <= a < b < es.remove(j).len() implies (#[trigger] es.remove(j)[a]).0 != (
    #[trigger] es.remove(j)[b]).0 by {
        let a2 = (if a < j {
            a
        } else {
            a + 1
        });
        let b2 = (if b < j {
            b
        } else {
            b + 1
        });
        assert(es.remove(j)[a] == es[a2]);
        assert(es.remove(j)[b] == es[b2]);
    }
}

proof fn lemma_unique_singleton(es: Seq<(Seq<char>, ValueV)>, k: Seq<char>, j0: int)
    requires
        forall|a: int, b: int| 0 <= a < b < es.len() ==> (#[trigger] es[a]).0 != (#[trigger] es[b]).0,
        find_key_from(es, k, 0) == Some(j0),
    ensures
        targets_with_key(es, k) == seq![es[j0]],
        targets_with_key(es.remove(j0), k) == Seq::<(Seq<char>, ValueV)>::empty(),
{
    lemma_find_filter(es, k);
    let pre = es.subrange(0, j0);
    let post = es.subrange(j0 + 1, es.len() as int);
    assert(es =~= pre + (seq![es[j0]] + post));
    lemma_targets_with_key_add(pre, seq![es[j0]] + post, k);
    lemma_targets_with_key_add(seq![es[j0]], post, k);
    lemma_targets_singleton(es[j0], k);
    assert forall|x: int| 0 <= x < pre.len() implies (#[trigger] pre[x]).0 != k by {
        assert(pre[x] == es[x]);
    }
    lemma_targets_no_key_empty(pre, k);
    assert forall|x: int| 0 <= x < post.len() implies (#[trigger] post[x]).0 != k by {
        assert(post[x] == es[j0 + 1 + x]);
        assert(es[j0].0 != es[j0 + 1 + x].0);
    }
    lemma_targets_no_key_empty(post, k);
    assert(targets_with_key(es, k) =~= seq![es[j0]]);
    assert(es.remove(j0) =~= pre + post);
    lemma_targets_with_key_add(pre, post, k);
    assert(targets_with_key(es.remove(j0), k) =~= Seq::<(Seq<char>, ValueV)>::empty());
}

proof fn lemma_targets_with_key_remove_other(es: Seq<(Seq<char>, ValueV)>, j: int, k: Seq<char>)
    requires
        0 <= j < es.len(),
        es[j].0 != k,
    ensures
        targets_with_key(es.remove(j), k) == targets_with_key(es, k),
{
    let pre = es.subrange(0, j);
    let post = es.subrange(j + 1, es.len() as int);
    assert(es =~= pre + (seq![es[j]] + post));
    assert(es.remove(j) =~= pre + post);
    lemma_targets_with_key_add(pre, seq![es[j]] + post, k);
    lemma_targets_with_key_add(seq![es[j]], post, k);
    lemma_targets_with_key_add(pre, post, k);
    lemma_targets_singleton(es[j], k);
    assert(targets_with_key(es.remove(j), k) =~= targets_with_key(es, k));
}

proof fn lemma_entries_singleton(x: (Seq<char>, EntryDiffV), k: Seq<char>)
    ensures
        entries_with_key(seq![x], k) == (if x.0 == k {
            seq![x]
        } else {
            Seq::<(Seq<char>, EntryDiffV)>::empty()
        }),
{
    assert(seq![x].drop_first() =~= Seq::<(Seq<char>, EntryDiffV)>::empty());
    assert(entries_with_key(Seq::<(Seq<char>, EntryDiffV)>::empty(), k) =~= Seq::<
        (Seq<char>, EntryDiffV),
    >::empty());
    if x.0 == k {
        assert(entries_with_key(seq![x], k) =~= seq![x]);
    } else {
        assert(entries_with_key(seq![x], k) =~= Seq::<(Seq<char>, EntryDiffV)>::empty());
    }
}

proof fn lemma_find_from_none(es: Seq<(Seq<char>, ValueV)>, k: Seq<char>, i: int)
    requires
        0 <= i,
        forall|j: int| i <= j < es.len() ==> (#[trigger] es[j]).0 != k,
    ensures
        find_key_from(es, k, i) is None,
    decreases es.len() - i,
{
    if i < es.len() {
        lemma_find_from_none(es, k, i + 1);
    }
}

proof fn lemma_missing_with_key(ts: Seq<(Seq<char>, ValueV)>, k: Seq<char>)
    ensures
        entries_with_key(missing_of(ts), k) == missing_of(targets_with_key(ts, k)),
    decreases ts.len(),
{
    if ts.len() == 0 {
        assert(missing_of(ts) =~= Seq::<(Seq<char>, EntryDiffV)>::empty());
        assert(missing_of(targets_with_key(ts, k)) =~= Seq::<(Seq<char>, EntryDiffV)>::empty());
    } else {
        lemma_missing_with_key(ts.drop_first(), k);
        assert(missing_of(ts).drop_first() =~= missing_of(ts.drop_first()));
        assert(missing_of(ts)[0] == (ts[0].0, EntryDiffV::Missing { value: ts[0].1 }));
        if ts[0].0 == k {
            assert(missing_of(targets_with_key(ts, k)) =~= seq![
                (ts[0].0, EntryDiffV::Missing { value: ts[0].1 }),
            ] + missing_of(targets_with_key(ts.drop_first(), k)));
            assert(entries_with_key(missing_of(ts), k) =~= seq![
                (ts[0].0, EntryDiffV::Missing { value: ts[0].1 }),
            ] + entries_with_key(missing_of(ts.drop_first()), k));
        } else {
            assert(missing_of(targets_with_key(ts, k)) =~= missing_of(
                targets_with_key(ts.drop_first(), k),
            ));
        }
    }
}

proof fn lemma_object_pass_key(
    cfg: CfgV,
    path: Seq<PathElV>,
    src: Seq<(Seq<char>, ValueV)>,
    tgt: Seq<(Seq<char>, ValueV)>,
    i: int,
    k: Seq<char>,
)
    requires
        0 <= i <= src.len(),
        forall|a: int, b: int|
            i <= a < b < src.len() ==> (#[trigger] src[a]).0 != (#[trigger] src[b]).0,
        forall|a: int, b: int|
            0 <= a < b < tgt.len() ==> (#[trigger] tgt[a]).0 != (#[trigger] tgt[b]).0,
    ensures
        ({
            let pass = object_pass(cfg, path, src, tgt, i);
            let sj = find_key_from(src, k, i);
            let child = path.push(PathElV::Key(k));
            let tk = targets_with_key(tgt, k);
            &&& (sj is None ==> entries_with_key(pass.0, k) == Seq::<
                (Seq<char>, EntryDiffV),
            >::empty() && targets_with_key(pass.1, k) == tk)
            &&& (sj matches Some(j) ==> {
                let sv = src[j].1;
                let present = tk.len() > 0;
                let ign = is_ignored(cfg.ignore_paths, child, present);
                &&& targets_with_key(pass.1, k) == Seq::<(Seq<char>, ValueV)>::empty()
                &&& (ign ==> entries_with_key(pass.0, k) == Seq::<
                    (Seq<char>, EntryDiffV),
                >::empty())
                &&& (!ign && !present ==> entries_with_key(pass.0, k) == seq![
                    (k, EntryDiffV::Extra { value: sv }),
                ])
                &&& (!ign && present ==> (match values_diff(cfg, child, sv, tk[0].1) {
                    Some(d) => entries_with_key(pass.0, k) == seq![
                        (k, EntryDiffV::Value { value_diff: d }),
                    ],
                    None => entries_with_key(pass.0, k) == Seq::<
                        (Seq<char>, EntryDiffV),
                    >::empty(),
                }))
            })
        }),
    decreases src.len() - i,
{
    lemma_find_filter(tgt, k);
    if i >= src.len() {
        assert(entries_with_key(Seq::<(Seq<char>, EntryDiffV)>::empty(), k) =~= Seq::<
            (Seq<char>, EntryDiffV),
        >::empty());
    } else {
        let k2 = src[i].0;
        let child2 = path.push(PathElV::Key(k2));
        let present2 = find_key_from(tgt, k2, 0) is Some;
        let ign2 = is_ignored(cfg.ignore_paths, child2, present2);
        lemma_find_filter(tgt, k2);
        if k2 == k {
            assert(find_key_from(src, k, i) == Some(i));
            assert forall|j: int| i + 1 <= j < src.len() implies (#[trigger] src[j]).0 != k by {
                assert(src[i].0 != src[j].0);
            }
            lemma_find_from_none(src, k, i + 1);
        }
        if ign2 {
            match find_key_from(tgt, k2, 0) {
                Some(j2) => {
                    lemma_remove_preserves_unique(tgt, j2);
                    lemma_object_pass_key(cfg, path, src, tgt.remove(j2), i + 1, k);
                    if k2 == k {
                        lemma_unique_singleton(tgt, k, j2);
                    } else {
                        lemma_targets_with_key_remove_other(tgt, j2, k);
                    }
                },
                None => {
                    lemma_object_pass_key(cfg, path, src, tgt, i + 1, k);
                },
            }
        } else {
            match find_key_from(tgt, k2, 0) {
                None => {
                    lemma_object_pass_key(cfg, path, src, tgt, i + 1, k);
                    let rest = object_pass(cfg, path, src, tgt, i + 1);
                    let head = (k2, EntryDiffV::Extra { value: src[i].1 });
                    lemma_entries_with_key_add(seq![head], rest.0, k);
                    lemma_entries_singleton(head, k);
                    if k2 == k {
                        assert(entries_with_key(seq![head] + rest.0, k) =~= seq![head]);
                    } else {
                        assert(entries_with_key(seq![head] + rest.0, k) =~= entries_with_key(
                            rest.0,
                            k,
                        ));
                    }
                },
                Some(j2) => {
                    lemma_remove_preserves_unique(tgt, j2);
                    lemma_object_pass_key(cfg, path, src, tgt.remove(j2), i + 1, k);
                    let rest = object_pass(cfg, path, src, tgt.remove(j2), i + 1);
                    if k2 == k {
                        lemma_unique_singleton(tgt, k, j2);
                    } else {
                        lemma_targets_with_key_remove_other(tgt, j2, k);
                    }
                    match values_diff(cfg, child2, src[i].1, tgt[j2].1) {
                        Some(dd) => {
                            let head = (k2, EntryDiffV::Value { value_diff: dd });
                            lemma_entries_with_key_add(seq![head], rest.0, k);
                            lemma_entries_singleton(head, k);
                            if k2 == k {
                                assert(entries_with_key(seq![head] + rest.0, k) =~= seq![head]);
                            } else {
                                assert(entries_with_key(seq![head] + rest.0, k)
                                    =~= entries_with_key(rest.0, k));
                            }
                        },
                        None => {},
                    }
                },
            }
        }
    }
}

/// Object diff completeness: with pairwise-distinct keys on both sides, a
/// source-only key yields exactly one `Extra` entry, unless its path is
/// ignored; a target-only key yields exactly one `Missing` entry; a key on
/// both sides whose values differ yields exactly one `Value` entry, unless
/// its path is ignored; a key on both sides with equal values, an ignored
/// key, and a key on neither side yield no entry at all.
pub proof fn lemma_object_diff_completeness(
    cfg: CfgV,
    path: Seq<PathElV>,
    src: Seq<(Seq<char>, ValueV)>,
    tgt: Seq<(Seq<char>, ValueV)>,
    k: Seq<char>,
)
    requires
        keys_unique(src),
        keys_unique(tgt),
    ensures
        ({
            let es = object_diff_entries(cfg, path, src, tgt);
            let sj = find_key_from(src, k, 0);
            let tj = find_key_from(tgt, k, 0);
            let child = path.push(PathElV::Key(k));
            &&& (sj is None && tj is None ==> entries_with_key(es, k) == Seq::<
                (Seq<char>, EntryDiffV),
            >::empty())
            &&& (sj is None && tj is Some ==> entries_with_key(es, k) == seq![
                (k, EntryDiffV::Missing { value: tgt[tj.unwrap()].1 }),
            ])
            &&& (sj is Some && tj is None ==> (if is_ignored(cfg.ignore_paths, child, false) {
                entries_with_key(es, k) == Seq::<(Seq<char>, EntryDiffV)>::empty()
            } else {
                entries_with_key(es, k) == seq![
                    (k, EntryDiffV::Extra { value: src[sj.unwrap()].1 }),
                ]
            }))
            &&& (sj is Some && tj is Some ==> (if is_ignored(cfg.ignore_paths, child, true) {
                entries_with_key(es, k) == Seq::<(Seq<char>, EntryDiffV)>::empty()
            } else {
                match values_diff(cfg, child, src[sj.unwrap()].1, tgt[tj.unwrap()].1) {
                    Some(d) => entries_with_key(es, k) == seq![
                        (k, EntryDiffV::Value { value_diff: d }),
                    ],
                    None => entries_with_key(es, k) == Seq::<(Seq<char>, EntryDiffV)>::empty(),
                }
            }))
        }),
{
    lemma_object_pass_key(cfg, path, src, tgt, 0, k);
    lemma_find_filter(tgt, k);
    let pass = object_pass(cfg, path, src, tgt, 0);
    let tk = targets_with_key(tgt, k);
    lemma_entries_with_key_add(pass.0, missing_of(pass.1), k);
    lemma_missing_with_key(pass.1, k);
    match find_key_from(src, k, 0) {
        None => {
            match find_key_from(tgt, k, 0) {
                Some(j) => {
                    lemma_unique_singleton(tgt, k, j);
                    assert(missing_of(tk) =~= seq![(k, EntryDiffV::Missing { value: tgt[j].1 })]);
                    assert(entries_with_key(object_diff_entries(cfg, path, src, tgt), k)
                        =~= seq![(k, EntryDiffV::Missing { value: tgt[j].1 })]);
                },
                None => {
                    assert(missing_of(tk) =~= Seq::<(Seq<char>, EntryDiffV)>::empty());
                    assert(entries_with_key(object_diff_entries(cfg, path, src, tgt), k) =~= Seq::<
                        (Seq<char>, EntryDiffV),
                    >::empty());
                },
            }
        },
        Some(j) => {
            assert(missing_of(targets_with_key(pass.1, k)) =~= Seq::<
                (Seq<char>, EntryDiffV),
            >::empty());
            match find_key_from(tgt, k, 0) {
                Some(j2) => {
                    lemma_unique_singleton(tgt, k, j2);
                    assert(tk[0] == tgt[j2]);
                    assert(entries_with_key(object_diff_entries(cfg, path, src, tgt), k)
                        =~= entries_with_key(pass.0, k));
                },
                None => {
                    assert(entries_with_key(object_diff_entries(cfg, path, src, tgt), k)
                        =~= entries_with_key(pass.0, k));
                },
            }
        },
    }
}

} // verus!

