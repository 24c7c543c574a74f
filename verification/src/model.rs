use vstd::prelude::*;

use crate::diff::ArrayDiffV;
use crate::diff::DiffV;
use crate::diff::EntryDiffV;
use crate::diff::ScalarDiffV;
use crate::diff::type_of;
use crate::outside::approx_num_eq;
use crate::outside::rfc3339_of;
use crate::path::ArrayIndex;
use crate::path::PathElV;
use crate::path::is_ignored;
use crate::value::NumberV;
use crate::value::ValueV;

verus! {

/// The configuration under which two values are compared: the ignore rules
/// in configuration order, whether a null and an empty array count as equal,
/// the epsilon for float comparison as decimal text, and the timestamp
/// tolerance in nanoseconds.
pub struct CfgV {
    pub ignore_paths: Seq<(Seq<PathElV>, bool)>,
    pub equate_empty_arrays: bool,
    pub approx_float_eq_epsilon: Seq<char>,
    pub approx_date_time_eq_duration: u64,
}

/// Whether the number is a non-negative integer.
pub open spec fn num_is_u64(n: NumberV) -> bool {
    n is UInt
}

/// Whether the number is an integer that fits in `i64`.
pub open spec fn num_is_i64(n: NumberV) -> bool {
    match n {
        NumberV::UInt(v) => v <= i64::MAX as u64,
        NumberV::Int(_) => true,
        NumberV::Float(_) => false,
    }
}

/// Whether the number is a floating-point number.
pub open spec fn num_is_f64(n: NumberV) -> bool {
    n is Float
}

/// The difference of two numbers. Two integers of the same signedness
/// compare exactly; otherwise, when either side is floating point, they
/// compare by approximate equality under the configured epsilon; two
/// integers of differing signedness that share no signed representation
/// count as equal to the comparison (no difference is reported).
pub open spec fn number_diff(eps: Seq<char>, s: NumberV, t: NumberV) -> Option<DiffV> {
    if (num_is_u64(s) && num_is_u64(t)) || (num_is_i64(s) && num_is_i64(t)) {
        if s == t {
            None
        } else {
            Some(DiffV::Scalar(ScalarDiffV::Number { source: s, target: t }))
        }
    } else if num_is_f64(s) || num_is_f64(t) {
        if approx_num_eq(s, t, eps) {
            None
        } else {
            Some(DiffV::Scalar(ScalarDiffV::Number { source: s, target: t }))
        }
    } else {
        None
    }
}

/// The instant a parsed timestamp denotes, in nanoseconds since the epoch.
pub open spec fn instant_nanos(p: (i64, u32)) -> int {
    p.0 * 1_000_000_000 + p.1
}

/// The difference of two strings. With a nonzero timestamp tolerance, when
/// both strings read as RFC 3339 timestamps, they compare by the absolute
/// delta of their instants against the tolerance; otherwise they compare
/// literally.
pub open spec fn string_diff(dur: u64, s: Seq<char>, t: Seq<char>) -> Option<DiffV> {
    if dur != 0 && rfc3339_of(s) is Some && rfc3339_of(t) is Some {
        let a = instant_nanos(rfc3339_of(s).unwrap());
        let b = instant_nanos(rfc3339_of(t).unwrap());
        let delta = (if a >= b {
            a - b
        } else {
            b - a
        });
        if delta > dur {
            Some(DiffV::Scalar(ScalarDiffV::String { source: s, target: t }))
        } else {
            None
        }
    } else if s == t {
        None
    } else {
        Some(DiffV::Scalar(ScalarDiffV::String { source: s, target: t }))
    }
}

/// A difference of kinds, carrying both kinds and both raw values.
pub open spec fn type_diff(s: ValueV, t: ValueV) -> Option<DiffV> {
    Some(
        DiffV::Type {
            source_type: type_of(s),
            source_value: s,
            target_type: type_of(t),
            target_value: t,
        },
    )
}

/// The overlapping length of two arrays.
pub open spec fn overlap(ss: Seq<ValueV>, ts: Seq<ValueV>) -> int {
    if ss.len() <= ts.len() {
        ss.len() as int
    } else {
        ts.len() as int
    }
}

/// The difference of two values compared at `path` under `cfg`: the
/// comparison of the whole trees, dispatched on the pair of kinds. `None`
/// means the two values are judged equal under the configuration.
pub open spec fn values_diff(cfg: CfgV, path: Seq<PathElV>, s: ValueV, t: ValueV) -> Option<
    DiffV,
>
    decreases s, 0int, 0int,
{
    match (s, t) {
        (ValueV::Null, ValueV::Null) => None,
        (ValueV::Bool(a), ValueV::Bool(b)) => if a == b {
            None
        } else {
            Some(DiffV::Scalar(ScalarDiffV::Bool { source: a, target: b }))
        },
        (ValueV::Number(a), ValueV::Number(b)) => number_diff(cfg.approx_float_eq_epsilon, a, b),
        (ValueV::String(a), ValueV::String(b)) => string_diff(
            cfg.approx_date_time_eq_duration,
            a,
            b,
        ),
        (ValueV::Array(a), ValueV::Array(b)) => match array_diff(cfg, path, a, b) {
            Some(ad) => Some(DiffV::Array(ad)),
            None => None,
        },
        (ValueV::Object(a), ValueV::Object(b)) => match object_diff(cfg, path, a, b) {
            Some(es) => Some(DiffV::Object { different_entries: es }),
            None => None,
        },
        (ValueV::Array(a), ValueV::Null) => if cfg.equate_empty_arrays && a.len() == 0 {
            None
        } else {
            type_diff(s, t)
        },
        (ValueV::Null, ValueV::Array(b)) => if cfg.equate_empty_arrays && b.len() == 0 {
            None
        } else {
            type_diff(s, t)
        },
        _ => type_diff(s, t),
    }
}

/// The differing pairs of the overlapping range, from position `i` on, in
/// index order: each position compared under its own path element, and kept
/// only when the comparison finds a difference.
pub open spec fn pairs_from(
    cfg: CfgV,
    path: Seq<PathElV>,
    ss: Seq<ValueV>,
    ts: Seq<ValueV>,
    i: int,
) -> Seq<(usize, DiffV)>
    decreases ss, 0int, overlap(ss, ts) - i,
{
    if i < 0 || i >= overlap(ss, ts) {
        Seq::empty()
    } else {
        let child = path.push(PathElV::ArrayIndex(ArrayIndex::Index(i as usize)));
        let rest = pairs_from(cfg, path, ss, ts, i + 1);
        match values_diff(cfg, child, ss[i], ts[i]) {
            Some(d) => seq![(i as usize, d)] + rest,
            None => rest,
        }
    }
}

/// The difference of two arrays: positional comparison over the overlapping
/// range, classified by the relative length. Equal lengths with no differing
/// pair yield no difference at all.
pub open spec fn array_diff(cfg: CfgV, path: Seq<PathElV>, ss: Seq<ValueV>, ts: Seq<ValueV>) -> Option<
    ArrayDiffV,
>
    decreases ss, 1int, 0int,
{
    let pairs = pairs_from(cfg, path, ss, ts, 0);
    let opt_pairs = (if pairs.len() == 0 {
        Option::<Seq<(usize, DiffV)>>::None
    } else {
        Option::Some(pairs)
    });
    if ss.len() > ts.len() {
        Some(
            ArrayDiffV::Longer {
                different_pairs: opt_pairs,
                extra_length: (ss.len() - ts.len()) as usize,
            },
        )
    } else if ss.len() < ts.len() {
        Some(
            ArrayDiffV::Shorter {
                different_pairs: opt_pairs,
                missing_elements: ts.skip(ss.len() as int),
            },
        )
    } else {
        match opt_pairs {
            Some(p) => Some(ArrayDiffV::PairsOnly { different_pairs: p }),
            None => None,
        }
    }
}

/// The position of the first entry with the given key, from position `i` on.
pub open spec fn find_key_from(es: Seq<(Seq<char>, ValueV)>, k: Seq<char>, i: int) -> Option<int>
    decreases es.len() - i,
{
    if i < 0 || i >= es.len() {
        None
    } else if es[i].0 == k {
        Some(i)
    } else {
        find_key_from(es, k, i + 1)
    }
}

/// The entries with the first occurrence of the given key removed, if any.
pub open spec fn remove_key(es: Seq<(Seq<char>, ValueV)>, k: Seq<char>) -> Seq<
    (Seq<char>, ValueV),
> {
    match find_key_from(es, k, 0) {
        Some(j) => es.remove(j),
        None => es,
    }
}

/// One pass over the source entries from position `i` on, against a working
/// copy of the target entries. For each source key in order: if its child
/// path is ignored the key is skipped and taken out of the working copy;
/// otherwise a key absent from the working copy yields an `Extra` entry, and
/// a key present there is taken out and compared, yielding a `Value` entry
/// exactly when the comparison finds a difference. Returns the entries in
/// source order and what remains of the working copy.
pub open spec fn object_pass(
    cfg: CfgV,
    path: Seq<PathElV>,
    src: Seq<(Seq<char>, ValueV)>,
    tgt: Seq<(Seq<char>, ValueV)>,
    i: int,
) -> (Seq<(Seq<char>, EntryDiffV)>, Seq<(Seq<char>, ValueV)>)
    decreases src, 0int, src.len() - i,
{
    if i < 0 || i >= src.len() {
        (Seq::empty(), tgt)
    } else {
        let k = src[i].0;
        let child = path.push(PathElV::Key(k));
        let present = find_key_from(tgt, k, 0) is Some;
        if is_ignored(cfg.ignore_paths, child, present) {
            object_pass(cfg, path, src, remove_key(tgt, k), i + 1)
        } else {
            match find_key_from(tgt, k, 0) {
                None => {
                    let rest = object_pass(cfg, path, src, tgt, i + 1);
                    (seq![(k, EntryDiffV::Extra { value: src[i].1 })] + rest.0, rest.1)
                },
                Some(j) => {
                    let rest = object_pass(cfg, path, src, tgt.remove(j), i + 1);
                    match values_diff(cfg, child, src[i].1, tgt[j].1) {
                        Some(d) => (
                            seq![(k, EntryDiffV::Value { value_diff: d })] + rest.0,
                            rest.1,
                        ),
                        None => rest,
                    }
                },
            }
        }
    }
}

/// The leftover target entries, each reported as `Missing`.
pub open spec fn missing_of(es: Seq<(Seq<char>, ValueV)>) -> Seq<(Seq<char>, EntryDiffV)> {
    es.map_values(|p: (Seq<char>, ValueV)| (p.0, EntryDiffV::Missing { value: p.1 }))
}

/// All entries the object comparison records: the source-driven entries in
/// source order, then every key left in the working copy of the target as
/// `Missing`, in target order.
pub open spec fn object_diff_entries(
    cfg: CfgV,
    path: Seq<PathElV>,
    src: Seq<(Seq<char>, ValueV)>,
    tgt: Seq<(Seq<char>, ValueV)>,
) -> Seq<(Seq<char>, EntryDiffV)>
    decreases src, 1int, 1int,
{
    let pass = object_pass(cfg, path, src, tgt, 0);
    pass.0 + missing_of(pass.1)
}

/// The difference of two objects. No recorded entry means no difference at
/// all.
pub open spec fn object_diff(
    cfg: CfgV,
    path: Seq<PathElV>,
    src: Seq<(Seq<char>, ValueV)>,
    tgt: Seq<(Seq<char>, ValueV)>,
) -> Option<Seq<(Seq<char>, EntryDiffV)>>
    decreases src, 1int, 2int,
{
    let all = object_diff_entries(cfg, path, src, tgt);
    if all.len() == 0 {
        None
    } else {
        Some(all)
    }
}

} // verus!
