use vstd::prelude::*;

use crate::diff::ArrayDifference;
use crate::diff::DiffV;
use crate::diff::Difference;
use crate::diff::DumbMap;
use crate::diff::EntryDiffV;
use crate::diff::EntryDifference;
use crate::diff::ScalarDifference;
use crate::diff::Type;
use crate::diff::diff_view;
use crate::diff::lemma_obj_entries_view;
use crate::diff::lemma_obj_entries_view_push;
use crate::diff::lemma_pairs_view;
use crate::diff::lemma_pairs_view_push;
use crate::diff::obj_entries_view;
use crate::diff::pairs_view;
use crate::model::CfgV;
use crate::model::array_diff;
use crate::model::find_key_from;
use crate::model::missing_of;
use crate::model::number_diff;
use crate::model::num_is_f64;
use crate::model::num_is_i64;
use crate::model::num_is_u64;
use crate::model::object_diff;
use crate::model::object_pass;
use crate::model::overlap;
use crate::model::pairs_from;
use crate::model::remove_key;
use crate::model::string_diff;
use crate::model::type_diff;
use crate::model::values_diff;
use crate::outside::parse_rfc3339;
use crate::outside::relative_eq_numbers;
use crate::path::ArrayIndex;
use crate::path::IgnorePath;
use crate::path::Path;
use crate::path::PathElV;
use crate::path::PathElement;
use crate::path::resolve_ignored;
use crate::element_path_parser::parse_element_path;
use crate::element_path_parser::parsed_elements;
use crate::value::Number;
use crate::value::Value;
use crate::value::entries_view;
use crate::value::lemma_entries_view;
use crate::value::lemma_entries_view_remove;
use crate::value::lemma_values_view;
use crate::value::value_view;
use crate::value::values_view;

verus! {

impl Number {
    /// Whether this number is a non-negative integer.
    pub fn is_u64(&self) -> (r: bool)
        ensures
            r == num_is_u64(self.deep_view()),
    {
        matches!(self, Number::UInt(_))
    }

    /// Whether this number is an integer that fits in `i64`.
    pub fn is_i64(&self) -> (r: bool)
        ensures
            r == num_is_i64(self.deep_view()),
    {
        match self {
            Number::UInt(v) => *v <= i64::MAX as u64,
            Number::Int(_) => true,
            Number::Float(_) => false,
        }
    }

    /// Whether this number is floating point.
    pub fn is_f64(&self) -> (r: bool)
        ensures
            r == num_is_f64(self.deep_view()),
    {
        matches!(self, Number::Float(_))
    }
}

/// Exact structural equality of two numbers.
fn numbers_equal(a: &Number, b: &Number) -> (r: bool)
    ensures
        r == (a.deep_view() == b.deep_view()),
{
    match (a, b) {
        (Number::UInt(x), Number::UInt(y)) => *x == *y,
        (Number::Int(x), Number::Int(y)) => *x == *y,
        (Number::Float(x), Number::Float(y)) => *x == *y,
        _ => false,
    }
}

/// The comparison of a configured source value against a target value:
/// the configuration and the two values, consumed by `compare`.
#[derive(Debug)]
pub struct Diff {
    ignore_paths: Vec<IgnorePath>,
    equate_empty_arrays: bool,
    approx_float_eq_epsilon: String,
    approx_date_time_eq_duration: u64,
    source: Value,
    target: Value,
}

impl Diff {
    /// The configuration under which this comparison runs.
    pub closed spec fn cfg(&self) -> CfgV {
        CfgV {
            ignore_paths: self.ignore_paths.deep_view(),
            equate_empty_arrays: self.equate_empty_arrays,
            approx_float_eq_epsilon: self.approx_float_eq_epsilon@,
            approx_date_time_eq_duration: self.approx_date_time_eq_duration,
        }
    }

    /// The shape of the configured source value.
    pub closed spec fn source_view(&self) -> crate::value::ValueV {
        self.source.deep_view()
    }

    /// The shape of the configured target value.
    pub closed spec fn target_view(&self) -> crate::value::ValueV {
        self.target.deep_view()
    }

    fn compare_numbers(&self, a: &Number, b: &Number) -> (r: Option<Difference>)
        ensures
            r.deep_view() == number_diff(
                self.cfg().approx_float_eq_epsilon,
                a.deep_view(),
                b.deep_view(),
            ),
    {
        if (a.is_u64() && b.is_u64()) || (a.is_i64() && b.is_i64()) {
            if numbers_equal(a, b) {
                None
            } else {
                Some(
                    Difference::Scalar(
                        ScalarDifference::Number { source: a.dup(), target: b.dup() },
                    ),
                )
            }
        } else if a.is_f64() || b.is_f64() {
            if relative_eq_numbers(a, b, self.approx_float_eq_epsilon.as_str()) {
                None
            } else {
                Some(
                    Difference::Scalar(
                        ScalarDifference::Number { source: a.dup(), target: b.dup() },
                    ),
                )
            }
        } else {
            None
        }
    }

    fn compare_strings(&self, a: &String, b: &String) -> (r: Option<Difference>)
        ensures
            r.deep_view() == string_diff(self.cfg().approx_date_time_eq_duration, a@, b@),
    {
        if self.approx_date_time_eq_duration != 0 {
            let sd = parse_rfc3339(a.as_str());
            let td = parse_rfc3339(b.as_str());
            if sd.is_some() && td.is_some() {
                let x = sd.unwrap();
                let y = td.unwrap();
                let xs: i128 = (x.0 as i128) * 1_000_000_000 + (x.1 as i128);
                let ys: i128 = (y.0 as i128) * 1_000_000_000 + (y.1 as i128);
                let delta: i128 = (if xs >= ys {
                    xs - ys
                } else {
                    ys - xs
                });
                if delta > self.approx_date_time_eq_duration as i128 {
                    return Some(
                        Difference::Scalar(
                            ScalarDifference::String { source: a.clone(), target: b.clone() },
                        ),
                    );
                } else {
                    return None;
                }
            }
        }
        if *a == *b {
            None
        } else {
            Some(
                Difference::Scalar(
                    ScalarDifference::String { source: a.clone(), target: b.clone() },
                ),
            )
        }
    }

    fn values(&self, path: &Path, source: &Value, target: &Value) -> (r: Option<Difference>)
        ensures
            r.deep_view() == values_diff(
                self.cfg(),
                path.deep_view(),
                source.deep_view(),
                target.deep_view(),
            ),
        decreases *source, 3int,
    {
        match (source, target) {
            (Value::Null, Value::Null) => None,
            (Value::Bool(a), Value::Bool(b)) => {
                if *a == *b {
                    None
                } else {
                    Some(Difference::Scalar(ScalarDifference::Bool { source: *a, target: *b }))
                }
            },
            (Value::Number(a), Value::Number(b)) => self.compare_numbers(a, b),
            (Value::String(a), Value::String(b)) => self.compare_strings(a, b),
            (Value::Array(a), Value::Array(b)) => {
                proof {
                    assert(decreases_to!(*source => *a));
                }
                match self.arrays(path, a, b) {
                    Some(ad) => Some(Difference::Array(ad)),
                    None => None,
                }
            },
            (Value::Object(a), Value::Object(b)) => {
                proof {
                    assert(decreases_to!(*source => *a));
                }
                match self.objects(path, a, b) {
                    Some(m) => Some(Difference::Object { different_entries: m }),
                    None => None,
                }
            },
            (Value::Array(a), Value::Null) => {
                proof {
                    lemma_values_view(a@);
                }
                if self.equate_empty_arrays && a.len() == 0 {
                    None
                } else {
                    Some(self.type_difference(source, target))
                }
            },
            (Value::Null, Value::Array(b)) => {
                proof {
                    lemma_values_view(b@);
                }
                if self.equate_empty_arrays && b.len() == 0 {
                    None
                } else {
                    Some(self.type_difference(source, target))
                }
            },
            _ => Some(self.type_difference(source, target)),
        }
    }

    fn arrays(&self, path: &Path, ss: &Vec<Value>, ts: &Vec<Value>) -> (r: Option<ArrayDifference>)
        ensures
            r.deep_view() == array_diff(
                self.cfg(),
                path.deep_view(),
                values_view(ss@),
                values_view(ts@),
            ),
        decreases *ss, 2int,
    {
        let ghost cfg = self.cfg();
        let ghost pathv = path.deep_view();
        let ghost ssv = values_view(ss@);
        let ghost tsv = values_view(ts@);
        proof {
            lemma_values_view(ss@);
            lemma_values_view(ts@);
        }
        let pairs = self.compare_array_elements(path, ss, ts);
        proof {
            lemma_pairs_view(pairs@);
        }
        let opt: Option<DumbMap<usize, Difference>> = (if pairs.len() == 0 {
            None
        } else {
            Some(DumbMap(pairs))
        });
        if ss.len() > ts.len() {
            Some(ArrayDifference::Longer { different_pairs: opt, extra_length: ss.len() - ts.len() })
        } else if ss.len() < ts.len() {
            let mut missing: Vec<Value> = Vec::new();
            let mut j: usize = ss.len();
            while j < ts.len()
                invariant
                    ss@.len() <= j <= ts@.len(),
                    missing@.len() == j - ss@.len(),
                    forall|k: int|
                        0 <= k < missing@.len() ==> value_view(missing@[k]) == value_view(
                            ts@[ss@.len() + k],
                        ),
                decreases ts@.len() - j,
            {
                missing.push(ts[j].dup());
                j = j + 1;
            }
            proof {
                lemma_values_view(missing@);
                assert(values_view(missing@) =~= tsv.skip(ss@.len() as int));
            }
            Some(ArrayDifference::Shorter { different_pairs: opt, missing_elements: missing })
        } else {
            match opt {
                Some(p) => Some(ArrayDifference::PairsOnly { different_pairs: p }),
                None => None,
            }
        }
    }

    fn compare_array_elements(&self, path: &Path, ss: &Vec<Value>, ts: &Vec<Value>) -> (pairs: Vec<
        (usize, Difference),
    >)
        ensures
            pairs_view(pairs@) == pairs_from(
                self.cfg(),
                path.deep_view(),
                values_view(ss@),
                values_view(ts@),
                0,
            ),
        decreases *ss, 1int,
    {
        let ghost cfg = self.cfg();
        let ghost pathv = path.deep_view();
        let ghost ssv = values_view(ss@);
        let ghost tsv = values_view(ts@);
        let min: usize = (if ss.len() <= ts.len() {
            ss.len()
        } else {
            ts.len()
        });
        proof {
            lemma_values_view(ss@);
            lemma_values_view(ts@);
            assert(min as int == overlap(ssv, tsv));
        }
        let mut pairs: Vec<(usize, Difference)> = Vec::new();
        let mut i: usize = 0;
        while i < min
            invariant
                i <= min,
                min <= ss@.len() && min <= ts@.len(),
                min as int == overlap(ssv, tsv),
                cfg == self.cfg(),
                pathv == path.deep_view(),
                ssv == values_view(ss@),
                tsv == values_view(ts@),
                pairs_view(pairs@) + pairs_from(cfg, pathv, ssv, tsv, i as int) == pairs_from(
                    cfg,
                    pathv,
                    ssv,
                    tsv,
                    0,
                ),
                (decreases_to!(*ss => ss@)),
            decreases min - i,
        {
            proof {
                assert(decreases_to!(ss@ => ss@[i as int]));
                lemma_values_view(ss@);
                lemma_values_view(ts@);
            }
            let child = path.child(PathElement::ArrayIndex(ArrayIndex::Index(i)));
            let d = self.values(&child, &ss[i], &ts[i]);
            let ghost old_pairs = pairs@;
            let ghost step = values_diff(
                cfg,
                pathv.push(PathElV::ArrayIndex(ArrayIndex::Index(i))),
                ssv[i as int],
                tsv[i as int],
            );
            match d {
                Some(dd) => {
                    proof {
                        lemma_pairs_view_push(old_pairs, (i, dd));
                    }
                    pairs.push((i, dd));
                    proof {
                        assert(step == Some(diff_view(dd)));
                        assert(pairs_view(pairs@) + pairs_from(cfg, pathv, ssv, tsv, i + 1)
                            =~= pairs_view(old_pairs) + pairs_from(cfg, pathv, ssv, tsv, i as int));
                    }
                },
                None => {
                    proof {
                        assert(step is None);
                        assert(pairs_from(cfg, pathv, ssv, tsv, i as int) == pairs_from(
                            cfg,
                            pathv,
                            ssv,
                            tsv,
                            i + 1,
                        ));
                    }
                },
            }
            i = i + 1;
        }
        proof {
            assert(pairs_from(cfg, pathv, ssv, tsv, min as int) =~= Seq::<(usize, DiffV)>::empty());
            assert(pairs_view(pairs@) + pairs_from(cfg, pathv, ssv, tsv, min as int) =~= pairs_view(
                pairs@,
            ));
        }
        pairs
    }

    fn objects(&self, path: &Path, src: &Vec<(String, Value)>, tgt: &Vec<(String, Value)>) -> (r:
        Option<DumbMap<String, EntryDifference>>)
        ensures
            (match r {
                Some(m) => Some(obj_entries_view(m.0@)),
                None => None::<Seq<(Seq<char>, EntryDiffV)>>,
            }) == object_diff(self.cfg(), path.deep_view(), entries_view(src@), entries_view(tgt@)),
        decreases *src, 2int,
    {
        let ghost cfg = self.cfg();
        let ghost pathv = path.deep_view();
        let ghost srcv = entries_view(src@);
        let ghost tgtv = entries_view(tgt@);
        proof {
            lemma_entries_view(src@);
            assert(decreases_to!(*src => src@));
        }
        let mut work: Vec<(String, Value)> = Vec::new();
        let mut w: usize = 0;
        while w < tgt.len()
            invariant
                w <= tgt@.len(),
                work@.len() == w,
                forall|k: int|
                    0 <= k < w ==> work@[k].0@ == tgt@[k].0@ && value_view(work@[k].1)
                        == value_view(tgt@[k].1),
            decreases tgt@.len() - w,
        {
            work.push((tgt[w].0.clone(), tgt[w].1.dup()));
            w = w + 1;
        }
        proof {
            lemma_entries_view(work@);
            lemma_entries_view(tgt@);
            assert(entries_view(work@) =~= tgtv);
        }
        let mut out: Vec<(String, EntryDifference)> = Vec::new();
        let mut i: usize = 0;
        while i < src.len()
            invariant
                i <= src@.len(),
                cfg == self.cfg(),
                pathv == path.deep_view(),
                srcv == entries_view(src@),
                tgtv == entries_view(tgt@),
                srcv.len() == src@.len(),
                forall|k: int|
                    0 <= k < src@.len() ==> srcv[k] == (src@[k].0@, value_view(src@[k].1)),
                obj_entries_view(out@) + object_pass(
                    cfg,
                    pathv,
                    srcv,
                    entries_view(work@),
                    i as int,
                ).0 == object_pass(cfg, pathv, srcv, tgtv, 0).0,
                object_pass(cfg, pathv, srcv, entries_view(work@), i as int).1 == object_pass(
                    cfg,
                    pathv,
                    srcv,
                    tgtv,
                    0,
                ).1,
                (decreases_to!(*src => src@)),
            decreases src@.len() - i,
        {
            proof {
                assert(decreases_to!(src@ => src@[i as int]));
                assert(decreases_to!(src@[i as int] => src@[i as int].1));
            }
            let ghost wv = entries_view(work@);
            let child = path.child(PathElement::Key(src[i].0.clone()));
            proof {
                assert(child.deep_view() == pathv.push(PathElV::Key(srcv[i as int].0)));
            }
            let found = find_key(&work, &src[i].0);
            let ignored = resolve_ignored(&self.ignore_paths, &child, found.is_some());
            if ignored {
                if let Some(j) = found {
                    let ghost w_old = work@;
                    let _removed = work.remove(j);
                    proof {
                        lemma_entries_view_remove(w_old, j as int);
                        assert(entries_view(work@) == remove_key(wv, srcv[i as int].0));
                    }
                } else {
                    proof {
                        assert(entries_view(work@) == remove_key(wv, srcv[i as int].0));
                    }
                }
            } else {
                match found {
                    None => {
                        let entry = (
                            src[i].0.clone(),
                            EntryDifference::Extra { value: src[i].1.dup() },
                        );
                        let ghost old_out = out@;
                        proof {
                            lemma_obj_entries_view_push(old_out, entry);
                        }
                        out.push(entry);
                        proof {
                            assert(obj_entries_view(out@) + object_pass(
                                cfg,
                                pathv,
                                srcv,
                                wv,
                                i + 1,
                            ).0 =~= obj_entries_view(old_out) + object_pass(
                                cfg,
                                pathv,
                                srcv,
                                wv,
                                i as int,
                            ).0);
                        }
                    },
                    Some(j) => {
                        let ghost w_old = work@;
                        let pair = work.remove(j);
                        proof {
                            lemma_entries_view_remove(w_old, j as int);
                            lemma_entries_view(w_old);
                            assert(entries_view(work@) == wv.remove(j as int));
                            assert(value_view(pair.1) == wv[j as int].1);
                        }
                        let d = self.values(&child, &src[i].1, &pair.1);
                        match d {
                            Some(dd) => {
                                let entry = (
                                    src[i].0.clone(),
                                    EntryDifference::Value { value_diff: dd },
                                );
                                let ghost old_out = out@;
                                proof {
                                    lemma_obj_entries_view_push(old_out, entry);
                                }
                                out.push(entry);
                                proof {
                                    assert(obj_entries_view(out@) + object_pass(
                                        cfg,
                                        pathv,
                                        srcv,
                                        wv.remove(j as int),
                                        i + 1,
                                    ).0 =~= obj_entries_view(old_out) + object_pass(
                                        cfg,
                                        pathv,
                                        srcv,
                                        wv,
                                        i as int,
                                    ).0);
                                }
                            },
                            None => {},
                        }
                    },
                }
            }
            i = i + 1;
        }
        let ghost full0 = object_pass(cfg, pathv, srcv, tgtv, 0).0;
        let ghost full1 = object_pass(cfg, pathv, srcv, tgtv, 0).1;
        proof {
            assert(object_pass(cfg, pathv, srcv, entries_view(work@), src@.len() as int).0
                =~= Seq::<(Seq<char>, EntryDiffV)>::empty());
            assert(obj_entries_view(out@) + Seq::<(Seq<char>, EntryDiffV)>::empty()
                =~= obj_entries_view(out@));
            assert(obj_entries_view(out@) == full0);
            assert(full1 == entries_view(work@));
            lemma_entries_view(work@);
            assert(missing_of(full1.take(0)) =~= Seq::<(Seq<char>, EntryDiffV)>::empty());
            assert(obj_entries_view(out@) + missing_of(full1.take(0)) =~= obj_entries_view(out@));
        }
        let mut j2: usize = 0;
        while j2 < work.len()
            invariant
                j2 <= work@.len(),
                full1 == entries_view(work@),
                full1.len() == work@.len(),
                forall|k: int|
                    0 <= k < work@.len() ==> full1[k] == (work@[k].0@, value_view(work@[k].1)),
                obj_entries_view(out@) == full0 + missing_of(full1.take(j2 as int)),
            decreases work@.len() - j2,
        {
            let entry = (
                work[j2].0.clone(),
                EntryDifference::Missing { value: work[j2].1.dup() },
            );
            let ghost old_out = out@;
            proof {
                lemma_obj_entries_view_push(old_out, entry);
                assert(missing_of(full1.take(j2 + 1)) =~= missing_of(full1.take(j2 as int)).push(
                    (full1[j2 as int].0, EntryDiffV::Missing { value: full1[j2 as int].1 }),
                ));
            }
            out.push(entry);
            proof {
                assert(obj_entries_view(out@) =~= full0 + missing_of(full1.take(j2 + 1)));
            }
            j2 = j2 + 1;
        }
        proof {
            assert(full1.take(work@.len() as int) =~= full1);
            lemma_obj_entries_view(out@);
        }
        if out.len() == 0 {
            None
        } else {
            Some(DumbMap(out))
        }
    }

    fn type_difference(&self, s: &Value, t: &Value) -> (r: Difference)
        ensures
            type_diff(s.deep_view(), t.deep_view()) == Some(diff_view(r)),
    {
        Difference::Type {
            source_type: Type::of(s),
            source_value: s.dup(),
            target_type: Type::of(t),
            target_value: t.dup(),
        }
    }
}

impl Diff {
    /// Consumes the configured comparison and returns how the source value
    /// differs from the target value; `None` means the two are equal under
    /// the active configuration.
    pub fn compare(self) -> (r: Option<Difference>)
        ensures
            r.deep_view() == values_diff(
                self.cfg(),
                Seq::<PathElV>::empty(),
                self.source_view(),
                self.target_view(),
            ),
    {
        let root = Path::root();
        self.values(&root, &self.source, &self.target)
    }
}

/// A builder for `Diff`: the configuration gathered step by step, with the
/// defaults of the comparison, and the source and target values, which must
/// both be set before `build` succeeds.
#[derive(Debug)]
pub struct DiffBuilder {
    ignore_paths: Vec<IgnorePath>,
    equate_empty_arrays: bool,
    approx_float_eq_epsilon: String,
    approx_date_time_eq_duration: u64,
    source: Option<Value>,
    target: Option<Value>,
}

impl DiffBuilder {
    /// The configured ignore rules, in configuration order.
    pub closed spec fn rules_view(&self) -> Seq<(Seq<PathElV>, bool)> {
        self.ignore_paths.deep_view()
    }

    /// Whether a null and an empty array will count as equal.
    pub closed spec fn equate_view(&self) -> bool {
        self.equate_empty_arrays
    }

    /// The configured epsilon text.
    pub closed spec fn eps_view(&self) -> Seq<char> {
        self.approx_float_eq_epsilon@
    }

    /// The configured timestamp tolerance in nanoseconds.
    pub closed spec fn dur_view(&self) -> u64 {
        self.approx_date_time_eq_duration
    }

    /// The configured source value, if set.
    pub closed spec fn source_opt(&self) -> Option<crate::value::ValueV> {
        self.source.deep_view()
    }

    /// The configured target value, if set.
    pub closed spec fn target_opt(&self) -> Option<crate::value::ValueV> {
        self.target.deep_view()
    }

    /// Sets the source value.
    pub fn source(self, value: Value) -> (r: DiffBuilder)
        ensures
            r.source_opt() == Some(value.deep_view()),
            r.target_opt() == self.target_opt(),
            r.rules_view() == self.rules_view(),
            r.equate_view() == self.equate_view(),
            r.eps_view() == self.eps_view(),
            r.dur_view() == self.dur_view(),
    {
        DiffBuilder { source: Some(value), ..self }
    }

    /// Sets the target value.
    pub fn target(self, value: Value) -> (r: DiffBuilder)
        ensures
            r.target_opt() == Some(value.deep_view()),
            r.source_opt() == self.source_opt(),
            r.rules_view() == self.rules_view(),
            r.equate_view() == self.equate_view(),
            r.eps_view() == self.eps_view(),
            r.dur_view() == self.dur_view(),
    {
        DiffBuilder { target: Some(value), ..self }
    }

    /// Sets whether arrays with a length of zero equal null, regardless of
    /// which side is which.
    pub fn equate_empty_arrays(self, yes: bool) -> (r: DiffBuilder)
        ensures
            r.equate_view() == yes,
            r.source_opt() == self.source_opt(),
            r.target_opt() == self.target_opt(),
            r.rules_view() == self.rules_view(),
            r.eps_view() == self.eps_view(),
            r.dur_view() == self.dur_view(),
    {
        DiffBuilder { equate_empty_arrays: yes, ..self }
    }

    /// Sets the epsilon for approximate float equality, as decimal text such
    /// as `"0.001"`. The text is kept as given; no validation is applied.
    pub fn approx_float_eq_epsilon(self, eps: &str) -> (r: DiffBuilder)
        ensures
            r.eps_view() == eps@,
            r.source_opt() == self.source_opt(),
            r.target_opt() == self.target_opt(),
            r.rules_view() == self.rules_view(),
            r.equate_view() == self.equate_view(),
            r.dur_view() == self.dur_view(),
    {
        DiffBuilder { approx_float_eq_epsilon: eps.to_owned(), ..self }
    }

    /// Sets the tolerance for approximate timestamp equality, in
    /// nanoseconds. No validation is applied.
    pub fn approx_date_time_eq_duration(self, nanos: u64) -> (r: DiffBuilder)
        ensures
            r.dur_view() == nanos,
            r.source_opt() == self.source_opt(),
            r.target_opt() == self.target_opt(),
            r.rules_view() == self.rules_view(),
            r.equate_view() == self.equate_view(),
            r.eps_view() == self.eps_view(),
    {
        DiffBuilder { approx_date_time_eq_duration: nanos, ..self }
    }

    /// Registers an ignore path from its dotted string form; a path that
    /// does not parse is silently dropped. Presence-only mismatches at the
    /// path are still reported.
    pub fn ignore_path(self, path: &str) -> (r: DiffBuilder)
        ensures
            parsed_elements(path@) matches Some(els) ==> r.rules_view() == self.rules_view().push(
                (els, false),
            ),
            parsed_elements(path@) is None ==> r.rules_view() == self.rules_view(),
            r.source_opt() == self.source_opt(),
            r.target_opt() == self.target_opt(),
            r.equate_view() == self.equate_view(),
            r.eps_view() == self.eps_view(),
            r.dur_view() == self.dur_view(),
    {
        self.ignore_path_with_missing(path, false)
    }

    /// Registers an ignore path from its dotted string form; a path that
    /// does not parse is silently dropped. With `ignore_missing` set, a
    /// location that exists on one side only is tolerated there as well.
    pub fn ignore_path_with_missing(self, path: &str, ignore_missing: bool) -> (r: DiffBuilder)
        ensures
            parsed_elements(path@) matches Some(els) ==> r.rules_view() == self.rules_view().push(
                (els, ignore_missing),
            ),
            parsed_elements(path@) is None ==> r.rules_view() == self.rules_view(),
            r.source_opt() == self.source_opt(),
            r.target_opt() == self.target_opt(),
            r.equate_view() == self.equate_view(),
            r.eps_view() == self.eps_view(),
            r.dur_view() == self.dur_view(),
    {
        let mut out = self;
        match parse_element_path(path) {
            Ok(elements) => {
                let rule = IgnorePath(crate::path::Path(elements), ignore_missing);
                let ghost old_rules = out.ignore_paths.deep_view();
                let ghost rulev = rule.deep_view();
                out.ignore_paths.push(rule);
                proof {
                    assert(out.ignore_paths.deep_view() =~= old_rules.push(rulev));
                }
                out
            },
            Err(_) => out,
        }
    }

    /// Builds the comparison. Fails exactly when the source or the target
    /// value was not set, naming the one that is missing.
    pub fn build(&self) -> (r: Result<Diff, String>)
        ensures
            r is Ok <==> (self.source_opt() is Some && self.target_opt() is Some),
            r matches Ok(d) ==> d.cfg() == (CfgV {
                ignore_paths: self.rules_view(),
                equate_empty_arrays: self.equate_view(),
                approx_float_eq_epsilon: self.eps_view(),
                approx_date_time_eq_duration: self.dur_view(),
            }),
            r matches Ok(d) ==> d.source_view() == self.source_opt().unwrap()
                && d.target_view() == self.target_opt().unwrap(),
            r matches Err(m) ==> self.source_opt() is None ==> m@ == "source is not set"@,
            r matches Err(m) ==> self.source_opt() is Some ==> m@ == "target is not set"@,
    {
        let source = (match &self.source {
            Some(v) => v.dup(),
            None => {
                return Err("source is not set".to_owned());
            },
        });
        let target = (match &self.target {
            Some(v) => v.dup(),
            None => {
                return Err("target is not set".to_owned());
            },
        });
        let mut rules: Vec<IgnorePath> = Vec::new();
        let mut i: usize = 0;
        while i < self.ignore_paths.len()
            invariant
                i <= self.ignore_paths@.len(),
                rules@.len() == i,
                forall|k: int|
                    0 <= k < i ==> rules@[k].deep_view() == self.ignore_paths@[k].deep_view(),
            decreases self.ignore_paths@.len() - i,
        {
            let p = self.ignore_paths[i].0.dup();
            let rule = IgnorePath(p, self.ignore_paths[i].1);
            rules.push(rule);
            i = i + 1;
        }
        proof {
            assert(rules.deep_view() =~= self.ignore_paths.deep_view());
        }
        Ok(
            Diff {
                ignore_paths: rules,
                equate_empty_arrays: self.equate_empty_arrays,
                approx_float_eq_epsilon: self.approx_float_eq_epsilon.clone(),
                approx_date_time_eq_duration: self.approx_date_time_eq_duration,
                source,
                target,
            },
        )
    }
}

impl Default for DiffBuilder {
    /// The builder with the defaults: no ignore rules, empty arrays not
    /// equated to null, a zero epsilon, a zero timestamp tolerance, and no
    /// source or target yet.
    fn default() -> (r: DiffBuilder)
        ensures
            r.rules_view() == Seq::<(Seq<PathElV>, bool)>::empty(),
            r.equate_view() == false,
            r.eps_view() == "0"@,
            r.dur_view() == 0,
            r.source_opt() is None,
            r.target_opt() is None,
    {
        let r = DiffBuilder {
            ignore_paths: Vec::new(),
            equate_empty_arrays: false,
            approx_float_eq_epsilon: "0".to_owned(),
            approx_date_time_eq_duration: 0,
            source: None,
            target: None,
        };
        proof {
            assert(r.rules_view() =~= Seq::<(Seq<PathElV>, bool)>::empty());
        }
        r
    }
}

/// The position of the first entry of `work` whose key equals `key`.
fn find_key(work: &Vec<(String, Value)>, key: &String) -> (r: Option<usize>)
    ensures
        (match r {
            Some(j) => Some(j as int),
            None => None::<int>,
        }) == find_key_from(entries_view(work@), key@, 0),
        r matches Some(j) ==> j < work@.len(),
{
    let ghost ev = entries_view(work@);
    proof {
        lemma_entries_view(work@);
    }
    let mut i: usize = 0;
    while i < work.len()
        invariant
            i <= work@.len(),
            ev == entries_view(work@),
            ev.len() == work@.len(),
            forall|k: int|
                0 <= k < work@.len() ==> ev[k] == (work@[k].0@, value_view(work@[k].1)),
            find_key_from(ev, key@, 0) == find_key_from(ev, key@, i as int),
        decreases work@.len() - i,
    {
        if work[i].0 == *key {
            return Some(i);
        }
        i = i + 1;
    }
    None
}

} // verus!
