use vstd::prelude::*;

use crate::value::Number;
use crate::value::NumberV;
use crate::value::Value;
use crate::value::ValueV;
use crate::value::value_view;
use crate::value::values_view;

verus! {

/// The runtime kind of a value.
#[derive(Debug, Clone, Copy, PartialEq, Eq, Structural)]
pub enum Type {
    Null,
    Array,
    Bool,
    Object,
    String,
    Number,
}

/// The kind of a value.
pub open spec fn type_of(v: ValueV) -> Type {
    match v {
        ValueV::Null => Type::Null,
        ValueV::Bool(_) => Type::Bool,
        ValueV::Number(_) => Type::Number,
        ValueV::String(_) => Type::String,
        ValueV::Array(_) => Type::Array,
        ValueV::Object(_) => Type::Object,
    }
}

impl Type {
    /// The kind of the given value.
    pub fn of(v: &Value) -> (r: Type)
        ensures
            r == type_of(v.deep_view()),
    {
        match v {
            Value::Null => Type::Null,
            Value::Bool(_) => Type::Bool,
            Value::Number(_) => Type::Number,
            Value::String(_) => Type::String,
            Value::Array(_) => Type::Array,
            Value::Object(_) => Type::Object,
        }
    }
}

/// An ordered list of key-value pairs; consumers serialize it as a map in
/// exactly this order.
#[derive(Debug, PartialEq)]
pub struct DumbMap<K, V>(pub Vec<(K, V)>);

/// How one entry of an object differs between source and target.
#[derive(Debug, PartialEq)]
pub enum EntryDifference {
    /// An entry from target that source is missing.
    Missing { value: Value },
    /// An entry that source has, and target doesn't.
    Extra { value: Value },
    /// The entry exists on both sides, but the values are different.
    Value { value_diff: Difference },
}

/// How two arrays differ, classified by their relative length.
#[derive(Debug, PartialEq)]
pub enum ArrayDifference {
    /// Same length, but some positions hold different values.
    PairsOnly { different_pairs: DumbMap<usize, Difference> },
    /// Source is shorter than target.
    Shorter {
        different_pairs: Option<DumbMap<usize, Difference>>,
        missing_elements: Vec<Value>,
    },
    /// Source is longer than target.
    Longer { different_pairs: Option<DumbMap<usize, Difference>>, extra_length: usize },
}

/// How two scalars of the same kind differ.
#[derive(Debug, PartialEq)]
pub enum ScalarDifference {
    Bool { source: bool, target: bool },
    String { source: String, target: String },
    Number { source: Number, target: Number },
}

/// How two values differ.
#[derive(Debug, PartialEq)]
pub enum Difference {
    Scalar(ScalarDifference),
    Type { source_type: Type, source_value: Value, target_type: Type, target_value: Value },
    Array(ArrayDifference),
    Object { different_entries: DumbMap<String, EntryDifference> },
}

/// The mathematical shape of a `ScalarDifference`.
pub enum ScalarDiffV {
    Bool { source: bool, target: bool },
    String { source: Seq<char>, target: Seq<char> },
    Number { source: NumberV, target: NumberV },
}

/// The mathematical shape of an `EntryDifference`.
pub enum EntryDiffV {
    Missing { value: ValueV },
    Extra { value: ValueV },
    Value { value_diff: DiffV },
}

/// The mathematical shape of an `ArrayDifference`.
pub enum ArrayDiffV {
    PairsOnly { different_pairs: Seq<(usize, DiffV)> },
    Shorter { different_pairs: Option<Seq<(usize, DiffV)>>, missing_elements: Seq<ValueV> },
    Longer { different_pairs: Option<Seq<(usize, DiffV)>>, extra_length: usize },
}

/// The mathematical shape of a `Difference`.
pub enum DiffV {
    Scalar(ScalarDiffV),
    Type { source_type: Type, source_value: ValueV, target_type: Type, target_value: ValueV },
    Array(ArrayDiffV),
    Object { different_entries: Seq<(Seq<char>, EntryDiffV)> },
}

/// The shape of a scalar difference.
pub open spec fn scalar_view(s: ScalarDifference) -> ScalarDiffV {
    match s {
        ScalarDifference::Bool { source, target } => ScalarDiffV::Bool { source, target },
        ScalarDifference::String { source, target } => ScalarDiffV::String {
            source: source@,
            target: target@,
        },
        ScalarDifference::Number { source, target } => ScalarDiffV::Number {
            source: source.deep_view(),
            target: target.deep_view(),
        },
    }
}

/// The shape of a difference.
pub open spec fn diff_view(d: Difference) -> DiffV
    decreases d,
{
    match d {
        Difference::Scalar(s) => DiffV::Scalar(scalar_view(s)),
        Difference::Type { source_type, source_value, target_type, target_value } => DiffV::Type {
            source_type,
            source_value: value_view(source_value),
            target_type,
            target_value: value_view(target_value),
        },
        Difference::Array(a) => DiffV::Array(array_diff_view(a)),
        Difference::Object { different_entries } => DiffV::Object {
            different_entries: obj_entries_view(different_entries.0@),
        },
    }
}

/// The shape of an array difference.
pub open spec fn array_diff_view(a: ArrayDifference) -> ArrayDiffV
    decreases a,
{
    match a {
        ArrayDifference::PairsOnly { different_pairs } => ArrayDiffV::PairsOnly {
            different_pairs: pairs_view(different_pairs.0@),
        },
        ArrayDifference::Shorter { different_pairs, missing_elements } => ArrayDiffV::Shorter {
            different_pairs: match different_pairs {
                Some(m) => Some(pairs_view(m.0@)),
                None => None,
            },
            missing_elements: values_view(missing_elements@),
        },
        ArrayDifference::Longer { different_pairs, extra_length } => ArrayDiffV::Longer {
            different_pairs: match different_pairs {
                Some(m) => Some(pairs_view(m.0@)),
                None => None,
            },
            extra_length,
        },
    }
}

/// The shapes of index-difference pairs, pair by pair.
pub open spec fn pairs_view(s: Seq<(usize, Difference)>) -> Seq<(usize, DiffV)>
    decreases s,
{
    if s.len() == 0 {
        Seq::empty()
    } else {
        seq![(s[0].0, diff_view(s[0].1))] + pairs_view(s.drop_first())
    }
}

/// The shape of an entry difference.
pub open spec fn entry_diff_view(e: EntryDifference) -> EntryDiffV
    decreases e,
{
    match e {
        EntryDifference::Missing { value } => EntryDiffV::Missing { value: value_view(value) },
        EntryDifference::Extra { value } => EntryDiffV::Extra { value: value_view(value) },
        EntryDifference::Value { value_diff } => EntryDiffV::Value {
            value_diff: diff_view(value_diff),
        },
    }
}

/// The shapes of key-entry-difference pairs, pair by pair.
pub open spec fn obj_entries_view(s: Seq<(String, EntryDifference)>) -> Seq<
    (Seq<char>, EntryDiffV),
>
    decreases s,
{
    if s.len() == 0 {
        Seq::empty()
    } else {
        seq![(s[0].0@, entry_diff_view(s[0].1))] + obj_entries_view(s.drop_first())
    }
}

pub proof fn lemma_pairs_view_push(s: Seq<(usize, Difference)>, x: (usize, Difference))
    ensures
        pairs_view(s.push(x)) == pairs_view(s).push((x.0, diff_view(x.1))),
{
    lemma_pairs_view(s);
    lemma_pairs_view(s.push(x));
    assert(pairs_view(s.push(x)) =~= pairs_view(s).push((x.0, diff_view(x.1))));
}

pub proof fn lemma_obj_entries_view_push(s: Seq<(String, EntryDifference)>, x: (String, EntryDifference))
    ensures
        obj_entries_view(s.push(x)) == obj_entries_view(s).push((x.0@, entry_diff_view(x.1))),
{
    lemma_obj_entries_view(s);
    lemma_obj_entries_view(s.push(x));
    assert(obj_entries_view(s.push(x)) =~= obj_entries_view(s).push((x.0@, entry_diff_view(x.1))));
}

impl DeepView for ScalarDifference {
    type V = ScalarDiffV;

    open spec fn deep_view(&self) -> ScalarDiffV {
        scalar_view(*self)
    }
}

impl DeepView for Difference {
    type V = DiffV;

    open spec fn deep_view(&self) -> DiffV {
        diff_view(*self)
    }
}

impl DeepView for ArrayDifference {
    type V = ArrayDiffV;

    open spec fn deep_view(&self) -> ArrayDiffV {
        array_diff_view(*self)
    }
}

impl DeepView for EntryDifference {
    type V = EntryDiffV;

    open spec fn deep_view(&self) -> EntryDiffV {
        entry_diff_view(*self)
    }
}

pub proof fn lemma_pairs_view(s: Seq<(usize, Difference)>)
    ensures
        pairs_view(s).len() == s.len(),
        forall|i: int| 0 <= i < s.len() ==> pairs_view(s)[i] == (s[i].0, diff_view(s[i].1)),
    decreases s.len(),
{
    if s.len() > 0 {
        lemma_pairs_view(s.drop_first());
        assert forall|i: int| 0 <= i < s.len() implies pairs_view(s)[i] == (
            s[i].0,
            diff_view(s[i].1),
        ) by {
            if i > 0 {
                assert(pairs_view(s)[i] == pairs_view(s.drop_first())[i - 1]);
                assert(s.drop_first()[i - 1] == s[i]);
            }
        }
    }
}

pub proof fn lemma_obj_entries_view(s: Seq<(String, EntryDifference)>)
    ensures
        obj_entries_view(s).len() == s.len(),
        forall|i: int|
            0 <= i < s.len() ==> obj_entries_view(s)[i] == (s[i].0@, entry_diff_view(s[i].1)),
    decreases s.len(),
{
    if s.len() > 0 {
        lemma_obj_entries_view(s.drop_first());
        assert forall|i: int| 0 <= i < s.len() implies obj_entries_view(s)[i] == (
            s[i].0@,
            entry_diff_view(s[i].1),
        ) by {
            if i > 0 {
                assert(obj_entries_view(s)[i] == obj_entries_view(s.drop_first())[i - 1]);
                assert(s.drop_first()[i - 1] == s[i]);
            }
        }
    }
}

} // verus!
