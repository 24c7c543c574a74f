use vstd::prelude::*;

verus! {

/// A JSON number. Integers keep their exact value; a floating-point number is
/// carried as its decimal source text, the form in which JSON supplies it.
/// The numeric reading of that text is left to the comparison step.
#[derive(Debug, PartialEq)]
pub enum Number {
    /// A non-negative integer that fits in `u64`.
    UInt(u64),
    /// A negative integer (JSON integers that are not non-negative).
    Int(i64),
    /// A floating-point number, as decimal text such as `"1.25"` or `"3e-4"`.
    Float(String),
}

/// The mathematical shape of a `Number`: the same three cases with the float
/// text as a sequence of characters.
pub enum NumberV {
    UInt(u64),
    Int(i64),
    Float(Seq<char>),
}

impl DeepView for Number {
    type V = NumberV;

    open spec fn deep_view(&self) -> NumberV {
        match self {
            Number::UInt(v) => NumberV::UInt(*v),
            Number::Int(v) => NumberV::Int(*v),
            Number::Float(s) => NumberV::Float(s@),
        }
    }
}

impl Number {
    /// An exact copy of this number.
    pub fn dup(&self) -> (r: Number)
        ensures
            r == *self,
    {
        match self {
            Number::UInt(v) => Number::UInt(*v),
            Number::Int(v) => Number::Int(*v),
            Number::Float(s) => Number::Float(s.clone()),
        }
    }
}

/// A JSON value: one of the six JSON kinds. Objects are ordered lists of
/// key-value entries, keeping the entry order in which they were supplied.
#[derive(Debug, PartialEq)]
pub enum Value {
    Null,
    Bool(bool),
    Number(Number),
    String(String),
    Array(Vec<Value>),
    Object(Vec<(String, Value)>),
}

/// The mathematical shape of a `Value`: strings become character sequences,
/// vectors become sequences.
pub enum ValueV {
    Null,
    Bool(bool),
    Number(NumberV),
    String(Seq<char>),
    Array(Seq<ValueV>),
    Object(Seq<(Seq<char>, ValueV)>),
}

/// The shape of a `Value`.
pub open spec fn value_view(v: Value) -> ValueV
    decreases v,
{
    match v {
        Value::Null => ValueV::Null,
        Value::Bool(b) => ValueV::Bool(b),
        Value::Number(n) => ValueV::Number(n.deep_view()),
        Value::String(s) => ValueV::String(s@),
        Value::Array(a) => ValueV::Array(values_view(a@)),
        Value::Object(m) => ValueV::Object(entries_view(m@)),
    }
}

/// The shapes of a sequence of values, element by element.
pub open spec fn values_view(s: Seq<Value>) -> Seq<ValueV>
    decreases s,
{
    if s.len() == 0 {
        Seq::empty()
    } else {
        seq![value_view(s[0])] + values_view(s.drop_first())
    }
}

/// The shapes of a sequence of key-value entries, entry by entry.
pub open spec fn entries_view(s: Seq<(String, Value)>) -> Seq<(Seq<char>, ValueV)>
    decreases s,
{
    if s.len() == 0 {
        Seq::empty()
    } else {
        seq![(s[0].0@, value_view(s[0].1))] + entries_view(s.drop_first())
    }
}

impl DeepView for Value {
    type V = ValueV;

    open spec fn deep_view(&self) -> ValueV {
        value_view(*self)
    }
}

pub proof fn lemma_values_view(s: Seq<Value>)
    ensures
        values_view(s).len() == s.len(),
        forall|i: int| 0 <= i < s.len() ==> values_view(s)[i] == value_view(s[i]),
    decreases s.len(),
{
    if s.len() > 0 {
        lemma_values_view(s.drop_first());
        assert forall|i: int| 0 <= i < s.len() implies values_view(s)[i] == value_view(s[i]) by {
            if i > 0 {
                assert(values_view(s)[i] == values_view(s.drop_first())[i - 1]);
                assert(s.drop_first()[i - 1] == s[i]);
            }
        }
    }
}

pub proof fn lemma_entries_view(s: Seq<(String, Value)>)
    ensures
        entries_view(s).len() == s.len(),
        forall|i: int| 0 <= i < s.len() ==> entries_view(s)[i] == (s[i].0@, value_view(s[i].1)),
    decreases s.len(),
{
    if s.len() > 0 {
        lemma_entries_view(s.drop_first());
        assert forall|i: int| 0 <= i < s.len() implies entries_view(s)[i] == (
            s[i].0@,
            value_view(s[i].1),
        ) by {
            if i > 0 {
                assert(entries_view(s)[i] == entries_view(s.drop_first())[i - 1]);
                assert(s.drop_first()[i - 1] == s[i]);
            }
        }
    }
}

/// Whether `c` is a decimal digit.
pub open spec fn is_digit(c: char) -> bool {
    '0' <= c && c <= '9'
}

/// One or more decimal digits.
pub open spec fn dec_digits(s: Seq<char>) -> bool {
    s.len() >= 1 && forall|i: int| 0 <= i < s.len() ==> is_digit(s[i])
}

/// An optional fraction: empty, or a dot followed by digits.
pub open spec fn frac_part_ok(s: Seq<char>) -> bool {
    s.len() == 0 || (s[0] == '.' && dec_digits(s.drop_first()))
}

/// The digits of an exponent, with an optional sign.
pub open spec fn exp_digits_ok(s: Seq<char>) -> bool {
    dec_digits(s) || (s.len() >= 1 && (s[0] == '+' || s[0] == '-') && dec_digits(s.drop_first()))
}

/// An optional exponent: empty, or an `e`/`E` marker followed by its digits.
pub open spec fn exp_part_ok(s: Seq<char>) -> bool {
    s.len() == 0 || ((s[0] == 'e' || s[0] == 'E') && exp_digits_ok(s.drop_first()))
}

/// An unsigned decimal number text: digits, an optional fraction, an
/// optional exponent.
pub open spec fn unsigned_float_text(s: Seq<char>) -> bool {
    exists|i: int, j: int|
        0 <= i <= j <= s.len() && dec_digits(s.subrange(0, i)) && frac_part_ok(s.subrange(i, j))
            && exp_part_ok(s.subrange(j, s.len() as int))
}

/// A decimal number text as JSON writes it, with an optional leading minus.
/// Such a text always denotes a number (never a NaN).
pub open spec fn is_float_text(s: Seq<char>) -> bool {
    if s.len() >= 1 && s[0] == '-' {
        unsigned_float_text(s.drop_first())
    } else {
        unsigned_float_text(s)
    }
}

/// A well-formed number: a float carries a decimal number text.
pub open spec fn num_wf(n: NumberV) -> bool {
    match n {
        NumberV::Float(t) => is_float_text(t),
        _ => true,
    }
}

/// A well-formed value: every number in it is well-formed.
pub open spec fn value_wf(v: ValueV) -> bool
    decreases v,
{
    match v {
        ValueV::Number(n) => num_wf(n),
        ValueV::Array(es) => forall|i: int| 0 <= i < es.len() ==> value_wf(#[trigger] es[i]),
        ValueV::Object(es) => forall|i: int| 0 <= i < es.len() ==> value_wf(#[trigger] es[i].1),
        _ => true,
    }
}

/// Whether the keys of an object's entries are pairwise distinct.
pub open spec fn keys_unique(es: Seq<(Seq<char>, ValueV)>) -> bool {
    forall|i: int, j: int| 0 <= i < j < es.len() ==> es[i].0 != es[j].0
}

pub proof fn lemma_entries_view_remove(s: Seq<(String, Value)>, j: int)
    requires
        0 <= j < s.len(),
    ensures
        entries_view(s.remove(j)) == entries_view(s).remove(j),
{
    lemma_entries_view(s);
    lemma_entries_view(s.remove(j));
    assert(entries_view(s.remove(j)) =~= entries_view(s).remove(j));
}

impl Value {
    /// A copy of this value with the same shape.
    pub fn dup(&self) -> (r: Value)
        ensures
            r.deep_view() == self.deep_view(),
        decreases *self,
    {
        match self {
            Value::Null => Value::Null,
            Value::Bool(b) => Value::Bool(*b),
            Value::Number(n) => Value::Number(n.dup()),
            Value::String(s) => Value::String(s.clone()),
            Value::Array(a) => {
                let mut out: Vec<Value> = Vec::new();
                let mut i: usize = 0;
                proof {
                    assert(decreases_to!(*self => *a));
                }
                while i < a.len()
                    invariant
                        i <= a.len(),
                        out@.len() == i,
                        (decreases_to!(*self => *a)),
                        forall|k: int|
                            0 <= k < i ==> value_view(out@[k]) == value_view(a@[k]),
                    decreases a.len() - i,
                {
                    proof {
                        assert(decreases_to!(*a => a@));
                        assert(decreases_to!(a@ => a@[i as int]));
                    }
                    let e = a[i].dup();
                    out.push(e);
                    i = i + 1;
                }
                proof {
                    lemma_values_view(out@);
                    lemma_values_view(a@);
                    assert(values_view(out@) =~= values_view(a@));
                }
                Value::Array(out)
            },
            Value::Object(m) => {
                let mut out: Vec<(String, Value)> = Vec::new();
                let mut i: usize = 0;
                proof {
                    assert(decreases_to!(*self => *m));
                }
                while i < m.len()
                    invariant
                        i <= m.len(),
                        out@.len() == i,
                        (decreases_to!(*self => *m)),
                        forall|k: int|
                            0 <= k < i ==> out@[k].0@ == m@[k].0@ && value_view(out@[k].1)
                                == value_view(m@[k].1),
                    decreases m.len() - i,
                {
                    proof {
                        assert(decreases_to!(*m => m@));
                        assert(decreases_to!(m@ => m@[i as int]));
                        assert(decreases_to!(m@[i as int] => m@[i as int].1));
                    }
                    let key = m[i].0.clone();
                    let val = m[i].1.dup();
                    out.push((key, val));
                    i = i + 1;
                }
                proof {
                    lemma_entries_view(out@);
                    lemma_entries_view(m@);
                    assert(entries_view(out@) =~= entries_view(m@));
                }
                Value::Object(out)
            },
        }
    }
}

} // verus!
