use jsondiff::ArrayDifference;
use jsondiff::DiffBuilder;
use jsondiff::Difference;
use jsondiff::DumbMap;
use jsondiff::EntryDifference;
use jsondiff::Number;
use jsondiff::ScalarDifference;
use jsondiff::Type;
use jsondiff::Value;

fn s(v: &str) -> Value {
    Value::String(v.to_string())
}

fn u(v: u64) -> Value {
    Value::Number(Number::UInt(v))
}

fn i(v: i64) -> Value {
    Value::Number(Number::Int(v))
}

fn arr(vs: Vec<Value>) -> Value {
    Value::Array(vs)
}

fn obj(es: Vec<(&str, Value)>) -> Value {
    Value::Object(es.into_iter().map(|(k, v)| (k.to_string(), v)).collect())
}

fn compare(source: Value, target: Value) -> Option<Difference> {
    DiffBuilder::default().source(source).target(target).build().unwrap().compare()
}

#[test]
fn build_without_source_fails() {
    let err = DiffBuilder::default().build().unwrap_err();
    assert_eq!(err, "source is not set");
}

#[test]
fn build_without_target_fails() {
    let err = DiffBuilder::default().source(u(1)).build().unwrap_err();
    assert_eq!(err, "target is not set");
}

#[test]
fn kind_mismatch_is_a_type_difference() {
    let d = compare(u(1), s("1"));
    assert_eq!(
        d,
        Some(Difference::Type {
            source_type: Type::Number,
            source_value: u(1),
            target_type: Type::String,
            target_value: s("1"),
        })
    );
}

#[test]
fn empty_array_versus_null_is_a_type_difference_by_default() {
    let d = compare(arr(vec![]), Value::Null);
    assert!(matches!(d, Some(Difference::Type { .. })), "got: {:?}", d);
}

#[test]
fn empty_array_versus_null_equates_when_configured() {
    let d = DiffBuilder::default()
        .equate_empty_arrays(true)
        .source(arr(vec![]))
        .target(Value::Null)
        .build()
        .unwrap()
        .compare();
    assert!(d.is_none(), "got: {:?}", d);

    let d = DiffBuilder::default()
        .equate_empty_arrays(true)
        .source(Value::Null)
        .target(arr(vec![]))
        .build()
        .unwrap()
        .compare();
    assert!(d.is_none(), "got: {:?}", d);
}

#[test]
fn signed_and_unsigned_integers_compare_exactly() {
    // Both sides fit in i64, so they compare exactly and differ.
    let d = compare(u(5), i(-5));
    assert_eq!(
        d,
        Some(Difference::Scalar(ScalarDifference::Number {
            source: Number::UInt(5),
            target: Number::Int(-5),
        }))
    );
}

#[test]
fn huge_unsigned_against_negative_yields_no_difference() {
    // Neither a shared signed representation nor a float is involved, so the
    // comparison reports nothing for this pairing.
    let d = compare(u(u64::MAX), i(-1));
    assert!(d.is_none(), "got: {:?}", d);
}

#[test]
fn shorter_array_keeps_differing_pairs_and_tail() {
    let d = compare(arr(vec![u(1), u(9)]), arr(vec![u(1), u(2), u(3)]));
    assert_eq!(
        d,
        Some(Difference::Array(ArrayDifference::Shorter {
            different_pairs: Some(DumbMap(vec![(
                1,
                Difference::Scalar(ScalarDifference::Number {
                    source: Number::UInt(9),
                    target: Number::UInt(2),
                }),
            )])),
            missing_elements: vec![u(3)],
        }))
    );
}

#[test]
fn source_only_key_is_extra_and_target_only_key_is_missing() {
    let d = compare(obj(vec![("a", u(1)), ("b", u(2))]), obj(vec![("a", u(1)), ("c", u(3))]));
    match d {
        Some(Difference::Object { different_entries }) => {
            assert_eq!(different_entries.0.len(), 2);
            assert_eq!(
                different_entries.0[0],
                ("b".to_string(), EntryDifference::Extra { value: u(2) })
            );
            assert_eq!(
                different_entries.0[1],
                ("c".to_string(), EntryDifference::Missing { value: u(3) })
            );
        }
        other => panic!("expected an object difference, got: {:?}", other),
    }
}

#[test]
fn ignore_missing_suppresses_presence_mismatch() {
    let d = DiffBuilder::default()
        .ignore_path_with_missing("gone", true)
        .source(obj(vec![("gone", u(1))]))
        .target(obj(vec![]))
        .build()
        .unwrap()
        .compare();
    assert!(d.is_none(), "got: {:?}", d);
}

#[test]
fn ignore_without_missing_still_reports_presence_mismatch() {
    let d = DiffBuilder::default()
        .ignore_path("gone")
        .source(obj(vec![("gone", u(1))]))
        .target(obj(vec![]))
        .build()
        .unwrap()
        .compare();
    match d {
        Some(Difference::Object { different_entries }) => {
            assert_eq!(
                different_entries.0,
                vec![("gone".to_string(), EntryDifference::Extra { value: u(1) })]
            );
        }
        other => panic!("expected an object difference, got: {:?}", other),
    }
}

#[test]
fn only_first_matching_ignore_rule_governs() {
    // The first matching rule does not tolerate the missing entry, and the
    // later, more tolerant rule for the same path is never consulted.
    let d = DiffBuilder::default()
        .ignore_path("gone")
        .ignore_path_with_missing("gone", true)
        .source(obj(vec![("gone", u(1))]))
        .target(obj(vec![]))
        .build()
        .unwrap()
        .compare();
    assert!(d.is_some(), "the first rule should govern, got: {:?}", d);
}

#[test]
fn timestamps_outside_tolerance_are_reported() {
    let d = DiffBuilder::default()
        .approx_date_time_eq_duration(500_000_000)
        .source(s("2023-07-25T15:30:01Z"))
        .target(s("2023-07-25T15:30:00Z"))
        .build()
        .unwrap()
        .compare();
    assert_eq!(
        d,
        Some(Difference::Scalar(ScalarDifference::String {
            source: "2023-07-25T15:30:01Z".to_string(),
            target: "2023-07-25T15:30:00Z".to_string(),
        }))
    );
}

#[test]
fn timestamp_offsets_are_honored() {
    // The same instant written with different offsets compares equal under
    // any nonzero tolerance, even though the strings differ.
    let d = DiffBuilder::default()
        .approx_date_time_eq_duration(1)
        .source(s("2023-07-25T15:30:00+00:00"))
        .target(s("2023-07-25T17:30:00+02:00"))
        .build()
        .unwrap()
        .compare();
    assert!(d.is_none(), "got: {:?}", d);
}

#[test]
fn non_timestamp_strings_fall_back_to_literal_equality() {
    let d = DiffBuilder::default()
        .approx_date_time_eq_duration(1_000_000_000)
        .source(s("hello"))
        .target(s("hello"))
        .build()
        .unwrap()
        .compare();
    assert!(d.is_none(), "got: {:?}", d);

    let d = DiffBuilder::default()
        .approx_date_time_eq_duration(1_000_000_000)
        .source(s("hello"))
        .target(s("world"))
        .build()
        .unwrap()
        .compare();
    assert!(
        matches!(d, Some(Difference::Scalar(ScalarDifference::String { .. }))),
        "got: {:?}",
        d
    );
}

#[test]
fn bool_difference_carries_both_sides() {
    let d = compare(Value::Bool(true), Value::Bool(false));
    assert_eq!(
        d,
        Some(Difference::Scalar(ScalarDifference::Bool { source: true, target: false }))
    );
}

#[test]
fn nested_difference_is_reported_at_depth() {
    let d = compare(
        obj(vec![("outer", obj(vec![("inner", u(1))]))]),
        obj(vec![("outer", obj(vec![("inner", u(2))]))]),
    );
    match d {
        Some(Difference::Object { different_entries }) => {
            let (key, entry) = &different_entries.0[0];
            assert_eq!(key, "outer");
            assert!(matches!(
                entry,
                EntryDifference::Value { value_diff: Difference::Object { .. } }
            ));
        }
        other => panic!("expected an object difference, got: {:?}", other),
    }
}
