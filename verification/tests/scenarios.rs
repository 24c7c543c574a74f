use jsondiff::ArrayDifference;
use jsondiff::DiffBuilder;
use jsondiff::Difference;
use jsondiff::EntryDifference;
use jsondiff::Number;
use jsondiff::ScalarDifference;
use jsondiff::Value;

fn s(v: &str) -> Value {
    Value::String(v.to_string())
}

fn u(v: u64) -> Value {
    Value::Number(Number::UInt(v))
}

fn f(v: f64) -> Value {
    Value::Number(Number::Float(format!("{}", v)))
}

fn arr(vs: Vec<Value>) -> Value {
    Value::Array(vs)
}

fn obj(es: Vec<(&str, Value)>) -> Value {
    Value::Object(es.into_iter().map(|(k, v)| (k.to_string(), v)).collect())
}

fn compare(source: Value, target: Value) -> Option<Difference> {
    DiffBuilder::default().source(source).target(target).build().unwrap().compare()
}

#[test]
fn equal_flat_objects_compare_equal() {
    let d = compare(obj(vec![("a", u(1))]), obj(vec![("a", u(1))]));
    assert!(d.is_none(), "diff should be None, but got: {:?}", d);
}

#[test]
fn changed_entry_is_reported_as_value_difference() {
    let d = compare(obj(vec![("a", u(1))]), obj(vec![("a", u(2))]));
    match d {
        Some(Difference::Object { different_entries }) => {
            assert_eq!(different_entries.0.len(), 1);
            let (key, entry) = &different_entries.0[0];
            assert_eq!(key, "a");
            assert_eq!(
                *entry,
                EntryDifference::Value {
                    value_diff: Difference::Scalar(ScalarDifference::Number {
                        source: Number::UInt(1),
                        target: Number::UInt(2),
                    }),
                }
            );
        }
        other => panic!("expected an object difference, got: {:?}", other),
    }
}

#[test]
fn longer_source_array_reports_extra_length() {
    let d = compare(arr(vec![u(1), u(2), u(3)]), arr(vec![u(1), u(2)]));
    assert_eq!(
        d,
        Some(Difference::Array(ArrayDifference::Longer {
            different_pairs: None,
            extra_length: 1,
        }))
    );
}

#[test]
fn shorter_source_array_reports_missing_elements() {
    let d = compare(arr(vec![u(1), u(2)]), arr(vec![u(1), u(2), u(3)]));
    assert_eq!(
        d,
        Some(Difference::Array(ArrayDifference::Shorter {
            different_pairs: None,
            missing_elements: vec![u(3)],
        }))
    );
}

#[test]
fn floats_within_epsilon_are_equal() {
    let d = DiffBuilder::default()
        .approx_float_eq_epsilon("0.01")
        .source(f(1.00))
        .target(f(1.005))
        .build()
        .unwrap()
        .compare();
    assert!(d.is_none(), "diff should be None, but got: {:?}", d);
}

#[test]
fn floats_outside_epsilon_are_reported() {
    let d = DiffBuilder::default()
        .approx_float_eq_epsilon("0.01")
        .source(f(1.00))
        .target(f(1.02))
        .build()
        .unwrap()
        .compare();
    assert_eq!(
        d,
        Some(Difference::Scalar(ScalarDifference::Number {
            source: Number::Float(format!("{}", 1.00)),
            target: Number::Float(format!("{}", 1.02)),
        }))
    );
}

#[test]
fn wildcard_rule_covers_every_array_index() {
    let source = obj(vec![(
        "object_array",
        arr(vec![
            obj(vec![("a", s("x")), ("c", s("d"))]),
            obj(vec![("a", s("y")), ("c", s("e"))]),
        ]),
    )]);
    let target = obj(vec![(
        "object_array",
        arr(vec![
            obj(vec![("a", s("1")), ("c", s("d"))]),
            obj(vec![("a", s("2")), ("c", s("e"))]),
        ]),
    )]);

    let d = DiffBuilder::default()
        .ignore_path("object_array._.a")
        .source(source)
        .target(target)
        .build()
        .unwrap()
        .compare();

    assert!(d.is_none(), "diff should be None, but got: {:?}", d);
}

#[test]
fn equal_length_arrays_with_differing_pair_are_pairs_only() {
    let d = compare(arr(vec![u(1), u(9), u(3)]), arr(vec![u(1), u(2), u(3)]));
    match d {
        Some(Difference::Array(ArrayDifference::PairsOnly { different_pairs })) => {
            assert_eq!(different_pairs.0.len(), 1);
            let (idx, inner) = &different_pairs.0[0];
            assert_eq!(*idx, 1);
            assert_eq!(
                *inner,
                Difference::Scalar(ScalarDifference::Number {
                    source: Number::UInt(9),
                    target: Number::UInt(2),
                })
            );
        }
        other => panic!("expected a pairs-only array difference, got: {:?}", other),
    }
}

#[test]
fn comparison_is_reflexive_under_any_configuration() {
    let make = || {
        obj(vec![
            ("s", s("x")),
            ("f", f(2.5)),
            ("ts", s("2023-07-25T15:30:00Z")),
            ("nested", arr(vec![obj(vec![("k", u(7))]), Value::Null])),
        ])
    };
    let d = DiffBuilder::default()
        .ignore_path("nested._.k")
        .approx_float_eq_epsilon("0.5")
        .approx_date_time_eq_duration(250)
        .equate_empty_arrays(true)
        .source(make())
        .target(make())
        .build()
        .unwrap()
        .compare();
    assert!(d.is_none(), "diff should be None, but got: {:?}", d);
}

#[test]
fn parse_error_message_carries_the_remainder() {
    let err = jsondiff::parse_element_path("ok.then#broken").unwrap_err();
    assert_eq!(err, "Unparsed input remaining: #broken");
}
