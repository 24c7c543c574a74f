use jsondiff::ArrayDifference;
use jsondiff::DiffBuilder;
use jsondiff::Difference;
use jsondiff::EntryDifference;
use jsondiff::Number;
use jsondiff::ScalarDifference;
use jsondiff::Value;

fn s(v: &str) -> Value {
    Value::String(v.to_string())
}

fn u(v: u64) -> Value {
    Value::Number(Number::UInt(v))
}

fn f(v: f64) -> Value {
    Value::Number(Number::Float(format!("{}", v)))
}

fn b(v: bool) -> Value {
    Value::Bool(v)
}

fn arr(vs: Vec<Value>) -> Value {
    Value::Array(vs)
}

fn obj(es: Vec<(&str, Value)>) -> Value {
    Value::Object(es.into_iter().map(|(k, v)| (k.to_string(), v)).collect())
}

fn equal_objects_fixture() -> Value {
    obj(vec![
        ("string", s("b")),
        ("int", u(1)),
        ("float", f(1.0)),
        ("bool", b(true)),
        ("int_array", arr(vec![u(1), u(2), u(3)])),
        ("float_array", arr(vec![f(1.0), f(2.0), f(3.0)])),
        ("bool_array", arr(vec![b(true), b(false), b(false)])),
        ("string_array", arr(vec![s("foo"), s("bar")])),
        ("empty_array", arr(vec![])),
        ("null", Value::Null),
        (
            "object",
            obj(vec![
                ("string", s("c")),
                ("int", u(1)),
                ("float", f(1.0)),
                ("bool", b(true)),
                ("array", arr(vec![u(1), u(2), u(3)])),
                ("null", Value::Null),
                ("object", obj(vec![("string", s("d"))])),
            ]),
        ),
    ])
}

fn user_1_fixture() -> Value {
    obj(vec![
        ("user", s("John")),
        ("address", obj(vec![("city", s("Astana")), ("zip", u(123))])),
        ("animals", arr(vec![s("dog"), s("cat")])),
        ("object_array", arr(vec![obj(vec![("a", s("b")), ("c", s("d"))])])),
        ("optional_array", arr(vec![])),
        ("target_missing_value", u(1)),
    ])
}

fn user_2_fixture() -> Value {
    obj(vec![
        ("user", s("Joe")),
        ("address", obj(vec![("city", s("Boston")), ("zip", u(312))])),
        ("animals", arr(vec![s("dog"), s("cat")])),
        ("object_array", arr(vec![obj(vec![("a", s("3")), ("c", s("d"))])])),
        ("optional_array", Value::Null),
    ])
}

#[test]
fn lib_equal_objects() {
    let obj1 = equal_objects_fixture();
    let obj2 = equal_objects_fixture();

    let diff = DiffBuilder::default().source(obj1).target(obj2).build().unwrap();
    let diff = diff.compare();
    assert_eq!(true, diff.is_none(), "diff should be None, but got: {:?}", diff);
}

#[test]
fn diff_equal_objects() {
    let obj1 = equal_objects_fixture();
    let obj2 = equal_objects_fixture();

    let diff = DiffBuilder::default().source(obj1).target(obj2).build().unwrap();
    let diff = diff.compare();
    assert_eq!(true, diff.is_none(), "diff should be None, but got: {:?}", diff);
}

#[test]
fn lib_ignore_fields() {
    let user_1 = user_1_fixture();
    let user_2 = user_2_fixture();

    let diff = DiffBuilder::default()
        .ignore_path("user")
        .ignore_path("address.city")
        .ignore_path("address.zip")
        .ignore_path("object_array.[_].a")
        .ignore_path_with_missing("target_missing_value", true)
        .equate_empty_arrays(true)
        .source(user_1)
        .target(user_2)
        .build()
        .unwrap();

    let diff = diff.compare();

    // The bracketed wildcard `[_]` is not valid path syntax, so that rule is
    // silently dropped and the nested difference under `object_array` is
    // reported: the `a` entries hold "b" and "3".
    match diff {
        Some(Difference::Object { different_entries }) => {
            assert_eq!(different_entries.0.len(), 1);
            let (key, entry) = &different_entries.0[0];
            assert_eq!(key, "object_array");
            match entry {
                EntryDifference::Value {
                    value_diff: Difference::Array(ArrayDifference::PairsOnly { different_pairs }),
                } => {
                    assert_eq!(different_pairs.0.len(), 1);
                    let (idx, inner) = &different_pairs.0[0];
                    assert_eq!(*idx, 0);
                    match inner {
                        Difference::Object { different_entries } => {
                            assert_eq!(different_entries.0.len(), 1);
                            let (k2, e2) = &different_entries.0[0];
                            assert_eq!(k2, "a");
                            assert_eq!(
                                *e2,
                                EntryDifference::Value {
                                    value_diff: Difference::Scalar(ScalarDifference::String {
                                        source: "b".to_string(),
                                        target: "3".to_string(),
                                    }),
                                }
                            );
                        }
                        other => panic!("unexpected inner difference: {:?}", other),
                    }
                }
                other => panic!("unexpected entry difference: {:?}", other),
            }
        }
        other => panic!("diff should report object_array, but got: {:?}", other),
    }
}

#[test]
fn diff_ignore_fields() {
    let user_1 = user_1_fixture();
    let user_2 = user_2_fixture();

    let diff = DiffBuilder::default()
        .ignore_path("user")
        .ignore_path("address.city")
        .ignore_path("address.zip")
        .ignore_path("object_array._.a")
        .ignore_path_with_missing("target_missing_value", true)
        .equate_empty_arrays(true)
        .source(user_1)
        .target(user_2)
        .build()
        .unwrap();

    let diff = diff.compare();

    assert_eq!(true, diff.is_none(), "diff should be None, but got: {:?}", diff);
}

#[test]
fn lib_approx_float_eq() {
    let obj1 = obj(vec![("float", f(1.34))]);
    let obj2 = obj(vec![("float", f(1.341))]);

    let diff = DiffBuilder::default()
        .approx_float_eq_epsilon(&format!("{}", 0.001))
        .source(obj1)
        .target(obj2)
        .build()
        .unwrap();

    let diff = diff.compare();

    assert_eq!(true, diff.is_none(), "diff should be None, but got: {:?}", diff);
}

#[test]
fn diff_approx_float_eq() {
    let obj1 = obj(vec![("float", f(1.34))]);
    let obj2 = obj(vec![("float", f(1.341))]);

    let diff = DiffBuilder::default()
        .approx_float_eq_epsilon(&format!("{}", 0.001))
        .source(obj1)
        .target(obj2)
        .build()
        .unwrap();

    let diff = diff.compare();

    assert_eq!(true, diff.is_none(), "diff should be None, but got: {:?}", diff);
}

#[test]
fn approx_date_time_eq() {
    let obj1 = obj(vec![("ts", s("2023-07-25T15:30:01Z"))]);
    let obj2 = obj(vec![("ts", s("2023-07-25T15:30:00Z"))]);

    let diff = DiffBuilder::default()
        .approx_date_time_eq_duration(1_000_000_000)
        .source(obj1)
        .target(obj2)
        .build()
        .unwrap();

    let diff = diff.compare();

    assert_eq!(true, diff.is_none(), "diff should be None, but got: {:?}", diff);
}
