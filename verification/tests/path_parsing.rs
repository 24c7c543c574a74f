use jsondiff::ArrayIndex;
use jsondiff::PathElement;
use jsondiff::parse_element_path;

#[test]
fn test_path_parsing() {
    assert_eq!(
        parse_element_path("a.b.c").unwrap(),
        vec![
            PathElement::Key("a".to_string()),
            PathElement::Key("b".to_string()),
            PathElement::Key("c".to_string())
        ]
    );

    assert_eq!(
        parse_element_path("_.a.c").unwrap(),
        vec![
            PathElement::ArrayIndex(ArrayIndex::All),
            PathElement::Key("a".to_string()),
            PathElement::Key("c".to_string())
        ]
    );

    assert_eq!(
        parse_element_path(r"\_.field_1._1").unwrap(),
        vec![
            PathElement::Key("_".to_string()),
            PathElement::Key("field_1".to_string()),
            PathElement::Key("_1".to_string())
        ]
    );

    assert_eq!(
        parse_element_path(r"\_.\_._1_").unwrap(),
        vec![
            PathElement::Key("_".to_string()),
            PathElement::Key("_".to_string()),
            PathElement::Key("_1_".to_string())
        ]
    );

    assert_eq!(
        parse_element_path(r"__").unwrap(),
        vec![PathElement::Key("__".to_string()),]
    );
}

#[test]
fn path_parsing_rejects_leftover_input() {
    let err = parse_element_path("a..b").unwrap_err();
    assert_eq!(err, "Unparsed input remaining: ..b");

    let err = parse_element_path("a.%b").unwrap_err();
    assert_eq!(err, "Unparsed input remaining: .%b");

    let err = parse_element_path("").unwrap_err();
    assert_eq!(err, "Unparsed input remaining: ");

    let err = parse_element_path(r"a\_b").unwrap_err();
    assert_eq!(err, r"Unparsed input remaining: \_b");
}

#[test]
fn path_parsing_escaped_underscore_is_a_key() {
    assert_eq!(
        parse_element_path(r"\_").unwrap(),
        vec![PathElement::Key("_".to_string())]
    );
    // A bracketed wildcard is not part of the grammar.
    assert!(parse_element_path("object_array.[_].a").is_err());
}
