use kq::node::{Node, Value};

fn node(name: &str, values: Vec<Value>, properties: Vec<(&str, Value)>, children: Vec<Node>) -> Node {
    Node {
        name: name.to_string(),
        properties: properties.into_iter().map(|(k, v)| (k.to_string(), v)).collect(),
        values,
        children,
    }
}

fn t(s: &str) -> Value {
    Value::Text(s.to_string())
}


#[test]
fn present_prop() {
    let document = vec![
        node("step", vec![], vec![("uses", t("actions/checkout@v1"))], vec![]),
        node("step", vec![], vec![("run", t("cargo test --all --verbose"))], vec![]),
        node("step", vec![], vec![("uses", t("actions-rs/toolchain@v1"))], vec![]),
    ];
    let result = kq::query_document("step[prop(uses)]", document).unwrap();
    let expected = vec![
        node("step", vec![], vec![("uses", t("actions/checkout@v1"))], vec![]),
        node("step", vec![], vec![("uses", t("actions-rs/toolchain@v1"))], vec![]),
    ];
    assert_eq!(result, expected);
}

#[test]
fn absent_prop() {
    let document = vec![
        node("step", vec![], vec![("uses", t("actions/checkout@v1"))], vec![]),
        node("step", vec![], vec![("run", t("cargo test --all --verbose"))], vec![]),
        node("step", vec![], vec![("uses", t("actions-rs/toolchain@v1"))], vec![]),
    ];
    let result = kq::query_document("step[prop(does_not_exist)]", document).unwrap();
    assert!(result.is_empty());
}

#[test]
fn identifier_closed_prop_name_explicit_absent_identifier() {
    let document = vec![
        node("step", vec![], vec![("uses", t("actions/checkout@v1"))], vec![]),
        node("step", vec![], vec![("run", t("cargo test --all --verbose"))], vec![]),
        node("step", vec![], vec![("uses", t("actions-rs/toolchain@v1"))], vec![]),
    ];
    let result = kq::query_document("does_not_exist[prop(uses)]", document).unwrap();
    assert!(result.is_empty());
}

#[test]
fn identifier_closed_prop_name_explicit_equal() {
    let document = vec![
        node("step", vec![], vec![("uses", t("actions/checkout@v1"))], vec![]),
        node("step", vec![], vec![("run", t("cargo test --all --verbose"))], vec![]),
        node("step", vec![], vec![("uses", t("actions-rs/toolchain@v1"))], vec![]),
    ];
    let result = kq::query_document(r#"step[prop(uses) = "actions/checkout@v1"]"#, document).unwrap();
    let expected = vec![
        node("step", vec![], vec![("uses", t("actions/checkout@v1"))], vec![]),
    ];
    assert_eq!(result, expected);
}

#[test]
fn identifier_closed_prop_name_explicit_absent_equal() {
    let document = vec![
        node("step", vec![], vec![("uses", t("actions/checkout@v1"))], vec![]),
        node("step", vec![], vec![("run", t("cargo test --all --verbose"))], vec![]),
        node("step", vec![], vec![("uses", t("actions-rs/toolchain@v1"))], vec![]),
    ];
    let result = kq::query_document(r#"does_not_exist[prop(uses) = "actions/checkout@v1"]"#, document).unwrap();
    assert!(result.is_empty());
}

#[test]
fn identifier_closed_prop_name_explicit_not_equal() {
    let document = vec![
        node("step", vec![], vec![("uses", t("actions/checkout@v1"))], vec![]),
        node("step", vec![], vec![("run", t("cargo test --all --verbose"))], vec![]),
        node("step", vec![], vec![("uses", t("actions-rs/toolchain@v1"))], vec![]),
    ];
    let result = kq::query_document(r#"step[prop(uses) != "actions/checkout@v1"]"#, document).unwrap();
    let expected = vec![
        node("step", vec![], vec![("uses", t("actions-rs/toolchain@v1"))], vec![]),
    ];
    assert_eq!(result, expected);
}

#[test]
fn identifier_closed_prop_name_explicit_absent_not_equal() {
    let document = vec![
        node("step", vec![], vec![("uses", t("actions/checkout@v1"))], vec![]),
        node("step", vec![], vec![("run", t("cargo test --all --verbose"))], vec![]),
        node("step", vec![], vec![("uses", t("actions-rs/toolchain@v1"))], vec![]),
    ];
    let result = kq::query_document(r#"does_not_exist[prop(uses) != "actions/checkout@v1"]"#, document).unwrap();
    assert!(result.is_empty());
}

#[test]
fn identifier_closed_prop_name_explicit_starts_with() {
    let document = vec![
        node("step", vec![], vec![("uses", t("actions/checkout@v1"))], vec![]),
        node("step", vec![], vec![("run", t("cargo test --all --verbose"))], vec![]),
        node("step", vec![], vec![("uses", t("actions-rs/toolchain@v1"))], vec![]),
    ];
    let result = kq::query_document(r#"step[prop(uses) ^= "actions"]"#, document).unwrap();
    let expected = vec![
        node("step", vec![], vec![("uses", t("actions/checkout@v1"))], vec![]),
        node("step", vec![], vec![("uses", t("actions-rs/toolchain@v1"))], vec![]),
    ];
    assert_eq!(result, expected);
}

#[test]
fn identifier_closed_prop_name_explicit_absent_starts_with() {
    let document = vec![
        node("step", vec![], vec![("uses", t("actions/checkout@v1"))], vec![]),
        node("step", vec![], vec![("run", t("cargo test --all --verbose"))], vec![]),
        node("step", vec![], vec![("uses", t("actions-rs/toolchain@v1"))], vec![]),
    ];
    let result = kq::query_document(r#"does_not_exist[prop(uses) ^= "actions"]"#, document).unwrap();
    assert!(result.is_empty());
}

#[test]
fn identifier_closed_prop_name_explicit_ends_with() {
    let document = vec![
        node("step", vec![], vec![("uses", t("actions/checkout@v1"))], vec![]),
        node("step", vec![], vec![("run", t("cargo test --all --verbose"))], vec![]),
        node("step", vec![], vec![("uses", t("actions-rs/toolchain@v1"))], vec![]),
    ];
    let result = kq::query_document(r#"step[prop(uses) $= "@v1"]"#, document).unwrap();
    let expected = vec![
        node("step", vec![], vec![("uses", t("actions/checkout@v1"))], vec![]),
        node("step", vec![], vec![("uses", t("actions-rs/toolchain@v1"))], vec![]),
    ];
    assert_eq!(result, expected);
}

#[test]
fn identifier_closed_prop_name_explicit_absent_ends_with() {
    let document = vec![
        node("step", vec![], vec![("uses", t("actions/checkout@v1"))], vec![]),
        node("step", vec![], vec![("run", t("cargo test --all --verbose"))], vec![]),
        node("step", vec![], vec![("uses", t("actions-rs/toolchain@v1"))], vec![]),
    ];
    let result = kq::query_document(r#"does_not_exist[prop(uses) $= "@v1"]"#, document).unwrap();
    assert!(result.is_empty());
}

#[test]
fn identifier_closed_prop_name_explicit_contains() {
    let document = vec![
        node("step", vec![], vec![("uses", t("actions/checkout@v1"))], vec![]),
        node("step", vec![], vec![("run", t("cargo test --all --verbose"))], vec![]),
        node("step", vec![], vec![("uses", t("actions-rs/toolchain@v1"))], vec![]),
    ];
    let result = kq::query_document(r#"step[prop(uses) *= "toolchain"]"#, document).unwrap();
    let expected = vec![
        node("step", vec![], vec![("uses", t("actions-rs/toolchain@v1"))], vec![]),
    ];
    assert_eq!(result, expected);
}

#[test]
fn identifier_closed_prop_name_explicit_absent_contains() {
    let document = vec![
        node("step", vec![], vec![("uses", t("actions/checkout@v1"))], vec![]),
        node("step", vec![], vec![("run", t("cargo test --all --verbose"))], vec![]),
        node("step", vec![], vec![("uses", t("actions-rs/toolchain@v1"))], vec![]),
    ];
    let result = kq::query_document(r#"does_not_exist[prop(uses) *= "toolchain"]"#, document).unwrap();
    assert!(result.is_empty());
}

#[test]
fn identifier_closed_prop_name_explicit_greater_than() {
    let document = vec![
        node("step", vec![], vec![("uses", t("actions/checkout@v1"))], vec![]),
        node("step", vec![], vec![("run", t("cargo test --all --verbose"))], vec![]),
        node("step", vec![], vec![("uses", t("actions-rs/toolchain@v1"))], vec![]),
    ];
    let result = kq::query_document(r#"step[prop(uses) > "actions/checkout@v1"]"#, document).unwrap();
    assert!(result.is_empty());
}

#[test]
fn identifier_closed_prop_name_explicit_absent_greater_than() {
    let document = vec![
        node("step", vec![], vec![("uses", t("actions/checkout@v1"))], vec![]),
        node("step", vec![], vec![("run", t("cargo test --all --verbose"))], vec![]),
        node("step", vec![], vec![("uses", t("actions-rs/toolchain@v1"))], vec![]),
    ];
    let result = kq::query_document(r#"does_not_exist[prop(uses) > "actions/checkout@v1"]"#, document).unwrap();
    assert!(result.is_empty());
}

#[test]
fn identifier_closed_prop_name_explicit_greater_than_or_equal_to() {
    let document = vec![
        node("step", vec![], vec![("uses", t("actions/checkout@v1"))], vec![]),
        node("step", vec![], vec![("run", t("cargo test --all --verbose"))], vec![]),
        node("step", vec![], vec![("uses", t("actions-rs/toolchain@v1"))], vec![]),
    ];
    let result = kq::query_document(r#"step[prop(uses) >= "actions/checkout@v1"]"#, document).unwrap();
    assert!(result.is_empty());
}

#[test]
fn identifier_closed_prop_name_explicit_absent_greater_than_or_equal_to() {
    let document = vec![
        node("step", vec![], vec![("uses", t("actions/checkout@v1"))], vec![]),
        node("step", vec![], vec![("run", t("cargo test --all --verbose"))], vec![]),
        node("step", vec![], vec![("uses", t("actions-rs/toolchain@v1"))], vec![]),
    ];
    let result = kq::query_document(r#"does_not_exist[prop(uses) >= "actions/checkout@v1"]"#, document).unwrap();
    assert!(result.is_empty());
}

#[test]
fn identifier_closed_prop_name_explicit_less_than() {
    let document = vec![
        node("step", vec![], vec![("uses", t("actions/checkout@v1"))], vec![]),
        node("step", vec![], vec![("run", t("cargo test --all --verbose"))], vec![]),
        node("step", vec![], vec![("uses", t("actions-rs/toolchain@v1"))], vec![]),
    ];
    let result = kq::query_document(r#"step[prop(uses) < "actions/checkout@v1"]"#, document).unwrap();
    assert!(result.is_empty());
}

#[test]
fn identifier_closed_prop_name_explicit_absent_less_than() {
    let document = vec![
        node("step", vec![], vec![("uses", t("actions/checkout@v1"))], vec![]),
        node("step", vec![], vec![("run", t("cargo test --all --verbose"))], vec![]),
        node("step", vec![], vec![("uses", t("actions-rs/toolchain@v1"))], vec![]),
    ];
    let result = kq::query_document(r#"does_not_exist[prop(uses) < "actions/checkout@v1"]"#, document).unwrap();
    assert!(result.is_empty());
}

#[test]
fn identifier_closed_prop_name_explicit_less_than_or_equal_to() {
    let document = vec![
        node("step", vec![], vec![("uses", t("actions/checkout@v1"))], vec![]),
        node("step", vec![], vec![("run", t("cargo test --all --verbose"))], vec![]),
        node("step", vec![], vec![("uses", t("actions-rs/toolchain@v1"))], vec![]),
    ];
    let result = kq::query_document(r#"step[prop(uses) <= "actions/checkout@v1"]"#, document).unwrap();
    assert!(result.is_empty());
}

#[test]
fn identifier_closed_prop_name_explicit_absent_less_than_or_equal_to() {
    let document = vec![
        node("step", vec![], vec![("uses", t("actions/checkout@v1"))], vec![]),
        node("step", vec![], vec![("run", t("cargo test --all --verbose"))], vec![]),
        node("step", vec![], vec![("uses", t("actions-rs/toolchain@v1"))], vec![]),
    ];
    let result = kq::query_document(r#"does_not_exist[prop(uses) <= "actions/checkout@v1"]"#, document).unwrap();
    assert!(result.is_empty());
}
