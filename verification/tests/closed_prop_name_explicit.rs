use kq::node::{Node, Value};

fn node(name: &str, values: Vec<Value>, properties: Vec<(&str, Value)>, children: Vec<Node>) -> Node {
    Node {
        name: name.to_string(),
        properties: properties.into_iter().map(|(k, v)| (k.to_string(), v)).collect(),
        values,
        children,
    }
}

fn t(s: &str) -> Value {
    Value::Text(s.to_string())
}


#[test]
fn closed_prop_name_explicit_present() {
    let document = vec![
        node("step", vec![], vec![("uses", t("actions/checkout@v1"))], vec![]),
        node("step", vec![], vec![("run", t("cargo test --all --verbose"))], vec![]),
        node("step", vec![], vec![("uses", t("actions-rs/toolchain@v1"))], vec![]),
    ];
    let result = kq::query_document("[prop(uses)]", document).unwrap();
    let expected = vec![
        node("step", vec![], vec![("uses", t("actions/checkout@v1"))], vec![]),
        node("step", vec![], vec![("uses", t("actions-rs/toolchain@v1"))], vec![]),
    ];
    assert_eq!(result, expected);
}

#[test]
fn closed_prop_name_explicit_absent() {
    let document = vec![
        node("step", vec![], vec![("uses", t("actions/checkout@v1"))], vec![]),
        node("step", vec![], vec![("run", t("cargo test --all --verbose"))], vec![]),
        node("step", vec![], vec![("uses", t("actions-rs/toolchain@v1"))], vec![]),
    ];
    let result = kq::query_document("[prop(does_not_exist)]", document).unwrap();
    assert!(result.is_empty());
}

#[test]
fn closed_prop_name_explicit_equal() {
    let document = vec![
        node("step", vec![], vec![("uses", t("actions/checkout@v1"))], vec![]),
        node("step", vec![], vec![("run", t("cargo test --all --verbose"))], vec![]),
        node("step", vec![], vec![("uses", t("actions-rs/toolchain@v1"))], vec![]),
    ];
    let result = kq::query_document(r#"[prop(uses) = "actions/checkout@v1"]"#, document).unwrap();
    let expected = vec![
        node("step", vec![], vec![("uses", t("actions/checkout@v1"))], vec![]),
    ];
    assert_eq!(result, expected);
}

#[test]
fn closed_prop_name_explicit_not_equal() {
    let document = vec![
        node("step", vec![], vec![("uses", t("actions/checkout@v1"))], vec![]),
        node("step", vec![], vec![("run", t("cargo test --all --verbose"))], vec![]),
        node("step", vec![], vec![("uses", t("actions-rs/toolchain@v1"))], vec![]),
    ];
    let result = kq::query_document(r#"[prop(uses) != "actions/checkout@v1"]"#, document).unwrap();
    let expected = vec![
        node("step", vec![], vec![("uses", t("actions-rs/toolchain@v1"))], vec![]),
    ];
    assert_eq!(result, expected);
}

#[test]
fn closed_prop_name_explicit_starts_with() {
    let document = vec![
        node("step", vec![], vec![("uses", t("actions/checkout@v1"))], vec![]),
        node("step", vec![], vec![("run", t("cargo test --all --verbose"))], vec![]),
        node("step", vec![], vec![("uses", t("actions-rs/toolchain@v1"))], vec![]),
    ];
    let result = kq::query_document(r#"[prop(uses) ^= "actions"]"#, document).unwrap();
    let expected = vec![
        node("step", vec![], vec![("uses", t("actions/checkout@v1"))], vec![]),
        node("step", vec![], vec![("uses", t("actions-rs/toolchain@v1"))], vec![]),
    ];
    assert_eq!(result, expected);
}

#[test]
fn closed_prop_name_explicit_ends_with() {
    let document = vec![
        node("step", vec![], vec![("uses", t("actions/checkout@v1"))], vec![]),
        node("step", vec![], vec![("run", t("cargo test --all --verbose"))], vec![]),
        node("step", vec![], vec![("uses", t("actions-rs/toolchain@v1"))], vec![]),
    ];
    let result = kq::query_document(r#"[prop(uses) $= "@v1"]"#, document).unwrap();
    let expected = vec![
        node("step", vec![], vec![("uses", t("actions/checkout@v1"))], vec![]),
        node("step", vec![], vec![("uses", t("actions-rs/toolchain@v1"))], vec![]),
    ];
    assert_eq!(result, expected);
}

#[test]
fn closed_prop_name_explicit_contains() {
    let document = vec![
        node("step", vec![], vec![("uses", t("actions/checkout@v1"))], vec![]),
        node("step", vec![], vec![("run", t("cargo test --all --verbose"))], vec![]),
        node("step", vec![], vec![("uses", t("actions-rs/toolchain@v1"))], vec![]),
    ];
    let result = kq::query_document(r#"[prop(uses) *= "toolchain"]"#, document).unwrap();
    let expected = vec![
        node("step", vec![], vec![("uses", t("actions-rs/toolchain@v1"))], vec![]),
    ];
    assert_eq!(result, expected);
}

#[test]
fn closed_prop_name_explicit_greater_than() {
    let document = vec![
        node("step", vec![], vec![("uses", t("actions/checkout@v1"))], vec![]),
        node("step", vec![], vec![("run", t("cargo test --all --verbose"))], vec![]),
        node("step", vec![], vec![("uses", t("actions-rs/toolchain@v1"))], vec![]),
    ];
    let result = kq::query_document(r#"[prop(uses) > "actions/checkout@v1"]"#, document).unwrap();
    assert!(result.is_empty());
}

#[test]
fn closed_prop_name_explicit_greater_than_or_equal_to() {
    let document = vec![
        node("step", vec![], vec![("uses", t("actions/checkout@v1"))], vec![]),
        node("step", vec![], vec![("run", t("cargo test --all --verbose"))], vec![]),
        node("step", vec![], vec![("uses", t("actions-rs/toolchain@v1"))], vec![]),
    ];
    let result = kq::query_document(r#"[prop(uses) >= "actions/checkout@v1"]"#, document).unwrap();
    assert!(result.is_empty());
}

#[test]
fn closed_prop_name_explicit_less_than() {
    let document = vec![
        node("step", vec![], vec![("uses", t("actions/checkout@v1"))], vec![]),
        node("step", vec![], vec![("run", t("cargo test --all --verbose"))], vec![]),
        node("step", vec![], vec![("uses", t("actions-rs/toolchain@v1"))], vec![]),
    ];
    let result = kq::query_document(r#"[prop(uses) < "actions/checkout@v1"]"#, document).unwrap();
    assert!(result.is_empty());
}

#[test]
fn closed_prop_name_explicit_less_than_or_equal_to() {
    let document = vec![
        node("step", vec![], vec![("uses", t("actions/checkout@v1"))], vec![]),
        node("step", vec![], vec![("run", t("cargo test --all --verbose"))], vec![]),
        node("step", vec![], vec![("uses", t("actions-rs/toolchain@v1"))], vec![]),
    ];
    let result = kq::query_document(r#"[prop(uses) <= "actions/checkout@v1"]"#, document).unwrap();
    assert!(result.is_empty());
}
