use kq::node::{Node, Value};

fn node(name: &str, values: Vec<Value>, properties: Vec<(&str, Value)>, children: Vec<Node>) -> Node {
    Node {
        name: name.to_string(),
        properties: properties.into_iter().map(|(k, v)| (k.to_string(), v)).collect(),
        values,
        children,
    }
}

fn t(s: &str) -> Value {
    Value::Text(s.to_string())
}


#[test]
fn identifier_closed_val_present_without_index() {
    let document = vec![
        node("on", vec![t("push"), t("pull_request")], vec![], vec![]),
        node("name", vec![t("CI")], vec![], vec![]),
        node("jobs", vec![], vec![], vec![]),
    ];
    let result = kq::query_document("name[val()]", document).unwrap();
    let expected = vec![
        node("name", vec![t("CI")], vec![], vec![]),
    ];
    assert_eq!(result, expected);
}

#[test]
fn absent_identifier_present_without_index() {
    let document = vec![
        node("on", vec![t("push"), t("pull_request")], vec![], vec![]),
        node("name", vec![t("CI")], vec![], vec![]),
        node("jobs", vec![], vec![], vec![]),
    ];
    let result = kq::query_document("does_not_exist[val()]", document).unwrap();
    assert!(result.is_empty());
}

#[test]
fn identifier_closed_val_present_with_index() {
    let document = vec![
        node("name", vec![t("CI")], vec![], vec![]),
        node("on", vec![t("push"), t("pull_request")], vec![], vec![]),
        node("jobs", vec![], vec![], vec![]),
    ];
    let result = kq::query_document("on[val(1)]", document).unwrap();
    let expected = vec![
        node("on", vec![t("push"), t("pull_request")], vec![], vec![]),
    ];
    assert_eq!(result, expected);
}

#[test]
fn absent_identifier_present_with_index() {
    let document = vec![
        node("name", vec![t("CI")], vec![], vec![]),
        node("on", vec![t("push"), t("pull_request")], vec![], vec![]),
        node("jobs", vec![], vec![], vec![]),
    ];
    let result = kq::query_document("does_not_exist[val(1)]", document).unwrap();
    assert!(result.is_empty());
}

#[test]
fn identifier_closed_val_absent() {
    let document = vec![
        node("name", vec![t("CI")], vec![], vec![]),
        node("on", vec![t("push"), t("pull_request")], vec![], vec![]),
        node("jobs", vec![], vec![], vec![]),
    ];
    let result = kq::query_document("[val(3)]", document).unwrap();
    assert!(result.is_empty());
}

#[test]
fn absent_idenrifier_absent() {
    let document = vec![
        node("name", vec![t("CI")], vec![], vec![]),
        node("on", vec![t("push"), t("pull_request")], vec![], vec![]),
        node("jobs", vec![], vec![], vec![]),
    ];
    let result = kq::query_document("does_not_exist[val(3)]", document).unwrap();
    assert!(result.is_empty());
}

#[test]
fn identifier_closed_val_equal() {
    let document = vec![
        node("on", vec![t("push"), t("pull_request")], vec![], vec![]),
        node("name", vec![t("CI")], vec![], vec![]),
        node("jobs", vec![], vec![], vec![]),
    ];
    let result = kq::query_document(r#"[val(1) = "pull_request"]"#, document).unwrap();
    let expected = vec![
        node("on", vec![t("push"), t("pull_request")], vec![], vec![]),
    ];
    assert_eq!(result, expected);
}

#[test]
fn identifier_closed_val_absent_equal() {
    let document = vec![
        node("on", vec![t("push"), t("pull_request")], vec![], vec![]),
        node("name", vec![t("CI")], vec![], vec![]),
        node("jobs", vec![], vec![], vec![]),
    ];
    let result = kq::query_document(r#"does_not_exist[val(1) = "pull_request"]"#, document).unwrap();
    assert!(result.is_empty());
}

#[test]
fn identifier_closed_val_not_equal() {
    let document = vec![
        node("on", vec![t("push"), t("pull_request")], vec![], vec![]),
        node("name", vec![t("CI")], vec![], vec![]),
        node("jobs", vec![], vec![], vec![]),
    ];
    let result = kq::query_document(r#"[val(0) != "push"]"#, document).unwrap();
    let expected = vec![
        node("name", vec![t("CI")], vec![], vec![]),
    ];
    assert_eq!(result, expected);
}

#[test]
fn identifier_closed_val_absent_not_equal() {
    let document = vec![
        node("on", vec![t("push"), t("pull_request")], vec![], vec![]),
        node("name", vec![t("CI")], vec![], vec![]),
        node("jobs", vec![], vec![], vec![]),
    ];
    let result = kq::query_document(r#"does_not_exist[val(0) != "push"]"#, document).unwrap();
    assert!(result.is_empty());
}

#[test]
fn identifier_closed_val_starts_with() {
    let document = vec![
        node("on", vec![t("push"), t("pull_request")], vec![], vec![]),
        node("name", vec![t("CI")], vec![], vec![]),
        node("jobs", vec![], vec![], vec![]),
    ];
    let result = kq::query_document(r#"[val(0) ^= "pu"]"#, document).unwrap();
    let expected = vec![
        node("on", vec![t("push"), t("pull_request")], vec![], vec![]),
    ];
    assert_eq!(result, expected);
}

#[test]
fn identifier_closed_val_absent_starts_with() {
    let document = vec![
        node("on", vec![t("push"), t("pull_request")], vec![], vec![]),
        node("name", vec![t("CI")], vec![], vec![]),
        node("jobs", vec![], vec![], vec![]),
    ];
    let result = kq::query_document(r#"does_not_exist[val(0) ^= "pu"]"#, document).unwrap();
    assert!(result.is_empty());
}

#[test]
fn identifier_closed_val_ends_with() {
    let document = vec![
        node("on", vec![t("push"), t("pull_request")], vec![], vec![]),
        node("name", vec![t("CI")], vec![], vec![]),
        node("jobs", vec![], vec![], vec![]),
    ];
    let result = kq::query_document(r#"[val(0) $= "sh"]"#, document).unwrap();
    let expected = vec![
        node("on", vec![t("push"), t("pull_request")], vec![], vec![]),
    ];
    assert_eq!(result, expected);
}

#[test]
fn identifier_closed_val_absent_ends_with() {
    let document = vec![
        node("on", vec![t("push"), t("pull_request")], vec![], vec![]),
        node("name", vec![t("CI")], vec![], vec![]),
        node("jobs", vec![], vec![], vec![]),
    ];
    let result = kq::query_document(r#"does_not_exist[val(0) $= "sh"]"#, document).unwrap();
    assert!(result.is_empty());
}

#[test]
fn identifier_closed_val_contains() {
    let document = vec![
        node("on", vec![t("push"), t("pull_request")], vec![], vec![]),
        node("name", vec![t("CI")], vec![], vec![]),
        node("jobs", vec![], vec![], vec![]),
    ];
    let result = kq::query_document(r#"[val(0) *= "us"]"#, document).unwrap();
    let expected = vec![
        node("on", vec![t("push"), t("pull_request")], vec![], vec![]),
    ];
    assert_eq!(result, expected);
}

#[test]
fn identifier_closed_val_absent_contains() {
    let document = vec![
        node("on", vec![t("push"), t("pull_request")], vec![], vec![]),
        node("name", vec![t("CI")], vec![], vec![]),
        node("jobs", vec![], vec![], vec![]),
    ];
    let result = kq::query_document(r#"does_not_exist[val(0) *= "us"]"#, document).unwrap();
    assert!(result.is_empty());
}

#[test]
fn identifier_closed_val_greater_than() {
    let document = vec![
        node("on", vec![t("push"), t("pull_request")], vec![], vec![]),
        node("name", vec![t("CI")], vec![], vec![]),
        node("jobs", vec![], vec![], vec![]),
    ];
    let result = kq::query_document(r#"[val(0) > "push"]"#, document).unwrap();
    assert!(result.is_empty());
}

#[test]
fn identifier_closed_val_absent_greater_than() {
    let document = vec![
        node("on", vec![t("push"), t("pull_request")], vec![], vec![]),
        node("name", vec![t("CI")], vec![], vec![]),
        node("jobs", vec![], vec![], vec![]),
    ];
    let result = kq::query_document(r#"does_not_exist[val(0) > "push"]"#, document).unwrap();
    assert!(result.is_empty());
}

#[test]
fn identifier_closed_val_greater_than_or_equal_to() {
    let document = vec![
        node("on", vec![t("push"), t("pull_request")], vec![], vec![]),
        node("name", vec![t("CI")], vec![], vec![]),
        node("jobs", vec![], vec![], vec![]),
    ];
    let result = kq::query_document(r#"[val(0) >= "push"]"#, document).unwrap();
    assert!(result.is_empty());
}

#[test]
fn identifier_closed_val_absent_greater_than_or_equal_to() {
    let document = vec![
        node("on", vec![t("push"), t("pull_request")], vec![], vec![]),
        node("name", vec![t("CI")], vec![], vec![]),
        node("jobs", vec![], vec![], vec![]),
    ];
    let result = kq::query_document(r#"does_not_exist[val(0) >= "push"]"#, document).unwrap();
    assert!(result.is_empty());
}

#[test]
fn identifier_closed_val_less_than() {
    let document = vec![
        node("on", vec![t("push"), t("pull_request")], vec![], vec![]),
        node("name", vec![t("CI")], vec![], vec![]),
        node("jobs", vec![], vec![], vec![]),
    ];
    let result = kq::query_document(r#"[val(0) < "push"]"#, document).unwrap();
    assert!(result.is_empty());
}

#[test]
fn identifier_closed_val_absent_less_than() {
    let document = vec![
        node("on", vec![t("push"), t("pull_request")], vec![], vec![]),
        node("name", vec![t("CI")], vec![], vec![]),
        node("jobs", vec![], vec![], vec![]),
    ];
    let result = kq::query_document(r#"does_not_exist[val(0) < "push"]"#, document).unwrap();
    assert!(result.is_empty());
}

#[test]
fn identifier_closed_val_less_than_or_equal_to() {
    let document = vec![
        node("on", vec![t("push"), t("pull_request")], vec![], vec![]),
        node("name", vec![t("CI")], vec![], vec![]),
        node("jobs", vec![], vec![], vec![]),
    ];
    let result = kq::query_document(r#"[val(0) <= "push"]"#, document).unwrap();
    assert!(result.is_empty());
}

#[test]
fn identifier_closed_val_absent_less_than_or_equal_to() {
    let document = vec![
        node("on", vec![t("push"), t("pull_request")], vec![], vec![]),
        node("name", vec![t("CI")], vec![], vec![]),
        node("jobs", vec![], vec![], vec![]),
    ];
    let result = kq::query_document(r#"does_not_exist[val(0) <= "push"]"#, document).unwrap();
    assert!(result.is_empty());
}
