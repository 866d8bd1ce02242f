use kq::node::{Node, Value};

fn node(name: &str, values: Vec<Value>, properties: Vec<(&str, Value)>, children: Vec<Node>) -> Node {
    Node {
        name: name.to_string(),
        properties: properties.into_iter().map(|(k, v)| (k.to_string(), v)).collect(),
        values,
        children,
    }
}

fn t(s: &str) -> Value {
    Value::Text(s.to_string())
}


#[test]
fn closed_node_name_parentheses() {
    let document = vec![
        node("step", vec![], vec![("uses", t("actions/checkout@v1"))], vec![]),
        node("step", vec![t("Install Rust")], vec![("uses", t("actions-rs/toolchain@v1"))], vec![
                node("profile", vec![t("minimal")], vec![], vec![]),
        ]),
        node("step", vec![t("Clippy")], vec![("run", t("cargo clippy --all -- -D warnings"))], vec![]),
        node("step", vec![t("Run tests")], vec![("run", t("cargo test --all --verbose"))], vec![]),
    ];
    let result = kq::query_document("[name()]", document).unwrap();
    assert!(result.is_empty());
}

#[test]
fn closed_node_name_equal() {
    let document = vec![
        node("step", vec![], vec![("uses", t("actions/checkout@v1"))], vec![]),
        node("step", vec![t("Install Rust")], vec![("uses", t("actions-rs/toolchain@v1"))], vec![
                node("profile", vec![t("minimal")], vec![], vec![]),
        ]),
        node("step", vec![t("Clippy")], vec![("run", t("cargo clippy --all -- -D warnings"))], vec![]),
        node("step", vec![t("Run tests")], vec![("run", t("cargo test --all --verbose"))], vec![]),
    ];
    let result = kq::query_document(r#"[name() = "profile"]"#, document).unwrap();
    let expected = vec![
        node("profile", vec![t("minimal")], vec![], vec![]),
    ];
    assert_eq!(result, expected);
}

#[test]
fn closed_node_name_not_equal() {
    let document = vec![
        node("step", vec![], vec![("uses", t("actions/checkout@v1"))], vec![]),
        node("step", vec![t("Install Rust")], vec![("uses", t("actions-rs/toolchain@v1"))], vec![
                node("profile", vec![t("minimal")], vec![], vec![]),
        ]),
        node("step", vec![t("Clippy")], vec![("run", t("cargo clippy --all -- -D warnings"))], vec![]),
        node("step", vec![t("Run tests")], vec![("run", t("cargo test --all --verbose"))], vec![]),
    ];
    let result = kq::query_document(r#"[name() != "step"]"#, document).unwrap();
    let expected = vec![
        node("profile", vec![t("minimal")], vec![], vec![]),
    ];
    assert_eq!(result, expected);
}

#[test]
fn closed_node_name_starts_with() {
    let document = vec![
        node("step", vec![], vec![("uses", t("actions/checkout@v1"))], vec![]),
        node("step", vec![t("Install Rust")], vec![("uses", t("actions-rs/toolchain@v1"))], vec![
                node("profile", vec![t("minimal")], vec![], vec![]),
        ]),
        node("step", vec![t("Clippy")], vec![("run", t("cargo clippy --all -- -D warnings"))], vec![]),
        node("step", vec![t("Run tests")], vec![("run", t("cargo test --all --verbose"))], vec![]),
    ];
    let result = kq::query_document(r#"[name() ^= "pro"]"#, document).unwrap();
    let expected = vec![
        node("profile", vec![t("minimal")], vec![], vec![]),
    ];
    assert_eq!(result, expected);
}

#[test]
fn closed_node_name_ends_with() {
    let document = vec![
        node("step", vec![], vec![("uses", t("actions/checkout@v1"))], vec![]),
        node("step", vec![t("Install Rust")], vec![("uses", t("actions-rs/toolchain@v1"))], vec![
                node("profile", vec![t("minimal")], vec![], vec![]),
        ]),
        node("step", vec![t("Clippy")], vec![("run", t("cargo clippy --all -- -D warnings"))], vec![]),
        node("step", vec![t("Run tests")], vec![("run", t("cargo test --all --verbose"))], vec![]),
    ];
    let result = kq::query_document(r#"[name() $= "file"]"#, document).unwrap();
    let expected = vec![
        node("profile", vec![t("minimal")], vec![], vec![]),
    ];
    assert_eq!(result, expected);
}

#[test]
fn closed_node_name_contains() {
    let document = vec![
        node("step", vec![], vec![("uses", t("actions/checkout@v1"))], vec![]),
        node("step", vec![t("Install Rust")], vec![("uses", t("actions-rs/toolchain@v1"))], vec![
                node("profile", vec![t("minimal")], vec![], vec![]),
        ]),
        node("step", vec![t("Clippy")], vec![("run", t("cargo clippy --all -- -D warnings"))], vec![]),
        node("step", vec![t("Run tests")], vec![("run", t("cargo test --all --verbose"))], vec![]),
    ];
    let result = kq::query_document(r#"[name() *= "rofil"]"#, document).unwrap();
    let expected = vec![
        node("profile", vec![t("minimal")], vec![], vec![]),
    ];
    assert_eq!(result, expected);
}

#[test]
fn closed_node_name_greater_than() {
    let document = vec![
        node("step", vec![], vec![("uses", t("actions/checkout@v1"))], vec![]),
        node("step", vec![t("Install Rust")], vec![("uses", t("actions-rs/toolchain@v1"))], vec![
                node("profile", vec![t("minimal")], vec![], vec![]),
        ]),
        node("step", vec![t("Clippy")], vec![("run", t("cargo clippy --all -- -D warnings"))], vec![]),
        node("step", vec![t("Run tests")], vec![("run", t("cargo test --all --verbose"))], vec![]),
    ];
    let result = kq::query_document(r#"[name() > "profile"]"#, document).unwrap();
    assert!(result.is_empty());
}

#[test]
fn closed_node_name_greater_than_or_equal_to() {
    let document = vec![
        node("step", vec![], vec![("uses", t("actions/checkout@v1"))], vec![]),
        node("step", vec![t("Install Rust")], vec![("uses", t("actions-rs/toolchain@v1"))], vec![
                node("profile", vec![t("minimal")], vec![], vec![]),
        ]),
        node("step", vec![t("Clippy")], vec![("run", t("cargo clippy --all -- -D warnings"))], vec![]),
        node("step", vec![t("Run tests")], vec![("run", t("cargo test --all --verbose"))], vec![]),
    ];
    let result = kq::query_document(r#"[name() >= "profile"]"#, document).unwrap();
    assert!(result.is_empty());
}

#[test]
fn closed_node_name_less_than() {
    let document = vec![
        node("step", vec![], vec![("uses", t("actions/checkout@v1"))], vec![]),
        node("step", vec![t("Install Rust")], vec![("uses", t("actions-rs/toolchain@v1"))], vec![
                node("profile", vec![t("minimal")], vec![], vec![]),
        ]),
        node("step", vec![t("Clippy")], vec![("run", t("cargo clippy --all -- -D warnings"))], vec![]),
        node("step", vec![t("Run tests")], vec![("run", t("cargo test --all --verbose"))], vec![]),
    ];
    let result = kq::query_document(r#"[name() < "profile"]"#, document).unwrap();
    assert!(result.is_empty());
}

#[test]
fn closed_node_name_less_than_or_equal_to() {
    let document = vec![
        node("step", vec![], vec![("uses", t("actions/checkout@v1"))], vec![]),
        node("step", vec![t("Install Rust")], vec![("uses", t("actions-rs/toolchain@v1"))], vec![
                node("profile", vec![t("minimal")], vec![], vec![]),
        ]),
        node("step", vec![t("Clippy")], vec![("run", t("cargo clippy --all -- -D warnings"))], vec![]),
        node("step", vec![t("Run tests")], vec![("run", t("cargo test --all --verbose"))], vec![]),
    ];
    let result = kq::query_document(r#"[name() <= "profile"]"#, document).unwrap();
    assert!(result.is_empty());
}
