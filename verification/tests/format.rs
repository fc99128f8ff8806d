use ron_lsp::format::format_ron;

#[test]
fn test_simple_struct() {
    let input = "User(id: 1, name: \"Alice\")";
    let formatted = format_ron(input);
    println!("Formatted:\n{}", formatted);
    assert!(formatted.contains("User("));
    assert!(formatted.contains("    id: 1,"));
    assert!(formatted.contains("    name: \"Alice\","));
    assert!(formatted.contains(")"));
}

#[test]
fn test_empty_parens() {
    let input = "Unit()";
    let formatted = format_ron(input);
    println!("Formatted: '{}'", formatted);
    assert_eq!(formatted, "Unit()");
}

#[test]
fn test_nested_struct() {
    let input = "Post(author: User(id: 1))";
    let formatted = format_ron(input);
    println!("Formatted:\n{}", formatted);
    assert!(formatted.contains("Post("));
    assert!(formatted.contains("    author: User("));
    assert!(formatted.contains("        id: 1,"));
    assert!(formatted.contains("    )"));
    assert!(formatted.trim().ends_with(")"));
}

#[test]
fn test_array() {
    let input = r#"Config(roles: ["admin", "user"])"#;
    let formatted = format_ron(input);
    println!("Formatted:\n{}", formatted);
    assert!(formatted.contains("roles: ["));
    assert!(formatted.contains(r#"        "admin","#));
    assert!(formatted.contains(r#"        "user","#));
    assert!(formatted.contains("    ],") || formatted.contains("    ]\n)"));
}

#[test]
fn test_with_type_annotation() {
    let input = "/* @[crate::User] */\nUser(id: 1)";
    let formatted = format_ron(input);
    println!("Formatted:\n{}", formatted);
    assert!(formatted.contains("/* @[crate::User] */"));
    assert!(formatted.contains("User("));
    assert!(formatted.contains("    id: 1,"));
}
