use ron_lsp::completion::{
    complete_names, complete_values, create_type_completion, extract_inner_type,
    find_current_field, find_current_type_context, generate_completions_for_type,
    generate_field_completions, generate_type_completions_for_field,
    generate_value_completions_by_type, generate_value_completions_for_field,
    get_all_workspace_types, get_completion_context, try_generate_completions_for_type,
    CompletionContext,
};
use ron_lsp::lsp::{
    CompletionItem, CompletionItemKind, Documentation, InsertTextFormat, MarkupKind, Position,
};
use ron_lsp::rust_analyzer::{EnumVariant, FieldInfo, RustAnalyzer, TypeInfo, TypeKind};

#[test]
fn test_enum_variant_field_completion() {
    // Create a mock enum with a struct variant
    let variant = EnumVariant {
        name: "StructVariant".to_string(),
        fields: vec![
            FieldInfo {
                name: "field_a".to_string(),
                type_text: "String".to_string(),
                docs: Some("Field A documentation".to_string()),
                line: Some(10),
                column: Some(8),
                has_default: false,
            },
            FieldInfo {
                name: "field_b".to_string(),
                type_text: "i32".to_string(),
                docs: None,
                line: Some(11),
                column: Some(8),
                has_default: false,
            },
        ],
        docs: Some("A struct variant".to_string()),
        line: Some(9),
        column: Some(4),
    };

    let type_info = TypeInfo {
        name: "MyEnum".to_string(),
        kind: TypeKind::Enum(vec![variant]),
        docs: None,
        source_file: None,
        line: Some(8),
        column: Some(0),
        has_default: false,
        is_transparent: false,
    };

    // Test content with a struct variant (RON uses parentheses)
    let content = "MyEnum::StructVariant(\n    \n)";
    let position = Position::new(1, 4); // Inside the parens

    let analyzer = RustAnalyzer::new();
    let completions = generate_completions_for_type(content, position, &type_info, &analyzer);

    // Should complete with variant fields
    assert!(!completions.is_empty());
    let field_labels: Vec<String> = completions.iter().map(|c| c.label.clone()).collect();
    assert!(field_labels.contains(&"field_a".to_string()));
    assert!(field_labels.contains(&"field_b".to_string()));

    // Check that field_a has documentation
    let field_a = completions.iter().find(|c| c.label == "field_a").unwrap();
    assert!(field_a.documentation.is_some());
    if let Some(Documentation::MarkupContent(content)) = &field_a.documentation {
        assert!(content.value.contains("Field A documentation"));
    }
}

#[test]
fn test_enum_variant_completion() {
    // Create a mock enum with multiple variants
    let variant1 = EnumVariant {
        name: "UnitVariant".to_string(),
        fields: vec![],
        docs: Some("A unit variant".to_string()),
        line: Some(9),
        column: Some(4),
    };

    let variant2 = EnumVariant {
        name: "TupleVariant".to_string(),
        fields: vec![FieldInfo {
            name: "0".to_string(),
            type_text: "i32".to_string(),
            docs: None,
            line: None,
            column: None,
            has_default: false,
        }],
        docs: Some("A tuple variant".to_string()),
        line: Some(10),
        column: Some(4),
    };

    let type_info = TypeInfo {
        name: "MyEnum".to_string(),
        kind: TypeKind::Enum(vec![variant1, variant2]),
        docs: None,
        source_file: None,
        line: Some(8),
        column: Some(0),
        has_default: false,
        is_transparent: false,
    };

    // Test in FieldName context - should get variant completions
    let content = "";
    let position = Position::new(0, 0);

    let analyzer = RustAnalyzer::new();
    let completions = generate_completions_for_type(content, position, &type_info, &analyzer);

    // Should complete with variant names
    assert!(!completions.is_empty());
    let variant_labels: Vec<String> = completions.iter().map(|c| c.label.clone()).collect();
    assert!(variant_labels.contains(&"UnitVariant".to_string()));
    assert!(variant_labels.contains(&"TupleVariant".to_string()));
}

fn field(name: &str, type_text: &str) -> FieldInfo {
    FieldInfo {
        name: name.to_string(),
        type_text: type_text.to_string(),
        docs: None,
        line: None,
        column: None,
        has_default: false,
    }
}

fn type_info(name: &str, kind: TypeKind) -> TypeInfo {
    TypeInfo {
        name: name.to_string(),
        kind,
        docs: None,
        source_file: None,
        line: None,
        column: None,
        has_default: false,
        is_transparent: false,
    }
}

fn labels(items: &[CompletionItem]) -> Vec<&str> {
    items.iter().map(|item| item.label.as_str()).collect()
}

fn inserts(items: &[CompletionItem]) -> Vec<&str> {
    items.iter().map(|item| item.insert_text.as_deref().unwrap()).collect()
}

#[test]
fn the_context_depends_on_what_stands_before_the_cursor() {
    let content = "Post(title: \"x\", kind: Short, n: 1)";
    assert_eq!(get_completion_context(content, Position::new(0, 6)), CompletionContext::FieldName);
    assert_eq!(get_completion_context(content, Position::new(0, 13)), CompletionContext::FieldValue);
    assert_eq!(get_completion_context(content, Position::new(0, 24)), CompletionContext::StructType);
    assert_eq!(get_completion_context("", Position::new(0, 0)), CompletionContext::FieldName);
    assert_eq!(find_current_field(content, Position::new(0, 24)), Some("kind".to_string()));
    assert_eq!(find_current_field(content, Position::new(0, 2)), None);
}

#[test]
fn unused_fields_are_completed_with_their_types() {
    let mut documented = field("name", "String");
    documented.docs = Some("The name.".to_string());
    let user = type_info("User", TypeKind::Struct(vec![field("id", "u32"), documented]));
    let items = generate_field_completions("User(id: 1)", Position::new(0, 5), &user);
    assert_eq!(items.len(), 1);
    assert_eq!(items[0].label, "name");
    assert_eq!(items[0].kind, Some(CompletionItemKind::Field));
    assert_eq!(items[0].detail, Some("String".to_string()));
    assert_eq!(items[0].insert_text, Some("name: ".to_string()));
    assert_eq!(items[0].insert_text_format, None);
    let Some(Documentation::MarkupContent(content)) = &items[0].documentation else {
        panic!("documented")
    };
    assert_eq!(content.kind, MarkupKind::Markdown);
    assert_eq!(content.value, "```rust\nname: String\n```\n\nThe name.");
}

#[test]
fn names_follow_the_used_fields_and_the_variant() {
    let shape = type_info(
        "Shape",
        TypeKind::Enum(vec![
            EnumVariant {
                name: "Circle".to_string(),
                fields: vec![field("radius", "f32"), field("label", "String")],
                docs: None,
                line: None,
                column: None,
            },
            EnumVariant {
                name: "Point".to_string(),
                fields: vec![],
                docs: None,
                line: None,
                column: None,
            },
        ]),
    );
    let none: Vec<String> = Vec::new();
    let items = complete_names(&shape, &none, None);
    assert_eq!(labels(&items), vec!["Circle", "Point"]);
    assert_eq!(inserts(&items), vec!["Circle($0)", "Point"]);
    assert_eq!(items[0].detail, Some("Variant of Shape".to_string()));
    let used = vec!["radius".to_string()];
    assert_eq!(labels(&complete_names(&shape, &used, Some("Circle"))), vec!["label"]);
    assert!(complete_names(&shape, &used, Some("Point")).is_empty());
    assert_eq!(labels(&complete_names(&shape, &used, Some("Other"))), vec!["Circle", "Point"]);
}

#[test]
fn types_are_completed_with_snippets() {
    let mut user = type_info(
        "crate::models::User",
        TypeKind::Struct(vec![field("id", "u32"), field("name", "String")]),
    );
    user.docs = Some("A user.".to_string());
    let item = create_type_completion(&user);
    assert_eq!(item.label, "User");
    assert_eq!(item.kind, Some(CompletionItemKind::Struct));
    assert_eq!(item.detail, Some("struct crate::models::User".to_string()));
    assert_eq!(item.insert_text, Some("User(\n    id: ${1},\n    name: ${2},\n)".to_string()));
    assert_eq!(item.insert_text_format, Some(InsertTextFormat::Snippet));
    let unit = create_type_completion(&type_info("Unit", TypeKind::Struct(vec![])));
    assert_eq!(unit.insert_text, Some("Unit()".to_string()));
    assert!(unit.documentation.is_none());
    let kind = create_type_completion(&type_info("a::Kind", TypeKind::Enum(vec![])));
    assert_eq!(kind.kind, Some(CompletionItemKind::Enum));
    assert_eq!(kind.detail, Some("enum a::Kind".to_string()));
    assert_eq!(kind.insert_text, Some("Kind($0)".to_string()));
}

#[test]
fn inner_types_stand_between_the_angle_brackets() {
    assert_eq!(extract_inner_type("Option < User >"), "User");
    assert_eq!(extract_inner_type("Vec<Option<u8>>"), "Option<u8>");
    assert_eq!(extract_inner_type("User"), "User");
    assert_eq!(extract_inner_type("& str"), "& str");
}

#[test]
fn values_follow_the_type() {
    let analyzer = RustAnalyzer::new();
    let values = |type_text: &str| {
        let items = generate_value_completions_by_type(type_text, &analyzer);
        inserts(&items).iter().map(|s| s.to_string()).collect::<Vec<String>>()
    };
    assert_eq!(values("bool"), vec!["true", "false"]);
    assert_eq!(values("Option < u8 >"), vec!["Some($0)", "None"]);
    assert_eq!(values("Vec<u8>"), vec!["[]", "[$0]"]);
    assert_eq!(values("[u8; 2]"), vec!["[]", "[$0]"]);
    assert_eq!(values("HashMap<u8, u8>"), vec!["{}", "{$0}"]);
    assert_eq!(values("BTreeMap<u8, u8>"), vec!["{}", "{$0}"]);
    assert_eq!(values("String"), vec!["\"$0\""]);
    assert_eq!(values("& str"), vec!["\"$0\""]);
    assert_eq!(values("u64"), vec!["0"]);
    assert!(values("Unknown").is_empty());
    let number = generate_value_completions_by_type("i32", &analyzer);
    assert_eq!(number[0].detail, Some("i32 value".to_string()));
}

#[test]
fn known_types_decide_on_the_values() {
    let user = type_info("crate::User", TypeKind::Struct(vec![]));
    let kind = type_info(
        "crate::Kind",
        TypeKind::Enum(vec![EnumVariant {
            name: "Big".to_string(),
            fields: vec![field("0", "u8")],
            docs: Some("Big.".to_string()),
            line: None,
            column: None,
        }]),
    );
    let items = complete_values("User", Some(&user), None);
    assert_eq!(inserts(&items), vec!["User()"]);
    let items = complete_values("Kind", Some(&kind), None);
    assert_eq!(inserts(&items), vec!["Big"]);
    assert_eq!(items[0].kind, Some(CompletionItemKind::EnumMember));
    let items = complete_values("Option<User>", None, Some(&user));
    assert_eq!(labels(&items), vec!["Some(User)", "None"]);
    assert_eq!(inserts(&items), vec!["Some(User($0))", "None"]);
    assert_eq!(items[0].insert_text_format, Some(InsertTextFormat::Snippet));
    assert_eq!(items[1].insert_text_format, None);
}

#[test]
fn values_of_a_field_come_with_all_types_of_the_workspace() {
    let mut analyzer = RustAnalyzer::new();
    analyzer.insert_type_for_test(type_info("crate::User", TypeKind::Struct(vec![])));
    assert_eq!(labels(&get_all_workspace_types(&analyzer)), vec!["User"]);
    let post = type_info(
        "Post",
        TypeKind::Struct(vec![field("flag", "bool"), field("author", "Option<User>")]),
    );
    let items = generate_value_completions_for_field("flag", &post, &analyzer);
    assert_eq!(labels(&items), vec!["true", "false"]);
    assert!(generate_value_completions_for_field("none", &post, &analyzer).is_empty());
    let items = generate_type_completions_for_field("author", &post, &analyzer);
    assert_eq!(labels(&items), vec!["User"]);
    assert!(generate_type_completions_for_field("flag", &post, &analyzer).is_empty());

    let content = "Post(flag: \"\", author: X)";
    let items = generate_completions_for_type(content, Position::new(0, 12), &post, &analyzer);
    assert_eq!(labels(&items), vec!["true", "false", "User"]);
    let items = generate_completions_for_type(content, Position::new(0, 23), &post, &analyzer);
    assert_eq!(labels(&items), vec!["User"]);
}

#[test]
fn a_type_with_its_brackets_the_wrong_way_round_is_not_completed() {
    let analyzer = RustAnalyzer::new();
    let odd = type_info("Odd", TypeKind::Struct(vec![field("x", ">u8<"), field("y", "u8")]));
    let content = "Odd(x: A, y: B)";
    let at_x = Position::new(0, 7);
    assert!(try_generate_completions_for_type(content, at_x, &odd, &analyzer).is_none());
    let at_y = Position::new(0, 13);
    assert!(try_generate_completions_for_type(content, at_y, &odd, &analyzer).is_some());
}

#[test]
fn the_type_around_the_cursor_is_the_word_before_the_paren() {
    let content = "Post(\n    author: User(id\n)\r\nlower(\nTop(";
    let at = |line, character| find_current_type_context(content, Position::new(line, character));
    assert_eq!(at(0, 5), Some("Post".to_string()));
    assert_eq!(at(0, 4), None);
    assert_eq!(at(1, 17), Some("User".to_string()));
    assert_eq!(at(1, 99), Some("User".to_string()));
    assert_eq!(at(2, 1), None);
    assert_eq!(at(3, 6), None);
    assert_eq!(at(4, 4), Some("Top".to_string()));
    assert_eq!(at(5, 0), None);
}
