use ron_lsp::code_actions::{
    create_explicit_field_type_action, create_explicit_root_type_action,
    detect_current_variant_in_content, generate_code_actions, generate_default_value,
    generate_explicit_type_actions, generate_field_insertions, generate_missing_field_actions,
    generate_missing_variant_field_actions, missing_field_actions, try_generate_code_actions,
};
use ron_lsp::format::format_ron;
use ron_lsp::lsp::{CodeAction, CodeActionKind, Position, TextEdit};
use ron_lsp::rust_analyzer::{EnumVariant, FieldInfo, RustAnalyzer, TypeInfo, TypeKind};
use ron_lsp::tree_sitter_parser::extract_fields_from_ron;
use ron_lsp::ts_utils::RonParser;

#[test]
fn test_explicit_root_type_same_line() {
    let content = "(id: 1, name: \"test\")";
    let type_info = TypeInfo {
        name: "User".to_string(),
        kind: TypeKind::Struct(vec![]),
        docs: None,
        source_file: None,
        line: None,
        column: None,
        has_default: false,
        is_transparent: false,
    };
    let uri = "file:///test.ron";

    let action = create_explicit_root_type_action(content, &type_info, uri);
    assert!(action.is_some());

    if let Some(action) = action {
        assert_eq!(action.title, "Make struct name explicit: User");
        let edit = action.edit.unwrap();
        let changes = edit.changes.unwrap();
        let text_edits = &changes.first().unwrap().edits;
        assert_eq!(text_edits.len(), 1);
        assert_eq!(text_edits[0].new_text, "User");
        assert_eq!(text_edits[0].range.start.line, 0);
        assert_eq!(text_edits[0].range.start.character, 0);
    }
}

#[test]
fn test_explicit_root_type_next_line() {
    let content = "(\n    id: 1,\n    name: \"test\"\n)";
    let type_info = TypeInfo {
        name: "example::User".to_string(),
        kind: TypeKind::Struct(vec![]),
        docs: None,
        source_file: None,
        line: None,
        column: None,
        has_default: false,
        is_transparent: false,
    };
    let uri = "file:///test.ron";

    let action = create_explicit_root_type_action(content, &type_info, uri);
    assert!(action.is_some());

    if let Some(action) = action {
        assert_eq!(action.title, "Make struct name explicit: User");
        let edit = action.edit.unwrap();
        let changes = edit.changes.unwrap();
        let text_edits = &changes.first().unwrap().edits;
        assert_eq!(text_edits.len(), 1);
        assert_eq!(text_edits[0].new_text, "User");
        assert_eq!(text_edits[0].range.start.line, 0);
        assert_eq!(text_edits[0].range.start.character, 0);
    }
}

#[test]
fn test_explicit_field_type_same_line() {
    let content = "User(author: (id: 1, name: \"test\"))";
    let field = FieldInfo {
        name: "author".to_string(),
        type_text: "Author".to_string(),
        docs: None,
        line: None,
        column: None,
        has_default: false,
    };
    let uri = "file:///test.ron";

    let action = create_explicit_field_type_action(content, &field, uri);
    assert!(action.is_some());

    if let Some(action) = action {
        assert_eq!(action.title, "Make field type explicit: author Author");
        let edit = action.edit.unwrap();
        let changes = edit.changes.unwrap();
        let text_edits = &changes.first().unwrap().edits;
        assert_eq!(text_edits.len(), 1);
        assert_eq!(text_edits[0].new_text, "Author");
        // Should insert before the opening paren after "author: "
        assert_eq!(text_edits[0].range.start.line, 0);
        assert_eq!(text_edits[0].range.start.character, 13); // position of '(' after "author: "
    }
}

#[test]
fn test_explicit_field_type_next_line() {
    let content = r#"Post(
    author: (
        id: 5,
        name: "Charlie",
        email: "charlie@example.com"
    )
)"#;
    let field = FieldInfo {
        name: "author".to_string(),
        type_text: "User".to_string(),
        docs: None,
        line: None,
        column: None,
        has_default: false,
    };
    let uri = "file:///test.ron";

    let action = create_explicit_field_type_action(content, &field, uri);
    assert!(action.is_some());

    if let Some(action) = action {
        assert_eq!(action.title, "Make field type explicit: author User");
        let edit = action.edit.unwrap();
        let changes = edit.changes.unwrap();
        let text_edits = &changes.first().unwrap().edits;
        assert_eq!(text_edits.len(), 1);
        assert_eq!(text_edits[0].new_text, "User");
        // Should insert at the opening paren on line 1
        assert_eq!(text_edits[0].range.start.line, 1);
        assert_eq!(text_edits[0].range.start.character, 12); // position of '(' on second line
    }
}

#[test]
fn test_explicit_field_type_with_option_wrapper() {
    let content = "User(author: (id: 1, name: \"test\"))";
    let field = FieldInfo {
        name: "author".to_string(),
        type_text: "Option<Author>".to_string(),
        docs: None,
        line: None,
        column: None,
        has_default: false,
    };
    let uri = "file:///test.ron";

    let action = create_explicit_field_type_action(content, &field, uri);
    assert!(action.is_some());

    if let Some(action) = action {
        assert_eq!(action.title, "Make field type explicit: author Author");
        let edit = action.edit.unwrap();
        let changes = edit.changes.unwrap();
        let text_edits = &changes.first().unwrap().edits;
        assert_eq!(text_edits[0].new_text, "Author"); // Should strip Option wrapper
    }
}

#[test]
fn test_no_action_for_explicit_type() {
    let content = "User(id: 1, name: \"test\")";
    let type_info = TypeInfo {
        name: "User".to_string(),
        kind: TypeKind::Struct(vec![]),
        docs: None,
        source_file: None,
        line: None,
        column: None,
        has_default: false,
        is_transparent: false,
    };
    let uri = "file:///test.ron";

    // Should not offer action since type is already explicit
    let action = create_explicit_root_type_action(content, &type_info, uri);
    assert!(action.is_none());
}

#[test]
fn test_no_action_for_explicit_field_type() {
    let content = "User(author: Author(id: 1, name: \"test\"))";
    let field = FieldInfo {
        name: "author".to_string(),
        type_text: "Author".to_string(),
        docs: None,
        line: None,
        column: None,
        has_default: false,
    };
    let uri = "file:///test.ron";

    // Should not offer action since field type is already explicit
    let action = create_explicit_field_type_action(content, &field, uri);
    assert!(action.is_none());
}

#[test]
fn test_real_world_with_comments_and_spacing() {
    let content = r#"Post(
    id: 123,
    title: "Mixed Syntax Example",
    content: "Demonstrating both explicit and unnamed struct syntax",

    // Explicit type name for author
    author: (
        id: 5,
        name: "Charlie",
        email: "charlie@example.com",
        age: 28,
        bio: None,
        is_active: true,
        roles: ["editor"],
    ),

    likes: 50,
    tags: ["example", "syntax"],
    published: true,
    post_type: Short,
)"#;
    let field = FieldInfo {
        name: "author".to_string(),
        type_text: "User".to_string(),
        docs: None,
        line: None,
        column: None,
        has_default: false,
    };
    let uri = "file:///test.ron";

    let action = create_explicit_field_type_action(content, &field, uri);
    assert!(action.is_some());

    if let Some(action) = action {
        assert_eq!(action.title, "Make field type explicit: author User");
        let edit = action.edit.unwrap();
        let changes = edit.changes.unwrap();
        let text_edits = &changes.first().unwrap().edits;
        assert_eq!(text_edits.len(), 1);
        assert_eq!(text_edits[0].new_text, "User");
        // The opening paren is on line 6 (0-indexed), after the comment
        assert_eq!(text_edits[0].range.start.line, 6);
        // The opening paren is at column 12 (after "    author: ")
        assert_eq!(text_edits[0].range.start.character, 12);

        println!("Line: {}, Character: {}",
            text_edits[0].range.start.line,
            text_edits[0].range.start.character);
    }
}

#[test]
fn test_enum_variant_missing_fields() {
    let variant = EnumVariant {
        name: "StructVariant".to_string(),
        fields: vec![
            FieldInfo {
                name: "field_a".to_string(),
                type_text: "String".to_string(),
                docs: None,
                line: Some(10),
                column: Some(8),
                has_default: false,
            },
            FieldInfo {
                name: "field_b".to_string(),
                type_text: "i32".to_string(),
                docs: None,
                line: Some(11),
                column: Some(8),
                has_default: false,
            },
        ],
        docs: None,
        line: Some(9),
        column: Some(4),
    };

    let type_info = TypeInfo {
        name: "MyEnum".to_string(),
        kind: TypeKind::Enum(vec![variant]),
        docs: None,
        source_file: None,
        line: Some(8),
        column: Some(0),
        has_default: false,
        is_transparent: false,
    };

    let content = "MyEnum::StructVariant(\n    field_a: \"test\"\n)";
    let uri = "file:///test.ron";

    let analyzer = RustAnalyzer::new();
    let actions = generate_code_actions(content, &type_info, uri, &analyzer);

    // Should suggest adding missing field_b
    assert!(!actions.is_empty());

    let titles: Vec<String> = actions.iter().map(|action| action.title.clone()).collect();

    // Should have action mentioning the variant name
    assert!(titles.iter().any(|t| t.contains("StructVariant")));
    assert!(titles.iter().any(|t| t.contains("field")));
}

#[test]
fn test_detect_current_variant_in_content() {
    let content = "MyEnum::StructVariant(\n    field_a: value\n)";
    let variant = detect_current_variant_in_content(content);
    println!("Detected variant: {:?}", variant);
    assert_eq!(variant, Some("StructVariant".to_string()));
}

#[test]
fn test_detect_current_variant_in_content_no_match() {
    let content = "MyStruct(\n    field_a: value\n)";
    let variant = detect_current_variant_in_content(content);
    println!("Detected variant (should be None): {:?}", variant);
    assert!(variant.is_none());
}

fn field(name: &str, type_text: &str) -> FieldInfo {
    FieldInfo {
        name: name.to_string(),
        type_text: type_text.to_string(),
        docs: None,
        line: None,
        column: None,
        has_default: false,
    }
}

fn struct_type(name: &str, fields: Vec<FieldInfo>) -> TypeInfo {
    TypeInfo {
        name: name.to_string(),
        kind: TypeKind::Struct(fields),
        docs: None,
        source_file: None,
        line: None,
        column: None,
        has_default: false,
        is_transparent: false,
    }
}

fn enum_type(name: &str, variants: Vec<EnumVariant>) -> TypeInfo {
    TypeInfo {
        name: name.to_string(),
        kind: TypeKind::Enum(variants),
        docs: None,
        source_file: None,
        line: None,
        column: None,
        has_default: false,
        is_transparent: false,
    }
}

fn variant(name: &str, fields: Vec<FieldInfo>) -> EnumVariant {
    EnumVariant { name: name.to_string(), fields, docs: None, line: None, column: None }
}

fn only_edit(action: &CodeAction) -> &TextEdit {
    let changes = action.edit.as_ref().unwrap().changes.as_ref().unwrap();
    assert_eq!(changes.len(), 1);
    assert_eq!(changes[0].edits.len(), 1);
    &changes[0].edits[0]
}

#[test]
fn default_values_follow_the_type() {
    for (type_text, value) in [
        ("Option < String >", "None"),
        ("bool", "false"),
        ("Vec<u8>", "[]"),
        ("[u8; 4]", "[]"),
        ("HashMap < String , u8 >", "{}"),
        ("BTreeMap<u8, u8>", "{}"),
        ("String", "\"\""),
        ("& str", "\"\""),
        ("i32", "0"),
        ("f64", "0"),
        ("User", "User()"),
        ("usize", "0"),
        ("isize", "0"),
    ] {
        assert_eq!(generate_default_value(type_text), value);
    }
}

#[test]
fn missing_fields_are_inserted_before_the_closing_paren() {
    let user = [field("age", "u8"), field("tags", "Vec<String>")];
    let missing: Vec<&FieldInfo> = user.iter().collect();
    let edit = generate_field_insertions(&missing, "User(\n    id: 1\n)").unwrap();
    assert_eq!(edit.new_text, ",\n    age: 0,\n    tags: []\n");
    assert_eq!(edit.range.start, Position::new(2, 0));
    assert_eq!(edit.range.end, Position::new(2, 0));

    let edit = generate_field_insertions(&missing, "User()").unwrap();
    assert_eq!(edit.new_text, "    age: 0,\n    tags: []\n");
    assert_eq!(edit.range.start, Position::new(0, 5));

    assert!(generate_field_insertions(&missing, "[1, 2]").is_none());
}

#[test]
fn required_fields_come_before_all_fields() {
    let mut aged = field("age", "u8");
    aged.has_default = true;
    let fields = vec![field("id", "u32"), field("name", "String"), field("bio", "Option<String>"), aged];
    let user = struct_type("crate::User", fields);
    let TypeKind::Struct(fields) = &user.kind else { panic!("a struct") };
    let actions = generate_missing_field_actions("User(id: 1)", fields, &user, "file:///test.ron");
    assert_eq!(actions.len(), 2);
    assert_eq!(actions[0].title, "Add 1 required field");
    assert_eq!(actions[0].kind, Some(CodeActionKind::QuickFix));
    assert_eq!(only_edit(&actions[0]).new_text, ",\n    name: \"\"\n");
    assert_eq!(actions[1].title, "Add all 3 missing fields");
    assert_eq!(
        only_edit(&actions[1]).new_text,
        ",\n    name: \"\",\n    bio: None,\n    age: 0\n"
    );

    let mut defaulted = user.clone();
    defaulted.has_default = true;
    let actions = generate_missing_field_actions("User(id: 1)", fields, &defaulted, "file:///test.ron");
    assert_eq!(actions.len(), 1);
    assert_eq!(actions[0].title, "Add all 3 missing fields");
}

#[test]
fn a_complete_document_misses_nothing() {
    let fields = vec![field("id", "u32")];
    let user = struct_type("User", fields);
    let TypeKind::Struct(fields) = &user.kind else { panic!("a struct") };
    let actions = generate_missing_field_actions("User(id: 1)", fields, &user, "file:///test.ron");
    assert!(actions.is_empty());
}

#[test]
fn the_variant_that_is_handed_in_decides_on_the_fields() {
    let shape = enum_type(
        "Shape",
        vec![variant("Circle", vec![field("radius", "f32")]), variant("Point", vec![])],
    );
    let mut parser = RonParser::new();
    let tree = parser.parse("Circle()").unwrap();
    let none: Vec<FieldInfo> = Vec::new();
    let used: Vec<String> = Vec::new();
    let uri = "file:///shape.ron";
    let actions = missing_field_actions(Some(&tree), &none, &shape, Some("Circle"), &used, uri);
    let titles: Vec<&str> = actions.iter().map(|a| a.title.as_str()).collect();
    assert_eq!(
        titles,
        vec!["Add 1 required field to Circle", "Add all 1 missing field to Circle"]
    );
    assert!(missing_field_actions(Some(&tree), &none, &shape, Some("Point"), &used, uri).is_empty());
    assert!(missing_field_actions(Some(&tree), &none, &shape, Some("Other"), &used, uri).is_empty());
    assert!(missing_field_actions(Some(&tree), &none, &shape, None, &used, uri).is_empty());
    let used = vec!["radius".to_string()];
    assert!(missing_field_actions(Some(&tree), &none, &shape, Some("Circle"), &used, uri).is_empty());
}

#[test]
fn variants_in_fields_get_one_action_each() {
    let mut analyzer = RustAnalyzer::new();
    analyzer.insert_type_for_test(enum_type(
        "crate::models::PostType",
        vec![variant("Long", vec![field("length", "u32"), field("title", "String"), field("note", "Option<String>")])],
    ));
    let post = struct_type("crate::models::Post", vec![field("post_type", "PostType")]);
    let content = "Post(post_type: Long(length: 3, note: None))";
    let uri = "file:///post.ron";
    let actions = generate_missing_variant_field_actions(content, &post, uri, &analyzer);
    assert_eq!(actions.len(), 1);
    assert_eq!(actions[0].title, "Add 1 required field to post_type::Long");
    let edit = only_edit(&actions[0]);
    assert_eq!(edit.new_text, ",\n    title: \"\"\n");
    // Before the closing parenthesis of the variant.
    assert_eq!(edit.range.start, Position::new(0, 42));
    assert_eq!(edit.range.end, edit.range.start);

    let bare = generate_missing_variant_field_actions("Post(post_type: Long())", &post, uri, &analyzer);
    assert_eq!(bare.len(), 1);
    assert_eq!(only_edit(&bare[0]).new_text, "    length: 0,\n    title: \"\"\n");
    assert_eq!(only_edit(&bare[0]).range.start, Position::new(0, 21));

    let empty = RustAnalyzer::new();
    assert!(generate_missing_variant_field_actions(content, &post, uri, &empty).is_empty());
}

#[test]
fn explicit_types_are_offered_for_the_document_and_its_fields() {
    let post = struct_type(
        "crate::models::Post",
        vec![field("id", "u32"), field("author", "crate :: models :: User")],
    );
    let content = "(id: 1, author: (name: \"x\"))";
    let actions = generate_explicit_type_actions(content, &post, "file:///post.ron");
    let titles: Vec<&str> = actions.iter().map(|a| a.title.as_str()).collect();
    assert_eq!(
        titles,
        vec!["Make struct name explicit: Post", "Make field type explicit: author User"]
    );
    assert_eq!(actions[0].kind, Some(CodeActionKind::Refactor));
    let edit = only_edit(&actions[1]);
    assert_eq!(edit.range.start, Position::new(0, 16));
    assert_eq!(edit.range.end, edit.range.start);
}

#[test]
fn edits_name_the_document_by_its_url() {
    let user = struct_type("User", vec![field("id", "u32")]);
    let analyzer = RustAnalyzer::new();
    let actions = generate_code_actions("User()", &user, "FILE:///a/../b.ron", &analyzer);
    assert_eq!(actions.len(), 2);
    let changes = actions[0].edit.as_ref().unwrap().changes.as_ref().unwrap();
    assert_eq!(changes[0].uri, "file:///b.ron");

    let TypeKind::Struct(fields) = &user.kind else { panic!("a struct") };
    let actions = generate_missing_field_actions("User()", fields, &user, "file:///a b.ron");
    let changes = actions[0].edit.as_ref().unwrap().changes.as_ref().unwrap();
    assert_eq!(changes[0].uri, "file:///a%20b.ron");
    let action = create_explicit_root_type_action("(id: 1)", &user, "file:///a b.ron").unwrap();
    let changes = action.edit.as_ref().unwrap().changes.as_ref().unwrap();
    assert_eq!(changes[0].uri, "file:///a%20b.ron");
}

#[test]
fn actions_need_a_url_to_name_the_document_by() {
    let user = struct_type("User", vec![field("id", "u32")]);
    let analyzer = RustAnalyzer::new();
    assert!(try_generate_code_actions("User()", &user, "no url", &analyzer).is_none());
    let none = try_generate_code_actions("User(id: 1)", &user, "no url", &analyzer).unwrap();
    assert!(none.is_empty());
    let some = try_generate_code_actions("User()", &user, "file:///b.ron", &analyzer).unwrap();
    assert_eq!(some.len(), 2);
}

#[test]
fn variants_are_detected_before_braces_too() {
    assert_eq!(
        detect_current_variant_in_content("a: Kind::Big {"),
        Some("Big".to_string())
    );
    assert_eq!(detect_current_variant_in_content("Kind::Big"), None);
}

#[test]
fn an_option_around_a_path_is_taken_off() {
    let content = "User(author: (id: 1))";
    for type_text in [
        "Option<models::Author>",
        "Option < models :: Author >",
        "std :: option :: Option < Author >",
        "models :: Author",
    ] {
        let action =
            create_explicit_field_type_action(content, &field("author", type_text), "file:///t.ron")
                .unwrap();
        assert_eq!(only_edit(&action).new_text, "Author");
        assert_eq!(action.title, "Make field type explicit: author Author");
    }
}

fn with_edit(content: &str, edit: &TextEdit) -> String {
    assert_eq!(edit.range.start, edit.range.end);
    let mut lines: Vec<String> = content.split('\n').map(String::from).collect();
    let line = &mut lines[edit.range.start.line as usize];
    line.insert_str(edit.range.start.character as usize, &edit.new_text);
    lines.join("\n")
}

#[test]
fn naming_the_root_puts_the_name_before_its_paren() {
    let user = struct_type("models::User", vec![]);
    for (content, named) in [
        ("(id: 1)", "User(id: 1)"),
        ("/* @[models::User] */\n\n  (\n    id: 1\n)\n", "/* @[models::User] */\n\n  User(\n    id: 1\n)\n"),
    ] {
        let action = create_explicit_root_type_action(content, &user, "file:///t.ron").unwrap();
        let changed = with_edit(content, only_edit(&action));
        assert_eq!(changed, named);
        assert!(create_explicit_root_type_action(&changed, &user, "file:///t.ron").is_none());
    }
}

#[test]
fn inserted_fields_follow_the_fields_that_are_set() {
    let added = [field("age", "usize"), field("tags", "Vec<String>")];
    let missing: Vec<&FieldInfo> = added.iter().collect();
    let content = "User(\n    id: 1,\n    name: \"a, b\"\n)";
    let edit = generate_field_insertions(&missing, content).unwrap();
    let changed = with_edit(content, &edit);
    assert_eq!(
        changed,
        "User(\n    id: 1,\n    name: \"a, b\"\n,\n    age: 0,\n    tags: []\n)"
    );
    assert_eq!(extract_fields_from_ron(content), vec!["id", "name"]);
    assert_eq!(extract_fields_from_ron(&changed), vec!["id", "name", "age", "tags"]);
    assert_eq!(
        format_ron(&changed),
        "User(\n    id: 1,\n    name: \"a, b\",\n    age: 0,\n    tags: [],\n)"
    );
}

#[test]
fn one_option_is_taken_off_the_name_of_a_type() {
    let content = "User(author: (id: 1))";
    for (type_text, name) in [
        ("Author", "Author"),
        ("models::Author", "Author"),
        ("std::option::Option<Author>", "Author"),
        ("std :: option :: Option < models :: Author >", "Author"),
        ("Option<models::Author<u8>>", "Author<u8>"),
        ("Option<Option<Author>>", "Option<Author>"),
        ("Option<models::Option<Author>>", "Option<Author>"),
        ("B<a::Option<U>>", "U>"),
        ("Option<A>::B<C>", "B<C>"),
        ("fn(A) -> a::Option<b::U>", "U>"),
        ("Vec<models::Author>", "Author>"),
        ("Option<", "Option<"),
        ("a: :Author", "a::Author"),
    ] {
        let field = field("author", type_text);
        let action = create_explicit_field_type_action(content, &field, "file:///t.ron").unwrap();
        assert_eq!(only_edit(&action).new_text, name);
    }
}
