use ron_lsp::lsp::Position;
use ron_lsp::ts_utils::{
    child_by_kind, children_by_kind, extract_enum_variant, field_name, field_value,
    find_ancestor_by_kind, find_main_value, find_potential_variants, is_empty_structure,
    named_children, node_at_position, node_text, node_to_lsp_range, position_to_byte_offset,
    struct_name, struct_named_fields, struct_tuple_fields, struct_values, RonParser,
};

#[test]
fn test_parse_simple_struct() {
    let mut parser = RonParser::new();
    let tree = parser.parse("User(id: 1, name: \"test\")");
    assert!(tree.is_some());
}

#[test]
fn test_struct_name() {
    let mut parser = RonParser::new();
    let tree = parser.parse("User(id: 1)").unwrap();
    let root = tree.root_node();

    if let Some(struct_node) = child_by_kind(root, "struct") {
        let name = struct_name(struct_node, "User(id: 1)");
        assert_eq!(name, Some("User"));
    } else {
        panic!("No struct node found");
    }
}

#[test]
fn test_struct_fields() {
    let mut parser = RonParser::new();
    let tree = parser.parse("User(id: 1, name: \"test\")").unwrap();
    let root = tree.root_node();

    let struct_node = child_by_kind(root, "struct").unwrap();
    let fields = struct_named_fields(struct_node);
    assert_eq!(fields.len(), 2);
}

#[test]
fn test_field_name() {
    let content = "User(id: 1)";
    let mut parser = RonParser::new();
    let tree = parser.parse(content).unwrap();
    let root = tree.root_node();

    let struct_node = child_by_kind(root, "struct").unwrap();
    let fields = struct_named_fields(struct_node);
    let field = fields.first().unwrap();
    let name = field_name(field, content);
    assert_eq!(name, Some("id"));
}

#[test]
fn test_struct_name_extraction() {
    let content = "User(id: 1)";
    let mut parser = RonParser::new();
    let tree = parser.parse(content).unwrap();

    if let Some(main_value) = find_main_value(&tree) {
        assert_eq!(main_value.kind, "struct");
        if let Some(name) = struct_name(main_value, content) {
            assert_eq!(name, "User");
        } else {
            panic!("No struct name found");
        }
    } else {
        panic!("No main value found");
    }
}

#[test]
fn test_empty_structure() {
    let mut parser = RonParser::new();
    let content = "Unit()";
    let tree = parser.parse(content).unwrap();

    let value = find_main_value(&tree).unwrap();
    assert_eq!(value.kind, "struct");
    let values = struct_values(value, content);
    let fields = struct_named_fields(value);
    assert_eq!(values.len(), 0);
    assert_eq!(fields.len(), 0);
}

#[test]
fn test_position_to_byte_offset() {
    let content = "abc\ndef";
    let offset = position_to_byte_offset(content, Position::new(1, 1));
    assert_eq!(offset, 5); // After "abc\nd"
}

#[test]
fn test_field_value_extraction_nested() {
    let content = "Post(author: User(id: 1, name: \"Alice\"))";
    let mut parser = RonParser::new();
    let tree = parser.parse(content).unwrap();

    let main = find_main_value(&tree).unwrap();
    let fields = struct_named_fields(main);
    let author_field = fields.first().unwrap();
    let value = field_value(author_field).unwrap();
    let value_text = node_text(value, content).unwrap();
    println!("Author field value: {}", value_text);
    assert!(value_text.contains("User("));
    assert!(value_text.contains("id: 1"));
    assert!(value_text.contains("name: \"Alice\""));
}

#[test]
fn test_parse_double_colon_syntax() {
    let content = "MyEnum::StructVariant(\n    field_a: \"test\"\n)";
    let mut parser = RonParser::new();
    let tree = parser.parse(content);

    if let Some(tree) = tree {
        println!("Parsed successfully");
        let root = tree.root_node();
        println!("Root kind: {}", root.kind);

        if let Some(main) = find_main_value(&tree) {
            println!("Main value kind: {}", main.kind);
            println!("Main value child count: {}", main.children.len());

            for child in main.children.iter() {
                println!("  Child: kind='{}' is_named={}", child.kind, child.named);
            }

            if let Some(name) = struct_name(main, content) {
                println!("Struct name: {}", name);
            }
        }
    } else {
        panic!("Failed to parse");
    }
}

#[test]
fn offsets_count_bytes_and_end_at_the_content() {
    let content = "é\nüx";
    assert_eq!(position_to_byte_offset(content, Position::new(0, 0)), 0);
    assert_eq!(position_to_byte_offset(content, Position::new(0, 1)), 2);
    assert_eq!(position_to_byte_offset(content, Position::new(1, 0)), 3);
    assert_eq!(position_to_byte_offset(content, Position::new(1, 1)), 5);
    assert_eq!(position_to_byte_offset(content, Position::new(1, 2)), content.len());
    assert_eq!(position_to_byte_offset(content, Position::new(7, 0)), content.len());
}

#[test]
fn ranges_are_rows_and_columns() {
    let content = "Post(\n    author: User(id: 1)\n)";
    let mut parser = RonParser::new();
    let tree = parser.parse(content).unwrap();
    let main = find_main_value(&tree).unwrap();
    let range = node_to_lsp_range(main);
    assert_eq!(range.start, Position::new(0, 0));
    assert_eq!(range.end, Position::new(2, 1));
    let field = struct_named_fields(main)[0];
    let range = node_to_lsp_range(field);
    assert_eq!(range.start, Position::new(1, 4));
    assert_eq!(range.end, Position::new(1, 23));
}

#[test]
fn children_are_told_apart_by_kind() {
    let content = "Pair(1, x: 2, \"three\")";
    let mut parser = RonParser::new();
    let tree = parser.parse(content).unwrap();
    let main = find_main_value(&tree).unwrap();
    assert_eq!(children_by_kind(main, ",").len(), 2);
    assert_eq!(children_by_kind(main, "field").len(), 1);
    assert_eq!(named_children(main).len(), 4);
    assert_eq!(struct_tuple_fields(main).len(), 3);
    let values = struct_values(main, content);
    assert_eq!(values.len(), 2);
    assert_eq!(node_text(values[0], content), Some("1"));
    assert_eq!(node_text(values[1], content), Some("\"three\""));
    assert!(child_by_kind(main, "array").is_none());
}

#[test]
fn empty_structures_are_recognized() {
    let mut parser = RonParser::new();
    for (content, empty) in [("()", true), ("[]", true), ("{}", true), ("[1]", false), ("1", false)] {
        let tree = parser.parse(content).unwrap();
        let main = find_main_value(&tree).unwrap();
        assert_eq!(is_empty_structure(main, content), empty, "{}", content);
    }
}

#[test]
fn comments_and_extensions_are_no_main_value() {
    let content = "#![enable(implicit_some)]\n// note\nUser(id: 1)";
    let mut parser = RonParser::new();
    let tree = parser.parse(content).unwrap();
    let main = find_main_value(&tree).unwrap();
    assert_eq!(struct_name(main, content), Some("User"));
}

#[test]
fn a_position_leads_to_its_node_and_its_ancestors() {
    let content = "Post(author: User(id: 42))";
    let mut parser = RonParser::new();
    let tree = parser.parse(content).unwrap();
    let path = node_at_position(&tree, content, Position::new(0, 22)).unwrap();
    assert_eq!(node_text(path.node(), content), Some("42"));
    let field = find_ancestor_by_kind(path, "field").unwrap();
    assert_eq!(field_name(field.node(), content), Some("id"));
    let outer = find_ancestor_by_kind(field, "field").unwrap();
    assert_eq!(field_name(outer.node(), content), Some("author"));
    assert!(find_ancestor_by_kind(outer, "field").is_none());
}

#[test]
fn variants_are_extracted_with_their_data() {
    let content = "Shape(kind: Circle(radius: 2), fill: None, Odd: 1)";
    let mut parser = RonParser::new();
    let tree = parser.parse(content).unwrap();
    let main = find_main_value(&tree).unwrap();
    let fields = struct_named_fields(main);
    let circle = extract_enum_variant(field_value(fields[0]).unwrap(), content).unwrap();
    assert_eq!(circle.name, "Circle");
    assert_eq!(circle.data, Some("radius: 2".to_string()));
    assert_eq!((circle.line, circle.col), (0, 12));
    let none = extract_enum_variant(field_value(fields[1]).unwrap(), content).unwrap();
    assert_eq!(none.name, "None");
    assert_eq!(none.data, None);
    assert!(extract_enum_variant(field_value(fields[2]).unwrap(), content).is_none());

    let names: Vec<&str> = find_potential_variants(&tree, content)
        .iter()
        .map(|node| node_text(node, content).unwrap())
        .collect();
    assert_eq!(names, vec!["Shape", "Circle", "None"]);
}
