use ron_lsp::annotation_parser::parse_type_annotation;
use ron_lsp::format::{document_body, format_document, format_ron};
use ron_lsp::lsp::Position;
use ron_lsp::tree_sitter_parser::{
    extract_fields_from_ron, find_all_variant_field_locations, find_current_variant_context,
    get_field_at_position,
};
use ron_lsp::ts_utils::RonParser;

#[test]
fn annotations_name_the_type() {
    assert_eq!(
        parse_type_annotation("/* @[crate::User] */ User()"),
        Some("crate::User".to_string())
    );
    assert_eq!(parse_type_annotation("/*\n@[a]\t*/"), Some("a".to_string()));
    assert_eq!(parse_type_annotation("// @[a]"), None);
    assert_eq!(parse_type_annotation("/* @[] */"), None);
    assert_eq!(parse_type_annotation("/* @[a */ /* @[b] */"), Some("a */ /* @[b".to_string()));
    assert_eq!(parse_type_annotation("/* x */ /* @[b] */"), Some("b".to_string()));
    assert_eq!(parse_type_annotation(""), None);
}

#[test]
fn formatting_keeps_the_annotation() {
    let content = "  /*@[crate::a::User]*/ User( id : 1 )  ";
    let formatted = format_ron(content);
    assert_eq!(formatted, "/* @[crate::a::User] */\n\nUser(\n    id: 1,\n)");
    assert_eq!(parse_type_annotation(&formatted), parse_type_annotation(content));
    assert_eq!(document_body(&formatted), "\n\nUser(\n    id: 1,\n)");
    assert_eq!(format_ron(&formatted), formatted);
}

#[test]
fn values_are_laid_out_by_their_kind() {
    assert_eq!(format_ron("[ ]"), "[]");
    assert_eq!(format_ron("{ }"), "{}");
    assert_eq!(format_ron("()"), "()");
    assert_eq!(format_ron("{1:2,\"a\":[3]}"), "{\n    1: 2,\n    \"a\": [\n        3,\n    ],\n}");
    assert_eq!(format_ron("(1,2)"), "(\n    1,\n    2,\n)");
    assert_eq!(format_ron("Some(1)"), "Some(1)");
    assert_eq!(format_ron("Pair(1, 2)"), "Pair(\n    1,\n    2\n)");
    assert_eq!(format_ron("(a: b)"), "(\n    a: b,\n)");
    assert_eq!(format_ron("true"), "true");
}

#[test]
fn a_formatted_document_does_not_end_in_white_space() {
    for content in ["User(id: 1)\n\n", "  1  ", "/* @[a] */\n", ""] {
        let formatted = format_ron(content);
        assert_eq!(formatted.trim_end(), formatted);
    }
}

#[test]
fn a_document_is_formatted_from_its_parts() {
    let body = "A( b : 1 )";
    let tree = RonParser::new().parse(body).unwrap();
    assert_eq!(format_document(Some("x::A"), body, &tree), "/* @[x::A] */\n\nA(\n    b: 1,\n)");
    assert_eq!(format_document(None, body, &tree), "A(\n    b: 1,\n)");
}

#[test]
fn the_fields_of_a_document_are_those_of_its_top_level() {
    assert_eq!(extract_fields_from_ron("User(id: 1, home: Home(street: 2))"), vec!["id", "home"]);
    assert_eq!(extract_fields_from_ron("Kind::Big(size: 3)"), vec!["size"]);
    assert!(extract_fields_from_ron("[1]").is_empty());
    assert!(extract_fields_from_ron("").is_empty());
}

#[test]
fn positions_tell_their_variant_and_field() {
    let content = "Post(kind: Long(length: 3), title: \"x\")";
    let inside = Position::new(0, 24);
    assert_eq!(find_current_variant_context(content, inside), Some("Long".to_string()));
    assert_eq!(get_field_at_position(content, inside), Some("length".to_string()));
    let outside = Position::new(0, 30);
    assert_eq!(find_current_variant_context(content, outside), Some("Post".to_string()));
    assert_eq!(get_field_at_position(content, outside), Some("title".to_string()));
    assert_eq!(get_field_at_position("", outside), None);
}

#[test]
fn variants_in_fields_are_located() {
    let content = "Post(\n    kind: Long(\n        length: 3,\n    ),\n    other: Short(),\n)";
    let found = find_all_variant_field_locations(content);
    assert_eq!(found.len(), 2);
    assert_eq!(found[0].line_idx, 2);
    assert_eq!(found[0].variant_name, "Long");
    assert_eq!(found[0].containing_field_name, "kind");
    assert_eq!(found[0].field_at_position, Some("length".to_string()));
    assert_eq!(found[1].line_idx, 4);
    assert_eq!(found[1].variant_name, "Short");
    assert_eq!(found[1].field_at_position, None);
}

const DOCUMENTS: [&str; 6] = [
    "User( id : 1,name:\"a , b\" , tags :[ 1,2 , ], )",
    "{ 1 : Some( 2 ), \"k )\" : [ () , true ] }",
    "Post(kind:Long(length:3),author:(id:1,),)",
    "( 1 , 'c', -2 )",
    "Pair( 1,2 )",
    "[ ]",
];

/// The text without white space outside literals, and without commas before closing brackets.
fn dense(content: &str) -> String {
    let mut dense = String::new();
    let mut literal: Option<char> = None;
    for c in content.chars() {
        if let Some(quote) = literal {
            dense.push(c);
            if c == quote {
                literal = None;
            }
        } else if !c.is_whitespace() {
            if matches!(c, ')' | ']' | '}') && dense.ends_with(',') {
                dense.pop();
            }
            if matches!(c, '"' | '\'') {
                literal = Some(c);
            }
            dense.push(c);
        }
    }
    dense
}

#[test]
fn formatting_twice_is_formatting_once() {
    for content in DOCUMENTS {
        let formatted = format_ron(content);
        assert_eq!(format_ron(&formatted), formatted);
    }
}

#[test]
fn formatting_changes_white_space_and_trailing_commas_alone() {
    for content in DOCUMENTS {
        assert_eq!(dense(&format_ron(content)), dense(content));
    }
    assert_eq!(dense("A( b : \"c d\" , )"), "A(b:\"c d\")");
}
