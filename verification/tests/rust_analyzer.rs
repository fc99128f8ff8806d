use ron_lsp::rust_analyzer::{
    extract_docs, extract_serde_container_attributes, extract_serde_field_attributes,
    file_path_to_module_path, has_default_derive, module_path_of_parts, type_to_string, FieldInfo,
    RustAnalyzer, SourceFile, TypeInfo, TypeKind, TypeLookup,
};
use ron_lsp::rust_syntax::{parse_rust, RustAttribute, RustField, RustItem, RustType};

fn parts(list: &[&str]) -> Vec<String> {
    list.iter().map(|part| part.to_string()).collect()
}

fn file(path: &str, content: &str) -> SourceFile {
    SourceFile::new(path.to_string(), content.to_string())
}

fn empty_struct(name: &str) -> TypeInfo {
    TypeInfo {
        name: name.to_string(),
        kind: TypeKind::Struct(vec![]),
        docs: None,
        source_file: None,
        line: None,
        column: None,
        has_default: false,
        is_transparent: false,
    }
}

fn attribute(ident: &str) -> RustAttribute {
    RustAttribute { ident: Some(ident.to_string()), value: None, list: None, nested: vec![] }
}

const MODELS: &str = "
/// A user.
///
/// With a name.
#[derive(Debug, Default)]
#[serde(transparent)]
pub struct User {
    /// The key.
    pub id: u32,
    #[serde(default)]
    name: Option<String>,
    other: &'static mut str,
}

pub enum Kind {
    Unit,
    /// Two values.
    Pair(u8, #[serde(default)] String),
    Named { x: i32 },
}

pub type Id = User;
pub struct Marker;

mod inner {
    pub struct Deep(pub u8);
    mod more {
        pub struct TooDeep;
    }
}
";

#[test]
fn module_paths_start_at_src() {
    assert_eq!(module_path_of_parts(&parts(&["src", "models", "user.rs"])), "crate::models::user");
    assert_eq!(module_path_of_parts(&parts(&["a", "src", "lib.rs"])), "crate");
    assert_eq!(module_path_of_parts(&parts(&["src", "main.rs"])), "crate");
    assert_eq!(module_path_of_parts(&parts(&["src", "models", "mod.rs"])), "crate::models");
    assert_eq!(module_path_of_parts(&parts(&["src", "models"])), "crate::models");
    assert_eq!(module_path_of_parts(&parts(&["src"])), "crate");
    assert_eq!(module_path_of_parts(&parts(&["src", "x.rs.rs"])), "crate::x");
    assert_eq!(module_path_of_parts(&parts(&["tests", "user.rs"])), "");
}

#[test]
fn file_paths_are_taken_apart() {
    assert_eq!(file_path_to_module_path("src/models/user.rs"), "crate::models::user");
    assert_eq!(file_path_to_module_path("./a//src/lib.rs"), "crate");
    assert_eq!(file_path_to_module_path("/work/src/a/./b/../mod.rs/"), "crate::a::b");
    assert_eq!(file_path_to_module_path("src/../x.rs"), "crate::x");
    assert_eq!(file_path_to_module_path("build.rs"), "");
    assert_eq!(file_path_to_module_path("src/a:b.rs"), "crate::a:b");
    assert_eq!(file_path_to_module_path("/work/c:/src/d:/lib.rs"), "crate::d:");
}

#[test]
fn types_are_read_from_source_files() {
    let mut analyzer = RustAnalyzer::new();
    analyzer.set_workspace_root("/work", &vec![file("src/models.rs", MODELS)]);
    let user = analyzer.known_type("crate::models::User").unwrap();
    assert_eq!(user.docs, Some("A user.\n\nWith a name.".to_string()));
    assert_eq!(user.source_file, Some("src/models.rs".to_string()));
    assert_eq!((user.line, user.column), (Some(7), Some(11)));
    assert!(user.has_default);
    assert!(user.is_transparent);
    let fields = user.fields().unwrap();
    assert_eq!(fields.len(), 3);
    assert_eq!(fields[0].name, "id");
    assert_eq!(fields[0].type_text, "u32");
    assert_eq!(fields[0].docs, Some("The key.".to_string()));
    assert_eq!((fields[0].line, fields[0].column), (Some(9), Some(8)));
    assert!(!fields[0].is_optional());
    assert_eq!(fields[1].type_text, "Option < String >");
    assert!(fields[1].has_default && fields[1].is_optional());
    assert_eq!(fields[2].type_text, "&mut str");

    let kind = analyzer.known_type("Kind").unwrap();
    assert!(!kind.has_default && !kind.is_transparent);
    assert!(kind.fields().is_none());
    let pair = kind.find_variant("Pair").unwrap();
    assert_eq!(pair.docs, Some("Two values.".to_string()));
    assert_eq!(pair.line, Some(18));
    let names: Vec<&str> = pair.fields.iter().map(|f| f.name.as_str()).collect();
    assert_eq!(names, vec!["0", "1"]);
    assert!(pair.fields[1].has_default && pair.fields[1].line.is_none());
    assert_eq!(kind.find_field("x").unwrap().type_text, "i32");
    assert!(kind.find_variant("Other").is_none());

    assert!(analyzer.known_type("crate::models::Marker").unwrap().fields().unwrap().is_empty());
    assert_eq!(analyzer.known_type("Deep").unwrap().name, "crate::models::inner::Deep");
    assert!(analyzer.known_type("TooDeep").is_none());
    assert_eq!(analyzer.resolve_alias("crate::models::Id"), "User");
    assert_eq!(analyzer.known_type("crate::models::Id").unwrap().name, "crate::models::User");
    assert_eq!(analyzer.get_all_types().len(), 4);
}

#[test]
fn files_that_are_no_rust_are_skipped() {
    let mut analyzer = RustAnalyzer::new();
    analyzer.set_workspace_root(
        "/work",
        &vec![file("src/bad.rs", "struct {"), file("src/good.rs", "struct Good;")],
    );
    let names: Vec<&str> = analyzer.get_all_types().iter().map(|t| t.name.as_str()).collect();
    assert_eq!(names, vec!["crate::good::Good"]);
    assert!(parse_rust("struct {").is_none());
}

#[test]
fn scanning_again_replaces_what_was_known() {
    let mut analyzer = RustAnalyzer::new();
    analyzer.set_workspace_root("/work", &vec![file("src/a.rs", "struct A { x: u8 }")]);
    analyzer.scan_workspace(&vec![file("src/a.rs", "struct A { x: u8, y: u8 } struct B;")]);
    assert_eq!(analyzer.get_all_types().len(), 2);
    assert_eq!(analyzer.known_type("A").unwrap().fields().unwrap().len(), 2);
}

#[test]
fn nothing_is_scanned_without_a_root() {
    let mut analyzer = RustAnalyzer::new();
    analyzer.scan_workspace(&vec![file("src/a.rs", "struct A;")]);
    assert!(analyzer.get_all_types().is_empty());
}

#[test]
fn lookups_tell_whether_a_scan_is_needed() {
    let mut analyzer = RustAnalyzer::new();
    match analyzer.get_type_info("A") {
        TypeLookup::NeedsScan { resolved } => assert_eq!(resolved, "A"),
        _ => panic!("a scan is needed"),
    }
    analyzer.insert_type_for_test(empty_struct("crate::A"));
    match analyzer.get_type_info("A") {
        TypeLookup::Found(info) => assert_eq!(info.name, "crate::A"),
        _ => panic!("the type is known"),
    }
    assert_eq!(analyzer.get_type_info_after_scan("B", "A").unwrap().name, "crate::A");
    assert!(analyzer.get_type_info_after_scan("A", "B").is_none());
    analyzer.set_workspace_root("/work", &vec![]);
    match analyzer.get_type_info("B") {
        TypeLookup::Missing => {}
        _ => panic!("there is no such type"),
    }
}

#[test]
fn an_inserted_type_is_found_again() {
    let mut analyzer = RustAnalyzer::new();
    analyzer.insert_type_for_test(empty_struct("crate::a::T"));
    analyzer.insert_type_for_test(empty_struct("crate::b::T"));
    let mut changed = empty_struct("crate::a::T");
    changed.has_default = true;
    analyzer.insert_type_for_test(changed);
    assert_eq!(analyzer.get_all_types().len(), 2);
    assert!(analyzer.known_type("crate::a::T").unwrap().has_default);
    assert!(!analyzer.known_type("crate::b::T").unwrap().has_default);
    assert!(analyzer.known_type("T").is_some());
    assert!(analyzer.known_type("a::T").unwrap().has_default);
    assert!(analyzer.known_type("xT").is_none());
}

#[test]
fn documentation_lines_are_trimmed_and_joined() {
    let mut first = attribute("doc");
    first.value = Some("  One. ".to_string());
    let mut second = attribute("doc");
    second.value = Some("Two.".to_string());
    let mut other = attribute("other");
    other.value = Some("Three.".to_string());
    assert_eq!(extract_docs(&vec![first, other, second]), Some("One.\nTwo.".to_string()));
    assert_eq!(extract_docs(&vec![attribute("doc")]), None);
}

#[test]
fn derives_are_told_by_whole_names() {
    let derive = |list: &str| {
        let mut attr = attribute("derive");
        attr.list = Some(list.to_string());
        has_default_derive(&vec![attr])
    };
    assert!(derive("Debug , Default"));
    assert!(derive("Default"));
    assert!(!derive("DefaultLike"));
    assert!(!derive(""));
    assert!(!has_default_derive(&vec![attribute("derive")]));
}

#[test]
fn serde_words_are_found_in_serde_attributes_only() {
    let mut serde = attribute("serde");
    serde.nested = vec![None, Some("default".to_string())];
    let mut other = attribute("other");
    other.nested = vec![Some("transparent".to_string())];
    let field = RustField {
        attrs: vec![serde.clone()],
        ident: None,
        ty: RustType::Other("u8".to_string()),
    };
    assert!(extract_serde_field_attributes(&field).has_default);
    assert!(!extract_serde_container_attributes(&vec![serde, other]).is_transparent);
}

#[test]
fn references_are_written_without_spaces() {
    let inner = RustType::Other("T".to_string());
    let shared = RustType::Reference { mutable: false, elem: Box::new(inner) };
    let nested = RustType::Reference { mutable: true, elem: Box::new(shared) };
    assert_eq!(type_to_string(&nested), "&mut &T");
}

#[test]
fn nested_attributes_stop_at_the_first_value() {
    let items = parse_rust("#[serde(a, rename = \"x\", default)] struct S;").unwrap();
    let RustItem::Struct(item) = &items[0] else { panic!("a struct") };
    assert_eq!(item.attrs[0].ident, Some("serde".to_string()));
    assert_eq!(
        item.attrs[0].nested,
        vec![Some("a".to_string()), Some("rename".to_string())]
    );
    assert_eq!(item.attrs[0].list, Some("a , rename = \"x\" , default".to_string()));
    assert_eq!((item.ident.line, item.ident.column), (1, 42));
    let items = parse_rust("#[a::b(c)] fn f() {} type T = Vec<u8>; mod m;").unwrap();
    assert_eq!(items.len(), 3);
    assert!(matches!(&items[0], RustItem::Other));
    assert!(matches!(&items[1], RustItem::Type(_)));
    assert!(matches!(&items[2], RustItem::Mod { content: None, .. }));
}

#[test]
fn options_and_defaults_may_be_left_out() {
    let field = |type_text: &str, has_default: bool| FieldInfo {
        name: "x".to_string(),
        type_text: type_text.to_string(),
        docs: None,
        line: None,
        column: None,
        has_default,
    };
    assert!(field("Option < u8 >", false).is_optional());
    assert!(field("u8", true).is_optional());
    assert!(!field("u8", false).is_optional());
}
