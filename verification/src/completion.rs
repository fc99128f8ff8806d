//! Completions for RON documents.

use crate::code_actions::opt_tree;
use crate::lsp::{
    completion_views, markdown, opt_view, CompletionItem, CompletionItemKind, CompletionModel,
    Documentation, InsertTextFormat, MarkupContent, MarkupKind, Position,
};
use crate::rust_analyzer::{
    field_named, find_field_in, find_variant_in, lookup, variant_named, EnumVariant, FieldInfo,
    RustAnalyzer, TypeAlias, TypeInfo, TypeKind,
};
use crate::syntax::{ron_syntax, RonParser, Syntax, SyntaxNode, SyntaxTree};
use crate::text;
use crate::tree_sitter_parser::{
    document_fields, field_around, field_at, fields_of, get_field_at_position,
    variant_around, variant_at,
};
use crate::ts_utils;
use vstd::prelude::*;
use vstd::string::StringExecFns;

verus! {

// ---------------------------------------------------------------------------
// What is completed
// ---------------------------------------------------------------------------

/// What stands at the position that is completed.
#[derive(Clone, Copy, Debug, PartialEq, Eq, Structural)]
pub enum CompletionContext {
    /// Completing field names (e.g., after comma or opening paren)
    FieldName,
    /// Completing values after colon
    FieldValue,
    /// Completing struct type name for nested types
    StructType,
}

/// Whether a text is made of nothing but what a type path is made of.
pub open spec fn is_path_text(s: Seq<char>) -> bool {
    forall|i: int|
        0 <= i < s.len() ==> text::alphanumeric_char(#[trigger] s[i]) || s[i] == '_' || s[i] == ':'
}

/// Whether a position stands behind the end of a node.
pub open spec fn stands_behind(position: Position, node: Syntax) -> bool {
    let row = ts_utils::protocol_number(node.end_position.row);
    let column = ts_utils::protocol_number(node.end_position.column);
    position.line > row || (position.line == row && position.character > column)
}

/// What a position in a field completes: behind the name of the field its value, if it has one.
pub open spec fn context_in_field(
    field: Syntax,
    content: Seq<char>,
    position: Position,
) -> CompletionContext {
    match ts_utils::field_value_of(field) {
        Some(value) => if field.children.len() > 0 && stands_behind(position, field.children[0]) {
            match ts_utils::text_of(value, content) {
                Some(value_text) => if is_path_text(value_text) {
                    CompletionContext::StructType
                } else {
                    CompletionContext::FieldValue
                },
                None => CompletionContext::FieldValue,
            }
        } else {
            CompletionContext::FieldName
        },
        None => CompletionContext::FieldName,
    }
}

/// What a position completes, given the path to the node that stands there.
pub open spec fn context_at(
    path: Option<Seq<Syntax>>,
    content: Seq<char>,
    position: Position,
) -> CompletionContext {
    match path {
        Some(path) => match ts_utils::ancestor_of_kind(path, "field"@) {
            Some(field) => context_in_field(field.last(), content, position),
            None => CompletionContext::FieldName,
        },
        None => CompletionContext::FieldName,
    }
}

fn has_path_text(s: &str) -> (r: bool)
    ensures
        r == is_path_text(s@),
{
    let chars = text::to_chars(s);
    let mut i: usize = 0;
    while i < chars.len()
        invariant
            i <= chars@.len(),
            chars@ == s@,
            forall|k: int|
                0 <= k < i ==> text::alphanumeric_char(#[trigger] s@[k]) || s@[k] == '_' || s@[k]
                    == ':',
        decreases chars@.len() - i,
    {
        let c = chars[i];
        if !(c.is_alphanumeric() || c == '_' || c == ':') {
            assert(s@[i as int] == c);
            return false;
        }
        i = i + 1;
    }
    true
}

/// What a position in a field completes.
pub fn field_context(field: &SyntaxNode, content: &str, position: Position) -> (r:
    CompletionContext)
    ensures
        r == context_in_field(field@, content@, position),
{
    let value = match ts_utils::field_value(field) {
        Some(value) => value,
        None => {
            return CompletionContext::FieldName;
        },
    };
    if field.children.len() == 0 {
        return CompletionContext::FieldName;
    }
    let name = &field.children[0];
    assert(field@.children[0] == name@);
    let row: u32 = ts_utils::to_protocol(name.end_position.row);
    let column: u32 = ts_utils::to_protocol(name.end_position.column);
    if position.line > row || (position.line == row && position.character > column) {
        if let Some(value_text) = ts_utils::node_text(value, content) {
            if has_path_text(value_text) {
                return CompletionContext::StructType;
            }
        }
        return CompletionContext::FieldValue;
    }
    CompletionContext::FieldName
}

/// What a position completes, from the path to the node that stands there.
pub fn context_on_path(path: ts_utils::NodePath, content: &str, position: Position) -> (r:
    CompletionContext)
    ensures
        r == context_at(Some(path@), content@, position),
{
    match ts_utils::find_ancestor_by_kind(path, "field") {
        Some(field) => field_context(field.node(), content, position),
        None => CompletionContext::FieldName,
    }
}

/// What a position completes in a document with a syntax tree.
pub fn context_in_tree(tree: &SyntaxTree, content: &str, position: Position) -> (r:
    CompletionContext)
    ensures
        r == context_at(
            ts_utils::path_at(tree.source(), content@, position),
            content@,
            position,
        ),
{
    match ts_utils::node_at_position(tree, content, position) {
        Some(path) => context_on_path(path, content, position),
        None => CompletionContext::FieldName,
    }
}

/// Determine what we're completing based on cursor position.
pub fn get_completion_context(content: &str, position: Position) -> (r: CompletionContext)
    ensures
        r == context_at(ts_utils::document_path(content@, position), content@, position),
{
    let mut parser = RonParser::new();
    match parser.parse(content) {
        Some(tree) => context_in_tree(&tree, content, position),
        None => CompletionContext::FieldName,
    }
}

/// Find the field name for the current cursor position.
pub fn find_current_field(content: &str, position: Position) -> (r: Option<String>)
    ensures
        opt_view(r) == field_at(ts_utils::document_path(content@, position), content@),
{
    get_field_at_position(content, position)
}

/// The path to the node at a position of a document, where the document has a syntax tree.
pub open spec fn opt_path(
    tree: Option<&SyntaxTree>,
    content: Seq<char>,
    position: Position,
) -> Option<Seq<Syntax>> {
    match tree {
        Some(tree) => ts_utils::path_at(tree.source(), content, position),
        None => None,
    }
}

// ---------------------------------------------------------------------------
// Completion items
// ---------------------------------------------------------------------------

/// A completion with a Markdown documentation, if any, and a text that is inserted.
pub open spec fn completion(
    label: Seq<char>,
    kind: CompletionItemKind,
    detail: Seq<char>,
    docs: Option<Seq<char>>,
    insert_text: Seq<char>,
    insert_text_format: Option<InsertTextFormat>,
) -> CompletionModel {
    CompletionModel {
        label,
        kind: Some(kind),
        detail: Some(detail),
        documentation: match docs {
            Some(docs) => markdown(docs),
            None => None,
        },
        insert_text: Some(insert_text),
        insert_text_format,
    }
}

fn completion_item(
    label: String,
    kind: CompletionItemKind,
    detail: String,
    docs: Option<String>,
    insert_text: String,
    insert_text_format: Option<InsertTextFormat>,
) -> (r: CompletionItem)
    ensures
        r@ == completion(
            label@,
            kind,
            detail@,
            opt_view(docs),
            insert_text@,
            insert_text_format,
        ),
{
    let documentation = match docs {
        Some(value) => Some(
            Documentation::MarkupContent(MarkupContent { kind: MarkupKind::Markdown, value }),
        ),
        None => None,
    };
    CompletionItem {
        label,
        kind: Some(kind),
        detail: Some(detail),
        documentation,
        insert_text: Some(insert_text),
        insert_text_format,
    }
}

/// A code block with Rust code, and the documentation behind it, if any.
pub open spec fn documented(code: Seq<char>, docs: Option<Seq<char>>) -> Seq<char> {
    let block = "```rust\n"@ + code + "\n```"@;
    match docs {
        Some(docs) => block + "\n\n"@ + docs,
        None => block,
    }
}

fn document(code: &str, docs: &Option<String>) -> (r: String)
    ensures
        r@ == documented(code@, opt_view(*docs)),
{
    let mut out = "```rust\n".to_owned();
    out.append(code);
    out.append("\n```");
    if let Some(docs) = docs {
        out.append("\n\n");
        out.append(docs.as_str());
    }
    out
}

/// The completion of the name of a field.
pub open spec fn field_completion(field: FieldInfo) -> CompletionModel {
    completion(
        field.name@,
        CompletionItemKind::Field,
        field.type_text@,
        Some(documented(field.name@ + ": "@ + field.type_text@, opt_view(field.docs))),
        field.name@ + ": "@,
        None,
    )
}

fn complete_field(field: &FieldInfo) -> (r: CompletionItem)
    ensures
        r@ == field_completion(*field),
{
    let mut code = field.name.clone();
    code.append(": ");
    let insert_text = code.clone();
    code.append(field.type_text.as_str());
    let docs = document(code.as_str(), &field.docs);
    completion_item(
        field.name.clone(),
        CompletionItemKind::Field,
        field.type_text.clone(),
        Some(docs),
        insert_text,
        None,
    )
}

/// The completions of the names of those of the first `n` fields that are not used.
pub open spec fn unused_field_completions(
    fields: Seq<FieldInfo>,
    used: Seq<Seq<char>>,
    n: nat,
) -> Seq<CompletionModel>
    decreases n,
{
    if n == 0 || n > fields.len() {
        Seq::empty()
    } else {
        let rest = unused_field_completions(fields, used, (n - 1) as nat);
        if used.contains(fields[n - 1].name@) {
            rest
        } else {
            rest.push(field_completion(fields[n - 1]))
        }
    }
}

fn complete_unused_fields(fields: &Vec<FieldInfo>, used: &Vec<String>) -> (r: Vec<CompletionItem>)
    ensures
        completion_views(r@) == unused_field_completions(
            fields@,
            text::views(used@),
            fields@.len(),
        ),
{
    let mut items: Vec<CompletionItem> = Vec::new();
    assert(completion_views(items@) == Seq::<CompletionModel>::empty());
    let mut i: usize = 0;
    while i < fields.len()
        invariant
            i <= fields@.len(),
            completion_views(items@) == unused_field_completions(
                fields@,
                text::views(used@),
                i as nat,
            ),
        decreases fields@.len() - i,
    {
        let ghost before = items@;
        if !text::list_contains(used, fields[i].name.as_str()) {
            let item = complete_field(&fields[i]);
            items.push(item);
            assert(completion_views(items@) == completion_views(before).push(item@));
        }
        i = i + 1;
    }
    items
}

/// What is inserted for a variant: its name, with parentheses where it has fields.
pub open spec fn variant_insertion(variant: EnumVariant) -> Seq<char> {
    if variant.fields@.len() == 0 {
        variant.name@
    } else {
        variant.name@ + "($0)"@
    }
}

/// The completion of the name of a variant of an enum.
pub open spec fn variant_completion(variant: EnumVariant, enum_name: Seq<char>) -> CompletionModel {
    completion(
        variant.name@,
        CompletionItemKind::EnumMember,
        "Variant of "@ + enum_name,
        Some(documented(variant.name@, opt_view(variant.docs))),
        variant_insertion(variant),
        None,
    )
}

fn complete_variant(variant: &EnumVariant, enum_name: &str) -> (r: CompletionItem)
    ensures
        r@ == variant_completion(*variant, enum_name@),
{
    let mut detail = "Variant of ".to_owned();
    detail.append(enum_name);
    let mut insert_text = variant.name.clone();
    if variant.fields.len() > 0 {
        insert_text.append("($0)");
    }
    let docs = document(variant.name.as_str(), &variant.docs);
    completion_item(
        variant.name.clone(),
        CompletionItemKind::EnumMember,
        detail,
        Some(docs),
        insert_text,
        None,
    )
}

/// The completions of the names of the variants of an enum.
pub open spec fn variant_completions(
    variants: Seq<EnumVariant>,
    enum_name: Seq<char>,
) -> Seq<CompletionModel> {
    Seq::new(variants.len(), |i: int| variant_completion(variants[i], enum_name))
}

fn complete_variants(variants: &Vec<EnumVariant>, enum_name: &str) -> (r: Vec<CompletionItem>)
    ensures
        completion_views(r@) == variant_completions(variants@, enum_name@),
{
    let mut items: Vec<CompletionItem> = Vec::new();
    let mut i: usize = 0;
    while i < variants.len()
        invariant
            i <= variants@.len(),
            items@.len() == i,
            forall|k: int|
                0 <= k < i ==> (#[trigger] items@[k])@ == variant_completion(
                    variants@[k],
                    enum_name@,
                ),
        decreases variants@.len() - i,
    {
        items.push(complete_variant(&variants[i], enum_name));
        i = i + 1;
    }
    assert(completion_views(items@) == variant_completions(variants@, enum_name@));
    items
}

/// The completions of the names in a document of a type, which uses some fields and in which the
/// position may be in a variant: of a struct the unused fields, of an enum the unused fields of the
/// variant, and outside of a variant the variants.
pub open spec fn name_completions(
    type_info: TypeInfo,
    used: Seq<Seq<char>>,
    variant: Option<Seq<char>>,
) -> Seq<CompletionModel> {
    match type_info.kind {
        TypeKind::Struct(fields) => unused_field_completions(fields@, used, fields@.len()),
        TypeKind::Enum(variants) => match variant {
            Some(name) => match variant_named(variants@, name, 0) {
                Some(found) => unused_field_completions(
                    found.fields@,
                    used,
                    found.fields@.len(),
                ),
                None => variant_completions(variants@, type_info.name@),
            },
            None => variant_completions(variants@, type_info.name@),
        },
    }
}

/// The completions of the names in a document of a type, from what is known of the document: the
/// fields it uses and the variant that the position is in.
pub fn complete_names(type_info: &TypeInfo, used: &Vec<String>, variant: Option<&str>) -> (r: Vec<
    CompletionItem,
>)
    ensures
        completion_views(r@) == name_completions(
            *type_info,
            text::views(used@),
            match variant {
                Some(name) => Some(name@),
                None => None,
            },
        ),
{
    match &type_info.kind {
        TypeKind::Struct(fields) => complete_unused_fields(fields, used),
        TypeKind::Enum(variants) => {
            if let Some(name) = variant {
                if let Some(found) = find_variant_in(variants, name) {
                    return complete_unused_fields(&found.fields, used);
                }
            }
            complete_variants(variants, type_info.name.as_str())
        },
    }
}

fn names_in_tree(
    tree: Option<&SyntaxTree>,
    content: &str,
    position: Position,
    type_info: &TypeInfo,
) -> (r: Vec<CompletionItem>)
    ensures
        completion_views(r@) == name_completions(
            *type_info,
            fields_of(opt_tree(tree), content@),
            variant_at(opt_path(tree, content@, position), content@),
        ),
{
    match tree {
        Some(tree) => {
            let used = document_fields(tree, content);
            let variant = variant_around(tree, content, position);
            let variant_name = match &variant {
                Some(name) => Some(name.as_str()),
                None => None,
            };
            complete_names(type_info, &used, variant_name)
        },
        None => {
            let used: Vec<String> = Vec::new();
            assert(text::views(used@) == Seq::<Seq<char>>::empty());
            complete_names(type_info, &used, None)
        },
    }
}

/// The completions of the names in a document of a type.
pub fn generate_field_completions(content: &str, position: Position, type_info: &TypeInfo) -> (r:
    Vec<CompletionItem>)
    ensures
        completion_views(r@) == name_completions(
            *type_info,
            fields_of(ron_syntax(content@), content@),
            variant_at(ts_utils::document_path(content@, position), content@),
        ),
{
    let mut parser = RonParser::new();
    let tree = parser.parse(content);
    names_in_tree(tree.as_ref(), content, position, type_info)
}

// ---------------------------------------------------------------------------
// Types
// ---------------------------------------------------------------------------

/// The line of a struct snippet that sets a field, with the place that the cursor stops at.
pub open spec fn field_snippet(field: FieldInfo, i: int) -> Seq<char> {
    "    "@ + field.name@ + ": ${"@ + text::decimal((i + 1) as nat) + "}"@
}

/// The snippet of a struct with all its fields.
pub open spec fn struct_snippet(name: Seq<char>, fields: Seq<FieldInfo>) -> Seq<char> {
    if fields.len() == 0 {
        name + "()"@
    } else {
        name + "(\n"@ + text::joined(
            Seq::new(fields.len(), |i: int| field_snippet(fields[i], i)),
            ",\n"@,
        ) + ",\n)"@
    }
}

/// The completion of a type: the last segment of its path, with parentheses.
pub open spec fn type_completion(type_info: TypeInfo) -> CompletionModel {
    let name = text::last_segment(type_info.name@);
    match type_info.kind {
        TypeKind::Struct(fields) => completion(
            name,
            CompletionItemKind::Struct,
            "struct "@ + type_info.name@,
            opt_view(type_info.docs),
            struct_snippet(name, fields@),
            Some(InsertTextFormat::Snippet),
        ),
        TypeKind::Enum(_) => completion(
            name,
            CompletionItemKind::Enum,
            "enum "@ + type_info.name@,
            opt_view(type_info.docs),
            name + "($0)"@,
            Some(InsertTextFormat::Snippet),
        ),
    }
}

fn copy_docs(docs: &Option<String>) -> (r: Option<String>)
    ensures
        opt_view(r) == opt_view(*docs),
{
    match docs {
        Some(docs) => Some(docs.clone()),
        None => None,
    }
}

fn snippet_of_struct(name: &str, fields: &Vec<FieldInfo>) -> (r: String)
    ensures
        r@ == struct_snippet(name@, fields@),
{
    let mut snippet = name.to_owned();
    if fields.len() == 0 {
        snippet.append("()");
        return snippet;
    }
    let mut lines: Vec<String> = Vec::new();
    let mut i: usize = 0;
    while i < fields.len()
        invariant
            i <= fields@.len(),
            lines@.len() == i,
            forall|k: int|
                0 <= k < i ==> (#[trigger] lines@[k])@ == field_snippet(fields@[k], k),
        decreases fields@.len() - i,
    {
        let mut line = "    ".to_owned();
        line.append(fields[i].name.as_str());
        line.append(": ${");
        line.append(text::number_text(i + 1).as_str());
        line.append("}");
        lines.push(line);
        i = i + 1;
    }
    assert(text::views(lines@) == Seq::new(
        fields@.len(),
        |i: int| field_snippet(fields@[i], i),
    ));
    snippet.append("(\n");
    snippet.append(text::join(&lines, ",\n").as_str());
    snippet.append(",\n)");
    snippet
}

/// Create a completion item for a type (struct or enum).
pub fn create_type_completion(type_info: &TypeInfo) -> (r: CompletionItem)
    ensures
        r@ == type_completion(*type_info),
{
    let name = text::last_path_segment(type_info.name.as_str());
    let docs = copy_docs(&type_info.docs);
    match &type_info.kind {
        TypeKind::Struct(fields) => {
            let mut detail = "struct ".to_owned();
            detail.append(type_info.name.as_str());
            let snippet = snippet_of_struct(name.as_str(), fields);
            completion_item(
                name,
                CompletionItemKind::Struct,
                detail,
                docs,
                snippet,
                Some(InsertTextFormat::Snippet),
            )
        },
        TypeKind::Enum(_) => {
            let mut detail = "enum ".to_owned();
            detail.append(type_info.name.as_str());
            let mut snippet = name.clone();
            snippet.append("($0)");
            completion_item(
                name,
                CompletionItemKind::Enum,
                detail,
                docs,
                snippet,
                Some(InsertTextFormat::Snippet),
            )
        },
    }
}

/// The completions of all types of a list.
pub open spec fn type_completions(types: Seq<TypeInfo>) -> Seq<CompletionModel> {
    Seq::new(types.len(), |i: int| type_completion(types[i]))
}

/// Get all types from the workspace as completion items.
pub fn get_all_workspace_types(analyzer: &RustAnalyzer) -> (r: Vec<CompletionItem>)
    ensures
        completion_views(r@) == type_completions(analyzer.types()),
{
    let types = analyzer.get_all_types();
    let mut items: Vec<CompletionItem> = Vec::new();
    let mut i: usize = 0;
    while i < types.len()
        invariant
            i <= types@.len(),
            items@.len() == i,
            forall|k: int| 0 <= k < i ==> (#[trigger] items@[k])@ == type_completion(types@[k]),
        decreases types@.len() - i,
    {
        items.push(create_type_completion(&types[i]));
        i = i + 1;
    }
    assert(completion_views(items@) == type_completions(types@));
    items
}

/// Whether the first `<` of a text does not stand behind its last `>`.
pub open spec fn angles_in_order(s: Seq<char>) -> bool {
    match (text::find_char_from(s, '<', 0), text::rfind_char_in(s, '>')) {
        (Some(start), Some(end)) => start < end,
        _ => true,
    }
}

/// What a type's text has between its first `<` and its last `>`, without spaces; the text itself
/// where one of them is missing.
pub open spec fn inner_type(type_text: Seq<char>) -> Seq<char> {
    let clean = text::without_spaces(type_text);
    match (text::find_char_from(clean, '<', 0), text::rfind_char_in(clean, '>')) {
        (Some(start), Some(end)) => clean.subrange(start + 1, end),
        _ => type_text,
    }
}

fn has_angles_in_order(type_text: &str) -> (r: bool)
    ensures
        r == angles_in_order(text::without_spaces(type_text@)),
{
    let clean = text::to_chars(text::remove_spaces(type_text).as_str());
    match (text::find_char(&clean, '<', 0), text::rfind_char(&clean, '>')) {
        (Some(start), Some(end)) => start < end,
        _ => true,
    }
}

/// Extract inner type from generics (e.g., `Option<T>` -> T, `Vec<T>` -> T).
pub fn extract_inner_type(type_text: &str) -> (r: String)
    requires
        angles_in_order(text::without_spaces(type_text@)),
    ensures
        r@ == inner_type(type_text@),
{
    let clean = text::to_chars(text::remove_spaces(type_text).as_str());
    if let Some(start) = text::find_char(&clean, '<', 0) {
        if let Some(end) = text::rfind_char(&clean, '>') {
            return text::from_chars(clean.as_slice(), start + 1, end);
        }
    }
    type_text.to_owned()
}

/// The completions for a field that expects a type, given the known type that the inner type of
/// the field is: the one of that type.
pub open spec fn inner_type_completions(
    field: Option<FieldInfo>,
    types: Seq<TypeInfo>,
    aliases: Seq<TypeAlias>,
) -> Seq<CompletionModel> {
    match field {
        Some(field) => match lookup(types, aliases, inner_type(field.type_text@)) {
            Some(nested) => seq![type_completion(nested)],
            None => Seq::empty(),
        },
        None => Seq::empty(),
    }
}

/// The field of a struct that has a name; `None` for an enum.
pub open spec fn struct_field(type_info: TypeInfo, name: Seq<char>) -> Option<FieldInfo> {
    match type_info.kind {
        TypeKind::Struct(fields) => field_named(fields@, name, 0),
        TypeKind::Enum(_) => None,
    }
}

/// Whether the inner type of a field, if there is one, can be told.
pub open spec fn has_inner_type(field: Option<FieldInfo>) -> bool {
    field matches Some(field) ==> angles_in_order(text::without_spaces(field.type_text@))
}

fn find_struct_field<'a>(type_info: &'a TypeInfo, name: &str) -> (r: Option<&'a FieldInfo>)
    ensures
        match r {
            Some(field) => struct_field(*type_info, name@) == Some(*field),
            None => struct_field(*type_info, name@) is None,
        },
{
    match &type_info.kind {
        TypeKind::Struct(fields) => find_field_in(fields, name),
        TypeKind::Enum(_) => None,
    }
}

/// Generate type completions for a field that expects a custom type.
pub fn generate_type_completions_for_field(
    field_name: &str,
    type_info: &TypeInfo,
    analyzer: &RustAnalyzer,
) -> (r: Vec<CompletionItem>)
    requires
        has_inner_type(struct_field(*type_info, field_name@)),
    ensures
        completion_views(r@) == inner_type_completions(
            struct_field(*type_info, field_name@),
            analyzer.types(),
            analyzer.aliases(),
        ),
{
    let mut items: Vec<CompletionItem> = Vec::new();
    assert(completion_views(items@) == Seq::<CompletionModel>::empty());
    if let Some(field) = find_struct_field(type_info, field_name) {
        let inner = extract_inner_type(field.type_text.as_str());
        if let Some(nested) = analyzer.known_type(inner.as_str()) {
            let item = create_type_completion(nested);
            items.push(item);
            assert(completion_views(items@) == seq![item@]);
        }
    }
    items
}

// ---------------------------------------------------------------------------
// Values
// ---------------------------------------------------------------------------

/// The completion of a value.
pub open spec fn value(label: Seq<char>, detail: Seq<char>, insert_text: Seq<char>) -> CompletionModel {
    completion(label, CompletionItemKind::Value, detail, None, insert_text, None)
}

/// The completion of a value with a place that the cursor goes to.
pub open spec fn value_snippet(
    label: Seq<char>,
    detail: Seq<char>,
    insert_text: Seq<char>,
) -> CompletionModel {
    completion(
        label,
        CompletionItemKind::Value,
        detail,
        None,
        insert_text,
        Some(InsertTextFormat::Snippet),
    )
}

/// The completion of a variant as a value.
pub open spec fn variant_value(variant: EnumVariant, enum_name: Seq<char>) -> CompletionModel {
    completion(
        variant.name@,
        CompletionItemKind::EnumMember,
        "Variant of "@ + enum_name,
        opt_view(variant.docs),
        variant.name@,
        None,
    )
}

/// The completions of the values of a known type: the variants of an enum, or a struct.
pub open spec fn known_values(type_info: TypeInfo) -> Seq<CompletionModel> {
    match type_info.kind {
        TypeKind::Enum(variants) => Seq::new(
            variants@.len(),
            |i: int| variant_value(variants@[i], type_info.name@),
        ),
        TypeKind::Struct(_) => seq![type_completion(type_info)],
    }
}

/// The completions of the values of an `Option`, whose inner type may be known.
pub open spec fn option_values(inner: Option<TypeInfo>) -> Seq<CompletionModel> {
    let none = value("None"@, "None variant"@, "None"@);
    match inner {
        Some(info) => {
            let name = text::last_segment(info.name@);
            seq![
                value_snippet(
                    "Some("@ + name + ")"@,
                    "Some variant with nested type"@,
                    "Some("@ + name + "($0))"@,
                ),
                none,
            ]
        },
        None => seq![value_snippet("Some()"@, "Some variant"@, "Some($0)"@), none],
    }
}

/// The completions of the values of a type that the standard library has.
pub open spec fn plain_values(type_text: Seq<char>) -> Seq<CompletionModel> {
    let clean = text::without_spaces(type_text);
    if clean == "bool"@ {
        seq![
            value("true"@, "Boolean value"@, "true"@),
            value("false"@, "Boolean value"@, "false"@),
        ]
    } else if "Vec<"@.is_prefix_of(clean) || "["@.is_prefix_of(clean) {
        seq![
            value("[]"@, "Empty vector/array"@, "[]"@),
            value_snippet("[...]"@, "Vector/array with elements"@, "[$0]"@),
        ]
    } else if "HashMap<"@.is_prefix_of(clean) || "BTreeMap<"@.is_prefix_of(clean) {
        seq![
            value("{}"@, "Empty map"@, "{}"@),
            value_snippet("{...}"@, "Map with entries"@, "{$0}"@),
        ]
    } else if clean == "String"@ || clean == "&str"@ {
        seq![value_snippet("\"\""@, "String value"@, "\"$0\""@)]
    } else if "i"@.is_prefix_of(clean) || "u"@.is_prefix_of(clean) || "f"@.is_prefix_of(clean) {
        seq![value("0"@, type_text + " value"@, "0"@)]
    } else {
        Seq::empty()
    }
}

/// The completions of the values of a type, given the known types that it and its inner type are.
pub open spec fn values_of_type(
    type_text: Seq<char>,
    known: Option<TypeInfo>,
    inner: Option<TypeInfo>,
) -> Seq<CompletionModel> {
    match known {
        Some(info) => known_values(info),
        None => if "Option<"@.is_prefix_of(text::without_spaces(type_text)) {
            option_values(inner)
        } else {
            plain_values(type_text)
        },
    }
}

fn value_item(label: &str, detail: &str, insert_text: &str) -> (r: CompletionItem)
    ensures
        r@ == value(label@, detail@, insert_text@),
{
    completion_item(
        label.to_owned(),
        CompletionItemKind::Value,
        detail.to_owned(),
        None,
        insert_text.to_owned(),
        None,
    )
}

fn snippet_item(label: &str, detail: &str, insert_text: &str) -> (r: CompletionItem)
    ensures
        r@ == value_snippet(label@, detail@, insert_text@),
{
    completion_item(
        label.to_owned(),
        CompletionItemKind::Value,
        detail.to_owned(),
        None,
        insert_text.to_owned(),
        Some(InsertTextFormat::Snippet),
    )
}

fn one_item(a: CompletionItem) -> (r: Vec<CompletionItem>)
    ensures
        completion_views(r@) == seq![a@],
{
    let mut items: Vec<CompletionItem> = Vec::new();
    items.push(a);
    assert(completion_views(items@) == seq![a@]);
    items
}

fn two_items(a: CompletionItem, b: CompletionItem) -> (r: Vec<CompletionItem>)
    ensures
        completion_views(r@) == seq![a@, b@],
{
    let mut items: Vec<CompletionItem> = Vec::new();
    items.push(a);
    items.push(b);
    assert(completion_views(items@) == seq![a@, b@]);
    items
}

fn complete_variant_value(variant: &EnumVariant, enum_name: &str) -> (r: CompletionItem)
    ensures
        r@ == variant_value(*variant, enum_name@),
{
    let mut detail = "Variant of ".to_owned();
    detail.append(enum_name);
    completion_item(
        variant.name.clone(),
        CompletionItemKind::EnumMember,
        detail,
        copy_docs(&variant.docs),
        variant.name.clone(),
        None,
    )
}

fn complete_known_values(type_info: &TypeInfo) -> (r: Vec<CompletionItem>)
    ensures
        completion_views(r@) == known_values(*type_info),
{
    match &type_info.kind {
        TypeKind::Enum(variants) => {
            let mut items: Vec<CompletionItem> = Vec::new();
            let mut i: usize = 0;
            while i < variants.len()
                invariant
                    i <= variants@.len(),
                    items@.len() == i,
                    forall|k: int|
                        0 <= k < i ==> (#[trigger] items@[k])@ == variant_value(
                            variants@[k],
                            type_info.name@,
                        ),
                decreases variants@.len() - i,
            {
                items.push(complete_variant_value(&variants[i], type_info.name.as_str()));
                i = i + 1;
            }
            assert(completion_views(items@) == known_values(*type_info));
            items
        },
        TypeKind::Struct(_) => one_item(create_type_completion(type_info)),
    }
}

fn complete_option_values(inner: Option<&TypeInfo>) -> (r: Vec<CompletionItem>)
    ensures
        completion_views(r@) == option_values(
            match inner {
                Some(info) => Some(*info),
                None => None,
            },
        ),
{
    let some = match inner {
        Some(info) => {
            let name = text::last_path_segment(info.name.as_str());
            let mut label = "Some(".to_owned();
            label.append(name.as_str());
            let mut insert_text = label.clone();
            label.append(")");
            insert_text.append("($0))");
            snippet_item(
                label.as_str(),
                "Some variant with nested type",
                insert_text.as_str(),
            )
        },
        None => snippet_item("Some()", "Some variant", "Some($0)"),
    };
    two_items(some, value_item("None", "None variant", "None"))
}

fn complete_plain_values(type_text: &str) -> (r: Vec<CompletionItem>)
    ensures
        completion_views(r@) == plain_values(type_text@),
{
    let clean_string = text::remove_spaces(type_text);
    let clean = clean_string.as_str();
    if text::str_eq(clean, "bool") {
        two_items(
            value_item("true", "Boolean value", "true"),
            value_item("false", "Boolean value", "false"),
        )
    } else if text::starts_with(clean, "Vec<") || text::starts_with(clean, "[") {
        two_items(
            value_item("[]", "Empty vector/array", "[]"),
            snippet_item("[...]", "Vector/array with elements", "[$0]"),
        )
    } else if text::starts_with(clean, "HashMap<") || text::starts_with(clean, "BTreeMap<") {
        two_items(
            value_item("{}", "Empty map", "{}"),
            snippet_item("{...}", "Map with entries", "{$0}"),
        )
    } else if text::str_eq(clean, "String") || text::str_eq(clean, "&str") {
        one_item(snippet_item("\"\"", "String value", "\"$0\""))
    } else if text::starts_with(clean, "i") || text::starts_with(clean, "u") || text::starts_with(
        clean,
        "f",
    ) {
        let mut detail = type_text.to_owned();
        detail.append(" value");
        one_item(value_item("0", detail.as_str(), "0"))
    } else {
        let none: Vec<CompletionItem> = Vec::new();
        assert(completion_views(none@) == Seq::<CompletionModel>::empty());
        none
    }
}

/// The completions of the values of a type, from what is known of it: the types that it and its
/// inner type are.
pub fn complete_values(
    field_type: &str,
    known: Option<&TypeInfo>,
    inner: Option<&TypeInfo>,
) -> (r: Vec<CompletionItem>)
    ensures
        completion_views(r@) == values_of_type(
            field_type@,
            match known {
                Some(info) => Some(*info),
                None => None,
            },
            match inner {
                Some(info) => Some(*info),
                None => None,
            },
        ),
{
    if let Some(info) = known {
        return complete_known_values(info);
    }
    let clean = text::remove_spaces(field_type);
    if text::starts_with(clean.as_str(), "Option<") {
        complete_option_values(inner)
    } else {
        complete_plain_values(field_type)
    }
}

/// The completions of the values of a type, with the types that are known.
pub open spec fn value_completions(
    type_text: Seq<char>,
    types: Seq<TypeInfo>,
    aliases: Seq<TypeAlias>,
) -> Seq<CompletionModel> {
    values_of_type(
        type_text,
        lookup(types, aliases, type_text),
        lookup(types, aliases, inner_type(text::without_spaces(type_text))),
    )
}

/// A text that starts like an `Option` has its angle brackets in order.
proof fn lemma_option_angles(s: Seq<char>)
    requires
        "Option<"@.is_prefix_of(s),
    ensures
        angles_in_order(s),
{
    reveal_strlit("Option<");
    text::lemma_find_char(s, '<', 0);
    text::lemma_rfind_char(s, '>');
    let head = "Option<"@;
    assert(forall|k: int| 0 <= k < 7 ==> s[k] == head[k]) by {
        assert(head == s.subrange(0, 7));
    }
    assert(s[6] == '<');
    if let Some(end) = text::rfind_char_in(s, '>') {
        if end < 7 {
            assert(s[end] == head[end]);
            assert(false);
        }
    }
}

/// Generate value completions based on field type.
pub fn generate_value_completions_by_type(field_type: &str, analyzer: &RustAnalyzer) -> (r: Vec<
    CompletionItem,
>)
    ensures
        completion_views(r@) == value_completions(
            field_type@,
            analyzer.types(),
            analyzer.aliases(),
        ),
{
    let known = analyzer.known_type(field_type);
    let clean = text::remove_spaces(field_type);
    if text::starts_with(clean.as_str(), "Option<") {
        proof {
            text::lemma_without_spaces(field_type@);
            lemma_option_angles(clean@);
        }
        let inner = extract_inner_type(clean.as_str());
        complete_values(field_type, known, analyzer.known_type(inner.as_str()))
    } else {
        complete_values(field_type, known, None)
    }
}

/// The completions of the values of a field of a struct.
pub open spec fn field_value_completions(
    field: Option<FieldInfo>,
    types: Seq<TypeInfo>,
    aliases: Seq<TypeAlias>,
) -> Seq<CompletionModel> {
    match field {
        Some(field) => value_completions(field.type_text@, types, aliases),
        None => Seq::empty(),
    }
}

/// Generate value completions for a specific field.
pub fn generate_value_completions_for_field(
    field_name: &str,
    type_info: &TypeInfo,
    analyzer: &RustAnalyzer,
) -> (r: Vec<CompletionItem>)
    ensures
        completion_views(r@) == field_value_completions(
            struct_field(*type_info, field_name@),
            analyzer.types(),
            analyzer.aliases(),
        ),
{
    match find_struct_field(type_info, field_name) {
        Some(field) => generate_value_completions_by_type(field.type_text.as_str(), analyzer),
        None => {
            let none: Vec<CompletionItem> = Vec::new();
            assert(completion_views(none@) == Seq::<CompletionModel>::empty());
            none
        },
    }
}

// ---------------------------------------------------------------------------
// The completions of a document
// ---------------------------------------------------------------------------

/// The completions at a position in a document of a type, with the types that are known.
pub open spec fn completions_at(
    root: Option<Syntax>,
    path: Option<Seq<Syntax>>,
    content: Seq<char>,
    position: Position,
    type_info: TypeInfo,
    types: Seq<TypeInfo>,
    aliases: Seq<TypeAlias>,
) -> Seq<CompletionModel> {
    match context_at(path, content, position) {
        CompletionContext::FieldName => name_completions(
            type_info,
            fields_of(root, content),
            variant_at(path, content),
        ),
        CompletionContext::FieldValue => match field_at(path, content) {
            Some(name) => field_value_completions(struct_field(type_info, name), types, aliases)
                + type_completions(types),
            None => type_completions(types),
        },
        CompletionContext::StructType => match field_at(path, content) {
            Some(name) => inner_type_completions(struct_field(type_info, name), types, aliases),
            None => Seq::empty(),
        },
    }
}

/// Whether the completions at a position can be told: where a type is completed, it is clear what
/// the inner type of the field is.
pub open spec fn completable(
    path: Option<Seq<Syntax>>,
    content: Seq<char>,
    position: Position,
    type_info: TypeInfo,
) -> bool {
    context_at(path, content, position) == CompletionContext::StructType ==> match field_at(
        path,
        content,
    ) {
        Some(name) => has_inner_type(struct_field(type_info, name)),
        None => true,
    }
}

/// The completions at a position in a document of a type, from the syntax tree of the document.
pub fn completions_in_tree(
    tree: Option<&SyntaxTree>,
    content: &str,
    position: Position,
    type_info: &TypeInfo,
    analyzer: &RustAnalyzer,
) -> (r: Vec<CompletionItem>)
    requires
        completable(opt_path(tree, content@, position), content@, position, *type_info),
    ensures
        completion_views(r@) == completions_at(
            opt_tree(tree),
            opt_path(tree, content@, position),
            content@,
            position,
            *type_info,
            analyzer.types(),
            analyzer.aliases(),
        ),
{
    let known = match tree {
        Some(known) => known,
        None => {
            return names_in_tree(None, content, position, type_info);
        },
    };
    match context_in_tree(known, content, position) {
        CompletionContext::FieldName => names_in_tree(tree, content, position, type_info),
        CompletionContext::FieldValue => {
            let mut types = get_all_workspace_types(analyzer);
            match field_around(known, content, position) {
                Some(name) => {
                    let mut items = generate_value_completions_for_field(
                        name.as_str(),
                        type_info,
                        analyzer,
                    );
                    let ghost own = items@;
                    let ghost all = types@;
                    items.append(&mut types);
                    assert(completion_views(own + all) == completion_views(own) + completion_views(
                        all,
                    ));
                    items
                },
                None => types,
            }
        },
        CompletionContext::StructType => match field_around(known, content, position) {
            Some(name) => generate_type_completions_for_field(name.as_str(), type_info, analyzer),
            None => {
                let none: Vec<CompletionItem> = Vec::new();
                assert(completion_views(none@) == Seq::<CompletionModel>::empty());
                none
            },
        },
    }
}

fn can_complete(
    tree: Option<&SyntaxTree>,
    content: &str,
    position: Position,
    type_info: &TypeInfo,
) -> (r: bool)
    ensures
        r == completable(opt_path(tree, content@, position), content@, position, *type_info),
{
    let tree = match tree {
        Some(tree) => tree,
        None => {
            return true;
        },
    };
    match context_in_tree(tree, content, position) {
        CompletionContext::StructType => match field_around(tree, content, position) {
            Some(name) => match find_struct_field(type_info, name.as_str()) {
                Some(field) => has_angles_in_order(field.type_text.as_str()),
                None => true,
            },
            None => true,
        },
        _ => true,
    }
}

/// Generate completions for a given type (already navigated to the innermost type), with the types
/// that the analyzer knows.
pub fn generate_completions_for_type(
    content: &str,
    position: Position,
    type_info: &TypeInfo,
    analyzer: &RustAnalyzer,
) -> (r: Vec<CompletionItem>)
    requires
        completable(
            ts_utils::document_path(content@, position),
            content@,
            position,
            *type_info,
        ),
    ensures
        completion_views(r@) == completions_at(
            ron_syntax(content@),
            ts_utils::document_path(content@, position),
            content@,
            position,
            *type_info,
            analyzer.types(),
            analyzer.aliases(),
        ),
{
    let mut parser = RonParser::new();
    let tree = parser.parse(content);
    completions_in_tree(tree.as_ref(), content, position, type_info, analyzer)
}

/// Generate completions for a given type; `None` where a type is completed whose text has its angle
/// brackets the wrong way round.
pub fn try_generate_completions_for_type(
    content: &str,
    position: Position,
    type_info: &TypeInfo,
    analyzer: &RustAnalyzer,
) -> (r: Option<Vec<CompletionItem>>)
    ensures
        match r {
            Some(items) => completion_views(items@) == completions_at(
                ron_syntax(content@),
                ts_utils::document_path(content@, position),
                content@,
                position,
                *type_info,
                analyzer.types(),
                analyzer.aliases(),
            ),
            None => true,
        },
        r is Some <==> completable(
            ts_utils::document_path(content@, position),
            content@,
            position,
            *type_info,
        ),
{
    let mut parser = RonParser::new();
    let tree = parser.parse(content);
    if can_complete(tree.as_ref(), content, position, type_info) {
        Some(generate_completions_for_type(content, position, type_info, analyzer))
    } else {
        None
    }
}

// ---------------------------------------------------------------------------
// The type around a position
// ---------------------------------------------------------------------------

/// What a text has before byte `n`: all of it where it is shorter, and `None` where byte `n` is
/// inside of a character.
pub open spec fn before_byte(s: Seq<char>, n: nat) -> Option<Seq<char>>
    decreases s.len(),
{
    if n == 0 || s.len() == 0 {
        Some(Seq::empty())
    } else {
        let width = vstd::utf8::encode_scalar(s[0] as u32).len();
        if n < width {
            None
        } else {
            match before_byte(s.skip(1), (n - width) as nat) {
                Some(rest) => Some(seq![s[0]] + rest),
                None => None,
            }
        }
    }
}

/// Whether a character is part of a word.
pub open spec fn is_word_char(c: char) -> bool {
    text::alphanumeric_char(c) || c == '_'
}

/// The last index at which a character stands that is no part of a word.
pub open spec fn last_word_break(s: Seq<char>) -> Option<int>
    decreases s.len(),
{
    if s.len() == 0 {
        None
    } else if !is_word_char(s.last()) {
        Some(s.len() - 1)
    } else {
        last_word_break(s.drop_last())
    }
}

/// What stands before the last opening parenthesis of a line, without white space around it.
pub open spec fn before_paren(before: Seq<char>) -> Option<Seq<char>> {
    match text::rfind_char_in(before, '(') {
        Some(i) => Some(text::trimmed(before.take(i))),
        None => None,
    }
}

/// The last word of a text, where it starts with an uppercase letter.
pub open spec fn last_type_word(s: Seq<char>) -> Option<Seq<char>> {
    let word = match last_word_break(s) {
        Some(i) => s.skip(i + 1),
        None => s,
    };
    if word.len() > 0 && text::uppercase_char(word[0]) {
        Some(word)
    } else {
        None
    }
}

/// The type whose parenthesis was opened last before a place in a line.
pub open spec fn type_before(before: Seq<char>) -> Option<Seq<char>> {
    match before_paren(before) {
        Some(s) => last_type_word(s),
        None => None,
    }
}

/// The part of the line of a position that stands before it.
pub open spec fn line_before(content: Seq<char>, position: Position) -> Option<Seq<char>> {
    match text::nth_line(content, position.line as nat) {
        Some(line) => before_byte(line, position.character as nat),
        None => None,
    }
}

/// Whether a position, whose character counts bytes, stands between two characters of its line, and
/// whether the last word before the parenthesis follows on a character of one byte.
pub open spec fn type_context_defined(content: Seq<char>, position: Position) -> bool {
    text::nth_line(content, position.line as nat) is Some ==> match line_before(content, position) {
        Some(before) => match before_paren(before) {
            Some(s) => match last_word_break(s) {
                Some(i) => (s[i] as u32) < 128,
                None => true,
            },
            None => true,
        },
        None => false,
    }
}

/// How many characters stand before byte `n`.
fn chars_before_byte(chars: &Vec<char>, n: usize) -> (r: Option<usize>)
    ensures
        match r {
            Some(k) => k <= chars@.len() && before_byte(chars@, n as nat) == Some(
                chars@.take(k as int),
            ),
            None => before_byte(chars@, n as nat) is None,
        },
{
    let mut i: usize = 0;
    let mut left: usize = n;
    assert(chars@.skip(0) == chars@);
    assert(forall|rest: Seq<char>| #[trigger] (chars@.take(0) + rest) == rest);
    while left > 0 && i < chars.len()
        invariant
            i <= chars@.len(),
            before_byte(chars@, n as nat) == match before_byte(
                chars@.skip(i as int),
                left as nat,
            ) {
                Some(rest) => Some(chars@.take(i as int) + rest),
                None => None,
            },
        decreases chars@.len() - i,
    {
        let width: usize = ts_utils::char_width(chars[i]);
        if left < width {
            return None;
        }
        proof {
            assert(chars@.skip(i as int).skip(1) == chars@.skip(i + 1));
            if let Some(rest) = before_byte(chars@.skip(i + 1), (left - width) as nat) {
                assert(chars@.take(i as int) + (seq![chars@[i as int]] + rest) == chars@.take(
                    i + 1,
                ) + rest);
            }
        }
        left = left - width;
        i = i + 1;
    }
    assert(chars@.take(i as int) + Seq::<char>::empty() == chars@.take(i as int));
    Some(i)
}

fn find_word_break(chars: &Vec<char>) -> (r: Option<usize>)
    ensures
        match r {
            Some(k) => last_word_break(chars@) == Some(k as int) && k < chars@.len(),
            None => last_word_break(chars@) is None,
        },
{
    let mut n: usize = chars.len();
    assert(chars@.take(n as int) == chars@);
    while n > 0
        invariant
            n <= chars@.len(),
            last_word_break(chars@) == last_word_break(chars@.take(n as int)),
        decreases n,
    {
        assert(chars@.take(n as int).drop_last() == chars@.take(n - 1));
        let c = chars[n - 1];
        if !(c.is_alphanumeric() || c == '_') {
            return Some(n - 1);
        }
        n = n - 1;
    }
    None
}

/// Find the type we're currently inside (e.g., if typing "User(" we return "User"). The character
/// of the position counts bytes.
pub fn find_current_type_context(content: &str, position: Position) -> (r: Option<String>)
    requires
        type_context_defined(content@, position),
    ensures
        opt_view(r) == match line_before(content@, position) {
            Some(before) => type_before(before),
            None => None,
        },
{
    let line = match text::line_at(content, position.line as usize) {
        Some(line) => line,
        None => {
            return None;
        },
    };
    let chars = text::to_chars(line);
    let end: usize = match chars_before_byte(&chars, position.character as usize) {
        Some(end) => end,
        None => {
            return None;
        },
    };
    let before = text::to_chars(text::from_chars(chars.as_slice(), 0, end).as_str());
    assert(before@ == chars@.take(end as int));
    let paren: usize = match text::rfind_char(&before, '(') {
        Some(paren) => paren,
        None => {
            return None;
        },
    };
    let head = text::from_chars(before.as_slice(), 0, paren);
    assert(head@ == before@.take(paren as int));
    let word_end = text::to_chars(text::trim(head.as_str()));
    let n: usize = word_end.len();
    let start: usize = match find_word_break(&word_end) {
        Some(i) => i + 1,
        None => 0,
    };
    let word = text::from_chars(word_end.as_slice(), start, n);
    assert(start > 0 ==> word@ == word_end@.skip(start as int));
    assert(start == 0 ==> word@ == word_end@);
    if start < n && word_end[start].is_uppercase() {
        Some(word)
    } else {
        None
    }
}

// ---------------------------------------------------------------------------
// Laws
// ---------------------------------------------------------------------------

/// Of the first `n` fields, those that are not used are offered, and no other: a used field never.
pub proof fn lemma_unused_fields_offered(fields: Seq<FieldInfo>, used: Seq<Seq<char>>, n: nat)
    requires
        n <= fields.len(),
    ensures
        forall|i: int|
            0 <= i < unused_field_completions(fields, used, n).len() ==> !used.contains(
                (#[trigger] unused_field_completions(fields, used, n)[i]).label,
            ),
        forall|k: int|
            0 <= k < n && !used.contains((#[trigger] fields[k]).name@)
                ==> unused_field_completions(fields, used, n).contains(field_completion(fields[k])),
    decreases n,
{
    if n > 0 {
        lemma_unused_fields_offered(fields, used, (n - 1) as nat);
        let rest = unused_field_completions(fields, used, (n - 1) as nat);
        let all = unused_field_completions(fields, used, n);
        assert forall|k: int|
            0 <= k < n && !used.contains((#[trigger] fields[k]).name@) implies all.contains(
            field_completion(fields[k]),
        ) by {
            if k < n - 1 {
                let i = choose|i: int|
                    0 <= i < rest.len() && rest[i] == field_completion(fields[k]);
                assert(all[i] == field_completion(fields[k]));
            } else {
                assert(all[all.len() - 1] == field_completion(fields[k]));
            }
        }
    }
}

/// The inner type of a generic type with one argument is the argument: of `Option<T>` it is `T`, of
/// `Vec<T>` too.
pub proof fn lemma_inner_type(outer: Seq<char>, argument: Seq<char>)
    requires
        !outer.contains('<'),
        !outer.contains(' '),
        !argument.contains(' '),
    ensures
        inner_type(outer + seq!['<'] + argument + seq!['>']) == argument,
{
    let s = outer + seq!['<'] + argument + seq!['>'];
    let n = outer.len() as int;
    assert forall|k: int| 0 <= k < s.len() implies s[k] != ' ' by {
        if k < n {
            assert(s[k] == outer[k]);
        } else if n < k < s.len() - 1 {
            assert(s[k] == argument[k - n - 1]);
        }
    }
    assert forall|k: int| 0 <= k < n implies s[k] != '<' by {
        assert(s[k] == outer[k]);
    }
    lemma_between_angles(s, n);
    assert(s.subrange(n + 1, s.len() - 1) == argument);
}

proof fn lemma_between_angles(s: Seq<char>, n: int)
    requires
        0 <= n < s.len() - 1,
        forall|k: int| 0 <= k < s.len() ==> s[k] != ' ',
        forall|k: int| 0 <= k < n ==> s[k] != '<',
        s[n] == '<',
        s.last() == '>',
    ensures
        inner_type(s) == s.subrange(n + 1, s.len() - 1),
{
    text::lemma_nothing_removed(s);
    text::lemma_find_char_at(s, '<', 0, n);
}

/// The values of a field come first, and all types of the workspace behind them.
pub proof fn lemma_values_before_types(
    root: Option<Syntax>,
    path: Option<Seq<Syntax>>,
    content: Seq<char>,
    position: Position,
    type_info: TypeInfo,
    types: Seq<TypeInfo>,
    aliases: Seq<TypeAlias>,
)
    requires
        context_at(path, content, position) == CompletionContext::FieldValue,
    ensures
        type_completions(types).is_suffix_of(
            completions_at(root, path, content, position, type_info, types, aliases),
        ),
{
    let all = completions_at(root, path, content, position, type_info, types, aliases);
    assert(type_completions(types) == all.subrange(all.len() - types.len(), all.len() as int));
}

} // verus!
