//! Code actions for RON documents.

use crate::keyed::{lemma_filter_in, lemma_filter_keeps};
use crate::lsp::{
    action_views, opt_view, single_edit, single_edit_action, ActionModel, CodeAction,
    CodeActionKind, EditModel, Position, Range, TextEdit,
};
use crate::rust_analyzer::{
    find_variant_in, lookup, variant_named, EnumVariant, FieldInfo, RustAnalyzer, TypeAlias,
    TypeInfo, TypeKind,
};
use crate::syntax::{node_views, ron_syntax, Point, RonParser, Syntax, SyntaxNode, SyntaxTree};
use crate::text;
use crate::tree_sitter_parser::{
    document_fields, fields_of, location_views, locations_of, variant_field_locations,
    LocationModel, VariantFieldLocation,
};
use crate::ts_utils;
use vstd::prelude::*;
use vstd::string::StringExecFns;

verus! {

// ---------------------------------------------------------------------------
// Default values
// ---------------------------------------------------------------------------

/// Whether a type name is made of nothing but numerals and the letters `i`, `u` and `f`.
pub open spec fn looks_numeric(name: Seq<char>) -> bool {
    forall|i: int|
        0 <= i < name.len() ==> text::numeric_char(#[trigger] name[i]) || name[i] == 'i' || name[i]
            == 'u' || name[i] == 'f'
}

/// The RON text of a default value of a type.
pub open spec fn default_value_of(type_text: Seq<char>) -> Seq<char> {
    let clean = text::without_spaces(type_text);
    if "Option"@.is_prefix_of(clean) {
        "None"@
    } else if clean == "bool"@ {
        "false"@
    } else if "Vec"@.is_prefix_of(clean) || "["@.is_prefix_of(clean) {
        "[]"@
    } else if "HashMap"@.is_prefix_of(clean) || "BTreeMap"@.is_prefix_of(clean) {
        "{}"@
    } else if clean == "String"@ || clean == "&str"@ || clean == "str"@ {
        "\"\""@
    } else if looks_numeric(clean) || clean == "usize"@ || clean == "isize"@ {
        "0"@
    } else {
        clean + "()"@
    }
}

fn is_numeric_name(name: &str) -> (r: bool)
    ensures
        r == looks_numeric(name@),
{
    let chars = text::to_chars(name);
    let mut i: usize = 0;
    while i < chars.len()
        invariant
            i <= chars@.len(),
            chars@ == name@,
            forall|k: int|
                0 <= k < i ==> text::numeric_char(#[trigger] name@[k]) || name@[k] == 'i'
                    || name@[k] == 'u' || name@[k] == 'f',
        decreases chars@.len() - i,
    {
        let c = chars[i];
        if !(c.is_numeric() || c == 'i' || c == 'u' || c == 'f') {
            assert(name@[i as int] == c);
            return false;
        }
        i = i + 1;
    }
    true
}

/// A default value for a given Rust type, as RON text.
pub fn generate_default_value(type_text: &str) -> (r: String)
    ensures
        r@ == default_value_of(type_text@),
{
    let clean = text::remove_spaces(type_text);
    let name = clean.as_str();
    if text::starts_with(name, "Option") {
        "None".to_owned()
    } else if text::str_eq(name, "bool") {
        "false".to_owned()
    } else if text::starts_with(name, "Vec") || text::starts_with(name, "[") {
        "[]".to_owned()
    } else if text::starts_with(name, "HashMap") || text::starts_with(name, "BTreeMap") {
        "{}".to_owned()
    } else if text::str_eq(name, "String") || text::str_eq(name, "&str") || text::str_eq(
        name,
        "str",
    ) {
        "\"\"".to_owned()
    } else if is_numeric_name(name) || text::str_eq(name, "usize") || text::str_eq(
        name,
        "isize",
    ) {
        "0".to_owned()
    } else {
        let mut value = clean.clone();
        value.append("()");
        value
    }
}

// ---------------------------------------------------------------------------
// Inserting fields
// ---------------------------------------------------------------------------

/// The first child of a node that is a struct.
pub open spec fn first_struct(root: Syntax) -> Option<Syntax> {
    let structs = ts_utils::children_of_kind(root, "struct"@);
    if structs.len() > 0 {
        Some(structs[0])
    } else {
        None
    }
}

/// The struct of a document that fields are inserted into: its main value; where that could not be
/// parsed, or where there is none, the first struct at the top level.
pub open spec fn insertion_target(root: Syntax) -> Option<Syntax> {
    match ts_utils::main_value_of(root) {
        Some(value) => if value.kind == "struct"@ {
            Some(value)
        } else if value.kind == "ERROR"@ {
            first_struct(root)
        } else {
            None
        },
        None => first_struct(root),
    }
}

/// The lines of the first `n` of the fields to insert, with commas between them.
pub open spec fn field_lines(fields: Seq<&FieldInfo>, n: nat) -> Seq<char>
    decreases n,
{
    if n == 0 || n > fields.len() {
        Seq::empty()
    } else {
        let field = fields[n - 1];
        field_lines(fields, (n - 1) as nat) + "    "@ + field.name@ + ": "@ + default_value_of(
            field.type_text@,
        ) + (if n < fields.len() {
            seq![',']
        } else {
            Seq::empty()
        }) + seq!['\n']
    }
}

/// The row and the column just before an end: those of the last character before it.
pub open spec fn before_end(end: Point) -> Position {
    Position {
        line: ts_utils::protocol_number(end.row),
        character: ts_utils::protocol_number(
            if end.column > 0 {
                (end.column - 1) as usize
            } else {
                0
            },
        ),
    }
}

/// The edit that inserts fields before the closing parenthesis of a struct that ends at a place and
/// may have fields.
pub open spec fn insertion_at(end: Point, has_fields: bool, fields: Seq<&FieldInfo>) -> EditModel {
    let at = before_end(end);
    EditModel {
        range: Range { start: at, end: at },
        new_text: (if has_fields {
            ",\n"@
        } else if at.line > 0 {
            "\n"@
        } else {
            Seq::empty()
        }) + field_lines(fields, fields.len()),
    }
}

/// The edit that inserts fields at the end of a struct.
pub open spec fn insertion_into(target: Syntax, fields: Seq<&FieldInfo>) -> EditModel {
    insertion_at(target.end_position, ts_utils::named_fields_of(target).len() > 0, fields)
}

/// The edit that inserts fields into a document with a syntax tree.
pub open spec fn insertion(root: Option<Syntax>, fields: Seq<&FieldInfo>) -> Option<EditModel> {
    match root {
        Some(root) => match insertion_target(root) {
            Some(target) => Some(insertion_into(target, fields)),
            None => None,
        },
        None => None,
    }
}

/// The model of an optional tree.
pub open spec fn opt_tree(tree: Option<&SyntaxTree>) -> Option<Syntax> {
    match tree {
        Some(tree) => Some(tree@),
        None => None,
    }
}

/// The struct of a document that fields are inserted into.
pub fn find_insertion_target(tree: &SyntaxTree) -> (r: Option<&SyntaxNode>)
    ensures
        match r {
            Some(target) => insertion_target(tree@) == Some(target@),
            None => insertion_target(tree@) is None,
        },
{
    match ts_utils::find_main_value(tree) {
        Some(value) => if ts_utils::is_kind(value, "struct") {
            Some(value)
        } else if ts_utils::is_kind(value, "ERROR") {
            ts_utils::child_by_kind(tree.root_node(), "struct")
        } else {
            None
        },
        None => ts_utils::child_by_kind(tree.root_node(), "struct"),
    }
}

/// The edit that inserts fields before the closing parenthesis of a struct that ends at a place and
/// may have fields.
pub fn insert_fields_at(end: Point, has_fields: bool, missing_fields: &Vec<&FieldInfo>) -> (r:
    TextEdit)
    ensures
        r@ == insertion_at(end, has_fields, missing_fields@),
{
    let insert_line: u32 = ts_utils::to_protocol(end.row);
    let column: usize = if end.column > 0 {
        end.column - 1
    } else {
        0
    };
    let at = Position { line: insert_line, character: ts_utils::to_protocol(column) };
    let mut field_text = String::new();
    if has_fields {
        field_text.append(",\n");
    } else if insert_line > 0 {
        field_text.append("\n");
    }
    let ghost head = field_text@;
    let mut i: usize = 0;
    while i < missing_fields.len()
        invariant
            i <= missing_fields@.len(),
            field_text@ == head + field_lines(missing_fields@, i as nat),
        decreases missing_fields@.len() - i,
    {
        let field = missing_fields[i];
        field_text.append("    ");
        field_text.append(field.name.as_str());
        field_text.append(": ");
        field_text.append(generate_default_value(field.type_text.as_str()).as_str());
        if i < missing_fields.len() - 1 {
            field_text.push(',');
        }
        field_text.push('\n');
        i = i + 1;
        assert(field_text@ == head + field_lines(missing_fields@, i as nat));
    }
    TextEdit { range: Range { start: at, end: at }, new_text: field_text }
}

/// The edit that inserts missing fields into a document with a syntax tree.
pub fn insert_fields(missing_fields: &Vec<&FieldInfo>, tree: Option<&SyntaxTree>) -> (r: Option<
    TextEdit,
>)
    ensures
        match r {
            Some(edit) => insertion(opt_tree(tree), missing_fields@) == Some(edit@),
            None => insertion(opt_tree(tree), missing_fields@) is None,
        },
{
    let tree = match tree {
        Some(tree) => tree,
        None => {
            return None;
        },
    };
    match find_insertion_target(tree) {
        Some(target) => {
            let existing_fields = ts_utils::struct_named_fields(target);
            assert(node_views(existing_fields@).len() == existing_fields@.len());
            Some(
                insert_fields_at(
                    target.end_position,
                    existing_fields.len() > 0,
                    missing_fields,
                ),
            )
        },
        None => None,
    }
}

/// The edit that inserts missing fields into a document.
pub fn generate_field_insertions(missing_fields: &Vec<&FieldInfo>, content: &str) -> (r: Option<
    TextEdit,
>)
    ensures
        match r {
            Some(edit) => insertion(ron_syntax(content@), missing_fields@) == Some(edit@),
            None => insertion(ron_syntax(content@), missing_fields@) is None,
        },
{
    let mut parser = RonParser::new();
    match parser.parse(content) {
        Some(tree) => insert_fields(missing_fields, Some(&tree)),
        None => None,
    }
}

// ---------------------------------------------------------------------------
// Making types explicit
// ---------------------------------------------------------------------------

/// The edit that inserts a text at the start of a node.
pub open spec fn insert_before(node: Syntax, new_text: Seq<char>) -> EditModel {
    let at = ts_utils::range_of(node).start;
    EditModel { range: Range { start: at, end: at }, new_text }
}

fn edit_before(node: &SyntaxNode, new_text: String) -> (r: TextEdit)
    ensures
        r@ == insert_before(node@, new_text@),
{
    let at = ts_utils::node_to_lsp_range(node).start;
    TextEdit { range: Range { start: at, end: at }, new_text }
}

/// Whether a node is a struct without a name.
pub open spec fn is_unnamed_struct(node: Syntax, content: Seq<char>) -> bool {
    node.kind == "struct"@ && ts_utils::struct_name_of(node, content) is None
}

fn unnamed_struct(node: &SyntaxNode, content: &str) -> (r: bool)
    ensures
        r == is_unnamed_struct(node@, content@),
{
    ts_utils::is_kind(node, "struct") && ts_utils::struct_name(node, content).is_none()
}

/// The action that names the struct of a document: where its main value is a struct without a
/// name.
pub open spec fn explicit_root(
    root: Option<Syntax>,
    content: Seq<char>,
    path: Seq<char>,
    uri: Seq<char>,
) -> Option<ActionModel> {
    match root {
        Some(root) => match ts_utils::main_value_of(root) {
            Some(value) => if is_unnamed_struct(value, content) {
                let name = text::last_segment(path);
                Some(
                    single_edit(
                        "Make struct name explicit: "@ + name,
                        CodeActionKind::Refactor,
                        uri,
                        insert_before(value, name),
                    ),
                )
            } else {
                None
            },
            None => None,
        },
        None => None,
    }
}

/// The action that names the struct of a document with a syntax tree.
pub fn explicit_root_type_action(
    tree: Option<&SyntaxTree>,
    content: &str,
    type_info: &TypeInfo,
    uri: &str,
) -> (r: Option<CodeAction>)
    ensures
        match r {
            Some(action) => explicit_root(opt_tree(tree), content@, type_info.name@, uri@) == Some(
                action@,
            ),
            None => explicit_root(opt_tree(tree), content@, type_info.name@, uri@) is None,
        },
{
    let tree = match tree {
        Some(tree) => tree,
        None => {
            return None;
        },
    };
    match ts_utils::find_main_value(tree) {
        Some(value) => {
            if unnamed_struct(value, content) {
                let name = text::last_path_segment(type_info.name.as_str());
                let mut title = "Make struct name explicit: ".to_owned();
                title.append(name.as_str());
                let edit = edit_before(value, name);
                Some(single_edit_action(title, CodeActionKind::Refactor, uri, edit))
            } else {
                None
            }
        },
        None => None,
    }
}

/// A name without `Option<` and `>` around it.
pub open spec fn unwrapped(name: Seq<char>) -> Seq<char> {
    if name.len() > 7 && name.take(7) == "Option<"@ && name.last() == '>' {
        name.subrange(7, name.len() - 1)
    } else {
        name
    }
}

fn unwrap_option(name: &str) -> (r: String)
    ensures
        r@ == unwrapped(name@),
{
    let chars = text::to_chars(name);
    let n: usize = chars.len();
    if n > 7 && chars[n - 1] == '>' {
        let start = text::from_chars(chars.as_slice(), 0, 7);
        assert(start@ == name@.take(7));
        if text::str_eq(start.as_str(), "Option<") {
            return text::from_chars(chars.as_slice(), 7, n - 1);
        }
    }
    let all = text::from_chars(chars.as_slice(), 0, n);
    assert(all@ == name@);
    all
}

/// How many angle brackets are open behind the first `n` characters of a text.
pub open spec fn nesting(s: Seq<char>, n: int) -> int
    decreases n,
{
    if n <= 0 || n > s.len() {
        0
    } else {
        nesting(s, n - 1) + (if s[n - 1] == '<' {
            1int
        } else if s[n - 1] == '>' {
            -1int
        } else {
            0int
        })
    }
}

/// Whether a path names the type `Option`, however it is qualified.
pub open spec fn is_option_path(path: Seq<char>) -> bool {
    &&& text::last_segment(path) == "Option"@
    &&& forall|i: int|
        0 <= i < path.len() ==> text::alphanumeric_char(#[trigger] path[i]) || path[i] == '_'
            || path[i] == ':'
}

/// Where the angle bracket opens of an `Option` around the whole of a type's text: the first bracket
/// is that of an `Option`, and the last character is what closes it.
pub open spec fn option_around(clean: Seq<char>) -> Option<int> {
    match text::find_char_from(clean, '<', 0) {
        Some(open) => if is_option_path(clean.take(open)) && clean.last() == '>' && nesting(
            clean,
            clean.len() as int,
        ) == 0 && forall|i: int| open < i < clean.len() ==> #[trigger] nesting(clean, i) > 0 {
            Some(open)
        } else {
            None
        },
        None => None,
    }
}

/// The name that stands for a type in a document: the last segment of its text, without spaces, and
/// without the `Option` that it is in. That is the `Option` around the whole text where the segment
/// ends inside it, and else the one around the segment.
pub open spec fn explicit_name(type_text: Seq<char>) -> Seq<char> {
    let clean = text::without_spaces(type_text);
    let name = text::without_spaces(text::last_segment(type_text));
    match option_around(clean) {
        Some(open) => if 0 < name.len() < clean.len() - open {
            name.drop_last()
        } else {
            unwrapped(name)
        },
        None => unwrapped(name),
    }
}

fn names_option(path: &str) -> (r: bool)
    ensures
        r == is_option_path(path@),
{
    let chars = text::to_chars(path);
    let mut i: usize = 0;
    while i < chars.len()
        invariant
            i <= chars@.len(),
            chars@ == path@,
            forall|k: int|
                0 <= k < i ==> text::alphanumeric_char(#[trigger] path@[k]) || path@[k] == '_'
                    || path@[k] == ':',
        decreases chars@.len() - i,
    {
        let c = chars[i];
        if !(c.is_alphanumeric() || c == '_' || c == ':') {
            assert(path@[i as int] == c);
            return false;
        }
        i = i + 1;
    }
    let name = text::last_path_segment(path);
    text::str_eq(name.as_str(), "Option")
}

/// Where no bracket is open before the first, none is.
proof fn lemma_nesting_before(s: Seq<char>, open: int, n: int)
    requires
        0 <= n <= open < s.len(),
        forall|k: int| 0 <= k < open ==> s[k] != '<' && s[k] != '>',
    ensures
        nesting(s, n) == 0,
    decreases n,
{
    if n > 0 {
        lemma_nesting_before(s, open, n - 1);
    }
}

fn find_option(chars: &Vec<char>) -> (r: Option<usize>)
    ensures
        match r {
            Some(open) => option_around(chars@) == Some(open as int) && open < chars@.len(),
            None => option_around(chars@) is None,
        },
{
    let n: usize = chars.len();
    proof {
        text::lemma_find_char(chars@, '<', 0);
    }
    let open: usize = match text::find_char(chars, '<', 0) {
        Some(open) => open,
        None => {
            return None;
        },
    };
    let path = text::from_chars(chars.as_slice(), 0, open);
    assert(path@ == chars@.take(open as int));
    if !names_option(path.as_str()) || chars[n - 1] != '>' {
        return None;
    }
    proof {
        assert forall|k: int| 0 <= k < open implies chars@[k] != '<' && chars@[k] != '>' by {
            assert(path@[k] == chars@[k]);
        }
        lemma_nesting_before(chars@, open as int, open as int);
    }
    let mut depth: usize = 1;
    let mut i: usize = open + 1;
    while i < n
        invariant
            open < i <= n == chars@.len(),
            i < n ==> depth > 0,
            depth <= i,
            depth == nesting(chars@, i as int),
            text::find_char_from(chars@, '<', 0) == Some(open as int),
            forall|k: int| open < k < n && k <= i ==> #[trigger] nesting(chars@, k) > 0,
        decreases n - i,
    {
        if chars[i] == '<' {
            depth = depth + 1;
        } else if chars[i] == '>' {
            depth = depth - 1;
        }
        i = i + 1;
        assert(depth == nesting(chars@, i as int));
        if depth == 0 && i < n {
            return None;
        }
    }
    if depth == 0 {
        Some(open)
    } else {
        None
    }
}

fn explicit_type_name(type_text: &str) -> (r: String)
    ensures
        r@ == explicit_name(type_text@),
{
    let clean = text::to_chars(text::remove_spaces(type_text).as_str());
    let segment = text::last_path_segment(type_text);
    let name = text::remove_spaces(segment.as_str());
    if let Some(open) = find_option(&clean) {
        let chars = text::to_chars(name.as_str());
        let n: usize = chars.len();
        if n > 0 && n < clean.len() - open {
            let r = text::from_chars(chars.as_slice(), 0, n - 1);
            assert(r@ == name@.drop_last());
            return r;
        }
    }
    unwrap_option(name.as_str())
}

/// The value of the first of the fields, from index `i` on, that has a name and a struct without a
/// name as its value.
pub open spec fn unnamed_value(
    fields: Seq<Syntax>,
    content: Seq<char>,
    name: Seq<char>,
    i: int,
) -> Option<Syntax>
    decreases fields.len() - i,
{
    if i < 0 || i >= fields.len() {
        None
    } else if ts_utils::field_name_of(fields[i], content) == Some(name) && (
    ts_utils::field_value_of(fields[i]) matches Some(value) && is_unnamed_struct(value, content)) {
        ts_utils::field_value_of(fields[i])
    } else {
        unnamed_value(fields, content, name, i + 1)
    }
}

/// The action that names the struct in a field of a document.
pub open spec fn explicit_field(
    root: Option<Syntax>,
    content: Seq<char>,
    field: FieldInfo,
    uri: Seq<char>,
) -> Option<ActionModel> {
    match root {
        Some(root) => match ts_utils::main_value_of(root) {
            Some(main) => match unnamed_value(
                ts_utils::named_fields_of(main),
                content,
                field.name@,
                0,
            ) {
                Some(value) => {
                    let name = explicit_name(field.type_text@);
                    Some(
                        single_edit(
                            "Make field type explicit: "@ + field.name@ + " "@ + name,
                            CodeActionKind::Refactor,
                            uri,
                            insert_before(value, name),
                        ),
                    )
                },
                None => None,
            },
            None => None,
        },
        None => None,
    }
}

fn find_unnamed_value<'a>(fields: &Vec<&'a SyntaxNode>, content: &str, name: &str) -> (r: Option<
    &'a SyntaxNode,
>)
    ensures
        match r {
            Some(value) => unnamed_value(node_views(fields@), content@, name@, 0) == Some(value@),
            None => unnamed_value(node_views(fields@), content@, name@, 0) is None,
        },
{
    let mut i: usize = 0;
    while i < fields.len()
        invariant
            i <= fields@.len(),
            unnamed_value(node_views(fields@), content@, name@, 0) == unnamed_value(
                node_views(fields@),
                content@,
                name@,
                i as int,
            ),
        decreases fields@.len() - i,
    {
        let field = fields[i];
        assert(node_views(fields@)[i as int] == field@);
        if let Some(field_name) = ts_utils::field_name(field, content) {
            if text::str_eq(field_name, name) {
                if let Some(value) = ts_utils::field_value(field) {
                    if unnamed_struct(value, content) {
                        return Some(value);
                    }
                }
            }
        }
        i = i + 1;
    }
    None
}

/// The action that names the struct in a field of a document with a syntax tree.
pub fn explicit_field_type_action(
    tree: Option<&SyntaxTree>,
    content: &str,
    field: &FieldInfo,
    uri: &str,
) -> (r: Option<CodeAction>)
    ensures
        match r {
            Some(action) => explicit_field(opt_tree(tree), content@, *field, uri@) == Some(action@),
            None => explicit_field(opt_tree(tree), content@, *field, uri@) is None,
        },
{
    let tree = match tree {
        Some(tree) => tree,
        None => {
            return None;
        },
    };
    let main = match ts_utils::find_main_value(tree) {
        Some(main) => main,
        None => {
            return None;
        },
    };
    let fields = ts_utils::struct_named_fields(main);
    match find_unnamed_value(&fields, content, field.name.as_str()) {
        Some(value) => {
            let name = explicit_type_name(field.type_text.as_str());
            let mut title = "Make field type explicit: ".to_owned();
            title.append(field.name.as_str());
            title.append(" ");
            title.append(name.as_str());
            let edit = edit_before(value, name);
            Some(single_edit_action(title, CodeActionKind::Refactor, uri, edit))
        },
        None => None,
    }
}

/// The actions that name the structs of a document: of the whole document, and of the fields of a
/// struct type.
pub open spec fn explicit_actions(
    root: Option<Syntax>,
    content: Seq<char>,
    type_info: TypeInfo,
    uri: Seq<char>,
) -> Seq<ActionModel> {
    opt_seq(explicit_root(root, content, type_info.name@, uri)) + match type_info.kind {
        TypeKind::Struct(fields) => explicit_fields(root, content, fields@, fields@.len(), uri),
        TypeKind::Enum(_) => Seq::empty(),
    }
}

/// The list of what an option holds.
pub open spec fn opt_seq<A>(o: Option<A>) -> Seq<A> {
    match o {
        Some(a) => seq![a],
        None => Seq::empty(),
    }
}

/// The actions for the first `n` of the fields.
pub open spec fn explicit_fields(
    root: Option<Syntax>,
    content: Seq<char>,
    fields: Seq<FieldInfo>,
    n: nat,
    uri: Seq<char>,
) -> Seq<ActionModel>
    decreases n,
{
    if n == 0 || n > fields.len() {
        Seq::empty()
    } else {
        explicit_fields(root, content, fields, (n - 1) as nat, uri) + opt_seq(
            explicit_field(root, content, fields[n - 1], uri),
        )
    }
}

/// The actions that name the structs of a document with a syntax tree.
pub fn explicit_type_actions(
    tree: Option<&SyntaxTree>,
    content: &str,
    type_info: &TypeInfo,
    uri: &str,
) -> (r: Vec<CodeAction>)
    ensures
        action_views(r@) == explicit_actions(opt_tree(tree), content@, *type_info, uri@),
{
    let mut actions: Vec<CodeAction> = Vec::new();
    if let Some(action) = explicit_root_type_action(tree, content, type_info, uri) {
        actions.push(action);
    }
    let ghost first = opt_seq(explicit_root(opt_tree(tree), content@, type_info.name@, uri@));
    assert(action_views(actions@) == first);
    if let Some(fields) = type_info.fields() {
        let mut i: usize = 0;
        while i < fields.len()
            invariant
                i <= fields@.len(),
                action_views(actions@) == first + explicit_fields(
                    opt_tree(tree),
                    content@,
                    fields@,
                    i as nat,
                    uri@,
                ),
            decreases fields@.len() - i,
        {
            let ghost before = actions@;
            if let Some(action) = explicit_field_type_action(tree, content, &fields[i], uri) {
                actions.push(action);
                assert(action_views(actions@) == action_views(before).push(action@));
            }
            i = i + 1;
        }
    }
    actions
}

// ---------------------------------------------------------------------------
// Adding missing fields
// ---------------------------------------------------------------------------

/// References to the fields of a list.
pub open spec fn field_refs<'a>(fields: Seq<FieldInfo>) -> Seq<&'a FieldInfo> {
    Seq::new(fields.len(), |i: int| &fields[i])
}

/// The fields of a list whose names are not used.
pub open spec fn missing_from<'a>(
    fields: Seq<FieldInfo>,
    used: Seq<Seq<char>>,
) -> Seq<&'a FieldInfo> {
    field_refs(fields).filter(|f: &FieldInfo| !used.contains(f.name@))
}

/// The fields that a document has to set.
pub open spec fn required_of<'a>(fields: Seq<&'a FieldInfo>) -> Seq<&'a FieldInfo> {
    fields.filter(|f: &FieldInfo| !f.optional())
}

/// The missing fields that a document has to set: none of a type that has a default.
pub open spec fn required_missing<'a>(
    missing: Seq<&'a FieldInfo>,
    has_default: bool,
) -> Seq<&'a FieldInfo> {
    if has_default {
        Seq::empty()
    } else {
        required_of(missing)
    }
}

/// The fields of a list whose names are not used.
pub fn missing_fields<'a>(fields: &'a Vec<FieldInfo>, used: &Vec<String>) -> (r: Vec<&'a FieldInfo>)
    ensures
        r@ == missing_from(fields@, text::views(used@)),
{
    let mut missing: Vec<&'a FieldInfo> = Vec::new();
    let ghost wanted = |f: &FieldInfo| !text::views(used@).contains(f.name@);
    let mut i: usize = 0;
    reveal(Seq::filter);
    while i < fields.len()
        invariant
            i <= fields@.len(),
            wanted == |f: &FieldInfo| !text::views(used@).contains(f.name@),
            missing@ == field_refs(fields@).take(i as int).filter(wanted),
        decreases fields@.len() - i,
    {
        reveal(Seq::filter);
        assert(field_refs(fields@).take(i + 1).drop_last() == field_refs(fields@).take(i as int));
        assert(field_refs(fields@)[i as int] == &fields@[i as int]);
        if !text::list_contains(used, fields[i].name.as_str()) {
            missing.push(&fields[i]);
        }
        i = i + 1;
    }
    assert(field_refs(fields@).take(i as int) == field_refs(fields@));
    missing
}

/// The missing fields that a document has to set.
pub fn required_fields<'a>(missing: &Vec<&'a FieldInfo>, has_default: bool) -> (r: Vec<
    &'a FieldInfo,
>)
    ensures
        r@ == required_missing(missing@, has_default),
{
    let mut required: Vec<&'a FieldInfo> = Vec::new();
    if has_default {
        return required;
    }
    let ghost wanted = |f: &FieldInfo| !f.optional();
    let mut i: usize = 0;
    reveal(Seq::filter);
    while i < missing.len()
        invariant
            i <= missing@.len(),
            wanted == |f: &FieldInfo| !f.optional(),
            required@ == missing@.take(i as int).filter(wanted),
        decreases missing@.len() - i,
    {
        reveal(Seq::filter);
        assert(missing@.take(i + 1).drop_last() == missing@.take(i as int));
        if !missing[i].is_optional() {
            required.push(missing[i]);
        }
        i = i + 1;
    }
    assert(missing@.take(i as int) == missing@);
    required
}

/// The ending of a noun that a number of things goes with.
pub open spec fn plural(n: nat) -> Seq<char> {
    if n == 1 {
        Seq::empty()
    } else {
        seq!['s']
    }
}

/// The title of the action that adds the required fields.
pub open spec fn required_title(n: nat, place: Seq<char>) -> Seq<char> {
    "Add "@ + text::decimal(n) + " required field"@ + plural(n) + place
}

/// The title of the action that adds all missing fields.
pub open spec fn all_title(n: nat, place: Seq<char>) -> Seq<char> {
    "Add all "@ + text::decimal(n) + " missing field"@ + plural(n) + place
}

fn titled(head: &str, n: usize, noun: &str, place: &str) -> (r: String)
    ensures
        r@ == head@ + text::decimal(n as nat) + noun@ + plural(n as nat) + place@,
{
    let mut title = head.to_owned();
    title.append(text::number_text(n).as_str());
    title.append(noun);
    if n != 1 {
        title.push('s');
    }
    title.append(place);
    title
}

/// The action that inserts fields under a title, where there are fields and a place for them.
pub open spec fn insertion_action(
    edit: Option<EditModel>,
    fields: Seq<&FieldInfo>,
    title: Seq<char>,
    uri: Seq<char>,
) -> Seq<ActionModel> {
    match edit {
        Some(edit) => if fields.len() > 0 {
            seq![single_edit(title, CodeActionKind::QuickFix, uri, edit)]
        } else {
            Seq::empty()
        },
        None => Seq::empty(),
    }
}

fn push_insertion(
    actions: &mut Vec<CodeAction>,
    edit: Option<TextEdit>,
    fields: &Vec<&FieldInfo>,
    title: String,
    uri: &str,
)
    ensures
        action_views(final(actions)@) == action_views(old(actions)@) + insertion_action(
            match edit {
                Some(edit) => Some(edit@),
                None => None,
            },
            fields@,
            title@,
            uri@,
        ),
{
    if fields.len() > 0 {
        if let Some(edit) = edit {
            let action = single_edit_action(title, CodeActionKind::QuickFix, uri, edit);
            let ghost model = action@;
            actions.push(action);
            assert(action_views(actions@) == action_views(old(actions)@) + seq![model]);
        }
    }
}

/// The actions that add missing fields: the required ones, and all of them. `place` says in the
/// titles where the fields are added.
pub open spec fn add_field_actions(
    root: Option<Syntax>,
    fields: Seq<FieldInfo>,
    used: Seq<Seq<char>>,
    has_default: bool,
    place: Seq<char>,
    uri: Seq<char>,
) -> Seq<ActionModel> {
    let missing = missing_from(fields, used);
    let required = required_missing(missing, has_default);
    insertion_action(
        insertion(root, required),
        required,
        required_title(required.len(), place),
        uri,
    ) + insertion_action(
        insertion(root, missing),
        missing,
        all_title(missing.len(), place),
        uri,
    )
}

/// The actions that add the fields that a document does not set: of the variant that it is, where
/// it is one of an enum, and of the given fields otherwise.
pub open spec fn missing_field_actions_of(
    root: Option<Syntax>,
    fields: Seq<FieldInfo>,
    type_info: TypeInfo,
    variant: Option<Seq<char>>,
    used: Seq<Seq<char>>,
    uri: Seq<char>,
) -> Seq<ActionModel> {
    match (type_info.kind, variant) {
        (TypeKind::Enum(variants), Some(name)) => match variant_named(variants@, name, 0) {
            Some(found) => add_field_actions(
                root,
                found.fields@,
                used,
                type_info.has_default,
                " to "@ + name,
                uri,
            ),
            None => add_field_actions(
                root,
                fields,
                used,
                type_info.has_default,
                Seq::empty(),
                uri,
            ),
        },
        _ => add_field_actions(root, fields, used, type_info.has_default, Seq::empty(), uri),
    }
}

fn actions_that_add(
    tree: Option<&SyntaxTree>,
    fields: &Vec<FieldInfo>,
    used: &Vec<String>,
    has_default: bool,
    place: &str,
    uri: &str,
) -> (r: Vec<CodeAction>)
    ensures
        action_views(r@) == add_field_actions(
            opt_tree(tree),
            fields@,
            text::views(used@),
            has_default,
            place@,
            uri@,
        ),
{
    let mut actions: Vec<CodeAction> = Vec::new();
    assert(action_views(actions@) == Seq::<ActionModel>::empty());
    let missing = missing_fields(fields, used);
    let required = required_fields(&missing, has_default);
    let title = titled("Add ", required.len(), " required field", place);
    push_insertion(&mut actions, insert_fields(&required, tree), &required, title, uri);
    let title = titled("Add all ", missing.len(), " missing field", place);
    push_insertion(&mut actions, insert_fields(&missing, tree), &missing, title, uri);
    assert(action_views(actions@) == add_field_actions(
        opt_tree(tree),
        fields@,
        text::views(used@),
        has_default,
        place@,
        uri@,
    ));
    actions
}

/// The actions that add the fields that a document does not set, from what is known of the
/// document: its syntax tree, the variant it is and the fields it sets.
pub fn missing_field_actions(
    tree: Option<&SyntaxTree>,
    fields: &Vec<FieldInfo>,
    type_info: &TypeInfo,
    variant_name: Option<&str>,
    used_fields: &Vec<String>,
    uri: &str,
) -> (r: Vec<CodeAction>)
    ensures
        action_views(r@) == missing_field_actions_of(
            opt_tree(tree),
            fields@,
            *type_info,
            match variant_name {
                Some(name) => Some(name@),
                None => None,
            },
            text::views(used_fields@),
            uri@,
        ),
{
    if let TypeKind::Enum(variants) = &type_info.kind {
        if let Some(name) = variant_name {
            if let Some(variant) = find_variant_in(variants, name) {
                let mut place = " to ".to_owned();
                place.append(name);
                return actions_that_add(
                    tree,
                    &variant.fields,
                    used_fields,
                    type_info.has_default,
                    place.as_str(),
                    uri,
                );
            }
        }
    }
    proof {
        reveal_strlit("");
        assert(""@ == Seq::<char>::empty());
    }
    actions_that_add(tree, fields, used_fields, type_info.has_default, "", uri)
}

// ---------------------------------------------------------------------------
// Adding missing fields of variants in fields
// ---------------------------------------------------------------------------

/// Whether two locations are in the same variant of the same field.
pub open spec fn same_variant(a: LocationModel, b: LocationModel) -> bool {
    a.containing_field_name == b.containing_field_name && a.variant_name == b.variant_name
}

/// The fields that the locations of one variant of one field set.
pub open spec fn used_at(locations: Seq<LocationModel>, place: LocationModel) -> Seq<Seq<char>>
    decreases locations.len(),
{
    if locations.len() == 0 {
        Seq::empty()
    } else {
        let rest = used_at(locations.drop_last(), place);
        match locations.last().field_at_position {
            Some(name) => if same_variant(locations.last(), place) {
                rest.push(name)
            } else {
                rest
            },
            None => rest,
        }
    }
}

/// Whether no earlier location is in the same variant of the same field.
pub open spec fn first_of_variant(locations: Seq<LocationModel>, i: int) -> bool {
    forall|j: int| 0 <= j < i ==> !same_variant(#[trigger] locations[j], locations[i])
}

/// The definition of the variant that a location is in, with whether its type has a default: the
/// field that contains it is one of the document's type, and the field's type is known.
pub open spec fn variant_definition(
    place: LocationModel,
    type_info: TypeInfo,
    types: Seq<TypeInfo>,
    aliases: Seq<TypeAlias>,
) -> Option<(EnumVariant, bool)> {
    match type_info.field_with_name(place.containing_field_name) {
        Some(field) => match lookup(types, aliases, field.type_text@) {
            Some(field_type) => match field_type.variant_with_name(place.variant_name) {
                Some(variant) => Some((variant, field_type.has_default)),
                None => None,
            },
            None => None,
        },
        None => None,
    }
}

/// Where an action adds fields to a variant of a field.
pub open spec fn variant_place(place: LocationModel) -> Seq<char> {
    " to "@ + place.containing_field_name + "::"@ + place.variant_name
}

/// The action that adds the required fields that the variant at a location does not set: at the end
/// of that variant.
pub open spec fn variant_action(
    locations: Seq<LocationModel>,
    place: LocationModel,
    definition: Option<(EnumVariant, bool)>,
    uri: Seq<char>,
) -> Seq<ActionModel> {
    match definition {
        Some((variant, has_default)) => {
            let required = required_missing(
                missing_from(variant.fields@, used_at(locations, place)),
                has_default,
            );
            insertion_action(
                Some(insertion_at(place.end_position, place.has_fields, required)),
                required,
                required_title(required.len(), variant_place(place)),
                uri,
            )
        },
        None => Seq::empty(),
    }
}

/// The actions for the first `n` locations: one for each variant of each field at most.
pub open spec fn variant_actions_for(
    type_info: TypeInfo,
    types: Seq<TypeInfo>,
    aliases: Seq<TypeAlias>,
    locations: Seq<LocationModel>,
    n: nat,
    uri: Seq<char>,
) -> Seq<ActionModel>
    decreases n,
{
    if n == 0 {
        Seq::empty()
    } else {
        let rest = variant_actions_for(
            type_info,
            types,
            aliases,
            locations,
            (n - 1) as nat,
            uri,
        );
        if first_of_variant(locations, n - 1) {
            rest + variant_action(
                locations,
                locations[n - 1],
                variant_definition(locations[n - 1], type_info, types, aliases),
                uri,
            )
        } else {
            rest
        }
    }
}

fn is_same_variant(a: &VariantFieldLocation, b: &VariantFieldLocation) -> (r: bool)
    ensures
        r == same_variant(a@, b@),
{
    text::str_eq(a.containing_field_name.as_str(), b.containing_field_name.as_str())
        && text::str_eq(a.variant_name.as_str(), b.variant_name.as_str())
}

/// The fields that the locations of one variant of one field set.
pub fn used_fields_at(locations: &Vec<VariantFieldLocation>, place: &VariantFieldLocation) -> (r: Vec<
    String,
>)
    ensures
        text::views(r@) == used_at(location_views(locations@), place@),
{
    let mut used: Vec<String> = Vec::new();
    assert(text::views(used@) == Seq::<Seq<char>>::empty());
    let mut i: usize = 0;
    while i < locations.len()
        invariant
            i <= locations@.len(),
            text::views(used@) == used_at(location_views(locations@).take(i as int), place@),
        decreases locations@.len() - i,
    {
        let ghost all = location_views(locations@);
        assert(all.take(i + 1).drop_last() == all.take(i as int));
        assert(all[i as int] == locations@[i as int]@);
        let ghost before = used@;
        if let Some(name) = &locations[i].field_at_position {
            if is_same_variant(&locations[i], place) {
                used.push(name.clone());
                assert(text::views(used@) == text::views(before).push(name@));
            }
        }
        i = i + 1;
    }
    assert(location_views(locations@).take(i as int) == location_views(locations@));
    used
}

fn is_first_of_variant(locations: &Vec<VariantFieldLocation>, i: usize) -> (r: bool)
    requires
        i < locations@.len(),
    ensures
        r == first_of_variant(location_views(locations@), i as int),
{
    let ghost all = location_views(locations@);
    assert(all[i as int] == locations@[i as int]@);
    let mut j: usize = 0;
    while j < i
        invariant
            j <= i < locations@.len(),
            all == location_views(locations@),
            all[i as int] == locations@[i as int]@,
            forall|k: int| 0 <= k < j ==> !same_variant(#[trigger] all[k], all[i as int]),
        decreases i - j,
    {
        assert(all[j as int] == locations@[j as int]@);
        if is_same_variant(&locations[j], &locations[i]) {
            return false;
        }
        j = j + 1;
    }
    true
}

fn find_variant_definition<'a>(
    place: &VariantFieldLocation,
    type_info: &TypeInfo,
    analyzer: &'a RustAnalyzer,
) -> (r: Option<(&'a EnumVariant, bool)>)
    ensures
        match r {
            Some((variant, has_default)) => variant_definition(
                place@,
                *type_info,
                analyzer.types(),
                analyzer.aliases(),
            ) == Some((*variant, has_default)),
            None => variant_definition(place@, *type_info, analyzer.types(), analyzer.aliases())
                is None,
        },
{
    let field = match type_info.find_field(place.containing_field_name.as_str()) {
        Some(field) => field,
        None => {
            return None;
        },
    };
    let field_type = match analyzer.known_type(field.type_text.as_str()) {
        Some(info) => info,
        None => {
            return None;
        },
    };
    match field_type.find_variant(place.variant_name.as_str()) {
        Some(variant) => Some((variant, field_type.has_default)),
        None => None,
    }
}

/// The actions that add the required fields that variants in the fields of a document do not set,
/// from what is known of the document: the locations of the variants' fields.
pub fn variant_field_actions(
    type_info: &TypeInfo,
    analyzer: &RustAnalyzer,
    locations: &Vec<VariantFieldLocation>,
    uri: &str,
) -> (r: Vec<CodeAction>)
    ensures
        action_views(r@) == variant_actions_for(
            *type_info,
            analyzer.types(),
            analyzer.aliases(),
            location_views(locations@),
            locations@.len(),
            uri@,
        ),
{
    let mut actions: Vec<CodeAction> = Vec::new();
    assert(action_views(actions@) == Seq::<ActionModel>::empty());
    let ghost all = location_views(locations@);
    let mut i: usize = 0;
    while i < locations.len()
        invariant
            i <= locations@.len(),
            all == location_views(locations@),
            action_views(actions@) == variant_actions_for(
                *type_info,
                analyzer.types(),
                analyzer.aliases(),
                all,
                i as nat,
                uri@,
            ),
        decreases locations@.len() - i,
    {
        assert(all[i as int] == locations@[i as int]@);
        let location = &locations[i];
        if is_first_of_variant(locations, i) {
            if let Some((variant, has_default)) = find_variant_definition(
                location,
                type_info,
                analyzer,
            ) {
                let used = used_fields_at(locations, location);
                let missing = missing_fields(&variant.fields, &used);
                let required = required_fields(&missing, has_default);
                let mut place = " to ".to_owned();
                place.append(location.containing_field_name.as_str());
                place.append("::");
                place.append(location.variant_name.as_str());
                let title = titled("Add ", required.len(), " required field", place.as_str());
                let edit = insert_fields_at(
                    location.end_position,
                    location.has_fields,
                    &required,
                );
                push_insertion(&mut actions, Some(edit), &required, title, uri);
            }
        }
        i = i + 1;
    }
    actions
}

// ---------------------------------------------------------------------------
// Outside results
// ---------------------------------------------------------------------------

/// The text of the first group in the leftmost match of a regular expression in a text; `None`
/// where the pattern is no regular expression, where nothing matches, or where the group has no
/// part in the match.
pub uninterp spec fn regex_first_group(pattern: Seq<char>, haystack: Seq<char>) -> Option<
    Seq<char>,
>;

/// Calls `regex::Regex::new` on the pattern, `Regex::captures` on the text, and `Captures::get` on
/// the first group. The result is a function of the two texts alone; which texts a pattern matches
/// is left to the crate.
#[verifier::external_body]
fn first_group(pattern: &str, haystack: &str) -> (r: Option<String>)
    ensures
        opt_view(r) == regex_first_group(pattern@, haystack@),
{
    let expression = regex::Regex::new(pattern).ok()?;
    let captures = expression.captures(haystack)?;
    Some(captures.get(1)?.as_str().to_owned())
}

/// The serialization of the URL that a text is; `None` where the text is no absolute URL.
pub uninterp spec fn parsed_url(input: Seq<char>) -> Option<Seq<char>>;

/// Calls `tower_lsp::lsp_types::Url::parse` and, where it succeeds, takes the URL as a text with
/// `Url::to_string`. The result is a function of the text alone; which texts are URLs, and how they
/// are normalized, is left to the crate.
#[verifier::external_body]
fn parse_url(input: &str) -> (r: Option<String>)
    ensures
        opt_view(r) == parsed_url(input@),
{
    let url = tower_lsp::lsp_types::Url::parse(input).ok()?;
    Some(url.to_string())
}

/// The pattern of a path to a variant with an opening bracket behind it; its group is the name of
/// the variant.
pub open spec fn variant_pattern() -> Seq<char> {
    "\\w+::(\\w+)\\s*[\\(\\{]"@
}

/// The name of the first variant in a document that stands behind the path of its enum and before
/// an opening bracket.
pub fn detect_current_variant_in_content(content: &str) -> (r: Option<String>)
    ensures
        opt_view(r) == regex_first_group(variant_pattern(), content@),
{
    first_group("\\w+::(\\w+)\\s*[\\(\\{]", content)
}

// ---------------------------------------------------------------------------
// The actions of a document
// ---------------------------------------------------------------------------

fn parse_document(content: &str) -> (r: Option<SyntaxTree>)
    ensures
        match r {
            Some(tree) => ron_syntax(content@) == Some(tree@),
            None => ron_syntax(content@) is None,
        },
{
    let mut parser = RonParser::new();
    parser.parse(content)
}

/// The text that the edits of a document name it by: the URL that its name is, or its name where it
/// is none.
pub open spec fn url_of(uri: Seq<char>) -> Seq<char> {
    match parsed_url(uri) {
        Some(url) => url,
        None => uri,
    }
}

fn document_url(uri: &str) -> (r: String)
    ensures
        r@ == url_of(uri@),
{
    match parse_url(uri) {
        Some(url) => url,
        None => uri.to_owned(),
    }
}

/// Create action to make root-level struct name explicit.
/// Converts: `(field: value)` to `StructName(field: value)`
pub fn create_explicit_root_type_action(content: &str, type_info: &TypeInfo, uri: &str) -> (r:
    Option<CodeAction>)
    requires
        parsed_url(uri@) is Some || explicit_root(
            ron_syntax(content@),
            content@,
            type_info.name@,
            uri@,
        ) is None,
    ensures
        match r {
            Some(action) => parsed_url(uri@) is Some && explicit_root(
                ron_syntax(content@),
                content@,
                type_info.name@,
                parsed_url(uri@)->0,
            ) == Some(action@),
            None => explicit_root(
                ron_syntax(content@),
                content@,
                type_info.name@,
                url_of(uri@),
            ) is None,
        },
{
    let tree = parse_document(content);
    let url = document_url(uri);
    explicit_root_type_action(tree.as_ref(), content, type_info, url.as_str())
}

/// Create action to make nested field type explicit.
/// Converts: `foo: (value)` to `foo: TypeName(value)`
pub fn create_explicit_field_type_action(content: &str, field: &FieldInfo, uri: &str) -> (r: Option<
    CodeAction,
>)
    requires
        parsed_url(uri@) is Some || explicit_field(
            ron_syntax(content@),
            content@,
            *field,
            uri@,
        ) is None,
    ensures
        match r {
            Some(action) => parsed_url(uri@) is Some && explicit_field(
                ron_syntax(content@),
                content@,
                *field,
                parsed_url(uri@)->0,
            ) == Some(action@),
            None => explicit_field(ron_syntax(content@), content@, *field, url_of(uri@)) is None,
        },
{
    let tree = parse_document(content);
    let url = document_url(uri);
    explicit_field_type_action(tree.as_ref(), content, field, url.as_str())
}

/// Generate code actions for making implicit struct names explicit.
pub fn generate_explicit_type_actions(content: &str, type_info: &TypeInfo, uri: &str) -> (r: Vec<
    CodeAction,
>)
    requires
        parsed_url(uri@) is Some || explicit_actions(
            ron_syntax(content@),
            content@,
            *type_info,
            uri@,
        ).len() == 0,
    ensures
        action_views(r@) == explicit_actions(
            ron_syntax(content@),
            content@,
            *type_info,
            url_of(uri@),
        ),
{
    let ghost root = ron_syntax(content@);
    let mut actions: Vec<CodeAction> = Vec::new();
    if let Some(action) = create_explicit_root_type_action(content, type_info, uri) {
        actions.push(action);
    }
    let ghost first = opt_seq(explicit_root(root, content@, type_info.name@, url_of(uri@)));
    assert(action_views(actions@) == first);
    if let Some(fields) = type_info.fields() {
        let mut i: usize = 0;
        while i < fields.len()
            invariant
                i <= fields@.len(),
                root == ron_syntax(content@),
                parsed_url(uri@) is Some || explicit_fields(
                    root,
                    content@,
                    fields@,
                    fields@.len(),
                    uri@,
                ).len() == 0,
                action_views(actions@) == first + explicit_fields(
                    root,
                    content@,
                    fields@,
                    i as nat,
                    url_of(uri@),
                ),
            decreases fields@.len() - i,
        {
            let ghost before = actions@;
            proof {
                if parsed_url(uri@) is None {
                    lemma_no_explicit_field(
                        root,
                        content@,
                        fields@,
                        fields@.len(),
                        i as int,
                        uri@,
                    );
                }
            }
            if let Some(action) = create_explicit_field_type_action(content, &fields[i], uri) {
                actions.push(action);
                assert(action_views(actions@) == action_views(before).push(action@));
            }
            i = i + 1;
        }
    }
    actions
}

/// Where no field gets an action, each of them gets none.
proof fn lemma_no_explicit_field(
    root: Option<Syntax>,
    content: Seq<char>,
    fields: Seq<FieldInfo>,
    n: nat,
    i: int,
    uri: Seq<char>,
)
    requires
        explicit_fields(root, content, fields, n, uri).len() == 0,
        0 <= i < n <= fields.len(),
    ensures
        explicit_field(root, content, fields[i], uri) is None,
    decreases n,
{
    if i < n - 1 {
        lemma_no_explicit_field(root, content, fields, (n - 1) as nat, i, uri);
    }
}

fn fields_in(tree: Option<&SyntaxTree>, content: &str) -> (r: Vec<String>)
    ensures
        text::views(r@) == fields_of(opt_tree(tree), content@),
{
    match tree {
        Some(tree) => document_fields(tree, content),
        None => {
            let none: Vec<String> = Vec::new();
            assert(text::views(none@) == Seq::<Seq<char>>::empty());
            none
        },
    }
}

fn locations_in(tree: Option<&SyntaxTree>, content: &str) -> (r: Vec<VariantFieldLocation>)
    ensures
        location_views(r@) == locations_of(opt_tree(tree), content@),
{
    match tree {
        Some(tree) => variant_field_locations(tree, content),
        None => {
            let none: Vec<VariantFieldLocation> = Vec::new();
            assert(location_views(none@) == Seq::<LocationModel>::empty());
            none
        },
    }
}

/// Generate code actions for adding missing fields.
pub fn generate_missing_field_actions(
    content: &str,
    fields: &Vec<FieldInfo>,
    type_info: &TypeInfo,
    uri: &str,
) -> (r: Vec<CodeAction>)
    requires
        parsed_url(uri@) is Some || missing_field_actions_of(
            ron_syntax(content@),
            fields@,
            *type_info,
            regex_first_group(variant_pattern(), content@),
            fields_of(ron_syntax(content@), content@),
            uri@,
        ).len() == 0,
    ensures
        action_views(r@) == missing_field_actions_of(
            ron_syntax(content@),
            fields@,
            *type_info,
            regex_first_group(variant_pattern(), content@),
            fields_of(ron_syntax(content@), content@),
            url_of(uri@),
        ),
{
    let url = document_url(uri);
    let tree = parse_document(content);
    let used = fields_in(tree.as_ref(), content);
    let variant = detect_current_variant_in_content(content);
    let variant_name = match &variant {
        Some(name) => Some(name.as_str()),
        None => None,
    };
    missing_field_actions(tree.as_ref(), fields, type_info, variant_name, &used, url.as_str())
}

/// Generate code actions for adding missing fields in nested enum variants.
pub fn generate_missing_variant_field_actions(
    content: &str,
    type_info: &TypeInfo,
    uri: &str,
    analyzer: &RustAnalyzer,
) -> (r: Vec<CodeAction>)
    requires
        parsed_url(uri@) is Some || nested_variant_actions(
            ron_syntax(content@),
            content@,
            *type_info,
            analyzer.types(),
            analyzer.aliases(),
            uri@,
        ).len() == 0,
    ensures
        action_views(r@) == nested_variant_actions(
            ron_syntax(content@),
            content@,
            *type_info,
            analyzer.types(),
            analyzer.aliases(),
            url_of(uri@),
        ),
{
    let url = document_url(uri);
    let tree = parse_document(content);
    let locations = locations_in(tree.as_ref(), content);
    assert(location_views(locations@).len() == locations@.len());
    variant_field_actions(type_info, analyzer, &locations, url.as_str())
}

/// The actions that add missing fields of variants in the fields of a document.
pub open spec fn nested_variant_actions(
    root: Option<Syntax>,
    content: Seq<char>,
    type_info: TypeInfo,
    types: Seq<TypeInfo>,
    aliases: Seq<TypeAlias>,
    uri: Seq<char>,
) -> Seq<ActionModel> {
    let locations = locations_of(root, content);
    variant_actions_for(type_info, types, aliases, locations, locations.len(), uri)
}

/// The fields that a document of a type sets outside of variants: none of an enum.
pub open spec fn plain_fields(type_info: TypeInfo) -> Seq<FieldInfo> {
    match type_info.kind {
        TypeKind::Struct(fields) => fields@,
        TypeKind::Enum(_) => Seq::empty(),
    }
}

/// All code actions for a document, given its syntax tree and the variant found in its text.
pub open spec fn document_actions(
    root: Option<Syntax>,
    content: Seq<char>,
    variant: Option<Seq<char>>,
    type_info: TypeInfo,
    types: Seq<TypeInfo>,
    aliases: Seq<TypeAlias>,
    uri: Seq<char>,
) -> Seq<ActionModel> {
    explicit_actions(root, content, type_info, uri) + missing_field_actions_of(
        root,
        plain_fields(type_info),
        type_info,
        variant,
        fields_of(root, content),
        uri,
    ) + nested_variant_actions(root, content, type_info, types, aliases, uri)
}

/// All code actions for a document, from its syntax tree and the variant found in its text.
pub fn actions_for_document(
    tree: Option<&SyntaxTree>,
    content: &str,
    variant_name: Option<&str>,
    type_info: &TypeInfo,
    uri: &str,
    analyzer: &RustAnalyzer,
) -> (r: Vec<CodeAction>)
    ensures
        action_views(r@) == document_actions(
            opt_tree(tree),
            content@,
            match variant_name {
                Some(name) => Some(name@),
                None => None,
            },
            *type_info,
            analyzer.types(),
            analyzer.aliases(),
            uri@,
        ),
{
    let mut actions = explicit_type_actions(tree, content, type_info, uri);
    let ghost explicit = actions@;
    let used = fields_in(tree, content);
    let none: Vec<FieldInfo> = Vec::new();
    let fields = match &type_info.kind {
        TypeKind::Struct(fields) => fields,
        TypeKind::Enum(_) => &none,
    };
    assert(fields@ == plain_fields(*type_info));
    let mut missing = missing_field_actions(tree, fields, type_info, variant_name, &used, uri);
    let ghost added = missing@;
    actions.append(&mut missing);
    let locations = locations_in(tree, content);
    assert(location_views(locations@).len() == locations@.len());
    let mut nested = variant_field_actions(type_info, analyzer, &locations, uri);
    let ghost last = nested@;
    actions.append(&mut nested);
    assert(action_views(explicit + added + last) == action_views(explicit) + action_views(added)
        + action_views(last));
    actions
}

/// The actions of a document, under the URL that its edits name it by.
pub open spec fn actions_under(
    content: Seq<char>,
    type_info: TypeInfo,
    types: Seq<TypeInfo>,
    aliases: Seq<TypeAlias>,
    url: Seq<char>,
) -> Seq<ActionModel> {
    document_actions(
        ron_syntax(content),
        content,
        regex_first_group(variant_pattern(), content),
        type_info,
        types,
        aliases,
        url,
    )
}

/// Generate all code actions for a RON document, with the types that the analyzer knows. The edits
/// name the document by the URL that `uri` is; where it is none, there must be no action.
pub fn generate_code_actions(
    content: &str,
    type_info: &TypeInfo,
    uri: &str,
    analyzer: &RustAnalyzer,
) -> (r: Vec<CodeAction>)
    requires
        parsed_url(uri@) is Some || actions_under(
            content@,
            *type_info,
            analyzer.types(),
            analyzer.aliases(),
            uri@,
        ).len() == 0,
    ensures
        action_views(r@) == actions_under(
            content@,
            *type_info,
            analyzer.types(),
            analyzer.aliases(),
            url_of(uri@),
        ),
{
    let none: Vec<FieldInfo> = Vec::new();
    let fields = match &type_info.kind {
        TypeKind::Struct(fields) => fields,
        TypeKind::Enum(_) => &none,
    };
    assert(fields@ == plain_fields(*type_info));
    let mut actions = generate_explicit_type_actions(content, type_info, uri);
    let ghost explicit = actions@;
    let mut missing = generate_missing_field_actions(content, fields, type_info, uri);
    let ghost added = missing@;
    actions.append(&mut missing);
    let mut nested = generate_missing_variant_field_actions(content, type_info, uri, analyzer);
    let ghost last = nested@;
    actions.append(&mut nested);
    assert(action_views(explicit + added + last) == action_views(explicit) + action_views(added)
        + action_views(last));
    actions
}

/// Generate all code actions for a RON document; `None` where there are actions and `uri` is no
/// URL that their edits could name the document by.
pub fn try_generate_code_actions(
    content: &str,
    type_info: &TypeInfo,
    uri: &str,
    analyzer: &RustAnalyzer,
) -> (r: Option<Vec<CodeAction>>)
    ensures
        match r {
            Some(actions) => {
                &&& parsed_url(uri@) matches Some(url) ==> action_views(actions@) == actions_under(
                    content@,
                    *type_info,
                    analyzer.types(),
                    analyzer.aliases(),
                    url,
                )
                &&& parsed_url(uri@) is None ==> actions@.len() == 0
            },
            None => parsed_url(uri@) is None,
        },
        r is None <==> parsed_url(uri@) is None && actions_under(
            content@,
            *type_info,
            analyzer.types(),
            analyzer.aliases(),
            uri@,
        ).len() > 0,
{
    if parse_url(uri).is_none() {
        let tree = parse_document(content);
        let variant = detect_current_variant_in_content(content);
        let variant_name = match &variant {
            Some(name) => Some(name.as_str()),
            None => None,
        };
        let actions = actions_for_document(
            tree.as_ref(),
            content,
            variant_name,
            type_info,
            uri,
            analyzer,
        );
        assert(action_views(actions@).len() == actions@.len());
        if actions.len() > 0 {
            return None;
        }
    }
    let actions = generate_code_actions(content, type_info, uri, analyzer);
    assert(action_views(actions@).len() == actions@.len());
    Some(actions)
}

// ---------------------------------------------------------------------------
// Laws
// ---------------------------------------------------------------------------

/// Whether an action makes one insertion into one document, and replaces nothing.
pub open spec fn is_insertion(action: ActionModel, uri: Seq<char>) -> bool {
    match action.changes {
        Some(changes) => changes.len() == 1 && changes[0].uri == uri && changes[0].edits.len() == 1
            && changes[0].edits[0].range.start == changes[0].edits[0].range.end,
        None => false,
    }
}

/// Whether each action of a list makes one insertion into one document.
pub open spec fn are_insertions(actions: Seq<ActionModel>, uri: Seq<char>) -> bool {
    forall|i: int| 0 <= i < actions.len() ==> is_insertion(#[trigger] actions[i], uri)
}

proof fn lemma_explicit_fields(
    root: Option<Syntax>,
    content: Seq<char>,
    fields: Seq<FieldInfo>,
    n: nat,
    uri: Seq<char>,
)
    ensures
        are_insertions(explicit_fields(root, content, fields, n, uri), uri),
    decreases n,
{
    if n > 0 && n <= fields.len() {
        lemma_explicit_fields(root, content, fields, (n - 1) as nat, uri);
    }
}

proof fn lemma_variant_actions(
    type_info: TypeInfo,
    types: Seq<TypeInfo>,
    aliases: Seq<TypeAlias>,
    locations: Seq<LocationModel>,
    n: nat,
    uri: Seq<char>,
)
    ensures
        are_insertions(
            variant_actions_for(type_info, types, aliases, locations, n, uri),
            uri,
        ),
    decreases n,
{
    if n > 0 {
        lemma_variant_actions(type_info, types, aliases, locations, (n - 1) as nat, uri);
    }
}

/// Each code action inserts into the document that it is for, at one place, and replaces nothing.
pub proof fn lemma_actions_insert(
    root: Option<Syntax>,
    content: Seq<char>,
    variant: Option<Seq<char>>,
    type_info: TypeInfo,
    types: Seq<TypeInfo>,
    aliases: Seq<TypeAlias>,
    uri: Seq<char>,
)
    ensures
        are_insertions(
            document_actions(root, content, variant, type_info, types, aliases, uri),
            uri,
        ),
{
    if let TypeKind::Struct(fields) = type_info.kind {
        lemma_explicit_fields(root, content, fields@, fields@.len(), uri);
    }
    let locations = locations_of(root, content);
    lemma_variant_actions(type_info, types, aliases, locations, locations.len(), uri);
    assert(are_insertions(explicit_actions(root, content, type_info, uri), uri));
    assert(are_insertions(
        missing_field_actions_of(
            root,
            plain_fields(type_info),
            type_info,
            variant,
            fields_of(root, content),
            uri,
        ),
        uri,
    ));
}

/// The fields that are missing are those whose names are not used: no other, and all of them.
pub proof fn lemma_missing_fields(fields: Seq<FieldInfo>, used: Seq<Seq<char>>)
    ensures
        forall|i: int|
            0 <= i < missing_from(fields, used).len() ==> {
                let f = *#[trigger] missing_from(fields, used)[i];
                fields.contains(f) && !used.contains(f.name@)
            },
        forall|i: int|
            0 <= i < fields.len() && !used.contains((#[trigger] fields[i]).name@) ==> missing_from(
                fields,
                used,
            ).contains(&fields[i]),
{
    let wanted = |f: &FieldInfo| !used.contains(f.name@);
    let all = field_refs(fields);
    let missing = missing_from(fields, used);
    assert forall|i: int| 0 <= i < missing.len() implies {
        let f = *#[trigger] missing[i];
        fields.contains(f) && !used.contains(f.name@)
    } by {
        lemma_filter_in(all, wanted, i);
        let k = choose|k: int| 0 <= k < all.len() && all[k] == missing[i];
        assert(fields[k] == *missing[i]);
    }
    assert forall|i: int|
        0 <= i < fields.len() && !used.contains((#[trigger] fields[i]).name@) implies missing.contains(
        &fields[i],
    ) by {
        assert(all[i] == &fields[i]);
        lemma_filter_keeps(all, wanted, i);
    }
}

/// The required fields are those of the missing ones that a document may not leave out; a type with
/// a default has none.
pub proof fn lemma_required_fields(missing: Seq<&FieldInfo>, has_default: bool)
    ensures
        has_default ==> required_missing(missing, has_default).len() == 0,
        forall|i: int|
            0 <= i < required_missing(missing, has_default).len() ==> missing.contains(
                #[trigger] required_missing(missing, has_default)[i],
            ) && !required_missing(missing, has_default)[i].optional(),
        !has_default ==> forall|i: int|
            0 <= i < missing.len() && !(#[trigger] missing[i]).optional() ==> required_missing(
                missing,
                has_default,
            ).contains(missing[i]),
{
    let wanted = |f: &FieldInfo| !f.optional();
    if !has_default {
        assert forall|i: int| 0 <= i < required_of(missing).len() implies missing.contains(
            #[trigger] required_of(missing)[i],
        ) && !required_of(missing)[i].optional() by {
            lemma_filter_in(missing, wanted, i);
        }
        assert forall|i: int|
            0 <= i < missing.len() && !(#[trigger] missing[i]).optional() implies required_of(
            missing,
        ).contains(missing[i]) by {
            lemma_filter_keeps(missing, wanted, i);
        }
    }
}

/// A document that sets all fields gets no action that adds fields.
pub proof fn lemma_complete_document(
    root: Option<Syntax>,
    fields: Seq<FieldInfo>,
    used: Seq<Seq<char>>,
    has_default: bool,
    place: Seq<char>,
    uri: Seq<char>,
)
    requires
        forall|i: int| 0 <= i < fields.len() ==> used.contains((#[trigger] fields[i]).name@),
    ensures
        add_field_actions(root, fields, used, has_default, place, uri).len() == 0,
{
    lemma_missing_fields(fields, used);
    let missing = missing_from(fields, used);
    if missing.len() > 0 {
        let f = *missing[0];
        let k = choose|k: int| 0 <= k < fields.len() && fields[k] == f;
        assert(used.contains(fields[k].name@));
        assert(false);
    }
    lemma_required_fields(missing, has_default);
    let required = required_missing(missing, has_default);
    if required.len() > 0 {
        assert(missing.contains(required[0]));
        assert(false);
    }
}

/// A struct that has a name gets no action that names it, and one without a name gets one that
/// writes the last segment of the type's path before it.
pub proof fn lemma_explicit_root(
    root: Syntax,
    value: Syntax,
    content: Seq<char>,
    path: Seq<char>,
    uri: Seq<char>,
)
    requires
        ts_utils::main_value_of(root) == Some(value),
        value.kind == "struct"@,
    ensures
        explicit_root(Some(root), content, path, uri) is None <==> ts_utils::struct_name_of(
            value,
            content,
        ) is Some,
        explicit_root(Some(root), content, path, uri) matches Some(action) ==> is_insertion(
            action,
            uri,
        ) && action.changes->0[0].edits[0] == insert_before(value, text::last_segment(path)),
{
}

/// An `Option` around a path is not part of the name that stands for the type in a document, and
/// neither is what stands before the last segment of the path. The angle brackets in the path, if
/// there are any, close what they open.
pub proof fn lemma_explicit_name_of_option(path: Seq<char>)
    requires
        !path.contains(' '),
        forall|i: int| 0 <= i <= path.len() ==> #[trigger] nesting(path, i) >= 0,
        nesting(path, path.len() as int) == 0,
    ensures
        explicit_name("Option<"@ + path + ">"@) == text::last_segment(path),
{
    reveal_strlit("Option<");
    reveal_strlit("Option");
    reveal_strlit(">");
    let s = "Option<"@ + path + ">"@;
    let n = s.len() as int;
    assert forall|k: int| 0 <= k < n implies s[k] != ' ' by {
        if 7 <= k < n - 1 {
            assert(s[k] == path[k - 7]);
        }
    }
    assert(s.take(6) == "Option"@);
    assert(s.take(7) == "Option<"@);
    assert(s.subrange(7, n - 1) == path);
    lemma_option_around(s, path);
    // The last segment ends in the closing bracket.
    text::lemma_last_segment_of_rest("Option<"@, path + ">"@);
    text::lemma_last_segment_of_start(path, ">"@);
    assert("Option<"@ + (path + ">"@) == s);
    text::lemma_last_segment_is_suffix(path);
    if text::find_from(path, text::path_separator(), 0) is Some {
        assert(text::last_segment(s) == text::last_segment(path) + ">"@);
        assert(text::last_segment(path) + ">"@ == text::last_segment(path).push('>'));
    } else {
        assert(text::last_segment(s) == s);
    }
    lemma_name_in_option(s, path);
}

/// The name of a type with an `Option` around it, from the last segment.
proof fn lemma_name_in_option(s: Seq<char>, path: Seq<char>)
    requires
        s.len() == path.len() + 8,
        s.take(7) == "Option<"@,
        s.subrange(7, s.len() - 1) == path,
        s.last() == '>',
        forall|k: int| 0 <= k < s.len() ==> s[k] != ' ',
        option_around(s) == Some(6int),
        (text::last_segment(s) == s && text::last_segment(path) == path) || (text::last_segment(
            s,
        ).len() <= path.len() && text::last_segment(s) == text::last_segment(path).push('>')),
    ensures
        explicit_name(s) == text::last_segment(path),
{
    let name = text::last_segment(s);
    text::lemma_nothing_removed(s);
    text::lemma_last_segment_is_suffix(s);
    assert forall|k: int| 0 <= k < name.len() implies name[k] != ' ' by {
        assert(name[k] == s[s.len() - name.len() + k]);
    }
    text::lemma_nothing_removed(name);
    if name != s {
        assert(name.drop_last() == text::last_segment(path));
    }
}

/// An `Option` around a path is found.
proof fn lemma_option_around(s: Seq<char>, path: Seq<char>)
    requires
        s.len() == path.len() + 8,
        s.take(6) == "Option"@,
        s[6] == '<',
        s.subrange(7, s.len() - 1) == path,
        s.last() == '>',
        forall|i: int| 0 <= i <= path.len() ==> #[trigger] nesting(path, i) >= 0,
        nesting(path, path.len() as int) == 0,
    ensures
        option_around(s) == Some(6int),
{
    reveal_strlit("Option");
    let head = s.take(6);
    assert forall|k: int| 0 <= k < 6 implies s[k] != '<' && s[k] != '>' by {
        assert(s[k] == head[k]);
    }
    assert forall|k: int| 0 <= k < 6 implies head[k] != ':' && text::alphanumeric_char(
        #[trigger] head[k],
    ) by {}
    text::lemma_find_char_at(s, '<', 0, 6);
    lemma_single_segment(head);
    assert forall|i: int| 6 < i < s.len() implies #[trigger] nesting(s, i) > 0 by {
        lemma_nesting_inside(s, path, i - 7);
        assert(nesting(path, i - 7) >= 0);
    }
    lemma_nesting_inside(s, path, path.len() as int);
}

/// Inside the first bracket of a text one bracket more is open.
proof fn lemma_nesting_inside(s: Seq<char>, path: Seq<char>, i: int)
    requires
        s.len() == path.len() + 8,
        s[6] == '<',
        forall|k: int| 0 <= k < 6 ==> s[k] != '<' && s[k] != '>',
        s.subrange(7, s.len() - 1) == path,
        0 <= i <= path.len(),
    ensures
        nesting(s, 7 + i) == 1 + nesting(path, i),
    decreases i,
{
    if i > 0 {
        lemma_nesting_inside(s, path, i - 1);
        assert(path[i - 1] == s[7 + i - 1]);
    } else {
        lemma_nesting_before(s, 6, 6);
    }
}

proof fn lemma_single_segment(s: Seq<char>)
    requires
        forall|k: int| 0 <= k < s.len() ==> s[k] != ':',
    ensures
        text::last_segment(s) == s,
{
    let sep = text::path_separator();
    text::lemma_find_from(s, sep, 0);
    if let Some(i) = text::find_from(s, sep, 0) {
        assert(s.subrange(i, i + sep.len())[0] == s[i]);
        assert(sep[0] == ':');
        assert(false);
    }
}

/// How many variants of fields the first `n` locations are in.
pub open spec fn variant_count(locations: Seq<LocationModel>, n: nat) -> nat
    decreases n,
{
    if n == 0 {
        0
    } else {
        variant_count(locations, (n - 1) as nat) + if first_of_variant(locations, n - 1) {
            1nat
        } else {
            0nat
        }
    }
}

/// Each variant of each field gets one action at most, however many of its fields are set.
pub proof fn lemma_one_action_per_variant(
    type_info: TypeInfo,
    types: Seq<TypeInfo>,
    aliases: Seq<TypeAlias>,
    locations: Seq<LocationModel>,
    n: nat,
    uri: Seq<char>,
)
    ensures
        variant_actions_for(type_info, types, aliases, locations, n, uri).len()
            <= variant_count(locations, n),
    decreases n,
{
    if n > 0 {
        lemma_one_action_per_variant(
            type_info,
            types,
            aliases,
            locations,
            (n - 1) as nat,
            uri,
        );
    }
}

} // verus!
