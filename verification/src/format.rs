//! The layout of RON documents.

use crate::annotation_parser;
use crate::syntax::{node_views, ron_syntax, RonParser, Syntax, SyntaxNode, SyntaxTree};
use crate::text;
use crate::ts_utils;
use vstd::prelude::*;
use vstd::string::StrSliceExecFns;
use vstd::string::StringExecFns;

verus! {

// ---------------------------------------------------------------------------
// The layout
// ---------------------------------------------------------------------------

/// The layout of a node: `indent` is the indentation of the line that the node begins on, and
/// `unit` the indentation that each level adds.
pub open spec fn layout(node: Syntax, content: Seq<char>, indent: Seq<char>, unit: Seq<char>) -> Seq<
    char,
>
    decreases node, 3int, 0nat,
{
    if node.kind == "struct"@ {
        layout_struct(node, content, indent, unit)
    } else if node.kind == "array"@ {
        layout_array(node, content, indent, unit)
    } else if node.kind == "map"@ {
        layout_map(node, content, indent, unit)
    } else if node.kind == "tuple"@ {
        layout_tuple(node, content, indent, unit)
    } else if node.kind == "field"@ {
        layout_field(node, content, indent, unit)
    } else {
        own_text(node, content)
    }
}

/// The text of a node as it stands; nothing where it has none.
pub open spec fn own_text(node: Syntax, content: Seq<char>) -> Seq<char> {
    match ts_utils::text_of(node, content) {
        Some(text) => text,
        None => Seq::empty(),
    }
}

/// The layout of a child of a node.
pub open spec fn layout_child(
    node: Syntax,
    child: Syntax,
    content: Seq<char>,
    indent: Seq<char>,
    unit: Seq<char>,
) -> Seq<char>
    decreases node, 0int, 0nat,
{
    if node.children.contains(child) {
        layout(child, content, indent, unit)
    } else {
        Seq::empty()
    }
}

/// The first `n` of the items of a node, each on a line of its own, indented and followed by a
/// comma.
pub open spec fn item_lines(
    node: Syntax,
    items: Seq<Syntax>,
    n: nat,
    content: Seq<char>,
    indent: Seq<char>,
    unit: Seq<char>,
) -> Seq<char>
    decreases node, 1int, n,
{
    if n == 0 || n > items.len() {
        Seq::empty()
    } else {
        item_lines(node, items, (n - 1) as nat, content, indent, unit) + indent + layout_child(
            node,
            items[n - 1],
            content,
            indent,
            unit,
        ) + seq![',', '\n']
    }
}

/// The first `n` of the items of a node, each on a line of its own, indented, with commas between
/// them.
pub open spec fn item_rows(
    node: Syntax,
    items: Seq<Syntax>,
    n: nat,
    content: Seq<char>,
    indent: Seq<char>,
    unit: Seq<char>,
) -> Seq<char>
    decreases node, 1int, n,
{
    if n == 0 || n > items.len() {
        Seq::empty()
    } else {
        item_rows(node, items, (n - 1) as nat, content, indent, unit) + (if n > 1 {
            seq![',', '\n']
        } else {
            Seq::empty()
        }) + indent + layout_child(node, items[n - 1], content, indent, unit)
    }
}

/// What stands between the parentheses of a struct: its fields, one to a line; without fields its
/// values, a single one on the same line and more one to a line.
pub open spec fn struct_body(
    node: Syntax,
    content: Seq<char>,
    indent: Seq<char>,
    unit: Seq<char>,
) -> Seq<char>
    decreases node, 2int, 0nat,
{
    let fields = ts_utils::named_fields_of(node);
    let values = ts_utils::values_of(node, content);
    let inner = indent + unit;
    if fields.len() > 0 {
        seq!['\n'] + item_lines(node, fields, fields.len(), content, inner, unit) + indent
    } else if values.len() == 1 {
        layout_child(node, values[0], content, inner, unit)
    } else if values.len() > 1 {
        seq!['\n'] + item_rows(node, values, values.len(), content, inner, unit) + seq!['\n']
            + indent
    } else {
        Seq::empty()
    }
}

/// A struct: its name, if it has one, and in parentheses its fields or values.
pub open spec fn layout_struct(
    node: Syntax,
    content: Seq<char>,
    indent: Seq<char>,
    unit: Seq<char>,
) -> Seq<char>
    decreases node, 2int, 1nat,
{
    (match ts_utils::struct_name_of(node, content) {
        Some(name) => name,
        None => Seq::empty(),
    }) + if ts_utils::is_empty_of(node) {
        seq!['(', ')']
    } else {
        seq!['('] + struct_body(node, content, indent, unit) + seq![')']
    }
}

/// A field: its name, a colon and its value.
pub open spec fn layout_field(
    node: Syntax,
    content: Seq<char>,
    indent: Seq<char>,
    unit: Seq<char>,
) -> Seq<char>
    decreases node, 2int, 0nat,
{
    (match ts_utils::field_name_of(node, content) {
        Some(name) => name + seq![':', ' '],
        None => Seq::empty(),
    }) + (match ts_utils::field_value_of(node) {
        Some(value) => layout_child(node, value, content, indent, unit),
        None => Seq::empty(),
    })
}

/// An array: its elements, one to a line.
pub open spec fn layout_array(
    node: Syntax,
    content: Seq<char>,
    indent: Seq<char>,
    unit: Seq<char>,
) -> Seq<char>
    decreases node, 2int, 0nat,
{
    let elements = ts_utils::named_children_of(node);
    if ts_utils::is_empty_of(node) {
        seq!['[', ']']
    } else if elements.len() > 0 {
        seq!['[', '\n'] + item_lines(node, elements, elements.len(), content, indent + unit, unit)
            + indent + seq![']']
    } else {
        seq!['[', ']']
    }
}

/// An entry of a map: key, colon and value; nothing where one of the two is missing.
pub open spec fn layout_entry(
    entry: Syntax,
    content: Seq<char>,
    indent: Seq<char>,
    unit: Seq<char>,
) -> Seq<char>
    decreases entry, 2int, 0nat,
{
    let parts = ts_utils::named_children_of(entry);
    if parts.len() >= 2 {
        layout_child(entry, parts[0], content, indent, unit) + seq![':', ' '] + layout_child(
            entry,
            parts[1],
            content,
            indent,
            unit,
        )
    } else {
        Seq::empty()
    }
}

/// The first `n` of the entries of a map, each on a line of its own, indented and followed by a
/// comma.
pub open spec fn entry_lines(
    node: Syntax,
    entries: Seq<Syntax>,
    n: nat,
    content: Seq<char>,
    indent: Seq<char>,
    unit: Seq<char>,
) -> Seq<char>
    decreases node, 1int, n,
{
    if n == 0 || n > entries.len() {
        Seq::empty()
    } else {
        entry_lines(node, entries, (n - 1) as nat, content, indent, unit) + indent + (
        if node.children.contains(entries[n - 1]) {
            layout_entry(entries[n - 1], content, indent, unit)
        } else {
            Seq::empty()
        }) + seq![',', '\n']
    }
}

/// A map: its entries, one to a line.
pub open spec fn layout_map(
    node: Syntax,
    content: Seq<char>,
    indent: Seq<char>,
    unit: Seq<char>,
) -> Seq<char>
    decreases node, 2int, 0nat,
{
    let entries = ts_utils::children_of_kind(node, "map_entry"@);
    if ts_utils::is_empty_of(node) {
        seq!['{', '}']
    } else if entries.len() > 0 {
        seq!['{', '\n'] + entry_lines(node, entries, entries.len(), content, indent + unit, unit)
            + indent + seq!['}']
    } else {
        seq!['{', '}']
    }
}

/// A tuple: its elements, one to a line.
pub open spec fn layout_tuple(
    node: Syntax,
    content: Seq<char>,
    indent: Seq<char>,
    unit: Seq<char>,
) -> Seq<char>
    decreases node, 2int, 0nat,
{
    let elements = ts_utils::named_children_of(node);
    if elements.len() > 0 {
        seq!['(', '\n'] + item_lines(node, elements, elements.len(), content, indent + unit, unit)
            + indent + seq![')']
    } else {
        seq!['(', ')']
    }
}

// ---------------------------------------------------------------------------
// Writing it
// ---------------------------------------------------------------------------

/// A list of nodes taken out of the children of a node.
pub proof fn lemma_taken_from_children(children: Seq<Syntax>, p: spec_fn(Syntax) -> bool)
    ensures
        forall|i: int|
            0 <= i < children.filter(p).len() ==> children.contains(
                #[trigger] children.filter(p)[i],
            ),
    decreases children.len(),
{
    reveal(Seq::filter);
    if children.len() > 0 {
        lemma_taken_from_children(children.drop_last(), p);
        assert forall|i: int| 0 <= i < children.filter(p).len() implies children.contains(
            #[trigger] children.filter(p)[i],
        ) by {
            let rest = children.drop_last().filter(p);
            if i < rest.len() {
                let k = choose|k: int|
                    0 <= k < children.drop_last().len() && children.drop_last()[k] == rest[i];
                assert(children[k] == rest[i]);
            } else {
                assert(children[children.len() - 1] == children.last());
            }
        }
    }
}

/// The values of a struct are children of it.
pub proof fn lemma_values_from_children(children: Seq<Syntax>, skip: bool)
    ensures
        forall|i: int|
            0 <= i < ts_utils::values_among(children, skip).len() ==> children.contains(
                #[trigger] ts_utils::values_among(children, skip)[i],
            ),
    decreases children.len(),
{
    if children.len() > 0 {
        let rest = children.skip(1);
        lemma_values_from_children(rest, skip);
        lemma_values_from_children(rest, false);
        let values = ts_utils::values_among(children, skip);
        let first = children[0];
        let own = first.named && first.kind != "field"@ && !(skip && first.kind == "identifier"@);
        assert forall|i: int| 0 <= i < values.len() implies children.contains(
            #[trigger] values[i],
        ) by {
            if own && i == 0 {
                assert(children[0] == values[i]);
            } else {
                assert(rest.contains(values[i])) by {
                    if own {
                        assert(values[i] == ts_utils::values_among(rest, skip)[i - 1]);
                    } else if first.named && first.kind != "field"@ {
                        assert(values[i] == ts_utils::values_among(rest, false)[i]);
                    } else {
                        assert(values[i] == ts_utils::values_among(rest, skip)[i]);
                    }
                }
                let k = choose|k: int| 0 <= k < rest.len() && rest[k] == values[i];
                assert(children[k + 1] == values[i]);
            }
        }
    }
}

/// The value of a field is a child of it.
pub proof fn lemma_field_value_is_child(node: Syntax)
    ensures
        ts_utils::field_value_of(node) matches Some(value) ==> node.children.contains(value),
{
    ts_utils::lemma_field_value_index(node);
    if let Some(i) = ts_utils::field_value_index(node) {
        assert(node.children[i] == node.children[i]);
    }
}

/// Appends the layout of a node.
pub fn format_node(
    node: &SyntaxNode,
    content: &str,
    output: &mut String,
    indent: &str,
    indent_str: &str,
)
    ensures
        final(output)@ == old(output)@ + layout(node@, content@, indent@, indent_str@),
    decreases node@, 3int, 0int,
{
    if ts_utils::is_kind(node, "struct") {
        format_struct(node, content, output, indent, indent_str);
    } else if ts_utils::is_kind(node, "array") {
        format_array(node, content, output, indent, indent_str);
    } else if ts_utils::is_kind(node, "map") {
        format_map(node, content, output, indent, indent_str);
    } else if ts_utils::is_kind(node, "tuple") {
        format_tuple(node, content, output, indent, indent_str);
    } else if ts_utils::is_kind(node, "field") {
        format_field(node, content, output, indent, indent_str);
    } else {
        if let Some(text) = ts_utils::node_text(node, content) {
            output.append(text);
        }
    }
}

/// Appends items of a node, each on a line of its own, indented and followed by a comma.
fn format_lines(
    node: &SyntaxNode,
    items: &Vec<&SyntaxNode>,
    content: &str,
    output: &mut String,
    indent: &str,
    indent_str: &str,
)
    requires
        forall|i: int|
            0 <= i < items@.len() ==> node@.children.contains(#[trigger] node_views(items@)[i]),
    ensures
        final(output)@ == old(output)@ + item_lines(
            node@,
            node_views(items@),
            items@.len(),
            content@,
            indent@,
            indent_str@,
        ),
    decreases node@, 1int, 0int,
{
    let mut i: usize = 0;
    while i < items.len()
        invariant
            i <= items@.len(),
            forall|k: int|
                0 <= k < items@.len() ==> node@.children.contains(#[trigger] node_views(items@)[k]),
            output@ == old(output)@ + item_lines(
                node@,
                node_views(items@),
                i as nat,
                content@,
                indent@,
                indent_str@,
            ),
        decreases items@.len() - i,
    {
        let item = items[i];
        assert(node_views(items@)[i as int] == item@);
        assert(node@.children.contains(item@));
        assert(layout_child(node@, item@, content@, indent@, indent_str@) == layout(
            item@,
            content@,
            indent@,
            indent_str@,
        ));
        output.append(indent);
        format_node(item, content, output, indent, indent_str);
        output.push(',');
        output.push('\n');
        i = i + 1;
    }
}

/// Appends items of a node, each on a line of its own, indented, with commas between them.
fn format_rows(
    node: &SyntaxNode,
    items: &Vec<&SyntaxNode>,
    content: &str,
    output: &mut String,
    indent: &str,
    indent_str: &str,
)
    requires
        forall|i: int|
            0 <= i < items@.len() ==> node@.children.contains(#[trigger] node_views(items@)[i]),
    ensures
        final(output)@ == old(output)@ + item_rows(
            node@,
            node_views(items@),
            items@.len(),
            content@,
            indent@,
            indent_str@,
        ),
    decreases node@, 1int, 0int,
{
    let mut i: usize = 0;
    while i < items.len()
        invariant
            i <= items@.len(),
            forall|k: int|
                0 <= k < items@.len() ==> node@.children.contains(#[trigger] node_views(items@)[k]),
            output@ == old(output)@ + item_rows(
                node@,
                node_views(items@),
                i as nat,
                content@,
                indent@,
                indent_str@,
            ),
        decreases items@.len() - i,
    {
        let item = items[i];
        assert(node_views(items@)[i as int] == item@);
        assert(node@.children.contains(item@));
        assert(layout_child(node@, item@, content@, indent@, indent_str@) == layout(
            item@,
            content@,
            indent@,
            indent_str@,
        ));
        if i > 0 {
            output.push(',');
            output.push('\n');
        }
        output.append(indent);
        format_node(item, content, output, indent, indent_str);
        i = i + 1;
    }
}

/// Appends what stands between the parentheses of a struct that is not empty.
fn format_struct_body(
    node: &SyntaxNode,
    content: &str,
    output: &mut String,
    indent: &str,
    indent_str: &str,
)
    requires
        node@.kind == "struct"@,
    ensures
        final(output)@ == old(output)@ + struct_body(node@, content@, indent@, indent_str@),
    decreases node@, 2int, 0int,
{
    let fields = ts_utils::struct_named_fields(node);
    let values = ts_utils::struct_values(node, content);
    proof {
        assert(node_views(fields@).len() == fields@.len());
        assert(node_views(values@).len() == values@.len());
        lemma_taken_from_children(node@.children, |c: Syntax| c.kind == "field"@);
        lemma_values_from_children(
            node@.children,
            ts_utils::struct_name_of(node@, content@) is Some,
        );
    }
    let mut inner = String::new();
    inner.append(indent);
    inner.append(indent_str);
    if fields.len() > 0 {
        output.push('\n');
        format_lines(node, &fields, content, output, inner.as_str(), indent_str);
        output.append(indent);
    } else if values.len() == 1 {
        assert(node_views(values@)[0] == values@[0]@);
        assert(node@.children.contains(values@[0]@));
        format_node(values[0], content, output, inner.as_str(), indent_str);
    } else if values.len() > 1 {
        output.push('\n');
        format_rows(node, &values, content, output, inner.as_str(), indent_str);
        output.push('\n');
        output.append(indent);
    }
}

/// Appends the layout of a struct.
fn format_struct(
    node: &SyntaxNode,
    content: &str,
    output: &mut String,
    indent: &str,
    indent_str: &str,
)
    requires
        node@.kind == "struct"@,
    ensures
        final(output)@ == old(output)@ + layout_struct(node@, content@, indent@, indent_str@),
    decreases node@, 2int, 1int,
{
    if let Some(name) = ts_utils::struct_name(node, content) {
        output.append(name);
    }
    if ts_utils::is_empty_structure(node, content) {
        output.push('(');
        output.push(')');
    } else {
        output.push('(');
        format_struct_body(node, content, output, indent, indent_str);
        output.push(')');
    }
}

/// Appends the layout of a field.
fn format_field(
    node: &SyntaxNode,
    content: &str,
    output: &mut String,
    indent: &str,
    indent_str: &str,
)
    ensures
        final(output)@ == old(output)@ + layout_field(node@, content@, indent@, indent_str@),
    decreases node@, 2int, 0int,
{
    if let Some(name) = ts_utils::field_name(node, content) {
        output.append(name);
        output.push(':');
        output.push(' ');
    }
    proof {
        lemma_field_value_is_child(node@);
    }
    if let Some(value) = ts_utils::field_value(node) {
        format_node(value, content, output, indent, indent_str);
    }
}

/// Appends the layout of an array.
fn format_array(
    node: &SyntaxNode,
    content: &str,
    output: &mut String,
    indent: &str,
    indent_str: &str,
)
    ensures
        final(output)@ == old(output)@ + layout_array(node@, content@, indent@, indent_str@),
    decreases node@, 2int, 0int,
{
    if ts_utils::is_empty_structure(node, content) {
        output.push('[');
        output.push(']');
        return ;
    }
    output.push('[');
    let elements = ts_utils::named_children(node);
    proof {
        assert(node_views(elements@).len() == elements@.len());
        lemma_taken_from_children(node@.children, |c: Syntax| c.named);
    }
    if elements.len() > 0 {
        output.push('\n');
        let mut inner = String::new();
        inner.append(indent);
        inner.append(indent_str);
        format_lines(node, &elements, content, output, inner.as_str(), indent_str);
        output.append(indent);
    }
    output.push(']');
}

/// Appends the layout of an entry of a map.
fn format_entry(
    entry: &SyntaxNode,
    content: &str,
    output: &mut String,
    indent: &str,
    indent_str: &str,
)
    ensures
        final(output)@ == old(output)@ + layout_entry(entry@, content@, indent@, indent_str@),
    decreases entry@, 2int, 0int,
{
    let children = ts_utils::named_children(entry);
    proof {
        assert(node_views(children@).len() == children@.len());
        lemma_taken_from_children(entry@.children, |c: Syntax| c.named);
    }
    if children.len() >= 2 {
        assert(node_views(children@)[0] == children@[0]@);
        assert(node_views(children@)[1] == children@[1]@);
        format_node(children[0], content, output, indent, indent_str);
        output.push(':');
        output.push(' ');
        format_node(children[1], content, output, indent, indent_str);
    }
}

/// Appends the layout of a map.
fn format_map(
    node: &SyntaxNode,
    content: &str,
    output: &mut String,
    indent: &str,
    indent_str: &str,
)
    ensures
        final(output)@ == old(output)@ + layout_map(node@, content@, indent@, indent_str@),
    decreases node@, 2int, 0int,
{
    if ts_utils::is_empty_structure(node, content) {
        output.push('{');
        output.push('}');
        return ;
    }
    output.push('{');
    let entries = ts_utils::children_by_kind(node, "map_entry");
    proof {
        assert(node_views(entries@).len() == entries@.len());
        lemma_taken_from_children(node@.children, |c: Syntax| c.kind == "map_entry"@);
    }
    if entries.len() > 0 {
        output.push('\n');
        let mut inner = String::new();
        inner.append(indent);
        inner.append(indent_str);
        let ghost started = output@;
        let mut i: usize = 0;
        while i < entries.len()
            invariant
                i <= entries@.len(),
                inner@ == indent@ + indent_str@,
                forall|k: int|
                    0 <= k < entries@.len() ==> node@.children.contains(
                        #[trigger] node_views(entries@)[k],
                    ),
                output@ == started + entry_lines(
                    node@,
                    node_views(entries@),
                    i as nat,
                    content@,
                    inner@,
                    indent_str@,
                ),
            decreases entries@.len() - i,
        {
            let entry = entries[i];
            assert(node_views(entries@)[i as int] == entry@);
            assert(node@.children.contains(entry@));
            output.append(inner.as_str());
            format_entry(entry, content, output, inner.as_str(), indent_str);
            output.push(',');
            output.push('\n');
            i = i + 1;
        }
        output.append(indent);
    }
    output.push('}');
}

/// Appends the layout of a tuple.
fn format_tuple(
    node: &SyntaxNode,
    content: &str,
    output: &mut String,
    indent: &str,
    indent_str: &str,
)
    ensures
        final(output)@ == old(output)@ + layout_tuple(node@, content@, indent@, indent_str@),
    decreases node@, 2int, 0int,
{
    output.push('(');
    let elements = ts_utils::named_children(node);
    proof {
        assert(node_views(elements@).len() == elements@.len());
        lemma_taken_from_children(node@.children, |c: Syntax| c.named);
    }
    if elements.len() > 0 {
        output.push('\n');
        let mut inner = String::new();
        inner.append(indent);
        inner.append(indent_str);
        format_lines(node, &elements, content, output, inner.as_str(), indent_str);
        output.append(indent);
    }
    output.push(')');
}

// ---------------------------------------------------------------------------
// Documents
// ---------------------------------------------------------------------------

/// The part of a document that is laid out: what follows the first comment of a document that
/// begins with one, and the whole of any other document.
pub open spec fn body_of(content: Seq<char>) -> Seq<char> {
    if seq!['/', '*'].is_prefix_of(text::trimmed_start(content)) {
        match text::find_from(content, seq!['*', '/'], 0) {
            Some(end) => content.skip(end + 2),
            None => content,
        }
    } else {
        content
    }
}

/// The lines that a type annotation takes at the head of a document.
pub open spec fn annotation_head(annotation: Option<Seq<char>>) -> Seq<char> {
    match annotation {
        Some(name) => "/* @["@ + name + "] */\n\n"@,
        None => Seq::empty(),
    }
}

/// The layout of a document: its annotation, and below it its main value.
pub open spec fn document_layout(annotation: Option<Seq<char>>, body: Seq<char>, root: Syntax) -> Seq<
    char,
> {
    text::trimmed_end(
        annotation_head(annotation) + match ts_utils::main_value_of(root) {
            Some(value) => layout(value, body, Seq::empty(), "    "@),
            None => Seq::empty(),
        },
    )
}

/// The layout of a document whose body has the given syntax tree; the document itself where the
/// body has none.
pub open spec fn formatted(content: Seq<char>, root: Option<Syntax>) -> Seq<char> {
    match root {
        Some(root) => document_layout(
            annotation_parser::type_annotation(content),
            body_of(content),
            root,
        ),
        None => content,
    }
}

/// The part of a document that is laid out: without the comment that it begins with.
pub fn document_body(content: &str) -> (r: &str)
    ensures
        r@ == body_of(content@),
{
    proof {
        reveal_strlit("/*");
        assert("/*"@ == seq!['/', '*']);
    }
    if text::starts_with(text::trim_start(content), "/*") {
        let chars = text::to_chars(content);
        let mut close: Vec<char> = Vec::new();
        close.push('*');
        close.push('/');
        assert(close@ == seq!['*', '/']);
        match text::find(&chars, &close, 0) {
            Some(end) => {
                let total: usize = chars.len();
                assert(end + 2 <= total);
                assert(content@.skip(end + 2) == content@.subrange(
                    end + 2,
                    content@.len() as int,
                ));
                content.substring_char(end + 2, total)
            },
            None => content,
        }
    } else {
        content
    }
}

/// The layout of a document from its annotation and the syntax tree of its body.
pub fn format_document(annotation: Option<&str>, body: &str, tree: &SyntaxTree) -> (r: String)
    ensures
        r@ == document_layout(
            match annotation {
                Some(name) => Some(name@),
                None => None,
            },
            body@,
            tree@,
        ),
{
    let mut result = String::new();
    if let Some(name) = annotation {
        result.append("/* @[");
        result.append(name);
        result.append("] */\n\n");
    }
    if let Some(main_value) = ts_utils::find_main_value(tree) {
        proof {
            reveal_strlit("");
            assert(""@ == Seq::<char>::empty());
        }
        format_node(main_value, body, &mut result, "", "    ");
    }
    text::trim_end(result.as_str()).to_owned()
}

/// Lays out a RON document: four spaces to a level, the type annotation first.
pub fn format_ron(content: &str) -> (r: String)
    ensures
        r@ == formatted(content@, ron_syntax(body_of(content@))),
{
    let body = document_body(content);
    let mut parser = RonParser::new();
    match parser.parse(body) {
        Some(tree) => match annotation_parser::parse_type_annotation(content) {
            Some(name) => format_document(Some(name.as_str()), body, &tree),
            None => format_document(None, body, &tree),
        },
        None => content.to_owned(),
    }
}

// ---------------------------------------------------------------------------
// Laws
// ---------------------------------------------------------------------------

/// Formatting keeps the type annotation of a document, whatever the syntax tree of its body is.
pub proof fn lemma_formatting_keeps_annotation(content: Seq<char>, root: Option<Syntax>)
    requires
        annotation_parser::type_annotation(content) is Some,
    ensures
        annotation_parser::type_annotation(formatted(content, root))
            == annotation_parser::type_annotation(content),
{
    if let Some(root) = root {
        let name = annotation_parser::type_annotation(content)->0;
        annotation_parser::lemma_annotation_name(content, 0);
        let head = seq!['/', '*', ' ', '@', '['] + name + seq![']', ' ', '*', '/'];
        let rest = seq!['\n', '\n'] + match ts_utils::main_value_of(root) {
            Some(value) => layout(value, body_of(content), Seq::empty(), "    "@),
            None => Seq::empty(),
        };
        assert(annotation_head(Some(name)) == head + seq!['\n', '\n']) by {
            reveal_strlit("/* @[");
            reveal_strlit("] */\n\n");
        }
        assert(formatted(content, Some(root)) == text::trimmed_end(head + rest)) by {
            assert(head + rest == annotation_head(Some(name)) + match ts_utils::main_value_of(
                root,
            ) {
                Some(value) => layout(value, body_of(content), Seq::empty(), "    "@),
                None => Seq::empty(),
            });
        }
        text::lemma_trimmed_end_keeps(head, rest);
        annotation_parser::lemma_leading_annotation(name, text::trimmed_end(rest));
    }
}

/// A formatted document does not end in white space.
pub proof fn lemma_formatted_ends_clean(content: Seq<char>, root: Syntax)
    ensures
        formatted(content, Some(root)).len() == 0 || !text::is_white_space(
            formatted(content, Some(root)).last(),
        ),
{
    text::lemma_trimmed_end(
        annotation_head(annotation_parser::type_annotation(content))
            + match ts_utils::main_value_of(root) {
            Some(value) => layout(value, body_of(content), Seq::empty(), "    "@),
            None => Seq::empty(),
        },
    );
}

/// What is laid out of a formatted document with an annotation is the layout of its main value: the
/// comment that the document begins with is the annotation alone.
pub proof fn lemma_formatted_body(content: Seq<char>, root: Syntax)
    requires
        annotation_parser::type_annotation(content) matches Some(name) && !occurs(
            name,
            seq!['*', '/'],
        ),
    ensures
        body_of(formatted(content, Some(root))) == text::trimmed_end(
            seq!['\n', '\n'] + match ts_utils::main_value_of(root) {
                Some(value) => layout(value, body_of(content), Seq::empty(), "    "@),
                None => Seq::empty(),
            },
        ),
{
    let name = annotation_parser::type_annotation(content)->0;
    let head = seq!['/', '*', ' ', '@', '['] + name + seq![']', ' ', '*', '/'];
    let rest = seq!['\n', '\n'] + match ts_utils::main_value_of(root) {
        Some(value) => layout(value, body_of(content), Seq::empty(), "    "@),
        None => Seq::empty(),
    };
    assert(formatted(content, Some(root)) == text::trimmed_end(head + rest)) by {
        reveal_strlit("/* @[");
        reveal_strlit("] */\n\n");
        assert(head + rest == annotation_head(Some(name)) + match ts_utils::main_value_of(root) {
            Some(value) => layout(value, body_of(content), Seq::empty(), "    "@),
            None => Seq::empty(),
        });
    }
    text::lemma_trimmed_end_keeps(head, rest);
    let s = head + text::trimmed_end(rest);
    assert(text::trimmed_start(s) == s);
    assert(seq!['/', '*'] == s.subrange(0, 2));
    lemma_first_close(name, text::trimmed_end(rest));
    assert(s.skip(head.len() as int) == text::trimmed_end(rest));
}

/// Whether a text occurs in another.
pub open spec fn occurs(s: Seq<char>, p: Seq<char>) -> bool {
    exists|k: int| 0 <= k && k + p.len() <= s.len() && #[trigger] s.subrange(k, k + p.len()) == p
}

proof fn lemma_first_close(name: Seq<char>, rest: Seq<char>)
    requires
        !occurs(name, seq!['*', '/']),
    ensures
        text::find_from(
            seq!['/', '*', ' ', '@', '['] + name + seq![']', ' ', '*', '/'] + rest,
            seq!['*', '/'],
            0,
        ) == Some(name.len() as int + 7),
{
    let close = seq!['*', '/'];
    let s = seq!['/', '*', ' ', '@', '['] + name + seq![']', ' ', '*', '/'] + rest;
    let end: int = name.len() as int + 7;
    text::lemma_find_from(s, close, 0);
    assert(s.subrange(end, end + 2) == close);
    assert forall|k: int| 0 <= k < end implies #[trigger] s.subrange(k, k + 2) != close by {
        let two = s.subrange(k, k + 2);
        assert(two[0] == s[k] && two[1] == s[k + 1]);
        if two == close {
            assert(s[k] == '*' && s[k + 1] == '/');
            if 5 <= k && k + 1 < 5 + name.len() {
                let j = k - 5;
                assert(name.subrange(j, j + close.len()) == close) by {
                    assert(name[j] == s[k] && name[j + 1] == s[k + 1]);
                }
                assert(occurs(name, close));
            } else if k == 4 + name.len() {
                assert(s[k + 1] == ']');
            } else if k == 5 + name.len() {
                assert(s[k] == ']');
            } else if k == 6 + name.len() {
                assert(s[k] == ' ');
            }
        }
    }
}

/// A struct is laid out as its name and parentheses, an array in brackets, a map in braces and a
/// tuple in parentheses.
pub proof fn lemma_layout_brackets(
    node: Syntax,
    content: Seq<char>,
    indent: Seq<char>,
    unit: Seq<char>,
)
    ensures
        node.kind == "struct"@ ==> {
            let name = match ts_utils::struct_name_of(node, content) {
                Some(name) => name,
                None => Seq::empty(),
            };
            &&& name.push('(').is_prefix_of(layout(node, content, indent, unit))
            &&& layout(node, content, indent, unit).last() == ')'
        },
        node.kind == "array"@ ==> layout(node, content, indent, unit)[0] == '[' && layout(
            node,
            content,
            indent,
            unit,
        ).last() == ']',
        node.kind == "map"@ ==> layout(node, content, indent, unit)[0] == '{' && layout(
            node,
            content,
            indent,
            unit,
        ).last() == '}',
        node.kind == "tuple"@ ==> layout(node, content, indent, unit)[0] == '(' && layout(
            node,
            content,
            indent,
            unit,
        ).last() == ')',
{
    reveal_strlit("struct");
    reveal_strlit("array");
    reveal_strlit("map");
    reveal_strlit("tuple");
    assert("array"@[0] == 'a' && "struct"@[0] == 's' && "map"@[0] == 'm' && "tuple"@[0] == 't');
    let all = layout(node, content, indent, unit);
    if node.kind == "struct"@ {
        assert(all == layout_struct(node, content, indent, unit));
        let name = match ts_utils::struct_name_of(node, content) {
            Some(name) => name,
            None => Seq::empty(),
        };
        assert(name.push('(') == all.subrange(0, name.len() as int + 1));
    } else if node.kind == "array"@ {
        assert(all == layout_array(node, content, indent, unit));
    } else if node.kind == "map"@ {
        assert(all == layout_map(node, content, indent, unit));
    } else if node.kind == "tuple"@ {
        assert(all == layout_tuple(node, content, indent, unit));
    }
}

/// A document that does not begin with a comment is laid out whole: whatever comments stand elsewhere
/// in it.
pub proof fn lemma_whole_document_is_laid_out(content: Seq<char>, k: int)
    requires
        0 <= k <= content.len(),
        forall|i: int| 0 <= i < k ==> text::is_white_space(#[trigger] content[i]),
        k < content.len() ==> !text::is_white_space(content[k]),
        !(k + 1 < content.len() && content[k] == '/' && content[k + 1] == '*'),
    ensures
        body_of(content) == content,
{
    text::lemma_trimmed_start_at(content, k);
    let rest = content.skip(k);
    if seq!['/', '*'].is_prefix_of(rest) {
        assert(seq!['/', '*'] == rest.subrange(0, 2));
        assert(rest.subrange(0, 2)[0] == content[k] && rest.subrange(0, 2)[1] == content[k + 1]);
        assert(seq!['/', '*'][0] == '/' && seq!['/', '*'][1] == '*');
    }
}

/// Of a document that begins with a comment, what stands behind the comment is laid out.
pub proof fn lemma_leading_comment_is_left_out(
    space: Seq<char>,
    comment: Seq<char>,
    rest: Seq<char>,
)
    requires
        forall|i: int| 0 <= i < space.len() ==> text::is_white_space(#[trigger] space[i]),
        !occurs((space + seq!['/', '*'] + comment).push('*'), seq!['*', '/']),
    ensures
        body_of(space + seq!['/', '*'] + comment + seq!['*', '/'] + rest) == rest,
{
    let before = space + seq!['/', '*'] + comment;
    let k = space.len() as int;
    assert forall|i: int| 0 <= i < k implies text::is_white_space(#[trigger] before[i]) by {
        assert(before[i] == space[i]);
    }
    assert(before[k] == '/' && before[k + 1] == '*');
    lemma_body_behind(before, rest, k);
}

proof fn lemma_body_behind(before: Seq<char>, rest: Seq<char>, k: int)
    requires
        0 <= k < before.len() - 1,
        forall|i: int| 0 <= i < k ==> text::is_white_space(#[trigger] before[i]),
        before[k] == '/' && before[k + 1] == '*',
        !occurs(before.push('*'), seq!['*', '/']),
    ensures
        body_of(before + seq!['*', '/'] + rest) == rest,
{
    let close = seq!['*', '/'];
    let content = before + close + rest;
    assert forall|i: int| 0 <= i < k implies text::is_white_space(#[trigger] content[i]) by {
        assert(content[i] == before[i]);
    }
    assert(content[k] == before[k] && content[k + 1] == before[k + 1]);
    text::lemma_trimmed_start_at(content, k);
    assert(seq!['/', '*'] == content.skip(k).subrange(0, 2));
    assert(seq!['/', '*'].is_prefix_of(text::trimmed_start(content)));
    lemma_first_close_at(content, before, rest);
    assert(content.skip(before.len() as int + 2) == rest);
}

proof fn lemma_first_close_at(content: Seq<char>, before: Seq<char>, rest: Seq<char>)
    requires
        content == before + seq!['*', '/'] + rest,
        !occurs(before.push('*'), seq!['*', '/']),
    ensures
        text::find_from(content, seq!['*', '/'], 0) == Some(before.len() as int),
{
    let close = seq!['*', '/'];
    let n = before.len() as int;
    let opened = before.push('*');
    assert(close.len() == 2);
    assert(opened == content.subrange(0, opened.len() as int));
    assert(content.subrange(n, n + 2) == close);
    assert forall|j: int| 0 <= j < n implies #[trigger] content.subrange(j, j + close.len())
        != close by {
        lemma_no_close(content, opened, j);
    }
    text::lemma_find_at(content, close, 0, n);
}

proof fn lemma_no_close(content: Seq<char>, opened: Seq<char>, j: int)
    requires
        opened.is_prefix_of(content),
        0 <= j < opened.len() - 1,
        !occurs(opened, seq!['*', '/']),
    ensures
        content.subrange(j, j + 2) != seq!['*', '/'],
{
    let close = seq!['*', '/'];
    assert(opened == content.subrange(0, opened.len() as int));
    assert(opened[j] == content[j] && opened[j + 1] == content[j + 1]);
    let two = opened.subrange(j, j + close.len());
    assert(two == content.subrange(j, j + 2));
}

/// A document that begins with a comment which is not closed is laid out whole.
pub proof fn lemma_open_comment_is_kept(content: Seq<char>)
    requires
        forall|j: int|
            0 <= j < content.len() - 1 ==> !(#[trigger] content[j] == '*' && content[j + 1] == '/'),
    ensures
        body_of(content) == content,
{
    let close = seq!['*', '/'];
    text::lemma_find_from(content, close, 0);
    if let Some(k) = text::find_from(content, close, 0) {
        let two = content.subrange(k, k + 2);
        assert(two[0] == content[k] && two[1] == content[k + 1]);
        assert(close[0] == '*' && close[1] == '/');
    }
}

/// A document without an annotation is the layout of its main value, four spaces to a level; one with
/// an annotation has the annotation before it, in a comment of its own. White space at the end is
/// taken off.
pub proof fn lemma_parts_of_a_formatted_document(content: Seq<char>, root: Syntax)
    ensures
        ({
            let value = match ts_utils::main_value_of(root) {
                Some(value) => layout(
                    value,
                    body_of(content),
                    Seq::empty(),
                    seq![' ', ' ', ' ', ' '],
                ),
                None => Seq::empty(),
            };
            match annotation_parser::type_annotation(content) {
                Some(name) => formatted(content, Some(root)) == seq!['/', '*', ' ', '@', '[']
                    + name + seq![']', ' ', '*', '/'] + text::trimmed_end(
                    seq!['\n', '\n'] + value,
                ),
                None => formatted(content, Some(root)) == text::trimmed_end(value),
            }
        }),
        formatted(content, None) == content,
{
    reveal_strlit("    ");
    assert("    "@ == seq![' ', ' ', ' ', ' ']);
    let value = match ts_utils::main_value_of(root) {
        Some(value) => layout(value, body_of(content), Seq::empty(), "    "@),
        None => Seq::empty(),
    };
    match annotation_parser::type_annotation(content) {
        Some(name) => {
            let head = seq!['/', '*', ' ', '@', '['] + name + seq![']', ' ', '*', '/'];
            let rest = seq!['\n', '\n'] + value;
            reveal_strlit("/* @[");
            reveal_strlit("] */\n\n");
            assert(annotation_head(Some(name)) == head + seq!['\n', '\n']);
            assert(annotation_head(Some(name)) + value == head + rest);
            text::lemma_trimmed_end_keeps(head, rest);
        },
        None => {
            assert(Seq::<char>::empty() + value == value);
        },
    }
}

} // verus!
