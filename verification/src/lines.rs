//! How documents are laid out: what stands in brackets, on which lines, and how far indented.

use crate::format::{
    entry_lines, item_lines, item_rows, layout, layout_child, layout_entry, layout_struct,
    lemma_field_value_is_child, lemma_taken_from_children, lemma_values_from_children, struct_body,
};
use crate::syntax::Syntax;
use crate::ts_utils;
use vstd::prelude::*;

verus! {

/// Texts one to a line, each indented and followed by a comma.
pub open spec fn listed(texts: Seq<Seq<char>>, indent: Seq<char>) -> Seq<char>
    decreases texts.len(),
{
    if texts.len() == 0 {
        Seq::empty()
    } else {
        indent + texts[0] + seq![',', '\n'] + listed(texts.skip(1), indent)
    }
}

/// Texts one to a line, each indented, with commas between them.
pub open spec fn listed_between(texts: Seq<Seq<char>>, indent: Seq<char>) -> Seq<char>
    decreases texts.len(),
{
    if texts.len() == 0 {
        Seq::empty()
    } else if texts.len() == 1 {
        indent + texts[0]
    } else {
        indent + texts[0] + seq![',', '\n'] + listed_between(texts.skip(1), indent)
    }
}

/// Texts in brackets: none of them, or each on a line of its own, one level further in than the
/// brackets, followed by a comma.
pub open spec fn in_lines(
    open: char,
    close: char,
    texts: Seq<Seq<char>>,
    indent: Seq<char>,
    unit: Seq<char>,
) -> Seq<char> {
    if texts.len() == 0 {
        seq![open, close]
    } else {
        seq![open, '\n'] + listed(texts, indent + unit) + indent + seq![close]
    }
}

/// The layouts of nodes.
pub open spec fn layouts(
    nodes: Seq<Syntax>,
    content: Seq<char>,
    indent: Seq<char>,
    unit: Seq<char>,
) -> Seq<Seq<char>> {
    Seq::new(nodes.len(), |i: int| layout(nodes[i], content, indent, unit))
}

/// The name of a struct; nothing where it has none.
pub open spec fn name_or_nothing(node: Syntax, content: Seq<char>) -> Seq<char> {
    match ts_utils::struct_name_of(node, content) {
        Some(name) => name,
        None => Seq::empty(),
    }
}

proof fn lemma_listed_push(texts: Seq<Seq<char>>, t: Seq<char>, indent: Seq<char>)
    ensures
        listed(texts.push(t), indent) == listed(texts, indent) + indent + t + seq![',', '\n'],
        listed_between(texts.push(t), indent) == (if texts.len() == 0 {
            indent + t
        } else {
            listed_between(texts, indent) + seq![',', '\n'] + indent + t
        }),
    decreases texts.len(),
{
    let all = texts.push(t);
    if texts.len() == 0 {
        assert(all.skip(1) == Seq::<Seq<char>>::empty());
        assert(listed(all.skip(1), indent) == Seq::<char>::empty());
        assert(listed(all, indent) == indent + t + seq![',', '\n']);
    } else {
        lemma_listed_push(texts.skip(1), t, indent);
        assert(all.skip(1) == texts.skip(1).push(t));
        let first = indent + texts[0] + seq![',', '\n'];
        let rest = listed(texts.skip(1), indent);
        assert(first + (rest + indent + t + seq![',', '\n']) == first + rest + indent + t + seq![
            ',',
            '\n',
        ]);
        if texts.len() == 1 {
            assert(first + (indent + t) == indent + texts[0] + seq![',', '\n'] + indent + t);
        } else {
            let between = listed_between(texts.skip(1), indent);
            assert(first + (between + seq![',', '\n'] + indent + t) == first + between + seq![
                ',',
                '\n',
            ] + indent + t);
        }
    }
}

proof fn lemma_items(
    node: Syntax,
    items: Seq<Syntax>,
    n: nat,
    content: Seq<char>,
    indent: Seq<char>,
    unit: Seq<char>,
)
    requires
        n <= items.len(),
        forall|i: int| 0 <= i < items.len() ==> node.children.contains(#[trigger] items[i]),
    ensures
        item_lines(node, items, n, content, indent, unit) == listed(
            layouts(items.take(n as int), content, indent, unit),
            indent,
        ),
        item_rows(node, items, n, content, indent, unit) == listed_between(
            layouts(items.take(n as int), content, indent, unit),
            indent,
        ),
    decreases n,
{
    let texts = layouts(items.take(n as int), content, indent, unit);
    if n > 0 {
        let m = (n - 1) as nat;
        lemma_items(node, items, m, content, indent, unit);
        let before = layouts(items.take(m as int), content, indent, unit);
        let last = layout(items[n - 1], content, indent, unit);
        assert(texts == before.push(last));
        lemma_listed_push(before, last, indent);
        assert(node.children.contains(items[n - 1]));
        assert(layout_child(node, items[n - 1], content, indent, unit) == last);
        if m == 0 {
            assert(item_rows(node, items, 0, content, indent, unit) == Seq::<char>::empty());
            assert(item_rows(node, items, n, content, indent, unit) == indent + last);
        }
    }
}

proof fn lemma_all_items(
    node: Syntax,
    items: Seq<Syntax>,
    content: Seq<char>,
    indent: Seq<char>,
    unit: Seq<char>,
)
    requires
        forall|i: int| 0 <= i < items.len() ==> node.children.contains(#[trigger] items[i]),
    ensures
        item_lines(node, items, items.len(), content, indent, unit) == listed(
            layouts(items, content, indent, unit),
            indent,
        ),
        item_rows(node, items, items.len(), content, indent, unit) == listed_between(
            layouts(items, content, indent, unit),
            indent,
        ),
{
    lemma_items(node, items, items.len(), content, indent, unit);
    assert(items.take(items.len() as int) == items);
}

/// The layouts of entries.
pub open spec fn entry_layouts(
    entries: Seq<Syntax>,
    content: Seq<char>,
    indent: Seq<char>,
    unit: Seq<char>,
) -> Seq<Seq<char>> {
    Seq::new(entries.len(), |i: int| layout_entry(entries[i], content, indent, unit))
}

proof fn lemma_entries(
    node: Syntax,
    entries: Seq<Syntax>,
    n: nat,
    content: Seq<char>,
    indent: Seq<char>,
    unit: Seq<char>,
)
    requires
        n <= entries.len(),
        forall|i: int| 0 <= i < entries.len() ==> node.children.contains(#[trigger] entries[i]),
    ensures
        entry_lines(node, entries, n, content, indent, unit) == listed(
            entry_layouts(entries.take(n as int), content, indent, unit),
            indent,
        ),
    decreases n,
{
    let texts = entry_layouts(entries.take(n as int), content, indent, unit);
    if n > 0 {
        let m = (n - 1) as nat;
        lemma_entries(node, entries, m, content, indent, unit);
        let before = entry_layouts(entries.take(m as int), content, indent, unit);
        let last = layout_entry(entries[n - 1], content, indent, unit);
        assert(texts == before.push(last));
        lemma_listed_push(before, last, indent);
        assert(node.children.contains(entries[n - 1]));
    }
}

/// A struct with fields is laid out as its name and, in parentheses, its fields, each on a line of its
/// own, one level further in, followed by a comma.
pub proof fn lemma_layout_of_fields(
    node: Syntax,
    content: Seq<char>,
    indent: Seq<char>,
    unit: Seq<char>,
)
    requires
        node.kind == "struct"@,
        ts_utils::named_fields_of(node).len() > 0,
        !ts_utils::is_empty_of(node),
    ensures
        layout(node, content, indent, unit) == name_or_nothing(node, content) + in_lines(
            '(',
            ')',
            layouts(ts_utils::named_fields_of(node), content, indent + unit, unit),
            indent,
            unit,
        ),
{
    let fields = ts_utils::named_fields_of(node);
    lemma_taken_from_children(node.children, |n: Syntax| n.kind == "field"@);
    lemma_all_items(node, fields, content, indent + unit, unit);
    let texts = layouts(fields, content, indent + unit, unit);
    let name = name_or_nothing(node, content);
    assert(texts.len() > 0);
    assert(seq!['('] + (seq!['\n'] + listed(texts, indent + unit) + indent) + seq![')'] == in_lines(
        '(',
        ')',
        texts,
        indent,
        unit,
    ));
}

/// A struct without fields is laid out as its name and its values in parentheses: a single one on the
/// same line, more one to a line, with commas between them.
pub proof fn lemma_layout_of_values(
    node: Syntax,
    content: Seq<char>,
    indent: Seq<char>,
    unit: Seq<char>,
)
    requires
        node.kind == "struct"@,
        ts_utils::named_fields_of(node).len() == 0,
    ensures
        ({
            let values = ts_utils::values_of(node, content);
            let texts = layouts(values, content, indent + unit, unit);
            layout(node, content, indent, unit) == name_or_nothing(node, content) + (
            if ts_utils::is_empty_of(node) || values.len() == 0 {
                seq!['(', ')']
            } else if values.len() == 1 {
                seq!['('] + texts[0] + seq![')']
            } else {
                seq!['(', '\n'] + listed_between(texts, indent + unit) + seq!['\n'] + indent + seq![
                    ')',
                ]
            })
        }),
{
    let values = ts_utils::values_of(node, content);
    lemma_values_from_children(node.children, ts_utils::struct_name_of(node, content) is Some);
    assert forall|i: int| 0 <= i < values.len() implies node.children.contains(
        #[trigger] values[i],
    ) by {}
    lemma_all_items(node, values, content, indent + unit, unit);
    let texts = layouts(values, content, indent + unit, unit);
    let name = name_or_nothing(node, content);
    let body = struct_body(node, content, indent, unit);
    assert(layout(node, content, indent, unit) == layout_struct(node, content, indent, unit));
    if ts_utils::is_empty_of(node) {
        assert(layout_struct(node, content, indent, unit) == name + seq!['(', ')']);
    } else {
        assert(layout_struct(node, content, indent, unit) == name + (seq!['('] + body + seq![')']));
        if values.len() == 0 {
            assert(body == Seq::<char>::empty());
            assert(seq!['('] + body + seq![')'] == seq!['(', ')']);
        } else if values.len() == 1 {
            assert(node.children.contains(values[0]));
            assert(body == texts[0]);
        } else {
            let rows = listed_between(texts, indent + unit);
            assert(body == seq!['\n'] + rows + seq!['\n'] + indent);
            assert(seq!['('] + body + seq![')'] == seq!['(', '\n'] + rows + seq!['\n'] + indent
                + seq![')']);
        }
    }
}

/// A field is laid out as its name, a colon and its value.
pub proof fn lemma_layout_of_a_field(
    node: Syntax,
    content: Seq<char>,
    indent: Seq<char>,
    unit: Seq<char>,
    name: Seq<char>,
    value: Syntax,
)
    requires
        ts_utils::field_name_of(node, content) == Some(name),
        ts_utils::field_value_of(node) == Some(value),
    ensures
        layout(node, content, indent, unit) == name + seq![':', ' '] + layout(
            value,
            content,
            indent,
            unit,
        ),
{
    lemma_field_value_is_child(node);
    lemma_field_is_no_list(node);
}

proof fn lemma_field_is_no_list(node: Syntax)
    ensures
        node.kind == "field"@ ==> node.kind != "struct"@ && node.kind != "array"@ && node.kind
            != "map"@ && node.kind != "tuple"@,
        node.kind == "array"@ ==> node.kind != "struct"@,
        node.kind == "map"@ ==> node.kind != "struct"@ && node.kind != "array"@,
        node.kind == "tuple"@ ==> node.kind != "struct"@ && node.kind != "array"@ && node.kind
            != "map"@,
{
    reveal_strlit("struct");
    reveal_strlit("array");
    reveal_strlit("map");
    reveal_strlit("tuple");
    reveal_strlit("field");
    assert("struct"@[0] == 's' && "array"@[0] == 'a' && "map"@[0] == 'm' && "tuple"@[0] == 't'
        && "field"@[0] == 'f');
}

/// An array is laid out as its elements in brackets, and a tuple as its elements in parentheses, each
/// on a line of its own, one level further in, followed by a comma.
pub proof fn lemma_layout_of_elements(
    node: Syntax,
    content: Seq<char>,
    indent: Seq<char>,
    unit: Seq<char>,
)
    ensures
        node.kind == "array"@ ==> layout(node, content, indent, unit) == in_lines(
            '[',
            ']',
            layouts(ts_utils::named_children_of(node), content, indent + unit, unit),
            indent,
            unit,
        ),
        node.kind == "tuple"@ ==> layout(node, content, indent, unit) == in_lines(
            '(',
            ')',
            layouts(ts_utils::named_children_of(node), content, indent + unit, unit),
            indent,
            unit,
        ),
{
    let elements = ts_utils::named_children_of(node);
    lemma_field_is_no_list(node);
    lemma_taken_from_children(node.children, |n: Syntax| n.named);
    lemma_all_items(node, elements, content, indent + unit, unit);
    if ts_utils::is_empty_of(node) && elements.len() > 0 {
        assert(node.children.contains(elements[0]));
        crate::keyed::lemma_filter_in(node.children, |n: Syntax| n.named, 0);
        let k = choose|k: int| 0 <= k < node.children.len() && node.children[k] == elements[0];
        assert(!node.children[k].named);
    }
}

/// A map is laid out as its entries in braces, each on a line of its own, one level further in,
/// followed by a comma; an entry as its key, a colon and its value.
pub proof fn lemma_layout_of_a_map(
    node: Syntax,
    content: Seq<char>,
    indent: Seq<char>,
    unit: Seq<char>,
)
    requires
        node.kind == "map"@,
        !ts_utils::is_empty_of(node),
    ensures
        layout(node, content, indent, unit) == in_lines(
            '{',
            '}',
            entry_layouts(
                ts_utils::children_of_kind(node, "map_entry"@),
                content,
                indent + unit,
                unit,
            ),
            indent,
            unit,
        ),
{
    let entries = ts_utils::children_of_kind(node, "map_entry"@);
    lemma_field_is_no_list(node);
    lemma_taken_from_children(node.children, |n: Syntax| n.kind == "map_entry"@);
    lemma_entries(node, entries, entries.len(), content, indent + unit, unit);
    assert(entries.take(entries.len() as int) == entries);
}

/// An entry of a map is laid out as its key, a colon and its value.
pub proof fn lemma_layout_of_an_entry(
    entry: Syntax,
    content: Seq<char>,
    indent: Seq<char>,
    unit: Seq<char>,
)
    requires
        ts_utils::named_children_of(entry).len() >= 2,
    ensures
        layout_entry(entry, content, indent, unit) == layout(
            ts_utils::named_children_of(entry)[0],
            content,
            indent,
            unit,
        ) + seq![':', ' '] + layout(
            ts_utils::named_children_of(entry)[1],
            content,
            indent,
            unit,
        ),
{
    let parts = ts_utils::named_children_of(entry);
    lemma_taken_from_children(entry.children, |n: Syntax| n.named);
    assert(entry.children.contains(parts[0]));
    assert(entry.children.contains(parts[1]));
}

/// What is no struct, no array, no map, no tuple and no field is laid out as it stands.
pub proof fn lemma_layout_of_a_leaf(
    node: Syntax,
    content: Seq<char>,
    indent: Seq<char>,
    unit: Seq<char>,
)
    requires
        !(seq!["struct"@, "array"@, "map"@, "tuple"@, "field"@]).contains(node.kind),
    ensures
        match ts_utils::text_of(node, content) {
            Some(text) => layout(node, content, indent, unit) == text,
            None => layout(node, content, indent, unit).len() == 0,
        },
{
    let kinds = seq!["struct"@, "array"@, "map"@, "tuple"@, "field"@];
    assert(kinds[0] == "struct"@ && kinds[1] == "array"@ && kinds[2] == "map"@ && kinds[3]
        == "tuple"@ && kinds[4] == "field"@);
}

} // verus!
