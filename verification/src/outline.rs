//! The outline of a document: the kinds, the names and the texts that its layout is made of.

use crate::annotation_parser::type_annotation;
use crate::format::{
    body_of, entry_lines, formatted, item_lines, item_rows, layout, layout_array, layout_child,
    layout_entry, layout_field, layout_map, layout_struct, layout_tuple,
    lemma_field_value_is_child, lemma_formatting_keeps_annotation, lemma_taken_from_children,
    lemma_values_from_children, own_text, struct_body,
};
use crate::syntax::{ron_syntax, Syntax};
use crate::ts_utils;
use vstd::prelude::*;

verus! {

/// How a node is laid out.
pub ghost enum Form {
    /// As it stands.
    Leaf,
    /// A struct with fields.
    Fields,
    /// A struct with values, or with nothing.
    Values,
    Array,
    Tuple,
    /// A map.
    Entries,
    /// An entry of a map.
    Entry,
    Field,
}

/// What the layout of a node depends on: how it is laid out, its text or its name, and the outlines
/// of the nodes that are laid out in it.
#[verifier::ext_equal]
pub ghost struct Outline {
    pub form: Form,
    pub text: Option<Seq<char>>,
    pub parts: Seq<Outline>,
}

/// How a node is laid out; `in_map` where it is an entry of the map above it.
pub open spec fn form_of(node: Syntax, in_map: bool, content: Seq<char>) -> Form {
    if in_map {
        Form::Entry
    } else if node.kind == "struct"@ {
        if !ts_utils::is_empty_of(node) && ts_utils::named_fields_of(node).len() > 0 {
            Form::Fields
        } else {
            Form::Values
        }
    } else if node.kind == "array"@ {
        Form::Array
    } else if node.kind == "map"@ {
        Form::Entries
    } else if node.kind == "tuple"@ {
        Form::Tuple
    } else if node.kind == "field"@ {
        Form::Field
    } else {
        Form::Leaf
    }
}

/// The name of a struct or of a field, and the text of what is laid out as it stands.
pub open spec fn label_of(node: Syntax, in_map: bool, content: Seq<char>) -> Option<Seq<char>> {
    match form_of(node, in_map, content) {
        Form::Leaf => Some(own_text(node, content)),
        Form::Fields | Form::Values => ts_utils::struct_name_of(node, content),
        Form::Field => ts_utils::field_name_of(node, content),
        _ => None,
    }
}

/// The nodes that are laid out in a node.
pub open spec fn parts_of(node: Syntax, in_map: bool, content: Seq<char>) -> Seq<Syntax> {
    match form_of(node, in_map, content) {
        Form::Leaf => Seq::empty(),
        Form::Fields => ts_utils::named_fields_of(node),
        Form::Values => if ts_utils::is_empty_of(node) {
            Seq::empty()
        } else {
            ts_utils::values_of(node, content)
        },
        Form::Array | Form::Tuple => ts_utils::named_children_of(node),
        Form::Entries => if ts_utils::is_empty_of(node) {
            Seq::empty()
        } else {
            ts_utils::children_of_kind(node, "map_entry"@)
        },
        Form::Entry => if ts_utils::named_children_of(node).len() >= 2 {
            ts_utils::named_children_of(node).take(2)
        } else {
            Seq::empty()
        },
        Form::Field => match ts_utils::field_value_of(node) {
            Some(value) => seq![value],
            None => Seq::empty(),
        },
    }
}

/// The outline of a node.
pub open spec fn outline(node: Syntax, in_map: bool, content: Seq<char>) -> Outline
    decreases node,
{
    let form = form_of(node, in_map, content);
    let parts = parts_of(node, in_map, content);
    Outline {
        form,
        text: label_of(node, in_map, content),
        parts: Seq::new(
            parts.len(),
            |i: int|
                if 0 <= i < parts.len() && node.children.contains(parts[i]) {
                    outline(parts[i], form is Entries, content)
                } else {
                    arbitrary()
                },
        ),
    }
}

/// The nodes that are laid out in a node are children of it.
pub proof fn lemma_parts_are_children(node: Syntax, in_map: bool, content: Seq<char>)
    ensures
        forall|i: int|
            0 <= i < parts_of(node, in_map, content).len() ==> node.children.contains(
                #[trigger] parts_of(node, in_map, content)[i],
            ),
{
    lemma_taken_from_children(node.children, |n: Syntax| n.kind == "field"@);
    lemma_taken_from_children(node.children, |n: Syntax| n.kind == "map_entry"@);
    lemma_taken_from_children(node.children, |n: Syntax| n.named);
    lemma_values_from_children(
        node.children,
        ts_utils::struct_name_of(node, content) is Some,
    );
    lemma_field_value_is_child(node);
    let parts = parts_of(node, in_map, content);
    assert forall|i: int| 0 <= i < parts.len() implies node.children.contains(
        #[trigger] parts[i],
    ) by {
        match form_of(node, in_map, content) {
            Form::Fields => {
                assert(parts[i] == ts_utils::named_fields_of(node)[i]);
            },
            Form::Values => {
                assert(parts[i] == ts_utils::values_of(node, content)[i]);
            },
            Form::Entries => {
                assert(parts[i] == ts_utils::children_of_kind(node, "map_entry"@)[i]);
            },
            Form::Array | Form::Tuple | Form::Entry => {
                assert(parts[i] == ts_utils::named_children_of(node)[i]);
            },
            _ => {},
        }
    }
}

// ---------------------------------------------------------------------------
// The layout of an outline
// ---------------------------------------------------------------------------

/// The layout of a node; `in_map` where it is an entry of the map above it.
pub open spec fn laid_out(
    node: Syntax,
    in_map: bool,
    content: Seq<char>,
    indent: Seq<char>,
    unit: Seq<char>,
) -> Seq<char> {
    if in_map {
        layout_entry(node, content, indent, unit)
    } else {
        layout(node, content, indent, unit)
    }
}

/// The indentation of what is laid out in a node.
pub open spec fn inner_indent(form: Form, indent: Seq<char>, unit: Seq<char>) -> Seq<char> {
    match form {
        Form::Field | Form::Entry | Form::Leaf => indent,
        _ => indent + unit,
    }
}

/// The first `n` of the texts of a list, each on a line of its own, indented and followed by a
/// comma.
pub open spec fn lines(texts: Seq<Seq<char>>, n: nat, indent: Seq<char>) -> Seq<char>
    decreases n,
{
    if n == 0 || n > texts.len() {
        Seq::empty()
    } else {
        lines(texts, (n - 1) as nat, indent) + indent + texts[n - 1] + seq![',', '\n']
    }
}

/// The first `n` of the texts of a list, each on a line of its own, indented, with commas between
/// them.
pub open spec fn rows(texts: Seq<Seq<char>>, n: nat, indent: Seq<char>) -> Seq<char>
    decreases n,
{
    if n == 0 || n > texts.len() {
        Seq::empty()
    } else {
        rows(texts, (n - 1) as nat, indent) + (if n > 1 {
            seq![',', '\n']
        } else {
            Seq::empty()
        }) + indent + texts[n - 1]
    }
}

/// The text of an option; nothing where there is none.
pub open spec fn or_nothing(text: Option<Seq<char>>) -> Seq<char> {
    match text {
        Some(text) => text,
        None => Seq::empty(),
    }
}

/// A list in brackets: nothing in them where it is empty, else a line for each of its texts.
pub open spec fn bracketed(
    open: char,
    close: char,
    texts: Seq<Seq<char>>,
    indent: Seq<char>,
    unit: Seq<char>,
) -> Seq<char> {
    if texts.len() == 0 {
        seq![open, close]
    } else {
        seq![open, '\n'] + lines(texts, texts.len(), indent + unit) + indent + seq![close]
    }
}

/// What is written for a node, given what is written for the nodes that are laid out in it.
pub open spec fn assembled(
    form: Form,
    text: Option<Seq<char>>,
    texts: Seq<Seq<char>>,
    indent: Seq<char>,
    unit: Seq<char>,
) -> Seq<char> {
    match form {
        Form::Leaf => or_nothing(text),
        Form::Fields => or_nothing(text) + bracketed('(', ')', texts, indent, unit),
        Form::Values => or_nothing(text) + seq!['('] + (if texts.len() == 0 {
            Seq::empty()
        } else if texts.len() == 1 {
            texts[0]
        } else {
            seq!['\n'] + rows(texts, texts.len(), indent + unit) + seq!['\n'] + indent
        }) + seq![')'],
        Form::Array => bracketed('[', ']', texts, indent, unit),
        Form::Tuple => bracketed('(', ')', texts, indent, unit),
        Form::Entries => bracketed('{', '}', texts, indent, unit),
        Form::Entry => if texts.len() >= 2 {
            texts[0] + seq![':', ' '] + texts[1]
        } else {
            Seq::empty()
        },
        Form::Field => (match text {
            Some(name) => name + seq![':', ' '],
            None => Seq::empty(),
        }) + (if texts.len() > 0 {
            texts[0]
        } else {
            Seq::empty()
        }),
    }
}

/// What is written for the nodes that are laid out in a node.
pub open spec fn part_texts(
    node: Syntax,
    in_map: bool,
    content: Seq<char>,
    indent: Seq<char>,
    unit: Seq<char>,
) -> Seq<Seq<char>> {
    let form = form_of(node, in_map, content);
    let parts = parts_of(node, in_map, content);
    Seq::new(
        parts.len(),
        |i: int|
            laid_out(parts[i], form is Entries, content, inner_indent(form, indent, unit), unit),
    )
}

proof fn lemma_item_lines(
    node: Syntax,
    items: Seq<Syntax>,
    texts: Seq<Seq<char>>,
    n: nat,
    content: Seq<char>,
    indent: Seq<char>,
    unit: Seq<char>,
)
    requires
        n <= items.len() == texts.len(),
        forall|i: int|
            0 <= i < items.len() ==> node.children.contains(#[trigger] items[i]) && texts[i]
                == layout(items[i], content, indent, unit),
    ensures
        item_lines(node, items, n, content, indent, unit) == lines(texts, n, indent),
        item_rows(node, items, n, content, indent, unit) == rows(texts, n, indent),
    decreases n,
{
    if n > 0 {
        lemma_item_lines(node, items, texts, (n - 1) as nat, content, indent, unit);
        assert(layout_child(node, items[n - 1], content, indent, unit) == layout(
            items[n - 1],
            content,
            indent,
            unit,
        ));
    }
}

proof fn lemma_entry_lines(
    node: Syntax,
    entries: Seq<Syntax>,
    texts: Seq<Seq<char>>,
    n: nat,
    content: Seq<char>,
    indent: Seq<char>,
    unit: Seq<char>,
)
    requires
        n <= entries.len() == texts.len(),
        forall|i: int|
            0 <= i < entries.len() ==> node.children.contains(#[trigger] entries[i]) && texts[i]
                == layout_entry(entries[i], content, indent, unit),
    ensures
        entry_lines(node, entries, n, content, indent, unit) == lines(texts, n, indent),
    decreases n,
{
    if n > 0 {
        lemma_entry_lines(node, entries, texts, (n - 1) as nat, content, indent, unit);
    }
}

/// What is written for a node follows from how it is laid out, its name or text, and what is written
/// for the nodes that are laid out in it.
pub proof fn lemma_layout_assembled(
    node: Syntax,
    in_map: bool,
    content: Seq<char>,
    indent: Seq<char>,
    unit: Seq<char>,
)
    ensures
        laid_out(node, in_map, content, indent, unit) == assembled(
            form_of(node, in_map, content),
            label_of(node, in_map, content),
            part_texts(node, in_map, content, indent, unit),
            indent,
            unit,
        ),
{
    let form = form_of(node, in_map, content);
    let parts = parts_of(node, in_map, content);
    let texts = part_texts(node, in_map, content, indent, unit);
    let inner = inner_indent(form, indent, unit);
    lemma_parts_are_children(node, in_map, content);
    match form {
        Form::Leaf => {},
        Form::Fields => {
            lemma_item_lines(node, parts, texts, parts.len(), content, inner, unit);
            assert(layout(node, content, indent, unit) == layout_struct(
                node,
                content,
                indent,
                unit,
            ));
            assert(layout_struct(node, content, indent, unit) == or_nothing(
                ts_utils::struct_name_of(node, content),
            ) + (seq!['('] + struct_body(node, content, indent, unit) + seq![')']));
            assert(laid_out(node, in_map, content, indent, unit) == assembled(
                form,
                label_of(node, in_map, content),
                texts,
                indent,
                unit,
            ));
        },
        Form::Values => {
            lemma_item_lines(node, parts, texts, parts.len(), content, indent + unit, unit);
            assert(layout(node, content, indent, unit) == layout_struct(
                node,
                content,
                indent,
                unit,
            ));
            if ts_utils::is_empty_of(node) {
                assert(laid_out(node, in_map, content, indent, unit) == assembled(
                    form,
                    label_of(node, in_map, content),
                    texts,
                    indent,
                    unit,
                ));
            } else {
                if parts.len() == 1 {
                    assert(layout_child(node, parts[0], content, inner, unit) == texts[0]);
                }
                assert(layout_struct(node, content, indent, unit) == or_nothing(
                    ts_utils::struct_name_of(node, content),
                ) + (seq!['('] + struct_body(node, content, indent, unit) + seq![')']));
                assert(laid_out(node, in_map, content, indent, unit) == assembled(
                    form,
                    label_of(node, in_map, content),
                    texts,
                    indent,
                    unit,
                ));
            }
        },
        Form::Array => {
            lemma_item_lines(node, parts, texts, parts.len(), content, inner, unit);
            assert(layout(node, content, indent, unit) == layout_array(
                node,
                content,
                indent,
                unit,
            ));
            lemma_empty_has_no_parts(node);
        },
        Form::Tuple => {
            lemma_item_lines(node, parts, texts, parts.len(), content, inner, unit);
            assert(layout(node, content, indent, unit) == layout_tuple(
                node,
                content,
                indent,
                unit,
            ));
        },
        Form::Entries => {
            lemma_entry_lines(node, parts, texts, parts.len(), content, inner, unit);
            assert(layout(node, content, indent, unit) == layout_map(
                node,
                content,
                indent,
                unit,
            ));
        },
        Form::Entry => {
            if parts.len() > 0 {
                assert(parts[0] == ts_utils::named_children_of(node)[0]);
                assert(parts[1] == ts_utils::named_children_of(node)[1]);
                assert(layout_child(node, parts[0], content, indent, unit) == texts[0]);
                assert(layout_child(node, parts[1], content, indent, unit) == texts[1]);
            }
        },
        Form::Field => {
            assert(layout(node, content, indent, unit) == layout_field(
                node,
                content,
                indent,
                unit,
            ));
            if parts.len() > 0 {
                assert(layout_child(node, parts[0], content, indent, unit) == texts[0]);
            }
        },
    }
}

/// Where no child is named, none is left of the named ones.
proof fn lemma_empty_has_no_parts(node: Syntax)
    ensures
        ts_utils::is_empty_of(node) ==> ts_utils::named_children_of(node).len() == 0,
{
    if ts_utils::is_empty_of(node) && ts_utils::named_children_of(node).len() > 0 {
        crate::keyed::lemma_filter_in(node.children, |c: Syntax| c.named, 0);
        let first = ts_utils::named_children_of(node)[0];
        let k = choose|k: int| 0 <= k < node.children.len() && node.children[k] == first;
        assert(!node.children[k].named);
    }
}

// ---------------------------------------------------------------------------
// Laws
// ---------------------------------------------------------------------------

/// The layout of a node depends on its outline alone: two nodes with the same outline, each in its
/// own document, have the same layout.
pub proof fn lemma_same_outline_same_layout(
    a: Syntax,
    a_content: Seq<char>,
    b: Syntax,
    b_content: Seq<char>,
    in_map: bool,
    indent: Seq<char>,
    unit: Seq<char>,
)
    requires
        outline(a, in_map, a_content) == outline(b, in_map, b_content),
    ensures
        laid_out(a, in_map, a_content, indent, unit) == laid_out(
            b,
            in_map,
            b_content,
            indent,
            unit,
        ),
    decreases a,
{
    let one = outline(a, in_map, a_content);
    let other = outline(b, in_map, b_content);
    let form = form_of(a, in_map, a_content);
    assert(one.form == other.form && one.text == other.text && one.parts == other.parts);
    let parts = parts_of(a, in_map, a_content);
    let others = parts_of(b, in_map, b_content);
    assert(one.parts.len() == parts.len() && other.parts.len() == others.len());
    lemma_parts_are_children(a, in_map, a_content);
    lemma_parts_are_children(b, in_map, b_content);
    let texts = part_texts(a, in_map, a_content, indent, unit);
    assert(texts == part_texts(b, in_map, b_content, indent, unit)) by {
        assert forall|i: int| 0 <= i < parts.len() implies #[trigger] texts[i] == part_texts(
            b,
            in_map,
            b_content,
            indent,
            unit,
        )[i] by {
            assert(a.children.contains(parts[i]));
            assert(b.children.contains(others[i]));
            assert(one.parts[i] == outline(parts[i], form is Entries, a_content));
            assert(other.parts[i] == outline(others[i], form is Entries, b_content));
            let k = choose|k: int| 0 <= k < a.children.len() && a.children[k] == parts[i];
            assert(decreases_to!(a => a.children));
            assert(decreases_to!(a.children => a.children[k]));
            lemma_same_outline_same_layout(
                parts[i],
                a_content,
                others[i],
                b_content,
                form is Entries,
                inner_indent(form, indent, unit),
                unit,
            );
        }
    }
    lemma_layout_assembled(a, in_map, a_content, indent, unit);
    lemma_layout_assembled(b, in_map, b_content, indent, unit);
}

/// Formatting twice is formatting once: where the main value of the formatted document has the
/// outline that it had before, and no comment in it has become an annotation, formatting leaves the
/// document as it is.
pub proof fn lemma_formatting_twice(content: Seq<char>, before: Syntax, after: Syntax)
    requires
        ({
            let once = formatted(content, ron_syntax(body_of(content)));
            &&& ron_syntax(body_of(content)) is Some
            &&& ron_syntax(body_of(once)) is Some
            &&& ts_utils::main_value_of(ron_syntax(body_of(content))->0) == Some(before)
            &&& ts_utils::main_value_of(ron_syntax(body_of(once))->0) == Some(after)
            &&& outline(after, false, body_of(once)) == outline(before, false, body_of(content))
            &&& type_annotation(content) is None ==> type_annotation(once) is None
        }),
    ensures
        ({
            let once = formatted(content, ron_syntax(body_of(content)));
            formatted(once, ron_syntax(body_of(once))) == once
        }),
{
    let root = ron_syntax(body_of(content));
    let once = formatted(content, root);
    if type_annotation(content) is Some {
        lemma_formatting_keeps_annotation(content, root);
    }
    lemma_same_outline_same_layout(
        after,
        body_of(once),
        before,
        body_of(content),
        false,
        Seq::empty(),
        "    "@,
    );
}

} // verus!
