//! What is read from the syntax tree of a document, in terms of its nodes.

use crate::lists::{
    if_any, is_image, keep, lemma_filter_is_image, lemma_image_comes_from, lemma_image_holds,
    lemma_image_of_nothing, lemma_image_step,
};
use crate::lsp::Position;
use crate::syntax::Syntax;
use crate::text;
use crate::tree_sitter_parser::{
    field_at, field_names, fields_of, innermost, locations_below, locations_in_variant,
    locations_of, locations_within, own_locations, variant_at, LocationModel,
};
use crate::ts_utils::{
    after_colon, ancestor_index, ancestor_of_kind, between_parens, children_of_kind, column_of,
    enum_variant_of, field_name_of, field_value_of, first_value, is_empty_of, last_named, line_of,
    main_value_of, named_children_of, named_fields_of, parens_in_order, range_of, struct_name_of,
    text_of, tuple_fields_of, values_among, values_of, variants_below, variants_within,
};
use vstd::prelude::*;

verus! {

// ---------------------------------------------------------------------------
// The children of a node
// ---------------------------------------------------------------------------

/// The nodes of a kind.
pub open spec fn of_kind(kind: Seq<char>) -> spec_fn(Syntax) -> Option<Syntax> {
    keep(|c: Syntax| c.kind == kind)
}

/// The named nodes.
pub open spec fn with_name() -> spec_fn(Syntax) -> Option<Syntax> {
    keep(|c: Syntax| c.named)
}

/// The named nodes that are no fields.
pub open spec fn no_field() -> spec_fn(Syntax) -> Option<Syntax> {
    keep(|c: Syntax| c.named && c.kind != "field"@)
}

/// The children of a kind, the named children and the fields of a struct are those children, in their
/// order, and no other.
pub proof fn lemma_children(node: Syntax, kind: Seq<char>)
    ensures
        is_image(children_of_kind(node, kind), node.children, of_kind(kind)),
        is_image(named_children_of(node), node.children, with_name()),
        node.kind == "struct"@ ==> is_image(named_fields_of(node), node.children, of_kind("field"@)),
        node.kind != "struct"@ ==> named_fields_of(node).len() == 0,
{
    lemma_filter_is_image(node.children, |c: Syntax| c.kind == kind);
    lemma_filter_is_image(node.children, |c: Syntax| c.kind == "field"@);
    lemma_filter_is_image(node.children, |c: Syntax| c.named);
}

/// The tuple fields of a struct are its named children but the first.
pub proof fn lemma_tuple_fields(node: Syntax)
    ensures
        node.kind == "struct"@ && named_children_of(node).len() > 0 ==> named_children_of(node)
            == seq![named_children_of(node)[0]] + tuple_fields_of(node),
        node.kind != "struct"@ || named_children_of(node).len() == 0 ==> tuple_fields_of(node).len()
            == 0,
{
}

/// The name of a struct is the text of its first child, where that is an identifier; and so with the
/// name of a field.
pub proof fn lemma_names(node: Syntax, content: Seq<char>)
    ensures
        node.kind == "struct"@ && node.children.len() > 0 && node.children[0].kind == "identifier"@
            ==> struct_name_of(node, content) == text_of(node.children[0], content),
        node.kind != "struct"@ || node.children.len() == 0 || node.children[0].kind
            != "identifier"@ ==> struct_name_of(node, content) is None,
        node.kind == "field"@ && node.children.len() > 0 && node.children[0].kind == "identifier"@
            ==> field_name_of(node, content) == text_of(node.children[0], content),
        node.kind != "field"@ || node.children.len() == 0 || node.children[0].kind
            != "identifier"@ ==> field_name_of(node, content) is None,
{
}

/// The value of a field is the child directly behind the first colon. Without a colon before another
/// child it is the last named child.
pub proof fn lemma_value_of_a_field(node: Syntax, c: int)
    requires
        node.kind == "field"@,
    ensures
        0 <= c < node.children.len() - 1 && node.children[c].kind == ":"@ && (forall|j: int|
            0 <= j < c ==> (#[trigger] node.children[j]).kind != ":"@) ==> field_value_of(node)
            == Some(node.children[c + 1]),
        (forall|j: int|
            0 <= j < node.children.len() - 1 ==> (#[trigger] node.children[j]).kind != ":"@) ==> {
            &&& 0 <= c < node.children.len() && node.children[c].named && (forall|j: int|
                c < j < node.children.len() ==> !(#[trigger] node.children[j]).named)
                ==> field_value_of(node) == Some(node.children[c])
            &&& (forall|j: int|
                0 <= j < node.children.len() ==> !(#[trigger] node.children[j]).named)
                ==> field_value_of(node) is None
        },
{
    let children = node.children;
    if 0 <= c < children.len() - 1 && children[c].kind == ":"@ && (forall|j: int|
        0 <= j < c ==> (#[trigger] children[j]).kind != ":"@) {
        lemma_first_colon(children, 0, c);
    }
    if forall|j: int| 0 <= j < children.len() - 1 ==> (#[trigger] children[j]).kind != ":"@ {
        lemma_no_colon(children, 0);
        if 0 <= c < children.len() && children[c].named && (forall|j: int|
            c < j < children.len() ==> !(#[trigger] children[j]).named) {
            lemma_last_named_at(children, c);
        }
        if forall|j: int| 0 <= j < children.len() ==> !(#[trigger] children[j]).named {
            lemma_none_named(children);
        }
    }
}

/// What is no field has no value.
pub proof fn lemma_no_value(node: Syntax)
    requires
        node.kind != "field"@,
    ensures
        field_value_of(node) is None,
{
}

proof fn lemma_first_colon(children: Seq<Syntax>, i: int, c: int)
    requires
        0 <= i <= c < children.len() - 1,
        children[c].kind == ":"@,
        forall|j: int| i <= j < c ==> (#[trigger] children[j]).kind != ":"@,
    ensures
        after_colon(children, i) == Some(c + 1),
    decreases c - i,
{
    if i < c {
        assert(children[i].kind != ":"@);
        lemma_first_colon(children, i + 1, c);
    }
}

proof fn lemma_no_colon(children: Seq<Syntax>, i: int)
    requires
        0 <= i,
        forall|j: int| i <= j < children.len() - 1 ==> (#[trigger] children[j]).kind != ":"@,
    ensures
        after_colon(children, i) is None,
    decreases children.len() - i,
{
    if i < children.len() - 1 {
        assert(children[i].kind != ":"@);
        lemma_no_colon(children, i + 1);
    }
}

proof fn lemma_last_named_at(children: Seq<Syntax>, c: int)
    requires
        0 <= c < children.len(),
        children[c].named,
        forall|j: int| c < j < children.len() ==> !(#[trigger] children[j]).named,
    ensures
        last_named(children) == Some(c),
    decreases children.len(),
{
    if c < children.len() - 1 {
        let rest = children.drop_last();
        assert(!children[children.len() - 1].named);
        assert forall|j: int| c < j < rest.len() implies !(#[trigger] rest[j]).named by {
            assert(rest[j] == children[j]);
        }
        assert(rest[c] == children[c]);
        lemma_last_named_at(rest, c);
    }
}

proof fn lemma_none_named(children: Seq<Syntax>)
    requires
        forall|j: int| 0 <= j < children.len() ==> !(#[trigger] children[j]).named,
    ensures
        last_named(children) is None,
    decreases children.len(),
{
    if children.len() > 0 {
        let rest = children.drop_last();
        assert(!children[children.len() - 1].named);
        assert forall|j: int| 0 <= j < rest.len() implies !(#[trigger] rest[j]).named by {
            assert(rest[j] == children[j]);
        }
        lemma_none_named(rest);
    }
}

/// The values of a struct are its named children that are no fields, in their order, and no other; the
/// name of the struct is none of them.
pub proof fn lemma_values_of_a_struct(node: Syntax, content: Seq<char>)
    requires
        node.kind == "struct"@,
    ensures
        struct_name_of(node, content) is None ==> is_image(
            values_of(node, content),
            node.children,
            no_field(),
        ),
        struct_name_of(node, content) is Some && node.children[0].named ==> is_image(
            values_of(node, content),
            node.children.skip(1),
            no_field(),
        ),
{
    if struct_name_of(node, content) is None {
        lemma_values_image(node.children);
    } else if node.children[0].named {
        assert("identifier"@ != "field"@) by {
            reveal_strlit("identifier");
            reveal_strlit("field");
            assert("identifier"@[0] == 'i' && "field"@[0] == 'f');
        }
        lemma_values_image(node.children.skip(1));
        assert(values_of(node, content) == values_among(node.children.skip(1), false));
    }
}

proof fn lemma_values_image(children: Seq<Syntax>)
    ensures
        values_among(children, false) == children.filter(
            |c: Syntax| c.named && c.kind != "field"@,
        ),
        is_image(values_among(children, false), children, no_field()),
    decreases children.len(),
{
    let p = |c: Syntax| c.named && c.kind != "field"@;
    lemma_filter_is_image(children, p);
    if children.len() > 0 {
        let rest = children.skip(1);
        lemma_values_image(rest);
        lemma_filter_front(children, p);
    } else {
        reveal(Seq::filter);
        assert(children.filter(p) == Seq::<Syntax>::empty());
    }
}

proof fn lemma_filter_front<A>(s: Seq<A>, p: spec_fn(A) -> bool)
    requires
        s.len() > 0,
    ensures
        s.filter(p) == (if p(s[0]) {
            seq![s[0]]
        } else {
            Seq::empty()
        }) + s.skip(1).filter(p),
    decreases s.len(),
{
    reveal(Seq::filter);
    if s.len() == 1 {
        assert(s.skip(1) == Seq::<A>::empty());
        assert(s.drop_last() == Seq::<A>::empty());
        assert(s.skip(1).filter(p) == Seq::<A>::empty());
        assert(s.drop_last().filter(p) == Seq::<A>::empty());
    } else {
        lemma_filter_front(s.drop_last(), p);
        assert(s.drop_last().skip(1) == s.skip(1).drop_last());
        assert(s.skip(1).last() == s.last());
        assert(s.drop_last()[0] == s[0]);
    }
}

/// The main value of a document is the first named node at its top level that is no annotation, no
/// extension and no comment.
pub proof fn lemma_main_value(root: Syntax, i: int)
    ensures
        0 <= i < root.children.len() && can_be_main(root.children[i]) && (forall|j: int|
            0 <= j < i ==> !can_be_main(#[trigger] root.children[j])) ==> main_value_of(root)
            == Some(root.children[i]),
        (forall|j: int| 0 <= j < root.children.len() ==> !can_be_main(#[trigger] root.children[j]))
            ==> main_value_of(root) is None,
{
    if 0 <= i < root.children.len() && can_be_main(root.children[i]) && (forall|j: int|
        0 <= j < i ==> !can_be_main(#[trigger] root.children[j])) {
        lemma_first_main(root.children, 0, i);
    }
    if forall|j: int| 0 <= j < root.children.len() ==> !can_be_main(#[trigger] root.children[j]) {
        lemma_no_main(root.children, 0);
    }
}

/// Whether a node can be the main value of a document.
pub open spec fn can_be_main(node: Syntax) -> bool {
    node.named && !(seq![
        "type_annotation"@,
        "extensions"@,
        "extension"@,
        "line_comment"@,
        "block_comment"@,
    ]).contains(node.kind)
}

proof fn lemma_can_be_main(node: Syntax)
    ensures
        can_be_main(node) == crate::ts_utils::is_value(node),
{
    let kinds = seq![
        "type_annotation"@,
        "extensions"@,
        "extension"@,
        "line_comment"@,
        "block_comment"@,
    ];
    assert(kinds[0] == "type_annotation"@ && kinds[1] == "extensions"@ && kinds[2] == "extension"@
        && kinds[3] == "line_comment"@ && kinds[4] == "block_comment"@);
    if kinds.contains(node.kind) {
        let k = choose|k: int| 0 <= k < kinds.len() && kinds[k] == node.kind;
        assert(k == 0 || k == 1 || k == 2 || k == 3 || k == 4);
    }
}

proof fn lemma_first_main(children: Seq<Syntax>, k: int, i: int)
    requires
        0 <= k <= i < children.len(),
        can_be_main(children[i]),
        forall|j: int| k <= j < i ==> !can_be_main(#[trigger] children[j]),
    ensures
        first_value(children, k) == Some(children[i]),
    decreases i - k,
{
    lemma_can_be_main(children[k]);
    if k < i {
        assert(!can_be_main(children[k]));
        lemma_first_main(children, k + 1, i);
    }
}

proof fn lemma_no_main(children: Seq<Syntax>, k: int)
    requires
        0 <= k,
        forall|j: int| k <= j < children.len() ==> !can_be_main(#[trigger] children[j]),
    ensures
        first_value(children, k) is None,
    decreases children.len() - k,
{
    if k < children.len() {
        lemma_can_be_main(children[k]);
        assert(!can_be_main(children[k]));
        lemma_no_main(children, k + 1);
    }
}

/// A struct, an array, a map, a tuple or a unit is empty where it has no named children; nothing else
/// is empty.
pub proof fn lemma_empty(node: Syntax)
    ensures
        is_empty_of(node) <==> named_children_of(node).len() == 0 && (seq![
            "struct"@,
            "array"@,
            "map"@,
            "tuple"@,
            "unit"@,
        ]).contains(node.kind),
{
    let kinds = seq!["struct"@, "array"@, "map"@, "tuple"@, "unit"@];
    assert(kinds[0] == "struct"@ && kinds[1] == "array"@ && kinds[2] == "map"@ && kinds[3]
        == "tuple"@ && kinds[4] == "unit"@);
    if kinds.contains(node.kind) {
        let k = choose|k: int| 0 <= k < kinds.len() && kinds[k] == node.kind;
        assert(k == 0 || k == 1 || k == 2 || k == 3 || k == 4);
    }
    lemma_children(node, node.kind);
    if is_empty_of(node) && named_children_of(node).len() > 0 {
        let i = lemma_image_comes_from(named_children_of(node), node.children, with_name(), 0);
        assert(!node.children[i].named);
    }
    if named_children_of(node).len() == 0 && !(forall|i: int|
        0 <= i < node.children.len() ==> !(#[trigger] node.children[i]).named) {
        let i = choose|i: int| 0 <= i < node.children.len() && (#[trigger] node.children[i]).named;
        assert(with_name()(node.children[i]) is Some);
        lemma_image_holds(named_children_of(node), node.children, with_name(), i);
    }
}

// ---------------------------------------------------------------------------
// The nodes around a position
// ---------------------------------------------------------------------------

/// The innermost node of a kind on a path, and the nearest one above its end.
pub proof fn lemma_nearest_of_kind(path: Seq<Syntax>, kind: Seq<char>, k: int)
    ensures
        0 <= k < path.len() && path[k].kind == kind && (forall|j: int|
            k < j < path.len() ==> (#[trigger] path[j]).kind != kind) ==> innermost(path, kind)
            == Some(path[k]),
        (forall|j: int| 0 <= j < path.len() ==> (#[trigger] path[j]).kind != kind) ==> innermost(
            path,
            kind,
        ) is None,
        0 <= k < path.len() - 1 && path[k].kind == kind && (forall|j: int|
            k < j < path.len() - 1 ==> (#[trigger] path[j]).kind != kind) ==> ancestor_of_kind(
            path,
            kind,
        ) == Some(path.take(k + 1)),
        (forall|j: int| 0 <= j < path.len() - 1 ==> (#[trigger] path[j]).kind != kind)
            ==> ancestor_of_kind(path, kind) is None,
    decreases path.len(),
{
    if path.len() > 0 {
        let rest = path.drop_last();
        lemma_nearest_of_kind(rest, kind, k);
        assert(path.last() == path[path.len() - 1]);
        if 0 <= k < path.len() && path[k].kind == kind && (forall|j: int|
            k < j < path.len() ==> (#[trigger] path[j]).kind != kind) {
            if k < path.len() - 1 {
                assert(path[path.len() - 1].kind != kind);
                assert forall|j: int| k < j < rest.len() implies (#[trigger] rest[j]).kind
                    != kind by {
                    assert(rest[j] == path[j]);
                }
                assert(rest[k] == path[k]);
            }
        }
        if forall|j: int| 0 <= j < path.len() ==> (#[trigger] path[j]).kind != kind {
            assert(path[path.len() - 1].kind != kind);
            assert forall|j: int| 0 <= j < rest.len() implies (#[trigger] rest[j]).kind != kind by {
                assert(rest[j] == path[j]);
            }
        }
        if path.len() > 1 {
            let above = path[path.len() - 2];
            if 0 <= k < path.len() - 1 && path[k].kind == kind && (forall|j: int|
                k < j < path.len() - 1 ==> (#[trigger] path[j]).kind != kind) {
                if k < path.len() - 2 {
                    assert(path[path.len() - 2].kind != kind);
                    assert forall|j: int| k < j < rest.len() - 1 implies (#[trigger] rest[j]).kind
                        != kind by {
                        assert(rest[j] == path[j]);
                    }
                    assert(rest[k] == path[k]);
                    assert(rest.take(k + 1) == path.take(k + 1));
                    assert(ancestor_index(rest, kind) is Some);
                    lemma_index_in_path(rest, kind);
                    let a = ancestor_index(rest, kind)->0;
                    assert(rest.take(a + 1).len() == a + 1);
                    assert(rest.take(a + 1) == path.take(a + 1));
                }
            }
            if forall|j: int| 0 <= j < path.len() - 1 ==> (#[trigger] path[j]).kind != kind {
                assert(path[path.len() - 2].kind != kind);
                assert forall|j: int| 0 <= j < rest.len() - 1 implies (#[trigger] rest[j]).kind
                    != kind by {
                    assert(rest[j] == path[j]);
                }
            }
        }
    }
}

proof fn lemma_index_in_path(path: Seq<Syntax>, kind: Seq<char>)
    ensures
        ancestor_index(path, kind) matches Some(a) ==> 0 <= a < path.len() - 1,
    decreases path.len(),
{
    if path.len() > 1 {
        lemma_index_in_path(path.drop_last(), kind);
    }
}

/// The field at a position is the innermost field around it, and the variant is the innermost struct,
/// each under its name.
pub proof fn lemma_around_a_position(path: Seq<Syntax>, content: Seq<char>, k: int)
    requires
        0 <= k < path.len(),
    ensures
        path[k].kind == "field"@ && (forall|j: int|
            k < j < path.len() ==> (#[trigger] path[j]).kind != "field"@) ==> field_at(
            Some(path),
            content,
        ) == field_name_of(path[k], content),
        path[k].kind == "struct"@ && (forall|j: int|
            k < j < path.len() ==> (#[trigger] path[j]).kind != "struct"@) ==> variant_at(
            Some(path),
            content,
        ) == struct_name_of(path[k], content),
        (forall|j: int| 0 <= j < path.len() ==> (#[trigger] path[j]).kind != "field"@) ==> field_at(
            Some(path),
            content,
        ) is None,
        (forall|j: int| 0 <= j < path.len() ==> (#[trigger] path[j]).kind != "struct"@)
            ==> variant_at(Some(path), content) is None,
        field_at(None, content) is None,
        variant_at(None, content) is None,
{
    lemma_nearest_of_kind(path, "field"@, k);
    lemma_nearest_of_kind(path, "struct"@, k);
}

/// The line of a character is the number of line breaks before it. Its column is its distance from the
/// last of them, or from the start of the text.
pub proof fn lemma_line_and_column(s: Seq<char>, k: int)
    requires
        0 <= k <= s.len(),
    ensures
        line_of(s, k) == s.take(k).filter(|c: char| c == '\n').len(),
        column_of(s, k) <= k,
        forall|i: int| k - column_of(s, k) <= i < k ==> #[trigger] s[i] != '\n',
        column_of(s, k) < k ==> s[k - column_of(s, k) - 1] == '\n',
    decreases k,
{
    reveal(Seq::filter);
    let breaks = |c: char| c == '\n';
    if k > 0 {
        lemma_line_and_column(s, k - 1);
        let head = s.take(k);
        assert(head.drop_last() == s.take(k - 1));
        assert(head.last() == s[k - 1]);
    } else {
        assert(s.take(0).filter(breaks).len() == 0);
    }
}

/// The range of a node in the protocol is its place, where that can be written in the protocol.
pub proof fn lemma_range(node: Syntax)
    ensures
        node.start_position.row <= u32::MAX ==> range_of(node).start.line
            == node.start_position.row,
        node.start_position.column <= u32::MAX ==> range_of(node).start.character
            == node.start_position.column,
        node.end_position.row <= u32::MAX ==> range_of(node).end.line == node.end_position.row,
        node.end_position.column <= u32::MAX ==> range_of(node).end.character
            == node.end_position.column,
{
}

// ---------------------------------------------------------------------------
// The fields that a document sets
// ---------------------------------------------------------------------------

/// The name of a field.
pub open spec fn naming(content: Seq<char>) -> spec_fn(Syntax) -> Option<Seq<char>> {
    |field: Syntax| field_name_of(field, content)
}

/// The names of fields are those of the fields that have one, in their order, and no other.
pub proof fn lemma_names_of_fields(fields: Seq<Syntax>, content: Seq<char>)
    ensures
        is_image(field_names(fields, content), fields, naming(content)),
    decreases fields.len(),
{
    if fields.len() == 0 {
        assert(fields == Seq::<Syntax>::empty());
        lemma_image_of_nothing(naming(content));
    } else {
        let rest = fields.drop_last();
        lemma_names_of_fields(rest, content);
        lemma_image_step(field_names(rest, content), rest, naming(content), fields.last());
        assert(rest.push(fields.last()) == fields);
        assert(field_names(fields, content) == field_names(rest, content) + if_any(
            naming(content)(fields.last()),
        ));
    }
}

/// A document whose main value is a struct sets the fields of that struct.
pub proof fn lemma_fields_of_a_document(root: Syntax, main: Syntax, content: Seq<char>)
    requires
        main_value_of(root) == Some(main),
    ensures
        main.kind == "struct"@ ==> is_image(
            fields_of(Some(root), content),
            named_fields_of(main),
            naming(content),
        ),
        main.kind != "struct"@ && main.kind != "ERROR"@ ==> fields_of(Some(root), content).len() == 0,
        fields_of(None, content).len() == 0,
{
    lemma_names_of_fields(named_fields_of(main), content);
}

/// Where a document is broken, the fields of the first struct at its top level are those that it sets.
pub proof fn lemma_fields_of_a_broken_document(root: Syntax, content: Seq<char>, i: int)
    requires
        main_value_of(root) matches Some(main) ==> main.kind == "ERROR"@,
        0 <= i < root.children.len(),
        root.children[i].kind == "struct"@,
        forall|j: int| 0 <= j < i ==> (#[trigger] root.children[j]).kind != "struct"@,
    ensures
        is_image(
            fields_of(Some(root), content),
            named_fields_of(root.children[i]),
            naming(content),
        ),
{
    let structs = children_of_kind(root, "struct"@);
    lemma_first_kept(root.children, |c: Syntax| c.kind == "struct"@, i);
    lemma_names_of_fields(named_fields_of(root.children[i]), content);
    assert("ERROR"@ != "struct"@) by {
        reveal_strlit("ERROR");
        reveal_strlit("struct");
        assert("ERROR"@[0] == 'E' && "struct"@[0] == 's');
    }
    assert(structs[0] == root.children[i]);
}

proof fn lemma_first_kept<A>(s: Seq<A>, p: spec_fn(A) -> bool, i: int)
    requires
        0 <= i < s.len(),
        p(s[i]),
        forall|j: int| 0 <= j < i ==> !p(#[trigger] s[j]),
    ensures
        s.filter(p).len() > 0,
        s.filter(p)[0] == s[i],
    decreases s.len(),
{
    lemma_filter_front(s, p);
    if i > 0 {
        assert(!p(s[0]));
        let rest = s.skip(1);
        assert(rest[i - 1] == s[i]);
        assert forall|j: int| 0 <= j < i - 1 implies !p(#[trigger] rest[j]) by {
            assert(rest[j] == s[j + 1]);
        }
        lemma_first_kept(rest, p, i - 1);
    }
}

// ---------------------------------------------------------------------------
// Variants
// ---------------------------------------------------------------------------

/// What stands between the first opening and the last closing parenthesis.
pub proof fn lemma_between_parens(before: Seq<char>, inside: Seq<char>, after: Seq<char>)
    requires
        !before.contains('('),
        !after.contains(')'),
    ensures
        between_parens(before + seq!['('] + inside + seq![')'] + after) == Some(inside),
        parens_in_order(before + seq!['('] + inside + seq![')'] + after),
{
    let s = before + seq!['('] + inside + seq![')'] + after;
    let open = before.len() as int;
    let close = open + 1 + inside.len();
    assert(s[open] == '(');
    assert forall|j: int| 0 <= j < open implies s[j] != '(' by {
        assert(s[j] == before[j]);
        assert(before.contains(before[j]));
    }
    text::lemma_find_char_at(s, '(', 0, open);
    text::lemma_rfind_char(s, ')');
    assert(s[close] == ')');
    assert forall|j: int| close < j < s.len() implies s[j] != ')' by {
        assert(s[j] == after[j - close - 1]);
        assert(after.contains(after[j - close - 1]));
    }
    let found = text::rfind_char_in(s, ')')->0;
    if found < close {
        assert(s[close] != ')');
    } else if found > close {
        assert(s[found] != ')');
    }
    assert(s.subrange(open + 1, close) == inside);
}

/// An identifier is a variant without data; a struct with a name is one too, with what stands between
/// its parentheses for data where it has fields or values. Nothing else is a variant.
pub proof fn lemma_variant(node: Syntax, content: Seq<char>)
    ensures
        node.kind == "identifier"@ ==> match text_of(node, content) {
            Some(name) => enum_variant_of(node, content) matches Some(variant) && variant.name
                == name && variant.data is None && variant.line == range_of(node).start.line
                && variant.col == range_of(node).start.character,
            None => enum_variant_of(node, content) is None,
        },
        node.kind == "struct"@ ==> match struct_name_of(node, content) {
            Some(name) => if named_fields_of(node).len() > 0 || values_of(node, content).len() > 0 {
                match text_of(node, content) {
                    Some(text) => enum_variant_of(node, content) matches Some(variant)
                        && variant.name == name && variant.data == between_parens(text)
                        && variant.line == range_of(node).start.line && variant.col == range_of(
                        node,
                    ).start.character,
                    None => enum_variant_of(node, content) is None,
                }
            } else {
                enum_variant_of(node, content) matches Some(variant) && variant.name == name
                    && variant.data is None && variant.line == range_of(node).start.line
                    && variant.col == range_of(node).start.character
            },
            None => enum_variant_of(node, content) is None,
        },
        node.kind != "identifier"@ && node.kind != "struct"@ ==> enum_variant_of(node, content)
            is None,
{
    assert("identifier"@ != "struct"@) by {
        reveal_strlit("identifier");
        reveal_strlit("struct");
        assert("identifier"@[0] == 'i' && "struct"@[0] == 's');
    }
}

/// The node at a path of child indices below a node.
pub open spec fn node_at(node: Syntax, path: Seq<int>) -> Option<Syntax>
    decreases path.len(),
{
    if path.len() == 0 {
        Some(node)
    } else if 0 <= path[0] < node.children.len() {
        node_at(node.children[path[0]], path.skip(1))
    } else {
        None
    }
}

/// Whether a node is an identifier in capitals that is not the name of a field.
pub open spec fn is_potential_variant(node: Syntax, path: Seq<int>, content: Seq<char>) -> bool {
    &&& path.len() > 0
    &&& node_at(node, path) matches Some(found) && found.kind == "identifier"@ && (text_of(
        found,
        content,
    ) matches Some(name) && name.len() > 0 && text::uppercase_char(name[0]))
    &&& !(path.last() == 0 && (node_at(node, path.drop_last()) matches Some(above) && above.kind
        == "field"@))
}

/// Each identifier in capitals below a node that is not the name of a field is a potential variant.
pub proof fn lemma_each_potential_variant(
    node: Syntax,
    names_field: bool,
    path: Seq<int>,
    content: Seq<char>,
)
    requires
        is_potential_variant(node, path, content),
    ensures
        variants_within(node, names_field, content).contains(node_at(node, path)->0),
    decreases path.len(),
{
    let i = path[0];
    let child = node.children[i];
    let rest = path.skip(1);
    let first = node.kind == "field"@ && i == 0;
    let found = node_at(node, path)->0;
    let below = variants_within(child, first, content);
    if rest.len() == 0 {
        assert(path.drop_last() == Seq::<int>::empty());
        assert(node_at(node, path.drop_last()) == Some(node));
        assert(path.last() == i);
        assert(found == child);
        assert(below[0] == child);
    } else {
        assert(rest.last() == path.last());
        assert(path.drop_last().skip(1) == rest.drop_last());
        assert(path.drop_last()[0] == i);
        assert(node_at(node, path.drop_last()) == node_at(child, rest.drop_last()));
        lemma_each_potential_variant(child, first, rest, content);
    }
    lemma_variants_of_child(node, node.children.len(), i, content, found);
    let all = variants_below(node, node.children.len(), content);
    let k = choose|k: int| 0 <= k < all.len() && all[k] == found;
    let whole = variants_within(node, names_field, content);
    let m = whole.len() - all.len() + k;
    assert(whole[m] == found);
}

proof fn lemma_variants_of_child(
    node: Syntax,
    n: nat,
    i: int,
    content: Seq<char>,
    found: Syntax,
)
    requires
        0 <= i < n <= node.children.len(),
        variants_within(node.children[i], node.kind == "field"@ && i == 0, content).contains(found),
    ensures
        variants_below(node, n, content).contains(found),
    decreases n,
{
    let before = variants_below(node, (n - 1) as nat, content);
    let all = variants_below(node, n, content);
    if i == n - 1 {
        let own = variants_within(node.children[i], node.kind == "field"@ && n == 1, content);
        let k = choose|k: int| 0 <= k < own.len() && own[k] == found;
        assert(all[before.len() + k] == found);
    } else {
        lemma_variants_of_child(node, (n - 1) as nat, i, content, found);
        let k = choose|k: int| 0 <= k < before.len() && before[k] == found;
        assert(all[k] == found);
    }
}

/// The potential variants in a node: the node itself, where it is one, and then those in its children,
/// one child after the other.
pub proof fn lemma_potential_variants_in_order(node: Syntax, names_field: bool, content: Seq<char>)
    ensures
        variants_within(node, names_field, content) == (if !names_field && node.kind
            == "identifier"@ && (text_of(node, content) matches Some(name) && name.len() > 0
            && text::uppercase_char(name[0])) {
            seq![node]
        } else {
            Seq::empty()
        }) + Seq::new(
            node.children.len(),
            |i: int|
                variants_within(node.children[i], node.kind == "field"@ && i == 0, content),
        ).flatten(),
{
    lemma_variants_flat(node, node.children.len(), content);
}

proof fn lemma_variants_flat(node: Syntax, n: nat, content: Seq<char>)
    requires
        n <= node.children.len(),
    ensures
        variants_below(node, n, content) == Seq::new(
            n,
            |i: int|
                variants_within(node.children[i], node.kind == "field"@ && i == 0, content),
        ).flatten(),
    decreases n,
{
    let lists = Seq::new(
        n,
        |i: int| variants_within(node.children[i], node.kind == "field"@ && i == 0, content),
    );
    if n > 0 {
        let m = (n - 1) as nat;
        lemma_variants_flat(node, m, content);
        let before = Seq::new(
            m,
            |i: int| variants_within(node.children[i], node.kind == "field"@ && i == 0, content),
        );
        assert(lists == before.push(lists[n - 1]));
        before.lemma_flatten_push(lists[n - 1]);
    }
}

// ---------------------------------------------------------------------------
// The locations of variants
// ---------------------------------------------------------------------------

/// A field with a named struct for a value has a location for each field of the struct, in their
/// order, and one alone where the struct has no fields. Other nodes have none.
pub proof fn lemma_locations_of_a_field(node: Syntax, content: Seq<char>)
    ensures
        match (field_name_of(node, content), field_value_of(node)) {
            (Some(containing), Some(value)) => match struct_name_of(value, content) {
                Some(variant) => {
                    let fields = named_fields_of(value);
                    let found = own_locations(node, content);
                    &&& found.len() == (if fields.len() == 0 {
                        1
                    } else {
                        fields.len()
                    })
                    &&& forall|i: int|
                        0 <= i < found.len() ==> (#[trigger] found[i]).variant_name == variant
                            && found[i].containing_field_name == containing && found[i].end_position
                            == value.end_position && found[i].has_fields == (fields.len() > 0)
                    &&& forall|i: int|
                        0 <= i < fields.len() ==> (#[trigger] found[i]).field_at_position
                            == field_name_of(fields[i], content) && found[i].line_idx
                            == fields[i].start_position.row
                    &&& fields.len() == 0 ==> found[0].field_at_position is None
                        && found[0].line_idx == value.start_position.row
                },
                None => own_locations(node, content).len() == 0,
            },
            _ => own_locations(node, content).len() == 0,
        },
{
    if let (Some(containing), Some(value)) = (field_name_of(node, content), field_value_of(node)) {
        if let Some(variant) = struct_name_of(value, content) {
            let fields = named_fields_of(value);
            if fields.len() > 0 {
                lemma_locations_in_variant(value, fields.len(), variant, containing, content);
            }
        }
    }
}

proof fn lemma_locations_in_variant(
    value: Syntax,
    n: nat,
    variant: Seq<char>,
    containing: Seq<char>,
    content: Seq<char>,
)
    requires
        n <= named_fields_of(value).len(),
    ensures
        ({
            let fields = named_fields_of(value);
            let found = locations_in_variant(value, n, variant, containing, content);
            &&& found.len() == n
            &&& forall|i: int|
                0 <= i < n ==> (#[trigger] found[i]).variant_name == variant
                    && found[i].containing_field_name == containing && found[i].end_position
                    == value.end_position && found[i].has_fields && found[i].field_at_position
                    == field_name_of(fields[i], content) && found[i].line_idx
                    == fields[i].start_position.row
        }),
    decreases n,
{
    if n > 0 {
        lemma_locations_in_variant(value, (n - 1) as nat, variant, containing, content);
    }
}

/// The locations in a node: its own, and then those in its children, one child after the other.
pub proof fn lemma_locations_in_order(node: Syntax, content: Seq<char>)
    ensures
        locations_within(node, content) == own_locations(node, content) + Seq::new(
            node.children.len(),
            |i: int| locations_within(node.children[i], content),
        ).flatten(),
        locations_of(Some(node), content) == locations_within(node, content),
        locations_of(None, content).len() == 0,
{
    lemma_locations_flat(node, node.children.len(), content);
}

proof fn lemma_locations_flat(node: Syntax, n: nat, content: Seq<char>)
    requires
        n <= node.children.len(),
    ensures
        locations_below(node, n, content) == Seq::new(
            n,
            |i: int| locations_within(node.children[i], content),
        ).flatten(),
    decreases n,
{
    let lists = Seq::new(n, |i: int| locations_within(node.children[i], content));
    if n > 0 {
        let m = (n - 1) as nat;
        lemma_locations_flat(node, m, content);
        let before = Seq::new(m, |i: int| locations_within(node.children[i], content));
        assert(lists == before.push(lists[n - 1]));
        before.lemma_flatten_push(lists[n - 1]);
    }
}

/// The locations of each node below a node are among those in it.
pub proof fn lemma_each_location(node: Syntax, path: Seq<int>, content: Seq<char>, k: int)
    requires
        node_at(node, path) is Some,
        0 <= k < own_locations(node_at(node, path)->0, content).len(),
    ensures
        locations_within(node, content).contains(
            own_locations(node_at(node, path)->0, content)[k],
        ),
    decreases path.len(),
{
    let whole = locations_within(node, content);
    let own = own_locations(node, content);
    let all = locations_below(node, node.children.len(), content);
    if path.len() == 0 {
        assert(whole[k] == own[k]);
    } else {
        let i = path[0];
        let rest = path.skip(1);
        let place = own_locations(node_at(node, path)->0, content)[k];
        lemma_each_location(node.children[i], rest, content, k);
        lemma_locations_of_child(node, node.children.len(), i, content, place);
        let m = choose|m: int| 0 <= m < all.len() && all[m] == place;
        assert(whole[own.len() + m] == place);
    }
}

proof fn lemma_locations_of_child(
    node: Syntax,
    n: nat,
    i: int,
    content: Seq<char>,
    place: LocationModel,
)
    requires
        0 <= i < n <= node.children.len(),
        locations_within(node.children[i], content).contains(place),
    ensures
        locations_below(node, n, content).contains(place),
    decreases n,
{
    let before = locations_below(node, (n - 1) as nat, content);
    let all = locations_below(node, n, content);
    if i == n - 1 {
        let own = locations_within(node.children[i], content);
        let k = choose|k: int| 0 <= k < own.len() && own[k] == place;
        assert(all[before.len() + k] == place);
    } else {
        lemma_locations_of_child(node, (n - 1) as nat, i, content, place);
        let k = choose|k: int| 0 <= k < before.len() && before[k] == place;
        assert(all[k] == place);
    }
}

/// The nodes at a position are those at the byte where its character starts.
pub proof fn lemma_nodes_at_a_position(
    source: Seq<char>,
    content: Seq<char>,
    position: Position,
    k: int,
)
    requires
        0 <= k < content.len(),
        line_of(content, k) == position.line,
        column_of(content, k) == position.character,
    ensures
        crate::ts_utils::path_at(source, content, position) == crate::syntax::spanning_path(
            source,
            vstd::utf8::encode_utf8(content.take(k)).len() as usize,
            vstd::utf8::encode_utf8(content.take(k)).len() as usize,
        ),
{
    crate::ts_utils::lemma_position_round_trip(content, k, position);
}

/// The nodes at a position of a document are those in the tree that is read from it.
pub proof fn lemma_nodes_in_a_document(content: Seq<char>, position: Position)
    ensures
        crate::syntax::ron_syntax(content) is Some ==> crate::ts_utils::document_path(
            content,
            position,
        ) == crate::ts_utils::path_at(content, content, position),
        crate::syntax::ron_syntax(content) is None ==> crate::ts_utils::document_path(
            content,
            position,
        ) is None,
{
}

} // verus!
