//! What the edits of code actions do to a document.

use crate::code_actions::{
    before_end, default_value_of, explicit_root, field_lines, insertion, insertion_into,
    insertion_target, insert_before,
};
use crate::lsp::EditModel;
use crate::rust_analyzer::FieldInfo;
use crate::syntax::{Point, Syntax};
use crate::text;
use crate::tree_sitter_parser::{field_names, fields_of};
use crate::ts_utils;
use vstd::prelude::*;
use vstd::utf8::*;

verus! {

/// A document with an edit applied: the part before the range, the new text, and the part behind the
/// range.
pub open spec fn applied(content: Seq<char>, edit: EditModel) -> Seq<char> {
    content.take(ts_utils::position_index(content, edit.range.start)) + edit.new_text
        + content.skip(ts_utils::position_index(content, edit.range.end))
}

/// Whether a row and a column are those of the character with an index, and can be written in the
/// protocol.
pub open spec fn is_place_of(point: Point, content: Seq<char>, k: int) -> bool {
    &&& 0 <= k <= content.len()
    &&& point.row == ts_utils::line_of(content, k)
    &&& point.column == ts_utils::column_of(content, k)
    &&& point.row <= u32::MAX
    &&& point.column <= u32::MAX
}

/// Whether a node spans the text `own` in a document that has the text `before` before it.
pub open spec fn spans(node: Syntax, before: Seq<char>, own: Seq<char>) -> bool {
    &&& node.start_byte == encode_utf8(before).len()
    &&& node.end_byte == encode_utf8(before).len() + encode_utf8(own).len()
}

/// The text of a node that spans it.
pub proof fn lemma_text_of_span(node: Syntax, before: Seq<char>, own: Seq<char>, rest: Seq<char>)
    requires
        spans(node, before, own),
    ensures
        ts_utils::text_of(node, before + own + rest) == Some(own),
{
    ts_utils::lemma_encode_concat(before + own, rest);
    ts_utils::lemma_encode_concat(before, own);
    let bytes = encode_utf8(before + own + rest);
    let start = node.start_byte as int;
    let end = node.end_byte as int;
    assert(bytes.subrange(start, end) == encode_utf8(own));
    encode_utf8_valid_utf8(own);
    encode_utf8_decode_utf8(own);
}

/// A node in the common start of two documents has the same text in both.
pub proof fn lemma_text_of_start(node: Syntax, start: Seq<char>, a: Seq<char>, b: Seq<char>)
    requires
        node.end_byte <= encode_utf8(start).len(),
    ensures
        ts_utils::text_of(node, start + a) == ts_utils::text_of(node, start + b),
{
    ts_utils::lemma_encode_concat(start, a);
    ts_utils::lemma_encode_concat(start, b);
    if node.start_byte <= node.end_byte {
        let from = node.start_byte as int;
        let to = node.end_byte as int;
        assert(encode_utf8(start + a).subrange(from, to) == encode_utf8(start).subrange(from, to));
        assert(encode_utf8(start + b).subrange(from, to) == encode_utf8(start).subrange(from, to));
    }
}

/// An insertion at the place of a character puts the new text directly before it, and changes
/// nothing else.
pub proof fn lemma_applied_insertion(content: Seq<char>, edit: EditModel, k: int)
    requires
        0 <= k < content.len(),
        edit.range.start == edit.range.end,
        ts_utils::stands_at(content, k, edit.range.start),
    ensures
        applied(content, edit) == content.take(k) + edit.new_text + content.skip(k),
{
    ts_utils::lemma_position_round_trip(content, k, edit.range.start);
}

// ---------------------------------------------------------------------------
// Naming the struct of a document
// ---------------------------------------------------------------------------

/// The action that names the struct of a document makes one edit. It puts the name directly before
/// the struct's opening parenthesis and changes nothing else.
pub proof fn lemma_naming_the_root(
    content: Seq<char>,
    root: Syntax,
    value: Syntax,
    k: int,
    path: Seq<char>,
    uri: Seq<char>,
)
    requires
        explicit_root(Some(root), content, path, uri) is Some,
        ts_utils::main_value_of(root) == Some(value),
        0 <= k < content.len(),
        content[k] == '(',
        is_place_of(value.start_position, content, k),
    ensures
        explicit_root(Some(root), content, path, uri) matches Some(action) && {
            let changes = action.changes->0;
            let edit = changes[0].edits[0];
            let after = applied(content, edit);
            &&& action.changes is Some && changes.len() == 1
            &&& changes[0].uri == uri && changes[0].edits.len() == 1
            &&& edit.range.start == edit.range.end
            &&& after == content.take(k) + text::last_segment(path) + content.skip(k)
            &&& after[k + text::last_segment(path).len()] == '('
        },
{
    let edit = insert_before(value, text::last_segment(path));
    assert(ts_utils::stands_at(content, k, edit.range.start));
    lemma_applied_insertion(content, edit, k);
}

/// A document whose main value is a struct with a name gives no action that names it.
pub proof fn lemma_named_root(
    content: Seq<char>,
    root: Syntax,
    value: Syntax,
    path: Seq<char>,
    uri: Seq<char>,
)
    requires
        ts_utils::main_value_of(root) == Some(value),
        ts_utils::struct_name_of(value, content) is Some,
    ensures
        explicit_root(Some(root), content, path, uri) is None,
{
}

/// Once the struct of a document has the name, there is nothing more to name: where the syntax tree
/// of the edited document has the inserted name as the name of its main value, no action names it.
pub proof fn lemma_root_is_named_once(
    content: Seq<char>,
    k: int,
    again: Syntax,
    named: Syntax,
    path: Seq<char>,
    uri: Seq<char>,
)
    requires
        0 <= k <= content.len(),
        ts_utils::main_value_of(again) == Some(named),
        named.kind == "struct"@,
        named.children.len() > 0,
        named.children[0].kind == "identifier"@,
        spans(named.children[0], content.take(k), text::last_segment(path)),
    ensures
        ts_utils::struct_name_of(
            named,
            content.take(k) + text::last_segment(path) + content.skip(k),
        ) == Some(text::last_segment(path)),
        explicit_root(
            Some(again),
            content.take(k) + text::last_segment(path) + content.skip(k),
            path,
            uri,
        ) is None,
{
    lemma_text_of_span(
        named.children[0],
        content.take(k),
        text::last_segment(path),
        content.skip(k),
    );
    lemma_named_root(
        content.take(k) + text::last_segment(path) + content.skip(k),
        again,
        named,
        path,
        uri,
    );
}

// ---------------------------------------------------------------------------
// Inserting fields
// ---------------------------------------------------------------------------

/// The place before the closing parenthesis that a node ends in is that of the parenthesis.
proof fn lemma_before_end(content: Seq<char>, end: Point, k: int)
    requires
        0 <= k < content.len(),
        content[k] == ')',
        is_place_of(end, content, k + 1),
    ensures
        ts_utils::stands_at(content, k, before_end(end)),
{
    assert(ts_utils::line_of(content, k + 1) == ts_utils::line_of(content, k));
    assert(ts_utils::column_of(content, k + 1) == ts_utils::column_of(content, k) + 1);
}

/// What the edit that inserts fields into a struct writes before the first of them.
pub open spec fn lead_of(target: Syntax) -> Seq<char> {
    if ts_utils::named_fields_of(target).len() > 0 {
        ",\n"@
    } else if before_end(target.end_position).line > 0 {
        "\n"@
    } else {
        Seq::empty()
    }
}

/// The edit that inserts fields puts its lines directly before the closing parenthesis of the struct
/// and changes nothing else.
pub proof fn lemma_inserting_fields(
    content: Seq<char>,
    root: Syntax,
    target: Syntax,
    k: int,
    fields: Seq<&FieldInfo>,
)
    requires
        insertion_target(root) == Some(target),
        0 <= k < content.len(),
        content[k] == ')',
        is_place_of(target.end_position, content, k + 1),
    ensures
        insertion(Some(root), fields) matches Some(edit) && {
            &&& edit.range.start == edit.range.end
            &&& edit.new_text == lead_of(target) + field_lines(fields, fields.len())
            &&& applied(content, edit) == content.take(k) + edit.new_text + content.skip(k)
        },
{
    let edit = insertion_into(target, fields);
    lemma_before_end(content, target.end_position, k);
    lemma_applied_insertion(content, edit, k);
}

/// What stands before the name of the field with index `j` among inserted fields.
pub open spec fn before_name(
    start: Seq<char>,
    lead: Seq<char>,
    fields: Seq<&FieldInfo>,
    j: int,
) -> Seq<char> {
    start + lead + field_lines(fields, j as nat) + "    "@
}

/// Whether a node is the field with index `j` among inserted fields: its name and its value stand
/// where they were written.
pub open spec fn is_inserted_field(
    node: Syntax,
    start: Seq<char>,
    lead: Seq<char>,
    fields: Seq<&FieldInfo>,
    j: int,
) -> bool {
    let before = before_name(start, lead, fields, j);
    &&& node.kind == "field"@
    &&& node.children.len() > 0
    &&& node.children[0].kind == "identifier"@
    &&& spans(node.children[0], before, fields[j].name@)
    &&& ts_utils::field_value_of(node) matches Some(value) && spans(
        value,
        before + fields[j].name@ + ": "@,
        default_value_of(fields[j].type_text@),
    )
}

/// Whether a field, its name and its value, stands in the start of a document.
pub open spec fn is_in_start(node: Syntax, start: Seq<char>) -> bool {
    &&& node.children.len() > 0
    &&& node.children[0].end_byte <= encode_utf8(start).len()
    &&& ts_utils::field_value_of(node) matches Some(value) ==> value.end_byte <= encode_utf8(
        start,
    ).len()
}

/// The names of fields.
pub open spec fn names_of(fields: Seq<&FieldInfo>) -> Seq<Seq<char>> {
    fields.map_values(|f: &FieldInfo| f.name@)
}

/// The lines of inserted fields go on with the field with index `j`.
proof fn lemma_field_line(fields: Seq<&FieldInfo>, n: nat, j: int) -> (rest: Seq<char>)
    requires
        0 <= j < n <= fields.len(),
    ensures
        field_lines(fields, n) == field_lines(fields, j as nat) + "    "@ + fields[j].name@ + ": "@
            + default_value_of(fields[j].type_text@) + rest,
    decreases n,
{
    let own = (if n < fields.len() {
        seq![',']
    } else {
        Seq::empty()
    }) + seq!['\n'];
    let head = field_lines(fields, j as nat) + "    "@ + fields[j].name@ + ": "@
        + default_value_of(fields[j].type_text@);
    if j == n - 1 {
        assert(field_lines(fields, n) == head + own);
        own
    } else {
        let rest = lemma_field_line(fields, (n - 1) as nat, j);
        let f = fields[n - 1];
        let line = "    "@ + f.name@ + ": "@ + default_value_of(f.type_text@) + own;
        assert(field_lines(fields, n) == field_lines(fields, (n - 1) as nat) + line);
        assert(head + rest + line == head + (rest + line));
        rest + line
    }
}

/// The names of two lists of fields one after the other.
proof fn lemma_field_names_concat(a: Seq<Syntax>, b: Seq<Syntax>, content: Seq<char>)
    ensures
        field_names(a + b, content) == field_names(a, content) + field_names(b, content),
    decreases b.len(),
{
    if b.len() == 0 {
        assert(a + b == a);
        assert(field_names(b, content) == Seq::<Seq<char>>::empty());
    } else {
        lemma_field_names_concat(a, b.drop_last(), content);
        assert((a + b).drop_last() == a + b.drop_last());
        assert((a + b).last() == b.last());
    }
}

proof fn lemma_old_names(old_fields: Seq<Syntax>, start: Seq<char>, a: Seq<char>, b: Seq<char>)
    requires
        forall|i: int| 0 <= i < old_fields.len() ==> is_in_start(#[trigger] old_fields[i], start),
    ensures
        field_names(old_fields, start + a) == field_names(old_fields, start + b),
    decreases old_fields.len(),
{
    if old_fields.len() > 0 {
        let last = old_fields.last();
        assert(last == old_fields[old_fields.len() - 1]);
        assert(is_in_start(last, start));
        assert forall|i: int| 0 <= i < old_fields.drop_last().len() implies is_in_start(
            #[trigger] old_fields.drop_last()[i],
            start,
        ) by {
            assert(old_fields.drop_last()[i] == old_fields[i]);
        }
        lemma_old_names(old_fields.drop_last(), start, a, b);
        lemma_text_of_start(last.children[0], start, a, b);
    }
}

/// The name and the value of an inserted field are read back as they were written.
proof fn lemma_inserted_field(
    node: Syntax,
    start: Seq<char>,
    lead: Seq<char>,
    fields: Seq<&FieldInfo>,
    tail: Seq<char>,
    j: int,
)
    requires
        0 <= j < fields.len(),
        is_inserted_field(node, start, lead, fields, j),
    ensures
        ts_utils::field_name_of(
            node,
            start + (lead + field_lines(fields, fields.len()) + tail),
        ) == Some(fields[j].name@),
        ts_utils::text_of(
            ts_utils::field_value_of(node)->0,
            start + (lead + field_lines(fields, fields.len()) + tail),
        ) == Some(default_value_of(fields[j].type_text@)),
{
    let rest = lemma_field_line(fields, fields.len(), j);
    let before = before_name(start, lead, fields, j);
    let name = fields[j].name@;
    let value = default_value_of(fields[j].type_text@);
    let all = start + (lead + field_lines(fields, fields.len()) + tail);
    assert(all == before + name + (": "@ + value + rest + tail));
    assert(all == (before + name + ": "@) + value + (rest + tail));
    lemma_text_of_span(node.children[0], before, name, ": "@ + value + rest + tail);
    lemma_text_of_span(
        ts_utils::field_value_of(node)->0,
        before + name + ": "@,
        value,
        rest + tail,
    );
}

proof fn lemma_new_names(
    nodes: Seq<Syntax>,
    n: nat,
    start: Seq<char>,
    lead: Seq<char>,
    fields: Seq<&FieldInfo>,
    tail: Seq<char>,
)
    requires
        n <= nodes.len() == fields.len(),
        forall|j: int|
            0 <= j < nodes.len() ==> is_inserted_field(
                #[trigger] nodes[j],
                start,
                lead,
                fields,
                j,
            ),
    ensures
        field_names(
            nodes.take(n as int),
            start + (lead + field_lines(fields, fields.len()) + tail),
        ) == names_of(fields).take(n as int),
    decreases n,
{
    let all = start + (lead + field_lines(fields, fields.len()) + tail);
    if n > 0 {
        lemma_new_names(nodes, (n - 1) as nat, start, lead, fields, tail);
        assert(nodes.take(n as int).drop_last() == nodes.take(n - 1));
        assert(nodes.take(n as int).last() == nodes[n - 1]);
        lemma_inserted_field(nodes[n - 1], start, lead, fields, tail, n - 1);
        assert(names_of(fields).take(n as int) == names_of(fields).take(n - 1).push(
            fields[n - 1].name@,
        ));
    } else {
        assert(nodes.take(0) == Seq::<Syntax>::empty());
        assert(names_of(fields).take(0) == Seq::<Seq<char>>::empty());
    }
}

/// The edited document holds a struct of the same name. It sets the fields that it set, to the values
/// that they had, and behind them the inserted ones, each to its default value. This holds where the
/// syntax tree of the edited document has what stands before the closing parenthesis as it was, and
/// the inserted fields where they were written.
pub proof fn lemma_inserted_fields_are_set(
    content: Seq<char>,
    root: Syntax,
    target: Syntax,
    k: int,
    fields: Seq<&FieldInfo>,
    again: Syntax,
    edited: Syntax,
    added: Seq<Syntax>,
)
    requires
        insertion_target(root) == Some(target),
        insertion_target(again) == Some(edited),
        0 <= k < content.len(),
        content[k] == ')',
        is_place_of(target.end_position, content, k + 1),
        ts_utils::named_fields_of(edited) == ts_utils::named_fields_of(target) + added,
        forall|i: int|
            0 <= i < ts_utils::named_fields_of(target).len() ==> is_in_start(
                #[trigger] ts_utils::named_fields_of(target)[i],
                content.take(k),
            ),
        edited.kind == target.kind,
        target.children.len() > 0 && edited.children.len() > 0,
        edited.children[0] == target.children[0],
        target.children[0].end_byte <= encode_utf8(content.take(k)).len(),
        added.len() == fields.len(),
        forall|j: int|
            0 <= j < added.len() ==> is_inserted_field(
                #[trigger] added[j],
                content.take(k),
                lead_of(target),
                fields,
                j,
            ),
    ensures
        insertion(Some(root), fields) matches Some(edit) && {
            let after = applied(content, edit);
            &&& ts_utils::struct_name_of(edited, after) == ts_utils::struct_name_of(target, content)
            &&& fields_of(Some(again), after) == fields_of(Some(root), content) + names_of(fields)
            &&& forall|i: int|
                0 <= i < ts_utils::named_fields_of(target).len() ==> {
                    let field = #[trigger] ts_utils::named_fields_of(target)[i];
                    ts_utils::field_value_of(field) matches Some(value) ==> ts_utils::text_of(
                        value,
                        after,
                    ) == ts_utils::text_of(value, content)
                }
            &&& forall|j: int|
                0 <= j < added.len() ==> (ts_utils::field_value_of(#[trigger] added[j]) matches Some(
                    value,
                ) && ts_utils::text_of(value, after) == Some(
                    default_value_of(fields[j].type_text@),
                ))
        },
{
    lemma_inserting_fields(content, root, target, k, fields);
    let edit = insertion_into(target, fields);
    let lead = lead_of(target);
    let start = content.take(k);
    let tail = content.skip(k);
    let after = applied(content, edit);
    let rest = lead + field_lines(fields, fields.len()) + tail;
    assert(after == start + rest);
    assert(content == start + tail);
    lemma_text_of_start(target.children[0], start, rest, tail);
    let old_fields = ts_utils::named_fields_of(target);
    lemma_field_names_concat(old_fields, added, after);
    lemma_old_names(old_fields, start, rest, tail);
    lemma_new_names(added, added.len(), start, lead, fields, tail);
    assert(added.take(added.len() as int) == added);
    assert(names_of(fields).take(added.len() as int) == names_of(fields));
    assert forall|i: int| 0 <= i < old_fields.len() implies {
        let field = #[trigger] old_fields[i];
        ts_utils::field_value_of(field) matches Some(value) ==> ts_utils::text_of(value, after)
            == ts_utils::text_of(value, content)
    } by {
        assert(is_in_start(old_fields[i], start));
        if let Some(value) = ts_utils::field_value_of(old_fields[i]) {
            lemma_text_of_start(value, start, rest, tail);
        }
    }
    assert forall|j: int| 0 <= j < added.len() implies (ts_utils::field_value_of(
        #[trigger] added[j],
    ) matches Some(value) && ts_utils::text_of(value, after) == Some(
        default_value_of(fields[j].type_text@),
    )) by {
        lemma_inserted_field(added[j], start, lead, fields, tail, j);
    }
}

} // verus!
