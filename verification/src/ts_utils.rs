//! Helpers for reading the syntax trees of RON documents.

use crate::lsp::{Position, Range};
pub use crate::syntax::RonParser;
use crate::syntax::{
    node_views, path_views, ron_syntax, spanning_path, Syntax, SyntaxNode, SyntaxTree,
};
use crate::text::{
    find_char, find_char_from, from_chars, rfind_char, rfind_char_in, str_eq,
    to_chars, uppercase_char, utf8_str,
};
use vstd::prelude::*;
use vstd::utf8::*;

verus! {

// ---------------------------------------------------------------------------
// Positions
// ---------------------------------------------------------------------------

/// How many line breaks stand before the character at index `k`.
pub open spec fn line_of(s: Seq<char>, k: int) -> nat
    decreases k,
{
    if k <= 0 {
        0
    } else if s[k - 1] == '\n' {
        line_of(s, k - 1) + 1
    } else {
        line_of(s, k - 1)
    }
}

/// How many characters stand between the last line break before index `k` and `k`.
pub open spec fn column_of(s: Seq<char>, k: int) -> nat
    decreases k,
{
    if k <= 0 || s[k - 1] == '\n' {
        0
    } else {
        column_of(s, k - 1) + 1
    }
}

/// Whether the character at index `k` stands at the given line and character.
pub open spec fn stands_at(s: Seq<char>, k: int, position: Position) -> bool {
    line_of(s, k) == position.line && column_of(s, k) == position.character
}

/// The index of the character at a position; the length of the text where no character is there.
pub open spec fn position_index(s: Seq<char>, position: Position) -> int {
    if exists|k: int| 0 <= k < s.len() && #[trigger] stands_at(s, k, position) {
        choose|k: int| 0 <= k < s.len() && #[trigger] stands_at(s, k, position)
    } else {
        s.len() as int
    }
}

/// The byte offset of a position: the length in UTF-8 of the characters before it.
pub open spec fn byte_offset_of(s: Seq<char>, position: Position) -> nat {
    encode_utf8(s.take(position_index(s, position))).len()
}

/// The UTF-8 encoding of two texts one after the other.
pub proof fn lemma_encode_concat(a: Seq<char>, b: Seq<char>)
    ensures
        encode_utf8(a + b) == encode_utf8(a) + encode_utf8(b),
    decreases a.len(),
{
    if a.len() == 0 {
        assert(a + b == b);
        assert(encode_utf8(a) == Seq::<u8>::empty());
    } else {
        lemma_encode_concat(a.drop_first(), b);
        assert((a + b).drop_first() == a.drop_first() + b);
    }
}

/// One character more adds its own encoding.
proof fn lemma_encode_step(s: Seq<char>, k: int)
    requires
        0 <= k < s.len(),
    ensures
        encode_utf8(s.take(k + 1)) == encode_utf8(s.take(k)) + encode_scalar(s[k] as u32),
{
    assert(s.take(k + 1) == s.take(k) + seq![s[k]]);
    lemma_encode_concat(s.take(k), seq![s[k]]);
    assert(seq![s[k]].drop_first() == Seq::<char>::empty());
    assert(encode_utf8(seq![s[k]]) == encode_scalar(s[k] as u32)) by {
        reveal_with_fuel(encode_utf8, 2);
    }
}

/// A part of a text is no longer in UTF-8 than the whole.
proof fn lemma_encode_take_le(s: Seq<char>, k: int)
    requires
        0 <= k <= s.len(),
    ensures
        encode_utf8(s.take(k)).len() <= encode_utf8(s).len(),
{
    assert(s == s.take(k) + s.skip(k));
    lemma_encode_concat(s.take(k), s.skip(k));
}

/// Positions grow strictly along a text.
pub proof fn lemma_positions_grow(s: Seq<char>, j: int, k: int)
    requires
        0 <= j < k <= s.len(),
    ensures
        line_of(s, j) < line_of(s, k) || (line_of(s, j) == line_of(s, k) && column_of(s, j)
            < column_of(s, k)),
    decreases k - j,
{
    if j < k - 1 {
        lemma_positions_grow(s, j, k - 1);
    }
}

/// How many bytes a character takes in UTF-8.
pub fn char_width(c: char) -> (r: usize)
    ensures
        r == encode_scalar(c as u32).len(),
        1 <= r <= 4,
{
    let v: u32 = c as u32;
    if v <= 0x7f {
        1
    } else if v <= 0x7ff {
        2
    } else if v <= 0xffff {
        3
    } else {
        4
    }
}

/// Converts a position to the byte offset of the character that stands there, or, where none
/// stands there, to the length of the content.
pub fn position_to_byte_offset(content: &str, position: Position) -> (r: usize)
    ensures
        r == byte_offset_of(content@, position),
{
    let bytes = content.as_bytes();
    let total: usize = bytes.len();
    let chars = to_chars(content);
    let mut offset: usize = 0;
    let mut current_line: usize = 0;
    let mut current_col: usize = 0;
    let mut k: usize = 0;
    assert(encode_utf8(content@.take(0)).len() == 0);
    while k < chars.len()
        invariant
            k <= chars@.len(),
            chars@ == content@,
            total == encode_utf8(content@).len(),
            current_line == line_of(content@, k as int),
            current_col == column_of(content@, k as int),
            current_line <= k,
            current_col <= k,
            offset == encode_utf8(content@.take(k as int)).len(),
            forall|j: int| 0 <= j < k ==> !#[trigger] stands_at(content@, j, position),
        decreases chars@.len() - k,
    {
        if current_line == position.line as usize && current_col == position.character as usize {
            assert(stands_at(content@, k as int, position));
            proof {
                let m = position_index(content@, position);
                if m > k {
                    lemma_positions_grow(content@, k as int, m);
                }
            }
            return offset;
        }
        assert(!stands_at(content@, k as int, position));
        proof {
            lemma_encode_step(content@, k as int);
            lemma_encode_take_le(content@, k + 1);
        }
        let ch = chars[k];
        if ch == '\n' {
            current_line = current_line + 1;
            current_col = 0;
        } else {
            current_col = current_col + 1;
        }
        offset = offset + char_width(ch);
        k = k + 1;
    }
    offset
}

/// A row or a column as the protocol writes it: its low 32 bits.
pub open spec fn protocol_number(n: usize) -> u32 {
    n as u32
}

/// A row or a column as the protocol writes it: its low 32 bits.
pub fn to_protocol(n: usize) -> (r: u32)
    ensures
        r == protocol_number(n),
{
    #[verifier::truncate]
    (n as u32)
}

/// The range of a node in the terms of the protocol.
pub open spec fn range_of(node: Syntax) -> Range {
    Range {
        start: Position {
            line: protocol_number(node.start_position.row),
            character: protocol_number(node.start_position.column),
        },
        end: Position {
            line: protocol_number(node.end_position.row),
            character: protocol_number(node.end_position.column),
        },
    }
}

/// Converts the range of a node to the terms of the protocol.
pub fn node_to_lsp_range(node: &SyntaxNode) -> (r: Range)
    ensures
        r == range_of(node@),
{
    Range {
        start: Position {
            line: to_protocol(node.start_position.row),
            character: to_protocol(node.start_position.column),
        },
        end: Position {
            line: to_protocol(node.end_position.row),
            character: to_protocol(node.end_position.column),
        },
    }
}

// ---------------------------------------------------------------------------
// Text and kinds
// ---------------------------------------------------------------------------

/// The part of a document that a node spans, where it is a part of it that is valid UTF-8.
pub open spec fn text_of(node: Syntax, content: Seq<char>) -> Option<Seq<char>> {
    let bytes = encode_utf8(content);
    if node.start_byte <= node.end_byte <= bytes.len() && valid_utf8(
        bytes.subrange(node.start_byte as int, node.end_byte as int),
    ) {
        Some(decode_utf8(bytes.subrange(node.start_byte as int, node.end_byte as int)))
    } else {
        None
    }
}

/// The text of a node; `None` where the node does not span whole characters of the content.
pub fn node_text<'a>(node: &SyntaxNode, content: &'a str) -> (r: Option<&'a str>)
    ensures
        match r {
            Some(s) => text_of(node@, content@) == Some(s@),
            None => text_of(node@, content@) is None,
        },
{
    let bytes = content.as_bytes();
    if node.start_byte <= node.end_byte && node.end_byte <= bytes.len() {
        utf8_str(vstd::slice::slice_subrange(bytes, node.start_byte, node.end_byte))
    } else {
        None
    }
}

/// Whether a node is of a kind.
pub fn is_kind(node: &SyntaxNode, kind: &str) -> (r: bool)
    ensures
        r == (node@.kind == kind@),
{
    str_eq(node.kind.as_str(), kind)
}

/// The children of a kind, in order.
pub open spec fn children_of_kind(node: Syntax, kind: Seq<char>) -> Seq<Syntax> {
    node.children.filter(|c: Syntax| c.kind == kind)
}

/// The children that stand for rules of the grammar, in order.
pub open spec fn named_children_of(node: Syntax) -> Seq<Syntax> {
    node.children.filter(|c: Syntax| c.named)
}

/// All children of a node with a specific kind.
pub fn children_by_kind<'a>(node: &'a SyntaxNode, kind: &str) -> (r: Vec<&'a SyntaxNode>)
    ensures
        node_views(r@) == children_of_kind(node@, kind@),
{
    let mut results: Vec<&'a SyntaxNode> = Vec::new();
    let mut i: usize = 0;
    let ghost wanted = |c: Syntax| c.kind == kind@;
    reveal(Seq::filter);
    while i < node.children.len()
        invariant
            i <= node.children@.len(),
            wanted == |c: Syntax| c.kind == kind@,
            node_views(results@) == node@.children.take(i as int).filter(wanted),
        decreases node.children@.len() - i,
    {
        reveal(Seq::filter);
        assert(node@.children.take(i + 1).drop_last() == node@.children.take(i as int));
        assert(node@.children[i as int] == node.children@[i as int]@);
        let ghost before = results@;
        if is_kind(&node.children[i], kind) {
            results.push(&node.children[i]);
            assert(node_views(results@) == node_views(before).push(node@.children[i as int]));
        }
        i = i + 1;
    }
    assert(node@.children.take(i as int) == node@.children);
    results
}

/// The first child of a node with a specific kind.
pub fn child_by_kind<'a>(node: &'a SyntaxNode, kind: &str) -> (r: Option<&'a SyntaxNode>)
    ensures
        match r {
            Some(c) => children_of_kind(node@, kind@).len() > 0 && c@ == children_of_kind(
                node@,
                kind@,
            )[0],
            None => children_of_kind(node@, kind@).len() == 0,
        },
{
    let found = children_by_kind(node, kind);
    assert(node_views(found@).len() == found@.len());
    if found.len() > 0 {
        assert(node_views(found@)[0] == found@[0]@);
        Some(found[0])
    } else {
        None
    }
}

/// All named children of a node.
pub fn named_children<'a>(node: &'a SyntaxNode) -> (r: Vec<&'a SyntaxNode>)
    ensures
        node_views(r@) == named_children_of(node@),
{
    let mut results: Vec<&'a SyntaxNode> = Vec::new();
    let mut i: usize = 0;
    let ghost wanted = |c: Syntax| c.named;
    reveal(Seq::filter);
    while i < node.children.len()
        invariant
            i <= node.children@.len(),
            wanted == |c: Syntax| c.named,
            node_views(results@) == node@.children.take(i as int).filter(wanted),
        decreases node.children@.len() - i,
    {
        reveal(Seq::filter);
        assert(node@.children.take(i + 1).drop_last() == node@.children.take(i as int));
        assert(node@.children[i as int] == node.children@[i as int]@);
        let ghost before = results@;
        if node.children[i].named {
            results.push(&node.children[i]);
            assert(node_views(results@) == node_views(before).push(node@.children[i as int]));
        }
        i = i + 1;
    }
    assert(node@.children.take(i as int) == node@.children);
    results
}

// ---------------------------------------------------------------------------
// Structs and fields
// ---------------------------------------------------------------------------

/// The text of the first child of a node of a kind, where that child is an identifier.
pub open spec fn leading_identifier(node: Syntax, kind: Seq<char>, content: Seq<char>) -> Option<
    Seq<char>,
> {
    if node.kind == kind && node.children.len() > 0 && node.children[0].kind == "identifier"@ {
        text_of(node.children[0], content)
    } else {
        None
    }
}

/// The name of a struct or variant.
pub open spec fn struct_name_of(node: Syntax, content: Seq<char>) -> Option<Seq<char>> {
    leading_identifier(node, "struct"@, content)
}

/// The name of a field.
pub open spec fn field_name_of(node: Syntax, content: Seq<char>) -> Option<Seq<char>> {
    leading_identifier(node, "field"@, content)
}

/// The struct or variant name of a struct node; `None` for an anonymous struct.
pub fn struct_name<'a>(node: &SyntaxNode, content: &'a str) -> (r: Option<&'a str>)
    ensures
        match r {
            Some(s) => struct_name_of(node@, content@) == Some(s@),
            None => struct_name_of(node@, content@) is None,
        },
{
    if !is_kind(node, "struct") {
        return None;
    }
    if node.children.len() > 0 {
        assert(node@.children[0] == node.children@[0]@);
        if is_kind(&node.children[0], "identifier") {
            return node_text(&node.children[0], content);
        }
    }
    None
}

/// The field name of a field node.
pub fn field_name<'a>(node: &SyntaxNode, content: &'a str) -> (r: Option<&'a str>)
    ensures
        match r {
            Some(s) => field_name_of(node@, content@) == Some(s@),
            None => field_name_of(node@, content@) is None,
        },
{
    if !is_kind(node, "field") {
        return None;
    }
    if node.children.len() > 0 {
        assert(node@.children[0] == node.children@[0]@);
        if is_kind(&node.children[0], "identifier") {
            return node_text(&node.children[0], content);
        }
    }
    None
}

/// The index of what follows the first colon, from index `i` on, that something follows.
pub open spec fn after_colon(children: Seq<Syntax>, i: int) -> Option<int>
    decreases children.len() - i,
{
    if i < 0 || i + 1 >= children.len() {
        None
    } else if children[i].kind == ":"@ {
        Some(i + 1)
    } else {
        after_colon(children, i + 1)
    }
}

/// The index of the last named child.
pub open spec fn last_named(children: Seq<Syntax>) -> Option<int>
    decreases children.len(),
{
    if children.len() == 0 {
        None
    } else if children.last().named {
        Some(children.len() - 1)
    } else {
        last_named(children.drop_last())
    }
}

/// Where the value of a field stands among its children: after the colon, or, where nothing
/// follows a colon, the last named child.
pub open spec fn field_value_index(node: Syntax) -> Option<int> {
    if node.kind != "field"@ {
        None
    } else if after_colon(node.children, 0) is Some {
        after_colon(node.children, 0)
    } else {
        last_named(node.children)
    }
}

/// The value of a field.
pub open spec fn field_value_of(node: Syntax) -> Option<Syntax> {
    match field_value_index(node) {
        Some(i) => Some(node.children[i]),
        None => None,
    }
}

/// The index is one of a child.
pub proof fn lemma_field_value_index(node: Syntax)
    ensures
        match field_value_index(node) {
            Some(i) => 0 <= i < node.children.len(),
            None => true,
        },
{
    lemma_after_colon(node.children, 0);
    lemma_last_named(node.children);
}

proof fn lemma_after_colon(children: Seq<Syntax>, i: int)
    ensures
        match after_colon(children, i) {
            Some(k) => 0 <= i < k < children.len(),
            None => true,
        },
    decreases children.len() - i,
{
    if !(i < 0 || i + 1 >= children.len()) {
        lemma_after_colon(children, i + 1);
    }
}

proof fn lemma_last_named(children: Seq<Syntax>)
    ensures
        match last_named(children) {
            Some(k) => 0 <= k < children.len(),
            None => true,
        },
    decreases children.len(),
{
    if children.len() > 0 {
        lemma_last_named(children.drop_last());
    }
}

/// The value node of a field node.
pub fn field_value<'a>(node: &'a SyntaxNode) -> (r: Option<&'a SyntaxNode>)
    ensures
        match r {
            Some(v) => field_value_of(node@) == Some(v@),
            None => field_value_of(node@) is None,
        },
{
    if !is_kind(node, "field") {
        return None;
    }
    let count: usize = node.children.len();
    let mut i: usize = 0;
    while i < count && i + 1 < count
        invariant
            i <= count == node.children@.len(),
            node@.kind == "field"@,
            after_colon(node@.children, 0) == after_colon(node@.children, i as int),
        decreases count - i,
    {
        assert(node@.children[i as int] == node.children@[i as int]@);
        assert(node@.children[i + 1] == node.children@[i + 1]@);
        if is_kind(&node.children[i], ":") {
            return Some(&node.children[i + 1]);
        }
        i = i + 1;
    }
    let mut n: usize = count;
    assert(node@.children.take(n as int) == node@.children);
    while n > 0
        invariant
            n <= count == node.children@.len(),
            node@.kind == "field"@,
            after_colon(node@.children, 0) is None,
            last_named(node@.children) == last_named(node@.children.take(n as int)),
        decreases n,
    {
        assert(node@.children.take(n as int).drop_last() == node@.children.take(n - 1));
        assert(node@.children[n - 1] == node.children@[n - 1]@);
        if node.children[n - 1].named {
            return Some(&node.children[n - 1]);
        }
        n = n - 1;
    }
    None
}

/// The fields of a struct.
pub open spec fn named_fields_of(node: Syntax) -> Seq<Syntax> {
    if node.kind == "struct"@ {
        children_of_kind(node, "field"@)
    } else {
        Seq::empty()
    }
}

/// All fields of a struct node, its direct children only.
pub fn struct_named_fields<'a>(node: &'a SyntaxNode) -> (r: Vec<&'a SyntaxNode>)
    ensures
        node_views(r@) == named_fields_of(node@),
{
    if !is_kind(node, "struct") {
        let none: Vec<&'a SyntaxNode> = Vec::new();
        assert(node_views(none@) == Seq::<Syntax>::empty());
        return none;
    }
    children_by_kind(node, "field")
}

/// The named children of a struct after the first.
pub open spec fn tuple_fields_of(node: Syntax) -> Seq<Syntax> {
    if node.kind == "struct"@ && named_children_of(node).len() > 0 {
        named_children_of(node).skip(1)
    } else {
        Seq::empty()
    }
}

/// All fields of a tuple struct node, its direct children only: the named children after the
/// first one.
pub fn struct_tuple_fields<'a>(node: &'a SyntaxNode) -> (r: Vec<&'a SyntaxNode>)
    ensures
        node_views(r@) == tuple_fields_of(node@),
{
    let mut results: Vec<&'a SyntaxNode> = Vec::new();
    if !is_kind(node, "struct") {
        assert(node_views(results@) == Seq::<Syntax>::empty());
        return results;
    }
    let named = named_children(node);
    assert(node_views(named@).len() == named@.len());
    let mut i: usize = 1;
    while i < named.len()
        invariant
            1 <= i,
            node_views(named@) == named_children_of(node@),
            named@.len() == named_children_of(node@).len(),
            i <= named@.len() || results@.len() == 0,
            results@.len() == i - 1,
            forall|k: int|
                0 <= k < results@.len() ==> (#[trigger] results@[k])@ == named_children_of(node@)[k
                    + 1],
        decreases named@.len() - i,
    {
        assert(node_views(named@)[i as int] == named@[i as int]@);
        results.push(named[i]);
        i = i + 1;
    }
    assert(node_views(results@) == tuple_fields_of(node@));
    results
}

/// The values among the children of a struct: its named children other than fields, and other
/// than the first identifier where that one is still to be skipped.
pub open spec fn values_among(children: Seq<Syntax>, skip_identifier: bool) -> Seq<Syntax>
    decreases children.len(),
{
    if children.len() == 0 {
        Seq::empty()
    } else {
        let first = children[0];
        let rest = children.skip(1);
        if first.named && first.kind != "field"@ {
            if skip_identifier && first.kind == "identifier"@ {
                values_among(rest, false)
            } else {
                seq![first] + values_among(rest, skip_identifier)
            }
        } else {
            values_among(rest, skip_identifier)
        }
    }
}

/// The values of a struct, without its name.
pub open spec fn values_of(node: Syntax, content: Seq<char>) -> Seq<Syntax> {
    if node.kind == "struct"@ {
        values_among(node.children, struct_name_of(node, content) is Some)
    } else {
        Seq::empty()
    }
}

/// All value children of a struct, for tuple-style structs, without the identifier that names it.
pub fn struct_values<'a>(node: &'a SyntaxNode, content: &str) -> (r: Vec<&'a SyntaxNode>)
    ensures
        node_views(r@) == values_of(node@, content@),
{
    let mut values: Vec<&'a SyntaxNode> = Vec::new();
    assert(node_views(values@) == Seq::<Syntax>::empty());
    if !is_kind(node, "struct") {
        return values;
    }
    let mut skip_first_identifier = struct_name(node, content).is_some();
    let mut i: usize = 0;
    assert(node@.children.skip(0) == node@.children);
    while i < node.children.len()
        invariant
            i <= node.children@.len(),
            node@.kind == "struct"@,
            values_of(node@, content@) == node_views(values@) + values_among(
                node@.children.skip(i as int),
                skip_first_identifier,
            ),
        decreases node.children@.len() - i,
    {
        let child = &node.children[i];
        assert(node@.children[i as int] == child@);
        assert(node@.children.skip(i as int)[0] == child@);
        assert(node@.children.skip(i as int).skip(1) == node@.children.skip(i + 1));
        let ghost before = values@;
        if child.named && !is_kind(child, "field") {
            if skip_first_identifier && is_kind(child, "identifier") {
                skip_first_identifier = false;
            } else {
                values.push(child);
                assert(node_views(values@) == node_views(before) + seq![child@]);
            }
        }
        i = i + 1;
    }
    assert(node@.children.skip(i as int) == Seq::<Syntax>::empty());
    values
}

// ---------------------------------------------------------------------------
// Whole documents
// ---------------------------------------------------------------------------

/// Whether a node is the data of a document, not an annotation, an extension or a comment.
pub open spec fn is_value(node: Syntax) -> bool {
    &&& node.named
    &&& node.kind != "type_annotation"@
    &&& node.kind != "extensions"@
    &&& node.kind != "extension"@
    &&& node.kind != "line_comment"@
    &&& node.kind != "block_comment"@
}

/// The data of a document: the first child of the root that is a value.
pub open spec fn main_value_of(root: Syntax) -> Option<Syntax> {
    first_value(root.children, 0)
}

/// The first value from index `i` on.
pub open spec fn first_value(children: Seq<Syntax>, i: int) -> Option<Syntax>
    decreases children.len() - i,
{
    if i < 0 || i >= children.len() {
        None
    } else if is_value(children[i]) {
        Some(children[i])
    } else {
        first_value(children, i + 1)
    }
}

/// The main value node: the actual RON data, without annotation and comments.
pub fn find_main_value(tree: &SyntaxTree) -> (r: Option<&SyntaxNode>)
    ensures
        match r {
            Some(v) => main_value_of(tree@) == Some(v@),
            None => main_value_of(tree@) is None,
        },
{
    let root = tree.root_node();
    let mut i: usize = 0;
    while i < root.children.len()
        invariant
            i <= root.children@.len(),
            root@ == tree@,
            main_value_of(tree@) == first_value(root@.children, i as int),
        decreases root.children@.len() - i,
    {
        let child = &root.children[i];
        assert(root@.children[i as int] == child@);
        if child.named && !is_kind(child, "type_annotation") && !is_kind(child, "extensions")
            && !is_kind(child, "extension") && !is_kind(child, "line_comment") && !is_kind(
            child,
            "block_comment",
        ) {
            return Some(child);
        }
        i = i + 1;
    }
    None
}

/// Whether a node is a unit, or a struct, array, map or tuple with nothing in it.
pub open spec fn is_empty_of(node: Syntax) -> bool {
    &&& node.kind == "unit"@ || node.kind == "struct"@ || node.kind == "array"@ || node.kind
        == "map"@ || node.kind == "tuple"@
    &&& forall|i: int| 0 <= i < node.children.len() ==> !(#[trigger] node.children[i]).named
}

/// Whether a node represents an empty structure `()`, `[]` or `{}`.
pub fn is_empty_structure(node: &SyntaxNode, _content: &str) -> (r: bool)
    ensures
        r == is_empty_of(node@),
{
    if is_kind(node, "unit") || is_kind(node, "struct") || is_kind(node, "array") || is_kind(
        node,
        "map",
    ) || is_kind(node, "tuple") {
        let mut i: usize = 0;
        while i < node.children.len()
            invariant
                i <= node.children@.len(),
                forall|k: int| 0 <= k < i ==> !(#[trigger] node@.children[k]).named,
            decreases node.children@.len() - i,
        {
            assert(node@.children[i as int] == node.children@[i as int]@);
            if node.children[i].named {
                return false;
            }
            i = i + 1;
        }
        true
    } else {
        false
    }
}

// ---------------------------------------------------------------------------
// Nodes with their ancestors
// ---------------------------------------------------------------------------

/// A node together with its ancestors: the nodes from the root of a tree down to the node.
#[derive(Debug)]
pub struct NodePath {
    pub nodes: Vec<SyntaxNode>,
}

impl View for NodePath {
    type V = Seq<Syntax>;

    open spec fn view(&self) -> Seq<Syntax> {
        path_views(self.nodes@)
    }
}

impl NodePath {
    /// The node that the path leads to.
    pub fn node(&self) -> (r: &SyntaxNode)
        requires
            self@.len() > 0,
        ensures
            r@ == self@.last(),
    {
        assert(self@.last() == self.nodes@.last()@);
        &self.nodes[self.nodes.len() - 1]
    }
}

/// The path to the deepest node at a position of a text, in a document.
pub open spec fn path_at(source: Seq<char>, content: Seq<char>, position: Position) -> Option<
    Seq<Syntax>,
> {
    let offset = byte_offset_of(content, position) as usize;
    spanning_path(source, offset, offset)
}

/// The path to the deepest node at a position of a document that has a syntax tree.
pub open spec fn document_path(content: Seq<char>, position: Position) -> Option<Seq<Syntax>> {
    if ron_syntax(content) is Some {
        path_at(content, content, position)
    } else {
        None
    }
}

/// The deepest node at a given position, with its ancestors.
pub fn node_at_position(tree: &SyntaxTree, content: &str, position: Position) -> (r: Option<
    NodePath,
>)
    ensures
        match r {
            Some(path) => path_at(tree.source(), content@, position) == Some(path@) && path@.len()
                > 0,
            None => path_at(tree.source(), content@, position) is None,
        },
{
    let byte_offset: usize = position_to_byte_offset(content, position);
    match tree.path_to_range(byte_offset, byte_offset) {
        Some(nodes) => {
            let path = NodePath { nodes };
            assert(path@.len() == path.nodes@.len());
            Some(path)
        },
        None => None,
    }
}

/// The nearest proper ancestor of a kind: its index on the path.
pub open spec fn ancestor_index(path: Seq<Syntax>, kind: Seq<char>) -> Option<int>
    decreases path.len(),
{
    if path.len() <= 1 {
        None
    } else if path[path.len() - 2].kind == kind {
        Some(path.len() - 2)
    } else {
        ancestor_index(path.drop_last(), kind)
    }
}

/// The path to the nearest proper ancestor of a kind.
pub open spec fn ancestor_of_kind(path: Seq<Syntax>, kind: Seq<char>) -> Option<Seq<Syntax>> {
    match ancestor_index(path, kind) {
        Some(i) => Some(path.take(i + 1)),
        None => None,
    }
}

/// The first ancestor of a node with a given kind.
pub fn find_ancestor_by_kind(path: NodePath, kind: &str) -> (r: Option<NodePath>)
    ensures
        match r {
            Some(p) => ancestor_of_kind(path@, kind@) == Some(p@) && 0 < p@.len() < path@.len()
                && p@.last().kind == kind@,
            None => ancestor_of_kind(path@, kind@) is None,
        },
{
    let ghost all = path@;
    let mut rest = path;
    assert(all.take(all.len() as int) == all);
    while rest.nodes.len() > 1
        invariant
            rest@.len() == rest.nodes@.len() <= all.len(),
            all == path@,
            rest@ == all.take(rest@.len() as int),
            ancestor_index(all, kind@) == ancestor_index(rest@, kind@),
        decreases rest.nodes@.len(),
    {
        let n: usize = rest.nodes.len();
        let ghost before = rest@;
        assert(before[n - 2] == rest.nodes@[n - 2]@);
        let _ = rest.nodes.pop();
        assert(rest@ == before.drop_last());
        assert(before.drop_last() == all.take(n - 1));
        if is_kind(&rest.nodes[n - 2], kind) {
            assert(rest@.last() == before[n - 2]);
            assert(rest.nodes@[n - 2]@ == before[n - 2]);
            assert(ancestor_index(before, kind@) == Some(n - 2));
            return Some(rest);
        }
    }
    None
}

// ---------------------------------------------------------------------------
// Enum variants
// ---------------------------------------------------------------------------

/// Information about a parsed enum variant.
#[derive(Debug, Clone)]
pub struct ParsedEnumVariant {
    pub name: String,
    pub data: Option<String>,
    pub line: u32,
    pub col: u32,
}

/// The model of a parsed enum variant.
pub ghost struct VariantModel {
    pub name: Seq<char>,
    pub data: Option<Seq<char>>,
    pub line: u32,
    pub col: u32,
}

impl View for ParsedEnumVariant {
    type V = VariantModel;

    open spec fn view(&self) -> VariantModel {
        VariantModel {
            name: self.name@,
            data: match self.data {
                Some(data) => Some(data@),
                None => None,
            },
            line: self.line,
            col: self.col,
        }
    }
}

/// What stands between the first opening and the last closing parenthesis of a text.
pub open spec fn between_parens(text: Seq<char>) -> Option<Seq<char>> {
    match (find_char_from(text, '(', 0), rfind_char_in(text, ')')) {
        (Some(open), Some(close)) => Some(text.subrange(open + 1, close)),
        _ => None,
    }
}

/// Whether the first opening parenthesis of a text, if any, stands before the last closing one.
pub open spec fn parens_in_order(text: Seq<char>) -> bool {
    match (find_char_from(text, '(', 0), rfind_char_in(text, ')')) {
        (Some(open), Some(close)) => open < close,
        _ => true,
    }
}

/// The name of the variant that a node may stand for.
pub open spec fn variant_name_of(node: Syntax, content: Seq<char>) -> Option<Seq<char>> {
    if node.kind == "identifier"@ {
        text_of(node, content)
    } else {
        struct_name_of(node, content)
    }
}

/// Whether a node is a struct that holds fields or values.
pub open spec fn holds_data(node: Syntax, content: Seq<char>) -> bool {
    node.kind == "struct"@ && (named_fields_of(node).len() > 0 || values_of(node, content).len()
        > 0)
}

/// The enum variant that a node stands for: an identifier, or a named struct, whose data is what
/// stands between its parentheses.
pub open spec fn enum_variant_of(node: Syntax, content: Seq<char>) -> Option<VariantModel> {
    match variant_name_of(node, content) {
        Some(name) => {
            let line = protocol_number(node.start_position.row);
            let col = protocol_number(node.start_position.column);
            if holds_data(node, content) {
                match text_of(node, content) {
                    Some(text) => Some(
                        VariantModel { name, data: between_parens(text), line, col },
                    ),
                    None => None,
                }
            } else {
                Some(VariantModel { name, data: None, line, col })
            }
        },
        None => None,
    }
}

/// Extracts enum variant information from a struct or identifier node: `UnitVariant`,
/// `TupleVariant(data)`, `StructVariant(field: data)`.
pub fn extract_enum_variant(node: &SyntaxNode, content: &str) -> (r: Option<ParsedEnumVariant>)
    requires
        holds_data(node@, content@) && variant_name_of(node@, content@) is Some ==> (text_of(
            node@,
            content@,
        ) matches Some(text) ==> parens_in_order(text)),
    ensures
        match r {
            Some(v) => enum_variant_of(node@, content@) == Some(v@),
            None => enum_variant_of(node@, content@) is None,
        },
{
    let found = if is_kind(node, "identifier") {
        node_text(node, content)
    } else {
        struct_name(node, content)
    };
    let name = match found {
        Some(name) => name.to_owned(),
        None => {
            return None;
        },
    };
    let line: u32 = to_protocol(node.start_position.row);
    let col: u32 = to_protocol(node.start_position.column);
    let mut data: Option<String> = None;
    if is_kind(node, "struct") {
        let fields = struct_named_fields(node);
        let values = struct_values(node, content);
        assert(node_views(fields@).len() == fields@.len());
        assert(node_views(values@).len() == values@.len());
        if fields.len() > 0 || values.len() > 0 {
            let text = match node_text(node, content) {
                Some(text) => text,
                None => {
                    return None;
                },
            };
            let chars = to_chars(text);
            if let Some(open) = find_char(&chars, '(', 0) {
                if let Some(close) = rfind_char(&chars, ')') {
                    data = Some(from_chars(chars.as_slice(), open + 1, close));
                }
            }
        }
    }
    Some(ParsedEnumVariant { name, data, line, col })
}

/// Whether a node is an identifier that begins with an upper-case character.
pub open spec fn is_variant_like(node: Syntax, content: Seq<char>) -> bool {
    node.kind == "identifier"@ && (text_of(node, content) matches Some(text) && text.len() > 0
        && uppercase_char(text[0]))
}

/// The nodes at and below a node, in document order, that are identifiers with an upper-case
/// first character and do not stand as the name of a field.
pub open spec fn variants_within(node: Syntax, names_field: bool, content: Seq<char>) -> Seq<Syntax>
    decreases node, 1int, 0nat,
{
    (if is_variant_like(node, content) && !names_field {
        seq![node]
    } else {
        Seq::empty()
    }) + variants_below(node, node.children.len(), content)
}

/// The same for the first `n` children of a node.
pub open spec fn variants_below(node: Syntax, n: nat, content: Seq<char>) -> Seq<Syntax>
    decreases node, 0int, n,
{
    if n == 0 || n > node.children.len() {
        Seq::empty()
    } else {
        variants_below(node, (n - 1) as nat, content) + variants_within(
            node.children[n - 1],
            node.kind == "field"@ && n == 1,
            content,
        )
    }
}

/// All identifier nodes that could be enum variants: upper-case identifiers that are not the name
/// of a field.
pub fn find_potential_variants<'a>(tree: &'a SyntaxTree, content: &str) -> (r: Vec<&'a SyntaxNode>)
    ensures
        node_views(r@) == variants_within(tree@, false, content@),
{
    let mut variants: Vec<&'a SyntaxNode> = Vec::new();
    collect_potential_variants(tree.root_node(), false, content, &mut variants);
    assert(node_views(variants@) == variants_within(tree@, false, content@));
    variants
}

fn collect_potential_variants<'a>(
    node: &'a SyntaxNode,
    names_field: bool,
    content: &str,
    results: &mut Vec<&'a SyntaxNode>,
)
    ensures
        node_views(final(results)@) == node_views(old(results)@) + variants_within(
            node@,
            names_field,
            content@,
        ),
    decreases node@,
{
    if is_kind(node, "identifier") {
        if let Some(text) = node_text(node, content) {
            let chars = to_chars(text);
            if chars.len() > 0 && chars[0].is_uppercase() && !names_field {
                results.push(node);
            }
        }
    }
    let ghost own = if is_variant_like(node@, content@) && !names_field {
        seq![node@]
    } else {
        Seq::empty()
    };
    assert(node_views(results@) == node_views(old(results)@) + own);
    let is_field = is_kind(node, "field");
    let mut i: usize = 0;
    while i < node.children.len()
        invariant
            i <= node.children@.len(),
            is_field == (node@.kind == "field"@),
            node_views(results@) == node_views(old(results)@) + own + variants_below(
                node@,
                i as nat,
                content@,
            ),
        decreases node.children@.len() - i,
    {
        let child = &node.children[i];
        assert(node@.children[i as int] == child@);
        let ghost before = node_views(results@);
        collect_potential_variants(child, is_field && i == 0, content, results);
        i = i + 1;
    }
}

// ---------------------------------------------------------------------------
// Laws
// ---------------------------------------------------------------------------

/// A character is found again from its position: the offset of the position is the length in UTF-8
/// of the characters before it.
pub proof fn lemma_position_round_trip(s: Seq<char>, k: int, position: Position)
    requires
        0 <= k < s.len(),
        stands_at(s, k, position),
    ensures
        position_index(s, position) == k,
        byte_offset_of(s, position) == encode_utf8(s.take(k)).len(),
{
    let found = position_index(s, position);
    assert(0 <= found < s.len() && stands_at(s, found, position));
    if found < k {
        lemma_positions_grow(s, found, k);
    } else if k < found {
        lemma_positions_grow(s, k, found);
    }
}

/// Where no character stands at a position, its offset is the length of the whole text.
pub proof fn lemma_position_past_the_text(s: Seq<char>, position: Position)
    requires
        forall|k: int| 0 <= k < s.len() ==> !stands_at(s, k, position),
    ensures
        byte_offset_of(s, position) == encode_utf8(s).len(),
{
    assert(s.take(s.len() as int) == s);
}

/// Of two characters of a text, the later one has the larger offset.
pub proof fn lemma_offsets_grow(s: Seq<char>, j: int, k: int, first: Position, second: Position)
    requires
        0 <= j < k < s.len(),
        stands_at(s, j, first),
        stands_at(s, k, second),
    ensures
        byte_offset_of(s, first) < byte_offset_of(s, second),
{
    lemma_position_round_trip(s, j, first);
    lemma_position_round_trip(s, k, second);
    lemma_encode_step(s, j);
    lemma_encode_take_le(s.take(k), j + 1);
    assert(s.take(k).take(j + 1) == s.take(j + 1));
}

/// No position is past the end of the text.
pub proof fn lemma_offset_in_text(s: Seq<char>, position: Position)
    ensures
        byte_offset_of(s, position) <= encode_utf8(s).len(),
{
    lemma_encode_take_le(s, position_index(s, position));
}

/// What could be a variant is an identifier that begins with an upper-case character.
pub proof fn lemma_potential_variants(node: Syntax, names_field: bool, content: Seq<char>, i: int)
    requires
        0 <= i < variants_within(node, names_field, content).len(),
    ensures
        is_variant_like(variants_within(node, names_field, content)[i], content),
    decreases node, 1int, 0nat,
{
    let own = if is_variant_like(node, content) && !names_field {
        seq![node]
    } else {
        Seq::empty()
    };
    if i >= own.len() {
        lemma_variants_below(node, node.children.len(), content, i - own.len());
    }
}

proof fn lemma_variants_below(node: Syntax, n: nat, content: Seq<char>, i: int)
    requires
        n <= node.children.len(),
        0 <= i < variants_below(node, n, content).len(),
    ensures
        is_variant_like(variants_below(node, n, content)[i], content),
    decreases node, 0int, n,
{
    if n > 0 {
        let rest = variants_below(node, (n - 1) as nat, content);
        if i < rest.len() {
            lemma_variants_below(node, (n - 1) as nat, content, i);
        } else {
            lemma_potential_variants(
                node.children[n - 1],
                node.kind == "field"@ && n == 1,
                content,
                i - rest.len(),
            );
        }
    }
}

} // verus!
