//! Trees that follow the grammar of RON, and what formatting keeps of them: all of their data.

use crate::annotation_parser::type_annotation;
use crate::format::{body_of, formatted};
use crate::outline::{form_of, label_of, outline, parts_of, Form};
use crate::syntax::Syntax;
use crate::text;
use crate::tokens::{
    comma, in_brackets, is_comment, is_complete, is_composite, is_made_of, is_word,
    lemma_formatting_keeps_body_tokens, lemma_formatting_keeps_tokens, name_token, part_tokens,
    reads_well, separated, tidy, token_shape, tokens_below, tokens_of, written_tokens,
};
use crate::ts_utils;
use vstd::prelude::*;

verus! {

// ---------------------------------------------------------------------------
// Trees
// ---------------------------------------------------------------------------

/// The children of a node that are no comments.
pub open spec fn shown(node: Syntax) -> Seq<Syntax> {
    node.children.filter(|c: Syntax| !is_comment(c))
}

/// Whether a node is a punctuation character.
pub open spec fn is_mark(node: Syntax, c: char, content: Seq<char>) -> bool {
    !node.named && node.kind == seq![c] && ts_utils::text_of(node, content) == Some(seq![c])
}

/// Whether a node has a text that can be a token.
pub open spec fn has_word(node: Syntax, content: Seq<char>) -> bool {
    ts_utils::text_of(node, content) matches Some(text) && is_word(text)
}

/// How many items a bracketed list has that begins at an index.
pub open spec fn item_count(kids: Seq<Syntax>, start: int) -> int {
    (kids.len() - start - 1) / 2
}

/// The items of a bracketed list that begins at an index.
pub open spec fn items_of(kids: Seq<Syntax>, start: int) -> Seq<Syntax> {
    Seq::new(item_count(kids, start) as nat, |i: int| kids[start + 1 + 2 * i])
}

/// Whether nodes are a list in brackets from an index on: named items with commas between them, and
/// perhaps one behind the last.
pub open spec fn is_list(
    kids: Seq<Syntax>,
    start: int,
    open: char,
    close: char,
    content: Seq<char>,
) -> bool {
    &&& 0 <= start
    &&& start + 2 <= kids.len()
    &&& is_mark(kids[start], open, content)
    &&& is_mark(kids.last(), close, content)
    &&& forall|i: int|
        0 <= i < item_count(kids, start) ==> (#[trigger] items_of(kids, start)[i]).named
    &&& forall|i: int|
        0 <= i && start + 2 + 2 * i < kids.len() - 1 ==> is_mark(
            #[trigger] kids[start + 2 + 2 * i],
            ',',
            content,
        )
}

/// Whether the items of a list are all of a kind.
pub open spec fn all_of_kind(items: Seq<Syntax>, kind: Seq<char>) -> bool {
    forall|i: int| 0 <= i < items.len() ==> (#[trigger] items[i]).kind == kind
}

/// Whether the items of a list can all be values.
pub open spec fn all_items(items: Seq<Syntax>) -> bool {
    forall|i: int| 0 <= i < items.len() ==> is_item(#[trigger] items[i])
}

/// Whether the children of a struct follow the grammar: a name or none, and in parentheses either
/// fields, with comments anywhere among them, or values.
pub open spec fn is_struct(node: Syntax, content: Seq<char>) -> bool {
    let kids = shown(node);
    let named = node.children.len() > 0 && node.children[0].kind == "identifier"@;
    let start: int = if named {
        1
    } else {
        0
    };
    &&& node.children.len() > 0 && !is_comment(node.children[0])
    &&& named ==> node.children[0].named && has_word(node.children[0], content)
    &&& is_list(kids, start, '(', ')', content)
    &&& {
        ||| items_of(kids, start).len() > 0 && all_of_kind(items_of(kids, start), "field"@)
        ||| kids == node.children && all_items(items_of(kids, start))
    }
}

/// Whether a node and all nodes in it follow the grammar, without errors. Comments can stand in
/// structs with fields and in maps.
pub open spec fn follows_grammar(node: Syntax, content: Seq<char>) -> bool
    decreases node,
{
    &&& forall|i: int|
        0 <= i < node.children.len() && node.children[i].named && !is_comment(node.children[i])
            ==> follows_grammar(#[trigger] node.children[i], content)
    &&& if node.kind == "struct"@ {
        is_struct(node, content)
    } else if node.kind == "array"@ {
        shown(node) == node.children && is_list(node.children, 0, '[', ']', content) && all_items(
            items_of(node.children, 0),
        )
    } else if node.kind == "tuple"@ {
        shown(node) == node.children && is_list(node.children, 0, '(', ')', content) && all_items(
            items_of(node.children, 0),
        )
    } else if node.kind == "map"@ {
        is_list(shown(node), 0, '{', '}', content) && all_of_kind(
            items_of(shown(node), 0),
            "map_entry"@,
        )
    } else if node.kind == "map_entry"@ {
        &&& node.children.len() == 3
        &&& is_mark(node.children[1], ':', content)
        &&& is_item(node.children[0]) && is_item(node.children[2])
    } else if node.kind == "field"@ {
        &&& node.children.len() == 3
        &&& node.children[0].kind == "identifier"@ && has_word(node.children[0], content)
        &&& is_mark(node.children[1], ':', content)
        &&& is_item(node.children[2])
    } else {
        has_word(node, content)
    }
}

/// Whether a node can be a value.
pub open spec fn is_item(node: Syntax) -> bool {
    node.named && !is_comment(node) && node.kind != "field"@ && node.kind != "map_entry"@
}

// ---------------------------------------------------------------------------
// The parts of such trees
// ---------------------------------------------------------------------------

/// The kinds that matter are told apart by their texts.
proof fn lemma_kinds(c: char)
    ensures
        seq![c] != "struct"@ && seq![c] != "array"@ && seq![c] != "tuple"@ && seq![c] != "map"@
            && seq![c] != "map_entry"@ && seq![c] != "field"@ && seq![c] != "identifier"@ && seq![c]
            != "line_comment"@ && seq![c] != "block_comment"@,
        "struct"@ != "array"@ && "struct"@ != "tuple"@ && "struct"@ != "map"@ && "struct"@
            != "map_entry"@ && "struct"@ != "field"@ && "struct"@ != "identifier"@,
        "array"@ != "tuple"@ && "array"@ != "map"@ && "array"@ != "map_entry"@ && "array"@
            != "field"@,
        "tuple"@ != "map"@ && "tuple"@ != "map_entry"@ && "tuple"@ != "field"@,
        "map"@ != "map_entry"@ && "map"@ != "field"@ && "map_entry"@ != "field"@,
        "identifier"@ != "field"@ && "identifier"@ != "map_entry"@ && "identifier"@ != "array"@
            && "identifier"@ != "tuple"@ && "identifier"@ != "map"@,
        "field"@ != "line_comment"@ && "field"@ != "block_comment"@,
        "map_entry"@ != "line_comment"@ && "map_entry"@ != "block_comment"@,
        "identifier"@ != "line_comment"@ && "identifier"@ != "block_comment"@,
        seq![':'] == ":"@,
{
    reveal_strlit("struct");
    reveal_strlit("array");
    reveal_strlit("tuple");
    reveal_strlit("map");
    reveal_strlit("map_entry");
    reveal_strlit("field");
    reveal_strlit("identifier");
    reveal_strlit("line_comment");
    reveal_strlit("block_comment");
    reveal_strlit(":");
    assert("struct"@.len() == 6 && "array"@.len() == 5 && "tuple"@.len() == 5 && "map"@.len() == 3
        && "map_entry"@.len() == 9 && "field"@.len() == 5 && "identifier"@.len() == 10
        && "line_comment"@.len() == 12 && "block_comment"@.len() == 13 && seq![c].len() == 1);
    assert("array"@[0] == 'a' && "tuple"@[0] == 't' && "field"@[0] == 'f');
}

/// The wanted nodes of a list are its items, where the items are wanted and the marks are not.
proof fn lemma_items_kept(
    kids: Seq<Syntax>,
    start: int,
    open: char,
    close: char,
    content: Seq<char>,
    wanted: spec_fn(Syntax) -> bool,
    m: int,
)
    requires
        is_list(kids, start, open, close, content),
        start <= m <= kids.len(),
        forall|i: int|
            0 <= i < item_count(kids, start) ==> wanted(#[trigger] items_of(kids, start)[i]),
        forall|c: Syntax| !(#[trigger] wanted(c)) || c.named,
    ensures
        kids.subrange(start, m).filter(wanted) == items_of(kids, start).take(
            if (m - start) / 2 <= item_count(kids, start) {
                (m - start) / 2
            } else {
                item_count(kids, start)
            },
        ),
    decreases m - start,
{
    reveal(Seq::filter);
    let n = item_count(kids, start);
    let items = items_of(kids, start);
    let list = kids.subrange(start, m);
    if m == start {
        assert(list.filter(wanted) == Seq::<Syntax>::empty());
        assert(items.take(0) == Seq::<Syntax>::empty());
    } else {
        lemma_items_kept(kids, start, open, close, content, wanted, m - 1);
        assert(list.drop_last() == kids.subrange(start, m - 1));
        let last = kids[m - 1];
        assert(list.last() == last);
        let d = m - 1 - start;
        if d % 2 == 1 && d / 2 < n {
            assert(last == items[d / 2]);
            assert(wanted(items[d / 2]));
            assert((m - start) / 2 == d / 2 + 1);
            assert(items.take(d / 2 + 1) == items.take(d / 2).push(last));
        } else {
            assert(!last.named) by {
                if d == 0 {
                    assert(is_mark(kids[start], open, content));
                } else if m == kids.len() {
                    assert(is_mark(kids.last(), close, content));
                } else {
                    assert(d % 2 == 0) by {
                        assert(2 * n == kids.len() - start - 1 || 2 * n == kids.len() - start - 2);
                    }
                    let i = d / 2 - 1;
                    assert(m - 1 == start + 2 + 2 * i);
                    assert(is_mark(kids[start + 2 + 2 * i], ',', content));
                }
            }
            assert(!wanted(last));
            assert((m - start) / 2 == d / 2 || d / 2 >= n);
            assert(2 * n == kids.len() - start - 1 || 2 * n == kids.len() - start - 2);
        }
    }
}

/// The same of the whole list.
proof fn lemma_all_items_kept(
    kids: Seq<Syntax>,
    start: int,
    open: char,
    close: char,
    content: Seq<char>,
    wanted: spec_fn(Syntax) -> bool,
)
    requires
        is_list(kids, start, open, close, content),
        forall|i: int|
            0 <= i < item_count(kids, start) ==> wanted(#[trigger] items_of(kids, start)[i]),
        forall|c: Syntax| !(#[trigger] wanted(c)) || c.named,
    ensures
        kids.skip(start).filter(wanted) == items_of(kids, start),
{
    lemma_items_kept(kids, start, open, close, content, wanted, kids.len() as int);
    assert(kids.subrange(start, kids.len() as int) == kids.skip(start));
    let n = item_count(kids, start);
    assert((kids.len() - start) / 2 >= n);
    assert(items_of(kids, start).take(n) == items_of(kids, start));
}

proof fn lemma_filter_front<A>(s: Seq<A>, p: spec_fn(A) -> bool)
    requires
        s.len() > 0,
    ensures
        s.filter(p) == (if p(s[0]) {
            seq![s[0]]
        } else {
            Seq::empty()
        }) + s.skip(1).filter(p),
    decreases s.len(),
{
    reveal(Seq::filter);
    if s.len() == 1 {
        assert(s.skip(1) == Seq::<A>::empty());
        assert(s.drop_last() == Seq::<A>::empty());
        assert(s.skip(1).filter(p) == Seq::<A>::empty());
        assert(s.drop_last().filter(p) == Seq::<A>::empty());
    } else {
        lemma_filter_front(s.drop_last(), p);
        assert(s.drop_last().skip(1) == s.skip(1).drop_last());
        assert(s.skip(1).last() == s.last());
        assert(s.drop_last()[0] == s[0]);
    }
}

/// What is wanted of a list is wanted of it without its comments, where no comment is wanted.
proof fn lemma_filter_without_comments(children: Seq<Syntax>, wanted: spec_fn(Syntax) -> bool)
    requires
        forall|c: Syntax| #[trigger] wanted(c) ==> !is_comment(c),
    ensures
        children.filter(|c: Syntax| !is_comment(c)).filter(wanted) == children.filter(wanted),
    decreases children.len(),
{
    reveal(Seq::filter);
    let p = |c: Syntax| !is_comment(c);
    if children.len() > 0 {
        let rest = children.drop_last();
        lemma_filter_without_comments(rest, wanted);
        if p(children.last()) {
            let kept = rest.filter(p).push(children.last());
            assert(children.filter(p) == kept);
            assert(kept.drop_last() == rest.filter(p));
        }
    }
}

// ---------------------------------------------------------------------------
// The tokens of such trees
// ---------------------------------------------------------------------------

/// The tokens of the first `n` nodes of a list.
pub open spec fn all_tokens(kids: Seq<Syntax>, n: int, content: Seq<char>) -> Seq<Seq<char>>
    decreases n,
{
    if n <= 0 || n > kids.len() {
        Seq::empty()
    } else {
        all_tokens(kids, n - 1, content) + tokens_of(kids[n - 1], content)
    }
}

proof fn lemma_tokens_prefix(a: Seq<Syntax>, b: Seq<Syntax>, n: int, content: Seq<char>)
    requires
        0 <= n <= a.len(),
        n <= b.len(),
        forall|i: int| 0 <= i < n ==> a[i] == b[i],
    ensures
        all_tokens(a, n, content) == all_tokens(b, n, content),
    decreases n,
{
    if n > 0 {
        lemma_tokens_prefix(a, b, n - 1, content);
    }
}

/// The tokens of the children of a node are those of its children that are no comments.
proof fn lemma_tokens_shown(node: Syntax, n: nat, content: Seq<char>)
    requires
        n <= node.children.len(),
    ensures
        tokens_below(node, n, content) == all_tokens(
            node.children.take(n as int).filter(|c: Syntax| !is_comment(c)),
            node.children.take(n as int).filter(|c: Syntax| !is_comment(c)).len() as int,
            content,
        ),
    decreases n,
{
    reveal(Seq::filter);
    let p = |c: Syntax| !is_comment(c);
    let list = node.children.take(n as int);
    if n > 0 {
        let m = (n - 1) as nat;
        lemma_tokens_shown(node, m, content);
        assert(list.drop_last() == node.children.take(m as int));
        let before = list.drop_last().filter(p);
        let last = node.children[n - 1];
        assert(list.last() == last);
        if p(last) {
            let all = list.filter(p);
            assert(all == before.push(last));
            lemma_tokens_prefix(all, before, before.len() as int, content);
        }
    } else {
        assert(list.filter(p) == Seq::<Syntax>::empty());
    }
}

/// The tokens of the items of a list.
pub open spec fn item_tokens(items: Seq<Syntax>, content: Seq<char>) -> Seq<Seq<Seq<char>>> {
    Seq::new(items.len(), |i: int| tokens_of(items[i], content))
}

proof fn lemma_mark_tokens(node: Syntax, c: char, content: Seq<char>)
    requires
        is_mark(node, c, content),
    ensures
        tokens_of(node, content) == seq![seq![c]],
{
    lemma_kinds(c);
}

/// The tokens of a list up to its `i`-th item.
proof fn lemma_list_tokens(
    kids: Seq<Syntax>,
    start: int,
    open: char,
    close: char,
    content: Seq<char>,
    i: nat,
)
    requires
        is_list(kids, start, open, close, content),
        i <= item_count(kids, start),
    ensures
        i > 0 ==> all_tokens(kids, start + 2 * i, content) == all_tokens(kids, start, content)
            + seq![seq![open]] + separated(item_tokens(items_of(kids, start), content), i),
        i == 0 ==> all_tokens(kids, start + 1, content) == all_tokens(kids, start, content) + seq![
            seq![open],
        ],
    decreases i,
{
    let n = item_count(kids, start);
    let items = items_of(kids, start);
    let lists = item_tokens(items, content);
    let head = all_tokens(kids, start, content);
    assert(2 * n <= kids.len() - start - 1);
    if i == 0 {
        lemma_mark_tokens(kids[start], open, content);
    } else if i == 1 {
        lemma_list_tokens(kids, start, open, close, content, 0);
        assert(kids[start + 1] == items[0]);
        assert(all_tokens(kids, start + 2, content) == all_tokens(kids, start + 1, content)
            + lists[0]);
        assert(separated(lists, 1) == lists[0]);
    } else {
        let j = (i - 1) as nat;
        lemma_list_tokens(kids, start, open, close, content, j);
        let k = i - 2;
        assert(start + 2 + 2 * k == start + 2 * j);
        assert(is_mark(kids[start + 2 + 2 * k], ',', content));
        lemma_mark_tokens(kids[start + 2 * j], ',', content);
        assert(items[i - 1] == kids[start + 1 + 2 * (i - 1)]);
        let before = all_tokens(kids, start + 2 * j, content);
        assert(all_tokens(kids, start + 2 * j + 1, content) == before + seq![comma()]);
        assert(all_tokens(kids, start + 2 * j + 2, content) == before + seq![comma()] + lists[i
            - 1]);
        assert(start + 2 * j + 2 == start + 2 * i);
        let inner = separated(lists, j);
        assert(separated(lists, i) == inner.push(comma()) + lists[i - 1]);
        assert(head + seq![seq![open]] + inner + seq![comma()] + lists[i - 1] == head + seq![
            seq![open],
        ] + (inner.push(comma()) + lists[i - 1]));
    }
}

/// The tokens of a list: its brackets and the tokens of its items, with commas between, and behind the
/// last where there is one.
proof fn lemma_whole_list_tokens(
    kids: Seq<Syntax>,
    start: int,
    open: char,
    close: char,
    content: Seq<char>,
)
    requires
        is_list(kids, start, open, close, content),
    ensures
        ({
            let head = all_tokens(kids, start, content);
            let lists = item_tokens(items_of(kids, start), content);
            let all = all_tokens(kids, kids.len() as int, content);
            ||| all == head + in_brackets(open, close, lists, false)
            ||| lists.len() > 0 && all == head + in_brackets(open, close, lists, true)
        }),
{
    let n = item_count(kids, start);
    let lists = item_tokens(items_of(kids, start), content);
    let head = all_tokens(kids, start, content);
    let total = kids.len() as int;
    let all = all_tokens(kids, total, content);
    lemma_list_tokens(kids, start, open, close, content, n as nat);
    lemma_mark_tokens(kids.last(), close, content);
    assert(kids.last() == kids[total - 1]);
    assert(all == all_tokens(kids, total - 1, content) + seq![seq![close]]);
    let inner = separated(lists, n as nat);
    assert(lists.len() == n);
    if n == 0 {
        assert(total == start + 2);
        assert(inner == Seq::<Seq<char>>::empty());
        assert(all == head + in_brackets(open, close, lists, false));
    } else if 2 * n == total - start - 1 {
        assert(all == head + in_brackets(open, close, lists, false));
    } else {
        assert(total - 1 == start + 2 * n + 1);
        let k = n - 1;
        assert(start + 2 + 2 * k == start + 2 * n);
        assert(is_mark(kids[start + 2 + 2 * k], ',', content));
        lemma_mark_tokens(kids[start + 2 * n], ',', content);
        assert(all_tokens(kids, start + 2 * n + 1, content) == all_tokens(
            kids,
            start + 2 * n,
            content,
        ) + seq![comma()]);
        assert(seq![comma(), seq![close]] == seq![comma()] + seq![seq![close]]);
        assert(all == head + in_brackets(open, close, lists, true));
    }
}

// ---------------------------------------------------------------------------
// Such trees read well
// ---------------------------------------------------------------------------

/// What stands in a list is laid out in it, and the tokens of the list are what its form asks for.
proof fn lemma_list_reads(
    node: Syntax,
    in_map: bool,
    content: Seq<char>,
    kids: Seq<Syntax>,
    start: int,
    open: char,
    close: char,
)
    requires
        kids == shown(node),
        is_composite(node),
        is_list(kids, start, open, close, content),
        parts_of(node, in_map, content) == items_of(kids, start),
        match form_of(node, in_map, content) {
            Form::Fields | Form::Values => open == '(' && close == ')' && all_tokens(
                kids,
                start,
                content,
            ) == name_token(label_of(node, in_map, content)),
            Form::Array => open == '[' && close == ']' && start == 0,
            Form::Tuple => open == '(' && close == ')' && start == 0,
            Form::Entries => open == '{' && close == '}' && start == 0,
            _ => false,
        },
    ensures
        ({
            let form = form_of(node, in_map, content);
            let label = label_of(node, in_map, content);
            let lists = part_tokens(node, in_map, content);
            tokens_of(node, content) == token_shape(form, label, lists, false) || (parts_of(
                node,
                in_map,
                content,
            ).len() > 0 && tokens_of(node, content) == token_shape(form, label, lists, true))
        }),
{
    let lists = part_tokens(node, in_map, content);
    assert(lists == item_tokens(items_of(kids, start), content));
    lemma_tokens_shown(node, node.children.len(), content);
    assert(node.children.take(node.children.len() as int) == node.children);
    lemma_whole_list_tokens(kids, start, open, close, content);
    let head = all_tokens(kids, start, content);
    if start == 0 && !(form_of(node, in_map, content) is Fields) && !(form_of(
        node,
        in_map,
        content,
    ) is Values) {
        assert(head == Seq::<Seq<char>>::empty());
        assert(head + in_brackets(open, close, lists, false) == in_brackets(
            open,
            close,
            lists,
            false,
        ));
        assert(head + in_brackets(open, close, lists, true) == in_brackets(
            open,
            close,
            lists,
            true,
        ));
    }
}

/// The parts of a struct that follows the grammar are its items.
proof fn lemma_struct_parts(node: Syntax, content: Seq<char>)
    requires
        node.kind == "struct"@,
        is_struct(node, content),
    ensures
        ({
            let named = node.children[0].kind == "identifier"@;
            let start: int = if named {
                1
            } else {
                0
            };
            let kids = shown(node);
            let label = label_of(node, false, content);
            &&& parts_of(node, false, content) == items_of(kids, start)
            &&& form_of(node, false, content) is Fields || form_of(node, false, content) is Values
            &&& all_tokens(kids, start, content) == name_token(label)
            &&& label matches Some(text) ==> is_word(text)
        }),
{
    let kids = shown(node);
    let named = node.children[0].kind == "identifier"@;
    let start: int = if named {
        1
    } else {
        0
    };
    let items = items_of(kids, start);
    lemma_first_shown(node);
    lemma_struct_label(node, content, start);
    if items.len() > 0 && all_of_kind(items, "field"@) {
        lemma_field_parts(node, content, start);
    } else {
        lemma_value_parts(node, content, start);
    }
}

proof fn lemma_first_shown(node: Syntax)
    requires
        node.children.len() > 0,
        !is_comment(node.children[0]),
    ensures
        shown(node).len() > 0,
        shown(node)[0] == node.children[0],
{
    lemma_filter_front(node.children, |c: Syntax| !is_comment(c));
}

proof fn lemma_struct_label(node: Syntax, content: Seq<char>, start: int)
    requires
        node.kind == "struct"@,
        node.children.len() > 0,
        shown(node).len() > 0,
        shown(node)[0] == node.children[0],
        start == 1 ==> node.children[0].kind == "identifier"@ && has_word(node.children[0], content),
        start == 0 ==> node.children[0].kind != "identifier"@,
        start == 0 || start == 1,
    ensures
        all_tokens(shown(node), start, content) == name_token(label_of(node, false, content)),
        label_of(node, false, content) matches Some(text) ==> is_word(text),
        label_of(node, false, content) == ts_utils::struct_name_of(node, content),
{
    lemma_kinds(',');
    let kids = shown(node);
    let label = ts_utils::struct_name_of(node, content);
    assert(all_tokens(kids, 0, content) == Seq::<Seq<char>>::empty());
    if start == 1 {
        assert(label is Some);
        assert(tokens_of(kids[0], content) == seq![label->0]);
        assert(all_tokens(kids, 1, content) == name_token(label));
    } else {
        assert(label is None);
    }
}

proof fn lemma_field_parts(node: Syntax, content: Seq<char>, start: int)
    requires
        node.kind == "struct"@,
        start == 0 || (start == 1 && shown(node)[0].kind == "identifier"@),
        is_list(shown(node), start, '(', ')', content),
        items_of(shown(node), start).len() > 0,
        all_of_kind(items_of(shown(node), start), "field"@),
    ensures
        parts_of(node, false, content) == items_of(shown(node), start),
        form_of(node, false, content) is Fields,
{
    let kids = shown(node);
    let items = items_of(kids, start);
    let is_field = |c: Syntax| c.named && c.kind == "field"@;
    let of_field = |c: Syntax| c.kind == "field"@;
    let fields = ts_utils::named_fields_of(node);
    lemma_kinds(',');
    lemma_no_marks_of_kind(kids, start, content);
    assert forall|i: int| 0 <= i < item_count(kids, start) implies is_field(#[trigger] items[i]) by {}
    lemma_all_items_kept(kids, start, '(', ')', content, is_field);
    lemma_filter_without_comments(node.children, of_field);
    lemma_same_in_list(kids, of_field, is_field);
    lemma_behind_name(kids, start, is_field);
    assert(fields == items);
    assert(!ts_utils::is_empty_of(node)) by {
        crate::format::lemma_taken_from_children(node.children, of_field);
        let first = fields[0];
        assert(node.children.contains(first));
        let k = choose|k: int| 0 <= k < node.children.len() && node.children[k] == first;
        assert(items[0].named);
        assert(node.children[k].named);
    }
}

proof fn lemma_behind_name(kids: Seq<Syntax>, start: int, p: spec_fn(Syntax) -> bool)
    requires
        kids.len() > 0,
        start == 0 || (start == 1 && !p(kids[0])),
    ensures
        kids.filter(p) == kids.skip(start).filter(p),
{
    if start == 1 {
        lemma_filter_front(kids, p);
        assert(kids.skip(1).filter(p) == Seq::<Syntax>::empty() + kids.skip(1).filter(p));
    } else {
        assert(kids.skip(0) == kids);
    }
}

proof fn lemma_value_parts(node: Syntax, content: Seq<char>, start: int)
    requires
        node.kind == "struct"@,
        node.children.len() > 0,
        start == 1 ==> node.children[0].kind == "identifier"@ && node.children[0].named && has_word(
            node.children[0],
            content,
        ),
        start == 0 ==> node.children[0].kind != "identifier"@,
        start == 0 || start == 1,
        shown(node) == node.children,
        is_list(shown(node), start, '(', ')', content),
        all_items(items_of(shown(node), start)),
    ensures
        parts_of(node, false, content) == items_of(shown(node), start),
        form_of(node, false, content) is Values,
{
    let kids = shown(node);
    let items = items_of(kids, start);
    let is_value = |c: Syntax| c.named && c.kind != "field"@;
    assert forall|i: int| 0 <= i < item_count(kids, start) implies is_value(#[trigger] items[i]) by {
        assert(is_item(items[i]));
    }
    lemma_all_items_kept(kids, start, '(', ')', content, is_value);
    lemma_no_fields(kids, start, content);
    lemma_values_filter(node, content, start);
    assert(ts_utils::named_fields_of(node) == Seq::<Syntax>::empty());
    assert(ts_utils::values_of(node, content) == items);
    if ts_utils::is_empty_of(node) {
        if items.len() > 0 {
            assert(is_item(items[0]));
            assert(items[0] == kids[start + 1]);
            assert(!node.children[start + 1].named);
        }
        assert(items == Seq::<Syntax>::empty());
    }
}

/// In a list of nodes whose nodes of a kind are named, being of the kind is being a named node of it.
proof fn lemma_same_in_list(
    kids: Seq<Syntax>,
    p: spec_fn(Syntax) -> bool,
    q: spec_fn(Syntax) -> bool,
)
    requires
        forall|i: int| 0 <= i < kids.len() ==> p(#[trigger] kids[i]) == q(kids[i]),
    ensures
        kids.filter(p) == kids.filter(q),
    decreases kids.len(),
{
    reveal(Seq::filter);
    if kids.len() > 0 {
        let rest = kids.drop_last();
        assert forall|i: int| 0 <= i < rest.len() implies p(#[trigger] rest[i]) == q(rest[i]) by {
            assert(rest[i] == kids[i]);
        }
        lemma_same_in_list(rest, p, q);
        assert(p(kids[kids.len() - 1]) == q(kids[kids.len() - 1]));
    }
}

/// A node of a list in parentheses is one of its items, or is no field and has no name.
proof fn lemma_item_or_mark(kids: Seq<Syntax>, start: int, content: Seq<char>, m: int)
    requires
        is_list(kids, start, '(', ')', content),
        start <= m < kids.len(),
    ensures
        (exists|i: int| 0 <= i < item_count(kids, start) && kids[m] == items_of(kids, start)[i])
            || (!kids[m].named && kids[m].kind.len() == 1),
{
    let n = item_count(kids, start);
    let d = m - start;
    assert(2 * n == kids.len() - start - 1 || 2 * n == kids.len() - start - 2);
    if d == 0 {
        assert(is_mark(kids[start], '(', content));
    } else if m == kids.len() - 1 {
        assert(is_mark(kids.last(), ')', content));
    } else if d % 2 == 0 {
        let i = d / 2 - 1;
        assert(m == start + 2 + 2 * i);
        assert(is_mark(kids[start + 2 + 2 * i], ',', content));
    } else {
        let i = d / 2;
        assert(m == start + 1 + 2 * i);
        assert(kids[m] == items_of(kids, start)[i]);
    }
}

proof fn lemma_no_marks_of_kind(kids: Seq<Syntax>, start: int, content: Seq<char>)
    requires
        is_list(kids, start, '(', ')', content),
        start == 0 || (start == 1 && kids[0].kind == "identifier"@),
    ensures
        forall|m: int|
            0 <= m < kids.len() && (#[trigger] kids[m]).kind == "field"@ ==> kids[m].named,
{
    lemma_kinds(',');
    assert forall|m: int| 0 <= m < kids.len() && (#[trigger] kids[m]).kind == "field"@ implies
        kids[m].named by {
        if m >= start {
            lemma_item_or_mark(kids, start, content, m);
            if exists|i: int|
                0 <= i < item_count(kids, start) && kids[m] == items_of(kids, start)[i] {
                let i = choose|i: int|
                    0 <= i < item_count(kids, start) && kids[m] == items_of(kids, start)[i];
                assert(items_of(kids, start)[i].named);
            } else {
                reveal_strlit("field");
                assert("field"@.len() == 5);
            }
        }
    }
}

proof fn lemma_no_fields(kids: Seq<Syntax>, start: int, content: Seq<char>)
    requires
        is_list(kids, start, '(', ')', content),
        start == 0 || (start == 1 && kids[0].kind == "identifier"@),
        all_items(items_of(kids, start)),
    ensures
        kids.filter(|c: Syntax| c.kind == "field"@) == Seq::<Syntax>::empty(),
{
    let p = |c: Syntax| c.kind == "field"@;
    lemma_kinds(',');
    assert forall|m: int| 0 <= m < kids.len() implies !p(#[trigger] kids[m]) by {
        if m >= start {
            lemma_item_or_mark(kids, start, content, m);
            if exists|i: int|
                0 <= i < item_count(kids, start) && kids[m] == items_of(kids, start)[i] {
                let i = choose|i: int|
                    0 <= i < item_count(kids, start) && kids[m] == items_of(kids, start)[i];
                assert(is_item(items_of(kids, start)[i]));
            } else {
                reveal_strlit("field");
                assert("field"@.len() == 5);
            }
        }
    }
    lemma_nothing_kept(kids, p);
}

proof fn lemma_nothing_kept<A>(s: Seq<A>, p: spec_fn(A) -> bool)
    requires
        forall|i: int| 0 <= i < s.len() ==> !p(#[trigger] s[i]),
    ensures
        s.filter(p) == Seq::<A>::empty(),
    decreases s.len(),
{
    reveal(Seq::filter);
    if s.len() > 0 {
        let rest = s.drop_last();
        assert forall|i: int| 0 <= i < rest.len() implies !p(#[trigger] rest[i]) by {
            assert(rest[i] == s[i]);
        }
        lemma_nothing_kept(rest, p);
        assert(!p(s[s.len() - 1]));
    }
}

/// The values of a struct, as what is kept of its children behind its name.
proof fn lemma_values_filter(node: Syntax, content: Seq<char>, start: int)
    requires
        node.kind == "struct"@,
        node.children.len() > 0,
        start == 1 ==> node.children[0].kind == "identifier"@ && node.children[0].named
            && ts_utils::text_of(node.children[0], content) is Some,
        start == 0 ==> node.children[0].kind != "identifier"@,
        start == 0 || start == 1,
    ensures
        ts_utils::values_of(node, content) == node.children.skip(start).filter(
            |c: Syntax| c.named && c.kind != "field"@,
        ),
{
    lemma_kinds(',');
    lemma_values_plain(node.children.skip(start));
    if start == 1 {
        assert(ts_utils::struct_name_of(node, content) is Some);
        assert(ts_utils::values_of(node, content) == ts_utils::values_among(
            node.children.skip(1),
            false,
        ));
    } else {
        assert(node.children.skip(0) == node.children);
    }
}

proof fn lemma_values_plain(children: Seq<Syntax>)
    ensures
        ts_utils::values_among(children, false) == children.filter(
            |c: Syntax| c.named && c.kind != "field"@,
        ),
    decreases children.len(),
{
    let p = |c: Syntax| c.named && c.kind != "field"@;
    if children.len() > 0 {
        lemma_values_plain(children.skip(1));
        lemma_filter_front(children, p);
    } else {
        lemma_nothing_kept(children, p);
    }
}

/// A tree that follows the grammar reads well.
pub proof fn lemma_grammar_reads_well(node: Syntax, in_map: bool, content: Seq<char>)
    requires
        follows_grammar(node, content),
        in_map <==> node.kind == "map_entry"@,
    ensures
        reads_well(node, in_map, content),
    decreases node,
{
    lemma_kinds(':');
    let form = form_of(node, in_map, content);
    let label = label_of(node, in_map, content);
    let parts = parts_of(node, in_map, content);
    let lists = part_tokens(node, in_map, content);
    // The parts are named children that are no comments, and so follow the grammar.
    lemma_shape_of(node, in_map, content);
    assert forall|i: int| 0 <= i < parts.len() && node.children.contains(#[trigger] parts[i]) implies
        reads_well(parts[i], form is Entries, content) by {
        let k = choose|k: int| 0 <= k < node.children.len() && node.children[k] == parts[i];
        assert(decreases_to!(node => node.children));
        assert(decreases_to!(node.children => node.children[k]));
        assert(follows_grammar(node.children[k], content));
        lemma_grammar_reads_well(parts[i], form is Entries, content);
    }
}

/// The form of a node that follows the grammar: it is complete, its tokens are those that the form asks
/// for, and what is laid out in it are named nodes that are no comments; entries in a map alone.
proof fn lemma_shape_of(node: Syntax, in_map: bool, content: Seq<char>)
    requires
        follows_grammar(node, content),
        in_map <==> node.kind == "map_entry"@,
    ensures
        ({
            let form = form_of(node, in_map, content);
            let label = label_of(node, in_map, content);
            let parts = parts_of(node, in_map, content);
            let lists = part_tokens(node, in_map, content);
            &&& is_complete(form, label, parts.len())
            &&& tokens_of(node, content) == token_shape(form, label, lists, false) || (parts.len()
                > 0 && tokens_of(node, content) == token_shape(form, label, lists, true))
            &&& forall|i: int|
                0 <= i < parts.len() ==> (#[trigger] parts[i]).named && !is_comment(parts[i]) && (
                parts[i].kind == "map_entry"@ <==> form is Entries)
        }),
{
    lemma_kinds(':');
    if node.kind == "struct"@ {
        lemma_struct_shape(node, content);
    } else if node.kind == "array"@ || node.kind == "tuple"@ {
        lemma_sequence_shape(node, content);
    } else if node.kind == "map"@ {
        lemma_map_shape(node, content);
    } else if node.kind == "map_entry"@ {
        lemma_entry_shape(node, content);
    } else if node.kind == "field"@ {
        lemma_field_shape(node, content);
    }
}

proof fn lemma_shown_are_no_comments(node: Syntax)
    ensures
        forall|i: int| 0 <= i < shown(node).len() ==> !is_comment(#[trigger] shown(node)[i]),
{
    assert forall|i: int| 0 <= i < shown(node).len() implies !is_comment(
        #[trigger] shown(node)[i],
    ) by {
        crate::keyed::lemma_filter_in(node.children, |c: Syntax| !is_comment(c), i);
    }
}

proof fn lemma_struct_shape(node: Syntax, content: Seq<char>)
    requires
        node.kind == "struct"@,
        is_struct(node, content),
    ensures
        ({
            let form = form_of(node, false, content);
            let label = label_of(node, false, content);
            let parts = parts_of(node, false, content);
            let lists = part_tokens(node, false, content);
            &&& is_complete(form, label, parts.len())
            &&& tokens_of(node, content) == token_shape(form, label, lists, false) || (parts.len()
                > 0 && tokens_of(node, content) == token_shape(form, label, lists, true))
            &&& forall|i: int|
                0 <= i < parts.len() ==> (#[trigger] parts[i]).named && !is_comment(parts[i])
                    && parts[i].kind != "map_entry"@ && !(form is Entries)
        }),
{
    lemma_kinds(',');
    let named = node.children[0].kind == "identifier"@;
    let start: int = if named {
        1
    } else {
        0
    };
    let kids = shown(node);
    lemma_struct_parts(node, content);
    lemma_list_reads(node, false, content, kids, start, '(', ')');
    lemma_shown_are_no_comments(node);
    let items = items_of(kids, start);
    assert forall|i: int| 0 <= i < items.len() implies (#[trigger] items[i]).named && !is_comment(
        items[i],
    ) && items[i].kind != "map_entry"@ by {
        assert(items[i] == kids[start + 1 + 2 * i]);
        assert(start + 1 + 2 * i < kids.len());
    }
}

proof fn lemma_sequence_shape(node: Syntax, content: Seq<char>)
    requires
        node.kind == "array"@ || node.kind == "tuple"@,
        shown(node) == node.children,
        node.kind == "array"@ ==> is_list(node.children, 0, '[', ']', content),
        node.kind == "tuple"@ ==> is_list(node.children, 0, '(', ')', content),
        all_items(items_of(node.children, 0)),
    ensures
        ({
            let form = form_of(node, false, content);
            let label = label_of(node, false, content);
            let parts = parts_of(node, false, content);
            let lists = part_tokens(node, false, content);
            &&& is_complete(form, label, parts.len())
            &&& tokens_of(node, content) == token_shape(form, label, lists, false) || (parts.len()
                > 0 && tokens_of(node, content) == token_shape(form, label, lists, true))
            &&& forall|i: int|
                0 <= i < parts.len() ==> (#[trigger] parts[i]).named && !is_comment(parts[i])
                    && parts[i].kind != "map_entry"@ && !(form is Entries)
        }),
{
    lemma_kinds(',');
    let kids = node.children;
    let open: char = if node.kind == "array"@ {
        '['
    } else {
        '('
    };
    let close: char = if node.kind == "array"@ {
        ']'
    } else {
        ')'
    };
    let p = |c: Syntax| c.named;
    lemma_all_items_kept(kids, 0, open, close, content, p);
    assert(kids.skip(0) == kids);
    assert(parts_of(node, false, content) == items_of(kids, 0));
    lemma_list_reads(node, false, content, kids, 0, open, close);
}

proof fn lemma_map_shape(node: Syntax, content: Seq<char>)
    requires
        node.kind == "map"@,
        is_list(shown(node), 0, '{', '}', content),
        all_of_kind(items_of(shown(node), 0), "map_entry"@),
    ensures
        ({
            let form = form_of(node, false, content);
            let label = label_of(node, false, content);
            let parts = parts_of(node, false, content);
            let lists = part_tokens(node, false, content);
            &&& is_complete(form, label, parts.len())
            &&& tokens_of(node, content) == token_shape(form, label, lists, false) || (parts.len()
                > 0 && tokens_of(node, content) == token_shape(form, label, lists, true))
            &&& forall|i: int|
                0 <= i < parts.len() ==> (#[trigger] parts[i]).named && !is_comment(parts[i])
                    && parts[i].kind == "map_entry"@ && form is Entries
        }),
{
    lemma_kinds(',');
    let kids = shown(node);
    let items = items_of(kids, 0);
    let is_entry = |c: Syntax| c.named && c.kind == "map_entry"@;
    let of_entry = |c: Syntax| c.kind == "map_entry"@;
    assert forall|i: int| 0 <= i < item_count(kids, 0) implies is_entry(#[trigger] items[i]) by {}
    lemma_all_items_kept(kids, 0, '{', '}', content, is_entry);
    assert(kids.skip(0) == kids);
    assert forall|m: int| 0 <= m < kids.len() implies of_entry(#[trigger] kids[m]) == is_entry(
        kids[m],
    ) by {
        lemma_entry_or_mark(kids, content, m);
    }
    lemma_same_in_list(kids, of_entry, is_entry);
    lemma_filter_without_comments(node.children, of_entry);
    assert(ts_utils::children_of_kind(node, "map_entry"@) == items);
    if ts_utils::is_empty_of(node) {
        if items.len() > 0 {
            crate::keyed::lemma_filter_in(node.children, of_entry, 0);
            let k = choose|k: int| 0 <= k < node.children.len() && node.children[k] == items[0];
            assert(items[0].named);
            assert(!node.children[k].named);
        }
        assert(items == Seq::<Syntax>::empty());
    }
    assert(parts_of(node, false, content) == items);
    lemma_list_reads(node, false, content, kids, 0, '{', '}');
}

proof fn lemma_entry_or_mark(kids: Seq<Syntax>, content: Seq<char>, m: int)
    requires
        is_list(kids, 0, '{', '}', content),
        0 <= m < kids.len(),
    ensures
        kids[m].kind == "map_entry"@ ==> kids[m].named,
{
    let n = item_count(kids, 0);
    assert(2 * n == kids.len() - 1 || 2 * n == kids.len() - 2);
    lemma_kinds('{');
    lemma_kinds('}');
    lemma_kinds(',');
    if m == 0 {
        assert(is_mark(kids[0], '{', content));
    } else if m == kids.len() - 1 {
        assert(is_mark(kids.last(), '}', content));
    } else if m % 2 == 0 {
        let i = m / 2 - 1;
        assert(m == 2 + 2 * i);
        assert(is_mark(kids[0 + 2 + 2 * i], ',', content));
    } else {
        let i = m / 2;
        assert(kids[m] == items_of(kids, 0)[i]);
        assert(items_of(kids, 0)[i].named);
    }
}

proof fn lemma_three_tokens(node: Syntax, content: Seq<char>)
    requires
        is_composite(node),
        node.children.len() == 3,
        !is_comment(node.children[0]) && !is_comment(node.children[2]),
        is_mark(node.children[1], ':', content),
    ensures
        tokens_of(node, content) == tokens_of(node.children[0], content) + seq![seq![':']]
            + tokens_of(node.children[2], content),
{
    lemma_kinds(':');
    lemma_mark_tokens(node.children[1], ':', content);
    assert(tokens_below(node, 0, content) == Seq::<Seq<char>>::empty());
    assert(tokens_below(node, 1, content) == tokens_of(node.children[0], content));
    assert(tokens_below(node, 2, content) == tokens_of(node.children[0], content) + seq![
        seq![':'],
    ]);
    assert(tokens_below(node, 3, content) == tokens_below(node, 2, content) + tokens_of(
        node.children[2],
        content,
    ));
}

proof fn lemma_entry_shape(node: Syntax, content: Seq<char>)
    requires
        node.kind == "map_entry"@,
        node.children.len() == 3,
        is_mark(node.children[1], ':', content),
        is_item(node.children[0]) && is_item(node.children[2]),
    ensures
        ({
            let form = form_of(node, true, content);
            let label = label_of(node, true, content);
            let parts = parts_of(node, true, content);
            let lists = part_tokens(node, true, content);
            &&& is_complete(form, label, parts.len())
            &&& tokens_of(node, content) == token_shape(form, label, lists, false)
            &&& forall|i: int|
                0 <= i < parts.len() ==> (#[trigger] parts[i]).named && !is_comment(parts[i])
                    && parts[i].kind != "map_entry"@ && !(form is Entries)
        }),
{
    let p = |c: Syntax| c.named;
    let kids = node.children;
    lemma_filter_front(kids, p);
    lemma_filter_front(kids.skip(1), p);
    lemma_filter_front(kids.skip(1).skip(1), p);
    lemma_nothing_kept(kids.skip(1).skip(1).skip(1), p);
    let parts = ts_utils::named_children_of(node);
    assert(parts == seq![kids[0], kids[2]]);
    assert(parts.take(2) == parts);
    lemma_three_tokens(node, content);
    let lists = part_tokens(node, true, content);
    assert(lists[0] == tokens_of(kids[0], content));
    assert(lists[1] == tokens_of(kids[2], content));
    assert(lists[0].push(seq![':']) == lists[0] + seq![seq![':']]);
}

proof fn lemma_field_shape(node: Syntax, content: Seq<char>)
    requires
        node.kind == "field"@,
        node.children.len() == 3,
        node.children[0].kind == "identifier"@ && has_word(node.children[0], content),
        is_mark(node.children[1], ':', content),
        is_item(node.children[2]),
    ensures
        ({
            let form = form_of(node, false, content);
            let label = label_of(node, false, content);
            let parts = parts_of(node, false, content);
            let lists = part_tokens(node, false, content);
            &&& is_complete(form, label, parts.len())
            &&& tokens_of(node, content) == token_shape(form, label, lists, false)
            &&& forall|i: int|
                0 <= i < parts.len() ==> (#[trigger] parts[i]).named && !is_comment(parts[i])
                    && parts[i].kind != "map_entry"@ && !(form is Entries)
        }),
{
    lemma_kinds(':');
    let kids = node.children;
    assert(kids[0].kind != ":"@) by {
        reveal_strlit("identifier");
        reveal_strlit(":");
        assert("identifier"@.len() == 10 && ":"@.len() == 1);
    }
    crate::reading::lemma_value_of_a_field(node, 1);
    assert(ts_utils::field_value_of(node) == Some(kids[2]));
    lemma_three_tokens(node, content);
    let label = label_of(node, false, content);
    assert(tokens_of(kids[0], content) == seq![label->0]);
    let lists = part_tokens(node, false, content);
    assert(lists[0] == tokens_of(kids[2], content));
    assert(name_token(label).push(seq![':']) == seq![label->0] + seq![seq![':']]);
}

// ---------------------------------------------------------------------------
// Formatting
// ---------------------------------------------------------------------------

/// Formatting loses none of the data of a document: where its main value follows the grammar, the
/// formatted document is the annotation, if there is one, and behind it the tokens of the value, in
/// their order, with nothing but white space around them. They differ from those that the value has in
/// commas before closing brackets alone. Comments can stand around the value, in structs with fields
/// and in maps.
pub proof fn lemma_formatting_loses_nothing(
    content: Seq<char>,
    root: Syntax,
    value: Syntax,
    k: int,
) -> (tokens: Seq<Seq<char>>)
    requires
        0 <= k <= content.len(),
        forall|i: int| 0 <= i < k ==> text::is_white_space(#[trigger] content[i]),
        k < content.len() ==> !text::is_white_space(content[k]),
        !(k + 1 < content.len() && content[k] == '/' && content[k + 1] == '*'),
        ts_utils::main_value_of(root) == Some(value),
        value.kind != "map_entry"@,
        follows_grammar(value, content),
    ensures
        is_made_of(formatted(content, Some(root)), type_annotation(content), tokens),
        tidy(tokens) == tidy(tokens_of(value, content)),
{
    lemma_grammar_reads_well(value, false, content);
    lemma_formatting_keeps_tokens(content, root, value, k);
    written_tokens(outline(value, false, content))
}

/// The same of a document that begins with a comment: none of the data behind the comment is lost.
pub proof fn lemma_formatting_loses_nothing_behind_a_comment(
    content: Seq<char>,
    root: Syntax,
    value: Syntax,
) -> (tokens: Seq<Seq<char>>)
    requires
        ts_utils::main_value_of(root) == Some(value),
        value.kind != "map_entry"@,
        follows_grammar(value, body_of(content)),
    ensures
        is_made_of(formatted(content, Some(root)), type_annotation(content), tokens),
        tidy(tokens) == tidy(tokens_of(value, body_of(content))),
{
    lemma_grammar_reads_well(value, false, body_of(content));
    lemma_formatting_keeps_body_tokens(content, root, value);
    written_tokens(outline(value, false, body_of(content)))
}

} // verus!
