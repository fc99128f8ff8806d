//! The tokens of a document, and what formatting does to them: it changes the white space between
//! them and the commas before closing brackets.

use crate::annotation_parser::type_annotation;
use crate::format::{
    body_of, formatted, lemma_parts_of_a_formatted_document, lemma_whole_document_is_laid_out,
    own_text,
};
use crate::outline::{
    assembled, bracketed, form_of, inner_indent, label_of, laid_out, lemma_layout_assembled,
    lemma_parts_are_children, lines, or_nothing, outline, part_texts, parts_of, rows, Form, Outline,
};
use crate::syntax::Syntax;
use crate::text;
use crate::ts_utils;
use vstd::prelude::*;

verus! {

// ---------------------------------------------------------------------------
// Texts made of tokens
// ---------------------------------------------------------------------------

/// Whether a text is white space.
pub open spec fn is_space(s: Seq<char>) -> bool {
    forall|i: int| 0 <= i < s.len() ==> text::is_white_space(#[trigger] s[i])
}

/// Whether a text is made of tokens, in order, with nothing but white space around them.
#[verifier::opaque]
pub open spec fn spaced(s: Seq<char>, tokens: Seq<Seq<char>>) -> bool
    decreases tokens.len(),
{
    if tokens.len() == 0 {
        is_space(s)
    } else {
        exists|k: int|
            {
                &&& 0 <= k
                &&& k + tokens.last().len() <= s.len()
                &&& #[trigger] s.subrange(k, k + tokens.last().len()) == tokens.last()
                &&& is_space(s.skip(k + tokens.last().len()))
                &&& spaced(s.take(k), tokens.drop_last())
            }
    }
}

/// Whether a token closes a bracket.
pub open spec fn is_closer(token: Seq<char>) -> bool {
    token == seq![')'] || token == seq![']'] || token == seq!['}']
}

/// The token between the parts of a list.
pub open spec fn comma() -> Seq<char> {
    seq![',']
}

/// The tokens without the commas that stand directly before a closing bracket.
pub open spec fn tidy(tokens: Seq<Seq<char>>) -> Seq<Seq<char>>
    decreases tokens.len(),
{
    let n = tokens.len();
    if n == 0 {
        Seq::empty()
    } else if n >= 2 && tokens[n - 2] == comma() && is_closer(tokens[n - 1]) {
        tidy(tokens.take(n - 2)).push(tokens.last())
    } else {
        tidy(tokens.drop_last()).push(tokens.last())
    }
}

proof fn lemma_spaced_trailing(s: Seq<char>, tokens: Seq<Seq<char>>, tail: Seq<char>)
    requires
        spaced(s, tokens),
        is_space(tail),
    ensures
        spaced(s + tail, tokens),
{
    reveal(spaced);
    let all = s + tail;
    if tokens.len() == 0 {
        assert forall|i: int| 0 <= i < all.len() implies text::is_white_space(
            #[trigger] all[i],
        ) by {
            if i >= s.len() {
                assert(all[i] == tail[i - s.len()]);
            }
        }
    } else {
        let t = tokens.last();
        let k = choose|k: int|
            {
                &&& 0 <= k
                &&& k + t.len() <= s.len()
                &&& #[trigger] s.subrange(k, k + t.len()) == t
                &&& is_space(s.skip(k + t.len()))
                &&& spaced(s.take(k), tokens.drop_last())
            };
        let rest = s.skip(k + t.len());
        assert(all.subrange(k, k + t.len()) == t) by {
            assert(all.subrange(k, k + t.len()) == s.subrange(k, k + t.len()));
        }
        let after = all.skip(k + t.len());
        assert forall|i: int| 0 <= i < after.len() implies text::is_white_space(
            #[trigger] after[i],
        ) by {
            if i < rest.len() {
                assert(after[i] == rest[i]);
            } else {
                assert(after[i] == tail[i - rest.len()]);
            }
        }
        assert(all.take(k) == s.take(k));
    }
}

/// Two texts one after the other are made of the tokens of both.
pub proof fn lemma_spaced_concat(
    a: Seq<char>,
    x: Seq<Seq<char>>,
    b: Seq<char>,
    y: Seq<Seq<char>>,
)
    requires
        spaced(a, x),
        spaced(b, y),
    ensures
        spaced(a + b, x + y),
    decreases y.len(),
{
    reveal(spaced);
    if y.len() == 0 {
        assert(x + y == x);
        lemma_spaced_trailing(a, x, b);
    } else {
        let t = y.last();
        let k = choose|k: int|
            {
                &&& 0 <= k
                &&& k + t.len() <= b.len()
                &&& #[trigger] b.subrange(k, k + t.len()) == t
                &&& is_space(b.skip(k + t.len()))
                &&& spaced(b.take(k), y.drop_last())
            };
        lemma_spaced_concat(a, x, b.take(k), y.drop_last());
        let all = a + b;
        let at = a.len() + k;
        assert((x + y).last() == t);
        assert((x + y).drop_last() == x + y.drop_last());
        assert(all.subrange(at, at + t.len()) == b.subrange(k, k + t.len()));
        assert(all.skip(at + t.len()) == b.skip(k + t.len()));
        assert(all.take(at) == a + b.take(k));
    }
}

/// A token is made of itself.
pub proof fn lemma_spaced_token(t: Seq<char>)
    ensures
        spaced(t, seq![t]),
{
    reveal_with_fuel(spaced, 2);
    let tokens = seq![t];
    assert(tokens.drop_last() == Seq::<Seq<char>>::empty());
    let k: int = 0;
    assert(t.subrange(k, k + t.len()) == t);
    assert(t.take(k).len() == 0);
    assert(t.skip(k + t.len()).len() == 0);
    assert(spaced(t.take(k), tokens.drop_last()));
    assert(tokens.last() == t);
}

/// White space is made of no tokens.
pub proof fn lemma_spaced_nothing(space: Seq<char>)
    requires
        is_space(space),
    ensures
        spaced(space, Seq::<Seq<char>>::empty()),
{
    reveal(spaced);
}

/// White space before a text adds no token.
pub proof fn lemma_spaced_after_space(space: Seq<char>, s: Seq<char>, tokens: Seq<Seq<char>>)
    requires
        is_space(space),
        spaced(s, tokens),
    ensures
        spaced(space + s, tokens),
{
    lemma_spaced_nothing(space);
    lemma_spaced_concat(space, Seq::empty(), s, tokens);
    assert(Seq::<Seq<char>>::empty() + tokens == tokens);
}

/// Tidying two lists of tokens one after the other is tidying each, unless the first ends in a comma
/// and the second starts with a closing bracket.
pub proof fn lemma_tidy_concat(a: Seq<Seq<char>>, b: Seq<Seq<char>>)
    requires
        a.len() > 0 && b.len() > 0 ==> !(a.last() == comma() && is_closer(b[0])),
    ensures
        tidy(a + b) == tidy(a) + tidy(b),
    decreases b.len(),
{
    let all = a + b;
    let n = b.len();
    if n == 0 {
        assert(all == a);
        assert(tidy(b) == Seq::<Seq<char>>::empty());
    } else {
        assert(all.last() == b.last());
        assert(all.drop_last() == a + b.drop_last());
        if n >= 2 {
            assert(all[all.len() - 2] == b[n - 2]);
            assert(all.take(all.len() - 2) == a + b.take(n - 2));
            if b[n - 2] == comma() && is_closer(b[n - 1]) {
                lemma_tidy_concat(a, b.take(n - 2));
            } else {
                lemma_tidy_concat(a, b.drop_last());
            }
        } else {
            assert(b.drop_last() == Seq::<Seq<char>>::empty());
            lemma_tidy_concat(a, b.drop_last());
            if a.len() > 0 {
                assert(all[all.len() - 2] == a.last());
            }
        }
    }
}

proof fn lemma_tidy_one(t: Seq<char>)
    ensures
        tidy(seq![t]) == seq![t],
{
    assert(seq![t].drop_last() == Seq::<Seq<char>>::empty());
    assert(tidy(seq![t].drop_last()) == Seq::<Seq<char>>::empty());
}

// ---------------------------------------------------------------------------
// The tokens of an outline
// ---------------------------------------------------------------------------

/// The first `n` of the token lists, with commas between them.
pub open spec fn separated(lists: Seq<Seq<Seq<char>>>, n: nat) -> Seq<Seq<char>>
    decreases n,
{
    if n == 0 || n > lists.len() {
        Seq::empty()
    } else if n == 1 {
        lists[0]
    } else {
        separated(lists, (n - 1) as nat).push(comma()) + lists[n - 1]
    }
}

/// Token lists in brackets, with commas between them and perhaps one behind the last.
pub open spec fn in_brackets(
    open: char,
    close: char,
    lists: Seq<Seq<Seq<char>>>,
    trailing: bool,
) -> Seq<Seq<char>> {
    seq![seq![open]] + separated(lists, lists.len()) + (if trailing {
        seq![comma(), seq![close]]
    } else {
        seq![seq![close]]
    })
}

/// The token that a name is.
pub open spec fn name_token(text: Option<Seq<char>>) -> Seq<Seq<char>> {
    match text {
        Some(text) => seq![text],
        None => Seq::empty(),
    }
}

/// The tokens of a node, given those of the nodes in it.
pub open spec fn token_shape(
    form: Form,
    text: Option<Seq<char>>,
    lists: Seq<Seq<Seq<char>>>,
    trailing: bool,
) -> Seq<Seq<char>> {
    match form {
        Form::Leaf => name_token(text),
        Form::Fields | Form::Values => name_token(text) + in_brackets('(', ')', lists, trailing),
        Form::Array => in_brackets('[', ']', lists, trailing),
        Form::Tuple => in_brackets('(', ')', lists, trailing),
        Form::Entries => in_brackets('{', '}', lists, trailing),
        Form::Entry => lists[0].push(seq![':']) + lists[1],
        Form::Field => name_token(text).push(seq![':']) + lists[0],
    }
}

/// Whether the layout of a form ends in a comma behind the last part.
pub open spec fn writes_trailing(form: Form, n: nat) -> bool {
    n > 0 && (form is Fields || form is Array || form is Tuple || form is Entries)
}

/// The tokens that the layout of an outline writes.
pub open spec fn written_tokens(o: Outline) -> Seq<Seq<char>> {
    token_shape(o.form, o.text, written_lists(o), writes_trailing(o.form, o.parts.len()))
}

/// The tokens that the layouts of the parts of an outline write.
pub open spec fn written_lists(o: Outline) -> Seq<Seq<Seq<char>>>
    decreases o,
{
    Seq::new(
        o.parts.len(),
        |i: int|
            if 0 <= i < o.parts.len() {
                token_shape(
                    o.parts[i].form,
                    o.parts[i].text,
                    written_lists(o.parts[i]),
                    writes_trailing(o.parts[i].form, o.parts[i].parts.len()),
                )
            } else {
                arbitrary()
            },
    )
}

/// The tokens of an outline, without commas before closing brackets.
pub open spec fn plain_tokens(o: Outline) -> Seq<Seq<char>> {
    token_shape(o.form, o.text, plain_lists(o), false)
}

/// The tokens of the parts of an outline, without commas before closing brackets.
pub open spec fn plain_lists(o: Outline) -> Seq<Seq<Seq<char>>>
    decreases o,
{
    Seq::new(
        o.parts.len(),
        |i: int|
            if 0 <= i < o.parts.len() {
                token_shape(o.parts[i].form, o.parts[i].text, plain_lists(o.parts[i]), false)
            } else {
                arbitrary()
            },
    )
}

/// Whether a name or the text of a leaf can be a token beside commas and brackets.
pub open spec fn is_word(token: Seq<char>) -> bool {
    token.len() > 0 && !text::is_white_space(token.last()) && token != comma() && !is_closer(token)
}

/// Whether the tokens of a part do not start with a closing bracket nor end in a comma or in white
/// space.
pub open spec fn is_solid(tokens: Seq<Seq<char>>) -> bool {
    &&& tokens.len() > 0
    &&& !is_closer(tokens[0])
    &&& tokens.last() != comma()
    &&& tokens.last().len() > 0
    &&& !text::is_white_space(tokens.last().last())
}

/// Whether a node can have its form: a field has a name and a value, an entry a key and a value, a
/// leaf a text.
pub open spec fn is_complete(form: Form, text: Option<Seq<char>>, n: nat) -> bool {
    &&& text matches Some(text) ==> is_word(text)
    &&& form is Leaf ==> text is Some && n == 0
    &&& form is Field ==> text is Some && n == 1
    &&& form is Entry ==> n == 2
}

proof fn lemma_separated(lists: Seq<Seq<Seq<char>>>, plain: Seq<Seq<Seq<char>>>, n: nat)
    requires
        n <= lists.len() == plain.len(),
        forall|i: int|
            0 <= i < lists.len() ==> is_solid(#[trigger] lists[i]) && tidy(lists[i]) == plain[i],
    ensures
        tidy(separated(lists, n)) == separated(plain, n),
        n > 0 ==> is_solid(separated(lists, n)),
    decreases n,
{
    if n > 1 {
        lemma_separated(lists, plain, (n - 1) as nat);
        let head = separated(lists, (n - 1) as nat);
        let last = lists[n - 1];
        assert(is_solid(last));
        assert(head.push(comma()) == head + seq![comma()]);
        assert(!is_closer(comma())) by {
            assert(comma()[0] == ',');
            assert(seq![')'][0] == ')' && seq![']'][0] == ']' && seq!['}'][0] == '}');
        }
        lemma_tidy_concat(head, seq![comma()]);
        lemma_tidy_one(comma());
        lemma_tidy_concat(head.push(comma()), last);
        let all = separated(lists, n);
        assert(all == head.push(comma()) + last);
        assert(all[0] == head[0]);
        assert(all.last() == last.last());
        assert(tidy(head.push(comma())) == tidy(head).push(comma()));
    } else if n == 1 {
        assert(is_solid(lists[0]));
    } else {
        assert(separated(lists, 0) == Seq::<Seq<char>>::empty());
    }
}

proof fn lemma_in_brackets(
    open: char,
    close: char,
    lists: Seq<Seq<Seq<char>>>,
    plain: Seq<Seq<Seq<char>>>,
    trailing: bool,
)
    requires
        open == '(' || open == '[' || open == '{',
        close == ')' || close == ']' || close == '}',
        trailing ==> lists.len() > 0,
        lists.len() == plain.len(),
        forall|i: int|
            0 <= i < lists.len() ==> is_solid(#[trigger] lists[i]) && tidy(lists[i]) == plain[i],
    ensures
        tidy(in_brackets(open, close, lists, trailing)) == in_brackets(open, close, plain, false),
        is_solid(in_brackets(open, close, lists, trailing)),
{
    lemma_separated(lists, plain, lists.len());
    let inner = separated(lists, lists.len());
    let start = seq![seq![open]];
    let end = seq![seq![close]];
    assert(start[0][0] == open && end[0][0] == close);
    assert(comma()[0] == ',');
    assert(seq![')'][0] == ')' && seq![']'][0] == ']' && seq!['}'][0] == '}');
    assert(!is_closer(start[0]));
    assert(is_closer(seq![close]));
    lemma_tidy_one(seq![open]);
    lemma_tidy_one(seq![close]);
    let all = in_brackets(open, close, lists, trailing);
    assert(all.last() == seq![close]);
    assert(all[0] == seq![open]);
    lemma_tidy_concat(start, inner);
    if trailing {
        let n = all.len();
        assert(all[n - 2] == comma());
        assert(all.take(n - 2) == start + inner);
        assert(tidy(all) == tidy(start + inner).push(seq![close]));
    } else {
        assert(all == start + inner + end);
        if inner.len() > 0 {
            assert((start + inner).last() == inner.last());
        } else {
            assert((start + inner).last() == seq![open]);
        }
        lemma_tidy_concat(start + inner, end);
    }
    assert(tidy(all) == in_brackets(open, close, plain, false));
}

/// The tokens of a node, tidied, follow from the tidied tokens of the nodes in it, whether or not a
/// comma stands behind the last part.
proof fn lemma_token_shape(
    form: Form,
    text: Option<Seq<char>>,
    lists: Seq<Seq<Seq<char>>>,
    plain: Seq<Seq<Seq<char>>>,
    trailing: bool,
)
    requires
        is_complete(form, text, lists.len()),
        trailing ==> lists.len() > 0,
        lists.len() == plain.len(),
        forall|i: int|
            0 <= i < lists.len() ==> is_solid(#[trigger] lists[i]) && tidy(lists[i]) == plain[i],
    ensures
        tidy(token_shape(form, text, lists, trailing)) == token_shape(form, text, plain, false),
        is_solid(token_shape(form, text, lists, trailing)),
{
    let colon = seq![':'];
    assert(colon[0] == ':' && comma()[0] == ',');
    assert(seq![')'][0] == ')' && seq![']'][0] == ']' && seq!['}'][0] == '}');
    assert(!is_closer(colon));
    let all = token_shape(form, text, lists, trailing);
    match form {
        Form::Leaf => {
            lemma_tidy_one(text->0);
        },
        Form::Fields | Form::Values => {
            lemma_in_brackets('(', ')', lists, plain, trailing);
            let rest = in_brackets('(', ')', lists, trailing);
            lemma_tidy_concat(name_token(text), rest);
            assert(all.last() == rest.last());
            if text is Some {
                lemma_tidy_one(text->0);
                assert(all[0] == text->0);
            } else {
                assert(all == rest);
                assert(tidy(name_token(text)) == Seq::<Seq<char>>::empty());
            }
        },
        Form::Array => {
            lemma_in_brackets('[', ']', lists, plain, trailing);
        },
        Form::Tuple => {
            lemma_in_brackets('(', ')', lists, plain, trailing);
        },
        Form::Entries => {
            lemma_in_brackets('{', '}', lists, plain, trailing);
        },
        Form::Entry => {
            assert(is_solid(lists[0]) && is_solid(lists[1]));
            lemma_tidy_one(colon);
            lemma_tidy_concat(lists[0], seq![colon]);
            assert(lists[0].push(colon) == lists[0] + seq![colon]);
            lemma_tidy_concat(lists[0].push(colon), lists[1]);
            assert(all[0] == lists[0][0]);
            assert(all.last() == lists[1].last());
            assert(tidy(lists[0].push(colon)) == tidy(lists[0]).push(colon));
        },
        Form::Field => {
            let name = seq![text->0];
            assert(is_solid(lists[0]));
            lemma_tidy_one(text->0);
            lemma_tidy_one(colon);
            lemma_tidy_concat(name, seq![colon]);
            assert(name.push(colon) == name + seq![colon]);
            lemma_tidy_concat(name.push(colon), lists[0]);
            assert(all[0] == text->0);
            assert(all.last() == lists[0].last());
            assert(tidy(name.push(colon)) == name.push(colon));
        },
    }
}

// ---------------------------------------------------------------------------
// The tokens of a tree
// ---------------------------------------------------------------------------

/// Whether a node is made of the tokens of its children.
pub open spec fn is_composite(node: Syntax) -> bool {
    node.kind == "struct"@ || node.kind == "field"@ || node.kind == "array"@ || node.kind
        == "tuple"@ || node.kind == "map"@ || node.kind == "map_entry"@
}

/// Whether a node is a comment.
pub open spec fn is_comment(node: Syntax) -> bool {
    node.kind == "line_comment"@ || node.kind == "block_comment"@
}

/// The tokens of a node: its text, or the tokens of its children without those that are comments.
pub open spec fn tokens_of(node: Syntax, content: Seq<char>) -> Seq<Seq<char>>
    decreases node, 1int, 0nat,
{
    if is_composite(node) {
        tokens_below(node, node.children.len(), content)
    } else {
        seq![own_text(node, content)]
    }
}

/// The tokens of the first `n` children of a node that are no comments.
pub open spec fn tokens_below(node: Syntax, n: nat, content: Seq<char>) -> Seq<Seq<char>>
    decreases node, 0int, n,
{
    if n == 0 || n > node.children.len() {
        Seq::empty()
    } else {
        tokens_below(node, (n - 1) as nat, content) + (if is_comment(node.children[n - 1]) {
            Seq::empty()
        } else {
            tokens_of(node.children[n - 1], content)
        })
    }
}

/// The tokens of the nodes that are laid out in a node.
pub open spec fn part_tokens(node: Syntax, in_map: bool, content: Seq<char>) -> Seq<
    Seq<Seq<char>>,
> {
    let parts = parts_of(node, in_map, content);
    Seq::new(parts.len(), |i: int| tokens_of(parts[i], content))
}

/// Whether the tokens of a node are those that its form asks for: its name, its brackets, and
/// between them the tokens of what is laid out in it, with commas between and perhaps behind; and so
/// in each of the nodes that are laid out in it.
pub open spec fn reads_well(node: Syntax, in_map: bool, content: Seq<char>) -> bool
    decreases node,
{
    let form = form_of(node, in_map, content);
    let label = label_of(node, in_map, content);
    let parts = parts_of(node, in_map, content);
    let lists = part_tokens(node, in_map, content);
    &&& is_complete(form, label, parts.len())
    &&& tokens_of(node, content) == token_shape(form, label, lists, false) || (parts.len() > 0
        && tokens_of(node, content) == token_shape(form, label, lists, true))
    &&& forall|i: int|
        0 <= i < parts.len() && node.children.contains(#[trigger] parts[i]) ==> reads_well(
            parts[i],
            form is Entries,
            content,
        )
}

/// What holds of the node holds of the nodes that are laid out in it.
proof fn lemma_part_reads_well(node: Syntax, in_map: bool, content: Seq<char>, i: int)
    requires
        reads_well(node, in_map, content),
        0 <= i < parts_of(node, in_map, content).len(),
    ensures
        reads_well(
            parts_of(node, in_map, content)[i],
            form_of(node, in_map, content) is Entries,
            content,
        ),
        outline(node, in_map, content).parts[i] == outline(
            parts_of(node, in_map, content)[i],
            form_of(node, in_map, content) is Entries,
            content,
        ),
        decreases_to!(node => parts_of(node, in_map, content)[i]),
{
    lemma_parts_are_children(node, in_map, content);
    let part = parts_of(node, in_map, content)[i];
    assert(node.children.contains(part));
    let k = choose|k: int| 0 <= k < node.children.len() && node.children[k] == part;
    assert(decreases_to!(node => node.children));
    assert(decreases_to!(node.children => node.children[k]));
}

/// The tokens of a node and those that its layout writes differ in commas before closing brackets
/// alone.
pub proof fn lemma_same_tokens(node: Syntax, in_map: bool, content: Seq<char>)
    requires
        reads_well(node, in_map, content),
    ensures
        tidy(tokens_of(node, content)) == plain_tokens(outline(node, in_map, content)),
        tidy(written_tokens(outline(node, in_map, content))) == plain_tokens(
            outline(node, in_map, content),
        ),
        is_solid(tokens_of(node, content)),
        is_solid(written_tokens(outline(node, in_map, content))),
    decreases node,
{
    let form = form_of(node, in_map, content);
    let label = label_of(node, in_map, content);
    let parts = parts_of(node, in_map, content);
    let o = outline(node, in_map, content);
    let lists = part_tokens(node, in_map, content);
    let written = written_lists(o);
    let plain = plain_lists(o);
    assert(o.parts.len() == parts.len());
    assert forall|i: int| 0 <= i < parts.len() implies is_solid(#[trigger] lists[i]) && tidy(
        lists[i],
    ) == plain[i] && is_solid(written[i]) && tidy(written[i]) == plain[i] by {
        lemma_part_reads_well(node, in_map, content, i);
        lemma_same_tokens(parts[i], form is Entries, content);
        assert(written[i] == written_tokens(o.parts[i]));
        assert(plain[i] == plain_tokens(o.parts[i]));
    }
    assert forall|i: int| 0 <= i < written.len() implies is_solid(#[trigger] written[i]) && tidy(
        written[i],
    ) == plain[i] by {
        assert(is_solid(lists[i]));
    }
    lemma_token_shape(form, label, lists, plain, false);
    if parts.len() > 0 {
        lemma_token_shape(form, label, lists, plain, true);
    }
    lemma_token_shape(form, label, written, plain, writes_trailing(form, o.parts.len()));
}

proof fn lemma_spaced_rows(
    texts: Seq<Seq<char>>,
    lists: Seq<Seq<Seq<char>>>,
    n: nat,
    indent: Seq<char>,
)
    requires
        n <= texts.len() == lists.len(),
        is_space(indent),
        forall|i: int| 0 <= i < texts.len() ==> spaced(#[trigger] texts[i], lists[i]),
    ensures
        spaced(rows(texts, n, indent), separated(lists, n)),
        n > 0 ==> spaced(lines(texts, n, indent), separated(lists, n).push(comma())),
    decreases n,
{
    if n > 0 {
        lemma_spaced_rows(texts, lists, (n - 1) as nat, indent);
        let item = indent + texts[n - 1];
        lemma_spaced_after_space(indent, texts[n - 1], lists[n - 1]);
        let newline = seq!['\n'];
        assert(is_space(newline));
        lemma_spaced_token(comma());
        lemma_spaced_trailing(comma(), seq![comma()], newline);
        assert(comma() + newline == seq![',', '\n']);
        lemma_spaced_concat(item, lists[n - 1], seq![',', '\n'], seq![comma()]);
        if n == 1 {
            assert(rows(texts, 0, indent) == Seq::<char>::empty());
            assert(lines(texts, 0, indent) == Seq::<char>::empty());
            assert(rows(texts, n, indent) == item);
            assert(lines(texts, n, indent) == item + seq![',', '\n']);
            assert(lists[0] + seq![comma()] == separated(lists, 1).push(comma()));
        } else {
            let before = separated(lists, (n - 1) as nat);
            lemma_spaced_concat(
                rows(texts, (n - 1) as nat, indent),
                before,
                seq![',', '\n'],
                seq![comma()],
            );
            assert(before + seq![comma()] == before.push(comma()));
            lemma_spaced_concat(
                rows(texts, (n - 1) as nat, indent) + seq![',', '\n'],
                before.push(comma()),
                item,
                lists[n - 1],
            );
            assert(rows(texts, n, indent) == rows(texts, (n - 1) as nat, indent) + seq![',', '\n']
                + item);
            lemma_spaced_concat(
                lines(texts, (n - 1) as nat, indent),
                before.push(comma()),
                item + seq![',', '\n'],
                lists[n - 1] + seq![comma()],
            );
            assert(lines(texts, n, indent) == lines(texts, (n - 1) as nat, indent) + (item
                + seq![',', '\n']));
            assert(before.push(comma()) + (lists[n - 1] + seq![comma()]) == separated(
                lists,
                n,
            ).push(comma()));
        }
    } else {
        assert(rows(texts, 0, indent) == Seq::<char>::empty());
        assert(separated(lists, 0) == Seq::<Seq<char>>::empty());
        lemma_spaced_nothing(Seq::empty());
    }
}

proof fn lemma_spaced_bracketed(
    open: char,
    close: char,
    texts: Seq<Seq<char>>,
    lists: Seq<Seq<Seq<char>>>,
    indent: Seq<char>,
    unit: Seq<char>,
)
    requires
        texts.len() == lists.len(),
        is_space(indent),
        is_space(unit),
        forall|i: int| 0 <= i < texts.len() ==> spaced(#[trigger] texts[i], lists[i]),
    ensures
        spaced(
            bracketed(open, close, texts, indent, unit),
            in_brackets(open, close, lists, texts.len() > 0),
        ),
{
    let n = texts.len();
    lemma_spaced_token(seq![open]);
    lemma_spaced_token(seq![close]);
    if n == 0 {
        lemma_spaced_concat(seq![open], seq![seq![open]], seq![close], seq![seq![close]]);
        assert(seq![open] + seq![close] == seq![open, close]);
        assert(in_brackets(open, close, lists, false) == seq![seq![open]] + seq![seq![close]]);
    } else {
        lemma_space_concat(indent, unit);
        lemma_spaced_rows(texts, lists, n, indent + unit);
        let newline = seq!['\n'];
        assert(is_space(newline));
        lemma_spaced_trailing(seq![open], seq![seq![open]], newline);
        assert(seq![open] + newline == seq![open, '\n']);
        let inner = separated(lists, n).push(comma());
        let body = lines(texts, n, indent + unit);
        lemma_spaced_concat(seq![open, '\n'], seq![seq![open]], body, inner);
        lemma_spaced_after_space(indent, seq![close], seq![seq![close]]);
        lemma_spaced_concat(
            seq![open, '\n'] + body,
            seq![seq![open]] + inner,
            indent + seq![close],
            seq![seq![close]],
        );
        assert(bracketed(open, close, texts, indent, unit) == seq![open, '\n'] + body + (indent
            + seq![close]));
        assert(in_brackets(open, close, lists, true) == seq![seq![open]] + inner
            + seq![seq![close]]);
    }
}

proof fn lemma_space_concat(a: Seq<char>, b: Seq<char>)
    requires
        is_space(a),
        is_space(b),
    ensures
        is_space(a + b),
{
    assert forall|i: int| 0 <= i < (a + b).len() implies text::is_white_space(
        #[trigger] (a + b)[i],
    ) by {
        if i < a.len() {
            assert((a + b)[i] == a[i]);
        } else {
            assert((a + b)[i] == b[i - a.len()]);
        }
    }
}

/// What is written for a node is made of the tokens of its shape, given that what is written for the
/// nodes in it is made of theirs.
proof fn lemma_spaced_assembled(
    form: Form,
    label: Option<Seq<char>>,
    texts: Seq<Seq<char>>,
    lists: Seq<Seq<Seq<char>>>,
    indent: Seq<char>,
    unit: Seq<char>,
)
    requires
        is_complete(form, label, texts.len()),
        texts.len() == lists.len(),
        is_space(indent),
        is_space(unit),
        forall|i: int| 0 <= i < texts.len() ==> spaced(#[trigger] texts[i], lists[i]),
    ensures
        spaced(
            assembled(form, label, texts, indent, unit),
            token_shape(form, label, lists, writes_trailing(form, texts.len())),
        ),
{
    let colon = seq![':'];
    assert(spaced(or_nothing(label), name_token(label))) by {
        if label is Some {
            lemma_spaced_token(label->0);
        } else {
            lemma_spaced_nothing(Seq::empty());
        }
    }
    lemma_spaced_token(colon);
    assert(is_space(seq![' ']));
    lemma_spaced_trailing(colon, seq![colon], seq![' ']);
    assert(colon + seq![' '] == seq![':', ' ']);
    match form {
        Form::Leaf => {},
        Form::Fields => {
            lemma_spaced_bracketed('(', ')', texts, lists, indent, unit);
            lemma_spaced_concat(
                or_nothing(label),
                name_token(label),
                bracketed('(', ')', texts, indent, unit),
                in_brackets('(', ')', lists, texts.len() > 0),
            );
        },
        Form::Values => {
            lemma_spaced_values(texts, lists, indent, unit);
            let body = values_text(texts, indent, unit);
            lemma_spaced_concat(
                or_nothing(label),
                name_token(label),
                seq!['('] + body + seq![')'],
                in_brackets('(', ')', lists, false),
            );
            assert(assembled(form, label, texts, indent, unit) == or_nothing(label) + (seq!['(']
                + body + seq![')']));
        },
        Form::Array => {
            lemma_spaced_bracketed('[', ']', texts, lists, indent, unit);
        },
        Form::Tuple => {
            lemma_spaced_bracketed('(', ')', texts, lists, indent, unit);
        },
        Form::Entries => {
            lemma_spaced_bracketed('{', '}', texts, lists, indent, unit);
        },
        Form::Entry => {
            assert(spaced(texts[0], lists[0]) && spaced(texts[1], lists[1]));
            lemma_spaced_concat(texts[0], lists[0], seq![':', ' '], seq![colon]);
            assert(lists[0] + seq![colon] == lists[0].push(colon));
            lemma_spaced_concat(
                texts[0] + seq![':', ' '],
                lists[0].push(colon),
                texts[1],
                lists[1],
            );
        },
        Form::Field => {
            assert(spaced(texts[0], lists[0]));
            let name = label->0;
            lemma_spaced_concat(name, seq![name], seq![':', ' '], seq![colon]);
            assert(seq![name] + seq![colon] == name_token(label).push(colon));
            lemma_spaced_concat(
                name + seq![':', ' '],
                name_token(label).push(colon),
                texts[0],
                lists[0],
            );
        },
    }
}

/// What is written between the parentheses of a struct with values.
pub open spec fn values_text(
    texts: Seq<Seq<char>>,
    indent: Seq<char>,
    unit: Seq<char>,
) -> Seq<char> {
    if texts.len() == 0 {
        Seq::empty()
    } else if texts.len() == 1 {
        texts[0]
    } else {
        seq!['\n'] + rows(texts, texts.len(), indent + unit) + seq!['\n'] + indent
    }
}

proof fn lemma_spaced_values(
    texts: Seq<Seq<char>>,
    lists: Seq<Seq<Seq<char>>>,
    indent: Seq<char>,
    unit: Seq<char>,
)
    requires
        texts.len() == lists.len(),
        is_space(indent),
        is_space(unit),
        forall|i: int| 0 <= i < texts.len() ==> spaced(#[trigger] texts[i], lists[i]),
    ensures
        spaced(
            seq!['('] + values_text(texts, indent, unit) + seq![')'],
            in_brackets('(', ')', lists, false),
        ),
{
    let n = texts.len();
    let body = values_text(texts, indent, unit);
    let inner = separated(lists, n);
    let newline = seq!['\n'];
    assert(is_space(newline));
    assert(spaced(body, inner)) by {
        if n == 0 {
            assert(inner == Seq::<Seq<char>>::empty());
            lemma_spaced_nothing(Seq::empty());
        } else if n == 1 {
            assert(spaced(texts[0], lists[0]));
        } else {
            lemma_space_concat(indent, unit);
            lemma_spaced_rows(texts, lists, n, indent + unit);
            let list = rows(texts, n, indent + unit);
            lemma_spaced_after_space(newline, list, inner);
            lemma_spaced_trailing(newline + list, inner, newline);
            lemma_spaced_trailing(newline + list + newline, inner, indent);
        }
    }
    lemma_spaced_token(seq!['(']);
    lemma_spaced_token(seq![')']);
    lemma_spaced_concat(seq!['('], seq![seq!['(']], body, inner);
    lemma_spaced_concat(seq!['('] + body, seq![seq!['(']] + inner, seq![')'], seq![seq![')']]);
}

/// The layout of a node is made of the tokens of its outline, with nothing but white space around
/// them.
pub proof fn lemma_layout_tokens(
    node: Syntax,
    in_map: bool,
    content: Seq<char>,
    indent: Seq<char>,
    unit: Seq<char>,
)
    requires
        reads_well(node, in_map, content),
        is_space(indent),
        is_space(unit),
    ensures
        spaced(
            laid_out(node, in_map, content, indent, unit),
            written_tokens(outline(node, in_map, content)),
        ),
    decreases node,
{
    let form = form_of(node, in_map, content);
    let label = label_of(node, in_map, content);
    let parts = parts_of(node, in_map, content);
    let o = outline(node, in_map, content);
    let inner = inner_indent(form, indent, unit);
    let texts = part_texts(node, in_map, content, indent, unit);
    let written = written_lists(o);
    lemma_space_concat(indent, unit);
    assert(o.parts.len() == parts.len());
    assert forall|i: int| 0 <= i < texts.len() implies spaced(#[trigger] texts[i], written[i]) by {
        lemma_part_reads_well(node, in_map, content, i);
        lemma_layout_tokens(parts[i], form is Entries, content, inner, unit);
        assert(written[i] == written_tokens(o.parts[i]));
    }
    lemma_layout_assembled(node, in_map, content, indent, unit);
    lemma_spaced_assembled(form, label, texts, written, indent, unit);
}

/// White space at the end of a text can be taken away.
proof fn lemma_spaced_trimmed(s: Seq<char>, tokens: Seq<Seq<char>>)
    requires
        spaced(s, tokens),
        is_solid(tokens),
    ensures
        spaced(text::trimmed_end(s), tokens),
{
    reveal(spaced);
    let t = tokens.last();
    let k = choose|k: int|
        {
            &&& 0 <= k
            &&& k + t.len() <= s.len()
            &&& #[trigger] s.subrange(k, k + t.len()) == t
            &&& is_space(s.skip(k + t.len()))
            &&& spaced(s.take(k), tokens.drop_last())
        };
    let head = s.take(k + t.len());
    let tail = s.skip(k + t.len());
    assert(s == head + tail);
    assert(head.last() == s.subrange(k, k + t.len()).last());
    text::lemma_trimmed_end_keeps(head, tail);
    lemma_trimmed_space(tail);
    assert(text::trimmed_end(s) == head);
    assert(head.subrange(k, k + t.len()) == t) by {
        assert(head.subrange(k, k + t.len()) == s.subrange(k, k + t.len()));
    }
    assert(head.take(k) == s.take(k));
    assert(is_space(head.skip(k + t.len())));
}

proof fn lemma_trimmed_space(s: Seq<char>)
    requires
        is_space(s),
    ensures
        text::trimmed_end(s) == Seq::<char>::empty(),
    decreases s.len(),
{
    if s.len() > 0 {
        assert(text::is_white_space(s[s.len() - 1]));
        assert forall|i: int| 0 <= i < s.drop_last().len() implies text::is_white_space(
            #[trigger] s.drop_last()[i],
        ) by {
            assert(s.drop_last()[i] == s[i]);
        }
        lemma_trimmed_space(s.drop_last());
    }
}

/// Formatting changes nothing but white space and commas before closing brackets: the formatted
/// document is its annotation, where it has one, and behind it the tokens of its main value with
/// nothing but white space around them. They differ from the tokens that the value has in such commas
/// alone. That holds whatever comments stand around the value, if the document does not begin with
/// one.
pub proof fn lemma_formatting_keeps_tokens(
    content: Seq<char>,
    root: Syntax,
    value: Syntax,
    k: int,
)
    requires
        0 <= k <= content.len(),
        forall|i: int| 0 <= i < k ==> text::is_white_space(#[trigger] content[i]),
        k < content.len() ==> !text::is_white_space(content[k]),
        !(k + 1 < content.len() && content[k] == '/' && content[k + 1] == '*'),
        ts_utils::main_value_of(root) == Some(value),
        reads_well(value, false, content),
    ensures
        is_made_of(
            formatted(content, Some(root)),
            type_annotation(content),
            written_tokens(outline(value, false, content)),
        ),
        tidy(written_tokens(outline(value, false, content))) == tidy(tokens_of(value, content)),
{
    lemma_whole_document_is_laid_out(content, k);
    lemma_formatting_keeps_body_tokens(content, root, value);
}

/// Whether a document is made of an annotation, where there is one, and tokens with nothing but white
/// space around them.
pub open spec fn is_made_of(
    document: Seq<char>,
    annotation: Option<Seq<char>>,
    tokens: Seq<Seq<char>>,
) -> bool {
    match annotation {
        Some(name) => exists|rest: Seq<char>|
            #![trigger spaced(rest, tokens)]
            document == seq!['/', '*', ' ', '@', '['] + name + seq![']', ' ', '*', '/'] + rest
                && spaced(rest, tokens),
        None => spaced(document, tokens),
    }
}

/// The same of what is laid out of a document that begins with a comment.
pub proof fn lemma_formatting_keeps_body_tokens(content: Seq<char>, root: Syntax, value: Syntax)
    requires
        ts_utils::main_value_of(root) == Some(value),
        reads_well(value, false, body_of(content)),
    ensures
        is_made_of(
            formatted(content, Some(root)),
            type_annotation(content),
            written_tokens(outline(value, false, body_of(content))),
        ),
        tidy(written_tokens(outline(value, false, body_of(content)))) == tidy(
            tokens_of(value, body_of(content)),
        ),
{
    let body = body_of(content);
    let tokens = written_tokens(outline(value, false, body));
    reveal_strlit("    ");
    assert("    "@ == seq![' ', ' ', ' ', ' ']);
    assert(is_space("    "@));
    assert(is_space(Seq::<char>::empty()));
    lemma_same_tokens(value, false, body);
    lemma_layout_tokens(value, false, body, Seq::empty(), "    "@);
    let all = laid_out(value, false, body, Seq::empty(), "    "@);
    assert(Seq::<char>::empty() + all == all);
    lemma_parts_of_a_formatted_document(content, root);
    match type_annotation(content) {
        Some(name) => {
            let newlines = seq!['\n', '\n'];
            assert(is_space(newlines));
            lemma_spaced_after_space(newlines, all, tokens);
            lemma_spaced_trimmed(newlines + all, tokens);
            assert(spaced(text::trimmed_end(newlines + all), tokens));
        },
        None => {
            lemma_spaced_trimmed(all, tokens);
        },
    }
}

} // verus!
