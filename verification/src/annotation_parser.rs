//! The comment that names the Rust type of a RON document: `/* @[path::to::Type] */`.

use crate::text;
use vstd::prelude::*;

verus! {

/// The first index from `i` on at which no white space stands.
pub open spec fn skip_white_space(s: Seq<char>, i: int) -> int
    decreases s.len() - i,
{
    if 0 <= i < s.len() && text::is_white_space(s[i]) {
        skip_white_space(s, i + 1)
    } else {
        i
    }
}

/// Whether the characters `a` and `b` stand at index `i`.
pub open spec fn pair_at(s: Seq<char>, i: int, a: char, b: char) -> bool {
    0 <= i && i + 1 < s.len() && s[i] == a && s[i + 1] == b
}

/// The name in a type annotation that begins at index `i`: `/*`, white space, `@[`, a name that is
/// not empty and holds no `]`, `]`, white space, `*/`.
pub open spec fn annotation_at(s: Seq<char>, i: int) -> Option<Seq<char>> {
    let at = skip_white_space(s, i + 2);
    match text::find_char_from(s, ']', at + 2) {
        Some(close) => if pair_at(s, i, '/', '*') && pair_at(s, at, '@', '[') && at + 2 < close
            && pair_at(s, skip_white_space(s, close + 1), '*', '/') {
            Some(s.subrange(at + 2, close))
        } else {
            None
        },
        None => None,
    }
}

/// The name in the first type annotation that begins at or after index `i`.
pub open spec fn annotation_from(s: Seq<char>, i: int) -> Option<Seq<char>>
    decreases s.len() - i,
{
    if i < 0 || i >= s.len() {
        None
    } else if annotation_at(s, i) is Some {
        annotation_at(s, i)
    } else {
        annotation_from(s, i + 1)
    }
}

/// The Rust type that a document is annotated with.
pub open spec fn type_annotation(content: Seq<char>) -> Option<Seq<char>> {
    annotation_from(content, 0)
}

fn skip_space(chars: &Vec<char>, from: usize) -> (r: usize)
    ensures
        r == skip_white_space(chars@, from as int),
        from <= r,
        from <= chars@.len() ==> r <= chars@.len(),
{
    let mut i: usize = from;
    while i < chars.len() && chars[i].is_whitespace()
        invariant
            from <= i,
            from <= chars@.len() ==> i <= chars@.len(),
            skip_white_space(chars@, from as int) == skip_white_space(chars@, i as int),
        decreases chars@.len() - i,
    {
        i = i + 1;
    }
    i
}

fn has_pair(chars: &Vec<char>, i: usize, a: char, b: char) -> (r: bool)
    ensures
        r == pair_at(chars@, i as int, a, b),
{
    i < chars.len() && chars.len() - i >= 2 && chars[i] == a && chars[i + 1] == b
}

fn read_annotation(chars: &Vec<char>, i: usize) -> (r: Option<String>)
    requires
        i < chars@.len(),
    ensures
        match r {
            Some(name) => annotation_at(chars@, i as int) == Some(name@),
            None => annotation_at(chars@, i as int) is None,
        },
{
    let n: usize = chars.len();
    if !has_pair(chars, i, '/', '*') {
        return None;
    }
    assert(i + 2 <= n);
    let at: usize = skip_space(chars, i + 2);
    if !has_pair(chars, at, '@', '[') {
        return None;
    }
    assert(at + 2 <= n);
    match text::find_char(chars, ']', at + 2) {
        Some(close) => {
            let end: usize = skip_space(chars, close + 1);
            if at + 2 < close && has_pair(chars, end, '*', '/') {
                Some(text::from_chars(chars.as_slice(), at + 2, close))
            } else {
                None
            }
        },
        None => None,
    }
}

/// The Rust type that a document is annotated with: the name in its first comment of the form
/// `/* @[name] */`.
pub fn parse_type_annotation(content: &str) -> (r: Option<String>)
    ensures
        match r {
            Some(name) => type_annotation(content@) == Some(name@),
            None => type_annotation(content@) is None,
        },
{
    let chars = text::to_chars(content);
    let mut i: usize = 0;
    while i < chars.len()
        invariant
            i <= chars@.len(),
            chars@ == content@,
            type_annotation(content@) == annotation_from(chars@, i as int),
        decreases chars@.len() - i,
    {
        let found = read_annotation(&chars, i);
        if found.is_some() {
            return found;
        }
        i = i + 1;
    }
    None
}

// ---------------------------------------------------------------------------
// Laws
// ---------------------------------------------------------------------------

/// The name in an annotation is not empty and holds no `]`.
pub proof fn lemma_annotation_name(s: Seq<char>, i: int)
    requires
        0 <= i,
    ensures
        annotation_from(s, i) matches Some(name) ==> name.len() > 0 && !name.contains(']'),
    decreases s.len() - i,
{
    if i < s.len() {
        if annotation_at(s, i) is Some {
            let at = skip_white_space(s, i + 2);
            lemma_skip_white_space(s, i + 2);
            text::lemma_find_char(s, ']', at + 2);
        } else {
            lemma_annotation_name(s, i + 1);
        }
    }
}

/// White space is skipped forwards, and what is stopped at is none.
proof fn lemma_skip_white_space(s: Seq<char>, i: int)
    requires
        0 <= i,
    ensures
        i <= skip_white_space(s, i),
        skip_white_space(s, i) < s.len() ==> !text::is_white_space(s[skip_white_space(s, i)]),
    decreases s.len() - i,
{
    if i < s.len() && text::is_white_space(s[i]) {
        lemma_skip_white_space(s, i + 1);
    }
}

/// A document that begins with an annotation, written with single spaces, is annotated with its
/// name.
pub proof fn lemma_leading_annotation(name: Seq<char>, rest: Seq<char>)
    requires
        name.len() > 0,
        !name.contains(']'),
    ensures
        type_annotation(
            seq!['/', '*', ' ', '@', '['] + name + seq![']', ' ', '*', '/'] + rest,
        ) == Some(name),
{
    let s = seq!['/', '*', ' ', '@', '['] + name + seq![']', ' ', '*', '/'] + rest;
    let close: int = 5 + name.len() as int;
    assert(s[0] == '/' && s[1] == '*' && s[2] == ' ' && s[3] == '@' && s[4] == '[');
    assert(s[close] == ']' && s[close + 1] == ' ' && s[close + 2] == '*' && s[close + 3]
        == '/');
    assert(skip_white_space(s, 3) == 3);
    assert(skip_white_space(s, 2) == 3);
    assert(skip_white_space(s, close + 2) == close + 2);
    assert(skip_white_space(s, close + 1) == close + 2);
    text::lemma_find_char(s, ']', 5);
    assert forall|j: int| 5 <= j < close implies s[j] != ']' by {
        assert(s[j] == name[j - 5]);
    }
    assert(s.subrange(5, close) == name);
    assert(annotation_at(s, 0) == Some(name));
}

/// White space is skipped, up to what is none.
proof fn lemma_skipped(s: Seq<char>, i: int, k: int)
    requires
        0 <= i <= k < s.len(),
        forall|j: int| i <= j < k ==> text::is_white_space(#[trigger] s[j]),
        !text::is_white_space(s[k]),
    ensures
        skip_white_space(s, i) == k,
    decreases k - i,
{
    if i < k {
        assert(text::is_white_space(s[i]));
        lemma_skipped(s, i + 1, k);
    }
}

/// The type annotation of a document is the name in the first comment of the form `/* @[name] */`,
/// with white space or none around the brackets, where no comment begins before it.
pub proof fn lemma_first_annotation(
    before: Seq<char>,
    space: Seq<char>,
    name: Seq<char>,
    after: Seq<char>,
    rest: Seq<char>,
)
    requires
        forall|i: int| 0 <= i < space.len() ==> text::is_white_space(#[trigger] space[i]),
        forall|i: int| 0 <= i < after.len() ==> text::is_white_space(#[trigger] after[i]),
        name.len() > 0,
        !name.contains(']'),
        forall|i: int|
            0 <= i < before.len() ==> !(#[trigger] before[i] == '/' && before.push('/')[i + 1]
                == '*'),
    ensures
        type_annotation(
            before + seq!['/', '*'] + space + seq!['@', '['] + name + seq![']'] + after + seq![
                '*',
                '/',
            ] + rest,
        ) == Some(name),
{
    let s = before + seq!['/', '*'] + space + seq!['@', '['] + name + seq![']'] + after + seq![
        '*',
        '/',
    ] + rest;
    let i = before.len() as int;
    let at = i + 2 + space.len();
    let close = at + 2 + name.len();
    let end = close + 1 + after.len();
    assert(s[i] == '/' && s[i + 1] == '*');
    assert(s[at] == '@' && s[at + 1] == '[');
    assert(s[close] == ']');
    assert(s[end] == '*' && s[end + 1] == '/');
    assert forall|j: int| i + 2 <= j < at implies text::is_white_space(#[trigger] s[j]) by {
        assert(s[j] == space[j - i - 2]);
    }
    lemma_skipped(s, i + 2, at);
    assert forall|j: int| close + 1 <= j < end implies text::is_white_space(#[trigger] s[j]) by {
        assert(s[j] == after[j - close - 1]);
    }
    lemma_skipped(s, close + 1, end);
    assert forall|j: int| at + 2 <= j < close implies s[j] != ']' by {
        assert(s[j] == name[j - at - 2]);
        assert(name.contains(name[j - at - 2]));
    }
    text::lemma_find_char_at(s, ']', at + 2, close);
    assert(s.subrange(at + 2, close) == name);
    assert forall|j: int| 0 <= j < i implies !(#[trigger] pair_at(s, j, '/', '*')) by {
        assert(s[j] == before[j]);
        assert(s[j + 1] == before.push('/')[j + 1]);
    }
    lemma_annotation_found(s, 0, i);
}

proof fn lemma_annotation_found(s: Seq<char>, k: int, i: int)
    requires
        0 <= k <= i < s.len(),
        annotation_at(s, i) is Some,
        forall|j: int| k <= j < i ==> !(#[trigger] pair_at(s, j, '/', '*')),
    ensures
        annotation_from(s, k) == annotation_at(s, i),
    decreases i - k,
{
    if k < i {
        assert(!pair_at(s, k, '/', '*'));
        lemma_annotation_found(s, k + 1, i);
    }
}

/// A document in which no comment begins has no type annotation.
pub proof fn lemma_no_annotation(s: Seq<char>, i: int)
    requires
        0 <= i,
        forall|j: int| i <= j < s.len() - 1 ==> !(#[trigger] s[j] == '/' && s[j + 1] == '*'),
    ensures
        annotation_from(s, i) is None,
        i == 0 ==> type_annotation(s) is None,
    decreases s.len() - i,
{
    if i < s.len() {
        if pair_at(s, i, '/', '*') {
            assert(s[i] == '/');
        }
        lemma_no_annotation(s, i + 1);
    }
}

} // verus!
