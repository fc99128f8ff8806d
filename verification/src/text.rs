//! Character-level text primitives: what each one computes is a spec function on `Seq<char>`.

use vstd::prelude::*;
use vstd::string::StrSliceExecFns;
use vstd::string::StringExecFns;
use vstd::utf8::*;

verus! {

// ---------------------------------------------------------------------------
// Standard-library functions without a specification of their own
// ---------------------------------------------------------------------------

/// `String::push` appends one character at the end of the string.
pub assume_specification[ String::push ](s: &mut String, ch: char)
    ensures
        final(s)@ == old(s)@.push(ch),
;

/// The characters that carry Unicode's `White_Space` property.
pub open spec fn is_white_space(c: char) -> bool {
    ||| '\u{9}' <= c <= '\u{d}'
    ||| c == '\u{20}'
    ||| c == '\u{85}'
    ||| c == '\u{a0}'
    ||| c == '\u{1680}'
    ||| '\u{2000}' <= c <= '\u{200a}'
    ||| c == '\u{2028}'
    ||| c == '\u{2029}'
    ||| c == '\u{202f}'
    ||| c == '\u{205f}'
    ||| c == '\u{3000}'
}

/// `char::is_whitespace` holds exactly of the characters with the `White_Space` property.
pub assume_specification[ char::is_whitespace ](c: char) -> (r: bool)
    ensures
        r == is_white_space(c),
;

/// Whether a character beyond ASCII is alphabetic or numeric in Unicode's sense.
pub uninterp spec fn alphanumeric_beyond_ascii(c: char) -> bool;

/// Whether a character is alphabetic or numeric: on ASCII, a letter or a digit.
pub open spec fn alphanumeric_char(c: char) -> bool {
    if c <= '\u{7f}' {
        '0' <= c <= '9' || 'A' <= c <= 'Z' || 'a' <= c <= 'z'
    } else {
        alphanumeric_beyond_ascii(c)
    }
}

/// `char::is_alphanumeric` depends on the character alone; on ASCII it holds of the letters and
/// the digits and of nothing else. Which characters beyond ASCII it holds of is left open.
pub assume_specification[ char::is_alphanumeric ](c: char) -> (r: bool)
    ensures
        c <= '\u{7f}' ==> (r <==> ('0' <= c <= '9' || 'A' <= c <= 'Z' || 'a' <= c <= 'z')),
        c > '\u{7f}' ==> r == alphanumeric_beyond_ascii(c),
;

/// Whether a character beyond ASCII is in one of Unicode's categories for numbers.
pub uninterp spec fn numeric_beyond_ascii(c: char) -> bool;

/// Whether a character is numeric: on ASCII, a digit.
pub open spec fn numeric_char(c: char) -> bool {
    if c <= '\u{7f}' {
        '0' <= c <= '9'
    } else {
        numeric_beyond_ascii(c)
    }
}

/// `char::is_numeric` depends on the character alone; on ASCII it holds of the digits and of
/// nothing else. Which characters beyond ASCII it holds of is left open.
pub assume_specification[ char::is_numeric ](c: char) -> (r: bool)
    ensures
        c <= '\u{7f}' ==> (r <==> '0' <= c <= '9'),
        c > '\u{7f}' ==> r == numeric_beyond_ascii(c),
;

/// Whether a character beyond ASCII has Unicode's `Uppercase` property.
pub uninterp spec fn uppercase_beyond_ascii(c: char) -> bool;

/// Whether a character is upper case: on ASCII, a capital letter.
pub open spec fn uppercase_char(c: char) -> bool {
    if c <= '\u{7f}' {
        'A' <= c <= 'Z'
    } else {
        uppercase_beyond_ascii(c)
    }
}

/// `char::is_uppercase` depends on the character alone; on ASCII it holds of the capital letters
/// and of nothing else. Which characters beyond ASCII it holds of is left open.
pub assume_specification[ char::is_uppercase ](c: char) -> (r: bool)
    ensures
        c <= '\u{7f}' ==> (r <==> 'A' <= c <= 'Z'),
        c > '\u{7f}' ==> r == uppercase_beyond_ascii(c),
;

/// `std::str::from_utf8` accepts exactly the valid UTF-8 sequences and decodes them.
#[verifier::external_body]
pub(crate) fn utf8_str(bytes: &[u8]) -> (r: Option<&str>)
    ensures
        match r {
            Some(s) => valid_utf8(bytes@) && s@ == decode_utf8(bytes@),
            None => !valid_utf8(bytes@),
        },
{
    std::str::from_utf8(bytes).ok()
}

// ---------------------------------------------------------------------------
// Conversions and comparison
// ---------------------------------------------------------------------------

/// The characters of a string.
pub fn to_chars(s: &str) -> (r: Vec<char>)
    ensures
        r@ == s@,
{
    let mut out: Vec<char> = Vec::new();
    for c in it: s.chars()
        invariant
            it.seq() == s@,
            out@ == s@.take(it.index() as int),
    {
        out.push(c);
    }
    assert(s@.take(s@.len() as int) == s@);
    out
}

/// The string made of the characters from `from` up to but not including `to`.
pub fn from_chars(chars: &[char], from: usize, to: usize) -> (r: String)
    requires
        from <= to <= chars@.len(),
    ensures
        r@ == chars@.subrange(from as int, to as int),
{
    let mut out = String::new();
    let mut i: usize = from;
    while i < to
        invariant
            from <= i <= to <= chars@.len(),
            out@ == chars@.subrange(from as int, i as int),
        decreases to - i,
    {
        out.push(chars[i]);
        i = i + 1;
    }
    out
}

/// Whether two strings hold the same characters.
pub fn str_eq(a: &str, b: &str) -> (r: bool)
    ensures
        r == (a@ == b@),
{
    proof {
        encode_utf8_decode_utf8(a@);
        encode_utf8_decode_utf8(b@);
    }
    let x = a.as_bytes();
    let y = b.as_bytes();
    if x.len() != y.len() {
        return false;
    }
    let mut i: usize = 0;
    while i < x.len()
        invariant
            i <= x@.len() == y@.len(),
            x@ == encode_utf8(a@),
            y@ == encode_utf8(b@),
            forall|k: int| 0 <= k < i ==> x@[k] == y@[k],
        decreases x@.len() - i,
    {
        if x[i] != y[i] {
            return false;
        }
        i = i + 1;
    }
    assert(x@ == y@);
    true
}


/// Whether a string holds no characters.
pub fn is_empty(s: &str) -> (r: bool)
    ensures
        r == (s@.len() == 0),
{
    to_chars(s).len() == 0
}

/// The characters of each string of a list.
pub open spec fn views(strings: Seq<String>) -> Seq<Seq<char>> {
    strings.map_values(|s: String| s@)
}

/// Whether one of the strings of a list holds the characters of `name`.
pub fn list_contains(names: &Vec<String>, name: &str) -> (r: bool)
    ensures
        r == views(names@).contains(name@),
{
    let mut i: usize = 0;
    while i < names.len()
        invariant
            i <= names@.len(),
            forall|k: int| 0 <= k < i ==> (#[trigger] views(names@)[k]) != name@,
        decreases names@.len() - i,
    {
        assert(views(names@)[i as int] == names@[i as int]@);
        if str_eq(names[i].as_str(), name) {
            return true;
        }
        i = i + 1;
    }
    false
}

// ---------------------------------------------------------------------------
// Prefixes, suffixes and searching
// ---------------------------------------------------------------------------

/// Whether `s` begins with `prefix`.
pub fn starts_with(s: &str, prefix: &str) -> (r: bool)
    ensures
        r == prefix@.is_prefix_of(s@),
{
    let chars = to_chars(s);
    let wanted = to_chars(prefix);
    matches_at(&chars, &wanted, 0)
}

/// Whether `s` ends with `suffix`.
pub fn ends_with(s: &str, suffix: &str) -> (r: bool)
    ensures
        r == suffix@.is_suffix_of(s@),
{
    let chars = to_chars(s);
    let wanted = to_chars(suffix);
    if wanted.len() > chars.len() {
        return false;
    }
    let at: usize = chars.len() - wanted.len();
    matches_at(&chars, &wanted, at)
}

/// Whether `wanted` occurs in `chars` at index `at`.
pub fn matches_at(chars: &Vec<char>, wanted: &Vec<char>, at: usize) -> (r: bool)
    requires
        at <= chars@.len(),
    ensures
        r == (at + wanted@.len() <= chars@.len() && chars@.subrange(
            at as int,
            at + wanted@.len(),
        ) == wanted@),
{
    let n: usize = chars.len();
    if wanted.len() > n - at {
        return false;
    }
    let mut k: usize = 0;
    while k < wanted.len()
        invariant
            k <= wanted@.len(),
            at + wanted@.len() <= n == chars@.len(),
            forall|j: int| 0 <= j < k ==> chars@[at + j] == wanted@[j],
        decreases wanted@.len() - k,
    {
        if chars[at + k] != wanted[k] {
            assert(chars@.subrange(at as int, at + wanted@.len())[k as int] != wanted@[k as int]);
            return false;
        }
        k = k + 1;
    }
    assert(chars@.subrange(at as int, at + wanted@.len()) == wanted@);
    true
}

/// The first index from `i` on at which `p` occurs in `s`.
pub open spec fn find_from(s: Seq<char>, p: Seq<char>, i: int) -> Option<int>
    decreases s.len() - i + 1,
{
    if i < 0 || i + p.len() > s.len() {
        None
    } else if s.subrange(i, i + p.len()) == p {
        Some(i)
    } else {
        find_from(s, p, i + 1)
    }
}

/// What `find_from` gives is an occurrence, and the first one.
pub proof fn lemma_find_from(s: Seq<char>, p: Seq<char>, i: int)
    requires
        0 <= i,
    ensures
        match find_from(s, p, i) {
            Some(k) => i <= k && k + p.len() <= s.len() && s.subrange(k, k + p.len()) == p && (
            forall|j: int| i <= j < k ==> #[trigger] s.subrange(j, j + p.len()) != p),
            None => forall|j: int|
                i <= j && j + p.len() <= s.len() ==> #[trigger] s.subrange(j, j + p.len()) != p,
        },
    decreases s.len() - i + 1,
{
    if i + p.len() <= s.len() && s.subrange(i, i + p.len()) != p {
        lemma_find_from(s, p, i + 1);
    }
}

/// The first index from `from` on at which `wanted` occurs in `chars`.
pub fn find(chars: &Vec<char>, wanted: &Vec<char>, from: usize) -> (r: Option<usize>)
    requires
        from <= chars@.len(),
    ensures
        match r {
            Some(k) => find_from(chars@, wanted@, from as int) == Some(k as int) && from <= k && k
                + wanted@.len() <= chars@.len(),
            None => find_from(chars@, wanted@, from as int) is None,
        },
{
    let mut i: usize = from;
    while i < chars.len() && wanted.len() <= chars.len() - i
        invariant
            from <= i <= chars@.len(),
            find_from(chars@, wanted@, from as int) == find_from(chars@, wanted@, i as int),
        decreases chars@.len() - i,
    {
        if matches_at(chars, wanted, i) {
            return Some(i);
        }
        i = i + 1;
    }
    if matches_at(chars, wanted, i) {
        return Some(i);
    }
    assert(find_from(chars@, wanted@, i + 1) is None);
    None
}

/// The first index from `i` on at which the character `c` stands.
pub open spec fn find_char_from(s: Seq<char>, c: char, i: int) -> Option<int>
    decreases s.len() - i,
{
    if i < 0 || i >= s.len() {
        None
    } else if s[i] == c {
        Some(i)
    } else {
        find_char_from(s, c, i + 1)
    }
}

/// Where a character stands, and not before, it is found.
pub proof fn lemma_find_char_at(s: Seq<char>, c: char, i: int, k: int)
    requires
        0 <= i <= k < s.len(),
        s[k] == c,
        forall|j: int| i <= j < k ==> s[j] != c,
    ensures
        find_char_from(s, c, i) == Some(k),
    decreases k - i,
{
    if i < k {
        lemma_find_char_at(s, c, i + 1, k);
    }
}

/// The first index from `from` on at which the character `c` stands.
pub fn find_char(chars: &Vec<char>, c: char, from: usize) -> (r: Option<usize>)
    ensures
        match r {
            Some(k) => find_char_from(chars@, c, from as int) == Some(k as int) && from <= k
                < chars@.len(),
            None => find_char_from(chars@, c, from as int) is None,
        },
{
    let mut i: usize = from;
    while i < chars.len()
        invariant
            from <= i,
            find_char_from(chars@, c, from as int) == find_char_from(chars@, c, i as int),
        decreases chars@.len() - i,
    {
        if chars[i] == c {
            return Some(i);
        }
        i = i + 1;
    }
    None
}

/// Where `find_char_from` finds a character, it stands, and not before.
pub proof fn lemma_find_char(s: Seq<char>, c: char, i: int)
    requires
        0 <= i,
    ensures
        match find_char_from(s, c, i) {
            Some(k) => i <= k < s.len() && s[k] == c && forall|j: int| i <= j < k ==> s[j] != c,
            None => forall|j: int| i <= j < s.len() ==> s[j] != c,
        },
    decreases s.len() - i,
{
    if i < s.len() && s[i] != c {
        lemma_find_char(s, c, i + 1);
    }
}

/// The last index at which the character `c` stands.
pub open spec fn rfind_char_in(s: Seq<char>, c: char) -> Option<int>
    decreases s.len(),
{
    if s.len() == 0 {
        None
    } else if s.last() == c {
        Some(s.len() - 1)
    } else {
        rfind_char_in(s.drop_last(), c)
    }
}

/// Where `rfind_char_in` finds a character, it stands, and not behind.
pub proof fn lemma_rfind_char(s: Seq<char>, c: char)
    ensures
        match rfind_char_in(s, c) {
            Some(k) => 0 <= k < s.len() && s[k] == c && forall|j: int|
                k < j < s.len() ==> s[j] != c,
            None => forall|j: int| 0 <= j < s.len() ==> s[j] != c,
        },
    decreases s.len(),
{
    if s.len() > 0 && s.last() != c {
        lemma_rfind_char(s.drop_last(), c);
        assert(forall|j: int| 0 <= j < s.len() - 1 ==> s.drop_last()[j] == s[j]);
    }
}

/// The last index at which the character `c` stands.
pub fn rfind_char(chars: &Vec<char>, c: char) -> (r: Option<usize>)
    ensures
        match r {
            Some(k) => rfind_char_in(chars@, c) == Some(k as int) && k < chars@.len(),
            None => rfind_char_in(chars@, c) is None,
        },
{
    let mut n: usize = chars.len();
    assert(chars@.take(n as int) == chars@);
    while n > 0
        invariant
            n <= chars@.len(),
            rfind_char_in(chars@, c) == rfind_char_in(chars@.take(n as int), c),
        decreases n,
    {
        assert(chars@.take(n as int).drop_last() == chars@.take(n - 1));
        if chars[n - 1] == c {
            return Some(n - 1);
        }
        n = n - 1;
    }
    None
}

// ---------------------------------------------------------------------------
// Trimming, splitting and joining
// ---------------------------------------------------------------------------

/// `s` without the white space at its start.
pub open spec fn trimmed_start(s: Seq<char>) -> Seq<char>
    decreases s.len(),
{
    if s.len() > 0 && is_white_space(s[0]) {
        trimmed_start(s.skip(1))
    } else {
        s
    }
}

/// `s` without the white space at its end.
pub open spec fn trimmed_end(s: Seq<char>) -> Seq<char>
    decreases s.len(),
{
    if s.len() > 0 && is_white_space(s.last()) {
        trimmed_end(s.drop_last())
    } else {
        s
    }
}

/// What is left does not end in white space, and it is the start of the text.
pub proof fn lemma_trimmed_end(s: Seq<char>)
    ensures
        trimmed_end(s).len() == 0 || !is_white_space(trimmed_end(s).last()),
        trimmed_end(s).is_prefix_of(s),
        trimmed_end(trimmed_end(s)) == trimmed_end(s),
    decreases s.len(),
{
    if s.len() > 0 && is_white_space(s.last()) {
        lemma_trimmed_end(s.drop_last());
        let t = trimmed_end(s.drop_last());
        assert(t == s.drop_last().subrange(0, t.len() as int));
        assert(t == s.subrange(0, t.len() as int));
    } else {
        assert(s == s.subrange(0, s.len() as int));
    }
}

/// A start that does not end in white space is not touched at the end of a text.
pub proof fn lemma_trimmed_end_keeps(head: Seq<char>, rest: Seq<char>)
    requires
        head.len() > 0,
        !is_white_space(head.last()),
    ensures
        head.is_prefix_of(trimmed_end(head + rest)),
        trimmed_end(head + rest) == head + trimmed_end(rest),
    decreases rest.len(),
{
    let s = head + rest;
    if rest.len() > 0 && is_white_space(rest.last()) {
        assert(s.last() == rest.last());
        assert(s.drop_last() == head + rest.drop_last());
        lemma_trimmed_end_keeps(head, rest.drop_last());
    } else if rest.len() > 0 {
        assert(s.last() == rest.last());
        assert(head == s.subrange(0, head.len() as int));
    } else {
        assert(s == head);
        assert(trimmed_end(rest) == rest);
        assert(head == s.subrange(0, head.len() as int));
    }
}

/// `s` without the white space at either end.
pub open spec fn trimmed(s: Seq<char>) -> Seq<char> {
    trimmed_end(trimmed_start(s))
}

/// `s` without the white space at its start.
pub fn trim_start(s: &str) -> (r: &str)
    ensures
        r@ == trimmed_start(s@),
{
    let chars = to_chars(s);
    let mut i: usize = 0;
    assert(chars@.skip(0) == chars@);
    while i < chars.len() && chars[i].is_whitespace()
        invariant
            i <= chars@.len(),
            trimmed_start(chars@) == trimmed_start(chars@.skip(i as int)),
        decreases chars@.len() - i,
    {
        assert(chars@.skip(i as int).skip(1) == chars@.skip(i + 1));
        i = i + 1;
    }
    assert(chars@.skip(i as int) == chars@.subrange(i as int, chars@.len() as int));
    s.substring_char(i, chars.len())
}

/// `s` without the white space at its end.
pub fn trim_end(s: &str) -> (r: &str)
    ensures
        r@ == trimmed_end(s@),
{
    let chars = to_chars(s);
    let mut n: usize = chars.len();
    assert(chars@.take(n as int) == chars@);
    while n > 0 && chars[n - 1].is_whitespace()
        invariant
            n <= chars@.len(),
            trimmed_end(chars@) == trimmed_end(chars@.take(n as int)),
        decreases n,
    {
        assert(chars@.take(n as int).drop_last() == chars@.take(n - 1));
        n = n - 1;
    }
    s.substring_char(0, n)
}

/// `s` without the white space at either end.
pub fn trim(s: &str) -> (r: &str)
    ensures
        r@ == trimmed(s@),
{
    trim_end(trim_start(s))
}

/// `s` without its space characters.
pub open spec fn without_spaces(s: Seq<char>) -> Seq<char> {
    s.filter(|c: char| c != ' ')
}

/// What is left has no spaces, and taking spaces away once more changes nothing.
pub proof fn lemma_without_spaces(s: Seq<char>)
    ensures
        !without_spaces(s).contains(' '),
        without_spaces(without_spaces(s)) == without_spaces(s),
        without_spaces(s).len() <= s.len(),
    decreases s.len(),
{
    reveal(Seq::filter);
    if s.len() > 0 {
        lemma_without_spaces(s.drop_last());
        let rest = without_spaces(s.drop_last());
        if s.last() != ' ' {
            assert(without_spaces(s) == rest.push(s.last()));
            assert(rest.push(s.last()).drop_last() == rest);
            assert(!rest.push(s.last()).contains(' ')) by {
                if rest.push(s.last()).contains(' ') {
                    let k = rest.push(s.last()).index_of(' ');
                    assert(rest.push(s.last())[k] == ' ');
                    assert(rest[k] == ' ');
                }
            }
        }
    }
}

/// From a text without spaces no space is taken away.
pub proof fn lemma_nothing_removed(s: Seq<char>)
    requires
        forall|k: int| 0 <= k < s.len() ==> s[k] != ' ',
    ensures
        without_spaces(s) == s,
    decreases s.len(),
{
    reveal(Seq::filter);
    if s.len() > 0 {
        let rest = s.drop_last();
        assert forall|k: int| 0 <= k < rest.len() implies rest[k] != ' ' by {
            assert(rest[k] == s[k]);
        }
        lemma_nothing_removed(rest);
        assert(s == rest.push(s.last()));
    }
}

/// `s` without its space characters.
pub fn remove_spaces(s: &str) -> (r: String)
    ensures
        r@ == without_spaces(s@),
{
    let chars = to_chars(s);
    let mut out = String::new();
    let mut i: usize = 0;
    reveal(Seq::filter);
    while i < chars.len()
        invariant
            i <= chars@.len(),
            out@ == without_spaces(chars@.take(i as int)),
        decreases chars@.len() - i,
    {
        reveal(Seq::filter);
        assert(chars@.take(i + 1).drop_last() == chars@.take(i as int));
        if chars[i] != ' ' {
            out.push(chars[i]);
        }
        i = i + 1;
    }
    assert(chars@.take(i as int) == chars@);
    out
}

/// A line without the carriage return at its end.
pub open spec fn without_return(line: Seq<char>) -> Seq<char> {
    if line.len() > 0 && line.last() == '\r' {
        line.drop_last()
    } else {
        line
    }
}

/// The line of a text with number `n`, counted from zero and without its line ending; a line break
/// at the end of the text opens no further line.
pub open spec fn nth_line(s: Seq<char>, n: nat) -> Option<Seq<char>>
    decreases s.len(),
{
    if s.len() == 0 {
        None
    } else {
        match find_char_from(s, '\n', 0) {
            Some(i) => if n == 0 || i < 0 || i >= s.len() {
                Some(without_return(s.take(i)))
            } else {
                nth_line(s.skip(i + 1), (n - 1) as nat)
            },
            None => if n == 0 {
                Some(s)
            } else {
                None
            },
        }
    }
}

/// `find_char_from` on the rest of a text.
proof fn lemma_find_char_in_rest(s: Seq<char>, c: char, from: int, i: int)
    requires
        0 <= from <= s.len(),
        0 <= i,
    ensures
        find_char_from(s.skip(from), c, i) == match find_char_from(s, c, from + i) {
            Some(k) => Some(k - from),
            None => None,
        },
    decreases s.len() - from - i,
{
    if from + i < s.len() {
        assert(s.skip(from)[i] == s[from + i]);
        if s[from + i] != c {
            lemma_find_char_in_rest(s, c, from, i + 1);
        }
    }
}

/// The line of a text with number `n`, counted from zero and without its line ending.
pub fn line_at(s: &str, n: usize) -> (r: Option<&str>)
    ensures
        match r {
            Some(line) => nth_line(s@, n as nat) == Some(line@),
            None => nth_line(s@, n as nat) is None,
        },
{
    let chars = to_chars(s);
    let mut start: usize = 0;
    let mut left: usize = n;
    assert(s@.skip(0) == s@);
    while start < chars.len()
        invariant
            start <= chars@.len(),
            chars@ == s@,
            nth_line(s@, n as nat) == nth_line(s@.skip(start as int), left as nat),
        decreases chars@.len() - start,
    {
        proof {
            lemma_find_char_in_rest(s@, '\n', start as int, 0);
        }
        match find_char(&chars, '\n', start) {
            Some(i) => {
                if left == 0 {
                    assert(s@.skip(start as int).take(i - start) == s@.subrange(
                        start as int,
                        i as int,
                    ));
                    if i > start && chars[i - 1] == '\r' {
                        assert(s@.subrange(start as int, i as int).drop_last() == s@.subrange(
                            start as int,
                            i - 1,
                        ));
                        return Some(s.substring_char(start, i - 1));
                    }
                    return Some(s.substring_char(start, i));
                }
                assert(s@.skip(start as int).skip(i - start + 1) == s@.skip(i + 1));
                start = i + 1;
                left = left - 1;
            },
            None => {
                if left == 0 {
                    assert(s@.skip(start as int) == s@.subrange(
                        start as int,
                        s@.len() as int,
                    ));
                    return Some(s.substring_char(start, chars.len()));
                }
                return None;
            },
        }
    }
    None
}

/// The pieces of `s` between the occurrences of the character `c`.
pub open spec fn split_at_char(s: Seq<char>, c: char) -> Seq<Seq<char>>
    decreases s.len(),
{
    match find_char_from(s, c, 0) {
        Some(i) => if 0 <= i < s.len() {
            seq![s.take(i)] + split_at_char(s.skip(i + 1), c)
        } else {
            seq![s]
        },
        None => seq![s],
    }
}

/// The pieces of `s` between the occurrences of the character `c`.
pub fn split(s: &str, c: char) -> (r: Vec<String>)
    ensures
        views(r@) == split_at_char(s@, c),
{
    let chars = to_chars(s);
    let mut pieces: Vec<String> = Vec::new();
    let mut start: usize = 0;
    assert(chars@.skip(0) == chars@);
    assert(views(pieces@) + split_at_char(chars@, c) == split_at_char(chars@, c));
    let n: usize = chars.len();
    loop
        invariant
            start <= chars@.len() == n,
            chars@ == s@,
            views(pieces@) + split_at_char(chars@.skip(start as int), c) == split_at_char(s@, c),
        decreases chars@.len() - start,
    {
        proof {
            lemma_find_char_in_rest(chars@, c, start as int, 0);
        }
        let ghost rest = chars@.skip(start as int);
        let ghost before = views(pieces@);
        match find_char(&chars, c, start) {
            Some(i) => {
                let piece = from_chars(chars.as_slice(), start, i);
                assert(piece@ == rest.take(i - start));
                pieces.push(piece);
                assert(views(pieces@) == before.push(piece@));
                assert(rest.skip(i - start + 1) == chars@.skip(i + 1));
                assert(before + (seq![piece@] + split_at_char(chars@.skip(i + 1), c))
                    == views(pieces@) + split_at_char(chars@.skip(i + 1), c));
                start = i + 1;
            },
            None => {
                let piece = from_chars(chars.as_slice(), start, n);
                assert(piece@ == rest);
                pieces.push(piece);
                assert(views(pieces@) == before.push(piece@));
                assert(before + seq![piece@] == before.push(piece@));
                return pieces;
            },
        }
    }
}

/// The two characters between the segments of a Rust path.
pub open spec fn path_separator() -> Seq<char> {
    seq![':', ':']
}

/// The last of the segments of a Rust path: what stands after the last `::`, where the
/// separators are taken from the left.
pub open spec fn last_segment(s: Seq<char>) -> Seq<char>
    decreases s.len(),
{
    match find_from(s, path_separator(), 0) {
        Some(i) => if 0 <= i && i + 2 <= s.len() {
            last_segment(s.skip(i + 2))
        } else {
            s
        },
        None => s,
    }
}

/// Where a text stands, and not before, it is found.
pub proof fn lemma_find_at(s: Seq<char>, p: Seq<char>, i: int, k: int)
    requires
        0 <= i <= k,
        k + p.len() <= s.len(),
        s.subrange(k, k + p.len()) == p,
        forall|j: int| i <= j < k ==> #[trigger] s.subrange(j, j + p.len()) != p,
    ensures
        find_from(s, p, i) == Some(k),
    decreases k - i,
{
    if i < k {
        assert(s.subrange(i, i + p.len()) != p);
        lemma_find_at(s, p, i + 1, k);
    }
}

/// The last segment of a path is what the path ends in, and is no longer than the path behind the
/// separator where there is one.
pub proof fn lemma_last_segment_is_suffix(s: Seq<char>)
    ensures
        last_segment(s).len() <= s.len(),
        last_segment(s) == s.skip(s.len() - last_segment(s).len()),
        find_from(s, path_separator(), 0) is Some ==> last_segment(s).len() + 2 <= s.len(),
    decreases s.len(),
{
    lemma_find_from(s, path_separator(), 0);
    if let Some(i) = find_from(s, path_separator(), 0) {
        lemma_last_segment_is_suffix(s.skip(i + 2));
    }
}

/// What follows a path without a separator in it belongs to the last segment.
pub proof fn lemma_last_segment_of_start(s: Seq<char>, tail: Seq<char>)
    requires
        !tail.contains(':'),
    ensures
        last_segment(s + tail) == last_segment(s) + tail,
        find_from(s + tail, path_separator(), 0) is Some <==> find_from(s, path_separator(), 0) is
            Some,
    decreases s.len(),
{
    let sep = path_separator();
    let all = s + tail;
    lemma_find_from(s, sep, 0);
    lemma_find_from(all, sep, 0);
    assert forall|j: int| 0 <= j && j + 2 <= s.len() implies #[trigger] all.subrange(j, j + 2)
        == s.subrange(j, j + 2) by {}
    match find_from(s, sep, 0) {
        Some(i) => {
            assert(all.subrange(i, i + 2) == s.subrange(i, i + 2));
            assert forall|j: int| 0 <= j < i implies #[trigger] all.subrange(j, j + sep.len())
                != sep by {
                assert(all.subrange(j, j + 2) == s.subrange(j, j + 2));
                assert(s.subrange(j, j + sep.len()) != sep);
            }
            lemma_find_at(all, sep, 0, i);
            lemma_last_segment_of_start(s.skip(i + 2), tail);
            assert(all.skip(i + 2) == s.skip(i + 2) + tail);
        },
        None => {
            if let Some(k) = find_from(all, sep, 0) {
                let found = all.subrange(k, k + 2);
                assert(found[1] == ':');
                assert(all[k + 1] == found[1]);
                if k + 1 >= s.len() {
                    assert(tail[k + 1 - s.len()] == ':');
                }
                assert(s.subrange(k, k + sep.len()) == sep);
                assert(false);
            }
        },
    }
}

/// What stands before a path without a separator in it belongs to the first segment.
pub proof fn lemma_last_segment_of_rest(head: Seq<char>, s: Seq<char>)
    requires
        !head.contains(':'),
    ensures
        find_from(s, path_separator(), 0) is Some ==> last_segment(head + s) == last_segment(s),
        find_from(s, path_separator(), 0) is None ==> last_segment(head + s) == head + s,
{
    let sep = path_separator();
    let all = head + s;
    let n = head.len() as int;
    lemma_find_from(s, sep, 0);
    lemma_find_from(all, sep, 0);
    assert forall|j: int| 0 <= j < n && j + 2 <= all.len() implies #[trigger] all.subrange(j, j + 2)
        != sep by {
        assert(all.subrange(j, j + 2)[0] == head[j]);
        assert(sep[0] == ':');
    }
    assert forall|j: int| n <= j && j + 2 <= all.len() implies #[trigger] all.subrange(j, j + 2)
        == s.subrange(j - n, j - n + 2) by {}
    match find_from(s, sep, 0) {
        Some(i) => {
            assert(all.subrange(n + i, n + i + 2) == s.subrange(i, i + 2));
            assert forall|j: int| 0 <= j < n + i implies #[trigger] all.subrange(j, j + sep.len())
                != sep by {
                if j < n {
                    assert(all.subrange(j, j + 2) != sep);
                } else {
                    assert(all.subrange(j, j + 2) == s.subrange(j - n, j - n + 2));
                    assert(s.subrange(j - n, j - n + sep.len()) != sep);
                }
            }
            lemma_find_at(all, sep, 0, n + i);
            assert(all.skip(n + i + 2) == s.skip(i + 2));
        },
        None => {
            if let Some(k) = find_from(all, sep, 0) {
                if k < n {
                    assert(all.subrange(k, k + 2) != sep);
                } else {
                    assert(all.subrange(k, k + 2) == s.subrange(k - n, k - n + 2));
                    assert(s.subrange(k - n, k - n + sep.len()) != sep);
                }
                assert(false);
            }
        },
    }
}

/// The last of the segments of a Rust path.
pub fn last_path_segment(s: &str) -> (r: String)
    ensures
        r@ == last_segment(s@),
{
    let mut separator: Vec<char> = Vec::new();
    separator.push(':');
    separator.push(':');
    assert(separator@ == path_separator());
    let mut rest = to_chars(s);
    loop
        invariant
            separator@ == path_separator(),
            last_segment(s@) == last_segment(rest@),
        decreases rest@.len(),
    {
        let total: usize = rest.len();
        match find(&rest, &separator, 0) {
            Some(i) => {
                assert(i + 2 <= total);
                assert(rest@.subrange(i + 2, total as int) == rest@.skip(i + 2));
                rest = rest.split_off(i + 2);
            },
            None => {
                assert(rest@.subrange(0, total as int) == rest@);
                return from_chars(rest.as_slice(), 0, total);
            },
        }
    }
}

/// The parts one after another, with `sep` between each two.
pub open spec fn joined(parts: Seq<Seq<char>>, sep: Seq<char>) -> Seq<char>
    decreases parts.len(),
{
    if parts.len() == 0 {
        Seq::empty()
    } else if parts.len() == 1 {
        parts[0]
    } else {
        joined(parts.drop_last(), sep) + sep + parts.last()
    }
}

/// The strings one after another, with `sep` between each two.
pub fn join(parts: &Vec<String>, sep: &str) -> (r: String)
    ensures
        r@ == joined(views(parts@), sep@),
{
    let mut out = String::new();
    let mut i: usize = 0;
    while i < parts.len()
        invariant
            i <= parts@.len(),
            out@ == joined(views(parts@).take(i as int), sep@),
        decreases parts@.len() - i,
    {
        assert(views(parts@).take(i + 1).drop_last() == views(parts@).take(i as int));
        if i > 0 {
            out.append(sep);
        }
        out.append(parts[i].as_str());
        i = i + 1;
    }
    assert(views(parts@).take(i as int) == views(parts@));
    out
}

// ---------------------------------------------------------------------------
// Numbers and repetition
// ---------------------------------------------------------------------------

/// The decimal digit of a number below ten.
pub open spec fn digit(d: nat) -> char {
    (48 + d) as char
}

/// The decimal representation of a number.
pub open spec fn decimal(n: nat) -> Seq<char>
    decreases n,
{
    if n < 10 {
        seq![digit(n)]
    } else {
        decimal(n / 10).push(digit(n % 10))
    }
}

/// The decimal representation of a number.
pub fn number_text(n: usize) -> (r: String)
    ensures
        r@ == decimal(n as nat),
    decreases n,
{
    let mut out = if n < 10 {
        String::new()
    } else {
        number_text(n / 10)
    };
    let d: u8 = (n % 10) as u8;
    out.push((48 + d) as char);
    out
}

// ---------------------------------------------------------------------------
// Laws
// ---------------------------------------------------------------------------

/// Trimming the start of a text takes away the white space that it starts with, and nothing else.
pub proof fn lemma_trimmed_start_at(s: Seq<char>, k: int)
    requires
        0 <= k <= s.len(),
        forall|i: int| 0 <= i < k ==> is_white_space(#[trigger] s[i]),
        k < s.len() ==> !is_white_space(s[k]),
    ensures
        trimmed_start(s) == s.skip(k),
    decreases s.len(),
{
    if k > 0 {
        assert(is_white_space(s[0]));
        let rest = s.skip(1);
        assert forall|i: int| 0 <= i < k - 1 implies is_white_space(#[trigger] rest[i]) by {
            assert(rest[i] == s[i + 1]);
        }
        lemma_trimmed_start_at(rest, k - 1);
        assert(rest.skip(k - 1) == s.skip(k));
    } else {
        assert(s.skip(0) == s);
    }
}

/// Trimming the end of a text takes away the white space that it ends in, and nothing else.
pub proof fn lemma_trimmed_end_at(s: Seq<char>, k: int)
    requires
        0 <= k <= s.len(),
        forall|i: int| k <= i < s.len() ==> is_white_space(#[trigger] s[i]),
        k > 0 ==> !is_white_space(s[k - 1]),
    ensures
        trimmed_end(s) == s.take(k),
    decreases s.len(),
{
    if k < s.len() {
        assert(is_white_space(s[s.len() - 1]));
        let rest = s.drop_last();
        assert forall|i: int| k <= i < rest.len() implies is_white_space(#[trigger] rest[i]) by {
            assert(rest[i] == s[i]);
        }
        lemma_trimmed_end_at(rest, k);
        assert(rest.take(k) == s.take(k));
    } else {
        assert(s.take(k) == s);
        if s.len() > 0 {
            assert(s.last() == s[k - 1]);
        }
    }
}

/// Trimming a text takes away the white space around it, and nothing else.
pub proof fn lemma_trimmed_inside(before: Seq<char>, s: Seq<char>, after: Seq<char>)
    requires
        forall|i: int| 0 <= i < before.len() ==> is_white_space(#[trigger] before[i]),
        forall|i: int| 0 <= i < after.len() ==> is_white_space(#[trigger] after[i]),
        s.len() > 0,
        !is_white_space(s[0]),
        !is_white_space(s.last()),
    ensures
        trimmed(before + s + after) == s,
{
    let all = before + s + after;
    let k = before.len() as int;
    assert forall|i: int| 0 <= i < k implies is_white_space(#[trigger] all[i]) by {
        assert(all[i] == before[i]);
    }
    assert(all[k] == s[0]);
    lemma_trimmed_start_at(all, k);
    let rest = all.skip(k);
    let n = s.len() as int;
    assert forall|i: int| n <= i < rest.len() implies is_white_space(#[trigger] rest[i]) by {
        assert(rest[i] == after[i - n]);
    }
    assert(rest[n - 1] == s.last());
    lemma_trimmed_end_at(rest, n);
    assert(rest.take(n) == s);
}

/// Spaces are taken away from two texts as from each of them.
pub proof fn lemma_without_spaces_concat(a: Seq<char>, b: Seq<char>)
    ensures
        without_spaces(a + b) == without_spaces(a) + without_spaces(b),
    decreases b.len(),
{
    reveal(Seq::filter);
    if b.len() == 0 {
        assert(a + b == a);
        assert(without_spaces(b) == Seq::<char>::empty());
    } else {
        lemma_without_spaces_concat(a, b.drop_last());
        assert((a + b).drop_last() == a + b.drop_last());
        assert((a + b).last() == b.last());
    }
}

/// The lines of a text: the first is what stands before the first line break, without a carriage
/// return at its end, and the others are the lines of what stands behind it. What stands behind the
/// last line break is a line where it is not empty.
pub proof fn lemma_lines(line: Seq<char>, rest: Seq<char>, n: nat)
    requires
        !line.contains('\n'),
    ensures
        nth_line(line + seq!['\n'] + rest, 0) == Some(
            if line.len() > 0 && line.last() == '\r' {
                line.drop_last()
            } else {
                line
            },
        ),
        nth_line(line + seq!['\n'] + rest, n + 1) == nth_line(rest, n),
        nth_line(line, 0) == (if line.len() > 0 {
            Some(line)
        } else {
            None
        }),
        nth_line(line, n + 1) is None,
{
    let s = line + seq!['\n'] + rest;
    let k = line.len() as int;
    assert forall|j: int| 0 <= j < k implies s[j] != '\n' && line[j] != '\n' by {
        assert(s[j] == line[j]);
        assert(line.contains(line[j]));
    }
    assert(s[k] == '\n');
    lemma_find_char_at(s, '\n', 0, k);
    lemma_find_char(line, '\n', 0);
    assert(s.take(k) == line);
    assert(s.skip(k + 1) == rest);
}

/// The pieces of a text between the occurrences of a character do not hold it, and the text is made of
/// them with the character between.
pub proof fn lemma_split(s: Seq<char>, c: char)
    ensures
        split_at_char(s, c).len() > 0,
        joined(split_at_char(s, c), seq![c]) == s,
        forall|i: int|
            0 <= i < split_at_char(s, c).len() ==> !(#[trigger] split_at_char(s, c)[i]).contains(c),
    decreases s.len(),
{
    lemma_find_char(s, c, 0);
    match find_char_from(s, c, 0) {
        Some(k) => {
            let rest = s.skip(k + 1);
            lemma_split(rest, c);
            let pieces = split_at_char(rest, c);
            let all = seq![s.take(k)] + pieces;
            assert(split_at_char(s, c) == all);
            lemma_joined_front(s.take(k), pieces, seq![c]);
            assert(s == s.take(k) + seq![c] + rest);
            assert(!s.take(k).contains(c));
            assert forall|i: int| 0 <= i < all.len() implies !(#[trigger] all[i]).contains(c) by {
                if i > 0 {
                    assert(all[i] == pieces[i - 1]);
                }
            }
        },
        None => {
            assert(split_at_char(s, c) == seq![s]);
            assert(!s.contains(c));
        },
    }
}

/// A text of several parts starts with the first, the separator and the others.
pub proof fn lemma_joined_front(first: Seq<char>, parts: Seq<Seq<char>>, sep: Seq<char>)
    ensures
        joined(seq![first], sep) == first,
        parts.len() > 0 ==> joined(seq![first] + parts, sep) == first + sep + joined(parts, sep),
    decreases parts.len(),
{
    if parts.len() == 1 {
        let all = seq![first] + parts;
        assert(all.drop_last() == seq![first]);
        assert(all.last() == parts[0]);
        assert(joined(all.drop_last(), sep) == first);
        assert(joined(parts, sep) == parts[0]);
    } else if parts.len() > 1 {
        let all = seq![first] + parts;
        assert(all.drop_last() == seq![first] + parts.drop_last());
        assert(all.last() == parts.last());
        lemma_joined_front(first, parts.drop_last(), sep);
        let middle = joined(parts.drop_last(), sep);
        assert(first + sep + middle + sep + parts.last() == first + sep + (middle + sep
            + parts.last()));
    }
}

/// The pieces of a text that was made of them are the pieces themselves.
pub proof fn lemma_split_joined(parts: Seq<Seq<char>>, c: char)
    requires
        parts.len() > 0,
        forall|i: int| 0 <= i < parts.len() ==> !(#[trigger] parts[i]).contains(c),
    ensures
        split_at_char(joined(parts, seq![c]), c) == parts,
    decreases parts.len(),
{
    let first = parts[0];
    let rest = parts.skip(1);
    assert(seq![first] + rest == parts);
    lemma_joined_front(first, rest, seq![c]);
    assert(!first.contains(c));
    assert forall|j: int| 0 <= j < first.len() implies first[j] != c by {
        assert(first.contains(first[j]));
    }
    if rest.len() == 0 {
        assert(parts == seq![first]);
        lemma_find_char(first, c, 0);
    } else {
        assert forall|i: int| 0 <= i < rest.len() implies !(#[trigger] rest[i]).contains(c) by {
            assert(rest[i] == parts[i + 1]);
        }
        lemma_split_joined(rest, c);
        let s = first + seq![c] + joined(rest, seq![c]);
        let k = first.len() as int;
        assert(s[k] == c);
        assert forall|j: int| 0 <= j < k implies s[j] != c by {
            assert(s[j] == first[j]);
        }
        lemma_find_char_at(s, c, 0, k);
        assert(s.take(k) == first);
        assert(s.skip(k + 1) == joined(rest, seq![c]));
    }
}

/// The last segment of a path holds no separator, and a separator stands before it where it is not
/// the whole path.
pub proof fn lemma_last_segment(s: Seq<char>)
    ensures
        find_from(last_segment(s), path_separator(), 0) is None,
        last_segment(s) == s || exists|k: int|
            0 <= k && k + 2 + last_segment(s).len() == s.len() && #[trigger] s.subrange(k, k + 2)
                == seq![':', ':'] && s.skip(k + 2) == last_segment(s),
    decreases s.len(),
{
    lemma_find_from(s, path_separator(), 0);
    if let Some(i) = find_from(s, path_separator(), 0) {
        let rest = s.skip(i + 2);
        lemma_last_segment(rest);
        if last_segment(rest) == rest {
            assert(s.subrange(i, i + 2) == seq![':', ':']);
        } else {
            let k = choose|k: int|
                0 <= k && k + 2 + last_segment(rest).len() == rest.len() && #[trigger] rest.subrange(
                    k,
                    k + 2,
                ) == seq![':', ':'] && rest.skip(k + 2) == last_segment(rest);
            let m = i + 2 + k;
            assert(s.subrange(m, m + 2) == rest.subrange(k, k + 2));
            assert(s.skip(m + 2) == rest.skip(k + 2));
        }
    }
}

/// The name behind the last separator of a path is its last segment.
pub proof fn lemma_last_segment_of_path(before: Seq<char>, name: Seq<char>)
    requires
        !name.contains(':'),
        before.len() > 0 ==> before.last() != ':',
    ensures
        last_segment(name) == name,
        last_segment(before + seq![':', ':'] + name) == name,
    decreases before.len(),
{
    let sep = path_separator();
    lemma_find_from(name, sep, 0);
    if let Some(i) = find_from(name, sep, 0) {
        assert(name.subrange(i, i + 2)[0] == ':');
        assert(name.contains(name[i]));
    }
    assert(find_from(name, sep, 0) is None);
    assert(last_segment(name) == name);
    let s = before + seq![':', ':'] + name;
    lemma_find_from(s, sep, 0);
    let n = before.len() as int;
    assert(s.subrange(n, n + sep.len()) == sep);
    match find_from(s, sep, 0) {
        Some(i) => {
            assert(i <= n);
            assert(last_segment(s) == last_segment(s.skip(i + 2)));
            if i == n {
                assert(s.skip(i + 2) == name);
            } else if i == n - 1 {
                assert(s.subrange(i, i + 2)[0] == s[i]);
                assert(s[i] == before.last());
            } else {
                assert(i + 2 <= n);
                let rest = before.skip(i + 2);
                assert(s.skip(i + 2) == rest + seq![':', ':'] + name);
                lemma_last_segment_of_path(rest, name);
            }
        },
        None => {
            assert(false);
        },
    }
}

/// The number that a text of digits stands for.
pub open spec fn number_of(digits: Seq<char>) -> nat
    decreases digits.len(),
{
    if digits.len() == 0 {
        0
    } else {
        (number_of(digits.drop_last()) * 10 + (digits.last() as nat - 48)) as nat
    }
}

/// The decimal text of a number is made of digits, stands for the number, and has no zero before it.
pub proof fn lemma_decimal(n: nat)
    ensures
        decimal(n).len() > 0,
        forall|i: int| 0 <= i < decimal(n).len() ==> '0' <= #[trigger] decimal(n)[i] <= '9',
        number_of(decimal(n)) == n,
        n > 0 ==> decimal(n)[0] != '0',
    decreases n,
{
    let d = decimal(n);
    if n < 10 {
        assert(d.drop_last() == Seq::<char>::empty());
        assert(number_of(d.drop_last()) == 0);
        assert(d.last() as nat == 48 + n);
    } else {
        lemma_decimal(n / 10);
        let r = n % 10;
        assert(d.drop_last() == decimal(n / 10));
        assert(digit(r) as nat == 48 + r);
        assert(d.last() == digit(r));
        assert forall|i: int| 0 <= i < d.len() implies '0' <= #[trigger] d[i] <= '9' by {
            if i < d.len() - 1 {
                assert(d[i] == decimal(n / 10)[i]);
            }
        }
        assert(d[0] == decimal(n / 10)[0]);
    }
}

} // verus!
