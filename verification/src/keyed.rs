//! Lists whose elements have keys, in which a key stands for one element, and what is left of a list
//! when some of its elements are wanted.

use vstd::prelude::*;

verus! {

/// The index of the first element, from index `i` on, that has a key.
pub open spec fn key_index<A>(
    list: Seq<A>,
    key: spec_fn(A) -> Seq<char>,
    wanted: Seq<char>,
    i: int,
) -> Option<int>
    decreases list.len() - i,
{
    if i < 0 || i >= list.len() {
        None
    } else if key(list[i]) == wanted {
        Some(i)
    } else {
        key_index(list, key, wanted, i + 1)
    }
}

/// The list with an element put in: in place of the one that has its key, else at the end.
pub open spec fn put<A>(list: Seq<A>, key: spec_fn(A) -> Seq<char>, a: A) -> Seq<A> {
    match key_index(list, key, key(a), 0) {
        Some(i) => list.update(i, a),
        None => list.push(a),
    }
}

/// The list with the elements of another put in, in order.
pub open spec fn put_all<A>(list: Seq<A>, key: spec_fn(A) -> Seq<char>, more: Seq<A>) -> Seq<A>
    decreases more.len(),
{
    if more.len() == 0 {
        list
    } else {
        put(put_all(list, key, more.drop_last()), key, more.last())
    }
}

/// Whether no two elements have the same key.
pub open spec fn keys_distinct<A>(list: Seq<A>, key: spec_fn(A) -> Seq<char>) -> bool {
    forall|i: int, j: int|
        0 <= i < j < list.len() ==> key(#[trigger] list[i]) != key(#[trigger] list[j])
}

/// The last element that has a key.
pub open spec fn last_with_key<A>(
    list: Seq<A>,
    key: spec_fn(A) -> Seq<char>,
    wanted: Seq<char>,
) -> Option<A>
    decreases list.len(),
{
    if list.len() == 0 {
        None
    } else if key(list.last()) == wanted {
        Some(list.last())
    } else {
        last_with_key(list.drop_last(), key, wanted)
    }
}

/// The index is one of the list, of an element with the key, and no earlier element has it; without
/// an index no element has it.
pub proof fn lemma_key_index<A>(
    list: Seq<A>,
    key: spec_fn(A) -> Seq<char>,
    wanted: Seq<char>,
    i: int,
)
    requires
        0 <= i,
    ensures
        match key_index(list, key, wanted, i) {
            Some(k) => i <= k < list.len() && key(list[k]) == wanted && (forall|j: int|
                i <= j < k ==> key(#[trigger] list[j]) != wanted),
            None => forall|j: int| i <= j < list.len() ==> key(#[trigger] list[j]) != wanted,
        },
    decreases list.len() - i,
{
    if i < list.len() && key(list[i]) != wanted {
        lemma_key_index(list, key, wanted, i + 1);
    }
}

/// Where an element has a key, one is the last that has it.
pub proof fn lemma_last_with_key<A>(
    list: Seq<A>,
    key: spec_fn(A) -> Seq<char>,
    wanted: Seq<char>,
    i: int,
)
    requires
        0 <= i < list.len(),
        key(list[i]) == wanted,
    ensures
        last_with_key(list, key, wanted) is Some,
    decreases list.len(),
{
    if key(list.last()) != wanted {
        lemma_last_with_key(list.drop_last(), key, wanted, i);
    }
}

/// Putting two lists in one after the other is putting in both.
pub proof fn lemma_put_all_concat<A>(
    list: Seq<A>,
    key: spec_fn(A) -> Seq<char>,
    first: Seq<A>,
    second: Seq<A>,
)
    ensures
        put_all(list, key, first + second) == put_all(put_all(list, key, first), key, second),
    decreases second.len(),
{
    if second.len() == 0 {
        assert(first + second == first);
    } else {
        lemma_put_all_concat(list, key, first, second.drop_last());
        assert((first + second).drop_last() == first + second.drop_last());
        assert((first + second).last() == second.last());
    }
}

/// Putting in a list of one element is putting in the element.
pub proof fn lemma_put_one<A>(list: Seq<A>, key: spec_fn(A) -> Seq<char>, a: A)
    ensures
        put_all(list, key, seq![a]) == put(list, key, a),
{
    assert(seq![a].drop_last() == Seq::<A>::empty());
    assert(put_all(list, key, seq![a].drop_last()) == list);
}

/// Putting an element in keeps the keys distinct.
pub proof fn lemma_put_distinct<A>(list: Seq<A>, key: spec_fn(A) -> Seq<char>, a: A)
    requires
        keys_distinct(list, key),
    ensures
        keys_distinct(put(list, key, a), key),
{
    lemma_key_index(list, key, key(a), 0);
}

/// After elements were put in, the keys are distinct, each of the elements' keys stands in the
/// list, and it stands for the last of the elements that have it.
pub proof fn lemma_put_all<A>(list: Seq<A>, key: spec_fn(A) -> Seq<char>, more: Seq<A>)
    requires
        keys_distinct(list, key),
    ensures
        keys_distinct(put_all(list, key, more), key),
        forall|j: int|
            0 <= j < more.len() ==> key_index(
                put_all(list, key, more),
                key,
                key(#[trigger] more[j]),
                0,
            ) is Some,
        forall|i: int|
            0 <= i < put_all(list, key, more).len() ==> match last_with_key(
                more,
                key,
                key(#[trigger] put_all(list, key, more)[i]),
            ) {
                Some(a) => put_all(list, key, more)[i] == a,
                None => true,
            },
    decreases more.len(),
{
    if more.len() > 0 {
        let before = put_all(list, key, more.drop_last());
        let after = put_all(list, key, more);
        let a = more.last();
        lemma_put_all(list, key, more.drop_last());
        lemma_put_distinct(before, key, a);
        lemma_key_index(before, key, key(a), 0);
        assert forall|j: int| 0 <= j < more.len() implies key_index(
            after,
            key,
            key(#[trigger] more[j]),
            0,
        ) is Some by {
            lemma_key_index(after, key, key(more[j]), 0);
            if j < more.len() - 1 {
                assert(more.drop_last()[j] == more[j]);
                lemma_key_index(before, key, key(more[j]), 0);
                let i = key_index(before, key, key(more[j]), 0)->0;
                assert(key(after[i]) == key(more[j]));
            } else {
                match key_index(before, key, key(a), 0) {
                    Some(i) => {
                        assert(after[i] == a);
                    },
                    None => {
                        assert(after[before.len() as int] == a);
                    },
                }
            }
        }
        assert forall|i: int| 0 <= i < after.len() implies match last_with_key(
            more,
            key,
            key(#[trigger] after[i]),
        ) {
            Some(v) => after[i] == v,
            None => true,
        } by {
            if key(after[i]) == key(a) {
                let at = match key_index(before, key, key(a), 0) {
                    Some(k) => k,
                    None => before.len() as int,
                };
                assert(after[at] == a);
                if i < at {
                    assert(key(after[i]) != key(after[at]));
                } else if at < i {
                    assert(key(after[at]) != key(after[i]));
                }
            } else {
                assert(after[i] == before[i]);
            }
        }
    }
}

/// Putting in elements whose keys all stand in a list keeps the keys where they are, and puts the
/// last element with a key in its place.
proof fn lemma_put_all_present<A>(list: Seq<A>, key: spec_fn(A) -> Seq<char>, more: Seq<A>)
    requires
        keys_distinct(list, key),
        forall|j: int|
            0 <= j < more.len() ==> key_index(list, key, key(#[trigger] more[j]), 0) is Some,
    ensures
        put_all(list, key, more).len() == list.len(),
        forall|i: int|
            0 <= i < list.len() ==> (#[trigger] put_all(list, key, more)[i]) == match last_with_key(
                more,
                key,
                key(list[i]),
            ) {
                Some(a) => a,
                None => list[i],
            } && key(put_all(list, key, more)[i]) == key(list[i]),
    decreases more.len(),
{
    if more.len() > 0 {
        let rest = more.drop_last();
        assert forall|j: int| 0 <= j < rest.len() implies key_index(
            list,
            key,
            key(#[trigger] rest[j]),
            0,
        ) is Some by {
            assert(rest[j] == more[j]);
        }
        lemma_put_all_present(list, key, rest);
        let before = put_all(list, key, rest);
        let a = more.last();
        assert(key_index(list, key, key(more[more.len() - 1]), 0) is Some);
        lemma_key_index(list, key, key(a), 0);
        lemma_key_index(before, key, key(a), 0);
        let k = key_index(list, key, key(a), 0)->0;
        assert(key(before[k]) == key(a));
        match key_index(before, key, key(a), 0) {
            Some(at) => {
                assert(key(list[at]) == key(a));
                if at < k {
                    assert(key(list[at]) != key(list[k]));
                }
                assert(at == k);
                let after = put_all(list, key, more);
                assert(after == before.update(k, a));
                assert forall|i: int| 0 <= i < list.len() implies (#[trigger] after[i])
                    == match last_with_key(more, key, key(list[i])) {
                    Some(v) => v,
                    None => list[i],
                } && key(after[i]) == key(list[i]) by {
                    if i < k {
                        assert(key(list[i]) != key(list[k]));
                    } else if k < i {
                        assert(key(list[k]) != key(list[i]));
                    }
                }
            },
            None => {
                assert(false);
            },
        }
    }
}

/// Putting the same elements in once more changes nothing.
pub proof fn lemma_put_all_again<A>(list: Seq<A>, key: spec_fn(A) -> Seq<char>, more: Seq<A>)
    requires
        keys_distinct(list, key),
    ensures
        put_all(put_all(list, key, more), key, more) == put_all(list, key, more),
{
    lemma_put_all(list, key, more);
    lemma_put_all_present(put_all(list, key, more), key, more);
}

/// What is left of a list was in it, and is wanted.
pub proof fn lemma_filter_in<A>(s: Seq<A>, wanted: spec_fn(A) -> bool, i: int)
    requires
        0 <= i < s.filter(wanted).len(),
    ensures
        s.contains(s.filter(wanted)[i]),
        wanted(s.filter(wanted)[i]),
    decreases s.len(),
{
    reveal(Seq::filter);
    if s.len() > 0 {
        let rest = s.drop_last();
        if i < rest.filter(wanted).len() {
            lemma_filter_in(rest, wanted, i);
            let k = choose|k: int| 0 <= k < rest.len() && rest[k] == rest.filter(wanted)[i];
            assert(s[k] == rest[k]);
        } else {
            assert(s[s.len() - 1] == s.last());
        }
    }
}

/// What was in a list and is wanted is left of it.
pub proof fn lemma_filter_keeps<A>(s: Seq<A>, wanted: spec_fn(A) -> bool, i: int)
    requires
        0 <= i < s.len(),
        wanted(s[i]),
    ensures
        s.filter(wanted).contains(s[i]),
    decreases s.len(),
{
    reveal(Seq::filter);
    let rest = s.drop_last();
    if i < rest.len() {
        lemma_filter_keeps(rest, wanted, i);
        let kept = rest.filter(wanted);
        let k = choose|k: int| 0 <= k < kept.len() && kept[k] == rest[i];
        assert(s.filter(wanted)[k] == s[i]);
    } else {
        assert(s.filter(wanted)[s.filter(wanted).len() - 1] == s[i]);
    }
}

} // verus!
