//! How a list comes from another: element by element, in order, with nothing left out that is wanted.

use vstd::prelude::*;

verus! {

/// Whether `at` holds, in order, the indices at which `f` gives something, and no other.
pub open spec fn gives_at<A, B>(list: Seq<A>, f: spec_fn(A) -> Option<B>, at: Seq<int>) -> bool {
    &&& forall|k: int|
        0 <= k < at.len() ==> 0 <= #[trigger] at[k] < list.len() && f(list[at[k]]) is Some
    &&& forall|j: int, k: int| 0 <= j < k < at.len() ==> #[trigger] at[j] < #[trigger] at[k]
    &&& forall|i: int| 0 <= i < list.len() && f(#[trigger] list[i]) is Some ==> at.contains(i)
}

/// Whether a list holds what `f` gives for the elements of another, in their order: one element for
/// each for which `f` gives something, and no other.
pub open spec fn is_image<A, B>(image: Seq<B>, list: Seq<A>, f: spec_fn(A) -> Option<B>) -> bool {
    exists|at: Seq<int>|
        {
            &&& #[trigger] gives_at(list, f, at)
            &&& image.len() == at.len()
            &&& forall|k: int| 0 <= k < at.len() ==> f(list[at[k]]) == Some(#[trigger] image[k])
        }
}

/// What is there of an element that may be there.
pub open spec fn if_any<B>(b: Option<B>) -> Seq<B> {
    match b {
        Some(b) => seq![b],
        None => Seq::empty(),
    }
}

/// Nothing comes from nothing.
pub proof fn lemma_image_of_nothing<A, B>(f: spec_fn(A) -> Option<B>)
    ensures
        is_image(Seq::<B>::empty(), Seq::<A>::empty(), f),
{
    assert(gives_at(Seq::<A>::empty(), f, Seq::<int>::empty()));
}

/// One element more gives at most one element more.
pub proof fn lemma_image_step<A, B>(image: Seq<B>, list: Seq<A>, f: spec_fn(A) -> Option<B>, a: A)
    requires
        is_image(image, list, f),
    ensures
        is_image(image + if_any(f(a)), list.push(a), f),
{
    let at = choose|at: Seq<int>|
        {
            &&& #[trigger] gives_at(list, f, at)
            &&& image.len() == at.len()
            &&& forall|k: int| 0 <= k < at.len() ==> f(list[at[k]]) == Some(#[trigger] image[k])
        };
    let all = list.push(a);
    let n = list.len() as int;
    let next = if f(a) is Some {
        at.push(n)
    } else {
        at
    };
    let longer = image + if_any(f(a));
    assert forall|k: int| 0 <= k < next.len() implies 0 <= #[trigger] next[k] < all.len() && f(
        all[next[k]],
    ) is Some && f(all[next[k]]) == Some(longer[k]) by {
        if k < at.len() {
            assert(next[k] == at[k]);
            assert(all[at[k]] == list[at[k]]);
            assert(longer[k] == image[k]);
        } else {
            assert(all[n] == a);
        }
    }
    assert forall|i: int| 0 <= i < all.len() && f(#[trigger] all[i]) is Some implies next.contains(
        i,
    ) by {
        if i < n {
            assert(f(list[i]) is Some);
            assert(at.contains(i));
            let k = choose|k: int| 0 <= k < at.len() && at[k] == i;
            assert(next[k] == i);
        } else {
            assert(next[at.len() as int] == n);
        }
    }
    assert forall|j: int, k: int| 0 <= j < k < next.len() implies #[trigger] next[j]
        < #[trigger] next[k] by {
        assert(next[j] == at[j]);
        if k < at.len() {
            assert(next[k] == at[k]);
        }
    }
    assert(gives_at(all, f, next));
}

/// What an element gives is in the image.
pub proof fn lemma_image_holds<A, B>(
    image: Seq<B>,
    list: Seq<A>,
    f: spec_fn(A) -> Option<B>,
    i: int,
)
    requires
        is_image(image, list, f),
        0 <= i < list.len(),
        f(list[i]) is Some,
    ensures
        image.contains(f(list[i])->0),
{
    let at = choose|at: Seq<int>|
        {
            &&& #[trigger] gives_at(list, f, at)
            &&& image.len() == at.len()
            &&& forall|k: int| 0 <= k < at.len() ==> f(list[at[k]]) == Some(#[trigger] image[k])
        };
    assert(at.contains(i));
    let k = choose|k: int| 0 <= k < at.len() && at[k] == i;
    assert(f(list[at[k]]) == Some(image[k]));
}

/// What is in the image, an element gives.
pub proof fn lemma_image_comes_from<A, B>(
    image: Seq<B>,
    list: Seq<A>,
    f: spec_fn(A) -> Option<B>,
    k: int,
) -> (i: int)
    requires
        is_image(image, list, f),
        0 <= k < image.len(),
    ensures
        0 <= i < list.len(),
        f(list[i]) == Some(image[k]),
{
    let at = choose|at: Seq<int>|
        {
            &&& #[trigger] gives_at(list, f, at)
            &&& image.len() == at.len()
            &&& forall|k: int| 0 <= k < at.len() ==> f(list[at[k]]) == Some(#[trigger] image[k])
        };
    assert(f(list[at[k]]) == Some(image[k]));
    at[k]
}

/// Where each element gives something, the image has an element for each.
pub proof fn lemma_image_of_all<A, B>(image: Seq<B>, list: Seq<A>, f: spec_fn(A) -> Option<B>)
    requires
        is_image(image, list, f),
        forall|i: int| 0 <= i < list.len() ==> f(#[trigger] list[i]) is Some,
    ensures
        image.len() == list.len(),
        forall|i: int| 0 <= i < list.len() ==> f(list[i]) == Some(#[trigger] image[i]),
{
    let at = choose|at: Seq<int>|
        {
            &&& #[trigger] gives_at(list, f, at)
            &&& image.len() == at.len()
            &&& forall|k: int| 0 <= k < at.len() ==> f(list[at[k]]) == Some(#[trigger] image[k])
        };
    assert forall|i: int| 0 <= i < list.len() implies at.contains(i) by {
        assert(f(list[i]) is Some);
    }
    lemma_all_indices(at, list.len() as int);
    assert forall|i: int| 0 <= i < list.len() implies f(list[i]) == Some(#[trigger] image[i]) by {
        assert(at[i] == i);
    }
}

/// Growing indices that leave none out are the indices themselves.
proof fn lemma_all_indices(at: Seq<int>, n: int)
    requires
        0 <= n,
        forall|k: int| 0 <= k < at.len() ==> 0 <= #[trigger] at[k] < n,
        forall|j: int, k: int| 0 <= j < k < at.len() ==> #[trigger] at[j] < #[trigger] at[k],
        forall|i: int| 0 <= i < n ==> at.contains(i),
    ensures
        at.len() == n,
        forall|k: int| 0 <= k < n ==> #[trigger] at[k] == k,
    decreases n,
{
    if n == 0 {
        if at.len() > 0 {
            let first = at[0int];
            assert(0 <= first && first < n);
            assert(false);
        }
    } else {
        assert(at.contains(n - 1));
        let k = choose|k: int| 0 <= k < at.len() && at[k] == n - 1;
        if k < at.len() - 1 {
            assert(at[k] < at[at.len() - 1]);
        }
        let rest = at.drop_last();
        assert forall|j: int| 0 <= j < rest.len() implies 0 <= #[trigger] rest[j] < n - 1 by {
            assert(rest[j] == at[j]);
            assert(at[j] < at[at.len() - 1]);
        }
        assert forall|i: int| 0 <= i < n - 1 implies rest.contains(i) by {
            assert(at.contains(i));
            let m = choose|m: int| 0 <= m < at.len() && at[m] == i;
            assert(rest[m] == i);
        }
        assert forall|j: int, m: int| 0 <= j < m < rest.len() implies #[trigger] rest[j]
            < #[trigger] rest[m] by {
            assert(rest[j] == at[j] && rest[m] == at[m]);
        }
        lemma_all_indices(rest, n - 1);
        assert forall|j: int| 0 <= j < n implies #[trigger] at[j] == j by {
            if j < n - 1 {
                assert(rest[j] == j);
            }
        }
    }
}

/// What keeps the wanted elements of a list.
pub open spec fn keep<A>(wanted: spec_fn(A) -> bool) -> spec_fn(A) -> Option<A> {
    |a: A|
        if wanted(a) {
            Some(a)
        } else {
            None
        }
}

/// A filtered list holds the wanted elements in their order.
pub proof fn lemma_filter_is_image<A>(list: Seq<A>, wanted: spec_fn(A) -> bool)
    ensures
        is_image(list.filter(wanted), list, keep(wanted)),
    decreases list.len(),
{
    reveal(Seq::filter);
    if list.len() == 0 {
        assert(list == Seq::<A>::empty());
        assert(list.filter(wanted) == Seq::<A>::empty());
        lemma_image_of_nothing(keep(wanted));
    } else {
        let rest = list.drop_last();
        lemma_filter_is_image(rest, wanted);
        lemma_image_step(rest.filter(wanted), rest, keep(wanted), list.last());
        assert(rest.push(list.last()) == list);
        assert(list.filter(wanted) == rest.filter(wanted) + if_any(keep(wanted)(list.last())));
    }
}

/// What `f` gives for the elements of a list, in their order.
pub open spec fn image_of<A, B>(list: Seq<A>, f: spec_fn(A) -> Option<B>) -> Seq<B>
    decreases list.len(),
{
    if list.len() == 0 {
        Seq::empty()
    } else {
        image_of(list.drop_last(), f) + if_any(f(list.last()))
    }
}

pub proof fn lemma_image_of<A, B>(list: Seq<A>, f: spec_fn(A) -> Option<B>)
    ensures
        is_image(image_of(list, f), list, f),
    decreases list.len(),
{
    if list.len() == 0 {
        assert(list == Seq::<A>::empty());
        lemma_image_of_nothing(f);
    } else {
        lemma_image_of(list.drop_last(), f);
        lemma_image_step(image_of(list.drop_last(), f), list.drop_last(), f, list.last());
        assert(list.drop_last().push(list.last()) == list);
    }
}

/// Two lists one after the other give what each of them gives.
pub proof fn lemma_image_of_concat<A, B>(a: Seq<A>, b: Seq<A>, f: spec_fn(A) -> Option<B>)
    ensures
        image_of(a + b, f) == image_of(a, f) + image_of(b, f),
    decreases b.len(),
{
    if b.len() == 0 {
        assert(a + b == a);
        assert(image_of(b, f) == Seq::<B>::empty());
    } else {
        lemma_image_of_concat(a, b.drop_last(), f);
        assert((a + b).drop_last() == a + b.drop_last());
        assert((a + b).last() == b.last());
        assert(image_of(a + b, f) == image_of(a, f) + image_of(b, f));
    }
}

pub proof fn lemma_image_of_one<A, B>(a: A, f: spec_fn(A) -> Option<B>)
    ensures
        image_of(seq![a], f) == if_any(f(a)),
{
    assert(seq![a].drop_last() == Seq::<A>::empty());
    assert(image_of(seq![a].drop_last(), f) == Seq::<B>::empty());
}

} // verus!
