//! Gathering lists of results.

use itertools::Itertools;
use vstd::prelude::*;

verus! {

/// The first failure in a list of results, if there is one.
pub open spec fn first_error<T, E>(items: Seq<Result<T, E>>) -> Option<E>
    decreases items.len(),
{
    if items.len() == 0 {
        None
    } else {
        match items[0] {
            Err(e) => Some(e),
            Ok(_) => first_error(items.drop_first()),
        }
    }
}

/// The values of a list of results that all succeeded, in order.
pub open spec fn values_of<T, E>(items: Seq<Result<T, E>>) -> Seq<T> {
    Seq::new(items.len(), |i: int| items[i]->Ok_0)
}

/// Calls `Itertools::try_collect` (itertools) on the items, collecting into a
/// vector. It is `Iterator::collect` into a `Result`: the items are taken in
/// order; the first item that is an error ends the collection and is returned;
/// if none is, the values of all the items are returned in the order of the
/// items. Trusted: the contract states this behaviour of the outside function.
#[verifier::external_body]
pub(crate) fn try_collect<T, E>(items: Vec<Result<T, E>>) -> (r: Result<Vec<T>, E>)
    ensures
        match first_error(items@) {
            Some(e) => r matches Err(x) && x == e,
            None => r matches Ok(v) && v@ == values_of(items@),
        },
{
    Itertools::try_collect(items.into_iter())
}

/// The list has no error exactly if each item succeeded, and its first error
/// is the error of the first item that failed.
pub proof fn lemma_first_error<T, E>(items: Seq<Result<T, E>>)
    ensures
        first_error(items) is None <==> forall|i: int| 0 <= i < items.len() ==> items[i] is Ok,
        first_error(items) matches Some(e) ==> exists|i: int|
            0 <= i < items.len() && items[i] == Err::<T, E>(e) && forall|j: int|
                0 <= j < i ==> items[j] is Ok,
    decreases items.len(),
{
    if items.len() > 0 {
        let rest = items.drop_first();
        lemma_first_error(rest);
        assert(forall|i: int| 0 <= i < rest.len() ==> rest[i] == items[i + 1]);
        match items[0] {
            Err(e) => {
                assert(items[0] == Err::<T, E>(e));
            },
            Ok(_) => {
                if first_error(rest) is None {
                    assert forall|i: int| 0 <= i < items.len() implies items[i] is Ok by {
                        if i > 0 {
                            assert(rest[i - 1] is Ok);
                        }
                    }
                } else {
                    let e = first_error(rest)->Some_0;
                    let i = choose|i: int|
                        0 <= i < rest.len() && rest[i] == Err::<T, E>(e) && forall|j: int|
                            0 <= j < i ==> rest[j] is Ok;
                    assert(items[i + 1] == Err::<T, E>(e));
                    assert forall|j: int| 0 <= j < i + 1 implies items[j] is Ok by {
                        if j > 0 {
                            assert(rest[j - 1] is Ok);
                        }
                    }
                    assert(!(items[i + 1] is Ok));
                }
            },
        }
    }
}

/// A list that ends with its only error has that error as its first.
pub proof fn lemma_first_error_push<T, E>(items: Seq<Result<T, E>>, last: Result<T, E>)
    requires
        first_error(items) is None,
    ensures
        first_error(items.push(last)) == match last {
            Err(e) => Some(e),
            Ok(_) => None::<E>,
        },
    decreases items.len(),
{
    let all = items.push(last);
    if items.len() == 0 {
        assert(all.drop_first() =~= Seq::<Result<T, E>>::empty());
        assert(all[0] == last);
        assert(first_error(all.drop_first()) is None);
    } else {
        assert(all.drop_first() =~= items.drop_first().push(last));
        assert(all[0] == items[0]);
        assert(items[0] is Ok);
        assert(first_error(items.drop_first()) is None);
        lemma_first_error_push(items.drop_first(), last);
        assert(first_error(all) == first_error(all.drop_first()));
    }
}

/// Two lists that fail and succeed at the same places, with the same
/// errors, have the same first error.
pub proof fn lemma_first_error_related<T, U, E>(xs: Seq<Result<T, E>>, ys: Seq<Result<U, E>>)
    requires
        xs.len() == ys.len(),
        forall|i: int|
            0 <= i < xs.len() ==> match (#[trigger] xs[i], ys[i]) {
                (Ok(_), Ok(_)) => true,
                (Err(a), Err(b)) => a == b,
                _ => false,
            },
    ensures
        first_error(xs) == first_error(ys),
    decreases xs.len(),
{
    if xs.len() > 0 {
        let xr = xs.drop_first();
        let yr = ys.drop_first();
        assert forall|i: int| 0 <= i < xr.len() implies match (#[trigger] xr[i], yr[i]) {
            (Ok(_), Ok(_)) => true,
            (Err(a), Err(b)) => a == b,
            _ => false,
        } by {
            assert(xr[i] == xs[i + 1]);
            assert(yr[i] == ys[i + 1]);
        }
        lemma_first_error_related(xr, yr);
        assert(match (xs[0], ys[0]) {
            (Ok(_), Ok(_)) => true,
            (Err(a), Err(b)) => a == b,
            _ => false,
        });
    }
}

} // verus!
