//! Looking for an item with a test that may fail.

use vstd::prelude::*;
use vstd::std_specs::iter::IteratorSpec;

verus! {

/// Whether `f`, put to the first `count` of `items`, may have answered no
/// every time.
pub open spec fn all_passed_over<A, E, F: FnMut(&A) -> Result<bool, E>>(
    f: F,
    items: Seq<A>,
    count: int,
) -> bool {
    forall|j: int| 0 <= j < count ==> call_ensures(f, (&#[trigger] items[j],), Ok(false))
}

/// Whether the test `f` can be put to each of `items`.
pub open spec fn takes_each<A, E, F: FnMut(&A) -> Result<bool, E>>(f: F, items: Seq<A>) -> bool {
    forall|j: int| 0 <= j < items.len() ==> call_requires(f, (&#[trigger] items[j],))
}

/// Searching in what an iterator yields.
pub trait IteratorExt: Iterator {
    /// Takes items from `self` until the test `f` answers yes or fails.
    ///
    /// The result is the item that `f` answered yes to, or nothing if the
    /// items ran out first, or the failure of `f`. The test was put to each
    /// item taken, in order, and answered no to all but the last; no item
    /// beyond that one was taken.
    fn try_find_<E, F: FnMut(&Self::Item) -> Result<bool, E>>(&mut self, f: F) -> (r: Result<
        Option<Self::Item>,
        E,
    >) where Self: Sized
        requires
            <Self as IteratorSpec>::obeys_prophetic_iter_laws(old(self)),
            <Self as IteratorSpec>::decrease(old(self)) is Some,
            takes_each(f, <Self as IteratorSpec>::remaining(old(self))),
        ensures
            ({
                let items = <Self as IteratorSpec>::remaining(old(self));
                let left = <Self as IteratorSpec>::remaining(final(self));
                let taken = items.len() - left.len();
                &&& 0 <= taken <= items.len()
                &&& left == items.skip(taken)
                &&& match r {
                    Ok(Some(found)) => {
                        &&& taken > 0
                        &&& found == items[taken - 1]
                        &&& all_passed_over(f, items, taken - 1)
                        &&& call_ensures(f, (&found,), Ok(true))
                    },
                    Ok(None) => taken == items.len() && all_passed_over(f, items, taken),
                    Err(e) => {
                        &&& taken > 0
                        &&& all_passed_over(f, items, taken - 1)
                        &&& call_ensures(f, (&items[taken - 1],), Err(e))
                    },
                }
            }),
    {
        let mut ask = f;
        let ghost items = <Self as IteratorSpec>::remaining(self);
        let ghost mut taken: int = 0;
        assert(items.skip(0) =~= items);
        loop
            invariant
                <Self as IteratorSpec>::obeys_prophetic_iter_laws(self),
                <Self as IteratorSpec>::decrease(self) is Some,
                ask == f,
                items == <Self as IteratorSpec>::remaining(old(self)),
                takes_each(f, items),
                0 <= taken <= items.len(),
                <Self as IteratorSpec>::remaining(self) == items.skip(taken),
                all_passed_over(f, items, taken),
            decreases <Self as IteratorSpec>::decrease(self)->0,
        {
            match self.next() {
                None => {
                    return Ok(None);
                },
                Some(item) => {
                    assert(items.skip(taken)[0] == items[taken]);
                    proof {
                        assert(items.skip(taken).drop_first() =~= items.skip(taken + 1));
                        taken = taken + 1;
                    }
                    match ask(&item) {
                        Ok(false) => {},
                        Ok(true) => {
                            return Ok(Some(item));
                        },
                        Err(e) => {
                            return Err(e);
                        },
                    }
                },
            }
        }
    }
}

impl<I: Iterator> IteratorExt for I {

}

} // verus!
