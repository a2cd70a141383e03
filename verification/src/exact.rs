//! Building a fixed-size array of borrowed items from a source that may run
//! dry before the array is full.

use vstd::prelude::*;
use vstd::std_specs::iter::IteratorSpec;

verus! {

/// What an array of `n` slots holds once it has been filled from `items`:
/// nothing when the items run out early; else the first `n` items, in the
/// order they came, or, where they came last piece first, in the opposite
/// order, so that slot 0 holds the item that came last.
pub open spec fn placed<A>(items: Seq<A>, n: nat, reversed: bool) -> Option<Seq<A>> {
    if items.len() < n {
        None
    } else if reversed {
        Some(items.take(n as int).reverse())
    } else {
        Some(items.take(n as int))
    }
}

/// The slots of a filled array, if there is one.
pub open spec fn slots_of<A, const N: usize>(filled: Option<[A; N]>) -> Option<Seq<A>> {
    match filled {
        Some(a) => Some(a@),
        None => None,
    }
}

/// Turns a vector into an array of the same items.
///
/// Trusted: this is std's `TryFrom<Vec<T>>` for `[T; N]`, which hands the
/// vector's contents over as an array exactly when the vector holds `N`
/// items and refuses it otherwise.
#[verifier::external_body]
fn vec_into_array<T, const N: usize>(v: Vec<T>) -> (r: Option<[T; N]>)
    ensures
        r is Some <==> v@.len() == N,
        r matches Some(a) ==> a@ == v@,
{
    <[T; N]>::try_from(v).ok()
}

/// Puts the items of `v` in the opposite order.
fn reversed_vec<A>(v: Vec<A>) -> (r: Vec<A>)
    ensures
        r@ == v@.reverse(),
{
    let mut from = v;
    let mut to: Vec<A> = Vec::with_capacity(from.len());
    while from.len() > 0
        invariant
            from@.len() + to@.len() == v@.len(),
            from@ == v@.take(from@.len() as int),
            to@ == v@.skip(from@.len() as int).reverse(),
        decreases from@.len(),
    {
        let ghost k: int = from@.len() as int;
        let last = from.pop();
        match last {
            Some(x) => {
                to.push(x);
                assert(from@ =~= v@.take(k - 1));
                assert(to@ =~= v@.skip(k - 1).reverse());
            },
            None => {},
        }
    }
    assert(v@.skip(0) =~= v@);
    to
}

/// Fills an array of `N` slots with the next `N` items of `source`.
///
/// With `REVERSED` unset the k-th item goes to slot k. With it set the
/// k-th item goes to slot `N - 1 - k`, which suits a source that yields the
/// rightmost piece first: slot 0 then holds the leftmost piece either way.
/// The source is asked for no item beyond the `N`-th, nor for any after it
/// has said that it is dry; an array is made only from `N` items, so none is
/// ever handed out part filled. With `N == 0` the source is not asked at all.
pub fn fill_from<
    'a,
    T: ?Sized,
    I: Iterator<Item = &'a T>,
    const N: usize,
    const REVERSED: bool,
>(source: &mut I) -> (r: Option<[&'a T; N]>)
    ensures
        N == 0 ==> r is Some && *final(source) == *old(source),
        <I as IteratorSpec>::obeys_prophetic_iter_laws(final(source)) == <
            I as IteratorSpec
        >::obeys_prophetic_iter_laws(old(source)),
        <I as IteratorSpec>::obeys_prophetic_iter_laws(old(source)) ==> {
            let items = <I as IteratorSpec>::remaining(old(source));
            let taken = if items.len() < N {
                items.len() as int
            } else {
                N as int
            };
            &&& slots_of(r) == placed(items, N as nat, REVERSED)
            &&& <I as IteratorSpec>::remaining(final(source)) == items.skip(taken)
        },
{
    let ghost all = <I as IteratorSpec>::remaining(source);
    let ghost lawful = <I as IteratorSpec>::obeys_prophetic_iter_laws(source);
    let mut slots: Vec<&'a T> = Vec::with_capacity(N);
    assert(all.skip(0) =~= all);
    while slots.len() < N
        invariant
            slots@.len() <= N,
            N == 0 ==> *source == *old(source),
            all == <I as IteratorSpec>::remaining(old(source)),
            lawful == <I as IteratorSpec>::obeys_prophetic_iter_laws(old(source)),
            lawful == <I as IteratorSpec>::obeys_prophetic_iter_laws(source),
            lawful ==> slots@.len() <= all.len(),
            lawful ==> slots@ == all.take(slots@.len() as int),
            lawful ==> <I as IteratorSpec>::remaining(source) == all.skip(slots@.len() as int),
        decreases N - slots@.len(),
    {
        let ghost k: int = slots@.len() as int;
        match source.next() {
            None => {
                assert(lawful ==> all.len() == k);
                return None;
            },
            Some(x) => {
                slots.push(x);
                assert(lawful ==> all.skip(k)[0] == all[k]);
                assert(lawful ==> slots@ =~= all.take(k + 1));
                assert(lawful ==> all.skip(k).drop_first() =~= all.skip(k + 1));
            },
        }
    }
    let ordered = if REVERSED {
        reversed_vec(slots)
    } else {
        slots
    };
    vec_into_array(ordered)
}

/// Fills an array of `N` slots with the first `N` items of `iter`: see
/// [`fill_from`]. What is left of `iter` is dropped.
pub fn array_init_from_iter_<
    'a,
    T: ?Sized,
    I: Iterator<Item = &'a T>,
    const N: usize,
    const REVERSED: bool,
>(iter: I) -> (r: Option<[&'a T; N]>)
    ensures
        N == 0 ==> r is Some,
        iter.obeys_prophetic_iter_laws() ==> slots_of(r) == placed(
            iter.remaining(),
            N as nat,
            REVERSED,
        ),
{
    let mut source = iter;
    fill_from::<T, I, N, REVERSED>(&mut source)
}

/// Fills an array with the first `N` items of `iter`, in the order they come.
pub fn array_init_from_iter<'a, T: ?Sized, I: Iterator<Item = &'a T>, const N: usize>(
    iter: I,
) -> (r: Option<[&'a T; N]>)
    ensures
        N == 0 ==> r is Some,
        iter.obeys_prophetic_iter_laws() ==> slots_of(r) == placed(
            iter.remaining(),
            N as nat,
            false,
        ),
{
    array_init_from_iter_::<T, I, N, false>(iter)
}

/// Fills an array with the first `N` items of `iter`, last slot first.
pub fn array_init_from_rev_iter<'a, T: ?Sized, I: Iterator<Item = &'a T>, const N: usize>(
    iter: I,
) -> (r: Option<[&'a T; N]>)
    ensures
        N == 0 ==> r is Some,
        iter.obeys_prophetic_iter_laws() ==> slots_of(r) == placed(
            iter.remaining(),
            N as nat,
            true,
        ),
{
    array_init_from_iter_::<T, I, N, true>(iter)
}

} // verus!
