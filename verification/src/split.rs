//! Cutting a slice or a string at its separators into exactly `N` pieces.

use crate::bytes::{bstr_rsplitn_str, bstr_splitn_str, rsplitn_str, splitn_str, views};
use crate::exact::{array_init_from_iter, array_init_from_rev_iter, placed, slots_of};
use crate::pieces::{lemma_first_match, lemma_tail_len, rsplitn, splitn};
use vstd::prelude::*;
use vstd::std_specs::cmp::PartialEqSpec;
use vstd::std_specs::iter::IteratorSpec;
use vstd::string::StrSliceExecFns;

verus! {

broadcast use {vstd::std_specs::vec::group_vec_axioms, vstd::string::group_string_axioms};

/// Whether `sep` says of every item what `pred` answers when asked.
pub open spec fn follows<T, P: FnMut(&T) -> bool>(pred: P, sep: spec_fn(T) -> bool) -> bool {
    forall|item: T, answer: bool| #[trigger] call_ensures(pred, (&item,), answer) ==> answer == sep(item)
}

/// The parts of `s` that `ranges` mark, each by its first index and the
/// index after its last.
pub open spec fn cut<T>(s: Seq<T>, ranges: Seq<(usize, usize)>) -> Seq<Seq<T>> {
    ranges.map_values(|r: (usize, usize)| s.subrange(r.0 as int, r.1 as int))
}

/// Whether each of `ranges` marks a part of a sequence of `len` items.
pub open spec fn within(ranges: Seq<(usize, usize)>, len: nat) -> bool {
    forall|k: int| 0 <= k < ranges.len() ==> (#[trigger] ranges[k]).0 <= ranges[k].1 <= len
}

/// Marks the pieces of `s` from the left, at most `n` of them, putting
/// `pred` to one item after the other until `n - 1` pieces are cut.
pub(crate) fn cuts_front<T, P: FnMut(&T) -> bool>(s: &[T], n: usize, pred: P) -> (ranges: Vec<
    (usize, usize),
>)
    requires
        takes_all(pred, s@),
    ensures
        within(ranges@, s@.len()),
        forall|sep: spec_fn(T) -> bool| #[trigger]
            follows(pred, sep) ==> cut(s@, ranges@) == splitn(s@, n as nat, sep),
{
    let mut ask = pred;
    let mut ranges: Vec<(usize, usize)> = Vec::new();
    if n == 0 {
        assert(cut(s@, ranges@) =~= Seq::<Seq<T>>::empty());
        return ranges;
    }
    let len: usize = s.len();
    let mut start: usize = 0;
    let mut i: usize = 0;
    assert(s@.skip(0) =~= s@);
    assert forall|sep: spec_fn(T) -> bool| #[trigger] follows(pred, sep) implies splitn(s@, n as nat, sep) == cut(
        s@,
        ranges@,
    ) + splitn(s@.skip(start as int), (n - ranges@.len()) as nat, sep) by {
        assert(cut(s@, ranges@) + splitn(s@, n as nat, sep) =~= splitn(s@, n as nat, sep));
    }
    while i < len && ranges.len() + 1 < n
        invariant
            start <= i <= len,
            len == s@.len(),
            ranges@.len() < n,
            ask == pred,
            within(ranges@, s@.len()),
            takes_all(pred, s@),
            forall|sep: spec_fn(T) -> bool| #[trigger]
                follows(pred, sep) ==> {
                    &&& splitn(s@, n as nat, sep) == cut(s@, ranges@) + splitn(
                        s@.skip(start as int),
                        (n - ranges@.len()) as nat,
                        sep,
                    )
                    &&& forall|j: int| start <= j < i ==> !sep(#[trigger] s@[j])
                },
        decreases len - i,
    {
        let ghost before = ranges@;
        let hit = ask(&s[i]);
        if hit {
            ranges.push((start, i));
            assert forall|sep: spec_fn(T) -> bool| #[trigger] follows(pred, sep) implies {
                &&& splitn(s@, n as nat, sep) == cut(s@, ranges@) + splitn(
                    s@.skip(i + 1),
                    (n - ranges@.len()) as nat,
                    sep,
                )
            } by {
                let rest = s@.skip(start as int);
                assert(sep(s@[i as int]));
                assert forall|j: int| 0 <= j < i - start implies !sep(#[trigger] rest[j]) by {
                    assert(rest[j] == s@[start + j]);
                }
                assert(rest[i - start] == s@[i as int]);
                lemma_first_match(rest, sep, i - start);
                assert(rest.take(i - start) =~= s@.subrange(start as int, i as int));
                assert(rest.skip(i - start + 1) =~= s@.skip(i + 1));
                assert(cut(s@, ranges@) =~= cut(s@, before) + seq![
                    s@.subrange(start as int, i as int),
                ]);
            }
            start = i + 1;
        }
        i += 1;
    }
    ranges.push((start, len));
    assert forall|sep: spec_fn(T) -> bool| #[trigger] follows(pred, sep) implies cut(
        s@,
        ranges@,
    ) == splitn(s@, n as nat, sep) by {
        let rest = s@.skip(start as int);
        let before = ranges@.drop_last();
        assert(rest =~= s@.subrange(start as int, len as int));
        assert(cut(s@, ranges@) =~= cut(s@, before) + seq![rest]);
        if before.len() + 1 < n {
            assert forall|j: int| 0 <= j < rest.len() implies !sep(#[trigger] rest[j]) by {
                assert(rest[j] == s@[start + j]);
            }
            lemma_first_match(rest, sep, rest.len() as int);
        }
    }
    ranges
}

/// Marks the pieces of `s` from the right, at most `n` of them and the
/// rightmost first, putting `pred` to one item after the other, the last
/// item first, until `n - 1` pieces are cut.
pub(crate) fn cuts_back<T, P: FnMut(&T) -> bool>(s: &[T], n: usize, pred: P) -> (ranges: Vec<
    (usize, usize),
>)
    requires
        takes_all(pred, s@),
    ensures
        within(ranges@, s@.len()),
        forall|sep: spec_fn(T) -> bool| #[trigger]
            follows(pred, sep) ==> cut(s@, ranges@) == rsplitn(s@, n as nat, sep),
{
    let mut ask = pred;
    let mut ranges: Vec<(usize, usize)> = Vec::new();
    if n == 0 {
        assert(cut(s@, ranges@) =~= Seq::<Seq<T>>::empty());
        return ranges;
    }
    let len: usize = s.len();
    let mut end: usize = len;
    let mut i: usize = len;
    assert(s@.take(len as int) =~= s@);
    assert forall|sep: spec_fn(T) -> bool| #[trigger] follows(pred, sep) implies rsplitn(s@, n as nat, sep) == cut(
        s@,
        ranges@,
    ) + rsplitn(s@.take(end as int), (n - ranges@.len()) as nat, sep) by {
        assert(cut(s@, ranges@) + rsplitn(s@, n as nat, sep) =~= rsplitn(s@, n as nat, sep));
    }
    while i > 0 && ranges.len() + 1 < n
        invariant
            i <= end <= len,
            len == s@.len(),
            ranges@.len() < n,
            ask == pred,
            within(ranges@, s@.len()),
            takes_all(pred, s@),
            forall|sep: spec_fn(T) -> bool| #[trigger]
                follows(pred, sep) ==> {
                    &&& rsplitn(s@, n as nat, sep) == cut(s@, ranges@) + rsplitn(
                        s@.take(end as int),
                        (n - ranges@.len()) as nat,
                        sep,
                    )
                    &&& forall|j: int| i <= j < end ==> !sep(#[trigger] s@[j])
                },
        decreases i,
    {
        let ghost before = ranges@;
        i -= 1;
        let hit = ask(&s[i]);
        if hit {
            ranges.push((i + 1, end));
            assert forall|sep: spec_fn(T) -> bool| #[trigger] follows(pred, sep) implies {
                &&& rsplitn(s@, n as nat, sep) == cut(s@, ranges@) + rsplitn(
                    s@.take(i as int),
                    (n - ranges@.len()) as nat,
                    sep,
                )
            } by {
                let rest = s@.take(end as int);
                assert(sep(s@[i as int]));
                assert forall|j: int| rest.len() - (end - i - 1) <= j < rest.len() implies !sep(
                    #[trigger] rest[j],
                ) by {
                    assert(rest[j] == s@[j]);
                }
                assert(rest[i as int] == s@[i as int]);
                lemma_tail_len(rest, sep, end - i - 1);
                assert(rest.skip(rest.len() - (end - i - 1)) =~= s@.subrange(i + 1, end as int));
                assert(rest.take(rest.len() - (end - i - 1) - 1) =~= s@.take(i as int));
                assert(cut(s@, ranges@) =~= cut(s@, before) + seq![s@.subrange(i + 1, end as int)]);
            }
            end = i;
        }
    }
    ranges.push((0, end));
    assert forall|sep: spec_fn(T) -> bool| #[trigger] follows(pred, sep) implies cut(
        s@,
        ranges@,
    ) == rsplitn(s@, n as nat, sep) by {
        let rest = s@.take(end as int);
        let before = ranges@.drop_last();
        assert(rest =~= s@.subrange(0, end as int));
        assert(cut(s@, ranges@) =~= cut(s@, before) + seq![rest]);
        if before.len() + 1 < n {
            assert forall|j: int| 0 <= j < rest.len() implies !sep(#[trigger] rest[j]) by {
                assert(rest[j] == s@[j]);
            }
            lemma_tail_len(rest, sep, rest.len() as int);
        }
    }
    ranges
}

/// What each of `pieces` holds.
pub open spec fn text_views(pieces: Seq<&str>) -> Seq<Seq<char>> {
    pieces.map_values(|p: &str| p@)
}

/// What each of the pieces holds, where there are any.
pub open spec fn piece_views<T>(pieces: Option<Seq<&[T]>>) -> Option<Seq<Seq<T>>> {
    match pieces {
        Some(p) => Some(views(p)),
        None => None,
    }
}

/// What each of the pieces holds, where there are any.
pub open spec fn piece_texts(pieces: Option<Seq<&str>>) -> Option<Seq<Seq<char>>> {
    match pieces {
        Some(p) => Some(text_views(p)),
        None => None,
    }
}

/// The test that holds of the items equal to `x`.
pub open spec fn equal_to<T: PartialEq>(x: T) -> spec_fn(T) -> bool {
    |item: T| item.eq_spec(&x)
}

/// The test that holds of the character `c` alone.
pub open spec fn is_char(c: char) -> spec_fn(char) -> bool {
    |item: char| item == c
}

/// Filling an array and looking into each item can be done in either order.
proof fn lemma_placed_map<A, B>(items: Seq<A>, f: spec_fn(A) -> B, n: nat, reversed: bool)
    ensures
        placed(items.map_values(f), n, reversed) == match placed(items, n, reversed) {
            Some(p) => Some(p.map_values(f)),
            None => None,
        },
{
    if items.len() >= n {
        let first = items.take(n as int);
        assert(items.map_values(f).take(n as int) =~= first.map_values(f));
        assert(first.map_values(f).reverse() =~= first.reverse().map_values(f));
    }
}

/// The parts of `s` that `ranges` mark.
fn slices_at<'a, T>(s: &'a [T], ranges: &Vec<(usize, usize)>) -> (pieces: Vec<&'a [T]>)
    requires
        within(ranges@, s@.len()),
    ensures
        views(pieces@) == cut(s@, ranges@),
{
    let mut pieces: Vec<&'a [T]> = Vec::with_capacity(ranges.len());
    let mut k: usize = 0;
    while k < ranges.len()
        invariant
            k <= ranges@.len(),
            within(ranges@, s@.len()),
            views(pieces@) == cut(s@, ranges@.take(k as int)),
        decreases ranges@.len() - k,
    {
        let ghost done = pieces@;
        let (from, to) = ranges[k];
        let piece = vstd::slice::slice_subrange(s, from, to);
        pieces.push(piece);
        assert(views(pieces@) =~= views(done).push(piece@));
        assert(cut(s@, ranges@.take(k + 1)) =~= cut(s@, ranges@.take(k as int)).push(
            s@.subrange(from as int, to as int),
        ));
        k += 1;
    }
    assert(ranges@.take(k as int) =~= ranges@);
    pieces
}

/// The parts of `s` that `ranges` mark, counted in characters.
fn texts_at<'a>(s: &'a str, ranges: &Vec<(usize, usize)>) -> (pieces: Vec<&'a str>)
    requires
        within(ranges@, s@.len()),
    ensures
        text_views(pieces@) == cut(s@, ranges@),
{
    let mut pieces: Vec<&'a str> = Vec::with_capacity(ranges.len());
    let mut k: usize = 0;
    while k < ranges.len()
        invariant
            k <= ranges@.len(),
            within(ranges@, s@.len()),
            text_views(pieces@) == cut(s@, ranges@.take(k as int)),
        decreases ranges@.len() - k,
    {
        let ghost done = pieces@;
        let (from, to) = ranges[k];
        let piece = s.substring_char(from, to);
        pieces.push(piece);
        assert(text_views(pieces@) =~= text_views(done).push(piece@));
        assert(cut(s@, ranges@.take(k + 1)) =~= cut(s@, ranges@.take(k as int)).push(
            s@.subrange(from as int, to as int),
        ));
        k += 1;
    }
    assert(ranges@.take(k as int) =~= ranges@);
    pieces
}

/// The characters of `s`.
fn chars_of(s: &str) -> (chars: Vec<char>)
    ensures
        chars@ == s@,
{
    let total: usize = s.unicode_len();
    let mut chars: Vec<char> = Vec::with_capacity(total);
    let mut rest = s.chars();
    assert(s@.skip(0) =~= s@);
    while chars.len() < total
        invariant
            total == s@.len(),
            chars@.len() <= total,
            chars@ == s@.take(chars@.len() as int),
            rest.remaining() == s@.skip(chars@.len() as int),
        decreases total - chars@.len(),
    {
        let ghost k: int = chars@.len() as int;
        match rest.next() {
            Some(c) => {
                chars.push(c);
                assert(chars@ =~= s@.take(k + 1));
                assert(rest.remaining() =~= s@.skip(k + 1));
            },
            None => {
                assert(false);
            },
        }
    }
    assert(s@.take(total as int) =~= s@);
    chars
}

/// Whether the test `f` can be put to every item of `s`.
pub open spec fn takes_all<T, F: FnMut(&T) -> bool>(f: F, s: Seq<T>) -> bool {
    forall|i: int| 0 <= i < s.len() ==> call_requires(f, (&#[trigger] s[i],))
}

/// Cuts `s` into exactly `N` pieces at the first `N - 1` items that the
/// test `f` answers yes to.
///
/// The test is put to one item after the other, from the left, and to none
/// beyond the separator that makes the last cut. Whatever the test stands
/// for, the result is that of cutting by it: there is none when fewer than
/// `N` pieces can be cut.
pub fn splitn_exact_by<'a, T, F: FnMut(&T) -> bool, const N: usize>(s: &'a [T], f: F) -> (r:
    Option<[&'a [T]; N]>)
    requires
        takes_all(f, s@),
    ensures
        N == 0 ==> r is Some,
        forall|sep: spec_fn(T) -> bool| #[trigger]
            follows(f, sep) ==> piece_views(slots_of(r)) == placed(
                splitn(s@, N as nat, sep),
                N as nat,
                false,
            ),
{
    let ranges = cuts_front(s, N, f);
    let pieces = slices_at(s, &ranges);
    proof {
        lemma_placed_map(pieces@, |p: &[T]| p@, N as nat, false);
    }
    array_init_from_iter(pieces.into_iter())
}

/// Cuts `s` into exactly `N` pieces at the last `N - 1` items that the test
/// `f` answers yes to. The pieces stand from left to right.
///
/// The test is put to one item after the other, from the right, and to none
/// beyond the separator that makes the last cut.
pub fn rsplitn_exact_by<'a, T, F: FnMut(&T) -> bool, const N: usize>(s: &'a [T], f: F) -> (r:
    Option<[&'a [T]; N]>)
    requires
        takes_all(f, s@),
    ensures
        N == 0 ==> r is Some,
        forall|sep: spec_fn(T) -> bool| #[trigger]
            follows(f, sep) ==> piece_views(slots_of(r)) == placed(
                rsplitn(s@, N as nat, sep),
                N as nat,
                true,
            ),
{
    let ranges = cuts_back(s, N, f);
    let pieces = slices_at(s, &ranges);
    proof {
        lemma_placed_map(pieces@, |p: &[T]| p@, N as nat, true);
    }
    array_init_from_rev_iter(pieces.into_iter())
}

/// Cutting a slice or a string into exactly `N` pieces.
///
/// `C` is what marks a separator: an item, a test on items, or, for bytes, a
/// string of bytes. Both methods give the pieces from left to right, so
/// that slot 0 holds the leftmost piece; they differ in where the cutting
/// starts when there are more separators than `N - 1`. Where fewer than `N`
/// pieces can be cut there is no result. With `N == 0` the result is the
/// empty array, whatever `self` and `c` are.
pub trait SliceExt<C> {
    /// Whether `c` can be used on `self`: a test has to take every item.
    spec fn splits(&self, c: C) -> bool;

    /// Whether `pieces` is what cutting `self` from the left into exactly
    /// `n` pieces gives.
    spec fn is_splitn(&self, c: C, n: usize, pieces: Option<Seq<&Self>>) -> bool;

    /// Whether `pieces` is what cutting `self` from the right into exactly
    /// `n` pieces gives.
    spec fn is_rsplitn(&self, c: C, n: usize, pieces: Option<Seq<&Self>>) -> bool;

    /// Cuts `self` at its first `N - 1` separators.
    fn splitn_exact<const N: usize>(&self, c: C) -> (r: Option<[&Self; N]>)
        requires
            self.splits(c),
        ensures
            N == 0 ==> r is Some,
            self.is_splitn(c, N, slots_of(r)),
    ;

    /// Cuts `self` at its last `N - 1` separators.
    fn rsplitn_exact<const N: usize>(&self, c: C) -> (r: Option<[&Self; N]>)
        requires
            self.splits(c),
        ensures
            N == 0 ==> r is Some,
            self.is_rsplitn(c, N, slots_of(r)),
    ;
}

/// Slices, cut at the items equal to `x`.
impl<T: PartialEq> SliceExt<T> for [T] {
    open spec fn splits(&self, x: T) -> bool {
        true
    }

    open spec fn is_splitn(&self, x: T, n: usize, pieces: Option<Seq<&Self>>) -> bool {
        T::obeys_eq_spec() ==> piece_views(pieces) == placed(
            splitn(self@, n as nat, equal_to(x)),
            n as nat,
            false,
        )
    }

    open spec fn is_rsplitn(&self, x: T, n: usize, pieces: Option<Seq<&Self>>) -> bool {
        T::obeys_eq_spec() ==> piece_views(pieces) == placed(
            rsplitn(self@, n as nat, equal_to(x)),
            n as nat,
            true,
        )
    }

    fn splitn_exact<const N: usize>(&self, x: T) -> (r: Option<[&Self; N]>) {
        let is_sep = |item: &T| -> (b: bool)
            ensures
                T::obeys_eq_spec() ==> b == item.eq_spec(&x),
            { *item == x };
        let ranges = cuts_front(self, N, is_sep);
        let pieces = slices_at(self, &ranges);
        proof {
            assert(T::obeys_eq_spec() ==> follows(is_sep, equal_to(x)));
            lemma_placed_map(pieces@, |p: &[T]| p@, N as nat, false);
        }
        array_init_from_iter(pieces.into_iter())
    }

    fn rsplitn_exact<const N: usize>(&self, x: T) -> (r: Option<[&Self; N]>) {
        let is_sep = |item: &T| -> (b: bool)
            ensures
                T::obeys_eq_spec() ==> b == item.eq_spec(&x),
            { *item == x };
        let ranges = cuts_back(self, N, is_sep);
        let pieces = slices_at(self, &ranges);
        proof {
            assert(T::obeys_eq_spec() ==> follows(is_sep, equal_to(x)));
            lemma_placed_map(pieces@, |p: &[T]| p@, N as nat, true);
        }
        array_init_from_rev_iter(pieces.into_iter())
    }
}

/// Strings, cut at the character `c`.
impl SliceExt<char> for str {
    open spec fn splits(&self, c: char) -> bool {
        true
    }

    open spec fn is_splitn(&self, c: char, n: usize, pieces: Option<Seq<&Self>>) -> bool {
        piece_texts(pieces) == placed(splitn(self@, n as nat, is_char(c)), n as nat, false)
    }

    open spec fn is_rsplitn(&self, c: char, n: usize, pieces: Option<Seq<&Self>>) -> bool {
        piece_texts(pieces) == placed(rsplitn(self@, n as nat, is_char(c)), n as nat, true)
    }

    fn splitn_exact<const N: usize>(&self, c: char) -> (r: Option<[&Self; N]>) {
        let chars = chars_of(self);
        let is_sep = |item: &char| -> (b: bool)
            ensures
                b == (*item == c),
            { *item == c };
        let ranges = cuts_front(chars.as_slice(), N, is_sep);
        let pieces = texts_at(self, &ranges);
        proof {
            assert(follows(is_sep, is_char(c)));
            lemma_placed_map(pieces@, |p: &str| p@, N as nat, false);
        }
        array_init_from_iter(pieces.into_iter())
    }

    fn rsplitn_exact<const N: usize>(&self, c: char) -> (r: Option<[&Self; N]>) {
        let chars = chars_of(self);
        let is_sep = |item: &char| -> (b: bool)
            ensures
                b == (*item == c),
            { *item == c };
        let ranges = cuts_back(chars.as_slice(), N, is_sep);
        let pieces = texts_at(self, &ranges);
        proof {
            assert(follows(is_sep, is_char(c)));
            lemma_placed_map(pieces@, |p: &str| p@, N as nat, true);
        }
        array_init_from_rev_iter(pieces.into_iter())
    }
}

/// Bytes, cut at the bytes that the test `f` answers yes to: see
/// [`splitn_exact_by`] and [`rsplitn_exact_by`], which these methods call.
impl<F: FnMut(&u8) -> bool> SliceExt<F> for [u8] {
    open spec fn splits(&self, f: F) -> bool {
        takes_all(f, self@)
    }

    open spec fn is_splitn(&self, f: F, n: usize, pieces: Option<Seq<&Self>>) -> bool {
        forall|sep: spec_fn(u8) -> bool| #[trigger]
            follows(f, sep) ==> piece_views(pieces) == placed(
                splitn(self@, n as nat, sep),
                n as nat,
                false,
            )
    }

    open spec fn is_rsplitn(&self, f: F, n: usize, pieces: Option<Seq<&Self>>) -> bool {
        forall|sep: spec_fn(u8) -> bool| #[trigger]
            follows(f, sep) ==> piece_views(pieces) == placed(
                rsplitn(self@, n as nat, sep),
                n as nat,
                true,
            )
    }

    fn splitn_exact<const N: usize>(&self, f: F) -> (r: Option<[&Self; N]>) {
        splitn_exact_by(self, f)
    }

    fn rsplitn_exact<const N: usize>(&self, f: F) -> (r: Option<[&Self; N]>) {
        rsplitn_exact_by(self, f)
    }
}

/// Bytes, cut at the occurrences of the byte string `b`.
impl SliceExt<&[u8]> for [u8] {
    open spec fn splits(&self, b: &[u8]) -> bool {
        true
    }

    open spec fn is_splitn(&self, b: &[u8], n: usize, pieces: Option<Seq<&Self>>) -> bool {
        piece_views(pieces) == placed(bstr_splitn_str(self@, n, b@), n as nat, false)
    }

    open spec fn is_rsplitn(&self, b: &[u8], n: usize, pieces: Option<Seq<&Self>>) -> bool {
        piece_views(pieces) == placed(bstr_rsplitn_str(self@, n, b@), n as nat, true)
    }

    fn splitn_exact<const N: usize>(&self, b: &[u8]) -> (r: Option<[&Self; N]>) {
        let pieces = splitn_str(self, N, b);
        proof {
            lemma_placed_map(pieces@, |p: &[u8]| p@, N as nat, false);
        }
        array_init_from_iter(pieces.into_iter())
    }

    fn rsplitn_exact<const N: usize>(&self, b: &[u8]) -> (r: Option<[&Self; N]>) {
        let pieces = rsplitn_str(self, N, b);
        proof {
            lemma_placed_map(pieces@, |p: &[u8]| p@, N as nat, true);
        }
        array_init_from_rev_iter(pieces.into_iter())
    }
}

} // verus!
