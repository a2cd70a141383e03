//! What cutting a sequence at its separators gives, from either end.

use crate::exact::placed;
use vstd::prelude::*;

verus! {

/// The index of the first item of `s` that `sep` holds of, or the length of
/// `s` if there is none.
pub open spec fn first_match<T>(s: Seq<T>, sep: spec_fn(T) -> bool) -> nat
    decreases s.len(),
{
    if s.len() == 0 || sep(s[0]) {
        0
    } else {
        first_match(s.drop_first(), sep) + 1
    }
}

/// The number of items of `s` that stand after the last one that `sep`
/// holds of, or the length of `s` if there is none.
pub open spec fn tail_len<T>(s: Seq<T>, sep: spec_fn(T) -> bool) -> nat
    decreases s.len(),
{
    if s.len() == 0 || sep(s.last()) {
        0
    } else {
        tail_len(s.drop_last(), sep) + 1
    }
}

/// The pieces of `s` between its separators, from the left, at most `n` of
/// them: once `n - 1` pieces are cut, the rest of `s` is the last piece,
/// separators and all. A separator belongs to no piece.
pub open spec fn splitn<T>(s: Seq<T>, n: nat, sep: spec_fn(T) -> bool) -> Seq<Seq<T>>
    decreases n,
{
    if n == 0 {
        Seq::empty()
    } else {
        let at = first_match(s, sep) as int;
        if n == 1 || at >= s.len() {
            seq![s]
        } else {
            seq![s.take(at)] + splitn(s.skip(at + 1), (n - 1) as nat, sep)
        }
    }
}

/// The pieces of `s` between its separators, from the right, at most `n` of
/// them, the rightmost first: once `n - 1` pieces are cut, what is left of
/// `s` is the last piece, separators and all.
pub open spec fn rsplitn<T>(s: Seq<T>, n: nat, sep: spec_fn(T) -> bool) -> Seq<Seq<T>>
    decreases n,
{
    if n == 0 {
        Seq::empty()
    } else {
        let tail = tail_len(s, sep) as int;
        if n == 1 || tail >= s.len() {
            seq![s]
        } else {
            seq![s.skip(s.len() - tail)] + rsplitn(s.take(s.len() - tail - 1), (n - 1) as nat, sep)
        }
    }
}

/// The first separator is where one stands with none before it.
pub(crate) proof fn lemma_first_match<T>(s: Seq<T>, sep: spec_fn(T) -> bool, k: int)
    requires
        0 <= k <= s.len(),
        forall|j: int| 0 <= j < k ==> !sep(#[trigger] s[j]),
        k == s.len() || sep(s[k]),
    ensures
        first_match(s, sep) == k,
    decreases k,
{
    if k > 0 {
        assert(!sep(s[0]));
        let rest = s.drop_first();
        assert forall|j: int| 0 <= j < k - 1 implies !sep(#[trigger] rest[j]) by {
            assert(rest[j] == s[j + 1]);
        }
        lemma_first_match(rest, sep, k - 1);
    }
}

/// The last separator is where one stands with none after it.
pub(crate) proof fn lemma_tail_len<T>(s: Seq<T>, sep: spec_fn(T) -> bool, k: int)
    requires
        0 <= k <= s.len(),
        forall|j: int| s.len() - k <= j < s.len() ==> !sep(#[trigger] s[j]),
        k == s.len() || sep(s[s.len() - k - 1]),
    ensures
        tail_len(s, sep) == k,
    decreases k,
{
    if k > 0 {
        assert(!sep(s[s.len() - 1]));
        let rest = s.drop_last();
        assert forall|j: int| rest.len() - (k - 1) <= j < rest.len() implies !sep(
            #[trigger] rest[j],
        ) by {
            assert(rest[j] == s[j]);
        }
        lemma_tail_len(rest, sep, k - 1);
    }
}

/// Whether `pieces`, taken from left to right with one separator between
/// each two neighbours, make up `s`.
pub open spec fn glued<T>(pieces: Seq<Seq<T>>, s: Seq<T>, sep: spec_fn(T) -> bool) -> bool
    decreases pieces.len(),
{
    if pieces.len() == 0 {
        false
    } else if pieces.len() == 1 {
        pieces[0] == s
    } else {
        let k = pieces[0].len() as int;
        &&& k < s.len()
        &&& s.take(k) == pieces[0]
        &&& sep(s[k])
        &&& glued(pieces.drop_first(), s.skip(k + 1), sep)
    }
}

/// Whether `sep` holds of no item of `piece`.
pub open spec fn clean<T>(piece: Seq<T>, sep: spec_fn(T) -> bool) -> bool {
    forall|j: int| 0 <= j < piece.len() ==> !sep(#[trigger] piece[j])
}

/// What stands at the first separator, and before it.
proof fn lemma_first_match_found<T>(s: Seq<T>, sep: spec_fn(T) -> bool)
    ensures
        first_match(s, sep) <= s.len(),
        first_match(s, sep) < s.len() ==> sep(s[first_match(s, sep) as int]),
        clean(s.take(first_match(s, sep) as int), sep),
    decreases s.len(),
{
    if s.len() > 0 && !sep(s[0]) {
        let rest = s.drop_first();
        lemma_first_match_found(rest, sep);
        let at = first_match(rest, sep) as int;
        assert(at < rest.len() ==> rest[at] == s[at + 1]);
        assert forall|j: int| 0 <= j < at + 1 implies !sep(#[trigger] s.take(at + 1)[j]) by {
            if j > 0 {
                assert(rest.take(at)[j - 1] == s[j]);
            }
        }
    }
}

/// What stands at the last separator, and after it.
proof fn lemma_tail_len_found<T>(s: Seq<T>, sep: spec_fn(T) -> bool)
    ensures
        tail_len(s, sep) <= s.len(),
        tail_len(s, sep) < s.len() ==> sep(s[s.len() - tail_len(s, sep) - 1]),
        clean(s.skip(s.len() - tail_len(s, sep)), sep),
    decreases s.len(),
{
    if s.len() > 0 && !sep(s.last()) {
        let rest = s.drop_last();
        lemma_tail_len_found(rest, sep);
        let tail = tail_len(rest, sep) as int;
        assert(tail < rest.len() ==> rest[rest.len() - tail - 1] == s[s.len() - (tail + 1) - 1]);
        let from = s.len() - (tail + 1);
        assert forall|j: int| 0 <= j < tail + 1 implies !sep(#[trigger] s.skip(from)[j]) by {
            if j < tail {
                assert(rest.skip(rest.len() - tail)[j] == s[from + j]);
            }
        }
    }
}

/// Pieces that make up `s` still do so with a separator and one more piece
/// at the right end.
proof fn lemma_glued_push<T>(
    pieces: Seq<Seq<T>>,
    s: Seq<T>,
    sep: spec_fn(T) -> bool,
    mark: T,
    piece: Seq<T>,
)
    requires
        glued(pieces, s, sep),
        sep(mark),
    ensures
        glued(pieces.push(piece), s + seq![mark] + piece, sep),
    decreases pieces.len(),
{
    let whole = s + seq![mark] + piece;
    let more = pieces.push(piece);
    if pieces.len() == 1 {
        assert(pieces[0] == s);
        assert(more[0] == s);
        assert(whole.take(s.len() as int) =~= s);
        assert(whole[s.len() as int] == mark);
        assert(whole.skip(s.len() as int + 1) =~= piece);
        assert(more.drop_first() =~= seq![piece]);
        assert(glued(seq![piece], piece, sep));
    } else {
        let k = pieces[0].len() as int;
        lemma_glued_push(pieces.drop_first(), s.skip(k + 1), sep, mark, piece);
        assert(more[0] == pieces[0]);
        assert(whole.take(k) =~= s.take(k));
        assert(whole[k] == s[k]);
        assert(whole.skip(k + 1) =~= s.skip(k + 1) + seq![mark] + piece);
        assert(more.drop_first() =~= pieces.drop_first().push(piece));
    }
}

/// Cutting from the left loses nothing and keeps the order. For `n` of at
/// least 1 there is at least one piece and there are at most `n`; the
/// pieces, from left to right with one separator between each two
/// neighbours, make up `s`; and no piece but the last holds a separator.
pub proof fn law_splitn_tiles<T>(s: Seq<T>, n: nat, sep: spec_fn(T) -> bool)
    requires
        n >= 1,
    ensures
        1 <= splitn(s, n, sep).len() <= n,
        glued(splitn(s, n, sep), s, sep),
        forall|k: int|
            0 <= k < splitn(s, n, sep).len() - 1 ==> clean(#[trigger] splitn(s, n, sep)[k], sep),
        splitn(s, n, sep).len() < n ==> clean(splitn(s, n, sep).last(), sep),
    decreases n,
{
    lemma_first_match_found(s, sep);
    let at = first_match(s, sep) as int;
    if n == 1 || at >= s.len() {
        assert(s.take(s.len() as int) =~= s);
    } else {
        let rest = splitn(s.skip(at + 1), (n - 1) as nat, sep);
        let all = splitn(s, n, sep);
        law_splitn_tiles(s.skip(at + 1), (n - 1) as nat, sep);
        assert(all =~= seq![s.take(at)] + rest);
        assert(all.drop_first() =~= rest);
        assert forall|k: int| 0 <= k < all.len() - 1 implies clean(#[trigger] all[k], sep) by {
            if k > 0 {
                assert(all[k] == rest[k - 1]);
            }
        }
        assert(all.last() == rest.last());
    }
}

/// Cutting from the right loses nothing and, once the pieces are put from
/// left to right, keeps the order. For `n` of at least 1 there is at least
/// one piece and there are at most `n`; the pieces, the last one cut taken
/// first, with one separator between each two neighbours, make up `s`; and
/// no piece but the last one cut holds a separator.
pub proof fn law_rsplitn_tiles<T>(s: Seq<T>, n: nat, sep: spec_fn(T) -> bool)
    requires
        n >= 1,
    ensures
        1 <= rsplitn(s, n, sep).len() <= n,
        glued(rsplitn(s, n, sep).reverse(), s, sep),
        forall|k: int|
            0 <= k < rsplitn(s, n, sep).len() - 1 ==> clean(
                #[trigger] rsplitn(s, n, sep)[k],
                sep,
            ),
        rsplitn(s, n, sep).len() < n ==> clean(rsplitn(s, n, sep).last(), sep),
    decreases n,
{
    lemma_tail_len_found(s, sep);
    let tail = tail_len(s, sep) as int;
    let all = rsplitn(s, n, sep);
    if n == 1 || tail >= s.len() {
        assert(all.reverse() =~= seq![s]);
        assert(s.skip(0) =~= s);
    } else {
        let at = s.len() - tail - 1;
        let rest = rsplitn(s.take(at), (n - 1) as nat, sep);
        law_rsplitn_tiles(s.take(at), (n - 1) as nat, sep);
        assert(all =~= seq![s.skip(at + 1)] + rest);
        assert(all.reverse() =~= rest.reverse().push(s.skip(at + 1)));
        lemma_glued_push(rest.reverse(), s.take(at), sep, s[at], s.skip(at + 1));
        assert(s.take(at) + seq![s[at]] + s.skip(at + 1) =~= s);
        assert forall|k: int| 0 <= k < all.len() - 1 implies clean(#[trigger] all[k], sep) by {
            if k > 0 {
                assert(all[k] == rest[k - 1]);
            }
        }
        assert(all.last() == rest.last());
    }
}

/// The number of items of `s` that `sep` holds of.
pub open spec fn count<T>(s: Seq<T>, sep: spec_fn(T) -> bool) -> nat
    decreases s.len(),
{
    if s.len() == 0 {
        0
    } else if sep(s.last()) {
        count(s.drop_last(), sep) + 1
    } else {
        count(s.drop_last(), sep)
    }
}

/// The separators of two sequences put together are those of the one and
/// those of the other.
proof fn lemma_count_add<T>(a: Seq<T>, b: Seq<T>, sep: spec_fn(T) -> bool)
    ensures
        count(a + b, sep) == count(a, sep) + count(b, sep),
    decreases b.len(),
{
    if b.len() == 0 {
        assert(a + b =~= a);
    } else {
        lemma_count_add(a, b.drop_last(), sep);
        assert((a + b).drop_last() =~= a + b.drop_last());
        assert((a + b).last() == b.last());
    }
}

/// A sequence has no separator exactly when `sep` holds of none of its items.
proof fn lemma_count_clean<T>(s: Seq<T>, sep: spec_fn(T) -> bool)
    ensures
        count(s, sep) == 0 <==> clean(s, sep),
    decreases s.len(),
{
    if s.len() > 0 {
        let rest = s.drop_last();
        lemma_count_clean(rest, sep);
        if clean(s, sep) {
            assert(!sep(s[s.len() - 1]));
            assert forall|j: int| 0 <= j < rest.len() implies !sep(#[trigger] rest[j]) by {
                assert(rest[j] == s[j]);
            }
        }
        if count(s, sep) == 0 {
            assert forall|j: int| 0 <= j < s.len() implies !sep(#[trigger] s[j]) by {
                if j < rest.len() {
                    assert(rest[j] == s[j]);
                }
            }
        }
    }
}

/// The separators of `s`, where only the leftmost piece may hold any: those
/// between the pieces and those in that piece.
proof fn lemma_glued_count<T>(pieces: Seq<Seq<T>>, s: Seq<T>, sep: spec_fn(T) -> bool)
    requires
        glued(pieces, s, sep),
        forall|k: int| 1 <= k < pieces.len() ==> clean(#[trigger] pieces[k], sep),
    ensures
        count(s, sep) == pieces.len() - 1 + count(pieces[0], sep),
    decreases pieces.len(),
{
    if pieces.len() > 1 {
        let k = pieces[0].len() as int;
        let rest = pieces.drop_first();
        assert forall|j: int| 1 <= j < rest.len() implies clean(#[trigger] rest[j], sep) by {
            assert(rest[j] == pieces[j + 1]);
        }
        lemma_glued_count(rest, s.skip(k + 1), sep);
        assert(rest[0] == pieces[1]);
        lemma_count_clean(rest[0], sep);
        assert(s =~= s.take(k) + seq![s[k]] + s.skip(k + 1));
        lemma_count_add(s.take(k) + seq![s[k]], s.skip(k + 1), sep);
        lemma_count_add(s.take(k), seq![s[k]], sep);
        let mark = seq![s[k]];
        assert(mark.last() == s[k]);
        assert(mark.drop_last() =~= Seq::<T>::empty());
        assert(count(mark.drop_last(), sep) == 0);
        assert(count(mark, sep) == 1);
    }
}

/// There is one way only to cut `s` into pieces that hold no separator.
proof fn lemma_glued_unique<T>(
    left: Seq<Seq<T>>,
    right: Seq<Seq<T>>,
    s: Seq<T>,
    sep: spec_fn(T) -> bool,
)
    requires
        glued(left, s, sep),
        glued(right, s, sep),
        forall|k: int| 0 <= k < left.len() ==> clean(#[trigger] left[k], sep),
        forall|k: int| 0 <= k < right.len() ==> clean(#[trigger] right[k], sep),
    ensures
        left == right,
    decreases left.len(),
{
    let a = left[0];
    let b = right[0];
    assert(clean(a, sep) && clean(b, sep));
    if left.len() == 1 && right.len() == 1 {
        assert(left =~= right);
    } else if left.len() == 1 {
        assert(a[b.len() as int] == s[b.len() as int]);
    } else if right.len() == 1 {
        assert(b[a.len() as int] == s[a.len() as int]);
    } else {
        if a.len() < b.len() {
            assert(b[a.len() as int] == s[a.len() as int]);
        }
        if b.len() < a.len() {
            assert(a[b.len() as int] == s[b.len() as int]);
        }
        assert(a =~= b);
        let k = a.len() as int;
        let l = left.drop_first();
        let r = right.drop_first();
        assert forall|j: int| 0 <= j < l.len() implies clean(#[trigger] l[j], sep) by {
            assert(l[j] == left[j + 1]);
        }
        assert forall|j: int| 0 <= j < r.len() implies clean(#[trigger] r[j], sep) by {
            assert(r[j] == right[j + 1]);
        }
        lemma_glued_unique(l, r, s.skip(k + 1), sep);
        assert(left =~= seq![a] + l);
        assert(right =~= seq![b] + r);
    }
}

/// Where a sequence has no more separators than the cuts use up, it does
/// not matter from which end the cutting starts: once the pieces cut from
/// the right are put from left to right they are the pieces cut from the
/// left.
pub proof fn law_direction_is_immaterial<T>(s: Seq<T>, n: nat, sep: spec_fn(T) -> bool)
    requires
        n >= 1,
        clean(splitn(s, n, sep).last(), sep),
    ensures
        rsplitn(s, n, sep).reverse() == splitn(s, n, sep),
{
    let left = splitn(s, n, sep);
    let back = rsplitn(s, n, sep);
    let right = back.reverse();
    law_splitn_tiles(s, n, sep);
    law_rsplitn_tiles(s, n, sep);
    assert forall|k: int| 0 <= k < left.len() implies clean(#[trigger] left[k], sep) by {
        if k == left.len() - 1 {
            assert(left[k] == left.last());
        }
    }
    assert forall|k: int| 1 <= k < right.len() implies clean(#[trigger] right[k], sep) by {
        assert(right[k] == back[back.len() - 1 - k]);
    }
    assert(right[0] == back.last());
    lemma_glued_count(left, s, sep);
    lemma_glued_count(right, s, sep);
    lemma_count_clean(left[0], sep);
    lemma_count_clean(right[0], sep);
    assert(clean(right[0], sep));
    lemma_glued_unique(left, right, s, sep);
}

/// What an exact cut gives, from either end: where there is a result for
/// `n` of at least 1, it holds `n` pieces which, from slot 0 on and with one
/// separator between each two neighbours, make up `s`.
pub proof fn law_exact_pieces_tile<T>(s: Seq<T>, n: nat, sep: spec_fn(T) -> bool)
    requires
        n >= 1,
    ensures
        placed(splitn(s, n, sep), n, false) matches Some(pieces) ==> pieces.len() == n && glued(
            pieces,
            s,
            sep,
        ),
        placed(rsplitn(s, n, sep), n, true) matches Some(pieces) ==> pieces.len() == n && glued(
            pieces,
            s,
            sep,
        ),
        placed(splitn(s, n, sep), n, false) is Some <==> count(s, sep) >= n - 1,
        placed(rsplitn(s, n, sep), n, true) is Some <==> count(s, sep) >= n - 1,
{
    let left = splitn(s, n, sep);
    let back = rsplitn(s, n, sep);
    let right = back.reverse();
    law_splitn_tiles(s, n, sep);
    law_rsplitn_tiles(s, n, sep);
    if left.len() == n {
        assert(left.take(n as int) =~= left);
    }
    if back.len() == n {
        assert(back.take(n as int) =~= back);
    }
    assert forall|k: int| 1 <= k < right.len() implies clean(#[trigger] right[k], sep) by {
        assert(right[k] == back[back.len() - 1 - k]);
    }
    assert(right[0] == back.last());
    lemma_glued_count(right, s, sep);
    lemma_count_clean(right[0], sep);
    lemma_pieces_count(left, s, sep);
    lemma_count_clean(left.last(), sep);
}

/// The separators of `s`, where only the rightmost piece may hold any: those
/// between the pieces and those in that piece.
proof fn lemma_pieces_count<T>(pieces: Seq<Seq<T>>, s: Seq<T>, sep: spec_fn(T) -> bool)
    requires
        glued(pieces, s, sep),
        forall|k: int| 0 <= k < pieces.len() - 1 ==> clean(#[trigger] pieces[k], sep),
    ensures
        count(s, sep) == pieces.len() - 1 + count(pieces.last(), sep),
    decreases pieces.len(),
{
    if pieces.len() > 1 {
        let k = pieces[0].len() as int;
        let rest = pieces.drop_first();
        assert forall|j: int| 0 <= j < rest.len() - 1 implies clean(#[trigger] rest[j], sep) by {
            assert(rest[j] == pieces[j + 1]);
        }
        lemma_pieces_count(rest, s.skip(k + 1), sep);
        assert(rest.last() == pieces.last());
        assert(clean(pieces[0], sep));
        lemma_count_clean(pieces[0], sep);
        assert(s =~= s.take(k) + seq![s[k]] + s.skip(k + 1));
        lemma_count_add(s.take(k) + seq![s[k]], s.skip(k + 1), sep);
        lemma_count_add(s.take(k), seq![s[k]], sep);
        let mark = seq![s[k]];
        assert(mark.last() == s[k]);
        assert(mark.drop_last() =~= Seq::<T>::empty());
        assert(count(mark.drop_last(), sep) == 0);
        assert(count(mark, sep) == 1);
    }
}

} // verus!
