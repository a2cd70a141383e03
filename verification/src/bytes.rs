//! Byte strings: what this library has from the `bstr` crate.

use vstd::prelude::*;

verus! {

/// The pieces that `bstr` cuts `haystack` into at the occurrences of
/// `splitter`, from the left, when asked for at most `limit` pieces.
pub uninterp spec fn bstr_splitn_str(haystack: Seq<u8>, limit: usize, splitter: Seq<u8>) -> Seq<
    Seq<u8>,
>;

/// The pieces that `bstr` cuts `haystack` into at the occurrences of
/// `splitter`, from the right, when asked for at most `limit` pieces: the
/// rightmost piece comes first.
pub uninterp spec fn bstr_rsplitn_str(haystack: Seq<u8>, limit: usize, splitter: Seq<u8>) -> Seq<
    Seq<u8>,
>;

/// How `bstr` shows `bytes` to a reader: the text of its `Debug` form.
pub uninterp spec fn bstr_debug(bytes: Seq<u8>) -> Seq<char>;

/// What each of `pieces` holds.
pub open spec fn views<T>(pieces: Seq<&[T]>) -> Seq<Seq<T>> {
    pieces.map_values(|p: &[T]| p@)
}

/// The index of the first line feed in `s`, or the length of `s` if it has
/// none.
pub open spec fn first_newline(s: Seq<u8>) -> nat
    decreases s.len(),
{
    if s.len() == 0 || s[0] == 0x0a {
        0
    } else {
        first_newline(s.drop_first()) + 1
    }
}

/// The lines of `s`, each with the line feed that ends it; the last line is
/// the one that may lack it. No line is empty, and together they are `s`.
pub open spec fn lines_with_terminator(s: Seq<u8>) -> Seq<Seq<u8>>
    decreases s.len(),
{
    if s.len() == 0 {
        Seq::empty()
    } else {
        let end = first_newline(s) as int;
        if end >= s.len() {
            seq![s]
        } else {
            seq![s.take(end + 1)] + lines_with_terminator(s.skip(end + 1))
        }
    }
}

/// The lines of `s` leave nothing out and add nothing: one after the other
/// they are `s`. None of them is empty, and a line feed is always the last
/// byte of its line.
pub proof fn law_lines_cover(s: Seq<u8>)
    ensures
        lines_with_terminator(s).flatten() == s,
        forall|k: int|
            0 <= k < lines_with_terminator(s).len() ==> {
                let line = #[trigger] lines_with_terminator(s)[k];
                &&& line.len() > 0
                &&& forall|j: int| 0 <= j < line.len() - 1 ==> line[j] != 0x0a
            },
    decreases s.len(),
{
    let all = lines_with_terminator(s);
    if s.len() == 0 {
        assert(all.flatten() =~= s);
    } else {
        lemma_first_newline_found(s);
        let end = first_newline(s) as int;
        if end >= s.len() {
            seq![s].lemma_flatten_one_element();
        } else {
            let head = s.take(end + 1);
            let rest = lines_with_terminator(s.skip(end + 1));
            law_lines_cover(s.skip(end + 1));
            seq![head].lemma_flatten_one_element();
            vstd::seq_lib::lemma_flatten_concat(seq![head], rest);
            assert(head + s.skip(end + 1) =~= s);
            assert forall|k: int| 0 <= k < all.len() implies {
                let line = #[trigger] all[k];
                &&& line.len() > 0
                &&& forall|j: int| 0 <= j < line.len() - 1 ==> line[j] != 0x0a
            } by {
                if k > 0 {
                    assert(all[k] == rest[k - 1]);
                }
            }
        }
    }
}

/// What stands at the first line feed, and before it.
proof fn lemma_first_newline_found(s: Seq<u8>)
    ensures
        first_newline(s) <= s.len(),
        first_newline(s) < s.len() ==> s[first_newline(s) as int] == 0x0a,
        forall|j: int| 0 <= j < first_newline(s) ==> s[j] != 0x0a,
    decreases s.len(),
{
    if s.len() > 0 && s[0] != 0x0a {
        let rest = s.drop_first();
        lemma_first_newline_found(rest);
        assert forall|j: int| 0 <= j < first_newline(s) implies s[j] != 0x0a by {
            if j > 0 {
                assert(rest[j - 1] == s[j]);
            }
        }
    }
}

/// Cuts `haystack` at the occurrences of `splitter`, from the left, into at
/// most `limit` pieces.
///
/// Trusted: this is `bstr::ByteSlice::splitn_str`, with what it yields
/// gathered in a vector. The contract only gives that answer a name.
#[verifier::external_body]
pub(crate) fn splitn_str<'h>(haystack: &'h [u8], limit: usize, splitter: &[u8]) -> (pieces: Vec<
    &'h [u8],
>)
    ensures
        views(pieces@) == bstr_splitn_str(haystack@, limit, splitter@),
{
    bstr::ByteSlice::splitn_str(haystack, limit, splitter).collect()
}

/// Cuts `haystack` at the occurrences of `splitter`, from the right, into at
/// most `limit` pieces; the rightmost piece comes first.
///
/// Trusted: this is `bstr::ByteSlice::rsplitn_str`, with what it yields
/// gathered in a vector. The contract only gives that answer a name.
#[verifier::external_body]
pub(crate) fn rsplitn_str<'h>(haystack: &'h [u8], limit: usize, splitter: &[u8]) -> (pieces: Vec<
    &'h [u8],
>)
    ensures
        views(pieces@) == bstr_rsplitn_str(haystack@, limit, splitter@),
{
    bstr::ByteSlice::rsplitn_str(haystack, limit, splitter).collect()
}

/// The lines of `bytes`, each with its line feed.
///
/// Trusted: this is `bstr::ByteSlice::lines_with_terminator`, with what it
/// yields gathered in a vector. The contract says what `bstr` documents:
/// a line ends after the first line feed, the last line may lack one, no
/// line is empty and nothing is left out.
#[verifier::external_body]
pub(crate) fn lines<'a>(bytes: &'a [u8]) -> (found: Vec<&'a [u8]>)
    ensures
        views(found@) == lines_with_terminator(bytes@),
{
    bstr::ByteSlice::lines_with_terminator(bytes).collect()
}

/// Shows `bytes` as `bstr` shows a byte string.
///
/// Trusted: this is the `Debug` form of `bstr::BStr`, written to a string.
/// The contract only gives that text a name.
#[verifier::external_body]
fn debug_text(bytes: &[u8]) -> (text: String)
    ensures
        text@ == bstr_debug(bytes@),
{
    format!("{:?}", bstr::ByteSlice::as_bstr(bytes))
}

/// Takes `prefix` off the front of `bytes`: what is left of `bytes`, if
/// they start with `prefix`.
pub fn strip_prefix<'a>(bytes: &'a [u8], prefix: &[u8]) -> (rest: Option<&'a [u8]>)
    ensures
        rest is Some <==> prefix@.is_prefix_of(bytes@),
        rest matches Some(r) ==> r@ == bytes@.skip(prefix@.len() as int),
{
    if prefix.len() > bytes.len() {
        return None;
    }
    let mut i: usize = 0;
    while i < prefix.len()
        invariant
            i <= prefix@.len() <= bytes@.len(),
            forall|j: int| 0 <= j < i ==> prefix@[j] == bytes@[j],
        decreases prefix@.len() - i,
    {
        if prefix[i] != bytes[i] {
            assert(prefix@[i as int] != bytes@[i as int]);
            return None;
        }
        i += 1;
    }
    assert(prefix@ =~= bytes@.subrange(0, prefix@.len() as int));
    let rest = vstd::slice::slice_subrange(bytes, prefix.len(), bytes.len());
    assert(rest@ =~= bytes@.skip(prefix@.len() as int));
    Some(rest)
}

/// The text that shows `s` to a reader, as `bstr` writes a byte string for
/// debugging: between double quotes, with escapes where a byte is not plain
/// text. It is what a formatter is handed for `s`.
pub fn bstr_fmt(s: &[u8]) -> (text: String)
    ensures
        text@ == bstr_debug(s@),
{
    debug_text(s)
}

} // verus!
