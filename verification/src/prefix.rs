//! Putting a prefix in front of every line of output.

use crate::bytes::{lines, lines_with_terminator, views};
use vstd::prelude::*;

verus! {

/// `lines`, each with `prefix` before it: the prefix, the first line, the
/// prefix, the second line, and so on.
pub open spec fn prefixed(prefix: Seq<u8>, lines: Seq<Seq<u8>>) -> Seq<Seq<u8>> {
    Seq::new(
        2 * lines.len(),
        |i: int|
            if i % 2 == 0 {
                prefix
            } else {
                lines[i / 2]
            },
    )
}

/// Says what a line-buffered destination is to be handed so that every line
/// written starts with a fixed prefix.
pub struct PrefixWriter {
    prefix: Vec<u8>,
}

impl View for PrefixWriter {
    type V = Seq<u8>;

    /// The prefix.
    closed spec fn view(&self) -> Seq<u8> {
        self.prefix@
    }
}

impl PrefixWriter {
    /// A writer that puts a copy of `prefix` before every line.
    pub fn new(prefix: &[u8]) -> (w: PrefixWriter)
        ensures
            w@ == prefix@,
    {
        PrefixWriter { prefix: vstd::slice::slice_to_vec(prefix) }
    }

    /// The prefix.
    pub fn prefix(&self) -> (p: &[u8])
        ensures
            p@ == self@,
    {
        self.prefix.as_slice()
    }

    /// What is to be handed to the destination for `buf`, in order.
    ///
    /// `buf` is taken line by line, a line ending with its line feed, the
    /// last one perhaps without. For each line there are two items: the
    /// prefix, of which the destination has to take all, and then the line,
    /// of which it takes what it can; what it took of the lines is what was
    /// written of `buf`. An empty `buf` has no lines, and nothing is handed
    /// over for it.
    pub fn write<'a>(&'a self, buf: &'a [u8]) -> (chunks: Vec<&'a [u8]>)
        ensures
            views(chunks@) == prefixed(self@, lines_with_terminator(buf@)),
    {
        let found = lines(buf);
        let mut chunks: Vec<&'a [u8]> = Vec::new();
        let mut k: usize = 0;
        while k < found.len()
            invariant
                k <= found@.len(),
                views(found@) == lines_with_terminator(buf@),
                views(chunks@) == prefixed(self@, views(found@).take(k as int)),
            decreases found@.len() - k,
        {
            let ghost done = views(chunks@);
            let line = found[k];
            chunks.push(self.prefix.as_slice());
            chunks.push(line);
            assert(views(chunks@) =~= done.push(self@).push(line@));
            assert(views(found@)[k as int] == line@);
            assert(done.push(self@).push(line@) =~= prefixed(
                self@,
                views(found@).take(k + 1),
            ));
            k += 1;
        }
        assert(views(found@).take(k as int) =~= views(found@));
        chunks
    }
}

} // verus!
