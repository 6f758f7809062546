use vstd::prelude::*;

use crate::bp::{rest_of, subslice_to_vec, ByteProvider};
use crate::names::{endstream_bytes, endstream_key};

verus! {

/// Whether `endstream` starts at `i` in `s`.
pub open spec fn endstream_at(s: Seq<u8>, i: int) -> bool {
    0 <= i && i + 9 <= s.len() && s.subrange(i, i + 9) == endstream_bytes()
}

/// The first position at or after `i` where `endstream` starts, or the length of `s`.
pub open spec fn first_endstream(s: Seq<u8>, i: int) -> int
    decreases s.len() - i,
{
    if i < 0 || i + 9 > s.len() {
        s.len() as int
    } else if endstream_at(s, i) {
        i
    } else {
        first_endstream(s, i + 1)
    }
}

/// The data of a stream of unknown length: everything up to the first `endstream`, or up to
/// the end of data.
pub open spec fn until_endstream(s: Seq<u8>) -> Seq<u8> {
    s.take(first_endstream(s, 0))
}

pub proof fn lemma_first_endstream_bounds(s: Seq<u8>, i: int)
    requires
        0 <= i,
    ensures
        first_endstream(s, i) <= s.len(),
        i <= s.len() ==> i <= first_endstream(s, i),
    decreases s.len() - i,
{
    if i + 9 <= s.len() && !endstream_at(s, i) {
        lemma_first_endstream_bounds(s, i + 1);
    }
}

/// A reader of stream data whose length is not known, which stops at the `endstream` keyword.
pub struct EndstreamReader {
    inner: ByteProvider,
}

impl EndstreamReader {
    /// The bytes the reader has left to read from.
    pub closed spec fn srest(&self) -> Seq<u8> {
        self.inner.srest()
    }

    /// A reader over what is left of `inner`.
    pub fn new(inner: ByteProvider) -> (r: EndstreamReader)
        ensures
            r.srest() == inner.srest(),
    {
        EndstreamReader { inner }
    }

    /// Reads the data up to the first `endstream` (see [`until_endstream`]).
    pub fn read_to_end(&mut self) -> (r: Vec<u8>)
        ensures
            r@ == until_endstream(old(self).srest()),
    {
        let rest = self.inner.read_to_end();
        let key = endstream_key();
        let n = rest.len();
        proof {
            lemma_first_endstream_bounds(rest@, 0);
        }
        let mut i: usize = 0;
        while n >= 9 && i <= n - 9
            invariant
                n == rest@.len(),
                rest@ == old(self).srest(),
                i <= n,
                key@ == endstream_bytes(),
                first_endstream(rest@, 0) == first_endstream(rest@, i as int),
            decreases n - i,
        {
            if crate::bp::matches_at(rest.as_slice(), i, &key) {
                assert(endstream_at(rest@, i as int));
                assert(first_endstream(rest@, i as int) == i);
                assert(rest@.subrange(0, i as int) =~= rest@.take(i as int));
                return subslice_to_vec(rest.as_slice(), 0, i);
            }
            i += 1;
        }
        assert(rest@.subrange(0, n as int) =~= rest@.take(n as int));
        subslice_to_vec(rest.as_slice(), 0, n)
    }
}

} // verus!
