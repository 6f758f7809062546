use vstd::prelude::*;
use crate::base::{eof, Error, IoError};

verus! {

/// Line feed.
pub const LF: u8 = 0x0A;
/// Carriage return.
pub const CR: u8 = 0x0D;

/// End-of-line bytes.
pub open spec fn is_eol(c: u8) -> bool {
    c == LF || c == CR
}

/// The index of the first end-of-line byte at or after `p`, or `d.len()` if there is none.
pub open spec fn first_eol(d: Seq<u8>, p: int) -> int
    decreases d.len() - p,
{
    if p >= d.len() {
        d.len() as int
    } else if p >= 0 && is_eol(d[p]) {
        p
    } else {
        first_eol(d, p + 1)
    }
}

/// The length of the end-of-line marker at `q`: 2 for CR LF, 1 for a lone CR or LF, 0 past
/// the end.
pub open spec fn eol_len(d: Seq<u8>, q: int) -> int {
    if q >= d.len() {
        0
    } else if d[q] == CR && q + 1 < d.len() && d[q + 1] == LF {
        2
    } else {
        1
    }
}

/// A byte-vector result viewed as a sequence result.
pub open spec fn bytes_result(r: Result<Vec<u8>, Error>) -> Result<Seq<u8>, Error> {
    match r {
        Ok(v) => Ok(v@),
        Err(e) => Err(e),
    }
}

/// `a` put in front of the bytes of a successful result; an error stays as it is.
pub open spec fn prepend(a: Seq<u8>, r: Result<Seq<u8>, Error>) -> Result<Seq<u8>, Error> {
    match r {
        Ok(t) => Ok(a + t),
        Err(e) => Err(e),
    }
}

/// The bytes from `p` on (empty when `p` is past the end).
pub open spec fn rest_of(d: Seq<u8>, p: int) -> Seq<u8> {
    if p < d.len() {
        d.subrange(p, d.len() as int)
    } else {
        Seq::empty()
    }
}

/// Reading a line from `p`: the line (with or without its end-of-line marker) and the position
/// after the marker; an error when no byte is left.
pub open spec fn spec_read_line(d: Seq<u8>, p: int, include_eol: bool) -> (Result<Seq<u8>, Error>, int) {
    if p >= d.len() {
        (Err(eof()), p)
    } else {
        let q = first_eol(d, p);
        let e = q + eol_len(d, q);
        (Ok(if include_eol { d.subrange(p, e) } else { d.subrange(p, q) }), e)
    }
}

/// `first_eol` lies between `p` and the end.
pub proof fn lemma_first_eol_bounds(d: Seq<u8>, p: int)
    requires
        0 <= p,
    ensures
        p <= d.len() ==> p <= first_eol(d, p) <= d.len(),
        first_eol(d, p) < d.len() ==> is_eol(d[first_eol(d, p)]),
        forall|k: int| p <= k < first_eol(d, p) ==> !is_eol(#[trigger] d[k]),
    decreases d.len() - p,
{
    if p < d.len() && !is_eol(d[p]) {
        lemma_first_eol_bounds(d, p + 1);
    }
}

/// An in-memory source of bytes with a read position, over which all of the PDF syntax is read.
///
/// The position may be set past the end of the data, where every read meets the end of data.
pub struct ByteProvider {
    /// The whole data.
    pub data: Vec<u8>,
    /// The read position (an index into `data`, possibly past its end).
    pub pos: u64,
}

impl ByteProvider {
    /// The whole data.
    pub open spec fn sdata(&self) -> Seq<u8> {
        self.data@
    }

    /// The read position.
    pub open spec fn spos(&self) -> int {
        self.pos as int
    }

    /// The bytes not yet read.
    pub open spec fn srest(&self) -> Seq<u8> {
        rest_of(self.sdata(), self.spos())
    }

    /// A measure of the bytes left to read.
    pub open spec fn remaining(&self) -> nat {
        if self.spos() < self.sdata().len() {
            (self.sdata().len() - self.spos()) as nat
        } else {
            0
        }
    }

    /// Creates a provider reading `data` from its start.
    pub fn new(data: Vec<u8>) -> (r: ByteProvider)
        ensures
            r.sdata() == data@,
            r.spos() == 0,
    {
        ByteProvider { data, pos: 0 }
    }

    /// Creates a provider reading a copy of `data` from its start.
    pub fn from_bytes(data: &[u8]) -> (r: ByteProvider)
        ensures
            r.sdata() == data@,
            r.spos() == 0,
    {
        ByteProvider { data: subslice_to_vec(data, 0, data.len()), pos: 0 }
    }

    /// The current read position.
    pub fn pos(&self) -> (r: u64)
        ensures
            r == self.spos(),
    {
        self.pos
    }

    /// The whole data, independent of the position.
    pub fn data(&self) -> (r: &[u8])
        ensures
            r@ == self.sdata(),
    {
        self.data.as_slice()
    }

    /// The length of the whole data.
    pub fn len(&self) -> (r: u64)
        ensures
            r == self.sdata().len(),
    {
        self.data.len() as u64
    }

    /// Moves the read position to `pos` (which may lie past the end).
    pub fn seek_to(&mut self, pos: u64)
        ensures
            final(self).sdata() == old(self).sdata(),
            final(self).spos() == pos,
    {
        self.pos = pos;
    }

    /// The next byte, without consuming it; `None` at the end of data.
    pub fn peek(&self) -> (r: Option<u8>)
        ensures
            r == (if self.spos() < self.sdata().len() {
                Some(self.sdata()[self.spos()])
            } else {
                None
            }),
    {
        if self.pos < self.data.len() as u64 {
            Some(self.data[self.pos as usize])
        } else {
            None
        }
    }

    /// Consumes and returns the next byte, failing at the end of data.
    pub fn next_or_eof(&mut self) -> (r: Result<u8, Error>)
        ensures
            final(self).sdata() == old(self).sdata(),
            old(self).spos() < old(self).sdata().len() ==> r == Ok::<u8, Error>(
                old(self).sdata()[old(self).spos()],
            ) && final(self).spos() == old(self).spos() + 1,
            old(self).spos() >= old(self).sdata().len() ==> r == Err::<u8, Error>(eof())
                && final(self).spos() == old(self).spos(),
    {
        if self.pos < self.data.len() as u64 {
            let c = self.data[self.pos as usize];
            self.pos = self.pos + 1;
            Ok(c)
        } else {
            Err(Error::IO(IoError::UnexpectedEof))
        }
    }

    /// Consumes the next byte if `cond` holds of it, and gives it.
    pub fn next_if<F: FnOnce(u8) -> bool>(&mut self, cond: F) -> (r: Option<u8>)
        requires
            forall|c: u8| #[trigger] cond.requires((c,)),
        ensures
            final(self).sdata() == old(self).sdata(),
            old(self).spos() >= old(self).sdata().len() ==> r is None && final(self).spos() == old(
                self,
            ).spos(),
            old(self).spos() < old(self).sdata().len() ==> {
                let c = old(self).sdata()[old(self).spos()];
                ||| r == Some(c) && cond.ensures((c,), true) && final(self).spos() == old(self).spos()
                    + 1
                ||| r is None && cond.ensures((c,), false) && final(self).spos() == old(self).spos()
            },
    {
        if self.pos < self.data.len() as u64 {
            let c = self.data[self.pos as usize];
            if cond(c) {
                self.pos = self.pos + 1;
                Some(c)
            } else {
                None
            }
        } else {
            None
        }
    }

    /// Consumes the next byte if it equals `c`.
    pub fn next_if_eq(&mut self, c: u8) -> (r: Option<u8>)
        ensures
            final(self).sdata() == old(self).sdata(),
            (old(self).spos() < old(self).sdata().len() && old(self).sdata()[old(self).spos()]
                == c) ==> r == Some(c) && final(self).spos() == old(self).spos() + 1,
            !(old(self).spos() < old(self).sdata().len() && old(self).sdata()[old(self).spos()]
                == c) ==> r is None && final(self).spos() == old(self).spos(),
    {
        if self.pos < self.data.len() as u64 && self.data[self.pos as usize] == c {
            self.pos = self.pos + 1;
            Some(c)
        } else {
            None
        }
    }

    /// Reads up to the next end-of-line marker (LF, CR or CR LF) and past it. The marker is part
    /// of the returned line when `include_eol` is set. At the end of data the last, unterminated
    /// line is returned; when no byte is left, the end of data is an error.
    pub fn read_line_inner(&mut self, include_eol: bool) -> (r: Result<Vec<u8>, Error>)
        ensures
            final(self).sdata() == old(self).sdata(),
            (bytes_result(r), final(self).spos()) == spec_read_line(
                old(self).sdata(),
                old(self).spos(),
                include_eol,
            ),
    {
        let n = self.data.len() as u64;
        if self.pos >= n {
            return Err(Error::IO(IoError::UnexpectedEof));
        }
        let ghost d = self.data@;
        let ghost p = self.pos as int;
        let mut q = self.pos;
        while q < n && self.data[q as usize] != LF && self.data[q as usize] != CR
            invariant
                self.data@ == d,
                n == d.len(),
                n == self.data.len(),
                p <= q <= n,
                p < n,
                first_eol(d, p) == first_eol(d, q as int),
            decreases n - q,
        {
            q = q + 1;
        }
        let e = if q < n && self.data[q as usize] == CR && q + 1 < n && self.data[(q + 1) as usize]
            == LF {
            q + 2
        } else if q < n {
            q + 1
        } else {
            q
        };
        let end = if include_eol { e } else { q };
        let line = subslice_to_vec(self.data.as_slice(), self.pos as usize, end as usize);
        self.pos = e;
        Ok(line)
    }

    /// Reads a line without its end-of-line marker (the same as [`ByteProvider::read_line_excl`]).
    pub fn read_line(&mut self) -> (r: Result<Vec<u8>, Error>)
        ensures
            final(self).sdata() == old(self).sdata(),
            (bytes_result(r), final(self).spos()) == spec_read_line(
                old(self).sdata(),
                old(self).spos(),
                false,
            ),
    {
        self.read_line_inner(false)
    }

    /// Reads a line without its end-of-line marker.
    pub fn read_line_excl(&mut self) -> (r: Result<Vec<u8>, Error>)
        ensures
            final(self).sdata() == old(self).sdata(),
            (bytes_result(r), final(self).spos()) == spec_read_line(
                old(self).sdata(),
                old(self).spos(),
                false,
            ),
    {
        self.read_line_inner(false)
    }

    /// Reads a line including its end-of-line marker.
    pub fn read_line_incl(&mut self) -> (r: Result<Vec<u8>, Error>)
        ensures
            final(self).sdata() == old(self).sdata(),
            (bytes_result(r), final(self).spos()) == spec_read_line(
                old(self).sdata(),
                old(self).spos(),
                true,
            ),
    {
        self.read_line_inner(true)
    }

    /// Skips past the next end-of-line marker. Fails, having consumed everything, when there is
    /// no end-of-line marker left. A CR as the very last byte of the data is not accepted.
    pub fn skip_past_eol(&mut self) -> (r: Result<(), Error>)
        requires
            !(first_eol(old(self).sdata(), old(self).spos()) == old(self).sdata().len() - 1
                && old(self).sdata().last() == CR && old(self).spos() < old(self).sdata().len()),
        ensures
            final(self).sdata() == old(self).sdata(),
            first_eol(old(self).sdata(), old(self).spos()) < old(self).sdata().len() ==> {
                &&& r is Ok
                &&& final(self).spos() == first_eol(old(self).sdata(), old(self).spos()) + eol_len(
                    old(self).sdata(),
                    first_eol(old(self).sdata(), old(self).spos()),
                )
            },
            first_eol(old(self).sdata(), old(self).spos()) >= old(self).sdata().len() ==> {
                &&& r == Err::<(), Error>(eof())
                &&& final(self).spos() == if old(self).spos() < old(self).sdata().len() {
                    old(self).sdata().len() as int
                } else {
                    old(self).spos()
                }
            },
    {
        let n = self.data.len() as u64;
        if self.pos >= n {
            return Err(Error::IO(IoError::UnexpectedEof));
        }
        let ghost d = self.data@;
        let ghost p = self.pos as int;
        let mut q = self.pos;
        while q < n && self.data[q as usize] != LF && self.data[q as usize] != CR
            invariant
                self.data@ == d,
                n == d.len(),
                n == self.data.len(),
                p <= q <= n,
                p < n,
                first_eol(d, p) == first_eol(d, q as int),
            decreases n - q,
        {
            q = q + 1;
        }
        if q >= n {
            self.pos = n;
            return Err(Error::IO(IoError::UnexpectedEof));
        }
        if self.data[q as usize] == CR && self.data[(q + 1) as usize] == LF {
            self.pos = q + 2;
        } else {
            self.pos = q + 1;
        }
        Ok(())
    }

    /// Reads exactly `n` bytes. When fewer are left, fails at the end of data, having consumed
    /// everything.
    pub fn read_exact(&mut self, n: u64) -> (r: Result<Vec<u8>, Error>)
        ensures
            final(self).sdata() == old(self).sdata(),
            old(self).spos() + n <= old(self).sdata().len() ==> {
                &&& r matches Ok(v) && v@ == old(self).sdata().subrange(
                    old(self).spos(),
                    old(self).spos() + n,
                )
                &&& final(self).spos() == old(self).spos() + n
            },
            old(self).spos() + n > old(self).sdata().len() ==> {
                &&& r == Err::<Vec<u8>, Error>(eof())
                &&& final(self).spos() == if old(self).spos() < old(self).sdata().len() {
                    old(self).sdata().len() as int
                } else {
                    old(self).spos()
                }
            },
    {
        let len = self.data.len() as u64;
        if self.pos <= len && n <= len - self.pos {
            let v = subslice_to_vec(self.data.as_slice(), self.pos as usize, (self.pos + n) as usize);
            self.pos = self.pos + n;
            Ok(v)
        } else {
            if self.pos < len {
                self.pos = len;
            }
            Err(Error::IO(IoError::UnexpectedEof))
        }
    }

    /// A new provider over (a copy of) the next `n` bytes, or all that are left if fewer.
    /// The position of `self` does not change.
    pub fn take(&self, n: u64) -> (r: ByteProvider)
        ensures
            r.spos() == 0,
            r.sdata() == (if self.spos() + n <= self.sdata().len() {
                self.sdata().subrange(self.spos(), self.spos() + n)
            } else {
                self.srest()
            }),
    {
        let len = self.data.len() as u64;
        if self.pos <= len && n <= len - self.pos {
            ByteProvider {
                data: subslice_to_vec(self.data.as_slice(), self.pos as usize, (self.pos + n) as usize),
                pos: 0,
            }
        } else if self.pos < len {
            ByteProvider { data: subslice_to_vec(self.data.as_slice(), self.pos as usize, len as usize), pos: 0 }
        } else {
            ByteProvider { data: Vec::new(), pos: 0 }
        }
    }

    /// All the bytes left, consuming them.
    pub fn read_to_end(&mut self) -> (r: Vec<u8>)
        ensures
            final(self).sdata() == old(self).sdata(),
            r@ == old(self).srest(),
            final(self).spos() == if old(self).spos() < old(self).sdata().len() {
                old(self).sdata().len() as int
            } else {
                old(self).spos()
            },
    {
        let len = self.data.len() as u64;
        if self.pos < len {
            let v = subslice_to_vec(self.data.as_slice(), self.pos as usize, len as usize);
            self.pos = len;
            v
        } else {
            Vec::new()
        }
    }
}

/// Skipping what is left of an input.
pub trait BufSkip {
    /// Consumes everything up to the end of the input.
    fn skip_to_end(&mut self) -> (r: Result<(), Error>);
}

impl BufSkip for ByteProvider {
    /// Consumes everything up to the end of data.
    fn skip_to_end(&mut self) -> (r: Result<(), Error>)
        ensures
            r is Ok,
            final(self).sdata() == old(self).sdata(),
            final(self).spos() == if old(self).spos() < old(self).sdata().len() {
                old(self).sdata().len() as int
            } else {
                old(self).spos()
            },
    {
        if self.pos < self.data.len() as u64 {
            self.pos = self.data.len() as u64;
        }
        Ok(())
    }
}

/// Whether `key` starts at `k` in `t`.
pub fn matches_at(t: &[u8], k: usize, key: &[u8]) -> (r: bool)
    requires
        k + key.len() <= t.len(),
    ensures
        r == (t@.subrange(k as int, k + key.len()) == key@),
{
    let mut m: usize = 0;
    while m < key.len()
        invariant
            m <= key.len(),
            k + key.len() <= t.len(),
            t@.subrange(k as int, k + m) =~= key@.take(m as int),
        decreases key.len() - m,
    {
        if t[k + m] != key[m] {
            assert(t@.subrange(k as int, k + key.len())[m as int] != key@[m as int]);
            return false;
        }
        m += 1;
        assert(t@.subrange(k as int, k + m) =~= key@.take(m as int));
    }
    assert(key@.take(key.len() as int) =~= key@);
    true
}

/// The part of `s` from `from` on.
pub fn slice_from(s: &[u8], from: usize) -> (r: &[u8])
    requires
        from <= s@.len(),
    ensures
        r@ == s@.subrange(from as int, s@.len() as int),
{
    let (_, tail) = s.split_at(from);
    tail
}

/// The first `to` bytes of `s`.
pub fn slice_to(s: &[u8], to: usize) -> (r: &[u8])
    requires
        to <= s@.len(),
    ensures
        r@ == s@.subrange(0, to as int),
{
    let (head, _) = s.split_at(to);
    head
}

/// Copies `s[from..to]` into a new vector.
pub fn subslice_to_vec(s: &[u8], from: usize, to: usize) -> (r: Vec<u8>)
    requires
        from <= to <= s@.len(),
    ensures
        r@ == s@.subrange(from as int, to as int),
{
    let mut r: Vec<u8> = Vec::with_capacity(to - from);
    let mut i = from;
    while i < to
        invariant
            from <= i <= to <= s@.len(),
            r@ == s@.subrange(from as int, i as int),
        decreases to - i,
    {
        r.push(s[i]);
        i = i + 1;
    }
    r
}

} // verus!
