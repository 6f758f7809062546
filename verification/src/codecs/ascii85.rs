use vstd::prelude::*;

use crate::base::{eof, Error, IoError};
use crate::bp::{prepend, ByteProvider};
use crate::cc::is_white;
use crate::tk::{lemma_space_end_bounds, space_end};

verus! {

/// `~`, which starts the end marker `~>`.
pub const TILDE: u8 = 0x7E;

/// `z`, which stands for four zero bytes.
pub const ZED: u8 = 0x7A;

/// Reading the next character of ASCII-85 data at `p`, skipping white space: the end of data is
/// an error, `~` ends the data (and is not consumed). Gives the result and the position reached.
pub open spec fn spec_a85_next(d: Seq<u8>, p: int) -> (Result<Option<u8>, Error>, int) {
    let q = space_end(d, p);
    if !(0 <= q < d.len()) {
        (Err(eof()), q)
    } else if d[q] == TILDE {
        (Ok(None), q)
    } else {
        (Ok(Some(d[q])), q + 1)
    }
}

/// Whether `c` is an ASCII-85 digit (`!` to `u`).
pub open spec fn is_a85_digit(c: u8) -> bool {
    0x21 <= c <= 0x75
}

/// Reading the digits `i` to 4 of a group at `p`, with value `val` and `count` digits present
/// so far; a missing digit (at the end marker) counts as `u` (84). Gives the value and the
/// count of digits present, and the position reached.
pub open spec fn a85_group(d: Seq<u8>, p: int, i: nat, val: nat, count: nat) -> (
    Result<(nat, nat), Error>,
    int,
)
    decreases 5 - i,
{
    if i >= 5 {
        (Ok((val, count)), p)
    } else {
        match spec_a85_next(d, p) {
            (Err(e), q) => (Err(e), q),
            (Ok(None), q) => a85_group(d, q, i + 1, val * 85 + 84, count),
            (Ok(Some(c)), q) => if is_a85_digit(c) {
                a85_group(d, q, i + 1, val * 85 + (c - 0x21) as nat, count + 1)
            } else {
                (Err(Error::IO(IoError::InvalidData)), q)
            },
        }
    }
}

/// The four bytes of `v`, most significant first.
pub open spec fn be4(v: nat) -> Seq<u8> {
    seq![
        (v / 0x1000000 % 0x100) as u8,
        (v / 0x10000 % 0x100) as u8,
        (v / 0x100 % 0x100) as u8,
        (v % 0x100) as u8,
    ]
}

pub proof fn lemma_a85_next_progress(d: Seq<u8>, p: int)
    requires
        0 <= p,
    ensures
        spec_a85_next(d, p).1 >= p,
        spec_a85_next(d, p).0 matches Ok(Some(_)) ==> spec_a85_next(d, p).1 > p,
        spec_a85_next(d, p).0 matches Ok(Some(_)) ==> spec_a85_next(d, p).1 <= d.len(),
        p <= d.len() ==> spec_a85_next(d, p).1 <= d.len(),
{
    lemma_space_end_bounds(d, p);
}

pub proof fn lemma_a85_group_mono(d: Seq<u8>, p: int, i: nat, val: nat, count: nat)
    requires
        0 <= p,
    ensures
        a85_group(d, p, i, val, count).1 >= p,
        p <= d.len() ==> a85_group(d, p, i, val, count).1 <= d.len(),
    decreases 5 - i,
{
    if i < 5 {
        lemma_a85_next_progress(d, p);
        let q = spec_a85_next(d, p).1;
        lemma_a85_group_mono(d, q, i + 1, val * 85 + 84, count);
        match spec_a85_next(d, p).0 {
            Ok(Some(c)) => lemma_a85_group_mono(d, q, i + 1, val * 85 + (c - 0x21) as nat, count + 1),
            _ => {},
        }
    }
}

/// Decoding ASCII-85 data from `p`: `z` gives four zero bytes, a group of five digits four
/// bytes, a group cut short by the end marker one byte less than its digits; a single digit
/// before the end marker ends the data. A group value over 32 bits, or a byte that is not a
/// digit, makes the data invalid; data without an end marker ends in an error.
pub open spec fn spec_a85_from(d: Seq<u8>, p: int) -> Result<Seq<u8>, Error>
    decreases d.len() - p,
{
    if p < 0 {
        Ok(Seq::empty())
    } else {
        match spec_a85_next(d, p) {
            (Err(e), _) => Err(e),
            (Ok(None), _) => Ok(Seq::empty()),
            (Ok(Some(c)), q) => {
                proof {
                    lemma_a85_next_progress(d, p);
                }
                if c == ZED {
                    prepend(seq![0u8, 0u8, 0u8, 0u8], spec_a85_from(d, q))
                } else if !is_a85_digit(c) {
                    Err(Error::IO(IoError::InvalidData))
                } else {
                    match a85_group(d, q, 1, (c - 0x21) as nat, 1) {
                        (Err(e), _) => Err(e),
                        (Ok((val, count)), r) => {
                            proof {
                                lemma_a85_group_mono(d, q, 1, (c - 0x21) as nat, 1);
                            }
                            if val > 0xffff_ffff {
                                Err(Error::IO(IoError::InvalidData))
                            } else if count <= 1 {
                                Ok(Seq::empty())
                            } else {
                                prepend(be4(val).take(count - 1), spec_a85_from(d, r))
                            }
                        },
                    }
                }
            },
        }
    }
}

/// The result of decoding ASCII-85 data.
pub open spec fn spec_ascii85_decode(d: Seq<u8>) -> Result<Seq<u8>, Error> {
    spec_a85_from(d, 0)
}

/// The value of an ASCII-85 digit; other bytes are invalid data.
pub fn to_digit(c: u8) -> (r: Result<u64, Error>)
    ensures
        is_a85_digit(c) ==> r == Ok::<u64, Error>((c - 0x21) as u64),
        !is_a85_digit(c) ==> r == Err::<u64, Error>(Error::IO(IoError::InvalidData)),
{
    if 0x21 <= c && c <= 0x75 {
        Ok((c - 0x21) as u64)
    } else {
        Err(Error::IO(IoError::InvalidData))
    }
}

/// A decoder of the `/ASCII85Decode` filter over a byte source.
pub struct Ascii85Decoder {
    reader: ByteProvider,
}

impl Ascii85Decoder {
    /// The data being read.
    pub closed spec fn sdata(&self) -> Seq<u8> {
        self.reader.sdata()
    }

    /// The position reached.
    pub closed spec fn spos(&self) -> int {
        self.reader.spos()
    }

    /// A decoder reading `input` from its position.
    pub fn new(input: ByteProvider) -> (r: Ascii85Decoder)
        ensures
            r.sdata() == input.sdata(),
            r.spos() == input.spos(),
    {
        Ascii85Decoder { reader: input }
    }

    /// The next character (see [`spec_a85_next`]).
    fn next_in(&mut self) -> (r: Result<Option<u8>, Error>)
        ensures
            final(self).sdata() == old(self).sdata(),
            (r, final(self).spos()) == spec_a85_next(old(self).sdata(), old(self).spos()),
    {
        let ghost d = self.reader.sdata();
        let n = self.reader.len();
        loop
            invariant
                self.reader.sdata() == d,
                d == old(self).sdata(),
                n == d.len(),
                old(self).spos() <= self.reader.spos(),
                space_end(d, old(self).spos()) == space_end(d, self.reader.spos()),
            decreases n - self.reader.spos(),
        {
            match self.reader.peek() {
                None => {
                    return Err(Error::IO(IoError::UnexpectedEof));
                },
                Some(c) => {
                    if c == TILDE {
                        return Ok(None);
                    }
                    let _ = self.reader.next_or_eof();
                    if !is_white(c) {
                        return Ok(Some(c));
                    }
                },
            }
        }
    }

    /// Decodes the next group: its bytes, empty at the end of the data.
    fn fill_buf(&mut self) -> (r: Result<Vec<u8>, Error>)
        ensures
            final(self).sdata() == old(self).sdata(),
            final(self).spos() >= old(self).spos(),
            old(self).spos() >= 0 ==> (old(self).spos() <= old(self).sdata().len()
                ==> final(self).spos() <= final(self).sdata().len()),
            match spec_a85_from(old(self).sdata(), old(self).spos()) {
                Ok(t) => r matches Ok(v) && (v@.len() == 0 ==> t.len() == 0) && (v@.len() > 0
                    ==> spec_a85_from(old(self).sdata(), old(self).spos()) == prepend(
                    v@,
                    spec_a85_from(final(self).sdata(), final(self).spos()),
                ) && final(self).spos() > old(self).spos()),
                Err(e) => r matches Ok(v) && v@.len() > 0 && spec_a85_from(
                    old(self).sdata(),
                    old(self).spos(),
                ) == prepend(v@, spec_a85_from(final(self).sdata(), final(self).spos()))
                    && final(self).spos() > old(self).spos() || r == Err::<Vec<u8>, Error>(e),
            },
    {
        let ghost d = self.reader.sdata();
        let ghost p = self.reader.spos();
        if self.reader.pos() > self.reader.len() {
            return Err(Error::IO(IoError::UnexpectedEof));
        }
        proof {
            lemma_a85_next_progress(d, p);
        }
        let c1 = match self.next_in() {
            Err(e) => return Err(e),
            Ok(None) => return Ok(Vec::new()),
            Ok(Some(c)) => c,
        };
        let ghost q = self.reader.spos();
        if c1 == ZED {
            let mut z: Vec<u8> = Vec::new();
            z.push(0);
            z.push(0);
            z.push(0);
            z.push(0);
            assert(z@ =~= seq![0u8, 0u8, 0u8, 0u8]);
            return Ok(z);
        }
        let mut val: u64 = to_digit(c1)?;
        let mut count: u64 = 1;
        let mut i: u64 = 1;
        let mut p85: u64 = 85;
        proof {
            lemma_a85_group_mono(d, q, 1, (c1 - 0x21) as nat, 1);
        }
        while i < 5
            invariant
                self.reader.sdata() == d,
                d == old(self).sdata(),
                q == spec_a85_next(d, p).1,
                p == old(self).spos(),
                p >= 0,
                q > p,
                spec_a85_next(d, p).0 == Ok::<Option<u8>, Error>(Some(c1)),
                c1 != ZED,
                is_a85_digit(c1),
                p <= d.len() ==> self.reader.spos() <= d.len(),
                1 <= i <= 5,
                1 <= count <= i,
                val < p85,
                p85 == (if i == 1 { 85 } else if i == 2 { 85 * 85 } else if i == 3 { 85 * 85
                    * 85 } else if i == 4 { 85 * 85 * 85 * 85 } else { 85 * 85 * 85 * 85 * 85 }),
                self.reader.spos() >= q,
                a85_group(d, q, 1, (c1 - 0x21) as nat, 1) == a85_group(
                    d,
                    self.reader.spos(),
                    i as nat,
                    val as nat,
                    count as nat,
                ),
            decreases 5 - i,
        {
            proof {
                lemma_a85_next_progress(d, self.reader.spos());
                lemma_a85_group_mono(d, self.reader.spos(), i as nat, val as nat, count as nat);
            }
            let next = match self.next_in()? {
                Some(c) => {
                    count += 1;
                    to_digit(c)?
                },
                None => 84,
            };
            assert(val * 85 + next < p85 * 85) by (nonlinear_arith)
                requires
                    val < p85,
                    next <= 84,
            ;
            val = val * 85 + next;
            p85 = p85 * 85;
            i += 1;
        }
        if val > 0xffff_ffff {
            return Err(Error::IO(IoError::InvalidData));
        }
        let mut out: Vec<u8> = Vec::new();
        let bytes: [u8; 4] = [
            (val / 0x1000000 % 0x100) as u8,
            (val / 0x10000 % 0x100) as u8,
            (val / 0x100 % 0x100) as u8,
            (val % 0x100) as u8,
        ];
        assert(bytes@ =~= be4(val as nat));
        let mut k: usize = 0;
        while k + 1 < count as usize
            invariant
                1 <= count <= 5,
                k + 1 <= count,
                out@ == be4(val as nat).take(k as int),
                bytes@ == be4(val as nat),
            decreases count - k,
        {
            out.push(bytes[k]);
            k += 1;
            assert(out@ =~= be4(val as nat).take(k as int));
        }
        if count <= 1 {
            assert(out@.len() == 0);
        } else {
            assert(k == count - 1);
        }
        Ok(out)
    }

    /// Decodes all that is left.
    pub fn read_to_end(&mut self) -> (r: Result<Vec<u8>, Error>)
        ensures
            crate::bp::bytes_result(r) == spec_a85_from(old(self).sdata(), old(self).spos()),
    {
        let mut out: Vec<u8> = Vec::new();
        let n = self.reader.len();
        if self.reader.pos() > n {
            proof {
                lemma_space_end_bounds(self.sdata(), self.spos());
            }
            return Err(Error::IO(IoError::UnexpectedEof));
        }
        loop
            invariant
                self.sdata() == old(self).sdata(),
                n == self.sdata().len(),
                0 <= self.spos() <= n,
                spec_a85_from(old(self).sdata(), old(self).spos()) == prepend(
                    out@,
                    spec_a85_from(self.sdata(), self.spos()),
                ),
            decreases n - self.spos(),
        {
            let ghost old_out = out@;
            let ghost p = self.spos();
            let b = self.fill_buf()?;
            if b.len() == 0 {
                assert(out@ + Seq::<u8>::empty() =~= out@);
                return Ok(out);
            }
            proof {
                match spec_a85_from(self.sdata(), self.spos()) {
                    Ok(t) => {
                        assert(old_out + (b@ + t) =~= (old_out + b@) + t);
                    },
                    Err(_) => {},
                }
            }
            let mut i: usize = 0;
            while i < b.len()
                invariant
                    0 <= i <= b.len(),
                    out@ == old_out + b@.take(i as int),
                decreases b.len() - i,
            {
                out.push(b[i]);
                i += 1;
                assert(out@ =~= old_out + b@.take(i as int));
            }
            assert(b@.take(b.len() as int) =~= b@);
        }
    }
}

/// Decodes ASCII-85 encoded data (see [`spec_a85_from`]).
pub fn decode(input: &[u8]) -> (r: Result<Vec<u8>, Error>)
    ensures
        crate::bp::bytes_result(r) == spec_ascii85_decode(input@),
{
    let mut dec = Ascii85Decoder::new(ByteProvider::from_bytes(input));
    dec.read_to_end()
}

} // verus!
