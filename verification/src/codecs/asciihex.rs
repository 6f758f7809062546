use vstd::prelude::*;

use crate::base::{Error, IoError};
use crate::bp::ByteProvider;
use crate::tk::{lemma_ws_end_bounds, ws_end, GT};
use crate::utils::{hex_value, spec_hex_value};

verus! {

/// The digits of ASCII-hex encoded data from `p` on: every byte that is not white space or in
/// a comment, up to the end marker `>` or the end of data.
pub open spec fn hex_digits(d: Seq<u8>, p: int) -> Seq<u8>
    decreases d.len() - p,
{
    if p < 0 {
        Seq::empty()
    } else {
        let q = ws_end(d, p, false);
        if q >= d.len() || d[q] == GT {
            Seq::empty()
        } else {
            proof {
                lemma_ws_end_bounds(d, p, false);
            }
            seq![d[q]] + hex_digits(d, q + 1)
        }
    }
}

/// One step of decoding digits: the first digit is the high half of the next byte, the second
/// its low half (`0` when missing). Gives the result and the digits left.
pub open spec fn spec_next_out(digits: Seq<u8>) -> (Result<Option<u8>, Error>, Seq<u8>) {
    if digits.len() == 0 {
        (Ok(None), digits)
    } else {
        let rest = if digits.len() >= 2 {
            digits.skip(2)
        } else {
            Seq::empty()
        };
        let lsd = if digits.len() >= 2 {
            digits[1]
        } else {
            0x30u8
        };
        match (spec_hex_value(digits[0]), spec_hex_value(lsd)) {
            (Some(h), Some(l)) => (Ok(Some((h * 16 + l) as u8)), rest),
            _ => (Err(Error::IO(IoError::InvalidData)), rest),
        }
    }
}

/// Decoding a whole sequence of digits: a byte from each pair of digits; any byte that is not
/// a hexadecimal digit makes the data invalid.
pub open spec fn hex_pairs(digits: Seq<u8>) -> Result<Seq<u8>, Error>
    decreases digits.len(),
{
    if digits.len() == 0 {
        Ok(Seq::empty())
    } else {
        match spec_next_out(digits) {
            (Ok(Some(b)), rest) => match hex_pairs(rest) {
                Ok(t) => Ok(seq![b] + t),
                Err(e) => Err(e),
            },
            (Ok(None), _) => Ok(Seq::empty()),
            (Err(e), _) => Err(e),
        }
    }
}

/// The result of decoding ASCII-hex data.
pub open spec fn spec_asciihex_decode(d: Seq<u8>) -> Result<Seq<u8>, Error> {
    hex_pairs(hex_digits(d, 0))
}

/// A decoder of the `/ASCIIHexDecode` filter over a byte source.
pub struct AsciiHexDecoder {
    reader: ByteProvider,
    done: bool,
}

impl AsciiHexDecoder {
    /// The digits not yet consumed.
    pub closed spec fn digits(&self) -> Seq<u8> {
        if self.done {
            Seq::empty()
        } else {
            hex_digits(self.reader.sdata(), self.reader.spos())
        }
    }

    /// A decoder reading `input` from its position.
    pub fn new(input: ByteProvider) -> (r: AsciiHexDecoder)
        ensures
            r.digits() == hex_digits(input.sdata(), input.spos()),
    {
        AsciiHexDecoder { reader: input, done: false }
    }

    /// The next digit, or `None` at the end marker or the end of data.
    fn next_in(&mut self) -> (r: Option<u8>)
        ensures
            old(self).digits().len() == 0 ==> r is None && final(self).digits().len() == 0,
            old(self).digits().len() > 0 ==> r == Some(old(self).digits()[0])
                && final(self).digits() == old(self).digits().drop_first(),
    {
        if self.done {
            return None;
        }
        let ghost d = self.reader.sdata();
        let ghost p = self.reader.spos();
        proof {
            lemma_ws_end_bounds(d, p, false);
        }
        let _ = self.reader.skip_ws();
        let q = self.reader.pos();
        match self.reader.next_or_eof() {
            Err(_) => {
                self.done = true;
                None
            },
            Ok(c) => {
                if c == GT {
                    self.done = true;
                    None
                } else {
                    assert(old(self).digits() == seq![c] + hex_digits(d, q + 1));
                    assert(old(self).digits().drop_first() =~= hex_digits(d, q + 1));
                    Some(c)
                }
            },
        }
    }

    /// The next decoded byte (see [`spec_next_out`]).
    fn next_out(&mut self) -> (r: Result<Option<u8>, Error>)
        ensures
            (r, final(self).digits()) == spec_next_out(old(self).digits()),
    {
        let ghost ds = self.digits();
        let msd = match self.next_in() {
            Some(c) => c,
            None => return Ok(None),
        };
        let lsd = match self.next_in() {
            Some(c) => c,
            None => 0x30u8,
        };
        proof {
            if ds.len() >= 2 {
                assert(ds.drop_first().drop_first() =~= ds.skip(2));
            }
        }
        match (hex_value(msd), hex_value(lsd)) {
            (Some(h), Some(l)) => Ok(Some(h * 16 + l)),
            _ => Err(Error::IO(IoError::InvalidData)),
        }
    }

    /// Decodes all that is left.
    pub fn read_to_end(&mut self) -> (r: Result<Vec<u8>, Error>)
        ensures
            crate::bp::bytes_result(r) == hex_pairs(old(self).digits()),
    {
        let mut out: Vec<u8> = Vec::new();
        loop
            invariant
                hex_pairs(old(self).digits()) == match hex_pairs(self.digits()) {
                    Ok(t) => Ok(out@ + t),
                    Err(e) => Err(e),
                },
            decreases self.digits().len(),
        {
            let ghost ds = self.digits();
            let ghost old_out = out@;
            match self.next_out() {
                Ok(Some(b)) => {
                    out.push(b);
                    assert(out@ == old_out.push(b));
                    assert(hex_pairs(ds) == match hex_pairs(self.digits()) {
                        Ok(t) => Ok(seq![b] + t),
                        Err(e) => Err::<Seq<u8>, Error>(e),
                    });
                    proof {
                        match hex_pairs(self.digits()) {
                            Ok(t) => {
                                assert(out@ + t =~= (old_out + (seq![b] + t)));
                            },
                            Err(_) => {},
                        }
                    }
                },
                Ok(None) => {
                    assert(out@ + Seq::<u8>::empty() =~= out@);
                    return Ok(out);
                },
                Err(e) => {
                    return Err(e);
                },
            }
        }
    }
}

/// Decodes ASCII-hex encoded data (see [`spec_asciihex_decode`]).
pub fn decode(input: &[u8]) -> (r: Result<Vec<u8>, Error>)
    ensures
        crate::bp::bytes_result(r) == spec_asciihex_decode(input@),
{
    let mut dec = AsciiHexDecoder::new(ByteProvider::from_bytes(input));
    dec.read_to_end()
}

} // verus!
