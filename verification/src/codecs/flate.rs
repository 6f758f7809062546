use vstd::prelude::*;

use crate::base::{spec_lookup, Dict, Error, IoError, SObject};
use crate::base::object::spec_num_value;
use crate::bp::subslice_to_vec;
use crate::names::{columns_bytes, columns_key, predictor_bytes, predictor_key};

verus! {

/// Inflating the zlib stream `input`: the bytes inflated before the read stopped, and the kind
/// of the failure that stopped it, if one did.
pub uninterp spec fn zlib_inflate(input: Seq<u8>) -> (Seq<u8>, Option<IoError>);

/// Inflates a zlib stream.
///
/// Trusted: reads a `flate2::bufread::ZlibDecoder` over `input` to its end with
/// `std::io::Read::read_to_end`, which keeps the bytes read before a failure. The contract only
/// names the outcome ([`zlib_inflate`]): it depends on `input` alone. The second part is the kind
/// of the failure, if any: flate2 reports a stream that ends too early as `UnexpectedEof` and a
/// corrupt one as `InvalidInput`; which bytes come out is not stated.
#[verifier::external_body]
fn inflate(input: &[u8]) -> (r: (Vec<u8>, Option<IoError>))
    ensures
        (r.0@, r.1) == zlib_inflate(input@),
{
    let mut out = Vec::new();
    match std::io::Read::read_to_end(&mut flate2::bufread::ZlibDecoder::new(input), &mut out) {
        Ok(_) => (out, None),
        Err(e) => match e.kind() {
            std::io::ErrorKind::UnexpectedEof => (out, Some(IoError::UnexpectedEof)),
            std::io::ErrorKind::InvalidInput => (out, Some(IoError::InvalidInput)),
            _ => (out, Some(IoError::Other)),
        },
    }
}

/// The PNG `Sub` filter undone: each byte is added to the one decoded before it (mod 256),
/// starting from `acc`.
pub open spec fn sub_row(inr: Seq<u8>, acc: u8) -> Seq<u8>
    decreases inr.len(),
{
    if inr.len() == 0 {
        Seq::empty()
    } else {
        let v = ((acc + inr[0]) % 256) as u8;
        seq![v] + sub_row(inr.drop_first(), v)
    }
}

/// The PNG `Up` filter undone: each byte is added to the one above it (mod 256).
pub open spec fn up_row(prev: Seq<u8>, inr: Seq<u8>) -> Seq<u8> {
    Seq::new(inr.len(), |i: int| ((prev[i] + inr[i]) % 256) as u8)
}

/// Decoding one row, given its filter type `tag` and the row decoded before it.
pub open spec fn png_row(tag: u8, inr: Seq<u8>, prev: Seq<u8>) -> Seq<u8> {
    if tag == 1 {
        sub_row(inr, 0)
    } else if tag == 2 {
        up_row(prev, inr)
    } else {
        inr
    }
}

/// Whether every complete row from `p` on has a filter type that is implemented (`None`,
/// `Sub` or `Up`); with no column, only the first row is read.
pub open spec fn png_tags_ok(x: Seq<u8>, cols: nat, p: int) -> bool
    decreases x.len() - p,
{
    if p < 0 || p + cols + 1 > x.len() {
        true
    } else if x[p] > 2 {
        false
    } else if cols == 0 {
        true
    } else {
        png_tags_ok(x, cols, p + cols + 1)
    }
}

/// Undoing the PNG predictor from `p` on: rows of one filter-type byte and `cols` data bytes;
/// an incomplete last row is dropped, and with no column the data ends at the first row.
pub open spec fn png_from(x: Seq<u8>, cols: nat, p: int, prev: Seq<u8>) -> Seq<u8>
    decreases x.len() - p,
{
    if p < 0 || p + cols + 1 > x.len() || cols == 0 {
        Seq::empty()
    } else {
        let row = png_row(x[p], x.subrange(p + 1, p + 1 + cols), prev);
        row + png_from(x, cols, p + cols + 1, row)
    }
}

/// The result of undoing the PNG predictor on `x`, with rows of `cols` bytes; the row above
/// the first one is all zeros.
pub open spec fn spec_png_decode(x: Seq<u8>, cols: nat) -> Seq<u8> {
    png_from(x, cols, 0, Seq::new(cols, |i: int| 0u8))
}

/// Decodes one row (see [`png_row`]).
fn decode_row(tag: u8, inr: &[u8], prev: &[u8]) -> (r: Vec<u8>)
    requires
        tag <= 2,
        tag == 2 ==> prev.len() == inr.len(),
    ensures
        r@ == png_row(tag, inr@, prev@),
        r@.len() == inr@.len(),
{
    let mut out: Vec<u8> = Vec::new();
    if tag == 0 {
        return subslice_to_vec(inr, 0, inr.len());
    }
    let mut i: usize = 0;
    let mut last: u8 = 0;
    assert(inr@.skip(0) =~= inr@);
    assert(out@ + sub_row(inr@, 0) =~= sub_row(inr@, 0));
    while i < inr.len()
        invariant
            0 <= i <= inr.len(),
            tag == 1 || tag == 2,
            tag == 2 ==> prev.len() == inr.len(),
            out@.len() == i,
            tag == 1 ==> out@ + sub_row(inr@.skip(i as int), last) == sub_row(inr@, 0),
            tag == 2 ==> out@ == up_row(prev@, inr@).take(i as int),
        decreases inr.len() - i,
    {
        let ghost old_out = out@;
        if tag == 1 {
            let v: u8 = ((last as u16 + inr[i] as u16) % 256) as u8;
            out.push(v);
            proof {
                assert(inr@.skip(i as int).drop_first() =~= inr@.skip(i + 1));
                assert(sub_row(inr@.skip(i as int), last) == seq![v] + sub_row(
                    inr@.skip(i + 1),
                    v,
                ));
                assert(out@ + sub_row(inr@.skip(i + 1), v) =~= old_out + sub_row(
                    inr@.skip(i as int),
                    last,
                ));
            }
            last = v;
        } else {
            let v: u8 = ((prev[i] as u16 + inr[i] as u16) % 256) as u8;
            out.push(v);
            assert(out@ =~= up_row(prev@, inr@).take(i + 1));
        }
        i += 1;
    }
    proof {
        if tag == 1 {
            assert(out@ + sub_row(inr@.skip(i as int), last) =~= out@);
        } else {
            assert(out@ =~= up_row(prev@, inr@));
        }
    }
    out
}

/// Checks [`png_tags_ok`] from the start.
pub fn check_png_tags(x: &[u8], cols: u64) -> (r: bool)
    ensures
        r == png_tags_ok(x@, cols as nat, 0),
{
    let n = x.len() as u64;
    if cols >= n {
        return true;
    }
    let mut p: u64 = 0;
    while p < n && cols < n - p
        invariant
            n == x@.len(),
            cols < n,
            p <= n,
            png_tags_ok(x@, cols as nat, 0) == png_tags_ok(x@, cols as nat, p as int),
        decreases n - p,
    {
        if x[p as usize] > 2 {
            return false;
        }
        if cols == 0 {
            return true;
        }
        p = p + cols + 1;
    }
    true
}

/// Undoes the PNG predictor (see [`spec_png_decode`]); every complete row must have an
/// implemented filter type.
pub fn png_decode(x: &[u8], cols: u64) -> (r: Vec<u8>)
    requires
        png_tags_ok(x@, cols as nat, 0),
    ensures
        r@ == spec_png_decode(x@, cols as nat),
{
    let n = x.len() as u64;
    let mut out: Vec<u8> = Vec::new();
    if cols >= n || cols == 0 {
        return out;
    }
    let mut prev: Vec<u8> = Vec::new();
    let mut k: u64 = 0;
    while k < cols
        invariant
            k <= cols,
            prev@ == Seq::new(k as nat, |i: int| 0u8),
        decreases cols - k,
    {
        prev.push(0);
        k += 1;
        assert(prev@ =~= Seq::new(k as nat, |i: int| 0u8));
    }
    let mut p: u64 = 0;
    while p < n && cols < n - p
        invariant
            n == x@.len(),
            0 < cols < n,
            p <= n,
            prev@.len() == cols,
            png_tags_ok(x@, cols as nat, p as int),
            spec_png_decode(x@, cols as nat) == out@ + png_from(x@, cols as nat, p as int, prev@),
        decreases n - p,
    {
        let tag = x[p as usize];
        let ghost old_out = out@;
        let inr = subslice_to_vec(x, (p + 1) as usize, (p + 1 + cols) as usize);
        let row = decode_row(tag, inr.as_slice(), prev.as_slice());
        assert(png_from(x@, cols as nat, p as int, prev@) == row@ + png_from(
            x@,
            cols as nat,
            p + cols + 1,
            row@,
        ));
        let mut i: usize = 0;
        while i < row.len()
            invariant
                0 <= i <= row.len(),
                out@ == old_out + row@.take(i as int),
            decreases row.len() - i,
        {
            out.push(row[i]);
            i += 1;
            assert(out@ =~= old_out + row@.take(i as int));
        }
        assert(row@.take(row.len() as int) =~= row@);
        assert(old_out + (row@ + png_from(x@, cols as nat, p + cols + 1, row@)) =~= out@
            + png_from(x@, cols as nat, p + cols + 1, row@));
        prev = row;
        p = p + cols + 1;
    }
    assert(png_from(x@, cols as nat, p as int, prev@) =~= Seq::<u8>::empty());
    assert(out@ + Seq::<u8>::empty() =~= out@);
    out
}

/// Whether the `/DecodeParms` of a `/FlateDecode` filter ask for a predictor that is
/// implemented: none, or one of the PNG predictors (10 to 15).
pub open spec fn predictor_supported(params: Seq<(Seq<u8>, SObject)>) -> bool {
    match spec_num_value(spec_lookup(params, predictor_bytes())) {
        None => true,
        Some(v) => 10 <= v <= 15,
    }
}

/// The number of columns for the PNG predictor: `/Columns`, 1 by default.
pub open spec fn png_columns(params: Seq<(Seq<u8>, SObject)>) -> u64 {
    match spec_num_value(spec_lookup(params, columns_bytes())) {
        None => 1,
        Some(v) => v,
    }
}

/// The error of a PNG row whose filter type is not implemented.
pub open spec fn png_type_error() -> Error {
    Error::Parse("unimplemented PNG predictor type")
}

/// Decoding `/FlateDecode` data with the given `/DecodeParms`: inflating (see
/// [`zlib_inflate`]), then undoing the PNG predictor when one is asked for. Without a predictor
/// every failure of the inflation is an error; with one, a stream that ends too early ends the
/// rows, and the complete rows inflated before it are kept.
pub open spec fn spec_flate_decode(input: Seq<u8>, params: Seq<(Seq<u8>, SObject)>) -> Result<
    Seq<u8>,
    Error,
> {
    let (x, failure) = zlib_inflate(input);
    match spec_num_value(spec_lookup(params, predictor_bytes())) {
        None => match failure {
            None => Ok(x),
            Some(k) => Err(Error::IO(k)),
        },
        Some(_) => if failure is Some && failure != Some(IoError::UnexpectedEof) {
            Err(Error::IO(failure->0))
        } else {
            let cols = png_columns(params);
            if png_tags_ok(x, cols as nat, 0) {
                Ok(spec_png_decode(x, cols as nat))
            } else {
                Err(png_type_error())
            }
        },
    }
}

/// Decodes `/FlateDecode` data (see [`spec_flate_decode`]). Inflated data whose PNG rows have
/// an unimplemented filter type is refused with [`png_type_error`].
pub fn decode(input: &[u8], params: &Dict) -> (r: Result<Vec<u8>, Error>)
    requires
        predictor_supported(params.sv()),
    ensures
        crate::bp::bytes_result(r) == spec_flate_decode(input@, params.sv()),
{
    let pk = predictor_key();
    let (x, failure) = inflate(input);
    match params.lookup(&pk).num_value() {
        None => match failure {
            None => Ok(x),
            Some(k) => Err(Error::IO(k)),
        },
        Some(_) => {
            match failure {
                Some(IoError::UnexpectedEof) | None => {},
                Some(k) => return Err(Error::IO(k)),
            }
            let ck = columns_key();
            let cols = match params.lookup(&ck).num_value() {
                Some(c) => c,
                None => 1,
            };
            if check_png_tags(x.as_slice(), cols) {
                Ok(png_decode(x.as_slice(), cols))
            } else {
                Err(Error::Parse("unimplemented PNG predictor type"))
            }
        },
    }
}

} // verus!
