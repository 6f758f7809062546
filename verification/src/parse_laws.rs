use vstd::prelude::*;

use crate::base::object::spec_num_value;
use crate::base::{spec_lookup, Error, Record, SData, SObject};
use crate::codecs::flate::{png_from, spec_flate_decode, spec_png_decode, zlib_inflate};
use crate::names::{columns_bytes, predictor_bytes};
use crate::bp::{CR, LF};
use crate::fp::{spec_read_at, spec_stream_start, spec_xref_line, STLO};
use crate::kw::{kw1, kw2, kw_stream};
use crate::op::{left, spec_array, spec_dict, spec_name, spec_name_decode, spec_obj};
use crate::tk::spec_read_token;
use crate::utils::{digits_value, is_digit};

verus! {

/// After the `stream` keyword, whose end is at `p`, the stream data starts just past the end of
/// line that follows: past an LF, or past a CR and the LF after it. A CR without an LF after it,
/// or any other byte, is refused. Whenever the data has a start, the byte before it is an LF.
pub proof fn law_stream_data_start(d: Seq<u8>, p: int)
    ensures
        0 <= p < d.len() && d[p] == LF ==> spec_stream_start(d, p) == Ok::<int, Error>(p + 1),
        0 <= p && p + 1 < d.len() && d[p] == CR && d[p + 1] == LF ==> spec_stream_start(d, p)
            == Ok::<int, Error>(p + 2),
        0 <= p && p + 1 < d.len() && d[p] == CR && d[p + 1] != LF ==> spec_stream_start(d, p) is Err,
        0 <= p < d.len() && d[p] != CR && d[p] != LF ==> spec_stream_start(d, p) is Err,
        spec_stream_start(d, p) is Ok ==> ({
            let s = spec_stream_start(d, p)->Ok_0;
            &&& p < s <= d.len()
            &&& d[s - 1] == LF
            &&& s == p + 1 || (s == p + 2 && d[p] == CR)
        }),
{
}

/// An array read in full is an array.
proof fn lemma_array_shape(d: Seq<u8>, p: int, acc: Seq<SObject>)
    ensures
        spec_array(d, p, acc).0 is Ok ==> spec_array(d, p, acc).0->Ok_0 is Array,
    decreases left(d, p),
{
    let (r, p1) = spec_read_token(d, p);
    if r is Ok && r->Ok_0 != kw1(0x5D) {
        let (o, p2) = spec_obj(d, p);
        if o is Ok && left(d, p2) < left(d, p) {
            lemma_array_shape(d, p2, acc.push(o->Ok_0));
        }
    }
}

/// A dictionary read in full is a dictionary.
proof fn lemma_dict_shape(d: Seq<u8>, p: int, acc: Seq<(Seq<u8>, SObject)>)
    ensures
        spec_dict(d, p, acc).0 is Ok ==> spec_dict(d, p, acc).0->Ok_0 is Dict,
    decreases left(d, p),
{
    let (r, p1) = spec_read_token(d, p);
    if r is Ok && r->Ok_0 != kw2(0x3E) && r->Ok_0 == kw1(0x2F) {
        let (k, p2) = spec_name(d, p1);
        if k is Ok {
            let (v, p3) = spec_obj(d, p2);
            if v is Ok && left(d, p3) < left(d, p) {
                lemma_dict_shape(d, p3, acc.push((k->Ok_0, v->Ok_0)));
            }
        }
    }
}

/// An object read on its own is never a stream: only a dictionary followed by `stream` at the
/// top level of a file makes one.
proof fn lemma_obj_not_stream(d: Seq<u8>, p: int)
    ensures
        spec_obj(d, p).0 is Ok ==> !(spec_obj(d, p).0->Ok_0 is Stream),
{
    let (r, p1) = spec_read_token(d, p);
    if r is Ok {
        lemma_array_shape(d, p1, Seq::empty());
        lemma_dict_shape(d, p1, Seq::empty());
    }
}

/// The data of a stream at `s` follows the keyword `stream` and its end of line: an LF, or a CR
/// and an LF.
pub open spec fn data_follows_stream_keyword(d: Seq<u8>, s: int) -> bool {
    &&& 7 <= s <= d.len()
    &&& d[s - 1] == LF
    &&& (d.subrange(s - 7, s - 1) == kw_stream() || (s >= 8 && d[s - 2] == CR && d.subrange(
        s - 8,
        s - 2,
    ) == kw_stream()))
}

/// A `stream` token read at `p` is the six bytes just before where the reading ends.
proof fn lemma_keyword_token_ends(d: Seq<u8>, p: int)
    ensures
        ({
            let (r, e) = spec_read_token(d, p);
            r == Ok::<Seq<u8>, Error>(kw_stream()) ==> 6 <= e <= d.len() && d.subrange(e - 6, e)
                == kw_stream()
        }),
{
    let (r, e) = spec_read_token(d, p);
    if r == Ok::<Seq<u8>, Error>(kw_stream()) {
        let q = crate::tk::ws_end(d, p, false);
        crate::tk::lemma_ws_end_bounds(d, p, false);
        assert(r->Ok_0[0] == 0x73);
        assert(!crate::cc::is_delim(0x73u8));
        crate::tk::lemma_reg_end_bounds(d, q + 1);
        assert(r->Ok_0 == d.subrange(q, e));
        assert(e == q + 6);
    }
}

/// Whenever reading a file at `p` gives a stream object, its data starts just after the
/// keyword `stream` and the end of line (LF, or CR LF) that follows it.
#[verifier::rlimit(40)]
pub proof fn law_stream_data_follows_keyword(d: Seq<u8>, p: int)
    requires
        d.len() <= u64::MAX,
    ensures
        match spec_read_at(d, p) {
            Ok(STLO::IndirObject(_, SObject::Stream(_, SData::Ref(s)))) => data_follows_stream_keyword(
                d,
                s as int,
            ),
            _ => true,
        },
{
    let (r, p1) = spec_read_token(d, p);
    if r is Ok {
        let (r2, p2) = spec_read_token(d, p1);
        let (r3, p3) = spec_read_token(d, p2);
        let (o, p4) = spec_obj(d, p3);
        lemma_obj_not_stream(d, p3);
        let (r4, p5) = spec_read_token(d, p4);
        lemma_keyword_token_ends(d, p4);
        law_stream_data_start(d, p5);
    }
}

/// The value of a decimal digit.
pub open spec fn decimal(c: u8) -> int {
    c - 0x30
}

/// The generation field of a cross-reference table line: the five digits at 11 to 15.
pub open spec fn line_generation(line: Seq<u8>) -> int {
    10000 * decimal(line[11]) + 1000 * decimal(line[12]) + 100 * decimal(line[13]) + 10 * decimal(
        line[14],
    ) + decimal(line[15])
}

/// The value of `n` decimal digits is below `10` to the `n`.
proof fn lemma_digits_below(s: Seq<u8>, bound: nat)
    requires
        forall|i: int| 0 <= i < s.len() ==> is_digit(#[trigger] s[i]),
        s.len() <= 10,
        bound == (if s.len() == 0 { 1nat } else if s.len() == 1 { 10nat } else if s.len() == 2 {
            100nat
        } else if s.len() == 3 { 1000nat } else if s.len() == 4 { 10000nat } else if s.len() == 5 {
            100000nat
        } else if s.len() == 6 { 1000000nat } else if s.len() == 7 { 10000000nat } else if s.len()
            == 8 { 100000000nat } else if s.len() == 9 { 1000000000nat } else { 10000000000nat }),
    ensures
        digits_value(s) < bound,
    decreases s.len(),
{
    if s.len() > 0 {
        let t = s.drop_last();
        let b2: nat = if t.len() == 0 { 1nat } else if t.len() == 1 { 10nat } else if t.len() == 2 {
            100nat
        } else if t.len() == 3 { 1000nat } else if t.len() == 4 { 10000nat } else if t.len() == 5 {
            100000nat
        } else if t.len() == 6 { 1000000nat } else if t.len() == 7 { 10000000nat } else if t.len()
            == 8 { 100000000nat } else { 1000000000nat };
        lemma_digits_below(t, b2);
        assert(is_digit(s[s.len() - 1]));
    }
}

/// The value of five decimal digits, written out.
proof fn lemma_five_digits(s: Seq<u8>)
    requires
        s.len() == 5,
        forall|i: int| 0 <= i < 5 ==> is_digit(#[trigger] s[i]),
    ensures
        digits_value(s) == 10000 * decimal(s[0]) + 1000 * decimal(s[1]) + 100 * decimal(s[2]) + 10
            * decimal(s[3]) + decimal(s[4]),
{
    let s4 = s.drop_last();
    let s3 = s4.drop_last();
    let s2 = s3.drop_last();
    let s1 = s2.drop_last();
    let s0 = s1.drop_last();
    assert(s0.len() == 0);
    assert(s1.last() == s[0] && s2.last() == s[1] && s3.last() == s[2] && s4.last() == s[3]);
    assert(is_digit(s[0]) && is_digit(s[1]) && is_digit(s[2]) && is_digit(s[3]) && is_digit(s[4]));
    assert(digits_value(s0) == 0);
    assert(digits_value(s1) == decimal(s[0]));
    assert(digits_value(s2) == digits_value(s1) * 10 + decimal(s[1]));
    assert(digits_value(s3) == digits_value(s2) * 10 + decimal(s[2]));
    assert(digits_value(s4) == digits_value(s3) * 10 + decimal(s[3]));
    assert(digits_value(s) == digits_value(s4) * 10 + decimal(s[4]));
}

/// A well-formed 20-byte cross-reference table line (ten digits, a space, five digits, a space,
/// `n` or `f`, and two end-of-line bytes) gives the record of its fields: the number in the
/// first ten digits (the offset of an object in use, or the next free number), and the
/// generation in the five digits at 11 to 15, where it fits in 16 bits.
pub proof fn law_xref_line_fields(line: Seq<u8>)
    requires
        line.len() == 20,
        forall|i: int| 0 <= i < 10 ==> is_digit(#[trigger] line[i]),
        line[10] == 0x20,
        forall|i: int| 11 <= i < 16 ==> is_digit(#[trigger] line[i]),
        line[16] == 0x20,
        line[17] == 0x6E || line[17] == 0x66,
        line_generation(line) <= u16::MAX,
    ensures
        ({
            let gen = line_generation(line) as u16;
            let num = digits_value(line.subrange(0, 10)) as u64;
            &&& digits_value(line.subrange(0, 10)) < 10000000000
            &&& line[17] == 0x6E ==> spec_xref_line(line) == Some(Record::Used { gen, offset: num })
            &&& line[17] == 0x66 ==> spec_xref_line(line) == Some(Record::Free { gen, next: num })
        }),
{
    let a = line.subrange(0, 10);
    let g = line.subrange(11, 16);
    assert forall|i: int| 0 <= i < a.len() implies is_digit(#[trigger] a[i]) by {
        assert(a[i] == line[i]);
    }
    assert forall|i: int| 0 <= i < g.len() implies is_digit(#[trigger] g[i]) by {
        assert(g[i] == line[11 + i]);
    }
    lemma_digits_below(a, 10000000000nat);
    lemma_five_digits(g);
    assert(g[0] == line[11] && g[1] == line[12] && g[2] == line[13] && g[3] == line[14] && g[4]
        == line[15]);
    assert(crate::utils::unsigned_digits(a) == a);
    assert(crate::utils::unsigned_digits(g) == g);
    assert(crate::utils::all_digits(a));
    assert(crate::utils::all_digits(g));
}

/// A hexadecimal digit: `0-9`, `A-F` or `a-f`.
pub open spec fn is_hex_digit(c: u8) -> bool {
    (0x30 <= c <= 0x39) || (0x41 <= c <= 0x46) || (0x61 <= c <= 0x66)
}

/// The value of a hexadecimal digit.
pub open spec fn hex_digit_value(c: u8) -> int {
    if c <= 0x39 {
        c - 0x30
    } else if c <= 0x46 {
        c - 0x41 + 10
    } else {
        c - 0x61 + 10
    }
}

/// In a name, `#` and two hexadecimal digits of either case (other than `00`) stand for the
/// byte they write: decoding from the `#` goes on after the digits with that byte added, and
/// the escape alone decodes to that one byte.
pub proof fn law_name_hex_escape(t: Seq<u8>, i: int, acc: Seq<u8>)
    requires
        0 <= i,
        i + 2 < t.len(),
        t[i] == 0x23,
        is_hex_digit(t[i + 1]),
        is_hex_digit(t[i + 2]),
        !(t[i + 1] == 0x30 && t[i + 2] == 0x30),
    ensures
        ({
            let b = (hex_digit_value(t[i + 1]) * 16 + hex_digit_value(t[i + 2])) as u8;
            &&& 0 <= hex_digit_value(t[i + 1]) * 16 + hex_digit_value(t[i + 2]) < 256
            &&& spec_name_decode(t, i, acc) == spec_name_decode(t, i + 3, acc.push(b))
            &&& spec_name_decode(seq![0x23u8, t[i + 1], t[i + 2]], 0, Seq::empty()) == Ok::<
                Seq<u8>,
                Error,
            >(seq![b])
        }),
{
    let e = seq![0x23u8, t[i + 1], t[i + 2]];
    let b = (hex_digit_value(t[i + 1]) * 16 + hex_digit_value(t[i + 2])) as u8;
    assert(spec_name_decode(e, 3, Seq::<u8>::empty().push(b)) == Ok::<Seq<u8>, Error>(seq![b]));
}

/// A PNG row of one column: with the `Up` filter type (2) its byte is added to the one above
/// it (mod 256); with any other type the byte stands as it is.
pub open spec fn one_column_byte(tag: u8, b: u8, above: u8) -> u8 {
    if tag == 2 {
        ((above + b) % 256) as u8
    } else {
        b
    }
}

/// What undoing the PNG predictor gives on rows of one column: one byte per complete row of
/// two bytes, each decoded from its filter type, its byte, and the byte decoded before it
/// (`first_above` above the first row).
pub open spec fn is_one_column_decoding(x: Seq<u8>, p: int, first_above: u8, out: Seq<u8>) -> bool {
    &&& out.len() == (x.len() - p) / 2
    &&& forall|j: int|
        0 <= j < out.len() ==> #[trigger] out[j] == one_column_byte(
            x[p + 2 * j],
            x[p + 2 * j + 1],
            if j == 0 {
                first_above
            } else {
                out[j - 1]
            },
        )
}

/// Undoing the PNG predictor on rows of one column, from an even position on.
proof fn lemma_png_one_column_from(x: Seq<u8>, p: int, prev: Seq<u8>)
    requires
        0 <= p <= x.len(),
        prev.len() == 1,
    ensures
        is_one_column_decoding(x, p, prev[0], png_from(x, 1, p, prev)),
    decreases x.len() - p,
{
    let out = png_from(x, 1, p, prev);
    if p + 2 > x.len() {
        assert(out.len() == 0);
    } else {
        let inr = x.subrange(p + 1, p + 2);
        let row = crate::codecs::flate::png_row(x[p], inr, prev);
        assert(inr.len() == 1 && inr[0] == x[p + 1]);
        if x[p] == 1 {
            assert(inr.drop_first().len() == 0);
            assert(crate::codecs::flate::sub_row(inr.drop_first(), ((0 + inr[0]) % 256) as u8)
                == Seq::<u8>::empty());
        }
        assert(row.len() == 1);
        assert(row[0] == one_column_byte(x[p], x[p + 1], prev[0]));
        lemma_png_one_column_from(x, p + 2, row);
        let rest = png_from(x, 1, p + 2, row);
        assert(out == row + rest);
        assert forall|j: int| 0 <= j < out.len() implies #[trigger] out[j] == one_column_byte(
            x[p + 2 * j],
            x[p + 2 * j + 1],
            if j == 0 {
                prev[0]
            } else {
                out[j - 1]
            },
        ) by {
            if j > 0 {
                assert(out[j] == rest[j - 1]);
                assert(p + 2 + 2 * (j - 1) == p + 2 * j);
                if j > 1 {
                    assert(out[j - 1] == rest[j - 2]);
                } else {
                    assert(out[0] == row[0]);
                }
            }
        }
    }
}

/// Looking a key up in a dictionary with one more entry at its end.
proof fn lemma_lookup_push(e: Seq<(Seq<u8>, SObject)>, k: Seq<u8>, v: SObject, q: Seq<u8>)
    ensures
        q != k ==> spec_lookup(e.push((k, v)), q) == spec_lookup(e, q),
        q == k && spec_lookup(e, q) == SObject::Null ==> spec_lookup(e.push((k, v)), q)
            == SObject::Null || spec_lookup(e.push((k, v)), q) == v,
    decreases e.len(),
{
    let f = e.push((k, v));
    if e.len() == 0 {
        assert(f.drop_first() =~= Seq::<(Seq<u8>, SObject)>::empty());
        assert(f[0] == (k, v));
        assert(spec_lookup(f.drop_first(), q) == SObject::Null);
    } else {
        assert(f[0] == e[0]);
        assert(f.drop_first() =~= e.drop_first().push((k, v)));
        lemma_lookup_push(e.drop_first(), k, v, q);
    }
}

/// With a PNG predictor and no `/Columns` (or a null one), flate decoding reads rows of one
/// column: it gives what it gives with `/Columns 1` added, and what it gives on success is one
/// byte for each complete row of two inflated bytes (see [`is_one_column_decoding`], with zero
/// above the first row).
pub proof fn law_png_columns_default(input: Seq<u8>, params: Seq<(Seq<u8>, SObject)>)
    requires
        spec_num_value(spec_lookup(params, predictor_bytes())) is Some,
        spec_lookup(params, columns_bytes()) == SObject::Null,
    ensures
        spec_flate_decode(input, params) == spec_flate_decode(
            input,
            params.push((columns_bytes(), SObject::Int(1))),
        ),
        spec_flate_decode(input, params) is Ok ==> is_one_column_decoding(
            zlib_inflate(input).0,
            0,
            0,
            spec_flate_decode(input, params)->Ok_0,
        ),
{
    let more = params.push((columns_bytes(), SObject::Int(1)));
    assert(predictor_bytes() != columns_bytes()) by {
        assert(predictor_bytes().len() != columns_bytes().len());
    }
    lemma_lookup_push(params, columns_bytes(), SObject::Int(1), predictor_bytes());
    lemma_lookup_push(params, columns_bytes(), SObject::Int(1), columns_bytes());
    let zero = Seq::new(1, |i: int| 0u8);
    lemma_png_one_column_from(zlib_inflate(input).0, 0, zero);
    assert(spec_png_decode(zlib_inflate(input).0, 1) == png_from(zlib_inflate(input).0, 1, 0, zero));
}

} // verus!
