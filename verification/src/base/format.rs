use vstd::prelude::*;

use super::object::{
    entries_sv, lemma_array_sv, lemma_dict_sv, lemma_stream_sv, objs_sv, Dict, Name, Number, ObjRef,
    Object, SData, SObject,
};
use crate::cc::{is_reg, is_regular};

verus! {

/// How a byte is written inside a literal string: the usual escapes for line feed, carriage
/// return, tab, backspace, form feed, parentheses and backslash; other printable ASCII as it
/// is; any other byte as a three-digit octal escape.
pub open spec fn escape_byte(c: u8) -> Seq<u8> {
    if c == 0x0A {
        seq![0x5Cu8, 0x6Eu8]
    } else if c == 0x0D {
        seq![0x5Cu8, 0x72u8]
    } else if c == 0x09 {
        seq![0x5Cu8, 0x74u8]
    } else if c == 0x08 {
        seq![0x5Cu8, 0x62u8]
    } else if c == 0x0C {
        seq![0x5Cu8, 0x66u8]
    } else if c == 0x28 || c == 0x29 || c == 0x5C {
        seq![0x5Cu8, c]
    } else if 0x20 <= c <= 0x7E {
        seq![c]
    } else {
        seq![0x5Cu8, (0x30 + c / 64) as u8, (0x30 + (c / 8) % 8) as u8, (0x30 + c % 8) as u8]
    }
}

/// The escapes of all bytes of `s`, in order.
pub open spec fn escape_all(s: Seq<u8>) -> Seq<u8>
    decreases s.len(),
{
    if s.len() == 0 {
        Seq::empty()
    } else {
        escape_all(s.drop_last()) + escape_byte(s.last())
    }
}

/// A byte string written as a literal string: `(`, the escaped bytes, `)`.
pub open spec fn spec_format_string(s: Seq<u8>) -> Seq<u8> {
    seq![0x28u8] + escape_all(s) + seq![0x29u8]
}

/// An uppercase hexadecimal digit.
pub open spec fn hex_digit_upper(v: u8) -> u8 {
    if v < 10 {
        (0x30 + v) as u8
    } else {
        (0x41 + v - 10) as u8
    }
}

/// How a byte is written in a name: printable regular bytes other than `#` as they are, any
/// other byte as `#` and two uppercase hexadecimal digits.
pub open spec fn name_byte(c: u8) -> Seq<u8> {
    if 0x21 <= c <= 0x7E && is_reg(c) && c != 0x23 {
        seq![c]
    } else {
        seq![0x23u8, hex_digit_upper(c / 16), hex_digit_upper(c % 16)]
    }
}

/// The written bytes of all bytes of a name.
pub open spec fn name_all(s: Seq<u8>) -> Seq<u8>
    decreases s.len(),
{
    if s.len() == 0 {
        Seq::empty()
    } else {
        name_all(s.drop_last()) + name_byte(s.last())
    }
}

/// A name as written: `/` and its bytes.
pub open spec fn spec_format_name(s: Seq<u8>) -> Seq<u8> {
    seq![0x2Fu8] + name_all(s)
}

/// Appends the bytes of `s` to `out`.
pub fn append_bytes(out: &mut Vec<u8>, s: &[u8])
    ensures
        final(out)@ == old(out)@ + s@,
{
    let ghost o = out@;
    let mut i: usize = 0;
    while i < s.len()
        invariant
            0 <= i <= s.len(),
            out@ == o + s@.take(i as int),
        decreases s.len() - i,
    {
        out.push(s[i]);
        i += 1;
        assert(out@ =~= o + s@.take(i as int));
    }
    assert(s@.take(s.len() as int) =~= s@);
}

/// Writes one byte of a literal string (see [`escape_byte`]).
fn push_escaped(out: &mut Vec<u8>, c: u8)
    ensures
        final(out)@ == old(out)@ + escape_byte(c),
{
    let ghost o = out@;
    if c == 0x0A {
        out.push(0x5C);
        out.push(0x6E);
    } else if c == 0x0D {
        out.push(0x5C);
        out.push(0x72);
    } else if c == 0x09 {
        out.push(0x5C);
        out.push(0x74);
    } else if c == 0x08 {
        out.push(0x5C);
        out.push(0x62);
    } else if c == 0x0C {
        out.push(0x5C);
        out.push(0x66);
    } else if c == 0x28 || c == 0x29 || c == 0x5C {
        out.push(0x5C);
        out.push(c);
    } else if 0x20 <= c && c <= 0x7E {
        out.push(c);
    } else {
        out.push(0x5C);
        out.push(0x30 + c / 64);
        out.push(0x30 + (c / 8) % 8);
        out.push(0x30 + c % 8);
    }
    assert(out@ =~= o + escape_byte(c));
}

/// Writes a byte string as a literal string (see [`spec_format_string`]).
pub fn format_string(s: &[u8]) -> (r: Vec<u8>)
    ensures
        r@ == spec_format_string(s@),
{
    let mut out: Vec<u8> = Vec::new();
    out.push(0x28);
    let mut i: usize = 0;
    while i < s.len()
        invariant
            0 <= i <= s.len(),
            out@ == seq![0x28u8] + escape_all(s@.take(i as int)),
        decreases s.len() - i,
    {
        push_escaped(&mut out, s[i]);
        proof {
            assert(s@.take(i + 1).drop_last() =~= s@.take(i as int));
            assert(s@.take(i + 1).last() == s@[i as int]);
            assert(out@ =~= seq![0x28u8] + escape_all(s@.take(i + 1)));
        }
        i += 1;
    }
    out.push(0x29);
    assert(s@.take(s.len() as int) =~= s@);
    assert(out@ =~= spec_format_string(s@));
    out
}

/// An uppercase hexadecimal digit.
fn hex_upper(v: u8) -> (r: u8)
    requires
        v < 16,
    ensures
        r == hex_digit_upper(v),
{
    if v < 10 {
        0x30 + v
    } else {
        0x41 + v - 10
    }
}

/// Writes a name (see [`spec_format_name`]).
pub fn format_name(s: &[u8]) -> (r: Vec<u8>)
    ensures
        r@ == spec_format_name(s@),
{
    let mut out: Vec<u8> = Vec::new();
    out.push(0x2F);
    let mut i: usize = 0;
    while i < s.len()
        invariant
            0 <= i <= s.len(),
            out@ == seq![0x2Fu8] + name_all(s@.take(i as int)),
        decreases s.len() - i,
    {
        let c = s[i];
        let ghost o = out@;
        if 0x21 <= c && c <= 0x7E && is_regular(c) && c != 0x23 {
            out.push(c);
        } else {
            out.push(0x23);
            out.push(hex_upper(c / 16));
            out.push(hex_upper(c % 16));
        }
        proof {
            assert(out@ =~= o + name_byte(c));
            assert(s@.take(i + 1).drop_last() =~= s@.take(i as int));
            assert(s@.take(i + 1).last() == c);
            assert(out@ =~= seq![0x2Fu8] + name_all(s@.take(i + 1)));
        }
        i += 1;
    }
    assert(s@.take(s.len() as int) =~= s@);
    out
}

impl Name {
    /// The name as written in PDF syntax (see [`spec_format_name`]).
    pub fn format(&self) -> (r: Vec<u8>)
        ensures
            r@ == spec_format_name(self.0@),
    {
        format_name(self.0.as_slice())
    }
}

/// The decimal digits of `n`.
pub open spec fn dec_digits(n: nat) -> Seq<u8>
    decreases n,
{
    if n < 10 {
        seq![(0x30 + n) as u8]
    } else {
        dec_digits(n / 10) + seq![(0x30 + n % 10) as u8]
    }
}

/// An integer in decimal, with `-` when negative.
pub open spec fn spec_format_int(i: int) -> Seq<u8> {
    if i < 0 {
        seq![0x2Du8] + dec_digits((-i) as nat)
    } else {
        dec_digits(i as nat)
    }
}

/// Writes `n` in decimal.
pub fn format_u64(n: u64) -> (r: Vec<u8>)
    ensures
        r@ == dec_digits(n as nat),
    decreases n,
{
    if n < 10 {
        let mut v: Vec<u8> = Vec::new();
        v.push((0x30 + n) as u8);
        assert(v@ =~= dec_digits(n as nat));
        v
    } else {
        let mut v = format_u64(n / 10);
        v.push((0x30 + n % 10) as u8);
        assert(v@ =~= dec_digits(n as nat));
        v
    }
}

/// Writes `i` in decimal.
pub fn format_i64(i: i64) -> (r: Vec<u8>)
    ensures
        r@ == spec_format_int(i as int),
{
    if i < 0 {
        let m: u64 = if i == i64::MIN {
            9223372036854775808
        } else {
            (-i) as u64
        };
        let mut v: Vec<u8> = Vec::new();
        v.push(0x2D);
        let d = format_u64(m);
        append_bytes(&mut v, d.as_slice());
        v
    } else {
        format_u64(i as u64)
    }
}

/// A reference as written: `num gen R`.
pub open spec fn spec_format_ref(r: ObjRef) -> Seq<u8> {
    dec_digits(r.num as nat) + seq![0x20u8] + dec_digits(r.gen as nat) + seq![0x20u8, 0x52u8]
}

/// An object as written in PDF syntax: reals as their literals, arrays as `[ item item ]`,
/// dictionaries as `<< /key value >>`, a stream as its dictionary followed by ` [stream]`.
pub open spec fn spec_format_obj(o: SObject) -> Seq<u8>
    decreases o, 0int,
{
    match o {
        SObject::Bool(b) => if b {
            seq![0x74u8, 0x72u8, 0x75u8, 0x65u8]
        } else {
            seq![0x66u8, 0x61u8, 0x6Cu8, 0x73u8, 0x65u8]
        },
        SObject::Int(i) => spec_format_int(i as int),
        SObject::Real(r) => r,
        SObject::String(s) => spec_format_string(s),
        SObject::Name(n) => spec_format_name(n),
        SObject::Array(items) => seq![0x5Bu8, 0x20u8] + spec_format_items(items, 0) + seq![0x5Du8],
        SObject::Dict(entries) => spec_format_dict(entries, 0),
        SObject::Stream(entries, _) => spec_format_dict(entries, 0) + seq![
            0x20u8,
            0x5Bu8,
            0x73u8,
            0x74u8,
            0x72u8,
            0x65u8,
            0x61u8,
            0x6Du8,
            0x5Du8,
        ],
        SObject::Ref(r) => spec_format_ref(r),
        SObject::Null => seq![0x6Eu8, 0x75u8, 0x6Cu8, 0x6Cu8],
    }
}

/// Array items from `j` on, each followed by a space.
pub open spec fn spec_format_items(items: Seq<SObject>, j: int) -> Seq<u8>
    decreases items, items.len() - j,
{
    if j < 0 || j >= items.len() {
        Seq::empty()
    } else {
        spec_format_obj(items[j]) + seq![0x20u8] + spec_format_items(items, j + 1)
    }
}

/// A dictionary from entry `j` on: `<< ` (at the start), each key and value followed by a
/// space, and `>>`.
pub open spec fn spec_format_dict(entries: Seq<(Seq<u8>, SObject)>, j: int) -> Seq<u8>
    decreases entries, entries.len() - j,
{
    if j < 0 || j > entries.len() {
        Seq::empty()
    } else if j == entries.len() {
        if j == 0 {
            seq![0x3Cu8, 0x3Cu8, 0x20u8, 0x3Eu8, 0x3Eu8]
        } else {
            seq![0x3Eu8, 0x3Eu8]
        }
    } else {
        (if j == 0 {
            seq![0x3Cu8, 0x3Cu8, 0x20u8]
        } else {
            Seq::empty()
        }) + spec_format_name(entries[j].0) + seq![0x20u8] + spec_format_obj(entries[j].1) + seq![
            0x20u8,
        ] + spec_format_dict(entries, j + 1)
    }
}

/// Writes an object (see [`spec_format_obj`]).
fn write_obj(out: &mut Vec<u8>, o: &Object)
    ensures
        final(out)@ == old(out)@ + spec_format_obj(o.sv()),
    decreases o, 0int,
{
    let ghost o0 = out@;
    match o {
        Object::Bool(b) => {
            if *b {
                let t: [u8; 4] = [0x74, 0x72, 0x75, 0x65];
                append_bytes(out, &t);
                assert(t@ =~= seq![0x74u8, 0x72u8, 0x75u8, 0x65u8]);
            } else {
                let f: [u8; 5] = [0x66, 0x61, 0x6C, 0x73, 0x65];
                append_bytes(out, &f);
                assert(f@ =~= seq![0x66u8, 0x61u8, 0x6Cu8, 0x73u8, 0x65u8]);
            }
        },
        Object::Number(Number::Int(i)) => {
            let d = format_i64(*i);
            append_bytes(out, d.as_slice());
        },
        Object::Number(Number::Real(r)) => {
            append_bytes(out, r.as_slice());
        },
        Object::String(st) => {
            let d = format_string(st.as_slice());
            append_bytes(out, d.as_slice());
        },
        Object::Name(n) => {
            let d = n.format();
            append_bytes(out, d.as_slice());
        },
        Object::Array(a) => {
            proof {
                lemma_array_sv(*a);
            }
            out.push(0x5B);
            out.push(0x20);
            write_items(out, a);
            out.push(0x5D);
            assert(out@ =~= o0 + spec_format_obj(o.sv()));
        },
        Object::Dict(d) => {
            proof {
                lemma_dict_sv(*d);
            }
            write_dict(out, d);
        },
        Object::Stream(st) => {
            proof {
                lemma_stream_sv(*st);
            }
            write_dict(out, &st.dict);
            let k: [u8; 9] = [0x20, 0x5B, 0x73, 0x74, 0x72, 0x65, 0x61, 0x6D, 0x5D];
            append_bytes(out, &k);
            assert(out@ =~= o0 + spec_format_obj(o.sv()));
        },
        Object::Ref(r) => {
            let d = r.format_ref();
            append_bytes(out, d.as_slice());
        },
        Object::Null => {
            let k: [u8; 4] = [0x6E, 0x75, 0x6C, 0x6C];
            append_bytes(out, &k);
            assert(k@ =~= seq![0x6Eu8, 0x75u8, 0x6Cu8, 0x6Cu8]);
        },
    }
}

/// Writes array items, each followed by a space (see [`spec_format_items`]).
fn write_items(out: &mut Vec<u8>, items: &Vec<Object>)
    ensures
        final(out)@ == old(out)@ + spec_format_items(objs_sv(items@), 0),
    decreases items, 1int,
{
    let ghost o0 = out@;
    let ghost s = objs_sv(items@);
    let mut j: usize = 0;
    while j < items.len()
        invariant
            0 <= j <= items.len(),
            s == objs_sv(items@),
            o0 + spec_format_items(s, 0) == out@ + spec_format_items(s, j as int),
        decreases items.len() - j,
    {
        proof {
            assert(decreases_to!(*items => items[j as int]));
        }
        let ghost before = out@;
        write_obj(out, &items[j]);
        out.push(0x20);
        assert(out@ + spec_format_items(s, j + 1) =~= before + spec_format_items(s, j as int));
        j += 1;
    }
    assert(out@ + spec_format_items(s, j as int) =~= out@);
}

/// Writes a dictionary (see [`spec_format_dict`]).
fn write_dict(out: &mut Vec<u8>, d: &Dict)
    ensures
        final(out)@ == old(out)@ + spec_format_dict(d.sv(), 0),
    decreases d, 1int,
{
    let ghost o0 = out@;
    let ghost s = d.sv();
    out.push(0x3C);
    out.push(0x3C);
    out.push(0x20);
    let mut j: usize = 0;
    assert(o0 + spec_format_dict(s, 0) =~= out@ + (if d.0.len() == 0 {
        seq![0x3Eu8, 0x3Eu8]
    } else {
        spec_format_dict(s, 0).skip(3)
    }));
    while j < d.0.len()
        invariant
            0 <= j <= d.0.len(),
            s == d.sv(),
            j == 0 ==> o0 + spec_format_dict(s, 0) == out@ + spec_format_dict(s, 0).skip(3),
            j > 0 ==> o0 + spec_format_dict(s, 0) == out@ + spec_format_dict(s, j as int),
        decreases d.0.len() - j,
    {
        proof {
            assert(decreases_to!(d.0 => d.0[j as int]));
            assert(decreases_to!(d.0[j as int] => d.0[j as int].1));
        }
        let ghost before = out@;
        let k = d.0[j].0.format();
        append_bytes(out, k.as_slice());
        out.push(0x20);
        write_obj(out, &d.0[j].1);
        out.push(0x20);
        proof {
            assert(s[j as int] == (d.0@[j as int].0.0@, d.0@[j as int].1.sv()));
            if j == 0 {
                assert(spec_format_dict(s, 0).skip(3) =~= spec_format_name(s[0].0) + seq![0x20u8]
                    + spec_format_obj(s[0].1) + seq![0x20u8] + spec_format_dict(s, 1));
            }
            assert(out@ + spec_format_dict(s, j + 1) =~= before + (spec_format_name(s[j as int].0)
                + seq![0x20u8] + spec_format_obj(s[j as int].1) + seq![0x20u8] + spec_format_dict(s, j + 1)));
        }
        j += 1;
    }
    out.push(0x3E);
    out.push(0x3E);
    proof {
        if j == 0 {
            assert(spec_format_dict(s, 0).skip(3) =~= seq![0x3Eu8, 0x3Eu8]);
        }
    }
    assert(out@ =~= o0 + spec_format_dict(s, 0));
}

impl ObjRef {
    /// The reference as written: `num gen R` (see [`spec_format_ref`]).
    pub fn format_ref(&self) -> (r: Vec<u8>)
        ensures
            r@ == spec_format_ref(*self),
    {
        let mut out = format_u64(self.num);
        out.push(0x20);
        let g = format_u64(self.gen as u64);
        append_bytes(&mut out, g.as_slice());
        out.push(0x20);
        out.push(0x52);
        assert(out@ =~= spec_format_ref(*self));
        out
    }

    /// The object and generation numbers: `num gen`.
    pub fn format(&self) -> (r: Vec<u8>)
        ensures
            r@ == dec_digits(self.num as nat) + seq![0x20u8] + dec_digits(self.gen as nat),
    {
        let mut out = format_u64(self.num);
        out.push(0x20);
        let g = format_u64(self.gen as u64);
        append_bytes(&mut out, g.as_slice());
        out
    }
}

impl Object {
    /// The object as written in PDF syntax (see [`spec_format_obj`]).
    pub fn format(&self) -> (r: Vec<u8>)
        ensures
            r@ == spec_format_obj(self.sv()),
    {
        let mut out: Vec<u8> = Vec::new();
        write_obj(&mut out, self);
        assert(out@ =~= spec_format_obj(self.sv()));
        out
    }
}

impl Dict {
    /// The dictionary as written in PDF syntax (see [`spec_format_dict`]).
    pub fn format(&self) -> (r: Vec<u8>)
        ensures
            r@ == spec_format_dict(self.sv(), 0),
    {
        let mut out: Vec<u8> = Vec::new();
        write_dict(&mut out, self);
        assert(out@ =~= spec_format_dict(self.sv(), 0));
        out
    }
}

} // verus!
