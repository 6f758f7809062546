use vstd::prelude::*;

use crate::base::format::{append_bytes, dec_digits, format_u64, spec_format_name, spec_format_obj};
use crate::base::object::{lemma_array_sv, lemma_dict_sv, lemma_stream_sv};
use crate::base::{objs_sv, Dict, Object, SObject};

verus! {

/// A line break.
pub const NEWLINE: u8 = 0x0A;

/// The indentation of `n` levels: two spaces each.
pub open spec fn indentation(n: nat) -> Seq<u8>
    decreases n,
{
    if n == 0 {
        Seq::empty()
    } else {
        indentation((n - 1) as nat) + seq![0x20u8, 0x20u8]
    }
}

/// The level below `n` (it stays at the largest level).
pub open spec fn deeper(n: usize) -> usize {
    if n < usize::MAX {
        (n + 1) as usize
    } else {
        n
    }
}

/// An object laid out over lines at indentation level `ind` (the first line is not indented,
/// as it follows what comes before it): an array as `[`, one line per item with its index
/// counted from 1 (`[1] `), and `]`; a dictionary as `<<`, one line per key and value, and
/// `>>`; a stream as its dictionary and a line `[stream]`; any other object as written in PDF
/// syntax, on one line.
pub open spec fn spec_pretty(o: SObject, ind: usize) -> Seq<u8>
    decreases o, 0int,
{
    match o {
        SObject::Array(items) => seq![0x5Bu8, NEWLINE] + spec_pretty_items(items, ind, 0) + indentation(
            ind as nat,
        ) + seq![0x5Du8, NEWLINE],
        SObject::Dict(entries) => spec_pretty_dict(entries, ind, 0),
        SObject::Stream(entries, _) => spec_pretty_dict(entries, ind, 0) + indentation(ind as nat)
            + seq![0x5Bu8, 0x73u8, 0x74u8, 0x72u8, 0x65u8, 0x61u8, 0x6Du8, 0x5Du8, NEWLINE],
        _ => spec_format_obj(o) + seq![NEWLINE],
    }
}

/// The lines of array items from `j` on.
pub open spec fn spec_pretty_items(items: Seq<SObject>, ind: usize, j: int) -> Seq<u8>
    decreases items, items.len() - j,
{
    if j < 0 || j >= items.len() {
        Seq::empty()
    } else {
        indentation(ind as nat) + seq![0x20u8, 0x20u8, 0x5Bu8] + dec_digits((j + 1) as nat) + seq![
            0x5Du8,
            0x20u8,
        ] + spec_pretty(items[j], deeper(ind)) + spec_pretty_items(items, ind, j + 1)
    }
}

/// A dictionary laid out over lines, from entry `j` on (`<<` before the first one, `>>` after
/// the last).
pub open spec fn spec_pretty_dict(entries: Seq<(Seq<u8>, SObject)>, ind: usize, j: int) -> Seq<u8>
    decreases entries, entries.len() - j,
{
    if j < 0 || j > entries.len() {
        Seq::empty()
    } else {
        (if j == 0 {
            seq![0x3Cu8, 0x3Cu8, NEWLINE]
        } else {
            Seq::empty()
        }) + if j == entries.len() {
            indentation(ind as nat) + seq![0x3Eu8, 0x3Eu8, NEWLINE]
        } else {
            indentation(ind as nat) + seq![0x20u8, 0x20u8] + spec_format_name(entries[j].0) + seq![
                0x20u8,
            ] + spec_pretty(entries[j].1, deeper(ind)) + spec_pretty_dict(entries, ind, j + 1)
        }
    }
}

/// Writes the indentation of `n` levels.
fn write_indentation(out: &mut Vec<u8>, n: usize)
    ensures
        final(out)@ == old(out)@ + indentation(n as nat),
{
    let mut i: usize = 0;
    while i < n
        invariant
            0 <= i <= n,
            out@ == old(out)@ + indentation(i as nat),
        decreases n - i,
    {
        out.push(0x20);
        out.push(0x20);
        i += 1;
        assert(out@ =~= old(out)@ + indentation(i as nat));
    }
}

/// Writes an object laid out over lines (see [`spec_pretty`]).
fn write_pretty(out: &mut Vec<u8>, o: &Object, ind: usize)
    ensures
        final(out)@ == old(out)@ + spec_pretty(o.sv(), ind),
    decreases o, 0int,
{
    let ghost o0 = out@;
    match o {
        Object::Array(a) => {
            proof {
                lemma_array_sv(*a);
            }
            out.push(0x5B);
            out.push(NEWLINE);
            write_pretty_items(out, a, ind);
            write_indentation(out, ind);
            out.push(0x5D);
            out.push(NEWLINE);
            assert(out@ =~= o0 + spec_pretty(o.sv(), ind));
        },
        Object::Dict(d) => {
            proof {
                lemma_dict_sv(*d);
            }
            write_pretty_dict(out, d, ind);
        },
        Object::Stream(st) => {
            proof {
                lemma_stream_sv(*st);
            }
            write_pretty_dict(out, &st.dict, ind);
            write_indentation(out, ind);
            let k: [u8; 9] = [0x5B, 0x73, 0x74, 0x72, 0x65, 0x61, 0x6D, 0x5D, NEWLINE];
            append_bytes(out, &k);
            assert(out@ =~= o0 + spec_pretty(o.sv(), ind));
        },
        _ => {
            let f = o.format();
            append_bytes(out, f.as_slice());
            out.push(NEWLINE);
            assert(out@ =~= o0 + spec_pretty(o.sv(), ind));
        },
    }
}

/// Writes the lines of array items (see [`spec_pretty_items`]).
fn write_pretty_items(out: &mut Vec<u8>, items: &Vec<Object>, ind: usize)
    ensures
        final(out)@ == old(out)@ + spec_pretty_items(objs_sv(items@), ind, 0),
    decreases items, 1int,
{
    let ghost o0 = out@;
    let ghost s = objs_sv(items@);
    let mut j: usize = 0;
    while j < items.len()
        invariant
            0 <= j <= items.len(),
            s == objs_sv(items@),
            o0 + spec_pretty_items(s, ind, 0) == out@ + spec_pretty_items(s, ind, j as int),
        decreases items.len() - j,
    {
        proof {
            assert(decreases_to!(*items => items[j as int]));
        }
        let ghost before = out@;
        write_indentation(out, ind);
        out.push(0x20);
        out.push(0x20);
        out.push(0x5B);
        let digits = format_u64((j + 1) as u64);
        append_bytes(out, digits.as_slice());
        out.push(0x5D);
        out.push(0x20);
        write_pretty(out, &items[j], ind.saturating_add(1));
        assert(out@ + spec_pretty_items(s, ind, j + 1) =~= before + spec_pretty_items(s, ind, j as int));
        j += 1;
    }
    assert(out@ + spec_pretty_items(s, ind, j as int) =~= out@);
}

/// Writes a dictionary laid out over lines (see [`spec_pretty_dict`]).
fn write_pretty_dict(out: &mut Vec<u8>, d: &Dict, ind: usize)
    ensures
        final(out)@ == old(out)@ + spec_pretty_dict(d.sv(), ind, 0),
    decreases d, 1int,
{
    let ghost o0 = out@;
    let ghost s = d.sv();
    out.push(0x3C);
    out.push(0x3C);
    out.push(NEWLINE);
    let mut j: usize = 0;
    while j < d.0.len()
        invariant
            0 <= j <= d.0.len(),
            s == d.sv(),
            o0 + spec_pretty_dict(s, ind, 0) == out@ + spec_pretty_dict(s, ind, j as int).skip(
                if j == 0 {
                    3int
                } else {
                    0int
                },
            ),
        decreases d.0.len() - j,
    {
        proof {
            assert(decreases_to!(d.0 => d.0[j as int]));
            assert(decreases_to!(d.0[j as int] => d.0[j as int].1));
        }
        let ghost before = out@;
        write_indentation(out, ind);
        out.push(0x20);
        out.push(0x20);
        let k = d.0[j].0.format();
        append_bytes(out, k.as_slice());
        out.push(0x20);
        write_pretty(out, &d.0[j].1, ind.saturating_add(1));
        proof {
            assert(s[j as int] == (d.0@[j as int].0.0@, d.0@[j as int].1.sv()));
            let tail = indentation(ind as nat) + seq![0x20u8, 0x20u8] + spec_format_name(s[j as int].0)
                + seq![0x20u8] + spec_pretty(s[j as int].1, deeper(ind)) + spec_pretty_dict(
                s,
                ind,
                j + 1,
            );
            assert(spec_pretty_dict(s, ind, j as int).skip(
                if j == 0 {
                    3int
                } else {
                    0int
                },
            ) =~= tail);
            assert(out@ + spec_pretty_dict(s, ind, j + 1) =~= before + tail);
        }
        j += 1;
    }
    let ghost before = out@;
    write_indentation(out, ind);
    out.push(0x3E);
    out.push(0x3E);
    out.push(NEWLINE);
    proof {
        assert(spec_pretty_dict(s, ind, j as int).skip(
            if j == 0 {
                3int
            } else {
                0int
            },
        ) =~= indentation(ind as nat) + seq![0x3Eu8, 0x3Eu8, NEWLINE]);
    }
    assert(out@ =~= o0 + spec_pretty_dict(s, ind, 0));
}

/// An object laid out over lines at indentation level `indent` (see [`spec_pretty`]), as the
/// browser shows it.
pub fn pretty(o: &Object, indent: usize) -> (r: Vec<u8>)
    ensures
        r@ == spec_pretty(o.sv(), indent),
{
    let mut out: Vec<u8> = Vec::new();
    write_pretty(&mut out, o, indent);
    assert(out@ =~= spec_pretty(o.sv(), indent));
    out
}

} // verus!
