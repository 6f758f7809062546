use vstd::prelude::*;

use crate::base::format::{
    escape_all, escape_byte, hex_digit_upper, name_all, name_byte, spec_format_name,
    spec_format_string,
};
use crate::cc::is_reg;
use crate::codecs::{spec_decode, SFilter};
use crate::reader::esr::{endstream_at, first_endstream, lemma_first_endstream_bounds, until_endstream};
use crate::op::{spec_name, spec_name_decode};
use crate::tk::reg_end;
use crate::utils::spec_hex_value;
use crate::base::SObject;
use crate::op::{spec_lit, spec_obj};
use crate::base::{eof, Error, ObjRef, Record};
use crate::bp::{eol_len, first_eol, is_eol, lemma_first_eol_bounds, spec_read_line, CR, LF};
use crate::browse::{
    quiet, shown, space_index, spec_go_to, spec_parse_usize, spec_select, spec_split, spec_step, SBrowser, SCommand,
    SComplaint, SReply, SPACE,
};
use crate::pages::spec_find_page;
use crate::reader::base::{resolver_of, MAX_DEPTH};
use crate::utils::{
    all_digits, digits_value, is_digit, spec_parse_u16, spec_parse_u64, unsigned_digits,
};
use crate::base::format::{dec_digits, spec_format_int};
use crate::op::{has_byte, spec_to_number};

verus! {

/// Escaping a concatenation escapes each part.
pub proof fn lemma_escape_concat(a: Seq<u8>, b: Seq<u8>)
    ensures
        escape_all(a + b) == escape_all(a) + escape_all(b),
    decreases b.len(),
{
    if b.len() == 0 {
        assert(a + b =~= a);
        assert(escape_all(a) + escape_all(b) =~= escape_all(a));
    } else {
        lemma_escape_concat(a, b.drop_last());
        assert((a + b).drop_last() =~= a + b.drop_last());
        assert((a + b).last() == b.last());
        assert(escape_all(a) + escape_all(b) =~= escape_all(a) + escape_all(b.drop_last())
            + escape_byte(b.last()));
    }
}

/// A byte is the sum of its three octal digits.
proof fn lemma_octal_digits(c: u8)
    ensures
        (c / 64) * 64 + ((c / 8) % 8) * 8 + c % 8 == c,
        c / 64 < 4,
{
    assert((c / 64) * 64 + ((c / 8) % 8) * 8 + c % 8 == c) by (bit_vector);
    assert(c / 64 < 4) by (bit_vector);
}

/// The escape of a byte is read back as that byte, whatever follows it.
proof fn lemma_lit_escape_step(w: Seq<u8>, q: int, c: u8, acc: Seq<u8>)
    requires
        0 <= q,
        q + escape_byte(c).len() < w.len(),
        w.subrange(q, q + escape_byte(c).len()) == escape_byte(c),
    ensures
        spec_lit(w, q, 0, acc) == spec_lit(w, q + escape_byte(c).len(), 0, acc.push(c)),
{
    let e = escape_byte(c);
    assert(w[q] == e[0]);
    if e.len() >= 2 {
        assert(w[q + 1] == e[1]);
    }
    if e.len() == 4 {
        assert(w[q + 2] == e[2]);
        assert(w[q + 3] == e[3]);
        lemma_octal_digits(c);
    }
}

/// Reading the escaped bytes of `s` from index `k` on, after the first `k` were read.
proof fn lemma_lit_from(s: Seq<u8>, rest: Seq<u8>, k: int)
    requires
        0 <= k <= s.len(),
    ensures
        ({
            let w = spec_format_string(s) + rest;
            spec_lit(w, 1 + escape_all(s.take(k)).len() as int, 0, s.take(k)) == (
                Ok::<Seq<u8>, crate::base::Error>(s),
                spec_format_string(s).len() as int,
            )
        }),
    decreases s.len() - k,
{
    let w = spec_format_string(s) + rest;
    let a = s.take(k);
    lemma_escape_concat(a, s.skip(k));
    assert(a + s.skip(k) =~= s);
    let q: int = 1 + escape_all(a).len() as int;
    if k == s.len() {
        assert(s.skip(k) =~= Seq::<u8>::empty());
        assert(escape_all(Seq::<u8>::empty()) =~= Seq::<u8>::empty());
        assert(w[q] == 0x29u8);
        assert(a =~= s);
    } else {
        let c = s[k];
        lemma_escape_concat(a, seq![c]);
        lemma_escape_concat(a + seq![c], s.skip(k + 1));
        assert(s.take(k + 1) =~= a + seq![c]);
        assert(a + seq![c] + s.skip(k + 1) =~= s);
        assert(escape_all(seq![c]) =~= escape_byte(c)) by {
            assert(seq![c].drop_last() =~= Seq::<u8>::empty());
            assert(escape_all(Seq::<u8>::empty()) =~= Seq::<u8>::empty());
        }
        let e = escape_byte(c);
        assert(w.subrange(q, q + e.len() as int) =~= e);
        lemma_lit_escape_step(w, q, c, a);
        assert(a.push(c) =~= s.take(k + 1));
        lemma_lit_from(s, rest, k + 1);
    }
}

/// A byte string written as a literal string is read back as the same byte string, the reading
/// ending just after the written string, whatever follows it.
pub proof fn law_format_string_reads_back(s: Seq<u8>, rest: Seq<u8>)
    ensures
        spec_obj(spec_format_string(s) + rest, 0) == (
            Ok::<SObject, crate::base::Error>(SObject::String(s)),
            spec_format_string(s).len() as int,
        ),
{
    let w = spec_format_string(s) + rest;
    lemma_lit_from(s, rest, 0);
    assert(s.take(0) =~= Seq::<u8>::empty());
    assert(escape_all(Seq::<u8>::empty()) =~= Seq::<u8>::empty());
    assert(w[0] == 0x28u8);
    crate::tk::lemma_ws_end_bounds(w, 0, false);
    assert(crate::tk::ws_end(w, 0, false) == 0);
    assert(crate::tk::spec_read_token(w, 0).0 == Ok::<Seq<u8>, crate::base::Error>(seq![0x28u8]));
}

/// Writing the bytes of a concatenation writes each part.
pub proof fn lemma_name_concat(a: Seq<u8>, b: Seq<u8>)
    ensures
        name_all(a + b) == name_all(a) + name_all(b),
    decreases b.len(),
{
    if b.len() == 0 {
        assert(a + b =~= a);
        assert(name_all(a) + name_all(b) =~= name_all(a));
    } else {
        lemma_name_concat(a, b.drop_last());
        assert((a + b).drop_last() =~= a + b.drop_last());
        assert((a + b).last() == b.last());
        assert(name_all(a) + name_all(b) =~= name_all(a) + name_all(b.drop_last()) + name_byte(
            b.last(),
        ));
    }
}

/// The written bytes of a name are all regular.
proof fn lemma_name_all_regular(s: Seq<u8>)
    ensures
        forall|i: int| 0 <= i < name_all(s).len() ==> is_reg(#[trigger] name_all(s)[i]),
    decreases s.len(),
{
    if s.len() > 0 {
        lemma_name_all_regular(s.drop_last());
        let c = s.last();
        assert(is_reg(hex_digit_upper(c / 16)));
        assert(is_reg(hex_digit_upper(c % 16)));
        assert forall|i: int| 0 <= i < name_all(s).len() implies is_reg(#[trigger] name_all(s)[i]) by {
            let a = name_all(s.drop_last());
            if i >= a.len() {
                assert(name_all(s)[i] == name_byte(c)[i - a.len()]);
            } else {
                assert(name_all(s)[i] == a[i]);
            }
        }
    }
}

/// The hexadecimal digits written for a byte are read back as the byte.
proof fn lemma_hex_digits(c: u8)
    ensures
        spec_hex_value(hex_digit_upper(c / 16)) == Some(c / 16),
        spec_hex_value(hex_digit_upper(c % 16)) == Some(c % 16),
        (c / 16) * 16 + c % 16 == c,
        hex_digit_upper(c / 16) != 0x23,
        hex_digit_upper(c % 16) != 0x23,
        c != 0 ==> !(hex_digit_upper(c / 16) == 0x30 && hex_digit_upper(c % 16) == 0x30),
{
    assert((c / 16) * 16 + c % 16 == c) by (bit_vector);
    assert(c / 16 < 16) by (bit_vector);
}

/// Decoding the written bytes of `s` from index `k` on, after the first `k` were decoded.
proof fn lemma_name_decode_from(s: Seq<u8>, k: int)
    requires
        0 <= k <= s.len(),
        !s.contains(0u8),
    ensures
        spec_name_decode(name_all(s), name_all(s.take(k)).len() as int, s.take(k)) == Ok::<
            Seq<u8>,
            crate::base::Error,
        >(s),
    decreases s.len() - k,
{
    let t = name_all(s);
    let a = s.take(k);
    lemma_name_concat(a, s.skip(k));
    assert(a + s.skip(k) =~= s);
    let q: int = name_all(a).len() as int;
    if k == s.len() {
        assert(s.skip(k) =~= Seq::<u8>::empty());
        assert(name_all(Seq::<u8>::empty()) =~= Seq::<u8>::empty());
        assert(a =~= s);
    } else {
        let c = s[k];
        lemma_name_concat(a, seq![c]);
        lemma_name_concat(a + seq![c], s.skip(k + 1));
        assert(s.take(k + 1) =~= a + seq![c]);
        assert(a + seq![c] + s.skip(k + 1) =~= s);
        assert(name_all(seq![c]) =~= name_byte(c)) by {
            assert(seq![c].drop_last() =~= Seq::<u8>::empty());
            assert(name_all(Seq::<u8>::empty()) =~= Seq::<u8>::empty());
        }
        let e = name_byte(c);
        assert(t.subrange(q, q + e.len() as int) =~= e);
        assert(t[q] == e[0]);
        lemma_hex_digits(c);
        if e.len() == 3 {
            assert(t[q + 1] == e[1]);
            assert(t[q + 2] == e[2]);
            assert(c != 0) by {
                assert(s[k] == c);
            }
        }
        assert(a.push(c) =~= s.take(k + 1));
        lemma_name_decode_from(s, k + 1);
    }
}

/// A name without a zero byte, written in PDF syntax and followed by a byte that is not
/// regular (or by nothing), is read back as the same name, the reading ending just after the
/// written name.
pub proof fn law_format_name_reads_back(n: Seq<u8>, rest: Seq<u8>)
    requires
        !n.contains(0u8),
        rest.len() == 0 || !is_reg(rest[0]),
    ensures
        spec_obj(spec_format_name(n) + rest, 0) == (
            Ok::<SObject, crate::base::Error>(SObject::Name(n)),
            spec_format_name(n).len() as int,
        ),
{
    let w = spec_format_name(n) + rest;
    let t = name_all(n);
    assert(w[0] == 0x2Fu8);
    crate::tk::lemma_ws_end_bounds(w, 0, false);
    assert(crate::tk::ws_end(w, 0, false) == 0);
    assert(crate::tk::spec_read_token(w, 0).0 == Ok::<Seq<u8>, crate::base::Error>(seq![0x2Fu8]));
    lemma_name_all_regular(n);
    assert(forall|i: int| 1 <= i < 1 + t.len() ==> w[i] == t[i - 1]);
    assert(reg_end(w, 1 + t.len() as int) == 1 + t.len());
    assert forall|j: int| 1 <= j <= 1 + t.len() implies reg_end(w, j) == 1 + t.len() by {
        lemma_reg_end_from(w, j, 1 + t.len() as int);
    }
    lemma_name_decode_from(n, 0);
    assert(n.take(0) =~= Seq::<u8>::empty());
    assert(name_all(Seq::<u8>::empty()) =~= Seq::<u8>::empty());
    assert(w.subrange(1, 1 + t.len() as int) =~= t);
    if t.len() == 0 {
        assert(n.len() == 0) by {
            if n.len() > 0 {
                lemma_name_concat(n.drop_last(), seq![n.last()]);
                assert(n.drop_last() + seq![n.last()] =~= n);
                assert(name_all(seq![n.last()]) =~= name_byte(n.last())) by {
                    assert(seq![n.last()].drop_last() =~= Seq::<u8>::empty());
                    assert(name_all(Seq::<u8>::empty()) =~= Seq::<u8>::empty());
                }
            }
        }
        assert(n =~= Seq::<u8>::empty());
    }
}

/// The end of a run of regular bytes found from any point inside it.
proof fn lemma_reg_end_from(w: Seq<u8>, j: int, e: int)
    requires
        1 <= j <= e,
        e <= w.len(),
        forall|i: int| j <= i < e ==> is_reg(#[trigger] w[i]),
        e == w.len() || !is_reg(w[e]),
    ensures
        reg_end(w, j) == e,
    decreases e - j,
{
    if j < e {
        lemma_reg_end_from(w, j + 1, e);
    }
}

/// Decoding with two filter chains one after the other is decoding with the chain of both.
pub proof fn law_decode_chain(x: Seq<u8>, fs1: Seq<SFilter>, fs2: Seq<SFilter>)
    ensures
        spec_decode(x, fs1 + fs2) == match spec_decode(x, fs1) {
            Ok(y) => spec_decode(y, fs2),
            Err(e) => Err(e),
        },
    decreases fs1.len(),
{
    if fs1.len() == 0 {
        assert(fs1 + fs2 =~= fs2);
    } else {
        assert((fs1 + fs2)[0] == fs1[0]);
        assert((fs1 + fs2).drop_first() =~= fs1.drop_first() + fs2);
        match crate::codecs::spec_decode_one(x, fs1[0]) {
            Ok(y) => law_decode_chain(y, fs1.drop_first(), fs2),
            Err(_) => {},
        }
    }
}

proof fn lemma_first_endstream_min(s: Seq<u8>, i: int)
    requires
        0 <= i,
    ensures
        forall|j: int| i <= j < first_endstream(s, i) ==> !endstream_at(s, j),
        first_endstream(s, i) < s.len() ==> endstream_at(s, first_endstream(s, i)),
    decreases s.len() - i,
{
    if i + 9 <= s.len() && !endstream_at(s, i) {
        lemma_first_endstream_min(s, i + 1);
    }
}

/// The data of a stream of unknown length is a prefix of what follows the stream keyword; no
/// `endstream` starts inside it, and where it stops short, `endstream` follows it.
pub proof fn law_until_endstream(s: Seq<u8>)
    ensures
        s.take(until_endstream(s).len() as int) == until_endstream(s),
        forall|j: int| 0 <= j && j + 9 <= until_endstream(s).len() ==> !endstream_at(s, j),
        until_endstream(s).len() < s.len() ==> endstream_at(s, until_endstream(s).len() as int),
{
    lemma_first_endstream_bounds(s, 0);
    lemma_first_endstream_min(s, 0);
}

/// The words of a line joined again with single spaces.
pub open spec fn join_words(ws: Seq<Seq<u8>>) -> Seq<u8>
    decreases ws.len(),
{
    if ws.len() == 0 {
        Seq::empty()
    } else if ws.len() == 1 {
        ws[0]
    } else {
        ws[0] + seq![SPACE] + join_words(ws.drop_first())
    }
}

/// The first space of a line: no space before it, and a space at it unless it is the end.
proof fn lemma_space_index_props(s: Seq<u8>)
    ensures
        space_index(s) <= s.len(),
        forall|t: int| 0 <= t < space_index(s) ==> s[t] != SPACE,
        space_index(s) < s.len() ==> s[space_index(s) as int] == SPACE,
    decreases s.len(),
{
    if s.len() > 0 && s[0] != SPACE {
        lemma_space_index_props(s.drop_first());
        assert forall|t: int| 0 <= t < space_index(s) implies s[t] != SPACE by {
            if t > 0 {
                assert(s[t] == s.drop_first()[t - 1]);
            }
        }
    }
}

/// Splitting a line into words and joining them with single spaces gives the line back, and
/// no word holds a space.
pub proof fn law_split_join(s: Seq<u8>)
    ensures
        join_words(spec_split(s)) == s,
        forall|i: int, t: int|
            0 <= i < spec_split(s).len() && 0 <= t < spec_split(s)[i].len() ==> spec_split(s)[i][t] != SPACE,
    decreases s.len(),
{
    lemma_space_index_props(s);
    let k = space_index(s);
    if k >= s.len() {
        assert(spec_split(s) == seq![s]);
    } else {
        let head = s.subrange(0, k as int);
        let tail = s.subrange(k as int + 1, s.len() as int);
        law_split_join(tail);
        let ws = spec_split(s);
        assert(ws == seq![head] + spec_split(tail));
        assert(ws.len() >= 2) by {
            assert(spec_split(tail).len() >= 1) by {
                reveal_with_fuel(spec_split, 2);
            }
        }
        assert(ws.drop_first() =~= spec_split(tail));
        assert(join_words(ws) == head + seq![SPACE] + join_words(spec_split(tail)));
        assert(head + seq![SPACE] + tail =~= s);
        assert forall|i: int, t: int| 0 <= i < ws.len() && 0 <= t < ws[i].len() implies ws[i][t] != SPACE by {
            if i > 0 {
                assert(ws[i] == spec_split(tail)[i - 1]);
            }
        }
    }
}

/// Whether the current object of the browser is what the last reference of its history
/// resolves to, or the trailer when the history is empty.
pub open spec fn settled(rs: spec_fn(ObjRef) -> Result<SObject, Error>, b: SBrowser) -> bool {
    if b.history.len() == 0 {
        b.current == SObject::Dict(b.trailer)
    } else {
        rs(b.history.last()) == Ok::<SObject, Error>(b.current)
    }
}

/// Whether a reply reports a failure to read the file.
pub open spec fn read_failed(r: SReply) -> bool {
    r.fatal is Some || r.complaint matches Some(SComplaint::Error(_))
}

/// A settled state stays settled after a command that turns to the object `r` (pushed on the
/// history) when reading it succeeds, or else leaves the state as it is.
proof fn lemma_go_to_settled(
    rs: spec_fn(ObjRef) -> Result<SObject, Error>,
    b: SBrowser,
    r: ObjRef,
    base: SReply,
)
    requires
        settled(rs, b),
    ensures
        ({
            let (b2, rep) = spec_go_to(rs, b, r, true, base);
            settled(rs, b2) || read_failed(rep)
        }),
{
    assert(b.history.push(r).last() == r);
}

/// The browser keeps its current object in step with its history: from a settled state every
/// command leads to a settled state, except one that fails to read the object it turns to.
pub proof fn law_browser_settled(
    d: Seq<u8>,
    start: u64,
    loc: spec_fn(ObjRef) -> Option<Record>,
    entries: nat,
    b: SBrowser,
    c: SCommand,
)
    requires
        settled(resolver_of(d, start, loc, MAX_DEPTH as nat), b),
    ensures
        ({
            let (b2, r) = spec_step(d, start, loc, entries, b, c);
            settled(resolver_of(d, start, loc, MAX_DEPTH as nat), b2) || read_failed(r)
        }),
{
    let rs = resolver_of(d, start, loc, MAX_DEPTH as nat);
    match c {
        SCommand::Top => {},
        SCommand::Root => {
            assert(seq![b.root_ref].last() == b.root_ref);
        },
        SCommand::Up => {
            if b.history.len() > 0 {
                let h = b.history.drop_last();
                if h.len() > 0 {
                    assert(h.last() == b.history[b.history.len() - 2]);
                }
            }
        },
        SCommand::Stream => {
            let (b2, _) = spec_step(d, start, loc, entries, b, c);
            assert(b2 == b);
        },
        SCommand::Page(a) => {
            match spec_parse_usize(a) {
                Some(n) => match spec_find_page(rs, b.root, n, entries) {
                    Ok(r) => {
                        lemma_go_to_settled(rs, b, r, SReply { page: Some(r), ..quiet() });
                    },
                    Err(_) => {},
                },
                None => {},
            }
        },
        SCommand::Path(ws) => {
            match spec_select(b.current, ws, 0) {
                Ok(SObject::Ref(r)) => {
                    lemma_go_to_settled(rs, b, r, quiet());
                },
                _ => {},
            }
        },
        SCommand::Ref(x, y) => {
            match (spec_parse_u64(x), spec_parse_u16(y)) {
                (Some(num), Some(gen)) => {
                    lemma_go_to_settled(rs, b, ObjRef { num, gen }, quiet());
                },
                _ => {},
            }
        },
        SCommand::Unknown => {},
    }
}

/// `up` undoes going to an object by its reference: from a settled state, a successful
/// `num gen` command followed by `up` gives back the state before, and shows it.
pub proof fn law_up_undoes_ref(
    d: Seq<u8>,
    start: u64,
    loc: spec_fn(ObjRef) -> Option<Record>,
    entries: nat,
    b: SBrowser,
    x: Seq<u8>,
    y: Seq<u8>,
)
    requires
        settled(resolver_of(d, start, loc, MAX_DEPTH as nat), b),
        spec_parse_u64(x) is Some,
        spec_parse_u16(y) is Some,
        resolver_of(d, start, loc, MAX_DEPTH as nat)(
            ObjRef { num: spec_parse_u64(x)->0, gen: spec_parse_u16(y)->0 },
        ) is Ok,
    ensures
        ({
            let (b1, _) = spec_step(d, start, loc, entries, b, SCommand::Ref(x, y));
            spec_step(d, start, loc, entries, b1, SCommand::Up) == (b, shown())
        }),
{
    let r = ObjRef { num: spec_parse_u64(x)->0, gen: spec_parse_u16(y)->0 };
    let (b1, _) = spec_step(d, start, loc, entries, b, SCommand::Ref(x, y));
    assert(b1.history == b.history.push(r));
    assert(b1.history.drop_last() =~= b.history);
    let (b2, r2) = spec_step(d, start, loc, entries, b1, SCommand::Up);
    assert(b2.history == b.history);
    assert(b2 == b);
}

/// The decimal digits of a number are digits and have its value.
proof fn lemma_dec_digits(n: nat)
    ensures
        dec_digits(n).len() > 0,
        all_digits(dec_digits(n)),
        digits_value(dec_digits(n)) == n,
    decreases n,
{
    let s = dec_digits(n);
    if n < 10 {
        assert(s.drop_last() =~= Seq::<u8>::empty());
        assert(digits_value(s) == digits_value(s.drop_last()) * 10 + (s.last() - 0x30) as nat);
    } else {
        lemma_dec_digits(n / 10);
        assert(s.drop_last() =~= dec_digits(n / 10));
        assert(s.last() == (0x30 + n % 10) as u8);
        assert((s.last() - 0x30) as nat == n % 10);
        assert(digits_value(s) == digits_value(s.drop_last()) * 10 + (s.last() - 0x30) as nat);
        assert((n / 10) * 10 + n % 10 == n);
        assert forall|i: int| 0 <= i < s.len() implies is_digit(#[trigger] s[i]) by {
            if i < s.len() - 1 {
                assert(s[i] == dec_digits(n / 10)[i]);
            }
        }
    }
}

/// A string of digits holds none of the given byte when that byte is no digit.
proof fn lemma_digits_lack(s: Seq<u8>, c: u8)
    requires
        all_digits(s),
        !is_digit(c),
    ensures
        !has_byte(s, c),
{
    if has_byte(s, c) {
        let i = choose|i: int| 0 <= i < s.len() && s[i] == c;
        assert(is_digit(s[i]));
    }
}

/// An integer written in decimal reads back as the same integer.
pub proof fn law_format_int_reads_back(i: i64)
    ensures
        spec_to_number(spec_format_int(i as int)) == Ok::<SObject, Error>(SObject::Int(i)),
{
    let t = spec_format_int(i as int);
    if i < 0 {
        let n = (-(i as int)) as nat;
        lemma_dec_digits(n);
        let d = dec_digits(n);
        assert(t.drop_first() =~= d);
        lemma_digits_lack(d, 0x65);
        lemma_digits_lack(d, 0x45);
        lemma_digits_lack(d, 0x2E);
        assert(!has_byte(t, 0x65) && !has_byte(t, 0x45) && !has_byte(t, 0x2E)) by {
            if has_byte(t, 0x65) || has_byte(t, 0x45) || has_byte(t, 0x2E) {
                let j = choose|j: int| 0 <= j < t.len() && (t[j] == 0x65 || t[j] == 0x45 || t[j] == 0x2E);
                assert(j > 0);
                assert(t[j] == d[j - 1]);
            }
        }
    } else {
        lemma_dec_digits(i as nat);
        let d = dec_digits(i as nat);
        lemma_digits_lack(d, 0x65);
        lemma_digits_lack(d, 0x45);
        lemma_digits_lack(d, 0x2E);
        lemma_digits_lack(d, 0x2B);
        assert(d[0] != 0x2B);
        assert(unsigned_digits(d) == d);
    }
}

/// The lines that reading one line after another from position `p` gives, until a read fails
/// (with their end-of-line markers when `include_eol` is set).
pub open spec fn lines_from(d: Seq<u8>, p: int, include_eol: bool) -> Seq<Seq<u8>>
    decreases d.len() - p,
{
    if p < 0 {
        Seq::empty()
    } else {
        let (r, p1) = spec_read_line(d, p, include_eol);
        match r {
            Ok(l) => if p < p1 <= d.len() {
                seq![l] + lines_from(d, p1, include_eol)
            } else {
                Seq::empty()
            },
            Err(_) => Seq::empty(),
        }
    }
}

/// The length of a line without its end-of-line marker.
pub open spec fn body_len(l: Seq<u8>) -> int {
    first_eol(l, 0)
}

/// The end-of-line marker that ends a line (empty when there is none).
pub open spec fn marker(l: Seq<u8>) -> Seq<u8> {
    l.subrange(body_len(l), l.len() as int)
}

/// An end-of-line marker: CR LF, LF, or CR.
pub open spec fn is_marker(m: Seq<u8>) -> bool {
    m == seq![CR, LF] || m == seq![LF] || m == seq![CR]
}

/// The first end-of-line byte of `s` at or after `i` is at `j` when none lies before it.
proof fn lemma_first_eol_at(s: Seq<u8>, i: int, j: int)
    requires
        0 <= i <= j <= s.len(),
        forall|t: int| i <= t < j ==> !is_eol(#[trigger] s[t]),
        j < s.len() ==> is_eol(s[j]),
    ensures
        first_eol(s, i) == j,
    decreases j - i,
{
    if i < j {
        lemma_first_eol_at(s, i + 1, j);
    }
}

/// Reading lines one after another from `p` gives back the rest of the data: the lines with
/// their markers join to it, every line but the last ends in exactly one marker (a CR alone
/// only where no LF follows it), the last one may end in none, no line holds another
/// end-of-line byte, and reading a line without its marker in the same place gives the line
/// without it. The read after the last line fails at the end of the data.
pub proof fn law_read_lines(d: Seq<u8>, p: int)
    requires
        0 <= p <= d.len(),
    ensures
        ({
            let ls = lines_from(d, p, true);
            let xs = lines_from(d, p, false);
            &&& ls.flatten() == d.subrange(p, d.len() as int)
            &&& xs.len() == ls.len()
            &&& forall|i: int| 0 <= i < ls.len() ==> ls[i].len() > 0
            &&& forall|i: int| 0 <= i < ls.len() ==> #[trigger] xs[i] == ls[i].take(body_len(ls[i]))
            &&& forall|i: int, t: int| 0 <= i < ls.len() && 0 <= t < body_len(ls[i]) ==> !is_eol(
                #[trigger] ls[i][t],
            )
            &&& forall|i: int| 0 <= i < ls.len() - 1 ==> is_marker(#[trigger] marker(ls[i]))
            &&& ls.len() > 0 ==> (marker(ls.last()) == Seq::<u8>::empty() || is_marker(marker(ls.last())))
            &&& forall|i: int| 0 <= i < ls.len() - 1 && #[trigger] marker(ls[i]) == seq![CR] ==> ls[i + 1][0] != LF
        }),
        spec_read_line(d, d.len() as int, true) == (Err::<Seq<u8>, Error>(eof()), d.len() as int),
    decreases d.len() - p,
{
    let ls = lines_from(d, p, true);
    let xs = lines_from(d, p, false);
    if p == d.len() {
        assert(ls == Seq::<Seq<u8>>::empty());
        assert(xs == Seq::<Seq<u8>>::empty());
        assert(d.subrange(p, d.len() as int) =~= Seq::<u8>::empty());
    } else {
        lemma_first_eol_bounds(d, p);
        let q = first_eol(d, p);
        let e = q + eol_len(d, q);
        let l = d.subrange(p, e);
        assert(p < e <= d.len());
        law_read_lines(d, e);
        let rest = lines_from(d, e, true);
        let xrest = lines_from(d, e, false);
        assert(ls == seq![l] + rest);
        assert(xs == seq![d.subrange(p, q)] + xrest);
        lemma_first_eol_at(l, 0, q - p);
        assert(body_len(l) == q - p);
        assert(l.take(q - p) =~= d.subrange(p, q));
        assert(ls.drop_first() =~= rest);
        assert(ls.first() == l);
        assert(ls.flatten() == l + rest.flatten());
        assert(l + d.subrange(e, d.len() as int) =~= d.subrange(p, d.len() as int));
        let m = marker(l);
        assert(m =~= d.subrange(q, e));
        if eol_len(d, q) == 2 {
            assert(m =~= seq![CR, LF]);
        } else if eol_len(d, q) == 1 {
            assert(m =~= seq![d[q]]);
        } else {
            assert(m =~= Seq::<u8>::empty());
            assert(e == d.len());
            assert(rest == Seq::<Seq<u8>>::empty());
        }
        assert forall|i: int| 0 <= i < ls.len() implies ls[i].len() > 0 by {
            if i > 0 {
                assert(ls[i] == rest[i - 1]);
            }
        }
        assert forall|i: int| 0 <= i < ls.len() implies #[trigger] xs[i] == ls[i].take(body_len(ls[i])) by {
            if i > 0 {
                assert(ls[i] == rest[i - 1]);
                assert(xs[i] == xrest[i - 1]);
            }
        }
        assert forall|i: int, t: int| 0 <= i < ls.len() && 0 <= t < body_len(ls[i]) implies !is_eol(
            #[trigger] ls[i][t],
        ) by {
            if i > 0 {
                assert(ls[i] == rest[i - 1]);
            } else {
                assert(ls[i][t] == d[p + t]);
            }
        }
        assert forall|i: int| 0 <= i < ls.len() - 1 implies is_marker(#[trigger] marker(ls[i])) by {
            if i > 0 {
                assert(ls[i] == rest[i - 1]);
            } else {
                assert(rest.len() > 0);
                assert(e < d.len());
            }
        }
        if ls.len() > 1 {
            assert(ls.last() == rest.last());
        }
        assert forall|i: int| 0 <= i < ls.len() - 1 && #[trigger] marker(ls[i]) == seq![CR] implies ls[i + 1][0]
            != LF by {
            if i > 0 {
                assert(ls[i] == rest[i - 1]);
                assert(ls[i + 1] == rest[i]);
            } else {
                assert(rest.len() > 0);
                assert(e < d.len());
                lemma_first_eol_bounds(d, e);
                assert(rest[0] == d.subrange(e, first_eol(d, e) + eol_len(d, first_eol(d, e))));
                assert(m[0] == d[q]);
                assert(rest[0][0] == d[e]);
            }
        }
    }
}

} // verus!
