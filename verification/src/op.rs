use vstd::prelude::*;
use crate::base::{bytes_eq, copy_bytes, eof, Dict, Error, Name, Number, ObjRef, Object, SObject};
use crate::bp::{ByteProvider, CR, LF};
use crate::cc::{is_reg, is_regular};
use crate::kw::{kw1, kw2, kw_false, kw_null, kw_obj, kw_r, kw_true};
use crate::tk::{lemma_read_token_progress, lemma_reg_end_bounds, reg_end, spec_read_token, GT, LT};
use crate::utils::{
    hex_value, is_digit, parse_int, parse_num_u16, spec_hex_value, spec_parse_i64, spec_parse_u16,
};

verus! {

/// `(`
pub const LPAREN: u8 = 0x28;
/// `)`
pub const RPAREN: u8 = 0x29;
/// `/`
pub const SLASH: u8 = 0x2F;
/// `[`
pub const LBRACKET: u8 = 0x5B;
/// `]`
pub const RBRACKET: u8 = 0x5D;
/// `\`
pub const BACKSLASH: u8 = 0x5C;
/// `#`
pub const HASH: u8 = 0x23;
/// `.`
pub const DOT: u8 = 0x2E;

/// The bytes left to read from `p`, as a termination measure.
pub open spec fn left(d: Seq<u8>, p: int) -> nat {
    if 0 <= p < d.len() {
        (d.len() - p) as nat
    } else {
        0
    }
}

/// The number of decimal points in a byte string.
pub open spec fn dot_count(s: Seq<u8>) -> nat
    decreases s.len(),
{
    if s.len() == 0 {
        0
    } else {
        dot_count(s.drop_last()) + if s.last() == DOT {
            1nat
        } else {
            0nat
        }
    }
}

/// The byte string without a leading sign.
pub open spec fn unsigned_part(s: Seq<u8>) -> Seq<u8> {
    if s.len() > 0 && (s[0] == 0x2B || s[0] == 0x2D) {
        s.drop_first()
    } else {
        s
    }
}

/// A decimal literal with one decimal point: `[+|-]` digits `.` digits, with at least one digit.
pub open spec fn is_real_literal(s: Seq<u8>) -> bool {
    let b = unsigned_part(s);
    &&& b.len() >= 2
    &&& dot_count(b) == 1
    &&& forall|i: int| 0 <= i < b.len() ==> (b[i] == DOT || is_digit(#[trigger] b[i]))
}

/// Whether a byte string contains a byte.
pub open spec fn has_byte(s: Seq<u8>, c: u8) -> bool {
    exists|i: int| 0 <= i < s.len() && s[i] == c
}

/// Converting a numeric token: no exponents; with a decimal point a real, else an `i64`.
pub open spec fn spec_to_number(t: Seq<u8>) -> Result<SObject, Error> {
    if has_byte(t, 0x65) || has_byte(t, 0x45) {
        Err(Error::Parse("malformed number"))
    } else if has_byte(t, DOT) {
        if is_real_literal(t) {
            Ok(SObject::Real(t))
        } else {
            Err(Error::Parse("malformed number"))
        }
    } else {
        match spec_parse_i64(t) {
            Some(v) => Ok(SObject::Int(v)),
            None => Err(Error::Parse("malformed number")),
        }
    }
}

/// Reading a number token at `p`.
pub open spec fn spec_number(d: Seq<u8>, p: int) -> (Result<SObject, Error>, int) {
    let (r, p1) = spec_read_token(d, p);
    match r {
        Err(e) => (Err(e), p1),
        Ok(t) => (spec_to_number(t), p1),
    }
}

/// A token that may be a generation number in a reference: `0`, or starting with `1` to `8`.
/// A token starting with `9` is never taken as a generation number, so `5 9 R` reads as two
/// integers and then fails at `R`. The range is narrower than the `1` to `9` allowed for the
/// object number on purpose.
pub open spec fn is_gen_start(g: Seq<u8>) -> bool {
    (g.len() == 1 && g[0] == 0x30) || (g.len() >= 1 && 0x31 <= g[0] < 0x39)
}

/// Reading, at `p`, a number that may start a reference `num gen R`. When the tokens after an
/// integer do not make a reference (or the data ends before them), only the integer is read.
pub open spec fn spec_number_or_ref(d: Seq<u8>, p: int) -> (Result<SObject, Error>, int) {
    let (r1, p1) = spec_read_token(d, p);
    match r1 {
        Err(e) => (Err(e), p1),
        Ok(t) => match spec_to_number(t) {
            Ok(SObject::Int(num)) => {
                let (r2, p2) = spec_read_token(d, p1);
                match r2 {
                    Err(_) => (Ok(SObject::Int(num)), p1),
                    Ok(g) => if is_gen_start(g) {
                        match spec_parse_u16(g) {
                            Some(gen) => {
                                let (r3, p3) = spec_read_token(d, p2);
                                match r3 {
                                    Err(_) => (Ok(SObject::Int(num)), p1),
                                    Ok(rt) => if rt == kw_r() {
                                        (Ok(SObject::Ref(ObjRef { num: num as u64, gen })), p3)
                                    } else {
                                        (Ok(SObject::Int(num)), p1)
                                    },
                                }
                            },
                            None => (Ok(SObject::Int(num)), p1),
                        }
                    } else {
                        (Ok(SObject::Int(num)), p1)
                    },
                }
            },
            other => (other, p1),
        },
    }
}

/// Octal digit.
pub open spec fn is_octal(c: u8) -> bool {
    0x30 <= c <= 0x37
}

/// The byte that a one-character escape (`\n`, `\r`, `\t`, `\b`, `\f`, `\(`, `\)`, `\\`)
/// stands for.
pub open spec fn spec_simple_escape(e: u8) -> Option<u8> {
    if e == 0x6E {
        Some(LF)
    } else if e == 0x72 {
        Some(CR)
    } else if e == 0x74 {
        Some(0x09u8)
    } else if e == 0x62 {
        Some(0x08u8)
    } else if e == 0x66 {
        Some(0x0Cu8)
    } else if e == LPAREN || e == RPAREN || e == BACKSLASH {
        Some(e)
    } else {
        None
    }
}

/// The byte of a three-digit octal escape; bits above the eighth are lost.
pub open spec fn octal3(d1: u8, d2: u8, d3: u8) -> u8 {
    (((d1 * 64) % 256) + d2 * 8 + d3) as u8
}

/// Reading the rest of a literal string from `p` (just after its opening parenthesis, or inside
/// it with `depth` unbalanced parentheses), with `acc` read so far.
pub open spec fn spec_lit(d: Seq<u8>, p: int, depth: nat, acc: Seq<u8>) -> (
    Result<Seq<u8>, Error>,
    int,
)
    decreases left(d, p),
{
    if !(0 <= p < d.len()) {
        (Err(eof()), p)
    } else {
        let c = d[p];
        if c == BACKSLASH {
            if !(p + 1 < d.len()) {
                (Err(eof()), p + 1)
            } else {
                let e = d[p + 1];
                match spec_simple_escape(e) {
                    Some(x) => spec_lit(d, p + 2, depth, acc.push(x)),
                    None => if is_octal(e) {
                        let d1 = (e - 0x30) as u8;
                        if p + 2 < d.len() && is_octal(d[p + 2]) {
                            let d2 = (d[p + 2] - 0x30) as u8;
                            if p + 3 < d.len() && is_octal(d[p + 3]) {
                                let d3 = (d[p + 3] - 0x30) as u8;
                                spec_lit(d, p + 4, depth, acc.push(octal3(d1, d2, d3)))
                            } else {
                                spec_lit(d, p + 3, depth, acc.push((d1 * 8 + d2) as u8))
                            }
                        } else {
                            spec_lit(d, p + 2, depth, acc.push(d1))
                        }
                    } else {
                        spec_lit(d, p + 2, depth, acc)
                    },
                }
            }
        } else if c == CR {
            let q = if p + 1 < d.len() && d[p + 1] == LF {
                p + 2
            } else {
                p + 1
            };
            spec_lit(d, q, depth, acc.push(LF))
        } else if c == RPAREN && depth == 0 {
            (Ok(acc), p + 1)
        } else {
            let depth2: nat = if c == LPAREN {
                depth + 1
            } else if c == RPAREN {
                (depth - 1) as nat
            } else {
                depth
            };
            spec_lit(d, p + 1, depth2, acc.push(c))
        }
    }
}

/// Decoding the hexadecimal digits of a token, with a pending high digit `msd`.
pub open spec fn spec_hex_token(t: Seq<u8>, msd: Option<u8>, acc: Seq<u8>) -> Option<
    (Option<u8>, Seq<u8>),
>
    decreases t.len(),
{
    if t.len() == 0 {
        Some((msd, acc))
    } else {
        match spec_hex_value(t[0]) {
            None => None,
            Some(v) => match msd {
                None => spec_hex_token(t.drop_first(), Some(v), acc),
                Some(m) => spec_hex_token(t.drop_first(), None, acc.push((m * 16 + v) as u8)),
            },
        }
    }
}

/// Reading the rest of a hexadecimal string, token by token, up to `>`. A final unpaired digit
/// counts as followed by `0`.
pub open spec fn spec_hex(d: Seq<u8>, p: int, msd: Option<u8>, acc: Seq<u8>) -> (
    Result<Seq<u8>, Error>,
    int,
)
    decreases left(d, p),
{
    let (r, p1) = spec_read_token(d, p);
    match r {
        Err(e) => (Err(e), p1),
        Ok(t) => if t == kw1(GT) {
            (
                Ok(
                    match msd {
                        Some(m) => acc.push((m * 16) as u8),
                        None => acc,
                    },
                ),
                p1,
            )
        } else {
            match spec_hex_token(t, msd, acc) {
                None => (Err(Error::Parse("malformed hex string")), p1),
                Some((m2, a2)) => {
                    proof {
                        lemma_read_token_progress(d, p);
                    }
                    spec_hex(d, p1, m2, a2)
                },
            }
        },
    }
}

/// Decoding `#xx` escapes in a name token from index `i` on, with `acc` decoded so far.
pub open spec fn spec_name_decode(t: Seq<u8>, i: int, acc: Seq<u8>) -> Result<Seq<u8>, Error>
    decreases t.len() - i,
{
    if i >= t.len() || i < 0 {
        Ok(acc)
    } else if t[i] != HASH {
        spec_name_decode(t, i + 1, acc.push(t[i]))
    } else if t.len() - i <= 2 || t[i + 1] == HASH || t[i + 2] == HASH {
        Err(Error::Parse("malformed name"))
    } else if t[i + 1] == 0x30 && t[i + 2] == 0x30 {
        Err(Error::Parse("illegal name (contains #00)"))
    } else {
        match (spec_hex_value(t[i + 1]), spec_hex_value(t[i + 2])) {
            (Some(a), Some(b)) => spec_name_decode(t, i + 3, acc.push((a * 16 + b) as u8)),
            _ => Err(Error::Parse("malformed name")),
        }
    }
}

/// Reading a name just after its `/`: the run of regular bytes, decoded. A `/` not followed by
/// a regular byte is the empty name.
pub open spec fn spec_name(d: Seq<u8>, p: int) -> (Result<Seq<u8>, Error>, int) {
    if !(0 <= p < d.len()) || !is_reg(d[p]) {
        (Ok(Seq::empty()), p)
    } else {
        let e = reg_end(d, p + 1);
        (spec_name_decode(d.subrange(p, e), 0, Seq::empty()), e)
    }
}

/// Reading an object at `p`.
pub open spec fn spec_obj(d: Seq<u8>, p: int) -> (Result<SObject, Error>, int)
    decreases left(d, p), 0int,
{
    let (r, p1) = spec_read_token(d, p);
    match r {
        Err(e) => (Err(e), p1),
        Ok(t) => {
            proof {
                lemma_read_token_progress(d, p);
            }
            if t == kw_true() {
                (Ok(SObject::Bool(true)), p1)
            } else if t == kw_false() {
                (Ok(SObject::Bool(false)), p1)
            } else if t == kw_null() {
                (Ok(SObject::Null), p1)
            } else if 0x31 <= t[0] <= 0x39 {
                spec_number_or_ref(d, p)
            } else if t[0] == 0x2B || t[0] == 0x2D || t[0] == 0x30 || t[0] == DOT {
                spec_number(d, p)
            } else if t == kw1(LPAREN) {
                match spec_lit(d, p1, 0, Seq::empty()) {
                    (Ok(s), q) => (Ok(SObject::String(s)), q),
                    (Err(e), q) => (Err(e), q),
                }
            } else if t == kw1(LT) {
                match spec_hex(d, p1, None, Seq::empty()) {
                    (Ok(s), q) => (Ok(SObject::String(s)), q),
                    (Err(e), q) => (Err(e), q),
                }
            } else if t == kw1(SLASH) {
                match spec_name(d, p1) {
                    (Ok(s), q) => (Ok(SObject::Name(s)), q),
                    (Err(e), q) => (Err(e), q),
                }
            } else if t == kw1(LBRACKET) {
                spec_array(d, p1, Seq::empty())
            } else if t == kw2(LT) {
                spec_dict(d, p1, Seq::empty())
            } else {
                (Err(Error::Parse("unexcepted token")), p1)
            }
        },
    }
}

/// Reading the rest of an array at `p` up to `]`, with `acc` read so far.
pub open spec fn spec_array(d: Seq<u8>, p: int, acc: Seq<SObject>) -> (Result<SObject, Error>, int)
    decreases left(d, p), 1int,
{
    let (r, p1) = spec_read_token(d, p);
    match r {
        Err(e) => (Err(e), p1),
        Ok(t) => if t == kw1(RBRACKET) {
            (Ok(SObject::Array(acc)), p1)
        } else {
            let (o, p2) = spec_obj(d, p);
            match o {
                Err(e) => (Err(e), p2),
                Ok(v) => if left(d, p2) < left(d, p) {
                    spec_array(d, p2, acc.push(v))
                } else {
                    (Err(eof()), p2)
                },
            }
        },
    }
}

/// Reading the rest of a dictionary at `p` up to `>>`, with `acc` read so far.
pub open spec fn spec_dict(d: Seq<u8>, p: int, acc: Seq<(Seq<u8>, SObject)>) -> (
    Result<SObject, Error>,
    int,
)
    decreases left(d, p), 1int,
{
    let (r, p1) = spec_read_token(d, p);
    match r {
        Err(e) => (Err(e), p1),
        Ok(t) => {
            proof {
                lemma_read_token_progress(d, p);
                lemma_reg_end_bounds(d, p1 + 1);
            }
            if t == kw2(GT) {
                (Ok(SObject::Dict(acc)), p1)
            } else if t == kw1(SLASH) {
                let (k, p2) = spec_name(d, p1);
                match k {
                    Err(e) => (Err(e), p2),
                    Ok(key) => {
                        let (v, p3) = spec_obj(d, p2);
                        match v {
                            Err(e) => (Err(e), p3),
                            Ok(val) => if left(d, p3) < left(d, p) {
                                spec_dict(d, p3, acc.push((key, val)))
                            } else {
                                (Err(eof()), p3)
                            },
                        }
                    },
                }
            } else {
                (Err(Error::Parse("malformed dictionary")), p1)
            }
        },
    }
}

} // verus!

verus! {

pub proof fn lemma_lit_mono(d: Seq<u8>, p: int, depth: nat, acc: Seq<u8>)
    ensures
        spec_lit(d, p, depth, acc).1 >= p,
    decreases left(d, p),
{
    if 0 <= p < d.len() {
        let c = d[p];
        if c == BACKSLASH {
            if p + 1 < d.len() {
                let e = d[p + 1];
                match spec_simple_escape(e) {
                    Some(x) => lemma_lit_mono(d, p + 2, depth, acc.push(x)),
                    None => if is_octal(e) {
                        let d1 = (e - 0x30) as u8;
                        if p + 2 < d.len() && is_octal(d[p + 2]) {
                            let d2 = (d[p + 2] - 0x30) as u8;
                            if p + 3 < d.len() && is_octal(d[p + 3]) {
                                let d3 = (d[p + 3] - 0x30) as u8;
                                lemma_lit_mono(d, p + 4, depth, acc.push(octal3(d1, d2, d3)));
                            } else {
                                lemma_lit_mono(d, p + 3, depth, acc.push((d1 * 8 + d2) as u8));
                            }
                        } else {
                            lemma_lit_mono(d, p + 2, depth, acc.push(d1));
                        }
                    } else {
                        lemma_lit_mono(d, p + 2, depth, acc);
                    },
                }
            }
        } else if c == CR {
            let q = if p + 1 < d.len() && d[p + 1] == LF {
                p + 2
            } else {
                p + 1
            };
            lemma_lit_mono(d, q, depth, acc.push(LF));
        } else if !(c == RPAREN && depth == 0) {
            let depth2: nat = if c == LPAREN {
                depth + 1
            } else if c == RPAREN {
                (depth - 1) as nat
            } else {
                depth
            };
            lemma_lit_mono(d, p + 1, depth2, acc.push(c));
        }
    }
}

pub proof fn lemma_token_mono(d: Seq<u8>, p: int)
    ensures
        spec_read_token(d, p).1 >= p,
        spec_read_token(d, p).0 is Ok ==> 0 <= p < d.len() && p < spec_read_token(d, p).1,
{
    if p >= 0 {
        lemma_read_token_progress(d, p);
    }
}

pub proof fn lemma_hex_mono(d: Seq<u8>, p: int, msd: Option<u8>, acc: Seq<u8>)
    ensures
        spec_hex(d, p, msd, acc).1 >= p,
    decreases left(d, p),
{
    lemma_token_mono(d, p);
    let (r, p1) = spec_read_token(d, p);
    if let Ok(t) = r {
        if t != kw1(GT) {
            if let Some((m2, a2)) = spec_hex_token(t, msd, acc) {
                lemma_hex_mono(d, p1, m2, a2);
            }
        }
    }
}

pub proof fn lemma_obj_mono(d: Seq<u8>, p: int)
    ensures
        spec_obj(d, p).1 >= p,
        spec_obj(d, p).0 is Ok ==> left(d, spec_obj(d, p).1) < left(d, p),
    decreases left(d, p), 0int,
{
    lemma_token_mono(d, p);
    let (r, p1) = spec_read_token(d, p);
    if let Ok(t) = r {
        if t == kw_true() || t == kw_false() || t == kw_null() {
        } else if 0x31 <= t[0] <= 0x39 {
            lemma_token_mono(d, p1);
            lemma_token_mono(d, spec_read_token(d, p1).1);
        } else if t[0] == 0x2B || t[0] == 0x2D || t[0] == 0x30 || t[0] == DOT {
        } else if t == kw1(LPAREN) {
            lemma_lit_mono(d, p1, 0, Seq::empty());
        } else if t == kw1(LT) {
            lemma_hex_mono(d, p1, None, Seq::empty());
        } else if t == kw1(SLASH) {
            if 0 <= p1 < d.len() && is_reg(d[p1]) {
                lemma_reg_end_bounds(d, p1 + 1);
            }
        } else if t == kw1(LBRACKET) {
            lemma_array_mono(d, p1, Seq::empty());
        } else if t == kw2(LT) {
            lemma_dict_mono(d, p1, Seq::empty());
        }
    }
}

pub proof fn lemma_array_mono(d: Seq<u8>, p: int, acc: Seq<SObject>)
    ensures
        spec_array(d, p, acc).1 >= p,
    decreases left(d, p), 1int,
{
    lemma_token_mono(d, p);
    let (r, p1) = spec_read_token(d, p);
    if let Ok(t) = r {
        if t != kw1(RBRACKET) {
            lemma_obj_mono(d, p);
            let (o, p2) = spec_obj(d, p);
            if let Ok(v) = o {
                if left(d, p2) < left(d, p) {
                    lemma_array_mono(d, p2, acc.push(v));
                }
            }
        }
    }
}

pub proof fn lemma_dict_mono(d: Seq<u8>, p: int, acc: Seq<(Seq<u8>, SObject)>)
    ensures
        spec_dict(d, p, acc).1 >= p,
    decreases left(d, p), 1int,
{
    lemma_token_mono(d, p);
    let (r, p1) = spec_read_token(d, p);
    if let Ok(t) = r {
        if t != kw2(GT) && t == kw1(SLASH) {
            if 0 <= p1 < d.len() && is_reg(d[p1]) {
                lemma_reg_end_bounds(d, p1 + 1);
            }
            let (k, p2) = spec_name(d, p1);
            if let Ok(key) = k {
                lemma_obj_mono(d, p2);
                let (v, p3) = spec_obj(d, p2);
                if let Ok(val) = v {
                    if left(d, p3) < left(d, p) {
                        lemma_dict_mono(d, p3, acc.push((key, val)));
                    }
                }
            }
        }
    }
}

/// An object result viewed as a value result.
pub open spec fn obj_result(r: Result<Object, Error>) -> Result<SObject, Error> {
    match r {
        Ok(o) => Ok(o.sv()),
        Err(e) => Err(e),
    }
}

/// The value of a number.
pub open spec fn num_sv(n: Number) -> SObject {
    match n {
        Number::Int(i) => SObject::Int(i),
        Number::Real(r) => SObject::Real(r@),
    }
}

/// A number result viewed as a value result.
pub open spec fn num_result(r: Result<Number, Error>) -> Result<SObject, Error> {
    match r {
        Ok(n) => Ok(num_sv(n)),
        Err(e) => Err(e),
    }
}

/// Whether `t` contains the byte `c`.
pub fn contains_byte(t: &[u8], c: u8) -> (r: bool)
    ensures
        r == has_byte(t@, c),
{
    let mut i: usize = 0;
    while i < t.len()
        invariant
            0 <= i <= t.len(),
            forall|k: int| 0 <= k < i ==> t@[k] != c,
        decreases t.len() - i,
    {
        if t[i] == c {
            return true;
        }
        i += 1;
    }
    false
}

proof fn lemma_dot_count_step(s: Seq<u8>, k: int)
    requires
        0 <= k < s.len(),
    ensures
        dot_count(s.take(k + 1)) == dot_count(s.take(k)) + if s[k] == DOT {
            1nat
        } else {
            0nat
        },
{
    assert(s.take(k + 1).drop_last() =~= s.take(k));
}

/// Whether `t` is a decimal literal with one decimal point (see [`is_real_literal`]).
pub fn check_real_literal(t: &[u8]) -> (r: bool)
    ensures
        r == is_real_literal(t@),
{
    let start: usize = if t.len() > 0 && (t[0] == 0x2B || t[0] == 0x2D) { 1 } else { 0 };
    let ghost b = unsigned_part(t@);
    assert(b =~= t@.subrange(start as int, t@.len() as int));
    let mut dots: usize = 0;
    let mut i: usize = start;
    while i < t.len()
        invariant
            start <= i <= t.len(),
            b == unsigned_part(t@),
            b =~= t@.subrange(start as int, t@.len() as int),
            dots == dot_count(b.take(i - start)),
            dots <= i - start,
            forall|k: int| 0 <= k < i - start ==> (b[k] == DOT || is_digit(#[trigger] b[k])),
        decreases t.len() - i,
    {
        proof {
            lemma_dot_count_step(b, i - start);
        }
        if t[i] == DOT {
            dots += 1;
        } else if t[i] < 0x30 || t[i] > 0x39 {
            assert(!(b[i - start] == DOT || is_digit(b[i - start])));
            return false;
        }
        i += 1;
    }
    assert(b.take(t.len() - start) =~= b);
    t.len() - start >= 2 && dots == 1
}

/// Converts a numeric token (see [`spec_to_number`]).
pub fn to_number(t: &[u8]) -> (r: Result<Number, Error>)
    ensures
        num_result(r) == spec_to_number(t@),
{
    if contains_byte(t, 0x65) || contains_byte(t, 0x45) {
        Err(Error::Parse("malformed number"))
    } else if contains_byte(t, DOT) {
        if check_real_literal(t) {
            Ok(Number::Real(copy_bytes(t)))
        } else {
            Err(Error::Parse("malformed number"))
        }
    } else {
        match parse_int(t) {
            Some(v) => Ok(Number::Int(v)),
            None => Err(Error::Parse("malformed number")),
        }
    }
}

/// Reads a number token (see [`spec_number`]).
pub fn read_number_from(bp: &mut ByteProvider) -> (r: Result<Number, Error>)
    ensures
        final(bp).sdata() == old(bp).sdata(),
        (num_result(r), final(bp).spos()) == spec_number(old(bp).sdata(), old(bp).spos()),
{
    let t = bp.read_token()?;
    to_number(t.as_slice())
}

/// Whether `g` may be the generation number of a reference (see [`is_gen_start`]; a first
/// digit of `9` is not accepted).
pub fn check_gen_start(g: &[u8]) -> (r: bool)
    ensures
        r == is_gen_start(g@),
{
    (g.len() == 1 && g[0] == 0x30) || (g.len() >= 1 && 0x31 <= g[0] && g[0] < 0x39)
}

/// Reads a number that may start a reference (see [`spec_number_or_ref`]).
fn read_number_or_indirect(bp: &mut ByteProvider) -> (r: Result<Object, Error>)
    requires
        spec_read_token(old(bp).sdata(), old(bp).spos()).0 matches Ok(t) && 0x31 <= t[0] <= 0x39,
    ensures
        final(bp).sdata() == old(bp).sdata(),
        (obj_result(r), final(bp).spos()) == spec_number_or_ref(old(bp).sdata(), old(bp).spos()),
{
    let ghost d = bp.sdata();
    let t = bp.read_token()?;
    let p1 = bp.pos();
    let n = to_number(t.as_slice())?;
    match n {
        Number::Real(x) => Ok(Object::Number(Number::Real(x))),
        Number::Int(num) => {
            assert(t@[0] != 0x2D);
            assert(num >= 0);
            let g = match bp.read_token() {
                Ok(g) => g,
                Err(_) => {
                    bp.seek_to(p1);
                    return Ok(Object::Number(Number::Int(num)));
                },
            };
            if check_gen_start(g.as_slice()) {
                match parse_num_u16(g.as_slice()) {
                    Some(gen) => {
                        let rt = match bp.read_token() {
                            Ok(rt) => rt,
                            Err(_) => {
                                bp.seek_to(p1);
                                return Ok(Object::Number(Number::Int(num)));
                            },
                        };
                        if crate::kw::is_kw1(rt.as_slice(), 0x52) {
                            Ok(Object::Ref(ObjRef { num: num as u64, gen }))
                        } else {
                            bp.seek_to(p1);
                            Ok(Object::Number(Number::Int(num)))
                        }
                    },
                    None => {
                        bp.seek_to(p1);
                        Ok(Object::Number(Number::Int(num)))
                    },
                }
            } else {
                bp.seek_to(p1);
                Ok(Object::Number(Number::Int(num)))
            }
        },
    }
}

/// Reads the rest of a literal string, just after its `(` (see [`spec_lit`]).
pub fn read_lit_string(bp: &mut ByteProvider) -> (r: Result<Vec<u8>, Error>)
    ensures
        final(bp).sdata() == old(bp).sdata(),
        (crate::bp::bytes_result(r), final(bp).spos()) == spec_lit(
            old(bp).sdata(),
            old(bp).spos(),
            0,
            Seq::empty(),
        ),
{
    let ghost d = bp.sdata();
    let n = bp.len();
    let mut ret: Vec<u8> = Vec::new();
    let mut parens: u64 = 0;
    loop
        invariant
            bp.sdata() == d,
            d == old(bp).sdata(),
            n == d.len(),
            n == bp.data.len(),
            parens <= bp.spos(),
            spec_lit(d, old(bp).spos(), 0, Seq::empty()) == spec_lit(
                d,
                bp.spos(),
                parens as nat,
                ret@,
            ),
        decreases left(d, bp.spos()),
    {
        let c = bp.next_or_eof()?;
        if c == BACKSLASH {
            let e = bp.next_or_eof()?;
            if e == 0x6E {
                ret.push(LF);
            } else if e == 0x72 {
                ret.push(CR);
            } else if e == 0x74 {
                ret.push(0x09);
            } else if e == 0x62 {
                ret.push(0x08);
            } else if e == 0x66 {
                ret.push(0x0C);
            } else if e == LPAREN || e == RPAREN || e == BACKSLASH {
                ret.push(e);
            } else if 0x30 <= e && e <= 0x37 {
                let d1 = e - 0x30;
                let q = bp.pos();
                let c2 = bp.peek();
                match c2 {
                    Some(x2) if 0x30 <= x2 && x2 <= 0x37 => {
                        bp.seek_to(q + 1);
                        let d2 = x2 - 0x30;
                        let c3 = bp.peek();
                        match c3 {
                            Some(x3) if 0x30 <= x3 && x3 <= 0x37 => {
                                bp.seek_to(q + 2);
                                let d3 = x3 - 0x30;
                                let v: u8 = (((d1 as u32) * 64) % 256 + (d2 as u32) * 8 + (d3 as u32)) as u8;
                                ret.push(v);
                            },
                            _ => {
                                ret.push(d1 * 8 + d2);
                            },
                        }
                    },
                    _ => {
                        ret.push(d1);
                    },
                }
            }
        } else if c == CR {
            let _ = bp.next_if_eq(LF);
            ret.push(LF);
        } else {
            if c == LPAREN {
                parens += 1;
            }
            if c == RPAREN {
                if parens == 0 {
                    return Ok(ret);
                } else {
                    parens -= 1;
                }
            }
            ret.push(c);
        }
    }
}

/// Decodes the hexadecimal digits of a token (see [`spec_hex_token`]).
fn hex_token(t: &[u8], msd: Option<u8>, acc: &mut Vec<u8>) -> (r: Option<Option<u8>>)
    requires
        msd matches Some(m) ==> m < 16,
    ensures
        match spec_hex_token(t@, msd, old(acc)@) {
            Some((m2, a2)) => r == Some(m2) && final(acc)@ == a2 && (m2 matches Some(m)
                ==> m < 16),
            None => r is None,
        },
{
    let mut m = msd;
    let mut i: usize = 0;
    assert(t@.skip(0) =~= t@);
    while i < t.len()
        invariant
            0 <= i <= t.len(),
            m matches Some(x) ==> x < 16,
            spec_hex_token(t@, msd, old(acc)@) == spec_hex_token(t@.skip(i as int), m, acc@),
        decreases t.len() - i,
    {
        assert(t@.skip(i as int).drop_first() =~= t@.skip(i + 1));
        assert(t@.skip(i as int)[0] == t@[i as int]);
        match hex_value(t[i]) {
            None => {
                return None;
            },
            Some(v) => match m {
                None => {
                    m = Some(v);
                },
                Some(x) => {
                    acc.push(x * 16 + v);
                    m = None;
                },
            },
        }
        i += 1;
    }
    assert(t@.skip(t.len() as int) =~= Seq::<u8>::empty());
    Some(m)
}

/// Reads the rest of a hexadecimal string, just after its `<` (see [`spec_hex`]).
pub fn read_hex_string(bp: &mut ByteProvider) -> (r: Result<Vec<u8>, Error>)
    ensures
        final(bp).sdata() == old(bp).sdata(),
        (crate::bp::bytes_result(r), final(bp).spos()) == spec_hex(
            old(bp).sdata(),
            old(bp).spos(),
            None,
            Seq::empty(),
        ),
{
    let ghost d = bp.sdata();
    let mut ret: Vec<u8> = Vec::new();
    let mut msd: Option<u8> = None;
    loop
        invariant
            bp.sdata() == d,
            d == old(bp).sdata(),
            msd matches Some(m) ==> m < 16,
            spec_hex(d, old(bp).spos(), None, Seq::empty()) == spec_hex(d, bp.spos(), msd, ret@),
        decreases left(d, bp.spos()),
    {
        let ghost p = bp.spos();
        proof {
            lemma_read_token_progress(d, p);
        }
        let tk = bp.read_token()?;
        if crate::kw::is_kw1(tk.as_slice(), GT) {
            if let Some(m) = msd {
                ret.push(m * 16);
            }
            return Ok(ret);
        }
        match hex_token(tk.as_slice(), msd, &mut ret) {
            None => {
                return Err(Error::Parse("malformed hex string"));
            },
            Some(m2) => {
                msd = m2;
            },
        }
    }
}

/// Decodes the `#xx` escapes of a name token (see [`spec_name_decode`]).
pub fn decode_name(t: &[u8]) -> (r: Result<Vec<u8>, Error>)
    ensures
        crate::bp::bytes_result(r) == spec_name_decode(t@, 0, Seq::empty()),
{
    let mut ret: Vec<u8> = Vec::new();
    let mut i: usize = 0;
    while i < t.len()
        invariant
            0 <= i <= t.len(),
            spec_name_decode(t@, 0, Seq::empty()) == spec_name_decode(t@, i as int, ret@),
        decreases t.len() - i,
    {
        if t[i] != HASH {
            ret.push(t[i]);
            i += 1;
        } else {
            if t.len() - i <= 2 || t[i + 1] == HASH || t[i + 2] == HASH {
                return Err(Error::Parse("malformed name"));
            }
            if t[i + 1] == 0x30 && t[i + 2] == 0x30 {
                return Err(Error::Parse("illegal name (contains #00)"));
            }
            match (hex_value(t[i + 1]), hex_value(t[i + 2])) {
                (Some(a), Some(b)) => {
                    ret.push(a * 16 + b);
                    i += 3;
                },
                _ => {
                    return Err(Error::Parse("malformed name"));
                },
            }
        }
    }
    Ok(ret)
}

/// Reads a name just after its `/` (see [`spec_name`]).
pub fn read_name(bp: &mut ByteProvider) -> (r: Result<Name, Error>)
    ensures
        final(bp).sdata() == old(bp).sdata(),
        (match r {
            Ok(n) => Ok(n.0@),
            Err(e) => Err(e),
        }, final(bp).spos()) == spec_name(old(bp).sdata(), old(bp).spos()),
{
    match bp.peek() {
        Some(c) => {
            if !is_regular(c) {
                return Ok(Name(Vec::new()));
            }
        },
        None => {
            return Ok(Name(Vec::new()));
        },
    }
    let ghost d = bp.sdata();
    let ghost p = bp.spos();
    proof {
        crate::tk::lemma_ws_end_bounds(d, p, false);
        assert(crate::tk::ws_end(d, p, false) == p);
    }
    let tk = bp.read_token()?;
    let v = decode_name(tk.as_slice())?;
    Ok(Name(v))
}

} // verus!

verus! {

/// Reads an object (see [`spec_obj`]).
pub fn read_obj_from(bp: &mut ByteProvider) -> (r: Result<Object, Error>)
    ensures
        final(bp).sdata() == old(bp).sdata(),
        (obj_result(r), final(bp).spos()) == spec_obj(old(bp).sdata(), old(bp).spos()),
    decreases left(old(bp).sdata(), old(bp).spos()), 0int,
{
    let ghost d = bp.sdata();
    let ghost p0 = bp.spos();
    let p = bp.pos();
    proof {
        lemma_read_token_progress(d, p0);
    }
    let t = bp.read_token()?;
    let ts = t.as_slice();
    if crate::kw::is_true(ts) {
        Ok(Object::Bool(true))
    } else if crate::kw::is_false(ts) {
        Ok(Object::Bool(false))
    } else if crate::kw::is_null(ts) {
        Ok(Object::Null)
    } else if 0x31 <= t[0] && t[0] <= 0x39 {
        bp.seek_to(p);
        read_number_or_indirect(bp)
    } else if t[0] == 0x2B || t[0] == 0x2D || t[0] == 0x30 || t[0] == DOT {
        bp.seek_to(p);
        let n = read_number_from(bp)?;
        Ok(Object::Number(n))
    } else if crate::kw::is_kw1(ts, LPAREN) {
        let s = read_lit_string(bp)?;
        Ok(Object::String(s))
    } else if crate::kw::is_kw1(ts, LT) {
        let s = read_hex_string(bp)?;
        Ok(Object::String(s))
    } else if crate::kw::is_kw1(ts, SLASH) {
        let n = read_name(bp)?;
        Ok(Object::Name(n))
    } else if crate::kw::is_kw1(ts, LBRACKET) {
        read_array(bp)
    } else if crate::kw::is_kw2(ts, LT) {
        read_dict(bp)
    } else {
        Err(Error::Parse("unexcepted token"))
    }
}

/// Reads the rest of an array after its `[` (see [`spec_array`]).
pub fn read_array(bp: &mut ByteProvider) -> (r: Result<Object, Error>)
    ensures
        final(bp).sdata() == old(bp).sdata(),
        (obj_result(r), final(bp).spos()) == spec_array(
            old(bp).sdata(),
            old(bp).spos(),
            Seq::empty(),
        ),
    decreases left(old(bp).sdata(), old(bp).spos()), 1int,
{
    let ghost d = bp.sdata();
    let mut vec: Vec<Object> = Vec::new();
    assert(crate::base::objs_sv(vec@) =~= Seq::<SObject>::empty());
    loop
        invariant
            bp.sdata() == d,
            d == old(bp).sdata(),
            left(d, bp.spos()) <= left(d, old(bp).spos()),
            spec_array(d, old(bp).spos(), Seq::empty()) == spec_array(
                d,
                bp.spos(),
                crate::base::objs_sv(vec@),
            ),
        decreases left(d, bp.spos()),
    {
        let p = bp.pos();
        let tk = bp.read_token()?;
        if crate::kw::is_kw1(tk.as_slice(), RBRACKET) {
            proof {
                crate::base::object::lemma_array_sv(vec);
            }
            let r = Object::Array(vec);
            return Ok(r);
        }
        bp.seek_to(p);
        proof {
            lemma_obj_mono(d, p as int);
        }
        let o = read_obj_from(bp)?;
        let ghost old_vec = vec@;
        vec.push(o);
        assert(crate::base::objs_sv(vec@) =~= crate::base::objs_sv(old_vec).push(o.sv()));
    }
}

/// Reads the rest of a dictionary after its `<<` (see [`spec_dict`]).
pub fn read_dict(bp: &mut ByteProvider) -> (r: Result<Object, Error>)
    ensures
        final(bp).sdata() == old(bp).sdata(),
        (obj_result(r), final(bp).spos()) == spec_dict(
            old(bp).sdata(),
            old(bp).spos(),
            Seq::empty(),
        ),
    decreases left(old(bp).sdata(), old(bp).spos()), 1int,
{
    let ghost d = bp.sdata();
    let mut entries: Vec<(Name, Object)> = Vec::new();
    assert(crate::base::entries_sv(entries@) =~= Seq::<(Seq<u8>, SObject)>::empty());
    loop
        invariant
            bp.sdata() == d,
            d == old(bp).sdata(),
            left(d, bp.spos()) <= left(d, old(bp).spos()),
            spec_dict(d, old(bp).spos(), Seq::empty()) == spec_dict(
                d,
                bp.spos(),
                crate::base::entries_sv(entries@),
            ),
        decreases left(d, bp.spos()),
    {
        let ghost p = bp.spos();
        proof {
            lemma_read_token_progress(d, p);
        }
        let tk = bp.read_token()?;
        if crate::kw::is_kw2(tk.as_slice(), GT) {
            proof {
                crate::base::object::lemma_dict_sv(Dict(entries));
            }
            let r = Object::Dict(Dict(entries));
            return Ok(r);
        }
        if !crate::kw::is_kw1(tk.as_slice(), SLASH) {
            return Err(Error::Parse("malformed dictionary"));
        }
        proof {
            lemma_reg_end_bounds(d, bp.spos() + 1);
        }
        let key = read_name(bp)?;
        proof {
            lemma_obj_mono(d, bp.spos());
        }
        let value = read_obj_from(bp)?;
        let ghost old_entries = entries@;
        entries.push((key, value));
        assert(crate::base::entries_sv(entries@) =~= crate::base::entries_sv(old_entries).push(
            (key.0@, value.sv()),
        ));
    }
}

} // verus!

verus! {

/// An object parser over a byte source: reads PDF objects one after another.
pub struct ObjParser {
    pub bytes: ByteProvider,
}

impl ObjParser {
    /// A parser reading from `bytes`, at its current position.
    pub fn new(bytes: ByteProvider) -> (r: ObjParser)
        ensures
            r.bytes == bytes,
    {
        ObjParser { bytes }
    }

    /// A parser reading `data` from its start.
    pub fn from_bytes(data: &[u8]) -> (r: ObjParser)
        ensures
            r.bytes.sdata() == data@,
            r.bytes.spos() == 0,
    {
        ObjParser { bytes: ByteProvider::from_bytes(data) }
    }

    /// Reads the next object (see [`spec_obj`]).
    pub fn read_obj(&mut self) -> (r: Result<Object, Error>)
        ensures
            final(self).bytes.sdata() == old(self).bytes.sdata(),
            (obj_result(r), final(self).bytes.spos()) == spec_obj(
                old(self).bytes.sdata(),
                old(self).bytes.spos(),
            ),
    {
        read_obj_from(&mut self.bytes)
    }

    /// Reads the next token as a number (see [`spec_number`]).
    pub fn read_number(&mut self) -> (r: Result<Number, Error>)
        ensures
            final(self).bytes.sdata() == old(self).bytes.sdata(),
            (num_result(r), final(self).bytes.spos()) == spec_number(
                old(self).bytes.sdata(),
                old(self).bytes.spos(),
            ),
    {
        read_number_from(&mut self.bytes)
    }

    /// The position of the next byte to read.
    pub fn pos(&self) -> (r: u64)
        ensures
            r == self.bytes.spos(),
    {
        self.bytes.pos()
    }
}

} // verus!

verus! {

/// The error of an object head whose numbers are not the expected ones.
pub open spec fn number_mismatch() -> Error {
    Error::Parse("number does not match")
}

/// The error of an object head that is not `num gen obj`.
pub open spec fn unexpected_token() -> Error {
    Error::Parse("unexpected token")
}

/// Reading, at `p`, the head `num gen obj` of an indirect object with the given numbers (each
/// compared as a signed 64-bit integer) and the object after it.
pub open spec fn spec_obj_indirect(d: Seq<u8>, p: int, num: u64, gen: u16) -> (Result<SObject, Error>, int) {
    let (r1, p1) = spec_number(d, p);
    match r1 {
        Err(e) => (Err(e), p1),
        Ok(SObject::Int(n2)) => if n2 != num as i64 {
            (Err(number_mismatch()), p1)
        } else {
            let (r2, p2) = spec_number(d, p1);
            match r2 {
                Err(e) => (Err(e), p2),
                Ok(SObject::Int(g2)) => if g2 != gen as i64 {
                    (Err(number_mismatch()), p2)
                } else {
                    let (r3, p3) = spec_read_token(d, p2);
                    match r3 {
                        Err(e) => (Err(e), p3),
                        Ok(t) => if t == kw_obj() {
                            spec_obj(d, p3)
                        } else {
                            (Err(unexpected_token()), p3)
                        },
                    }
                },
                Ok(_) => (Err(unexpected_token()), p2),
            }
        },
        Ok(_) => (Err(unexpected_token()), p1),
    }
}

/// A parser of PDF syntax over the whole data of a file, reading from a movable position.
pub struct Parser {
    bytes: ByteProvider,
}

impl Parser {
    /// The data being parsed.
    pub closed spec fn sdata(&self) -> Seq<u8> {
        self.bytes.sdata()
    }

    /// The position of the next byte to read.
    pub closed spec fn spos(&self) -> int {
        self.bytes.spos()
    }

    /// A parser reading `bytes` from its current position.
    pub fn new(bytes: ByteProvider) -> (r: Parser)
        ensures
            r.sdata() == bytes.sdata(),
            r.spos() == bytes.spos(),
    {
        Parser { bytes }
    }

    /// A parser reading `data` from its start.
    pub fn from_bytes(data: &[u8]) -> (r: Parser)
        ensures
            r.sdata() == data@,
            r.spos() == 0,
    {
        Parser { bytes: ByteProvider::from_bytes(data) }
    }

    /// Moves to a position (which may lie past the end).
    pub fn seek_to(&mut self, pos: u64)
        ensures
            final(self).sdata() == old(self).sdata(),
            final(self).spos() == pos,
    {
        self.bytes.seek_to(pos)
    }

    /// The current position.
    pub fn pos(&self) -> (r: u64)
        ensures
            r == self.spos(),
    {
        self.bytes.pos()
    }

    /// Reads the next object (see [`spec_obj`]).
    pub fn read_obj(&mut self) -> (r: Result<Object, Error>)
        ensures
            final(self).sdata() == old(self).sdata(),
            (obj_result(r), final(self).spos()) == spec_obj(old(self).sdata(), old(self).spos()),
    {
        read_obj_from(&mut self.bytes)
    }

    /// Reads the head `num gen obj` of an indirect object, which must have the given numbers,
    /// and the object after it (see [`spec_obj_indirect`]).
    pub fn read_obj_indirect(&mut self, num: u64, gen: u16) -> (r: Result<Object, Error>)
        ensures
            final(self).sdata() == old(self).sdata(),
            (obj_result(r), final(self).spos()) == spec_obj_indirect(old(self).sdata(), old(self).spos(), num, gen),
    {
        let n2 = match read_number_from(&mut self.bytes)? {
            Number::Int(n) => n,
            _ => return Err(Error::Parse("unexpected token")),
        };
        if n2 != num as i64 {
            return Err(Error::Parse("number does not match"));
        }
        let g2 = match read_number_from(&mut self.bytes)? {
            Number::Int(g) => g,
            _ => return Err(Error::Parse("unexpected token")),
        };
        if g2 != gen as i64 {
            return Err(Error::Parse("number does not match"));
        }
        let t = self.bytes.read_token()?;
        if crate::kw::is_obj(t.as_slice()) {
            read_obj_from(&mut self.bytes)
        } else {
            Err(Error::Parse("unexpected token"))
        }
    }

    /// Moves to `start` and gives the raw data from there on.
    pub fn read_raw(&mut self, start: u64) -> (r: &[u8])
        ensures
            final(self).sdata() == old(self).sdata(),
            final(self).spos() == start,
            r@ == crate::bp::rest_of(old(self).sdata(), start as int),
    {
        self.bytes.seek_to(start);
        let d = self.bytes.data();
        if start < d.len() as u64 {
            crate::bp::slice_from(d, start as usize)
        } else {
            assert(crate::bp::rest_of(self.sdata(), start as int) =~= Seq::<u8>::empty());
            crate::bp::slice_from(d, d.len())
        }
    }
}

} // verus!
