use vstd::prelude::*;

verus! {

/// ASCII decimal digit.
pub open spec fn is_digit(c: u8) -> bool {
    0x30 <= c <= 0x39
}

/// Every byte is an ASCII decimal digit.
pub open spec fn all_digits(s: Seq<u8>) -> bool {
    forall|i: int| 0 <= i < s.len() ==> is_digit(#[trigger] s[i])
}

/// The value of a string of decimal digits (most significant first).
pub open spec fn digits_value(s: Seq<u8>) -> nat
    decreases s.len(),
{
    if s.len() == 0 {
        0
    } else {
        digits_value(s.drop_last()) * 10 + (s.last() - 0x30) as nat
    }
}

/// The digits of an unsigned decimal literal: an optional leading `+` is dropped.
pub open spec fn unsigned_digits(s: Seq<u8>) -> Seq<u8> {
    if s.len() > 0 && s[0] == 0x2B {
        s.drop_first()
    } else {
        s
    }
}

/// Value of an unsigned decimal literal (`[+]digits`), if it is one, without bound.
pub open spec fn spec_unsigned_value(s: Seq<u8>) -> Option<nat> {
    let d = unsigned_digits(s);
    if d.len() > 0 && all_digits(d) {
        Some(digits_value(d))
    } else {
        None
    }
}

/// What `u64::from_str` gives on a byte string: `[+]digits` with a value that fits.
pub open spec fn spec_parse_u64(s: Seq<u8>) -> Option<u64> {
    match spec_unsigned_value(s) {
        Some(v) => if v <= u64::MAX {
            Some(v as u64)
        } else {
            None
        },
        None => None,
    }
}

/// What `u16::from_str` gives on a byte string.
pub open spec fn spec_parse_u16(s: Seq<u8>) -> Option<u16> {
    match spec_unsigned_value(s) {
        Some(v) => if v <= u16::MAX {
            Some(v as u16)
        } else {
            None
        },
        None => None,
    }
}

/// What `i64::from_str` gives on a byte string: `[+|-]digits` with a value that fits.
pub open spec fn spec_parse_i64(s: Seq<u8>) -> Option<i64> {
    if s.len() > 0 && s[0] == 0x2D {
        let d = s.drop_first();
        if d.len() > 0 && all_digits(d) && digits_value(d) <= 0x8000_0000_0000_0000 {
            Some((0 - digits_value(d)) as i64)
        } else {
            None
        }
    } else {
        match spec_unsigned_value(s) {
            Some(v) => if v <= i64::MAX {
                Some(v as i64)
            } else {
                None
            },
            None => None,
        }
    }
}

/// Digit-string values grow with the prefix taken.
pub proof fn lemma_digits_value_prefix(s: Seq<u8>, j: int, k: int)
    requires
        0 <= j <= k <= s.len(),
        all_digits(s),
    ensures
        digits_value(s.take(j)) <= digits_value(s.take(k)),
    decreases k - j,
{
    if j < k {
        lemma_digits_value_prefix(s, j, k - 1);
        assert(s.take(k).drop_last() =~= s.take(k - 1));
    }
}

/// One more digit: the value of the longer prefix.
pub proof fn lemma_digits_value_step(d: Seq<u8>, k: int)
    requires
        0 <= k < d.len(),
    ensures
        digits_value(d.take(k + 1)) == digits_value(d.take(k)) * 10 + (d[k] - 0x30) as nat,
{
    assert(d.take(k + 1).drop_last() =~= d.take(k));
    assert(d.take(k + 1).last() == d[k]);
}

/// Parses an unsigned decimal number (`[+]digits`) that fits into `u64`, like
/// `str::parse::<u64>` on the bytes.
pub fn parse_num(bstr: &[u8]) -> (r: Option<u64>)
    ensures
        r == spec_parse_u64(bstr@),
{
    let n = bstr.len();
    let start: usize = if n > 0 && bstr[0] == 0x2B { 1 } else { 0 };
    let ghost d = unsigned_digits(bstr@);
    assert(d =~= bstr@.subrange(start as int, n as int));
    if start == n {
        return None;
    }
    let mut v: u64 = 0;
    let mut i: usize = start;
    while i < n
        invariant
            start <= i <= n,
            start < n,
            d == unsigned_digits(bstr@),
            d =~= bstr@.subrange(start as int, n as int),
            n == bstr@.len(),
            all_digits(d.take(i - start)),
            v as nat == digits_value(d.take(i - start)),
        decreases n - i,
    {
        let c = bstr[i];
        proof {
            lemma_digits_value_step(d, i - start);
        }
        assert(d[i - start] == c);
        if c < 0x30 || c > 0x39 {
            assert(!is_digit(d[i - start]));
            assert(!all_digits(d));
            return None;
        }
        assert(all_digits(d.take(i + 1 - start)));
        match v.checked_mul(10) {
            Some(m) => match m.checked_add((c - 0x30) as u64) {
                Some(a) => {
                    v = a;
                },
                None => {
                    proof {
                        assert(d.take(i + 1 - start) =~= d.take((i + 1 - start) as int));
                        if all_digits(d) {
                            lemma_digits_value_prefix(d, i + 1 - start, d.len() as int);
                            assert(d.take(d.len() as int) =~= d);
                        }
                    }
                    return None;
                },
            },
            None => {
                proof {
                    if all_digits(d) {
                        lemma_digits_value_prefix(d, i + 1 - start, d.len() as int);
                        assert(d.take(d.len() as int) =~= d);
                    }
                }
                return None;
            },
        }
        i = i + 1;
    }
    assert(d.take(n - start) =~= d);
    Some(v)
}

/// Parses an unsigned decimal number that fits into `u16`.
pub fn parse_num_u16(bstr: &[u8]) -> (r: Option<u16>)
    ensures
        r == spec_parse_u16(bstr@),
{
    match parse_num(bstr) {
        Some(v) => if v <= 0xFFFF {
            Some(v as u16)
        } else {
            None
        },
        None => None,
    }
}

/// Parses a signed decimal number (`[+|-]digits`) that fits into `i64`, like
/// `str::parse::<i64>` on the bytes.
pub fn parse_int(bstr: &[u8]) -> (r: Option<i64>)
    ensures
        r == spec_parse_i64(bstr@),
{
    let n = bstr.len();
    if n > 0 && bstr[0] == 0x2D {
        let ghost d = bstr@.drop_first();
        if n == 1 {
            return None;
        }
        let mut v: u64 = 0;
        let mut i: usize = 1;
        while i < n
            invariant
                1 <= i <= n,
                bstr@[0] == 0x2D,
                d == bstr@.drop_first(),
                d =~= bstr@.subrange(1, n as int),
                n == bstr@.len(),
                all_digits(d.take(i - 1)),
                v as nat == digits_value(d.take(i - 1)),
                v <= 0x8000_0000_0000_0000,
            decreases n - i,
        {
            let c = bstr[i];
            proof {
                lemma_digits_value_step(d, i - 1);
            }
            assert(d[i - 1] == c);
            if c < 0x30 || c > 0x39 {
                assert(!is_digit(d[i - 1]));
                assert(!all_digits(d));
                return None;
            }
            assert(all_digits(d.take(i + 1 - 1)));
            let ok = v <= 0x0CCC_CCCC_CCCC_CCCC && v * 10 + ((c - 0x30) as u64)
                <= 0x8000_0000_0000_0000;
            if !ok {
                proof {
                    if all_digits(d) {
                        lemma_digits_value_prefix(d, i + 1 - 1, d.len() as int);
                        assert(d.take(d.len() as int) =~= d);
                    }
                }
                return None;
            }
            v = v * 10 + ((c - 0x30) as u64);
            i = i + 1;
        }
        assert(d.take(n - 1) =~= d);
        if v == 0x8000_0000_0000_0000 {
            Some(i64::MIN)
        } else {
            Some(0 - (v as i64))
        }
    } else {
        match parse_num(bstr) {
            Some(v) => if v <= 0x7FFF_FFFF_FFFF_FFFF {
                Some(v as i64)
            } else {
                None
            },
            None => None,
        }
    }
}

/// The byte string is `0` or starts with a nonzero digit.
pub open spec fn strict_int_start(s: Seq<u8>) -> bool {
    (s.len() == 1 && s[0] == 0x30) || (s.len() >= 1 && 0x31 <= s[0] <= 0x39)
}

/// Parses an object or generation number: like [`parse_num`], but the literal must be `0` or
/// start with a nonzero digit (no sign, no leading zeros).
pub fn parse_int_strict(bstr: &[u8]) -> (r: Option<u64>)
    ensures
        r == (if strict_int_start(bstr@) {
            spec_parse_u64(bstr@)
        } else {
            None
        }),
{
    if (bstr.len() == 1 && bstr[0] == 0x30) || (bstr.len() >= 1 && 0x31 <= bstr[0]
        && bstr[0] <= 0x39) {
        parse_num(bstr)
    } else {
        None
    }
}

/// Like [`parse_int_strict`], for values that must fit into `u16`.
pub fn parse_int_strict_u16(bstr: &[u8]) -> (r: Option<u16>)
    ensures
        r == (if strict_int_start(bstr@) {
            spec_parse_u16(bstr@)
        } else {
            None
        }),
{
    if (bstr.len() == 1 && bstr[0] == 0x30) || (bstr.len() >= 1 && 0x31 <= bstr[0]
        && bstr[0] <= 0x39) {
        parse_num_u16(bstr)
    } else {
        None
    }
}

/// The value of a hexadecimal digit, if it is one.
pub open spec fn spec_hex_value(c: u8) -> Option<u8> {
    if 0x30 <= c <= 0x39 {
        Some((c - 0x30) as u8)
    } else if 0x61 <= c <= 0x66 {
        Some((c - 0x61 + 10) as u8)
    } else if 0x41 <= c <= 0x46 {
        Some((c - 0x41 + 10) as u8)
    } else {
        None
    }
}

/// Value of a hexadecimal digit (`0-9`, `a-f`, `A-F`).
pub fn hex_value(c: u8) -> (r: Option<u8>)
    ensures
        r == spec_hex_value(c),
        r matches Some(v) ==> v < 16,
{
    if 0x30 <= c && c <= 0x39 {
        Some(c - 0x30)
    } else if 0x61 <= c && c <= 0x66 {
        Some(c - 0x61 + 10)
    } else if 0x41 <= c && c <= 0x46 {
        Some(c - 0x41 + 10)
    } else {
        None
    }
}

} // verus!
