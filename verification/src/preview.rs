use vstd::prelude::*;

verus! {

/// A preview stops once more printable bytes than this have been shown.
pub const MAX_SHOWN: u64 = 1000;

/// A preview stops once more marked bytes than this have been shown.
pub const MAX_MARKED: u64 = 10;

/// The escape byte that starts a terminal control sequence.
pub const ESC: u8 = 0x1B;

/// Bytes shown as they are: printable ASCII and line feeds.
pub open spec fn is_shown(c: u8) -> bool {
    (0x20 <= c && c <= 0x7E) || c == 0x0A
}

/// A lowercase hexadecimal digit.
pub open spec fn hex_lower(v: u8) -> u8 {
    if v < 10 {
        (0x30 + v) as u8
    } else {
        (0x61 + v - 10) as u8
    }
}

/// Any other byte, in reverse video as `<xx>` (two lowercase hexadecimal digits).
pub open spec fn marked(c: u8) -> Seq<u8> {
    seq![ESC, 0x5Bu8, 0x37u8, 0x6Du8, 0x3Cu8, hex_lower(c / 16), hex_lower(c % 16), 0x3Eu8, ESC, 0x5Bu8, 0x30u8, 0x6Du8]
}

/// The preview of `data` from byte `i` on, with `shown` printable and `mark` marked bytes so
/// far, and `need_nl` telling whether the last byte shown left a line open. It stops with
/// `...` and a line break once too many bytes of either kind have been shown, and otherwise
/// closes an open line at the end.
pub open spec fn spec_preview_from(data: Seq<u8>, i: int, shown: nat, mark: nat, need_nl: bool) -> Seq<u8>
    decreases data.len() - i,
{
    if i < 0 || i >= data.len() {
        if need_nl {
            seq![0x0Au8]
        } else {
            Seq::empty()
        }
    } else {
        let c = data[i];
        let out = if is_shown(c) {
            seq![c]
        } else {
            marked(c)
        };
        let shown2 = if is_shown(c) {
            shown + 1
        } else {
            shown
        };
        let mark2 = if is_shown(c) {
            mark
        } else {
            mark + 1
        };
        let nl2 = if is_shown(c) {
            c != 0x0Au8
        } else {
            need_nl
        };
        if shown2 > MAX_SHOWN || mark2 > MAX_MARKED {
            out + seq![0x2Eu8, 0x2Eu8, 0x2Eu8, 0x0Au8]
        } else {
            out + spec_preview_from(data, i + 1, shown2, mark2, nl2)
        }
    }
}

/// How the data of a stream is previewed: printable bytes as they are, others marked (see
/// [`spec_preview_from`]).
pub open spec fn spec_preview(data: Seq<u8>) -> Seq<u8> {
    spec_preview_from(data, 0, 0, 0, true)
}

/// A lowercase hexadecimal digit (see [`hex_lower`]).
fn hex_digit(v: u8) -> (r: u8)
    requires
        v < 16,
    ensures
        r == hex_lower(v),
{
    if v < 10 {
        0x30 + v
    } else {
        0x61 + v - 10
    }
}

/// The preview of the data of a stream (see [`spec_preview`]).
pub fn preview(data: &[u8]) -> (r: Vec<u8>)
    ensures
        r@ == spec_preview(data@),
{
    let mut out: Vec<u8> = Vec::new();
    let mut shown: u64 = 0;
    let mut mark: u64 = 0;
    let mut need_nl = true;
    let mut i: usize = 0;
    while i < data.len()
        invariant
            0 <= i <= data@.len(),
            shown <= MAX_SHOWN,
            mark <= MAX_MARKED,
            out@ + spec_preview_from(data@, i as int, shown as nat, mark as nat, need_nl) == spec_preview(
                data@,
            ),
        decreases data@.len() - i,
    {
        let c = data[i];
        let ghost before = out@;
        let ghost s0 = shown as nat;
        let ghost m0 = mark as nat;
        let ghost n0 = need_nl;
        if (0x20 <= c && c <= 0x7E) || c == 0x0A {
            out.push(c);
            shown += 1;
            need_nl = c != 0x0A;
        } else {
            out.push(ESC);
            out.push(0x5B);
            out.push(0x37);
            out.push(0x6D);
            out.push(0x3C);
            out.push(hex_digit(c / 16));
            out.push(hex_digit(c % 16));
            out.push(0x3E);
            out.push(ESC);
            out.push(0x5B);
            out.push(0x30);
            out.push(0x6D);
            mark += 1;
        }
        if shown > MAX_SHOWN || mark > MAX_MARKED {
            out.push(0x2E);
            out.push(0x2E);
            out.push(0x2E);
            out.push(0x0A);
            assert(out@ =~= before + spec_preview_from(data@, i as int, s0, m0, n0));
            return out;
        }
        assert(out@ + spec_preview_from(data@, i + 1, shown as nat, mark as nat, need_nl) =~= before
            + spec_preview_from(data@, i as int, s0, m0, n0));
        i += 1;
    }
    let ghost before = out@;
    if need_nl {
        out.push(0x0A);
    }
    assert(out@ =~= before + spec_preview_from(data@, i as int, shown as nat, mark as nat, need_nl));
    out
}

} // verus!
