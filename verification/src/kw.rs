use vstd::prelude::*;

verus! {

/// `true`
pub open spec fn kw_true() -> Seq<u8> {
    seq![0x74u8, 0x72, 0x75, 0x65]
}

/// `false`
pub open spec fn kw_false() -> Seq<u8> {
    seq![0x66u8, 0x61, 0x6C, 0x73, 0x65]
}

/// `null`
pub open spec fn kw_null() -> Seq<u8> {
    seq![0x6Eu8, 0x75, 0x6C, 0x6C]
}

/// `R`
pub open spec fn kw_r() -> Seq<u8> {
    seq![0x52u8]
}

/// `obj`
pub open spec fn kw_obj() -> Seq<u8> {
    seq![0x6Fu8, 0x62, 0x6A]
}

/// `endobj`
pub open spec fn kw_endobj() -> Seq<u8> {
    seq![0x65u8, 0x6E, 0x64, 0x6F, 0x62, 0x6A]
}

/// `stream`
pub open spec fn kw_stream() -> Seq<u8> {
    seq![0x73u8, 0x74, 0x72, 0x65, 0x61, 0x6D]
}

/// `xref`
pub open spec fn kw_xref() -> Seq<u8> {
    seq![0x78u8, 0x72, 0x65, 0x66]
}

/// `trailer`
pub open spec fn kw_trailer() -> Seq<u8> {
    seq![0x74u8, 0x72, 0x61, 0x69, 0x6C, 0x65, 0x72]
}

/// A one-byte token.
pub open spec fn kw1(c: u8) -> Seq<u8> {
    seq![c]
}

/// A two-byte token.
pub open spec fn kw2(c: u8) -> Seq<u8> {
    seq![c, c]
}

} // verus!

verus! {

/// Whether a token is the single byte `c`.
pub fn is_kw1(t: &[u8], c: u8) -> (r: bool)
    ensures
        r == (t@ == kw1(c)),
{
    if t.len() == 1 && t[0] == c {
        assert(t@ =~= kw1(c));
        true
    } else {
        false
    }
}

/// Whether a token is the byte `c` twice.
pub fn is_kw2(t: &[u8], c: u8) -> (r: bool)
    ensures
        r == (t@ == kw2(c)),
{
    if t.len() == 2 && t[0] == c && t[1] == c {
        assert(t@ =~= kw2(c));
        true
    } else {
        false
    }
}

/// Whether a token equals a keyword given by its bytes.
pub fn is_kw(t: &[u8], k: &[u8]) -> (r: bool)
    ensures
        r == (t@ == k@),
{
    crate::base::bytes_eq(t, k)
}

/// Whether a token is `true`.
pub fn is_true(t: &[u8]) -> (r: bool)
    ensures
        r == (t@ == kw_true()),
{
    let k: [u8; 4] = [0x74, 0x72, 0x75, 0x65];
    assert(k@ =~= kw_true());
    is_kw(t, &k)
}

/// Whether a token is `false`.
pub fn is_false(t: &[u8]) -> (r: bool)
    ensures
        r == (t@ == kw_false()),
{
    let k: [u8; 5] = [0x66, 0x61, 0x6C, 0x73, 0x65];
    assert(k@ =~= kw_false());
    is_kw(t, &k)
}

/// Whether a token is `null`.
pub fn is_null(t: &[u8]) -> (r: bool)
    ensures
        r == (t@ == kw_null()),
{
    let k: [u8; 4] = [0x6E, 0x75, 0x6C, 0x6C];
    assert(k@ =~= kw_null());
    is_kw(t, &k)
}

/// Whether a token is `obj`.
pub fn is_obj(t: &[u8]) -> (r: bool)
    ensures
        r == (t@ == kw_obj()),
{
    let k: [u8; 3] = [0x6F, 0x62, 0x6A];
    assert(k@ =~= kw_obj());
    is_kw(t, &k)
}

/// Whether a token is `endobj`.
pub fn is_endobj(t: &[u8]) -> (r: bool)
    ensures
        r == (t@ == kw_endobj()),
{
    let k: [u8; 6] = [0x65, 0x6E, 0x64, 0x6F, 0x62, 0x6A];
    assert(k@ =~= kw_endobj());
    is_kw(t, &k)
}

/// Whether a token is `stream`.
pub fn is_stream(t: &[u8]) -> (r: bool)
    ensures
        r == (t@ == kw_stream()),
{
    let k: [u8; 6] = [0x73, 0x74, 0x72, 0x65, 0x61, 0x6D];
    assert(k@ =~= kw_stream());
    is_kw(t, &k)
}

/// Whether a token is `xref`.
pub fn is_xref(t: &[u8]) -> (r: bool)
    ensures
        r == (t@ == kw_xref()),
{
    let k: [u8; 4] = [0x78, 0x72, 0x65, 0x66];
    assert(k@ =~= kw_xref());
    is_kw(t, &k)
}

/// Whether a token is `trailer`.
pub fn is_trailer(t: &[u8]) -> (r: bool)
    ensures
        r == (t@ == kw_trailer()),
{
    let k: [u8; 7] = [0x74, 0x72, 0x61, 0x69, 0x6C, 0x65, 0x72];
    assert(k@ =~= kw_trailer());
    is_kw(t, &k)
}

} // verus!
