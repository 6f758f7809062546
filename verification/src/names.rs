use vstd::prelude::*;

verus! {

/// The bytes of /Filter.
pub open spec fn filter_bytes() -> Seq<u8> {
    seq![0x46u8, 0x69u8, 0x6Cu8, 0x74u8, 0x65u8, 0x72u8]
}

/// The bytes of /Filter, as an array.
pub fn filter_key() -> (r: [u8; 6])
    ensures
        r@ == filter_bytes(),
{
    let r: [u8; 6] = [0x46u8, 0x69u8, 0x6Cu8, 0x74u8, 0x65u8, 0x72u8];
    assert(r@ =~= filter_bytes());
    r
}

/// The bytes of /DecodeParms.
pub open spec fn decode_parms_bytes() -> Seq<u8> {
    seq![0x44u8, 0x65u8, 0x63u8, 0x6Fu8, 0x64u8, 0x65u8, 0x50u8, 0x61u8, 0x72u8, 0x6Du8, 0x73u8]
}

/// The bytes of /DecodeParms, as an array.
pub fn decode_parms_key() -> (r: [u8; 11])
    ensures
        r@ == decode_parms_bytes(),
{
    let r: [u8; 11] = [0x44u8, 0x65u8, 0x63u8, 0x6Fu8, 0x64u8, 0x65u8, 0x50u8, 0x61u8, 0x72u8, 0x6Du8, 0x73u8];
    assert(r@ =~= decode_parms_bytes());
    r
}

/// The bytes of /Predictor.
pub open spec fn predictor_bytes() -> Seq<u8> {
    seq![0x50u8, 0x72u8, 0x65u8, 0x64u8, 0x69u8, 0x63u8, 0x74u8, 0x6Fu8, 0x72u8]
}

/// The bytes of /Predictor, as an array.
pub fn predictor_key() -> (r: [u8; 9])
    ensures
        r@ == predictor_bytes(),
{
    let r: [u8; 9] = [0x50u8, 0x72u8, 0x65u8, 0x64u8, 0x69u8, 0x63u8, 0x74u8, 0x6Fu8, 0x72u8];
    assert(r@ =~= predictor_bytes());
    r
}

/// The bytes of /Columns.
pub open spec fn columns_bytes() -> Seq<u8> {
    seq![0x43u8, 0x6Fu8, 0x6Cu8, 0x75u8, 0x6Du8, 0x6Eu8, 0x73u8]
}

/// The bytes of /Columns, as an array.
pub fn columns_key() -> (r: [u8; 7])
    ensures
        r@ == columns_bytes(),
{
    let r: [u8; 7] = [0x43u8, 0x6Fu8, 0x6Cu8, 0x75u8, 0x6Du8, 0x6Eu8, 0x73u8];
    assert(r@ =~= columns_bytes());
    r
}

/// The bytes of /FlateDecode.
pub open spec fn flate_decode_bytes() -> Seq<u8> {
    seq![0x46u8, 0x6Cu8, 0x61u8, 0x74u8, 0x65u8, 0x44u8, 0x65u8, 0x63u8, 0x6Fu8, 0x64u8, 0x65u8]
}

/// The bytes of /FlateDecode, as an array.
pub fn flate_decode_key() -> (r: [u8; 11])
    ensures
        r@ == flate_decode_bytes(),
{
    let r: [u8; 11] = [0x46u8, 0x6Cu8, 0x61u8, 0x74u8, 0x65u8, 0x44u8, 0x65u8, 0x63u8, 0x6Fu8, 0x64u8, 0x65u8];
    assert(r@ =~= flate_decode_bytes());
    r
}

/// The bytes of /ASCIIHexDecode.
pub open spec fn asciihex_decode_bytes() -> Seq<u8> {
    seq![0x41u8, 0x53u8, 0x43u8, 0x49u8, 0x49u8, 0x48u8, 0x65u8, 0x78u8, 0x44u8, 0x65u8, 0x63u8, 0x6Fu8, 0x64u8, 0x65u8]
}

/// The bytes of /ASCIIHexDecode, as an array.
pub fn asciihex_decode_key() -> (r: [u8; 14])
    ensures
        r@ == asciihex_decode_bytes(),
{
    let r: [u8; 14] = [0x41u8, 0x53u8, 0x43u8, 0x49u8, 0x49u8, 0x48u8, 0x65u8, 0x78u8, 0x44u8, 0x65u8, 0x63u8, 0x6Fu8, 0x64u8, 0x65u8];
    assert(r@ =~= asciihex_decode_bytes());
    r
}

/// The bytes of /ASCII85Decode.
pub open spec fn ascii85_decode_bytes() -> Seq<u8> {
    seq![0x41u8, 0x53u8, 0x43u8, 0x49u8, 0x49u8, 0x38u8, 0x35u8, 0x44u8, 0x65u8, 0x63u8, 0x6Fu8, 0x64u8, 0x65u8]
}

/// The bytes of /ASCII85Decode, as an array.
pub fn ascii85_decode_key() -> (r: [u8; 13])
    ensures
        r@ == ascii85_decode_bytes(),
{
    let r: [u8; 13] = [0x41u8, 0x53u8, 0x43u8, 0x49u8, 0x49u8, 0x38u8, 0x35u8, 0x44u8, 0x65u8, 0x63u8, 0x6Fu8, 0x64u8, 0x65u8];
    assert(r@ =~= ascii85_decode_bytes());
    r
}

/// The bytes of /Length.
pub open spec fn length_bytes() -> Seq<u8> {
    seq![0x4Cu8, 0x65u8, 0x6Eu8, 0x67u8, 0x74u8, 0x68u8]
}

/// The bytes of /Length, as an array.
pub fn length_key() -> (r: [u8; 6])
    ensures
        r@ == length_bytes(),
{
    let r: [u8; 6] = [0x4Cu8, 0x65u8, 0x6Eu8, 0x67u8, 0x74u8, 0x68u8];
    assert(r@ =~= length_bytes());
    r
}

/// The bytes of /Type.
pub open spec fn type_bytes() -> Seq<u8> {
    seq![0x54u8, 0x79u8, 0x70u8, 0x65u8]
}

/// The bytes of /Type, as an array.
pub fn type_key() -> (r: [u8; 4])
    ensures
        r@ == type_bytes(),
{
    let r: [u8; 4] = [0x54u8, 0x79u8, 0x70u8, 0x65u8];
    assert(r@ =~= type_bytes());
    r
}

/// The bytes of /XRef.
pub open spec fn xref_bytes() -> Seq<u8> {
    seq![0x58u8, 0x52u8, 0x65u8, 0x66u8]
}

/// The bytes of /XRef, as an array.
pub fn xref_key() -> (r: [u8; 4])
    ensures
        r@ == xref_bytes(),
{
    let r: [u8; 4] = [0x58u8, 0x52u8, 0x65u8, 0x66u8];
    assert(r@ =~= xref_bytes());
    r
}

/// The bytes of /Size.
pub open spec fn size_bytes() -> Seq<u8> {
    seq![0x53u8, 0x69u8, 0x7Au8, 0x65u8]
}

/// The bytes of /Size, as an array.
pub fn size_key() -> (r: [u8; 4])
    ensures
        r@ == size_bytes(),
{
    let r: [u8; 4] = [0x53u8, 0x69u8, 0x7Au8, 0x65u8];
    assert(r@ =~= size_bytes());
    r
}

/// The bytes of /Index.
pub open spec fn index_bytes() -> Seq<u8> {
    seq![0x49u8, 0x6Eu8, 0x64u8, 0x65u8, 0x78u8]
}

/// The bytes of /Index, as an array.
pub fn index_key() -> (r: [u8; 5])
    ensures
        r@ == index_bytes(),
{
    let r: [u8; 5] = [0x49u8, 0x6Eu8, 0x64u8, 0x65u8, 0x78u8];
    assert(r@ =~= index_bytes());
    r
}

/// The bytes of /W.
pub open spec fn w_bytes() -> Seq<u8> {
    seq![0x57u8]
}

/// The bytes of /W, as an array.
pub fn w_key() -> (r: [u8; 1])
    ensures
        r@ == w_bytes(),
{
    let r: [u8; 1] = [0x57u8];
    assert(r@ =~= w_bytes());
    r
}

/// The bytes of /Prev.
pub open spec fn prev_bytes() -> Seq<u8> {
    seq![0x50u8, 0x72u8, 0x65u8, 0x76u8]
}

/// The bytes of /Prev, as an array.
pub fn prev_key() -> (r: [u8; 4])
    ensures
        r@ == prev_bytes(),
{
    let r: [u8; 4] = [0x50u8, 0x72u8, 0x65u8, 0x76u8];
    assert(r@ =~= prev_bytes());
    r
}

/// The bytes of /XRefStm.
pub open spec fn xref_stm_bytes() -> Seq<u8> {
    seq![0x58u8, 0x52u8, 0x65u8, 0x66u8, 0x53u8, 0x74u8, 0x6Du8]
}

/// The bytes of /XRefStm, as an array.
pub fn xref_stm_key() -> (r: [u8; 7])
    ensures
        r@ == xref_stm_bytes(),
{
    let r: [u8; 7] = [0x58u8, 0x52u8, 0x65u8, 0x66u8, 0x53u8, 0x74u8, 0x6Du8];
    assert(r@ =~= xref_stm_bytes());
    r
}

/// The bytes of /N.
pub open spec fn n_bytes() -> Seq<u8> {
    seq![0x4Eu8]
}

/// The bytes of /N, as an array.
pub fn n_key() -> (r: [u8; 1])
    ensures
        r@ == n_bytes(),
{
    let r: [u8; 1] = [0x4Eu8];
    assert(r@ =~= n_bytes());
    r
}

/// The bytes of /First.
pub open spec fn first_bytes() -> Seq<u8> {
    seq![0x46u8, 0x69u8, 0x72u8, 0x73u8, 0x74u8]
}

/// The bytes of /First, as an array.
pub fn first_key() -> (r: [u8; 5])
    ensures
        r@ == first_bytes(),
{
    let r: [u8; 5] = [0x46u8, 0x69u8, 0x72u8, 0x73u8, 0x74u8];
    assert(r@ =~= first_bytes());
    r
}

/// The bytes of `startxref`.
pub open spec fn startxref_bytes() -> Seq<u8> {
    seq![0x73u8, 0x74u8, 0x61u8, 0x72u8, 0x74u8, 0x78u8, 0x72u8, 0x65u8, 0x66u8]
}

/// The bytes of `startxref`, as an array.
pub fn startxref_key() -> (r: [u8; 9])
    ensures
        r@ == startxref_bytes(),
{
    let r: [u8; 9] = [0x73u8, 0x74u8, 0x61u8, 0x72u8, 0x74u8, 0x78u8, 0x72u8, 0x65u8, 0x66u8];
    assert(r@ =~= startxref_bytes());
    r
}

/// The bytes of `endstream`.
pub open spec fn endstream_bytes() -> Seq<u8> {
    seq![0x65u8, 0x6Eu8, 0x64u8, 0x73u8, 0x74u8, 0x72u8, 0x65u8, 0x61u8, 0x6Du8]
}

/// The bytes of `endstream`, as an array.
pub fn endstream_key() -> (r: [u8; 9])
    ensures
        r@ == endstream_bytes(),
{
    let r: [u8; 9] = [0x65u8, 0x6Eu8, 0x64u8, 0x73u8, 0x74u8, 0x72u8, 0x65u8, 0x61u8, 0x6Du8];
    assert(r@ =~= endstream_bytes());
    r
}

/// The bytes of /Pages.
pub open spec fn pages_bytes() -> Seq<u8> {
    seq![0x50u8, 0x61u8, 0x67u8, 0x65u8, 0x73u8]
}

/// The bytes of /Pages, as an array.
pub fn pages_key() -> (r: [u8; 5])
    ensures
        r@ == pages_bytes(),
{
    let r: [u8; 5] = [0x50u8, 0x61u8, 0x67u8, 0x65u8, 0x73u8];
    assert(r@ =~= pages_bytes());
    r
}

/// The bytes of /Page.
pub open spec fn page_bytes() -> Seq<u8> {
    seq![0x50u8, 0x61u8, 0x67u8, 0x65u8]
}

/// The bytes of /Page, as an array.
pub fn page_key() -> (r: [u8; 4])
    ensures
        r@ == page_bytes(),
{
    let r: [u8; 4] = [0x50u8, 0x61u8, 0x67u8, 0x65u8];
    assert(r@ =~= page_bytes());
    r
}

/// The bytes of /Count.
pub open spec fn count_bytes() -> Seq<u8> {
    seq![0x43u8, 0x6Fu8, 0x75u8, 0x6Eu8, 0x74u8]
}

/// The bytes of /Count, as an array.
pub fn count_key() -> (r: [u8; 5])
    ensures
        r@ == count_bytes(),
{
    let r: [u8; 5] = [0x43u8, 0x6Fu8, 0x75u8, 0x6Eu8, 0x74u8];
    assert(r@ =~= count_bytes());
    r
}

/// The bytes of /Kids.
pub open spec fn kids_bytes() -> Seq<u8> {
    seq![0x4Bu8, 0x69u8, 0x64u8, 0x73u8]
}

/// The bytes of /Kids, as an array.
pub fn kids_key() -> (r: [u8; 4])
    ensures
        r@ == kids_bytes(),
{
    let r: [u8; 4] = [0x4Bu8, 0x69u8, 0x64u8, 0x73u8];
    assert(r@ =~= kids_bytes());
    r
}

/// The bytes of /Parent.
pub open spec fn parent_bytes() -> Seq<u8> {
    seq![0x50u8, 0x61u8, 0x72u8, 0x65u8, 0x6Eu8, 0x74u8]
}

/// The bytes of /Parent, as an array.
pub fn parent_key() -> (r: [u8; 6])
    ensures
        r@ == parent_bytes(),
{
    let r: [u8; 6] = [0x50u8, 0x61u8, 0x72u8, 0x65u8, 0x6Eu8, 0x74u8];
    assert(r@ =~= parent_bytes());
    r
}

/// The bytes of /Root.
pub open spec fn root_bytes() -> Seq<u8> {
    seq![0x52u8, 0x6Fu8, 0x6Fu8, 0x74u8]
}

/// The bytes of /Root, as an array.
pub fn root_key() -> (r: [u8; 4])
    ensures
        r@ == root_bytes(),
{
    let r: [u8; 4] = [0x52u8, 0x6Fu8, 0x6Fu8, 0x74u8];
    assert(r@ =~= root_bytes());
    r
}

} // verus!
