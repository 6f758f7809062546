use vstd::prelude::*;

use crate::base::object::{lemma_array_sv, lemma_dict_sv, lemma_stream_sv, spec_num_value};
use crate::base::{
    eof, no_resolver_error, objs_sv, spec_lookup, xref_result, Data, Dict, Error, Locator, Name,
    ObjIndex, ObjNum, ObjRef, Object, Offset, Record, Resolver, SData, SObject, SXRef, Stream, XRef,
    XRefType,
};
use crate::bp::{bytes_result, rest_of, ByteProvider};
use crate::codecs::{
    filters_result, filters_sv, filters_supported, resolve_sobj, spec_decode, spec_filter_items,
    spec_filters_unknown, spec_items_unknown, spec_parse_filters, Filter, SFilter,
};
use crate::names::{decode_parms_key, filter_bytes, filter_key};
use crate::fp::{spec_read_at, spec_read_xref_at, spec_take, FileParser, STLO, predictor_error};
use crate::op::{obj_result, spec_obj};
use crate::tk::spec_read_token;
use crate::utils::spec_parse_u64;
use super::esr::{until_endstream, EndstreamReader};

verus! {

/// How deeply reading an object stream may need to resolve objects in other object streams
/// (for its `/Length` or `/Filter`).
pub const MAX_DEPTH: u64 = 16;

/// The error of object streams that depend on each other too deeply.
pub open spec fn depth_error() -> Error {
    Error::Parse("object streams nested too deeply")
}

/// The lookup of a locator, as a function.
pub open spec fn locate_fn<L: Locator>(l: &L) -> spec_fn(ObjRef) -> Option<Record> {
    |o: ObjRef| l.spec_locate(o)
}

/// Resolution through the locator `ls` with `fuel` levels of object streams, as a function.
pub open spec fn resolver_of(
    d: Seq<u8>,
    start: u64,
    ls: spec_fn(ObjRef) -> Option<Record>,
    fuel: nat,
) -> spec_fn(ObjRef) -> Result<SObject, Error>
    decreases fuel, 5nat,
{
    |x: ObjRef| spec_resolve_ref(d, start, ls, x, fuel)
}

/// Reading the object `oref` at `offset` (relative to `start`).
pub open spec fn spec_read_uncompressed(d: Seq<u8>, start: u64, offset: u64, oref: ObjRef) -> Result<
    SObject,
    Error,
> {
    match spec_read_at(d, offset + start) {
        Err(e) => Err(e),
        Ok(STLO::XRef(_)) => Err(Error::Parse("expected object, found xref section")),
        Ok(STLO::IndirObject(o, x)) => if o == oref {
            Ok(x)
        } else {
            Err(Error::Parse("object number mismatch"))
        },
    }
}

/// The value of an object stream: the object numbers and offsets of its header, and the
/// data after the header.
pub struct SObjStm {
    pub entries: Seq<(u64, u64)>,
    pub source: Seq<u8>,
}

/// Reading `count` pairs of numbers (object number, offset) from an object stream header at
/// `p`.
pub open spec fn spec_objstm_header(h: Seq<u8>, p: int, count: nat) -> Result<Seq<(u64, u64)>, Error>
    decreases count,
{
    if count == 0 {
        Ok(Seq::empty())
    } else {
        match spec_read_token(h, p) {
            (Err(e), _) => Err(e),
            (Ok(t1), p1) => match spec_parse_u64(t1) {
                None => Err(Error::Parse("malformed object stream header")),
                Some(num) => match spec_read_token(h, p1) {
                    (Err(e), _) => Err(e),
                    (Ok(t2), p2) => match spec_parse_u64(t2) {
                        None => Err(Error::Parse("malformed object stream header")),
                        Some(off) => match spec_objstm_header(h, p2, (count - 1) as nat) {
                            Ok(rest) => Ok(seq![(num, off)] + rest),
                            Err(e) => Err(e),
                        },
                    },
                },
            },
        }
    }
}

/// Parsing the decoded data of an object stream with `count` objects whose header takes the
/// first `first` bytes.
pub open spec fn spec_parse_objstm(data: Seq<u8>, count: u64, first: u64) -> Result<SObjStm, Error> {
    let h = if first < data.len() {
        data.take(first as int)
    } else {
        data
    };
    match spec_objstm_header(h, 0, count as nat) {
        Err(e) => Err(e),
        Ok(entries) => Ok(SObjStm { entries, source: data.skip(h.len() as int) }),
    }
}

/// Reading object `index` of an object stream, which must be `oref`: it lies from its offset
/// up to the offset of the next object, or up to the end.
pub open spec fn spec_objstm_get(os: SObjStm, index: u16, oref: ObjRef) -> Result<SObject, Error> {
    if index >= os.entries.len() {
        Err(Error::Parse("out of bounds index requested from object stream"))
    } else {
        let (num, so) = os.entries[index as int];
        if (ObjRef { num, gen: 0 }) != oref {
            Err(Error::Parse("object number mismatch"))
        } else {
            let eo: int = if index + 1 < os.entries.len() {
                os.entries[index + 1].1 as int
            } else {
                os.source.len() as int
            };
            if so > eo || eo > os.source.len() {
                Err(Error::Parse("malformed object stream"))
            } else {
                spec_obj(os.source.subrange(so as int, eo), 0).0
            }
        }
    }
}

/// Resolving `objref` through the locator `ls`; `fuel` bounds the nesting of object streams.
pub open spec fn spec_resolve_ref(
    d: Seq<u8>,
    start: u64,
    ls: spec_fn(ObjRef) -> Option<Record>,
    objref: ObjRef,
    fuel: nat,
) -> Result<SObject, Error>
    decreases fuel, 4nat,
{
    match ls(objref) {
        Some(Record::Used { offset, .. }) => spec_read_uncompressed(d, start, offset, objref),
        Some(Record::Compr { num_within, index }) => spec_read_compressed(
            d,
            start,
            ls,
            num_within,
            index,
            objref,
            fuel,
        ),
        _ => Ok(SObject::Null),
    }
}

/// Reading object `index` of the object stream numbered `num_within`, which must be `oref`.
pub open spec fn spec_read_compressed(
    d: Seq<u8>,
    start: u64,
    ls: spec_fn(ObjRef) -> Option<Record>,
    num_within: u64,
    index: u16,
    oref: ObjRef,
    fuel: nat,
) -> Result<SObject, Error>
    decreases fuel, 3nat,
{
    match spec_objstm_of(d, start, ls, num_within, fuel) {
        Err(e) => Err(e),
        Ok(os) => spec_objstm_get(os, index, oref),
    }
}

/// Reading the object stream numbered `num`: it must be located as an uncompressed object of
/// generation 0.
pub open spec fn spec_objstm_of(
    d: Seq<u8>,
    start: u64,
    ls: spec_fn(ObjRef) -> Option<Record>,
    num: u64,
    fuel: nat,
) -> Result<SObjStm, Error>
    decreases fuel, 2nat,
{
    let oref = ObjRef { num, gen: 0 };
    match ls(oref) {
        Some(Record::Used { offset, gen }) => if gen == 0 {
            spec_read_objstm(d, start, ls, offset, oref, fuel)
        } else {
            Err(Error::Parse("object stream not located"))
        },
        _ => Err(Error::Parse("object stream not located")),
    }
}

/// Reading the object stream `oref` at `offset`: a stream with `/N` objects whose header takes
/// the first `/First` bytes of its decoded data.
pub open spec fn spec_read_objstm(
    d: Seq<u8>,
    start: u64,
    ls: spec_fn(ObjRef) -> Option<Record>,
    offset: u64,
    oref: ObjRef,
    fuel: nat,
) -> Result<SObjStm, Error>
    decreases fuel, 1nat,
{
    if fuel == 0 {
        Err(depth_error())
    } else {
        match spec_read_uncompressed(d, start, offset, oref) {
            Err(e) => Err(e),
            Ok(SObject::Stream(dict, sd)) => match spec_num_value(
                spec_lookup(dict, crate::names::n_bytes()),
            ) {
                None => Err(Error::Parse("malformed object stream (/N)")),
                Some(count) => match spec_num_value(spec_lookup(dict, crate::names::first_bytes())) {
                    None => Err(Error::Parse("malformed object stream (/First)")),
                    Some(first) => match spec_stream_data(
                        d,
                        start,
                        ls,
                        dict,
                        sd,
                        (fuel - 1) as nat,
                    ) {
                        Err(e) => Err(e),
                        Ok(data) => spec_parse_objstm(data, count, first),
                    },
                },
            },
            Ok(_) => Err(Error::Parse("object stream not found")),
        }
    }
}

/// The decoded data of a stream in the file: `/Length` bytes (resolved where it is a
/// reference), or up to `endstream` when the length is not a non-negative integer, decoded
/// with the stream's filters. When one of the filters is not implemented, the data is given as
/// it is in the file.
pub open spec fn spec_stream_data(
    d: Seq<u8>,
    start: u64,
    ls: spec_fn(ObjRef) -> Option<Record>,
    dict: Seq<(Seq<u8>, SObject)>,
    sd: SData,
    fuel: nat,
) -> Result<Seq<u8>, Error>
    decreases fuel, 6nat,
{
    let len_obj = match spec_lookup(dict, crate::names::length_bytes()) {
        SObject::Ref(r) => spec_resolve_ref(d, start, ls, r, fuel),
        o => Ok(o),
    };
    match len_obj {
        Err(e) => Err(e),
        Ok(lo) => {
            let rs = resolver_of(d, start, ls, fuel);
            match spec_parse_filters(dict, rs) {
                Err(e) if !spec_filters_unknown(dict, rs) => Err(e),
                pf => match sd {
                    SData::Val(v) => Err(Error::Parse("stream data not in the file")),
                    SData::Ref(offset) => {
                        let input = match spec_num_value(lo) {
                            Some(len) => spec_take(d, offset as int, len as int),
                            None => until_endstream(rest_of(d, offset as int)),
                        };
                        match pf {
                            Err(_) => Ok(input),
                            Ok(fs) => if !filters_supported(fs) {
                                Err(predictor_error())
                            } else {
                                spec_decode(input, fs)
                            },
                        }
                    },
                },
            }
        },
    }
}

/// An object stream as read: the object numbers and offsets of its header, and the data after
/// the header.
pub struct ObjStm {
    pub entries: Vec<(ObjNum, Offset)>,
    pub source: Vec<u8>,
}

impl ObjStm {
    /// The value of the object stream.
    pub open spec fn sv(&self) -> SObjStm {
        SObjStm { entries: self.entries@, source: self.source@ }
    }
}

/// An object stream result viewed as a value result.
pub open spec fn objstm_result(r: Result<ObjStm, Error>) -> Result<SObjStm, Error> {
    match r {
        Ok(o) => Ok(o.sv()),
        Err(e) => Err(e),
    }
}

/// Parses the decoded data of an object stream (see [`spec_parse_objstm`]).
pub fn parse_objstm(data: &[u8], count: u64, first: u64) -> (r: Result<ObjStm, Error>)
    ensures
        objstm_result(r) == spec_parse_objstm(data@, count, first),
{
    let hlen: usize = if first < data.len() as u64 { first as usize } else { data.len() };
    let h = crate::bp::subslice_to_vec(data, 0, hlen);
    assert(h@ =~= (if first < data@.len() { data@.take(first as int) } else { data@ }));
    let mut header = ByteProvider::new(h);
    let mut entries: Vec<(ObjNum, Offset)> = Vec::new();
    let mut k: u64 = 0;
    while k < count
        invariant
            k <= count,
            header.sdata() == h@,
            hlen == h@.len(),
            h@ == (if first < data@.len() {
                data@.take(first as int)
            } else {
                data@
            }),
            spec_objstm_header(h@, 0, count as nat) == match spec_objstm_header(
                h@,
                header.spos(),
                (count - k) as nat,
            ) {
                Ok(rest) => Ok(entries@ + rest),
                Err(e) => Err(e),
            },
        decreases count - k,
    {
        let ghost old_entries = entries@;
        let t1 = header.read_token()?;
        let num = match crate::utils::parse_num(t1.as_slice()) {
            Some(n) => n,
            None => return Err(Error::Parse("malformed object stream header")),
        };
        let t2 = header.read_token()?;
        let off = match crate::utils::parse_num(t2.as_slice()) {
            Some(n) => n,
            None => return Err(Error::Parse("malformed object stream header")),
        };
        entries.push((num, off));
        proof {
            match spec_objstm_header(h@, header.spos(), (count - k - 1) as nat) {
                Ok(rest) => {
                    assert(old_entries + (seq![(num, off)] + rest) =~= entries@ + rest);
                },
                Err(_) => {},
            }
        }
        k += 1;
    }
    assert(entries@ + Seq::<(u64, u64)>::empty() =~= entries@);
    let source = crate::bp::subslice_to_vec(data, hlen, data.len());
    Ok(ObjStm { entries, source })
}

/// Reads object `index` of an object stream (see [`spec_objstm_get`]).
pub fn objstm_get(os: &ObjStm, index: ObjIndex, oref: &ObjRef) -> (r: Result<Object, Error>)
    ensures
        obj_result(r) == spec_objstm_get(os.sv(), index, *oref),
{
    let i = index as usize;
    if i >= os.entries.len() {
        return Err(Error::Parse("out of bounds index requested from object stream"));
    }
    let (num, so) = os.entries[i];
    if !((ObjRef { num, gen: 0 }) == *oref) {
        return Err(Error::Parse("object number mismatch"));
    }
    let eo: u64 = if i + 1 < os.entries.len() {
        os.entries[i + 1].1
    } else {
        os.source.len() as u64
    };
    if so > eo || eo > os.source.len() as u64 {
        return Err(Error::Parse("malformed object stream"));
    }
    let part = crate::bp::subslice_to_vec(os.source.as_slice(), so as usize, eo as usize);
    let mut bp = ByteProvider::new(part);
    crate::op::read_obj_from(&mut bp)
}

/// Finds and parses objects in a PDF file through a cross-reference table, given as a
/// [`Locator`] to each call.
pub struct BaseReader {
    pub parser: FileParser,
}

impl BaseReader {
    /// The data of the file.
    pub open spec fn sdata(&self) -> Seq<u8> {
        self.parser.sdata()
    }

    /// The offset that positions are relative to.
    pub open spec fn sstart(&self) -> u64 {
        self.parser.sstart()
    }

    /// Whether `other` reads the same file in the same way.
    pub open spec fn same_file(&self, other: &BaseReader) -> bool {
        self.sdata() == other.sdata() && self.parser.sheader() == other.parser.sheader()
    }

    /// A reader around a file parser.
    pub fn new(parser: FileParser) -> (r: BaseReader)
        ensures
            r.parser == parser,
    {
        BaseReader { parser }
    }

    /// Reads the object `oref` at `offset` (see [`spec_read_uncompressed`]).
    pub fn read_uncompressed(&mut self, offset: Offset, oref_expd: &ObjRef) -> (r: Result<Object, Error>)
        ensures
            final(self).same_file(old(self)),
            obj_result(r) == spec_read_uncompressed(old(self).sdata(), old(self).sstart(), offset, *oref_expd),
    {
        let (oref, obj) = self.parser.read_obj_at(offset)?;
        if oref == *oref_expd {
            Ok(obj)
        } else {
            Err(Error::Parse("object number mismatch"))
        }
    }

    /// Resolves `objref` with `fuel` levels of object streams (see [`spec_resolve_ref`]).
    fn resolve_ref_fuel<L: Locator>(&mut self, objref: &ObjRef, locator: &L, fuel: u64) -> (r: Result<Object, Error>)
        ensures
            final(self).same_file(old(self)),
            obj_result(r) == spec_resolve_ref(
                old(self).sdata(),
                old(self).sstart(),
                locate_fn(locator),
                *objref,
                fuel as nat,
            ),
        decreases fuel, 3nat,
    {
        match locator.locate(objref) {
            Some(Record::Used { offset, .. }) => self.read_uncompressed(offset, objref),
            Some(Record::Compr { num_within, index }) => self.read_compressed_fuel(
                num_within,
                index,
                locator,
                objref,
                fuel,
            ),
            _ => Ok(Object::Null),
        }
    }

    /// Reads a compressed object (see [`spec_read_compressed`]).
    fn read_compressed_fuel<L: Locator>(
        &mut self,
        num_within: ObjNum,
        index: ObjIndex,
        locator: &L,
        oref_expd: &ObjRef,
        fuel: u64,
    ) -> (r: Result<Object, Error>)
        ensures
            final(self).same_file(old(self)),
            obj_result(r) == spec_read_compressed(
                old(self).sdata(),
                old(self).sstart(),
                locate_fn(locator),
                num_within,
                index,
                *oref_expd,
                fuel as nat,
            ),
        decreases fuel, 2nat,
    {
        let os = self.objstm_of(num_within, locator, fuel)?;
        objstm_get(&os, index, oref_expd)
    }

    /// Reads the object stream numbered `num` (see [`spec_objstm_of`]).
    pub(crate) fn objstm_of<L: Locator>(&mut self, num: ObjNum, locator: &L, fuel: u64) -> (r: Result<ObjStm, Error>)
        ensures
            final(self).same_file(old(self)),
            objstm_result(r) == spec_objstm_of(
                old(self).sdata(),
                old(self).sstart(),
                locate_fn(locator),
                num,
                fuel as nat,
            ),
        decreases fuel, 1nat,
    {
        let oref = ObjRef { num, gen: 0 };
        match locator.locate(&oref) {
            Some(Record::Used { offset, gen }) => if gen == 0 {
                self.read_objstm(offset, &oref, locator, fuel)
            } else {
                Err(Error::Parse("object stream not located"))
            },
            _ => Err(Error::Parse("object stream not located")),
        }
    }

    /// Reads the object stream `oref` at `offset` (see [`spec_read_objstm`]).
    fn read_objstm<L: Locator>(&mut self, offset: Offset, oref: &ObjRef, locator: &L, fuel: u64) -> (r:
        Result<ObjStm, Error>)
        ensures
            final(self).same_file(old(self)),
            objstm_result(r) == spec_read_objstm(
                old(self).sdata(),
                old(self).sstart(),
                locate_fn(locator),
                offset,
                *oref,
                fuel as nat,
            ),
        decreases fuel, 0nat,
    {
        if fuel == 0 {
            return Err(Error::Parse("object streams nested too deeply"));
        }
        let stm = match self.read_uncompressed(offset, oref)? {
            Object::Stream(s) => s,
            _ => return Err(Error::Parse("object stream not found")),
        };
        proof {
            lemma_stream_sv(stm);
        }
        let nk = crate::names::n_key();
        let count = match stm.dict.lookup(&nk).num_value() {
            Some(c) => c,
            None => return Err(Error::Parse("malformed object stream (/N)")),
        };
        let fk = crate::names::first_key();
        let first = match stm.dict.lookup(&fk).num_value() {
            Some(f) => f,
            None => return Err(Error::Parse("malformed object stream (/First)")),
        };
        let data = self.stream_data_fuel(&stm.dict, &stm.data, locator, fuel - 1)?;
        parse_objstm(data.as_slice(), count, first)
    }

    /// Resolves an object that may be a reference.
    fn resolve_obj_fuel<L: Locator>(&mut self, o: Object, locator: &L, fuel: u64) -> (r: Result<Object, Error>)
        ensures
            final(self).same_file(old(self)),
            obj_result(r) == crate::codecs::resolve_sobj(
                o.sv(),
                resolver_of(old(self).sdata(), old(self).sstart(), locate_fn(locator), fuel as nat),
            ),
        decreases fuel, 4nat,
    {
        match o {
            Object::Ref(x) => self.resolve_ref_fuel(&x, locator, fuel),
            _ => Ok(o),
        }
    }

    /// Parses the `/Filter` and `/DecodeParms` entries of a stream dictionary into a filter chain
    /// (see [`spec_parse_filters`]); also tells whether it failed at a name that is no
    /// implemented filter (see [`spec_filters_unknown`]).
    fn parse_filters_fuel<L: Locator>(&mut self, dict: &Dict, locator: &L, fuel: u64) -> (r: (
        Result<Vec<Filter>, Error>,
        bool,
    ))
        ensures
            final(self).same_file(old(self)),
            filters_result(r.0) == spec_parse_filters(
                dict.sv(),
                resolver_of(old(self).sdata(), old(self).sstart(), locate_fn(locator), fuel as nat),
            ),
            r.1 == spec_filters_unknown(
                dict.sv(),
                resolver_of(old(self).sdata(), old(self).sstart(), locate_fn(locator), fuel as nat),
            ),
        decreases fuel, 5nat,
    {
        let ghost rs = resolver_of(old(self).sdata(), old(self).sstart(), locate_fn(locator), fuel as nat);
        let fk = filter_key();
        let pk = decode_parms_key();
        let params = dict.lookup(&pk);
        let filter = match self.resolve_obj_fuel(dict.lookup(&fk), locator, fuel) {
            Ok(f) => f,
            Err(e) => return (Err(e), false),
        };
        assert(resolve_sobj(spec_lookup(dict.sv(), filter_bytes()), rs) == Ok::<SObject, Error>(
            filter.sv(),
        ));
        match filter {
            Object::Name(name) => {
                let p = match params {
                    Object::Dict(pd) => {
                        proof {
                            crate::base::object::lemma_dict_sv(pd);
                        }
                        Some(pd)
                    },
                    Object::Null => None,
                    _ => return (Err(Error::Parse("malformed /DecodeParms")), false),
                };
                let f = match Filter::try_from(&name, p) {
                    Ok(f) => f,
                    Err(e) => return (Err(e), true),
                };
                let mut v: Vec<Filter> = Vec::new();
                v.push(f);
                assert(filters_sv(v@) =~= seq![f.sv()]);
                (Ok(v), false)
            },
            Object::Array(items) => {
                proof {
                    crate::base::object::lemma_array_sv(items);
                }
                let (has_ps, arr): (bool, Vec<Object>) = match params {
                    Object::Null => (false, Vec::new()),
                    Object::Array(arr) => {
                        proof {
                            crate::base::object::lemma_array_sv(arr);
                        }
                        if arr.len() != items.len() {
                            return (Err(Error::Parse("malformed /DecodeParms")), false);
                        }
                        (true, arr)
                    },
                    _ => return (Err(Error::Parse("malformed /DecodeParms")), false),
                };
                let ghost sps: Option<Seq<SObject>> = if has_ps {
                    Some(crate::base::objs_sv(arr@))
                } else {
                    None
                };
                let mut out: Vec<Filter> = Vec::new();
                let mut i: usize = 0;
                while i < items.len()
                    invariant
                        0 <= i <= items.len(),
                        rs == (resolver_of(old(self).sdata(), old(self).sstart(), locate_fn(locator), fuel as nat)),
                        self.same_file(old(self)),
                        has_ps ==> arr.len() == items.len(),
                        spec_parse_filters(dict.sv(), rs) == spec_filter_items(
                            crate::base::objs_sv(items@),
                            sps,
                            0,
                            rs,
                        ),
                        spec_filters_unknown(dict.sv(), rs) == spec_items_unknown(
                            crate::base::objs_sv(items@),
                            sps,
                            i as int,
                            rs,
                        ),
                        sps == (if has_ps {
                            Some(crate::base::objs_sv(arr@))
                        } else {
                            None
                        }),
                        spec_filter_items(crate::base::objs_sv(items@), sps, 0, rs) == match spec_filter_items(
                            crate::base::objs_sv(items@),
                            sps,
                            i as int,
                            rs,
                        ) {
                            Ok(rest) => Ok(filters_sv(out@) + rest),
                            Err(e) => Err(e),
                        },
                    decreases items.len() - i,
                {
                    let ghost old_out = out@;
                    let item = items[i].duplicate();
                    let ghost s0 = *self;
                    let it = self.resolve_obj_fuel(item, locator, fuel);
                    assert(resolver_of(s0.sdata(), s0.sstart(), locate_fn(locator), fuel as nat) == rs);
                    assert(item.sv() == crate::base::objs_sv(items@)[i as int]);
                    let it = match it {
                        Ok(x) => x,
                        Err(e) => return (Err(e), false),
                    };
                    let p: Option<Dict> = if !has_ps {
                        None
                    } else {
                        match &arr[i] {
                            Object::Dict(pd) => {
                                proof {
                                    crate::base::object::lemma_dict_sv(*pd);
                                }
                                Some(pd.duplicate())
                            },
                            Object::Null => None,
                            _ => return (Err(Error::Parse("malformed /DecodeParms")), false),
                        }
                    };
                    let name = match it {
                        Object::Name(n) => n,
                        _ => return (Err(Error::Parse("malformed /Filter")), false),
                    };
                    let f = match Filter::try_from(&name, p) {
                        Ok(f) => f,
                        Err(e) => return (Err(e), true),
                    };
                    out.push(f);
                    proof {
                        assert(filters_sv(out@) =~= filters_sv(old_out).push(f.sv()));
                        match spec_filter_items(crate::base::objs_sv(items@), sps, i + 1, rs) {
                            Ok(rest) => {
                                assert(filters_sv(old_out) + (seq![f.sv()] + rest) =~= filters_sv(
                                    out@,
                                ) + rest);
                            },
                            Err(_) => {},
                        }
                    }
                    i += 1;
                }
                assert(filters_sv(out@) + Seq::<SFilter>::empty() =~= filters_sv(out@));
                (Ok(out), false)
            },
            Object::Null => {
                let v: Vec<Filter> = Vec::new();
                assert(filters_sv(v@) =~= Seq::<SFilter>::empty());
                (Ok(v), false)
            },
            _ => (Err(Error::Parse("malformed /Filter")), false),
        }
    }

    /// The raw data of a stream at `offset`: `len` bytes when the length is known, else up to
    /// `endstream`.
    fn stream_input(&self, offset: Offset, len: Option<u64>) -> (r: Vec<u8>)
        ensures
            r@ == match len {
                Some(l) => spec_take(self.sdata(), offset as int, l as int),
                None => until_endstream(rest_of(self.sdata(), offset as int)),
            },
    {
        let raw = self.parser.read_raw(offset);
        match len {
            Some(l) => if l < raw.len() as u64 {
                assert(raw@.subrange(0, l as int) =~= raw@.take(l as int));
                crate::bp::subslice_to_vec(raw, 0, l as usize)
            } else {
                assert(raw@.subrange(0, raw@.len() as int) =~= raw@);
                crate::bp::subslice_to_vec(raw, 0, raw.len())
            },
            None => {
                let bp = ByteProvider::from_bytes(raw);
                assert(bp.srest() =~= raw@);
                let mut esr = EndstreamReader::new(bp);
                esr.read_to_end()
            },
        }
    }

    /// Reads and decodes stream data (see [`spec_stream_data`]).
    #[verifier::rlimit(50)]
    fn stream_data_fuel<L: Locator>(&mut self, dict: &Dict, data: &Data, locator: &L, fuel: u64) -> (r:
        Result<Vec<u8>, Error>)
        ensures
            final(self).same_file(old(self)),
            bytes_result(r) == spec_stream_data(
                old(self).sdata(),
                old(self).sstart(),
                locate_fn(locator),
                dict.sv(),
                data.sv(),
                fuel as nat,
            ),
        decreases fuel, 6nat,
    {
        let lk = crate::names::length_key();
        let len_obj = match dict.lookup(&lk) {
            Object::Ref(r) => self.resolve_ref_fuel(&r, locator, fuel),
            o => Ok(o),
        };
        let ghost s1 = *self;
        let len_obj = len_obj?;
        let (filters, unknown) = self.parse_filters_fuel(dict, locator, fuel);
        if filters.is_err() && !unknown {
            return match filters {
                Err(e) => Err(e),
                Ok(_) => Err(Error::Parse("malformed /Filter")),
            };
        }
        let offset = match data {
            Data::Ref(o) => *o,
            Data::Val(_) => return Err(Error::Parse("stream data not in the file")),
        };
        let input = self.stream_input(offset, len_obj.num_value());
        let filters = match filters {
            Err(_) => return Ok(input),
            Ok(f) => f,
        };
        if !crate::codecs::check_filters(filters.as_slice()) {
            return Err(Error::Parse("unimplemented predictor"));
        }
        crate::codecs::decode(input.as_slice(), filters.as_slice())
    }
}

/// Resolving each object of a list (the first error wins).
pub open spec fn spec_resolve_all(items: Seq<SObject>, rs: spec_fn(ObjRef) -> Result<SObject, Error>) -> Result<
    Seq<SObject>,
    Error,
>
    decreases items.len(),
{
    if items.len() == 0 {
        Ok(Seq::empty())
    } else {
        match resolve_sobj(items[0], rs) {
            Err(e) => Err(e),
            Ok(x) => match spec_resolve_all(items.drop_first(), rs) {
                Err(e) => Err(e),
                Ok(rest) => Ok(seq![x] + rest),
            },
        }
    }
}

/// Resolving each value of a list of dictionary entries (the first error wins).
pub open spec fn spec_resolve_entries(
    entries: Seq<(Seq<u8>, SObject)>,
    rs: spec_fn(ObjRef) -> Result<SObject, Error>,
) -> Result<Seq<(Seq<u8>, SObject)>, Error>
    decreases entries.len(),
{
    if entries.len() == 0 {
        Ok(Seq::empty())
    } else {
        match resolve_sobj(entries[0].1, rs) {
            Err(e) => Err(e),
            Ok(x) => match spec_resolve_entries(entries.drop_first(), rs) {
                Err(e) => Err(e),
                Ok(rest) => Ok(seq![(entries[0].0, x)] + rest),
            },
        }
    }
}

/// Resolving an object like [`resolve_sobj`], and also the items of an array or the values
/// of a dictionary that it gives.
pub open spec fn spec_resolve_deep(o: SObject, rs: spec_fn(ObjRef) -> Result<SObject, Error>) -> Result<
    SObject,
    Error,
> {
    match resolve_sobj(o, rs) {
        Err(e) => Err(e),
        Ok(SObject::Array(items)) => match spec_resolve_all(items, rs) {
            Ok(v) => Ok(SObject::Array(v)),
            Err(e) => Err(e),
        },
        Ok(SObject::Dict(entries)) => match spec_resolve_entries(entries, rs) {
            Ok(v) => Ok(SObject::Dict(v)),
            Err(e) => Err(e),
        },
        Ok(x) => Ok(x),
    }
}

impl BaseReader {
    /// Resolves a reference into an owned object through `locator` (see
    /// [`spec_resolve_ref`]); a reference that is not located, or located as free, gives the
    /// null object.
    pub fn resolve_ref<L: Locator>(&mut self, objref: &ObjRef, locator: &L) -> (r: Result<Object, Error>)
        ensures
            final(self).same_file(old(self)),
            obj_result(r) == spec_resolve_ref(
                old(self).sdata(),
                old(self).sstart(),
                locate_fn(locator),
                *objref,
                MAX_DEPTH as nat,
            ),
    {
        self.resolve_ref_fuel(objref, locator, MAX_DEPTH)
    }

    /// For a reference, calls [`BaseReader::resolve_ref`]; other objects are returned unchanged.
    pub fn resolve_obj<L: Locator>(&mut self, obj: Object, locator: &L) -> (r: Result<Object, Error>)
        ensures
            final(self).same_file(old(self)),
            obj_result(r) == resolve_sobj(
                obj.sv(),
                resolver_of(old(self).sdata(), old(self).sstart(), locate_fn(locator), MAX_DEPTH as nat),
            ),
    {
        self.resolve_obj_fuel(obj, locator, MAX_DEPTH)
    }

    /// Reads object `index` of the object stream numbered `num_within`, which must be
    /// `oref_expd` (see [`spec_read_compressed`]).
    pub fn read_compressed<L: Locator>(
        &mut self,
        num_within: ObjNum,
        index: ObjIndex,
        locator: &L,
        oref_expd: &ObjRef,
    ) -> (r: Result<Object, Error>)
        ensures
            final(self).same_file(old(self)),
            obj_result(r) == spec_read_compressed(
                old(self).sdata(),
                old(self).sstart(),
                locate_fn(locator),
                num_within,
                index,
                *oref_expd,
                MAX_DEPTH as nat,
            ),
    {
        self.read_compressed_fuel(num_within, index, locator, oref_expd, MAX_DEPTH)
    }

    /// Resolves each item of a list (see [`spec_resolve_all`]).
    #[verifier::rlimit(40)]
    fn resolve_items<L: Locator>(&mut self, items: Vec<Object>, locator: &L) -> (r: Result<Vec<Object>, Error>)
        ensures
            final(self).same_file(old(self)),
            match (r, spec_resolve_all(
                objs_sv(items@),
                resolver_of(old(self).sdata(), old(self).sstart(), locate_fn(locator), MAX_DEPTH as nat),
            )) {
                (Ok(v), Ok(w)) => objs_sv(v@) == w,
                (Err(e1), Err(e2)) => e1 == e2,
                _ => false,
            },
    {
        let ghost rs = resolver_of(self.sdata(), self.sstart(), locate_fn(locator), MAX_DEPTH as nat);
        assert(objs_sv(items@).skip(0) =~= objs_sv(items@));
        let mut out: Vec<Object> = Vec::new();
        let mut i: usize = 0;
        while i < items.len()
            invariant
                0 <= i <= items.len(),
                self.same_file(old(self)),
                rs == resolver_of(old(self).sdata(), old(self).sstart(), locate_fn(locator), MAX_DEPTH as nat),
                spec_resolve_all(objs_sv(items@), rs) == match spec_resolve_all(
                    objs_sv(items@).skip(i as int),
                    rs,
                ) {
                    Ok(rest) => Ok(objs_sv(out@) + rest),
                    Err(e) => Err(e),
                },
            decreases items.len() - i,
        {
            let ghost old_out = out@;
            let ghost s0 = *self;
            let x = self.resolve_obj(items[i].duplicate(), locator);
            assert(resolver_of(s0.sdata(), s0.sstart(), locate_fn(locator), MAX_DEPTH as nat) == rs);
            assert(objs_sv(items@).skip(i as int)[0] == objs_sv(items@)[i as int]);
            assert(objs_sv(items@).skip(i as int).drop_first() =~= objs_sv(items@).skip(i + 1));
            let x = x?;
            out.push(x);
            proof {
                assert(objs_sv(out@) =~= objs_sv(old_out).push(x.sv()));
                match spec_resolve_all(objs_sv(items@).skip(i + 1), rs) {
                    Ok(rest) => {
                        assert(objs_sv(old_out) + (seq![x.sv()] + rest) =~= objs_sv(out@) + rest);
                    },
                    Err(_) => {},
                }
            }
            i += 1;
        }
        proof {
            assert(objs_sv(items@).skip(i as int) =~= Seq::<SObject>::empty());
            assert(objs_sv(out@) + Seq::<SObject>::empty() =~= objs_sv(out@));
        }
        Ok(out)
    }

    /// Resolves each value of a dictionary (see [`spec_resolve_entries`]).
    #[verifier::rlimit(40)]
    fn resolve_entries<L: Locator>(&mut self, dict: Dict, locator: &L) -> (r: Result<Dict, Error>)
        ensures
            final(self).same_file(old(self)),
            match (r, spec_resolve_entries(
                dict.sv(),
                resolver_of(old(self).sdata(), old(self).sstart(), locate_fn(locator), MAX_DEPTH as nat),
            )) {
                (Ok(v), Ok(w)) => v.sv() == w,
                (Err(e1), Err(e2)) => e1 == e2,
                _ => false,
            },
    {
        let ghost rs = resolver_of(self.sdata(), self.sstart(), locate_fn(locator), MAX_DEPTH as nat);
        assert(dict.sv().skip(0) =~= dict.sv());
        let mut out: Vec<(Name, Object)> = Vec::new();
        let mut i: usize = 0;
        while i < dict.0.len()
            invariant
                0 <= i <= dict.0.len(),
                self.same_file(old(self)),
                rs == resolver_of(old(self).sdata(), old(self).sstart(), locate_fn(locator), MAX_DEPTH as nat),
                spec_resolve_entries(dict.sv(), rs) == match spec_resolve_entries(
                    dict.sv().skip(i as int),
                    rs,
                ) {
                    Ok(rest) => Ok(crate::base::entries_sv(out@) + rest),
                    Err(e) => Err(e),
                },
            decreases dict.0.len() - i,
        {
            let ghost old_out = out@;
            let ghost s0 = *self;
            let k = dict.0[i].0.duplicate();
            let x = self.resolve_obj(dict.0[i].1.duplicate(), locator);
            assert(resolver_of(s0.sdata(), s0.sstart(), locate_fn(locator), MAX_DEPTH as nat) == rs);
            assert(dict.sv().skip(i as int)[0] == dict.sv()[i as int]);
            assert(dict.sv().skip(i as int).drop_first() =~= dict.sv().skip(i + 1));
            let x = x?;
            out.push((k, x));
            proof {
                assert(crate::base::entries_sv(out@) =~= crate::base::entries_sv(old_out).push(
                    (k.0@, x.sv()),
                ));
                match spec_resolve_entries(dict.sv().skip(i + 1), rs) {
                    Ok(rest) => {
                        assert(crate::base::entries_sv(old_out) + (seq![(k.0@, x.sv())] + rest)
                            =~= crate::base::entries_sv(out@) + rest);
                    },
                    Err(_) => {},
                }
            }
            i += 1;
        }
        let d2 = Dict(out);
        proof {
            assert(dict.sv().skip(i as int) =~= Seq::<(Seq<u8>, SObject)>::empty());
            assert(crate::base::entries_sv(d2.0@) + Seq::<(Seq<u8>, SObject)>::empty()
                =~= d2.sv());
        }
        Ok(d2)
    }

    /// Resolves references like [`BaseReader::resolve_obj`], and also the items of an array
    /// or the values of a dictionary (see [`spec_resolve_deep`]).
    pub fn resolve_deep<L: Locator>(&mut self, obj: Object, locator: &L) -> (r: Result<Object, Error>)
        ensures
            final(self).same_file(old(self)),
            obj_result(r) == spec_resolve_deep(
                obj.sv(),
                resolver_of(old(self).sdata(), old(self).sstart(), locate_fn(locator), MAX_DEPTH as nat),
            ),
    {
        let ghost rs = resolver_of(self.sdata(), self.sstart(), locate_fn(locator), MAX_DEPTH as nat);
        let o = self.resolve_obj(obj, locator)?;
        let ghost s1 = *self;
        match o {
            Object::Array(items) => {
                proof {
                    lemma_array_sv(items);
                }
                let ghost s0 = *self;
                let v = self.resolve_items(items, locator);
                assert(resolver_of(s0.sdata(), s0.sstart(), locate_fn(locator), MAX_DEPTH as nat) == rs);
                let v = v?;
                proof {
                    lemma_array_sv(v);
                }
                Ok(Object::Array(v))
            },
            Object::Dict(dict) => {
                proof {
                    lemma_dict_sv(dict);
                }
                let ghost s0 = *self;
                let d2 = self.resolve_entries(dict, locator);
                assert(resolver_of(s0.sdata(), s0.sstart(), locate_fn(locator), MAX_DEPTH as nat) == rs);
                let d2 = d2?;
                proof {
                    lemma_dict_sv(d2);
                }
                Ok(Object::Dict(d2))
            },
            _ => Ok(o),
        }
    }

    /// The filters of a `/Filter` value, resolved where it or its items are references, without
    /// parameters: as [`crate::codecs::parse_filters`] gives for a dictionary holding only this
    /// `/Filter`.
    pub fn resolve_filters<L: Locator>(&mut self, obj: &Object, locator: &L) -> (r: Result<
        Vec<Filter>,
        Error,
    >)
        ensures
            final(self).same_file(old(self)),
            filters_result(r) == spec_parse_filters(
                seq![(filter_bytes(), obj.sv())],
                resolver_of(old(self).sdata(), old(self).sstart(), locate_fn(locator), MAX_DEPTH as nat),
            ),
    {
        let fk = filter_key();
        let mut v: Vec<(Name, Object)> = Vec::new();
        v.push((Name::from(&fk), obj.duplicate()));
        let d = Dict(v);
        assert(d.sv() =~= seq![(filter_bytes(), obj.sv())]);
        self.parse_filters_fuel(&d, locator, MAX_DEPTH).0
    }

    /// The decoded data of a stream of the file (see [`spec_stream_data`]): its `/Length`
    /// bytes, or up to `endstream` when the length cannot be determined, decoded with its
    /// filters, or as it is in the file when one of them is not implemented.
    pub fn read_stream_data<L: Locator>(&mut self, obj: &Stream, locator: &L) -> (r: Result<Vec<u8>, Error>)
        requires
            obj.data is Ref,
        ensures
            final(self).same_file(old(self)),
            bytes_result(r) == spec_stream_data(
                old(self).sdata(),
                old(self).sstart(),
                locate_fn(locator),
                obj.dict.sv(),
                obj.data.sv(),
                MAX_DEPTH as nat,
            ),
    {
        self.stream_data_fuel(&obj.dict, &obj.data, locator, MAX_DEPTH)
    }
}

/// One step through the chain of cross-reference sections: the first pending offset (and
/// whether it came from `/XRefStm`) is read; a table's `/XRefStm` and a section's `/Prev` are
/// queued, except after a section reached through `/XRefStm`. A section that cannot be read
/// ends the chain. Gives the section read and the pending offsets after it.
pub open spec fn spec_xref_step(d: Seq<u8>, start: u64, pending: Seq<(u64, bool)>) -> (
    Option<(u64, SXRef)>,
    Seq<(u64, bool)>,
) {
    if pending.len() == 0 {
        (None, pending)
    } else {
        let (off, aside) = pending[0];
        let rest = pending.drop_first();
        match spec_read_xref_at(d, off + start) {
            Err(_) => (None, rest),
            Ok(x) => {
                (Some((off, x)), spec_queue_next(rest, x, aside))
            },
        }
    }
}

/// The pending offsets after reading the section `x`: its `/XRefStm` (for a table) and its
/// `/Prev` are queued, unless `x` was reached through `/XRefStm`.
pub open spec fn spec_queue_next(rest: Seq<(u64, bool)>, x: SXRef, aside: bool) -> Seq<(u64, bool)> {
    let q1 = match spec_num_value(spec_lookup(x.dict, crate::names::xref_stm_bytes())) {
        Some(o) => if x.tpe is Table && !aside {
            rest.push((o, true))
        } else {
            rest
        },
        None => rest,
    };
    match spec_num_value(spec_lookup(x.dict, crate::names::prev_bytes())) {
        Some(o) => if !aside {
            q1.push((o, false))
        } else {
            q1
        },
        None => q1,
    }
}

/// Iterates through the chain of cross-reference sections starting at an entry point.
pub struct XRefIterator {
    queue: Vec<(Offset, bool)>,
}

impl XRefIterator {
    /// The offsets still to visit.
    pub closed spec fn pending(&self) -> Seq<(u64, bool)> {
        self.queue@
    }

    /// An iterator starting at `entry`.
    pub fn new(entry: Offset) -> (r: XRefIterator)
        ensures
            r.pending() == seq![(entry, false)],
    {
        let mut queue: Vec<(Offset, bool)> = Vec::new();
        queue.push((entry, false));
        let r = XRefIterator { queue };
        assert(r.pending() =~= seq![(entry, false)]);
        r
    }

    /// Queues what follows the section `xref` (see [`spec_queue_next`]).
    fn queue_next(&mut self, xref: &XRef, is_aside: bool)
        ensures
            final(self).pending() == spec_queue_next(old(self).pending(), xref.sv(), is_aside),
    {
        let ghost rest = self.pending();
        let xk = crate::names::xref_stm_key();
        if xref.tpe == XRefType::Table {
            match xref.dict.lookup(&xk).num_value() {
                Some(o) => if !is_aside {
                    self.queue.push((o, true));
                    assert(self.pending() =~= rest.push((o, true)));
                },
                None => {},
            }
        }
        let ghost q1 = self.pending();
        let pk = crate::names::prev_key();
        match xref.dict.lookup(&pk).num_value() {
            Some(o) => if !is_aside {
                self.queue.push((o, false));
                assert(self.pending() =~= q1.push((o, false)));
            },
            None => {},
        }
    }

    /// The next section of the chain with its offset (see [`spec_xref_step`]).
    pub fn next(&mut self, parser: &mut FileParser) -> (r: Option<(Offset, XRef)>)
        ensures
            final(parser).sdata() == old(parser).sdata(),
            final(parser).sheader() == old(parser).sheader(),
            ({
                let (sr, q) = spec_xref_step(old(parser).sdata(), old(parser).sstart(), old(self).pending());
                &&& final(self).pending() == q
                &&& match (r, sr) {
                    (Some((o, x)), Some((so, sx))) => o == so && x.sv() == sx,
                    (None, None) => true,
                    _ => false,
                }
            }),
    {
        if self.queue.len() == 0 {
            return None;
        }
        let ghost rest = self.pending().drop_first();
        let (offset, is_aside) = self.queue.remove(0);
        assert(self.pending() =~= rest);
        let xref = match parser.read_xref_at(offset) {
            Ok(x) => x,
            Err(_) => return None,
        };
        self.queue_next(&xref, is_aside);
        Some((offset, xref))
    }
}

impl BaseReader {
    /// An iterator through the chain of cross-reference sections from `entry` on.
    pub fn read_xref_chain(entry: Offset) -> (r: XRefIterator)
        ensures
            r.pending() == seq![(entry, false)],
    {
        XRefIterator::new(entry)
    }
}

} // verus!
