pub mod ascii85;
pub mod asciihex;
pub mod flate;

use vstd::prelude::*;

use crate::base::{Dict, Error, Name, ObjRef, Object, Resolver, SObject, spec_lookup};
use crate::bp::bytes_result;
use crate::names::{
    ascii85_decode_bytes, ascii85_decode_key, asciihex_decode_bytes, asciihex_decode_key,
    decode_parms_bytes, decode_parms_key, filter_bytes, filter_key, flate_decode_bytes,
    flate_decode_key,
};
use crate::op::obj_result;
use self::flate::predictor_supported;

verus! {

/// Supported PDF filters.
#[derive(Debug, PartialEq)]
pub enum Filter {
    /// `/FlateDecode`, with its `/DecodeParms`.
    Flate(Dict),
    /// `/ASCIIHexDecode`
    AsciiHex,
    /// `/ASCII85Decode`
    Ascii85,
}

/// The value of a filter.
pub enum SFilter {
    Flate(Seq<(Seq<u8>, SObject)>),
    AsciiHex,
    Ascii85,
}

impl Filter {
    /// The value of the filter.
    pub open spec fn sv(&self) -> SFilter {
        match self {
            Filter::Flate(d) => SFilter::Flate(d.sv()),
            Filter::AsciiHex => SFilter::AsciiHex,
            Filter::Ascii85 => SFilter::Ascii85,
        }
    }
}

/// The values of a list of filters.
pub open spec fn filters_sv(v: Seq<Filter>) -> Seq<SFilter> {
    Seq::new(v.len(), |i: int| v[i].sv())
}

/// A list of filters viewed as a result of values.
pub open spec fn filters_result(r: Result<Vec<Filter>, Error>) -> Result<Seq<SFilter>, Error> {
    match r {
        Ok(v) => Ok(filters_sv(v@)),
        Err(e) => Err(e),
    }
}

/// The error of a `/Filter` entry of the wrong kind.
pub open spec fn malformed_filter() -> Error {
    Error::Parse("malformed /Filter")
}

/// The error of a `/DecodeParms` entry of the wrong kind.
pub open spec fn malformed_params() -> Error {
    Error::Parse("malformed /DecodeParms")
}

/// The filter of a given name with its parameters; `/DecodeParms` are kept for
/// `/FlateDecode` only (an empty dictionary when there are none).
pub open spec fn spec_filter_from(name: Seq<u8>, params: Option<Seq<(Seq<u8>, SObject)>>) -> Result<
    SFilter,
    Error,
> {
    if name == flate_decode_bytes() {
        Ok(
            SFilter::Flate(
                match params {
                    Some(p) => p,
                    None => Seq::empty(),
                },
            ),
        )
    } else if name == asciihex_decode_bytes() {
        Ok(SFilter::AsciiHex)
    } else if name == ascii85_decode_bytes() {
        Ok(SFilter::Ascii85)
    } else {
        Err(Error::Parse("unimplemented filter"))
    }
}

impl Filter {
    /// The filter named `name`, with the given `/DecodeParms` (see [`spec_filter_from`]).
    pub fn try_from(name: &Name, params: Option<Dict>) -> (r: Result<Filter, Error>)
        ensures
            match (r, spec_filter_from(
                name.0@,
                match params {
                    Some(p) => Some(p.sv()),
                    None => None,
                },
            )) {
                (Ok(f), Ok(g)) => f.sv() == g,
                (Err(e1), Err(e2)) => e1 == e2,
                _ => false,
            },
    {
        let fk = flate_decode_key();
        let hk = asciihex_decode_key();
        let ak = ascii85_decode_key();
        if crate::base::bytes_eq(name.as_slice(), &fk) {
            match params {
                Some(p) => Ok(Filter::Flate(p)),
                None => Ok(Filter::Flate(Dict::new())),
            }
        } else if crate::base::bytes_eq(name.as_slice(), &hk) {
            Ok(Filter::AsciiHex)
        } else if crate::base::bytes_eq(name.as_slice(), &ak) {
            Ok(Filter::Ascii85)
        } else {
            Err(Error::Parse("unimplemented filter"))
        }
    }
}

/// Decoding data with a single filter.
pub open spec fn spec_decode_one(input: Seq<u8>, f: SFilter) -> Result<Seq<u8>, Error> {
    match f {
        SFilter::Flate(p) => flate::spec_flate_decode(input, p),
        SFilter::AsciiHex => asciihex::spec_asciihex_decode(input),
        SFilter::Ascii85 => ascii85::spec_ascii85_decode(input),
    }
}

/// Decoding data with a chain of filters, the first filter first.
pub open spec fn spec_decode(input: Seq<u8>, fs: Seq<SFilter>) -> Result<Seq<u8>, Error>
    decreases fs.len(),
{
    if fs.len() == 0 {
        Ok(input)
    } else {
        match spec_decode_one(input, fs[0]) {
            Ok(x) => spec_decode(x, fs.drop_first()),
            Err(e) => Err(e),
        }
    }
}

/// Whether every filter of a chain is implemented with its parameters.
pub open spec fn filters_supported(fs: Seq<SFilter>) -> bool {
    forall|i: int|
        0 <= i < fs.len() ==> match #[trigger] fs[i] {
            SFilter::Flate(p) => predictor_supported(p),
            _ => true,
        }
}

/// Checks that the predictor asked of a `/FlateDecode` filter is implemented.
pub fn check_filters(filters: &[Filter]) -> (r: bool)
    ensures
        r == filters_supported(filters_sv(filters@)),
{
    let mut i: usize = 0;
    while i < filters.len()
        invariant
            0 <= i <= filters.len(),
            forall|k: int|
                0 <= k < i ==> match #[trigger] filters_sv(filters@)[k] {
                    SFilter::Flate(p) => predictor_supported(p),
                    _ => true,
                },
        decreases filters.len() - i,
    {
        match &filters[i] {
            Filter::Flate(p) => {
                let pk = crate::names::predictor_key();
                match p.lookup(&pk).num_value() {
                    None => {},
                    Some(v) => {
                        if v < 10 || v > 15 {
                            assert(!match filters_sv(filters@)[i as int] {
                                SFilter::Flate(p) => predictor_supported(p),
                                _ => true,
                            });
                            return false;
                        }
                    },
                }
            },
            _ => {},
        }
        i += 1;
    }
    true
}

/// Decodes data with a single filter.
fn decode_one(input: &[u8], f: &Filter) -> (r: Result<Vec<u8>, Error>)
    requires
        f matches Filter::Flate(p) ==> predictor_supported(p.sv()),
    ensures
        bytes_result(r) == spec_decode_one(input@, f.sv()),
{
    match f {
        Filter::Flate(p) => flate::decode(input, p),
        Filter::AsciiHex => asciihex::decode(input),
        Filter::Ascii85 => ascii85::decode(input),
    }
}

/// Decodes data according to a filter chain (see [`spec_decode`]).
pub fn decode(input: &[u8], filters: &[Filter]) -> (r: Result<Vec<u8>, Error>)
    requires
        filters_supported(filters_sv(filters@)),
    ensures
        bytes_result(r) == spec_decode(input@, filters_sv(filters@)),
{
    let mut data = crate::bp::subslice_to_vec(input, 0, input.len());
    let mut i: usize = 0;
    assert(filters_sv(filters@).skip(0) =~= filters_sv(filters@));
    assert(data@ =~= input@);
    while i < filters.len()
        invariant
            0 <= i <= filters.len(),
            filters_supported(filters_sv(filters@)),
            spec_decode(input@, filters_sv(filters@)) == spec_decode(
                data@,
                filters_sv(filters@).skip(i as int),
            ),
        decreases filters.len() - i,
    {
        let ghost fs = filters_sv(filters@).skip(i as int);
        assert(fs[0] == filters_sv(filters@)[i as int]);
        assert(fs.drop_first() =~= filters_sv(filters@).skip(i + 1));
        data = decode_one(data.as_slice(), &filters[i])?;
        i += 1;
    }
    assert(filters_sv(filters@).skip(i as int) =~= Seq::<SFilter>::empty());
    Ok(data)
}

/// An object with a reference replaced by what resolving it gives.
pub open spec fn resolve_sobj(o: SObject, rs: spec_fn(ObjRef) -> Result<SObject, Error>) -> Result<
    SObject,
    Error,
> {
    match o {
        SObject::Ref(r) => rs(r),
        _ => Ok(o),
    }
}

/// The filters of an array of filter names from item `i` on, with the array of their
/// parameters, if there is one.
pub open spec fn spec_filter_items(
    items: Seq<SObject>,
    params: Option<Seq<SObject>>,
    i: int,
    rs: spec_fn(ObjRef) -> Result<SObject, Error>,
) -> Result<Seq<SFilter>, Error>
    decreases items.len() - i,
{
    if i < 0 || i >= items.len() {
        Ok(Seq::empty())
    } else {
        match resolve_sobj(items[i], rs) {
            Err(e) => Err(e),
            Ok(it) => {
                let pr = match params {
                    None => Ok(None),
                    Some(ps) => match ps[i] {
                        SObject::Dict(d) => Ok(Some(d)),
                        SObject::Null => Ok(None),
                        _ => Err(malformed_params()),
                    },
                };
                match pr {
                    Err(e) => Err(e),
                    Ok(p) => match it {
                        SObject::Name(n) => match spec_filter_from(n, p) {
                            Err(e) => Err(e),
                            Ok(f) => match spec_filter_items(items, params, i + 1, rs) {
                                Ok(rest) => Ok(seq![f] + rest),
                                Err(e) => Err(e),
                            },
                        },
                        _ => Err(malformed_filter()),
                    },
                }
            },
        }
    }
}

/// The filters of a stream dictionary: its `/Filter` (a name or an array of names, resolved
/// where it or an item is a reference) and its `/DecodeParms` (a dictionary, or an array of
/// them of the same length, taken as they are).
pub open spec fn spec_parse_filters(
    d: Seq<(Seq<u8>, SObject)>,
    rs: spec_fn(ObjRef) -> Result<SObject, Error>,
) -> Result<Seq<SFilter>, Error> {
    let params = spec_lookup(d, decode_parms_bytes());
    match resolve_sobj(spec_lookup(d, filter_bytes()), rs) {
        Err(e) => Err(e),
        Ok(SObject::Name(n)) => {
            let p = match params {
                SObject::Dict(pd) => Ok(Some(pd)),
                SObject::Null => Ok(None),
                _ => Err(malformed_params()),
            };
            match p {
                Err(e) => Err(e),
                Ok(p) => match spec_filter_from(n, p) {
                    Ok(f) => Ok(seq![f]),
                    Err(e) => Err(e),
                },
            }
        },
        Ok(SObject::Array(items)) => match params {
            SObject::Null => spec_filter_items(items, None, 0, rs),
            SObject::Array(arr) => if arr.len() != items.len() {
                Err(malformed_params())
            } else {
                spec_filter_items(items, Some(arr), 0, rs)
            },
            _ => Err(malformed_params()),
        },
        Ok(SObject::Null) => Ok(Seq::empty()),
        Ok(_) => Err(malformed_filter()),
    }
}

/// Whether the filters of an array of filter names, from item `i` on, fail at a name that is
/// no implemented filter, rather than at anything else (see [`spec_filter_items`]).
pub open spec fn spec_items_unknown(
    items: Seq<SObject>,
    params: Option<Seq<SObject>>,
    i: int,
    rs: spec_fn(ObjRef) -> Result<SObject, Error>,
) -> bool
    decreases items.len() - i,
{
    if i < 0 || i >= items.len() {
        false
    } else {
        match resolve_sobj(items[i], rs) {
            Err(_) => false,
            Ok(it) => {
                let pr = match params {
                    None => Ok(None),
                    Some(ps) => match ps[i] {
                        SObject::Dict(d) => Ok(Some(d)),
                        SObject::Null => Ok(None),
                        _ => Err(malformed_params()),
                    },
                };
                match pr {
                    Err(_) => false,
                    Ok(p) => match it {
                        SObject::Name(n) => match spec_filter_from(n, p) {
                            Err(_) => true,
                            Ok(_) => spec_items_unknown(items, params, i + 1, rs),
                        },
                        _ => false,
                    },
                }
            },
        }
    }
}

/// Whether the filters of a stream dictionary fail at a name that is no implemented filter,
/// rather than at anything else (see [`spec_parse_filters`]).
pub open spec fn spec_filters_unknown(
    d: Seq<(Seq<u8>, SObject)>,
    rs: spec_fn(ObjRef) -> Result<SObject, Error>,
) -> bool {
    let params = spec_lookup(d, decode_parms_bytes());
    match resolve_sobj(spec_lookup(d, filter_bytes()), rs) {
        Err(_) => false,
        Ok(SObject::Name(n)) => match params {
            SObject::Dict(pd) => spec_filter_from(n, Some(pd)) is Err,
            SObject::Null => spec_filter_from(n, None) is Err,
            _ => false,
        },
        Ok(SObject::Array(items)) => match params {
            SObject::Null => spec_items_unknown(items, None, 0, rs),
            SObject::Array(arr) => if arr.len() != items.len() {
                false
            } else {
                spec_items_unknown(items, Some(arr), 0, rs)
            },
            _ => false,
        },
        Ok(_) => false,
    }
}

/// The filter names of a `/Filter` value: a name, or an array of names; null gives none, and
/// anything else is malformed.
pub open spec fn spec_to_filters(o: SObject) -> Result<Seq<Seq<u8>>, Error> {
    match o {
        SObject::Name(n) => Ok(seq![n]),
        SObject::Array(items) => if forall|i: int| 0 <= i < items.len() ==> (#[trigger] items[i]) is Name {
            Ok(items.map_values(|x: SObject| x->Name_0))
        } else {
            Err(malformed_filter())
        },
        SObject::Null => Ok(Seq::empty()),
        _ => Err(malformed_filter()),
    }
}

/// A list of names viewed as values.
pub open spec fn names_result(r: Result<Vec<Name>, Error>) -> Result<Seq<Seq<u8>>, Error> {
    match r {
        Ok(v) => Ok(v@.map_values(|n: Name| n.0@)),
        Err(e) => Err(e),
    }
}

/// The filter names of a `/Filter` value (see [`spec_to_filters`]).
pub fn to_filters(obj: &Object) -> (r: Result<Vec<Name>, Error>)
    ensures
        names_result(r) == spec_to_filters(obj.sv()),
{
    match obj {
        Object::Name(n) => {
            let mut v: Vec<Name> = Vec::new();
            v.push(n.duplicate());
            assert(v@.map_values(|n: Name| n.0@) =~= seq![n.0@]);
            Ok(v)
        },
        Object::Array(items) => {
            proof {
                crate::base::object::lemma_array_sv(*items);
            }
            let ghost si = crate::base::objs_sv(items@);
            let mut v: Vec<Name> = Vec::new();
            let mut i: usize = 0;
            while i < items.len()
                invariant
                    0 <= i <= items.len(),
                    si == crate::base::objs_sv(items@),
                    obj.sv() == SObject::Array(si),
                    v@.len() == i,
                    forall|t: int| 0 <= t < i ==> (#[trigger] si[t]) is Name && si[t]->Name_0 == v@[t].0@,
                decreases items.len() - i,
            {
                match &items[i] {
                    Object::Name(n) => {
                        v.push(n.duplicate());
                    },
                    _ => {
                        assert(!(si[i as int] is Name));
                        assert(!(forall|t: int| 0 <= t < si.len() ==> (#[trigger] si[t]) is Name));
                        return Err(Error::Parse("malformed /Filter"));
                    },
                }
                i += 1;
            }
            assert(v@.map_values(|n: Name| n.0@) =~= si.map_values(|x: SObject| x->Name_0));
            Ok(v)
        },
        Object::Null => {
            let v: Vec<Name> = Vec::new();
            assert(v@.map_values(|n: Name| n.0@) =~= Seq::<Seq<u8>>::empty());
            Ok(v)
        },
        _ => Err(Error::Parse("malformed /Filter")),
    }
}

/// Resolves an object that may be a reference.
fn resolve_object<R: Resolver>(o: Object, res: &mut R) -> (r: Result<Object, Error>)
    ensures
        obj_result(r) == resolve_sobj(o.sv(), |x: ObjRef| old(res).spec_resolve(x)),
        forall|x: ObjRef| #[trigger] final(res).spec_resolve(x) == old(res).spec_resolve(x),
{
    match o {
        Object::Ref(x) => res.resolve_ref(&x),
        _ => Ok(o),
    }
}

/// Parses the `/Filter` and `/DecodeParms` entries of a stream dictionary into a filter chain
/// (see [`spec_parse_filters`]).
pub fn parse_filters<R: Resolver>(dict: &Dict, res: &mut R) -> (r: Result<Vec<Filter>, Error>)
    ensures
        filters_result(r) == spec_parse_filters(dict.sv(), |x: ObjRef| old(res).spec_resolve(x)),
        forall|x: ObjRef| #[trigger] final(res).spec_resolve(x) == old(res).spec_resolve(x),
{
    let ghost rs = |x: ObjRef| old(res).spec_resolve(x);
    let fk = filter_key();
    let pk = decode_parms_key();
    let params = dict.lookup(&pk);
    let filter = resolve_object(dict.lookup(&fk), res)?;
    assert(resolve_sobj(spec_lookup(dict.sv(), filter_bytes()), rs) == Ok::<SObject, Error>(
        filter.sv(),
    ));
    match filter {
        Object::Name(name) => {
            let p = match params {
                Object::Dict(pd) => {
                    proof {
                        crate::base::object::lemma_dict_sv(pd);
                    }
                    Some(pd)
                },
                Object::Null => None,
                _ => return Err(Error::Parse("malformed /DecodeParms")),
            };
            let f = Filter::try_from(&name, p)?;
            let mut v: Vec<Filter> = Vec::new();
            v.push(f);
            assert(filters_sv(v@) =~= seq![f.sv()]);
            Ok(v)
        },
        Object::Array(items) => {
            proof {
                crate::base::object::lemma_array_sv(items);
            }
            let (has_ps, arr): (bool, Vec<Object>) = match params {
                Object::Null => (false, Vec::new()),
                Object::Array(arr) => {
                    proof {
                        crate::base::object::lemma_array_sv(arr);
                    }
                    if arr.len() != items.len() {
                        return Err(Error::Parse("malformed /DecodeParms"));
                    }
                    (true, arr)
                },
                _ => return Err(Error::Parse("malformed /DecodeParms")),
            };
            let ghost sps: Option<Seq<SObject>> = if has_ps {
                Some(crate::base::objs_sv(arr@))
            } else {
                None
            };
            let mut out: Vec<Filter> = Vec::new();
            let mut i: usize = 0;
            while i < items.len()
                invariant
                    0 <= i <= items.len(),
                    rs == (|x: ObjRef| old(res).spec_resolve(x)),
                    forall|x: ObjRef| #[trigger] res.spec_resolve(x) == old(res).spec_resolve(x),
                    has_ps ==> arr.len() == items.len(),
                    spec_parse_filters(dict.sv(), rs) == spec_filter_items(
                        crate::base::objs_sv(items@),
                        sps,
                        0,
                        rs,
                    ),
                    sps == (if has_ps {
                        Some(crate::base::objs_sv(arr@))
                    } else {
                        None
                    }),
                    spec_filter_items(crate::base::objs_sv(items@), sps, 0, rs) == match spec_filter_items(
                        crate::base::objs_sv(items@),
                        sps,
                        i as int,
                        rs,
                    ) {
                        Ok(rest) => Ok(filters_sv(out@) + rest),
                        Err(e) => Err(e),
                    },
                decreases items.len() - i,
            {
                let ghost old_out = out@;
                let item = items[i].duplicate();
                let ghost res0 = *res;
                let it = resolve_object(item, res);
                assert((|x: ObjRef| res0.spec_resolve(x)) =~= rs);
                assert(item.sv() == crate::base::objs_sv(items@)[i as int]);
                let it = it?;
                let p: Option<Dict> = if !has_ps {
                    None
                } else {
                    match &arr[i] {
                        Object::Dict(pd) => {
                            proof {
                                crate::base::object::lemma_dict_sv(*pd);
                            }
                            Some(pd.duplicate())
                        },
                        Object::Null => None,
                        _ => return Err(Error::Parse("malformed /DecodeParms")),
                    }
                };
                let name = match it {
                    Object::Name(n) => n,
                    _ => return Err(Error::Parse("malformed /Filter")),
                };
                let f = Filter::try_from(&name, p)?;
                out.push(f);
                proof {
                    assert(filters_sv(out@) =~= filters_sv(old_out).push(f.sv()));
                    match spec_filter_items(crate::base::objs_sv(items@), sps, i + 1, rs) {
                        Ok(rest) => {
                            assert(filters_sv(old_out) + (seq![f.sv()] + rest) =~= filters_sv(
                                out@,
                            ) + rest);
                        },
                        Err(_) => {},
                    }
                }
                i += 1;
            }
            assert(filters_sv(out@) + Seq::<SFilter>::empty() =~= filters_sv(out@));
            Ok(out)
        },
        Object::Null => {
            let v: Vec<Filter> = Vec::new();
            assert(filters_sv(v@) =~= Seq::<SFilter>::empty());
            Ok(v)
        },
        _ => Err(Error::Parse("malformed /Filter")),
    }
}

} // verus!
