use std::collections::BTreeMap;
use vstd::prelude::*;
use vstd::set_lib::{lemma_int_range, lemma_len_subset, set_int_range};

use crate::base::{
    Error, Locator, ObjIndex, ObjNum, ObjRef, Object, Record, Resolver, SObject, SXRef, Stream,
    XRef,
};
use crate::bp::bytes_result;
use crate::fp::{spec_entrypoint, spec_find_header, spec_read_xref_at, FileParser};
use crate::op::obj_result;
use super::base::{
    locate_fn, objstm_get, objstm_result, resolver_of, spec_objstm_get, spec_objstm_of,
    spec_read_compressed, spec_read_uncompressed, spec_resolve_deep, spec_resolve_ref,
    spec_stream_data, spec_xref_step, BaseReader, ObjStm, XRefIterator, MAX_DEPTH,
};

verus! {

/// Whether the offsets visited so far are distinct and lie within the data.
pub open spec fn order_ok(order: Seq<u64>, n: nat) -> bool {
    order.no_duplicates() && forall|i: int| 0 <= i < order.len() ==> order[i] < n
}

/// Distinct offsets within data of length `n` are at most `n`.
pub proof fn lemma_order_len(order: Seq<u64>, n: nat)
    requires
        order_ok(order, n),
    ensures
        order.len() <= n,
{
    let f = |x: u64| x as int;
    assert(vstd::relations::injective(f));
    order.lemma_no_duplicates_injective(f);
    let oi = order.map_values(f);
    oi.unique_seq_to_set();
    lemma_int_range(0, n as int);
    assert(oi.to_set().subset_of(set_int_range(0, n as int)));
    lemma_len_subset(oi.to_set(), set_int_range(0, n as int));
}

/// A section read at `p` lies within the data.
pub proof fn lemma_xref_at_in_data(d: Seq<u8>, p: int)
    requires
        0 <= p,
        spec_read_xref_at(d, p) is Ok,
    ensures
        p < d.len(),
{
    reveal(spec_read_xref_at);
    crate::tk::lemma_ws_end_bounds(d, p, false);
}

/// A section merged with an older one: entries of the older one fill in those missing.
pub open spec fn merge_older(acc: SXRef, older: SXRef) -> SXRef {
    SXRef { map: older.map.union_prefer_right(acc.map), ..acc }
}

/// Following the chain of sections from the `pending` offsets, merging each section read into
/// `acc` as an older one, until the chain ends or an offset repeats.
pub open spec fn spec_chain(d: Seq<u8>, start: u64, pending: Seq<(u64, bool)>, order: Seq<u64>, acc: SXRef) -> SXRef
    decreases d.len() - order.len(),
    when order_ok(order, d.len())
{
    match spec_xref_step(d, start, pending) {
        (None, _) => acc,
        (Some((off, x)), q) => if order.contains(off) {
            acc
        } else {
            proof {
                lemma_xref_at_in_data(d, off + start);
                assert(order_ok(order.push(off), d.len()));
                lemma_order_len(order.push(off), d.len());
            }
            spec_chain(d, start, q, order.push(off), merge_older(acc, x))
        },
    }
}

/// Building the cross-reference table of a file from the entry point: the first section,
/// completed by the older sections of its chain.
pub open spec fn spec_build_xref(d: Seq<u8>, start: u64, entry: u64) -> Result<SXRef, Error> {
    match spec_xref_step(d, start, seq![(entry, false)]) {
        (None, _) => Err(Error::Parse("could not parse xref table")),
        (Some((_, x)), q) => Ok(spec_chain(d, start, q, seq![entry], x)),
    }
}

/// The offset that positions of the data are relative to.
pub open spec fn header_start(d: Seq<u8>) -> u64 {
    match spec_find_header(d) {
        Ok(h) => h.start,
        Err(_) => 0,
    }
}

/// The cross-reference table that a reader of the data builds.
pub open spec fn spec_simple_xref(d: Seq<u8>) -> Result<SXRef, Error> {
    match spec_entrypoint(d) {
        Err(e) => Err(e),
        Ok(entry) => spec_build_xref(d, header_start(d), entry),
    }
}

/// Finds and parses objects in a PDF file through its cross-reference table.
///
/// Suited for well-formed files with a complete and undamaged table: upon construction, the
/// complete table is built from its sections for a quick lookup. Object streams read are
/// cached.
pub struct SimpleReader {
    base: BaseReader,
    xref: XRef,
    objstms: BTreeMap<ObjNum, Result<ObjStm, Error>>,
}

impl SimpleReader {
    /// The data of the file.
    pub closed spec fn sdata(&self) -> Seq<u8> {
        self.base.sdata()
    }

    /// The offset that positions are relative to.
    pub closed spec fn sstart(&self) -> u64 {
        self.base.sstart()
    }

    /// The cross-reference table.
    pub closed spec fn sxref(&self) -> SXRef {
        self.xref.sv()
    }

    /// The lookup in the table.
    pub closed spec fn slocate(&self) -> spec_fn(ObjRef) -> Option<Record> {
        locate_fn(&self.xref)
    }

    /// Every cached object stream is what reading it gives.
    pub closed spec fn wf(&self) -> bool {
        forall|n: ObjNum|
            #[trigger] self.objstms@.contains_key(n) ==> objstm_result(self.objstms@[n])
                == spec_objstm_of(self.sdata(), self.sstart(), self.slocate(), n, MAX_DEPTH as nat)
    }

    /// The cross-reference table built from the file.
    pub fn xref(&self) -> (r: &XRef)
        ensures
            r.sv() == self.sxref(),
    {
        &self.xref
    }

    /// The number of entries of the table.
    pub fn entry_count(&self) -> (r: usize)
        ensures
            r == self.sxref().map.len(),
    {
        proof {
            broadcast use vstd::std_specs::btree::axiom_spec_btree_map_len;
            super::entries::lemma_numbers_ordered();
        }
        self.xref.map.len()
    }

    /// Builds the table by following the chain of sections from `entry` (see
    /// [`spec_build_xref`]).
    fn build_xref(parser: &mut FileParser, entry: u64) -> (r: Result<XRef, Error>)
        ensures
            final(parser).sdata() == old(parser).sdata(),
            final(parser).sheader() == old(parser).sheader(),
            crate::base::xref_result(r) == spec_build_xref(old(parser).sdata(), old(parser).sstart(), entry),
    {
        let ghost d = parser.sdata();
        let ghost st = parser.sstart();
        let mut iter = BaseReader::read_xref_chain(entry);
        let mut order: Vec<u64> = Vec::new();
        order.push(entry);
        let mut xref = match iter.next(parser) {
            Some((_, x)) => x,
            None => return Err(Error::Parse("could not parse xref table")),
        };
        proof {
            lemma_xref_at_in_data(d, entry + st);
            assert(order@ =~= seq![entry]);
        }
        let n = parser.read_raw(0).len();
        loop
            invariant
                parser.sdata() == d,
                d == old(parser).sdata(),
                parser.sheader() == old(parser).sheader(),
                st == parser.sstart(),
                n == d.len(),
                order_ok(order@, d.len()),
                spec_build_xref(d, st, entry) == Ok::<SXRef, Error>(spec_chain(d, st, iter.pending(), order@, xref.sv())),
            decreases d.len() - order@.len(),
        {
            proof {
                lemma_order_len(order@, d.len());
            }
            let ghost pending = iter.pending();
            let ghost acc = xref.sv();
            match iter.next(parser) {
                None => {
                    return Ok(xref);
                },
                Some((offset, next_xref)) => {
                    if vec_contains(&order, offset) {
                        return Ok(xref);
                    }
                    proof {
                        lemma_xref_at_in_data(d, offset + st);
                        assert(order_ok(order@.push(offset), d.len()));
                        lemma_order_len(order@.push(offset), d.len());
                    }
                    xref.merge_prev(next_xref);
                    order.push(offset);
                    assert(xref.sv() == merge_older(acc, next_xref.sv()));
                },
            }
        }
    }

    /// Creates a reader around the data of a file: locates the header and the entry point
    /// and builds the cross-reference table (see [`spec_simple_xref`]).
    pub fn new(data: Vec<u8>) -> (r: Result<SimpleReader, Error>)
        ensures
            match (r, spec_simple_xref(data@)) {
                (Ok(rd), Ok(x)) => rd.wf() && rd.sdata() == data@ && rd.sstart() == header_start(
                    data@,
                ) && rd.sxref() == x,
                (Err(e1), Err(e2)) => e1 == e2,
                _ => false,
            },
    {
        let mut parser = FileParser::new(data);
        let entry = parser.entrypoint()?;
        let xref = Self::build_xref(&mut parser, entry)?;
        let base = BaseReader::new(parser);
        let r = SimpleReader { base, xref, objstms: BTreeMap::new() };
        assert(r.wf());
        Ok(r)
    }
}

/// The objects listed by a reader, viewed as values.
pub open spec fn objects_view(v: Seq<(ObjRef, Result<Object, Error>)>) -> Seq<(ObjRef, Result<SObject, Error>)> {
    Seq::new(v.len(), |i: int| (v[i].0, obj_result(v[i].1)))
}

/// Whether `(oref, res)` is what reading the object of number `oref.num` recorded in `m`
/// gives: uncompressed or compressed, but not free.
pub open spec fn object_entry(
    d: Seq<u8>,
    start: u64,
    ls: spec_fn(ObjRef) -> Option<Record>,
    m: Map<u64, Record>,
    oref: ObjRef,
    res: Result<SObject, Error>,
) -> bool {
    m.contains_key(oref.num) && match m[oref.num] {
        Record::Used { gen, offset } => oref == ObjRef { num: oref.num, gen } && res
            == spec_read_uncompressed(d, start, offset, oref),
        Record::Compr { num_within, index } => oref == ObjRef { num: oref.num, gen: 0 } && res
            == spec_read_compressed(d, start, ls, num_within, index, oref, MAX_DEPTH as nat),
        Record::Free { .. } => false,
    }
}

impl SimpleReader {
    /// Reads a compressed object through the cache of object streams (see
    /// [`spec_read_compressed`]).
    fn read_compressed_cached(&mut self, num_within: ObjNum, index: ObjIndex, oref: &ObjRef) -> (r:
        Result<Object, Error>)
        requires
            old(self).wf(),
        ensures
            final(self).wf(),
            final(self).sdata() == old(self).sdata(),
            final(self).sstart() == old(self).sstart(),
            final(self).sxref() == old(self).sxref(),
            final(self).slocate() == old(self).slocate(),
            obj_result(r) == spec_read_compressed(
                old(self).sdata(),
                old(self).sstart(),
                old(self).slocate(),
                num_within,
                index,
                *oref,
                MAX_DEPTH as nat,
            ),
    {
        if !self.objstms.contains_key(&num_within) {
            let os = self.base.objstm_of(num_within, &self.xref, MAX_DEPTH);
            self.objstms.insert(num_within, os);
        }
        match self.objstms.get(&num_within) {
            Some(Ok(os)) => objstm_get(os, index, oref),
            Some(Err(e)) => Err(*e),
            None => Err(Error::Parse("object stream not located")),
        }
    }

    /// Resolves a reference into an owned object (see [`spec_resolve_ref`]); a reference that
    /// is not in the table, or marked free, gives the null object.
    pub fn resolve_ref(&mut self, objref: &ObjRef) -> (r: Result<Object, Error>)
        requires
            old(self).wf(),
        ensures
            final(self).wf(),
            final(self).sdata() == old(self).sdata(),
            final(self).sstart() == old(self).sstart(),
            final(self).sxref() == old(self).sxref(),
            final(self).slocate() == old(self).slocate(),
            obj_result(r) == spec_resolve_ref(
                old(self).sdata(),
                old(self).sstart(),
                old(self).slocate(),
                *objref,
                MAX_DEPTH as nat,
            ),
    {
        match self.xref.locate(objref) {
            Some(Record::Used { offset, .. }) => self.base.read_uncompressed(offset, objref),
            Some(Record::Compr { num_within, index }) => self.read_compressed_cached(
                num_within,
                index,
                objref,
            ),
            _ => Ok(Object::Null),
        }
    }

    /// For a reference, calls [`SimpleReader::resolve_ref`]; other objects are returned
    /// unchanged.
    pub fn resolve_obj(&mut self, obj: Object) -> (r: Result<Object, Error>)
        requires
            old(self).wf(),
        ensures
            final(self).wf(),
            final(self).sdata() == old(self).sdata(),
            final(self).sstart() == old(self).sstart(),
            final(self).sxref() == old(self).sxref(),
            final(self).slocate() == old(self).slocate(),
            obj_result(r) == crate::codecs::resolve_sobj(
                obj.sv(),
                resolver_of(old(self).sdata(), old(self).sstart(), old(self).slocate(), MAX_DEPTH as nat),
            ),
    {
        match obj {
            Object::Ref(x) => self.resolve_ref(&x),
            _ => Ok(obj),
        }
    }

    /// Resolves references like [`SimpleReader::resolve_obj`], and also the items of an array
    /// or the values of a dictionary (see [`spec_resolve_deep`]).
    pub fn resolve_deep(&mut self, obj: Object) -> (r: Result<Object, Error>)
        requires
            old(self).wf(),
        ensures
            final(self).wf(),
            final(self).sdata() == old(self).sdata(),
            final(self).sstart() == old(self).sstart(),
            final(self).sxref() == old(self).sxref(),
            final(self).slocate() == old(self).slocate(),
            obj_result(r) == spec_resolve_deep(
                obj.sv(),
                resolver_of(old(self).sdata(), old(self).sstart(), old(self).slocate(), MAX_DEPTH as nat),
            ),
    {
        self.base.resolve_deep(obj, &self.xref)
    }

    /// The decoded data of a stream of the file (see [`spec_stream_data`]).
    pub fn read_stream_data(&mut self, obj: &Stream) -> (r: Result<Vec<u8>, Error>)
        requires
            old(self).wf(),
            obj.data is Ref,
        ensures
            final(self).wf(),
            final(self).sdata() == old(self).sdata(),
            final(self).sstart() == old(self).sstart(),
            final(self).sxref() == old(self).sxref(),
            final(self).slocate() == old(self).slocate(),
            bytes_result(r) == spec_stream_data(
                old(self).sdata(),
                old(self).sstart(),
                old(self).slocate(),
                obj.dict.sv(),
                obj.data.sv(),
                MAX_DEPTH as nat,
            ),
    {
        self.base.read_stream_data(obj, &self.xref)
    }

    /// All objects of the table that are in use, in increasing order of their numbers, each
    /// with what reading it gives (see [`object_entry`]).
    pub fn objects(&mut self) -> (r: Vec<(ObjRef, Result<Object, Error>)>)
        requires
            old(self).wf(),
        ensures
            final(self).wf(),
            final(self).sdata() == old(self).sdata(),
            final(self).sstart() == old(self).sstart(),
            final(self).sxref() == old(self).sxref(),
            final(self).slocate() == old(self).slocate(),
            forall|i: int, j: int|
                0 <= i < j < r@.len() ==> r@[i].0.num < r@[j].0.num,
            forall|i: int|
                0 <= i < r@.len() ==> object_entry(
                    old(self).sdata(),
                    old(self).sstart(),
                    old(self).slocate(),
                    old(self).sxref().map,
                    #[trigger] objects_view(r@)[i].0,
                    objects_view(r@)[i].1,
                ),
            forall|k: u64|
                old(self).sxref().map.contains_key(k) && !(old(self).sxref().map[k] is Free)
                    ==> exists|i: int| 0 <= i < r@.len() && #[trigger] r@[i].0.num == k,
    {
        let ents = super::entries::sorted_entries(&self.xref.map);
        let ghost m = self.xref.map@;
        let ghost d = self.sdata();
        let ghost st = self.sstart();
        let ghost ls = self.slocate();
        let mut out: Vec<(ObjRef, Result<Object, Error>)> = Vec::new();
        let ghost mut src: Seq<int> = Seq::empty();
        let mut i: usize = 0;
        while i < ents.len()
            invariant
                0 <= i <= ents.len(),
                self.wf(),
                self.sdata() == d,
                self.sstart() == st,
                self.slocate() == ls,
                self.xref.map@ == m,
                d == old(self).sdata(),
                st == old(self).sstart(),
                ls == old(self).slocate(),
                m == old(self).sxref().map,
                self.sxref() == old(self).sxref(),
                forall|a: int| 0 <= a < ents@.len() ==> m.contains_key(#[trigger] ents@[a].0) && m[ents@[a].0] == ents@[a].1,
                forall|a: int, b: int| 0 <= a < b < ents@.len() ==> ents@[a].0 < ents@[b].0,
                src.len() == out@.len(),
                forall|t: int| 0 <= t < src.len() ==> 0 <= #[trigger] src[t] < i && out@[t].0.num == ents@[src[t]].0,
                forall|t: int, u: int| 0 <= t < u < src.len() ==> src[t] < src[u],
                forall|t: int| 0 <= t < out@.len() ==> object_entry(d, st, ls, m, #[trigger] objects_view(out@)[t].0, objects_view(out@)[t].1),
                forall|a: int| 0 <= a < i && !(#[trigger] ents@[a].1 is Free) ==> exists|t: int| 0 <= t < out@.len() && out@[t].0.num == ents@[a].0,
            decreases ents.len() - i,
        {
            let (num, rec) = ents[i];
            let ghost old_out = out@;
            match rec {
                Record::Used { gen, offset } => {
                    let oref = ObjRef { num, gen };
                    let r = self.base.read_uncompressed(offset, &oref);
                    out.push((oref, r));
                    proof {
                        src = src.push(i as int);
                    }
                },
                Record::Compr { num_within, index } => {
                    let oref = ObjRef { num, gen: 0 };
                    let r = self.read_compressed_cached(num_within, index, &oref);
                    out.push((oref, r));
                    proof {
                        src = src.push(i as int);
                    }
                },
                Record::Free { .. } => {},
            }
            proof {
                assert forall|t: int| 0 <= t < out@.len() implies object_entry(d, st, ls, m, #[trigger] objects_view(out@)[t].0, objects_view(out@)[t].1) by {
                    if t < old_out.len() {
                        assert(objects_view(out@)[t] == objects_view(old_out)[t]);
                    }
                }
                assert forall|a: int| 0 <= a < i + 1 && !(#[trigger] ents@[a].1 is Free) implies exists|t: int| 0 <= t < out@.len() && out@[t].0.num == ents@[a].0 by {
                    if a == i {
                        assert(out@[out@.len() - 1].0.num == ents@[a].0);
                    } else {
                        let t = choose|t: int| 0 <= t < old_out.len() && old_out[t].0.num == ents@[a].0;
                        assert(out@[t] == old_out[t]);
                    }
                }
            }
            i += 1;
        }
        proof {
            assert forall|x: int, y: int| 0 <= x < y < out@.len() implies out@[x].0.num < out@[y].0.num by {
                assert(src[x] < src[y]);
            }
            assert forall|k: u64| m.contains_key(k) && !(m[k] is Free) implies exists|t: int| 0 <= t < out@.len() && #[trigger] out@[t].0.num == k by {
                let a = choose|a: int| 0 <= a < ents@.len() && #[trigger] ents@[a].0 == k;
                assert(!(ents@[a].1 is Free));
            }
        }
        out
    }
}

impl Resolver for SimpleReader {
    closed spec fn spec_resolve(&self, objref: ObjRef) -> Result<SObject, Error> {
        spec_resolve_ref(self.sdata(), self.sstart(), self.slocate(), objref, MAX_DEPTH as nat)
    }

    /// Resolves a reference without the cache of object streams.
    fn resolve_ref(&mut self, objref: &ObjRef) -> (r: Result<Object, Error>) {
        self.base.resolve_ref(objref, &self.xref)
    }
}

/// Whether `v` holds `x`.
pub(crate) fn vec_contains(v: &Vec<u64>, x: u64) -> (r: bool)
    ensures
        r == v@.contains(x),
{
    let mut i: usize = 0;
    while i < v.len()
        invariant
            0 <= i <= v.len(),
            forall|k: int| 0 <= k < i ==> v@[k] != x,
        decreases v.len() - i,
    {
        if v[i] == x {
            return true;
        }
        i += 1;
    }
    false
}

} // verus!
