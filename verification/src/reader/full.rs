use std::collections::BTreeMap;
use vstd::prelude::*;

use crate::base::{
    spec_locate_in, Error, Locator, ObjIndex, ObjNum, ObjRef, Object, Offset, Record, SObject,
    SXRef, Stream, XRef,
};
use crate::bp::bytes_result;
use crate::codecs::resolve_sobj;
use crate::fp::{spec_entrypoint, FileParser};
use crate::op::obj_result;
use super::base::{
    objstm_get, objstm_result, resolver_of, spec_objstm_of, spec_read_compressed, spec_resolve_deep,
    spec_resolve_ref, spec_stream_data, spec_xref_step, BaseReader, ObjStm,
    XRefIterator, MAX_DEPTH,
};
use super::simple::{
    header_start, lemma_order_len, lemma_xref_at_in_data, object_entry, order_ok, vec_contains,
};

verus! {

/// The value of a chain of sections with their offsets.
pub open spec fn sections_view(s: Seq<(Offset, XRef)>) -> Seq<(u64, SXRef)> {
    s.map_values(|p: (Offset, XRef)| (p.0, p.1.sv()))
}

/// The lookup in the chain of sections from section `i` on: the first section that has a
/// record for the reference gives it.
pub open spec fn spec_chain_locate(secs: Seq<(u64, SXRef)>, i: int, objref: ObjRef) -> Option<Record>
    decreases secs.len() - i,
{
    if i < 0 || i >= secs.len() {
        None
    } else {
        match spec_locate_in(secs[i].1.map, secs[i].1.size, objref) {
            Some(r) => Some(r),
            None => spec_chain_locate(secs, i + 1, objref),
        }
    }
}

/// The lookup in the chain from section `i` on, as a function.
pub open spec fn chain_fn(secs: Seq<(u64, SXRef)>, i: int) -> spec_fn(ObjRef) -> Option<Record> {
    |o: ObjRef| spec_chain_locate(secs, i, o)
}

/// Following the chain of sections from the `pending` offsets, collecting each section read
/// after those in `acc`, until the chain ends, a section cannot be read, or an offset
/// repeats.
pub open spec fn spec_sections(
    d: Seq<u8>,
    start: u64,
    pending: Seq<(u64, bool)>,
    order: Seq<u64>,
    acc: Seq<(u64, SXRef)>,
) -> Seq<(u64, SXRef)>
    decreases d.len() - order.len(),
    when order_ok(order, d.len())
{
    match spec_xref_step(d, start, pending) {
        (None, _) => acc,
        (Some((off, x)), q) => if order.contains(off) {
            acc
        } else {
            proof {
                lemma_xref_at_in_data(d, off + start);
                assert(order_ok(order.push(off), d.len()));
                lemma_order_len(order.push(off), d.len());
            }
            spec_sections(d, start, q, order.push(off), acc.push((off, x)))
        },
    }
}

/// The sections collected along a chain have distinct offsets.
pub proof fn lemma_sections_distinct(
    d: Seq<u8>,
    start: u64,
    pending: Seq<(u64, bool)>,
    order: Seq<u64>,
    acc: Seq<(u64, SXRef)>,
)
    requires
        order_ok(order, d.len()),
        acc.len() == order.len(),
        forall|i: int| 0 <= i < acc.len() ==> acc[i].0 == order[i],
    ensures
        ({
            let r = spec_sections(d, start, pending, order, acc);
            forall|i: int, j: int| 0 <= i < j < r.len() ==> r[i].0 != r[j].0
        }),
    decreases d.len() - order.len(),
{
    assert forall|i: int, j: int| 0 <= i < j < acc.len() implies acc[i].0 != acc[j].0 by {
        assert(order[i] != order[j]);
    }
    match spec_xref_step(d, start, pending) {
        (None, _) => {
            assert(spec_sections(d, start, pending, order, acc) == acc);
        },
        (Some((off, x)), q) => if !order.contains(off) {
            lemma_xref_at_in_data(d, off + start);
            assert(order_ok(order.push(off), d.len()));
            lemma_order_len(order.push(off), d.len());
            lemma_order_len(order, d.len());
            lemma_sections_distinct(d, start, q, order.push(off), acc.push((off, x)));
            assert(spec_sections(d, start, pending, order, acc) == spec_sections(
                d,
                start,
                q,
                order.push(off),
                acc.push((off, x)),
            ));
        } else {
            assert(spec_sections(d, start, pending, order, acc) == acc);
        },
    }
}

/// Whether the sections lie at distinct offsets.
pub open spec fn distinct_offsets(secs: Seq<(u64, SXRef)>) -> bool {
    forall|i: int, j: int| 0 <= i < j < secs.len() ==> secs[i].0 != secs[j].0
}

/// The chain of sections that a full reader of the data keeps: from the entry point on, the
/// newest first; empty when there is no entry point or its section cannot be read.
pub open spec fn spec_full_sections(d: Seq<u8>) -> Seq<(u64, SXRef)> {
    match spec_entrypoint(d) {
        Err(_) => Seq::empty(),
        Ok(entry) => spec_sections(d, header_start(d), seq![(entry, false)], Seq::empty(), Seq::empty()),
    }
}

/// A place in the chain of sections: lookups start at section `from` (the newest is 0) and go
/// on to the older ones. Past the last section nothing is found.
#[derive(Clone, Copy, Debug, PartialEq, Eq, Structural)]
pub struct Link {
    pub from: usize,
}

/// The lookup through a chain of sections from one of them on.
pub struct ChainLocator<'a> {
    pub sections: &'a Vec<(Offset, XRef)>,
    pub from: usize,
}

impl<'a> Locator for ChainLocator<'a> {
    open spec fn spec_locate(&self, objref: ObjRef) -> Option<Record> {
        spec_chain_locate(sections_view(self.sections@), self.from as int, objref)
    }

    /// The record of the first section from `from` on that has one for `objref`.
    fn locate(&self, objref: &ObjRef) -> (r: Option<Record>) {
        let ghost s = sections_view(self.sections@);
        let mut i = self.from;
        while i < self.sections.len()
            invariant
                self.from <= i,
                s == sections_view(self.sections@),
                spec_chain_locate(s, i as int, *objref) == spec_chain_locate(s, self.from as int, *objref),
            decreases self.sections.len() - i,
        {
            assert(s[i as int] == (self.sections@[i as int].0, self.sections@[i as int].1.sv()));
            match self.sections[i].1.locate(objref) {
                Some(r) => return Some(r),
                None => {},
            }
            i += 1;
        }
        None
    }
}

/// Finds and parses objects in a PDF file through the chain of its cross-reference sections,
/// kept as they are: a lookup goes through the sections from a given one on, newest first.
///
/// Suited for files with incremental updates, where each section describes the file as it was
/// when the section was written. Object streams read are cached, for each place of the chain
/// that they were looked up from.
pub struct FullReader {
    base: BaseReader,
    sections: Vec<(Offset, XRef)>,
    objstms: BTreeMap<(usize, ObjNum), Result<ObjStm, Error>>,
}

impl FullReader {
    /// The data of the file.
    pub closed spec fn sdata(&self) -> Seq<u8> {
        self.base.sdata()
    }

    /// The offset that positions are relative to.
    pub closed spec fn sstart(&self) -> u64 {
        self.base.sstart()
    }

    /// The chain of sections with their offsets, newest first.
    pub closed spec fn ssections(&self) -> Seq<(u64, SXRef)> {
        sections_view(self.sections@)
    }

    /// The sections of the chain lie at distinct offsets, and every cached object stream is
    /// what reading it from its place of the chain gives.
    pub closed spec fn wf(&self) -> bool {
        &&& distinct_offsets(self.ssections())
        &&& forall|k: (usize, ObjNum)|
            #[trigger] self.objstms@.contains_key(k) ==> objstm_result(self.objstms@[k])
                == spec_objstm_of(
                self.sdata(),
                self.sstart(),
                chain_fn(self.ssections(), k.0 as int),
                k.1,
                MAX_DEPTH as nat,
            )
    }

    /// The lookup from the place `l` of the chain on.
    pub open spec fn link_fn(&self, l: Link) -> spec_fn(ObjRef) -> Option<Record> {
        chain_fn(self.ssections(), l.from as int)
    }

    /// The resolution of references from the place `l` of the chain on.
    pub open spec fn resolver(&self, l: Link) -> spec_fn(ObjRef) -> Result<SObject, Error> {
        resolver_of(self.sdata(), self.sstart(), self.link_fn(l), MAX_DEPTH as nat)
    }

    /// The chain of sections with their offsets, newest first.
    pub fn sections(&self) -> (r: &Vec<(Offset, XRef)>)
        ensures
            sections_view(r@) == self.ssections(),
    {
        &self.sections
    }

    /// Creates a reader around the data of a file: locates the entry point and reads the chain
    /// of sections from it (see [`spec_full_sections`]). Without an entry point, or when its
    /// section cannot be read, the chain is empty.
    pub fn new(data: Vec<u8>) -> (r: FullReader)
        ensures
            r.sdata() == data@,
            r.sstart() == header_start(data@),
            r.ssections() == spec_full_sections(data@),
            r.wf(),
    {
        let mut parser = FileParser::new(data);
        let ghost d = parser.sdata();
        let ghost st = parser.sstart();
        let mut sections: Vec<(Offset, XRef)> = Vec::new();
        assert(sections_view(sections@) =~= Seq::<(u64, SXRef)>::empty());
        match parser.entrypoint() {
            Err(_) => {},
            Ok(entry) => {
                let mut iter = BaseReader::read_xref_chain(entry);
                let mut order: Vec<u64> = Vec::new();
                let n = parser.read_raw(0).len();
                assert(order@ =~= Seq::<u64>::empty());
                loop
                    invariant_except_break
                        spec_full_sections(d) == spec_sections(d, st, iter.pending(), order@, sections_view(sections@)),
                    invariant
                        parser.sdata() == d,
                        d == data@,
                        parser.sheader() == crate::fp::spec_find_header(data@),
                        st == parser.sstart(),
                        st == header_start(d),
                        n == d.len(),
                        order_ok(order@, d.len()),
                        spec_entrypoint(d) == Ok::<u64, Error>(entry),
                    ensures
                        parser.sdata() == d,
                        parser.sheader() == crate::fp::spec_find_header(data@),
                        spec_full_sections(d) == sections_view(sections@),
                    decreases d.len() - order@.len(),
                {
                    proof {
                        lemma_order_len(order@, d.len());
                    }
                    let ghost acc = sections_view(sections@);
                    match iter.next(&mut parser) {
                        None => break,
                        Some((offset, x)) => {
                            if vec_contains(&order, offset) {
                                break;
                            }
                            proof {
                                lemma_xref_at_in_data(d, offset + st);
                                assert(order_ok(order@.push(offset), d.len()));
                                lemma_order_len(order@.push(offset), d.len());
                            }
                            order.push(offset);
                            sections.push((offset, x));
                            assert(sections_view(sections@) =~= acc.push((offset, x.sv())));
                        },
                    }
                }
            },
        }
        proof {
            match spec_entrypoint(data@) {
                Ok(entry) => lemma_sections_distinct(
                    data@,
                    header_start(data@),
                    seq![(entry, false)],
                    Seq::empty(),
                    Seq::empty(),
                ),
                Err(_) => {},
            }
        }
        let r = FullReader { base: BaseReader::new(parser), sections, objstms: BTreeMap::new() };
        assert(r.wf());
        r
    }

    /// The place of the newest section, from which all lookups start by default.
    pub fn base_locator(&self) -> (r: Link)
        ensures
            r.from == 0,
    {
        Link { from: 0 }
    }

    /// Reads a compressed object through the cache of object streams, looking things up from
    /// the place `from` of the chain on (see [`spec_read_compressed`]).
    fn read_compressed_cached(&mut self, num_within: ObjNum, index: ObjIndex, from: usize, oref: &ObjRef) -> (r:
        Result<Object, Error>)
        requires
            old(self).wf(),
        ensures
            final(self).wf(),
            final(self).sdata() == old(self).sdata(),
            final(self).sstart() == old(self).sstart(),
            final(self).ssections() == old(self).ssections(),
            obj_result(r) == spec_read_compressed(
                old(self).sdata(),
                old(self).sstart(),
                chain_fn(old(self).ssections(), from as int),
                num_within,
                index,
                *oref,
                MAX_DEPTH as nat,
            ),
    {
        let key = (from, num_within);
        if !self.objstms.contains_key(&key) {
            let loc = ChainLocator { sections: &self.sections, from };
            proof {
                assert(crate::reader::base::locate_fn(&loc) =~= chain_fn(self.ssections(), from as int));
            }
            let os = self.base.objstm_of(num_within, &loc, MAX_DEPTH);
            self.objstms.insert(key, os);
        }
        match self.objstms.get(&key) {
            Some(Ok(os)) => objstm_get(os, index, oref),
            Some(Err(e)) => Err(*e),
            None => Err(Error::Parse("object stream not located")),
        }
    }

    /// Resolves a reference into an owned object, looking it up from the place `link` of the
    /// chain on (see [`spec_resolve_ref`]).
    pub fn resolve_ref(&mut self, objref: &ObjRef, link: &Link) -> (r: Result<Object, Error>)
        requires
            old(self).wf(),
        ensures
            final(self).wf(),
            final(self).sdata() == old(self).sdata(),
            final(self).sstart() == old(self).sstart(),
            final(self).ssections() == old(self).ssections(),
            obj_result(r) == spec_resolve_ref(
                old(self).sdata(),
                old(self).sstart(),
                old(self).link_fn(*link),
                *objref,
                MAX_DEPTH as nat,
            ),
    {
        let loc = ChainLocator { sections: &self.sections, from: link.from };
        proof {
            assert(crate::reader::base::locate_fn(&loc) =~= self.link_fn(*link));
        }
        match loc.locate(objref) {
            Some(Record::Used { offset, .. }) => self.base.read_uncompressed(offset, objref),
            Some(Record::Compr { num_within, index }) => self.read_compressed_cached(
                num_within,
                index,
                link.from,
                objref,
            ),
            _ => Ok(Object::Null),
        }
    }

    /// For a reference, calls [`FullReader::resolve_ref`]; other objects are returned
    /// unchanged.
    pub fn resolve_obj(&mut self, obj: Object, link: &Link) -> (r: Result<Object, Error>)
        requires
            old(self).wf(),
        ensures
            final(self).wf(),
            final(self).sdata() == old(self).sdata(),
            final(self).sstart() == old(self).sstart(),
            final(self).ssections() == old(self).ssections(),
            obj_result(r) == resolve_sobj(obj.sv(), old(self).resolver(*link)),
    {
        match obj {
            Object::Ref(x) => self.resolve_ref(&x, link),
            _ => Ok(obj),
        }
    }

    /// Resolves references like [`FullReader::resolve_obj`], and also the items of an array
    /// or the values of a dictionary (see [`spec_resolve_deep`]).
    pub fn resolve_deep(&mut self, obj: Object, link: &Link) -> (r: Result<Object, Error>)
        requires
            old(self).wf(),
        ensures
            final(self).sdata() == old(self).sdata(),
            final(self).sstart() == old(self).sstart(),
            final(self).ssections() == old(self).ssections(),
            final(self).wf(),
            obj_result(r) == spec_resolve_deep(obj.sv(), old(self).resolver(*link)),
    {
        let loc = ChainLocator { sections: &self.sections, from: link.from };
        proof {
            assert(crate::reader::base::locate_fn(&loc) =~= self.link_fn(*link));
        }
        self.base.resolve_deep(obj, &loc)
    }

    /// The decoded data of a stream of the file, its references looked up from the place
    /// `link` of the chain on (see [`spec_stream_data`]).
    pub fn read_stream_data(&mut self, obj: &Stream, link: &Link) -> (r: Result<Vec<u8>, Error>)
        requires
            old(self).wf(),
            obj.data is Ref,
        ensures
            final(self).sdata() == old(self).sdata(),
            final(self).sstart() == old(self).sstart(),
            final(self).ssections() == old(self).ssections(),
            final(self).wf(),
            bytes_result(r) == spec_stream_data(
                old(self).sdata(),
                old(self).sstart(),
                old(self).link_fn(*link),
                obj.dict.sv(),
                obj.data.sv(),
                MAX_DEPTH as nat,
            ),
    {
        let loc = ChainLocator { sections: &self.sections, from: link.from };
        proof {
            assert(crate::reader::base::locate_fn(&loc) =~= self.link_fn(*link));
        }
        self.base.read_stream_data(obj, &loc)
    }
}

/// A found object with the place of the chain its lookups start from, viewed as a value.
pub open spec fn linked_result(r: Result<(Object, Link), Error>) -> Result<(SObject, Link), Error> {
    match r {
        Ok((o, l)) => Ok((o.sv(), l)),
        Err(e) => Err(e),
    }
}

/// The object part of a linked result.
pub open spec fn unlinked(r: Result<(SObject, Link), Error>) -> Result<SObject, Error> {
    match r {
        Ok((o, _)) => Ok(o),
        Err(e) => Err(e),
    }
}

/// The objects listed by a full reader, viewed as values.
pub open spec fn linked_view(v: Seq<(ObjRef, Result<(Object, Link), Error>)>) -> Seq<
    (ObjRef, Result<(SObject, Link), Error>),
> {
    Seq::new(v.len(), |i: int| (v[i].0, linked_result(v[i].1)))
}

/// Whether `(oref, res)`, listed for section `s` of the chain `secs`, is what reading the
/// object recorded for `oref.num` in that section gives, its lookups starting at `s`.
pub open spec fn linked_entry(
    d: Seq<u8>,
    start: u64,
    secs: Seq<(u64, SXRef)>,
    s: int,
    oref: ObjRef,
    res: Result<(SObject, Link), Error>,
) -> bool {
    &&& 0 <= s < secs.len()
    &&& object_entry(d, start, chain_fn(secs, s), secs[s].1.map, oref, unlinked(res))
    &&& (res matches Ok((_, l)) ==> l.from == s)
}

/// Whether `v` lists, for every section of the chain `secs` in increasing order of offsets,
/// every object in use recorded there in increasing order of numbers, with the section `src[i]`
/// that item `i` comes from.
pub open spec fn listed_in_order(
    d: Seq<u8>,
    start: u64,
    secs: Seq<(u64, SXRef)>,
    src: Seq<int>,
    v: Seq<(ObjRef, Result<(SObject, Link), Error>)>,
) -> bool {
    &&& src.len() == v.len()
    &&& forall|i: int| 0 <= i < v.len() ==> linked_entry(d, start, secs, #[trigger] src[i], v[i].0, v[i].1)
    &&& forall|i: int, j: int|
        0 <= i < j < v.len() ==> secs[src[i]].0 < secs[src[j]].0 || (src[i] == src[j] && v[i].0.num
            < v[j].0.num)
    &&& forall|s: int, k: u64|
        0 <= s < secs.len() && #[trigger] secs[s].1.map.contains_key(k) && !(secs[s].1.map[k] is Free)
            ==> exists|i: int| 0 <= i < v.len() && src[i] == s && #[trigger] v[i].0.num == k
}

/// Whether `k` is listed in `r`.
pub open spec fn listed(r: Seq<usize>, k: int) -> bool {
    exists|t: int| 0 <= t < r.len() && r[t] == k
}

/// The places of the sections in increasing order of their offsets.
fn by_offset(secs: &Vec<(Offset, XRef)>) -> (r: Vec<usize>)
    requires
        forall|i: int, j: int| 0 <= i < j < secs@.len() ==> secs@[i].0 != secs@[j].0,
    ensures
        forall|t: int| 0 <= t < r@.len() ==> r@[t] < secs@.len(),
        forall|t: int, u: int| 0 <= t < u < r@.len() ==> secs@[r@[t] as int].0 < secs@[r@[u] as int].0,
        forall|k: int| 0 <= k < secs@.len() ==> #[trigger] listed(r@, k),
{
    let mut r: Vec<usize> = Vec::new();
    let mut k: usize = 0;
    while k < secs.len()
        invariant
            0 <= k <= secs@.len(),
            forall|i: int, j: int| 0 <= i < j < secs@.len() ==> secs@[i].0 != secs@[j].0,
            forall|t: int| 0 <= t < r@.len() ==> r@[t] < k,
            forall|t: int, u: int| 0 <= t < u < r@.len() ==> secs@[r@[t] as int].0 < secs@[r@[u] as int].0,
            forall|c: int| 0 <= c < k ==> #[trigger] listed(r@, c),
        decreases secs@.len() - k,
    {
        let off = secs[k].0;
        let mut p: usize = 0;
        while p < r.len() && secs[r[p]].0 < off
            invariant
                0 <= p <= r@.len(),
                forall|t: int| 0 <= t < r@.len() ==> r@[t] < k,
                k < secs@.len(),
                off == secs@[k as int].0,
                forall|t: int| 0 <= t < p ==> secs@[r@[t] as int].0 < off,
            decreases r@.len() - p,
        {
            p += 1;
        }
        let ghost old_r = r@;
        proof {
            assert forall|t: int| p <= t < old_r.len() implies off < secs@[old_r[t] as int].0 by {
                assert(secs@[old_r[p as int] as int].0 != off);
                if t > p {
                    assert(secs@[old_r[p as int] as int].0 < secs@[old_r[t] as int].0);
                }
            }
        }
        r.insert(p, k);
        proof {
            assert forall|c: int| 0 <= c < k + 1 implies #[trigger] listed(r@, c) by {
                if c == k {
                    assert(r@[p as int] == k);
                } else {
                    assert(listed(old_r, c));
                    let t = choose|t: int| 0 <= t < old_r.len() && old_r[t] == c;
                    if t < p {
                        assert(r@[t] == c);
                    } else {
                        assert(r@[t + 1] == c);
                    }
                }
            }
        }
        k += 1;
    }
    r
}

impl FullReader {
    /// The objects in use recorded in section `s`, in increasing order of numbers, each with
    /// what reading it gives and the place `s` of the chain.
    fn section_objects(&mut self, s: usize) -> (r: Vec<(ObjRef, Result<(Object, Link), Error>)>)
        requires
            old(self).wf(),
            s < old(self).ssections().len(),
        ensures
            final(self).wf(),
            final(self).sdata() == old(self).sdata(),
            final(self).sstart() == old(self).sstart(),
            final(self).ssections() == old(self).ssections(),
            forall|i: int, j: int| 0 <= i < j < r@.len() ==> r@[i].0.num < r@[j].0.num,
            forall|i: int|
                0 <= i < r@.len() ==> linked_entry(
                    old(self).sdata(),
                    old(self).sstart(),
                    old(self).ssections(),
                    s as int,
                    #[trigger] linked_view(r@)[i].0,
                    linked_view(r@)[i].1,
                ),
            forall|k: u64|
                old(self).ssections()[s as int].1.map.contains_key(k) && !(old(self).ssections()[s as int].1.map[k] is Free)
                    ==> exists|i: int| 0 <= i < r@.len() && #[trigger] r@[i].0.num == k,
    {
        let ghost secs = self.ssections();
        let ghost d = self.sdata();
        let ghost st = self.sstart();
        let ghost m = secs[s as int].1.map;
        assert(m == self.sections@[s as int].1.map@);
        let ents = super::entries::sorted_entries(&self.sections[s].1.map);
        let link = Link { from: s };
        let mut out: Vec<(ObjRef, Result<(Object, Link), Error>)> = Vec::new();
        let ghost mut src: Seq<int> = Seq::empty();
        let mut i: usize = 0;
        while i < ents.len()
            invariant
                0 <= i <= ents.len(),
                s < secs.len(),
                self.wf(),
                self.sdata() == d,
                self.sstart() == st,
                self.ssections() == secs,
                d == old(self).sdata(),
                st == old(self).sstart(),
                secs == old(self).ssections(),
                m == secs[s as int].1.map,
                link.from == s,
                forall|a: int| 0 <= a < ents@.len() ==> m.contains_key(#[trigger] ents@[a].0) && m[ents@[a].0] == ents@[a].1,
                forall|a: int, b: int| 0 <= a < b < ents@.len() ==> ents@[a].0 < ents@[b].0,
                src.len() == out@.len(),
                forall|t: int| 0 <= t < src.len() ==> 0 <= #[trigger] src[t] < i && out@[t].0.num == ents@[src[t]].0,
                forall|t: int, u: int| 0 <= t < u < src.len() ==> src[t] < src[u],
                forall|t: int| 0 <= t < out@.len() ==> linked_entry(d, st, secs, s as int, #[trigger] linked_view(out@)[t].0, linked_view(out@)[t].1),
                forall|a: int| 0 <= a < i && !(#[trigger] ents@[a].1 is Free) ==> exists|t: int| 0 <= t < out@.len() && out@[t].0.num == ents@[a].0,
            decreases ents.len() - i,
        {
            let (num, rec) = ents[i];
            let ghost old_out = out@;
            match rec {
                Record::Used { gen, offset } => {
                    let oref = ObjRef { num, gen };
                    let r = match self.base.read_uncompressed(offset, &oref) {
                        Ok(o) => Ok((o, link)),
                        Err(e) => Err(e),
                    };
                    out.push((oref, r));
                    proof {
                        src = src.push(i as int);
                    }
                },
                Record::Compr { num_within, index } => {
                    let oref = ObjRef { num, gen: 0 };
                    let r = match self.read_compressed_cached(num_within, index, s, &oref) {
                        Ok(o) => Ok((o, link)),
                        Err(e) => Err(e),
                    };
                    out.push((oref, r));
                    proof {
                        src = src.push(i as int);
                    }
                },
                Record::Free { .. } => {},
            }
            proof {
                assert forall|t: int| 0 <= t < out@.len() implies linked_entry(d, st, secs, s as int, #[trigger] linked_view(out@)[t].0, linked_view(out@)[t].1) by {
                    if t < old_out.len() {
                        assert(linked_view(out@)[t] == linked_view(old_out)[t]);
                    }
                }
                assert forall|a: int| 0 <= a < i + 1 && !(#[trigger] ents@[a].1 is Free) implies exists|t: int| 0 <= t < out@.len() && out@[t].0.num == ents@[a].0 by {
                    if a == i {
                        assert(out@[out@.len() - 1].0.num == ents@[a].0);
                    } else {
                        let t = choose|t: int| 0 <= t < old_out.len() && old_out[t].0.num == ents@[a].0;
                        assert(out@[t] == old_out[t]);
                    }
                }
            }
            i += 1;
        }
        proof {
            assert forall|x: int, y: int| 0 <= x < y < out@.len() implies out@[x].0.num < out@[y].0.num by {
                assert(src[x] < src[y]);
            }
            assert forall|k: u64| m.contains_key(k) && !(m[k] is Free) implies exists|t: int| 0 <= t < out@.len() && #[trigger] out@[t].0.num == k by {
                let a = choose|a: int| 0 <= a < ents@.len() && #[trigger] ents@[a].0 == k;
                assert(!(ents@[a].1 is Free));
            }
        }
        out
    }
}

impl FullReader {
    /// All objects in use of all sections, the sections in increasing order of their offsets
    /// and the objects of a section in increasing order of their numbers, each with what
    /// reading it gives and the place of its section in the chain, where its own lookups start
    /// (see [`listed_in_order`]).
    pub fn objects(&mut self) -> (r: Vec<(ObjRef, Result<(Object, Link), Error>)>)
        requires
            old(self).wf(),
        ensures
            final(self).sdata() == old(self).sdata(),
            final(self).sstart() == old(self).sstart(),
            final(self).ssections() == old(self).ssections(),
            final(self).wf(),
            exists|src: Seq<int>|
                listed_in_order(
                    old(self).sdata(),
                    old(self).sstart(),
                    old(self).ssections(),
                    src,
                    linked_view(r@),
                ),
    {
        let ghost secs = self.ssections();
        let ghost d = self.sdata();
        let ghost st = self.sstart();
        proof {
            assert forall|i: int, j: int| 0 <= i < j < self.sections@.len() implies self.sections@[i].0
                != self.sections@[j].0 by {
                assert(secs[i].0 == self.sections@[i].0);
                assert(secs[j].0 == self.sections@[j].0);
            }
        }
        let order = by_offset(&self.sections);
        let mut out: Vec<(ObjRef, Result<(Object, Link), Error>)> = Vec::new();
        let ghost mut src: Seq<int> = Seq::empty();
        let mut t: usize = 0;
        while t < order.len()
            invariant
                0 <= t <= order@.len(),
                self.sdata() == d,
                self.sstart() == st,
                self.ssections() == secs,
                self.wf(),
                d == old(self).sdata(),
                st == old(self).sstart(),
                secs == old(self).ssections(),
                secs.len() == self.sections@.len(),
                forall|u: int| 0 <= u < order@.len() ==> order@[u] < secs.len(),
                forall|u: int, w: int| 0 <= u < w < order@.len() ==> secs[order@[u] as int].0 < secs[order@[w] as int].0,
                forall|k: int| 0 <= k < secs.len() ==> #[trigger] listed(order@, k),
                src.len() == out@.len(),
                forall|i: int| 0 <= i < out@.len() ==> linked_entry(d, st, secs, #[trigger] src[i], linked_view(out@)[i].0, linked_view(out@)[i].1),
                forall|i: int, j: int| 0 <= i < j < out@.len() ==> secs[src[i]].0 < secs[src[j]].0 || (src[i] == src[j]
                    && linked_view(out@)[i].0.num < linked_view(out@)[j].0.num),
                forall|i: int| 0 <= i < out@.len() ==> exists|u: int| 0 <= u < t && #[trigger] src[i] == order@[u] as int,
                forall|u: int, k: u64|
                    0 <= u < t && #[trigger] secs[order@[u] as int].1.map.contains_key(k) && !(secs[order@[u] as int].1.map[k] is Free)
                        ==> exists|i: int| 0 <= i < out@.len() && src[i] == order@[u] as int && #[trigger] out@[i].0.num == k,
            decreases order@.len() - t,
        {
            let s = order[t];
            let mut part = self.section_objects(s);
            let ghost pv = part@;
            let ghost old_out = out@;
            let ghost old_src = src;
            out.append(&mut part);
            proof {
                src = src + Seq::new(pv.len(), |x: int| s as int);
                assert(out@ =~= old_out + pv);
                assert forall|i: int| 0 <= i < out@.len() implies linked_entry(d, st, secs, #[trigger] src[i], linked_view(out@)[i].0, linked_view(out@)[i].1) by {
                    if i < old_out.len() {
                        assert(linked_view(out@)[i] == linked_view(old_out)[i]);
                    } else {
                        assert(linked_view(out@)[i] == linked_view(pv)[i - old_out.len()]);
                    }
                }
                assert forall|i: int, j: int| 0 <= i < j < out@.len() implies secs[src[i]].0 < secs[src[j]].0 || (src[i] == src[j]
                    && linked_view(out@)[i].0.num < linked_view(out@)[j].0.num) by {
                    if j < old_out.len() {
                        assert(linked_view(out@)[i] == linked_view(old_out)[i]);
                        assert(linked_view(out@)[j] == linked_view(old_out)[j]);
                    } else if i < old_out.len() {
                        let u = choose|u: int| 0 <= u < t && #[trigger] old_src[i] == order@[u] as int;
                        assert(secs[order@[u] as int].0 < secs[order@[t as int] as int].0);
                    } else {
                        assert(linked_view(out@)[i] == linked_view(pv)[i - old_out.len()]);
                        assert(linked_view(out@)[j] == linked_view(pv)[j - old_out.len()]);
                        assert(pv[i - old_out.len()].0.num < pv[j - old_out.len()].0.num);
                    }
                }
                assert forall|i: int| 0 <= i < out@.len() implies exists|u: int| 0 <= u < t + 1 && #[trigger] src[i] == order@[u] as int by {
                    if i < old_out.len() {
                        let u = choose|u: int| 0 <= u < t && #[trigger] old_src[i] == order@[u] as int;
                        assert(src[i] == order@[u] as int);
                    } else {
                        assert(src[i] == order@[t as int] as int);
                    }
                }
                assert forall|u: int, k: u64|
                    0 <= u < t + 1 && #[trigger] secs[order@[u] as int].1.map.contains_key(k) && !(secs[order@[u] as int].1.map[k] is Free)
                        implies exists|i: int| 0 <= i < out@.len() && src[i] == order@[u] as int && #[trigger] out@[i].0.num == k by {
                    if u < t {
                        let i = choose|i: int| 0 <= i < old_out.len() && old_src[i] == order@[u] as int && #[trigger] old_out[i].0.num == k;
                        assert(out@[i] == old_out[i]);
                        assert(src[i] == old_src[i]);
                    } else {
                        let q = choose|q: int| 0 <= q < pv.len() && #[trigger] pv[q].0.num == k;
                        assert(out@[old_out.len() + q] == pv[q]);
                        assert(src[old_out.len() + q] == s as int);
                    }
                }
            }
            t += 1;
        }
        proof {
            let v = linked_view(out@);
            assert forall|i: int| 0 <= i < v.len() implies linked_entry(d, st, secs, #[trigger] src[i], v[i].0, v[i].1) by {}
            assert forall|sx: int, k: u64|
                0 <= sx < secs.len() && #[trigger] secs[sx].1.map.contains_key(k) && !(secs[sx].1.map[k] is Free)
                    implies exists|i: int| 0 <= i < v.len() && src[i] == sx && #[trigger] v[i].0.num == k by {
                assert(listed(order@, sx));
                let u = choose|u: int| 0 <= u < order@.len() && order@[u] == sx;
                assert(secs[order@[u] as int].1.map.contains_key(k));
                let i = choose|i: int| 0 <= i < out@.len() && src[i] == order@[u] as int && #[trigger] out@[i].0.num == k;
                assert(v[i].0 == out@[i].0);
            }
            assert(listed_in_order(d, st, secs, src, v));
        }
        out
    }
}

/// A reader of the whole chain of sections (see [`FullReader`]).
pub type Reader = FullReader;

impl FullReader {
    /// For a reference, resolves it from the place `link` of the chain on; other objects are
    /// returned unchanged (as [`FullReader::resolve_obj`] does).
    pub fn resolve(&mut self, obj: Object, link: &Link) -> (r: Result<Object, Error>)
        requires
            old(self).wf(),
        ensures
            final(self).sdata() == old(self).sdata(),
            final(self).sstart() == old(self).sstart(),
            final(self).ssections() == old(self).ssections(),
            final(self).wf(),
            obj_result(r) == resolve_sobj(obj.sv(), old(self).resolver(*link)),
    {
        self.resolve_obj(obj, link)
    }
}

} // verus!
