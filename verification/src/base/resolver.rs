use vstd::prelude::*;

use super::error::Error;
use super::object::{
    entries_sv, lemma_array_sv, lemma_dict_sv, objs_sv, Dict, Name, ObjRef, Object, SObject,
};
use crate::codecs::resolve_sobj;
use crate::op::obj_result;
use crate::reader::base::{spec_resolve_all, spec_resolve_deep, spec_resolve_entries};

verus! {

/// The error of resolving through no resolver.
pub open spec fn no_resolver_error() -> Error {
    Error::Parse("no resolver provided for resolving object references")
}

/// Means of resolving indirect object references into the actual objects.
pub trait Resolver {
    /// What resolving `objref` gives.
    spec fn spec_resolve(&self, objref: ObjRef) -> Result<SObject, Error>;

    /// Resolves a reference into an owned object. Resolving changes what no later resolution
    /// gives.
    fn resolve_ref(&mut self, objref: &ObjRef) -> (r: Result<Object, Error>)
        ensures
            obj_result(r) == old(self).spec_resolve(*objref),
            forall|o: ObjRef| #[trigger] final(self).spec_resolve(o) == old(self).spec_resolve(o),
    ;

    /// For a reference, calls [`Resolver::resolve_ref`]; other objects are returned unchanged.
    fn resolve_obj(&mut self, obj: Object) -> (r: Result<Object, Error>)
        ensures
            obj_result(r) == resolve_sobj(obj.sv(), |o: ObjRef| old(self).spec_resolve(o)),
            forall|o: ObjRef| #[trigger] final(self).spec_resolve(o) == old(self).spec_resolve(o),
    {
        match obj {
            Object::Ref(x) => self.resolve_ref(&x),
            _ => Ok(obj),
        }
    }

    /// Resolves references like [`Resolver::resolve_obj`], and also the items of an array or the
    /// values of a dictionary (see [`spec_resolve_deep`]).
    fn resolve_deep(&mut self, obj: Object) -> (r: Result<Object, Error>)
        ensures
            obj_result(r) == spec_resolve_deep(obj.sv(), |o: ObjRef| old(self).spec_resolve(o)),
            forall|o: ObjRef| #[trigger] final(self).spec_resolve(o) == old(self).spec_resolve(o),
    {
        let ghost rs = |o: ObjRef| self.spec_resolve(o);
        let top = self.resolve_obj(obj);
        assert((|o: ObjRef| self.spec_resolve(o)) =~= rs);
        let top = top?;
        match top {
            Object::Array(items) => {
                proof {
                    lemma_array_sv(items);
                }
                assert(objs_sv(items@).skip(0) =~= objs_sv(items@));
                let ghost goal = spec_resolve_deep(obj.sv(), rs);
                assert(goal == match spec_resolve_all(objs_sv(items@), rs) {
                    Ok(v) => Ok(SObject::Array(v)),
                    Err(e) => Err(e),
                });
                let mut out: Vec<Object> = Vec::new();
                let mut i: usize = 0;
                while i < items.len()
                    invariant
                        0 <= i <= items.len(),
                        forall|o: ObjRef| #[trigger] self.spec_resolve(o) == old(self).spec_resolve(o),
                        rs == (|o: ObjRef| old(self).spec_resolve(o)),
                        goal == spec_resolve_deep(obj.sv(), rs),
                        goal == match spec_resolve_all(objs_sv(items@), rs) {
                            Ok(v) => Ok(SObject::Array(v)),
                            Err(e) => Err(e),
                        },
                        spec_resolve_all(objs_sv(items@), rs) == match spec_resolve_all(
                            objs_sv(items@).skip(i as int),
                            rs,
                        ) {
                            Ok(rest) => Ok(objs_sv(out@) + rest),
                            Err(e) => Err(e),
                        },
                    decreases items.len() - i,
                {
                    let ghost old_out = out@;
                    assert((|o: ObjRef| self.spec_resolve(o)) =~= rs);
                    let x = self.resolve_obj(items[i].duplicate());
                    assert(objs_sv(items@).skip(i as int)[0] == objs_sv(items@)[i as int]);
                    assert(objs_sv(items@).skip(i as int).drop_first() =~= objs_sv(items@).skip(i + 1));
                    let x = x?;
                    out.push(x);
                    proof {
                        assert(objs_sv(out@) =~= objs_sv(old_out).push(x.sv()));
                        match spec_resolve_all(objs_sv(items@).skip(i + 1), rs) {
                            Ok(rest) => {
                                assert(objs_sv(old_out) + (seq![x.sv()] + rest) =~= objs_sv(out@) + rest);
                            },
                            Err(_) => {},
                        }
                    }
                    i += 1;
                }
                proof {
                    assert(objs_sv(items@).skip(i as int) =~= Seq::<SObject>::empty());
                    assert(objs_sv(out@) + Seq::<SObject>::empty() =~= objs_sv(out@));
                    lemma_array_sv(out);
                }
                Ok(Object::Array(out))
            },
            Object::Dict(dict) => {
                proof {
                    lemma_dict_sv(dict);
                }
                assert(dict.sv().skip(0) =~= dict.sv());
                let ghost goal = spec_resolve_deep(obj.sv(), rs);
                assert(goal == match spec_resolve_entries(dict.sv(), rs) {
                    Ok(v) => Ok(SObject::Dict(v)),
                    Err(e) => Err(e),
                });
                let mut out: Vec<(Name, Object)> = Vec::new();
                let mut i: usize = 0;
                while i < dict.0.len()
                    invariant
                        0 <= i <= dict.0.len(),
                        forall|o: ObjRef| #[trigger] self.spec_resolve(o) == old(self).spec_resolve(o),
                        rs == (|o: ObjRef| old(self).spec_resolve(o)),
                        goal == spec_resolve_deep(obj.sv(), rs),
                        goal == match spec_resolve_entries(dict.sv(), rs) {
                            Ok(v) => Ok(SObject::Dict(v)),
                            Err(e) => Err(e),
                        },
                        spec_resolve_entries(dict.sv(), rs) == match spec_resolve_entries(
                            dict.sv().skip(i as int),
                            rs,
                        ) {
                            Ok(rest) => Ok(entries_sv(out@) + rest),
                            Err(e) => Err(e),
                        },
                    decreases dict.0.len() - i,
                {
                    let ghost old_out = out@;
                    let k = dict.0[i].0.duplicate();
                    assert((|o: ObjRef| self.spec_resolve(o)) =~= rs);
                    let x = self.resolve_obj(dict.0[i].1.duplicate());
                    assert(dict.sv().skip(i as int)[0] == dict.sv()[i as int]);
                    assert(dict.sv().skip(i as int).drop_first() =~= dict.sv().skip(i + 1));
                    let x = x?;
                    out.push((k, x));
                    proof {
                        assert(entries_sv(out@) =~= entries_sv(old_out).push((k.0@, x.sv())));
                        match spec_resolve_entries(dict.sv().skip(i + 1), rs) {
                            Ok(rest) => {
                                assert(entries_sv(old_out) + (seq![(k.0@, x.sv())] + rest) =~= entries_sv(out@)
                                    + rest);
                            },
                            Err(_) => {},
                        }
                    }
                    i += 1;
                }
                let d2 = Dict(out);
                proof {
                    assert(dict.sv().skip(i as int) =~= Seq::<(Seq<u8>, SObject)>::empty());
                    assert(entries_sv(d2.0@) + Seq::<(Seq<u8>, SObject)>::empty() =~= d2.sv());
                    lemma_dict_sv(d2);
                }
                Ok(Object::Dict(d2))
            },
            _ => Ok(top),
        }
    }
}

impl Resolver for () {
    open spec fn spec_resolve(&self, objref: ObjRef) -> Result<SObject, Error> {
        Err(no_resolver_error())
    }

    fn resolve_ref(&mut self, objref: &ObjRef) -> (r: Result<Object, Error>) {
        Err(Error::Parse("no resolver provided for resolving object references"))
    }
}

} // verus!
