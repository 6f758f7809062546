use std::collections::BTreeMap;
use vstd::prelude::*;

use super::error::Error;
use super::object::{Dict, ObjGen, ObjIndex, ObjNum, ObjRef, Offset, SObject};

verus! {

/// A single record in a cross-reference table.
#[derive(Debug, Clone, Copy, PartialEq, Eq, Structural)]
pub enum Record {
    /// An uncompressed object (`n` entry): its generation number and its location in the file.
    Used { gen: ObjGen, offset: Offset },
    /// An object number marked as free (`f` entry): the generation number to use if the number
    /// is reused, and the next number in the list of free objects.
    Free { gen: ObjGen, next: ObjNum },
    /// An object stored within an object stream: the number of the stream and the 0-based
    /// order of the object within it. Both have generation number zero.
    Compr { num_within: ObjNum, index: ObjIndex },
}

/// The record that stands for a missing or mismatched entry: `Free { gen: 65535, next: 0 }`.
pub open spec fn default_record() -> Record {
    Record::Free { gen: 65535, next: 0 }
}

impl Default for Record {
    /// Returns `Record::Free { gen: 65535, next: 0 }`.
    fn default() -> (r: Self)
        ensures
            r == default_record(),
    {
        Record::Free { gen: 65535, next: 0 }
    }
}

/// The format of a cross-reference table section.
#[derive(Debug, Clone, Copy, PartialEq, Eq, Structural)]
pub enum XRefType {
    /// A classical table (`xref ... trailer << ... >>`).
    Table,
    /// A cross-reference stream (`<< /Type/XRef ... >> stream ... endstream`), with the
    /// reference of the stream object.
    Stream(ObjRef),
}

/// A cross-reference table, or a table section, or a cross-reference stream.
#[derive(Debug)]
pub struct XRef {
    /// The format in which this section appears in the file.
    pub tpe: XRefType,
    /// The mapping from object numbers to records.
    pub map: BTreeMap<ObjNum, Record>,
    /// The trailer dictionary (for a table) or the stream dictionary (for a stream).
    pub dict: Dict,
    /// The `/Size` entry of the dictionary.
    pub size: ObjNum,
}

/// The value of a cross-reference section: the map becomes a mathematical map and the
/// dictionary its entries.
pub struct SXRef {
    pub tpe: XRefType,
    pub map: Map<ObjNum, Record>,
    pub dict: Seq<(Seq<u8>, SObject)>,
    pub size: ObjNum,
}

impl XRef {
    /// The value of the section.
    pub open spec fn sv(&self) -> SXRef {
        SXRef { tpe: self.tpe, map: self.map@, dict: self.dict.sv(), size: self.size }
    }
}

/// A section result viewed as a value result.
pub open spec fn xref_result(r: Result<XRef, Error>) -> Result<SXRef, Error> {
    match r {
        Ok(x) => Ok(x.sv()),
        Err(e) => Err(e),
    }
}

/// Encodes information about the file header.
#[derive(Debug, Clone, Copy)]
pub struct Header {
    /// The byte offset of the `%PDF` header from the start of the data.
    pub start: Offset,
    /// Version (major, minor).
    pub version: (u8, u8),
}

impl XRef {
    /// Merges two cross-reference sections into one by filling in entries missing in `self`
    /// from `prev`. An entry present in `self` always has preference; all other fields of
    /// `prev`, most notably its dictionary, are ignored.
    pub fn merge_prev(&mut self, prev: XRef)
        ensures
            final(self).map@ == prev.map@.union_prefer_right(old(self).map@),
            final(self).tpe == old(self).tpe,
            final(self).dict == old(self).dict,
            final(self).size == old(self).size,
    {
        proof {
            crate::reader::entries::lemma_numbers_ordered();
        }
        let ghost own = self.map@;
        let ghost pm = prev.map@;
        let ents = crate::reader::entries::sorted_entries(&prev.map);
        let mut i: usize = 0;
        while i < ents.len()
            invariant
                0 <= i <= ents.len(),
                own == old(self).map@,
                pm == prev.map@,
                self.tpe == old(self).tpe,
                self.dict == old(self).dict,
                self.size == old(self).size,
                forall|a: int| 0 <= a < ents@.len() ==> pm.contains_key(#[trigger] ents@[a].0) && pm[ents@[a].0] == ents@[a].1,
                forall|k: u64| pm.contains_key(k) ==> exists|a: int| 0 <= a < ents@.len() && #[trigger] ents@[a].0 == k,
                forall|k: u64|
                    #[trigger] self.map@.contains_key(k) <==> (own.contains_key(k) || exists|a: int|
                        0 <= a < i && ents@[a].0 == k),
                forall|k: u64|
                    #[trigger] self.map@.contains_key(k) ==> self.map@[k] == if own.contains_key(k) {
                        own[k]
                    } else {
                        pm[k]
                    },
            decreases ents.len() - i,
        {
            let (k, v) = ents[i];
            if !self.map.contains_key(&k) {
                self.map.insert(k, v);
            }
            proof {
                assert forall|k2: u64| #[trigger] self.map@.contains_key(k2) <==> (own.contains_key(k2)
                    || exists|a: int| 0 <= a < i + 1 && ents@[a].0 == k2) by {
                    if k2 == k {
                        assert(ents@[i as int].0 == k2);
                    }
                }
            }
            i += 1;
        }
        proof {
            assert(self.map@ =~= pm.union_prefer_right(own));
        }
    }
}

/// What a lookup in one section gives: the default record for numbers out of bounds or
/// mismatching generations, `None` where there is no entry.
pub open spec fn spec_locate_in(map: Map<ObjNum, Record>, size: ObjNum, objref: ObjRef) -> Option<
    Record,
> {
    if objref.num >= size {
        Some(default_record())
    } else if !map.contains_key(objref.num) {
        None
    } else {
        match map[objref.num] {
            Record::Used { gen, .. } => if gen == objref.gen {
                Some(map[objref.num])
            } else {
                Some(default_record())
            },
            Record::Compr { .. } => if objref.gen == 0 {
                Some(map[objref.num])
            } else {
                Some(default_record())
            },
            Record::Free { .. } => Some(map[objref.num]),
        }
    }
}

/// Resolves object numbers to their records in a cross-reference table.
pub trait Locator {
    /// The record that `locate` gives for `objref`.
    spec fn spec_locate(&self, objref: ObjRef) -> Option<Record>;

    /// Looks up a given reference. A mismatch of the generation number gives
    /// `Some(Record::default())`.
    fn locate(&self, objref: &ObjRef) -> (r: Option<Record>)
        ensures
            r == self.spec_locate(*objref),
    ;
}

impl Locator for () {
    open spec fn spec_locate(&self, objref: ObjRef) -> Option<Record> {
        None
    }

    fn locate(&self, objref: &ObjRef) -> (r: Option<Record>) {
        None
    }
}

impl Locator for XRef {
    open spec fn spec_locate(&self, objref: ObjRef) -> Option<Record> {
        spec_locate_in(self.map@, self.size, objref)
    }

    /// Returns `Some(record)` if the record is found in this section and the generation number
    /// agrees with `objref.gen`; `Some(Record::default())` on a mismatch or when the number is
    /// out of the bounds given by `/Size`; `None` if no record is present.
    fn locate(&self, objref: &ObjRef) -> (r: Option<Record>) {
        if objref.num >= self.size {
            return Some(Record::Free { gen: 65535, next: 0 });
        }
        match self.map.get(&objref.num) {
            None => None,
            Some(rec) => match *rec {
                Record::Used { gen, .. } => if gen == objref.gen {
                    Some(*rec)
                } else {
                    Some(Record::Free { gen: 65535, next: 0 })
                },
                Record::Compr { .. } => if objref.gen == 0 {
                    Some(*rec)
                } else {
                    Some(Record::Free { gen: 65535, next: 0 })
                },
                Record::Free { .. } => Some(*rec),
            },
        }
    }
}

} // verus!
