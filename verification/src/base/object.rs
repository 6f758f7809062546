use vstd::prelude::*;

verus! {

broadcast use vstd::std_specs::vec::axiom_vec_index_decreases;

/// Object number.
pub type ObjNum = u64;
/// Generation number.
pub type ObjGen = u16;
/// Index within an object stream.
pub type ObjIndex = u16;
/// Offset within a file, relative to the `%PDF` marker.
pub type Offset = u64;

/// Compares two byte strings.
pub fn bytes_eq(a: &[u8], b: &[u8]) -> (r: bool)
    ensures
        r == (a@ == b@),
{
    if a.len() != b.len() {
        return false;
    }
    let mut i: usize = 0;
    while i < a.len()
        invariant
            0 <= i <= a.len(),
            a.len() == b.len(),
            forall|k: int| 0 <= k < i ==> a@[k] == b@[k],
        decreases a.len() - i,
    {
        if a[i] != b[i] {
            return false;
        }
        i += 1;
    }
    assert(a@ =~= b@);
    true
}

/// Copies a byte string.
pub fn copy_bytes(a: &[u8]) -> (r: Vec<u8>)
    ensures
        r@ == a@,
{
    crate::bp::subslice_to_vec(a, 0, a.len())
}

/// A PDF number, integer or real.
///
/// A real is kept as the decimal literal it was written as (an optional sign, digits and one
/// decimal point, with at least one digit), so that no precision is lost or invented; its
/// floating-point value is what `str::parse::<f64>` gives on these bytes.
#[derive(Debug, PartialEq)]
pub enum Number {
    Int(i64),
    Real(Vec<u8>),
}

/// Name objects (like `/Pages`), without the leading `/`.
#[derive(PartialEq, Debug)]
pub struct Name(pub Vec<u8>);

/// An indirect object reference (`3 0 R`).
#[derive(PartialEq, Eq, Debug, Clone, Copy, Structural)]
pub struct ObjRef {
    pub num: ObjNum,
    pub gen: ObjGen,
}

/// Dictionary objects (like `<< /Length 42 >>`): key-value pairs in the order they were read.
#[derive(Debug, PartialEq)]
pub struct Dict(pub Vec<(Name, Object)>);

/// The two forms that the data of a stream takes: its offset in the file, or its bytes held
/// in memory.
pub trait StreamData {}

impl StreamData for Offset {}

impl StreamData for Vec<u8> {}

/// Where the data of a stream is: at an offset in the file, or held in memory.
#[derive(Debug, PartialEq)]
pub enum Data {
    Ref(Offset),
    Val(Vec<u8>),
}

/// A PDF stream object: its dictionary and its data.
#[derive(Debug, PartialEq)]
pub struct Stream {
    pub dict: Dict,
    pub data: Data,
}

/// The base type of all PDF objects.
#[derive(Debug, PartialEq)]
pub enum Object {
    Bool(bool),
    Number(Number),
    /// Strings; no distinction is made whether they were literal or hexadecimal.
    String(Vec<u8>),
    Name(Name),
    Array(Vec<Object>),
    Dict(Dict),
    Stream(Stream),
    Ref(ObjRef),
    Null,
}

/// The mathematical value of stream data.
pub enum SData {
    Ref(Offset),
    Val(Seq<u8>),
}

/// The mathematical value of a PDF object: byte strings and lists become sequences.
pub enum SObject {
    Bool(bool),
    Int(i64),
    Real(Seq<u8>),
    String(Seq<u8>),
    Name(Seq<u8>),
    Array(Seq<SObject>),
    Dict(Seq<(Seq<u8>, SObject)>),
    Stream(Seq<(Seq<u8>, SObject)>, SData),
    Ref(ObjRef),
    Null,
}

impl Data {
    pub open spec fn sv(&self) -> SData {
        match self {
            Data::Ref(o) => SData::Ref(*o),
            Data::Val(v) => SData::Val(v@),
        }
    }
}

impl Object {
    /// The value of the object.
    pub open spec fn sv(&self) -> SObject
        decreases self,
    {
        match self {
            Object::Bool(b) => SObject::Bool(*b),
            Object::Number(Number::Int(i)) => SObject::Int(*i),
            Object::Number(Number::Real(r)) => SObject::Real(r@),
            Object::String(s) => SObject::String(s@),
            Object::Name(n) => SObject::Name(n.0@),
            Object::Array(v) => SObject::Array(
                Seq::new(
                    v.len() as nat,
                    |i: int|
                        if 0 <= i < v.len() {
                            v[i].sv()
                        } else {
                            SObject::Null
                        },
                ),
            ),
            Object::Dict(d) => SObject::Dict(
                Seq::new(
                    d.0.len() as nat,
                    |i: int|
                        if 0 <= i < d.0.len() {
                            (d.0[i].0.0@, d.0[i].1.sv())
                        } else {
                            (Seq::empty(), SObject::Null)
                        },
                ),
            ),
            Object::Stream(s) => SObject::Stream(
                Seq::new(
                    s.dict.0.len() as nat,
                    |i: int|
                        if 0 <= i < s.dict.0.len() {
                            (s.dict.0[i].0.0@, s.dict.0[i].1.sv())
                        } else {
                            (Seq::empty(), SObject::Null)
                        },
                ),
                s.data.sv(),
            ),
            Object::Ref(r) => SObject::Ref(*r),
            Object::Null => SObject::Null,
        }
    }
}

/// The value of a list of objects.
pub open spec fn objs_sv(v: Seq<Object>) -> Seq<SObject> {
    Seq::new(v.len(), |i: int| v[i].sv())
}

/// The value of a list of dictionary entries.
pub open spec fn entries_sv(v: Seq<(Name, Object)>) -> Seq<(Seq<u8>, SObject)> {
    Seq::new(v.len(), |i: int| (v[i].0.0@, v[i].1.sv()))
}

/// The value of an array is the list of the values of its items.
pub proof fn lemma_array_sv(v: Vec<Object>)
    ensures
        Object::Array(v).sv() == SObject::Array(objs_sv(v@)),
{
    let o = Object::Array(v);
    let inner = match o.sv() {
        SObject::Array(x) => x,
        _ => Seq::empty(),
    };
    assert(inner =~= objs_sv(v@));
}

/// The value of a dictionary object is the list of its entries' values.
pub proof fn lemma_dict_sv(d: Dict)
    ensures
        Object::Dict(d).sv() == SObject::Dict(d.sv()),
{
    let o = Object::Dict(d);
    let inner = match o.sv() {
        SObject::Dict(x) => x,
        _ => Seq::empty(),
    };
    assert(inner =~= d.sv());
}

/// The value of a stream object: its dictionary's entries and its data.
pub proof fn lemma_stream_sv(s: Stream)
    ensures
        Object::Stream(s).sv() == SObject::Stream(s.dict.sv(), s.data.sv()),
{
    let o = Object::Stream(s);
    let inner = match o.sv() {
        SObject::Stream(x, _) => x,
        _ => Seq::empty(),
    };
    assert(inner =~= s.dict.sv());
}

impl Dict {
    /// The entries of the dictionary.
    pub open spec fn sv(&self) -> Seq<(Seq<u8>, SObject)> {
        entries_sv(self.0@)
    }
}

/// The value stored under the first key equal to `key`, or null when there is none.
pub open spec fn spec_lookup(entries: Seq<(Seq<u8>, SObject)>, key: Seq<u8>) -> SObject
    decreases entries.len(),
{
    if entries.len() == 0 {
        SObject::Null
    } else if entries[0].0 == key {
        entries[0].1
    } else {
        spec_lookup(entries.drop_first(), key)
    }
}

/// The index of the first entry with key `key` at or after `i`, or the length if there is none.
pub open spec fn first_key_index(entries: Seq<(Seq<u8>, SObject)>, key: Seq<u8>, i: int) -> int
    decreases entries.len() - i,
{
    if i >= entries.len() {
        entries.len() as int
    } else if i >= 0 && entries[i].0 == key {
        i
    } else {
        first_key_index(entries, key, i + 1)
    }
}

pub proof fn lemma_lookup_index(entries: Seq<(Seq<u8>, SObject)>, key: Seq<u8>, i: int)
    requires
        0 <= i <= entries.len(),
        forall|k: int| 0 <= k < i ==> entries[k].0 != key,
    ensures
        spec_lookup(entries, key) == spec_lookup(entries.subrange(i, entries.len() as int), key),
    decreases i,
{
    if i > 0 {
        assert(entries.subrange(1, entries.len() as int) =~= entries.drop_first());
        lemma_lookup_index(entries.drop_first(), key, i - 1);
        assert(entries.drop_first().subrange(i - 1, entries.drop_first().len() as int)
            =~= entries.subrange(i, entries.len() as int));
    } else {
        assert(entries.subrange(0, entries.len() as int) =~= entries);
    }
}

impl Dict {
    /// Looks up the value for a given key, if present.
    pub fn get(&self, key: &[u8]) -> (r: Option<&Object>)
        ensures
            r matches Some(o) ==> o.sv() == spec_lookup(self.sv(), key@) && !(o.sv() is Null
                && false),
            r is None ==> spec_lookup(self.sv(), key@) == SObject::Null,
            r is None <==> (forall|k: int| 0 <= k < self.sv().len() ==> self.sv()[k].0 != key@),
    {
        let mut i: usize = 0;
        while i < self.0.len()
            invariant
                0 <= i <= self.0.len(),
                forall|k: int| 0 <= k < i ==> self.sv()[k].0 != key@,
            decreases self.0.len() - i,
        {
            assert(self.sv()[i as int].0 == self.0@[i as int].0.0@);
            if bytes_eq(self.0[i].0.0.as_slice(), key) {
                proof {
                    lemma_lookup_index(self.sv(), key@, i as int);
                }
                return Some(&self.0[i].1);
            }
            i += 1;
        }
        proof {
            lemma_lookup_index(self.sv(), key@, i as int);
        }
        None
    }
}

} // verus!

verus! {

impl Name {
    /// A name with the given bytes (without the leading `/`).
    pub fn from(s: &[u8]) -> (r: Name)
        ensures
            r.0@ == s@,
    {
        Name(copy_bytes(s))
    }

    /// The bytes of the name.
    pub fn as_slice(&self) -> (r: &[u8])
        ensures
            r@ == self.0@,
    {
        self.0.as_slice()
    }

    /// A copy of the name.
    pub fn duplicate(&self) -> (r: Name)
        ensures
            r.0@ == self.0@,
    {
        Name(copy_bytes(self.0.as_slice()))
    }
}

impl Number {
    /// A copy of the number.
    pub fn duplicate(&self) -> (r: Number)
        ensures
            match (*self, r) {
                (Number::Int(a), Number::Int(b)) => a == b,
                (Number::Real(a), Number::Real(b)) => a@ == b@,
                _ => false,
            },
    {
        match self {
            Number::Int(i) => Number::Int(*i),
            Number::Real(v) => Number::Real(copy_bytes(v.as_slice())),
        }
    }
}

impl Data {
    /// A copy of the stream data.
    pub fn duplicate(&self) -> (r: Data)
        ensures
            r.sv() == self.sv(),
    {
        match self {
            Data::Ref(o) => Data::Ref(*o),
            Data::Val(v) => Data::Val(copy_bytes(v.as_slice())),
        }
    }
}

impl Dict {
    /// An empty dictionary.
    pub fn new() -> (r: Dict)
        ensures
            r.sv() == Seq::<(Seq<u8>, SObject)>::empty(),
    {
        let r = Dict(Vec::new());
        assert(r.sv() =~= Seq::<(Seq<u8>, SObject)>::empty());
        r
    }

    /// A copy of the dictionary.
    pub fn duplicate(&self) -> (r: Dict)
        ensures
            r.sv() == self.sv(),
        decreases self, 1int,
    {
        let mut v: Vec<(Name, Object)> = Vec::new();
        let mut i: usize = 0;
        while i < self.0.len()
            invariant
                0 <= i <= self.0.len(),
                v@.len() == i,
                entries_sv(v@) == entries_sv(self.0@).take(i as int),
            decreases self.0.len() - i,
        {
            proof {
                assert(decreases_to!(self.0 => self.0[i as int]));
                assert(decreases_to!(self.0[i as int] => self.0[i as int].1));
            }
            let k = self.0[i].0.duplicate();
            let o = self.0[i].1.duplicate();
            let ghost old_v = v@;
            v.push((k, o));
            assert(v@ == old_v.push((k, o)));
            assert(entries_sv(v@)[i as int] == entries_sv(self.0@)[i as int]);
            assert(entries_sv(v@) =~= entries_sv(self.0@).take(i + 1));
            i += 1;
        }
        assert(entries_sv(self.0@).take(self.0.len() as int) =~= entries_sv(self.0@));
        Dict(v)
    }
}

impl Object {
    /// A string object with the given bytes.
    pub fn new_string(s: &[u8]) -> (r: Object)
        ensures
            r.sv() == SObject::String(s@),
    {
        Object::String(copy_bytes(s))
    }

    /// A name object with the given bytes (without the leading `/`).
    pub fn new_name(s: &[u8]) -> (r: Object)
        ensures
            r.sv() == SObject::Name(s@),
    {
        Object::Name(Name::from(s))
    }

    /// A copy of the object.
    pub fn duplicate(&self) -> (r: Object)
        ensures
            r.sv() == self.sv(),
        decreases self, 0int,
    {
        match self {
            Object::Bool(b) => Object::Bool(*b),
            Object::Number(n) => Object::Number(n.duplicate()),
            Object::String(s) => Object::String(copy_bytes(s.as_slice())),
            Object::Name(n) => Object::Name(n.duplicate()),
            Object::Array(a) => {
                let v = duplicate_objs(a);
                proof {
                    lemma_array_sv(v);
                    lemma_array_sv(*a);
                }
                Object::Array(v)
            },
            Object::Dict(d) => {
                let r = d.duplicate();
                proof {
                    lemma_dict_sv(r);
                    lemma_dict_sv(*d);
                }
                Object::Dict(r)
            },
            Object::Stream(s) => {
                let r = Stream { dict: s.dict.duplicate(), data: s.data.duplicate() };
                proof {
                    lemma_stream_sv(r);
                    lemma_stream_sv(*s);
                }
                Object::Stream(r)
            },
            Object::Ref(r) => Object::Ref(*r),
            Object::Null => Object::Null,
        }
    }

    /// The value of a boolean object.
    pub fn as_bool(&self) -> (r: Option<bool>)
        ensures
            r == (match self.sv() {
                SObject::Bool(b) => Some(b),
                _ => None,
            }),
    {
        match self {
            Object::Bool(b) => Some(*b),
            _ => None,
        }
    }

    /// The bytes of a string object.
    pub fn as_string(&self) -> (r: Option<&Vec<u8>>)
        ensures
            match self.sv() {
                SObject::String(s) => r matches Some(v) && v@ == s,
                _ => r is None,
            },
    {
        match self {
            Object::String(s) => Some(s),
            _ => None,
        }
    }

    /// The name of a name object.
    pub fn as_name(&self) -> (r: Option<&Name>)
        ensures
            match self.sv() {
                SObject::Name(s) => r matches Some(v) && v.0@ == s,
                _ => r is None,
            },
    {
        match self {
            Object::Name(n) => Some(n),
            _ => None,
        }
    }

    /// The items of an array object.
    pub fn as_array(&self) -> (r: Option<&Vec<Object>>)
        ensures
            match self.sv() {
                SObject::Array(s) => r matches Some(v) && objs_sv(v@) == s,
                _ => r is None,
            },
    {
        match self {
            Object::Array(a) => {
                proof {
                    lemma_array_sv(*a);
                }
                Some(a)
            },
            _ => None,
        }
    }

    /// The dictionary of a dictionary object.
    pub fn as_dict(&self) -> (r: Option<&Dict>)
        ensures
            match self.sv() {
                SObject::Dict(s) => r matches Some(v) && v.sv() == s,
                _ => r is None,
            },
    {
        match self {
            Object::Dict(d) => {
                proof {
                    lemma_dict_sv(*d);
                }
                Some(d)
            },
            _ => None,
        }
    }

    /// The stream of a stream object.
    pub fn as_stream(&self) -> (r: Option<&Stream>)
        ensures
            match self.sv() {
                SObject::Stream(s, dt) => r matches Some(v) && v.dict.sv() == s && v.data.sv() == dt,
                _ => r is None,
            },
    {
        match self {
            Object::Stream(s) => {
                proof {
                    lemma_stream_sv(*s);
                }
                Some(s)
            },
            _ => None,
        }
    }

    /// The reference of a reference object.
    pub fn as_objref(&self) -> (r: Option<&ObjRef>)
        ensures
            match self.sv() {
                SObject::Ref(x) => r matches Some(v) && *v == x,
                _ => r is None,
            },
    {
        match self {
            Object::Ref(x) => Some(x),
            _ => None,
        }
    }

    /// The bytes of a string object, by value.
    pub fn into_string(self) -> (r: Option<Vec<u8>>)
        ensures
            match self.sv() {
                SObject::String(s) => r matches Some(v) && v@ == s,
                _ => r is None,
            },
    {
        match self {
            Object::String(s) => Some(s),
            _ => None,
        }
    }

    /// The name of a name object, by value.
    pub fn into_name(self) -> (r: Option<Name>)
        ensures
            match self.sv() {
                SObject::Name(s) => r matches Some(v) && v.0@ == s,
                _ => r is None,
            },
    {
        match self {
            Object::Name(n) => Some(n),
            _ => None,
        }
    }

    /// The items of an array object, by value.
    pub fn into_array(self) -> (r: Option<Vec<Object>>)
        ensures
            match self.sv() {
                SObject::Array(s) => r matches Some(v) && objs_sv(v@) == s,
                _ => r is None,
            },
    {
        match self {
            Object::Array(a) => {
                proof {
                    lemma_array_sv(a);
                }
                Some(a)
            },
            _ => None,
        }
    }

    /// The dictionary of a dictionary object, by value.
    pub fn into_dict(self) -> (r: Option<Dict>)
        ensures
            match self.sv() {
                SObject::Dict(s) => r matches Some(v) && v.sv() == s,
                _ => r is None,
            },
    {
        match self {
            Object::Dict(d) => {
                proof {
                    lemma_dict_sv(d);
                }
                Some(d)
            },
            _ => None,
        }
    }

    /// The stream of a stream object, by value.
    pub fn into_stream(self) -> (r: Option<Stream>)
        ensures
            match self.sv() {
                SObject::Stream(s, dt) => r matches Some(v) && v.dict.sv() == s && v.data.sv() == dt,
                _ => r is None,
            },
    {
        match self {
            Object::Stream(s) => {
                proof {
                    lemma_stream_sv(s);
                }
                Some(s)
            },
            _ => None,
        }
    }

    /// The reference of a reference object, by value.
    pub fn into_objref(self) -> (r: Option<ObjRef>)
        ensures
            match self.sv() {
                SObject::Ref(x) => r == Some(x),
                _ => r is None,
            },
    {
        match self {
            Object::Ref(x) => Some(x),
            _ => None,
        }
    }

    /// For an integer object, its value as a non-negative number; `None` for other objects and
    /// for negative integers.
    pub fn num_value(&self) -> (r: Option<u64>)
        ensures
            r == spec_num_value(self.sv()),
    {
        match self {
            Object::Number(Number::Int(n)) => if *n >= 0 {
                Some(*n as u64)
            } else {
                None
            },
            _ => None,
        }
    }

    /// For an integer object, its value.
    pub fn int_value(&self) -> (r: Option<i64>)
        ensures
            r == (match self.sv() {
                SObject::Int(i) => Some(i),
                _ => None,
            }),
    {
        match self {
            Object::Number(Number::Int(n)) => Some(*n),
            _ => None,
        }
    }

    /// Whether this is the null object.
    pub fn is_null(&self) -> (r: bool)
        ensures
            r == (self.sv() is Null),
    {
        match self {
            Object::Null => true,
            _ => false,
        }
    }
}

/// A copy of a list of objects.
fn duplicate_objs(a: &Vec<Object>) -> (r: Vec<Object>)
    ensures
        objs_sv(r@) == objs_sv(a@),
    decreases a, 1int,
{
    let mut v: Vec<Object> = Vec::new();
    let mut i: usize = 0;
    while i < a.len()
        invariant
            0 <= i <= a.len(),
            v@.len() == i,
            objs_sv(v@) == objs_sv(a@).take(i as int),
        decreases a.len() - i,
    {
        proof {
            assert(decreases_to!(*a => a[i as int]));
        }
        let o = a[i].duplicate();
        let ghost old_v = v@;
        v.push(o);
        assert(v@ == old_v.push(o));
        assert(objs_sv(v@)[i as int] == objs_sv(a@)[i as int]);
        assert(objs_sv(v@) =~= objs_sv(a@).take(i + 1));
        i += 1;
    }
    assert(objs_sv(a@).take(a.len() as int) =~= objs_sv(a@));
    v
}

/// The non-negative integer value of an object, if it is one.
pub open spec fn spec_num_value(o: SObject) -> Option<u64> {
    match o {
        SObject::Int(i) => if i >= 0 {
            Some(i as u64)
        } else {
            None
        },
        _ => None,
    }
}

impl Dict {
    /// Looks up the value for a key; a missing key gives [`Object::Null`] (a copy of the value is
    /// returned).
    pub fn lookup(&self, key: &[u8]) -> (r: Object)
        ensures
            r.sv() == spec_lookup(self.sv(), key@),
    {
        match self.get(key) {
            Some(o) => o.duplicate(),
            None => Object::Null,
        }
    }

    /// The number of entries.
    pub fn len(&self) -> (r: usize)
        ensures
            r == self.sv().len(),
    {
        self.0.len()
    }
}

} // verus!
