use vstd::prelude::*;

use crate::base::object::{lemma_array_sv, lemma_dict_sv, spec_num_value};
use crate::base::{objs_sv, spec_lookup, Dict, Error, ObjRef, Object, SObject};
use crate::codecs::resolve_sobj;
use crate::names::{
    count_bytes, count_key, kids_bytes, kids_key, page_bytes, page_key, pages_bytes, pages_key,
    parent_bytes, parent_key, type_bytes, type_key,
};
use crate::op::obj_result;
use crate::reader::base::{resolver_of, MAX_DEPTH};
use crate::reader::simple::SimpleReader;

verus! {

/// The error for a page number that is zero or past the last page.
pub open spec fn range_error() -> Error {
    Error::Parse("Page number out of range.")
}

/// The error for a document catalog without a page tree.
pub open spec fn pages_error() -> Error {
    Error::Parse("Could not find /Pages.")
}

/// The error for a node of the page tree that cannot be read.
pub open spec fn tree_error() -> Error {
    Error::Parse("Could not read page tree.")
}

/// The error for a kid whose `/Parent` is not the node it was reached from.
pub open spec fn parent_error() -> Error {
    Error::Parse("malformed page tree (/Parent)")
}

/// The error for a kid without a `/Type` name.
pub open spec fn untyped_error() -> Error {
    Error::Parse("malformed page tree")
}

/// The error for a kid whose `/Type` is neither `/Pages` nor `/Page`.
pub open spec fn type_error() -> Error {
    Error::Parse("malformed page tree (/Type)")
}

/// The error for a walk that went on for longer than [`walk_limit`] steps.
pub open spec fn walk_error() -> Error {
    Error::Parse("page tree walk does not end")
}

/// How many steps a walk may take: one more than the number of distinct states it can be in
/// (a node of the table and the number of pages still to skip). A walk that reaches a state
/// a second time never ends.
pub open spec fn walk_limit(entries: nat, num: u64) -> u64 {
    if (entries + 1) * (num + 1) <= u64::MAX {
        ((entries + 1) * (num + 1)) as u64
    } else {
        u64::MAX
    }
}

/// The number of pages under a kid: its `/Count` for `/Pages`, 1 for `/Page`.
pub open spec fn spec_kid_count(node: Seq<(Seq<u8>, SObject)>) -> Result<u64, Error> {
    match spec_lookup(node, type_bytes()) {
        SObject::Name(t) => if t == pages_bytes() {
            match spec_num_value(spec_lookup(node, count_bytes())) {
                Some(c) => Ok(c),
                None => Err(tree_error()),
            }
        } else if t == page_bytes() {
            Ok(1)
        } else {
            Err(type_error())
        },
        _ => Err(untyped_error()),
    }
}

/// One pass over the kids of the node `cur`, from kid `i` on, skipping `num` pages: the kid
/// (its reference, its dictionary, its count and the number of pages still to skip in it) that
/// holds the page, or the number of pages still to skip after the last kid.
pub open spec fn spec_scan(
    rs: spec_fn(ObjRef) -> Result<SObject, Error>,
    cur: ObjRef,
    kids: Seq<SObject>,
    i: int,
    num: u64,
) -> Result<Result<(ObjRef, Seq<(Seq<u8>, SObject)>, u64, u64), u64>, Error>
    decreases kids.len() - i,
{
    if i < 0 || i >= kids.len() {
        Ok(Err(num))
    } else {
        match kids[i] {
            SObject::Ref(r) => match rs(r) {
                Err(e) => Err(e),
                Ok(SObject::Dict(n)) => if spec_lookup(n, parent_bytes()) != SObject::Ref(cur) {
                    Err(parent_error())
                } else {
                    match spec_kid_count(n) {
                        Err(e) => Err(e),
                        Ok(c) => if c > num {
                            Ok(Ok((r, n, c, num)))
                        } else {
                            spec_scan(rs, cur, kids, i + 1, (num - c) as u64)
                        },
                    }
                },
                Ok(_) => Err(tree_error()),
            },
            _ => Err(tree_error()),
        }
    }
}

/// The walk down the page tree from the node `cur` (with dictionary `node` holding `count`
/// pages) to the page that has `num` pages before it, in at most `fuel` steps. A node whose
/// `/Kids` are as many as its count holds pages only, and the page is picked directly;
/// otherwise the kids are passed over until one holds the page, and the walk goes on there, or
/// from the same node with fewer pages to skip.
#[verifier::opaque]
pub open spec fn spec_walk(
    rs: spec_fn(ObjRef) -> Result<SObject, Error>,
    cur: ObjRef,
    node: Seq<(Seq<u8>, SObject)>,
    count: u64,
    num: u64,
    fuel: nat,
) -> Result<ObjRef, Error>
    decreases fuel,
{
    if fuel == 0 {
        Err(walk_error())
    } else if num >= count {
        Err(range_error())
    } else {
        match resolve_sobj(spec_lookup(node, kids_bytes()), rs) {
            Err(e) => Err(e),
            Ok(SObject::Array(kids)) => if kids.len() == count {
                match kids[num as int] {
                    SObject::Ref(r) => Ok(r),
                    _ => Err(tree_error()),
                }
            } else {
                match spec_scan(rs, cur, kids, 0, num) {
                    Err(e) => Err(e),
                    Ok(Ok((r, n, c, left))) => spec_walk(rs, r, n, c, left, (fuel - 1) as nat),
                    Ok(Err(left)) => spec_walk(rs, cur, node, count, left, (fuel - 1) as nat),
                }
            },
            Ok(_) => Err(tree_error()),
        }
    }
}

/// The reference of page `page_num` (counted from 1) of the document whose catalog is `root`,
/// with references resolved by `rs` and a table of `entries` entries.
pub open spec fn spec_find_page(
    rs: spec_fn(ObjRef) -> Result<SObject, Error>,
    root: Seq<(Seq<u8>, SObject)>,
    page_num: usize,
    entries: nat,
) -> Result<ObjRef, Error> {
    if page_num == 0 {
        Err(range_error())
    } else {
        let num = (page_num - 1) as u64;
        match spec_lookup(root, pages_bytes()) {
            SObject::Ref(r) => match rs(r) {
                Err(e) => Err(e),
                Ok(SObject::Dict(node)) => match spec_num_value(spec_lookup(node, count_bytes())) {
                    Some(count) => spec_walk(rs, r, node, count, num, walk_limit(entries, num) as nat),
                    None => Err(tree_error()),
                },
                Ok(_) => Err(pages_error()),
            },
            _ => Err(pages_error()),
        }
    }
}

/// The number of pages under a kid (see [`spec_kid_count`]).
fn kid_count(node: &Dict) -> (r: Result<u64, Error>)
    ensures
        r == spec_kid_count(node.sv()),
{
    match node.lookup(&type_key()) {
        Object::Name(t) => {
            if crate::base::object::bytes_eq(t.0.as_slice(), &pages_key()) {
                match node.lookup(&count_key()).num_value() {
                    Some(c) => Ok(c),
                    None => Err(Error::Parse("Could not read page tree.")),
                }
            } else if crate::base::object::bytes_eq(t.0.as_slice(), &page_key()) {
                Ok(1)
            } else {
                Err(Error::Parse("malformed page tree (/Type)"))
            }
        },
        _ => Err(Error::Parse("malformed page tree")),
    }
}

/// The value of the outcome of a pass over the kids.
pub open spec fn scan_view(r: Result<Result<(ObjRef, Dict, u64, u64), u64>, Error>) -> Result<
    Result<(ObjRef, Seq<(Seq<u8>, SObject)>, u64, u64), u64>,
    Error,
> {
    match r {
        Ok(Ok((x, d, c, m))) => Ok(Ok((x, d.sv(), c, m))),
        Ok(Err(n)) => Ok(Err(n)),
        Err(e) => Err(e),
    }
}

/// One pass over the kids of `cur` (see [`spec_scan`]).
fn scan_kids(reader: &mut SimpleReader, cur: ObjRef, kids: &Vec<Object>, num: u64) -> (r: Result<
    Result<(ObjRef, Dict, u64, u64), u64>,
    Error,
>)
    requires
        old(reader).wf(),
    ensures
        final(reader).wf(),
        final(reader).sdata() == old(reader).sdata(),
        final(reader).sstart() == old(reader).sstart(),
        final(reader).sxref() == old(reader).sxref(),
        final(reader).slocate() == old(reader).slocate(),
        scan_view(r) == spec_scan(
            resolver_of(old(reader).sdata(), old(reader).sstart(), old(reader).slocate(), MAX_DEPTH as nat),
            cur,
            objs_sv(kids@),
            0,
            num,
        ),
{
    let ghost rs = resolver_of(reader.sdata(), reader.sstart(), reader.slocate(), MAX_DEPTH as nat);
    let ghost sk = objs_sv(kids@);
    let mut i: usize = 0;
    let mut left = num;
    while i < kids.len()
        invariant
            0 <= i <= kids.len(),
            sk == objs_sv(kids@),
            reader.wf(),
            reader.sdata() == old(reader).sdata(),
            reader.sstart() == old(reader).sstart(),
            reader.sxref() == old(reader).sxref(),
            reader.slocate() == old(reader).slocate(),
            rs == resolver_of(old(reader).sdata(), old(reader).sstart(), old(reader).slocate(), MAX_DEPTH as nat),
            spec_scan(rs, cur, sk, i as int, left) == spec_scan(rs, cur, sk, 0, num),
        decreases kids.len() - i,
    {
        let r = match &kids[i] {
            Object::Ref(x) => *x,
            _ => return Err(Error::Parse("Could not read page tree.")),
        };
        let node = match reader.resolve_ref(&r) {
            Err(e) => return Err(e),
            Ok(Object::Dict(d)) => {
                proof {
                    lemma_dict_sv(d);
                }
                d
            },
            Ok(_) => return Err(Error::Parse("Could not read page tree.")),
        };
        let parent_ok = match node.lookup(&parent_key()) {
            Object::Ref(p) => p == cur,
            _ => false,
        };
        if !parent_ok {
            return Err(Error::Parse("malformed page tree (/Parent)"));
        }
        let c = match kid_count(&node) {
            Ok(c) => c,
            Err(e) => return Err(e),
        };
        if c > left {
            return Ok(Ok((r, node, c, left)));
        }
        left = left - c;
        i += 1;
    }
    Ok(Err(left))
}

/// What one step of the walk gives: the end of the walk, or the node and the number of pages
/// to skip where it goes on.
#[verifier::opaque]
pub open spec fn spec_walk_step(
    rs: spec_fn(ObjRef) -> Result<SObject, Error>,
    cur: ObjRef,
    node: Seq<(Seq<u8>, SObject)>,
    count: u64,
    num: u64,
) -> Result<Result<ObjRef, Error>, (ObjRef, Seq<(Seq<u8>, SObject)>, u64, u64)> {
    if num >= count {
        Ok(Err(range_error()))
    } else {
        match resolve_sobj(spec_lookup(node, kids_bytes()), rs) {
            Err(e) => Ok(Err(e)),
            Ok(SObject::Array(kids)) => if kids.len() == count {
                match kids[num as int] {
                    SObject::Ref(r) => Ok(Ok(r)),
                    _ => Ok(Err(tree_error())),
                }
            } else {
                match spec_scan(rs, cur, kids, 0, num) {
                    Err(e) => Ok(Err(e)),
                    Ok(Ok((r, n, c, left))) => Err((r, n, c, left)),
                    Ok(Err(left)) => Err((cur, node, count, left)),
                }
            },
            Ok(_) => Ok(Err(tree_error())),
        }
    }
}

/// A walk with fuel left is its first step, then the rest of the walk.
proof fn lemma_walk_unfold(
    rs: spec_fn(ObjRef) -> Result<SObject, Error>,
    cur: ObjRef,
    node: Seq<(Seq<u8>, SObject)>,
    count: u64,
    num: u64,
    fuel: nat,
)
    ensures
        fuel == 0 ==> spec_walk(rs, cur, node, count, num, fuel) == Err::<ObjRef, Error>(walk_error()),
        fuel > 0 ==> spec_walk(rs, cur, node, count, num, fuel) == match spec_walk_step(rs, cur, node, count, num) {
            Ok(r) => r,
            Err((c2, n2, k2, m2)) => spec_walk(rs, c2, n2, k2, m2, (fuel - 1) as nat),
        },
{
    reveal(spec_walk);
    reveal(spec_walk_step);
}

/// The value of a walk step's outcome.
pub open spec fn step_view(r: Result<Result<ObjRef, Error>, (ObjRef, Dict, u64, u64)>) -> Result<
    Result<ObjRef, Error>,
    (ObjRef, Seq<(Seq<u8>, SObject)>, u64, u64),
> {
    match r {
        Ok(x) => Ok(x),
        Err((c, d, k, m)) => Err((c, d.sv(), k, m)),
    }
}

/// One step of the walk (see [`spec_walk_step`]).
fn walk_step(reader: &mut SimpleReader, cur: ObjRef, node: Dict, count: u64, num: u64) -> (r: Result<
    Result<ObjRef, Error>,
    (ObjRef, Dict, u64, u64),
>)
    requires
        old(reader).wf(),
    ensures
        final(reader).wf(),
        final(reader).sdata() == old(reader).sdata(),
        final(reader).sstart() == old(reader).sstart(),
        final(reader).sxref() == old(reader).sxref(),
        final(reader).slocate() == old(reader).slocate(),
        step_view(r) == spec_walk_step(
            resolver_of(old(reader).sdata(), old(reader).sstart(), old(reader).slocate(), MAX_DEPTH as nat),
            cur,
            node.sv(),
            count,
            num,
        ),
{
    reveal(spec_walk_step);
    if num >= count {
        return Ok(Err(Error::Parse("Page number out of range.")));
    }
    let kids = match reader.resolve_obj(node.lookup(&kids_key())) {
        Err(e) => return Ok(Err(e)),
        Ok(Object::Array(k)) => {
            proof {
                lemma_array_sv(k);
            }
            k
        },
        Ok(_) => return Ok(Err(Error::Parse("Could not read page tree."))),
    };
    if kids.len() as u64 == count {
        assert(objs_sv(kids@)[num as int] == kids@[num as int].sv());
        return match &kids[num as usize] {
            Object::Ref(x) => Ok(Ok(*x)),
            _ => Ok(Err(Error::Parse("Could not read page tree."))),
        };
    }
    match scan_kids(reader, cur, &kids, num) {
        Err(e) => Ok(Err(e)),
        Ok(Ok((x, d, c, m))) => Err((x, d, c, m)),
        Ok(Err(left)) => Err((cur, node, count, left)),
    }
}

/// The page walk from the node `cur` (see [`spec_walk`]).
fn walk(reader: &mut SimpleReader, cur: ObjRef, node: Dict, count: u64, num: u64, fuel: u64) -> (r:
    Result<ObjRef, Error>)
    requires
        old(reader).wf(),
    ensures
        final(reader).wf(),
        final(reader).sdata() == old(reader).sdata(),
        final(reader).sstart() == old(reader).sstart(),
        final(reader).sxref() == old(reader).sxref(),
        final(reader).slocate() == old(reader).slocate(),
        r == spec_walk(
            resolver_of(old(reader).sdata(), old(reader).sstart(), old(reader).slocate(), MAX_DEPTH as nat),
            cur,
            node.sv(),
            count,
            num,
            fuel as nat,
        ),
{
    let ghost rs = resolver_of(reader.sdata(), reader.sstart(), reader.slocate(), MAX_DEPTH as nat);
    let ghost goal = spec_walk(rs, cur, node.sv(), count, num, fuel as nat);
    let mut c = cur;
    let mut n = node;
    let mut k = count;
    let mut m = num;
    let mut f = fuel;
    loop
        invariant
            reader.wf(),
            reader.sdata() == old(reader).sdata(),
            reader.sstart() == old(reader).sstart(),
            reader.sxref() == old(reader).sxref(),
            reader.slocate() == old(reader).slocate(),
            rs == resolver_of(old(reader).sdata(), old(reader).sstart(), old(reader).slocate(), MAX_DEPTH as nat),
            goal == spec_walk(rs, cur, node.sv(), count, num, fuel as nat),
            spec_walk(rs, c, n.sv(), k, m, f as nat) == goal,
        decreases f,
    {
        if f == 0 {
            proof {
                lemma_walk_unfold(rs, c, n.sv(), k, m, 0);
            }
            return Err(Error::Parse("page tree walk does not end"));
        }
        proof {
            lemma_walk_unfold(rs, c, n.sv(), k, m, f as nat);
        }
        match walk_step(reader, c, n, k, m) {
            Ok(r) => return r,
            Err((c2, n2, k2, m2)) => {
                c = c2;
                n = n2;
                k = k2;
                m = m2;
            },
        }
        f = f - 1;
    }
}

/// The step limit of a walk (see [`walk_limit`]).
fn walk_limit_of(entries: usize, num: u64) -> (r: u64)
    ensures
        r == walk_limit(entries as nat, num),
{
    let n = entries as u64;
    let ghost e: nat = entries as nat;
    assert((e + 1) * (num + 1) >= e + 1 && (e + 1) * (num + 1) >= num + 1) by (nonlinear_arith);
    match n.checked_add(1) {
        None => u64::MAX,
        Some(a) => match num.checked_add(1) {
            None => u64::MAX,
            Some(b) => match a.checked_mul(b) {
                None => u64::MAX,
                Some(p) => p,
            },
        },
    }
}

/// Finds the reference of page `page_num` (counted from 1) in the page tree of the document
/// catalog `root` (see [`spec_find_page`]).
pub fn find_page(reader: &mut SimpleReader, root: &Dict, page_num: usize) -> (r: Result<ObjRef, Error>)
    requires
        old(reader).wf(),
    ensures
        final(reader).wf(),
        final(reader).sdata() == old(reader).sdata(),
        final(reader).sstart() == old(reader).sstart(),
        final(reader).sxref() == old(reader).sxref(),
        final(reader).slocate() == old(reader).slocate(),
        r == spec_find_page(
            resolver_of(old(reader).sdata(), old(reader).sstart(), old(reader).slocate(), MAX_DEPTH as nat),
            root.sv(),
            page_num,
            old(reader).sxref().map.len(),
        ),
{
    if page_num == 0 {
        return Err(Error::Parse("Page number out of range."));
    }
    let num = (page_num - 1) as u64;
    let entries = reader.entry_count();
    let limit = walk_limit_of(entries, num);
    let cur = match root.lookup(&pages_key()) {
        Object::Ref(x) => x,
        _ => return Err(Error::Parse("Could not find /Pages.")),
    };
    let node = match reader.resolve_ref(&cur) {
        Err(e) => return Err(e),
        Ok(Object::Dict(d)) => {
            proof {
                lemma_dict_sv(d);
            }
            d
        },
        Ok(_) => return Err(Error::Parse("Could not find /Pages.")),
    };
    let count = match node.lookup(&count_key()).num_value() {
        Some(c) => c,
        None => return Err(Error::Parse("Could not read page tree.")),
    };
    walk(reader, cur, node, count, num, limit)
}

} // verus!
