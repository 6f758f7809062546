use std::collections::BTreeMap;
use vstd::prelude::*;

use crate::base::{
    Resolver, default_record, eof, spec_lookup, Data, Dict, Error, Header, IoError, ObjRef, Object, Offset,
    Record, SData, SObject, SXRef, Stream, XRef, XRefType,
};
use crate::base::object::spec_num_value;
use crate::codecs::SFilter;
use crate::bp::{bytes_result, rest_of, spec_read_line, subslice_to_vec, ByteProvider, CR, LF};
use crate::names::{startxref_bytes, startxref_key};
use crate::tk::{spec_read_eol, spec_read_token, ws_end};
use crate::utils::{is_digit, parse_num, spec_parse_u16, spec_parse_u64};

verus! {

/// `%PDF-`
pub open spec fn header_magic() -> Seq<u8> {
    seq![0x25u8, 0x50u8, 0x44u8, 0x46u8, 0x2Du8]
}

/// Whether a full header `%PDF-M.m` (with decimal digits `M`, `m`) starts at `i`.
pub open spec fn header_at(d: Seq<u8>, i: int) -> bool {
    0 <= i && i + 8 <= d.len() && d.subrange(i, i + 5) == header_magic() && is_digit(d[i + 5])
        && d[i + 6] == 0x2E && is_digit(d[i + 7])
}

/// The first header at or after `i`.
pub open spec fn find_header_from(d: Seq<u8>, i: int) -> Option<Header>
    decreases d.len() - i,
{
    if i < 0 || i + 8 > d.len() {
        None
    } else if header_at(d, i) {
        Some(
            Header {
                start: i as u64,
                version: ((d[i + 5] - 0x30) as u8, (d[i + 7] - 0x30) as u8),
            },
        )
    } else {
        find_header_from(d, i + 1)
    }
}

/// Locating the header in the data: data shorter than a header cannot be read; otherwise the
/// first header found, if any.
pub open spec fn spec_find_header(d: Seq<u8>) -> Result<Header, Error> {
    if d.len() < 8 {
        Err(eof())
    } else {
        match find_header_from(d, 0) {
            Some(h) => Ok(h),
            None => Err(Error::Parse("header not found")),
        }
    }
}

/// The last position `j <= i` where `startxref` starts in `t`, if any.
pub open spec fn last_startxref(t: Seq<u8>, i: int) -> Option<int>
    decreases i + 1,
{
    if i < 0 {
        None
    } else if i + 9 <= t.len() && t.subrange(i, i + 9) == startxref_bytes() {
        Some(i)
    } else {
        last_startxref(t, i - 1)
    }
}

/// The last (at most) 1024 bytes of the data.
pub open spec fn tail_1024(d: Seq<u8>) -> Seq<u8> {
    if d.len() <= 1024 {
        d
    } else {
        d.subrange(d.len() - 1024, d.len() as int)
    }
}

/// Finding the cross-reference entry point: the last `startxref` within the last 1024 bytes,
/// an end-of-line marker, and a line holding the offset.
pub open spec fn spec_entrypoint(d: Seq<u8>) -> Result<Offset, Error> {
    let t = tail_1024(d);
    match last_startxref(t, t.len() - 9) {
        None => Err(Error::Parse("startxref not found")),
        Some(j) => {
            let rest = t.subrange(j + 9, t.len() as int);
            match spec_read_eol(rest, 0) {
                (Err(e), _) => Err(e),
                (Ok(_), p) => match spec_read_line(rest, p, false) {
                    (Err(e), _) => Err(e),
                    (Ok(line), _) => match spec_parse_u64(line) {
                        Some(v) => Ok(v),
                        None => Err(Error::Parse("malformed startxref")),
                    },
                },
            }
        },
    }
}

/// The last position where `startxref` starts in `t` (see [`last_startxref`]).
fn find_last_startxref(t: &[u8]) -> (r: Option<usize>)
    ensures
        r is None <==> last_startxref(t@, t@.len() - 9) is None,
        r matches Some(j) ==> last_startxref(t@, t@.len() - 9) == Some(j as int) && j + 9
            <= t.len(),
{
    let key = startxref_key();
    if t.len() < 9 {
        return None;
    }
    let mut j: usize = t.len() - 9 + 1;
    while j > 0
        invariant
            t.len() >= 9,
            j <= t.len() - 9 + 1,
            key@ == startxref_bytes(),
            last_startxref(t@, t@.len() - 9) == last_startxref(t@, j - 1),
        decreases j,
    {
        let k = j - 1;
        if crate::bp::matches_at(t, k, &key) {
            return Some(k);
        }
        j = k;
    }
    None
}

/// The main interface to file-level PDF parsing, over the whole data of a file.
pub struct FileParser {
    bytes: ByteProvider,
    header: Result<Header, Error>,
}

impl FileParser {
    /// The data of the file.
    pub closed spec fn sdata(&self) -> Seq<u8> {
        self.bytes.sdata()
    }

    /// The result of locating the header.
    pub closed spec fn sheader(&self) -> Result<Header, Error> {
        self.header
    }

    /// The offset that positions of the file are relative to: where `%PDF` starts, or 0 when
    /// no header was found.
    pub open spec fn sstart(&self) -> u64 {
        match self.sheader() {
            Ok(h) => h.start,
            Err(_) => 0,
        }
    }

    /// Creates a parser over the data of a file, locating the PDF header and with it the PDF
    /// version and the offset that positions are relative to.
    pub fn new(data: Vec<u8>) -> (r: FileParser)
        ensures
            r.sdata() == data@,
            r.sheader() == spec_find_header(data@),
    {
        let header = Self::find_header(data.as_slice());
        FileParser { bytes: ByteProvider::new(data), header }
    }

    /// Locates the header (see [`spec_find_header`]).
    fn find_header(d: &[u8]) -> (r: Result<Header, Error>)
        ensures
            r == spec_find_header(d@),
    {
        let n = d.len();
        if n < 8 {
            return Err(Error::IO(IoError::UnexpectedEof));
        }
        let mut i: usize = 0;
        while i <= n - 8
            invariant
                n == d@.len(),
                8 <= n,
                i <= n - 7,
                find_header_from(d@, 0) == find_header_from(d@, i as int),
            decreases n - i,
        {
            if d[i] == 0x25 && d[i + 1] == 0x50 && d[i + 2] == 0x44 && d[i + 3] == 0x46 && d[i + 4]
                == 0x2D && 0x30 <= d[i + 5] && d[i + 5] <= 0x39 && d[i + 6] == 0x2E && 0x30
                <= d[i + 7] && d[i + 7] <= 0x39 {
                assert(d@.subrange(i as int, i + 5) =~= header_magic());
                return Ok(Header { start: i as u64, version: (d[i + 5] - 0x30, d[i + 7] - 0x30) });
            }
            assert(!header_at(d@, i as int));
            i += 1;
        }
        Err(Error::Parse("header not found"))
    }

    /// The offset that positions are relative to (see [`FileParser::sstart`]).
    pub fn start(&self) -> (r: Offset)
        ensures
            r == self.sstart(),
    {
        match &self.header {
            Ok(h) => h.start,
            Err(_) => 0,
        }
    }

    /// The result of locating the PDF header when the parser was made.
    pub fn header(&self) -> (r: &Result<Header, Error>)
        ensures
            *r == self.sheader(),
    {
        &self.header
    }

    /// The raw data from the given position (relative to the start of the data) on.
    pub fn read_raw(&self, pos: Offset) -> (r: &[u8])
        ensures
            r@ == rest_of(self.sdata(), pos as int),
    {
        let d = self.bytes.data();
        if pos < d.len() as u64 {
            assert(d@.subrange(pos as int, d@.len() as int) =~= rest_of(self.sdata(), pos as int));
            crate::bp::slice_from(d, pos as usize)
        } else {
            assert(rest_of(self.sdata(), pos as int) =~= Seq::<u8>::empty());
            crate::bp::slice_from(d, d.len())
        }
    }

    /// Locates the cross-reference entry point, `startxref` (see [`spec_entrypoint`]); the last
    /// 1024 bytes of the data are inspected.
    pub fn entrypoint(&self) -> (r: Result<Offset, Error>)
        ensures
            r == spec_entrypoint(self.sdata()),
    {
        let d = self.bytes.data();
        let n = d.len();
        let b = if n < 1024 { n } else { 1024 };
        let t = subslice_to_vec(d, n - b, n);
        assert(t@ =~= tail_1024(d@));
        let j = match find_last_startxref(t.as_slice()) {
            Some(j) => j,
            None => return Err(Error::Parse("startxref not found")),
        };
        let rest = subslice_to_vec(t.as_slice(), j + 9, t.len());
        let mut cur = ByteProvider::new(rest);
        cur.read_eol()?;
        let line = cur.read_line_excl()?;
        match parse_num(line.as_slice()) {
            Some(v) => Ok(v),
            None => Err(Error::Parse("malformed startxref")),
        }
    }
}

} // verus!

verus! {

/// A top-level structure of a PDF file: an indirect object or a cross-reference table section.
#[derive(Debug)]
pub enum TLO {
    IndirObject(ObjRef, Object),
    XRef(XRef),
}

/// The value of a top-level structure.
pub enum STLO {
    IndirObject(ObjRef, SObject),
    XRef(SXRef),
}

/// A top-level structure result viewed as a value result.
pub open spec fn tlo_result(r: Result<TLO, Error>) -> Result<STLO, Error> {
    match r {
        Ok(TLO::IndirObject(o, x)) => Ok(STLO::IndirObject(o, x.sv())),
        Ok(TLO::XRef(x)) => Ok(STLO::XRef(x.sv())),
        Err(e) => Err(e),
    }
}

/// The error of a malformed cross-reference table.
pub open spec fn malformed_xref_table() -> Error {
    Error::Parse("malformed xref table")
}

/// The record of a 20-byte cross-reference table line, if it is well-formed: a 10-digit
/// number, a space, a 5-digit generation, a space, and `n` (in use) or `f` (free).
pub open spec fn spec_xref_line(line: Seq<u8>) -> Option<Record> {
    if line.len() != 20 || line[10] != 0x20 || line[16] != 0x20 {
        None
    } else {
        match (spec_parse_u64(line.subrange(0, 10)), spec_parse_u16(line.subrange(11, 16))) {
            (Some(v), Some(gen)) => if line[17] == 0x6E {
                Some(Record::Used { gen, offset: v })
            } else if line[17] == 0x66 {
                Some(Record::Free { gen, next: v })
            } else {
                None
            },
            _ => None,
        }
    }
}

/// Reading `count` lines of a table subsection at `p`, for numbers from `num` on, into `m`; a
/// number already present keeps its record.
pub open spec fn spec_xref_lines(d: Seq<u8>, p: int, num: int, count: int, m: Map<u64, Record>) -> (
    Result<Map<u64, Record>, Error>,
    int,
)
    decreases count,
{
    if count <= 0 {
        (Ok(m), p)
    } else if p < 0 || p + 20 > d.len() {
        (Err(eof()), d.len() as int)
    } else {
        match spec_xref_line(d.subrange(p, p + 20)) {
            None => (Err(malformed_xref_table()), p + 20),
            Some(rec) => {
                let m2 = if m.contains_key(num as u64) {
                    m
                } else {
                    m.insert(num as u64, rec)
                };
                spec_xref_lines(d, p + 20, num + 1, count - 1, m2)
            },
        }
    }
}

/// Reading the subsections of a table at `p` up to the keyword `trailer`, into `m`.
pub open spec fn spec_xref_sections(d: Seq<u8>, p: int, m: Map<u64, Record>) -> (
    Result<Map<u64, Record>, Error>,
    int,
)
    decreases d.len() - p,
{
    match spec_read_token(d, p) {
        (Err(e), p1) => (Err(e), p1),
        (Ok(t), p1) => if t == crate::kw::kw_trailer() {
            (Ok(m), p1)
        } else {
            match spec_parse_u64(t) {
                None => (Err(malformed_xref_table()), p1),
                Some(start) => match spec_read_token(d, p1) {
                    (Err(e), p2) => (Err(e), p2),
                    (Ok(t2), p2) => match spec_parse_u64(t2) {
                        None => (Err(malformed_xref_table()), p2),
                        Some(size) => if start + size > u64::MAX {
                            (Err(malformed_xref_table()), p2)
                        } else {
                            match spec_xref_lines(d, ws_end(d, p2, false), start as int, size as int, m) {
                                (Err(e), q) => (Err(e), q),
                                (Ok(m2), q) => if p < q <= d.len() {
                                    spec_xref_sections(d, q, m2)
                                } else {
                                    (Err(eof()), q)
                                },
                            }
                        },
                    },
                },
            }
        },
    }
}

/// Reading a classical table at `p` (just after `xref` and its end of line): the subsections,
/// then the trailer dictionary, whose `/Size` is required.
pub open spec fn spec_read_xref_table(d: Seq<u8>, p: int) -> Result<SXRef, Error> {
    match spec_xref_sections(d, p, Map::empty()) {
        (Err(e), _) => Err(e),
        (Ok(m), q) => match crate::op::spec_obj(d, q) {
            (Err(e), _) => Err(e),
            (Ok(SObject::Dict(t)), _) => match spec_num_value(
                spec_lookup(t, crate::names::size_bytes()),
            ) {
                None => Err(Error::Parse("malformed trailer (missing /Size)")),
                Some(sz) => Ok(SXRef { tpe: XRefType::Table, map: m, dict: t, size: sz }),
            },
            (Ok(_), _) => Err(Error::Parse("malformed trailer")),
        },
    }
}

/// The error of a `stream` keyword without a proper end of line after it.
pub open spec fn stream_eol_error() -> Error {
    Error::Parse("stream keyword not followed by proper EOL")
}

/// The position of stream data after the `stream` keyword at `p`: after LF or CR LF.
pub open spec fn spec_stream_start(d: Seq<u8>, p: int) -> Result<int, Error> {
    if !(0 <= p < d.len()) {
        Err(eof())
    } else if d[p] == LF {
        Ok(p + 1)
    } else if d[p] != CR {
        Err(stream_eol_error())
    } else if p + 1 >= d.len() {
        Err(eof())
    } else if d[p + 1] == LF {
        Ok(p + 2)
    } else {
        Err(stream_eol_error())
    }
}

/// Reading a top-level structure at the absolute position `p`: an `xref` table, or an
/// indirect object `num gen obj ... endobj`, where a dictionary followed by `stream` makes a
/// stream whose data starts after the end of line.
pub open spec fn spec_read_at(d: Seq<u8>, p: int) -> Result<STLO, Error> {
    match spec_read_token(d, p) {
        (Err(e), _) => Err(e),
        (Ok(t), p1) => if t == crate::kw::kw_xref() {
            match spec_read_eol(d, p1) {
                (Err(e), _) => Err(e),
                (Ok(_), p2) => match spec_read_xref_table(d, p2) {
                    Ok(x) => Ok(STLO::XRef(x)),
                    Err(e) => Err(e),
                },
            }
        } else if !crate::utils::strict_int_start(t) || spec_parse_u64(t) is None {
            Err(Error::Parse("invalid object number"))
        } else {
            let num = spec_parse_u64(t)->0;
            match spec_read_token(d, p1) {
                (Err(e), _) => Err(e),
                (Ok(t2), p2) => if !crate::utils::strict_int_start(t2) || crate::utils::spec_parse_u16(
                    t2,
                ) is None {
                    Err(Error::Parse("invalid generation number"))
                } else {
                    let oref = ObjRef { num, gen: crate::utils::spec_parse_u16(t2)->0 };
                    match spec_read_token(d, p2) {
                        (Err(e), _) => Err(e),
                        (Ok(t3), p3) => if t3 != crate::kw::kw_obj() {
                            Err(Error::Parse("unexpected token"))
                        } else {
                            match crate::op::spec_obj(d, p3) {
                                (Err(e), _) => Err(e),
                                (Ok(o), p4) => match spec_read_token(d, p4) {
                                    (Err(e), _) => Err(e),
                                    (Ok(t4), p5) => if t4 == crate::kw::kw_endobj() {
                                        Ok(STLO::IndirObject(oref, o))
                                    } else if t4 == crate::kw::kw_stream() {
                                        match o {
                                            SObject::Dict(dt) => match spec_stream_start(d, p5) {
                                                Err(e) => Err(e),
                                                Ok(s) => Ok(
                                                    STLO::IndirObject(
                                                        oref,
                                                        SObject::Stream(dt, SData::Ref(s as u64)),
                                                    ),
                                                ),
                                            },
                                            _ => Err(Error::Parse("endobj not found")),
                                        }
                                    } else {
                                        Err(Error::Parse("endobj not found"))
                                    },
                                },
                            }
                        },
                    }
                },
            }
        },
    }
}

impl FileParser {
    /// Reads the lines of a table subsection (see [`spec_xref_lines`]).
    fn read_xref_lines(&mut self, start: u64, size: u64, map: &mut BTreeMap<u64, Record>) -> (r:
        Result<(), Error>)
        requires
            start + size <= u64::MAX,
        ensures
            final(self).sdata() == old(self).sdata(),
            final(self).sheader() == old(self).sheader(),
            ({
                let (res, q) = spec_xref_lines(
                    old(self).sdata(),
                    old(self).bytes.spos(),
                    start as int,
                    size as int,
                    old(map)@,
                );
                match res {
                    Ok(m) => r is Ok && final(map)@ == m && final(self).bytes.spos() == q,
                    Err(e) => r == Err::<(), Error>(e),
                }
            }),
    {
        let n = self.bytes.len();
        let mut num: u64 = start;
        let end = start + size;
        while num < end
            invariant
                self.sdata() == old(self).sdata(),
                self.sheader() == old(self).sheader(),
                n == self.sdata().len(),
                start <= num <= end,
                end == start + size,
                spec_xref_lines(
                    old(self).sdata(),
                    old(self).bytes.spos(),
                    start as int,
                    size as int,
                    old(map)@,
                ) == spec_xref_lines(self.sdata(), self.bytes.spos(), num as int, (end - num) as int, map@),
            decreases end - num,
        {
            let p = self.bytes.pos();
            if p > n || n - p < 20 {
                return Err(Error::IO(IoError::UnexpectedEof));
            }
            let line = self.bytes.read_exact(20)?;
            assert(line@ == self.sdata().subrange(p as int, p + 20));
            if line[10] != 0x20 || line[16] != 0x20 {
                return Err(Error::Parse("malformed xref table"));
            }
            let v = match parse_num(crate::bp::slice_to(line.as_slice(), 10)) {
                Some(v) => v,
                None => return Err(Error::Parse("malformed xref table")),
            };
            let l16 = subslice_to_vec(line.as_slice(), 11, 16);
            let gen = match crate::utils::parse_num_u16(l16.as_slice()) {
                Some(g) => g,
                None => return Err(Error::Parse("malformed xref table")),
            };
            let rec = if line[17] == 0x6E {
                Record::Used { gen, offset: v }
            } else if line[17] == 0x66 {
                Record::Free { gen, next: v }
            } else {
                return Err(Error::Parse("malformed xref table"));
            };
            assert(spec_xref_line(line@) == Some(rec));
            if !map.contains_key(&num) {
                map.insert(num, rec);
            }
            num = num + 1;
        }
        Ok(())
    }

    /// Reads a classical table just after `xref` and its end of line (see
    /// [`spec_read_xref_table`]).
    fn read_xref_table(&mut self) -> (r: Result<XRef, Error>)
        ensures
            final(self).sdata() == old(self).sdata(),
            final(self).sheader() == old(self).sheader(),
            crate::base::xref_result(r) == spec_read_xref_table(old(self).sdata(), old(self).bytes.spos()),
    {
        let mut map: BTreeMap<u64, Record> = BTreeMap::new();
        let n = self.bytes.len();
        let ghost d = self.sdata();
        loop
            invariant_except_break
                spec_xref_sections(d, old(self).bytes.spos(), Map::empty()) == spec_xref_sections(
                    d,
                    self.bytes.spos(),
                    map@,
                ),
            invariant
                self.sdata() == d,
                d == old(self).sdata(),
                self.sheader() == old(self).sheader(),
                n == d.len(),
            ensures
                spec_xref_sections(d, old(self).bytes.spos(), Map::empty()) == (
                    Ok::<Map<u64, Record>, Error>(map@),
                    self.bytes.spos(),
                ),
            decreases n - self.bytes.spos(),
        {
            let p = self.bytes.pos();
            proof {
                crate::tk::lemma_read_token_progress(d, p as int);
            }
            let tk = self.bytes.read_token()?;
            if crate::kw::is_trailer(tk.as_slice()) {
                break;
            }
            let start = match parse_num(tk.as_slice()) {
                Some(s) => s,
                None => return Err(Error::Parse("malformed xref table")),
            };
            let p1 = self.bytes.pos();
            proof {
                crate::tk::lemma_read_token_progress(d, p1 as int);
            }
            let tk2 = self.bytes.read_token()?;
            let size = match parse_num(tk2.as_slice()) {
                Some(s) => s,
                None => return Err(Error::Parse("malformed xref table")),
            };
            if size > u64::MAX - start {
                return Err(Error::Parse("malformed xref table"));
            }
            let _ = self.bytes.skip_ws();
            self.read_xref_lines(start, size, &mut map)?;
            let q = self.bytes.pos();
            if !(p < q && q <= n) {
                return Err(Error::IO(IoError::UnexpectedEof));
            }
        }
        let ghost q = self.bytes.spos();
        let trailer = match crate::op::read_obj_from(&mut self.bytes)? {
            Object::Dict(dict) => dict,
            _ => return Err(Error::Parse("malformed trailer")),
        };
        proof {
            crate::base::object::lemma_dict_sv(trailer);
        }
        let sk = crate::names::size_key();
        let size = match trailer.lookup(&sk).num_value() {
            Some(s) => s,
            None => return Err(Error::Parse("malformed trailer (missing /Size)")),
        };
        Ok(XRef { tpe: XRefType::Table, map, dict: trailer, size })
    }
}

impl FileParser {
    /// Reads a top-level structure at `pos` (relative to the start of `%PDF`; see
    /// [`spec_read_at`]).
    fn read_at(&mut self, pos: Offset) -> (r: Result<TLO, Error>)
        ensures
            final(self).sdata() == old(self).sdata(),
            final(self).sheader() == old(self).sheader(),
            tlo_result(r) == spec_read_at(old(self).sdata(), pos + old(self).sstart()),
    {
        let ghost d = self.sdata();
        let start = self.start();
        let abs = if pos > u64::MAX - start { u64::MAX } else { pos + start };
        let _n = self.bytes.len();
        proof {
            if pos + start > u64::MAX {
                crate::tk::lemma_ws_end_bounds(d, abs as int, false);
                crate::tk::lemma_ws_end_bounds(d, pos + start, false);
                assert(spec_read_token(d, abs as int).0 == spec_read_token(d, pos + start).0);
                assert(spec_read_token(d, pos + start).0 is Err);
            }
        }
        self.bytes.seek_to(abs);
        let tk = self.bytes.read_token()?;
        if crate::kw::is_xref(tk.as_slice()) {
            self.bytes.read_eol()?;
            let xref = self.read_xref_table()?;
            return Ok(TLO::XRef(xref));
        }
        let num = match crate::utils::parse_int_strict(tk.as_slice()) {
            Some(n) => n,
            None => return Err(Error::Parse("invalid object number")),
        };
        let tk2 = self.bytes.read_token()?;
        let gen = match crate::utils::parse_int_strict_u16(tk2.as_slice()) {
            Some(g) => g,
            None => return Err(Error::Parse("invalid generation number")),
        };
        let oref = ObjRef { num, gen };
        let tk3 = self.bytes.read_token()?;
        if !crate::kw::is_obj(tk3.as_slice()) {
            return Err(Error::Parse("unexpected token"));
        }
        let obj = crate::op::read_obj_from(&mut self.bytes)?;
        let tk4 = self.bytes.read_token()?;
        if crate::kw::is_endobj(tk4.as_slice()) {
            Ok(TLO::IndirObject(oref, obj))
        } else if crate::kw::is_stream(tk4.as_slice()) {
            let dict = match obj {
                Object::Dict(dict) => dict,
                _ => return Err(Error::Parse("endobj not found")),
            };
            proof {
                crate::base::object::lemma_dict_sv(dict);
            }
            let c = self.bytes.next_or_eof()?;
            if c == LF {
            } else if c == CR {
                let c2 = self.bytes.next_or_eof()?;
                if c2 != LF {
                    return Err(Error::Parse("stream keyword not followed by proper EOL"));
                }
            } else {
                return Err(Error::Parse("stream keyword not followed by proper EOL"));
            }
            let offset = self.bytes.pos();
            let stm = Stream { dict, data: Data::Ref(offset) };
            proof {
                crate::base::object::lemma_stream_sv(stm);
            }
            Ok(TLO::IndirObject(oref, Object::Stream(stm)))
        } else {
            Err(Error::Parse("endobj not found"))
        }
    }

    /// Reads an indirect object at `pos` (relative to `%PDF`); a table section there is an
    /// error.
    pub fn read_obj_at(&mut self, pos: Offset) -> (r: Result<(ObjRef, Object), Error>)
        ensures
            final(self).sdata() == old(self).sdata(),
            final(self).sheader() == old(self).sheader(),
            match spec_read_at(old(self).sdata(), pos + old(self).sstart()) {
                Ok(STLO::IndirObject(o, x)) => r matches Ok((o2, x2)) && o2 == o && x2.sv() == x,
                Ok(STLO::XRef(_)) => r == Err::<(ObjRef, Object), Error>(
                    Error::Parse("expected object, found xref section"),
                ),
                Err(e) => r == Err::<(ObjRef, Object), Error>(e),
            },
    {
        match self.read_at(pos)? {
            TLO::IndirObject(oref, obj) => Ok((oref, obj)),
            _ => Err(Error::Parse("expected object, found xref section")),
        }
    }
}

/// The value of a big-endian byte string.
pub open spec fn be_num(s: Seq<u8>) -> nat
    decreases s.len(),
{
    if s.len() == 0 {
        0
    } else {
        be_num(s.drop_last()) * 256 + s.last() as nat
    }
}

/// The error of a malformed cross-reference stream.
pub open spec fn malformed_xref_stream() -> Error {
    Error::Parse("malfomed xref stream")
}

/// The record of one cross-reference stream entry with fields of type `tpe` (1 when its
/// width is 0), `f2` and `f3`; the third field must fit a generation number and the type must
/// be 0 (free), 1 (in use) or 2 (compressed).
pub open spec fn spec_xs_record(tpe: nat, f2: nat, f3: nat) -> Option<Record> {
    if f3 > u16::MAX || f2 > u64::MAX {
        None
    } else if tpe == 0 {
        Some(Record::Free { gen: f3 as u16, next: f2 as u64 })
    } else if tpe == 1 {
        Some(Record::Used { gen: f3 as u16, offset: f2 as u64 })
    } else if tpe == 2 {
        Some(Record::Compr { num_within: f2 as u64, index: f3 as u16 })
    } else {
        None
    }
}

/// Reading one entry of decoded cross-reference stream data at `q`, with field widths
/// `w1`, `w2`, `w3`.
pub open spec fn spec_xs_entry(x: Seq<u8>, q: int, w1: nat, w2: nat, w3: nat) -> Result<Record, Error> {
    if q < 0 || q + w1 + w2 + w3 > x.len() {
        Err(eof())
    } else {
        let tpe = if w1 > 0 {
            be_num(x.subrange(q, q + w1))
        } else {
            1
        };
        let f2 = be_num(x.subrange(q + w1, q + w1 + w2));
        let f3 = be_num(x.subrange(q + w1 + w2, q + w1 + w2 + w3));
        match spec_xs_record(tpe, f2, f3) {
            Some(r) => Ok(r),
            None => Err(malformed_xref_stream()),
        }
    }
}

/// Reading the `cnt` entries of a subsection at `q`, for numbers from `num` on, into `m`; a
/// number already present keeps its record.
pub open spec fn spec_xs_section(
    x: Seq<u8>,
    q: int,
    num: int,
    cnt: int,
    w1: nat,
    w2: nat,
    w3: nat,
    m: Map<u64, Record>,
) -> (Result<Map<u64, Record>, Error>, int)
    decreases cnt,
{
    if cnt <= 0 {
        (Ok(m), q)
    } else {
        match spec_xs_entry(x, q, w1, w2, w3) {
            Err(e) => (Err(e), q),
            Ok(rec) => {
                let m2 = if m.contains_key(num as u64) {
                    m
                } else {
                    m.insert(num as u64, rec)
                };
                spec_xs_section(x, q + w1 + w2 + w3, num + 1, cnt - 1, w1, w2, w3, m2)
            },
        }
    }
}

/// Reading the subsections listed by `index` (pairs of first number and count) from pair `k`
/// on; an odd last element is ignored.
pub open spec fn spec_xs_sections(
    x: Seq<u8>,
    q: int,
    index: Seq<u64>,
    k: int,
    w1: nat,
    w2: nat,
    w3: nat,
    m: Map<u64, Record>,
) -> (Result<Map<u64, Record>, Error>, int)
    decreases index.len() - k,
{
    if k < 0 || k + 1 >= index.len() {
        (Ok(m), q)
    } else if index[k] + index[k + 1] > u64::MAX {
        (Err(malformed_xref_stream()), q)
    } else {
        match spec_xs_section(x, q, index[k] as int, index[k + 1] as int, w1, w2, w3, m) {
            (Err(e), q2) => (Err(e), q2),
            (Ok(m2), q2) => spec_xs_sections(x, q2, index, k + 2, w1, w2, w3, m2),
        }
    }
}

/// The records of decoded cross-reference stream data: all entries of the subsections, which
/// must use up the data exactly.
pub open spec fn spec_xs_entries(x: Seq<u8>, index: Seq<u64>, w1: nat, w2: nat, w3: nat) -> Result<
    Map<u64, Record>,
    Error,
> {
    match spec_xs_sections(x, 0, index, 0, w1, w2, w3, Map::empty()) {
        (Err(e), _) => Err(e),
        (Ok(m), q) => if q != x.len() {
            Err(malformed_xref_stream())
        } else {
            Ok(m)
        },
    }
}

/// Reads a big-endian number of `w` bytes at `q`.
fn read_be(x: &[u8], q: usize, w: u64) -> (r: u64)
    requires
        w <= 8,
        q + w <= x.len(),
    ensures
        r == be_num(x@.subrange(q as int, q + w)),
{
    let mut v: u64 = 0;
    let mut i: u64 = 0;
    while i < w
        invariant
            i <= w <= 8,
            q + w <= x.len(),
            v == be_num(x@.subrange(q as int, q + i)),
            v < pow256(i as nat),
        decreases w - i,
    {
        let b = x[q + i as usize];
        proof {
            assert(x@.subrange(q as int, q + i + 1).drop_last() =~= x@.subrange(q as int, q + i));
            lemma_pow256_bound(i as nat);
            assert(v * 256 + b < pow256(i as nat) * 256) by (nonlinear_arith)
                requires
                    v < pow256(i as nat),
                    b < 256,
            ;
        }
        v = v * 256 + b as u64;
        i += 1;
    }
    v
}

/// `256` to the power `i`.
pub open spec fn pow256(i: nat) -> nat
    decreases i,
{
    if i == 0 {
        1
    } else {
        256 * pow256((i - 1) as nat)
    }
}

proof fn lemma_pow256_bound(i: nat)
    requires
        i <= 7,
    ensures
        pow256(i) * 256 <= u64::MAX + 1,
        pow256(i + 1) == pow256(i) * 256,
{
    reveal_with_fuel(pow256, 9);
    if i == 0 {
    } else if i == 1 {
    } else if i == 2 {
    } else if i == 3 {
    } else if i == 4 {
    } else if i == 5 {
    } else if i == 6 {
    } else {
    }
}

/// Parses decoded cross-reference stream data into its records (see [`spec_xs_entries`]).
pub fn parse_xref_stream_entries(x: &[u8], index: &[u64], w1: u64, w2: u64, w3: u64) -> (r: Result<
    BTreeMap<u64, Record>,
    Error,
>)
    requires
        w1 <= 8,
        w2 <= 8,
        w3 <= 8,
    ensures
        match (r, spec_xs_entries(x@, index@, w1 as nat, w2 as nat, w3 as nat)) {
            (Ok(m), Ok(sm)) => m@ == sm,
            (Err(e1), Err(e2)) => e1 == e2,
            _ => false,
        },
{
    let mut map: BTreeMap<u64, Record> = BTreeMap::new();
    let n = x.len();
    let mut q: usize = 0;
    let mut k: usize = 0;
    let ew: usize = (w1 + w2 + w3) as usize;
    let ghost w1n = w1 as nat;
    let ghost w2n = w2 as nat;
    let ghost w3n = w3 as nat;
    while k < index.len() && k + 1 < index.len()
        invariant
            w1 <= 8,
            w2 <= 8,
            w3 <= 8,
            w1n == w1,
            w2n == w2,
            w3n == w3,
            ew == w1 + w2 + w3,
            n == x.len(),
            q <= n,
            k <= index.len(),
            spec_xs_sections(x@, 0, index@, 0, w1n, w2n, w3n, Map::empty()) == spec_xs_sections(
                x@,
                q as int,
                index@,
                k as int,
                w1n,
                w2n,
                w3n,
                map@,
            ),
        decreases index.len() - k,
    {
        let start = index[k];
        let cnt = index[k + 1];
        if cnt > u64::MAX - start {
            return Err(Error::Parse("malfomed xref stream"));
        }
        let mut j: u64 = 0;
        while j < cnt
            invariant
                w1 <= 8,
                w2 <= 8,
                w3 <= 8,
                w1n == w1,
                w2n == w2,
                w3n == w3,
                ew == w1 + w2 + w3,
                n == x.len(),
                q <= n,
                j <= cnt,
                start + cnt <= u64::MAX,
                k + 1 < index.len(),
                start == index@[k as int],
                cnt == index@[k + 1],
                spec_xs_sections(x@, 0, index@, 0, w1n, w2n, w3n, Map::empty()) == match spec_xs_section(
                    x@,
                    q as int,
                    start + j,
                    (cnt - j) as int,
                    w1n,
                    w2n,
                    w3n,
                    map@,
                ) {
                    (Err(e), q2) => (Err(e), q2),
                    (Ok(m2), q2) => spec_xs_sections(x@, q2, index@, k + 2, w1n, w2n, w3n, m2),
                },
            decreases cnt - j,
        {
            if q > n || n - q < ew {
                return Err(Error::IO(IoError::UnexpectedEof));
            }
            let tpe: u64 = if w1 > 0 { read_be(x, q, w1) } else { 1 };
            let f2 = read_be(x, q + w1 as usize, w2);
            let f3 = read_be(x, q + w1 as usize + w2 as usize, w3);
            if f3 > 0xffff {
                return Err(Error::Parse("malfomed xref stream"));
            }
            let rec = if tpe == 0 {
                Record::Free { gen: f3 as u16, next: f2 }
            } else if tpe == 1 {
                Record::Used { gen: f3 as u16, offset: f2 }
            } else if tpe == 2 {
                Record::Compr { num_within: f2, index: f3 as u16 }
            } else {
                return Err(Error::Parse("malfomed xref stream"));
            };
            assert(spec_xs_entry(x@, q as int, w1n, w2n, w3n) == Ok::<Record, Error>(rec));
            let num = start + j;
            if !map.contains_key(&num) {
                map.insert(num, rec);
            }
            q = q + ew;
            j += 1;
        }
        k += 2;
    }
    if q != n {
        return Err(Error::Parse("malfomed xref stream"));
    }
    Ok(map)
}

/// The `/Index` of a cross-reference stream: an array of non-negative integers, `[0 size]`
/// by default.
pub open spec fn spec_xs_index(o: SObject, size: u64) -> Result<Seq<u64>, Error> {
    match o {
        SObject::Array(arr) => if forall|i: int| 0 <= i < arr.len() ==> (#[trigger] spec_num_value(arr[i])) is Some {
            Ok(Seq::new(arr.len(), |i: int| spec_num_value(arr[i])->0))
        } else {
            Err(Error::Parse("malfomed xref stream (/Index)"))
        },
        SObject::Null => Ok(seq![0u64, size]),
        _ => Err(Error::Parse("malfomed xref stream (/Index)")),
    }
}

/// Whether an object is an integer from 0 to 8.
pub open spec fn is_width(o: SObject) -> bool {
    o matches SObject::Int(v) && 0 <= v <= 8
}

/// The `/W` of a cross-reference stream: three integers from 0 to 8, the second not 0.
pub open spec fn spec_xs_widths(o: SObject) -> Result<(u64, u64, u64), Error> {
    match o {
        SObject::Array(arr) => if arr.len() == 3 && is_width(arr[0]) && is_width(arr[1])
            && is_width(arr[2]) && arr[1] != SObject::Int(0) {
            Ok((arr[0]->Int_0 as u64, arr[1]->Int_0 as u64, arr[2]->Int_0 as u64))
        } else {
            Err(Error::Parse("malfomed xref stream (/W)"))
        },
        _ => Err(Error::Parse("malfomed xref stream (/W)")),
    }
}

/// The error for a filter chain with a predictor that is not implemented.
pub open spec fn predictor_error() -> Error {
    Error::Parse("unimplemented predictor")
}

/// The data of a stream at `offset`, `len` bytes long or up to the end of data.
pub open spec fn spec_take(d: Seq<u8>, offset: int, len: int) -> Seq<u8> {
    let r = rest_of(d, offset);
    if len < r.len() {
        r.take(len)
    } else {
        r
    }
}

/// Decoding the data of a cross-reference stream with the filter names `names` and the
/// parameters `params`: without filters the data stays as it is; a single `/FlateDecode` (with
/// the parameters) or `/ASCIIHexDecode` decodes it; any other filters, a chain of several or a
/// name not known here, leave the data undecoded.
pub open spec fn spec_xs_decode(input: Seq<u8>, names: Seq<Seq<u8>>, params: Seq<(Seq<u8>, SObject)>) -> Result<
    Seq<u8>,
    Error,
> {
    if names.len() == 1 && names[0] == crate::names::flate_decode_bytes() {
        if !crate::codecs::filters_supported(seq![SFilter::Flate(params)]) {
            Err(predictor_error())
        } else {
            crate::codecs::spec_decode(input, seq![SFilter::Flate(params)])
        }
    } else if names.len() == 1 && names[0] == crate::names::asciihex_decode_bytes() {
        crate::codecs::spec_decode(input, seq![SFilter::AsciiHex])
    } else {
        Ok(input)
    }
}

/// The data of a cross-reference stream, `input` being its `/Length` raw bytes: its `/Filter`
/// must be a name, an array of names or absent (it is not resolved), and its `/DecodeParms` a
/// dictionary or absent; then it is decoded (see [`spec_xs_decode`]).
pub open spec fn spec_xs_data(input: Seq<u8>, dict: Seq<(Seq<u8>, SObject)>) -> Result<Seq<u8>, Error> {
    match crate::codecs::spec_to_filters(spec_lookup(dict, crate::names::filter_bytes())) {
        Err(e) => Err(e),
        Ok(names) => match spec_lookup(dict, crate::names::decode_parms_bytes()) {
            SObject::Dict(p) => spec_xs_decode(input, names, p),
            SObject::Null => spec_xs_decode(input, names, Seq::empty()),
            _ => Err(Error::Parse("malformed xref stream (/DecodeParms)")),
        },
    }
}

/// Reading a cross-reference stream from the object `o` read as `oref`: the dictionary entries
/// `/Type /XRef`, `/Size`, `/Index`, `/W` and `/Length` are checked, the data is decoded (see
/// [`spec_xs_data`]) and parsed into records.
pub open spec fn spec_read_xref_stream(d: Seq<u8>, oref: ObjRef, o: SObject) -> Result<SXRef, Error> {
    match o {
        SObject::Stream(dict, SData::Ref(offset)) => if spec_lookup(dict, crate::names::type_bytes())
            != SObject::Name(crate::names::xref_bytes()) {
            Err(Error::Parse("malfomed xref stream (/Type)"))
        } else {
            match spec_num_value(spec_lookup(dict, crate::names::size_bytes())) {
                None => Err(Error::Parse("malfomed xref stream (/Size)")),
                Some(size) => match spec_xs_index(spec_lookup(dict, crate::names::index_bytes()), size) {
                    Err(e) => Err(e),
                    Ok(index) => match spec_xs_widths(spec_lookup(dict, crate::names::w_bytes())) {
                        Err(e) => Err(e),
                        Ok((w1, w2, w3)) => match spec_num_value(
                            spec_lookup(dict, crate::names::length_bytes()),
                        ) {
                            None => Err(Error::Parse("malfomed xref stream (/Length)")),
                            Some(len) => match spec_xs_data(spec_take(d, offset as int, len as int), dict) {
                                Err(e) => Err(e),
                                Ok(x) => match spec_xs_entries(x, index, w1 as nat, w2 as nat, w3 as nat) {
                                    Err(e) => Err(e),
                                    Ok(m) => Ok(SXRef { tpe: XRefType::Stream(oref), map: m, dict, size }),
                                },
                            },
                        },
                    },
                },
            }
        },
        _ => Err(Error::Parse("malfomed xref")),
    }
}

/// Reading a table section at `p` (absolute): a classical table, or a cross-reference stream
/// object.
#[verifier::opaque]
pub open spec fn spec_read_xref_at(d: Seq<u8>, p: int) -> Result<SXRef, Error> {
    match spec_read_at(d, p) {
        Err(e) => Err(e),
        Ok(STLO::XRef(x)) => Ok(x),
        Ok(STLO::IndirObject(oref, o)) => spec_read_xref_stream(d, oref, o),
    }
}

/// Decodes the data of a cross-reference stream (see [`spec_xs_data`]).
fn xs_data(input: &[u8], dict: &Dict) -> (r: Result<Vec<u8>, Error>)
    ensures
        bytes_result(r) == spec_xs_data(input@, dict.sv()),
{
    let names = match crate::codecs::to_filters(&dict.lookup(&crate::names::filter_key())) {
        Ok(n) => n,
        Err(e) => return Err(e),
    };
    let ghost sn = names@.map_values(|n: crate::base::Name| n.0@);
    assert(crate::codecs::spec_to_filters(spec_lookup(dict.sv(), crate::names::filter_bytes())) == Ok::<Seq<Seq<u8>>, Error>(sn));
    let ghost pdict = spec_lookup(dict.sv(), crate::names::decode_parms_bytes());
    let params = match dict.lookup(&crate::names::decode_parms_key()) {
        Object::Dict(p) => {
            proof {
                crate::base::object::lemma_dict_sv(p);
            }
            p
        },
        Object::Null => Dict::new(),
        _ => return Err(Error::Parse("malformed xref stream (/DecodeParms)")),
    };
    if names.len() == 1 && crate::base::bytes_eq(names[0].as_slice(), &crate::names::flate_decode_key()) {
        assert(sn[0] == names@[0].0@);
        let mut fs: Vec<crate::codecs::Filter> = Vec::new();
        fs.push(crate::codecs::Filter::Flate(params));
        assert(crate::codecs::filters_sv(fs@) =~= seq![SFilter::Flate(params.sv())]);
        if !crate::codecs::check_filters(fs.as_slice()) {
            return Err(Error::Parse("unimplemented predictor"));
        }
        crate::codecs::decode(input, fs.as_slice())
    } else if names.len() == 1 && crate::base::bytes_eq(names[0].as_slice(), &crate::names::asciihex_decode_key()) {
        assert(sn[0] == names@[0].0@);
        let mut fs: Vec<crate::codecs::Filter> = Vec::new();
        fs.push(crate::codecs::Filter::AsciiHex);
        assert(crate::codecs::filters_sv(fs@) =~= seq![SFilter::AsciiHex]);
        crate::codecs::decode(input, fs.as_slice())
    } else {
        proof {
            if names.len() == 1 {
                assert(sn[0] == names@[0].0@);
            }
        }
        let out = subslice_to_vec(input, 0, input.len());
        assert(out@ =~= input@);
        assert(spec_xs_decode(input@, sn, params.sv()) == Ok::<Seq<u8>, Error>(input@));
        assert(pdict is Null ==> params.sv() == Seq::<(Seq<u8>, SObject)>::empty());
        Ok(out)
    }
}

/// Reads the `/Index` of a cross-reference stream (see [`spec_xs_index`]).
fn xref_index(o: &Object, size: u64) -> (r: Result<Vec<u64>, Error>)
    ensures
        match (r, spec_xs_index(o.sv(), size)) {
            (Ok(v), Ok(s)) => v@ == s,
            (Err(e1), Err(e2)) => e1 == e2,
            _ => false,
        },
{
    match o {
        Object::Array(arr) => {
            proof {
                crate::base::object::lemma_array_sv(*arr);
            }
            let ghost sa = crate::base::objs_sv(arr@);
            let mut v: Vec<u64> = Vec::new();
            let mut i: usize = 0;
            while i < arr.len()
                invariant
                    0 <= i <= arr.len(),
                    sa == crate::base::objs_sv(arr@),
                    o.sv() == SObject::Array(sa),
                    v@.len() == i,
                    forall|k: int| 0 <= k < i ==> (#[trigger] spec_num_value(sa[k])) == Some(v@[k]),
                decreases arr.len() - i,
            {
                match arr[i].num_value() {
                    Some(x) => v.push(x),
                    None => {
                        assert(spec_num_value(sa[i as int]) is None);
                        return Err(Error::Parse("malfomed xref stream (/Index)"));
                    },
                }
                i += 1;
            }
            assert(v@ =~= Seq::new(sa.len(), |k: int| spec_num_value(sa[k])->0));
            Ok(v)
        },
        Object::Null => {
            let mut v: Vec<u64> = Vec::new();
            v.push(0);
            v.push(size);
            assert(v@ =~= seq![0u64, size]);
            Ok(v)
        },
        _ => Err(Error::Parse("malfomed xref stream (/Index)")),
    }
}

/// The value of an object if it is an integer from 0 to 8.
fn width_of(o: &Object) -> (r: Option<u64>)
    ensures
        r is Some <==> is_width(o.sv()),
        r matches Some(w) ==> o.sv() == SObject::Int(w as i64) && w <= 8,
{
    match o {
        Object::Number(crate::base::Number::Int(v)) => if 0 <= *v && *v <= 8 {
            Some(*v as u64)
        } else {
            None
        },
        _ => None,
    }
}

/// Reads the `/W` of a cross-reference stream (see [`spec_xs_widths`]).
fn xref_widths(o: &Object) -> (r: Result<(u64, u64, u64), Error>)
    ensures
        r == spec_xs_widths(o.sv()),
        r matches Ok((a, b, c)) ==> a <= 8 && b <= 8 && c <= 8,
{
    match o {
        Object::Array(arr) => {
            proof {
                crate::base::object::lemma_array_sv(*arr);
            }
            if arr.len() != 3 {
                return Err(Error::Parse("malfomed xref stream (/W)"));
            }
            match (width_of(&arr[0]), width_of(&arr[1]), width_of(&arr[2])) {
                (Some(a), Some(b), Some(c)) => if b == 0 {
                    Err(Error::Parse("malfomed xref stream (/W)"))
                } else {
                    Ok((a, b, c))
                },
                _ => Err(Error::Parse("malfomed xref stream (/W)")),
            }
        },
        _ => Err(Error::Parse("malfomed xref stream (/W)")),
    }
}

impl FileParser {
    /// Reads a cross-reference stream from its object (see [`spec_read_xref_stream`]).
    fn read_xref_stream(&self, oref: ObjRef, obj: Object) -> (r: Result<XRef, Error>)
        ensures
            crate::base::xref_result(r) == spec_read_xref_stream(self.sdata(), oref, obj.sv()),
    {
        let (dict, offset) = match obj {
            Object::Stream(Stream { dict, data: Data::Ref(offset) }) => (dict, offset),
            _ => return Err(Error::Parse("malfomed xref")),
        };
        proof {
            crate::base::object::lemma_stream_sv(Stream { dict, data: Data::Ref(offset) });
        }
        let tk = crate::names::type_key();
        let xk = crate::names::xref_key();
        let is_xref = match dict.lookup(&tk) {
            Object::Name(n) => crate::base::bytes_eq(n.as_slice(), &xk),
            _ => false,
        };
        if !is_xref {
            return Err(Error::Parse("malfomed xref stream (/Type)"));
        }
        let sk = crate::names::size_key();
        let size = match dict.lookup(&sk).num_value() {
            Some(s) => s,
            None => return Err(Error::Parse("malfomed xref stream (/Size)")),
        };
        let ik = crate::names::index_key();
        let index = xref_index(&dict.lookup(&ik), size)?;
        let wk = crate::names::w_key();
        let (w1, w2, w3) = xref_widths(&dict.lookup(&wk))?;
        let lk = crate::names::length_key();
        let len = match dict.lookup(&lk).num_value() {
            Some(l) => l,
            None => return Err(Error::Parse("malfomed xref stream (/Length)")),
        };
        let raw = self.read_raw(offset);
        let raw = if len < raw.len() as u64 {
            crate::bp::slice_to(raw, len as usize)
        } else {
            raw
        };
        assert(raw@ == spec_take(self.sdata(), offset as int, len as int));
        let decoded = xs_data(raw, &dict)?;
        let map = parse_xref_stream_entries(decoded.as_slice(), index.as_slice(), w1, w2, w3)?;
        Ok(XRef { tpe: XRefType::Stream(oref), map, dict, size })
    }

    /// Reads a cross-reference table section or a cross-reference stream at `pos` (relative
    /// to `%PDF`; see [`spec_read_xref_at`]).
    pub fn read_xref_at(&mut self, pos: Offset) -> (r: Result<XRef, Error>)
        ensures
            final(self).sdata() == old(self).sdata(),
            final(self).sheader() == old(self).sheader(),
            crate::base::xref_result(r) == spec_read_xref_at(old(self).sdata(), pos + old(self).sstart()),
    {
        reveal(spec_read_xref_at);
        match self.read_at(pos)? {
            TLO::XRef(xref) => Ok(xref),
            TLO::IndirObject(oref, obj) => self.read_xref_stream(oref, obj),
        }
    }
}

} // verus!
