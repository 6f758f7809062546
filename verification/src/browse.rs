use vstd::prelude::*;

use crate::base::object::{bytes_eq, copy_bytes};
use crate::base::object::{lemma_array_sv, lemma_dict_sv, lemma_stream_sv};
use crate::base::{objs_sv, spec_lookup, Data, Dict, Error, ObjRef, Object, Record, SData, SObject};
use crate::names::root_key;
use crate::names::root_bytes;
use crate::pages::{find_page, spec_find_page};
use crate::reader::base::{resolver_of, spec_stream_data, MAX_DEPTH};
use crate::reader::simple::SimpleReader;
use crate::bp::{slice_from, subslice_to_vec};
use crate::utils::{parse_num, parse_num_u16, spec_parse_u16, spec_parse_u64, spec_unsigned_value};

verus! {

/// The space that separates the words of a command.
pub const SPACE: u8 = 0x20;

/// The index of the first space in `s`, or its length if there is none.
pub open spec fn space_index(s: Seq<u8>) -> nat
    decreases s.len(),
{
    if s.len() == 0 {
        0
    } else if s[0] == SPACE {
        0
    } else {
        1 + space_index(s.drop_first())
    }
}

/// The words of a line: the pieces between single spaces, empty ones included (as
/// `str::split(' ')` gives them). There is always at least one.
pub open spec fn spec_split(s: Seq<u8>) -> Seq<Seq<u8>>
    decreases s.len(),
{
    let k = space_index(s);
    if k >= s.len() {
        seq![s]
    } else {
        seq![s.subrange(0, k as int)] + spec_split(s.subrange(k as int + 1, s.len() as int))
    }
}

/// The first space of `s` is at `i` when the bytes before it are no spaces; with no space at
/// all, the index is the length.
proof fn lemma_space_index(s: Seq<u8>, i: int)
    requires
        0 <= i <= s.len(),
        forall|t: int| 0 <= t < i ==> s[t] != SPACE,
        i < s.len() ==> s[i] == SPACE,
    ensures
        space_index(s) == i,
    decreases i,
{
    if i > 0 {
        lemma_space_index(s.drop_first(), i - 1);
    }
}

/// The words of a line (see [`spec_split`]).
pub fn split_line(line: &[u8]) -> (r: Vec<Vec<u8>>)
    ensures
        r@.map_values(|w: Vec<u8>| w@) == spec_split(line@),
{
    let mut out: Vec<Vec<u8>> = Vec::new();
    let mut word: Vec<u8> = Vec::new();
    let mut start: usize = 0;
    let mut j: usize = 0;
    let n = line.len();
    assert(line@.subrange(0, n as int) =~= line@);
    assert(out@.map_values(|w: Vec<u8>| w@) =~= Seq::<Seq<u8>>::empty());
    assert(word@ =~= line@.subrange(0, 0));
    while j < n
        invariant
            n == line@.len(),
            start <= j <= n,
            word@ == line@.subrange(start as int, j as int),
            forall|t: int| start <= t < j ==> line@[t] != SPACE,
            out@.map_values(|w: Vec<u8>| w@) + spec_split(line@.subrange(start as int, n as int))
                == spec_split(line@),
        decreases n - j,
    {
        if line[j] == SPACE {
            let ghost rest = line@.subrange(start as int, n as int);
            proof {
                lemma_space_index(rest, j - start);
                assert(rest.subrange(0, j - start) =~= word@);
                assert(rest.subrange(j - start + 1, rest.len() as int) =~= line@.subrange(
                    j + 1,
                    n as int,
                ));
            }
            let ghost before = out@.map_values(|w: Vec<u8>| w@);
            out.push(word);
            assert(out@.map_values(|w: Vec<u8>| w@) =~= before.push(
                line@.subrange(start as int, j as int),
            ));
            assert(before + spec_split(rest) =~= out@.map_values(|w: Vec<u8>| w@) + spec_split(
                line@.subrange(j + 1, n as int),
            ));
            word = Vec::new();
            start = j + 1;
            assert(word@ =~= line@.subrange(start as int, start as int));
        } else {
            word.push(line[j]);
            assert(word@ =~= line@.subrange(start as int, j + 1));
        }
        j += 1;
    }
    let ghost rest = line@.subrange(start as int, n as int);
    proof {
        lemma_space_index(rest, rest.len() as int);
        assert(rest =~= word@);
    }
    let ghost before = out@.map_values(|w: Vec<u8>| w@);
    out.push(word);
    assert(out@.map_values(|w: Vec<u8>| w@) =~= before + spec_split(rest));
    out
}

/// What `usize::from_str` gives on a byte string.
pub open spec fn spec_parse_usize(s: Seq<u8>) -> Option<usize> {
    match spec_unsigned_value(s) {
        Some(v) => if v <= usize::MAX {
            Some(v as usize)
        } else {
            None
        },
        None => None,
    }
}

/// Parses a `usize` (see [`spec_parse_usize`]).
pub fn parse_usize(s: &[u8]) -> (r: Option<usize>)
    ensures
        r == spec_parse_usize(s@),
{
    match parse_num(s) {
        Some(v) => if v <= usize::MAX as u64 {
            Some(v as usize)
        } else {
            None
        },
        None => None,
    }
}

/// The command word `top`.
pub open spec fn top_word() -> Seq<u8> {
    seq![0x74u8, 0x6Fu8, 0x70u8]
}

fn top_word_bytes() -> (r: [u8; 3])
    ensures
        r@ == top_word(),
{
    let r: [u8; 3] = [0x74u8, 0x6Fu8, 0x70u8];
    assert(r@ =~= top_word());
    r
}

/// The command word `root`.
pub open spec fn root_word() -> Seq<u8> {
    seq![0x72u8, 0x6Fu8, 0x6Fu8, 0x74u8]
}

fn root_word_bytes() -> (r: [u8; 4])
    ensures
        r@ == root_word(),
{
    let r: [u8; 4] = [0x72u8, 0x6Fu8, 0x6Fu8, 0x74u8];
    assert(r@ =~= root_word());
    r
}

/// The command word `up`.
pub open spec fn up_word() -> Seq<u8> {
    seq![0x75u8, 0x70u8]
}

fn up_word_bytes() -> (r: [u8; 2])
    ensures
        r@ == up_word(),
{
    let r: [u8; 2] = [0x75u8, 0x70u8];
    assert(r@ =~= up_word());
    r
}

/// The command word `stream`.
pub open spec fn stream_word() -> Seq<u8> {
    seq![0x73u8, 0x74u8, 0x72u8, 0x65u8, 0x61u8, 0x6Du8]
}

fn stream_word_bytes() -> (r: [u8; 6])
    ensures
        r@ == stream_word(),
{
    let r: [u8; 6] = [0x73u8, 0x74u8, 0x72u8, 0x65u8, 0x61u8, 0x6Du8];
    assert(r@ =~= stream_word());
    r
}

/// The command word `page`.
pub open spec fn page_word() -> Seq<u8> {
    seq![0x70u8, 0x61u8, 0x67u8, 0x65u8]
}

fn page_word_bytes() -> (r: [u8; 4])
    ensures
        r@ == page_word(),
{
    let r: [u8; 4] = [0x70u8, 0x61u8, 0x67u8, 0x65u8];
    assert(r@ =~= page_word());
    r
}

/// A command of the browser, as typed.
pub enum Command {
    /// `top`: back to the trailer.
    Top,
    /// `root`: to the document catalog.
    Root,
    /// `up`: back to the object visited before.
    Up,
    /// `stream`: the decoded data of the current stream.
    Stream,
    /// `page N`: to the N-th page (the number as typed).
    Page(Vec<u8>),
    /// `/Key` and `[i]` words: a path into the current object (all words).
    Path(Vec<Vec<u8>>),
    /// `num gen`: to the object with this reference (the two words as typed).
    Ref(Vec<u8>, Vec<u8>),
    /// Anything else.
    Unknown,
}

/// The value of a command.
pub enum SCommand {
    Top,
    Root,
    Up,
    Stream,
    Page(Seq<u8>),
    Path(Seq<Seq<u8>>),
    Ref(Seq<u8>, Seq<u8>),
    Unknown,
}

impl Command {
    /// The value of the command.
    pub open spec fn sv(&self) -> SCommand {
        match self {
            Command::Top => SCommand::Top,
            Command::Root => SCommand::Root,
            Command::Up => SCommand::Up,
            Command::Stream => SCommand::Stream,
            Command::Page(a) => SCommand::Page(a@),
            Command::Path(ws) => SCommand::Path(ws@.map_values(|w: Vec<u8>| w@)),
            Command::Ref(a, b) => SCommand::Ref(a@, b@),
            Command::Unknown => SCommand::Unknown,
        }
    }
}

/// The command that the words of a line make: the single words `top`, `root`, `up` and
/// `stream`; `page` and one more word; words the first of which starts with `/` or `[`; any
/// other two words; anything else is unknown.
pub open spec fn spec_command(ws: Seq<Seq<u8>>) -> SCommand {
    if ws.len() == 1 && ws[0] == top_word() {
        SCommand::Top
    } else if ws.len() == 1 && ws[0] == root_word() {
        SCommand::Root
    } else if ws.len() == 1 && ws[0] == up_word() {
        SCommand::Up
    } else if ws.len() == 1 && ws[0] == stream_word() {
        SCommand::Stream
    } else if ws.len() == 2 && ws[0] == page_word() {
        SCommand::Page(ws[1])
    } else if ws.len() > 0 && ws[0].len() > 0 && (ws[0][0] == SLASH || ws[0][0] == OPEN) {
        SCommand::Path(ws)
    } else if ws.len() == 2 {
        SCommand::Ref(ws[0], ws[1])
    } else {
        SCommand::Unknown
    }
}

/// The leading byte of a key in a path.
pub const SLASH: u8 = 0x2F;

/// The leading byte of an index in a path.
pub const OPEN: u8 = 0x5B;

/// The closing byte of an index in a path.
pub const CLOSE: u8 = 0x5D;

/// Reads a command from a line (see [`spec_split`] and [`spec_command`]).
pub fn parse_command(line: &[u8]) -> (r: Command)
    ensures
        r.sv() == spec_command(spec_split(line@)),
{
    let ws = split_line(line);
    let ghost sw = ws@.map_values(|w: Vec<u8>| w@);
    assert(forall|i: int| 0 <= i < ws@.len() ==> sw[i] == ws@[i]@);
    let n = ws.len();
    if n == 1 {
        let w = ws[0].as_slice();
        if bytes_eq(w, &top_word_bytes()) {
            return Command::Top;
        } else if bytes_eq(w, &root_word_bytes()) {
            return Command::Root;
        } else if bytes_eq(w, &up_word_bytes()) {
            return Command::Up;
        } else if bytes_eq(w, &stream_word_bytes()) {
            return Command::Stream;
        }
    }
    if n == 2 && bytes_eq(ws[0].as_slice(), &page_word_bytes()) {
        return Command::Page(copy_bytes(ws[1].as_slice()));
    }
    if n > 0 && ws[0].len() > 0 && (ws[0][0] == SLASH || ws[0][0] == OPEN) {
        return Command::Path(ws);
    }
    if n == 2 {
        return Command::Ref(copy_bytes(ws[0].as_slice()), copy_bytes(ws[1].as_slice()));
    }
    Command::Unknown
}

/// Why a command was not carried out.
pub enum Complaint {
    /// Reading the file failed with a parse error.
    Error(Error),
    /// `stream` on an object that is no stream.
    NotAStream,
    /// `stream` on a stream whose data is not in the file.
    DetachedStream,
    /// `page` with something that is no page number.
    MalformedPage,
    /// A path word that is neither `/Key` nor `[i]`.
    MalformedCommand,
    /// A path index of 0 (indices count from 1).
    ZeroIndex,
    /// A key looked up in this object, which is no dictionary.
    NotADict(Object),
    /// An index looked up in this object, which is no array.
    NotAnArray(Object),
    /// An empty path word (two spaces in a row).
    EmptyWord,
    /// Two words that are no object reference.
    BadRef,
    /// A command that is none of the above.
    Unknown,
}

/// The value of a complaint.
pub enum SComplaint {
    Error(Error),
    NotAStream,
    DetachedStream,
    MalformedPage,
    MalformedCommand,
    ZeroIndex,
    NotADict(SObject),
    NotAnArray(SObject),
    EmptyWord,
    BadRef,
    Unknown,
}

impl Complaint {
    /// The value of the complaint.
    pub open spec fn sv(&self) -> SComplaint {
        match self {
            Complaint::Error(e) => SComplaint::Error(*e),
            Complaint::NotAStream => SComplaint::NotAStream,
            Complaint::DetachedStream => SComplaint::DetachedStream,
            Complaint::MalformedPage => SComplaint::MalformedPage,
            Complaint::MalformedCommand => SComplaint::MalformedCommand,
            Complaint::ZeroIndex => SComplaint::ZeroIndex,
            Complaint::NotADict(o) => SComplaint::NotADict(o.sv()),
            Complaint::NotAnArray(o) => SComplaint::NotAnArray(o.sv()),
            Complaint::EmptyWord => SComplaint::EmptyWord,
            Complaint::BadRef => SComplaint::BadRef,
            Complaint::Unknown => SComplaint::Unknown,
        }
    }
}

/// The object that the path words `ws` from word `i` on lead to from `o`: `/Key` looks the
/// key up in a dictionary (or a stream's dictionary), `[i]` takes item `i` (counted from 1) of
/// an array, or null past its end.
pub open spec fn spec_select(o: SObject, ws: Seq<Seq<u8>>, i: int) -> Result<SObject, SComplaint>
    decreases ws.len() - i,
{
    if i < 0 || i >= ws.len() {
        Ok(o)
    } else {
        let w = ws[i];
        if w.len() == 0 {
            Err(SComplaint::EmptyWord)
        } else if w[0] == SLASH {
            match o {
                SObject::Dict(d) => spec_select(spec_lookup(d, w.drop_first()), ws, i + 1),
                SObject::Stream(d, _) => spec_select(spec_lookup(d, w.drop_first()), ws, i + 1),
                _ => Err(SComplaint::NotADict(o)),
            }
        } else if w[0] == OPEN {
            if w.last() != CLOSE {
                Err(SComplaint::MalformedCommand)
            } else {
                match spec_parse_usize(w.subrange(1, w.len() - 1)) {
                    None => Err(SComplaint::MalformedCommand),
                    Some(k) => if k == 0 {
                        Err(SComplaint::ZeroIndex)
                    } else {
                        match o {
                            SObject::Array(a) => spec_select(
                                if k - 1 < a.len() {
                                    a[k - 1]
                                } else {
                                    SObject::Null
                                },
                                ws,
                                i + 1,
                            ),
                            _ => Err(SComplaint::NotAnArray(o)),
                        }
                    },
                }
            }
        } else {
            Err(SComplaint::MalformedCommand)
        }
    }
}

/// The value of a selection's outcome.
pub open spec fn select_view(r: Result<Object, Complaint>) -> Result<SObject, SComplaint> {
    match r {
        Ok(o) => Ok(o.sv()),
        Err(c) => Err(c.sv()),
    }
}

/// Follows the path words `ws` from `o` (see [`spec_select`]).
pub fn select(o: &Object, ws: &Vec<Vec<u8>>) -> (r: Result<Object, Complaint>)
    ensures
        select_view(r) == spec_select(o.sv(), ws@.map_values(|w: Vec<u8>| w@), 0),
{
    let ghost sw = ws@.map_values(|w: Vec<u8>| w@);
    let mut cur = o.duplicate();
    let mut i: usize = 0;
    while i < ws.len()
        invariant
            0 <= i <= ws.len(),
            sw == ws@.map_values(|w: Vec<u8>| w@),
            spec_select(cur.sv(), sw, i as int) == spec_select(o.sv(), sw, 0),
        decreases ws.len() - i,
    {
        let w = ws[i].as_slice();
        assert(sw[i as int] == w@);
        if w.len() == 0 {
            return Err(Complaint::EmptyWord);
        }
        if w[0] == SLASH {
            let key = slice_from(w, 1);
            assert(key@ =~= w@.drop_first());
            let next = match &cur {
                Object::Dict(d) => {
                    proof {
                        lemma_dict_sv(*d);
                    }
                    d.lookup(key)
                },
                Object::Stream(st) => {
                    proof {
                        lemma_stream_sv(*st);
                    }
                    st.dict.lookup(key)
                },
                _ => return Err(Complaint::NotADict(cur)),
            };
            cur = next;
        } else if w[0] == OPEN {
            if w[w.len() - 1] != CLOSE {
                return Err(Complaint::MalformedCommand);
            }
            let inner = subslice_to_vec(w, 1, w.len() - 1);
            let k = match parse_usize(inner.as_slice()) {
                None => return Err(Complaint::MalformedCommand),
                Some(k) => k,
            };
            if k == 0 {
                return Err(Complaint::ZeroIndex);
            }
            let next = match &cur {
                Object::Array(a) => {
                    proof {
                        lemma_array_sv(*a);
                    }
                    if k - 1 < a.len() {
                        assert(objs_sv(a@)[k - 1] == a@[k - 1].sv());
                        a[k - 1].duplicate()
                    } else {
                        Object::Null
                    }
                },
                _ => return Err(Complaint::NotAnArray(cur)),
            };
            cur = next;
        } else {
            return Err(Complaint::MalformedCommand);
        }
        i += 1;
    }
    Ok(cur)
}

/// What the browser asks to be done after a command, in this order: print a page's reference,
/// hand decoded stream data to a pager, print an object, report a complaint, end with a fatal
/// error, and show the current object.
pub struct Reply {
    pub page: Option<ObjRef>,
    pub pager: Option<Vec<u8>>,
    pub print: Option<Object>,
    pub complaint: Option<Complaint>,
    pub fatal: Option<Error>,
    pub show: bool,
}

/// The value of a reply.
pub struct SReply {
    pub page: Option<ObjRef>,
    pub pager: Option<Seq<u8>>,
    pub print: Option<SObject>,
    pub complaint: Option<SComplaint>,
    pub fatal: Option<Error>,
    pub show: bool,
}

impl Reply {
    /// The value of the reply.
    pub open spec fn sv(&self) -> SReply {
        SReply {
            page: self.page,
            pager: match self.pager {
                Some(v) => Some(v@),
                None => None,
            },
            print: match self.print {
                Some(o) => Some(o.sv()),
                None => None,
            },
            complaint: match self.complaint {
                Some(c) => Some(c.sv()),
                None => None,
            },
            fatal: self.fatal,
            show: self.show,
        }
    }
}

/// The reply that asks for nothing.
pub open spec fn quiet() -> SReply {
    SReply { page: None, pager: None, print: None, complaint: None, fatal: None, show: false }
}

/// The reply that only shows the current object.
pub open spec fn shown() -> SReply {
    SReply { show: true, ..quiet() }
}

/// The reply that only reports a complaint.
pub open spec fn complained(c: SComplaint) -> SReply {
    SReply { complaint: Some(c), ..quiet() }
}

/// The reply `base` after an error of reading the file: a parse error is reported and the
/// browser goes on; any other error ends it.
pub open spec fn failed(base: SReply, e: Error) -> SReply {
    match e {
        Error::Parse(_) => SReply { complaint: Some(SComplaint::Error(e)), ..base },
        _ => SReply { fatal: Some(e), ..base },
    }
}

/// The state of the browser: the trailer, the document catalog and its reference, the
/// references visited (the last one is the current object's), and the current object.
pub struct Browser {
    pub trailer: Dict,
    pub root_ref: ObjRef,
    pub root: Dict,
    pub history: Vec<ObjRef>,
    pub current: Object,
}

/// The value of the browser's state.
pub struct SBrowser {
    pub trailer: Seq<(Seq<u8>, SObject)>,
    pub root_ref: ObjRef,
    pub root: Seq<(Seq<u8>, SObject)>,
    pub history: Seq<ObjRef>,
    pub current: SObject,
}

impl Browser {
    /// The value of the state.
    pub open spec fn sv(&self) -> SBrowser {
        SBrowser {
            trailer: self.trailer.sv(),
            root_ref: self.root_ref,
            root: self.root.sv(),
            history: self.history@,
            current: self.current.sv(),
        }
    }
}

/// The error of a trailer without a document catalog.
pub open spec fn root_error() -> Error {
    Error::Parse("Could not find /Root.")
}

/// The browser at the start, on the trailer `trailer` with references resolved by `rs`: the
/// catalog is what `/Root` refers to, which must be a dictionary.
pub open spec fn spec_open(
    rs: spec_fn(ObjRef) -> Result<SObject, Error>,
    trailer: Seq<(Seq<u8>, SObject)>,
) -> Result<SBrowser, Error> {
    match spec_lookup(trailer, root_bytes()) {
        SObject::Ref(r) => match rs(r) {
            Err(e) => Err(e),
            Ok(SObject::Dict(d)) => Ok(
                SBrowser {
                    trailer,
                    root_ref: r,
                    root: d,
                    history: Seq::empty(),
                    current: SObject::Dict(trailer),
                },
            ),
            Ok(_) => Err(root_error()),
        },
        _ => Err(root_error()),
    }
}

/// Going to the object `r` from the state `b` (with the reply `base` so far): on success it
/// becomes the current object, `r` is added to the history if `push`, and it is shown; on an
/// error the state stays as it is.
pub open spec fn spec_go_to(
    rs: spec_fn(ObjRef) -> Result<SObject, Error>,
    b: SBrowser,
    r: ObjRef,
    push: bool,
    base: SReply,
) -> (SBrowser, SReply) {
    match rs(r) {
        Ok(o) => (
            SBrowser {
                current: o,
                history: if push {
                    b.history.push(r)
                } else {
                    b.history
                },
                ..b
            },
            SReply { show: true, ..base },
        ),
        Err(e) => (b, failed(base, e)),
    }
}

/// What a command does to the browser of the file `d` (positions relative to `start`, lookup
/// `loc`, a table of `entries` entries), and what it asks to be done.
pub open spec fn spec_step(
    d: Seq<u8>,
    start: u64,
    loc: spec_fn(ObjRef) -> Option<Record>,
    entries: nat,
    b: SBrowser,
    c: SCommand,
) -> (SBrowser, SReply) {
    let rs = resolver_of(d, start, loc, MAX_DEPTH as nat);
    match c {
        SCommand::Top => (
            SBrowser { history: Seq::empty(), current: SObject::Dict(b.trailer), ..b },
            shown(),
        ),
        SCommand::Root => spec_go_to(
            rs,
            SBrowser { history: seq![b.root_ref], ..b },
            b.root_ref,
            false,
            quiet(),
        ),
        SCommand::Up => {
            let b1 = SBrowser {
                history: if b.history.len() > 0 {
                    b.history.drop_last()
                } else {
                    b.history
                },
                ..b
            };
            if b1.history.len() > 0 {
                spec_go_to(rs, b1, b1.history.last(), false, quiet())
            } else {
                (SBrowser { current: SObject::Dict(b.trailer), ..b1 }, shown())
            }
        },
        SCommand::Stream => match b.current {
            SObject::Stream(dict, data) => match data {
                SData::Val(_) => (b, complained(SComplaint::DetachedStream)),
                SData::Ref(_) => match spec_stream_data(d, start, loc, dict, data, MAX_DEPTH as nat) {
                    Ok(bytes) => (b, SReply { pager: Some(bytes), show: true, ..quiet() }),
                    Err(e) => (b, failed(quiet(), e)),
                },
            },
            _ => (b, complained(SComplaint::NotAStream)),
        },
        SCommand::Page(a) => match spec_parse_usize(a) {
            None => (b, complained(SComplaint::MalformedPage)),
            Some(n) => match spec_find_page(rs, b.root, n, entries) {
                Err(e) => (b, failed(quiet(), e)),
                Ok(r) => spec_go_to(rs, b, r, true, SReply { page: Some(r), ..quiet() }),
            },
        },
        SCommand::Path(ws) => match spec_select(b.current, ws, 0) {
            Err(e) => (b, complained(e)),
            Ok(SObject::Ref(r)) => spec_go_to(rs, b, r, true, quiet()),
            Ok(o) => (b, SReply { print: Some(o), ..quiet() }),
        },
        SCommand::Ref(x, y) => match (spec_parse_u64(x), spec_parse_u16(y)) {
            (Some(num), Some(gen)) => spec_go_to(rs, b, ObjRef { num, gen }, true, quiet()),
            _ => (b, complained(SComplaint::BadRef)),
        },
        SCommand::Unknown => (b, SReply { complaint: Some(SComplaint::Unknown), show: true, ..quiet() }),
    }
}

/// A reply that asks for nothing.
fn no_reply() -> (r: Reply)
    ensures
        r.sv() == quiet(),
{
    Reply { page: None, pager: None, print: None, complaint: None, fatal: None, show: false }
}

/// The reply `base` after an error of reading the file (see [`failed`]).
fn fail_reply(base: Reply, e: Error) -> (r: Reply)
    ensures
        r.sv() == failed(base.sv(), e),
{
    let mut r = base;
    match e {
        Error::Parse(_) => {
            r.complaint = Some(Complaint::Error(e));
        },
        _ => {
            r.fatal = Some(e);
        },
    }
    r
}

impl Browser {
    /// Opens the browser on the trailer of the reader's table (see [`spec_open`]).
    #[verifier::rlimit(50)]
    pub fn new(reader: &mut SimpleReader) -> (r: Result<Browser, Error>)
        requires
            old(reader).wf(),
        ensures
            final(reader).wf(),
            final(reader).sdata() == old(reader).sdata(),
            final(reader).sstart() == old(reader).sstart(),
            final(reader).sxref() == old(reader).sxref(),
            final(reader).slocate() == old(reader).slocate(),
            match r {
                Ok(b) => spec_open(
                    resolver_of(old(reader).sdata(), old(reader).sstart(), old(reader).slocate(), MAX_DEPTH as nat),
                    old(reader).sxref().dict,
                ) == Ok::<SBrowser, Error>(b.sv()),
                Err(e) => spec_open(
                    resolver_of(old(reader).sdata(), old(reader).sstart(), old(reader).slocate(), MAX_DEPTH as nat),
                    old(reader).sxref().dict,
                ) == Err::<SBrowser, Error>(e),
            },
    {
        let trailer = reader.xref().dict.duplicate();
        let root_ref = match trailer.lookup(&root_key()) {
            Object::Ref(x) => x,
            _ => return Err(Error::Parse("Could not find /Root.")),
        };
        let root = match reader.resolve_ref(&root_ref) {
            Err(e) => return Err(e),
            Ok(Object::Dict(d)) => {
                proof {
                    lemma_dict_sv(d);
                }
                d
            },
            Ok(_) => return Err(Error::Parse("Could not find /Root.")),
        };
        let t2 = trailer.duplicate();
        proof {
            lemma_dict_sv(t2);
        }
        let current = Object::Dict(t2);
        let b = Browser { trailer, root_ref, root, history: Vec::new(), current };
        assert(b.sv().history =~= Seq::<ObjRef>::empty());
        assert(b.sv() == SBrowser {
            trailer: old(reader).sxref().dict,
            root_ref,
            root: b.root.sv(),
            history: Seq::empty(),
            current: SObject::Dict(old(reader).sxref().dict),
        });
        Ok(b)
    }

    /// Goes to the object `r` (see [`spec_go_to`]).
    fn go_to(&mut self, reader: &mut SimpleReader, r: ObjRef, push: bool, base: Reply) -> (rep: Reply)
        requires
            old(reader).wf(),
        ensures
            final(reader).wf(),
            final(reader).sdata() == old(reader).sdata(),
            final(reader).sstart() == old(reader).sstart(),
            final(reader).sxref() == old(reader).sxref(),
            final(reader).slocate() == old(reader).slocate(),
            (final(self).sv(), rep.sv()) == spec_go_to(
                resolver_of(old(reader).sdata(), old(reader).sstart(), old(reader).slocate(), MAX_DEPTH as nat),
                old(self).sv(),
                r,
                push,
                base.sv(),
            ),
    {
        match reader.resolve_ref(&r) {
            Ok(o) => {
                self.current = o;
                if push {
                    self.history.push(r);
                }
                let mut rep = base;
                rep.show = true;
                rep
            },
            Err(e) => fail_reply(base, e),
        }
    }
}

impl Browser {
    /// The `up` command: back to the object visited before.
    fn up(&mut self, reader: &mut SimpleReader) -> (rep: Reply)
        requires
            old(reader).wf(),
        ensures
            final(reader).wf(),
            final(reader).sdata() == old(reader).sdata(),
            final(reader).sstart() == old(reader).sstart(),
            final(reader).sxref() == old(reader).sxref(),
            final(reader).slocate() == old(reader).slocate(),
            (final(self).sv(), rep.sv()) == spec_step(
                old(reader).sdata(),
                old(reader).sstart(),
                old(reader).slocate(),
                old(reader).sxref().map.len(),
                old(self).sv(),
                SCommand::Up,
            ),
    {
        if self.history.len() > 0 {
            self.history.pop();
        }
        if self.history.len() > 0 {
            let last = self.history[self.history.len() - 1];
            self.go_to(reader, last, false, no_reply())
        } else {
            let t = self.trailer.duplicate();
            proof {
                lemma_dict_sv(t);
            }
            self.current = Object::Dict(t);
            let mut rep = no_reply();
            rep.show = true;
            rep
        }
    }

    /// The `stream` command: the decoded data of the current stream.
    fn stream(&mut self, reader: &mut SimpleReader) -> (rep: Reply)
        requires
            old(reader).wf(),
        ensures
            final(reader).wf(),
            final(reader).sdata() == old(reader).sdata(),
            final(reader).sstart() == old(reader).sstart(),
            final(reader).sxref() == old(reader).sxref(),
            final(reader).slocate() == old(reader).slocate(),
            (final(self).sv(), rep.sv()) == spec_step(
                old(reader).sdata(),
                old(reader).sstart(),
                old(reader).slocate(),
                old(reader).sxref().map.len(),
                old(self).sv(),
                SCommand::Stream,
            ),
    {
        match &self.current {
            Object::Stream(st) => {
                proof {
                    lemma_stream_sv(*st);
                }
                match st.data {
                    Data::Val(_) => {
                        let mut rep = no_reply();
                        rep.complaint = Some(Complaint::DetachedStream);
                        rep
                    },
                    Data::Ref(_) => match reader.read_stream_data(st) {
                        Ok(bytes) => {
                            let mut rep = no_reply();
                            rep.pager = Some(bytes);
                            rep.show = true;
                            rep
                        },
                        Err(e) => fail_reply(no_reply(), e),
                    },
                }
            },
            _ => {
                let mut rep = no_reply();
                rep.complaint = Some(Complaint::NotAStream);
                rep
            },
        }
    }

    /// The `page N` command: to the N-th page.
    fn page(&mut self, reader: &mut SimpleReader, arg: Vec<u8>) -> (rep: Reply)
        requires
            old(reader).wf(),
        ensures
            final(reader).wf(),
            final(reader).sdata() == old(reader).sdata(),
            final(reader).sstart() == old(reader).sstart(),
            final(reader).sxref() == old(reader).sxref(),
            final(reader).slocate() == old(reader).slocate(),
            (final(self).sv(), rep.sv()) == spec_step(
                old(reader).sdata(),
                old(reader).sstart(),
                old(reader).slocate(),
                old(reader).sxref().map.len(),
                old(self).sv(),
                SCommand::Page(arg@),
            ),
    {
        match parse_usize(arg.as_slice()) {
            None => {
                let mut rep = no_reply();
                rep.complaint = Some(Complaint::MalformedPage);
                rep
            },
            Some(n) => match find_page(reader, &self.root, n) {
                Err(e) => fail_reply(no_reply(), e),
                Ok(r) => {
                    let mut base = no_reply();
                    base.page = Some(r);
                    self.go_to(reader, r, true, base)
                },
            },
        }
    }

    /// A path: to the object it leads to if that is a reference, else print it.
    fn path(&mut self, reader: &mut SimpleReader, ws: Vec<Vec<u8>>) -> (rep: Reply)
        requires
            old(reader).wf(),
        ensures
            final(reader).wf(),
            final(reader).sdata() == old(reader).sdata(),
            final(reader).sstart() == old(reader).sstart(),
            final(reader).sxref() == old(reader).sxref(),
            final(reader).slocate() == old(reader).slocate(),
            (final(self).sv(), rep.sv()) == spec_step(
                old(reader).sdata(),
                old(reader).sstart(),
                old(reader).slocate(),
                old(reader).sxref().map.len(),
                old(self).sv(),
                SCommand::Path(ws@.map_values(|w: Vec<u8>| w@)),
            ),
    {
        match select(&self.current, &ws) {
            Err(c) => {
                let mut rep = no_reply();
                rep.complaint = Some(c);
                rep
            },
            Ok(Object::Ref(r)) => self.go_to(reader, r, true, no_reply()),
            Ok(o) => {
                let mut rep = no_reply();
                rep.print = Some(o);
                rep
            },
        }
    }

    /// The `num gen` command: to the object with this reference.
    fn reference(&mut self, reader: &mut SimpleReader, x: Vec<u8>, y: Vec<u8>) -> (rep: Reply)
        requires
            old(reader).wf(),
        ensures
            final(reader).wf(),
            final(reader).sdata() == old(reader).sdata(),
            final(reader).sstart() == old(reader).sstart(),
            final(reader).sxref() == old(reader).sxref(),
            final(reader).slocate() == old(reader).slocate(),
            (final(self).sv(), rep.sv()) == spec_step(
                old(reader).sdata(),
                old(reader).sstart(),
                old(reader).slocate(),
                old(reader).sxref().map.len(),
                old(self).sv(),
                SCommand::Ref(x@, y@),
            ),
    {
        match (parse_num(x.as_slice()), parse_num_u16(y.as_slice())) {
            (Some(num), Some(gen)) => self.go_to(reader, ObjRef { num, gen }, true, no_reply()),
            _ => {
                let mut rep = no_reply();
                rep.complaint = Some(Complaint::BadRef);
                rep
            },
        }
    }

    /// Carries out a command (see [`spec_step`]).
    pub fn step(&mut self, reader: &mut SimpleReader, cmd: Command) -> (rep: Reply)
        requires
            old(reader).wf(),
        ensures
            final(reader).wf(),
            final(reader).sdata() == old(reader).sdata(),
            final(reader).sstart() == old(reader).sstart(),
            final(reader).sxref() == old(reader).sxref(),
            final(reader).slocate() == old(reader).slocate(),
            (final(self).sv(), rep.sv()) == spec_step(
                old(reader).sdata(),
                old(reader).sstart(),
                old(reader).slocate(),
                old(reader).sxref().map.len(),
                old(self).sv(),
                cmd.sv(),
            ),
    {
        match cmd {
            Command::Top => {
                self.history = Vec::new();
                let t = self.trailer.duplicate();
                proof {
                    lemma_dict_sv(t);
                }
                self.current = Object::Dict(t);
                assert(self.history@ =~= Seq::<ObjRef>::empty());
                let mut rep = no_reply();
                rep.show = true;
                rep
            },
            Command::Root => {
                let mut h = Vec::new();
                h.push(self.root_ref);
                self.history = h;
                assert(self.history@ =~= seq![self.root_ref]);
                let r = self.root_ref;
                self.go_to(reader, r, false, no_reply())
            },
            Command::Up => self.up(reader),
            Command::Stream => self.stream(reader),
            Command::Page(arg) => self.page(reader, arg),
            Command::Path(ws) => self.path(reader, ws),
            Command::Ref(x, y) => self.reference(reader, x, y),
            Command::Unknown => {
                let mut rep = no_reply();
                rep.complaint = Some(Complaint::Unknown);
                rep.show = true;
                rep
            },
        }
    }
}

} // verus!
