use vstd::prelude::*;
use crate::base::{eof, Error, IoError};
use crate::bp::{ByteProvider, is_eol, CR, LF};
use crate::cc::{is_delim, is_reg, is_space, is_regular, is_white};

verus! {

/// `<`
pub const LT: u8 = 0x3C;
/// `>`
pub const GT: u8 = 0x3E;
/// `%`
pub const PERCENT: u8 = 0x25;
/// ` `
pub const SPACE: u8 = 0x20;

/// The position after the white space and comments that start at `p`. Inside a comment
/// (`in_comment`) everything up to the end of line is skipped.
pub open spec fn ws_end(d: Seq<u8>, p: int, in_comment: bool) -> int
    decreases d.len() - p,
{
    if !(0 <= p < d.len()) {
        p
    } else if in_comment {
        if is_eol(d[p]) {
            ws_end(d, p + 1, false)
        } else {
            ws_end(d, p + 1, true)
        }
    } else if is_space(d[p]) {
        ws_end(d, p + 1, false)
    } else if d[p] == PERCENT {
        ws_end(d, p + 1, true)
    } else {
        p
    }
}

/// The end of the run of regular bytes that starts at `p`.
pub open spec fn reg_end(d: Seq<u8>, p: int) -> int
    decreases d.len() - p,
{
    if 0 <= p < d.len() && is_reg(d[p]) {
        reg_end(d, p + 1)
    } else {
        p
    }
}

/// The end of the run of white-space bytes that starts at `p`.
pub open spec fn space_end(d: Seq<u8>, p: int) -> int
    decreases d.len() - p,
{
    if 0 <= p < d.len() && is_space(d[p]) {
        space_end(d, p + 1)
    } else {
        p
    }
}

/// The end of the comment text (up to, not including, the end of line) that starts at `p`.
pub open spec fn comment_end(d: Seq<u8>, p: int) -> int
    decreases d.len() - p,
{
    if 0 <= p < d.len() && !is_eol(d[p]) {
        comment_end(d, p + 1)
    } else {
        p
    }
}

/// Reading one token at `p`, after skipping white space and comments: `<<` or `>>`, a single
/// other delimiter, or a maximal run of regular bytes. The end of data is an error.
/// Gives the result and the position reached.
pub open spec fn spec_read_token(d: Seq<u8>, p: int) -> (Result<Seq<u8>, Error>, int) {
    let q = ws_end(d, p, false);
    if !(0 <= q < d.len()) {
        (Err(eof()), q)
    } else {
        let c = d[q];
        if is_delim(c) {
            if (c == LT || c == GT) && q + 1 < d.len() && d[q + 1] == c {
                (Ok(seq![c, c]), q + 2)
            } else {
                (Ok(seq![c]), q + 1)
            }
        } else {
            let e = reg_end(d, q + 1);
            (Ok(d.subrange(q, e)), e)
        }
    }
}

/// Reading an end-of-line marker: CR, LF or CR LF.
pub open spec fn spec_read_eol(d: Seq<u8>, p: int) -> (Result<(), Error>, int) {
    if 0 <= p < d.len() && d[p] == CR {
        if p + 1 < d.len() && d[p + 1] == LF {
            (Ok(()), p + 2)
        } else {
            (Ok(()), p + 1)
        }
    } else if 0 <= p < d.len() && d[p] == LF {
        (Ok(()), p + 1)
    } else {
        (Err(Error::Parse("EOL expected but not found")), p)
    }
}

pub proof fn lemma_ws_end_bounds(d: Seq<u8>, p: int, c: bool)
    requires
        0 <= p,
    ensures
        p <= ws_end(d, p, c),
        p <= d.len() ==> ws_end(d, p, c) <= d.len(),
        ws_end(d, p, c) < d.len() ==> !c || p < ws_end(d, p, c),
        ws_end(d, p, c) < d.len() ==> !is_space(d[ws_end(d, p, c)]) && d[ws_end(d, p, c)]
            != PERCENT,
    decreases d.len() - p,
{
    if 0 <= p < d.len() {
        if c {
            lemma_ws_end_bounds(d, p + 1, !is_eol(d[p]));
        } else if is_space(d[p]) || d[p] == PERCENT {
            lemma_ws_end_bounds(d, p + 1, d[p] == PERCENT);
        }
    }
}

pub proof fn lemma_reg_end_bounds(d: Seq<u8>, p: int)
    requires
        0 <= p,
    ensures
        p <= reg_end(d, p),
        p <= d.len() ==> reg_end(d, p) <= d.len(),
        forall|k: int| p <= k < reg_end(d, p) ==> is_reg(#[trigger] d[k]),
        reg_end(d, p) < d.len() ==> !is_reg(d[reg_end(d, p)]),
    decreases d.len() - p,
{
    if 0 <= p < d.len() && is_reg(d[p]) {
        lemma_reg_end_bounds(d, p + 1);
    }
}

/// A token read from a non-empty position is non-empty and ends after the position.
pub proof fn lemma_read_token_progress(d: Seq<u8>, p: int)
    requires
        0 <= p,
    ensures
        spec_read_token(d, p).1 >= p,
        spec_read_token(d, p).0 matches Ok(t) ==> t.len() > 0 && spec_read_token(d, p).1 > p
            && spec_read_token(d, p).1 <= d.len(),
        spec_read_token(d, p).0 is Err ==> spec_read_token(d, p).1 >= d.len(),
{
    lemma_ws_end_bounds(d, p, false);
    let q = ws_end(d, p, false);
    if 0 <= q < d.len() && !is_delim(d[q]) {
        lemma_reg_end_bounds(d, q + 1);
    }
}

impl ByteProvider {
    /// Skips white space and comments (`%` up to the end of line).
    pub fn skip_ws(&mut self) -> (r: Result<(), Error>)
        ensures
            r is Ok,
            final(self).sdata() == old(self).sdata(),
            final(self).spos() == ws_end(old(self).sdata(), old(self).spos(), false),
    {
        let n = self.len();
        let mut in_comment = false;
        loop
            invariant
                self.sdata().len() == n,
                ws_end(self.sdata(), old(self).spos(), false) == ws_end(
                    self.sdata(),
                    self.spos(),
                    in_comment,
                ),
                self.sdata() == old(self).sdata(),
            decreases n - self.spos(),
        {
            let p = self.pos();
            match self.peek() {
                None => {
                    return Ok(());
                },
                Some(c) => {
                    if in_comment {
                        in_comment = !(c == LF || c == CR);
                    } else if is_white(c) || c == PERCENT {
                        in_comment = c == PERCENT;
                    } else {
                        return Ok(());
                    }
                    self.seek_to(p + 1);
                },
            }
        }
    }

    /// Reads a token, after skipping white space and comments (see [`spec_read_token`]).
    pub fn read_token(&mut self) -> (r: Result<Vec<u8>, Error>)
        ensures
            final(self).sdata() == old(self).sdata(),
            (crate::bp::bytes_result(r), final(self).spos()) == spec_read_token(
                old(self).sdata(),
                old(self).spos(),
            ),
    {
        let _ = self.skip_ws();
        proof {
            lemma_ws_end_bounds(self.sdata(), old(self).spos(), false);
        }
        let c = self.next_or_eof()?;
        assert(c == old(self).sdata()[ws_end(old(self).sdata(), old(self).spos(), false)]);
        if !is_regular(c) {
            assert(is_delim(c));
            let mut t: Vec<u8> = Vec::new();
            t.push(c);
            if (c == LT || c == GT) && self.next_if_eq(c).is_some() {
                t.push(c);
                assert(t@ =~= seq![c, c]);
            } else {
                assert(t@ =~= seq![c]);
            }
            Ok(t)
        } else {
            let mut ret: Vec<u8> = Vec::new();
            ret.push(c);
            let ghost q = self.spos() - 1;
            let ghost d = self.sdata();
            assert(ret@ =~= d.subrange(q, self.spos()));
            let n = self.len();
            loop
                invariant
                    self.sdata() == d,
                    d == old(self).sdata(),
                    n == d.len(),
                    q + 1 <= self.spos() <= d.len(),
                    0 <= q < d.len(),
                    q == ws_end(d, old(self).spos(), false),
                    is_reg(d[q]),
                    ret@ == d.subrange(q, self.spos()),
                    reg_end(d, q + 1) == reg_end(d, self.spos()),
                decreases n - self.spos(),
            {
                match self.peek() {
                    Some(c2) => {
                        if is_regular(c2) {
                            ret.push(c2);
                            let p = self.pos();
                            self.seek_to(p + 1);
                            assert(ret@ =~= d.subrange(q, self.spos()));
                        } else {
                            assert(reg_end(d, self.spos()) == self.spos());
                            return Ok(ret);
                        }
                    },
                    None => {
                        assert(reg_end(d, self.spos()) == self.spos());
                        return Ok(ret);
                    },
                }
            }
        }
    }

    /// Reads an end-of-line marker (CR, LF or CR LF).
    pub fn read_eol(&mut self) -> (r: Result<(), Error>)
        ensures
            final(self).sdata() == old(self).sdata(),
            (r, final(self).spos()) == spec_read_eol(old(self).sdata(), old(self).spos()),
    {
        let a = self.next_if_eq(CR);
        let b = self.next_if_eq(LF);
        match (a, b) {
            (None, None) => Err(Error::Parse("EOL expected but not found")),
            _ => Ok(()),
        }
    }
}

} // verus!

verus! {

/// Reading one token the way the stack-based [`Tokenizer`] does: a run of white space and a
/// comment each make a one-space token `b" "`.
pub open spec fn spec_spaced_token(d: Seq<u8>, p: int) -> (Result<Seq<u8>, Error>, int) {
    if !(0 <= p < d.len()) {
        (Err(eof()), p)
    } else {
        let c = d[p];
        if is_delim(c) {
            if (c == LT || c == GT) && p + 1 < d.len() && d[p + 1] == c {
                (Ok(seq![c, c]), p + 2)
            } else if c == PERCENT {
                (Ok(seq![SPACE]), comment_end(d, p + 1))
            } else {
                (Ok(seq![c]), p + 1)
            }
        } else if is_space(c) {
            (Ok(seq![SPACE]), space_end(d, p + 1))
        } else {
            let e = reg_end(d, p + 1);
            (Ok(d.subrange(p, e)), e)
        }
    }
}

pub proof fn lemma_space_end_bounds(d: Seq<u8>, p: int)
    requires
        0 <= p,
    ensures
        p <= space_end(d, p),
        p <= d.len() ==> space_end(d, p) <= d.len(),
        ws_end(d, space_end(d, p), false) == ws_end(d, p, false),
    decreases d.len() - p,
{
    if 0 <= p < d.len() && is_space(d[p]) {
        lemma_space_end_bounds(d, p + 1);
    }
}

pub proof fn lemma_comment_end_bounds(d: Seq<u8>, p: int)
    requires
        0 <= p,
    ensures
        p <= comment_end(d, p),
        p <= d.len() ==> comment_end(d, p) <= d.len(),
        ws_end(d, comment_end(d, p), false) == ws_end(d, p, true),
    decreases d.len() - p,
{
    if 0 <= p < d.len() && !is_eol(d[p]) {
        lemma_comment_end_bounds(d, p + 1);
    }
}

pub proof fn lemma_spaced_token_progress(d: Seq<u8>, p: int)
    requires
        0 <= p,
    ensures
        spec_spaced_token(d, p).0 is Ok ==> p < spec_spaced_token(d, p).1 <= d.len(),
        spec_spaced_token(d, p).0 is Err ==> spec_spaced_token(d, p).1 == p,
{
    if 0 <= p < d.len() {
        lemma_comment_end_bounds(d, p + 1);
        lemma_space_end_bounds(d, p + 1);
        lemma_reg_end_bounds(d, p + 1);
    }
}

/// Reading tokens the spaced way until one is not `b" "`.
pub open spec fn spec_spaced_token_nonempty(d: Seq<u8>, p: int) -> (Result<Seq<u8>, Error>, int)
    decreases d.len() - p,
{
    let r = spec_spaced_token(d, p);
    match r.0 {
        Ok(t) => if t == seq![SPACE] && p < r.1 <= d.len() {
            spec_spaced_token_nonempty(d, r.1)
        } else {
            r
        },
        Err(_) => r,
    }
}

/// Skipping one-space tokens of the stack-based tokenizer reads the same token, and reaches
/// the same position, as [`ByteProvider::read_token`].
pub proof fn law_spaced_nonempty_is_read_token(d: Seq<u8>, p: int)
    requires
        0 <= p,
    ensures
        spec_spaced_token_nonempty(d, p) == spec_read_token(d, p),
    decreases d.len() - p,
{
    if 0 <= p < d.len() {
        let c = d[p];
        if c == PERCENT {
            lemma_comment_end_bounds(d, p + 1);
            assert(ws_end(d, p, false) == ws_end(d, p + 1, true));
            law_spaced_nonempty_is_read_token(d, comment_end(d, p + 1));
        } else if is_space(c) {
            lemma_space_end_bounds(d, p + 1);
            assert(ws_end(d, p, false) == ws_end(d, p + 1, false));
            law_spaced_nonempty_is_read_token(d, space_end(d, p + 1));
        } else if is_delim(c) {
            assert(ws_end(d, p, false) == p);
            assert(seq![c][0] == c);
            assert(seq![c] != seq![SPACE]);
            assert(seq![c, c].len() != seq![SPACE].len());
        } else {
            assert(ws_end(d, p, false) == p);
            let e = reg_end(d, p + 1);
            lemma_reg_end_bounds(d, p + 1);
            assert(d.subrange(p, e)[0] == c);
            assert(d.subrange(p, e) != seq![SPACE]);
        }
    }
}

/// The stack-based tokenizer: white space and comments are read as one-space tokens, and read
/// tokens can be pushed back to be read again.
pub struct Tokenizer {
    /// The underlying bytes.
    pub bytes: ByteProvider,
    /// Tokens pushed back, the last one to be read first.
    pub stack: Vec<Vec<u8>>,
}

/// The pushed-back tokens as sequences.
pub open spec fn stack_view(st: Seq<Vec<u8>>) -> Seq<Seq<u8>> {
    st.map_values(|t: Vec<u8>| t@)
}

/// What [`Tokenizer::next`] gives in a state (data, position, stack): the token, the position
/// and the stack after the call.
pub open spec fn spec_tok_next(d: Seq<u8>, p: int, st: Seq<Seq<u8>>) -> (
    Result<Seq<u8>, Error>,
    int,
    Seq<Seq<u8>>,
) {
    if st.len() > 0 {
        (Ok(st.last()), p, st.drop_last())
    } else {
        let r = spec_spaced_token_nonempty(d, p);
        (r.0, r.1, st)
    }
}

/// A pushed-back token is the next one read, and reading it restores the state from before the
/// push.
pub proof fn law_unread_then_next(d: Seq<u8>, p: int, st: Seq<Seq<u8>>, tk: Seq<u8>)
    ensures
        spec_tok_next(d, p, st.push(tk)) == (Ok::<Seq<u8>, Error>(tk), p, st),
{
    assert(st.push(tk).drop_last() =~= st);
}

/// With nothing pushed back, the stack-based tokenizer reads the same token, and reaches the same
/// position, as [`ByteProvider::read_token`].
pub proof fn law_tok_next_is_read_token(d: Seq<u8>, p: int)
    requires
        0 <= p,
    ensures
        spec_tok_next(d, p, Seq::empty()).0 == spec_read_token(d, p).0,
        spec_tok_next(d, p, Seq::empty()).1 == spec_read_token(d, p).1,
{
    law_spaced_nonempty_is_read_token(d, p);
}

/// Reads one token: white space and comments give `b" "` (see [`spec_spaced_token`]).
pub fn read_token(bytes: &mut ByteProvider) -> (r: Result<Vec<u8>, Error>)
    ensures
        final(bytes).sdata() == old(bytes).sdata(),
        (crate::bp::bytes_result(r), final(bytes).spos()) == spec_spaced_token(
            old(bytes).sdata(),
            old(bytes).spos(),
        ),
{
    let ghost d = bytes.sdata();
    let ghost p = bytes.spos();
    let c = bytes.next_or_eof()?;
    let mut t: Vec<u8> = Vec::new();
    if !is_regular(c) && !is_white(c) {
        t.push(c);
        if (c == LT || c == GT) && bytes.next_if_eq(c).is_some() {
            t.push(c);
            assert(t@ =~= seq![c, c]);
            Ok(t)
        } else if c == PERCENT {
            let n = bytes.len();
            loop
                invariant
                    bytes.sdata() == d,
                    d == old(bytes).sdata(),
                    p == old(bytes).spos(),
                    0 <= p < d.len(),
                    d[p] == PERCENT,
                    n == d.len(),
                    p + 1 <= bytes.spos(),
                    comment_end(d, p + 1) == comment_end(d, bytes.spos()),
                decreases n - bytes.spos(),
            {
                let stop = match bytes.peek() {
                    Some(c2) => c2 == LF || c2 == CR,
                    None => true,
                };
                if stop {
                    assert(comment_end(d, bytes.spos()) == bytes.spos());
                    let mut sp: Vec<u8> = Vec::new();
                    sp.push(SPACE);
                    assert(sp@ =~= seq![SPACE]);
                    return Ok(sp);
                }
                let q = bytes.pos();
                bytes.seek_to(q + 1);
            }
        } else {
            assert(t@ =~= seq![c]);
            Ok(t)
        }
    } else if is_white(c) {
        let n = bytes.len();
        loop
            invariant
                bytes.sdata() == d,
                d == old(bytes).sdata(),
                p == old(bytes).spos(),
                0 <= p < d.len(),
                is_space(d[p]),
                t@ == Seq::<u8>::empty(),
                n == d.len(),
                p + 1 <= bytes.spos(),
                space_end(d, p + 1) == space_end(d, bytes.spos()),
            decreases n - bytes.spos(),
        {
            let stop = match bytes.peek() {
                Some(c2) => !is_white(c2),
                None => true,
            };
            if stop {
                assert(space_end(d, bytes.spos()) == bytes.spos());
                t.push(SPACE);
                assert(t@ =~= seq![SPACE]);
                return Ok(t);
            }
            let q = bytes.pos();
            bytes.seek_to(q + 1);
        }
    } else {
        t.push(c);
        let n = bytes.len();
        loop
            invariant
                bytes.sdata() == d,
                d == old(bytes).sdata(),
                p == old(bytes).spos(),
                is_reg(d[p]),
                n == d.len(),
                n == bytes.data.len(),
                0 <= p < d.len(),
                p + 1 <= bytes.spos() <= d.len(),
                t@ == d.subrange(p, bytes.spos()),
                reg_end(d, p + 1) == reg_end(d, bytes.spos()),
            decreases n - bytes.spos(),
        {
            let stop = match bytes.peek() {
                Some(c2) => !is_regular(c2),
                None => true,
            };
            if stop {
                assert(reg_end(d, bytes.spos()) == bytes.spos());
                return Ok(t);
            }
            let c2 = bytes.data[bytes.pos as usize];
            t.push(c2);
            let q = bytes.pos();
            bytes.seek_to(q + 1);
            assert(t@ =~= d.subrange(p, bytes.spos()));
        }
    }
}

/// Reads tokens until one is not `b" "`.
pub fn read_token_nonempty(bytes: &mut ByteProvider) -> (r: Result<Vec<u8>, Error>)
    ensures
        final(bytes).sdata() == old(bytes).sdata(),
        (crate::bp::bytes_result(r), final(bytes).spos()) == spec_spaced_token_nonempty(
            old(bytes).sdata(),
            old(bytes).spos(),
        ),
{
    let ghost d = bytes.sdata();
    let n = bytes.len();
    loop
        invariant
            bytes.sdata() == d,
            d == old(bytes).sdata(),
            n == d.len(),
            spec_spaced_token_nonempty(d, old(bytes).spos()) == spec_spaced_token_nonempty(
                d,
                bytes.spos(),
            ),
        decreases n - bytes.spos(),
    {
        let ghost p = bytes.spos();
        proof {
            lemma_spaced_token_progress(d, p);
        }
        let tk = read_token(bytes)?;
        if !(tk.len() == 1 && tk[0] == SPACE) {
            assert(tk@ != seq![SPACE]);
            return Ok(tk);
        }
        assert(tk@ =~= seq![SPACE]);
        proof {
            if p < d.len() {
                if d[p] == PERCENT {
                    lemma_comment_end_bounds(d, p + 1);
                } else {
                    lemma_space_end_bounds(d, p + 1);
                }
            }
        }
    }
}


impl Tokenizer {
    /// The pushed-back tokens.
    pub open spec fn sstack(&self) -> Seq<Seq<u8>> {
        stack_view(self.stack@)
    }

    /// Creates a tokenizer reading from `bytes`, with nothing pushed back.
    pub fn new(bytes: ByteProvider) -> (r: Tokenizer)
        ensures
            r.bytes == bytes,
            r.sstack() == Seq::<Seq<u8>>::empty(),
    {
        let r = Tokenizer { bytes, stack: Vec::new() };
        assert(r.sstack() =~= Seq::<Seq<u8>>::empty());
        r
    }

    /// Creates a tokenizer reading a copy of `data` from its start.
    pub fn from_bytes(data: &[u8]) -> (r: Tokenizer)
        ensures
            r.bytes.sdata() == data@,
            r.bytes.spos() == 0,
            r.sstack() == Seq::<Seq<u8>>::empty(),
    {
        Tokenizer::new(ByteProvider::from_bytes(data))
    }

    /// Reads one token from the bytes (ignoring pushed-back tokens): white space and comments
    /// give `b" "` (see [`spec_spaced_token`]).
    pub fn read_token(&mut self) -> (r: Result<Vec<u8>, Error>)
        ensures
            final(self).bytes.sdata() == old(self).bytes.sdata(),
            final(self).stack == old(self).stack,
            (crate::bp::bytes_result(r), final(self).bytes.spos()) == spec_spaced_token(
                old(self).bytes.sdata(),
                old(self).bytes.spos(),
            ),
    {
        read_token(&mut self.bytes)
    }

    /// Reads tokens from the bytes until one is not `b" "`.
    pub fn read_token_nonempty(&mut self) -> (r: Result<Vec<u8>, Error>)
        ensures
            final(self).bytes.sdata() == old(self).bytes.sdata(),
            final(self).stack == old(self).stack,
            (crate::bp::bytes_result(r), final(self).bytes.spos()) == spec_spaced_token_nonempty(
                old(self).bytes.sdata(),
                old(self).bytes.spos(),
            ),
    {
        read_token_nonempty(&mut self.bytes)
    }

    /// The next token: the last one pushed back, or else the next non-space token read.
    pub fn next(&mut self) -> (r: Result<Vec<u8>, Error>)
        ensures
            final(self).bytes.sdata() == old(self).bytes.sdata(),
            (crate::bp::bytes_result(r), final(self).bytes.spos(), final(self).sstack())
                == spec_tok_next(old(self).bytes.sdata(), old(self).bytes.spos(), old(self).sstack()),
    {
        match self.stack.pop() {
            Some(tk) => {
                assert(self.sstack() =~= old(self).sstack().drop_last());
                Ok(tk)
            },
            None => self.read_token_nonempty(),
        }
    }

    /// Pushes a token back, to be read again by the next call of [`Tokenizer::next`].
    pub fn unread(&mut self, tk: Vec<u8>)
        ensures
            final(self).bytes == old(self).bytes,
            final(self).sstack() == old(self).sstack().push(tk@),
    {
        self.stack.push(tk);
        assert(self.sstack() =~= old(self).sstack().push(tk@));
    }

    /// The underlying bytes, for reading them directly. Nothing may be pushed back.
    pub fn bytes(&mut self) -> (r: &mut ByteProvider)
        requires
            old(self).sstack().len() == 0,
        ensures
            *r == old(self).bytes,
            final(self).bytes == *final(r),
            final(self).stack == old(self).stack,
    {
        &mut self.bytes
    }

    /// Moves to a position, dropping pushed-back tokens.
    pub fn seek_to(&mut self, pos: u64) -> (r: Result<(), Error>)
        ensures
            r is Ok,
            final(self).bytes.sdata() == old(self).bytes.sdata(),
            final(self).bytes.spos() == pos,
            final(self).sstack() == Seq::<Seq<u8>>::empty(),
    {
        self.stack.clear();
        self.bytes.seek_to(pos);
        assert(self.sstack() =~= Seq::<Seq<u8>>::empty());
        Ok(())
    }

    /// The position in the bytes. Nothing may be pushed back.
    pub fn pos(&self) -> (r: u64)
        requires
            self.sstack().len() == 0,
        ensures
            r == self.bytes.spos(),
    {
        self.bytes.pos()
    }
}

} // verus!
