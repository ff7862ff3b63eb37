use vstd::prelude::*;

use crate::bytes::{append_bytes, bytes_eq, CR, LF, QUOTE};
use crate::error::ServeError;
use crate::search::{
    copy_range, ends_at, ends_at_exec, find_end, first_end, first_end_pos, lemma_ends_at_extend,
    lemma_first_end_extend, lemma_first_end_unique, occurs,
};

verus! {

/// The most header bytes that are held while looking for the blank line.
pub const HEADER_CAP: usize = 512;

pub open spec fn crlf() -> Seq<u8> {
    seq![CR, LF]
}

/// The blank line that ends the part's header section.
pub open spec fn separator() -> Seq<u8> {
    seq![CR, LF, CR, LF]
}

/// The text `filename="`.
pub open spec fn filename_token() -> Seq<u8> {
    seq![102u8, 105u8, 108u8, 101u8, 110u8, 97u8, 109u8, 101u8, 61u8, QUOTE]
}

/// `v` holds neither a carriage return nor a line feed.
pub open spec fn no_line_break(v: Seq<u8>) -> bool {
    forall|i: int| 0 <= i < v.len() ==> v[i] != CR && v[i] != LF
}

/// Whether `v` holds neither a carriage return nor a line feed.
pub fn has_no_line_break(v: &[u8]) -> (r: bool)
    ensures
        r == no_line_break(v@),
{
    let mut i: usize = 0;
    while i < v.len()
        invariant
            i <= v@.len(),
            forall|j: int| 0 <= j < i ==> v@[j] != CR && v@[j] != LF,
        decreases v@.len() - i,
    {
        if v[i] == CR || v[i] == LF {
            return false;
        }
        i = i + 1;
    }
    true
}

pub open spec fn quote() -> Seq<u8> {
    seq![QUOTE]
}

/// `p` is the length of the header section of `s`: the blank line ends there
/// for the first time, within the buffer's bound.
pub open spec fn header_len_is(s: Seq<u8>, p: int) -> bool {
    p <= HEADER_CAP && first_end(s, separator(), p)
}

pub open spec fn has_header(s: Seq<u8>) -> bool {
    occurs(s, separator()) && first_end_pos(s, separator()) <= HEADER_CAP
}

pub open spec fn header_of(s: Seq<u8>) -> Seq<u8> {
    s.take(first_end_pos(s, separator()))
}

pub open spec fn body_of(s: Seq<u8>) -> Seq<u8> {
    s.skip(first_end_pos(s, separator()))
}

/// The file name and the body terminator that a header section announces.
/// The name is the quoted value after the first `filename="`; the terminator
/// is a line break followed by the header's first line, the boundary line.
/// Both must be non-empty, and the name must close on its own line.
pub open spec fn header_fields(h: Seq<u8>) -> Option<(Seq<u8>, Seq<u8>)> {
    if occurs(h, filename_token()) {
        let rest = h.skip(first_end_pos(h, filename_token()));
        if occurs(rest, quote()) && first_end_pos(rest, quote()) > 1 && no_line_break(
            rest.take(first_end_pos(rest, quote()) - 1),
        ) && occurs(h, crlf()) && first_end_pos(h, crlf()) > 2 {
            Some(
                (
                    rest.take(first_end_pos(rest, quote()) - 1),
                    crlf() + h.take(first_end_pos(h, crlf()) - 2),
                ),
            )
        } else {
            None
        }
    } else {
        None
    }
}

/// The file's content within a body: everything before the first
/// terminator, or the whole body where none comes.
pub open spec fn payload_of(b: Seq<u8>, t: Seq<u8>) -> Seq<u8> {
    if occurs(b, t) {
        b.take(first_end_pos(b, t) - t.len())
    } else {
        b
    }
}

/// What a complete form body `s` yields: the uploaded file's name and
/// content, or the error that the form gives.
pub open spec fn form_result(s: Seq<u8>) -> Result<(Seq<u8>, Seq<u8>), ServeError> {
    if !has_header(s) {
        if s.len() > HEADER_CAP {
            Err(ServeError::FormTooLongError)
        } else {
            Err(ServeError::MalformedFormError)
        }
    } else {
        match header_fields(header_of(s)) {
            None => Err(ServeError::MalformedFormError),
            Some(f) => Ok((f.0, payload_of(body_of(s), f.1))),
        }
    }
}

/// The payload bytes that the scanner has handed out after reading `s`: all
/// of the body but the last bytes that could still begin a terminator.
pub open spec fn emitted(s: Seq<u8>) -> Seq<u8> {
    if has_header(s) && header_fields(header_of(s)) is Some {
        let t = header_fields(header_of(s))->Some_0.1;
        let b = body_of(s);
        if occurs(b, t) {
            payload_of(b, t)
        } else if b.len() + 1 >= t.len() {
            b.take(b.len() + 1 - t.len())
        } else {
            Seq::empty()
        }
    } else {
        Seq::empty()
    }
}

pub open spec fn opt_seq(o: Option<u8>) -> Seq<u8> {
    match o {
        Some(x) => seq![x],
        None => Seq::empty(),
    }
}

fn crlf_bytes() -> (r: Vec<u8>)
    ensures
        r@ == crlf(),
{
    let mut r: Vec<u8> = Vec::new();
    r.push(CR);
    r.push(LF);
    assert(r@ =~= crlf());
    r
}

fn separator_bytes() -> (r: Vec<u8>)
    ensures
        r@ == separator(),
{
    let mut r = crlf_bytes();
    r.push(CR);
    r.push(LF);
    assert(r@ =~= separator());
    r
}

fn filename_token_bytes() -> (r: Vec<u8>)
    ensures
        r@ == filename_token(),
{
    let mut r: Vec<u8> = Vec::new();
    r.push(102u8);
    r.push(105u8);
    r.push(108u8);
    r.push(101u8);
    r.push(110u8);
    r.push(97u8);
    r.push(109u8);
    r.push(101u8);
    r.push(61u8);
    r.push(QUOTE);
    assert(r@ =~= filename_token());
    r
}

/// Reads the file name and the body terminator out of a header section.
pub fn parse_header(h: &[u8]) -> (r: Option<(Vec<u8>, Vec<u8>)>)
    ensures
        r is Some <==> header_fields(h@) is Some,
        r is Some ==> r->Some_0.0@ == header_fields(h@)->Some_0.0 && r->Some_0.1@
            == header_fields(h@)->Some_0.1,
        r is Some ==> r->Some_0.0@.len() <= h@.len() && r->Some_0.1@.len() <= h@.len(),
{
    let tok = filename_token_bytes();
    let e = match find_end(h, tok.as_slice()) {
        Some(e) => e,
        None => return None,
    };
    proof {
        lemma_first_end_unique(h@, filename_token(), e as int);
    }
    let rest = copy_range(h, e, h.len());
    assert(rest@ =~= h@.skip(e as int));
    let mut q_bytes: Vec<u8> = Vec::new();
    q_bytes.push(QUOTE);
    assert(q_bytes@ =~= quote());
    let q = match find_end(rest.as_slice(), q_bytes.as_slice()) {
        Some(q) => q,
        None => return None,
    };
    proof {
        lemma_first_end_unique(rest@, quote(), q as int);
    }
    if q <= 1 {
        return None;
    }
    let nl = crlf_bytes();
    let k = match find_end(h, nl.as_slice()) {
        Some(k) => k,
        None => return None,
    };
    proof {
        lemma_first_end_unique(h@, crlf(), k as int);
    }
    if k <= 2 {
        return None;
    }
    let name = copy_range(rest.as_slice(), 0, q - 1);
    assert(name@ =~= rest@.take(q - 1));
    if !has_no_line_break(name.as_slice()) {
        return None;
    }
    let boundary = copy_range(h, 0, k - 2);
    let mut term = crlf_bytes();
    append_bytes(&mut term, boundary.as_slice());
    assert(name@ =~= rest@.take(q - 1));
    assert(boundary@ =~= h@.take(k - 2));
    Some((name, term))
}

} // verus!

verus! {

proof fn lemma_header_extend(s: Seq<u8>, x: u8, p: int)
    requires
        header_len_is(s, p),
    ensures
        header_len_is(s.push(x), p),
        has_header(s),
        has_header(s.push(x)),
        header_of(s) == s.take(p),
        header_of(s.push(x)) == s.take(p),
        body_of(s) == s.skip(p),
        body_of(s.push(x)) == s.skip(p).push(x),
{
    assert(s.push(x) =~= s + seq![x]);
    lemma_first_end_extend(s, seq![x], separator(), p);
    lemma_first_end_unique(s, separator(), p);
    lemma_first_end_unique(s.push(x), separator(), p);
    assert(s.push(x).take(p) =~= s.take(p));
    assert(s.push(x).skip(p) =~= s.skip(p).push(x));
}

proof fn lemma_no_header(s: Seq<u8>)
    requires
        forall|q: int| 0 <= q <= s.len() && q <= HEADER_CAP ==> !ends_at(s, separator(), q),
    ensures
        !has_header(s),
{
    if has_header(s) {
        let c = first_end_pos(s, separator());
        assert(first_end(s, separator(), c));
    }
}

/// Where the scanner stands in the form body.
#[derive(Debug, Clone, Copy, PartialEq, Eq, Structural)]
pub enum ScanPhase {
    /// Collecting the header section into the bounded buffer.
    Header,
    /// Handing out payload bytes, holding back those that may begin the terminator.
    Body,
    /// The terminator was seen; the rest of the input is ignored.
    Complete,
    /// The form is unusable; the rest of the input is ignored.
    Failed,
}

/// What a finished form yields: the file's name, and the payload bytes that
/// were still held back when the input ended.
pub struct FormUpload {
    pub name: Vec<u8>,
    pub tail: Vec<u8>,
}

/// A scanner for a `multipart/form-data` body holding one file part. It takes
/// the body one byte at a time, with memory bounded by the header buffer and
/// the terminator's length.
pub struct FormScanner {
    phase: ScanPhase,
    error: ServeError,
    header: Vec<u8>,
    body_start: usize,
    name: Vec<u8>,
    term: Vec<u8>,
    window: Vec<u8>,
    input: Ghost<Seq<u8>>,
    body_end: Ghost<int>,
}

impl FormScanner {
    /// The bytes read so far.
    pub closed spec fn input(&self) -> Seq<u8> {
        self.input@
    }

    pub closed spec fn phase_spec(&self) -> ScanPhase {
        self.phase
    }

    /// The bytes held in the header buffer.
    pub closed spec fn header_bytes_held(&self) -> nat {
        self.header@.len()
    }

    /// The bytes that the scanner holds in its buffers.
    pub closed spec fn held_bytes(&self) -> nat {
        self.header@.len() + self.name@.len() + self.term@.len() + self.window@.len()
    }

    spec fn body_ready(&self) -> bool {
        let s = self.input@;
        &&& header_len_is(s, self.body_start as int)
        &&& header_fields(s.take(self.body_start as int)) == Some((self.name@, self.term@))
        &&& self.term@.len() >= 3
    }

    pub closed spec fn wf(&self) -> bool {
        let s = self.input@;
        let b = s.skip(self.body_start as int);
        let t = self.term@;
        &&& self.header@.len() <= HEADER_CAP
        &&& self.name@.len() <= HEADER_CAP
        &&& self.term@.len() <= HEADER_CAP
        &&& self.window@.len() <= self.term@.len()
        &&& match self.phase {
            ScanPhase::Header => {
                &&& self.header@ == s
                &&& s.len() <= HEADER_CAP
                &&& forall|q: int| 0 <= q <= s.len() ==> !ends_at(s, separator(), q)
            },
            ScanPhase::Failed => {
                ||| {
                    &&& self.error == ServeError::FormTooLongError
                    &&& s.len() > HEADER_CAP
                    &&& forall|q: int| 0 <= q <= HEADER_CAP ==> !ends_at(s, separator(), q)
                }
                ||| {
                    &&& self.error == ServeError::MalformedFormError
                    &&& header_len_is(s, self.body_start as int)
                    &&& header_fields(s.take(self.body_start as int)) is None
                }
            },
            ScanPhase::Body => {
                &&& self.body_ready()
                &&& forall|q: int| 0 <= q <= b.len() ==> !ends_at(b, t, q)
                &&& self.window@.len() == if b.len() < t.len() - 1 {
                    b.len() as int
                } else {
                    t.len() - 1
                }
                &&& self.window@ == b.skip(b.len() - self.window@.len())
            },
            ScanPhase::Complete => {
                &&& self.body_ready()
                &&& first_end(b, t, self.body_end@)
            },
        }
    }

    pub fn new() -> (r: FormScanner)
        ensures
            r.wf(),
            r.input() == Seq::<u8>::empty(),
            r.phase_spec() == ScanPhase::Header,
    {
        FormScanner {
            phase: ScanPhase::Header,
            error: ServeError::MalformedFormError,
            header: Vec::new(),
            body_start: 0,
            name: Vec::new(),
            term: Vec::new(),
            window: Vec::new(),
            input: Ghost(Seq::empty()),
            body_end: Ghost(0),
        }
    }

    pub fn phase(&self) -> (r: ScanPhase)
        ensures
            r == self.phase_spec(),
    {
        self.phase
    }

    /// Takes the next byte of the body. Returns the payload byte that can now
    /// be written out, if any.
    pub fn push(&mut self, x: u8) -> (r: Option<u8>)
        requires
            old(self).wf(),
        ensures
            final(self).wf(),
            final(self).input() == old(self).input().push(x),
            emitted(final(self).input()) == emitted(old(self).input()) + opt_seq(r),
    {
        let ghost s = self.input@;
        let ghost s2 = s.push(x);
        match self.phase {
            ScanPhase::Header => {
                self.input = Ghost(s2);
                proof {
                    lemma_no_header(s);
                    assert(s2 =~= s + seq![x]);
                    assert forall|q: int| 0 <= q <= s.len() implies !ends_at(s2, separator(), q) by {
                        lemma_ends_at_extend(s, seq![x], separator(), q);
                    }
                }
                if self.header.len() >= HEADER_CAP {
                    // The buffer is full and no blank line came: the byte is
                    // not kept.
                    self.phase = ScanPhase::Failed;
                    self.error = ServeError::FormTooLongError;
                    proof {
                        lemma_no_header(s2);
                    }
                    return None;
                }
                self.header.push(x);
                assert(self.header@ == s2);
                let sep = separator_bytes();
                let n = self.header.len();
                if ends_at_exec(self.header.as_slice(), sep.as_slice(), n) {
                    assert(first_end(s2, separator(), n as int));
                    assert(s2.take(n as int) =~= s2);
                    self.body_start = n;
                    match parse_header(self.header.as_slice()) {
                        None => {
                            self.phase = ScanPhase::Failed;
                            self.error = ServeError::MalformedFormError;
                            proof {
                                lemma_first_end_unique(s2, separator(), n as int);
                            }
                        },
                        Some(f) => {
                            let (name, term) = f;
                            self.name = name;
                            self.term = term;
                            self.window = Vec::new();
                            self.phase = ScanPhase::Body;
                            proof {
                                lemma_first_end_unique(s2, separator(), n as int);
                                assert(s2.skip(n as int) =~= Seq::<u8>::empty());
                                assert(self.window@ =~= s2.skip(n as int).skip(0));
                            }
                        },
                    }
                } else {
                    proof {
                        lemma_no_header(s2);
                    }
                }
                None
            },
            ScanPhase::Failed => {
                self.input = Ghost(s2);
                proof {
                    assert(s2 =~= s + seq![x]);
                    if self.error == ServeError::FormTooLongError {
                        assert forall|q: int| 0 <= q <= HEADER_CAP implies !ends_at(s2, separator(), q) by {
                            lemma_ends_at_extend(s, seq![x], separator(), q);
                        }
                        lemma_no_header(s);
                        lemma_no_header(s2);
                    } else {
                        lemma_header_extend(s, x, self.body_start as int);
                    }
                }
                None
            },
            ScanPhase::Complete => {
                self.input = Ghost(s2);
                proof {
                    let p = self.body_start as int;
                    let t = self.term@;
                    lemma_header_extend(s, x, p);
                    let b = s.skip(p);
                    assert(b.push(x) =~= b + seq![x]);
                    lemma_first_end_extend(b, seq![x], t, self.body_end@);
                    lemma_first_end_unique(b, t, self.body_end@);
                    lemma_first_end_unique(b.push(x), t, self.body_end@);
                    assert(b.push(x).take(self.body_end@ - t.len()) =~= b.take(self.body_end@ - t.len()));
                    assert(s2.skip(p) =~= b.push(x));
                }
                None
            },
            ScanPhase::Body => {
                self.input = Ghost(s2);
                let ghost p = self.body_start as int;
                let ghost t = self.term@;
                let ghost b = s.skip(p);
                let ghost b2 = b.push(x);
                let ghost w = self.window@;
                proof {
                    lemma_header_extend(s, x, p);
                    assert(s2.skip(p) =~= b2);
                    assert(b2 =~= b + seq![x]);
                    assert forall|q: int| 0 <= q <= b.len() implies !ends_at(b2, t, q) by {
                        lemma_ends_at_extend(b, seq![x], t, q);
                    }
                    if occurs(b, t) {
                        let c = first_end_pos(b, t);
                        assert(first_end(b, t, c));
                    }
                }
                self.window.push(x);
                assert(self.window@ =~= b2.skip(b2.len() - self.window@.len()));
                if self.window.len() == self.term.len() {
                    assert(b2.subrange(b2.len() - t.len(), b2.len() as int) =~= self.window@);
                    if bytes_eq(self.window.as_slice(), self.term.as_slice()) {
                        self.phase = ScanPhase::Complete;
                        self.body_end = Ghost(b2.len() as int);
                        proof {
                            assert(first_end(b2, t, b2.len() as int));
                            lemma_first_end_unique(b2, t, b2.len() as int);
                            assert(b2.take(b2.len() - t.len()) =~= b.take(b.len() + 1 - t.len()));
                        }
                        None
                    } else {
                        let y = self.window.remove(0);
                        proof {
                            assert forall|q: int| 0 <= q <= b2.len() implies !ends_at(b2, t, q) by {
                                if q == b2.len() {
                                }
                            }
                            if occurs(b2, t) {
                                let c = first_end_pos(b2, t);
                                assert(first_end(b2, t, c));
                            }
                            assert(self.window@ =~= b2.skip(b2.len() - self.window@.len()));
                            assert(b2.take(b2.len() + 1 - t.len()) =~= b.take(b.len() + 1 - t.len())
                                + seq![y]);
                        }
                        Some(y)
                    }
                } else {
                    proof {
                        assert forall|q: int| 0 <= q <= b2.len() implies !ends_at(b2, t, q) by {
                            if q == b2.len() {
                            }
                        }
                        if occurs(b2, t) {
                            let c = first_end_pos(b2, t);
                            assert(first_end(b2, t, c));
                        }
                    }
                    None
                }
            },
        }
    }

    /// Takes a run of body bytes. Returns the payload bytes that can now be
    /// written out, in order.
    pub fn feed(&mut self, chunk: &[u8]) -> (r: Vec<u8>)
        requires
            old(self).wf(),
        ensures
            final(self).wf(),
            final(self).input() == old(self).input() + chunk@,
            emitted(final(self).input()) == emitted(old(self).input()) + r@,
    {
        let ghost start = self.input@;
        let mut out: Vec<u8> = Vec::new();
        let mut i: usize = 0;
        while i < chunk.len()
            invariant
                self.wf(),
                i <= chunk@.len(),
                self.input() == start + chunk@.take(i as int),
                emitted(self.input()) == emitted(start) + out@,
            decreases chunk@.len() - i,
        {
            let ghost before = out@;
            let got = self.push(chunk[i]);
            match got {
                Some(y) => {
                    out.push(y);
                },
                None => {},
            }
            assert(out@ =~= before + opt_seq(got));
            i = i + 1;
            assert(start + chunk@.take(i as int) =~= (start + chunk@.take(i - 1)).push(chunk@[i - 1]));
        }
        assert(chunk@.take(i as int) =~= chunk@);
        out
    }

    /// Ends the input. Returns the file's name and the held-back payload
    /// bytes, or the error that the form gives.
    pub fn finish(self) -> (r: Result<FormUpload, ServeError>)
        requires
            self.wf(),
        ensures
            r is Ok <==> form_result(self.input()) is Ok,
            r is Err ==> r->Err_0 == form_result(self.input())->Err_0,
            r is Ok ==> r->Ok_0.name@ == form_result(self.input())->Ok_0.0 && emitted(self.input())
                + r->Ok_0.tail@ == form_result(self.input())->Ok_0.1,
    {
        let ghost s = self.input@;
        match self.phase {
            ScanPhase::Header => {
                proof {
                    lemma_no_header(s);
                }
                Err(ServeError::MalformedFormError)
            },
            ScanPhase::Failed => {
                proof {
                    if self.error == ServeError::FormTooLongError {
                        lemma_no_header(s);
                    } else {
                        lemma_first_end_unique(s, separator(), self.body_start as int);
                    }
                }
                Err(self.error)
            },
            ScanPhase::Body => {
                proof {
                    let p = self.body_start as int;
                    let t = self.term@;
                    let b = s.skip(p);
                    lemma_first_end_unique(s, separator(), p);
                    if occurs(b, t) {
                        let c = first_end_pos(b, t);
                        assert(first_end(b, t, c));
                    }
                    assert(emitted(s) + self.window@ =~= b);
                }
                Ok(FormUpload { name: self.name, tail: self.window })
            },
            ScanPhase::Complete => {
                proof {
                    let p = self.body_start as int;
                    lemma_first_end_unique(s, separator(), p);
                    lemma_first_end_unique(s.skip(p), self.term@, self.body_end@);
                    assert(emitted(s) + Seq::<u8>::empty() =~= emitted(s));
                }
                Ok(FormUpload { name: self.name, tail: Vec::new() })
            },
        }
    }
}

/// Runs a scanner over a whole form body. Returns the file's name and its
/// content, or the error that the form gives.
pub fn parse_form(body: &[u8]) -> (r: Result<(Vec<u8>, Vec<u8>), ServeError>)
    ensures
        r is Ok <==> form_result(body@) is Ok,
        r is Err ==> r->Err_0 == form_result(body@)->Err_0,
        r is Ok ==> r->Ok_0.0@ == form_result(body@)->Ok_0.0 && r->Ok_0.1@ == form_result(
            body@,
        )->Ok_0.1,
{
    let mut sc = FormScanner::new();
    let mut content = sc.feed(body);
    assert(sc.input() =~= body@);
    assert(emitted(Seq::<u8>::empty()) =~= Seq::<u8>::empty()) by {
        lemma_no_header(Seq::<u8>::empty());
    }
    let ghost sent = content@;
    match sc.finish() {
        Ok(u) => {
            append_bytes(&mut content, u.tail.as_slice());
            assert(content@ =~= sent + u.tail@);
            Ok((u.name, content))
        },
        Err(e) => Err(e),
    }
}

/// However long the input, a scanner holds a bounded number of bytes, and
/// its header buffer never more than `HEADER_CAP`.
pub proof fn lemma_bounded_memory(sc: &FormScanner)
    requires
        sc.wf(),
    ensures
        sc.header_bytes_held() <= HEADER_CAP,
        sc.held_bytes() <= 4 * HEADER_CAP,
{
}

/// A form whose header section holds no `filename="` is malformed.
pub proof fn lemma_missing_filename_is_malformed(s: Seq<u8>)
    requires
        has_header(s),
        !occurs(header_of(s), filename_token()),
    ensures
        form_result(s) == Err::<(Seq<u8>, Seq<u8>), ServeError>(ServeError::MalformedFormError),
{
}

/// A form with no blank line within the header buffer's bound, and more
/// bytes than that bound, is too long.
pub proof fn lemma_oversized_header_is_too_long(s: Seq<u8>)
    requires
        s.len() > HEADER_CAP,
        forall|q: int| 0 <= q <= HEADER_CAP ==> !ends_at(s, separator(), q),
    ensures
        form_result(s) == Err::<(Seq<u8>, Seq<u8>), ServeError>(ServeError::FormTooLongError),
{
    lemma_no_header(s);
}

/// An uploaded file comes back whole: after a header section `h` that
/// announces a name and a terminator `t`, a content in which `t` does not
/// occur yields exactly that name and that content, whether the terminator
/// and any epilogue follow it or the input ends after it.
pub proof fn lemma_upload_round_trip(h: Seq<u8>, data: Seq<u8>, epilogue: Seq<u8>)
    requires
        header_len_is(h, h.len() as int),
        header_fields(h) is Some,
        forall|q: int|
            0 <= q < data.len() + header_fields(h)->Some_0.1.len() ==> !ends_at(
                data + header_fields(h)->Some_0.1,
                header_fields(h)->Some_0.1,
                q,
            ),
    ensures
        form_result(h + data + header_fields(h)->Some_0.1 + epilogue) == Ok::<
            (Seq<u8>, Seq<u8>),
            ServeError,
        >((header_fields(h)->Some_0.0, data)),
        form_result(h + data) == Ok::<(Seq<u8>, Seq<u8>), ServeError>(
            (header_fields(h)->Some_0.0, data),
        ),
{
    let t = header_fields(h)->Some_0.1;
    let n = h.len() as int;
    let dt = data + t;
    let e = dt.len() as int;
    // With terminator and epilogue.
    let full = h + data + t + epilogue;
    assert(full =~= h + (dt + epilogue));
    lemma_first_end_extend(h, dt + epilogue, separator(), n);
    lemma_first_end_unique(full, separator(), n);
    assert(full.take(n) =~= h);
    assert(full.skip(n) =~= dt + epilogue);
    assert(dt.subrange(e - t.len(), e) =~= t);
    assert(first_end(dt, t, e));
    lemma_first_end_extend(dt, epilogue, t, e);
    lemma_first_end_unique(dt + epilogue, t, e);
    assert((dt + epilogue).take(e - t.len()) =~= data);
    // Without terminator.
    let short = h + data;
    lemma_first_end_extend(h, data, separator(), n);
    lemma_first_end_unique(short, separator(), n);
    assert(short.take(n) =~= h);
    assert(short.skip(n) =~= data);
    assert forall|q: int| 0 <= q <= data.len() implies !ends_at(data, t, q) by {
        lemma_ends_at_extend(data, t, t, q);
    }
    if occurs(data, t) {
        let c = first_end_pos(data, t);
        assert(first_end(data, t, c));
    }
}

} // verus!
