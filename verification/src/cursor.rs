//! The pull-based parse state machine: it drives boundary scanning and part
//! parsing to produce entries one at a time, and fails closed — after the
//! first malformed part nothing further is ever produced.

use crate::entry::Entry;
use crate::entry::EntryModel;
use crate::error::ParseError;
use crate::part::parse_part;
use crate::part::spec_parse_part;
use crate::scanner::close_marker_at;
use crate::scanner::find_marker;
use crate::scanner::first_marker;
use crate::scanner::lemma_first_marker_found;
use crate::scanner::lemma_first_marker_none;
use crate::wire::boundary_ok;
use crate::wire::bytes_text_wf;
use crate::wire::copy_range;
use vstd::prelude::*;

verus! {

/// The cursor's position in its life cycle.
#[derive(Clone, Copy, PartialEq, Eq, Structural, Debug)]
pub enum CursorState {
    /// The first boundary has not been located yet.
    Ready,
    /// Positioned just after a non-terminal boundary line, before the next part.
    InProgress,
    /// The terminal boundary was consumed; absorbing.
    Done,
    /// A malformed part was met; absorbing.
    Errored,
}

/// The mathematical value of a [`MultipartCursor`].
#[verifier::ext_equal]
pub struct CursorModel {
    pub buf: Seq<u8>,
    pub bnd: Seq<u8>,
    pub pos: int,
    pub state: CursorState,
}

/// One pull in the `InProgress` state: scan for the next boundary line,
/// parse the segment before it (stripped of its trailing CRLF), and either
/// emit the entry — moving past the boundary, or to `Done` when it was the
/// terminal one — or emit one error and stop.
pub open spec fn spec_step_in(m: CursorModel) -> (CursorModel, Option<
    Result<EntryModel, ParseError>,
>) {
    let j = first_marker(m.buf, m.bnd, m.pos);
    if j == m.buf.len() {
        (
            CursorModel { state: CursorState::Errored, ..m },
            Some(Err(ParseError::UnexpectedEof)),
        )
    } else {
        let segend = if j >= m.pos + 2 {
            j - 2
        } else {
            m.pos
        };
        match spec_parse_part(m.buf.subrange(m.pos, segend)) {
            Err(e) => (CursorModel { state: CursorState::Errored, ..m }, Some(Err(e))),
            Ok(em) => {
                if close_marker_at(m.buf, m.bnd, j) {
                    (CursorModel { state: CursorState::Done, ..m }, Some(Ok(em)))
                } else {
                    let e = j + 2 + m.bnd.len();
                    let np = if e == m.buf.len() {
                        e
                    } else {
                        e + 2
                    };
                    (CursorModel { pos: np, ..m }, Some(Ok(em)))
                }
            },
        }
    }
}

/// One pull of the cursor, in any state. Terminal states absorb; `Ready`
/// locates the first boundary line and, unless it is the terminal one,
/// continues like `InProgress`.
pub open spec fn spec_pull(m: CursorModel) -> (CursorModel, Option<
    Result<EntryModel, ParseError>,
>) {
    match m.state {
        CursorState::Done => (m, None),
        CursorState::Errored => (m, None),
        CursorState::InProgress => spec_step_in(m),
        CursorState::Ready => {
            let i = first_marker(m.buf, m.bnd, 0);
            if i == m.buf.len() {
                (
                    CursorModel { state: CursorState::Errored, ..m },
                    Some(Err(ParseError::UnexpectedEof)),
                )
            } else if close_marker_at(m.buf, m.bnd, i) {
                (CursorModel { state: CursorState::Done, ..m }, None)
            } else {
                let e = i + 2 + m.bnd.len();
                if e == m.buf.len() {
                    (
                        CursorModel { state: CursorState::Errored, ..m },
                        Some(Err(ParseError::UnexpectedEof)),
                    )
                } else {
                    spec_step_in(
                        CursorModel { pos: e + 2, state: CursorState::InProgress, ..m },
                    )
                }
            }
        },
    }
}

/// How an executable pull result realizes a modeled one.
pub open spec fn out_matches(
    r: Option<Result<Entry, ParseError>>,
    o: Option<Result<EntryModel, ParseError>>,
) -> bool {
    match (r, o) {
        (None, None) => true,
        (Some(Ok(e)), Some(Ok(m))) => e@ == m,
        (Some(Err(a)), Some(Err(b))) => a == b,
        _ => false,
    }
}

/// Once the cursor is `Done` or `Errored`, a pull changes nothing and
/// yields no item — however often it is repeated.
pub proof fn lemma_terminal_absorbing(m: CursorModel)
    requires
        m.state == CursorState::Done || m.state == CursorState::Errored,
    ensures
        spec_pull(m) == (m, None::<Result<EntryModel, ParseError>>),
{
}

/// The parse state machine over one buffered body and its boundary token.
#[derive(Debug)]
pub struct MultipartCursor {
    buf: Vec<u8>,
    bnd: Vec<u8>,
    pos: usize,
    state: CursorState,
}

impl View for MultipartCursor {
    type V = CursorModel;

    closed spec fn view(&self) -> CursorModel {
        CursorModel { buf: self.buf@, bnd: self.bnd@, pos: self.pos as int, state: self.state }
    }
}

impl MultipartCursor {
    /// The cursor's internal consistency: the position stays inside the
    /// buffer, the boundary token is usable, and a `Ready` cursor has not
    /// moved yet.
    pub open spec fn wf(&self) -> bool {
        &&& 0 <= self@.pos <= self@.buf.len()
        &&& boundary_ok(self@.bnd)
        &&& (self@.state == CursorState::Ready ==> self@.pos == 0)
    }

    /// Start a cursor over a buffered body; fails immediately when the
    /// boundary token is unusable (empty, or holding CR or LF), before any
    /// entry can ever be produced.
    pub fn new(buf: Vec<u8>, bnd: Vec<u8>) -> (r: Result<MultipartCursor, ParseError>)
        ensures
            r is Ok <==> boundary_ok(bnd@),
            r matches Ok(c) ==> c@ == (CursorModel {
                buf: buf@,
                bnd: bnd@,
                pos: 0,
                state: CursorState::Ready,
            }) && c.wf(),
            r matches Err(e) ==> e == ParseError::BoundaryNotFound,
    {
        if bnd.len() == 0 || !bytes_text_wf(bnd.as_slice()) {
            return Err(ParseError::BoundaryNotFound);
        }
        Ok(MultipartCursor { buf, bnd, pos: 0, state: CursorState::Ready })
    }

    /// The current state.
    pub fn state(&self) -> (r: CursorState)
        ensures
            r == self@.state,
    {
        self.state
    }

    /// One pull in the `InProgress` state; realizes [`spec_step_in`].
    fn step_in(&mut self) -> (r: Option<Result<Entry, ParseError>>)
        requires
            old(self).wf(),
            old(self)@.state == CursorState::InProgress,
        ensures
            final(self).wf(),
            final(self)@ == spec_step_in(old(self)@).0,
            out_matches(r, spec_step_in(old(self)@).1),
    {
        let n = self.buf.len();
        match find_marker(&self.buf, &self.bnd, self.pos) {
            None => {
                proof {
                    lemma_first_marker_none(self.buf@, self.bnd@, self.pos as int);
                }
                self.state = CursorState::Errored;
                Some(Err(ParseError::UnexpectedEof))
            },
            Some((j, term)) => {
                proof {
                    lemma_first_marker_found(self.buf@, self.bnd@, self.pos as int, j as int);
                }
                let segend = if j >= 2 && j - 2 >= self.pos {
                    j - 2
                } else {
                    self.pos
                };
                let seg = copy_range(&self.buf, self.pos, segend);
                match parse_part(&seg) {
                    Err(e) => {
                        self.state = CursorState::Errored;
                        Some(Err(e))
                    },
                    Ok(entry) => {
                        if term {
                            self.state = CursorState::Done;
                            Some(Ok(entry))
                        } else {
                            let e = j + 2 + self.bnd.len();
                            if e == n {
                                self.pos = e;
                            } else {
                                self.pos = e + 2;
                            }
                            Some(Ok(entry))
                        }
                    },
                }
            },
        }
    }

    /// Pull the next item: `None` once the sequence has ended (the terminal
    /// boundary was reached, the cursor had already stopped, or the very
    /// first boundary line is the terminal one), `Some(Ok(entry))` for the
    /// next part, `Some(Err(e))` exactly once when parsing fails — after
    /// which the cursor is `Errored` and absorbs every further pull.
    pub fn pull(&mut self) -> (r: Option<Result<Entry, ParseError>>)
        requires
            old(self).wf(),
        ensures
            final(self).wf(),
            final(self)@ == spec_pull(old(self)@).0,
            out_matches(r, spec_pull(old(self)@).1),
            final(self)@.buf == old(self)@.buf,
            final(self)@.bnd == old(self)@.bnd,
            old(self)@.state == CursorState::Done || old(self)@.state == CursorState::Errored
                ==> r is None && final(self)@ == old(self)@,
    {
        let n = self.buf.len();
        match self.state {
            CursorState::Done => None,
            CursorState::Errored => None,
            CursorState::InProgress => self.step_in(),
            CursorState::Ready => {
                match find_marker(&self.buf, &self.bnd, 0) {
                    None => {
                        proof {
                            lemma_first_marker_none(self.buf@, self.bnd@, 0);
                        }
                        self.state = CursorState::Errored;
                        Some(Err(ParseError::UnexpectedEof))
                    },
                    Some((i, term)) => {
                        proof {
                            lemma_first_marker_found(self.buf@, self.bnd@, 0, i as int);
                        }
                        if term {
                            self.state = CursorState::Done;
                            None
                        } else {
                            let e = i + 2 + self.bnd.len();
                            if e == n {
                                self.state = CursorState::Errored;
                                Some(Err(ParseError::UnexpectedEof))
                            } else {
                                self.pos = e + 2;
                                self.state = CursorState::InProgress;
                                self.step_in()
                            }
                        }
                    },
                }
            },
        }
    }
}

} // verus!
