//! Boundary scanning: locating the delimiter lines `--<boundary>` and
//! `--<boundary>--` that split a raw buffer into parts.
//!
//! A delimiter only counts when it is anchored at the start of a line
//! (start of buffer or just after a CRLF) and its line ends with a CRLF or
//! with the end of the buffer; the boundary token occurring anywhere else is
//! ordinary content.

use crate::wire::CR;
use crate::wire::DASH;
use crate::wire::LF;
use vstd::prelude::*;

verus! {

/// The delimiter `--<boundary>` matches the bytes of `buf` at `i`.
pub open spec fn delim_at(buf: Seq<u8>, bnd: Seq<u8>, i: int) -> bool {
    &&& 0 <= i
    &&& i + 2 + bnd.len() <= buf.len()
    &&& buf[i] == DASH
    &&& buf[i + 1] == DASH
    &&& forall|k: int| 0 <= k < bnd.len() ==> buf[i + 2 + k] == bnd[k]
}

/// `i` is the start of a line: the start of the buffer, or just after a CRLF.
pub open spec fn anchored(buf: Seq<u8>, i: int) -> bool {
    i == 0 || (i >= 2 && buf[i - 2] == CR && buf[i - 1] == LF)
}

/// A line ends at `p`: the end of the buffer, or a CRLF.
pub open spec fn line_end_at(buf: Seq<u8>, p: int) -> bool {
    p == buf.len() || (p + 2 <= buf.len() && buf[p] == CR && buf[p + 1] == LF)
}

/// A non-terminal boundary line `--<boundary>` begins at `i`: more parts follow.
pub open spec fn open_marker_at(buf: Seq<u8>, bnd: Seq<u8>, i: int) -> bool {
    &&& anchored(buf, i)
    &&& delim_at(buf, bnd, i)
    &&& line_end_at(buf, i + 2 + bnd.len())
}

/// The terminal boundary line `--<boundary>--` begins at `i`.
pub open spec fn close_marker_at(buf: Seq<u8>, bnd: Seq<u8>, i: int) -> bool {
    let e = i + 2 + bnd.len();
    &&& anchored(buf, i)
    &&& delim_at(buf, bnd, i)
    &&& e + 2 <= buf.len()
    &&& buf[e] == DASH
    &&& buf[e + 1] == DASH
    &&& line_end_at(buf, e + 2)
}

/// Some boundary line, terminal or not, begins at `i`.
pub open spec fn marker_at(buf: Seq<u8>, bnd: Seq<u8>, i: int) -> bool {
    open_marker_at(buf, bnd, i) || close_marker_at(buf, bnd, i)
}

/// No boundary line begins anywhere in `[from, to)`.
pub open spec fn no_marker_in(buf: Seq<u8>, bnd: Seq<u8>, from: int, to: int) -> bool {
    forall|j: int| from <= j < to ==> !marker_at(buf, bnd, j)
}

/// What a probe at one position sees.
#[derive(Clone, Copy, PartialEq, Eq, Structural, Debug)]
pub enum MarkerProbe {
    /// No boundary line begins here.
    NotHere,
    /// A non-terminal boundary line begins here.
    Open,
    /// The terminal boundary line begins here.
    Close,
}

/// Decide whether a boundary line begins at `i`, and of which kind.
pub fn probe_marker(buf: &Vec<u8>, bnd: &Vec<u8>, i: usize) -> (r: MarkerProbe)
    ensures
        (r == MarkerProbe::Open) == open_marker_at(buf@, bnd@, i as int),
        (r == MarkerProbe::Close) == close_marker_at(buf@, bnd@, i as int),
{
    let n = buf.len();
    let bl = bnd.len();
    if i >= n {
        return MarkerProbe::NotHere;
    }
    if !(i == 0 || (i >= 2 && buf[i - 2] == CR && buf[i - 1] == LF)) {
        return MarkerProbe::NotHere;
    }
    let rem = n - i;
    if rem < 2 || rem - 2 < bl {
        return MarkerProbe::NotHere;
    }
    if buf[i] != DASH || buf[i + 1] != DASH {
        return MarkerProbe::NotHere;
    }
    let mut k: usize = 0;
    while k < bl
        invariant
            n == buf@.len(),
            bl == bnd@.len(),
            i + 2 + bl <= n,
            k <= bl,
            forall|t: int| 0 <= t < k ==> buf@[i + 2 + t] == bnd@[t],
        decreases bl - k,
    {
        if buf[i + 2 + k] != bnd[k] {
            return MarkerProbe::NotHere;
        }
        k += 1;
    }
    let e = i + 2 + bl;
    if n - e >= 2 && buf[e] == DASH && buf[e + 1] == DASH {
        if e + 2 == n || (n - (e + 2) >= 2 && buf[e + 2] == CR && buf[e + 3] == LF) {
            return MarkerProbe::Close;
        }
        return MarkerProbe::NotHere;
    }
    if e == n || (n - e >= 2 && buf[e] == CR && buf[e + 1] == LF) {
        return MarkerProbe::Open;
    }
    MarkerProbe::NotHere
}

/// Find the first boundary line at or after `from`; `true` in the result
/// means the line found is the terminal one.
pub fn find_marker(buf: &Vec<u8>, bnd: &Vec<u8>, from: usize) -> (r: Option<(usize, bool)>)
    requires
        from <= buf@.len(),
    ensures
        match r {
            Some(p) => {
                &&& from <= p.0 < buf@.len()
                &&& marker_at(buf@, bnd@, p.0 as int)
                &&& no_marker_in(buf@, bnd@, from as int, p.0 as int)
                &&& (p.1 == close_marker_at(buf@, bnd@, p.0 as int))
            },
            None => no_marker_in(buf@, bnd@, from as int, buf@.len() as int),
        },
{
    let n = buf.len();
    let mut i: usize = from;
    while i < n
        invariant
            n == buf@.len(),
            from <= i <= n,
            no_marker_in(buf@, bnd@, from as int, i as int),
        decreases n - i,
    {
        let p = probe_marker(buf, bnd, i);
        match p {
            MarkerProbe::Open => {
                return Some((i, false));
            },
            MarkerProbe::Close => {
                return Some((i, true));
            },
            MarkerProbe::NotHere => {
                i += 1;
            },
        }
    }
    None
}

/// Position of the first boundary line at or after `i`, or `buf.len()` if
/// there is none.
pub open spec fn first_marker(buf: Seq<u8>, bnd: Seq<u8>, i: int) -> int
    decreases buf.len() - i,
{
    if 0 <= i && i < buf.len() {
        if marker_at(buf, bnd, i) {
            i
        } else {
            first_marker(buf, bnd, i + 1)
        }
    } else {
        buf.len() as int
    }
}

/// A found marker below which none occurs is exactly `first_marker`.
pub proof fn lemma_first_marker_found(buf: Seq<u8>, bnd: Seq<u8>, from: int, i: int)
    requires
        0 <= from <= i,
        no_marker_in(buf, bnd, from, i),
        marker_at(buf, bnd, i),
    ensures
        first_marker(buf, bnd, from) == i,
    decreases i - from,
{
    if from < i {
        assert(!marker_at(buf, bnd, from));
        lemma_first_marker_found(buf, bnd, from + 1, i);
    }
}

/// `first_marker` stays between its start and the buffer length, and when
/// it lands before the end it found a marker.
pub proof fn lemma_first_marker_props(buf: Seq<u8>, bnd: Seq<u8>, i: int)
    requires
        0 <= i <= buf.len(),
    ensures
        i <= first_marker(buf, bnd, i) <= buf.len(),
        first_marker(buf, bnd, i) < buf.len() ==> marker_at(buf, bnd, first_marker(buf, bnd, i)),
        no_marker_in(buf, bnd, i, first_marker(buf, bnd, i)),
    decreases buf.len() - i,
{
    if i < buf.len() && !marker_at(buf, bnd, i) {
        lemma_first_marker_props(buf, bnd, i + 1);
    }
}

/// Where no marker occurs at all, `first_marker` is the buffer length.
pub proof fn lemma_first_marker_none(buf: Seq<u8>, bnd: Seq<u8>, from: int)
    requires
        0 <= from <= buf.len(),
        no_marker_in(buf, bnd, from, buf.len() as int),
    ensures
        first_marker(buf, bnd, from) == buf.len(),
    decreases buf.len() - from,
{
    if from < buf.len() {
        assert(!marker_at(buf, bnd, from));
        lemma_first_marker_none(buf, bnd, from + 1);
    }
}

} // verus!
