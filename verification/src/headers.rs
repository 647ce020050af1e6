//! Parsing of one part's header block: locating `Content-Disposition` and
//! `Content-Type`, and extracting the `name` and `filename` parameters with
//! standard quoted-string syntax (`\"` and `\\` are the only recognized
//! escapes; bare tokens are taken verbatim).

use crate::wire::is_ws;
use crate::wire::COLON;
use crate::wire::CR;
use crate::wire::DQUOTE;
use crate::wire::EQUALS;
use crate::wire::LF;
use crate::wire::SEMI;
use vstd::prelude::*;

verus! {

use vstd::utf8::encode_utf8;

/// The lowercase header name `content-disposition` as bytes.
pub open spec fn cd_name() -> Seq<u8> {
    encode_utf8("content-disposition"@)
}

/// The lowercase header name `content-type` as bytes.
pub open spec fn ct_name() -> Seq<u8> {
    encode_utf8("content-type"@)
}

/// The parameter key `name` as bytes.
pub open spec fn name_key() -> Seq<u8> {
    encode_utf8("name"@)
}

/// The parameter key `filename` as bytes.
pub open spec fn filename_key() -> Seq<u8> {
    encode_utf8("filename"@)
}

/// ASCII lowercase of one byte.
pub open spec fn lower(b: u8) -> u8 {
    if 65 <= b <= 90 {
        (b + 32) as u8
    } else {
        b
    }
}

/// ASCII lowercase of a byte sequence.
pub open spec fn lower_seq(s: Seq<u8>) -> Seq<u8> {
    Seq::new(s.len(), |k: int| lower(s[k]))
}

/// ASCII lowercase of one byte, executable form.
pub fn lower_byte(b: u8) -> (r: u8)
    ensures
        r == lower(b),
{
    if 65 <= b && b <= 90 {
        b + 32
    } else {
        b
    }
}

/// A CRLF pair begins at `j`.
pub open spec fn crlf_at(s: Seq<u8>, j: int) -> bool {
    j >= 0 && j + 2 <= s.len() && s[j] == CR && s[j + 1] == LF
}

/// A blank line (CRLF CRLF) begins at `j`.
pub open spec fn crlfcrlf_at(s: Seq<u8>, j: int) -> bool {
    j >= 0 && j + 4 <= s.len() && s[j] == CR && s[j + 1] == LF && s[j + 2] == CR && s[j + 3] == LF
}

/// Index of the first CRLF at or after `i`, or `s.len()` if there is none.
pub open spec fn first_crlf(s: Seq<u8>, i: int) -> int
    decreases s.len() - i,
{
    if 0 <= i && i + 2 <= s.len() {
        if s[i] == CR && s[i + 1] == LF {
            i
        } else {
            first_crlf(s, i + 1)
        }
    } else {
        s.len() as int
    }
}

/// Index of the first blank line at or after `i`, or `s.len()` if there is none.
pub open spec fn first_blank(s: Seq<u8>, i: int) -> int
    decreases s.len() - i,
{
    if 0 <= i && i + 4 <= s.len() {
        if crlfcrlf_at(s, i) {
            i
        } else {
            first_blank(s, i + 1)
        }
    } else {
        s.len() as int
    }
}

/// Index of the first byte at or after `i` that is not linear whitespace.
pub open spec fn skip_ws(s: Seq<u8>, i: int) -> int
    decreases s.len() - i,
{
    if 0 <= i && i < s.len() && is_ws(s[i]) {
        skip_ws(s, i + 1)
    } else {
        i
    }
}

/// Largest prefix end at or before `e` whose last byte is not linear whitespace.
pub open spec fn skip_ws_back(s: Seq<u8>, e: int) -> int
    decreases e,
{
    if 0 < e && e <= s.len() && is_ws(s[e - 1]) {
        skip_ws_back(s, e - 1)
    } else {
        e
    }
}

/// Index of the first `=` or `;` at or after `i`, or `s.len()`.
pub open spec fn key_end(s: Seq<u8>, i: int) -> int
    decreases s.len() - i,
{
    if 0 <= i && i < s.len() {
        if s[i] == EQUALS || s[i] == SEMI {
            i
        } else {
            key_end(s, i + 1)
        }
    } else {
        s.len() as int
    }
}

/// Index of the first `;` at or after `i`, or `s.len()`.
pub open spec fn semi_end(s: Seq<u8>, i: int) -> int
    decreases s.len() - i,
{
    if 0 <= i && i < s.len() {
        if s[i] == SEMI {
            i
        } else {
            semi_end(s, i + 1)
        }
    } else {
        s.len() as int
    }
}

/// `s` with leading and trailing linear whitespace removed.
pub open spec fn trim(s: Seq<u8>) -> Seq<u8> {
    let a = skip_ws(s, 0);
    let b0 = skip_ws_back(s, s.len() as int);
    let b = if b0 < a {
        a
    } else {
        b0
    };
    s.subrange(a, b)
}

/// Executable mirror of [`first_crlf`].
pub fn find_crlf(v: &Vec<u8>, i: usize) -> (r: usize)
    requires
        i <= v@.len(),
    ensures
        r == first_crlf(v@, i as int),
        i <= r <= v@.len(),
    decreases v@.len() - i,
{
    if v.len() >= 2 && i <= v.len() - 2 {
        if v[i] == CR && v[i + 1] == LF {
            i
        } else {
            find_crlf(v, i + 1)
        }
    } else {
        v.len()
    }
}

/// Executable mirror of [`first_blank`].
pub fn find_blank(v: &Vec<u8>, i: usize) -> (r: usize)
    requires
        i <= v@.len(),
    ensures
        r == first_blank(v@, i as int),
        i <= r <= v@.len(),
    decreases v@.len() - i,
{
    if v.len() >= 4 && i <= v.len() - 4 {
        if v[i] == CR && v[i + 1] == LF && v[i + 2] == CR && v[i + 3] == LF {
            i
        } else {
            find_blank(v, i + 1)
        }
    } else {
        v.len()
    }
}

/// Executable mirror of [`skip_ws`].
pub fn ws_end(v: &Vec<u8>, i: usize) -> (r: usize)
    requires
        i <= v@.len(),
    ensures
        r == skip_ws(v@, i as int),
        i <= r <= v@.len(),
    decreases v@.len() - i,
{
    if i < v.len() && (v[i] == crate::wire::SP || v[i] == crate::wire::HTAB) {
        ws_end(v, i + 1)
    } else {
        i
    }
}

/// Executable mirror of [`skip_ws_back`].
pub fn ws_start_back(v: &Vec<u8>, e: usize) -> (r: usize)
    requires
        e <= v@.len(),
    ensures
        r == skip_ws_back(v@, e as int),
        r <= e,
    decreases e,
{
    if e > 0 && (v[e - 1] == crate::wire::SP || v[e - 1] == crate::wire::HTAB) {
        ws_start_back(v, e - 1)
    } else {
        e
    }
}

/// Executable mirror of [`key_end`].
pub fn find_key_end(v: &Vec<u8>, i: usize) -> (r: usize)
    requires
        i <= v@.len(),
    ensures
        r == key_end(v@, i as int),
        i <= r <= v@.len(),
    decreases v@.len() - i,
{
    if i < v.len() {
        if v[i] == EQUALS || v[i] == SEMI {
            i
        } else {
            find_key_end(v, i + 1)
        }
    } else {
        v.len()
    }
}

/// Executable mirror of [`semi_end`].
pub fn find_semi(v: &Vec<u8>, i: usize) -> (r: usize)
    requires
        i <= v@.len(),
    ensures
        r == semi_end(v@, i as int),
        i <= r <= v@.len(),
    decreases v@.len() - i,
{
    if i < v.len() {
        if v[i] == SEMI {
            i
        } else {
            find_semi(v, i + 1)
        }
    } else {
        v.len()
    }
}

/// The next scan position: `j` when it advances and stays in bounds,
/// otherwise the end of the value.
pub open spec fn adv(i: int, j: int, n: int) -> int {
    if i < j && j <= n {
        j
    } else {
        n
    }
}

/// Outcome of looking for one parameter inside a header value.
#[verifier::ext_equal]
pub enum ParamView {
    /// The parameter is present; its (unquoted, unescaped) value bytes.
    Found(Seq<u8>),
    /// The parameter does not occur.
    Absent,
    /// Quoting is malformed somewhere before the parameter was found.
    Malformed,
}

/// Executable counterpart of [`ParamView`].
pub enum ParamRes {
    Found(Vec<u8>),
    Absent,
    Malformed,
}

impl View for ParamRes {
    type V = ParamView;

    open spec fn view(&self) -> ParamView {
        match self {
            ParamRes::Found(b) => ParamView::Found(b@),
            ParamRes::Absent => ParamView::Absent,
            ParamRes::Malformed => ParamView::Malformed,
        }
    }
}

/// Read a quoted-string body starting just inside the opening quote:
/// the unescaped content and the index just past the closing quote, or
/// `None` when the quoting is malformed (no closing quote, a dangling
/// backslash, or an unrecognized escape).
pub open spec fn scan_quoted(v: Seq<u8>, i: int) -> Option<(Seq<u8>, int)>
    decreases v.len() - i,
{
    if i < 0 || i >= v.len() {
        None
    } else if v[i] == DQUOTE {
        Some((Seq::empty(), i + 1))
    } else if v[i] == crate::wire::BSLASH {
        if i + 1 < v.len() && (v[i + 1] == DQUOTE || v[i + 1] == crate::wire::BSLASH) {
            match scan_quoted(v, i + 2) {
                None => None,
                Some(t) => Some((seq![v[i + 1]] + t.0, t.1)),
            }
        } else {
            None
        }
    } else {
        match scan_quoted(v, i + 1) {
            None => None,
            Some(t) => Some((seq![v[i]] + t.0, t.1)),
        }
    }
}

/// Executable mirror of [`scan_quoted`].
pub fn scan_quoted_x(v: &Vec<u8>, i: usize) -> (r: Option<(Vec<u8>, usize)>)
    requires
        i <= v@.len(),
    ensures
        match r {
            Some(t) => {
                &&& scan_quoted(v@, i as int) matches Some(s) && s.0 == t.0@ && s.1 == t.1 as int
                &&& i < t.1 <= v@.len()
            },
            None => scan_quoted(v@, i as int) is None,
        },
    decreases v@.len() - i,
{
    if i >= v.len() {
        return None;
    }
    let b = v[i];
    if b == DQUOTE {
        return Some((Vec::new(), i + 1));
    }
    if b == crate::wire::BSLASH {
        if i + 1 < v.len() {
            let c = v[i + 1];
            if c == DQUOTE || c == crate::wire::BSLASH {
                match scan_quoted_x(v, i + 2) {
                    None => None,
                    Some((mut val, e)) => {
                        val.insert(0, c);
                        proof {
                            assert(val@ =~= seq![c] + val@.subrange(1, val@.len() as int));
                        }
                        Some((val, e))
                    },
                }
            } else {
                None
            }
        } else {
            None
        }
    } else {
        match scan_quoted_x(v, i + 1) {
            None => None,
            Some((mut val, e)) => {
                val.insert(0, b);
                proof {
                    assert(val@ =~= seq![b] + val@.subrange(1, val@.len() as int));
                }
                Some((val, e))
            },
        }
    }
}

/// Whether the (whitespace-trimmed, lowercased) key bytes `[i1, ke)` equal `key`.
pub open spec fn param_key_matches(v: Seq<u8>, i1: int, ke: int, key: Seq<u8>) -> bool {
    let e0 = skip_ws_back(v, ke);
    let e = if e0 < i1 {
        i1
    } else {
        e0
    };
    lower_seq(v.subrange(i1, e)) == key
}

/// Look for the parameter named `key` (case-insensitively) in the
/// parameter list of `v` starting at `i`; the first occurrence that
/// carries a value wins, a parameter without `=` is skipped, and any
/// malformed quoting met before the parameter is found poisons the scan.
pub open spec fn find_param(v: Seq<u8>, i: int, key: Seq<u8>) -> ParamView
    decreases v.len() - i,
{
    if i < 0 || i >= v.len() {
        ParamView::Absent
    } else {
        let n = v.len() as int;
        let i1 = skip_ws(v, i);
        let ke = key_end(v, i1);
        let km = param_key_matches(v, i1, ke, key);
        if ke >= n {
            ParamView::Absent
        } else if v[ke] == SEMI {
            find_param(v, adv(i, ke + 1, n), key)
        } else {
            let vs = skip_ws(v, ke + 1);
            if vs < n && v[vs] == DQUOTE {
                match scan_quoted(v, vs + 1) {
                    None => ParamView::Malformed,
                    Some(t) => {
                        let j = skip_ws(v, t.1);
                        if j >= n {
                            if km {
                                ParamView::Found(t.0)
                            } else {
                                ParamView::Absent
                            }
                        } else if v[j] == SEMI {
                            if km {
                                ParamView::Found(t.0)
                            } else {
                                find_param(v, adv(i, j + 1, n), key)
                            }
                        } else {
                            ParamView::Malformed
                        }
                    },
                }
            } else {
                let se = semi_end(v, vs);
                let e0 = skip_ws_back(v, se);
                let e = if e0 < vs {
                    vs
                } else {
                    e0
                };
                if km {
                    ParamView::Found(v.subrange(vs, e))
                } else if se >= n {
                    ParamView::Absent
                } else {
                    find_param(v, adv(i, se + 1, n), key)
                }
            }
        }
    }
}

/// Whether the lowercased bytes `[lo, hi)` of `v` equal `key`.
pub fn eq_lowered(v: &Vec<u8>, lo: usize, hi: usize, key: &Vec<u8>) -> (r: bool)
    requires
        lo <= hi <= v@.len(),
    ensures
        r == (lower_seq(v@.subrange(lo as int, hi as int)) == key@),
{
    let ghost sub = v@.subrange(lo as int, hi as int);
    if hi - lo != key.len() {
        proof {
            assert(lower_seq(sub).len() == hi - lo);
        }
        return false;
    }
    let n = key.len();
    let mut t: usize = 0;
    while t < n
        invariant
            lo <= hi <= v@.len(),
            n == key@.len(),
            hi - lo == n,
            t <= n,
            sub == v@.subrange(lo as int, hi as int),
            forall|u: int| 0 <= u < t ==> lower_seq(sub)[u] == key@[u],
        decreases n - t,
    {
        if lower_byte(v[lo + t]) != key[t] {
            proof {
                assert(lower_seq(sub)[t as int] == lower(sub[t as int]));
                assert(sub[t as int] == v@[lo + t]);
            }
            return false;
        }
        t += 1;
    }
    proof {
        assert(lower_seq(sub) =~= key@);
    }
    true
}

/// Executable mirror of [`find_param`].
pub fn find_param_x(v: &Vec<u8>, i: usize, key: &Vec<u8>) -> (r: ParamRes)
    requires
        i <= v@.len(),
    ensures
        r@ == find_param(v@, i as int, key@),
    decreases v@.len() - i,
{
    if i >= v.len() {
        return ParamRes::Absent;
    }
    let n = v.len();
    let i1 = ws_end(v, i);
    let ke = find_key_end(v, i1);
    let e0 = ws_start_back(v, ke);
    let ktrim = if e0 < i1 {
        i1
    } else {
        e0
    };
    let km = eq_lowered(v, i1, ktrim, key);
    if ke >= n {
        return ParamRes::Absent;
    }
    if v[ke] == SEMI {
        return find_param_x(v, ke + 1, key);
    }
    let vs = ws_end(v, ke + 1);
    if vs < n && v[vs] == DQUOTE {
        match scan_quoted_x(v, vs + 1) {
            None => ParamRes::Malformed,
            Some((val, qe)) => {
                let j = ws_end(v, qe);
                if j >= n {
                    if km {
                        ParamRes::Found(val)
                    } else {
                        ParamRes::Absent
                    }
                } else if v[j] == SEMI {
                    if km {
                        ParamRes::Found(val)
                    } else {
                        find_param_x(v, j + 1, key)
                    }
                } else {
                    ParamRes::Malformed
                }
            },
        }
    } else {
        let se = find_semi(v, vs);
        let b0 = ws_start_back(v, se);
        let e = if b0 < vs {
            vs
        } else {
            b0
        };
        if km {
            ParamRes::Found(crate::wire::copy_range(v, vs, e))
        } else if se >= n {
            ParamRes::Absent
        } else {
            find_param_x(v, se + 1, key)
        }
    }
}

/// `i` is the start of a header line inside the block: the start of the
/// block or just after a CRLF.
pub open spec fn line_start(hr: Seq<u8>, i: int) -> bool {
    i == 0 || (i >= 2 && hr[i - 2] == CR && hr[i - 1] == LF)
}

/// A header line named `name` (lowercased comparison, colon immediately
/// after the name) begins at `i`.
pub open spec fn header_at(hr: Seq<u8>, name: Seq<u8>, i: int) -> bool {
    &&& 0 <= i
    &&& line_start(hr, i)
    &&& i + name.len() < hr.len()
    &&& (forall|k: int| 0 <= k < name.len() ==> lower(hr[i + k]) == name[k])
    &&& hr[i + name.len()] == COLON
}

/// Position of the first header line named `name` at or after `i`, or
/// `hr.len()` if there is none.
pub open spec fn first_header(hr: Seq<u8>, name: Seq<u8>, i: int) -> int
    decreases hr.len() - i,
{
    if 0 <= i && i < hr.len() {
        if header_at(hr, name, i) {
            i
        } else {
            first_header(hr, name, i + 1)
        }
    } else {
        hr.len() as int
    }
}

/// The raw value bytes (everything after the colon up to the line's CRLF
/// or the end of the block) of the first header line named `name`.
pub open spec fn header_value(hr: Seq<u8>, name: Seq<u8>) -> Option<Seq<u8>> {
    let p = first_header(hr, name, 0);
    if p < hr.len() {
        let c = p + name.len();
        Some(hr.subrange(c + 1, first_crlf(hr, c + 1)))
    } else {
        None
    }
}

/// When `first_header` lands before the end it found a header line.
pub proof fn lemma_first_header_props(hr: Seq<u8>, name: Seq<u8>, i: int)
    requires
        0 <= i,
    ensures
        first_header(hr, name, i) < hr.len() ==> header_at(hr, name, first_header(hr, name, i)),
    decreases hr.len() - i,
{
    if i < hr.len() && !header_at(hr, name, i) {
        lemma_first_header_props(hr, name, i + 1);
    }
}

/// When `first_blank` lands before the end it found a blank line.
pub proof fn lemma_first_blank_props(s: Seq<u8>, i: int)
    requires
        0 <= i,
    ensures
        first_blank(s, i) < s.len() ==> crlfcrlf_at(s, first_blank(s, i)),
        first_blank(s, i) == s.len() ==> !crlfcrlf_at(s, s.len() as int),
    decreases s.len() - i,
{
    if i + 4 <= s.len() && !crlfcrlf_at(s, i) {
        lemma_first_blank_props(s, i + 1);
    }
}

/// Decide [`header_at`] at one position.
pub fn probe_header(hr: &Vec<u8>, name: &Vec<u8>, i: usize) -> (r: bool)
    ensures
        r == header_at(hr@, name@, i as int),
{
    let n = hr.len();
    let nl = name.len();
    if i >= n {
        return false;
    }
    if !(i == 0 || (i >= 2 && hr[i - 2] == CR && hr[i - 1] == LF)) {
        return false;
    }
    if n - i <= nl {
        return false;
    }
    let mut k: usize = 0;
    while k < nl
        invariant
            n == hr@.len(),
            nl == name@.len(),
            i + nl < n,
            k <= nl,
            forall|t: int| 0 <= t < k ==> lower(hr@[i + t]) == name@[t],
        decreases nl - k,
    {
        if lower_byte(hr[i + k]) != name[k] {
            return false;
        }
        k += 1;
    }
    hr[i + nl] == COLON
}

/// Executable mirror of [`first_header`].
pub fn find_header_from(hr: &Vec<u8>, name: &Vec<u8>, i: usize) -> (r: usize)
    requires
        i <= hr@.len(),
    ensures
        r == first_header(hr@, name@, i as int),
        i <= r <= hr@.len(),
    decreases hr@.len() - i,
{
    if i < hr.len() {
        if probe_header(hr, name, i) {
            i
        } else {
            find_header_from(hr, name, i + 1)
        }
    } else {
        hr.len()
    }
}

} // verus!
