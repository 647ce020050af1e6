//! Byte-level vocabulary shared by the scanner, the header parser and the
//! serializer: the delimiter bytes of the wire format and the well-formedness
//! predicates of the text values that travel inside header lines.

use vstd::prelude::*;

verus! {

/// Carriage return.
pub const CR: u8 = 13;
/// Line feed.
pub const LF: u8 = 10;
/// `-`
pub const DASH: u8 = 45;
/// Space.
pub const SP: u8 = 32;
/// Horizontal tab.
pub const HTAB: u8 = 9;
/// `"`
pub const DQUOTE: u8 = 34;
/// `\`
pub const BSLASH: u8 = 92;
/// `;`
pub const SEMI: u8 = 59;
/// `:`
pub const COLON: u8 = 58;
/// `=`
pub const EQUALS: u8 = 61;
/// `/`
pub const SLASH: u8 = 47;

/// No carriage return and no line feed anywhere in `s`.
pub open spec fn text_wf(s: Seq<u8>) -> bool {
    forall|i: int| 0 <= i < s.len() ==> s[i] != CR && s[i] != LF
}

/// Linear whitespace inside a header line.
pub open spec fn is_ws(b: u8) -> bool {
    b == SP || b == HTAB
}

/// A usable boundary token: non-empty and free of CR and LF, so that the
/// delimiter line `--<boundary>` can never span a line break.
pub open spec fn boundary_ok(b: Seq<u8>) -> bool {
    b.len() > 0 && text_wf(b)
}

/// Shape of a serialized media type (type/subtype with optional parameters):
/// non-empty, free of CR and LF, no leading or trailing whitespace, and a
/// `/` somewhere between type and subtype.
pub open spec fn mime_wf(s: Seq<u8>) -> bool {
    &&& s.len() > 0
    &&& text_wf(s)
    &&& !is_ws(s[0])
    &&& !is_ws(s[s.len() - 1])
    &&& exists|i: int| 0 <= i < s.len() && s[i] == SLASH
}

/// Decide `text_wf` over a byte slice.
pub fn bytes_text_wf(v: &[u8]) -> (r: bool)
    ensures
        r == text_wf(v@),
{
    let n = v.len();
    let mut i: usize = 0;
    while i < n
        invariant
            n == v@.len(),
            i <= n,
            forall|j: int| 0 <= j < i ==> v@[j] != CR && v@[j] != LF,
        decreases n - i,
    {
        if v[i] == CR || v[i] == LF {
            return false;
        }
        i += 1;
    }
    true
}

/// Decide whether some byte of `v` equals `b`.
pub fn bytes_contain(v: &[u8], b: u8) -> (r: bool)
    ensures
        r == exists|i: int| 0 <= i < v@.len() && v@[i] == b,
{
    let n = v.len();
    let mut i: usize = 0;
    while i < n
        invariant
            n == v@.len(),
            i <= n,
            forall|j: int| 0 <= j < i ==> v@[j] != b,
        decreases n - i,
    {
        if v[i] == b {
            return true;
        }
        i += 1;
    }
    false
}

/// Copy the byte range `[lo, hi)` of `v` into a fresh vector.
pub fn copy_range(v: &Vec<u8>, lo: usize, hi: usize) -> (r: Vec<u8>)
    requires
        lo <= hi <= v@.len(),
    ensures
        r@ == v@.subrange(lo as int, hi as int),
{
    let mut r: Vec<u8> = Vec::new();
    let mut i: usize = lo;
    while i < hi
        invariant
            lo <= i <= hi <= v@.len(),
            r@ == v@.subrange(lo as int, i as int),
        decreases hi - i,
    {
        r.push(v[i]);
        proof {
            assert(r@ =~= v@.subrange(lo as int, i + 1 as int));
        }
        i += 1;
    }
    r
}

/// Decide `mime_wf` over a byte slice.
pub fn bytes_mime_wf(v: &[u8]) -> (r: bool)
    ensures
        r == mime_wf(v@),
{
    if v.len() == 0 {
        return false;
    }
    if !bytes_text_wf(v) {
        return false;
    }
    let first = v[0];
    let last = v[v.len() - 1];
    if first == SP || first == HTAB || last == SP || last == HTAB {
        return false;
    }
    bytes_contain(v, SLASH)
}

} // verus!
