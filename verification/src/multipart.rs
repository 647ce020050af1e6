//! The public container: either an outbound ordered collection of entries
//! to be serialized, or an inbound cursor over a supplied body and boundary.

use crate::cursor::out_matches;
use crate::cursor::spec_pull;
use crate::cursor::CursorModel;
use crate::cursor::CursorState;
use crate::cursor::MultipartCursor;
use crate::entry::Entry;
use crate::entry::EntryModel;
use crate::error::ParseError;
use crate::wire::boundary_ok;
use crate::wire::BSLASH;
use crate::wire::CR;
use crate::wire::DASH;
use crate::wire::DQUOTE;
use crate::wire::LF;
use vstd::prelude::*;

verus! {

use vstd::string::StrSliceExecFns;
use vstd::utf8::encode_utf8;

/// The CRLF pair.
pub open spec fn crlf() -> Seq<u8> {
    seq![CR, LF]
}

/// `s` with every `"` and `\` preceded by a backslash: the quoted-string
/// escaping used for header parameter values.
pub open spec fn esc(s: Seq<u8>) -> Seq<u8>
    decreases s.len(),
{
    if s.len() == 0 {
        Seq::empty()
    } else {
        let h = if s[0] == DQUOTE || s[0] == BSLASH {
            seq![BSLASH, s[0]]
        } else {
            seq![s[0]]
        };
        h + esc(s.drop_first())
    }
}

/// Escaping distributes over concatenation.
pub proof fn lemma_esc_concat(a: Seq<u8>, b: Seq<u8>)
    ensures
        esc(a + b) == esc(a) + esc(b),
    decreases a.len(),
{
    if a.len() == 0 {
        assert(a + b =~= b);
        assert(esc(a) + esc(b) =~= esc(b));
    } else {
        assert((a + b).drop_first() =~= a.drop_first() + b);
        lemma_esc_concat(a.drop_first(), b);
        assert(esc(a + b) =~= esc(a) + esc(b));
    }
}

/// The fixed text opening a `Content-Disposition` header line.
pub open spec fn cd_prefix() -> Seq<u8> {
    encode_utf8("Content-Disposition: form-data; name=\""@)
}

/// The fixed text between the name value and the filename value.
pub open spec fn fn_prefix() -> Seq<u8> {
    encode_utf8("\"; filename=\""@)
}

/// The fixed text opening a `Content-Type` header line.
pub open spec fn ct_prefix() -> Seq<u8> {
    encode_utf8("Content-Type: "@)
}

/// The wire bytes of one entry: its boundary line, its header block, a
/// blank line, the body, and the body's trailing CRLF.
pub open spec fn enc_entry(m: EntryModel, bnd: Seq<u8>) -> Seq<u8> {
    seq![DASH, DASH] + bnd + crlf() + cd_prefix() + esc(m.name) + (match m.file_name {
        Some(f) => fn_prefix() + esc(f),
        None => Seq::empty(),
    }) + seq![DQUOTE] + crlf() + (match m.content_type {
        Some(c) => ct_prefix() + c + crlf(),
        None => Seq::empty(),
    }) + crlf() + m.body + crlf()
}

/// The wire bytes of a sequence of entries, in order.
pub open spec fn enc_entries(ms: Seq<EntryModel>, bnd: Seq<u8>) -> Seq<u8>
    decreases ms.len(),
{
    if ms.len() == 0 {
        Seq::empty()
    } else {
        enc_entry(ms[0], bnd) + enc_entries(ms.drop_first(), bnd)
    }
}

/// Entry encoding distributes over concatenation.
pub proof fn lemma_enc_entries_concat(a: Seq<EntryModel>, b: Seq<EntryModel>, bnd: Seq<u8>)
    ensures
        enc_entries(a + b, bnd) == enc_entries(a, bnd) + enc_entries(b, bnd),
    decreases a.len(),
{
    if a.len() == 0 {
        assert(a + b =~= b);
        assert(enc_entries(a, bnd) + enc_entries(b, bnd) =~= enc_entries(b, bnd));
    } else {
        assert((a + b).drop_first() =~= a.drop_first() + b);
        assert((a + b)[0] == a[0]);
        lemma_enc_entries_concat(a.drop_first(), b, bnd);
        assert(enc_entries(a + b, bnd) =~= enc_entries(a, bnd) + enc_entries(b, bnd));
    }
}

/// The terminal boundary line `--<boundary>--` with its CRLF.
pub open spec fn enc_close(bnd: Seq<u8>) -> Seq<u8> {
    seq![DASH, DASH] + bnd + seq![DASH, DASH] + crlf()
}

/// The full wire body: every entry in order, then the terminal boundary line.
pub open spec fn encode_multipart(ms: Seq<EntryModel>, bnd: Seq<u8>) -> Seq<u8> {
    enc_entries(ms, bnd) + enc_close(bnd)
}

/// Append `src` escaped to `dst`.
fn push_esc(dst: &mut Vec<u8>, src: &[u8])
    ensures
        final(dst)@ == old(dst)@ + esc(src@),
{
    let ghost base = old(dst)@;
    let n = src.len();
    let mut i: usize = 0;
    while i < n
        invariant
            n == src@.len(),
            i <= n,
            dst@ == base + esc(src@.subrange(0, i as int)),
        decreases n - i,
    {
        let b = src[i];
        if b == DQUOTE || b == BSLASH {
            dst.push(BSLASH);
        }
        dst.push(b);
        proof {
            let pre = src@.subrange(0, i as int);
            let one = seq![b];
            assert(src@.subrange(0, i + 1 as int) =~= pre + one);
            lemma_esc_concat(pre, one);
            assert(esc(Seq::<u8>::empty()) =~= Seq::<u8>::empty());
            assert(one.drop_first() =~= Seq::<u8>::empty());
            assert(one[0] == b);
            assert(esc(one) =~= if b == DQUOTE || b == BSLASH {
                seq![BSLASH, b]
            } else {
                seq![b]
            });
            assert(dst@ =~= base + esc(src@.subrange(0, i + 1 as int)));
        }
        i += 1;
    }
    proof {
        assert(src@.subrange(0, n as int) =~= src@);
    }
}

/// Append one entry's wire bytes to `dst`.
#[verifier::rlimit(50)]
fn push_entry(dst: &mut Vec<u8>, e: &Entry, bnd: &Vec<u8>)
    ensures
        final(dst)@ == old(dst)@ + enc_entry(e@, bnd@),
{
    let ghost base = old(dst)@;
    dst.push(DASH);
    dst.push(DASH);
    dst.extend_from_slice(bnd.as_slice());
    dst.push(CR);
    dst.push(LF);
    let ghost p1 = seq![DASH, DASH] + bnd@ + crlf();
    proof {
        assert(dst@ =~= base + p1);
    }
    dst.extend_from_slice("Content-Disposition: form-data; name=\"".as_bytes());
    push_esc(dst, e.name().as_str().as_bytes());
    let ghost p2 = p1 + cd_prefix() + esc(e@.name);
    proof {
        assert(dst@ =~= base + p2);
    }
    match e.file_name() {
        Some(f) => {
            dst.extend_from_slice("\"; filename=\"".as_bytes());
            push_esc(dst, f.as_str().as_bytes());
        },
        None => {},
    }
    let ghost p3 = p2 + (match e@.file_name {
        Some(f) => fn_prefix() + esc(f),
        None => Seq::<u8>::empty(),
    });
    proof {
        assert(dst@ =~= base + p3);
    }
    dst.push(DQUOTE);
    dst.push(CR);
    dst.push(LF);
    match e.content_type() {
        Some(m) => {
            dst.extend_from_slice("Content-Type: ".as_bytes());
            dst.extend_from_slice(m.text().as_str().as_bytes());
            dst.push(CR);
            dst.push(LF);
        },
        None => {},
    }
    let ghost p4 = p3 + seq![DQUOTE] + crlf() + (match e@.content_type {
        Some(c) => ct_prefix() + c + crlf(),
        None => Seq::<u8>::empty(),
    });
    proof {
        assert(dst@ =~= base + p4);
    }
    dst.push(CR);
    dst.push(LF);
    dst.extend_from_slice(e.body().as_slice());
    dst.push(CR);
    dst.push(LF);
    proof {
        assert(dst@ =~= base + (p4 + crlf() + e@.body + crlf()));
        assert(p4 + crlf() + e@.body + crlf() =~= enc_entry(e@, bnd@));
    }
}

/// The mathematical value of a [`Multipart`]: one of two mutually
/// exclusive modes, fixed at construction.
#[verifier::ext_equal]
pub enum MultipartModel {
    /// The ordered entry models of an outbound container.
    Outbound(Seq<EntryModel>),
    /// The cursor model of an inbound container.
    Inbound(CursorModel),
}

/// A multipart body: either an outbound ordered collection of entries
/// (insertion order preserved, no deduplication), or an inbound cursor
/// over a supplied body and boundary. The two modes cannot be mixed: the
/// shape rules out a container that both holds pushed entries and parses.
#[derive(Debug)]
pub enum Multipart {
    /// Entries pushed by the caller, awaiting serialization.
    Outbound { entries: Vec<Entry> },
    /// A pull-based cursor over a buffered body.
    Inbound { cursor: MultipartCursor },
}

impl View for Multipart {
    type V = MultipartModel;

    open spec fn view(&self) -> MultipartModel {
        match self {
            Multipart::Outbound { entries } => MultipartModel::Outbound(
                entries@.map_values(|e: Entry| e@),
            ),
            Multipart::Inbound { cursor } => MultipartModel::Inbound(cursor@),
        }
    }
}

impl Multipart {
    /// Internal consistency: an inbound cursor is well formed.
    pub open spec fn wf(&self) -> bool {
        match self {
            Multipart::Outbound { .. } => true,
            Multipart::Inbound { cursor } => cursor.wf(),
        }
    }

    /// Create a new, empty outbound `Multipart`.
    pub fn new() -> (r: Multipart)
        ensures
            r@ == MultipartModel::Outbound(Seq::<EntryModel>::empty()),
            r.wf(),
    {
        let r = Multipart::Outbound { entries: Vec::new() };
        proof {
            assert(Seq::<Entry>::empty().map_values(|e: Entry| e@) =~= Seq::<
                EntryModel,
            >::empty());
        }
        r
    }

    /// Append an entry; outbound containers only, in insertion order.
    pub fn push(&mut self, entry: Entry)
        requires
            old(self)@ is Outbound,
        ensures
            final(self)@ matches MultipartModel::Outbound(ms) && old(self)@ matches
                MultipartModel::Outbound(ms0) && ms == ms0.push(entry@),
            final(self).wf(),
    {
        let ghost m0 = entry@;
        match self {
            Multipart::Outbound { entries } => {
                let ghost es0 = entries@;
                entries.push(entry);
                proof {
                    assert(entries@.map_values(|e: Entry| e@) =~= es0.map_values(
                        |e: Entry| e@,
                    ).push(m0));
                }
            },
            Multipart::Inbound { .. } => {},
        }
    }

    /// Start consuming a buffered body with the given boundary token; fails
    /// immediately — before any entry is produced — when the token is
    /// unusable.
    pub fn from_source(body: Vec<u8>, boundary: Vec<u8>) -> (r: Result<Multipart, ParseError>)
        ensures
            r is Ok <==> boundary_ok(boundary@),
            r matches Ok(m) ==> m@ == MultipartModel::Inbound(
                CursorModel { buf: body@, bnd: boundary@, pos: 0, state: CursorState::Ready },
            ) && m.wf(),
            r matches Err(e) ==> e == ParseError::BoundaryNotFound,
    {
        match MultipartCursor::new(body, boundary) {
            Ok(c) => Ok(Multipart::Inbound { cursor: c }),
            Err(e) => Err(e),
        }
    }

    /// Pull the next parsed entry of an inbound container; an outbound
    /// container produces nothing.
    pub fn next_entry(&mut self) -> (r: Option<Result<Entry, ParseError>>)
        requires
            old(self).wf(),
        ensures
            final(self).wf(),
            match old(self)@ {
                MultipartModel::Outbound(_) => r is None && final(self)@ == old(self)@,
                MultipartModel::Inbound(c) => final(self)@ == MultipartModel::Inbound(
                    spec_pull(c).0,
                ) && out_matches(r, spec_pull(c).1),
            },
    {
        match self {
            Multipart::Outbound { .. } => None,
            Multipart::Inbound { cursor } => cursor.pull(),
        }
    }

    /// Serialize an outbound container: for every entry in order its
    /// boundary line, headers, blank line and body, then the terminal
    /// boundary line.
    pub fn to_bytes(&self, boundary: &Vec<u8>) -> (r: Vec<u8>)
        requires
            self@ is Outbound,
        ensures
            self@ matches MultipartModel::Outbound(ms) && r@ == encode_multipart(ms, boundary@),
    {
        let mut out: Vec<u8> = Vec::new();
        match self {
            Multipart::Outbound { entries } => {
                let ghost ms = entries@.map_values(|e: Entry| e@);
                let n = entries.len();
                let mut k: usize = 0;
                while k < n
                    invariant
                        n == entries@.len(),
                        k <= n,
                        ms == entries@.map_values(|e: Entry| e@),
                        out@ == enc_entries(ms.subrange(0, k as int), boundary@),
                    decreases n - k,
                {
                    push_entry(&mut out, &entries[k], boundary);
                    proof {
                        let pre = ms.subrange(0, k as int);
                        let one = seq![ms[k as int]];
                        assert(ms.subrange(0, k + 1 as int) =~= pre + one);
                        lemma_enc_entries_concat(pre, one, boundary@);
                        assert(enc_entries(Seq::<EntryModel>::empty(), boundary@) =~= Seq::<
                            u8,
                        >::empty());
                        assert(one.drop_first() =~= Seq::<EntryModel>::empty());
                        assert(one[0] == ms[k as int]);
                        assert(enc_entries(one, boundary@) =~= enc_entry(ms[k as int], boundary@));
                        assert(out@ =~= enc_entries(ms.subrange(0, k + 1 as int), boundary@));
                    }
                    k += 1;
                }
                proof {
                    assert(ms.subrange(0, n as int) =~= ms);
                }
            },
            Multipart::Inbound { .. } => {},
        }
        out.push(DASH);
        out.push(DASH);
        out.extend_from_slice(boundary.as_slice());
        out.push(DASH);
        out.push(DASH);
        out.push(CR);
        out.push(LF);
        proof {
            assert(self@ matches MultipartModel::Outbound(ms) && out@ =~= encode_multipart(
                ms,
                boundary@,
            ));
        }
        out
    }
}

} // verus!
