//! The library's cross-function guarantees, stated and proved over the
//! spec-level models: what the cursor will produce from a configuration,
//! how that sequence lines up with the boundary-delimited parts of the
//! buffer, and how serialization and parsing relate.

use crate::cursor::spec_pull;
use crate::headers::scan_quoted;
use crate::multipart::esc;
use crate::wire::BSLASH;
use crate::wire::DQUOTE;
use crate::cursor::CursorModel;
use crate::cursor::CursorState;
use crate::entry::EntryModel;
use crate::error::ParseError;
use crate::multipart::enc_entries;
use crate::multipart::enc_entry;
use crate::multipart::encode_multipart;
use crate::multipart::cd_prefix;
use crate::multipart::crlf;
use crate::multipart::ct_prefix;
use crate::multipart::fn_prefix;
use crate::part::spec_parse_part;
use crate::scanner::close_marker_at;
use crate::scanner::open_marker_at;
use crate::scanner::line_end_at;
use crate::scanner::anchored;
use crate::scanner::marker_at;
use crate::scanner::no_marker_in;
use crate::scanner::delim_at;
use crate::scanner::first_marker;
use crate::scanner::lemma_first_marker_found;
use crate::scanner::lemma_first_marker_props;
use crate::wire::boundary_ok;
use crate::wire::CR;
use crate::wire::DASH;
use crate::wire::LF;
use vstd::prelude::*;

verus! {

/// A rank that orders the cursor states for termination: `Ready` always
/// steps into another state.
pub open spec fn state_rank(s: CursorState) -> int {
    match s {
        CursorState::Ready => 1,
        _ => 0,
    }
}

/// Every item the cursor will produce from this configuration, in order,
/// until it stops producing.
pub open spec fn run_from(m: CursorModel) -> Seq<Result<EntryModel, ParseError>>
    decreases state_rank(m.state), m.buf.len() - m.pos,
        via run_from_dec
{
    let s = spec_pull(m);
    match s.1 {
        None => Seq::empty(),
        Some(item) => seq![item] + (match s.0.state {
            CursorState::InProgress => run_from(s.0),
            _ => Seq::empty(),
        }),
    }
}

#[via_fn]
proof fn run_from_dec(m: CursorModel) {
    let buf = m.buf;
    let bnd = m.bnd;
    lemma_first_marker_props(buf, bnd, 0);
    if 0 <= m.pos <= buf.len() {
        lemma_first_marker_props(buf, bnd, m.pos);
    }
    let i = first_marker(buf, bnd, 0);
    if i < buf.len() {
        let e = i + 2 + bnd.len();
        if 0 <= e + 2 <= buf.len() {
            lemma_first_marker_props(buf, bnd, e + 2);
        }
    }
}

/// The raw byte segment of each boundary-delimited part, starting from a
/// position just after a non-terminal boundary line: each segment runs to
/// the next boundary line, stripped of the CRLF that precedes that line,
/// and the list ends with the segment before the terminal boundary line
/// (or before the last boundary line the buffer holds).
pub open spec fn segments_from(buf: Seq<u8>, bnd: Seq<u8>, pos: int) -> Seq<Seq<u8>>
    decreases buf.len() - pos,
        via segments_from_dec
{
    let j = first_marker(buf, bnd, pos);
    if j == buf.len() {
        Seq::empty()
    } else {
        let segend = if j >= pos + 2 {
            j - 2
        } else {
            pos
        };
        let seg = buf.subrange(pos, segend);
        if close_marker_at(buf, bnd, j) {
            seq![seg]
        } else {
            let e = j + 2 + bnd.len();
            let np = if e == buf.len() {
                e
            } else {
                e + 2
            };
            seq![seg] + segments_from(buf, bnd, np)
        }
    }
}

#[via_fn]
proof fn segments_from_dec(buf: Seq<u8>, bnd: Seq<u8>, pos: int) {
    if 0 <= pos <= buf.len() {
        lemma_first_marker_props(buf, bnd, pos);
    }
}

/// Order preservation, from any in-progress position: the i-th item the
/// cursor produces is exactly the parse of the i-th boundary-delimited
/// part from that position, and every item before the last one is an
/// entry — an error, if one comes, comes last and ends the sequence.
pub proof fn lemma_order_preservation(m: CursorModel)
    requires
        m.state == CursorState::InProgress,
        0 <= m.pos <= m.buf.len(),
    ensures
        ({
            let items = run_from(m);
            let segs = segments_from(m.buf, m.bnd, m.pos);
            &&& forall|i: int|
                #![auto]
                0 <= i < items.len() && items[i] is Ok ==> i < segs.len() && items[i]
                    == spec_parse_part(segs[i])
            &&& forall|i: int| #![auto] 0 <= i < items.len() - 1 ==> items[i] is Ok
        }),
    decreases m.buf.len() - m.pos,
{
    let items = run_from(m);
    let segs = segments_from(m.buf, m.bnd, m.pos);
    let buf = m.buf;
    let bnd = m.bnd;
    lemma_first_marker_props(buf, bnd, m.pos);
    let j = first_marker(buf, bnd, m.pos);
    if j == buf.len() {
        assert(items =~= seq![
            Result::<EntryModel, ParseError>::Err(ParseError::UnexpectedEof),
        ]);
    } else {
        let segend = if j >= m.pos + 2 {
            j - 2
        } else {
            m.pos
        };
        let seg = buf.subrange(m.pos, segend);
        assert(segs[0] == seg);
        match spec_parse_part(seg) {
            Err(e) => {
                assert(items =~= seq![Result::<EntryModel, ParseError>::Err(e)]);
            },
            Ok(em) => {
                if close_marker_at(buf, bnd, j) {
                    assert(items =~= seq![Result::<EntryModel, ParseError>::Ok(em)]);
                    assert(segs =~= seq![seg]);
                } else {
                    let e = j + 2 + bnd.len();
                    let np = if e == buf.len() {
                        e
                    } else {
                        e + 2
                    };
                    let m2 = CursorModel { pos: np, ..m };
                    assert(m.pos < np <= buf.len());
                    lemma_order_preservation(m2);
                    let items2 = run_from(m2);
                    let segs2 = segments_from(buf, bnd, np);
                    assert(items =~= seq![Result::<EntryModel, ParseError>::Ok(em)] + items2);
                    assert(segs =~= seq![seg] + segs2);
                    assert forall|i: int|
                        0 <= i < items.len() && items[i] is Ok implies i < segs.len() && items[i]
                        == spec_parse_part(segs[i]) by {
                        if i > 0 {
                            assert(items[i] == items2[i - 1]);
                            assert(segs2[i - 1] == segs[i]);
                        }
                    }
                    assert forall|i: int| 0 <= i < items.len() - 1 implies items[i] is Ok by {
                        if i > 0 {
                            assert(items[i] == items2[i - 1]);
                        }
                    }
                }
            },
        }
    }
}

/// Every item an inbound container over `buf` and `bnd` will produce,
/// starting from the initial `Ready` state.
pub open spec fn spec_items(buf: Seq<u8>, bnd: Seq<u8>) -> Seq<Result<EntryModel, ParseError>> {
    run_from(CursorModel { buf, bnd, pos: 0, state: CursorState::Ready })
}

/// The raw segments of every boundary-delimited part of the whole buffer:
/// none when the first boundary line is missing or terminal, otherwise the
/// segments following the first boundary line.
pub open spec fn spec_segments(buf: Seq<u8>, bnd: Seq<u8>) -> Seq<Seq<u8>> {
    let i = first_marker(buf, bnd, 0);
    if i == buf.len() || close_marker_at(buf, bnd, i) {
        Seq::empty()
    } else {
        let e = i + 2 + bnd.len();
        if e == buf.len() {
            Seq::empty()
        } else {
            segments_from(buf, bnd, e + 2)
        }
    }
}

/// Order preservation for a whole inbound container: the i-th item it
/// produces is the parse of the i-th boundary-delimited part of the
/// buffer, and only the last item can be an error.
pub proof fn lemma_order_from_start(buf: Seq<u8>, bnd: Seq<u8>)
    ensures
        ({
            let items = spec_items(buf, bnd);
            let segs = spec_segments(buf, bnd);
            &&& forall|i: int|
                #![auto]
                0 <= i < items.len() && items[i] is Ok ==> i < segs.len() && items[i]
                    == spec_parse_part(segs[i])
            &&& forall|i: int| #![auto] 0 <= i < items.len() - 1 ==> items[i] is Ok
        }),
{
    let m = CursorModel { buf, bnd, pos: 0, state: CursorState::Ready };
    let items = spec_items(buf, bnd);
    lemma_first_marker_props(buf, bnd, 0);
    let i = first_marker(buf, bnd, 0);
    if i == buf.len() {
        assert(items =~= seq![
            Result::<EntryModel, ParseError>::Err(ParseError::UnexpectedEof),
        ]);
    } else if close_marker_at(buf, bnd, i) {
        assert(items =~= Seq::<Result<EntryModel, ParseError>>::empty());
    } else {
        let e = i + 2 + bnd.len();
        if e == buf.len() {
            assert(items =~= seq![
                Result::<EntryModel, ParseError>::Err(ParseError::UnexpectedEof),
            ]);
        } else {
            let m1 = CursorModel { pos: e + 2, state: CursorState::InProgress, ..m };
            assert(spec_pull(m) == spec_pull(m1));
            assert(items =~= run_from(m1));
            lemma_order_preservation(m1);
        }
    }
}

/// Round trip for a container with no entries: its serialization opens
/// with the terminal boundary line, so the very first pull consumes it and
/// ends the sequence, and nothing is ever produced.
pub proof fn lemma_round_trip_empty(bnd: Seq<u8>)
    requires
        boundary_ok(bnd),
    ensures
        spec_items(encode_multipart(Seq::<EntryModel>::empty(), bnd), bnd) == Seq::<
            Result<EntryModel, ParseError>,
        >::empty(),
        spec_pull(
            CursorModel {
                buf: encode_multipart(Seq::<EntryModel>::empty(), bnd),
                bnd,
                pos: 0,
                state: CursorState::Ready,
            },
        ).1 is None,
{
    let buf = encode_multipart(Seq::<EntryModel>::empty(), bnd);
    let bl = bnd.len() as int;
    assert(enc_entries(Seq::<EntryModel>::empty(), bnd) =~= Seq::<u8>::empty());
    assert(buf =~= seq![DASH, DASH] + bnd + seq![DASH, DASH] + crlf());
    assert(buf.len() == bl + 6);
    assert(buf[0] == DASH && buf[1] == DASH);
    assert(forall|k: int| 0 <= k < bl ==> buf[2 + k] == bnd[k]);
    assert(delim_at(buf, bnd, 0));
    assert(buf[2 + bl] == DASH && buf[3 + bl] == DASH);
    assert(buf[4 + bl] == CR && buf[5 + bl] == LF);
    assert(close_marker_at(buf, bnd, 0));
    lemma_first_marker_found(buf, bnd, 0, 0);
    assert(spec_items(buf, bnd) =~= Seq::<Result<EntryModel, ParseError>>::empty());
}

/// Quoted-string escaping is inverted exactly by the quoted-string scan:
/// wherever a buffer holds the escaped text followed by a closing quote,
/// scanning from the start of that text succeeds, returns the original
/// text, and stops just past the closing quote — whatever the text holds.
pub proof fn lemma_scan_quoted_esc(v: Seq<u8>, i: int, s: Seq<u8>)
    requires
        0 <= i,
        i + esc(s).len() + 1 <= v.len(),
        v.subrange(i, i + esc(s).len()) == esc(s),
        v[i + esc(s).len()] == DQUOTE,
    ensures
        scan_quoted(v, i) == Some((s, i + esc(s).len() + 1)),
    decreases s.len(),
{
    if s.len() == 0 {
        assert(esc(s).len() == 0);
        assert(v[i] == DQUOTE);
    } else {
        let c = s[0];
        let rest = s.drop_first();
        let el = esc(s).len() as int;
        if c == DQUOTE || c == BSLASH {
            assert(esc(s) =~= seq![BSLASH, c] + esc(rest));
            assert(v[i] == v.subrange(i, i + el)[0]);
            assert(v[i] == BSLASH);
            assert(v[i + 1] == v.subrange(i, i + el)[1]);
            assert(v[i + 1] == c);
            assert(v.subrange(i + 2, i + 2 + esc(rest).len()) =~= esc(rest)) by {
                assert forall|k: int| 0 <= k < esc(rest).len() implies v.subrange(
                    i + 2,
                    i + 2 + esc(rest).len(),
                )[k] == esc(rest)[k] by {
                    assert(v[i + 2 + k] == v.subrange(i, i + el)[2 + k]);
                }
            }
            assert(v[i + 2 + esc(rest).len()] == DQUOTE);
            lemma_scan_quoted_esc(v, i + 2, rest);
            assert(seq![v[i + 1]] + rest =~= s);
        } else {
            assert(esc(s) =~= seq![c] + esc(rest));
            assert(v[i] == v.subrange(i, i + el)[0]);
            assert(v[i] == c);
            assert(v.subrange(i + 1, i + 1 + esc(rest).len()) =~= esc(rest)) by {
                assert forall|k: int| 0 <= k < esc(rest).len() implies v.subrange(
                    i + 1,
                    i + 1 + esc(rest).len(),
                )[k] == esc(rest)[k] by {
                    assert(v[i + 1 + k] == v.subrange(i, i + el)[1 + k]);
                }
            }
            assert(v[i + 1 + esc(rest).len()] == DQUOTE);
            lemma_scan_quoted_esc(v, i + 1, rest);
            assert(seq![v[i]] + rest =~= s);
        }
    }
}

/// The concrete bytes of the fixed header texts the serializer emits and
/// of the parameter keys the parser looks for.
pub proof fn lemma_literal_bytes()
    ensures
        cd_prefix() =~= seq![
            67u8, 111u8, 110u8, 116u8, 101u8, 110u8, 116u8, 45u8, 68u8, 105u8, 115u8, 112u8,
            111u8, 115u8, 105u8, 116u8, 105u8, 111u8, 110u8, 58u8, 32u8, 102u8, 111u8, 114u8,
            109u8, 45u8, 100u8, 97u8, 116u8, 97u8, 59u8, 32u8, 110u8, 97u8, 109u8, 101u8, 61u8,
            34u8,
        ],
        fn_prefix() =~= seq![
            34u8, 59u8, 32u8, 102u8, 105u8, 108u8, 101u8, 110u8, 97u8, 109u8, 101u8, 61u8, 34u8,
        ],
        crate::headers::name_key() =~= seq![110u8, 97u8, 109u8, 101u8],
        crate::headers::filename_key() =~= seq![
            102u8, 105u8, 108u8, 101u8, 110u8, 97u8, 109u8, 101u8,
        ],
        ct_prefix() =~= seq![
            67u8, 111u8, 110u8, 116u8, 101u8, 110u8, 116u8, 45u8, 84u8, 121u8, 112u8, 101u8,
            58u8, 32u8,
        ],
        crate::headers::cd_name() =~= seq![
            99u8, 111u8, 110u8, 116u8, 101u8, 110u8, 116u8, 45u8, 100u8, 105u8, 115u8, 112u8,
            111u8, 115u8, 105u8, 116u8, 105u8, 111u8, 110u8,
        ],
        crate::headers::ct_name() =~= seq![
            99u8, 111u8, 110u8, 116u8, 101u8, 110u8, 116u8, 45u8, 116u8, 121u8, 112u8, 101u8,
        ],
{
    reveal_strlit("Content-Disposition: form-data; name=\"");
    let cdp = "Content-Disposition: form-data; name=\""@;
    assert(cdp =~= seq![
        'C', 'o', 'n', 't', 'e', 'n', 't', '-', 'D', 'i', 's', 'p', 'o', 's', 'i', 't', 'i',
        'o', 'n', ':', ' ', 'f', 'o', 'r', 'm', '-', 'd', 'a', 't', 'a', ';', ' ', 'n', 'a',
        'm', 'e', '=', '"',
    ]);
    assert(vstd::utf8::is_ascii_chars(cdp));
    vstd::utf8::is_ascii_chars_encode_utf8(cdp);
    assert(cd_prefix() =~= seq![
        67u8, 111u8, 110u8, 116u8, 101u8, 110u8, 116u8, 45u8, 68u8, 105u8, 115u8, 112u8, 111u8,
        115u8, 105u8, 116u8, 105u8, 111u8, 110u8, 58u8, 32u8, 102u8, 111u8, 114u8, 109u8, 45u8,
        100u8, 97u8, 116u8, 97u8, 59u8, 32u8, 110u8, 97u8, 109u8, 101u8, 61u8, 34u8,
    ]);
    reveal_strlit("\"; filename=\"");
    let fnp = "\"; filename=\""@;
    assert(fnp =~= seq!['"', ';', ' ', 'f', 'i', 'l', 'e', 'n', 'a', 'm', 'e', '=', '"']);
    assert(vstd::utf8::is_ascii_chars(fnp));
    vstd::utf8::is_ascii_chars_encode_utf8(fnp);
    assert(fn_prefix() =~= seq![
        34u8, 59u8, 32u8, 102u8, 105u8, 108u8, 101u8, 110u8, 97u8, 109u8, 101u8, 61u8, 34u8,
    ]);
    reveal_strlit("name");
    let nk = "name"@;
    assert(nk =~= seq!['n', 'a', 'm', 'e']);
    assert(vstd::utf8::is_ascii_chars(nk));
    vstd::utf8::is_ascii_chars_encode_utf8(nk);
    assert(crate::headers::name_key() =~= seq![110u8, 97u8, 109u8, 101u8]);
    reveal_strlit("filename");
    let fk = "filename"@;
    assert(fk =~= seq!['f', 'i', 'l', 'e', 'n', 'a', 'm', 'e']);
    assert(vstd::utf8::is_ascii_chars(fk));
    vstd::utf8::is_ascii_chars_encode_utf8(fk);
    assert(crate::headers::filename_key() =~= seq![
        102u8, 105u8, 108u8, 101u8, 110u8, 97u8, 109u8, 101u8,
    ]);
    reveal_strlit("Content-Type: ");
    let ctp = "Content-Type: "@;
    assert(ctp =~= seq![
        'C', 'o', 'n', 't', 'e', 'n', 't', '-', 'T', 'y', 'p', 'e', ':', ' ',
    ]);
    assert(vstd::utf8::is_ascii_chars(ctp));
    vstd::utf8::is_ascii_chars_encode_utf8(ctp);
    assert(ct_prefix() =~= seq![
        67u8, 111u8, 110u8, 116u8, 101u8, 110u8, 116u8, 45u8, 84u8, 121u8, 112u8, 101u8, 58u8,
        32u8,
    ]);
    reveal_strlit("content-disposition");
    let cdn = "content-disposition"@;
    assert(cdn =~= seq![
        'c', 'o', 'n', 't', 'e', 'n', 't', '-', 'd', 'i', 's', 'p', 'o', 's', 'i', 't', 'i',
        'o', 'n',
    ]);
    assert(vstd::utf8::is_ascii_chars(cdn));
    vstd::utf8::is_ascii_chars_encode_utf8(cdn);
    assert(crate::headers::cd_name() =~= seq![
        99u8, 111u8, 110u8, 116u8, 101u8, 110u8, 116u8, 45u8, 100u8, 105u8, 115u8, 112u8,
        111u8, 115u8, 105u8, 116u8, 105u8, 111u8, 110u8,
    ]);
    reveal_strlit("content-type");
    let ctn = "content-type"@;
    assert(ctn =~= seq!['c', 'o', 'n', 't', 'e', 'n', 't', '-', 't', 'y', 'p', 'e']);
    assert(vstd::utf8::is_ascii_chars(ctn));
    vstd::utf8::is_ascii_chars_encode_utf8(ctn);
    assert(crate::headers::ct_name() =~= seq![
        99u8, 111u8, 110u8, 116u8, 101u8, 110u8, 116u8, 45u8, 116u8, 121u8, 112u8, 101u8,
    ]);
}

/// Where no `;` occurs before `j` and one stands at `j` (or `j` is the
/// end), the scan for the next `;` lands on `j`.
pub proof fn lemma_semi_end_is(s: Seq<u8>, from: int, j: int)
    requires
        0 <= from <= j <= s.len(),
        forall|p: int| from <= p < j ==> s[p] != crate::wire::SEMI,
        j == s.len() || s[j] == crate::wire::SEMI,
    ensures
        crate::headers::semi_end(s, from) == j,
    decreases j - from,
{
    if from < j {
        lemma_semi_end_is(s, from + 1, j);
    }
}

/// Where no `=` or `;` occurs before `j` and one stands at `j` (or `j` is
/// the end), the key scan lands on `j`.
pub proof fn lemma_key_end_is(s: Seq<u8>, from: int, j: int)
    requires
        0 <= from <= j <= s.len(),
        forall|p: int|
            from <= p < j ==> s[p] != crate::wire::SEMI && s[p] != crate::wire::EQUALS,
        j == s.len() || s[j] == crate::wire::SEMI || s[j] == crate::wire::EQUALS,
    ensures
        crate::headers::key_end(s, from) == j,
    decreases j - from,
{
    if from < j {
        lemma_key_end_is(s, from + 1, j);
    }
}

/// Where everything before `j` is whitespace and `j` is not (or is the
/// end), the whitespace skip lands on `j`.
pub proof fn lemma_skip_ws_is(s: Seq<u8>, from: int, j: int)
    requires
        0 <= from <= j <= s.len(),
        forall|p: int| from <= p < j ==> crate::wire::is_ws(s[p]),
        j == s.len() || !crate::wire::is_ws(s[j]),
    ensures
        crate::headers::skip_ws(s, from) == j,
    decreases j - from,
{
    if from < j {
        lemma_skip_ws_is(s, from + 1, j);
    }
}

/// Where everything from `j` to `e` is whitespace and the byte before `j`
/// is not (or `j` is the start), the backward whitespace skip lands on `j`.
pub proof fn lemma_skip_ws_back_is(s: Seq<u8>, e: int, j: int)
    requires
        0 <= j <= e <= s.len(),
        forall|p: int| j <= p < e ==> crate::wire::is_ws(s[p]),
        j == 0 || !crate::wire::is_ws(s[j - 1]),
    ensures
        crate::headers::skip_ws_back(s, e) == j,
    decreases e - j,
{
    if j < e {
        lemma_skip_ws_back_is(s, e - 1, j);
    }
}

/// The value (everything after the colon) of the `Content-Disposition`
/// header line the serializer writes for an entry.
pub open spec fn cd_value(m: EntryModel) -> Seq<u8> {
    cd_prefix().subrange(20, 38) + esc(m.name) + (match m.file_name {
        Some(f) => fn_prefix() + esc(f),
        None => Seq::empty(),
    }) + seq![DQUOTE]
}

/// Where the scanning functions land inside the `Content-Disposition`
/// value the serializer writes: the positions of the parameter keys, their
/// quoted values, and the scan results for both.
proof fn lemma_cd_value_layout(m: EntryModel)
    ensures
        ({
            let v = cd_value(m);
            let el = esc(m.name).len() as int;
            &&& v.len() >= 19 + el
            &&& crate::headers::semi_end(v, 0) == 10
            &&& crate::headers::skip_ws(v, 11) == 12
            &&& crate::headers::key_end(v, 12) == 16
            &&& crate::headers::skip_ws_back(v, 16) == 16
            &&& crate::headers::lower_seq(v.subrange(12, 16)) == crate::headers::name_key()
            &&& crate::headers::lower_seq(v.subrange(12, 16)) != crate::headers::filename_key()
            &&& v[16] == crate::wire::EQUALS
            &&& crate::headers::skip_ws(v, 17) == 17
            &&& v[17] == DQUOTE
            &&& scan_quoted(v, 18) == Some((m.name, 19 + el))
            &&& match m.file_name {
                None => v.len() == 19 + el && crate::headers::skip_ws(v, 19 + el) == 19 + el,
                Some(f) => {
                    let b0 = 20 + el;
                    let elf = esc(f).len() as int;
                    &&& v.len() == 32 + el + elf
                    &&& v[19 + el] == crate::wire::SEMI
                    &&& crate::headers::skip_ws(v, 19 + el) == 19 + el
                    &&& crate::headers::skip_ws(v, b0) == b0 + 1
                    &&& crate::headers::key_end(v, b0 + 1) == b0 + 9
                    &&& crate::headers::skip_ws_back(v, b0 + 9) == b0 + 9
                    &&& crate::headers::lower_seq(v.subrange(b0 + 1, b0 + 9))
                        == crate::headers::filename_key()
                    &&& v[b0 + 9] == crate::wire::EQUALS
                    &&& crate::headers::skip_ws(v, b0 + 10) == b0 + 10
                    &&& v[b0 + 10] == DQUOTE
                    &&& scan_quoted(v, b0 + 11) == Some((f, 32 + el + elf))
                    &&& crate::headers::skip_ws(v, 32 + el + elf) == 32 + el + elf
                },
            }
        }),
{
    lemma_literal_bytes();
    let v = cd_value(m);
    let p = cd_prefix().subrange(20, 38);
    assert(p =~= seq![
        32u8, 102u8, 111u8, 114u8, 109u8, 45u8, 100u8, 97u8, 116u8, 97u8, 59u8, 32u8, 110u8,
        97u8, 109u8, 101u8, 61u8, 34u8,
    ]);
    let el = esc(m.name).len() as int;
    assert(v.subrange(0, 18) =~= p);
    assert(forall|k: int| 0 <= k < 18 ==> v[k] == p[k]);
    assert(v.subrange(18, 18 + el) =~= esc(m.name));
    lemma_semi_end_is(v, 0, 10);
    lemma_skip_ws_is(v, 11, 12);
    lemma_key_end_is(v, 12, 16);
    lemma_skip_ws_back_is(v, 16, 16);
    assert(v.subrange(12, 16) =~= seq![110u8, 97u8, 109u8, 101u8]);
    assert(crate::headers::lower_seq(v.subrange(12, 16)) =~= seq![110u8, 97u8, 109u8, 101u8]);
    lemma_skip_ws_is(v, 17, 17);
    assert(v[18 + el] == DQUOTE);
    lemma_scan_quoted_esc(v, 18, m.name);
    let q = 19 + el;
    match m.file_name {
        None => {
            assert(v.len() == q);
            lemma_skip_ws_is(v, q, q);
        },
        Some(f) => {
            let elf = esc(f).len() as int;
            assert(v.len() == 32 + el + elf);
            assert(v.subrange(18 + el, 31 + el) =~= fn_prefix());
            assert(forall|k: int| 0 <= k < 13 ==> v[18 + el + k] == fn_prefix()[k]);
            assert(v[q] == crate::wire::SEMI);
            lemma_skip_ws_is(v, q, q);
            let b0 = q + 1;
            lemma_skip_ws_is(v, b0, b0 + 1);
            assert(v.subrange(b0 + 1, b0 + 9) =~= seq![
                102u8, 105u8, 108u8, 101u8, 110u8, 97u8, 109u8, 101u8,
            ]);
            lemma_key_end_is(v, b0 + 1, b0 + 9);
            lemma_skip_ws_back_is(v, b0 + 9, b0 + 9);
            assert(crate::headers::lower_seq(v.subrange(b0 + 1, b0 + 9)) =~= seq![
                102u8, 105u8, 108u8, 101u8, 110u8, 97u8, 109u8, 101u8,
            ]);
            lemma_skip_ws_is(v, b0 + 10, b0 + 10);
            assert(v[b0 + 10] == DQUOTE);
            assert(v.subrange(b0 + 11, b0 + 11 + elf) =~= esc(f));
            assert(v[b0 + 11 + elf] == DQUOTE);
            lemma_scan_quoted_esc(v, b0 + 11, f);
            lemma_skip_ws_is(v, b0 + 12 + elf, b0 + 12 + elf);
        },
    }
}

/// Escaping never introduces a CR or LF.
pub proof fn lemma_esc_text_wf(s: Seq<u8>)
    requires
        crate::wire::text_wf(s),
    ensures
        crate::wire::text_wf(esc(s)),
    decreases s.len(),
{
    if s.len() > 0 {
        assert(crate::wire::text_wf(s.drop_first())) by {
            assert(forall|i: int|
                0 <= i < s.drop_first().len() ==> s.drop_first()[i] == s[i + 1]);
        }
        lemma_esc_text_wf(s.drop_first());
        let h = if s[0] == DQUOTE || s[0] == BSLASH {
            seq![BSLASH, s[0]]
        } else {
            seq![s[0]]
        };
        assert(forall|i: int| 0 <= i < h.len() ==> h[i] != CR && h[i] != LF);
        assert(forall|i: int|
            0 <= i < esc(s).len() ==> esc(s)[i] != CR && esc(s)[i] != LF) by {
            assert(esc(s) == h + esc(s.drop_first()));
        }
    }
}

/// Where no CR occurs before `j` and a CRLF begins at `j` (or `j` is the
/// end), the line scan lands on `j`.
pub proof fn lemma_first_crlf_is(s: Seq<u8>, from: int, j: int)
    requires
        0 <= from <= j <= s.len(),
        forall|p: int| from <= p < j ==> s[p] != CR,
        j == s.len() || crate::headers::crlf_at(s, j),
    ensures
        crate::headers::first_crlf(s, from) == j,
    decreases j - from,
{
    if from < j {
        lemma_first_crlf_is(s, from + 1, j);
    }
}

/// Where no blank line begins before `j` and one begins at `j` (or `j` is
/// the end), the blank-line scan lands on `j`.
pub proof fn lemma_first_blank_is(s: Seq<u8>, from: int, j: int)
    requires
        0 <= from <= j <= s.len(),
        forall|p: int| from <= p < j ==> !crate::headers::crlfcrlf_at(s, p),
        j == s.len() || crate::headers::crlfcrlf_at(s, j),
    ensures
        crate::headers::first_blank(s, from) == j,
    decreases j - from,
{
    if from < j {
        lemma_first_blank_is(s, from + 1, j);
    }
}

/// Where no header line named `name` begins before `j` and one begins at
/// `j` (or `j` is the end), the header scan lands on `j`.
pub proof fn lemma_first_header_is(hr: Seq<u8>, name: Seq<u8>, from: int, j: int)
    requires
        0 <= from <= j <= hr.len(),
        forall|p: int| from <= p < j ==> !crate::headers::header_at(hr, name, p),
        j == hr.len() || crate::headers::header_at(hr, name, j),
    ensures
        crate::headers::first_header(hr, name, from) == j,
    decreases j - from,
{
    if from < j {
        lemma_first_header_is(hr, name, from + 1, j);
    }
}

/// The `Content-Disposition` header line the serializer writes for an entry.
pub open spec fn cd_line(m: EntryModel) -> Seq<u8> {
    cd_prefix() + esc(m.name) + (match m.file_name {
        Some(f) => fn_prefix() + esc(f),
        None => Seq::empty(),
    }) + seq![DQUOTE]
}

/// The header block the serializer writes for an entry: its
/// `Content-Disposition` line, and its `Content-Type` line when it has a
/// media type.
pub open spec fn hdr_block(m: EntryModel) -> Seq<u8> {
    cd_line(m) + (match m.content_type {
        Some(c) => crlf() + ct_prefix() + c,
        None => Seq::empty(),
    })
}

/// The raw part segment the serializer writes for an entry: the header
/// block, a blank line, and the body.
pub open spec fn part_payload(m: EntryModel) -> Seq<u8> {
    hdr_block(m) + crlf() + crlf() + m.body
}

/// The fixed texts of the header lines hold no CR or LF, and the header
/// names in them lowercase to the names the parser looks for.
proof fn lemma_header_text_facts()
    ensures
        forall|k: int| 0 <= k < 38 ==> cd_prefix()[k] != CR && cd_prefix()[k] != LF,
        forall|k: int| 0 <= k < 13 ==> fn_prefix()[k] != CR && fn_prefix()[k] != LF,
        forall|k: int| 0 <= k < 14 ==> ct_prefix()[k] != CR && ct_prefix()[k] != LF,
        forall|k: int|
            0 <= k < 19 ==> crate::headers::lower(cd_prefix()[k])
                == crate::headers::cd_name()[k],
        cd_prefix()[19] == crate::wire::COLON,
        forall|k: int|
            0 <= k < 12 ==> crate::headers::lower(ct_prefix()[k])
                == crate::headers::ct_name()[k],
        ct_prefix()[12] == crate::wire::COLON,
        ct_prefix()[13] == crate::wire::SP,
        crate::headers::lower(cd_prefix()[8]) != crate::headers::ct_name()[8],
        cd_prefix().len() == 38,
        fn_prefix().len() == 13,
        ct_prefix().len() == 14,
        crate::headers::cd_name().len() == 19,
        crate::headers::ct_name().len() == 12,
{
    lemma_literal_bytes();
}

/// The CR bytes of a serializer-written header block are exactly the one
/// before its `Content-Type` line, so its first blank line is at its end.
proof fn lemma_payload_split(m: EntryModel)
    requires
        crate::entry::entry_model_wf(m),
    ensures
        ({
            let pp = part_payload(m);
            let hb = hdr_block(m);
            &&& pp.len() == hb.len() + 4 + m.body.len()
            &&& hb.len() >= 39
            &&& crate::headers::first_blank(pp, 0) == hb.len()
            &&& crate::headers::crlfcrlf_at(pp, hb.len() as int)
            &&& pp.subrange(0, hb.len() as int) == hb
            &&& pp.subrange(hb.len() as int + 4, pp.len() as int) == m.body
        }),
{
    lemma_header_text_facts();
    lemma_esc_text_wf(m.name);
    let pp = part_payload(m);
    let hb = hdr_block(m);
    let cdl = cd_line(m);
    assert(crate::wire::text_wf(cdl)) by {
        if m.file_name is Some {
            lemma_esc_text_wf(m.file_name->0);
        }
    }
    let hbl = hb.len() as int;
    assert(forall|k: int| 0 <= k < hb.len() ==> pp[k] == hb[k]);
    assert(pp[hbl] == CR && pp[hbl + 1] == LF && pp[hbl + 2] == CR && pp[hbl + 3] == LF);
    assert(crate::headers::crlfcrlf_at(pp, hbl));
    match m.content_type {
        None => {
            assert(hb == cdl);
            assert forall|p: int| 0 <= p < hb.len() implies !crate::headers::crlfcrlf_at(
                pp,
                p,
            ) by {
                assert(pp[p] == cdl[p]);
                assert(cdl[p] != CR);
            }
        },
        Some(c) => {
            let n1 = cdl.len() as int;
            assert(forall|k: int| 0 <= k < n1 ==> hb[k] == cdl[k]);
            assert(hb[n1] == CR && hb[n1 + 1] == LF);
            assert(forall|k: int| 0 <= k < 14 ==> hb[n1 + 2 + k] == ct_prefix()[k]);
            assert(forall|k: int| 0 <= k < c.len() ==> hb[n1 + 16 + k] == c[k]);
            assert forall|p: int| 0 <= p < hb.len() implies !crate::headers::crlfcrlf_at(
                pp,
                p,
            ) by {
                if p < n1 {
                    assert(pp[p] == cdl[p]);
                    assert(cdl[p] != CR);
                } else if p == n1 {
                    assert(pp[p + 2] == ct_prefix()[0]);
                    assert(ct_prefix()[0] != CR);
                } else if p == n1 + 1 {
                    assert(pp[p] == LF);
                } else if p < n1 + 16 {
                    assert(pp[p] == ct_prefix()[p - n1 - 2]);
                } else {
                    assert(pp[p] == c[p - n1 - 16]);
                    assert(c[p - n1 - 16] != CR);
                }
            }
        },
    }
    lemma_first_blank_is(pp, 0, hbl);
    assert(pp.subrange(0, hbl) =~= hb);
    assert(pp.subrange(hbl + 4, pp.len() as int) =~= m.body);
}

/// The serializer-written header block's `Content-Disposition` line is
/// found at its start, and its value is exactly [`cd_value`].
#[verifier::rlimit(100)]
proof fn lemma_hdr_cd(m: EntryModel)
    requires
        crate::entry::entry_model_wf(m),
    ensures
        crate::headers::header_value(hdr_block(m), crate::headers::cd_name()) == Some(
            cd_value(m),
        ),
{
    lemma_header_text_facts();
    lemma_esc_text_wf(m.name);
    let hb = hdr_block(m);
    let cdl = cd_line(m);
    assert(crate::wire::text_wf(cdl)) by {
        if m.file_name is Some {
            lemma_esc_text_wf(m.file_name->0);
        }
    }
    assert(forall|k: int| 0 <= k < cdl.len() ==> hb[k] == cdl[k]);
    assert(forall|k: int| 0 <= k < 38 ==> cdl[k] == cd_prefix()[k]);
    assert(crate::headers::header_at(hb, crate::headers::cd_name(), 0)) by {
        assert(forall|k: int|
            0 <= k < 19 ==> crate::headers::lower(hb[k]) == crate::headers::cd_name()[k]);
        assert(hb[19] == crate::wire::COLON);
    }
    assert(crate::headers::first_header(hb, crate::headers::cd_name(), 0) == 0);
    match m.content_type {
        None => {
            lemma_first_crlf_is(hb, 20, hb.len() as int);
            assert(hb.subrange(20, hb.len() as int) =~= cd_value(m));
        },
        Some(c) => {
            let n1 = cdl.len() as int;
            assert(hb[n1] == CR && hb[n1 + 1] == LF);
            assert(crate::headers::crlf_at(hb, n1));
            lemma_first_crlf_is(hb, 20, n1);
            assert(hb.subrange(20, n1) =~= cd_value(m));
        },
    }
}

/// The serializer-written header block yields no `Content-Type` value when
/// the entry has no media type, and a single space followed by the media
/// type when it has one.
#[verifier::rlimit(100)]
proof fn lemma_hdr_ct(m: EntryModel)
    requires
        crate::entry::entry_model_wf(m),
    ensures
        crate::headers::header_value(hdr_block(m), crate::headers::ct_name()) == (
        match m.content_type {
            Some(c) => Some(seq![crate::wire::SP] + c),
            None => None::<Seq<u8>>,
        }),
{
    lemma_header_text_facts();
    lemma_esc_text_wf(m.name);
    let hb = hdr_block(m);
    let cdl = cd_line(m);
    let ctn = crate::headers::ct_name();
    assert(crate::wire::text_wf(cdl)) by {
        if m.file_name is Some {
            lemma_esc_text_wf(m.file_name->0);
        }
    }
    assert(forall|k: int| 0 <= k < cdl.len() ==> hb[k] == cdl[k]);
    assert(forall|k: int| 0 <= k < 38 ==> cdl[k] == cd_prefix()[k]);
    match m.content_type {
        None => {
            assert(hb == cdl);
            assert forall|p: int| 0 <= p < hb.len() implies !crate::headers::header_at(
                hb,
                ctn,
                p,
            ) by {
                if p == 0 {
                    assert(crate::headers::lower(hb[8]) != ctn[8]);
                } else if p >= 2 {
                    assert(hb[p - 2] != CR);
                }
            }
            lemma_first_header_is(hb, ctn, 0, hb.len() as int);
        },
        Some(c) => {
            let n1 = cdl.len() as int;
            let j = n1 + 2;
            assert(hb[n1] == CR && hb[n1 + 1] == LF);
            assert(forall|k: int| 0 <= k < 14 ==> hb[j + k] == ct_prefix()[k]);
            assert(forall|k: int| 0 <= k < c.len() ==> hb[j + 14 + k] == c[k]);
            assert(crate::headers::header_at(hb, ctn, j)) by {
                assert(forall|k: int|
                    0 <= k < 12 ==> crate::headers::lower(hb[j + k]) == ctn[k]);
                assert(hb[j + 12] == crate::wire::COLON);
            }
            assert forall|p: int| 0 <= p < j implies !crate::headers::header_at(hb, ctn, p) by {
                if p == 0 {
                    assert(crate::headers::lower(hb[8]) != ctn[8]);
                } else if p >= 2 {
                    assert(p - 2 < n1);
                    assert(hb[p - 2] == cdl[p - 2]);
                    assert(cdl[p - 2] != CR);
                }
            }
            lemma_first_header_is(hb, ctn, 0, j);
            lemma_first_crlf_is(hb, j + 13, hb.len() as int);
            assert(hb.subrange(j + 13, hb.len() as int) =~= seq![crate::wire::SP] + c);
        },
    }
}

/// Per-part round trip: the raw part segment the serializer writes for a
/// well-formed entry parses back to exactly that entry — same name, same
/// file name, same media type, same body.
pub proof fn lemma_parse_encoded_part(m: EntryModel)
    requires
        crate::entry::entry_model_wf(m),
        vstd::utf8::valid_utf8(m.name),
        m.file_name matches Some(f) ==> vstd::utf8::valid_utf8(f),
        m.content_type matches Some(c) ==> vstd::utf8::valid_utf8(c),
    ensures
        spec_parse_part(part_payload(m)) == Ok::<EntryModel, ParseError>(m),
{
    let pp = part_payload(m);
    let hb = hdr_block(m);
    let cdv = cd_value(m);
    lemma_payload_split(m);
    lemma_hdr_cd(m);
    lemma_hdr_ct(m);
    lemma_cd_value_layout(m);
    assert(crate::headers::semi_end(cdv, 0) == 10);
    lemma_cd_value_name(m);
    lemma_cd_value_filename(m);
    match m.content_type {
        None => {
            assert(spec_parse_part(pp) == crate::part::build_part(
                crate::headers::ParamView::Found(m.name),
                match m.file_name {
                    Some(f) => crate::headers::ParamView::Found(f),
                    None => crate::headers::ParamView::Absent,
                },
                None::<Seq<u8>>,
                m.body,
            ));
            assert(spec_parse_part(pp) matches Ok(r) && r =~= m);
        },
        Some(c) => {
            let raw = seq![crate::wire::SP] + c;
            lemma_skip_ws_is(raw, 0, 1);
            lemma_skip_ws_back_is(raw, raw.len() as int, raw.len() as int);
            assert(crate::headers::trim(raw) =~= c);
            assert(spec_parse_part(pp) == crate::part::build_part(
                crate::headers::ParamView::Found(m.name),
                match m.file_name {
                    Some(f) => crate::headers::ParamView::Found(f),
                    None => crate::headers::ParamView::Absent,
                },
                Some(raw),
                m.body,
            ));
            assert(spec_parse_part(pp) matches Ok(r) && r =~= m);
        },
    }
}

/// A body is boundary-safe for a token when no boundary line begins
/// anywhere in it, with its closing CRLF counted as following it: such a
/// body can never cut its part short.
pub open spec fn body_safe(body: Seq<u8>, bnd: Seq<u8>) -> bool {
    forall|p: int| !crate::scanner::marker_at(body + crlf(), bnd, p)
}

/// No boundary line begins inside the part segment the serializer writes
/// for a well-formed entry with a boundary-safe body, nor inside the CRLF
/// that closes it.
#[verifier::rlimit(100)]
proof fn lemma_no_marker_in_payload(buf: Seq<u8>, bnd: Seq<u8>, pos: int, m: EntryModel)
    requires
        crate::entry::entry_model_wf(m),
        boundary_ok(bnd),
        0 <= pos,
        pos + part_payload(m).len() + 2 <= buf.len(),
        buf.subrange(pos, pos + part_payload(m).len() as int) == part_payload(m),
        buf[pos + part_payload(m).len()] == CR,
        buf[pos + part_payload(m).len() + 1] == LF,
        body_safe(m.body, bnd),
    ensures
        crate::scanner::no_marker_in(buf, bnd, pos, pos + part_payload(m).len() + 2),
{
    lemma_header_text_facts();
    lemma_literal_bytes();
    lemma_esc_text_wf(m.name);
    let pp = part_payload(m);
    let hb = hdr_block(m);
    let cdl = cd_line(m);
    let pl = pp.len() as int;
    let hbl = hb.len() as int;
    let n1 = cdl.len() as int;
    let bs = pos + hbl + 4;
    let be = pos + pl;
    let bl = bnd.len() as int;
    let xb = m.body + crlf();
    assert(crate::wire::text_wf(cdl)) by {
        if m.file_name is Some {
            lemma_esc_text_wf(m.file_name->0);
        }
    }
    assert(forall|q: int| 0 <= q < pl ==> buf[pos + q] == pp[q]);
    // where the CRs of the header region are, and that line starts hold 'C' or CR
    assert(forall|q: int| 0 <= q < hbl ==> pp[q] == hb[q]);
    assert(forall|q: int| 0 <= q < n1 ==> hb[q] == cdl[q]);
    assert(forall|k: int| 0 <= k < 38 ==> cdl[k] == cd_prefix()[k]);
    assert(forall|q: int| 0 <= q < n1 ==> pp[q] == cdl[q]);
    assert(pp[0] == 67);
    assert(pp[hbl] == CR && pp[hbl + 1] == LF && pp[hbl + 2] == CR && pp[hbl + 3] == LF);
    match m.content_type {
        Some(c) => {
            assert(forall|k: int| 0 <= k < 14 ==> hb[n1 + 2 + k] == ct_prefix()[k]);
            assert(forall|k: int| 0 <= k < 14 ==> pp[n1 + 2 + k] == ct_prefix()[k]);
            assert(forall|k: int| 0 <= k < c.len() ==> pp[n1 + 16 + k] == c[k]);
            assert(pp[n1] == CR && pp[n1 + 1] == LF);
            assert(pp[n1 + 2] == 67);
            assert(forall|q: int| 0 <= q < hbl && pp[q] == CR ==> q == n1 || q == hbl);
        },
        None => {
            assert(forall|q: int| 0 <= q < hbl ==> pp[q] != CR);
        },
    }
    assert(forall|q: int| 0 <= q < m.body.len() ==> pp[hbl + 4 + q] == m.body[q]);
    assert(forall|q: int| 0 <= q < xb.len() ==> buf[bs + q] == xb[q]) by {
        assert(forall|q: int| 0 <= q < m.body.len() ==> xb[q] == m.body[q]);
        assert(xb[m.body.len() as int] == CR && xb[m.body.len() + 1 as int] == LF);
    }
    assert forall|j: int| pos <= j < pos + pl + 2 implies !crate::scanner::marker_at(
        buf,
        bnd,
        j,
    ) by {
        if crate::scanner::marker_at(buf, bnd, j) {
            let r = j - pos;
            assert(crate::scanner::delim_at(buf, bnd, j));
            assert(buf[j] == DASH && buf[j + 1] == DASH);
            assert(crate::scanner::anchored(buf, j));
            if r < hbl + 4 {
                // inside the header block and blank line: every line start
                // begins with `C` or CR, never a dash
                if r == 0 {
                    assert(buf[j] == 67);
                } else if r == 1 {
                    assert(buf[j - 1] == pp[0]);
                    assert(buf[j - 1] != LF);
                } else {
                    assert(buf[j - 2] == pp[r - 2]);
                    assert(pp[r - 2] == CR);
                    if m.content_type is Some && r - 2 == n1 {
                        assert(buf[j] == pp[n1 + 2]);
                    } else {
                        assert(r - 2 == hbl);
                        assert(buf[j] == pp[hbl + 2]);
                    }
                }
            } else if r == pl {
                assert(buf[j] == CR);
            } else if r == pl + 1 {
                assert(buf[j - 1] == buf[be]);
                assert(buf[j - 1] != LF);
            } else {
                // inside the body: the same boundary line would begin inside
                // `body + CRLF`, which boundary-safety rules out
                let p = r - (hbl + 4);
                assert(0 <= p < m.body.len());
                // the delimiter cannot reach past the closing CRLF: none of
                // its bytes may be a CR
                assert(j + 2 + bl <= be) by {
                    if j + 2 + bl > be {
                        let k0 = be - j;
                        assert(0 < k0 < 2 + bl);
                        if k0 < 2 {
                            assert(buf[be] == DASH);
                        } else {
                            assert(buf[be] == bnd[k0 - 2]);
                        }
                        assert(buf[be] == CR);
                        assert(false);
                    }
                }
                assert(crate::scanner::anchored(xb, p)) by {
                    if p == 0 {
                    } else if p == 1 {
                        assert(buf[j - 1] == pp[hbl + 3]);
                        assert(buf[j - 1] == LF);
                        assert(buf[j - 2] == pp[hbl + 2]);
                        assert(false);
                    } else {
                        assert(xb[p - 2] == buf[j - 2]);
                        assert(xb[p - 1] == buf[j - 1]);
                    }
                }
                assert(crate::scanner::delim_at(xb, bnd, p)) by {
                    assert(p + 2 + bl <= xb.len());
                    assert(xb[p] == buf[j] && xb[p + 1] == buf[j + 1]);
                    assert(forall|k: int|
                        0 <= k < bl ==> #[trigger] xb[p + 2 + k] == buf[j + 2 + k]);
                }
                let e = j + 2 + bl;
                if crate::scanner::close_marker_at(buf, bnd, j) {
                    assert(buf[e] == DASH && buf[e + 1] == DASH);
                    assert(e + 2 <= be) by {
                        assert(buf[be] == CR);
                        if e == be {
                            assert(false);
                        }
                        if e + 1 == be {
                            assert(false);
                        }
                    }
                    assert(crate::scanner::line_end_at(buf, e + 2));
                    assert(e + 2 < buf.len());
                    assert(buf[e + 2] == CR && buf[e + 3] == LF);
                    assert(crate::scanner::line_end_at(xb, p + 2 + bl + 2)) by {
                        assert(xb[e + 2 - bs] == buf[e + 2] && xb[e + 3 - bs] == buf[e + 3]);
                    }
                    assert(crate::scanner::close_marker_at(xb, bnd, p)) by {
                        assert(xb[e - bs] == DASH && xb[e + 1 - bs] == DASH);
                    }
                    assert(crate::scanner::marker_at(xb, bnd, p));
                    assert(false);
                } else {
                    assert(crate::scanner::open_marker_at(buf, bnd, j));
                    assert(crate::scanner::line_end_at(buf, e));
                    assert(e < buf.len());
                    assert(buf[e] == CR && buf[e + 1] == LF);
                    assert(crate::scanner::line_end_at(xb, p + 2 + bl)) by {
                        assert(xb[e - bs] == buf[e] && xb[e + 1 - bs] == buf[e + 1]);
                    }
                    assert(crate::scanner::open_marker_at(xb, bnd, p));
                    assert(crate::scanner::marker_at(xb, bnd, p));
                    assert(false);
                }
            }
        }
    }
}

/// An entry the serializer can write and the parser must give back: well
/// formed, its text fields valid UTF-8, and its body boundary-safe.
pub open spec fn entry_encodable(m: EntryModel, bnd: Seq<u8>) -> bool {
    &&& crate::entry::entry_model_wf(m)
    &&& vstd::utf8::valid_utf8(m.name)
    &&& (m.file_name matches Some(f) ==> vstd::utf8::valid_utf8(f))
    &&& (m.content_type matches Some(c) ==> vstd::utf8::valid_utf8(c))
    &&& body_safe(m.body, bnd)
}

/// What the serializer writes after a non-terminal boundary line's CRLF
/// when the parts of `ms` remain: each part's segment, its closing CRLF,
/// and the next boundary line — terminal after the last part.
pub open spec fn enc_tail(ms: Seq<EntryModel>, bnd: Seq<u8>) -> Seq<u8>
    decreases ms.len(),
{
    if ms.len() == 0 {
        Seq::empty()
    } else {
        part_payload(ms[0]) + crlf() + (if ms.len() == 1 {
            seq![DASH, DASH] + bnd + seq![DASH, DASH] + crlf()
        } else {
            seq![DASH, DASH] + bnd + crlf() + enc_tail(ms.drop_first(), bnd)
        })
    }
}

/// The serialized body is the first boundary line, its CRLF, and the tail.
proof fn lemma_encode_tail(ms: Seq<EntryModel>, bnd: Seq<u8>)
    requires
        ms.len() >= 1,
    ensures
        encode_multipart(ms, bnd) == seq![DASH, DASH] + bnd + crlf() + enc_tail(ms, bnd),
    decreases ms.len(),
{
    let m = ms[0];
    assert(enc_entry(m, bnd) =~= seq![DASH, DASH] + bnd + crlf() + part_payload(m) + crlf());
    if ms.len() == 1 {
        assert(enc_entries(Seq::<EntryModel>::empty(), bnd) =~= Seq::<u8>::empty());
        assert(ms.drop_first() =~= Seq::<EntryModel>::empty());
        assert(enc_entries(ms, bnd) =~= enc_entry(m, bnd));
        assert(encode_multipart(ms, bnd) =~= seq![DASH, DASH] + bnd + crlf() + enc_tail(
            ms,
            bnd,
        ));
    } else {
        lemma_encode_tail(ms.drop_first(), bnd);
        assert(enc_entries(ms, bnd) == enc_entry(m, bnd) + enc_entries(ms.drop_first(), bnd));
        assert(encode_multipart(ms, bnd) =~= enc_entry(m, bnd) + encode_multipart(
            ms.drop_first(),
            bnd,
        ));
        assert((ms.drop_first())[0] == ms[1]);
        assert(encode_multipart(ms, bnd) =~= seq![DASH, DASH] + bnd + crlf() + enc_tail(
            ms,
            bnd,
        ));
    }
}

/// From a position just after a non-terminal boundary line whose remaining
/// bytes are the tail for `ms`, the cursor produces exactly the entries of
/// `ms`, in order.
#[verifier::rlimit(100)]
proof fn lemma_run_encoded_tail(buf: Seq<u8>, bnd: Seq<u8>, pos: int, ms: Seq<EntryModel>)
    requires
        boundary_ok(bnd),
        ms.len() >= 1,
        forall|k: int| 0 <= k < ms.len() ==> #[trigger] entry_encodable(ms[k], bnd),
        0 <= pos <= buf.len(),
        buf.subrange(pos, buf.len() as int) == enc_tail(ms, bnd),
    ensures
        run_from(CursorModel { buf, bnd, pos, state: CursorState::InProgress })
            == ms.map_values(|em: EntryModel| Ok::<EntryModel, ParseError>(em)),
    decreases ms.len(),
{
    let m = ms[0];
    assert(entry_encodable(m, bnd));
    let tl = enc_tail(ms, bnd);
    let pp = part_payload(m);
    let pl = pp.len() as int;
    let bl = bnd.len() as int;
    let jc = pos + pl + 2;
    let pre = buf.subrange(0, pos);
    assert forall|i: int| 0 <= i < buf.len() implies buf[i] == (pre + tl)[i] by {
        if i >= pos {
            assert(buf.subrange(pos, buf.len() as int)[i - pos] == tl[i - pos]);
        }
    }
    assert(buf =~= pre + tl);
    assert(buf.subrange(pos, pos + pl) =~= pp);
    assert(buf[pos + pl] == CR && buf[pos + pl + 1] == LF);
    lemma_no_marker_in_payload(buf, bnd, pos, m);
    lemma_parse_encoded_part(m);
    let mc = CursorModel { buf, bnd, pos, state: CursorState::InProgress };
    let run = run_from(mc);
    if ms.len() == 1 {
        assert(close_marker_at(buf, bnd, jc)) by {
            assert(buf[jc - 2] == CR && buf[jc - 1] == LF);
            assert(buf[jc] == DASH && buf[jc + 1] == DASH);
            assert(forall|k: int| 0 <= k < bl ==> buf[jc + 2 + k] == bnd[k]);
            assert(buf[jc + 2 + bl] == DASH && buf[jc + 3 + bl] == DASH);
            assert(buf[jc + 4 + bl] == CR && buf[jc + 5 + bl] == LF);
            assert(jc + 6 + bl == buf.len());
        }
        lemma_first_marker_found(buf, bnd, pos, jc);
        assert(buf.subrange(pos, jc - 2) == pp);
        assert(spec_pull(mc).1 == Some(Ok::<EntryModel, ParseError>(m)));
        assert(spec_pull(mc).0.state == CursorState::Done);
        assert(run =~= ms.map_values(|em: EntryModel| Ok::<EntryModel, ParseError>(em)));
    } else {
        let np = jc + 4 + bl;
        assert(open_marker_at(buf, bnd, jc)) by {
            assert(buf[jc - 2] == CR && buf[jc - 1] == LF);
            assert(buf[jc] == DASH && buf[jc + 1] == DASH);
            assert(forall|k: int| 0 <= k < bl ==> buf[jc + 2 + k] == bnd[k]);
            assert(buf[jc + 2 + bl] == CR && buf[jc + 3 + bl] == LF);
        }
        assert(!close_marker_at(buf, bnd, jc)) by {
            assert(buf[jc + 2 + bl] == CR);
        }
        lemma_first_marker_found(buf, bnd, pos, jc);
        assert(buf.subrange(pos, jc - 2) == pp);
        assert(jc + 2 + bl != buf.len()) by {
            assert(enc_tail(ms.drop_first(), bnd).len() > 0);
        }
        let m2 = CursorModel { pos: np, ..mc };
        assert(spec_pull(mc).1 == Some(Ok::<EntryModel, ParseError>(m)));
        assert(spec_pull(mc).0 == m2);
        assert(buf.subrange(np, buf.len() as int) =~= enc_tail(ms.drop_first(), bnd));
        assert(forall|k: int|
            0 <= k < ms.drop_first().len() ==> #[trigger] entry_encodable(
                ms.drop_first()[k],
                bnd,
            ));
        lemma_run_encoded_tail(buf, bnd, np, ms.drop_first());
        assert(run =~= seq![Ok::<EntryModel, ParseError>(m)] + run_from(m2));
        assert(run =~= ms.map_values(|em: EntryModel| Ok::<EntryModel, ParseError>(em)));
    }
}

/// Round trip: serializing any entries the serializer can write — whatever
/// their names, file names, media types, and boundary-safe bodies — and
/// parsing the result back with the same boundary yields exactly those
/// entries, in the same order, each with identical name, file name, media
/// type, and body.
pub proof fn lemma_round_trip(ms: Seq<EntryModel>, bnd: Seq<u8>)
    requires
        boundary_ok(bnd),
        forall|k: int| 0 <= k < ms.len() ==> #[trigger] entry_encodable(ms[k], bnd),
    ensures
        spec_items(encode_multipart(ms, bnd), bnd) == ms.map_values(
            |em: EntryModel| Ok::<EntryModel, ParseError>(em),
        ),
{
    let buf = encode_multipart(ms, bnd);
    let bl = bnd.len() as int;
    if ms.len() == 0 {
        lemma_round_trip_empty(bnd);
        assert(ms.map_values(|em: EntryModel| Ok::<EntryModel, ParseError>(em)) =~= Seq::<
            Result<EntryModel, ParseError>,
        >::empty());
    } else {
        lemma_encode_tail(ms, bnd);
        let tl = enc_tail(ms, bnd);
        assert(buf.len() == 4 + bl + tl.len());
        assert(open_marker_at(buf, bnd, 0)) by {
            assert(buf[0] == DASH && buf[1] == DASH);
            assert(forall|k: int| 0 <= k < bl ==> buf[2 + k] == bnd[k]);
            assert(buf[2 + bl] == CR && buf[3 + bl] == LF);
        }
        assert(!close_marker_at(buf, bnd, 0)) by {
            assert(buf[2 + bl] == CR);
        }
        lemma_first_marker_found(buf, bnd, 0, 0);
        assert(tl.len() > 0);
        let m0 = CursorModel { buf, bnd, pos: 0, state: CursorState::Ready };
        let m1 = CursorModel { pos: 4 + bl, state: CursorState::InProgress, ..m0 };
        assert(spec_pull(m0) == crate::cursor::spec_step_in(m1));
        assert(run_from(m0) =~= run_from(m1));
        assert(buf.subrange(4 + bl, buf.len() as int) =~= tl);
        lemma_run_encoded_tail(buf, bnd, 4 + bl, ms);
    }
}

/// Parameter round trip for the name: in the `Content-Disposition` value
/// the serializer writes, the parameter scan finds exactly the entry's
/// name — whatever bytes it holds.
pub proof fn lemma_cd_value_name(m: EntryModel)
    ensures
        crate::headers::find_param(cd_value(m), 11, crate::headers::name_key())
            == crate::headers::ParamView::Found(m.name),
{
    lemma_cd_value_layout(m);
}

/// Parameter round trip for the file name: in the `Content-Disposition`
/// value the serializer writes, the parameter scan finds exactly the
/// entry's file name when it has one, and nothing when it has none.
pub proof fn lemma_cd_value_filename(m: EntryModel)
    ensures
        crate::headers::find_param(cd_value(m), 11, crate::headers::filename_key()) == (
        match m.file_name {
            Some(f) => crate::headers::ParamView::Found(f),
            None => crate::headers::ParamView::Absent,
        }),
{
    lemma_cd_value_layout(m);
    let v = cd_value(m);
    let el = esc(m.name).len() as int;
    if m.file_name is Some {
        assert(crate::headers::find_param(v, 20 + el, crate::headers::filename_key())
            == crate::headers::ParamView::Found(m.file_name->0));
    }
}

} // verus!
