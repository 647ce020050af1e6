//! Building one [`Entry`] out of a raw part segment: the header block up to
//! the first blank line, then the body bytes.

use crate::entry::Entry;
use crate::entry::EntryModel;
use crate::error::ParseError;
use crate::headers::cd_name;
use crate::headers::crlfcrlf_at;
use crate::headers::ct_name;
use crate::headers::filename_key;
use crate::headers::find_blank;
use crate::headers::find_crlf;
use crate::headers::find_header_from;
use crate::headers::find_param;
use crate::headers::find_param_x;
use crate::headers::find_semi;
use crate::headers::first_blank;
use crate::headers::header_value;
use crate::headers::lemma_first_blank_props;
use crate::headers::lemma_first_header_props;
use crate::headers::name_key;
use crate::headers::semi_end;
use crate::headers::trim;
use crate::headers::ws_end;
use crate::headers::ws_start_back;
use crate::headers::ParamRes;
use crate::headers::ParamView;
use crate::mime::Mime;
use crate::text::bytes_to_string;
use crate::wire::copy_range;
use crate::wire::mime_wf;
use vstd::prelude::*;

verus! {

use vstd::string::StrSliceExecFns;
use vstd::utf8::valid_utf8;

/// Combine the outcomes of the parameter scans and the raw `Content-Type`
/// value into an entry: malformed quoting poisons the part, a missing or
/// empty `name` is its own failure, and every text value must be valid
/// UTF-8 (the media type also of media-type shape).
pub open spec fn build_part(
    namep: ParamView,
    filep: ParamView,
    ct_raw: Option<Seq<u8>>,
    body: Seq<u8>,
) -> Result<EntryModel, ParseError> {
    match namep {
        ParamView::Malformed => Err(ParseError::HeaderParseError),
        ParamView::Absent => if filep is Malformed {
            Err(ParseError::HeaderParseError)
        } else {
            Err(ParseError::MissingNameParam)
        },
        ParamView::Found(nb) => if filep is Malformed {
            Err(ParseError::HeaderParseError)
        } else if nb.len() == 0 {
            Err(ParseError::MissingNameParam)
        } else if !valid_utf8(nb) {
            Err(ParseError::HeaderParseError)
        } else {
            let fb = match filep {
                ParamView::Found(f) => Some(f),
                _ => None,
            };
            if fb matches Some(f) && !valid_utf8(f) {
                Err(ParseError::HeaderParseError)
            } else {
                match ct_raw {
                    Some(c0) => {
                        let c = trim(c0);
                        if valid_utf8(c) && mime_wf(c) {
                            Ok(EntryModel { name: nb, file_name: fb, content_type: Some(c), body })
                        } else {
                            Err(ParseError::HeaderParseError)
                        }
                    },
                    None => Ok(EntryModel { name: nb, file_name: fb, content_type: None, body }),
                }
            }
        },
    }
}

/// Parse one raw part segment: the header block runs to the first blank
/// line, the body is everything after it.
pub open spec fn spec_parse_part(s: Seq<u8>) -> Result<EntryModel, ParseError> {
    let h = first_blank(s, 0);
    if !crlfcrlf_at(s, h) {
        Err(ParseError::HeaderParseError)
    } else {
        let hr = s.subrange(0, h);
        let body = s.subrange(h + 4, s.len() as int);
        match header_value(hr, cd_name()) {
            None => Err(ParseError::MissingContentDisposition),
            Some(cdv) => {
                let ps = semi_end(cdv, 0);
                build_part(
                    find_param(cdv, ps + 1, name_key()),
                    find_param(cdv, ps + 1, filename_key()),
                    header_value(hr, ct_name()),
                    body,
                )
            },
        }
    }
}

/// Parse one raw part segment into an [`Entry`].
pub fn parse_part(seg: &Vec<u8>) -> (r: Result<Entry, ParseError>)
    ensures
        match r {
            Ok(e) => spec_parse_part(seg@) matches Ok(m) && e@ == m,
            Err(er) => spec_parse_part(seg@) == Err::<EntryModel, ParseError>(er),
        },
{
    proof {
        lemma_first_blank_props(seg@, 0);
    }
    let h = find_blank(seg, 0);
    if h == seg.len() {
        return Err(ParseError::HeaderParseError);
    }
    let hr = copy_range(seg, 0, h);
    let body = copy_range(seg, h + 4, seg.len());
    let cdn = "content-disposition".as_bytes_vec();
    proof {
        lemma_first_header_props(hr@, cd_name(), 0);
    }
    let p = find_header_from(&hr, &cdn, 0);
    if p == hr.len() {
        return Err(ParseError::MissingContentDisposition);
    }
    let c = p + cdn.len();
    let ve = find_crlf(&hr, c + 1);
    let cdv = copy_range(&hr, c + 1, ve);
    let ps = find_semi(&cdv, 0);
    let pstart = if ps >= cdv.len() {
        cdv.len()
    } else {
        ps + 1
    };
    let nk = "name".as_bytes_vec();
    let fk = "filename".as_bytes_vec();
    let namep = find_param_x(&cdv, pstart, &nk);
    let filep = find_param_x(&cdv, pstart, &fk);
    let ctn = "content-type".as_bytes_vec();
    proof {
        lemma_first_header_props(hr@, ct_name(), 0);
    }
    let q = find_header_from(&hr, &ctn, 0);
    let ct_raw: Option<Vec<u8>> = if q == hr.len() {
        None
    } else {
        let cq = q + ctn.len();
        let cve = find_crlf(&hr, cq + 1);
        Some(copy_range(&hr, cq + 1, cve))
    };
    match namep {
        ParamRes::Malformed => Err(ParseError::HeaderParseError),
        ParamRes::Absent => {
            if let ParamRes::Malformed = filep {
                Err(ParseError::HeaderParseError)
            } else {
                Err(ParseError::MissingNameParam)
            }
        },
        ParamRes::Found(nb) => {
            if let ParamRes::Malformed = filep {
                return Err(ParseError::HeaderParseError);
            }
            if nb.len() == 0 {
                return Err(ParseError::MissingNameParam);
            }
            let name_s = match bytes_to_string(nb.as_slice()) {
                None => {
                    return Err(ParseError::HeaderParseError);
                },
                Some(s) => s,
            };
            let file_s: Option<String> = match filep {
                ParamRes::Found(f) => match bytes_to_string(f.as_slice()) {
                    None => {
                        return Err(ParseError::HeaderParseError);
                    },
                    Some(s) => Some(s),
                },
                _ => None,
            };
            let ct_m: Option<Mime> = match ct_raw {
                Some(raw) => {
                    let t0 = ws_end(&raw, 0);
                    let t1 = ws_start_back(&raw, raw.len());
                    let t1c = if t1 < t0 {
                        t0
                    } else {
                        t1
                    };
                    let ctb = copy_range(&raw, t0, t1c);
                    match Mime::from_bytes(ctb.as_slice()) {
                        Err(e) => {
                            return Err(e);
                        },
                        Ok(m) => Some(m),
                    }
                },
                None => None,
            };
            let mut e = Entry::new(name_s, body);
            e.set_file_name(file_s);
            e.set_content_type(ct_m);
            proof {
                assert(spec_parse_part(seg@) matches Ok(m) && e@ == m);
            }
            Ok(e)
        },
    }
}

} // verus!
