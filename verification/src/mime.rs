//! A parsed media type, kept in its serialized text shape.

use crate::error::ParseError;
use crate::text::bytes_to_string;
use crate::wire::bytes_mime_wf;
use crate::wire::mime_wf;
use vstd::prelude::*;

verus! {

use vstd::utf8::{encode_utf8, valid_utf8};

/// A media type with optional parameters, e.g. `image/jpeg` or
/// `text/plain; charset=utf-8`. The value is kept in its textual wire
/// shape; its view is that text's UTF-8 byte sequence, which is always
/// `mime_wf`.
#[derive(Debug)]
pub struct Mime {
    repr: String,
}

impl View for Mime {
    type V = Seq<u8>;

    closed spec fn view(&self) -> Seq<u8> {
        encode_utf8(self.repr@)
    }
}

impl Clone for Mime {
    fn clone(&self) -> (r: Self)
        ensures
            r@ == self@,
    {
        Mime { repr: self.repr.clone() }
    }
}

impl Mime {
    /// Parse a media type from its textual form; rejects a shape that could
    /// not stand in a `Content-Type` header line.
    pub fn new(repr: String) -> (r: Result<Mime, ParseError>)
        ensures
            r matches Ok(m) ==> m@ == encode_utf8(repr@),
            r is Ok <==> mime_wf(encode_utf8(repr@)),
            r matches Err(e) ==> e == ParseError::HeaderParseError,
    {
        if bytes_mime_wf(repr.as_str().as_bytes()) {
            Ok(Mime { repr })
        } else {
            Err(ParseError::HeaderParseError)
        }
    }

    /// Parse a media type from header bytes; rejects bytes that are not
    /// valid UTF-8 or whose shape is not a media type.
    pub fn from_bytes(v: &[u8]) -> (r: Result<Mime, ParseError>)
        ensures
            r matches Ok(m) ==> m@ == v@,
            r is Ok <==> valid_utf8(v@) && mime_wf(v@),
            r matches Err(e) ==> e == ParseError::HeaderParseError,
    {
        if !bytes_mime_wf(v) {
            return Err(ParseError::HeaderParseError);
        }
        match bytes_to_string(v) {
            Some(s) => Ok(Mime { repr: s }),
            None => Err(ParseError::HeaderParseError),
        }
    }

    /// The textual form of the media type.
    pub fn text(&self) -> (r: &String)
        ensures
            encode_utf8(r@) == self@,
    {
        &self.repr
    }

    /// The media-type shape; both constructors establish it.
    pub open spec fn wf(&self) -> bool {
        mime_wf(self@)
    }

    /// Every media type's byte view encodes a string, so it is valid UTF-8.
    pub proof fn lemma_view_utf8(&self)
        ensures
            valid_utf8(self@),
    {
        broadcast use vstd::utf8::encode_utf8_valid_utf8;

    }
}

} // verus!
