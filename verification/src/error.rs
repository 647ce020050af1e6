use vstd::prelude::*;

verus! {

/// The ways multipart construction or parsing can fail.
#[derive(Clone, Copy, PartialEq, Eq, Structural, Debug)]
pub enum ParseError {
    /// No usable boundary token was supplied: empty, or holding CR or LF.
    BoundaryNotFound,
    /// A part's header block has no `Content-Disposition` header.
    MissingContentDisposition,
    /// A part's `Content-Disposition` header has no (non-empty) `name` parameter.
    MissingNameParam,
    /// Any other header syntax error: malformed quoting, a header line
    /// without a colon, an unparsable `Content-Type`, or a header value
    /// that is not valid UTF-8.
    HeaderParseError,
    /// The buffer ended before the terminal boundary marker was found.
    UnexpectedEof,
    /// Reserved for failures while materializing body bytes; the in-memory
    /// parser keeps bodies as raw bytes and never produces it.
    BodyReadError,
}

} // verus!
