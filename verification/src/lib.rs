//! Parsing and serialization of `multipart/form-data` bodies.
//!
//! A body is either assembled from entries pushed by the caller and then
//! serialized to wire bytes, or supplied as a fully buffered byte sequence
//! together with its boundary token and consumed entry by entry through a
//! pull-based cursor.

pub mod cursor;
pub mod entry;
pub mod error;
pub mod headers;
pub mod laws;
pub mod scanner;
pub mod mime;
pub mod multipart;
pub mod part;
pub mod text;
pub mod wire;

pub use entry::Entry;
pub use error::ParseError;
pub use mime::Mime;
pub use multipart::Multipart;
