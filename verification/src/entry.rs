//! A single multipart entry: one form field or file part.

use crate::mime::Mime;
use crate::wire::mime_wf;
use crate::wire::text_wf;
use vstd::prelude::*;

verus! {

use vstd::utf8::encode_utf8;

/// The mathematical value of an [`Entry`]: every text field as its UTF-8
/// byte sequence, the body as raw bytes.
#[verifier::ext_equal]
pub struct EntryModel {
    pub name: Seq<u8>,
    pub file_name: Option<Seq<u8>>,
    pub content_type: Option<Seq<u8>>,
    pub body: Seq<u8>,
}

/// An entry can be written to the wire exactly when its name is non-empty
/// and none of its text fields holds a CR or LF; quotes and backslashes are
/// handled by escaping, a line break cannot be.
pub open spec fn entry_model_wf(m: EntryModel) -> bool {
    &&& m.name.len() > 0
    &&& text_wf(m.name)
    &&& match m.file_name {
        Some(f) => text_wf(f),
        None => true,
    }
    &&& match m.content_type {
        Some(c) => mime_wf(c),
        None => true,
    }
}

/// One form field or file part: a required name, an optional file name,
/// an optional media type, and the fully materialized body bytes.
#[derive(Debug)]
pub struct Entry {
    name: String,
    file_name: Option<String>,
    content_type: Option<Mime>,
    body: Vec<u8>,
}

impl View for Entry {
    type V = EntryModel;

    closed spec fn view(&self) -> EntryModel {
        EntryModel {
            name: encode_utf8(self.name@),
            file_name: match self.file_name {
                Some(f) => Some(encode_utf8(f@)),
                None => None,
            },
            content_type: match self.content_type {
                Some(m) => Some(m@),
                None => None,
            },
            body: self.body@,
        }
    }
}

impl Entry {
    /// Create a new `Entry` with the given name and body, no file name and
    /// no media type.
    pub fn new(name: String, body: Vec<u8>) -> (r: Self)
        ensures
            r@ == (EntryModel {
                name: encode_utf8(name@),
                file_name: None,
                content_type: None,
                body: body@,
            }),
    {
        Entry { name, file_name: None, content_type: None, body }
    }

    /// Create an `Entry` with an empty body.
    pub fn empty(name: String) -> (r: Self)
        ensures
            r@ == (EntryModel {
                name: encode_utf8(name@),
                file_name: None,
                content_type: None,
                body: Seq::empty(),
            }),
    {
        Entry::new(name, Vec::new())
    }

    /// Get the entry name.
    pub fn name(&self) -> (r: &String)
        ensures
            encode_utf8(r@) == self@.name,
    {
        &self.name
    }

    /// Set the entry name.
    pub fn set_name(&mut self, name: String)
        ensures
            final(self)@ == (EntryModel { name: encode_utf8(name@), ..old(self)@ }),
    {
        self.name = name;
    }

    /// Get the media type, if one is set.
    pub fn content_type(&self) -> (r: Option<&Mime>)
        ensures
            match r {
                Some(m) => self@.content_type == Some(m@),
                None => self@.content_type is None,
            },
    {
        match &self.content_type {
            Some(m) => Some(m),
            None => None,
        }
    }

    /// Set or clear the media type.
    pub fn set_content_type(&mut self, mime: Option<Mime>)
        ensures
            final(self)@ == (EntryModel {
                content_type: match mime {
                    Some(m) => Some(m@),
                    None => None,
                },
                ..old(self)@
            }),
    {
        self.content_type = mime;
    }

    /// Get the file name of the entry, if one is set.
    pub fn file_name(&self) -> (r: Option<&String>)
        ensures
            match r {
                Some(f) => self@.file_name == Some(encode_utf8(f@)),
                None => self@.file_name is None,
            },
    {
        match &self.file_name {
            Some(f) => Some(f),
            None => None,
        }
    }

    /// Set or clear the file name.
    pub fn set_file_name(&mut self, file_name: Option<String>)
        ensures
            final(self)@ == (EntryModel {
                file_name: match file_name {
                    Some(f) => Some(encode_utf8(f@)),
                    None => None,
                },
                ..old(self)@
            }),
    {
        self.file_name = file_name;
    }

    /// Get the body bytes.
    pub fn body(&self) -> (r: &Vec<u8>)
        ensures
            r@ == self@.body,
    {
        &self.body
    }

    /// Whether the entry can be written to the wire; see [`entry_model_wf`].
    pub open spec fn wf(&self) -> bool {
        entry_model_wf(self@)
    }

    /// Every entry's text fields encode strings, so they are valid UTF-8.
    pub proof fn lemma_view_utf8(&self)
        ensures
            vstd::utf8::valid_utf8(self@.name),
            self@.file_name matches Some(f) ==> vstd::utf8::valid_utf8(f),
            self@.content_type matches Some(c) ==> vstd::utf8::valid_utf8(c),
    {
        broadcast use vstd::utf8::encode_utf8_valid_utf8;

        match &self.content_type {
            Some(m) => m.lemma_view_utf8(),
            None => (),
        }
    }
}

} // verus!
