//! Plain text.
use vstd::prelude::*;

use crate::compile::{sanitize, spec_sanitize};
use crate::document::Token;
use crate::interop::{chars_to_string, str_to_chars};

verus! {

/// Text between the other elements of a paragraph, once normalised.
pub struct Text {
    pub location: Token,
    pub content: String,
}

impl Text {
    pub fn new(location: Token, content: String) -> (r: Text)
        ensures
            r.location == location,
            r.content@ == content@,
    {
        Text { location, content }
    }

    /// HTML of the text.
    pub fn compile(&self) -> (r: String)
        ensures
            r@ == spec_sanitize(self.content@),
    {
        chars_to_string(sanitize(str_to_chars(self.content.as_str()).as_slice()).as_slice())
    }
}

} // verus!
