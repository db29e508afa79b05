//! Meta elements: the end of a file, and the rule that stands for the
//! scripting bindings of scopes, which matches no text.
use vstd::prelude::*;

use crate::document::Token;

verus! {

/// The end of a file.
#[derive(Clone, Copy, PartialEq, Eq, Debug, Structural)]
pub struct Eof {
    pub location: Token,
}

/// The rule that holds the scripting bindings of scopes; it matches no text.
pub struct MetaRule {}

impl MetaRule {
    pub fn new() -> (r: MetaRule) {
        MetaRule {  }
    }

    /// The next match at or after `from`: there is none.
    pub fn find(&self, s: &[char], from: usize) -> (r: Option<usize>)
        ensures
            r is None,
    {
        None
    }
}

} // verus!
