//! Output back ends: what the document tree becomes on the page.
pub mod layout;

use vstd::prelude::*;
use crate::parser::ast::Document;

verus! {

/// A back end that turns a document into the bytes of an output file.
pub trait Backend {
    /// The output file for `doc`, or a message saying why it could not be made.
    fn render(&mut self, doc: &Document) -> Result<Vec<u8>, String>;
}

} // verus!
