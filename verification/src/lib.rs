//! NML ("Not a markup language") elements: the syntax rules of the NML
//! markup language, the elements they produce, and a document parser that
//! applies them to a source text.

pub mod chars;
pub mod compile;
pub mod bindings;
pub mod completion;
pub mod document;
pub mod elements;
pub mod interop;
pub mod parser;
pub mod properties;
pub mod scan;
pub mod semantics;
pub mod text;
