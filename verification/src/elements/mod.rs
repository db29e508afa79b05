//! The elements of NML and the rules that recognise them.

pub mod internal_link;
pub mod latex;
pub mod layout;
pub mod linebreak;
pub mod link;
pub mod list;
pub mod lua;
pub mod media;
pub mod meta;
pub mod paragraph;
pub mod raw;
pub mod reference;
pub mod script;
pub mod section;
pub mod style;
pub mod text;
