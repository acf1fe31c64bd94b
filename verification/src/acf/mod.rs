//! The ACF format: the tree of a document ([`value`]), what it means for a text to
//! describe a tree ([`describes`]), the grammar that reads a text and finds its faults
//! ([`grammar`]), the parser ([`parser`]), and the way back from a tree to a text
//! ([`render`]).

pub mod describes;
pub mod grammar;
pub mod parser;
pub mod render;
pub mod value;
