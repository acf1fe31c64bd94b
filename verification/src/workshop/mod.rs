//! The Workshop items that a document records, and which of them were updated since.

pub mod diff;
pub mod extract;
pub mod timestamps;
