//! Steam Workshop update detection from an application cache file.
//!
//! An application cache file (ACF) is a text of nested, quoted keys and values in which
//! Steam records, among other things, the Workshop items installed on this machine and
//! the time each one was last updated. [`acf`] turns such a text into a tree, and
//! [`workshop`] reads the recorded update times out of the tree and tells which items
//! have a later update time elsewhere.
//!
//! The other modules serve a program that asks Steam for these update times and
//! announces the updated items on Discord: [`steam`] holds the addresses to ask at,
//! [`changelog`] the decisions on the change log page of an item, [`discord`] the
//! parts of the announcement, and [`number`] the decimal numbers that all of them read
//! or write.

pub mod acf;
pub mod changelog;
pub mod discord;
pub mod number;
pub mod steam;
mod text;
pub mod workshop;
