//! A reader for Well-Known Text (WKT) geometry strings.
//!
//! The text is split into tokens by character class. A typestate reader
//! resolves the geometry type that heads the text; a small state machine
//! reads one coordinate group from the tokens, and another the groups that
//! nest. Offsets are counted in bytes, and numbers are kept as they are
//! written.
//!
//! Every function is verified against a contract over the text as a
//! sequence of characters; the one thing taken on trust is what
//! `String::push` of std does (`decimal`). Beyond the contracts it is
//! proved that the tokens of a text partition it (`cursor`), that a
//! coordinate group is accepted exactly when it is a group of the grammar
//! (`group`), and that the lists read from nested groups are the lists
//! written there (`notation`).

pub mod char_class;
pub mod coordinate_reader;
pub mod cursor;
pub mod decimal;
pub mod encoding;
pub mod geometry;
pub mod geometry_type;
pub mod group;
pub mod keyword;
pub mod nested;
pub mod notation;
pub mod ordinate;
pub mod parse_error;
pub mod tokenizer;
pub mod wkt_reader;

pub use parse_error::ParseError;
