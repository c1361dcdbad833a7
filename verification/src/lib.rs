//! Reader for the Flow Cytometry Standard (FCS) binary file format.
//!
//! An FCS file holds three segments: a fixed-offset ASCII HEADER naming the
//! byte ranges of the other segments, a delimiter-separated key/value TEXT
//! segment, and a DATA segment of raw numeric event values whose encoding
//! (integer, float or double, big- or little-endian) the TEXT segment itself
//! declares.
//!
//! The crate decodes those three segments from any byte-range source and
//! assembles them into a single document.  Each parsing step carries a
//! contract saying exactly which bytes yield which value and on which inputs
//! which error is returned.

pub mod data;
pub mod error;
pub mod fcs;
pub mod header;
pub mod keywords;
pub mod panel;
pub mod source;
pub mod strutil;
pub mod text;
pub mod traits;
