//! Channel/marker naming for a staining panel.
//!
//! A panel pairs the name of a channel (a fluorochrome) with the name of
//! the marker measured on it, and standardises free-form names against a
//! nomenclature.

use vstd::prelude::*;

verus! {

use crate::strutil::str_eq;

/// One channel/marker pair of a panel.
#[derive(Debug, PartialEq, Eq)]
pub struct ChannelMap {
    /// Name of the channel (e.g. fluorochrome).
    pub channel: String,
    /// Name of the marker measured on that channel.
    pub marker: String,
}

/// A standardised name for a channel or marker, with the evidence used to
/// recognise synonyms of it.
#[derive(Debug, PartialEq, Eq)]
pub struct NormalisedName {
    /// The standard name: the nomenclature used for this channel or marker.
    pub standard: String,
    /// Regular expression text used to test whether a term means this
    /// standard.
    pub regex_str: String,
    /// Comma-separated values that directly mean this standard.
    pub permutations: String,
    /// Whether the nomenclature is case-sensitive.
    pub case_sensitive: bool,
}

impl ChannelMap {
    /// Whether the given channel/marker pair is exactly this mapping.
    pub fn check_matched_pair(&self, channel: String, marker: String) -> (r: bool)
        ensures
            r == (self.channel@ == channel@ && self.marker@ == marker@),
    {
        str_eq(self.channel.as_str(), channel.as_str()) && str_eq(
            self.marker.as_str(),
            marker.as_str(),
        )
    }
}

} // verus!
