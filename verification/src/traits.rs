//! The capability the reader consumes and the read-view traits it offers.
//!
//! The parser never opens or owns a stream itself: it asks a [`ByteRead`]
//! for each segment's byte range and decodes what comes back.  Any backing
//! store can stand behind the trait — an in-memory buffer is provided by
//! [`crate::source::MemorySource`]; a file handle belongs to the caller.

use vstd::prelude::*;

verus! {

use crate::error::FlowError;
use crate::text::{Gate, Metadata, Parameter};

/// A source of bytes that can serve any inclusive range on demand.
///
/// `contents()` is the whole byte stream behind the source.  A read may
/// always fail — a transport can fault at any time — but a read that
/// succeeds returns exactly the requested slice of the stream, and no read
/// changes the stream.
pub trait ByteRead {
    /// The bytes behind this source.
    spec fn contents(&self) -> Seq<u8>;

    /// Reads the bytes from `start` to `stop` inclusive, measured from
    /// `offset` within the stream.
    fn read_bytes(&mut self, offset: u64, start: u64, stop: u64) -> (r: Result<
        Vec<u8>,
        FlowError,
    >)
        requires
            start <= stop,
            offset + stop <= u64::MAX,
        ensures
            final(self).contents() == old(self).contents(),
            r matches Ok(b) ==> offset + stop < old(self).contents().len() && b@ == old(
                self,
            ).contents().subrange((offset + start) as int, (offset + stop + 1) as int),
            r is Err ==> r == Err::<Vec<u8>, FlowError>(FlowError::IoError),
    ;
}

/// Read access to the optional instrument and operator metadata.
pub trait Meta {
    /// The metadata view.
    fn metadata(&self) -> Metadata;
}

/// Read access to the measured parameters.
pub trait Par {
    /// How many parameters one event holds.
    fn count(&self) -> u64;

    /// The parameters, in index order.
    fn parameters(&self) -> Vec<Parameter>;
}

/// Read access to the gates.
pub trait Gating {
    /// How many gates the document declares.
    fn count(&self) -> u64;

    /// The gates, in index order.
    fn gates(&self) -> Vec<Gate>;
}

} // verus!
