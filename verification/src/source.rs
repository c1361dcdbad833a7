//! An in-memory byte-range source.

use vstd::prelude::*;

verus! {

use crate::error::FlowError;
use crate::traits::ByteRead;

/// A byte-range source over a buffer already in memory.
///
/// Every in-bounds read succeeds; a read past the end of the buffer fails
/// with [`FlowError::IoError`], as a short stream would.
#[derive(Debug)]
pub struct MemorySource {
    bytes: Vec<u8>,
}

impl MemorySource {
    /// Wraps a buffer.
    pub fn new(bytes: Vec<u8>) -> (r: MemorySource)
        ensures
            r.contents() == bytes@,
    {
        MemorySource { bytes }
    }
}

impl ByteRead for MemorySource {
    closed spec fn contents(&self) -> Seq<u8> {
        self.bytes@
    }

    fn read_bytes(&mut self, offset: u64, start: u64, stop: u64) -> (r: Result<
        Vec<u8>,
        FlowError,
    >)
        ensures
            r is Ok <==> offset + stop < old(self).contents().len(),
    {
        let len = self.bytes.len() as u64;
        if offset > u64::MAX - stop || offset + stop >= len {
            return Err(FlowError::IoError);
        }
        let n = self.bytes.len();
        let lo = (offset + start) as usize;
        let hi = (offset + stop) as usize;
        let mut out: Vec<u8> = Vec::new();
        let mut i: usize = lo;
        while i <= hi
            invariant
                lo <= i <= hi + 1,
                hi < n,
                n == self.bytes@.len(),
                out@ == self.bytes@.subrange(lo as int, i as int),
            decreases hi + 1 - i,
        {
            out.push(self.bytes[i]);
            proof {
                assert(out@ =~= self.bytes@.subrange(lo as int, i + 1));
            }
            i += 1;
        }
        Ok(out)
    }
}

} // verus!
