//! The DATA segment: a flat run of fixed-width numeric values.
//!
//! The TEXT segment declares the value type (`$DATATYPE`) and byte order
//! (`$BYTEORD`); the segment itself is then cut into 4-byte words (integer
//! and single-precision data) or 8-byte words (double-precision data), each
//! decoded in the declared order.
//!
//! Floating-point values are kept as their IEEE-754 bit patterns (`u32` and
//! `u64`); turning a pattern into an `f32` or `f64` is one
//! `from_bits` call away and is left to the caller.

use vstd::prelude::*;

verus! {

use crate::error::FlowError;

/// The byte order the acquisition computer wrote, with the raw `$BYTEORD`
/// text it was declared by.
#[derive(Debug, PartialEq, Eq)]
pub enum Byteord {
    LittleEndian(String),
    BigEndian(String),
}

/// The type of the values in the DATA segment.
#[derive(Debug, Clone, Copy, PartialEq, Eq, Structural)]
pub enum DataType {
    Int,
    Float,
    Double,
}

/// The decoded DATA segment.
///
/// `Float` and `Double` hold IEEE-754 bit patterns of the declared width.
#[derive(Debug, PartialEq, Eq)]
pub enum Data {
    Int(Vec<i32>),
    Float(Vec<u32>),
    Double(Vec<u64>),
}

impl Byteord {
    /// Whether this order is big-endian.
    pub open spec fn spec_big(&self) -> bool {
        self matches Byteord::BigEndian(_)
    }

    /// The raw `$BYTEORD` text this order was declared by.
    pub open spec fn spec_text(&self) -> Seq<char> {
        match self {
            Byteord::LittleEndian(s) => s@,
            Byteord::BigEndian(s) => s@,
        }
    }
}

/// Bytes per value for each data type.
pub open spec fn word_size(dt: DataType) -> int {
    match dt {
        DataType::Int => 4,
        DataType::Float => 4,
        DataType::Double => 8,
    }
}

/// The 32-bit word at word index `k`, read in the given byte order.
pub open spec fn u32_at(bytes: Seq<u8>, k: int, big: bool) -> u32 {
    if big {
        (bytes[4 * k] * 0x100_0000 + bytes[4 * k + 1] * 0x1_0000 + bytes[4 * k + 2] * 0x100
            + bytes[4 * k + 3]) as u32
    } else {
        (bytes[4 * k + 3] * 0x100_0000 + bytes[4 * k + 2] * 0x1_0000 + bytes[4 * k + 1] * 0x100
            + bytes[4 * k]) as u32
    }
}

/// The 64-bit word at word index `k`, read in the given byte order.
pub open spec fn u64_at(bytes: Seq<u8>, k: int, big: bool) -> u64 {
    if big {
        (bytes[8 * k] * 0x100_0000_0000_0000 + bytes[8 * k + 1] * 0x1_0000_0000_0000 + bytes[8
            * k + 2] * 0x100_0000_0000 + bytes[8 * k + 3] * 0x1_0000_0000 + bytes[8 * k + 4]
            * 0x100_0000 + bytes[8 * k + 5] * 0x1_0000 + bytes[8 * k + 6] * 0x100 + bytes[8 * k
            + 7]) as u64
    } else {
        (bytes[8 * k + 7] * 0x100_0000_0000_0000 + bytes[8 * k + 6] * 0x1_0000_0000_0000
            + bytes[8 * k + 5] * 0x100_0000_0000 + bytes[8 * k + 4] * 0x1_0000_0000 + bytes[8
            * k + 3] * 0x100_0000 + bytes[8 * k + 2] * 0x1_0000 + bytes[8 * k + 1] * 0x100
            + bytes[8 * k]) as u64
    }
}

/// The signed 32-bit value at word index `k`: the word reinterpreted in
/// two's complement.
pub open spec fn i32_at(bytes: Seq<u8>, k: int, big: bool) -> i32 {
    u32_at(bytes, k, big) as i32
}

/// `d` is the word-for-word decoding of `bytes` as values of type `dt` in
/// the given byte order.
pub open spec fn data_matches(d: Data, bytes: Seq<u8>, dt: DataType, big: bool) -> bool {
    &&& (bytes.len() as int) % word_size(dt) == 0
    &&& d.spec_len() == (bytes.len() as int) / word_size(dt)
    &&& match dt {
        DataType::Int => d matches Data::Int(v) && forall|k: int|
            0 <= k < v@.len() ==> v@[k] == i32_at(bytes, k, big),
        DataType::Float => d matches Data::Float(v) && forall|k: int|
            0 <= k < v@.len() ==> v@[k] == u32_at(bytes, k, big),
        DataType::Double => d matches Data::Double(v) && forall|k: int|
            0 <= k < v@.len() ==> v@[k] == u64_at(bytes, k, big),
    }
}

/// Reads the 32-bit word at word index `k`.
fn read_u32(bytes: &Vec<u8>, k: usize, big: bool) -> (r: u32)
    requires
        4 * k + 4 <= bytes@.len(),
    ensures
        r == u32_at(bytes@, k as int, big),
{
    let n = bytes.len();
    proof {
        assert(4 * k + 4 <= n);
    }
    let b0 = bytes[4 * k] as u32;
    let b1 = bytes[4 * k + 1] as u32;
    let b2 = bytes[4 * k + 2] as u32;
    let b3 = bytes[4 * k + 3] as u32;
    if big {
        b0 * 0x100_0000 + b1 * 0x1_0000 + b2 * 0x100 + b3
    } else {
        b3 * 0x100_0000 + b2 * 0x1_0000 + b1 * 0x100 + b0
    }
}

/// Reads the 64-bit word at word index `k`.
fn read_u64(bytes: &Vec<u8>, k: usize, big: bool) -> (r: u64)
    requires
        8 * k + 8 <= bytes@.len(),
    ensures
        r == u64_at(bytes@, k as int, big),
{
    let n = bytes.len();
    proof {
        assert(8 * k + 8 <= n);
    }
    let b0 = bytes[8 * k] as u64;
    let b1 = bytes[8 * k + 1] as u64;
    let b2 = bytes[8 * k + 2] as u64;
    let b3 = bytes[8 * k + 3] as u64;
    let b4 = bytes[8 * k + 4] as u64;
    let b5 = bytes[8 * k + 5] as u64;
    let b6 = bytes[8 * k + 6] as u64;
    let b7 = bytes[8 * k + 7] as u64;
    if big {
        b0 * 0x100_0000_0000_0000 + b1 * 0x1_0000_0000_0000 + b2 * 0x100_0000_0000 + b3
            * 0x1_0000_0000 + b4 * 0x100_0000 + b5 * 0x1_0000 + b6 * 0x100 + b7
    } else {
        b7 * 0x100_0000_0000_0000 + b6 * 0x1_0000_0000_0000 + b5 * 0x100_0000_0000 + b4
            * 0x1_0000_0000 + b3 * 0x100_0000 + b2 * 0x1_0000 + b1 * 0x100 + b0
    }
}

impl Data {
    /// How many values were decoded.
    pub open spec fn spec_len(&self) -> int {
        match self {
            Data::Int(v) => v@.len() as int,
            Data::Float(v) => v@.len() as int,
            Data::Double(v) => v@.len() as int,
        }
    }

    /// How many values were decoded.
    pub fn len(&self) -> (r: usize)
        ensures
            r == self.spec_len(),
    {
        match self {
            Data::Int(v) => v.len(),
            Data::Float(v) => v.len(),
            Data::Double(v) => v.len(),
        }
    }

    /// Decodes a DATA segment of the declared type and byte order.
    ///
    /// The segment must be a whole number of words; anything else fails
    /// with [`FlowError::TruncatedDataSegment`].
    pub fn new(bytes: &Vec<u8>, data_type: DataType, byteord: Byteord) -> (r: Result<
        Data,
        FlowError,
    >)
        ensures
            r is Ok <==> (bytes@.len() as int) % word_size(data_type) == 0,
            r is Err ==> r == Err::<Data, FlowError>(FlowError::TruncatedDataSegment),
            r matches Ok(d) ==> data_matches(d, bytes@, data_type, byteord.spec_big()),
    {
        let big = match &byteord {
            Byteord::BigEndian(_) => true,
            Byteord::LittleEndian(_) => false,
        };
        let n = bytes.len();
        match data_type {
            DataType::Int => {
                if n % 4 != 0 {
                    return Err(FlowError::TruncatedDataSegment);
                }
                let count = n / 4;
                let mut out: Vec<i32> = Vec::new();
                let mut k: usize = 0;
                while k < count
                    invariant
                        n == bytes@.len(),
                        n % 4 == 0,
                        count == n / 4,
                        k <= count,
                        out@.len() == k,
                        forall|j: int| 0 <= j < k ==> out@[j] == i32_at(bytes@, j, big),
                    decreases count - k,
                {
                    let w = read_u32(bytes, k, big);
                    out.push(w as i32);
                    k += 1;
                }
                Ok(Data::Int(out))
            },
            DataType::Float => {
                if n % 4 != 0 {
                    return Err(FlowError::TruncatedDataSegment);
                }
                let count = n / 4;
                let mut out: Vec<u32> = Vec::new();
                let mut k: usize = 0;
                while k < count
                    invariant
                        n == bytes@.len(),
                        n % 4 == 0,
                        count == n / 4,
                        k <= count,
                        out@.len() == k,
                        forall|j: int| 0 <= j < k ==> out@[j] == u32_at(bytes@, j, big),
                    decreases count - k,
                {
                    let w = read_u32(bytes, k, big);
                    out.push(w);
                    k += 1;
                }
                Ok(Data::Float(out))
            },
            DataType::Double => {
                if n % 8 != 0 {
                    return Err(FlowError::TruncatedDataSegment);
                }
                let count = n / 8;
                let mut out: Vec<u64> = Vec::new();
                let mut k: usize = 0;
                while k < count
                    invariant
                        n == bytes@.len(),
                        n % 8 == 0,
                        count == n / 8,
                        k <= count,
                        out@.len() == k,
                        forall|j: int| 0 <= j < k ==> out@[j] == u64_at(bytes@, j, big),
                    decreases count - k,
                {
                    let w = read_u64(bytes, k, big);
                    out.push(w);
                    k += 1;
                }
                Ok(Data::Double(out))
            },
        }
    }
}

} // verus!
