//! Parser for the binary network node file.
//!
//! The file starts with a little-endian `u32` record count; each record is 24
//! bytes: two reserved `u32` fields, then the latitude and the longitude as
//! little-endian 64-bit values. The position of a record among the parsed
//! records is the node id used by every other component.

use vstd::prelude::*;

verus! {

/// One record of the node file: the latitude and longitude fields as the raw
/// 64-bit little-endian values found in the file (IEEE-754 double-precision
/// bit patterns). Narrowing to the in-memory single-precision coordinate is
/// left to the caller, since it is a floating-point operation.
#[derive(Clone, Copy, PartialEq, Eq, Structural, Debug)]
pub struct NodeRecord {
    pub latitude_bits: u64,
    pub longitude_bits: u64,
}

/// Why the node file was rejected.
#[derive(Clone, Copy, PartialEq, Eq, Structural, Debug)]
pub enum LoadError {
    /// The data ends before the declared number of records is complete.
    Truncated,
}

/// The little-endian 32-bit value starting at offset `i`.
pub open spec fn le_u32_at(b: Seq<u8>, i: int) -> int {
    b[i] + b[i + 1] * 0x100 + b[i + 2] * 0x1_0000 + b[i + 3] * 0x100_0000
}

/// The little-endian 64-bit value starting at offset `i`.
pub open spec fn le_u64_at(b: Seq<u8>, i: int) -> int {
    b[i] + b[i + 1] * 0x100 + b[i + 2] * 0x1_0000 + b[i + 3] * 0x100_0000
        + b[i + 4] * 0x1_0000_0000 + b[i + 5] * 0x100_0000_0000
        + b[i + 6] * 0x1_0000_0000_0000 + b[i + 7] * 0x100_0000_0000_0000
}

/// The record count declared in the file header.
pub open spec fn declared_count(b: Seq<u8>) -> int {
    le_u32_at(b, 0)
}

/// The `k`-th record of the file: the two reserved fields are skipped, the
/// latitude sits at byte 8 and the longitude at byte 16 of the record.
pub open spec fn record_at(b: Seq<u8>, k: int) -> NodeRecord {
    NodeRecord {
        latitude_bits: le_u64_at(b, 4 + 24 * k + 8) as u64,
        longitude_bits: le_u64_at(b, 4 + 24 * k + 16) as u64,
    }
}

/// The data holds the header and all declared records (trailing bytes are
/// permitted and ignored).
pub open spec fn complete(b: Seq<u8>) -> bool {
    b.len() >= 4 && b.len() >= 4 + 24 * declared_count(b)
}

fn read_le_u32(bytes: &[u8], i: usize) -> (r: u32)
    requires
        i + 4 <= bytes@.len(),
    ensures
        r == le_u32_at(bytes@, i as int),
{
    (bytes[i] as u32) + (bytes[i + 1] as u32) * 0x100 + (bytes[i + 2] as u32) * 0x1_0000
        + (bytes[i + 3] as u32) * 0x100_0000
}

fn read_le_u64(bytes: &[u8], i: usize) -> (r: u64)
    requires
        i + 8 <= bytes@.len(),
    ensures
        r == le_u64_at(bytes@, i as int),
{
    (bytes[i] as u64) + (bytes[i + 1] as u64) * 0x100 + (bytes[i + 2] as u64) * 0x1_0000
        + (bytes[i + 3] as u64) * 0x100_0000 + (bytes[i + 4] as u64) * 0x1_0000_0000
        + (bytes[i + 5] as u64) * 0x100_0000_0000 + (bytes[i + 6] as u64) * 0x1_0000_0000_0000
        + (bytes[i + 7] as u64) * 0x100_0000_0000_0000
}

/// Parses the node file held in `bytes` into its records, in file order, so
/// that node id `k` is position `k` of the result. Fails exactly when the
/// data is shorter than the header plus the declared records.
pub fn load_points(bytes: &[u8]) -> (r: Result<Vec<NodeRecord>, LoadError>)
    ensures
        r is Ok <==> complete(bytes@),
        r matches Ok(v) ==> {
            &&& v@.len() == declared_count(bytes@)
            &&& forall|k: int| 0 <= k < v@.len() ==> v@[k] == record_at(bytes@, k)
        },
        r matches Err(e) ==> e == LoadError::Truncated,
{
    if bytes.len() < 4 {
        return Err(LoadError::Truncated);
    }
    let n = read_le_u32(bytes, 0);
    let mut records: Vec<NodeRecord> = Vec::new();
    let mut off: usize = 4;
    let mut k: usize = 0;
    while k < n as usize
        invariant
            bytes@.len() >= 4,
            n == declared_count(bytes@),
            k <= n as usize,
            off == 4 + 24 * k,
            off <= bytes@.len(),
            records@.len() == k,
            forall|j: int| 0 <= j < k ==> records@[j] == record_at(bytes@, j),
        decreases n as int - k,
    {
        if bytes.len() - off < 24 {
            assert(bytes@.len() < 4 + 24 * (k + 1) <= 4 + 24 * declared_count(bytes@));
            return Err(LoadError::Truncated);
        }
        let latitude_bits = read_le_u64(bytes, off + 8);
        let longitude_bits = read_le_u64(bytes, off + 16);
        records.push(NodeRecord { latitude_bits, longitude_bits });
        off = off + 24;
        k = k + 1;
    }
    Ok(records)
}

} // verus!
