//! Reading the buffers that the system fills: little-endian integers at byte
//! offsets, and 16-bit text. Nothing is read outside a buffer: a reader that
//! is asked for bytes which the buffer does not hold says so.

use vstd::prelude::*;

verus! {

/// The buffer holds `len` bytes from offset `at` on.
pub open spec fn holds(bytes: Seq<u8>, at: int, len: int) -> bool {
    0 <= at && 0 <= len && at + len <= bytes.len()
}

/// The 16-bit number whose two bytes stand at `at`, low byte first.
pub open spec fn le16(bytes: Seq<u8>, at: int) -> int {
    bytes[at] as int + 256 * (bytes[at + 1] as int)
}

/// The 32-bit number whose four bytes stand at `at`, low byte first.
pub open spec fn le32(bytes: Seq<u8>, at: int) -> int {
    le16(bytes, at) + 65536 * le16(bytes, at + 2)
}

/// The 64-bit number whose eight bytes stand at `at`, low byte first.
pub open spec fn le64(bytes: Seq<u8>, at: int) -> int {
    le32(bytes, at) + 4294967296 * le32(bytes, at + 4)
}

/// The `count` 16-bit units that stand from `at` on, two bytes each.
pub open spec fn units_at(bytes: Seq<u8>, at: int, count: int) -> Seq<u16> {
    Seq::new(count as nat, |i: int| le16(bytes, at + 2 * i) as u16)
}

/// Whether the buffer holds `len` bytes from `at` on.
pub fn has_bytes(bytes: &[u8], at: usize, len: usize) -> (yes: bool)
    ensures
        yes == holds(bytes@, at as int, len as int),
        yes ==> at + len <= usize::MAX,
{
    at <= bytes.len() && len <= bytes.len() - at
}

/// The 16-bit number at `at`, if the buffer holds its two bytes.
pub fn read_u16(bytes: &[u8], at: usize) -> (value: Option<u16>)
    ensures
        value.is_some() == holds(bytes@, at as int, 2),
        value matches Some(v) ==> v == le16(bytes@, at as int),
{
    if !has_bytes(bytes, at, 2) {
        return None;
    }
    let low = bytes[at] as u16;
    let high = bytes[at + 1] as u16;
    Some(low + 256 * high)
}

/// The 32-bit number at `at`, if the buffer holds its four bytes.
pub fn read_u32(bytes: &[u8], at: usize) -> (value: Option<u32>)
    ensures
        value.is_some() == holds(bytes@, at as int, 4),
        value matches Some(v) ==> v == le32(bytes@, at as int),
{
    if !has_bytes(bytes, at, 4) {
        return None;
    }
    let low = match read_u16(bytes, at) {
        Some(v) => v as u32,
        None => 0,
    };
    let high = match read_u16(bytes, at + 2) {
        Some(v) => v as u32,
        None => 0,
    };
    Some(low + 65536 * high)
}

/// The 64-bit number at `at`, if the buffer holds its eight bytes.
pub fn read_u64(bytes: &[u8], at: usize) -> (value: Option<u64>)
    ensures
        value.is_some() == holds(bytes@, at as int, 8),
        value matches Some(v) ==> v == le64(bytes@, at as int),
{
    if !has_bytes(bytes, at, 8) {
        return None;
    }
    let low = match read_u32(bytes, at) {
        Some(v) => v as u64,
        None => 0,
    };
    let high = match read_u32(bytes, at + 4) {
        Some(v) => v as u64,
        None => 0,
    };
    Some(low + 4294967296 * high)
}

/// The `count` 16-bit units from `at` on, if the buffer holds all of them.
pub fn read_units(bytes: &[u8], at: usize, count: usize) -> (units: Option<Vec<u16>>)
    ensures
        units.is_some() == holds(bytes@, at as int, 2 * count),
        units matches Some(list) ==> list@ == units_at(bytes@, at as int, count as int),
{
    if at > bytes.len() || count > (bytes.len() - at) / 2 {
        return None;
    }
    assert(at + 2 * count <= usize::MAX);
    let mut list: Vec<u16> = Vec::new();
    let mut i: usize = 0;
    while i < count
        invariant
            i <= count,
            holds(bytes@, at as int, 2 * count),
            at + 2 * count <= usize::MAX,
            list.len() == i,
            forall|k: int| 0 <= k < i ==> list[k] == le16(bytes@, at + 2 * k) as u16,
        decreases count - i,
    {
        let unit = match read_u16(bytes, at + 2 * i) {
            Some(v) => v,
            None => 0,
        };
        list.push(unit);
        i += 1;
    }
    assert(list@ =~= units_at(bytes@, at as int, count as int));
    Some(list)
}

/// Where in the buffer the `len` bytes at the address `address` stand, if
/// they all lie in the buffer, which was filled while it stood at the
/// address `base`.
pub open spec fn offset_of(bytes: Seq<u8>, base: int, address: int, len: int) -> Option<int> {
    if base <= address && holds(bytes, address - base, len) {
        Some(address - base)
    } else {
        None
    }
}

/// Turns an address that the system wrote into the buffer into an offset in
/// the buffer, if the `len` bytes at that address all lie in the buffer.
pub fn locate(bytes: &[u8], base: u64, address: u64, len: usize) -> (at: Option<usize>)
    ensures
        at.is_some() == offset_of(bytes@, base as int, address as int, len as int).is_some(),
        at matches Some(offset) ==> offset_of(bytes@, base as int, address as int, len as int)
            == Some(offset as int),
{
    if address < base {
        return None;
    }
    let distance = address - base;
    if distance > bytes.len() as u64 {
        return None;
    }
    let offset = distance as usize;
    if has_bytes(bytes, offset, len) {
        Some(offset)
    } else {
        None
    }
}

} // verus!
