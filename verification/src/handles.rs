//! The handle table of one process, as the system writes it into a buffer,
//! and the name of a kernel object. The layout is that of a 64-bit system.

use vstd::prelude::*;
use crate::layout::{
    has_bytes, holds, le16, le32, le64, locate, offset_of, read_u16, read_u32, read_u64,
    read_units, units_at,
};

verus! {

/// The bytes before the first record of a handle table: the number of
/// records, 64 bits, and 64 bits that are not read.
pub const TABLE_HEADER_SIZE: usize = 16;

/// The bytes of one record of a handle table.
pub const HANDLE_RECORD_SIZE: usize = 40;

/// The bytes of the header of an object name: the length of the name in
/// bytes, 16 bits, at offset 0, and the address of the name, 64 bits, at
/// offset 8.
pub const NAME_HEADER_SIZE: usize = 16;

/// One entry of the handle table of a process. The handle value means
/// something in that process only.
#[derive(Debug, Clone, Copy, PartialEq, Eq, Structural)]
pub struct HandleRecord {
    pub handle_value: u64,
    pub handle_count: u64,
    pub pointer_count: u64,
    pub granted_access: u32,
    pub object_type_index: u32,
    pub handle_attributes: u32,
}

/// The record that stands at `at`.
pub open spec fn record_at(bytes: Seq<u8>, at: int) -> HandleRecord {
    HandleRecord {
        handle_value: le64(bytes, at) as u64,
        handle_count: le64(bytes, at + 8) as u64,
        pointer_count: le64(bytes, at + 16) as u64,
        granted_access: le32(bytes, at + 24) as u32,
        object_type_index: le32(bytes, at + 28) as u32,
        handle_attributes: le32(bytes, at + 32) as u32,
    }
}

/// The records of a handle table, in the order of the table; `None` if the
/// buffer does not hold the header, or not as many records as the header
/// says.
pub open spec fn table_records(bytes: Seq<u8>) -> Option<Seq<HandleRecord>> {
    if !holds(bytes, 0, TABLE_HEADER_SIZE as int) {
        None
    } else {
        let count = le64(bytes, 0);
        if TABLE_HEADER_SIZE + HANDLE_RECORD_SIZE * count > bytes.len() {
            None
        } else {
            Some(
                Seq::new(
                    count as nat,
                    |i: int| record_at(bytes, TABLE_HEADER_SIZE + HANDLE_RECORD_SIZE * i),
                ),
            )
        }
    }
}

/// The name of a kernel object, in 16-bit units: empty for an object
/// without a name; `None` if the buffer does not hold the header, or if the
/// name does not lie in the buffer, which was filled while it stood at the
/// address `base`.
pub open spec fn object_name(bytes: Seq<u8>, base: int) -> Option<Seq<u16>> {
    if !holds(bytes, 0, NAME_HEADER_SIZE as int) {
        None
    } else {
        let length = le16(bytes, 0);
        if length == 0 {
            Some(Seq::empty())
        } else {
            match offset_of(bytes, base, le64(bytes, 8), length) {
                Some(start) => Some(units_at(bytes, start, length / 2)),
                None => None,
            }
        }
    }
}

/// The record at `at`, in a buffer that holds it.
fn read_record(bytes: &[u8], at: usize) -> (record: HandleRecord)
    requires
        holds(bytes@, at as int, HANDLE_RECORD_SIZE as int),
    ensures
        record == record_at(bytes@, at as int),
{
    let _ = has_bytes(bytes, at, HANDLE_RECORD_SIZE);
    let handle_value = match read_u64(bytes, at) {
        Some(v) => v,
        None => 0,
    };
    let handle_count = match read_u64(bytes, at + 8) {
        Some(v) => v,
        None => 0,
    };
    let pointer_count = match read_u64(bytes, at + 16) {
        Some(v) => v,
        None => 0,
    };
    let granted_access = match read_u32(bytes, at + 24) {
        Some(v) => v,
        None => 0,
    };
    let object_type_index = match read_u32(bytes, at + 28) {
        Some(v) => v,
        None => 0,
    };
    let handle_attributes = match read_u32(bytes, at + 32) {
        Some(v) => v,
        None => 0,
    };
    HandleRecord {
        handle_value,
        handle_count,
        pointer_count,
        granted_access,
        object_type_index,
        handle_attributes,
    }
}

/// Decodes a handle table.
pub fn handle_records(bytes: &[u8]) -> (records: Option<Vec<HandleRecord>>)
    ensures
        match records {
            Some(list) => table_records(bytes@) == Some(list@),
            None => table_records(bytes@).is_none(),
        },
{
    let count = match read_u64(bytes, 0) {
        Some(v) => v,
        None => {
            return None;
        },
    };
    if !has_bytes(bytes, 0, TABLE_HEADER_SIZE) {
        return None;
    }
    let room = ((bytes.len() - TABLE_HEADER_SIZE) / HANDLE_RECORD_SIZE) as u64;
    if count > room {
        return None;
    }
    let count = count as usize;
    let mut list: Vec<HandleRecord> = Vec::new();
    let mut i: usize = 0;
    while i < count
        invariant
            i <= count,
            TABLE_HEADER_SIZE + HANDLE_RECORD_SIZE * count <= bytes.len(),
            list.len() == i,
            forall|k: int|
                0 <= k < i ==> list[k] == record_at(
                    bytes@,
                    TABLE_HEADER_SIZE + HANDLE_RECORD_SIZE * k,
                ),
        decreases count - i,
    {
        list.push(read_record(bytes, TABLE_HEADER_SIZE + HANDLE_RECORD_SIZE * i));
        i += 1;
    }
    assert(table_records(bytes@).unwrap() =~= list@);
    Some(list)
}

/// Decodes the name of a kernel object.
pub fn read_object_name(bytes: &[u8], base: u64) -> (name: Option<Vec<u16>>)
    ensures
        match name {
            Some(units) => object_name(bytes@, base as int) == Some(units@),
            None => object_name(bytes@, base as int).is_none(),
        },
{
    if !has_bytes(bytes, 0, NAME_HEADER_SIZE) {
        return None;
    }
    let length = match read_u16(bytes, 0) {
        Some(v) => v,
        None => 0,
    };
    if length == 0 {
        let units: Vec<u16> = Vec::new();
        assert(units@ =~= Seq::<u16>::empty());
        return Some(units);
    }
    let address = match read_u64(bytes, 8) {
        Some(v) => v,
        None => 0,
    };
    match locate(bytes, base, address, length as usize) {
        Some(start) => read_units(bytes, start, (length / 2) as usize),
        None => None,
    }
}

} // verus!
