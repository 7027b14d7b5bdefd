//! The list of all processes, as the system writes it into a buffer: records
//! of varying length, each of which says how many bytes further on the next
//! one begins. The layout is that of a 64-bit system.

use vstd::prelude::*;
use crate::child::SCRStruct;
use crate::layout::{
    has_bytes, holds, le16, le32, le64, locate, offset_of, read_u16, read_u32, read_u64,
    read_units, units_at,
};
use crate::names::{is_target_image, same_ignoring_case, TARGET_IMAGE};
use crate::query::QueryError;

verus! {

/// The bytes of a process record that are read: up to the end of its
/// process identifier.
pub const PROCESS_RECORD_SIZE: usize = 88;

/// Where in a record the distance to the next record stands: 32 bits, zero
/// in the last record.
pub const NEXT_ENTRY_AT: usize = 0;

/// Where in a record the length of the image name stands, in bytes: 16 bits.
pub const IMAGE_NAME_LENGTH_AT: usize = 56;

/// Where in a record the address of the image name stands: 64 bits.
pub const IMAGE_NAME_ADDRESS_AT: usize = 64;

/// Where in a record the process identifier stands: 64 bits.
pub const PROCESS_ID_AT: usize = 80;

/// The identifier that stands where there is no process.
pub const NO_PROCESS: u64 = 0xFFFF_FFFF_FFFF_FFFF;

/// What one record of the process list is.
#[derive(Debug, Clone, Copy, PartialEq, Eq, Structural)]
pub enum RecordKind {
    /// A process that runs the target executable.
    Target(u32),
    /// Some other process, or no process.
    Other,
    /// The record names bytes that the buffer does not hold.
    Malformed,
}

/// The identifier of a process as the registry holds it: the low 32 bits of
/// what the record holds.
pub open spec fn pid_of(id: int) -> u32 {
    (id % 0x1_0000_0000) as u32
}

/// What the record at `at` is, in a buffer that was filled while it stood
/// at the address `base`. A record counts as a target if its identifier is
/// neither zero nor the one for no process, its image name is not empty,
/// and the name is that of the target executable. It is malformed if it
/// does not lie in the buffer, or if its name does not.
pub open spec fn record_kind(bytes: Seq<u8>, base: int, at: int) -> RecordKind {
    let id = le64(bytes, at + PROCESS_ID_AT);
    let length = le16(bytes, at + IMAGE_NAME_LENGTH_AT);
    let address = le64(bytes, at + IMAGE_NAME_ADDRESS_AT);
    if !holds(bytes, at, PROCESS_RECORD_SIZE as int) {
        RecordKind::Malformed
    } else if id == 0 || id == NO_PROCESS || length == 0 {
        RecordKind::Other
    } else {
        match offset_of(bytes, base, address, length) {
            None => RecordKind::Malformed,
            Some(start) => {
                let name = units_at(bytes, start, length / 2);
                if same_ignoring_case(name, TARGET_IMAGE@) {
                    RecordKind::Target(pid_of(id))
                } else {
                    RecordKind::Other
                }
            },
        }
    }
}

/// The target processes of a record, as a list of none or one.
pub open spec fn targets_of(kind: RecordKind) -> Seq<u32> {
    match kind {
        RecordKind::Target(pid) => seq![pid],
        _ => Seq::empty(),
    }
}

/// The identifiers of the target processes in the records from the one at
/// `at` on, in the order of the records; `None` if a record that is reached
/// does not lie in the buffer, or names bytes that the buffer does not hold.
pub open spec fn targets_from(bytes: Seq<u8>, base: int, at: int) -> Option<Seq<u32>>
    decreases bytes.len() - at,
{
    let kind = record_kind(bytes, base, at);
    let next = le32(bytes, at + NEXT_ENTRY_AT);
    if kind == RecordKind::Malformed {
        None
    } else if next == 0 {
        Some(targets_of(kind))
    } else if !holds(bytes, at + next, PROCESS_RECORD_SIZE as int) {
        None
    } else {
        match targets_from(bytes, base, at + next) {
            Some(rest) => Some(targets_of(kind) + rest),
            None => None,
        }
    }
}

/// The identifiers of the target processes in a process list.
pub open spec fn targets(bytes: Seq<u8>, base: int) -> Option<Seq<u32>> {
    targets_from(bytes, base, 0)
}

/// Children that have just been seen, one for each identifier.
pub open spec fn fresh(pids: Seq<u32>) -> Seq<SCRStruct> {
    Seq::new(pids.len(), |i: int| SCRStruct { pid: pids[i], is_processed: false })
}

/// Says what the record at `at` is.
pub fn classify(bytes: &[u8], base: u64, at: usize) -> (kind: RecordKind)
    ensures
        kind == record_kind(bytes@, base as int, at as int),
{
    if !has_bytes(bytes, at, PROCESS_RECORD_SIZE) {
        return RecordKind::Malformed;
    }
    let id = match read_u64(bytes, at + PROCESS_ID_AT) {
        Some(v) => v,
        None => 0,
    };
    let length = match read_u16(bytes, at + IMAGE_NAME_LENGTH_AT) {
        Some(v) => v,
        None => 0,
    };
    let address = match read_u64(bytes, at + IMAGE_NAME_ADDRESS_AT) {
        Some(v) => v,
        None => 0,
    };
    if id == 0 || id == NO_PROCESS || length == 0 {
        return RecordKind::Other;
    }
    match locate(bytes, base, address, length as usize) {
        None => RecordKind::Malformed,
        Some(start) => {
            let count = (length / 2) as usize;
            match read_units(bytes, start, count) {
                Some(units) => {
                    if is_target_image(units.as_slice()) {
                        RecordKind::Target((id % 0x1_0000_0000) as u32)
                    } else {
                        RecordKind::Other
                    }
                },
                None => RecordKind::Malformed,
            }
        },
    }
}

/// Walks a process list and returns a child for each record of a target
/// process, in the order of the records; `None` where the list is broken.
/// `base` is the address at which the buffer stood when the system filled
/// it: the records hold the addresses of their names.
pub fn process_entries(bytes: &[u8], base: u64) -> (found: Option<Vec<SCRStruct>>)
    ensures
        match found {
            Some(list) => targets(bytes@, base as int).is_some() && list@ == fresh(
                targets(bytes@, base as int).unwrap(),
            ),
            None => targets(bytes@, base as int).is_none(),
        },
{
    let mut list: Vec<SCRStruct> = Vec::new();
    let mut at: usize = 0;
    let ghost mut pids: Seq<u32> = Seq::empty();
    loop
        invariant
            at <= bytes.len(),
            list@ == fresh(pids),
            targets(bytes@, base as int) == match targets_from(bytes@, base as int, at as int) {
                Some(rest) => Some(pids + rest),
                None => None,
            },
        decreases bytes.len() - at,
    {
        let kind = classify(bytes, base, at);
        let next = match read_u32(bytes, at + NEXT_ENTRY_AT) {
            Some(v) => v as usize,
            None => 0,
        };
        let ghost before = pids;
        match kind {
            RecordKind::Malformed => {
                return None;
            },
            RecordKind::Target(pid) => {
                list.push(SCRStruct::new(pid));
                proof {
                    pids = pids.push(pid);
                }
            },
            RecordKind::Other => {},
        }
        assert(pids =~= before + targets_of(kind));
        assert(list@ =~= fresh(pids));
        if next == 0 {
            assert(targets(bytes@, base as int) == Some(pids));
            return Some(list);
        }
        if next > bytes.len() - at || !has_bytes(bytes, at + next, PROCESS_RECORD_SIZE) {
            return None;
        }
        proof {
            let rest = targets_from(bytes@, base as int, at + next);
            if rest.is_some() {
                assert(before + (targets_of(kind) + rest.unwrap()) =~= pids + rest.unwrap());
            }
        }
        at = at + next;
    }
}

/// The children that a scan finds in what the query for the process list
/// came to.
pub open spec fn found_in(listing: Result<Vec<u8>, QueryError>, base: int) -> Seq<SCRStruct> {
    match listing {
        Ok(bytes) => match targets(bytes@, base) {
            Some(pids) => fresh(pids),
            None => Seq::empty(),
        },
        Err(_) => Seq::empty(),
    }
}

/// The children of a scan: one for each target process in the process
/// list, or none at all where the query for the list failed or the list is
/// broken. A scan that finds nothing for such a reason is no error: the
/// next scan tries again. `base` is the address at which the buffer stood
/// when the system filled it.
pub fn process_handles(listing: &Result<Vec<u8>, QueryError>, base: u64) -> (found: Vec<SCRStruct>)
    ensures
        found@ == found_in(*listing, base as int),
{
    match listing {
        Ok(bytes) => match process_entries(bytes.as_slice(), base) {
            Some(list) => list,
            None => Vec::new(),
        },
        Err(_) => Vec::new(),
    }
}

} // verus!
