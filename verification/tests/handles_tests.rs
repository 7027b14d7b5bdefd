use scr_launcher::handles::{
    handle_records, read_object_name, HandleRecord, HANDLE_RECORD_SIZE, TABLE_HEADER_SIZE,
};

const BASE: u64 = 0x2000_0000;

fn table(count: u64, records: &[HandleRecord]) -> Vec<u8> {
    let mut bytes = Vec::new();
    bytes.extend_from_slice(&count.to_le_bytes());
    bytes.extend_from_slice(&0u64.to_le_bytes());
    for record in records {
        bytes.extend_from_slice(&record.handle_value.to_le_bytes());
        bytes.extend_from_slice(&record.handle_count.to_le_bytes());
        bytes.extend_from_slice(&record.pointer_count.to_le_bytes());
        bytes.extend_from_slice(&record.granted_access.to_le_bytes());
        bytes.extend_from_slice(&record.object_type_index.to_le_bytes());
        bytes.extend_from_slice(&record.handle_attributes.to_le_bytes());
        bytes.extend_from_slice(&0u32.to_le_bytes());
    }
    bytes
}

fn record(handle_value: u64) -> HandleRecord {
    HandleRecord {
        handle_value,
        handle_count: 1,
        pointer_count: 32767,
        granted_access: 0x001F_0003,
        object_type_index: 17,
        handle_attributes: 2,
    }
}

fn name_buffer(name: &str) -> Vec<u8> {
    let units: Vec<u16> = name.encode_utf16().collect();
    let mut bytes = Vec::new();
    bytes.extend_from_slice(&((2 * units.len()) as u16).to_le_bytes());
    bytes.extend_from_slice(&((2 * units.len() + 2) as u16).to_le_bytes());
    bytes.extend_from_slice(&0u32.to_le_bytes());
    let address = if units.is_empty() { 0 } else { BASE + 16 };
    bytes.extend_from_slice(&address.to_le_bytes());
    for unit in units {
        bytes.extend_from_slice(&unit.to_le_bytes());
    }
    bytes.extend_from_slice(&0u16.to_le_bytes());
    bytes
}

#[test]
fn sizes_are_those_of_the_64_bit_layout() {
    assert_eq!(TABLE_HEADER_SIZE, 16);
    assert_eq!(HANDLE_RECORD_SIZE, 40);
}

#[test]
fn handle_table_is_decoded_in_order() {
    let records = vec![record(4), record(8), record(0x1c4)];
    let bytes = table(3, &records);
    assert_eq!(handle_records(&bytes), Some(records));
}

#[test]
fn handle_record_fields_are_read_from_their_offsets() {
    let one = HandleRecord {
        handle_value: 0x0102_0304_0506_0708,
        handle_count: 0x1112_1314_1516_1718,
        pointer_count: 0x2122_2324_2526_2728,
        granted_access: 0x3132_3334,
        object_type_index: 0x4142_4344,
        handle_attributes: 0x5152_5354,
    };
    let bytes = table(1, &[one]);
    assert_eq!(bytes[16], 0x08);
    assert_eq!(bytes[16 + 24], 0x34);
    assert_eq!(handle_records(&bytes), Some(vec![one]));
}

#[test]
fn empty_handle_table_has_no_records() {
    assert_eq!(handle_records(&table(0, &[])), Some(Vec::new()));
}

#[test]
fn handle_table_may_be_followed_by_unused_bytes() {
    let mut bytes = table(1, &[record(4)]);
    bytes.extend_from_slice(&[0xEE; 39]);
    assert_eq!(handle_records(&bytes), Some(vec![record(4)]));
}

#[test]
fn handle_table_with_too_few_records_is_refused() {
    let bytes = table(3, &[record(4), record(8)]);
    assert_eq!(handle_records(&bytes), None);
    let mut bytes = table(2, &[record(4), record(8)]);
    bytes.pop();
    assert_eq!(handle_records(&bytes), None);
    assert_eq!(handle_records(&table(u64::MAX, &[record(4)])), None);
}

#[test]
fn handle_table_without_header_is_refused() {
    assert_eq!(handle_records(&[]), None);
    assert_eq!(handle_records(&[0u8; 15]), None);
    assert_eq!(handle_records(&[0u8; 8]), None);
    assert_eq!(handle_records(&[0u8; 16]), Some(Vec::new()));
}

#[test]
fn object_name_is_decoded() {
    let bytes = name_buffer("\\BaseNamedObjects\\Lock");
    let expected: Vec<u16> = "\\BaseNamedObjects\\Lock".encode_utf16().collect();
    assert_eq!(read_object_name(&bytes, BASE), Some(expected));
}

#[test]
fn object_without_name_has_an_empty_name() {
    assert_eq!(read_object_name(&name_buffer(""), BASE), Some(Vec::new()));
    assert_eq!(read_object_name(&[0u8; 16], BASE), Some(Vec::new()));
}

#[test]
fn object_name_outside_the_buffer_is_refused() {
    let bytes = name_buffer("Lock");
    assert_eq!(read_object_name(&bytes, BASE + 17), None);
    assert_eq!(read_object_name(&bytes, BASE - 16), None);
    assert_eq!(read_object_name(&bytes, BASE - 4), None);
    let mut short = name_buffer("Lock");
    short.truncate(16 + 6);
    assert_eq!(read_object_name(&short, BASE), None);
}

#[test]
fn object_name_without_header_is_refused() {
    assert_eq!(read_object_name(&[], BASE), None);
    assert_eq!(read_object_name(&[0u8; 15], BASE), None);
}

#[test]
fn object_name_of_odd_length_drops_the_half_unit() {
    let mut bytes = name_buffer("ab");
    bytes[0] = 3;
    assert_eq!(read_object_name(&bytes, BASE), Some(vec![0x61]));
}
