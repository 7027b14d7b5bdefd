use scr_launcher::child::SCRStruct;
use scr_launcher::cycle::{check_and_unlock, check_processes};
use scr_launcher::inspect::{inspect_with, Action, Event};
use scr_launcher::scan::process_handles;
use std::cell::RefCell;

fn child(pid: u32, is_processed: bool) -> SCRStruct {
    SCRStruct { pid, is_processed }
}

fn flags(childs: &[SCRStruct]) -> Vec<(u32, bool)> {
    childs.iter().map(|c| (c.pid, c.is_processed)).collect()
}

#[test]
fn scan_inspects_each_new_process_once() {
    let probed = RefCell::new(Vec::new());
    let inspected = RefCell::new(Vec::new());
    let (childs, lines) = check_processes(
        vec![child(10, true)],
        vec![SCRStruct::new(30), SCRStruct::new(10), SCRStruct::new(20)],
        |pid| {
            probed.borrow_mut().push(pid);
            true
        },
        |pid| {
            inspected.borrow_mut().push(pid);
            if pid == 20 {
                Some(format!("[00:00:00.000] unlocked {}", pid))
            } else {
                None
            }
        },
    );
    assert_eq!(*probed.borrow(), vec![10, 20, 30]);
    assert_eq!(*inspected.borrow(), vec![20, 30]);
    assert_eq!(flags(&childs), vec![(10, true), (20, true), (30, true)]);
    assert_eq!(lines, vec!["[00:00:00.000] unlocked 20"]);
}

#[test]
fn second_scan_does_not_inspect_again() {
    let inspected = RefCell::new(0u32);
    let (childs, _) = check_processes(
        Vec::new(),
        vec![SCRStruct::new(7)],
        |_| true,
        |_| {
            *inspected.borrow_mut() += 1;
            None
        },
    );
    assert_eq!(flags(&childs), vec![(7, true)]);
    let (childs, lines) = check_processes(
        childs,
        vec![SCRStruct::new(7)],
        |_| true,
        |_| {
            *inspected.borrow_mut() += 1;
            None
        },
    );
    assert_eq!(*inspected.borrow(), 1);
    assert_eq!(flags(&childs), vec![(7, true)]);
    assert!(lines.is_empty());
}

#[test]
fn scan_drops_exited_process_with_one_line() {
    let (childs, lines) = check_processes(
        vec![child(10, true), child(20, true)],
        Vec::new(),
        |pid| pid != 10,
        |_| panic!("nothing is to be inspected"),
    );
    assert_eq!(flags(&childs), vec![(20, true)]);
    assert_eq!(lines.len(), 1);
    assert!(lines[0].ends_with("] Invalid PID: 10"));
    let (childs, lines) = check_processes(childs, Vec::new(), |pid| pid != 10, |_| None);
    assert_eq!(flags(&childs), vec![(20, true)]);
    assert!(lines.is_empty());
}

#[test]
fn scan_does_not_inspect_a_process_that_is_gone() {
    let (childs, lines) = check_processes(
        Vec::new(),
        vec![SCRStruct::new(5), SCRStruct::new(6)],
        |pid| pid == 6,
        |pid| {
            assert_eq!(pid, 6);
            Some("line".to_string())
        },
    );
    assert_eq!(flags(&childs), vec![(6, true)]);
    assert_eq!(lines.len(), 2);
    assert!(lines[0].ends_with("] Invalid PID: 5"));
    assert_eq!(lines[1], "line");
}

#[test]
fn scan_of_nothing_gives_nothing() {
    let (childs, lines) =
        check_processes(Vec::new(), Vec::new(), |_| panic!("no probe"), |_| panic!("no look"));
    assert!(childs.is_empty());
    assert!(lines.is_empty());
}

const BASE: u64 = 0x4000_0000;
const LOCK: &str = "\\BaseNamedObjects\\Starcraft Check For Other Instances";

fn process_list(records: &[(u64, &str)]) -> Vec<u8> {
    let mut list = Vec::new();
    for (i, (pid, name)) in records.iter().enumerate() {
        let units: Vec<u16> = name.encode_utf16().collect();
        let at = list.len();
        let size = (88 + 2 * units.len() + 2 + 7) / 8 * 8;
        list.resize(at + size, 0);
        let next = if i + 1 == records.len() { 0u32 } else { size as u32 };
        list[at..at + 4].copy_from_slice(&next.to_le_bytes());
        list[at + 56..at + 58].copy_from_slice(&((2 * units.len()) as u16).to_le_bytes());
        list[at + 64..at + 72].copy_from_slice(&(BASE + (at + 88) as u64).to_le_bytes());
        list[at + 80..at + 88].copy_from_slice(&pid.to_le_bytes());
        for (k, unit) in units.iter().enumerate() {
            list[at + 88 + 2 * k..at + 90 + 2 * k].copy_from_slice(&unit.to_le_bytes());
        }
    }
    list
}

fn handle_table(values: &[u64]) -> Vec<u8> {
    let mut bytes = Vec::new();
    bytes.extend_from_slice(&(values.len() as u64).to_le_bytes());
    bytes.extend_from_slice(&0u64.to_le_bytes());
    for value in values {
        bytes.extend_from_slice(&value.to_le_bytes());
        bytes.extend_from_slice(&[0u8; 32]);
    }
    bytes
}

fn name_buffer(name: &str) -> Vec<u8> {
    let units: Vec<u16> = name.encode_utf16().collect();
    let mut bytes = Vec::new();
    bytes.extend_from_slice(&((2 * units.len()) as u16).to_le_bytes());
    bytes.extend_from_slice(&[0u8; 6]);
    bytes.extend_from_slice(&(BASE + 16).to_le_bytes());
    for unit in units {
        bytes.extend_from_slice(&unit.to_le_bytes());
    }
    bytes
}

#[test]
fn end_to_end_scan_unlocks_the_target_and_marks_it_processed() {
    let list = process_list(&[(4, "System"), (1234, "StarCraft.exe"), (60, "other.exe")]);
    let names = vec![(4u64, "\\KnownDlls"), (8, "\\Device\\Null"), (0x1c4, LOCK), (0x200, "")];
    let table = RefCell::new(names);
    let copies: RefCell<Vec<(u64, u64)>> = RefCell::new(Vec::new());
    let table_queries = RefCell::new(0u32);
    let perform = |action: Action| -> Event {
        match action {
            Action::OpenProcess { pid } => Event::Opened(if pid == 1234 { Some(0x900) } else { None }),
            Action::QueryHandles { .. } => {
                *table_queries.borrow_mut() += 1;
                let values: Vec<u64> = table.borrow().iter().map(|(value, _)| *value).collect();
                Event::Handles(Ok(handle_table(&values)))
            }
            Action::Duplicate { source, .. } => {
                let own = 0xA00 + source;
                copies.borrow_mut().push((own, source));
                Event::Duplicated(Some(own))
            }
            Action::QueryName { handle } => {
                let source = copies.borrow().iter().find(|(own, _)| *own == handle).unwrap().1;
                let name = table.borrow().iter().find(|(value, _)| *value == source).unwrap().1;
                Event::Named { name: Ok(name_buffer(name)), base: BASE }
            }
            Action::Close { .. } => Event::Closed(true),
            Action::TakeOver { source, .. } => {
                table.borrow_mut().retain(|(value, _)| *value != source);
                Event::TakenOver(Some(0xB00))
            }
            Action::Finish { .. } => panic!("nothing is to be done after the end"),
        }
    };
    let found = process_handles(&Ok(list.clone()), BASE);
    let (childs, lines) = check_and_unlock(Vec::new(), found, |pid| pid == 1234, &perform);
    assert_eq!(flags(&childs), vec![(1234, true)]);
    assert_eq!(lines.len(), 1);
    assert!(lines[0].ends_with("] Closed HANDLE(0x1c4) for StarCraft.exe (PID: 1234)"));
    assert_eq!(table.borrow().len(), 3);
    assert_eq!(*table_queries.borrow(), 1);

    let found = process_handles(&Ok(list.clone()), BASE);
    let (childs, lines) = check_and_unlock(childs, found, |pid| pid == 1234, &perform);
    assert_eq!(flags(&childs), vec![(1234, true)]);
    assert!(lines.is_empty());
    assert_eq!(*table_queries.borrow(), 1);
}

#[test]
fn scan_with_the_library_s_inspection_agrees_with_one_that_is_handed_in() {
    let perform = |action: Action| -> Event {
        match action {
            Action::OpenProcess { pid } => Event::Opened(if pid == 7 { Some(0x40) } else { None }),
            Action::QueryHandles { .. } => Event::Handles(Ok(handle_table(&[0x1c4]))),
            Action::Duplicate { .. } => Event::Duplicated(Some(0x44)),
            Action::QueryName { .. } => Event::Named { name: Ok(name_buffer(LOCK)), base: BASE },
            Action::Close { handle } => Event::Closed(handle != 0x48),
            Action::TakeOver { .. } => Event::TakenOver(Some(0x48)),
            Action::Finish { .. } => panic!("nothing is to be done after the end"),
        }
    };
    let found = vec![SCRStruct::new(7), SCRStruct::new(8)];
    let (childs, lines) = check_and_unlock(Vec::new(), found.clone(), |_| true, &perform);
    let (same_childs, same_lines) =
        check_processes(Vec::new(), found, |_| true, |pid| inspect_with(pid, None, &perform));
    assert_eq!(flags(&childs), vec![(7, true), (8, true)]);
    assert_eq!(flags(&same_childs), flags(&childs));
    assert_eq!(lines.len(), 1);
    assert!(lines[0].ends_with("] Failed to close HANDLE(0x1c4) taken from StarCraft.exe (PID: 7)"));
    assert_eq!(same_lines.len(), 1);
    assert_eq!(same_lines[0][14..], lines[0][14..]);
}
