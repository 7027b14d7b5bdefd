use scr_launcher::child::SCRStruct;
use scr_launcher::registry::{KillReport, ProcessRegistry, Termination};

fn child(pid: u32, is_processed: bool) -> SCRStruct {
    SCRStruct { pid, is_processed }
}

fn flags(registry: &ProcessRegistry) -> Vec<(u32, bool)> {
    registry.entries().iter().map(|c| (c.pid, c.is_processed)).collect()
}

#[test]
fn new_registry_is_empty() {
    let registry = ProcessRegistry::new();
    assert!(registry.entries().is_empty());
    assert!(registry.pids().is_empty());
    assert!(!registry.contains(1));
    assert_eq!(registry.is_processed(1), None);
}

#[test]
fn insert_keeps_ascending_order() {
    let mut registry = ProcessRegistry::new();
    assert!(registry.insert(child(30, false)));
    assert!(registry.insert(child(10, true)));
    assert!(registry.insert(child(20, false)));
    assert_eq!(flags(&registry), vec![(10, true), (20, false), (30, false)]);
    assert_eq!(registry.pids(), vec![10, 20, 30]);
    assert!(registry.contains(20));
    assert_eq!(registry.is_processed(10), Some(true));
    assert_eq!(registry.is_processed(20), Some(false));
}

#[test]
fn insert_of_a_known_pid_changes_nothing() {
    let mut registry = ProcessRegistry::new();
    assert!(registry.insert(child(10, true)));
    assert!(!registry.insert(child(10, false)));
    assert_eq!(flags(&registry), vec![(10, true)]);
}

#[test]
fn merge_does_not_reset_a_processed_entry() {
    let mut registry = ProcessRegistry::new();
    registry.merge(&vec![SCRStruct::new(77)]);
    assert_eq!(registry.is_processed(77), Some(false));
    let pending = registry.take_unprocessed();
    assert_eq!(pending, vec![77]);
    assert_eq!(registry.is_processed(77), Some(true));
    registry.merge(&vec![SCRStruct::new(77)]);
    assert_eq!(registry.is_processed(77), Some(true));
    registry.merge(&vec![SCRStruct::new(77)]);
    assert_eq!(flags(&registry), vec![(77, true)]);
}

#[test]
fn merge_twice_is_merge_once() {
    let found = vec![child(3, false), child(1, true), child(3, true), child(2, false)];
    let mut once = ProcessRegistry::new();
    once.insert(child(2, true));
    once.merge(&found);
    let mut twice = ProcessRegistry::new();
    twice.insert(child(2, true));
    twice.merge(&found);
    twice.merge(&found);
    assert_eq!(flags(&once), vec![(1, true), (2, true), (3, false)]);
    assert_eq!(flags(&twice), flags(&once));
}

#[test]
fn merge_of_nothing_changes_nothing() {
    let mut registry = ProcessRegistry::new();
    registry.insert(child(5, true));
    registry.merge(&Vec::new());
    assert_eq!(flags(&registry), vec![(5, true)]);
}

#[test]
fn prune_removes_exited_process_and_logs_once() {
    let mut registry = ProcessRegistry::new();
    registry.merge(&vec![child(10, true), child(20, true), child(30, false)]);
    let lines = registry.prune(&vec![20]);
    assert_eq!(flags(&registry), vec![(10, true), (30, false)]);
    assert_eq!(lines.len(), 1);
    assert!(lines[0].ends_with("] Invalid PID: 20"));
    assert!(lines[0].starts_with('['));
    let again = registry.prune(&vec![20]);
    assert!(again.is_empty());
    assert_eq!(flags(&registry), vec![(10, true), (30, false)]);
}

#[test]
fn prune_ignores_unknown_and_repeated_pids() {
    let mut registry = ProcessRegistry::new();
    registry.merge(&vec![child(1, true), child(2, true), child(3, true)]);
    let lines = registry.prune(&vec![3, 99, 1, 3]);
    assert_eq!(flags(&registry), vec![(2, true)]);
    assert_eq!(lines.len(), 2);
    assert!(lines[0].ends_with("] Invalid PID: 1"));
    assert!(lines[1].ends_with("] Invalid PID: 3"));
}

#[test]
fn prune_of_nothing_changes_nothing() {
    let mut registry = ProcessRegistry::new();
    registry.insert(child(1, false));
    assert!(registry.prune(&Vec::new()).is_empty());
    assert_eq!(flags(&registry), vec![(1, false)]);
}

#[test]
fn take_unprocessed_hands_out_each_pid_once() {
    let mut registry = ProcessRegistry::new();
    registry.merge(&vec![child(4, false), child(2, true), child(9, false)]);
    assert_eq!(registry.take_unprocessed(), vec![4, 9]);
    assert_eq!(flags(&registry), vec![(2, true), (4, true), (9, true)]);
    assert!(registry.take_unprocessed().is_empty());
}

#[test]
fn terminate_all_drops_ended_and_missing_and_keeps_refused() {
    let mut registry = ProcessRegistry::new();
    registry.merge(&vec![child(1, true), child(2, true), child(3, false), child(4, true)]);
    let reports = vec![
        KillReport { pid: 1, outcome: Termination::Terminated },
        KillReport { pid: 2, outcome: Termination::Gone },
        KillReport { pid: 3, outcome: Termination::Refused },
    ];
    let lines = registry.terminate_all(&reports);
    assert_eq!(flags(&registry), vec![(3, false), (4, true)]);
    assert_eq!(lines.len(), 1);
    assert!(lines[0].ends_with("] Successfully terminated process wid PID 1"));
}

#[test]
fn terminate_all_logs_in_ascending_order_of_pid() {
    let mut registry = ProcessRegistry::new();
    registry.merge(&vec![child(8, true), child(5, true)]);
    let reports = vec![
        KillReport { pid: 8, outcome: Termination::Terminated },
        KillReport { pid: 5, outcome: Termination::Terminated },
        KillReport { pid: 6, outcome: Termination::Terminated },
    ];
    let lines = registry.terminate_all(&reports);
    assert!(registry.entries().is_empty());
    assert_eq!(lines.len(), 2);
    assert!(lines[0].ends_with("PID 5"));
    assert!(lines[1].ends_with("PID 8"));
}

#[test]
fn default_registry_is_empty() {
    let registry = ProcessRegistry::default();
    assert!(registry.pids().is_empty());
}

#[test]
fn kill_report_tells_the_three_outcomes_apart() {
    assert_eq!(KillReport::new(4, true, true).outcome, Termination::Terminated);
    assert_eq!(KillReport::new(4, true, false).outcome, Termination::Refused);
    assert_eq!(KillReport::new(4, false, false).outcome, Termination::Gone);
    assert_eq!(KillReport::new(4, false, true).outcome, Termination::Gone);
    assert_eq!(KillReport::new(4, true, true).pid, 4);
}
