//! The processes that are being tracked from one scan to the next.

use vstd::prelude::*;
use crate::child::SCRStruct;
use crate::report::{
    invalid_pid_message, invalid_pid_text, is_line_of, terminated_message, terminated_text,
    StringExt,
};

verus! {

/// How an attempt to end one tracked process came out.
#[derive(Debug, Clone, Copy, PartialEq, Eq, Structural)]
pub enum Termination {
    /// The process was opened and ended.
    Terminated,
    /// The process could not be opened: it is no longer there.
    Gone,
    /// The process was opened, but ending it failed.
    Refused,
}

/// The outcome of the attempt to end the process `pid`.
#[derive(Debug, Clone, Copy)]
pub struct KillReport {
    pub pid: u32,
    pub outcome: Termination,
}

impl KillReport {
    /// The report of one attempt: whether the process could be opened, and
    /// whether, once open, it was ended.
    pub fn new(pid: u32, opened: bool, ended: bool) -> (report: Self)
        ensures
            report.pid == pid,
            report.outcome == (if !opened {
                Termination::Gone
            } else if ended {
                Termination::Terminated
            } else {
                Termination::Refused
            }),
    {
        let outcome = if !opened {
            Termination::Gone
        } else if ended {
            Termination::Terminated
        } else {
            Termination::Refused
        };
        KillReport { pid, outcome }
    }
}

/// The children are in strictly ascending order of `pid`.
pub open spec fn ascending(s: Seq<SCRStruct>) -> bool {
    forall|i: int, j: int| 0 <= i < j < s.len() ==> s[i].pid < s[j].pid
}

/// The numbers are in strictly ascending order.
pub open spec fn increasing(s: Seq<u32>) -> bool {
    forall|i: int, j: int| 0 <= i < j < s.len() ==> s[i] < s[j]
}

/// Some child in `s` has this `pid`.
pub open spec fn names(s: Seq<SCRStruct>, pid: u32) -> bool {
    exists|i: int| 0 <= i < s.len() && s[i].pid == pid
}

/// `list` is the table written out: its children stand in ascending order of
/// `pid`, each with the flag that the table holds for it, and none is
/// missing.
pub open spec fn lists(list: Seq<SCRStruct>, table: Map<u32, bool>) -> bool {
    &&& ascending(list)
    &&& forall|i: int|
        0 <= i < list.len() ==> table.contains_key((#[trigger] list[i]).pid) && table[list[i].pid]
            == list[i].is_processed
    &&& forall|pid: u32| table.contains_key(pid) ==> names(list, pid)
}

/// The table with one more child, unless its `pid` is in the table already:
/// a child that is known keeps the flag it has.
pub open spec fn with_child(table: Map<u32, bool>, child: SCRStruct) -> Map<u32, bool> {
    if table.contains_key(child.pid) {
        table
    } else {
        table.insert(child.pid, child.is_processed)
    }
}

/// The table after the children of `found` have been added one by one, first
/// to last.
pub open spec fn merged(table: Map<u32, bool>, found: Seq<SCRStruct>) -> Map<u32, bool>
    decreases found.len(),
{
    if found.len() == 0 {
        table
    } else {
        with_child(merged(table, found.drop_last()), found.last())
    }
}

/// Some report says that the process `pid` is no longer running: it was
/// ended, or it could not be opened.
pub open spec fn reported_ended(reports: Seq<KillReport>, pid: u32) -> bool {
    exists|i: int|
        0 <= i < reports.len() && (#[trigger] reports[i]).pid == pid && reports[i].outcome
            != Termination::Refused
}

/// The processes of which some report says that they are no longer running.
pub open spec fn ended_set(reports: Seq<KillReport>) -> Set<u32> {
    Set::new(|pid: u32| reported_ended(reports, pid))
}

/// Some report says that the process `pid` was ended by the attempt.
pub open spec fn reported_terminated(reports: Seq<KillReport>, pid: u32) -> bool {
    exists|i: int|
        0 <= i < reports.len() && (#[trigger] reports[i]).pid == pid && reports[i].outcome
            == Termination::Terminated
}

/// `lines` holds one log line for each process of `pids`, in the same order,
/// each with the "invalid PID" message of its process.
pub open spec fn invalid_pid_lines(lines: Seq<String>, pids: Seq<u32>) -> bool {
    &&& lines.len() == pids.len()
    &&& forall|i: int|
        0 <= i < pids.len() ==> is_line_of((#[trigger] lines[i])@, invalid_pid_text(pids[i] as nat))
}

/// `lines` holds one log line for each process of `pids`, in the same order,
/// each with the "terminated" message of its process.
pub open spec fn terminated_lines(lines: Seq<String>, pids: Seq<u32>) -> bool {
    &&& lines.len() == pids.len()
    &&& forall|i: int|
        0 <= i < pids.len() ==> is_line_of((#[trigger] lines[i])@, terminated_text(pids[i] as nat))
}

/// Where the child with this `pid` stands in `s`.
spec fn place_of(s: Seq<SCRStruct>, pid: u32) -> int {
    choose|i: int| 0 <= i < s.len() && s[i].pid == pid
}

/// The table that a list of children stands for.
spec fn table_of(s: Seq<SCRStruct>) -> Map<u32, bool> {
    Map::new(|pid: u32| names(s, pid), |pid: u32| s[place_of(s, pid)].is_processed)
}

/// In an ascending list each child is the one the table holds for its `pid`.
proof fn lemma_table_entry(s: Seq<SCRStruct>, i: int)
    requires
        ascending(s),
        0 <= i < s.len(),
    ensures
        names(s, s[i].pid),
        place_of(s, s[i].pid) == i,
        table_of(s).contains_key(s[i].pid),
        table_of(s)[s[i].pid] == s[i].is_processed,
{
    let j = place_of(s, s[i].pid);
    assert(0 <= j < s.len() && s[j].pid == s[i].pid);
    if j < i {
        assert(s[j].pid < s[i].pid);
    }
    if i < j {
        assert(s[i].pid < s[j].pid);
    }
}

/// What a sequence holds once one more item stands at its end.
proof fn lemma_push_contains<T>(s: Seq<T>, x: T)
    ensures
        forall|y: T| s.push(x).contains(y) <==> (s.contains(y) || y == x),
{
    assert forall|y: T| s.push(x).contains(y) <==> (s.contains(y) || y == x) by {
        if s.push(x).contains(y) {
            let i = choose|i: int| 0 <= i < s.push(x).len() && s.push(x)[i] == y;
            if i < s.len() {
                assert(s[i] == y);
            }
        }
        if s.contains(y) {
            let i = choose|i: int| 0 <= i < s.len() && s[i] == y;
            assert(s.push(x)[i] == y);
        }
        if y == x {
            assert(s.push(x)[s.len() as int] == y);
        }
    }
}

/// A child that goes to the end of an ascending list is new to its table.
proof fn lemma_table_push(s: Seq<SCRStruct>, child: SCRStruct)
    requires
        ascending(s.push(child)),
    ensures
        ascending(s),
        !table_of(s).contains_key(child.pid),
        table_of(s.push(child)) == table_of(s).insert(child.pid, child.is_processed),
{
    let t = s.push(child);
    assert(ascending(s)) by {
        assert forall|i: int, j: int| 0 <= i < j < s.len() implies s[i].pid < s[j].pid by {
            assert(t[i].pid < t[j].pid);
        }
    }
    if names(s, child.pid) {
        let k = place_of(s, child.pid);
        assert(t[k].pid < t[s.len() as int].pid);
    }
    assert(table_of(t) =~= table_of(s).insert(child.pid, child.is_processed)) by {
        assert forall|pid: u32| #[trigger]
            table_of(t).contains_key(pid) <==> (pid == child.pid || table_of(s).contains_key(
                pid,
            )) by {
            if names(t, pid) {
                let k = place_of(t, pid);
                if k < s.len() {
                    assert(s[k].pid == pid);
                }
            }
            if names(s, pid) {
                let k = place_of(s, pid);
                assert(t[k].pid == pid);
            }
            if pid == child.pid {
                assert(t[s.len() as int].pid == pid);
            }
        }
        assert forall|pid: u32| #[trigger] table_of(t).contains_key(pid) implies table_of(t)[pid]
            == table_of(s).insert(child.pid, child.is_processed)[pid] by {
            let k = place_of(t, pid);
            lemma_table_entry(t, k);
            if k < s.len() {
                lemma_table_entry(s, k);
            }
        }
    }
}

/// The first `at + 1` children are the first `at` and the one that follows.
proof fn lemma_take_next(all: Seq<SCRStruct>, at: int)
    requires
        ascending(all),
        0 <= at < all.len(),
    ensures
        all.take(at + 1) == all.take(at).push(all[at]),
        ascending(all.take(at + 1)),
{
    assert(all.take(at + 1) =~= all.take(at).push(all[at]));
    let head = all.take(at + 1);
    assert forall|i: int, j: int| 0 <= i < j < head.len() implies head[i].pid < head[j].pid by {
        assert(all[i].pid < all[j].pid);
    }
}

/// What the reports say of a process once one more report is in.
proof fn lemma_reports_push(reports: Seq<KillReport>, last: KillReport, pid: u32)
    ensures
        reported_ended(reports.push(last), pid) <==> (reported_ended(reports, pid) || (last.pid
            == pid && last.outcome != Termination::Refused)),
{
    let more = reports.push(last);
    if reported_ended(more, pid) {
        let i = choose|i: int|
            0 <= i < more.len() && (#[trigger] more[i]).pid == pid && more[i].outcome
                != Termination::Refused;
        if i < reports.len() {
            assert(reports[i] == more[i]);
        }
    }
    if reported_ended(reports, pid) {
        let i = choose|i: int|
            0 <= i < reports.len() && (#[trigger] reports[i]).pid == pid && reports[i].outcome
                != Termination::Refused;
        assert(more[i] == reports[i]);
    }
    if last.pid == pid && last.outcome != Termination::Refused {
        assert(more[reports.len() as int] == last);
    }
}

/// The set of tracked processes, each with the flag that says whether its
/// unlock attempt has been made. A process is in the set once, whatever its
/// flag; the processes are kept in ascending order of `pid`.
#[derive(Debug)]
pub struct ProcessRegistry {
    entries: Vec<SCRStruct>,
}

impl View for ProcessRegistry {
    type V = Map<u32, bool>;

    /// The flag of each tracked process.
    closed spec fn view(&self) -> Map<u32, bool> {
        table_of(self.entries@)
    }
}

impl ProcessRegistry {
    /// The registry's invariant: no process is tracked twice, and the
    /// processes stand in ascending order.
    pub closed spec fn wf(&self) -> bool {
        ascending(self.entries@)
    }

    /// A registry that tracks nothing.
    pub fn new() -> (registry: Self)
        ensures
            registry.wf(),
            registry@ == Map::<u32, bool>::empty(),
    {
        let registry = ProcessRegistry { entries: Vec::new() };
        assert(registry@ =~= Map::<u32, bool>::empty());
        registry
    }

    /// The index of the first child whose `pid` is not below the one given.
    fn lower_bound(&self, pid: u32) -> (at: usize)
        requires
            self.wf(),
        ensures
            at <= self.entries.len(),
            forall|i: int| 0 <= i < at ==> self.entries[i].pid < pid,
            forall|i: int| at <= i < self.entries.len() ==> self.entries[i].pid >= pid,
    {
        let mut at: usize = 0;
        while at < self.entries.len() && self.entries[at].pid < pid
            invariant
                self.wf(),
                at <= self.entries.len(),
                forall|i: int| 0 <= i < at ==> self.entries[i].pid < pid,
            decreases self.entries.len() - at,
        {
            at += 1;
        }
        assert forall|i: int| at <= i < self.entries.len() implies self.entries[i].pid >= pid by {
            if at < i {
                assert(self.entries[at as int].pid < self.entries[i].pid);
            }
        }
        at
    }

    /// Whether the process `pid` is tracked.
    pub fn contains(&self, pid: u32) -> (known: bool)
        requires
            self.wf(),
        ensures
            known == self@.contains_key(pid),
    {
        let at = self.lower_bound(pid);
        if at < self.entries.len() && self.entries[at].pid == pid {
            proof {
                lemma_table_entry(self.entries@, at as int);
            }
            true
        } else {
            false
        }
    }

    /// The flag of the process `pid`, if it is tracked.
    pub fn is_processed(&self, pid: u32) -> (flag: Option<bool>)
        requires
            self.wf(),
        ensures
            flag == (if self@.contains_key(pid) {
                Some(self@[pid])
            } else {
                None
            }),
    {
        let at = self.lower_bound(pid);
        if at < self.entries.len() && self.entries[at].pid == pid {
            proof {
                lemma_table_entry(self.entries@, at as int);
            }
            Some(self.entries[at].is_processed)
        } else {
            None
        }
    }

    /// The tracked children, in ascending order of `pid`.
    pub fn entries(&self) -> (list: Vec<SCRStruct>)
        requires
            self.wf(),
        ensures
            lists(list@, self@),
    {
        let list = self.entries.clone();
        assert(list@ =~= self.entries@);
        assert forall|i: int| 0 <= i < list.len() implies self@.contains_key(
            (#[trigger] list[i]).pid,
        ) && self@[list[i].pid] == list[i].is_processed by {
            lemma_table_entry(self.entries@, i);
        }
        list
    }

    /// The tracked process identifiers, in ascending order.
    pub fn pids(&self) -> (list: Vec<u32>)
        requires
            self.wf(),
        ensures
            increasing(list@),
            forall|pid: u32| list@.contains(pid) <==> self@.contains_key(pid),
    {
        let mut list: Vec<u32> = Vec::new();
        let mut at: usize = 0;
        while at < self.entries.len()
            invariant
                self.wf(),
                at <= self.entries.len(),
                list.len() == at,
                forall|i: int| 0 <= i < at ==> list[i] == self.entries[i].pid,
            decreases self.entries.len() - at,
        {
            list.push(self.entries[at].pid);
            at += 1;
        }
        assert forall|pid: u32| list@.contains(pid) <==> self@.contains_key(pid) by {
            if list@.contains(pid) {
                let i = choose|i: int| 0 <= i < list.len() && list[i] == pid;
                lemma_table_entry(self.entries@, i);
            }
            if self@.contains_key(pid) {
                let i = place_of(self.entries@, pid);
                assert(list[i] == pid);
            }
        }
        list
    }

    /// Starts tracking `child`, unless its process is tracked already: then
    /// nothing changes, and the flag that the registry holds stays. Returns
    /// whether the child was added.
    pub fn insert(&mut self, child: SCRStruct) -> (added: bool)
        requires
            old(self).wf(),
        ensures
            final(self).wf(),
            final(self)@ == with_child(old(self)@, child),
            added == !old(self)@.contains_key(child.pid),
    {
        let at = self.lower_bound(child.pid);
        if at < self.entries.len() && self.entries[at].pid == child.pid {
            proof {
                lemma_table_entry(self.entries@, at as int);
            }
            return false;
        }
        let ghost before = self.entries@;
        self.entries.insert(at, child);
        proof {
            let after = self.entries@;
            assert(after == before.insert(at as int, child));
            assert(ascending(after)) by {
                assert forall|i: int, j: int| 0 <= i < j < after.len() implies after[i].pid
                    < after[j].pid by {
                    let bi = if i < at { i } else { i - 1 };
                    let bj = if j < at { j } else { j - 1 };
                    if i != at && j != at {
                        assert(before[bi].pid < before[bj].pid);
                    }
                }
            }
            assert(!names(before, child.pid)) by {
                if names(before, child.pid) {
                    let k = place_of(before, child.pid);
                    assert(before[k].pid == child.pid);
                }
            }
            assert(table_of(after) =~= table_of(before).insert(child.pid, child.is_processed)) by {
                assert forall|pid: u32| #[trigger]
                    table_of(after).contains_key(pid) <==> (pid == child.pid || table_of(
                        before,
                    ).contains_key(pid)) by {
                    if names(after, pid) {
                        let k = place_of(after, pid);
                        if k < at {
                            assert(before[k].pid == pid);
                        } else if k > at {
                            assert(before[k - 1].pid == pid);
                        }
                    }
                    if names(before, pid) {
                        let k = place_of(before, pid);
                        if k < at {
                            assert(after[k].pid == pid);
                        } else {
                            assert(after[k + 1].pid == pid);
                        }
                    }
                    if pid == child.pid {
                        assert(after[at as int].pid == pid);
                    }
                }
                let wanted = table_of(before).insert(child.pid, child.is_processed);
                assert forall|pid: u32| #[trigger]
                    table_of(after).contains_key(pid) implies table_of(after)[pid]
                    == wanted[pid] by {
                    let k = place_of(after, pid);
                    lemma_table_entry(after, k);
                    if k < at {
                        lemma_table_entry(before, k);
                    } else if k > at {
                        lemma_table_entry(before, k - 1);
                    }
                }
            }
        }
        true
    }

    /// Adds the children of a scan to the tracked ones. A process that is
    /// tracked already keeps its flag: finding it again does not undo that
    /// its unlock attempt was made.
    pub fn merge(&mut self, new_entries: &Vec<SCRStruct>)
        requires
            old(self).wf(),
        ensures
            final(self).wf(),
            final(self)@ == merged(old(self)@, new_entries@),
    {
        let mut at: usize = 0;
        while at < new_entries.len()
            invariant
                self.wf(),
                at <= new_entries.len(),
                self@ == merged(old(self)@, new_entries@.take(at as int)),
            decreases new_entries.len() - at,
        {
            assert(new_entries@.take(at + 1).drop_last() =~= new_entries@.take(at as int));
            self.insert(new_entries[at]);
            at += 1;
        }
        assert(new_entries@.take(at as int) =~= new_entries@);
    }

    /// Stops tracking the processes of `drop`. Returns those that were
    /// tracked, in ascending order.
    fn remove_listed(&mut self, drop: &Vec<u32>) -> (removed: Vec<u32>)
        requires
            old(self).wf(),
        ensures
            final(self).wf(),
            final(self)@ == old(self)@.remove_keys(drop@.to_set()),
            increasing(removed@),
            forall|pid: u32|
                removed@.contains(pid) <==> (old(self)@.contains_key(pid) && drop@.contains(pid)),
    {
        let mut kept: Vec<SCRStruct> = Vec::new();
        let mut removed: Vec<u32> = Vec::new();
        let mut at: usize = 0;
        let ghost all = self.entries@;
        let ghost gone = drop@.to_set();
        assert(table_of(kept@) =~= table_of(all.take(0)).remove_keys(gone));
        while at < self.entries.len()
            invariant
                self.entries@ == all,
                gone == drop@.to_set(),
                ascending(all),
                at <= all.len(),
                ascending(kept@),
                increasing(removed@),
                forall|i: int, j: int|
                    0 <= i < kept.len() && at <= j < all.len() ==> kept[i].pid < all[j].pid,
                forall|i: int, j: int|
                    0 <= i < removed.len() && at <= j < all.len() ==> removed[i] < all[j].pid,
                table_of(kept@) == table_of(all.take(at as int)).remove_keys(gone),
                forall|pid: u32|
                    removed@.contains(pid) <==> (table_of(all.take(at as int)).contains_key(pid)
                        && drop@.contains(pid)),
            decreases all.len() - at,
        {
            let child = self.entries[at];
            let ghost seen = all.take(at as int);
            let ghost kept_before = kept@;
            let ghost removed_before = removed@;
            proof {
                lemma_take_next(all, at as int);
                lemma_table_push(seen, child);
                assert forall|j: int| at < j < all.len() implies all[at as int].pid
                    < all[j].pid by {}
            }
            if contains_pid(drop, child.pid) {
                removed.push(child.pid);
                proof {
                    lemma_push_contains(removed_before, child.pid);
                    assert(table_of(kept@) =~= table_of(seen.push(child)).remove_keys(gone));
                }
            } else {
                kept.push(child);
                proof {
                    assert(ascending(kept@));
                    lemma_table_push(kept_before, child);
                    assert(table_of(kept@) =~= table_of(seen.push(child)).remove_keys(gone));
                }
            }
            proof {
                let more = seen.push(child);
                assert forall|pid: u32|
                    removed@.contains(pid) <==> (table_of(more).contains_key(pid) && drop@.contains(
                        pid,
                    )) by {
                    assert(removed_before.contains(pid) <==> (table_of(seen).contains_key(pid)
                        && drop@.contains(pid)));
                    assert(table_of(more).contains_key(pid) <==> (pid == child.pid || table_of(
                        seen,
                    ).contains_key(pid)));
                }
            }
            at += 1;
        }
        assert(all.take(at as int) =~= all);
        self.entries = kept;
        removed
    }

    /// Stops tracking each process of `gone`: the tracked processes that can
    /// no longer be opened. Returns one "invalid PID" log line for each
    /// process that was tracked and is in `gone`, in ascending order of `pid`.
    pub fn prune(&mut self, gone: &Vec<u32>) -> (lines: Vec<String>)
        requires
            old(self).wf(),
        ensures
            final(self).wf(),
            final(self)@ == old(self)@.remove_keys(gone@.to_set()),
            exists|removed: Seq<u32>|
                {
                    &&& increasing(removed)
                    &&& forall|pid: u32|
                        removed.contains(pid) <==> (old(self)@.contains_key(pid) && gone@.contains(
                            pid,
                        ))
                    &&& invalid_pid_lines(lines@, removed)
                },
    {
        let removed = self.remove_listed(gone);
        let mut lines: Vec<String> = Vec::new();
        let mut at: usize = 0;
        while at < removed.len()
            invariant
                at <= removed.len(),
                invalid_pid_lines(lines@, removed@.take(at as int)),
            decreases removed.len() - at,
        {
            let message = invalid_pid_message(removed[at]);
            lines.push(message.as_str().as_log());
            at += 1;
        }
        assert(removed@.take(at as int) =~= removed@);
        lines
    }

    /// Hands out the processes whose unlock attempt has not been made, in
    /// ascending order, and flags every tracked process as processed: the
    /// attempt is made once for each process, whatever comes of it.
    pub fn take_unprocessed(&mut self) -> (pending: Vec<u32>)
        requires
            old(self).wf(),
        ensures
            final(self).wf(),
            final(self)@.dom() == old(self)@.dom(),
            forall|pid: u32| final(self)@.contains_key(pid) ==> final(self)@[pid],
            increasing(pending@),
            forall|pid: u32|
                pending@.contains(pid) <==> (old(self)@.contains_key(pid) && !old(self)@[pid]),
    {
        let mut pending: Vec<u32> = Vec::new();
        let mut marked: Vec<SCRStruct> = Vec::new();
        let mut at: usize = 0;
        let ghost all = self.entries@;
        assert(table_of(marked@).dom() =~= table_of(all.take(0)).dom());
        while at < self.entries.len()
            invariant
                self.entries@ == all,
                ascending(all),
                at <= all.len(),
                ascending(marked@),
                increasing(pending@),
                forall|i: int, j: int|
                    0 <= i < marked.len() && at <= j < all.len() ==> marked[i].pid < all[j].pid,
                forall|i: int, j: int|
                    0 <= i < pending.len() && at <= j < all.len() ==> pending[i] < all[j].pid,
                table_of(marked@).dom() == table_of(all.take(at as int)).dom(),
                forall|pid: u32| table_of(marked@).contains_key(pid) ==> table_of(marked@)[pid],
                forall|pid: u32|
                    pending@.contains(pid) <==> (table_of(all.take(at as int)).contains_key(pid)
                        && !table_of(all.take(at as int))[pid]),
            decreases all.len() - at,
        {
            let child = self.entries[at];
            let ghost seen = all.take(at as int);
            let ghost marked_before = marked@;
            let ghost pending_before = pending@;
            let done = SCRStruct { pid: child.pid, is_processed: true };
            proof {
                lemma_take_next(all, at as int);
                lemma_table_push(seen, child);
                assert forall|j: int| at < j < all.len() implies all[at as int].pid
                    < all[j].pid by {}
                lemma_push_contains(pending_before, child.pid);
            }
            if !child.is_processed {
                pending.push(child.pid);
            }
            marked.push(done);
            proof {
                assert(ascending(marked@));
                lemma_table_push(marked_before, done);
                assert(table_of(marked@).dom() =~= table_of(seen.push(child)).dom());
                let more = seen.push(child);
                assert forall|pid: u32|
                    pending@.contains(pid) <==> (table_of(more).contains_key(pid) && !table_of(
                        more,
                    )[pid]) by {
                    assert(pending_before.contains(pid) <==> (table_of(seen).contains_key(pid)
                        && !table_of(seen)[pid]));
                    assert(table_of(more).contains_key(pid) <==> (pid == child.pid || table_of(
                        seen,
                    ).contains_key(pid)));
                    if pid != child.pid {
                        assert(table_of(more)[pid] == table_of(seen)[pid]);
                    } else {
                        assert(table_of(more)[pid] == child.is_processed);
                    }
                }
            }
            at += 1;
        }
        assert(all.take(at as int) =~= all);
        self.entries = marked;
        pending
    }

    /// Takes in the outcome of an attempt to end every tracked process. A
    /// process that was ended is no longer tracked, and neither is one that
    /// could not be opened; one whose ending failed stays. Returns one
    /// "terminated" log line for each tracked process that was ended, in
    /// ascending order of `pid`.
    pub fn terminate_all(&mut self, reports: &Vec<KillReport>) -> (lines: Vec<String>)
        requires
            old(self).wf(),
        ensures
            final(self).wf(),
            final(self)@ == old(self)@.remove_keys(ended_set(reports@)),
            exists|ended: Seq<u32>|
                {
                    &&& increasing(ended)
                    &&& forall|pid: u32|
                        ended.contains(pid) <==> (old(self)@.contains_key(pid)
                            && reported_terminated(reports@, pid))
                    &&& terminated_lines(lines@, ended)
                },
    {
        let mut drop: Vec<u32> = Vec::new();
        let mut at: usize = 0;
        while at < reports.len()
            invariant
                at <= reports.len(),
                forall|pid: u32|
                    drop@.contains(pid) <==> reported_ended(reports@.take(at as int), pid),
            decreases reports.len() - at,
        {
            let report = reports[at];
            let ghost seen = reports@.take(at as int);
            let ghost before = drop@;
            if !matches!(report.outcome, Termination::Refused) {
                drop.push(report.pid);
            }
            proof {
                assert(reports@.take(at + 1) =~= seen.push(report));
                lemma_push_contains(before, report.pid);
                assert forall|pid: u32|
                    drop@.contains(pid) <==> reported_ended(seen.push(report), pid) by {
                    lemma_reports_push(seen, report, pid);
                    assert(before.contains(pid) <==> reported_ended(seen, pid));
                }
            }
            at += 1;
        }
        assert(reports@.take(at as int) =~= reports@);
        assert(drop@.to_set() =~= ended_set(reports@));
        let removed = self.remove_listed(&drop);
        let mut lines: Vec<String> = Vec::new();
        let ghost mut ended: Seq<u32> = Seq::empty();
        let mut next: usize = 0;
        while next < removed.len()
            invariant
                next <= removed.len(),
                increasing(removed@),
                increasing(ended),
                terminated_lines(lines@, ended),
                forall|i: int, j: int|
                    0 <= i < ended.len() && next <= j < removed.len() ==> ended[i] < removed[j],
                forall|pid: u32|
                    ended.contains(pid) <==> (removed@.take(next as int).contains(pid)
                        && reported_terminated(reports@, pid)),
            decreases removed.len() - next,
        {
            let pid = removed[next];
            let ghost seen = removed@.take(next as int);
            let ghost ended_before = ended;
            let ghost lines_before = lines@;
            proof {
                assert(removed@.take(next + 1) =~= seen.push(pid));
                lemma_push_contains(seen, pid);
                lemma_push_contains(ended_before, pid);
                assert forall|j: int| next < j < removed.len() implies removed[next as int]
                    < removed[j] by {}
            }
            if has_terminated(reports, pid) {
                let message = terminated_message(pid);
                lines.push(message.as_str().as_log());
                proof {
                    ended = ended.push(pid);
                    assert forall|i: int| 0 <= i < ended.len() implies is_line_of(
                        (#[trigger] lines@[i])@,
                        terminated_text(ended[i] as nat),
                    ) by {
                        if i < ended_before.len() {
                            assert(lines@[i] == lines_before[i]);
                        }
                    }
                }
            }
            proof {
                assert forall|q: u32|
                    ended.contains(q) <==> (seen.push(pid).contains(q) && reported_terminated(
                        reports@,
                        q,
                    )) by {
                    assert(ended_before.contains(q) <==> (seen.contains(q) && reported_terminated(
                        reports@,
                        q,
                    )));
                }
            }
            next += 1;
        }
        proof {
            assert(removed@.take(next as int) =~= removed@);
            assert forall|pid: u32|
                ended.contains(pid) <==> (old(self)@.contains_key(pid) && reported_terminated(
                    reports@,
                    pid,
                )) by {
                if reported_terminated(reports@, pid) {
                    assert(reported_ended(reports@, pid));
                    assert(drop@.to_set().contains(pid));
                }
            }
        }
        lines
    }
}

impl Default for ProcessRegistry {
    fn default() -> (registry: Self)
        ensures
            registry.wf(),
            registry@ == Map::<u32, bool>::empty(),
    {
        ProcessRegistry::new()
    }
}

/// Merging tracks exactly the processes that were tracked or are among the
/// children merged in.
pub proof fn lemma_merge_tracks(table: Map<u32, bool>, found: Seq<SCRStruct>, pid: u32)
    ensures
        merged(table, found).contains_key(pid) <==> (table.contains_key(pid) || names(found, pid)),
    decreases found.len(),
{
    if found.len() > 0 {
        let head = found.drop_last();
        lemma_merge_tracks(table, head, pid);
        if names(found, pid) {
            let i = choose|i: int| 0 <= i < found.len() && found[i].pid == pid;
            if i < head.len() {
                assert(head[i].pid == pid);
            }
        }
        if names(head, pid) {
            let i = choose|i: int| 0 <= i < head.len() && head[i].pid == pid;
            assert(found[i].pid == pid);
        }
        if found.last().pid == pid {
            assert(found[found.len() - 1].pid == pid);
        }
    } else {
        if names(found, pid) {
            let i = choose|i: int| 0 <= i < found.len() && found[i].pid == pid;
        }
    }
}

/// Merging never changes the flag of a process that is tracked already: a
/// process whose unlock attempt was made is not set back to unprocessed when
/// a scan finds it again.
pub proof fn lemma_merge_keeps_flag(table: Map<u32, bool>, found: Seq<SCRStruct>, pid: u32)
    requires
        table.contains_key(pid),
    ensures
        merged(table, found).contains_key(pid),
        merged(table, found)[pid] == table[pid],
    decreases found.len(),
{
    if found.len() > 0 {
        lemma_merge_keeps_flag(table, found.drop_last(), pid);
    }
}

/// Merging the same children a second time changes nothing.
pub proof fn lemma_merge_twice(table: Map<u32, bool>, found: Seq<SCRStruct>)
    ensures
        merged(merged(table, found), found) == merged(table, found),
{
    let all = merged(table, found);
    assert forall|i: int| 0 <= i < found.len() implies all.contains_key(
        #[trigger] found[i].pid,
    ) by {
        lemma_merge_tracks(table, found, found[i].pid);
    }
    lemma_merge_known(all, found);
}

/// Merging children whose processes are all tracked changes nothing.
pub proof fn lemma_merge_known(table: Map<u32, bool>, found: Seq<SCRStruct>)
    requires
        forall|i: int| 0 <= i < found.len() ==> table.contains_key(#[trigger] found[i].pid),
    ensures
        merged(table, found) == table,
    decreases found.len(),
{
    if found.len() > 0 {
        let head = found.drop_last();
        assert forall|i: int| 0 <= i < head.len() implies table.contains_key(
            #[trigger] head[i].pid,
        ) by {
            assert(head[i] == found[i]);
        }
        lemma_merge_known(table, head);
        assert(table.contains_key(found[found.len() - 1].pid));
    }
}

/// Whether `pid` is in the list.
fn contains_pid(list: &Vec<u32>, pid: u32) -> (found: bool)
    ensures
        found == list@.contains(pid),
{
    let mut at: usize = 0;
    while at < list.len()
        invariant
            at <= list.len(),
            forall|i: int| 0 <= i < at ==> list[i] != pid,
        decreases list.len() - at,
    {
        if list[at] == pid {
            return true;
        }
        at += 1;
    }
    false
}

/// Whether some report says that the process `pid` was ended.
fn has_terminated(reports: &Vec<KillReport>, pid: u32) -> (found: bool)
    ensures
        found == reported_terminated(reports@, pid),
{
    let mut at: usize = 0;
    while at < reports.len()
        invariant
            at <= reports.len(),
            forall|i: int|
                0 <= i < at ==> !((#[trigger] reports[i]).pid == pid && reports[i].outcome
                    == Termination::Terminated),
        decreases reports.len() - at,
    {
        let report = reports[at];
        if report.pid == pid && matches!(report.outcome, Termination::Terminated) {
            return true;
        }
        at += 1;
    }
    false
}

} // verus!
