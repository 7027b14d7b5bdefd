//! One scan: the children found are merged with the tracked ones, the
//! processes that are gone are dropped, and each process that has not been
//! inspected is inspected, once.

use vstd::prelude::*;
use crate::child::SCRStruct;
use crate::handles::HandleRecord;
use crate::inspect::{
    begun, conducted, inspect_with, inspected_by, lemma_inspection_yields_closed_line, tells,
    well_answered, Action, Event, Outcome,
};
use crate::logbook::texts;
use crate::registry::{increasing, invalid_pid_lines, lists, merged, names, ProcessRegistry};

verus! {

/// The table in which every process is flagged as processed.
pub open spec fn all_processed(table: Map<u32, bool>) -> Map<u32, bool> {
    Map::new(|pid: u32| table.contains_key(pid), |pid: u32| true)
}

/// The lines among the answers of the inspections, in their order.
pub open spec fn lines_of(answers: Seq<Option<String>>) -> Seq<Seq<char>>
    decreases answers.len(),
{
    if answers.len() == 0 {
        Seq::empty()
    } else {
        match answers.last() {
            Some(line) => lines_of(answers.drop_last()).push(line@),
            None => lines_of(answers.drop_last()),
        }
    }
}

/// What a scan has done.
pub struct Scan {
    /// The processes that could not be opened.
    pub gone: Set<u32>,
    /// The tracked processes among them, in ascending order.
    pub removed: Seq<u32>,
    /// The log lines for the processes removed.
    pub removals: Seq<String>,
    /// The processes that were inspected, in ascending order.
    pub inspected: Seq<u32>,
    /// What the inspection of each of them gave back.
    pub answers: Seq<Option<String>>,
}

/// What a scan has done with the children: `scan` starts from the children
/// `known`, finds the children `found`, and ends with the children `childs`
/// and the log lines `lines`.
///
/// The known children and then the found ones are merged, so that a
/// process that was known keeps its flag. The processes that could not be
/// opened are dropped, with one "invalid PID" line each. Of the processes
/// left, those not yet processed were inspected, in ascending order, and
/// every process left is flagged as processed. The lines are those of the
/// removals, then those that the inspections gave back.
pub open spec fn settles(
    scan: Scan,
    known: Seq<SCRStruct>,
    found: Seq<SCRStruct>,
    childs: Seq<SCRStruct>,
    lines: Seq<String>,
) -> bool {
    let all = merged(merged(Map::empty(), known), found);
    let kept = all.remove_keys(scan.gone);
    &&& increasing(scan.removed)
    &&& forall|pid: u32|
        scan.removed.contains(pid) <==> (all.contains_key(pid) && scan.gone.contains(pid))
    &&& invalid_pid_lines(scan.removals, scan.removed)
    &&& increasing(scan.inspected)
    &&& forall|pid: u32| scan.inspected.contains(pid) <==> (kept.contains_key(pid) && !kept[pid])
    &&& scan.answers.len() == scan.inspected.len()
    &&& lists(childs, all_processed(kept))
    &&& texts(lines) == texts(scan.removals) + lines_of(scan.answers)
}

/// `can_open` was asked of every process of the merged table, and the
/// processes that it denied are those that the scan counts as gone.
pub open spec fn probed<P: Fn(u32) -> bool>(
    scan: Scan,
    known: Seq<SCRStruct>,
    found: Seq<SCRStruct>,
    can_open: P,
) -> bool {
    forall|pid: u32| #[trigger]
        merged(merged(Map::empty(), known), found).contains_key(pid) ==> call_ensures(
            can_open,
            (pid,),
            !scan.gone.contains(pid),
        )
}

/// `scan` is a scan in which `can_open` said which processes are gone and
/// `inspect` gave each answer for the process that was inspected.
pub open spec fn is_scan<P: Fn(u32) -> bool, I: Fn(u32) -> Option<String>>(
    scan: Scan,
    known: Seq<SCRStruct>,
    found: Seq<SCRStruct>,
    can_open: P,
    inspect: I,
    childs: Seq<SCRStruct>,
    lines: Seq<String>,
) -> bool {
    &&& probed(scan, known, found, can_open)
    &&& settles(scan, known, found, childs, lines)
    &&& forall|i: int|
        0 <= i < scan.inspected.len() ==> call_ensures(
            inspect,
            (scan.inspected[i],),
            #[trigger] scan.answers[i],
        )
}

/// `scan` is a scan in which `can_open` said which processes are gone and
/// each answer is what an inspection of its process came to that `perform`
/// has conducted.
pub open spec fn is_unlocking_scan<P: Fn(u32) -> bool, F: Fn(Action) -> Event>(
    scan: Scan,
    known: Seq<SCRStruct>,
    found: Seq<SCRStruct>,
    can_open: P,
    perform: F,
    childs: Seq<SCRStruct>,
    lines: Seq<String>,
) -> bool {
    &&& probed(scan, known, found, can_open)
    &&& settles(scan, known, found, childs, lines)
    &&& forall|i: int|
        0 <= i < scan.inspected.len() ==> inspected_by(
            perform,
            scan.inspected[i],
            None,
            #[trigger] scan.answers[i],
        )
}

/// Runs one scan. `known` are the children tracked so far and `found` the
/// children of the process list. `can_open` says whether a process can
/// still be opened, and `inspect` inspects one process and returns the log
/// line of its unlocking, if its lock was closed. Returns the children to
/// track from now on and the log lines of the scan.
pub fn check_processes<P: Fn(u32) -> bool, I: Fn(u32) -> Option<String>>(
    known: Vec<SCRStruct>,
    found: Vec<SCRStruct>,
    can_open: P,
    inspect: I,
) -> (result: (Vec<SCRStruct>, Vec<String>))
    requires
        forall|pid: u32| call_requires(can_open, (pid,)),
        forall|pid: u32| call_requires(inspect, (pid,)),
    ensures
        exists|scan: Scan| is_scan(scan, known@, found@, can_open, inspect, result.0@, result.1@),
{
    let mut registry = ProcessRegistry::new();
    registry.merge(&known);
    registry.merge(&found);
    let ghost all = registry@;
    let pids = registry.pids();
    let mut gone: Vec<u32> = Vec::new();
    let mut at: usize = 0;
    while at < pids.len()
        invariant
            forall|pid: u32| call_requires(can_open, (pid,)),
            at <= pids.len(),
            forall|i: int|
                0 <= i < gone.len() ==> pids@.take(at as int).contains(#[trigger] gone[i]),
            forall|i: int|
                0 <= i < at ==> call_ensures(
                    can_open,
                    (#[trigger] pids[i],),
                    !gone@.contains(pids[i]),
                ),
            increasing(pids@),
        decreases pids.len() - at,
    {
        let pid = pids[at];
        let ghost before = gone@;
        let open = can_open(pid);
        if !open {
            gone.push(pid);
        }
        proof {
            let seen = pids@.take(at as int);
            let more = pids@.take(at + 1);
            assert(more =~= seen.push(pid));
            assert(!before.contains(pid)) by {
                if before.contains(pid) {
                    let i = choose|i: int| 0 <= i < before.len() && before[i] == pid;
                    assert(seen.contains(before[i]));
                    let k = choose|k: int| 0 <= k < seen.len() && seen[k] == pid;
                    assert(pids[k] < pids[at as int]);
                }
            }
            assert forall|i: int| 0 <= i < gone.len() implies more.contains(#[trigger] gone[i]) by {
                if i < before.len() {
                    assert(seen.contains(before[i]));
                    let k = choose|k: int| 0 <= k < seen.len() && seen[k] == before[i];
                    assert(more[k] == gone[i]);
                } else {
                    assert(more[at as int] == gone[i]);
                }
            }
            assert forall|i: int| 0 <= i < at + 1 implies call_ensures(
                can_open,
                (#[trigger] pids[i],),
                !gone@.contains(pids[i]),
            ) by {
                if i < at {
                    assert(pids[i] < pids[at as int]);
                    assert(gone@.contains(pids[i]) <==> before.contains(pids[i])) by {
                        if gone@.contains(pids[i]) {
                            let w = choose|w: int| 0 <= w < gone.len() && gone[w] == pids[i];
                            assert(before[w] == pids[i]);
                        }
                        if before.contains(pids[i]) {
                            let w = choose|w: int| 0 <= w < before.len() && before[w] == pids[i];
                            assert(gone[w] == pids[i]);
                        }
                    }
                } else {
                    if !open {
                        assert(gone[gone.len() - 1] == pid);
                    } else {
                        assert(gone@ == before);
                    }
                }
            }
        }
        at += 1;
    }
    let mut lines = registry.prune(&gone);
    let ghost kept = registry@;
    let ghost removals = lines@;
    let ghost removed = choose|removed: Seq<u32>|
        {
            &&& increasing(removed)
            &&& forall|pid: u32|
                removed.contains(pid) <==> (all.contains_key(pid) && gone@.contains(pid))
            &&& invalid_pid_lines(removals, removed)
        };
    let pending = registry.take_unprocessed();
    let ghost mut answers: Seq<Option<String>> = Seq::empty();
    let mut next: usize = 0;
    while next < pending.len()
        invariant
            forall|pid: u32| call_requires(inspect, (pid,)),
            next <= pending.len(),
            answers.len() == next,
            forall|i: int|
                0 <= i < next ==> call_ensures(inspect, (pending[i],), #[trigger] answers[i]),
            texts(lines@) == texts(removals) + lines_of(answers),
        decreases pending.len() - next,
    {
        let answer = inspect(pending[next]);
        let ghost seen = answer;
        let ghost before = answers;
        let ghost lines_before = lines@;
        proof {
            answers = before.push(seen);
            assert(answers.drop_last() =~= before);
        }
        match answer {
            Some(line) => {
                lines.push(line);
                assert(texts(lines@) =~= texts(lines_before).push(line@));
                assert(texts(lines@) =~= texts(removals) + lines_of(answers));
            },
            None => {},
        }
        next += 1;
    }
    let childs = registry.entries();
    proof {
        let scan = Scan {
            gone: gone@.to_set(),
            removed,
            removals,
            inspected: pending@,
            answers,
        };
        assert(all_processed(kept) =~= registry@);
        assert forall|pid: u32| #[trigger] all.contains_key(pid) implies call_ensures(
            can_open,
            (pid,),
            !scan.gone.contains(pid),
        ) by {
            assert(pids@.contains(pid));
            let i = choose|i: int| 0 <= i < pids.len() && pids[i] == pid;
            assert(call_ensures(can_open, (pids[i],), !gone@.contains(pids[i])));
        }
        assert(is_scan(scan, known@, found@, can_open, inspect, childs@, lines@));
    }
    assert(exists|scan: Scan| is_scan(scan, known@, found@, can_open, inspect, childs@, lines@));
    let ghost childs_view = childs@;
    let ghost lines_view = lines@;
    let result = (childs, lines);
    assert(result.0@ == childs_view && result.1@ == lines_view);
    result
}

/// Runs one scan in which each process that has not been inspected is
/// inspected by the library, with `perform` to carry out the actions of the
/// inspection. `known` are the children known so far and `found` the
/// children of the process list; `can_open` says whether a process can
/// still be opened. Returns the children to track from now on and the log
/// lines of the scan.
pub fn check_and_unlock<P: Fn(u32) -> bool, F: Fn(Action) -> Event>(
    known: Vec<SCRStruct>,
    found: Vec<SCRStruct>,
    can_open: P,
    perform: F,
) -> (result: (Vec<SCRStruct>, Vec<String>))
    requires
        forall|pid: u32| call_requires(can_open, (pid,)),
        forall|action: Action| call_requires(perform, (action,)),
    ensures
        exists|scan: Scan|
            is_unlocking_scan(scan, known@, found@, can_open, perform, result.0@, result.1@),
{
    let performer = &perform;
    let inspect = |pid: u32| -> (line: Option<String>)
        ensures
            inspected_by(*performer, pid, None, line),
        { inspect_with(pid, None, performer) };
    let result = check_processes(known, found, can_open, inspect);
    proof {
        let scan = choose|scan: Scan|
            is_scan(scan, known@, found@, can_open, inspect, result.0@, result.1@);
        assert forall|i: int| 0 <= i < scan.inspected.len() implies inspected_by(
            perform,
            scan.inspected[i],
            None,
            #[trigger] scan.answers[i],
        ) by {
            assert(call_ensures(inspect, (scan.inspected[i],), scan.answers[i]));
        }
        assert(is_unlocking_scan(scan, known@, found@, can_open, perform, result.0@, result.1@));
    }
    result
}

/// Each line among the answers is among the lines of the answers.
proof fn lemma_lines_of_holds(answers: Seq<Option<String>>, at: int)
    requires
        0 <= at < answers.len(),
        answers[at].is_some(),
    ensures
        lines_of(answers).contains(answers[at].unwrap()@),
    decreases answers.len(),
{
    let head = answers.drop_last();
    if at < head.len() {
        lemma_lines_of_holds(head, at);
        let inner = lines_of(head);
        let k = choose|k: int| 0 <= k < inner.len() && inner[k] == answers[at].unwrap()@;
        if answers.last().is_some() {
            assert(inner.push(answers.last().unwrap()@)[k] == answers[at].unwrap()@);
        }
    } else {
        let inner = lines_of(head);
        assert(inner.push(answers[at].unwrap()@)[inner.len() as int] == answers[at].unwrap()@);
    }
}

/// From the scan to the log. Take a scan that comes upon the process `pid`
/// as one that has not been processed and can be opened, and a `perform`
/// that answers every action for that process as a system does that fails
/// at nothing, for a handle table that holds the lock at one place among
/// any other objects. Then the scan inspects the process, the line that
/// names the handle of the lock as closed is among its log lines, and the
/// process is among its children, flagged as processed, so that no later
/// scan inspects it again.
pub proof fn lemma_scan_unlocks<P: Fn(u32) -> bool, F: Fn(Action) -> Event>(
    scan: Scan,
    known: Seq<SCRStruct>,
    found: Seq<SCRStruct>,
    can_open: P,
    perform: F,
    childs: Seq<SCRStruct>,
    lines: Seq<String>,
    pid: u32,
    records: Seq<HandleRecord>,
    lock: int,
)
    requires
        is_unlocking_scan(scan, known, found, can_open, perform, childs, lines),
        merged(merged(Map::empty(), known), found).contains_key(pid),
        !merged(merged(Map::empty(), known), found)[pid],
        !scan.gone.contains(pid),
        0 <= lock < records.len(),
        forall|events: Seq<Event>| #[trigger]
            conducted(perform, begun(pid, None), events) ==> well_answered(
                begun(pid, None).0,
                events,
                records,
                lock,
            ),
    ensures
        exists|at: int|
            {
                &&& 0 <= at < scan.inspected.len()
                &&& scan.inspected[at] == pid
                &&& tells(
                    #[trigger] scan.answers[at],
                    pid,
                    Outcome::Unlocked(records[lock].handle_value),
                )
                &&& texts(lines).contains(scan.answers[at].unwrap()@)
            },
        exists|i: int| 0 <= i < childs.len() && childs[i].pid == pid && childs[i].is_processed,
{
    let all = merged(merged(Map::empty(), known), found);
    let kept = all.remove_keys(scan.gone);
    assert(kept.contains_key(pid) && !kept[pid]);
    assert(scan.inspected.contains(pid));
    let at = choose|at: int| 0 <= at < scan.inspected.len() && scan.inspected[at] == pid;
    assert(inspected_by(perform, scan.inspected[at], None, scan.answers[at]));
    lemma_inspection_yields_closed_line(perform, pid, None, scan.answers[at], records, lock);
    lemma_lines_of_holds(scan.answers, at);
    let line = scan.answers[at].unwrap()@;
    let tail = lines_of(scan.answers);
    let k = choose|k: int| 0 <= k < tail.len() && tail[k] == line;
    assert((texts(scan.removals) + tail)[texts(scan.removals).len() + k] == line);
    assert(all_processed(kept).contains_key(pid));
    assert(names(childs, pid));
    let i = choose|i: int| 0 <= i < childs.len() && childs[i].pid == pid;
    assert(all_processed(kept)[childs[i].pid] == childs[i].is_processed);
}

} // verus!
