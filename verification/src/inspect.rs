//! The inspection of one process: open it, list its handles, copy each one
//! to read the name of its object, and where the name is that of the
//! instance lock, take the handle away from the process.
//!
//! The inspection itself makes no system call. It says what is to be done
//! next, as an [`Action`], and is told what came of it, as an [`Event`].

use vstd::prelude::*;
use crate::handles::{handle_records, object_name, read_object_name, table_records, HandleRecord};
use crate::names::{is_lock_name, names_lock};
use crate::query::QueryError;
use crate::report::{
    closed_message, closed_text, is_line_of, unclosed_message, unclosed_text, StringExt,
};

verus! {

/// Where an inspection stands: what it is waiting for.
#[derive(Debug, Clone, Copy, PartialEq, Eq, Structural)]
pub enum Phase {
    /// For the process to be opened.
    Opening,
    /// For the handle table of the process.
    Listing,
    /// For the copy of the handle of the current record.
    Copying,
    /// For the name of the object behind the copy.
    Naming,
    /// For the copy to be closed.
    Releasing,
    /// For the handle of the current record to be taken from the process.
    Taking,
    /// For the handle that was taken to be closed.
    Dropping,
    /// For the handle of the process to be closed.
    Leaving,
    /// For nothing: the inspection is over.
    Finished,
}

/// What an inspection came to.
#[derive(Debug, Clone, Copy, PartialEq, Eq, Structural)]
pub enum Outcome {
    /// No handle was taken from the process: it holds no lock, or the lock
    /// could not be taken.
    NoLock,
    /// The handle of the lock, by its value in the process, was taken from
    /// the process and closed.
    Unlocked(u64),
    /// The handle of the lock was taken from the process, and is gone from
    /// it, but the own handle that it became could not be closed.
    Unclosed(u64),
}

/// What the inspection asks for. Handles are given by their values.
#[derive(Debug, Clone, Copy, PartialEq, Eq)]
pub enum Action {
    /// Open the process with full access.
    OpenProcess { pid: u32 },
    /// Query the handle table of the process behind the handle `process`.
    QueryHandles { process: u64 },
    /// Copy the handle `source` of the process into the own process, with
    /// the access it has.
    Duplicate { process: u64, source: u64 },
    /// Query the name of the object behind the own handle `handle`.
    QueryName { handle: u64 },
    /// Close the own handle `handle`.
    Close { handle: u64 },
    /// Copy the handle `source` of the process into the own process and
    /// close it in the process that it comes from, in one step.
    TakeOver { process: u64, source: u64 },
    /// Nothing more: the inspection is over, with this outcome.
    Finish { outcome: Outcome },
}

/// What came of an action.
#[derive(Debug)]
pub enum Event {
    /// The handle of the process that was opened, or that it was not.
    Opened(Option<u64>),
    /// The buffer that holds the handle table, or why there is none.
    Handles(Result<Vec<u8>, QueryError>),
    /// The own handle that is the copy, or that there is none.
    Duplicated(Option<u64>),
    /// The buffer that holds the name, with the address at which the buffer
    /// stood when it was filled, or why there is none.
    Named { name: Result<Vec<u8>, QueryError>, base: u64 },
    /// Whether the handle was closed.
    Closed(bool),
    /// The own handle that the handle of the process has become, or that
    /// nothing was taken.
    TakenOver(Option<u64>),
}

/// The state of an inspection.
pub struct Progress {
    /// The process that is inspected.
    pub pid: u32,
    pub phase: Phase,
    /// The handle of the process, while the inspection owns it.
    pub process: Option<u64>,
    /// The copy of the current record's handle, while the inspection owns it.
    pub copy: Option<u64>,
    /// The handle table of the process.
    pub records: Seq<HandleRecord>,
    /// The index of the current record.
    pub index: nat,
    /// Whether the name behind the current record is that of the lock.
    pub lock_found: bool,
    /// The handles that were taken from the process: none or one.
    pub removed: Seq<u64>,
    /// What the inspection has come to.
    pub outcome: Outcome,
}

/// The state of an inspection that has asked for its process to be opened.
pub open spec fn opening(pid: u32) -> Progress {
    Progress {
        pid,
        phase: Phase::Opening,
        process: None,
        copy: None,
        records: Seq::empty(),
        index: 0,
        lock_found: false,
        removed: Seq::empty(),
        outcome: Outcome::NoLock,
    }
}

/// The state of an inspection that was handed the open process and has asked
/// for its handle table.
pub open spec fn listing(pid: u32, process: u64) -> Progress {
    Progress { phase: Phase::Listing, process: Some(process), ..opening(pid) }
}

/// The handles that a state has taken from its process: the one that its
/// outcome names, or the one that it is about to close; none otherwise.
pub open spec fn taken_by(p: Progress) -> Seq<u64> {
    match p.outcome {
        Outcome::Unlocked(handle) => seq![handle],
        Outcome::Unclosed(handle) => seq![handle],
        Outcome::NoLock => if p.phase == Phase::Dropping {
            seq![source(p)]
        } else {
            Seq::empty()
        },
    }
}

/// What holds of every state that an inspection reaches: it owns the handle
/// of the process from the moment it was opened until it asks for it to be
/// closed; it owns a copy only while it waits for the copy's name; and while
/// it works on a record, that record is in the table; and it has taken at
/// most one handle from the process, the one that its outcome names.
pub open spec fn well_formed(p: Progress) -> bool {
    &&& p.process.is_some() <==> (p.phase != Phase::Opening && p.phase != Phase::Leaving && p.phase
        != Phase::Finished)
    &&& p.copy.is_some() <==> p.phase == Phase::Naming
    &&& (p.phase == Phase::Copying || p.phase == Phase::Naming || p.phase == Phase::Releasing
        || p.phase == Phase::Taking || p.phase == Phase::Dropping) ==> p.index < p.records.len()
    &&& p.phase == Phase::Taking ==> p.lock_found
    &&& p.outcome != Outcome::NoLock ==> (p.phase == Phase::Leaving || p.phase == Phase::Finished)
    &&& p.removed =~= taken_by(p)
}

/// Whether `event` is what a state waits for.
pub open spec fn awaits(p: Progress, event: Event) -> bool {
    match p.phase {
        Phase::Opening => event is Opened,
        Phase::Listing => event is Handles,
        Phase::Copying => event is Duplicated,
        Phase::Naming => event is Named,
        Phase::Releasing => event is Closed,
        Phase::Taking => event is TakenOver,
        Phase::Dropping => event is Closed,
        Phase::Leaving => event is Closed,
        Phase::Finished => false,
    }
}

/// The handle in the process that the current record stands for.
pub open spec fn source(p: Progress) -> u64 {
    p.records[p.index as int].handle_value
}

/// The inspection is done with the process: it asks for the handle of the
/// process to be closed.
pub open spec fn leave(p: Progress) -> (Progress, Action) {
    (
        Progress { phase: Phase::Leaving, process: None, ..p },
        Action::Close { handle: p.process.unwrap() },
    )
}

/// The inspection goes on with the record at `index`: it asks for a copy of
/// its handle; or, past the last record, it leaves.
pub open spec fn seek(p: Progress, index: nat) -> (Progress, Action) {
    if index < p.records.len() {
        (
            Progress { phase: Phase::Copying, index, lock_found: false, ..p },
            Action::Duplicate {
                process: p.process.unwrap(),
                source: p.records[index as int].handle_value,
            },
        )
    } else {
        leave(Progress { index, lock_found: false, ..p })
    }
}

/// Whether the buffer that came back for a name holds the name of the lock.
pub open spec fn lock_named(name: Result<Vec<u8>, QueryError>, base: u64) -> bool {
    match name {
        Ok(bytes) => match object_name(bytes@, base as int) {
            Some(units) => names_lock(units),
            None => false,
        },
        Err(_) => false,
    }
}

/// The state after an event that the inspection was waiting for, and the
/// action that it asks for next.
///
/// A process that cannot be opened ends the inspection. A handle table that
/// cannot be had or read ends it too, once the process is closed. A record
/// whose handle cannot be copied is passed over. A copy is closed as soon as
/// its name has been asked for, whatever came back; the record is passed
/// over if the closing failed or the name is not that of the lock. The
/// handle behind a record with the lock's name is taken from the process; if
/// that fails, nothing was taken and the record is passed over; if it
/// succeeds, the handle is gone from the process, and the inspection leaves
/// once it has asked for the own handle that it became to be closed: with
/// the lock unlocked if that closing succeeds, and with the lock unclosed
/// if it fails. It does not go on to other records, and so never asks for
/// the same handle a second time.
pub open spec fn after_expected(p: Progress, event: Event) -> (Progress, Action) {
    match event {
        Event::Opened(None) => (
            Progress { phase: Phase::Finished, ..p },
            Action::Finish { outcome: Outcome::NoLock },
        ),
        Event::Opened(Some(process)) => (
            Progress { phase: Phase::Listing, process: Some(process), ..p },
            Action::QueryHandles { process },
        ),
        Event::Handles(Ok(bytes)) => match table_records(bytes@) {
            Some(records) => seek(Progress { records, ..p }, 0),
            None => leave(p),
        },
        Event::Handles(Err(_)) => leave(p),
        Event::Duplicated(None) => seek(p, p.index + 1),
        Event::Duplicated(Some(copy)) => (
            Progress { phase: Phase::Naming, copy: Some(copy), ..p },
            Action::QueryName { handle: copy },
        ),
        Event::Named { name, base } => (
            Progress {
                phase: Phase::Releasing,
                copy: None,
                lock_found: lock_named(name, base),
                ..p
            },
            Action::Close { handle: p.copy.unwrap() },
        ),
        Event::Closed(closed) => if p.phase == Phase::Releasing {
            if closed && p.lock_found {
                (
                    Progress { phase: Phase::Taking, ..p },
                    Action::TakeOver { process: p.process.unwrap(), source: source(p) },
                )
            } else {
                seek(p, p.index + 1)
            }
        } else if p.phase == Phase::Dropping {
            if closed {
                leave(Progress { outcome: Outcome::Unlocked(source(p)), ..p })
            } else {
                leave(Progress { outcome: Outcome::Unclosed(source(p)), ..p })
            }
        } else {
            (Progress { phase: Phase::Finished, ..p }, Action::Finish { outcome: p.outcome })
        },
        Event::TakenOver(None) => seek(p, p.index + 1),
        Event::TakenOver(Some(taken)) => (
            Progress { phase: Phase::Dropping, removed: p.removed.push(source(p)), ..p },
            Action::Close { handle: taken },
        ),
    }
}

/// The state after an event, and the action asked for: an event that the
/// inspection is not waiting for changes nothing and gets no action.
pub open spec fn after(p: Progress, event: Event) -> (Progress, Option<Action>) {
    if awaits(p, event) {
        (after_expected(p, event).0, Some(after_expected(p, event).1))
    } else {
        (p, None)
    }
}

/// The inspection of one process.
#[derive(Debug)]
pub struct Inspector {
    pid: u32,
    phase: Phase,
    process: Option<u64>,
    copy: Option<u64>,
    records: Vec<HandleRecord>,
    index: usize,
    lock_found: bool,
    removed: Vec<u64>,
    outcome: Outcome,
}

impl View for Inspector {
    type V = Progress;

    closed spec fn view(&self) -> Progress {
        Progress {
            pid: self.pid,
            phase: self.phase,
            process: self.process,
            copy: self.copy,
            records: self.records@,
            index: self.index as nat,
            lock_found: self.lock_found,
            removed: self.removed@,
            outcome: self.outcome,
        }
    }
}

impl Inspector {
    /// Begins the inspection of the process `pid`. The action is to open
    /// the process.
    pub fn open(pid: u32) -> (begun: (Self, Action))
        ensures
            begun.0@ == opening(pid),
            begun.1 == (Action::OpenProcess { pid }),
            well_formed(begun.0@),
    {
        let inspector = Inspector {
            pid,
            phase: Phase::Opening,
            process: None,
            copy: None,
            records: Vec::new(),
            index: 0,
            lock_found: false,
            removed: Vec::new(),
            outcome: Outcome::NoLock,
        };
        (inspector, Action::OpenProcess { pid })
    }

    /// Begins the inspection of the process `pid` that is open already: the
    /// inspection takes over its handle `process`, and will ask for it to be
    /// closed. The action is to query the handle table.
    pub fn attach(pid: u32, process: u64) -> (begun: (Self, Action))
        ensures
            begun.0@ == listing(pid, process),
            begun.1 == (Action::QueryHandles { process }),
            well_formed(begun.0@),
    {
        let inspector = Inspector {
            pid,
            phase: Phase::Listing,
            process: Some(process),
            copy: None,
            records: Vec::new(),
            index: 0,
            lock_found: false,
            removed: Vec::new(),
            outcome: Outcome::NoLock,
        };
        (inspector, Action::QueryHandles { process })
    }

    /// The process that is inspected.
    pub fn pid(&self) -> (pid: u32)
        ensures
            pid == self@.pid,
    {
        self.pid
    }

    /// What the inspection is waiting for.
    pub fn phase(&self) -> (phase: Phase)
        ensures
            phase == self@.phase,
    {
        self.phase
    }

    /// Whether the inspection is over.
    pub fn is_finished(&self) -> (over: bool)
        ensures
            over == (self@.phase == Phase::Finished),
    {
        matches!(self.phase, Phase::Finished)
    }

    /// The handles that were taken from the process so far, of which there
    /// is at most one: it is gone from the handle table of the process,
    /// whether or not the own handle that it became could be closed
    /// afterwards.
    pub fn removed(&self) -> (handles: Vec<u64>)
        ensures
            handles@ == self@.removed,
    {
        self.removed.clone()
    }

    /// Asks for the handle of the process to be closed.
    fn leave(&mut self) -> (action: Action)
        requires
            old(self).process.is_some(),
        ensures
            (final(self)@, action) == leave(old(self)@),
    {
        let handle = self.process.unwrap();
        self.process = None;
        self.phase = Phase::Leaving;
        Action::Close { handle }
    }

    /// Goes on with the record at `index`.
    fn seek(&mut self, index: usize) -> (action: Action)
        requires
            old(self).process.is_some(),
        ensures
            (final(self)@, action) == seek(old(self)@, index as nat),
    {
        self.index = index;
        self.lock_found = false;
        if index < self.records.len() {
            self.phase = Phase::Copying;
            Action::Duplicate {
                process: self.process.unwrap(),
                source: self.records[index].handle_value,
            }
        } else {
            self.leave()
        }
    }

    /// Goes on with the record after the current one.
    fn pass_over(&mut self) -> (action: Action)
        requires
            old(self).process.is_some(),
            old(self).index < old(self).records.len(),
        ensures
            (final(self)@, action) == seek(old(self)@, old(self)@.index + 1),
    {
        assert(self.index < self.records.len());
        self.seek(self.index + 1)
    }

    /// Takes in what came of the last action and says what to do next.
    /// Returns `None`, and changes nothing, for an event that is not the
    /// answer to the last action.
    pub fn step(&mut self, event: Event) -> (action: Option<Action>)
        requires
            well_formed(old(self)@),
        ensures
            well_formed(final(self)@),
            (final(self)@, action) == after(old(self)@, event),
    {
        match self.phase {
            Phase::Opening => match event {
                Event::Opened(None) => {
                    self.phase = Phase::Finished;
                    Some(Action::Finish { outcome: Outcome::NoLock })
                },
                Event::Opened(Some(process)) => {
                    self.phase = Phase::Listing;
                    self.process = Some(process);
                    Some(Action::QueryHandles { process })
                },
                _ => None,
            },
            Phase::Listing => match event {
                Event::Handles(Ok(bytes)) => match handle_records(bytes.as_slice()) {
                    Some(records) => {
                        self.records = records;
                        Some(self.seek(0))
                    },
                    None => Some(self.leave()),
                },
                Event::Handles(Err(_)) => Some(self.leave()),
                _ => None,
            },
            Phase::Copying => match event {
                Event::Duplicated(None) => Some(self.pass_over()),
                Event::Duplicated(Some(copy)) => {
                    self.phase = Phase::Naming;
                    self.copy = Some(copy);
                    Some(Action::QueryName { handle: copy })
                },
                _ => None,
            },
            Phase::Naming => match event {
                Event::Named { name, base } => {
                    let found = match name {
                        Ok(bytes) => match read_object_name(bytes.as_slice(), base) {
                            Some(units) => is_lock_name(units.as_slice()),
                            None => false,
                        },
                        Err(_) => false,
                    };
                    let handle = self.copy.unwrap();
                    self.copy = None;
                    self.lock_found = found;
                    self.phase = Phase::Releasing;
                    Some(Action::Close { handle })
                },
                _ => None,
            },
            Phase::Releasing => match event {
                Event::Closed(closed) => {
                    if closed && self.lock_found {
                        self.phase = Phase::Taking;
                        Some(
                            Action::TakeOver {
                                process: self.process.unwrap(),
                                source: self.records[self.index].handle_value,
                            },
                        )
                    } else {
                        Some(self.pass_over())
                    }
                },
                _ => None,
            },
            Phase::Taking => match event {
                Event::TakenOver(None) => Some(self.pass_over()),
                Event::TakenOver(Some(taken)) => {
                    self.removed.push(self.records[self.index].handle_value);
                    self.phase = Phase::Dropping;
                    Some(Action::Close { handle: taken })
                },
                _ => None,
            },
            Phase::Dropping => match event {
                Event::Closed(closed) => {
                    let taken = self.records[self.index].handle_value;
                    self.outcome = if closed {
                        Outcome::Unlocked(taken)
                    } else {
                        Outcome::Unclosed(taken)
                    };
                    Some(self.leave())
                },
                _ => None,
            },
            Phase::Leaving => match event {
                Event::Closed(_) => {
                    self.phase = Phase::Finished;
                    Some(Action::Finish { outcome: self.outcome })
                },
                _ => None,
            },
            Phase::Finished => None,
        }
    }
}

/// `line` is the log line for an inspection of the process `pid` that came
/// to `outcome`: none where no lock was taken; the line that names the
/// handle closed where the lock was unlocked; the line that names the handle
/// that could not be closed where it was taken but left unclosed.
pub open spec fn tells(line: Option<String>, pid: u32, outcome: Outcome) -> bool {
    match outcome {
        Outcome::NoLock => line.is_none(),
        Outcome::Unlocked(handle) => line.is_some() && is_line_of(
            line.unwrap()@,
            closed_text(handle as nat, pid as nat),
        ),
        Outcome::Unclosed(handle) => line.is_some() && is_line_of(
            line.unwrap()@,
            unclosed_text(handle as nat, pid as nat),
        ),
    }
}

/// The log line for what an inspection of the process `pid` came to,
/// stamped with the time; nothing where no lock was taken.
pub fn outcome_line(pid: u32, outcome: Outcome) -> (line: Option<String>)
    ensures
        tells(line, pid, outcome),
{
    match outcome {
        Outcome::NoLock => None,
        Outcome::Unlocked(handle) => {
            let message = closed_message(handle, pid);
            Some(message.as_str().as_log())
        },
        Outcome::Unclosed(handle) => {
            let message = unclosed_message(handle, pid);
            Some(message.as_str().as_log())
        },
    }
}

/// How an inspection of the process `pid` begins: with the state and the
/// first action of `attach` where the open process is handed in, and with
/// those of `open` where it is not.
pub open spec fn begun(pid: u32, process: Option<u64>) -> (Progress, Action) {
    match process {
        Some(handle) => (listing(pid, handle), Action::QueryHandles { process: handle }),
        None => (opening(pid), Action::OpenProcess { pid }),
    }
}

/// The action that waits to be performed after a run of events, or `None`
/// if the last event was not the answer to the action before it.
pub open spec fn pending(start: (Progress, Action), events: Seq<Event>) -> Option<Action>
    decreases events.len(),
{
    if events.len() == 0 {
        Some(start.1)
    } else {
        after(replay(start.0, events.drop_last()), events.last()).1
    }
}

/// The event at `at` is what `perform` gave back for the action that was
/// waiting after the events before it.
pub open spec fn answered<F: Fn(Action) -> Event>(
    perform: F,
    start: (Progress, Action),
    events: Seq<Event>,
    at: int,
) -> bool {
    pending(start, events.take(at)).is_some() && call_ensures(
        perform,
        (pending(start, events.take(at)).unwrap(),),
        events[at],
    )
}

/// Each event of the run is what `perform` gave back for the action that
/// was waiting when it was called.
pub open spec fn conducted<F: Fn(Action) -> Event>(
    perform: F,
    start: (Progress, Action),
    events: Seq<Event>,
) -> bool {
    forall|at: int| 0 <= at < events.len() ==> #[trigger] answered(perform, start, events, at)
}

/// No action of the run was asked of `perform` after the inspection was
/// over: the action that waited before each event was never the last one.
pub open spec fn stops_at_finish(start: (Progress, Action), events: Seq<Event>) -> bool {
    forall|at: int|
        0 <= at < events.len() ==> !(#[trigger] pending(start, events.take(at)) matches Some(
            Action::Finish { .. },
        ))
}

/// `line` is what a run of an inspection of the process `pid` comes to: the
/// log line for the outcome that the inspection ended with; or no line, if
/// the run was broken off by an event that answered nothing.
pub open spec fn comes_to(pid: u32, last: Option<Action>, line: Option<String>) -> bool {
    match last {
        Some(Action::Finish { outcome }) => tells(line, pid, outcome),
        Some(_) => false,
        None => line.is_none(),
    }
}

/// A run that is conducted by `perform` stays so when `perform` answers
/// the action that is waiting.
proof fn lemma_run_extends<F: Fn(Action) -> Event>(
    perform: F,
    start: (Progress, Action),
    before: Seq<Event>,
    action: Action,
    event: Event,
)
    requires
        conducted(perform, start, before),
        pending(start, before) == Some(action),
        call_ensures(perform, (action,), event),
    ensures
        conducted(perform, start, before.push(event)),
        pending(start, before.push(event)) == after(replay(start.0, before), event).1,
        replay(start.0, before.push(event)) == after(replay(start.0, before), event).0,
{
    let events = before.push(event);
    assert(events.drop_last() =~= before);
    assert forall|at: int| 0 <= at < events.len() implies #[trigger] answered(
        perform,
        start,
        events,
        at,
    ) by {
        if at < before.len() {
            assert(answered(perform, start, before, at));
            assert(events.take(at) =~= before.take(at));
            assert(events[at] == before[at]);
        } else {
            assert(events.take(at) =~= before);
        }
    }
}

/// What the run of an inspection relies on at each step that is taken.
proof fn lemma_step_advances(p: Progress, event: Event)
    requires
        well_formed(p),
    ensures
        ({
            let (q, action) = after(p, event);
            action.is_some() ==> {
                &&& well_formed(q)
                &&& action.unwrap() is Finish <==> q.phase == Phase::Finished
                &&& stage(q) > stage(p) || (stage(q) == stage(p) && 0 < steps_left(q)
                    < steps_left(p))
                &&& stage(q) <= 4
            }
        }),
{
    if awaits(p, event) {
        lemma_handles_accounted(p, event);
        lemma_inspection_advances(p, event);
    }
}

/// `line` is what an inspection of the process `pid` came to that
/// `perform` has conducted: there is a run of events, each of them what
/// `perform` gave back for the action that was waiting, in which no action
/// was asked for after the last one, and `line` is the log line for the
/// outcome that the run ended with.
pub open spec fn inspected_by<F: Fn(Action) -> Event>(
    perform: F,
    pid: u32,
    maybe_handle: Option<u64>,
    line: Option<String>,
) -> bool {
    exists|events: Seq<Event>|
        {
            &&& conducted(perform, begun(pid, maybe_handle), events)
            &&& stops_at_finish(begun(pid, maybe_handle), events)
            &&& comes_to(pid, #[trigger] pending(begun(pid, maybe_handle), events), line)
        }
}

/// Inspects the process `pid` to the end and returns the log line of what
/// it came to: the line of the unlocking, if the instance lock was found,
/// taken and closed; the line of the failure, if it was taken but could not
/// be closed; nothing otherwise. Once the inspection is over, `perform` is
/// not called again. `perform` carries
/// out one action and says what came of it; it is called for each action
/// in turn, until the inspection is over. `maybe_handle` is the handle of
/// the process where the caller has opened it already; the inspection then
/// owns it, and has it closed.
pub fn query_child<F: Fn(Action) -> Event>(
    pid: u32,
    maybe_handle: Option<u64>,
    perform: F,
) -> (line: Option<String>)
    requires
        forall|action: Action| call_requires(perform, (action,)),
    ensures
        inspected_by(perform, pid, maybe_handle, line),
{
    inspect_with(pid, maybe_handle, &perform)
}

/// Inspects the process `pid` to the end, as `query_child` does, with a
/// `perform` that the caller keeps.
pub fn inspect_with<F: Fn(Action) -> Event>(
    pid: u32,
    maybe_handle: Option<u64>,
    perform: &F,
) -> (line: Option<String>)
    requires
        forall|action: Action| call_requires(*perform, (action,)),
    ensures
        inspected_by(*perform, pid, maybe_handle, line),
{
    let (mut inspector, mut action) = match maybe_handle {
        Some(handle) => Inspector::attach(pid, handle),
        None => Inspector::open(pid),
    };
    let ghost start = begun(pid, maybe_handle);
    let ghost mut events: Seq<Event> = Seq::empty();
    loop
        invariant
            forall|action: Action| call_requires(*perform, (action,)),
            start == begun(pid, maybe_handle),
            well_formed(inspector@),
            inspector@ == replay(start.0, events),
            pending(start, events) == Some(action),
            action is Finish <==> inspector@.phase == Phase::Finished,
            conducted(*perform, start, events),
            stops_at_finish(start, events),
        decreases 4 - stage(inspector@), steps_left(inspector@),
    {
        if let Action::Finish { outcome } = action {
            return outcome_line(pid, outcome);
        }
        let event = perform(action);
        let ghost seen = event;
        let ghost before = events;
        let ghost state = inspector@;
        proof {
            events = before.push(seen);
            lemma_run_extends(*perform, start, before, action, seen);
            lemma_step_advances(state, seen);
            assert forall|at: int| 0 <= at < events.len() implies !(#[trigger] pending(
                start,
                events.take(at),
            ) matches Some(Action::Finish { .. })) by {
                if at < before.len() {
                    assert(events.take(at) =~= before.take(at));
                } else {
                    assert(events.take(at) =~= before);
                }
            }
        }
        match inspector.step(event) {
            Some(next) => {
                action = next;
            },
            None => {
                return None;
            },
        }
    }
}

/// How many handles an inspection owns.
pub open spec fn held(p: Progress) -> nat {
    (if p.process.is_some() {
        1nat
    } else {
        0nat
    }) + (if p.copy.is_some() {
        1nat
    } else {
        0nat
    })
}

/// The handle that an event hands to the inspection, if it hands one over.
pub open spec fn delivered(event: Event) -> Option<u64> {
    match event {
        Event::Opened(handle) => handle,
        Event::Duplicated(handle) => handle,
        Event::TakenOver(handle) => handle,
        _ => None,
    }
}

/// The handle that an action releases, if it releases one.
pub open spec fn released(action: Action) -> Option<u64> {
    match action {
        Action::Close { handle } => Some(handle),
        _ => None,
    }
}

/// The own handle that an action works with, short of releasing it.
pub open spec fn used(action: Action) -> Option<u64> {
    match action {
        Action::QueryHandles { process } => Some(process),
        Action::Duplicate { process, .. } => Some(process),
        Action::QueryName { handle } => Some(handle),
        Action::TakeOver { process, .. } => Some(process),
        _ => None,
    }
}

/// One if there is a handle, zero if there is none.
pub open spec fn count(handle: Option<u64>) -> nat {
    if handle.is_some() {
        1
    } else {
        0
    }
}

/// Every handle is accounted for at every step. A handle that an event
/// hands over is owned afterwards or released by the very next action; a
/// handle that is released was owned or has just been handed over; an
/// action works only with a handle that is still owned; and the inspection
/// ends owning nothing.
pub proof fn lemma_handles_accounted(p: Progress, event: Event)
    requires
        well_formed(p),
        awaits(p, event),
    ensures
        ({
            let (q, action) = after_expected(p, event);
            &&& well_formed(q)
            &&& held(q) + count(released(action)) == held(p) + count(delivered(event))
            &&& released(action) matches Some(handle) ==> (p.process == Some(handle) || p.copy
                == Some(handle) || delivered(event) == Some(handle))
            &&& used(action) matches Some(handle) ==> (q.process == Some(handle) || q.copy == Some(
                handle,
            ))
            &&& action is Finish <==> q.phase == Phase::Finished
            &&& action is Finish ==> held(q) == 0
        }),
{
}

/// The state after a run of events, each taken in as `step` does.
pub open spec fn replay(p: Progress, events: Seq<Event>) -> Progress
    decreases events.len(),
{
    if events.len() == 0 {
        p
    } else {
        after(replay(p, events.drop_last()), events.last()).0
    }
}

/// How many handles the events of a run handed over: the events that the
/// inspection was not waiting for do not count.
pub open spec fn handed_over(p: Progress, events: Seq<Event>) -> nat
    decreases events.len(),
{
    if events.len() == 0 {
        0
    } else {
        let before = replay(p, events.drop_last());
        handed_over(p, events.drop_last()) + (if awaits(before, events.last()) {
            count(delivered(events.last()))
        } else {
            0
        })
    }
}

/// How many handles the actions of a run released.
pub open spec fn given_back(p: Progress, events: Seq<Event>) -> nat
    decreases events.len(),
{
    if events.len() == 0 {
        0
    } else {
        let before = replay(p, events.drop_last());
        given_back(p, events.drop_last()) + (match after(before, events.last()).1 {
            Some(action) => count(released(action)),
            None => 0,
        })
    }
}

/// One release for each handle. Over any run of events, the handles owned
/// at the start and those handed over are the handles released and those
/// still owned. A run that ends the inspection, at whatever step and for
/// whatever reason, has released every handle exactly once.
pub proof fn lemma_each_handle_released_once(p: Progress, events: Seq<Event>)
    requires
        well_formed(p),
    ensures
        well_formed(replay(p, events)),
        held(p) + handed_over(p, events) == given_back(p, events) + held(replay(p, events)),
        replay(p, events).phase == Phase::Finished ==> held(p) + handed_over(p, events)
            == given_back(p, events),
    decreases events.len(),
{
    if events.len() > 0 {
        lemma_each_handle_released_once(p, events.drop_last());
        let before = replay(p, events.drop_last());
        if awaits(before, events.last()) {
            lemma_handles_accounted(before, events.last());
        }
    }
}

/// How far an inspection has come: the process, its handle table, the
/// records, the way out, the end.
pub open spec fn stage(p: Progress) -> nat {
    match p.phase {
        Phase::Opening => 0,
        Phase::Listing => 1,
        Phase::Leaving => 3,
        Phase::Finished => 4,
        _ => 2,
    }
}

/// An upper bound on the events that an inspection still takes in while it
/// works on the records.
pub open spec fn steps_left(p: Progress) -> int {
    5 * (p.records.len() - p.index) - match p.phase {
        Phase::Copying => 0int,
        Phase::Naming => 1int,
        Phase::Releasing => 2int,
        Phase::Taking => 3int,
        Phase::Dropping => 4int,
        _ => 5int,
    }
}

/// Every event that an inspection takes in brings it nearer to its end: it
/// reaches a later stage, or, among the records, has fewer steps left. No
/// run can go on for ever, and none scans a handle table twice.
pub proof fn lemma_inspection_advances(p: Progress, event: Event)
    requires
        well_formed(p),
        awaits(p, event),
    ensures
        ({
            let q = after_expected(p, event).0;
            stage(q) > stage(p) || (stage(q) == stage(p) && stage(p) == 2 && 0 < steps_left(q)
                < steps_left(p))
        }),
{
}

/// Taking the lock away is all or nothing. Where the attempt fails,
/// nothing was taken: the list of handles that are gone from the process
/// stays as it is, and the inspection goes on with the next record. Where
/// it succeeds, the handle is gone from the process, and
/// stays on that list whether or not the own handle that it became can be
/// closed. Either way the inspection then leaves, without another attempt
/// on any handle: with the lock unlocked if the closing succeeded, and with
/// the lock unclosed, which is logged as a failure, if it did not.
pub proof fn lemma_take_over_all_or_nothing(p: Progress, taken: Option<u64>, closed: bool)
    requires
        well_formed(p),
        p.phase == Phase::Taking,
    ensures
        ({
            let (q, action) = after_expected(p, Event::TakenOver(taken));
            let (r, then) = after_expected(q, Event::Closed(closed));
            match taken {
                None => (q, action) == seek(p, p.index + 1) && q.removed == p.removed,
                Some(own) => {
                    &&& q.removed == p.removed.push(source(p))
                    &&& action == (Action::Close { handle: own })
                    &&& q.phase == Phase::Dropping
                    &&& r.removed == q.removed
                    &&& r.phase == Phase::Leaving
                    &&& then == (Action::Close { handle: p.process.unwrap() })
                    &&& r.outcome == (if closed {
                        Outcome::Unlocked(source(p))
                    } else {
                        Outcome::Unclosed(source(p))
                    })
                },
            }
        }),
{
}

/// Nothing but a successful take-over touches the handle table of the
/// process: every other step leaves the list of handles that are gone from
/// it as it was. A take-over is asked for only after the copy of the
/// handle has been closed and its name was that of the lock.
pub proof fn lemma_removed_by_take_over_only(p: Progress, event: Event)
    requires
        well_formed(p),
        awaits(p, event),
    ensures
        ({
            let (q, action) = after_expected(p, event);
            &&& !(event matches Event::TakenOver(Some(_))) ==> q.removed == p.removed
            &&& action is TakeOver ==> p.phase == Phase::Releasing && p.lock_found && event
                == Event::Closed(true) && action == (Action::TakeOver {
                process: p.process.unwrap(),
                source: source(p),
            })
        }),
{
}

/// The outcome names what was taken. After any run of events, an
/// inspection that is over has come to an outcome other than `NoLock`
/// exactly if a handle was taken from the process, and the outcome names
/// that handle: unlocked if the own handle that it became was closed,
/// unclosed if it was not.
pub proof fn lemma_outcome_names_what_was_taken(p: Progress, events: Seq<Event>)
    requires
        well_formed(p),
    ensures
        ({
            let q = replay(p, events);
            q.phase == Phase::Finished ==> match q.outcome {
                Outcome::NoLock => q.removed =~= Seq::empty(),
                Outcome::Unlocked(handle) => q.removed =~= seq![handle],
                Outcome::Unclosed(handle) => q.removed =~= seq![handle],
            }
        }),
{
    lemma_each_handle_released_once(p, events);
}

/// The answer of a system that hides nothing and fails at nothing to what a
/// state is waiting for, where the process has the handle table `records`
/// and the object behind the record at `lock`, and behind no other, bears
/// the name of the lock.
pub open spec fn answers_well(
    p: Progress,
    event: Event,
    records: Seq<HandleRecord>,
    lock: int,
) -> bool {
    match p.phase {
        Phase::Opening => event matches Event::Opened(Some(_)),
        Phase::Listing => event matches Event::Handles(Ok(bytes)) && table_records(bytes@) == Some(
            records,
        ),
        Phase::Copying => event matches Event::Duplicated(Some(_)),
        Phase::Naming => event matches Event::Named { name, base } && (lock_named(name, base)
            <==> p.index == lock),
        Phase::Taking => event matches Event::TakenOver(Some(_)),
        Phase::Finished => false,
        _ => event == Event::Closed(true),
    }
}

/// Every event of the run is the answer of such a system to what the
/// inspection was waiting for.
pub open spec fn well_answered(
    p: Progress,
    events: Seq<Event>,
    records: Seq<HandleRecord>,
    lock: int,
) -> bool
    decreases events.len(),
{
    events.len() == 0 || (well_answered(p, events.drop_last(), records, lock) && answers_well(
        replay(p, events.drop_last()),
        events.last(),
        records,
        lock,
    ))
}

/// How often a run asked for a handle to be taken from the process.
pub open spec fn take_overs(p: Progress, events: Seq<Event>) -> nat
    decreases events.len(),
{
    if events.len() == 0 {
        0
    } else {
        take_overs(p, events.drop_last()) + (match after(
            replay(p, events.drop_last()),
            events.last(),
        ).1 {
            Some(Action::TakeOver { .. }) => 1nat,
            _ => 0nat,
        })
    }
}

/// Where an inspection stands that such a system has answered so far: it
/// has not gone past the record of the lock without taking it, and once it
/// leaves, the lock is unlocked.
pub open spec fn on_course(p: Progress, records: Seq<HandleRecord>, lock: int) -> bool {
    &&& well_formed(p)
    &&& 0 <= lock < records.len()
    &&& match p.phase {
        Phase::Opening => p.outcome == Outcome::NoLock,
        Phase::Listing => p.outcome == Outcome::NoLock,
        Phase::Copying => p.records == records && p.index <= lock,
        Phase::Naming => p.records == records && p.index <= lock,
        Phase::Releasing => p.records == records && p.index <= lock && (p.lock_found <==> p.index
            == lock),
        Phase::Taking => p.records == records && p.index == lock,
        Phase::Dropping => p.records == records && p.index == lock,
        Phase::Leaving => p.outcome == Outcome::Unlocked(records[lock].handle_value),
        Phase::Finished => p.outcome == Outcome::Unlocked(records[lock].handle_value),
    }
}

/// Whether a state has asked for the lock to be taken.
pub open spec fn has_taken(p: Progress) -> bool {
    p.phase == Phase::Taking || p.phase == Phase::Dropping || p.phase == Phase::Leaving || p.phase
        == Phase::Finished
}

/// One step of an inspection that such a system answers keeps it on course,
/// and asks for a handle to be taken only when it comes to the lock.
pub proof fn lemma_stays_on_course(
    p: Progress,
    event: Event,
    records: Seq<HandleRecord>,
    lock: int,
)
    requires
        on_course(p, records, lock),
        answers_well(p, event, records, lock),
    ensures
        awaits(p, event),
        on_course(after_expected(p, event).0, records, lock),
        after_expected(p, event).1 is TakeOver <==> (!has_taken(p) && has_taken(
            after_expected(p, event).0,
        )),
        after_expected(p, event).1 is TakeOver ==> after_expected(p, event).1 == (Action::TakeOver {
            process: p.process.unwrap(),
            source: records[lock].handle_value,
        }),
{
}

/// The lock is found wherever it stands in the table. Take a process whose
/// handle table holds, among any number of other objects, one whose name is
/// that of the lock, and a system that answers every action with success.
/// Then every run of the inspection stays on course; it asks for a handle
/// to be taken at most once, and only for the handle of the lock; and when
/// it is over, the lock is unlocked: its handle, and no other, is gone from
/// the process, and the last action says so.
pub proof fn lemma_lock_is_found(
    p: Progress,
    events: Seq<Event>,
    records: Seq<HandleRecord>,
    lock: int,
)
    requires
        on_course(p, records, lock),
        p.phase == Phase::Opening || p.phase == Phase::Listing,
        well_answered(p, events, records, lock),
    ensures
        on_course(replay(p, events), records, lock),
        take_overs(p, events) == (if has_taken(replay(p, events)) {
            1nat
        } else {
            0nat
        }),
        replay(p, events).phase == Phase::Finished ==> {
            &&& replay(p, events).outcome == Outcome::Unlocked(records[lock].handle_value)
            &&& replay(p, events).removed =~= seq![records[lock].handle_value]
            &&& events.len() > 0
            &&& after(replay(p, events.drop_last()), events.last()).1 == Some(
                Action::Finish { outcome: Outcome::Unlocked(records[lock].handle_value) },
            )
        },
    decreases events.len(),
{
    if events.len() > 0 {
        let head = events.drop_last();
        lemma_lock_is_found(p, head, records, lock);
        lemma_stays_on_course(replay(p, head), events.last(), records, lock);
    }
}

/// One lock among other objects yields one line. Where a run that began as
/// `query_child` begins was answered throughout by a system that fails at
/// nothing, for a process whose handle table holds the lock at one place,
/// wherever that is, what the run comes to is the line that names the
/// handle of the lock as closed.
pub proof fn lemma_run_yields_closed_line(
    pid: u32,
    maybe_handle: Option<u64>,
    events: Seq<Event>,
    records: Seq<HandleRecord>,
    lock: int,
    line: Option<String>,
)
    requires
        0 <= lock < records.len(),
        well_answered(begun(pid, maybe_handle).0, events, records, lock),
        comes_to(pid, pending(begun(pid, maybe_handle), events), line),
    ensures
        tells(line, pid, Outcome::Unlocked(records[lock].handle_value)),
        take_overs(begun(pid, maybe_handle).0, events) == 1,
        replay(begun(pid, maybe_handle).0, events).removed =~= seq![records[lock].handle_value],
{
    let start = begun(pid, maybe_handle);
    lemma_lock_is_found(start.0, events, records, lock);
    if events.len() > 0 {
        let head = events.drop_last();
        lemma_lock_is_found(start.0, head, records, lock);
        lemma_stays_on_course(replay(start.0, head), events.last(), records, lock);
        lemma_handles_accounted(replay(start.0, head), events.last());
    }
}

/// The same of an inspection that `perform` has conducted: where `perform`
/// answers every action for the process as a system does that fails at
/// nothing, and the handle table of the process holds the lock at one
/// place, what the inspection came to is the line that names the handle of
/// the lock as closed.
pub proof fn lemma_inspection_yields_closed_line<F: Fn(Action) -> Event>(
    perform: F,
    pid: u32,
    maybe_handle: Option<u64>,
    line: Option<String>,
    records: Seq<HandleRecord>,
    lock: int,
)
    requires
        inspected_by(perform, pid, maybe_handle, line),
        0 <= lock < records.len(),
        forall|events: Seq<Event>| #[trigger]
            conducted(perform, begun(pid, maybe_handle), events) ==> well_answered(
                begun(pid, maybe_handle).0,
                events,
                records,
                lock,
            ),
    ensures
        tells(line, pid, Outcome::Unlocked(records[lock].handle_value)),
{
    let start = begun(pid, maybe_handle);
    let events = choose|events: Seq<Event>|
        {
            &&& conducted(perform, start, events)
            &&& stops_at_finish(start, events)
            &&& comes_to(pid, #[trigger] pending(start, events), line)
        };
    lemma_run_yields_closed_line(pid, maybe_handle, events, records, lock, line);
}

} // verus!
