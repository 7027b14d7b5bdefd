//! The protocol of a system query that fills a buffer of the caller's: ask
//! with the buffer at hand, and where the system says that the buffer is too
//! small, grow it to the size that the system named and ask again, a bounded
//! number of times.

use vstd::prelude::*;

verus! {

/// The status with which a query reports that the buffer holds the answer.
pub const STATUS_SUCCESS: i32 = 0;

/// The status with which a query reports that the buffer was too small.
pub const STATUS_INFO_LENGTH_MISMATCH: i32 = -1073741820;

/// The number of times that this library's queries ask again after the
/// first call.
pub const QUERY_RETRIES: u32 = 8;

/// What one call of a query gave back: the status, the size in bytes that the
/// system reported, and the buffer that the call was given.
#[derive(Debug)]
pub struct QueryAnswer {
    pub status: i32,
    pub needed: u32,
    pub buffer: Vec<u8>,
}

/// Why a query gave no answer.
#[derive(Debug, Clone, Copy, PartialEq, Eq, Structural)]
pub enum QueryError {
    /// The system reported a status that is neither success nor a buffer
    /// that is too small.
    Status(i32),
    /// The buffer was still too small after the last retry allowed.
    NoConvergence,
}

/// What to do after one answer.
#[derive(Debug)]
pub enum QueryStep {
    /// The buffer holds the answer.
    Done(Vec<u8>),
    /// Ask again with this buffer, which has been grown.
    Retry(Vec<u8>),
    /// Give up.
    Fail(QueryError),
}

/// One call of the query: the buffer it was given and what it gave back.
pub struct Attempt {
    pub offered: Vec<u8>,
    pub answer: QueryAnswer,
}

/// The length of the buffer for the next call: the size reported, or that
/// of the buffer that came back where that is not less.
pub open spec fn next_size(held: nat, needed: nat) -> nat {
    if needed > held {
        needed
    } else {
        held
    }
}

/// The buffer for the next call: the buffer that came back, with zeros
/// behind it up to the size reported, where that is more than it holds.
pub open spec fn grown(buffer: Seq<u8>, needed: nat) -> Seq<u8> {
    if needed > buffer.len() {
        buffer + Seq::new((needed - buffer.len()) as nat, |i: int| 0u8)
    } else {
        buffer
    }
}

/// The error that ends a query whose last answer had this status, which is
/// not success.
pub open spec fn failure_of(status: i32) -> QueryError {
    if status == STATUS_INFO_LENGTH_MISMATCH {
        QueryError::NoConvergence
    } else {
        QueryError::Status(status)
    }
}

/// `step` is what follows `answer` when `retries_left` more calls are allowed.
pub open spec fn is_step_after(step: QueryStep, answer: QueryAnswer, retries_left: nat) -> bool {
    match step {
        QueryStep::Done(buffer) => answer.status == STATUS_SUCCESS && buffer@ == answer.buffer@,
        QueryStep::Retry(buffer) => {
            &&& answer.status == STATUS_INFO_LENGTH_MISMATCH
            &&& retries_left > 0
            &&& buffer@ == grown(answer.buffer@, answer.needed as nat)
        },
        QueryStep::Fail(error) => {
            &&& answer.status != STATUS_SUCCESS
            &&& answer.status == STATUS_INFO_LENGTH_MISMATCH ==> retries_left == 0
            &&& error == failure_of(answer.status)
        },
    }
}

/// Decides what follows one answer of a query: on success the buffer is the
/// result; on a buffer that is too small the buffer is grown, with zeros, to
/// the size reported, if a retry is left; every other status ends the query.
pub fn next_step(answer: QueryAnswer, retries_left: u32) -> (step: QueryStep)
    ensures
        is_step_after(step, answer, retries_left as nat),
{
    if answer.status == STATUS_SUCCESS {
        QueryStep::Done(answer.buffer)
    } else if answer.status == STATUS_INFO_LENGTH_MISMATCH {
        if retries_left == 0 {
            QueryStep::Fail(QueryError::NoConvergence)
        } else {
            let mut buffer = answer.buffer;
            let needed = answer.needed as usize;
            if needed > buffer.len() {
                buffer.resize(needed, 0u8);
            }
            assert(buffer@ =~= grown(answer.buffer@, answer.needed as nat));
            QueryStep::Retry(buffer)
        }
    } else {
        QueryStep::Fail(QueryError::Status(answer.status))
    }
}

/// The call is one that `query` can have made: given the buffer, it can
/// have given this answer.
pub open spec fn answers<F: Fn(Vec<u8>) -> QueryAnswer>(query: F, attempt: Attempt) -> bool {
    call_ensures(query, (attempt.offered,), attempt.answer)
}

/// The calls of `trace` are calls of `query` that follow the protocol: the
/// first was given an empty buffer, each one but the last reported a buffer
/// that is too small, and each one after the first was given the buffer that
/// came back from the call before it, grown to the size reported.
pub open spec fn follows_protocol<F: Fn(Vec<u8>) -> QueryAnswer>(
    query: F,
    trace: Seq<Attempt>,
) -> bool {
    &&& trace.len() > 0
    &&& trace[0].offered@.len() == 0
    &&& forall|i: int| 0 <= i < trace.len() ==> #[trigger] answers(query, trace[i])
    &&& forall|i: int|
        0 <= i < trace.len() - 1 ==> (#[trigger] trace[i]).answer.status
            == STATUS_INFO_LENGTH_MISMATCH
    &&& forall|i: int|
        0 <= i < trace.len() - 1 ==> (#[trigger] trace[i + 1]).offered@ == grown(
            trace[i].answer.buffer@,
            trace[i].answer.needed as nat,
        )
}

/// `result` is how a query ends whose calls were those of `trace`, with at
/// most `max_retries` calls after the first: the buffer of the last call if
/// that call succeeded, and else the error for its status. The query stops
/// on a buffer that is too small only when no retry is left.
pub open spec fn ends_with(
    trace: Seq<Attempt>,
    max_retries: nat,
    result: Result<Vec<u8>, QueryError>,
) -> bool {
    let last = trace.last().answer;
    &&& 0 < trace.len() <= max_retries + 1
    &&& match result {
        Ok(buffer) => last.status == STATUS_SUCCESS && buffer@ == last.buffer@,
        Err(error) => {
            &&& last.status != STATUS_SUCCESS
            &&& error == failure_of(last.status)
            &&& last.status == STATUS_INFO_LENGTH_MISMATCH ==> trace.len() == max_retries + 1
        },
    }
}

/// Runs a query to its end. `query` is called with an empty buffer first;
/// while it reports a buffer that is too small, the buffer is grown to the
/// size it reported and the call is made again, at most `max_retries` times.
/// The result is the buffer of the call that succeeded; the status of the
/// call that failed; or `NoConvergence`, if the buffer was too small still
/// at the last call allowed.
pub fn growing_buffer_query<F: Fn(Vec<u8>) -> QueryAnswer>(query: F, max_retries: u32) -> (result:
    Result<Vec<u8>, QueryError>)
    requires
        forall|buffer: Vec<u8>| call_requires(query, (buffer,)),
    ensures
        exists|trace: Seq<Attempt>|
            follows_protocol(query, trace) && ends_with(trace, max_retries as nat, result),
{
    let mut buffer: Vec<u8> = Vec::new();
    let mut retries: u32 = 0;
    let ghost mut trace: Seq<Attempt> = Seq::empty();
    loop
        invariant
            forall|buffer: Vec<u8>| call_requires(query, (buffer,)),
            retries <= max_retries,
            trace.len() == retries,
            retries == 0 ==> buffer@.len() == 0,
            forall|i: int| 0 <= i < trace.len() ==> #[trigger] answers(query, trace[i]),
            forall|i: int|
                0 <= i < trace.len() ==> (#[trigger] trace[i]).answer.status
                    == STATUS_INFO_LENGTH_MISMATCH,
            retries > 0 ==> trace[0].offered@.len() == 0,
            forall|i: int|
                0 <= i < trace.len() - 1 ==> (#[trigger] trace[i + 1]).offered@ == grown(
                    trace[i].answer.buffer@,
                    trace[i].answer.needed as nat,
                ),
            retries > 0 ==> buffer@ == grown(
                trace.last().answer.buffer@,
                trace.last().answer.needed as nat,
            ),
        decreases max_retries - retries,
    {
        let ghost offered = buffer;
        let ghost before = trace;
        let answer = query(buffer);
        let ghost seen = answer;
        proof {
            trace = before.push(Attempt { offered, answer: seen });
            assert forall|i: int| 0 <= i < trace.len() - 1 implies (#[trigger] trace[i
                + 1]).offered@ == grown(trace[i].answer.buffer@, trace[i].answer.needed as nat) by {
                if i + 1 < before.len() {
                    assert(trace[i + 1] == before[i + 1]);
                    assert(trace[i] == before[i]);
                } else {
                    assert(trace[i] == before.last());
                }
            }
            assert forall|i: int| 0 <= i < trace.len() - 1 implies (#[trigger] trace[
                i
            ]).answer.status == STATUS_INFO_LENGTH_MISMATCH by {
                assert(trace[i] == before[i]);
            }
            assert forall|i: int| 0 <= i < trace.len() implies #[trigger] answers(
                query,
                trace[i],
            ) by {
                if i < before.len() {
                    assert(trace[i] == before[i]);
                }
            }
            if retries > 0 {
                assert(trace[0] == before[0]);
            }
        }
        match next_step(answer, max_retries - retries) {
            QueryStep::Done(filled) => {
                assert(follows_protocol(query, trace));
                assert(ends_with(trace, max_retries as nat, Ok::<Vec<u8>, QueryError>(filled)));
                return Ok(filled);
            },
            QueryStep::Fail(error) => {
                assert(follows_protocol(query, trace));
                assert(ends_with(trace, max_retries as nat, Err::<Vec<u8>, QueryError>(error)));
                return Err(error);
            },
            QueryStep::Retry(grown) => {
                buffer = grown;
                retries += 1;
            },
        }
    }
}

/// What a query says of a buffer of some length, the bytes aside.
pub struct Reply {
    pub status: i32,
    pub needed: u32,
}

/// `query` answers as `respond` says: its status and the size it reports
/// depend on the length of the buffer alone, and the buffer comes back with
/// the length it had.
pub open spec fn answers_as<F: Fn(Vec<u8>) -> QueryAnswer>(
    query: F,
    respond: spec_fn(nat) -> Reply,
) -> bool {
    forall|offered: Vec<u8>, answer: QueryAnswer| #[trigger]
        call_ensures(query, (offered,), answer) ==> {
            &&& answer.status == respond(offered@.len()).status
            &&& answer.needed == respond(offered@.len()).needed
            &&& answer.buffer@.len() == offered@.len()
        }
}

/// The length of the buffer at the call that follows `retries` retries, for
/// a query that answers as `respond` says.
pub open spec fn offered_size(respond: spec_fn(nat) -> Reply, retries: nat) -> nat
    decreases retries,
{
    if retries == 0 {
        0
    } else {
        let held = offered_size(respond, (retries - 1) as nat);
        next_size(held, respond(held).needed as nat)
    }
}

/// In a run of the protocol each call is given a buffer of the length that
/// the answers before it lead to.
pub proof fn lemma_offered_sizes<F: Fn(Vec<u8>) -> QueryAnswer>(
    query: F,
    respond: spec_fn(nat) -> Reply,
    trace: Seq<Attempt>,
    at: nat,
)
    requires
        follows_protocol(query, trace),
        answers_as(query, respond),
        at < trace.len(),
    ensures
        trace[at as int].offered@.len() == offered_size(respond, at),
        trace[at as int].answer.status == respond(offered_size(respond, at)).status,
        trace[at as int].answer.needed == respond(offered_size(respond, at)).needed,
        trace[at as int].answer.buffer@.len() == offered_size(respond, at),
    decreases at,
{
    assert(answers(query, trace[at as int]));
    if at > 0 {
        lemma_offered_sizes(query, respond, trace, (at - 1) as nat);
        assert(trace[(at - 1) + 1].offered@ == grown(
            trace[at - 1].answer.buffer@,
            trace[at - 1].answer.needed as nat,
        ));
    }
}

/// Convergence. Take a query that reports a buffer that is too small at each
/// of its first `growths` calls and succeeds at the next. If that many
/// retries are allowed, the run makes exactly `growths` retries and ends
/// with the buffer of the call that succeeded, which has the length that the
/// sizes reported led to: at least the size that the last report asked for.
pub proof fn lemma_converges<F: Fn(Vec<u8>) -> QueryAnswer>(
    query: F,
    respond: spec_fn(nat) -> Reply,
    trace: Seq<Attempt>,
    max_retries: nat,
    result: Result<Vec<u8>, QueryError>,
    growths: nat,
)
    requires
        follows_protocol(query, trace),
        ends_with(trace, max_retries, result),
        answers_as(query, respond),
        growths <= max_retries,
        forall|k: nat|
            k < growths ==> respond(#[trigger] offered_size(respond, k)).status
                == STATUS_INFO_LENGTH_MISMATCH,
        respond(offered_size(respond, growths)).status == STATUS_SUCCESS,
    ensures
        trace.len() == growths + 1,
        result is Ok,
        result->Ok_0@.len() == offered_size(respond, growths),
        growths > 0 ==> offered_size(respond, growths) >= respond(
            offered_size(respond, (growths - 1) as nat),
        ).needed,
{
    let last = (trace.len() - 1) as nat;
    lemma_offered_sizes(query, respond, trace, last);
    if last < growths {
        assert(respond(offered_size(respond, last)).status == STATUS_INFO_LENGTH_MISMATCH);
    } else if last > growths {
        lemma_offered_sizes(query, respond, trace, growths);
        assert(trace[growths as int].answer.status == STATUS_INFO_LENGTH_MISMATCH);
    }
}

/// No endless retrying. For a query that reports a buffer that is too small
/// whatever buffer it is given, and so also for one whose reported size
/// never grows, the run ends after the retries allowed, with
/// `NoConvergence`.
pub proof fn lemma_gives_up<F: Fn(Vec<u8>) -> QueryAnswer>(
    query: F,
    respond: spec_fn(nat) -> Reply,
    trace: Seq<Attempt>,
    max_retries: nat,
    result: Result<Vec<u8>, QueryError>,
)
    requires
        follows_protocol(query, trace),
        ends_with(trace, max_retries, result),
        answers_as(query, respond),
        forall|size: nat| (#[trigger] respond(size)).status == STATUS_INFO_LENGTH_MISMATCH,
    ensures
        trace.len() == max_retries + 1,
        result == Err::<Vec<u8>, QueryError>(QueryError::NoConvergence),
{
    let last = (trace.len() - 1) as nat;
    lemma_offered_sizes(query, respond, trace, last);
}

} // verus!
