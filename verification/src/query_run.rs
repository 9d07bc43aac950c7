//! The decisions of a running query: which event the interface receives for
//! each batch, error or end of the result stream, and the final row count.

use vstd::prelude::*;

verus! {

/// Where a running query stands: the rows delivered so far and whether its
/// final event has been sent.
#[derive(Debug, Clone, Copy, PartialEq, Eq, Structural)]
pub struct QueryRun {
    pub total_rows: usize,
    pub finished: bool,
}

/// What happened next: a batch of that many rows came from the stream, the
/// stream failed, the stream ended, or sending the last batch failed.
#[derive(Debug, Clone, Copy, PartialEq, Eq, Structural)]
pub enum QueryEvent {
    Batch(usize),
    Failed,
    StreamEnded,
    EmitFailed,
}

/// What to send to the interface: the batch (`query:batch`), the error
/// (`query:error`), the final row count (`query:done`), or nothing.
#[derive(Debug, Clone, Copy, PartialEq, Eq, Structural)]
pub enum QueryAction {
    EmitBatch,
    EmitError,
    EmitDone(usize),
    Nothing,
}

/// A query that has delivered nothing yet.
pub fn query_run_start() -> (r: QueryRun)
    ensures
        r == (QueryRun { total_rows: 0, finished: false }),
{
    QueryRun { total_rows: 0, finished: false }
}

/// The next state and action: a batch is sent and counted; a failed stream
/// ends the query with its error; the end of the stream, or a batch that
/// could not be sent, ends it with the row count. Once ended, nothing more
/// is sent.
pub open spec fn step(run: QueryRun, event: QueryEvent) -> (QueryRun, QueryAction) {
    if run.finished {
        (run, QueryAction::Nothing)
    } else {
        match event {
            QueryEvent::Batch(n) => (
                QueryRun { total_rows: (run.total_rows + n) as usize, finished: false },
                QueryAction::EmitBatch,
            ),
            QueryEvent::Failed => (QueryRun { finished: true, ..run }, QueryAction::EmitError),
            QueryEvent::StreamEnded => (
                QueryRun { finished: true, ..run },
                QueryAction::EmitDone(run.total_rows),
            ),
            QueryEvent::EmitFailed => (
                QueryRun { finished: true, ..run },
                QueryAction::EmitDone(run.total_rows),
            ),
        }
    }
}

pub fn query_run_step(run: QueryRun, event: QueryEvent) -> (r: (QueryRun, QueryAction))
    requires
        !run.finished ==> match event {
            QueryEvent::Batch(n) => run.total_rows + n <= usize::MAX,
            _ => true,
        },
    ensures
        r == step(run, event),
        !run.finished ==> match event {
            QueryEvent::Batch(n) => r.0.total_rows == run.total_rows + n,
            _ => true,
        },
{
    if run.finished {
        return (run, QueryAction::Nothing);
    }
    match event {
        QueryEvent::Batch(n) => (QueryRun { total_rows: run.total_rows + n, finished: false }, QueryAction::EmitBatch),
        QueryEvent::Failed => (QueryRun { total_rows: run.total_rows, finished: true }, QueryAction::EmitError),
        QueryEvent::StreamEnded => (
            QueryRun { total_rows: run.total_rows, finished: true },
            QueryAction::EmitDone(run.total_rows),
        ),
        QueryEvent::EmitFailed => (
            QueryRun { total_rows: run.total_rows, finished: true },
            QueryAction::EmitDone(run.total_rows),
        ),
    }
}

/// The state after the events, from `run`.
pub open spec fn run_after(run: QueryRun, events: Seq<QueryEvent>) -> QueryRun
    decreases events.len(),
{
    if events.len() == 0 {
        run
    } else {
        step(run_after(run, events.drop_last()), events.last()).0
    }
}

/// The actions sent for the events, from `run`.
pub open spec fn actions_of(run: QueryRun, events: Seq<QueryEvent>) -> Seq<QueryAction>
    decreases events.len(),
{
    if events.len() == 0 {
        Seq::empty()
    } else {
        actions_of(run, events.drop_last()).push(step(run_after(run, events.drop_last()), events.last()).1)
    }
}

pub open spec fn is_final(a: QueryAction) -> bool {
    a is EmitError || a is EmitDone
}

/// The rows of the batches sent for the events, counted from the start.
pub open spec fn rows_sent(run: QueryRun, events: Seq<QueryEvent>) -> nat
    decreases events.len(),
{
    if events.len() == 0 {
        0
    } else {
        let before = run_after(run, events.drop_last());
        rows_sent(run, events.drop_last()) + match events.last() {
            QueryEvent::Batch(n) => if before.finished {
                0nat
            } else {
                n as nat
            },
            _ => 0nat,
        }
    }
}

proof fn lemma_run_invariant(events: Seq<QueryEvent>)
    requires
        rows_sent(query_start_spec(), events) <= usize::MAX,
    ensures
        run_after(query_start_spec(), events).total_rows == rows_sent(query_start_spec(), events),
        run_after(query_start_spec(), events).finished <==> exists|i: int|
            0 <= i < events.len() && #[trigger] is_final(actions_of(query_start_spec(), events)[i]),
        forall|i: int, j: int|
            0 <= i < j < events.len() && is_final(actions_of(query_start_spec(), events)[i])
                ==> actions_of(query_start_spec(), events)[j] == QueryAction::Nothing,
        actions_of(query_start_spec(), events).len() == events.len(),
    decreases events.len(),
{
    let start = query_start_spec();
    if events.len() > 0 {
        let prev = events.drop_last();
        let before = run_after(start, prev);
        let e = events.last();
        assert(rows_sent(start, prev) <= rows_sent(start, events));
        lemma_run_invariant(prev);
        let acts = actions_of(start, events);
        let pacts = actions_of(start, prev);
        assert(acts == pacts.push(step(before, e).1));
        assert forall|i: int| 0 <= i < prev.len() implies acts[i] == pacts[i] by {}
        if before.finished {
            let w = choose|i: int| 0 <= i < prev.len() && #[trigger] is_final(pacts[i]);
            assert(is_final(acts[w]));
        } else {
            assert forall|i: int| 0 <= i < prev.len() implies !is_final(#[trigger] acts[i]) by {
                if is_final(acts[i]) {
                    assert(is_final(pacts[i]));
                }
            }
            if run_after(start, events).finished {
                assert(is_final(acts[events.len() - 1]));
            }
        }
    }
}

pub open spec fn query_start_spec() -> QueryRun {
    QueryRun { total_rows: 0, finished: false }
}

/// A query sends at most one final event (`query:error` or `query:done`),
/// and nothing after it.
pub proof fn law_one_final_event(events: Seq<QueryEvent>, i: int, j: int)
    requires
        rows_sent(query_start_spec(), events) <= usize::MAX,
        0 <= i < j < events.len(),
        is_final(actions_of(query_start_spec(), events)[i]),
    ensures
        actions_of(query_start_spec(), events)[j] == QueryAction::Nothing,
{
    lemma_run_invariant(events);
}

/// The row count of `query:done` is the number of rows in the batches sent
/// before it.
pub proof fn law_done_counts_sent_rows(events: Seq<QueryEvent>, i: int)
    requires
        rows_sent(query_start_spec(), events) <= usize::MAX,
        0 <= i < events.len(),
        actions_of(query_start_spec(), events)[i] is EmitDone,
    ensures
        actions_of(query_start_spec(), events)[i] == QueryAction::EmitDone(
            rows_sent(query_start_spec(), events.take(i)) as usize,
        ),
{
    let start = query_start_spec();
    let pre = events.take(i + 1);
    assert(pre.drop_last() =~= events.take(i));
    lemma_prefix(events, i + 1);
    lemma_run_invariant(events.take(i));
}

/// The actions and counts of a prefix of the events are a prefix of those
/// of all the events.
proof fn lemma_prefix(events: Seq<QueryEvent>, k: int)
    requires
        0 <= k <= events.len(),
    ensures
        forall|i: int| 0 <= i < k ==> actions_of(query_start_spec(), events)[i] == actions_of(
            query_start_spec(),
            events.take(k),
        )[i],
        rows_sent(query_start_spec(), events.take(k)) <= rows_sent(query_start_spec(), events),
        actions_of(query_start_spec(), events.take(k)).len() == k,
    decreases events.len() - k,
{
    let start = query_start_spec();
    lemma_len(start, events.take(k));
    if k < events.len() {
        lemma_prefix(events, k + 1);
        assert(events.take(k + 1).drop_last() =~= events.take(k));
        lemma_len(start, events.take(k + 1));
    } else {
        assert(events.take(k) =~= events);
    }
}

proof fn lemma_len(run: QueryRun, events: Seq<QueryEvent>)
    ensures
        actions_of(run, events).len() == events.len(),
    decreases events.len(),
{
    if events.len() > 0 {
        lemma_len(run, events.drop_last());
    }
}

} // verus!
