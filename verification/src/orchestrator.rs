//! The orchestrator's decisions: replaying the durable log into a state on
//! recovery, and turning the outcome of each executed action into the
//! operation that gets logged. The loop that performs remote calls lives
//! outside the library; everything it decides is here.

use crate::actions::ActionView;
use crate::state::{
    accepts, result_view, transition, Error, ErrorView, Operation, OperationView, State, StateView,
};
use vstd::prelude::*;

verus! {

/// The model of a logged operation sequence.
pub open spec fn ops_view(ops: Vec<Operation>) -> Seq<OperationView> {
    ops@.map_values(|op: Operation| op@)
}

/// Folding an operation sequence from `Init`: the state after a log, or the
/// first error met. This is the sole recovery mechanism: the state never
/// exists independent of the operation sequence that produced it.
pub open spec fn spec_replay(ops: Seq<OperationView>) -> Result<StateView, ErrorView>
    decreases ops.len(),
{
    if ops.len() == 0 {
        Ok(StateView::Init)
    } else {
        match spec_replay(ops.drop_last()) {
            Ok(s) => transition(s, ops.last()),
            Err(e) => Err(e),
        }
    }
}

/// Once a prefix of the log fails to fold, the whole log fails the same way.
proof fn lemma_replay_err_persists(ops: Seq<OperationView>, k: int)
    requires
        0 <= k <= ops.len(),
        spec_replay(ops.take(k)) is Err,
    ensures
        spec_replay(ops) == spec_replay(ops.take(k)),
    decreases ops.len() - k,
{
    if k == ops.len() {
        assert(ops.take(k) =~= ops);
    } else {
        assert(ops.take(k + 1).drop_last() =~= ops.take(k));
        lemma_replay_err_persists(ops, k + 1);
    }
}

/// Rebuild the state by folding every logged operation, in order, starting
/// from `Init`. Returns the first transition error instead, if any record
/// cannot apply: a corrupt history is a fatal condition, not a skippable one.
pub fn replay(ops: &Vec<Operation>) -> (r: Result<State, Error>)
    ensures
        result_view(r) == spec_replay(ops_view(*ops)),
{
    let ghost all = ops_view(*ops);
    let mut state = State::new();
    let mut i: usize = 0;
    while i < ops.len()
        invariant
            i <= ops.len(),
            all == ops_view(*ops),
            spec_replay(all.take(i as int)) == Ok::<StateView, ErrorView>(state@),
        decreases ops.len() - i,
    {
        let op = ops[i].clone();
        proof {
            assert(all.take(i + 1).drop_last() =~= all.take(i as int));
            assert(all.take(i + 1).last() == op@);
        }
        match state.apply(op) {
            Ok(next) => {
                state = next;
                i = i + 1;
            },
            Err(e) => {
                proof {
                    lemma_replay_err_persists(all, i + 1);
                }
                return Err(e);
            },
        }
    }
    proof {
        assert(all.take(ops.len() as int) =~= all);
    }
    Ok(state)
}

/// Determinism of replay: the reconstructed state is a function of the
/// operation sequence alone, so folding the same log twice, each time fresh
/// from `Init`, yields identical results.
pub proof fn lemma_replay_deterministic(
    ops: Seq<OperationView>,
    r1: Result<StateView, ErrorView>,
    r2: Result<StateView, ErrorView>,
)
    requires
        r1 == spec_replay(ops),
        r2 == spec_replay(ops),
    ensures
        r1 == r2,
{
}

/// Every state a replayed log can reach is well-formed: the part list, once
/// configured, is non-empty and in `Uploading` the next-part index stays
/// within it.
pub proof fn lemma_replay_wf(ops: Seq<OperationView>)
    requires
        forall|j: int| 0 <= j < ops.len() ==> (#[trigger] ops[j]).wf(),
    ensures
        spec_replay(ops) matches Ok(s) ==> s.wf(),
    decreases ops.len(),
{
    if ops.len() > 0 {
        lemma_replay_wf(ops.drop_last());
        if spec_replay(ops.drop_last()) is Ok && spec_replay(ops) is Ok {
            crate::state::lemma_wf_preserved(
                spec_replay(ops.drop_last())->Ok_0,
                ops.last(),
            );
        }
    }
}

/// The operation recorded after attempting to start the upload session:
/// success carries the remote-assigned upload id, failure carries the
/// attempt counter and a message.
pub fn operation_for_start(attempt: u32, outcome: Result<String, String>) -> (op: Operation)
    ensures
        op@ == match outcome {
            Ok(id) => OperationView::Started { upload_id: id@ },
            Err(m) => OperationView::FailedStart { attempt, msg: m@ },
        },
{
    match outcome {
        Ok(upload_id) => Operation::Started { upload_id },
        Err(msg) => Operation::FailedStart { attempt, msg },
    }
}

/// The operation recorded after attempting one part upload. The remote store
/// may answer without an etag; a part without one has not been uploaded for
/// this design's purposes, so that outcome is recorded as a failure too.
pub fn operation_for_upload_part(
    index: usize,
    attempt: u32,
    outcome: Result<Option<String>, String>,
) -> (op: Operation)
    ensures
        op@ == match outcome {
            Ok(Some(etag)) => OperationView::UploadedPart { index, etag: etag@ },
            Ok(None) => OperationView::FailedPart {
                index,
                attempt,
                msg: "missing etag in uploaded part"@,
            },
            Err(m) => OperationView::FailedPart { index, attempt, msg: m@ },
        },
{
    match outcome {
        Ok(Some(etag)) => Operation::UploadedPart { index, etag },
        Ok(None) => Operation::FailedPart {
            index,
            attempt,
            msg: String::from_str("missing etag in uploaded part"),
        },
        Err(msg) => Operation::FailedPart { index, attempt, msg },
    }
}

/// The operation recorded after attempting to finalize the upload.
pub fn operation_for_complete(attempt: u32, outcome: Result<(), String>) -> (op: Operation)
    ensures
        op@ == match outcome {
            Ok(u) => OperationView::Completed,
            Err(m) => OperationView::FailedComplete { attempt, msg: m@ },
        },
{
    match outcome {
        Ok(()) => Operation::Completed,
        Err(msg) => Operation::FailedComplete { attempt, msg },
    }
}

/// The operation recorded after attempting to abort the upload session.
pub fn operation_for_abort(attempt: u32, outcome: Result<(), String>) -> (op: Operation)
    ensures
        op@ == match outcome {
            Ok(u) => OperationView::Aborted,
            Err(m) => OperationView::FailedAbort { attempt, msg: m@ },
        },
{
    match outcome {
        Ok(()) => Operation::Aborted,
        Err(msg) => Operation::FailedAbort { attempt, msg },
    }
}

/// How the planner's proposals and the transition table fit together: on a
/// well-formed state, whatever the remote outcome, the operation recorded
/// for a proposed start, part upload or completion is always accepted by the
/// state that proposed it. The operations recorded for an abort are accepted
/// exactly as stated here: a confirmed abort only from `Completing` or
/// `Aborting`, a failed abort only from `Aborting` — an abort escalated out
/// of `Uploading` leaves a residue this design does not resolve.
pub proof fn lemma_planned_operation_accepted(
    s: StateView,
    max_attempts: u32,
    id: Seq<char>,
    etag: Seq<char>,
    attempt: u32,
    msg: Seq<char>,
)
    requires
        s.wf(),
    ensures
        crate::planner::spec_next_action(s, max_attempts) is StartUpload ==> accepts(
            s,
            OperationView::Started { upload_id: id },
        ) && accepts(s, OperationView::FailedStart { attempt, msg }),
        crate::planner::spec_next_action(s, max_attempts) matches ActionView::UploadPart {
            index,
            ..
        } ==> accepts(s, OperationView::UploadedPart { index, etag }) && accepts(
            s,
            OperationView::FailedPart { index, attempt, msg },
        ),
        crate::planner::spec_next_action(s, max_attempts) is Complete ==> accepts(
            s,
            OperationView::Completed,
        ) && accepts(s, OperationView::FailedComplete { attempt, msg }),
        crate::planner::spec_next_action(s, max_attempts) is Abort ==> {
            &&& accepts(s, OperationView::Aborted) <==> (s is Completing || s is Aborting)
            &&& accepts(s, OperationView::FailedAbort { attempt, msg }) <==> s is Aborting
        },
{
}

} // verus!
