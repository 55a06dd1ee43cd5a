//! The planner: a pure, deterministic function from the current state and
//! the retry budget to the next action to attempt. It encodes the whole
//! retry and escalation policy: retry a phase until its attempt counter
//! reaches the budget, then downgrade uploading or completing to an abort
//! with a fresh counter, and give up aborting by terminating.

use crate::actions::{Action, ActionView};
use crate::state::{OperationView, State, StateView};
use vstd::prelude::*;

verus! {

/// What the planner proposes for each state. `max_attempts` is the retry
/// budget of each phase; a phase whose attempt counter has reached it is
/// escalated instead of retried.
pub open spec fn spec_next_action(s: StateView, max_attempts: u32) -> ActionView {
    match s {
        StateView::Init => ActionView::LoadParts,
        StateView::Starting { attempt, .. } => if attempt == max_attempts {
            ActionView::Terminate
        } else {
            ActionView::StartUpload { attempt }
        },
        StateView::Uploading { parts, upload_id, index, attempt } => if attempt == max_attempts {
            ActionView::Abort {
                upload_id,
                attempt: 1,
                msg: "too many failures uploading part"@,
            }
        } else {
            ActionView::UploadPart { upload_id, index, attempt, part: parts[index as int] }
        },
        StateView::Completing { upload_id, attempt, parts } => if attempt == max_attempts {
            ActionView::Abort {
                upload_id,
                attempt: 1,
                msg: "too many failures completing upload"@,
            }
        } else {
            ActionView::Complete { upload_id, attempt, parts }
        },
        StateView::Completed => ActionView::Terminate,
        StateView::Aborting { upload_id, attempt } => if attempt == max_attempts {
            ActionView::Terminate
        } else {
            ActionView::Abort {
                upload_id,
                attempt,
                msg: "continuing to abort upload"@,
            }
        },
        StateView::Aborted => ActionView::Terminate,
    }
}

/// Retry escalation: exhausting the upload retry budget downgrades to an
/// abort, never another upload. From an `Uploading` state with a fresh
/// attempt counter, three consecutive failed-part operations at the same
/// index (each recording the attempt the planner proposed: 0, 1, then 2)
/// leave the state `Uploading` with attempt 3 at the same index, and with a
/// retry budget of 3 the planner's next proposal is an abort with a fresh
/// abort counter, not another part upload.
pub proof fn lemma_retry_escalation(
    s: StateView,
    m1: Seq<char>,
    m2: Seq<char>,
    m3: Seq<char>,
)
    requires
        s.wf(),
        s is Uploading,
        s->Uploading_attempt == 0,
    ensures
        ({
            let i = s->Uploading_index;
            let r1 = crate::state::transition(
                s,
                OperationView::FailedPart { index: i, attempt: 0, msg: m1 },
            );
            let r2 = crate::state::transition(
                r1->Ok_0,
                OperationView::FailedPart { index: i, attempt: 1, msg: m2 },
            );
            let r3 = crate::state::transition(
                r2->Ok_0,
                OperationView::FailedPart { index: i, attempt: 2, msg: m3 },
            );
            &&& r1 is Ok
            &&& r2 is Ok
            &&& r3 is Ok
            &&& r3->Ok_0 is Uploading
            &&& r3->Ok_0->Uploading_attempt == 3
            &&& r3->Ok_0->Uploading_index == i
            &&& spec_next_action(r3->Ok_0, 3) is Abort
            &&& spec_next_action(r3->Ok_0, 3)->Abort_attempt == 1
            &&& !(spec_next_action(r3->Ok_0, 3) is UploadPart)
        }),
{
}

/// Decide the next action for the current state. Pure: the state is only
/// read, and the proposal is exactly what the policy table says.
pub fn next_action(state: &State, max_attempts: u32) -> (a: Action)
    requires
        state@.wf(),
    ensures
        a@ == spec_next_action(state@, max_attempts),
{
    match state {
        State::Init => Action::LoadParts,
        State::Starting { parts, attempt } => {
            if *attempt == max_attempts {
                Action::Terminate
            } else {
                Action::StartUpload { attempt: *attempt }
            }
        },
        State::Uploading { parts, upload_id, index, attempt } => {
            if *attempt == max_attempts {
                Action::Abort {
                    upload_id: upload_id.clone(),
                    attempt: 1,
                    msg: String::from_str("too many failures uploading part"),
                }
            } else {
                Action::UploadPart {
                    upload_id: upload_id.clone(),
                    index: *index,
                    attempt: *attempt,
                    part: parts[*index].clone(),
                }
            }
        },
        State::Completing { upload_id, attempt, parts } => {
            if *attempt == max_attempts {
                Action::Abort {
                    upload_id: upload_id.clone(),
                    attempt: 1,
                    msg: String::from_str("too many failures completing upload"),
                }
            } else {
                Action::Complete {
                    upload_id: upload_id.clone(),
                    attempt: *attempt,
                    parts: crate::state::clone_parts(parts),
                }
            }
        },
        State::Completed => Action::Terminate,
        State::Aborting { upload_id, attempt } => {
            if *attempt == max_attempts {
                Action::Terminate
            } else {
                Action::Abort {
                    upload_id: upload_id.clone(),
                    attempt: *attempt,
                    msg: String::from_str("continuing to abort upload"),
                }
            }
        },
        State::Aborted => Action::Terminate,
    }
}

} // verus!
