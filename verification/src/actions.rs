//! Actions: proposed next steps, not yet executed or logged. The planner
//! produces one from the current state; the orchestrator executes it against
//! the remote store and turns the outcome into a logged operation.

use crate::state::{Part, PartView};
use vstd::prelude::*;

verus! {

/// A proposed next step. `Terminate` ends the orchestrator loop; every other
/// variant names exactly one collaborator call to attempt.
#[derive(Debug, PartialEq)]
pub enum Action {
    LoadParts,
    StartUpload { attempt: u32 },
    Terminate,
    Abort { upload_id: String, attempt: u32, msg: String },
    Complete { upload_id: String, attempt: u32, parts: Vec<Part> },
    UploadPart { upload_id: String, index: usize, attempt: u32, part: Part },
}

/// Mathematical model of an `Action`.
#[verifier::ext_equal]
pub enum ActionView {
    LoadParts,
    StartUpload { attempt: u32 },
    Terminate,
    Abort { upload_id: Seq<char>, attempt: u32, msg: Seq<char> },
    Complete { upload_id: Seq<char>, attempt: u32, parts: Seq<PartView> },
    UploadPart { upload_id: Seq<char>, index: usize, attempt: u32, part: PartView },
}

impl View for Action {
    type V = ActionView;

    open spec fn view(&self) -> ActionView {
        match self {
            Action::LoadParts => ActionView::LoadParts,
            Action::StartUpload { attempt } => ActionView::StartUpload { attempt: *attempt },
            Action::Terminate => ActionView::Terminate,
            Action::Abort { upload_id, attempt, msg } => ActionView::Abort {
                upload_id: upload_id@,
                attempt: *attempt,
                msg: msg@,
            },
            Action::Complete { upload_id, attempt, parts } => ActionView::Complete {
                upload_id: upload_id@,
                attempt: *attempt,
                parts: parts@.map_values(|p: Part| p@),
            },
            Action::UploadPart { upload_id, index, attempt, part } => ActionView::UploadPart {
                upload_id: upload_id@,
                index: *index,
                attempt: *attempt,
                part: part@,
            },
        }
    }
}

} // verus!
