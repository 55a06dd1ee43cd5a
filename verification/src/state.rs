//! The upload state machine: operations are durably logged facts, and the
//! pure transition function folds them into the current upload state.

use vstd::prelude::*;

verus! {

/// Errors returned by the transition function. `InvalidState` and
/// `IndexOutOfBounds` are logic errors: the operation cannot apply to the
/// current state, which signals a defect in the caller, never a transient
/// remote failure.
#[derive(Debug)]
pub enum Error {
    InvalidState(String),
    Other(String),
    IndexOutOfBounds,
}

/// Mathematical model of an `Error`.
#[verifier::ext_equal]
pub enum ErrorView {
    InvalidState(Seq<char>),
    Other(Seq<char>),
    IndexOutOfBounds,
}

impl View for Error {
    type V = ErrorView;

    open spec fn view(&self) -> ErrorView {
        match self {
            Error::InvalidState(msg) => ErrorView::InvalidState(msg@),
            Error::Other(msg) => ErrorView::Other(msg@),
            Error::IndexOutOfBounds => ErrorView::IndexOutOfBounds,
        }
    }
}

/// One file chunk of the multipart upload: a 1-based part number and source
/// path, both immutable once assigned, and the remote-assigned etag, empty
/// until the part has been uploaded.
#[derive(Debug, PartialEq)]
pub struct Part {
    pub number: i64,
    pub path: String,
    pub etag: String,
}

/// Mathematical model of a `Part`.
#[verifier::ext_equal]
pub struct PartView {
    pub number: i64,
    pub path: Seq<char>,
    pub etag: Seq<char>,
}

impl View for Part {
    type V = PartView;

    open spec fn view(&self) -> PartView {
        PartView { number: self.number, path: self.path@, etag: self.etag@ }
    }
}

impl Clone for Part {
    fn clone(&self) -> (p: Part)
        ensures
            p@ == self@,
    {
        Part { number: self.number, path: self.path.clone(), etag: self.etag.clone() }
    }
}

impl Part {
    pub fn new(number: i64, path: String) -> (p: Part)
        ensures
            p@ == (PartView { number, path: path@, etag: Seq::<char>::empty() }),
    {
        Part { number, path, etag: String::new() }
    }
}

/// The view of a part list: the sequence of part models.
pub open spec fn parts_view(parts: Vec<Part>) -> Seq<PartView> {
    parts@.map_values(|p: Part| p@)
}

/// Copy a part list, preserving every part's model.
pub fn clone_parts(parts: &Vec<Part>) -> (r: Vec<Part>)
    ensures
        parts_view(r) == parts_view(*parts),
{
    let mut r: Vec<Part> = Vec::new();
    let mut i: usize = 0;
    while i < parts.len()
        invariant
            i <= parts.len(),
            r@.len() == i,
            forall|j: int| 0 <= j < i ==> (#[trigger] r@[j])@ == parts@[j]@,
        decreases parts.len() - i,
    {
        r.push(parts[i].clone());
        i = i + 1;
    }
    proof {
        assert(parts_view(r) =~= parts_view(*parts));
    }
    r
}

/// An immutable fact appended to the log. Operations are the only unit of
/// durability; the state never exists independent of the operation sequence
/// that produced it.
#[derive(Debug, PartialEq)]
pub enum Operation {
    ConfiguredParts(Vec<Part>),
    Started { upload_id: String },
    FailedStart { attempt: u32, msg: String },
    UploadedPart { index: usize, etag: String },
    FailedPart { index: usize, attempt: u32, msg: String },
    FailedComplete { attempt: u32, msg: String },
    Completed,
    FailedAbort { attempt: u32, msg: String },
    Aborted,
}

/// Mathematical model of an `Operation`.
#[verifier::ext_equal]
pub enum OperationView {
    ConfiguredParts(Seq<PartView>),
    Started { upload_id: Seq<char> },
    FailedStart { attempt: u32, msg: Seq<char> },
    UploadedPart { index: usize, etag: Seq<char> },
    FailedPart { index: usize, attempt: u32, msg: Seq<char> },
    FailedComplete { attempt: u32, msg: Seq<char> },
    Completed,
    FailedAbort { attempt: u32, msg: Seq<char> },
    Aborted,
}

impl Clone for Operation {
    fn clone(&self) -> (op: Operation)
        ensures
            op@ == self@,
    {
        match self {
            Operation::ConfiguredParts(parts) => Operation::ConfiguredParts(clone_parts(parts)),
            Operation::Started { upload_id } => Operation::Started {
                upload_id: upload_id.clone(),
            },
            Operation::FailedStart { attempt, msg } => Operation::FailedStart {
                attempt: *attempt,
                msg: msg.clone(),
            },
            Operation::UploadedPart { index, etag } => Operation::UploadedPart {
                index: *index,
                etag: etag.clone(),
            },
            Operation::FailedPart { index, attempt, msg } => Operation::FailedPart {
                index: *index,
                attempt: *attempt,
                msg: msg.clone(),
            },
            Operation::FailedComplete { attempt, msg } => Operation::FailedComplete {
                attempt: *attempt,
                msg: msg.clone(),
            },
            Operation::Completed => Operation::Completed,
            Operation::FailedAbort { attempt, msg } => Operation::FailedAbort {
                attempt: *attempt,
                msg: msg.clone(),
            },
            Operation::Aborted => Operation::Aborted,
        }
    }
}

impl View for Operation {
    type V = OperationView;

    open spec fn view(&self) -> OperationView {
        match self {
            Operation::ConfiguredParts(parts) => OperationView::ConfiguredParts(
                parts@.map_values(|p: Part| p@),
            ),
            Operation::Started { upload_id } => OperationView::Started { upload_id: upload_id@ },
            Operation::FailedStart { attempt, msg } => OperationView::FailedStart {
                attempt: *attempt,
                msg: msg@,
            },
            Operation::UploadedPart { index, etag } => OperationView::UploadedPart {
                index: *index,
                etag: etag@,
            },
            Operation::FailedPart { index, attempt, msg } => OperationView::FailedPart {
                index: *index,
                attempt: *attempt,
                msg: msg@,
            },
            Operation::FailedComplete { attempt, msg } => OperationView::FailedComplete {
                attempt: *attempt,
                msg: msg@,
            },
            Operation::Completed => OperationView::Completed,
            Operation::FailedAbort { attempt, msg } => OperationView::FailedAbort {
                attempt: *attempt,
                msg: msg@,
            },
            Operation::Aborted => OperationView::Aborted,
        }
    }
}

/// The reconstructed upload progress, derived solely from the operation
/// sequence: exactly one variant at a time, created as `Init` and frozen at
/// either terminal variant.
#[derive(Debug, PartialEq)]
pub enum State {
    Init,
    Starting { parts: Vec<Part>, attempt: u32 },
    Uploading { parts: Vec<Part>, upload_id: String, index: usize, attempt: u32 },
    Completing { upload_id: String, attempt: u32, parts: Vec<Part> },
    Completed,
    Aborting { upload_id: String, attempt: u32 },
    Aborted,
}

/// Mathematical model of a `State`.
#[verifier::ext_equal]
pub enum StateView {
    Init,
    Starting { parts: Seq<PartView>, attempt: u32 },
    Uploading { parts: Seq<PartView>, upload_id: Seq<char>, index: usize, attempt: u32 },
    Completing { upload_id: Seq<char>, attempt: u32, parts: Seq<PartView> },
    Completed,
    Aborting { upload_id: Seq<char>, attempt: u32 },
    Aborted,
}

impl View for State {
    type V = StateView;

    open spec fn view(&self) -> StateView {
        match self {
            State::Init => StateView::Init,
            State::Starting { parts, attempt } => StateView::Starting {
                parts: parts@.map_values(|p: Part| p@),
                attempt: *attempt,
            },
            State::Uploading { parts, upload_id, index, attempt } => StateView::Uploading {
                parts: parts@.map_values(|p: Part| p@),
                upload_id: upload_id@,
                index: *index,
                attempt: *attempt,
            },
            State::Completing { upload_id, attempt, parts } => StateView::Completing {
                upload_id: upload_id@,
                attempt: *attempt,
                parts: parts@.map_values(|p: Part| p@),
            },
            State::Completed => StateView::Completed,
            State::Aborting { upload_id, attempt } => StateView::Aborting {
                upload_id: upload_id@,
                attempt: *attempt,
            },
            State::Aborted => StateView::Aborted,
        }
    }
}

impl StateView {
    /// Well-formedness: a state reachable from `Init` through the transition
    /// function always has a non-empty part list, and in `Uploading` the next
    /// part to upload is a valid index into it.
    pub open spec fn wf(self) -> bool {
        match self {
            StateView::Starting { parts, .. } => 0 < parts.len() <= usize::MAX,
            StateView::Uploading { parts, index, .. } => index < parts.len() <= usize::MAX,
            StateView::Completing { parts, .. } => parts.len() <= usize::MAX,
            _ => true,
        }
    }
}

impl OperationView {
    /// Every operation that exists as a value in executable code satisfies
    /// this: a configured part list fits in memory.
    pub open spec fn wf(self) -> bool {
        match self {
            OperationView::ConfiguredParts(parts) => parts.len() <= usize::MAX,
            _ => true,
        }
    }
}

/// A failed attempt bumps the phase's attempt counter by one; the counter
/// pegs at its maximum rather than wrapping.
pub open spec fn bump(attempt: u32) -> u32 {
    if attempt == u32::MAX {
        attempt
    } else {
        (attempt + 1) as u32
    }
}

/// The transition table: which operation each state accepts, and the state
/// that results. Everything outside the table yields an error, so the
/// function is total over the full (state, operation) space.
pub open spec fn transition(s: StateView, op: OperationView) -> Result<StateView, ErrorView> {
    match s {
        StateView::Init => match op {
            OperationView::ConfiguredParts(parts) => if parts.len() == 0 {
                Err(ErrorView::InvalidState("no parts configured"@))
            } else {
                Ok(StateView::Starting { parts, attempt: 0 })
            },
            _ => Err(ErrorView::InvalidState("invalid operation in init state"@)),
        },
        StateView::Starting { parts, attempt } => match op {
            OperationView::Started { upload_id } => Ok(StateView::Uploading {
                parts,
                upload_id,
                index: 0,
                attempt: 0,
            }),
            OperationView::FailedStart { attempt: a, .. } => Ok(StateView::Starting {
                parts,
                attempt: a,
            }),
            _ => Err(ErrorView::InvalidState("invalid operation in ready state"@)),
        },
        StateView::Uploading { parts, upload_id, index, attempt } => match op {
            OperationView::UploadedPart { index: i, etag } => if i >= parts.len() {
                Err(ErrorView::IndexOutOfBounds)
            } else if i != index {
                Err(ErrorView::InvalidState("invalid operation in uploading state"@))
            } else {
                let updated = parts.update(
                    index as int,
                    PartView {
                        number: parts[index as int].number,
                        path: parts[index as int].path,
                        etag,
                    },
                );
                if index + 1 == parts.len() {
                    Ok(StateView::Completing { upload_id, attempt: 0, parts: updated })
                } else {
                    Ok(StateView::Uploading {
                        parts: updated,
                        upload_id,
                        index: (index + 1) as usize,
                        attempt: 0,
                    })
                }
            },
            OperationView::FailedPart { attempt: a, .. } => Ok(StateView::Uploading {
                parts,
                upload_id,
                index,
                attempt: bump(a),
            }),
            _ => Err(ErrorView::InvalidState("invalid operation in uploading state"@)),
        },
        StateView::Completing { upload_id, attempt, parts } => match op {
            OperationView::Completed => Ok(StateView::Completed),
            OperationView::FailedComplete { attempt: a, .. } => Ok(StateView::Completing {
                upload_id,
                attempt: bump(a),
                parts,
            }),
            OperationView::Aborted => Ok(StateView::Aborted),
            _ => Err(ErrorView::InvalidState("invalid operation in completing state"@)),
        },
        StateView::Completed => Err(
            ErrorView::InvalidState("invalid operation in completed state"@),
        ),
        StateView::Aborting { upload_id, attempt } => match op {
            OperationView::Aborted => Ok(StateView::Aborted),
            OperationView::FailedAbort { attempt: a, .. } => Ok(StateView::Aborting {
                upload_id,
                attempt: bump(a),
            }),
            _ => Err(ErrorView::InvalidState("invalid operation in aborting state"@)),
        },
        StateView::Aborted => Err(ErrorView::InvalidState("invalid operation in aborted state"@)),
    }
}

/// The transition table's domain: exactly the (state, operation) pairs the
/// table lists as accepted.
pub open spec fn accepts(s: StateView, op: OperationView) -> bool {
    match s {
        StateView::Init => op matches OperationView::ConfiguredParts(parts) && parts.len() > 0,
        StateView::Starting { .. } => op is Started || op is FailedStart,
        StateView::Uploading { parts, index, .. } => {
            ||| (op matches OperationView::UploadedPart { index: i, .. } && i == index && i
                < parts.len())
            ||| op is FailedPart
        },
        StateView::Completing { .. } => op is Completed || op is FailedComplete || op is Aborted,
        StateView::Completed => false,
        StateView::Aborting { .. } => op is Aborted || op is FailedAbort,
        StateView::Aborted => false,
    }
}

/// Totality: for every (state, operation) pair the transition function
/// yields either a successor state or a declared error, and it succeeds on
/// exactly the pairs in the transition table's domain.
pub proof fn lemma_transition_total(s: StateView, op: OperationView)
    ensures
        transition(s, op) is Ok <==> accepts(s, op),
        transition(s, op) is Err ==> {
            ||| transition(s, op)->Err_0 is InvalidState
            ||| transition(s, op)->Err_0 is IndexOutOfBounds
        },
{
}

/// Monotonic index: a transition out of `Uploading` that stays in
/// `Uploading` never decreases the next-part index, and on a well-formed
/// state the index never exceeds the (unchanged) number of parts.
pub proof fn lemma_index_monotonic(s: StateView, op: OperationView)
    requires
        s.wf(),
        s is Uploading,
        transition(s, op) is Ok,
        transition(s, op)->Ok_0 is Uploading,
    ensures
        transition(s, op)->Ok_0->Uploading_index >= s->Uploading_index,
        transition(s, op)->Ok_0->Uploading_parts.len() == s->Uploading_parts.len(),
        transition(s, op)->Ok_0->Uploading_index <= transition(s, op)->Ok_0->Uploading_parts.len(),
{
    match op {
        OperationView::UploadedPart { index: i, etag } => {
            assert(transition(s, op)->Ok_0->Uploading_index == s->Uploading_index + 1);
        },
        OperationView::FailedPart { .. } => {
            assert(transition(s, op)->Ok_0->Uploading_index == s->Uploading_index);
        },
        _ => {
            assert(transition(s, op) is Err);
        },
    }
}

/// Every state the transition function can reach from a well-formed state is
/// itself well-formed, so the well-formedness predicate is an invariant of
/// every replayed log.
pub proof fn lemma_wf_preserved(s: StateView, op: OperationView)
    requires
        s.wf(),
        op.wf(),
        transition(s, op) is Ok,
    ensures
        transition(s, op)->Ok_0.wf(),
{
}

/// Terminal immutability: `Completed` and `Aborted` accept no operation at
/// all; every operation applied to them is rejected as `InvalidState`, so no
/// successor state exists and the terminal state stands frozen.
pub proof fn lemma_terminal_immutable(s: StateView, op: OperationView)
    requires
        s is Completed || s is Aborted,
    ensures
        transition(s, op) matches Err(e) && e is InvalidState,
{
}

/// The parts a state carries, where it carries any.
pub open spec fn parts_of(s: StateView) -> Seq<PartView>
    recommends
        s is Starting || s is Uploading || s is Completing,
{
    match s {
        StateView::Starting { parts, .. } => parts,
        StateView::Uploading { parts, .. } => parts,
        StateView::Completing { parts, .. } => parts,
        _ => Seq::empty(),
    }
}

/// Parts are configured exactly once: after that, a successful transition
/// never changes their count, their numbers or their paths; at most the etag
/// of the part at the current upload index is written.
pub proof fn lemma_parts_stable(s: StateView, op: OperationView)
    requires
        s is Starting || s is Uploading || s is Completing,
        transition(s, op) is Ok,
        transition(s, op)->Ok_0 is Starting || transition(s, op)->Ok_0 is Uploading || transition(
            s,
            op,
        )->Ok_0 is Completing,
    ensures
        parts_of(transition(s, op)->Ok_0).len() == parts_of(s).len(),
        forall|j: int|
            0 <= j < parts_of(s).len() ==> {
                &&& (#[trigger] parts_of(transition(s, op)->Ok_0)[j]).number == parts_of(
                    s,
                )[j].number
                &&& parts_of(transition(s, op)->Ok_0)[j].path == parts_of(s)[j].path
            },
        forall|j: int|
            0 <= j < parts_of(s).len() && !(s is Uploading && j == s->Uploading_index)
                ==> (#[trigger] parts_of(transition(s, op)->Ok_0)[j]).etag == parts_of(s)[j].etag,
{
}

/// The upload session's identity is carried unchanged: a successful
/// transition between two states that hold an upload id never alters it.
pub open spec fn upload_id_of(s: StateView) -> Seq<char>
    recommends
        s is Uploading || s is Completing || s is Aborting,
{
    match s {
        StateView::Uploading { upload_id, .. } => upload_id,
        StateView::Completing { upload_id, .. } => upload_id,
        StateView::Aborting { upload_id, .. } => upload_id,
        _ => Seq::empty(),
    }
}

pub proof fn lemma_upload_id_stable(s: StateView, op: OperationView)
    requires
        s is Uploading || s is Completing || s is Aborting,
        transition(s, op) is Ok,
        transition(s, op)->Ok_0 is Uploading || transition(s, op)->Ok_0 is Completing || transition(
            s,
            op,
        )->Ok_0 is Aborting,
    ensures
        upload_id_of(transition(s, op)->Ok_0) == upload_id_of(s),
{
}

/// The model of an `apply` outcome.
pub open spec fn result_view(r: Result<State, Error>) -> Result<StateView, ErrorView> {
    match r {
        Ok(s) => Ok(s@),
        Err(e) => Err(e@),
    }
}

impl State {
    pub fn new() -> (s: State)
        ensures
            s@ == StateView::Init,
    {
        State::Init
    }

    /// The only legal way to move the upload forward: fold one logged
    /// operation into the state. Pure, and total: every (state, operation)
    /// pair returns either the successor state or a declared error, exactly
    /// as the transition table says.
    pub fn apply(self, op: Operation) -> (r: Result<State, Error>)
        ensures
            result_view(r) == transition(self@, op@),
    {
        match self {
            State::Init => match op {
                Operation::ConfiguredParts(parts) => {
                    if parts.len() == 0 {
                        Err(Error::InvalidState(String::from_str("no parts configured")))
                    } else {
                        Ok(State::Starting { parts, attempt: 0 })
                    }
                },
                _ => Err(
                    Error::InvalidState(String::from_str("invalid operation in init state")),
                ),
            },
            State::Starting { parts, attempt } => match op {
                Operation::Started { upload_id } => Ok(State::Uploading {
                    parts,
                    upload_id,
                    index: 0,
                    attempt: 0,
                }),
                Operation::FailedStart { attempt: a, .. } => Ok(State::Starting {
                    parts,
                    attempt: a,
                }),
                _ => Err(
                    Error::InvalidState(String::from_str("invalid operation in ready state")),
                ),
            },
            State::Uploading { mut parts, upload_id, index, attempt } => match op {
                Operation::UploadedPart { index: i, etag } => {
                    if i >= parts.len() {
                        Err(Error::IndexOutOfBounds)
                    } else if i != index {
                        Err(
                            Error::InvalidState(
                                String::from_str("invalid operation in uploading state"),
                            ),
                        )
                    } else {
                        let ghost old_parts = parts@;
                        let p = parts.remove(index);
                        let filled = Part { number: p.number, path: p.path, etag };
                        parts.insert(index, filled);
                        proof {
                            assert(parts@ =~= old_parts.update(index as int, parts@[index as int]));
                            assert(parts@.map_values(|q: Part| q@) =~= old_parts.map_values(
                                |q: Part| q@,
                            ).update(index as int, parts@[index as int]@));
                        }
                        let next: usize = index + 1;
                        if next == parts.len() {
                            Ok(State::Completing { upload_id, attempt: 0, parts })
                        } else {
                            Ok(State::Uploading { parts, upload_id, index: next, attempt: 0 })
                        }
                    }
                },
                Operation::FailedPart { attempt: a, .. } => {
                    let bumped: u32 = if a == u32::MAX {
                        a
                    } else {
                        a + 1
                    };
                    Ok(State::Uploading { parts, upload_id, index, attempt: bumped })
                },
                _ => Err(
                    Error::InvalidState(String::from_str("invalid operation in uploading state")),
                ),
            },
            State::Completing { upload_id, attempt, parts } => match op {
                Operation::Completed => Ok(State::Completed),
                Operation::FailedComplete { attempt: a, .. } => {
                    let bumped: u32 = if a == u32::MAX {
                        a
                    } else {
                        a + 1
                    };
                    Ok(State::Completing { upload_id, attempt: bumped, parts })
                },
                Operation::Aborted => Ok(State::Aborted),
                _ => Err(
                    Error::InvalidState(String::from_str("invalid operation in completing state")),
                ),
            },
            State::Completed => Err(
                Error::InvalidState(String::from_str("invalid operation in completed state")),
            ),
            State::Aborting { upload_id, attempt } => match op {
                Operation::Aborted => Ok(State::Aborted),
                Operation::FailedAbort { attempt: a, .. } => {
                    let bumped: u32 = if a == u32::MAX {
                        a
                    } else {
                        a + 1
                    };
                    Ok(State::Aborting { upload_id, attempt: bumped })
                },
                _ => Err(
                    Error::InvalidState(String::from_str("invalid operation in aborting state")),
                ),
            },
            State::Aborted => Err(
                Error::InvalidState(String::from_str("invalid operation in aborted state")),
            ),
        }
    }
}

} // verus!
