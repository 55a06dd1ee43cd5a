use partwal::actions::Action;
use partwal::orchestrator::{
    operation_for_abort, operation_for_complete, operation_for_start, operation_for_upload_part,
    replay,
};
use partwal::planner::next_action;
use partwal::state::{Error, Operation, Part, State};

fn one_part() -> Vec<Part> {
    vec![Part::new(1, String::from("a.txt"))]
}

#[test]
fn planner_init_loads_parts() {
    assert_eq!(next_action(&State::Init, 3), Action::LoadParts);
}

#[test]
fn planner_starting_retries_then_terminates() {
    let s = State::Starting {
        parts: one_part(),
        attempt: 1,
    };
    assert_eq!(next_action(&s, 3), Action::StartUpload { attempt: 1 });
    let s = State::Starting {
        parts: one_part(),
        attempt: 3,
    };
    assert_eq!(next_action(&s, 3), Action::Terminate);
}

#[test]
fn planner_uploading_proposes_next_part() {
    let s = State::Uploading {
        parts: one_part(),
        upload_id: String::from("U1"),
        index: 0,
        attempt: 2,
    };
    assert_eq!(
        next_action(&s, 3),
        Action::UploadPart {
            upload_id: String::from("U1"),
            index: 0,
            attempt: 2,
            part: Part::new(1, String::from("a.txt")),
        }
    );
}

#[test]
fn planner_uploading_escalates_to_abort() {
    let s = State::Uploading {
        parts: one_part(),
        upload_id: String::from("U1"),
        index: 0,
        attempt: 3,
    };
    let a = next_action(&s, 3);
    match a {
        Action::Abort {
            upload_id, attempt, ..
        } => {
            assert_eq!(upload_id, "U1");
            assert_eq!(attempt, 1);
        }
        other => panic!("expected an abort, got {:?}", other),
    }
}

#[test]
fn planner_completing_completes_then_aborts() {
    let s = State::Completing {
        upload_id: String::from("U1"),
        attempt: 0,
        parts: one_part(),
    };
    assert_eq!(
        next_action(&s, 3),
        Action::Complete {
            upload_id: String::from("U1"),
            attempt: 0,
            parts: one_part(),
        }
    );
    let s = State::Completing {
        upload_id: String::from("U1"),
        attempt: 3,
        parts: one_part(),
    };
    assert!(matches!(next_action(&s, 3), Action::Abort { attempt: 1, .. }));
}

#[test]
fn planner_aborting_retries_then_gives_up() {
    let s = State::Aborting {
        upload_id: String::from("U1"),
        attempt: 2,
    };
    assert!(matches!(next_action(&s, 3), Action::Abort { attempt: 2, .. }));
    let s = State::Aborting {
        upload_id: String::from("U1"),
        attempt: 3,
    };
    assert_eq!(next_action(&s, 3), Action::Terminate);
}

#[test]
fn planner_terminal_states_terminate() {
    assert_eq!(next_action(&State::Completed, 3), Action::Terminate);
    assert_eq!(next_action(&State::Aborted, 3), Action::Terminate);
}

#[test]
fn three_failures_escalate_to_abort() {
    let mut s = State::Uploading {
        parts: one_part(),
        upload_id: String::from("U1"),
        index: 0,
        attempt: 0,
    };
    for attempt in 0..3u32 {
        assert!(matches!(
            next_action(&s, 3),
            Action::UploadPart { .. }
        ));
        s = s
            .apply(Operation::FailedPart {
                index: 0,
                attempt,
                msg: String::from("timeout"),
            })
            .unwrap();
    }
    assert_eq!(
        s,
        State::Uploading {
            parts: one_part(),
            upload_id: String::from("U1"),
            index: 0,
            attempt: 3,
        }
    );
    let a = next_action(&s, 3);
    assert!(matches!(a, Action::Abort { attempt: 1, .. }));
    assert!(!matches!(a, Action::UploadPart { .. }));
}

#[test]
fn replay_reconstructs_interrupted_upload() {
    let ops = vec![
        Operation::ConfiguredParts(one_part()),
        Operation::Started {
            upload_id: String::from("U1"),
        },
        Operation::FailedPart {
            index: 0,
            attempt: 0,
            msg: String::from("timeout"),
        },
    ];
    let s = replay(&ops).unwrap();
    assert_eq!(
        s,
        State::Uploading {
            parts: one_part(),
            upload_id: String::from("U1"),
            index: 0,
            attempt: 1,
        }
    );
    assert_eq!(
        next_action(&s, 3),
        Action::UploadPart {
            upload_id: String::from("U1"),
            index: 0,
            attempt: 1,
            part: Part::new(1, String::from("a.txt")),
        }
    );
}

#[test]
fn replay_is_deterministic() {
    let ops = vec![
        Operation::ConfiguredParts(one_part()),
        Operation::Started {
            upload_id: String::from("U1"),
        },
        Operation::UploadedPart {
            index: 0,
            etag: String::from("e1"),
        },
        Operation::Completed,
    ];
    let first = replay(&ops).unwrap();
    let second = replay(&ops).unwrap();
    assert_eq!(first, second);
    assert_eq!(first, State::Completed);
}

#[test]
fn replay_of_empty_log_is_init() {
    assert_eq!(replay(&vec![]).unwrap(), State::Init);
}

#[test]
fn replay_stops_at_first_invalid_record() {
    let ops = vec![Operation::Started {
        upload_id: String::from("U1"),
    }];
    assert!(matches!(replay(&ops), Err(Error::InvalidState(_))));
}

#[test]
fn outcomes_become_operations() {
    assert_eq!(
        operation_for_start(0, Ok(String::from("U1"))),
        Operation::Started {
            upload_id: String::from("U1"),
        }
    );
    assert_eq!(
        operation_for_start(1, Err(String::from("refused"))),
        Operation::FailedStart {
            attempt: 1,
            msg: String::from("refused"),
        }
    );
    assert_eq!(
        operation_for_upload_part(0, 0, Ok(Some(String::from("e1")))),
        Operation::UploadedPart {
            index: 0,
            etag: String::from("e1"),
        }
    );
    assert_eq!(
        operation_for_upload_part(0, 2, Ok(None)),
        Operation::FailedPart {
            index: 0,
            attempt: 2,
            msg: String::from("missing etag in uploaded part"),
        }
    );
    assert_eq!(
        operation_for_upload_part(1, 0, Err(String::from("reset"))),
        Operation::FailedPart {
            index: 1,
            attempt: 0,
            msg: String::from("reset"),
        }
    );
    assert_eq!(operation_for_complete(0, Ok(())), Operation::Completed);
    assert_eq!(
        operation_for_complete(1, Err(String::from("boom"))),
        Operation::FailedComplete {
            attempt: 1,
            msg: String::from("boom"),
        }
    );
    assert_eq!(operation_for_abort(0, Ok(())), Operation::Aborted);
    assert_eq!(
        operation_for_abort(2, Err(String::from("denied"))),
        Operation::FailedAbort {
            attempt: 2,
            msg: String::from("denied"),
        }
    );
}
