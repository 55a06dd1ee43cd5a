use partwal::state::{Error, Operation, Part, State};

fn two_parts() -> Vec<Part> {
    vec![
        Part::new(1, String::from("a.txt")),
        Part::new(2, String::from("b.txt")),
    ]
}

#[test]
fn full_upload_scenario() {
    let s = State::new();
    let s = s.apply(Operation::ConfiguredParts(two_parts())).unwrap();
    assert_eq!(
        s,
        State::Starting {
            parts: two_parts(),
            attempt: 0,
        }
    );

    let s = s
        .apply(Operation::Started {
            upload_id: String::from("U1"),
        })
        .unwrap();
    assert_eq!(
        s,
        State::Uploading {
            parts: two_parts(),
            upload_id: String::from("U1"),
            index: 0,
            attempt: 0,
        }
    );

    let s = s
        .apply(Operation::UploadedPart {
            index: 0,
            etag: String::from("e1"),
        })
        .unwrap();
    let parts_after_first = vec![
        Part {
            number: 1,
            path: String::from("a.txt"),
            etag: String::from("e1"),
        },
        Part::new(2, String::from("b.txt")),
    ];
    assert_eq!(
        s,
        State::Uploading {
            parts: parts_after_first,
            upload_id: String::from("U1"),
            index: 1,
            attempt: 0,
        }
    );

    let s = s
        .apply(Operation::UploadedPart {
            index: 1,
            etag: String::from("e2"),
        })
        .unwrap();
    let parts_done = vec![
        Part {
            number: 1,
            path: String::from("a.txt"),
            etag: String::from("e1"),
        },
        Part {
            number: 2,
            path: String::from("b.txt"),
            etag: String::from("e2"),
        },
    ];
    assert_eq!(
        s,
        State::Completing {
            upload_id: String::from("U1"),
            attempt: 0,
            parts: parts_done,
        }
    );

    let s = s.apply(Operation::Completed).unwrap();
    assert_eq!(s, State::Completed);
}

#[test]
fn uploaded_part_out_of_bounds() {
    let s = State::Uploading {
        parts: two_parts(),
        upload_id: String::from("U1"),
        index: 1,
        attempt: 0,
    };
    let r = s.apply(Operation::UploadedPart {
        index: 5,
        etag: String::from("x"),
    });
    assert!(matches!(r, Err(Error::IndexOutOfBounds)));
}

#[test]
fn uploaded_part_index_mismatch_is_invalid() {
    let s = State::Uploading {
        parts: two_parts(),
        upload_id: String::from("U1"),
        index: 0,
        attempt: 0,
    };
    let r = s.apply(Operation::UploadedPart {
        index: 1,
        etag: String::from("x"),
    });
    assert!(matches!(r, Err(Error::InvalidState(_))));
}

#[test]
fn empty_part_set_is_rejected() {
    let r = State::new().apply(Operation::ConfiguredParts(vec![]));
    assert!(matches!(r, Err(Error::InvalidState(_))));
}

#[test]
fn init_rejects_other_operations() {
    let r = State::new().apply(Operation::Completed);
    assert!(matches!(r, Err(Error::InvalidState(_))));
}

#[test]
fn failed_start_keeps_parts_and_takes_attempt() {
    let s = State::Starting {
        parts: two_parts(),
        attempt: 0,
    };
    let s = s
        .apply(Operation::FailedStart {
            attempt: 2,
            msg: String::from("net down"),
        })
        .unwrap();
    assert_eq!(
        s,
        State::Starting {
            parts: two_parts(),
            attempt: 2,
        }
    );
}

#[test]
fn failed_part_bumps_attempt_and_keeps_index() {
    let s = State::Uploading {
        parts: two_parts(),
        upload_id: String::from("U1"),
        index: 1,
        attempt: 0,
    };
    let s = s
        .apply(Operation::FailedPart {
            index: 1,
            attempt: 0,
            msg: String::from("timeout"),
        })
        .unwrap();
    assert_eq!(
        s,
        State::Uploading {
            parts: two_parts(),
            upload_id: String::from("U1"),
            index: 1,
            attempt: 1,
        }
    );
}

#[test]
fn completing_accepts_completed_failure_and_abort() {
    let base = || State::Completing {
        upload_id: String::from("U1"),
        attempt: 0,
        parts: two_parts(),
    };
    assert_eq!(base().apply(Operation::Completed).unwrap(), State::Completed);
    assert_eq!(
        base()
            .apply(Operation::FailedComplete {
                attempt: 0,
                msg: String::from("oops"),
            })
            .unwrap(),
        State::Completing {
            upload_id: String::from("U1"),
            attempt: 1,
            parts: two_parts(),
        }
    );
    assert_eq!(base().apply(Operation::Aborted).unwrap(), State::Aborted);
}

#[test]
fn aborting_accepts_aborted_and_failure() {
    let base = || State::Aborting {
        upload_id: String::from("U1"),
        attempt: 1,
    };
    assert_eq!(base().apply(Operation::Aborted).unwrap(), State::Aborted);
    assert_eq!(
        base()
            .apply(Operation::FailedAbort {
                attempt: 1,
                msg: String::from("oops"),
            })
            .unwrap(),
        State::Aborting {
            upload_id: String::from("U1"),
            attempt: 2,
        }
    );
}

#[test]
fn terminal_states_reject_every_operation() {
    let ops = || {
        vec![
            Operation::ConfiguredParts(two_parts()),
            Operation::Started {
                upload_id: String::from("U1"),
            },
            Operation::UploadedPart {
                index: 0,
                etag: String::from("e"),
            },
            Operation::Completed,
            Operation::Aborted,
        ]
    };
    for op in ops() {
        assert!(matches!(
            State::Completed.apply(op),
            Err(Error::InvalidState(_))
        ));
    }
    for op in ops() {
        assert!(matches!(
            State::Aborted.apply(op),
            Err(Error::InvalidState(_))
        ));
    }
}
