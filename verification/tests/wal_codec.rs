use partwal::actions::Action;
use partwal::orchestrator::replay;
use partwal::planner::next_action;
use partwal::state::{Operation, Part, State};
use partwal::wal::{decode_record, encode_record, WalEntry};

#[test]
fn every_operation_survives_the_round_trip() {
    let ops = vec![
        Operation::ConfiguredParts(vec![
            Part::new(1, String::from("a.txt")),
            Part {
                number: 2,
                path: String::from("b.txt"),
                etag: String::from("e2"),
            },
        ]),
        Operation::ConfiguredParts(vec![]),
        Operation::Started {
            upload_id: String::from("U1"),
        },
        Operation::FailedStart {
            attempt: 0,
            msg: String::from("connection refused"),
        },
        Operation::UploadedPart {
            index: 0,
            etag: String::from("e1"),
        },
        Operation::FailedPart {
            index: 3,
            attempt: 2,
            msg: String::from("timed out"),
        },
        Operation::FailedComplete {
            attempt: 1,
            msg: String::from("bad digest"),
        },
        Operation::Completed,
        Operation::FailedAbort {
            attempt: 2,
            msg: String::from("denied"),
        },
        Operation::Aborted,
    ];
    for op in &ops {
        let line = encode_record(op);
        assert!(!line.contains('\n'));
        assert_eq!(decode_record(&line), Some(op.clone()));
    }
}

#[test]
fn awkward_strings_survive_the_round_trip() {
    let ops = vec![
        Operation::Started {
            upload_id: String::from(""),
        },
        Operation::Started {
            upload_id: String::from("with space"),
        },
        Operation::FailedPart {
            index: 0,
            attempt: 0,
            msg: String::from("line\nbreak \\ backslash  double"),
        },
        Operation::ConfiguredParts(vec![Part::new(1, String::from("dir name/file \\ two.bin"))]),
    ];
    for op in &ops {
        let line = encode_record(op);
        assert!(!line.contains('\n'));
        assert_eq!(decode_record(&line), Some(op.clone()));
    }
}

#[test]
fn negative_part_numbers_survive_the_round_trip() {
    let op = Operation::ConfiguredParts(vec![Part::new(-7, String::from("odd"))]);
    assert_eq!(decode_record(&encode_record(&op)), Some(op));
    let op = Operation::ConfiguredParts(vec![Part::new(i64::MIN, String::from("edge"))]);
    assert_eq!(decode_record(&encode_record(&op)), Some(op));
    let op = Operation::ConfiguredParts(vec![Part::new(i64::MAX, String::from("edge"))]);
    assert_eq!(decode_record(&encode_record(&op)), Some(op));
}

#[test]
fn records_have_the_documented_shape() {
    assert_eq!(encode_record(&Operation::Completed), "completed");
    assert_eq!(encode_record(&Operation::Aborted), "aborted");
    assert_eq!(
        encode_record(&Operation::Started {
            upload_id: String::from("U1"),
        }),
        "started U1"
    );
    assert_eq!(
        encode_record(&Operation::UploadedPart {
            index: 0,
            etag: String::from("e1"),
        }),
        "uploaded 0 e1"
    );
    assert_eq!(
        encode_record(&Operation::FailedPart {
            index: 2,
            attempt: 1,
            msg: String::from("boom boom"),
        }),
        "failed-part 2 1 boom\\sboom"
    );
    assert_eq!(
        encode_record(&Operation::ConfiguredParts(vec![Part::new(
            1,
            String::from("a.txt"),
        )])),
        "parts 1 a.txt "
    );
}

#[test]
fn decoding_reads_records_back() {
    assert_eq!(
        decode_record("uploaded 3 e3"),
        Some(Operation::UploadedPart {
            index: 3,
            etag: String::from("e3"),
        })
    );
    assert_eq!(
        decode_record("failed-start 0 no\\sroute"),
        Some(Operation::FailedStart {
            attempt: 0,
            msg: String::from("no route"),
        })
    );
    assert_eq!(decode_record("parts"), Some(Operation::ConfiguredParts(vec![])));
}

#[test]
fn corrupt_records_are_rejected() {
    assert_eq!(decode_record(""), None);
    assert_eq!(decode_record("nonsense U1"), None);
    assert_eq!(decode_record("uploaded x e1"), None);
    assert_eq!(decode_record("uploaded"), None);
    assert_eq!(decode_record("completed extra"), None);
    assert_eq!(decode_record("aborted extra"), None);
    assert_eq!(decode_record("failed-start 99999999999999999999 m"), None);
    assert_eq!(decode_record("failed-start 4294967296 m"), None);
    assert_eq!(decode_record("started trailing\\"), None);
    assert_eq!(decode_record("started bad\\escape"), None);
    assert_eq!(decode_record("parts x p e"), None);
    assert_eq!(decode_record("parts 9223372036854775808 p e"), None);
}

#[test]
fn attempt_counters_at_the_limit_round_trip() {
    let op = Operation::FailedAbort {
        attempt: u32::MAX,
        msg: String::from("m"),
    };
    assert_eq!(decode_record(&encode_record(&op)), Some(op));
}

#[test]
fn wal_entry_wraps_an_operation() {
    let entry = WalEntry::new(Operation::Completed);
    assert_eq!(entry.action, Operation::Completed);
}

#[test]
fn recovery_replays_decoded_log_lines() {
    let lines = ["parts 1 a.txt ", "started U1", "failed-part 0 0 timeout"];
    let ops: Vec<Operation> = lines
        .iter()
        .map(|line| decode_record(line).expect("log record must parse"))
        .collect();
    let state = replay(&ops).unwrap();
    assert_eq!(
        state,
        State::Uploading {
            parts: vec![Part::new(1, String::from("a.txt"))],
            upload_id: String::from("U1"),
            index: 0,
            attempt: 1,
        }
    );
    assert!(matches!(
        next_action(&state, 3),
        Action::UploadPart {
            index: 0,
            attempt: 1,
            ..
        }
    ));
}
