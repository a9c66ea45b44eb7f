use shuffle::status::{
    answer, error_to_status, status_to_error, Cause, Peer, ShuffleError, Status, INTERNAL,
};

fn status(code: i32) -> Status {
    Status {
        code,
        message: "no such thing".to_string(),
        details: vec![1, 2, 3],
        metadata: vec![("retry".to_string(), vec![7])],
    }
}

/// The text is the report, but for a backtrace that may follow.
fn is_text(text: &str, report: &str) -> bool {
    text == report || text.starts_with(&format!("{report}\n\nStack backtrace:"))
}

fn other(message: &str) -> Cause {
    Cause { message: message.to_string(), causes: vec![] }
}

fn all_errors() -> Vec<(ShuffleError, Option<&'static str>)> {
    let cause = || Cause {
        message: "refused".to_string(),
        causes: vec![],
    };
    let (slice, queue) = (Peer::Slice, Peer::Queue);
    vec![
        (ShuffleError::Status(status(5)), None),
        (ShuffleError::Other(other("boom")), Some("boom")),
        (ShuffleError::ExpectedOpen, Some("expected Open request")),
        (ShuffleError::FirstNotOpen, Some("first message must be Open")),
        (ShuffleError::MissingTask, Some("Open must include task")),
        (
            ShuffleError::Connecting { address: "http://a:1".to_string(), cause: cause() },
            Some("connecting to http://a:1"),
        ),
        (ShuffleError::Sending { peer: slice, cause: cause() }, Some("sending Slice Open")),
        (ShuffleError::Sending { peer: queue, cause: cause() }, Some("sending Queue Open")),
        (ShuffleError::Starting { peer: slice, status: status(5) }, Some("starting Slice RPC")),
        (ShuffleError::Starting { peer: queue, status: status(5) }, Some("starting Queue RPC")),
        (ShuffleError::Waiting { peer: slice, status: status(5) }, Some("waiting for Slice Opened")),
        (ShuffleError::Waiting { peer: queue, status: status(5) }, Some("waiting for Queue Opened")),
        (ShuffleError::ClosedWithoutOpened { peer: slice }, Some("Slice closed without Opened")),
        (ShuffleError::ClosedWithoutOpened { peer: queue }, Some("Queue closed without Opened")),
        (
            ShuffleError::ExpectedOpened { peer: slice },
            Some("expected Opened response from Slice"),
        ),
        (
            ShuffleError::ExpectedOpened { peer: queue },
            Some("expected Opened response from Queue"),
        ),
    ]
}

#[test]
fn headlines() {
    for (error, headline) in all_errors() {
        assert_eq!(error.headline(), headline.map(|text| text.to_string()));
    }
}

#[test]
fn errors_carry_their_status_or_are_internal() {
    for (error, headline) in all_errors() {
        let carries = matches!(
            error,
            ShuffleError::Status(_) | ShuffleError::Starting { .. } | ShuffleError::Waiting { .. }
        );
        let answered = error_to_status(error);
        if carries {
            assert_eq!(answered, status(5));
        } else {
            assert_eq!(answered.code, INTERNAL);
            assert!(answered.message.starts_with(headline.unwrap()));
            assert!(answered.details.is_empty());
            assert!(answered.metadata.is_empty());
        }
    }
}

#[test]
fn internal_status_of_a_peer_is_kept_whole() {
    let error = ShuffleError::Starting { peer: Peer::Queue, status: status(INTERNAL) };
    assert_eq!(error_to_status(error), status(INTERNAL));
}

#[test]
fn downcast_finds_the_status_or_the_messages() {
    let error = ShuffleError::Waiting { peer: Peer::Slice, status: status(14) };
    assert_eq!(error.downcast(), Ok(status(14)));

    let error = ShuffleError::Connecting {
        address: "http://a:1".to_string(),
        cause: Cause {
            message: "transport error".to_string(),
            causes: vec!["tcp connect error".to_string(), "refused".to_string()],
        },
    };
    assert_eq!(
        error.downcast(),
        Err(vec![
            "connecting to http://a:1".to_string(),
            "transport error".to_string(),
            "tcp connect error".to_string(),
            "refused".to_string(),
        ])
    );
    let error = ShuffleError::Other(Cause {
        message: "outer".to_string(),
        causes: vec!["inner".to_string()],
    });
    assert_eq!(error.downcast(), Err(vec!["outer".to_string(), "inner".to_string()]));
    assert_eq!(
        ShuffleError::MissingTask.downcast(),
        Err(vec!["Open must include task".to_string()])
    );
}

#[test]
fn report_lists_one_cause() {
    let error = ShuffleError::Sending {
        peer: Peer::Slice,
        cause: Cause { message: "send failed because receiver is gone".to_string(), causes: vec![] },
    };
    assert!(is_text(
        &error_to_status(error).message,
        "sending Slice Open\n\nCaused by:\n    send failed because receiver is gone"
    ));
}

#[test]
fn report_numbers_several_causes() {
    let error = ShuffleError::Connecting {
        address: "http://a:1".to_string(),
        cause: Cause {
            message: "transport error".to_string(),
            causes: vec!["refused".to_string()],
        },
    };
    assert!(is_text(
        &error_to_status(error).message,
        "connecting to http://a:1\n\nCaused by:\n    0: transport error\n    1: refused"
    ));
}

#[test]
fn answer_takes_the_report() {
    let answered = answer(Err("it broke".to_string()));
    assert_eq!(
        answered,
        Status {
            code: 13,
            message: "it broke".to_string(),
            details: vec![],
            metadata: vec![],
        }
    );
    assert_eq!(answered.code, tonic::Code::Internal as i32);
    assert_eq!(answer(Ok(status(3))), status(3));
}

#[test]
fn status_round_trip() {
    for code in 0..17 {
        let error = status_to_error(status(code));
        if code == INTERNAL {
            assert_eq!(error, ShuffleError::Other(other("no such thing")));
            let answered = error_to_status(error);
            assert_eq!(answered.code, INTERNAL);
            assert!(is_text(&answered.message, "no such thing"));
            assert!(answered.details.is_empty() && answered.metadata.is_empty());
        } else {
            assert_eq!(error, ShuffleError::Status(status(code)));
            assert_eq!(error_to_status(error), status(code));
        }
    }
}

#[test]
fn error_round_trip() {
    let answered = error_to_status(ShuffleError::FirstNotOpen);
    let message = answered.message.clone();
    assert_eq!(status_to_error(answered), ShuffleError::Other(other(&message)));
}
