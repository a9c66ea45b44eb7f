use shuffle::message::{
    Checkpoint, Enqueue, Flush, Flushed, JournalTags, Member, NextCheckpoint, Opened, QueueOpen,
    QueueRequest, QueueResponse, SessionOpen, SessionRequest, SessionResponse, SliceOpen,
    SliceRequest, SliceResponse, StartRead, StopRead, Task,
};
use shuffle::queue::{serve_queue, QueueAction, QueueEvent, QueueState};
use shuffle::rpc::{RpcCommand, RpcEvent};
use shuffle::session::{
    open_slice_rpcs, serve_session, SessionAction, SessionEvent, SessionState,
};
use shuffle::slice::{open_queue_rpcs, serve_slice, SliceAction, SliceEvent, SliceState};
use shuffle::status::{
    error_to_status, status_to_error, Cause, Peer, ShuffleError, Status, INTERNAL,
};
use shuffle::{DefaultQueueHandler, DefaultSessionHandler, DefaultSliceHandler, Dialer, ShuffleService};

fn members() -> Vec<Member> {
    vec![
        Member { address: "http://a:1".to_string() },
        Member { address: "http://b:1".to_string() },
        Member { address: "http://c:1".to_string() },
    ]
}

fn task() -> Task {
    Task { encoded: vec![9, 8, 7] }
}

fn status(code: i32) -> Status {
    Status {
        code,
        message: "sorry".to_string(),
        details: vec![1],
        metadata: vec![],
    }
}

fn session_open(task: Option<Task>, members: Vec<Member>) -> SessionEvent {
    SessionEvent::Request(Ok(Some(SessionRequest {
        open: Some(SessionOpen {
            session_id: 42,
            task,
            members,
            resume_tags: vec![],
            last_commit: vec![],
            read_through: vec![],
        }),
        next_checkpoint: None,
    })))
}

fn next_session(state: SessionState, event: SessionEvent) -> (SessionState, SessionAction) {
    serve_session(&Dialer::new(), state, event)
}

fn session_fails(state: SessionState, event: SessionEvent) -> ShuffleError {
    match next_session(state, event) {
        (SessionState::Stopped, SessionAction::Fail(error)) => error,
        other => panic!("{other:?}"),
    }
}

fn session_opened() -> SessionAction {
    SessionAction::Respond(SessionResponse { opened: Some(Opened {}), next_checkpoint: None })
}

#[test]
fn session_refuses_other_first_requests() {
    let first = SessionEvent::Request(Ok(None));
    assert_eq!(session_fails(SessionState::AwaitingOpen, first), ShuffleError::ExpectedOpen);

    let first = SessionEvent::Request(Ok(Some(SessionRequest {
        open: None,
        next_checkpoint: Some(NextCheckpoint {}),
    })));
    assert_eq!(session_fails(SessionState::AwaitingOpen, first), ShuffleError::FirstNotOpen);

    let first = session_open(None, members());
    let error = session_fails(SessionState::AwaitingOpen, first);
    assert_eq!(error, ShuffleError::MissingTask);
    let answered = error_to_status(error);
    assert_eq!(answered.code, INTERNAL);
    assert!(answered.message.starts_with("Open must include task"));

    let first = SessionEvent::Request(Err(status_to_error(status(7))));
    let error = session_fails(SessionState::AwaitingOpen, first);
    assert_eq!(error_to_status(error), status(7));

    let first = SessionEvent::Request(Err(status_to_error(status(INTERNAL))));
    assert_eq!(
        session_fails(SessionState::AwaitingOpen, first),
        ShuffleError::Other(Cause { message: "sorry".to_string(), causes: vec![] })
    );
}

#[test]
fn session_without_members_opens_at_once() {
    assert_eq!(
        next_session(SessionState::AwaitingOpen, session_open(Some(task()), vec![])),
        (SessionState::Serving { session_id: 42 }, session_opened())
    );
}

fn slice_reply(opened: bool) -> RpcEvent<SliceResponse> {
    RpcEvent::Replied(Ok(Some(SliceResponse {
        opened: if opened { Some(Opened {}) } else { None },
        progress_delta: None,
    })))
}

#[test]
fn session_opens_once_all_slices_are() {
    let (mut state, action) =
        next_session(SessionState::AwaitingOpen, session_open(Some(task()), members()));
    let calls = match action {
        SessionAction::OpenSlices(calls) => calls,
        other => panic!("{other:?}"),
    };
    assert_eq!(calls, open_slice_rpcs(42, &task(), &members()));

    let mut actions = Vec::new();
    for index in [2, 0, 1] {
        for event in [
            RpcEvent::Dialed(Ok(())),
            RpcEvent::Sent(Ok(())),
            RpcEvent::Started(Ok(())),
            slice_reply(true),
        ] {
            let (next, action) = next_session(state, SessionEvent::Slice { index, event });
            state = next;
            actions.push(action);
        }
    }
    assert_eq!(state, SessionState::Serving { session_id: 42 });
    assert_eq!(actions[4], SessionAction::Perform { index: 0, command: RpcCommand::Send });
    assert_eq!(actions[5], SessionAction::Perform { index: 0, command: RpcCommand::Start });
    assert_eq!(actions[6], SessionAction::Perform { index: 0, command: RpcCommand::Wait });
    assert_eq!(actions[3], SessionAction::Nothing);
    assert_eq!(actions[7], SessionAction::Nothing);
    assert_eq!(actions[11], session_opened());
    assert_eq!(actions.iter().filter(|action| **action == session_opened()).count(), 1);
}

#[test]
fn session_fails_with_a_slice() {
    let (state, _) =
        next_session(SessionState::AwaitingOpen, session_open(Some(task()), members()));
    let (state, _) =
        next_session(state, SessionEvent::Slice { index: 1, event: RpcEvent::Dialed(Ok(())) });
    let (state, _) =
        next_session(state, SessionEvent::Slice { index: 1, event: RpcEvent::Sent(Ok(())) });
    let event = SessionEvent::Slice { index: 1, event: RpcEvent::Started(Err(status(INTERNAL))) };
    let error = session_fails(state, event);
    assert_eq!(error, ShuffleError::Starting { peer: Peer::Slice, status: status(INTERNAL) });
    assert_eq!(error_to_status(error), status(INTERNAL));
}

#[test]
fn session_does_not_read_while_opening() {
    let (state, _) =
        next_session(SessionState::AwaitingOpen, session_open(Some(task()), members()));
    let (state, action) = next_session(state, SessionEvent::Request(Ok(None)));
    assert!(matches!(state, SessionState::Opening { session_id: 42, .. }));
    assert_eq!(action, SessionAction::Nothing);
}

#[test]
fn session_ignores_later_opens() {
    let serving = || SessionState::Serving { session_id: 42 };
    assert_eq!(
        next_session(serving(), session_open(Some(task()), members())),
        (serving(), SessionAction::Read)
    );
    assert_eq!(
        next_session(serving(), session_open(None, members())),
        (serving(), SessionAction::Read)
    );
}

#[test]
fn session_hands_out_empty_checkpoints() {
    let serving = || SessionState::Serving { session_id: 42 };
    let request = |asks: bool| {
        SessionEvent::Request(Ok(Some(SessionRequest {
            open: None,
            next_checkpoint: if asks { Some(NextCheckpoint {}) } else { None },
        })))
    };
    assert_eq!(
        next_session(serving(), request(true)),
        (
            serving(),
            SessionAction::Respond(SessionResponse {
                opened: None,
                next_checkpoint: Some(Checkpoint { delta_checkpoint: vec![] }),
            })
        )
    );
    assert_eq!(next_session(serving(), request(false)), (serving(), SessionAction::Read));
    assert_eq!(
        next_session(serving(), SessionEvent::Request(Ok(None))),
        (SessionState::Stopped, SessionAction::End)
    );
    let lost = || ShuffleError::Other(Cause {
        message: "reading requests".to_string(),
        causes: vec!["connection lost".to_string()],
    });
    assert_eq!(session_fails(serving(), SessionEvent::Request(Err(lost()))), lost());
    assert_eq!(
        session_fails(serving(), SessionEvent::Request(Err(status_to_error(status(1))))),
        ShuffleError::Status(status(1))
    );
    assert_eq!(
        next_session(SessionState::Stopped, request(true)),
        (SessionState::Stopped, SessionAction::Nothing)
    );
}

#[test]
fn slice_calls_name_each_member() {
    let calls = open_slice_rpcs(42, &task(), &members());
    assert_eq!(calls.len(), 3);
    for (index, call) in calls.into_iter().enumerate() {
        assert_eq!(call.address, members()[index].address);
        assert_eq!(
            call.request,
            SliceRequest {
                open: Some(SliceOpen {
                    session_id: 42,
                    task: Some(task()),
                    members: members(),
                    member_index: index as u32,
                }),
                journal_tags: None,
                start_read: None,
                stop_read: None,
            }
        );
    }
}

#[test]
fn queue_calls_name_both_members() {
    let calls = open_queue_rpcs(42, 2, &members());
    assert_eq!(calls.len(), 3);
    for (index, call) in calls.into_iter().enumerate() {
        assert_eq!(call.address, members()[index].address);
        assert_eq!(
            call.request,
            QueueRequest {
                open: Some(QueueOpen {
                    session_id: 42,
                    member_count: 3,
                    slice_member_index: 2,
                    queue_member_index: index as u32,
                }),
                enqueue: None,
                flush: None,
            }
        );
    }
}

fn next_slice(state: SliceState, event: SliceEvent) -> (SliceState, SliceAction) {
    serve_slice(&Dialer::new(), state, event)
}

fn slice_request(open: Option<SliceOpen>) -> SliceRequest {
    SliceRequest {
        open,
        journal_tags: None,
        start_read: None,
        stop_read: None,
    }
}

fn slice_opened() -> SliceAction {
    SliceAction::Respond(SliceResponse { opened: Some(Opened {}), progress_delta: None })
}

#[test]
fn slice_refuses_other_first_requests() {
    let fails = |event: SliceEvent| match next_slice(SliceState::AwaitingOpen, event) {
        (SliceState::Stopped, SliceAction::Fail(error)) => error,
        other => panic!("{other:?}"),
    };
    assert_eq!(fails(SliceEvent::Request(Ok(None))), ShuffleError::ExpectedOpen);
    assert_eq!(
        fails(SliceEvent::Request(Ok(Some(slice_request(None))))),
        ShuffleError::FirstNotOpen
    );
    assert_eq!(fails(SliceEvent::Request(Err(status_to_error(status(3))))), ShuffleError::Status(status(3)));
}

#[test]
fn slice_needs_no_task_nor_members() {
    let open = SliceOpen { session_id: 42, task: None, members: vec![], member_index: 1 };
    assert_eq!(
        next_slice(
            SliceState::AwaitingOpen,
            SliceEvent::Request(Ok(Some(slice_request(Some(open)))))
        ),
        (SliceState::Serving { session_id: 42, member_index: 1 }, slice_opened())
    );
}

#[test]
fn slice_opens_once_all_queues_are() {
    let request = open_slice_rpcs(42, &task(), &members()).remove(1).request;
    let (mut state, action) =
        next_slice(SliceState::AwaitingOpen, SliceEvent::Request(Ok(Some(request))));
    assert_eq!(action, SliceAction::OpenQueues(open_queue_rpcs(42, 1, &members())));

    let mut last = SliceAction::Nothing;
    for place in 0..4 {
        for index in 0..3 {
            assert!(last != slice_opened());
            let event = match place {
                0 => RpcEvent::Dialed(Ok(())),
                1 => RpcEvent::Sent(Ok(())),
                2 => RpcEvent::Started(Ok(())),
                _ => RpcEvent::Replied(Ok(Some(QueueResponse {
                    opened: Some(Opened {}),
                    flushed: None,
                }))),
            };
            (state, last) = next_slice(state, SliceEvent::Queue { index, event });
        }
    }
    assert_eq!(last, slice_opened());
    assert_eq!(state, SliceState::Serving { session_id: 42, member_index: 1 });
}

#[test]
fn slice_fails_with_a_queue() {
    let request = open_slice_rpcs(42, &task(), &members()).remove(0).request;
    let (mut state, _) =
        next_slice(SliceState::AwaitingOpen, SliceEvent::Request(Ok(Some(request))));
    for event in [RpcEvent::Dialed(Ok(())), RpcEvent::Sent(Ok(())), RpcEvent::Started(Ok(()))] {
        state = next_slice(state, SliceEvent::Queue { index: 2, event }).0;
    }
    assert_eq!(
        next_slice(state, SliceEvent::Queue { index: 2, event: RpcEvent::Replied(Ok(None)) }),
        (
            SliceState::Stopped,
            SliceAction::Fail(ShuffleError::ClosedWithoutOpened { peer: Peer::Queue })
        )
    );
}

#[test]
fn slice_ignores_later_opens() {
    let serving = || SliceState::Serving { session_id: 42, member_index: 1 };
    let open = SliceOpen { session_id: 7, task: None, members: members(), member_index: 0 };
    assert_eq!(
        next_slice(serving(), SliceEvent::Request(Ok(Some(slice_request(Some(open)))))),
        (serving(), SliceAction::Read)
    );
}

#[test]
fn slice_takes_requests_without_a_response() {
    let serving = || SliceState::Serving { session_id: 42, member_index: 1 };
    let request = SliceRequest {
        open: None,
        journal_tags: Some(JournalTags { tags: vec![vec![1]] }),
        start_read: Some(StartRead { journal_tag: 1, binding: 0 }),
        stop_read: Some(StopRead { journal_tag: 1 }),
    };
    assert_eq!(
        next_slice(serving(), SliceEvent::Request(Ok(Some(request)))),
        (serving(), SliceAction::Read)
    );
    assert_eq!(
        next_slice(serving(), SliceEvent::Request(Ok(None))),
        (SliceState::Stopped, SliceAction::End)
    );
    assert_eq!(
        next_slice(SliceState::Stopped, SliceEvent::Request(Ok(None))),
        (SliceState::Stopped, SliceAction::Nothing)
    );
}

fn queue_request(open: Option<QueueOpen>, enqueue: bool, flush: Option<u64>) -> QueueEvent {
    QueueEvent::Request(Ok(Some(QueueRequest {
        open,
        enqueue: if enqueue {
            Some(Enqueue { journal_tag: 1, binding: 2, document: vec![3] })
        } else {
            None
        },
        flush: flush.map(|seq| Flush { seq }),
    })))
}

fn queue_open() -> QueueOpen {
    QueueOpen {
        session_id: 42,
        member_count: 3,
        slice_member_index: 2,
        queue_member_index: 1,
    }
}

#[test]
fn queue_refuses_other_first_requests() {
    let fails = |event: QueueEvent| match serve_queue(QueueState::AwaitingOpen, event) {
        (QueueState::Stopped, QueueAction::Fail(error)) => error,
        other => panic!("{other:?}"),
    };
    assert_eq!(fails(QueueEvent::Request(Ok(None))), ShuffleError::ExpectedOpen);
    assert_eq!(fails(queue_request(None, true, Some(1))), ShuffleError::FirstNotOpen);
    assert_eq!(fails(QueueEvent::Request(Err(status_to_error(status(3))))), ShuffleError::Status(status(3)));
}

#[test]
fn queue_opens_after_joining() {
    let open = queue_open();
    let (state, action) =
        serve_queue(QueueState::AwaitingOpen, queue_request(Some(open), false, None));
    assert_eq!(state, QueueState::Joining(open));
    assert_eq!(action, QueueAction::Join(open));
    let (state, action) = serve_queue(state, QueueEvent::Joined);
    assert_eq!(state, QueueState::Serving(open));
    assert_eq!(
        action,
        QueueAction::Respond(QueueResponse { opened: Some(Opened {}), flushed: None })
    );
}

#[test]
fn queue_acknowledges_each_flush() {
    let serving = || QueueState::Serving(queue_open());
    let flushed = |seq: u64| {
        QueueAction::Respond(QueueResponse { opened: None, flushed: Some(Flushed { seq }) })
    };
    assert_eq!(serve_queue(serving(), queue_request(None, true, None)), (serving(), QueueAction::Read));
    assert_eq!(serve_queue(serving(), queue_request(None, false, Some(7))), (serving(), flushed(7)));
    assert_eq!(
        serve_queue(serving(), queue_request(None, true, Some(u64::MAX))),
        (serving(), flushed(u64::MAX))
    );
    assert_eq!(
        serve_queue(serving(), QueueEvent::Request(Ok(None))),
        (QueueState::Stopped, QueueAction::End)
    );
    assert_eq!(
        serve_queue(QueueState::Stopped, queue_request(None, false, Some(7))),
        (QueueState::Stopped, QueueAction::Nothing)
    );
}

#[test]
fn default_service_serves() {
    let (session, slice, mut queue): (DefaultSessionHandler, DefaultSliceHandler, DefaultQueueHandler) =
        ShuffleService::with_defaults().into_handlers();
    let (state, action) =
        session.clone().serve_session(SessionState::AwaitingOpen, session_open(Some(task()), vec![]));
    assert_eq!(state, SessionState::Serving { session_id: 42 });
    assert_eq!(action, session_opened());

    let request = open_slice_rpcs(42, &task(), &members()).remove(2).request;
    let (_, action) =
        slice.clone().serve_slice(SliceState::AwaitingOpen, SliceEvent::Request(Ok(Some(request))));
    let calls = match action {
        SliceAction::OpenQueues(calls) => calls,
        other => panic!("{other:?}"),
    };

    for call in calls {
        let event = QueueEvent::Request(Ok(Some(call.request)));
        assert!(queue.can_serve(&QueueState::AwaitingOpen, &event));
        let (state, action, ready_rx) = queue.serve_queue(QueueState::AwaitingOpen, event);
        assert!(matches!(state, QueueState::Joining(_)));
        assert!(matches!(action, QueueAction::Join(_)));
        assert_eq!(ready_rx.unwrap().try_recv(), Ok(()));
        let (state, _, ready_rx) = queue.serve_queue(state, QueueEvent::Joined);
        assert!(matches!(state, QueueState::Serving(_)));
        assert!(ready_rx.is_none());
    }
}

#[test]
fn service_keeps_its_handlers() {
    assert_eq!(ShuffleService::new(1, "two", 3.0).into_handlers(), (1, "two", 3.0));
}

#[test]
fn service_is_cloned_with_its_handlers() {
    let service = ShuffleService::new(1u8, "slice".to_string(), vec![2u8, 3]);
    assert_eq!(service.clone().into_handlers(), (1, "slice".to_string(), vec![2, 3]));
    assert_eq!(service.into_handlers(), (1, "slice".to_string(), vec![2, 3]));
}
