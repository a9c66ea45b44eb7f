use shuffle::message::{Opened, QueueOpen, QueueRequest, QueueResponse, Task};
use shuffle::queue::{QueueAction, QueueEvent, QueueJoin, QueueState};
use shuffle::session::open_slice_rpcs;
use shuffle::slice::open_queue_rpcs;
use shuffle::DefaultQueueHandler;
use tokio::sync::oneshot;
use tokio::sync::oneshot::error::TryRecvError;

fn open(session_id: u64, queue_member_index: u32, member_count: u32) -> QueueOpen {
    QueueOpen {
        session_id,
        member_count,
        slice_member_index: 0,
        queue_member_index,
    }
}

#[test]
fn join_notifies_with_its_last_connection() {
    let (ready_tx, mut ready_rx) = oneshot::channel();
    let mut join = QueueJoin::new(3, ready_tx);
    assert!(join.has_room());
    assert!(!join.add_connection());
    assert!(!join.add_connection());
    assert_eq!(ready_rx.try_recv(), Err(TryRecvError::Empty));
    assert!(join.add_connection());
    assert_eq!(ready_rx.try_recv(), Ok(()));
    assert!(!join.add_connection());
}

#[test]
fn join_of_two_notifies_with_the_second() {
    let (ready_tx, mut ready_rx) = oneshot::channel();
    let mut join = QueueJoin::new(2, ready_tx);
    assert!(!join.add_connection());
    assert_eq!(ready_rx.try_recv(), Err(TryRecvError::Empty));
    assert!(join.add_connection());
    assert_eq!(ready_rx.try_recv(), Ok(()));
}

#[test]
fn join_of_nobody_is_never_complete() {
    let (ready_tx, mut ready_rx) = oneshot::channel();
    let mut join = QueueJoin::new(0, ready_tx);
    assert!(!join.add_connection());
    assert_eq!(ready_rx.try_recv(), Err(TryRecvError::Empty));
}

#[test]
fn join_survives_a_lost_receiver() {
    let (ready_tx, _) = oneshot::channel();
    let mut join = QueueJoin::new(1, ready_tx);
    assert!(join.add_connection());
}

#[test]
fn handler_joins_by_session_and_queue() {
    let mut handler = DefaultQueueHandler::new();
    assert!(!handler.connect(&open(1, 0, 2)).0);
    assert!(!handler.connect(&open(1, 1, 2)).0);
    assert!(!handler.connect(&open(2, 0, 2)).0);
    assert!(handler.connect(&open(1, 0, 2)).0);
    assert!(handler.connect(&open(1, 1, 2)).0);
    assert!(handler.connect(&open(2, 0, 2)).0);
    assert!(!handler.connect(&open(2, 0, 2)).0);
}

#[test]
fn handler_tells_apart_the_largest_keys() {
    let mut handler = DefaultQueueHandler::default();
    assert!(handler.connect(&open(u64::MAX, u32::MAX, 1)).0);
    assert!(handler.connect(&open(u64::MAX, 0, 1)).0);
    assert!(handler.connect(&open(0, u32::MAX, 1)).0);
    assert!(handler.connect(&open(1, 0, 1)).0);
    assert!(handler.has_room(&open(1, 0, 1)));
}

#[test]
fn first_connection_decides_how_many_are_expected() {
    let mut handler = DefaultQueueHandler::new();
    assert!(!handler.connect(&open(1, 0, 3)).0);
    assert!(!handler.connect(&open(1, 0, 2)).0);
    assert!(handler.connect(&open(1, 0, 1)).0);
}

#[test]
fn receivers_are_ready_at_once() {
    let mut handler = DefaultQueueHandler::new();
    for _ in 0..3 {
        let (_, mut ready_rx) = handler.connect(&open(1, 0, 2));
        assert_eq!(ready_rx.try_recv(), Ok(()));
    }
}

#[test]
fn every_queue_is_complete_with_the_last_slice() {
    let members: Vec<_> = (0..4)
        .map(|i| shuffle::message::Member { address: format!("http://member-{i}:1") })
        .collect();
    let slices = open_slice_rpcs(9, &Task { encoded: vec![] }, &members);
    let mut handler = DefaultQueueHandler::new();
    for (arrived, slice) in [3, 1, 0, 2].into_iter().enumerate() {
        let slice_open = slices[slice].request.open.as_ref().unwrap();
        assert_eq!(slice_open.member_index, slice as u32);
        let calls = open_queue_rpcs(9, slice_open.member_index, &slice_open.members);
        for call in calls {
            let open = call.request.open.unwrap();
            assert_eq!(open.slice_member_index, slice as u32);
            assert_eq!(handler.connect(&open).0, arrived == 3);
        }
    }
}

fn request(open: Option<QueueOpen>) -> QueueEvent {
    QueueEvent::Request(Ok(Some(QueueRequest { open, enqueue: None, flush: None })))
}

/// Opens a queue, and returns its state once it has answered.
fn open_queue(handler: &mut DefaultQueueHandler, open: QueueOpen) -> QueueState {
    assert!(handler.can_serve(&QueueState::AwaitingOpen, &request(Some(open))));
    let (state, action, ready_rx) =
        handler.serve_queue(QueueState::AwaitingOpen, request(Some(open)));
    assert_eq!(action, QueueAction::Join(open));
    assert_eq!(ready_rx.unwrap().try_recv(), Ok(()));
    let (state, action, ready_rx) = handler.serve_queue(state, QueueEvent::Joined);
    let opened = QueueResponse { opened: Some(Opened {}), flushed: None };
    assert_eq!(action, QueueAction::Respond(opened));
    assert!(ready_rx.is_none());
    state
}

#[test]
fn streams_share_the_joins_of_their_handler() {
    let mut handler = DefaultQueueHandler::new();
    for _ in 0..2 {
        let state = open_queue(&mut handler, open(5, 6, 3));
        let (state, action, _) = handler.serve_queue(state, QueueEvent::Request(Ok(None)));
        assert_eq!((state, action), (QueueState::Stopped, QueueAction::End));
    }
    assert!(!handler.connect(&open(5, 7, 3)).0);
    assert!(handler.connect(&open(5, 6, 3)).0);
}

#[test]
fn later_opens_are_not_registered() {
    let mut handler = DefaultQueueHandler::new();
    let state = open_queue(&mut handler, open(1, 0, 2));
    let (state, action, ready_rx) = handler.serve_queue(state, request(Some(open(1, 0, 2))));
    assert_eq!((state, action), (QueueState::Serving(open(1, 0, 2)), QueueAction::Read));
    assert!(ready_rx.is_none());
    assert!(handler.connect(&open(1, 0, 2)).0);
}

#[test]
fn handlers_share_nothing() {
    let mut first = DefaultQueueHandler::new();
    let mut second = DefaultQueueHandler::new();
    open_queue(&mut first, open(1, 0, 2));
    assert!(!second.connect(&open(1, 0, 2)).0);
    assert!(first.connect(&open(1, 0, 2)).0);
}
