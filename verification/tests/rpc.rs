use shuffle::message::{Member, Opened, QueueResponse, SliceResponse};
use shuffle::rpc::{open_rpc, Reply, RpcCommand, RpcEvent, RpcGroup, RpcState, RpcStep};
use shuffle::status::{Cause, Peer, ShuffleError, Status};
use shuffle::Dialer;

fn cause() -> Cause {
    Cause { message: "refused".to_string(), causes: vec![] }
}

fn status() -> Status {
    Status {
        code: 14,
        message: "unavailable".to_string(),
        details: vec![],
        metadata: vec![],
    }
}

fn reply(opened: bool) -> SliceResponse {
    SliceResponse {
        opened: if opened { Some(Opened {}) } else { None },
        progress_delta: None,
    }
}

fn step(state: RpcState, event: RpcEvent<SliceResponse>) -> (RpcState, RpcStep) {
    open_rpc(&Dialer::new(), Peer::Slice, "http://a:1", state, event)
}

#[test]
fn dial_names_the_address() {
    let dialer = Dialer::default();
    assert_eq!(dialer.dial("http://a:1", Ok(5)), Ok(5));
    assert_eq!(
        dialer.clone().dial::<i32>("http://a:1", Err(cause())),
        Err(ShuffleError::Connecting { address: "http://a:1".to_string(), cause: cause() })
    );
}

#[test]
fn replies() {
    assert!(reply(true).has_opened());
    assert!(!reply(false).has_opened());
    assert!(QueueResponse { opened: Some(Opened {}), flushed: None }.has_opened());
    assert!(!QueueResponse { opened: None, flushed: None }.has_opened());
}

#[test]
fn rpc_succeeds_step_by_step() {
    assert_eq!(
        step(RpcState::Dialing, RpcEvent::Dialed(Ok(()))),
        (RpcState::Sending, RpcStep::Perform(RpcCommand::Send))
    );
    assert_eq!(
        step(RpcState::Sending, RpcEvent::Sent(Ok(()))),
        (RpcState::Starting, RpcStep::Perform(RpcCommand::Start))
    );
    assert_eq!(
        step(RpcState::Starting, RpcEvent::Started(Ok(()))),
        (RpcState::Waiting, RpcStep::Perform(RpcCommand::Wait))
    );
    assert_eq!(
        step(RpcState::Waiting, RpcEvent::Replied(Ok(Some(reply(true))))),
        (RpcState::Open, RpcStep::Opened)
    );
}

#[test]
fn rpc_fails_at_each_step() {
    let failed = |error: ShuffleError| (RpcState::Failed, RpcStep::Fail(error));
    let peer = Peer::Slice;
    assert_eq!(
        step(RpcState::Dialing, RpcEvent::Dialed(Err(cause()))),
        failed(ShuffleError::Connecting { address: "http://a:1".to_string(), cause: cause() })
    );
    assert_eq!(
        step(RpcState::Sending, RpcEvent::Sent(Err(cause()))),
        failed(ShuffleError::Sending { peer, cause: cause() })
    );
    assert_eq!(
        step(RpcState::Starting, RpcEvent::Started(Err(status()))),
        failed(ShuffleError::Starting { peer, status: status() })
    );
    assert_eq!(
        step(RpcState::Waiting, RpcEvent::Replied(Err(status()))),
        failed(ShuffleError::Waiting { peer, status: status() })
    );
    assert_eq!(
        step(RpcState::Waiting, RpcEvent::Replied(Ok(None))),
        failed(ShuffleError::ClosedWithoutOpened { peer })
    );
    assert_eq!(
        step(RpcState::Waiting, RpcEvent::Replied(Ok(Some(reply(false))))),
        failed(ShuffleError::ExpectedOpened { peer })
    );
}

#[test]
fn rpc_ignores_what_is_not_under_way() {
    assert_eq!(
        step(RpcState::Dialing, RpcEvent::Started(Ok(()))),
        (RpcState::Dialing, RpcStep::Nothing)
    );
    assert_eq!(
        step(RpcState::Open, RpcEvent::Replied(Ok(None))),
        (RpcState::Open, RpcStep::Nothing)
    );
    assert_eq!(
        step(RpcState::Failed, RpcEvent::Dialed(Ok(()))),
        (RpcState::Failed, RpcStep::Nothing)
    );
}

fn success(place: usize) -> RpcEvent<SliceResponse> {
    match place {
        0 => RpcEvent::Dialed(Ok(())),
        1 => RpcEvent::Sent(Ok(())),
        2 => RpcEvent::Started(Ok(())),
        _ => RpcEvent::Replied(Ok(Some(reply(true)))),
    }
}

fn group() -> RpcGroup {
    let members = vec![
        Member { address: "http://a:1".to_string() },
        Member { address: "http://b:1".to_string() },
    ];
    RpcGroup::new(Peer::Slice, &members)
}

#[test]
fn group_opens_with_its_last_rpc() {
    let dialer = Dialer::new();
    let mut group = group();
    assert!(!group.all_open());
    for place in 0..3 {
        assert!(matches!(group.step(&dialer, 1, success(place)), RpcStep::Perform(_)));
        assert!(matches!(group.step(&dialer, 0, success(place)), RpcStep::Perform(_)));
    }
    assert_eq!(group.step(&dialer, 1, success(3)), RpcStep::Nothing);
    assert!(!group.all_open());
    assert_eq!(group.step(&dialer, 0, success(3)), RpcStep::Opened);
    assert!(group.all_open());
}

#[test]
fn group_fails_with_any_rpc() {
    let dialer = Dialer::new();
    let mut group = group();
    assert_eq!(
        group.step::<SliceResponse>(&dialer, 1, RpcEvent::Dialed(Err(cause()))),
        RpcStep::Fail(ShuffleError::Connecting {
            address: "http://b:1".to_string(),
            cause: cause(),
        })
    );
    assert_eq!(group.rpcs[0].state, RpcState::Dialing);
}

#[test]
fn group_ignores_unknown_rpcs() {
    let mut group = group();
    assert_eq!(group.step(&Dialer::new(), 2, success(0)), RpcStep::Nothing);
    assert!(RpcGroup::new(Peer::Queue, &[]).all_open());
}
