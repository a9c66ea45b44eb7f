//! The Session RPC: opens a slice at every member, then hands out checkpoints.

use crate::dialer::Dialer;
use crate::message::{
    self, Checkpoint, Member, Opened, SessionOpen, SessionRequest, SessionRequestView,
    SessionResponse, SessionResponseView, SliceOpen, SliceOpenView, SliceRequest,
    SliceRequestView, SliceResponse, Task,
};
use crate::rpc::{
    self, RpcCommand, RpcEvent, RpcEventView, RpcGroup, RpcGroupView, RpcLog, RpcState, RpcStep,
    RpcStepView,
};
use crate::status::{self, ErrorView, Peer, ShuffleError, StatusView, INTERNAL};
use vstd::prelude::*;

verus! {

/// A Slice RPC to open: the member's address, and the Open request to send.
#[derive(Debug, PartialEq, Eq)]
pub struct SliceCall {
    pub address: String,
    pub request: SliceRequest,
}

/// What a `SliceCall` holds.
#[verifier::ext_equal]
pub struct SliceCallView {
    pub address: Seq<char>,
    pub request: SliceRequestView,
}

impl View for SliceCall {
    type V = SliceCallView;

    open spec fn view(&self) -> SliceCallView {
        SliceCallView { address: self.address@, request: self.request@ }
    }
}

/// What a list of Slice RPCs holds.
pub open spec fn calls_view(calls: Seq<SliceCall>) -> Seq<SliceCallView> {
    Seq::new(calls.len(), |i: int| calls[i]@)
}

/// The Slice RPC to the member at `index`: the task and the members are those of the
/// session.
pub open spec fn slice_call(
    session_id: u64,
    task: Seq<u8>,
    members: Seq<Seq<char>>,
    index: int,
) -> SliceCallView {
    SliceCallView {
        address: members[index],
        request: SliceRequestView {
            open: Some(
                SliceOpenView {
                    session_id,
                    task: Some(task),
                    members,
                    member_index: message::wire_index(index),
                },
            ),
            journal_tags: None,
            start_read: None,
            stop_read: None,
        },
    }
}

/// The Slice RPCs of a session, one to each member, in their order.
pub open spec fn slice_calls(
    session_id: u64,
    task: Seq<u8>,
    members: Seq<Seq<char>>,
) -> Seq<SliceCallView> {
    Seq::new(members.len(), |i: int| slice_call(session_id, task, members, i))
}

/// The Slice RPCs to open to all members.
pub fn open_slice_rpcs(session_id: u64, task: &Task, members: &[Member]) -> (calls: Vec<SliceCall>)
    ensures
        calls_view(calls@) == slice_calls(session_id, task@, message::addresses(members@)),
{
    let ghost views = message::addresses(members@);
    let mut calls: Vec<SliceCall> = Vec::new();
    for i in 0..members.len()
        invariant
            views == message::addresses(members@),
            calls@.len() == i,
            forall|j: int|
                0 <= j < i ==> (#[trigger] calls@[j])@ == slice_call(session_id, task@, views, j),
    {
        let open = SliceOpen {
            session_id,
            task: Some(task.clone()),
            members: message::copy_members(members),
            member_index: message::index_on_wire(i),
        };
        calls.push(
            SliceCall {
                address: members[i].address.clone(),
                request: SliceRequest {
                    open: Some(open),
                    journal_tags: None,
                    start_read: None,
                    stop_read: None,
                },
            },
        );
    }
    calls
}

/// How far a session has come.
#[derive(Debug, PartialEq, Eq)]
pub enum SessionState {
    /// The Open request is to be read.
    AwaitingOpen,
    /// Slice RPCs are being opened to all members.
    Opening { session_id: u64, slices: RpcGroup },
    /// Requests are being answered.
    Serving { session_id: u64 },
    /// The session has ended or failed.
    Stopped,
}

/// What a `SessionState` holds.
#[verifier::ext_equal]
pub enum SessionStateView {
    AwaitingOpen,
    Opening { session_id: u64, slices: RpcGroupView },
    Serving { session_id: u64 },
    Stopped,
}

impl View for SessionState {
    type V = SessionStateView;

    open spec fn view(&self) -> SessionStateView {
        match *self {
            SessionState::AwaitingOpen => SessionStateView::AwaitingOpen,
            SessionState::Opening { session_id, slices } => SessionStateView::Opening {
                session_id,
                slices: slices@,
            },
            SessionState::Serving { session_id } => SessionStateView::Serving { session_id },
            SessionState::Stopped => SessionStateView::Stopped,
        }
    }
}

/// What happened to a session.
pub enum SessionEvent {
    /// The next request was read, or the requests ended.
    Request(Result<Option<SessionRequest>, ShuffleError>),
    /// A step of the Slice RPC to the member at `index` was done.
    Slice { index: usize, event: RpcEvent<SliceResponse> },
}

/// What a `SessionEvent` holds.
#[verifier::ext_equal]
pub enum SessionEventView {
    Request(Result<Option<SessionRequestView>, ErrorView>),
    Slice { index: usize, event: RpcEventView },
}

impl View for SessionEvent {
    type V = SessionEventView;

    open spec fn view(&self) -> SessionEventView {
        match *self {
            SessionEvent::Request(Ok(Some(request))) => SessionEventView::Request(
                Ok(Some(request@)),
            ),
            SessionEvent::Request(Ok(None)) => SessionEventView::Request(Ok(None)),
            SessionEvent::Request(Err(error)) => SessionEventView::Request(Err(error@)),
            SessionEvent::Slice { index, event } => SessionEventView::Slice {
                index,
                event: event@,
            },
        }
    }
}

/// What to do next for a session.
#[derive(Debug, PartialEq, Eq)]
pub enum SessionAction {
    /// Connect to the address of each of these calls.
    OpenSlices(Vec<SliceCall>),
    /// Take the next step of the Slice RPC to the member at `index`.
    Perform { index: usize, command: RpcCommand },
    /// Send the response, then read the next request.
    Respond(SessionResponse),
    /// Read the next request.
    Read,
    /// End the responses with an error.
    Fail(ShuffleError),
    /// End the responses.
    End,
    /// Await what else is under way.
    Nothing,
}

/// What a `SessionAction` holds.
#[verifier::ext_equal]
pub enum SessionActionView {
    OpenSlices(Seq<SliceCallView>),
    Perform { index: usize, command: RpcCommand },
    Respond(SessionResponseView),
    Read,
    Fail(ErrorView),
    End,
    Nothing,
}

impl View for SessionAction {
    type V = SessionActionView;

    open spec fn view(&self) -> SessionActionView {
        match *self {
            SessionAction::OpenSlices(calls) => SessionActionView::OpenSlices(calls_view(calls@)),
            SessionAction::Perform { index, command } => SessionActionView::Perform {
                index,
                command,
            },
            SessionAction::Respond(response) => SessionActionView::Respond(response@),
            SessionAction::Read => SessionActionView::Read,
            SessionAction::Fail(error) => SessionActionView::Fail(error@),
            SessionAction::End => SessionActionView::End,
            SessionAction::Nothing => SessionActionView::Nothing,
        }
    }
}

/// The response that the session is open.
pub open spec fn opened() -> SessionResponseView {
    SessionResponseView { opened: Some(Opened {  }), next_checkpoint: None }
}

/// The response with a checkpoint, which has no deltas.
pub open spec fn checkpoint() -> SessionResponseView {
    SessionResponseView { opened: None, next_checkpoint: Some(Seq::empty()) }
}

/// A session that failed with `error`.
pub open spec fn session_failed(error: ErrorView) -> (SessionStateView, SessionActionView) {
    (SessionStateView::Stopped, SessionActionView::Fail(error))
}

/// What follows from the Open request of a session: there must be a task; then the
/// slices are opened, and without members the session is open at once.
pub open spec fn session_open(open: message::SessionOpenView) -> (
    SessionStateView,
    SessionActionView,
) {
    match open.task {
        None => session_failed(ErrorView::MissingTask),
        Some(task) => if open.members.len() == 0 {
            (
                SessionStateView::Serving { session_id: open.session_id },
                SessionActionView::Respond(opened()),
            )
        } else {
            (
                SessionStateView::Opening {
                    session_id: open.session_id,
                    slices: RpcGroupView::dialing(Peer::Slice, open.members),
                },
                SessionActionView::OpenSlices(slice_calls(open.session_id, task, open.members)),
            )
        },
    }
}

/// How an event moves a session.
pub open spec fn session_next(state: SessionStateView, event: SessionEventView) -> (
    SessionStateView,
    SessionActionView,
) {
    match (state, event) {
        (SessionStateView::AwaitingOpen, SessionEventView::Request(request)) => match request {
            Err(error) => session_failed(error),
            Ok(None) => session_failed(ErrorView::ExpectedOpen),
            Ok(Some(request)) => match request.open {
                None => session_failed(ErrorView::FirstNotOpen),
                Some(open) => session_open(open),
            },
        },
        (
            SessionStateView::Opening { session_id, slices },
            SessionEventView::Slice { index, event },
        ) => {
            let (slices, step) = slices.next(index as int, event);
            match step {
                RpcStepView::Perform(command) => (
                    SessionStateView::Opening { session_id, slices },
                    SessionActionView::Perform { index, command },
                ),
                RpcStepView::Opened => (
                    SessionStateView::Serving { session_id },
                    SessionActionView::Respond(opened()),
                ),
                RpcStepView::Fail(error) => session_failed(error),
                RpcStepView::Nothing => (
                    SessionStateView::Opening { session_id, slices },
                    SessionActionView::Nothing,
                ),
            }
        },
        (SessionStateView::Serving { .. }, SessionEventView::Request(request)) => match request {
            Err(error) => session_failed(error),
            Ok(None) => (SessionStateView::Stopped, SessionActionView::End),
            Ok(Some(request)) => if request.next_checkpoint is Some {
                (state, SessionActionView::Respond(checkpoint()))
            } else {
                (state, SessionActionView::Read)
            },
        },
        _ => (state, SessionActionView::Nothing),
    }
}

/// The response that the session is open.
fn respond_opened() -> (action: SessionAction)
    ensures
        action@ == SessionActionView::Respond(opened()),
{
    SessionAction::Respond(
        SessionResponse { opened: Some(Opened {  }), next_checkpoint: None },
    )
}

/// Takes the Open request of a session.
fn accept_open(open: SessionOpen) -> (next: (SessionState, SessionAction))
    ensures
        (next.0@, next.1@) == session_open(open@),
{
    match open.task {
        None => (SessionState::Stopped, SessionAction::Fail(ShuffleError::MissingTask)),
        Some(task) => if open.members.len() == 0 {
            (SessionState::Serving { session_id: open.session_id }, respond_opened())
        } else {
            let calls = open_slice_rpcs(open.session_id, &task, open.members.as_slice());
            let slices = RpcGroup::new(Peer::Slice, open.members.as_slice());
            (
                SessionState::Opening { session_id: open.session_id, slices },
                SessionAction::OpenSlices(calls),
            )
        },
    }
}

/// Moves a session on by one event.
pub fn serve_session(dialer: &Dialer, state: SessionState, event: SessionEvent) -> (next: (
    SessionState,
    SessionAction,
))
    ensures
        (next.0@, next.1@) == session_next(state@, event@),
{
    match (state, event) {
        (SessionState::AwaitingOpen, SessionEvent::Request(request)) => match request {
            Err(error) => (SessionState::Stopped, SessionAction::Fail(error)),
            Ok(None) => (SessionState::Stopped, SessionAction::Fail(ShuffleError::ExpectedOpen)),
            Ok(Some(request)) => match request.open {
                None => (
                    SessionState::Stopped,
                    SessionAction::Fail(ShuffleError::FirstNotOpen),
                ),
                Some(open) => accept_open(open),
            },
        },
        (SessionState::Opening { session_id, slices }, SessionEvent::Slice { index, event }) => {
            let mut slices = slices;
            match slices.step(dialer, index, event) {
                RpcStep::Perform(command) => (
                    SessionState::Opening { session_id, slices },
                    SessionAction::Perform { index, command },
                ),
                RpcStep::Opened => (SessionState::Serving { session_id }, respond_opened()),
                RpcStep::Fail(error) => (SessionState::Stopped, SessionAction::Fail(error)),
                RpcStep::Nothing => (
                    SessionState::Opening { session_id, slices },
                    SessionAction::Nothing,
                ),
            }
        },
        (SessionState::Serving { session_id }, SessionEvent::Request(request)) => match request {
            Err(error) => (SessionState::Stopped, SessionAction::Fail(error)),
            Ok(None) => (SessionState::Stopped, SessionAction::End),
            Ok(Some(request)) => {
                let action = if request.next_checkpoint.is_some() {
                    let delta = Checkpoint { delta_checkpoint: Vec::new() };
                    assert(delta@ =~= Seq::<Seq<u8>>::empty());
                    SessionAction::Respond(
                        SessionResponse { opened: None, next_checkpoint: Some(delta) },
                    )
                } else {
                    SessionAction::Read
                };
                (SessionState::Serving { session_id }, action)
            },
        },
        (state, _) => (state, SessionAction::Nothing),
    }
}

/// Default implementation of the Session RPC.
pub struct DefaultSessionHandler {
    dialer: Dialer,
}

impl DefaultSessionHandler {
    /// The dialer that slices are connected to with.
    pub closed spec fn dialer(self) -> Dialer {
        self.dialer
    }

    pub fn new(dialer: Dialer) -> (handler: DefaultSessionHandler)
        ensures
            handler.dialer() == dialer,
    {
        DefaultSessionHandler { dialer }
    }

    /// Moves a session on by one event.
    pub fn serve_session(&self, state: SessionState, event: SessionEvent) -> (next: (
        SessionState,
        SessionAction,
    ))
        ensures
            (next.0@, next.1@) == session_next(state@, event@),
    {
        serve_session(&self.dialer, state, event)
    }
}

impl Clone for DefaultSessionHandler {
    fn clone(&self) -> (handler: DefaultSessionHandler)
        ensures
            handler == *self,
    {
        DefaultSessionHandler { dialer: self.dialer.clone() }
    }
}

/// The state of a session after some events, and the actions that it asked for, one
/// for each event.
pub open spec fn session_run(state: SessionStateView, events: Seq<SessionEventView>) -> (
    SessionStateView,
    Seq<SessionActionView>,
)
    decreases events.len(),
{
    if events.len() == 0 {
        (state, Seq::empty())
    } else {
        let (before, actions) = session_run(state, events.drop_last());
        let (after, action) = session_next(before, events.last());
        (after, actions.push(action))
    }
}

/// The responses among some actions, in their order.
pub open spec fn session_responses(actions: Seq<SessionActionView>) -> Seq<SessionResponseView>
    decreases actions.len(),
{
    if actions.len() == 0 {
        Seq::empty()
    } else {
        let before = session_responses(actions.drop_last());
        match actions.last() {
            SessionActionView::Respond(response) => before.push(response),
            _ => before,
        }
    }
}

/// The events of the Slice RPCs among those of a session.
pub open spec fn slice_log(events: Seq<SessionEventView>) -> RpcLog {
    Seq::new(
        events.len(),
        |i: int|
            match events[i] {
                SessionEventView::Slice { index, event } => Some((index as int, event)),
                _ => None,
            },
    )
}

/// The event is an Open request with a task.
pub open spec fn is_open(event: SessionEventView, open: message::SessionOpenView) -> bool {
    &&& open.task is Some
    &&& event matches SessionEventView::Request(Ok(Some(request))) && request.open == Some(open)
}

/// The event at `place` is the first request, and it is this Open.
pub open spec fn first_open(
    events: Seq<SessionEventView>,
    place: int,
    open: message::SessionOpenView,
) -> bool {
    &&& 0 <= place < events.len()
    &&& is_open(events[place], open)
    &&& forall|i: int| 0 <= i < place ==> !(#[trigger] events[i] is Request)
}

/// After the first request, which is this Open, the events show as much of opening the
/// slices as the group has behind it.
spec fn opening(
    events: Seq<SessionEventView>,
    place: int,
    open: message::SessionOpenView,
    slices: RpcGroupView,
) -> bool {
    &&& first_open(events, place, open)
    &&& slices.rpcs.len() == open.members.len()
    &&& slices.earned(slice_log(events.skip(place + 1)))
}

/// One more event adds to what the group has behind it.
proof fn lemma_opening_push(
    events: Seq<SessionEventView>,
    place: int,
    open: message::SessionOpenView,
    slices: RpcGroupView,
)
    requires
        events.len() > 0,
        opening(events.drop_last(), place, open, slices),
    ensures
        opening(events, place, open, slices),
        events.last() matches SessionEventView::Slice { index, event } ==> opening(
            events,
            place,
            open,
            slices.next(index as int, event).0,
        ),
{
    let before = events.drop_last();
    let log = slice_log(before.skip(place + 1));
    let longer = slice_log(events.skip(place + 1));
    assert(events.skip(place + 1).last() == events.last());
    assert(log.push(longer.last()) =~= longer);
    rpc::lemma_earned_push(slices, log, longer.last());
    assert(first_open(events, place, open)) by {
        assert(before[place] == events[place]);
        assert forall|i: int| 0 <= i < place implies !(#[trigger] events[i] is Request) by {
            assert(before[i] == events[i]);
        }
    }
}

proof fn lemma_opening(events: Seq<SessionEventView>)
    ensures
        match session_run(SessionStateView::AwaitingOpen, events).0 {
            SessionStateView::AwaitingOpen => forall|i: int|
                0 <= i < events.len() ==> !(#[trigger] events[i] is Request),
            SessionStateView::Opening { session_id, slices } => exists|
                place: int,
                open: message::SessionOpenView,
            | #[trigger] opening(events, place, open, slices),
            _ => true,
        },
    decreases events.len(),
{
    if events.len() > 0 {
        let before = events.drop_last();
        let last = events.last();
        lemma_opening(before);
        assert(forall|i: int| 0 <= i < before.len() ==> before[i] == #[trigger] events[i]);
        let (state, _) = session_run(SessionStateView::AwaitingOpen, before);
        let (next, _) = session_next(state, last);
        match (state, next) {
            (SessionStateView::Opening { slices, .. }, SessionStateView::Opening { .. }) => {
                let (place, open) = choose|place: int, open: message::SessionOpenView| #[trigger]
                    opening(before, place, open, slices);
                lemma_opening_push(events, place, open, slices);
            },
            (SessionStateView::AwaitingOpen, SessionStateView::Opening { slices: after, .. }) => {
                let open = last->Request_0->Ok_0->0.open->0;
                let place = events.len() - 1;
                let log = slice_log(events.skip(place + 1));
                rpc::lemma_earned_dialing(Peer::Slice, open.members, log);
                assert(opening(events, place, open, after));
            },
            _ => {},
        }
    }
}

/// A session answers that it is open only after its first request opened it with a
/// task, and after a Slice RPC was opened to every member since: connected, sent its
/// Open, started, and answered with an Opened, in this order.
pub proof fn law_opened_after_all_slices(events: Seq<SessionEventView>)
    requires
        session_run(SessionStateView::AwaitingOpen, events).1.len() > 0,
        session_run(SessionStateView::AwaitingOpen, events).1.last()
            == SessionActionView::Respond(opened()),
    ensures
        exists|place: int, open: message::SessionOpenView|
            {
                &&& #[trigger] first_open(events, place, open)
                &&& forall|i: int|
                    0 <= i < open.members.len() ==> #[trigger] rpc::succeeded(
                        slice_log(events.skip(place + 1)),
                        i,
                        4,
                    )
            },
{
    let before = events.drop_last();
    let last = events.last();
    lemma_opening(before);
    assert(forall|i: int| 0 <= i < before.len() ==> before[i] == #[trigger] events[i]);
    match session_run(SessionStateView::AwaitingOpen, before).0 {
        SessionStateView::Opening { session_id, slices } => {
            let (place, open) = choose|place: int, open: message::SessionOpenView| #[trigger]
                opening(before, place, open, slices);
            lemma_opening_push(events, place, open, slices);
            let after = slices.next(last->index as int, last->event).0;
            assert(after.all_open());
            assert forall|i: int| 0 <= i < open.members.len() implies #[trigger] rpc::succeeded(
                slice_log(events.skip(place + 1)),
                i,
                4,
            ) by {
                assert(after.rpcs[i].state is Open);
            }
            assert(first_open(events, place, open));
        },
        SessionStateView::AwaitingOpen => {
            let open = last->Request_0->Ok_0->0.open->0;
            assert(first_open(events, events.len() - 1, open));
        },
        _ => {},
    }
}

/// The first response of a session is the Opened, and all after it are checkpoints.
pub proof fn law_session_responses(events: Seq<SessionEventView>)
    ensures
        ({
            let (state, actions) = session_run(SessionStateView::AwaitingOpen, events);
            let responses = session_responses(actions);
            &&& responses.len() > 0 ==> responses[0] == opened()
            &&& forall|i: int| 0 < i < responses.len() ==> #[trigger] responses[i] == checkpoint()
            &&& state is AwaitingOpen || state is Opening ==> responses.len() == 0
            &&& state is Serving ==> responses.len() > 0
        }),
    decreases events.len(),
{
    if events.len() > 0 {
        law_session_responses(events.drop_last());
        let (before, actions) = session_run(SessionStateView::AwaitingOpen, events.drop_last());
        let (_, action) = session_next(before, events.last());
        assert(actions.push(action).drop_last() =~= actions);
    }
}

/// The events that read some requests.
pub open spec fn reading(requests: Seq<SessionRequestView>) -> Seq<SessionEventView> {
    Seq::new(requests.len(), |i: int| SessionEventView::Request(Ok(Some(requests[i]))))
}

/// The request asks for a checkpoint.
pub open spec fn asks_checkpoint() -> spec_fn(SessionRequestView) -> bool {
    |request: SessionRequestView| request.next_checkpoint is Some
}

/// An open session answers each request for a checkpoint with exactly one checkpoint,
/// and no other request, and stays open.
pub proof fn law_checkpoints(session_id: u64, requests: Seq<SessionRequestView>)
    ensures
        ({
            let serving = SessionStateView::Serving { session_id };
            let (state, actions) = session_run(serving, reading(requests));
            &&& state == serving
            &&& session_responses(actions) == Seq::new(
                requests.filter(asks_checkpoint()).len(),
                |i: int| checkpoint(),
            )
        }),
    decreases requests.len(),
{
    reveal(Seq::filter);
    let serving = SessionStateView::Serving { session_id };
    if requests.len() > 0 {
        law_checkpoints(session_id, requests.drop_last());
        assert(reading(requests).drop_last() =~= reading(requests.drop_last()));
        let (before, actions) = session_run(serving, reading(requests.drop_last()));
        let (_, action) = session_next(before, reading(requests).last());
        assert(actions.push(action).drop_last() =~= actions);
    }
}

/// A session that has ended or failed does nothing more.
pub proof fn law_session_stopped(events: Seq<SessionEventView>)
    ensures
        session_run(SessionStateView::Stopped, events) == (
            SessionStateView::Stopped,
            Seq::new(events.len(), |i: int| SessionActionView::Nothing),
        ),
    decreases events.len(),
{
    if events.len() > 0 {
        law_session_stopped(events.drop_last());
        assert(session_run(SessionStateView::Stopped, events).1 =~= Seq::new(
            events.len(),
            |i: int| SessionActionView::Nothing,
        ));
    }
}

/// A session stops exactly when it ends or fails.
pub proof fn law_session_stops(state: SessionStateView, event: SessionEventView)
    requires
        !(state is Stopped),
    ensures
        ({
            let (next, action) = session_next(state, event);
            next is Stopped <==> action is Fail || action is End
        }),
{
}

/// The events of Slice RPCs that succeed step by step, in the given order.
pub open spec fn slices_succeed(order: Seq<int>) -> Seq<SessionEventView> {
    Seq::new(
        order.len(),
        |place: int|
            SessionEventView::Slice {
                index: order[place] as usize,
                event: rpc::success_at(order, place),
            },
    )
}

proof fn lemma_session_opening(
    request: SessionRequestView,
    open: message::SessionOpenView,
    order: Seq<int>,
    late: int,
)
    requires
        request.open == Some(open),
        open.task is Some,
        open.members.len() <= usize::MAX,
        rpc::is_order(order, open.members.len() as int),
        0 <= late < open.members.len(),
        rpc::occurrences(order, late) < 4,
    ensures
        session_run(
            SessionStateView::AwaitingOpen,
            seq![SessionEventView::Request(Ok(Some(request)))] + slices_succeed(order),
        ).0 == (SessionStateView::Opening {
            session_id: open.session_id,
            slices: RpcGroupView::dialing(Peer::Slice, open.members).run(rpc::success_log(order)),
        }),
    decreases order.len(),
{
    let first = seq![SessionEventView::Request(Ok(Some(request)))];
    let events = first + slices_succeed(order);
    if order.len() == 0 {
        assert(events =~= first);
        assert(first.drop_last() =~= Seq::empty());
        reveal_with_fuel(session_run, 2);
    } else {
        let before = order.drop_last();
        let last = order.last();
        rpc::lemma_order_drop_last(order, open.members.len() as int);
        lemma_session_opening(request, open, before, late);
        rpc::law_success_counts(Peer::Slice, open.members, before);
        rpc::law_success_counts(Peer::Slice, open.members, order);
        rpc::lemma_occurrences_not_negative(before, last);
        rpc::lemma_occurrences_not_negative(order, late);
        assert(0 <= order[order.len() - 1] < open.members.len());
        assert(rpc::occurrences(order, last) <= 4);
        assert forall|place: int| 0 <= place < before.len() implies slices_succeed(order)[place]
            == slices_succeed(before)[place] by {
            assert(rpc::success_log(order).drop_last()[place] == rpc::success_log(before)[place]);
        }
        assert(events.drop_last() =~= first + slices_succeed(before));
        let group = RpcGroupView::dialing(Peer::Slice, open.members).run(rpc::success_log(order));
        assert(!(group.rpcs[late].state is Open));
        assert(!group.all_open());
        assert(rpc::success_log(order).last() == Some(
            (last, rpc::success_at(order, order.len() - 1)),
        ));
    }
}

/// A session that is opened with a task answers that it is open once the Slice RPC to
/// every member has succeeded in all its four steps, in whatever order the RPCs take
/// turns.
pub proof fn law_session_opens(
    request: SessionRequestView,
    open: message::SessionOpenView,
    order: Seq<int>,
)
    requires
        request.open == Some(open),
        open.task is Some,
        open.members.len() <= usize::MAX,
        rpc::is_order(order, open.members.len() as int),
        forall|i: int|
            0 <= i < open.members.len() ==> #[trigger] rpc::occurrences(order, i) == 4,
    ensures
        ({
            let (state, actions) = session_run(
                SessionStateView::AwaitingOpen,
                seq![SessionEventView::Request(Ok(Some(request)))] + slices_succeed(order),
            );
            &&& state == (SessionStateView::Serving { session_id: open.session_id })
            &&& actions.last() == SessionActionView::Respond(opened())
        }),
{
    let first = seq![SessionEventView::Request(Ok(Some(request)))];
    let events = first + slices_succeed(order);
    if open.members.len() == 0 {
        assert(order.len() == 0) by {
            if order.len() > 0 {
                assert(0 <= order[0] < 0);
            }
        }
        assert(events =~= first);
        assert(first.drop_last() =~= Seq::empty());
        reveal_with_fuel(session_run, 2);
    } else {
        assert(rpc::occurrences(order, 0) == 4);
        let before = order.drop_last();
        let last = order.last();
        rpc::lemma_order_drop_last(order, open.members.len() as int);
        assert(0 <= order[order.len() - 1] < open.members.len());
        assert(rpc::occurrences(order, last) == 4);
        lemma_session_opening(request, open, before, last);
        rpc::law_success_counts(Peer::Slice, open.members, before);
        rpc::law_success_counts(Peer::Slice, open.members, order);
        assert forall|place: int| 0 <= place < before.len() implies slices_succeed(order)[place]
            == slices_succeed(before)[place] by {
            assert(rpc::success_log(order).drop_last()[place] == rpc::success_log(before)[place]);
        }
        assert(events.drop_last() =~= first + slices_succeed(before));
        let group = RpcGroupView::dialing(Peer::Slice, open.members).run(rpc::success_log(order));
        assert forall|i: int| 0 <= i < group.rpcs.len() implies (#[trigger] group.rpcs[i]).state
            is Open by {
            assert(rpc::occurrences(order, i) == 4);
        }
        assert(rpc::success_log(order).last() == Some(
            (last, rpc::success_at(order, order.len() - 1)),
        ));
    }
}

/// A session whose requests do not start with an Open that has a task fails: with the
/// error of the requests, where they failed, and else with an internal error that says
/// what was expected.
pub proof fn law_session_refuses(event: SessionEventView, report: Seq<char>)
    requires
        event is Request,
    ensures
        match event {
            SessionEventView::Request(Err(error)) => session_next(
                SessionStateView::AwaitingOpen,
                event,
            ) == session_failed(error),
            SessionEventView::Request(Ok(None)) => refused(event, "expected Open request"@, report),
            SessionEventView::Request(Ok(Some(request))) => match request.open {
                None => refused(event, "first message must be Open"@, report),
                Some(open) if open.task is None => refused(
                    event,
                    "Open must include task"@,
                    report,
                ),
                Some(_) => !(session_next(SessionStateView::AwaitingOpen, event).1 is Fail),
            },
            _ => true,
        },
{
}

/// The first event of a session stops it with an internal error of this one message.
pub open spec fn refused(event: SessionEventView, message: Seq<char>, report: Seq<char>) -> bool {
    let (state, action) = session_next(SessionStateView::AwaitingOpen, event);
    &&& state is Stopped
    &&& action matches SessionActionView::Fail(error) && {
        &&& status::reported(error, report) == StatusView::internal(report)
        &&& error.chain() == seq![message]
    }
}

/// A status that the caller's requests fail with comes back to the caller, from
/// wherever the session reads requests: unchanged, or as an internal error of the same
/// message where it is one.
pub proof fn law_session_status_kept(state: SessionStateView, status: StatusView, report: Seq<char>)
    requires
        state is AwaitingOpen || state is Serving,
    ensures
        ({
            let failed = SessionEventView::Request(Err(status::from_status(status)));
            let (next, action) = session_next(state, failed);
            &&& next is Stopped
            &&& action matches SessionActionView::Fail(error) && if status.code == INTERNAL {
                &&& status::reported(error, report) == StatusView::internal(report)
                &&& error.chain() == seq![status.message]
            } else {
                status::reported(error, report) == status
            }
        }),
{
    if status.code == INTERNAL {
        assert(status::from_status(status).chain() =~= seq![status.message]);
    }
}

/// A request was read.
pub open spec fn has_request(events: Seq<SessionEventView>) -> bool {
    exists|i: int| 0 <= i < events.len() && #[trigger] events[i] is Request
}

/// The event without the Open that its request may hold.
pub open spec fn without_open(event: SessionEventView) -> SessionEventView {
    match event {
        SessionEventView::Request(Ok(Some(request))) => SessionEventView::Request(
            Ok(Some(SessionRequestView { open: None, ..request })),
        ),
        _ => event,
    }
}

/// The events differ at most in the Opens of requests after the first.
pub open spec fn same_but_later_opens(a: Seq<SessionEventView>, b: Seq<SessionEventView>) -> bool {
    &&& a.len() == b.len()
    &&& forall|i: int|
        0 <= i < a.len() ==> if has_request(a.take(i)) {
            without_open(#[trigger] a[i]) == without_open(b[i])
        } else {
            a[i] == b[i]
        }
}

/// An Open after the first request of a session is ignored: the session does the same
/// without it. It opens no second set of slices, and does not fail.
pub proof fn law_session_ignores_later_opens(a: Seq<SessionEventView>, b: Seq<SessionEventView>)
    requires
        same_but_later_opens(a, b),
    ensures
        session_run(SessionStateView::AwaitingOpen, a) == session_run(
            SessionStateView::AwaitingOpen,
            b,
        ),
    decreases a.len(),
{
    if a.len() > 0 {
        let before = a.drop_last();
        let place = a.len() - 1;
        assert(same_but_later_opens(before, b.drop_last())) by {
            assert forall|i: int| 0 <= i < before.len() implies if has_request(before.take(i)) {
                without_open(#[trigger] before[i]) == without_open(b.drop_last()[i])
            } else {
                before[i] == b.drop_last()[i]
            } by {
                assert(before.take(i) =~= a.take(i));
                assert(before[i] == a[i]);
            }
        }
        law_session_ignores_later_opens(before, b.drop_last());
        lemma_opening(before);
        assert(a.take(place) =~= before);
        assert(a[place] == a.last());
    }
}

/// While a session opens its slices, each RPC is driven by its own events: what the RPC at
/// an index asks for next is asked for at that index and no other. An RPC that fails,
/// fails the session with the same error, and the Opened is sent once all are open.
pub proof fn law_session_drives_each_rpc(
    session_id: u64,
    slices: RpcGroup,
    index: usize,
    event: RpcEvent<SliceResponse>,
    after: SessionState,
    action: SessionAction,
)
    requires
        (after@, action@) == session_next(
            SessionState::Opening { session_id, slices }@,
            SessionEvent::Slice { index, event }@,
        ),
    ensures
        action matches SessionAction::Perform { index: at, .. } ==> at == index,
        ({
            let (rest, step) = slices@.next(index as int, event@);
            match step {
                RpcStepView::Perform(command) => {
                    &&& action == (SessionAction::Perform { index, command })
                    &&& after matches SessionState::Opening { session_id: id, slices: kept }
                    &&& id == session_id && kept@ == rest
                },
                RpcStepView::Opened => {
                    &&& after == (SessionState::Serving { session_id })
                    &&& action matches SessionAction::Respond(response)
                    &&& response.opened is Some && response.next_checkpoint is None
                },
                RpcStepView::Fail(error) => {
                    &&& after is Stopped
                    &&& action matches SessionAction::Fail(told)
                    &&& told@ == error
                },
                RpcStepView::Nothing => {
                    &&& action is Nothing
                    &&& after matches SessionState::Opening { session_id: id, slices: kept }
                    &&& id == session_id && kept@ == rest
                },
            }
        }),
{
}

/// Steps of the Slice RPC to a member that succeed lead to its next step, at the same
/// member: once connected, its Open is sent; once sent, it is started; once started, its
/// response is waited for.
pub proof fn law_session_opens_each_slice(
    session_id: u64,
    slices: RpcGroup,
    index: usize,
    event: RpcEvent<SliceResponse>,
    after: SessionState,
    action: SessionAction,
)
    requires
        (after@, action@) == session_next(
            SessionState::Opening { session_id, slices }@,
            SessionEvent::Slice { index, event }@,
        ),
        index < slices.rpcs@.len(),
    ensures
        slices.rpcs@[index as int].state is Dialing ==> (event matches RpcEvent::Dialed(Ok(_))
            ==> action == (SessionAction::Perform { index, command: RpcCommand::Send })),
        slices.rpcs@[index as int].state is Sending ==> (event matches RpcEvent::Sent(Ok(_))
            ==> action == (SessionAction::Perform { index, command: RpcCommand::Start })),
        slices.rpcs@[index as int].state is Starting ==> (event matches RpcEvent::Started(Ok(_))
            ==> action == (SessionAction::Perform { index, command: RpcCommand::Wait })),
{
    assert(slices@.rpcs[index as int] == slices.rpcs@[index as int]@);
}

/// A step of the Slice RPC to any member that fails, fails the session: a member that cannot
/// be connected to or sent its Open, that refuses the RPC, that fails or ends before it
/// answers, or that answers with anything but an Opened.
pub proof fn law_session_fails_with_a_slice(
    session_id: u64,
    slices: RpcGroup,
    index: usize,
    event: RpcEvent<SliceResponse>,
    after: SessionState,
    action: SessionAction,
)
    requires
        (after@, action@) == session_next(
            SessionState::Opening { session_id, slices }@,
            SessionEvent::Slice { index, event }@,
        ),
        index < slices.rpcs@.len(),
        match slices.rpcs@[index as int].state {
            RpcState::Dialing => event matches RpcEvent::Dialed(Err(_)),
            RpcState::Sending => event matches RpcEvent::Sent(Err(_)),
            RpcState::Starting => event matches RpcEvent::Started(Err(_)),
            RpcState::Waiting => match event {
                RpcEvent::Replied(Ok(Some(reply))) => reply.opened is None,
                RpcEvent::Replied(_) => true,
                _ => false,
            },
            _ => false,
        },
    ensures
        after is Stopped,
        action is Fail,
        event matches RpcEvent::Dialed(Err(why)) ==> {
            &&& action matches SessionAction::Fail(ShuffleError::Connecting { address, cause })
            &&& address@ == slices.rpcs@[index as int].address@
            &&& cause@ == why@
        },
        event matches RpcEvent::Started(Err(why)) ==> {
            &&& action matches SessionAction::Fail(ShuffleError::Starting { status, .. })
            &&& status@ == why@
        },
        event matches RpcEvent::Replied(Err(why)) ==> {
            &&& action matches SessionAction::Fail(ShuffleError::Waiting { status, .. })
            &&& status@ == why@
        },
{
    assert(slices@.rpcs[index as int] == slices.rpcs@[index as int]@);
}

/// What is not awaited changes nothing and asks for nothing: a request while the slices
/// are being opened, an outcome of their RPCs at any other time, and anything once the
/// session has stopped.
pub proof fn law_session_awaits(
    before: SessionState,
    event: SessionEvent,
    after: SessionState,
    action: SessionAction,
)
    requires
        (after@, action@) == session_next(before@, event@),
        match before {
            SessionState::AwaitingOpen => event is Slice,
            SessionState::Opening { .. } => event is Request,
            SessionState::Serving { .. } => event is Slice,
            SessionState::Stopped => true,
        },
    ensures
        after@ == before@,
        action is Nothing,
{
}

/// Every member gets the Open of its own slice: at its own address, with the session,
/// the whole task and all members in their order as they were given, under its own
/// index, and with nothing else.
pub proof fn law_slice_calls(
    session_id: u64,
    task: Task,
    members: Seq<Member>,
    calls: Seq<SliceCall>,
)
    requires
        calls_view(calls) == slice_calls(session_id, task@, message::addresses(members)),
    ensures
        calls.len() == members.len(),
        forall|i: int|
            0 <= i < calls.len() ==> {
                let call = #[trigger] calls[i];
                &&& call.address@ == members[i].address@
                &&& call.request.journal_tags is None
                &&& call.request.start_read is None
                &&& call.request.stop_read is None
                &&& call.request.open matches Some(open)
                &&& open.session_id == session_id
                &&& open.task matches Some(sent)
                &&& sent.encoded@ == task.encoded@
                &&& open.member_index as int == i % 0x1_0000_0000
                &&& open.members@.len() == members.len()
                &&& forall|j: int|
                    0 <= j < members.len() ==> (#[trigger] open.members@[j]).address@
                        == members[j].address@
            },
{
    assert(calls_view(calls).len() == calls.len());
    assert forall|i: int| 0 <= i < calls.len() implies {
        let call = #[trigger] calls[i];
        &&& call.address@ == members[i].address@
        &&& call.request.journal_tags is None
        &&& call.request.start_read is None
        &&& call.request.stop_read is None
        &&& call.request.open matches Some(open)
        &&& open.session_id == session_id
        &&& open.task matches Some(sent)
        &&& sent.encoded@ == task.encoded@
        &&& open.member_index as int == i % 0x1_0000_0000
        &&& open.members@.len() == members.len()
        &&& forall|j: int|
            0 <= j < members.len() ==> (#[trigger] open.members@[j]).address@
                == members[j].address@
    } by {
        assert(calls_view(calls)[i] == calls[i]@);
        let sent = calls[i].request.open->0;
        assert(message::addresses(sent.members@) == message::addresses(members));
        assert(message::addresses(sent.members@).len() == sent.members@.len());
        assert forall|j: int| 0 <= j < members.len() implies (#[trigger] sent.members@[j]).address@
            == members[j].address@ by {
            assert(message::addresses(sent.members@)[j] == message::addresses(members)[j]);
        }
    }
}

/// The first request decides: without one, without an Open in it, or without a task in
/// the Open, the session fails with the error that says so, and where the requests
/// failed with their error. Else all members are called at once with what the session
/// was opened with, or the session is open where there are none.
pub proof fn law_session_first_request(
    request: Result<Option<SessionRequest>, ShuffleError>,
    after: SessionState,
    action: SessionAction,
)
    requires
        (after@, action@) == session_next(
            SessionState::AwaitingOpen@,
            SessionEvent::Request(request)@,
        ),
    ensures
        match request {
            Err(error) => {
                &&& after is Stopped
                &&& action matches SessionAction::Fail(told)
                &&& told@ == error@
            },
            Ok(None) => after is Stopped && action == SessionAction::Fail(
                ShuffleError::ExpectedOpen,
            ),
            Ok(Some(request)) => match request.open {
                None => after is Stopped && action == SessionAction::Fail(
                    ShuffleError::FirstNotOpen,
                ),
                Some(open) => match open.task {
                    None => after is Stopped && action == SessionAction::Fail(
                        ShuffleError::MissingTask,
                    ),
                    Some(task) => if open.members@.len() == 0 {
                        &&& after == (SessionState::Serving { session_id: open.session_id })
                        &&& action matches SessionAction::Respond(response)
                        &&& response.opened is Some && response.next_checkpoint is None
                    } else {
                        &&& action matches SessionAction::OpenSlices(calls)
                        &&& calls@.len() == open.members@.len()
                        &&& forall|i: int|
                            0 <= i < calls@.len() ==> {
                                let call = #[trigger] calls@[i];
                                &&& call.address@ == open.members@[i].address@
                                &&& call.request.open matches Some(to)
                                &&& to.session_id == open.session_id
                                &&& to.task matches Some(sent)
                                &&& sent.encoded@ == task.encoded@
                                &&& to.member_index as int == i % 0x1_0000_0000
                                &&& to.members@.len() == open.members@.len()
                            }
                        &&& after matches SessionState::Opening { session_id, slices }
                        &&& session_id == open.session_id
                        &&& slices.peer is Slice
                        &&& slices.rpcs@.len() == open.members@.len()
                        &&& forall|i: int|
                            0 <= i < slices.rpcs@.len() ==> (#[trigger] slices.rpcs@[i]).address@
                                == open.members@[i].address@ && slices.rpcs@[i].state is Dialing
                    },
                },
            },
        },
{
    if let Ok(Some(request)) = request {
        if let Some(open) = request.open {
            assert(open@.members.len() == open.members@.len());
            if open.task is Some && open.members@.len() > 0 {
                law_slice_calls(
                    open.session_id,
                    open.task->0,
                    open.members@,
                    action->OpenSlices_0@,
                );
                rpc::law_group_dials(Peer::Slice, open.members@, after->slices);
            }
        }
    }
}

/// An open session is served until its requests end or fail: it answers a request for a
/// checkpoint with one without deltas, reads on after any other, ends where the requests
/// end, and fails only with the error of the requests.
pub proof fn law_session_serves(
    session_id: u64,
    request: Result<Option<SessionRequest>, ShuffleError>,
    after: SessionState,
    action: SessionAction,
)
    requires
        (after@, action@) == session_next(
            SessionState::Serving { session_id }@,
            SessionEvent::Request(request)@,
        ),
    ensures
        match request {
            Err(error) => {
                &&& after is Stopped
                &&& action matches SessionAction::Fail(told)
                &&& told@ == error@
            },
            Ok(None) => after is Stopped && action is End,
            Ok(Some(request)) => {
                &&& after == (SessionState::Serving { session_id })
                &&& if request.next_checkpoint is Some {
                    &&& action matches SessionAction::Respond(response)
                    &&& response.opened is None
                    &&& response.next_checkpoint matches Some(checkpoint)
                    &&& checkpoint.delta_checkpoint@.len() == 0
                } else {
                    action is Read
                }
            },
        },
{
    if let Ok(Some(request)) = request {
        if request.next_checkpoint is Some {
            let checkpoint = action->Respond_0.next_checkpoint->0;
            assert(checkpoint@.len() == checkpoint.delta_checkpoint@.len());
        }
    }
}

/// An open session whose caller sends requests and then closes them, ends without an
/// error, having answered or read on after each request.
pub proof fn law_session_ends(session_id: u64, requests: Seq<SessionRequestView>)
    ensures
        ({
            let (state, actions) = session_run(
                SessionStateView::Serving { session_id },
                reading(requests).push(SessionEventView::Request(Ok(None))),
            );
            &&& state is Stopped
            &&& actions.len() == requests.len() + 1
            &&& actions.last() is End
            &&& forall|i: int|
                0 <= i < requests.len() ==> if requests[i].next_checkpoint is Some {
                    #[trigger] actions[i] is Respond
                } else {
                    actions[i] is Read
                }
        }),
    decreases requests.len(),
{
    let serving = SessionStateView::Serving { session_id };
    law_checkpoints(session_id, requests);
    lemma_reading(session_id, requests);
    let events = reading(requests).push(SessionEventView::Request(Ok(None)));
    assert(events.drop_last() =~= reading(requests));
}

proof fn lemma_reading(session_id: u64, requests: Seq<SessionRequestView>)
    ensures
        ({
            let actions = session_run(
                SessionStateView::Serving { session_id },
                reading(requests),
            ).1;
            &&& actions.len() == requests.len()
            &&& forall|i: int|
                0 <= i < requests.len() ==> if requests[i].next_checkpoint is Some {
                    #[trigger] actions[i] is Respond
                } else {
                    actions[i] is Read
                }
        }),
    decreases requests.len(),
{
    if requests.len() > 0 {
        lemma_reading(session_id, requests.drop_last());
        law_checkpoints(session_id, requests.drop_last());
        assert(reading(requests).drop_last() =~= reading(requests.drop_last()));
    }
}

} // verus!
