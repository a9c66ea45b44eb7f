//! The Slice RPC: opens a queue at every member, then takes the session's requests.

use crate::dialer::Dialer;
use crate::message::{
    self, Member, Opened, QueueOpen, QueueRequest, QueueResponse, SliceOpen, SliceOpenView,
    SliceRequest, SliceRequestView, SliceResponse,
};
use crate::rpc::{
    self, RpcCommand, RpcEvent, RpcEventView, RpcGroup, RpcGroupView, RpcLog, RpcState, RpcStep,
    RpcStepView,
};
use crate::status::{self, ErrorView, Peer, ShuffleError, StatusView, INTERNAL};
use vstd::prelude::*;

verus! {

/// A Queue RPC to open: the member's address, and the Open request to send.
#[derive(Debug, PartialEq, Eq)]
pub struct QueueCall {
    pub address: String,
    pub request: QueueRequest,
}

/// What a `QueueCall` holds.
#[verifier::ext_equal]
pub struct QueueCallView {
    pub address: Seq<char>,
    pub request: QueueRequest,
}

impl View for QueueCall {
    type V = QueueCallView;

    open spec fn view(&self) -> QueueCallView {
        QueueCallView { address: self.address@, request: self.request }
    }
}

/// What a list of Queue RPCs holds.
pub open spec fn calls_view(calls: Seq<QueueCall>) -> Seq<QueueCallView> {
    Seq::new(calls.len(), |i: int| calls[i]@)
}

/// The Queue RPC of a slice to the member at `index`.
pub open spec fn queue_call(
    session_id: u64,
    slice_member_index: u32,
    members: Seq<Seq<char>>,
    index: int,
) -> QueueCallView {
    QueueCallView {
        address: members[index],
        request: QueueRequest {
            open: Some(
                QueueOpen {
                    session_id,
                    member_count: message::wire_index(members.len() as int),
                    slice_member_index,
                    queue_member_index: message::wire_index(index),
                },
            ),
            enqueue: None,
            flush: None,
        },
    }
}

/// The Queue RPCs of a slice, one to each member, in their order.
pub open spec fn queue_calls(
    session_id: u64,
    slice_member_index: u32,
    members: Seq<Seq<char>>,
) -> Seq<QueueCallView> {
    Seq::new(members.len(), |i: int| queue_call(session_id, slice_member_index, members, i))
}

/// The Queue RPCs to open to all members.
pub fn open_queue_rpcs(session_id: u64, slice_member_index: u32, members: &[Member]) -> (calls: Vec<
    QueueCall,
>)
    ensures
        calls_view(calls@) == queue_calls(
            session_id,
            slice_member_index,
            message::addresses(members@),
        ),
{
    let member_count = message::index_on_wire(members.len());
    let ghost views = message::addresses(members@);
    let mut calls: Vec<QueueCall> = Vec::new();
    for i in 0..members.len()
        invariant
            views == message::addresses(members@),
            member_count == message::wire_index(members@.len() as int),
            calls@.len() == i,
            forall|j: int|
                0 <= j < i ==> (#[trigger] calls@[j])@ == queue_call(
                    session_id,
                    slice_member_index,
                    views,
                    j,
                ),
    {
        let open = QueueOpen {
            session_id,
            member_count,
            slice_member_index,
            queue_member_index: message::index_on_wire(i),
        };
        calls.push(
            QueueCall {
                address: members[i].address.clone(),
                request: QueueRequest { open: Some(open), enqueue: None, flush: None },
            },
        );
    }
    calls
}

/// How far a slice has come.
#[derive(Debug, PartialEq, Eq)]
pub enum SliceState {
    /// The Open request is to be read.
    AwaitingOpen,
    /// Queue RPCs are being opened to all members.
    Opening { session_id: u64, member_index: u32, queues: RpcGroup },
    /// Requests are being taken.
    Serving { session_id: u64, member_index: u32 },
    /// The slice has ended or failed.
    Stopped,
}

/// What a `SliceState` holds.
#[verifier::ext_equal]
pub enum SliceStateView {
    AwaitingOpen,
    Opening { session_id: u64, member_index: u32, queues: RpcGroupView },
    Serving { session_id: u64, member_index: u32 },
    Stopped,
}

impl View for SliceState {
    type V = SliceStateView;

    open spec fn view(&self) -> SliceStateView {
        match *self {
            SliceState::AwaitingOpen => SliceStateView::AwaitingOpen,
            SliceState::Opening { session_id, member_index, queues } => SliceStateView::Opening {
                session_id,
                member_index,
                queues: queues@,
            },
            SliceState::Serving { session_id, member_index } => SliceStateView::Serving {
                session_id,
                member_index,
            },
            SliceState::Stopped => SliceStateView::Stopped,
        }
    }
}

/// What happened to a slice.
pub enum SliceEvent {
    /// The next request was read, or the requests ended.
    Request(Result<Option<SliceRequest>, ShuffleError>),
    /// A step of the Queue RPC to the member at `index` was done.
    Queue { index: usize, event: RpcEvent<QueueResponse> },
}

/// What a `SliceEvent` holds.
#[verifier::ext_equal]
pub enum SliceEventView {
    Request(Result<Option<SliceRequestView>, ErrorView>),
    Queue { index: usize, event: RpcEventView },
}

impl View for SliceEvent {
    type V = SliceEventView;

    open spec fn view(&self) -> SliceEventView {
        match *self {
            SliceEvent::Request(Ok(Some(request))) => SliceEventView::Request(Ok(Some(request@))),
            SliceEvent::Request(Ok(None)) => SliceEventView::Request(Ok(None)),
            SliceEvent::Request(Err(error)) => SliceEventView::Request(Err(error@)),
            SliceEvent::Queue { index, event } => SliceEventView::Queue { index, event: event@ },
        }
    }
}

/// What to do next for a slice.
#[derive(Debug, PartialEq, Eq)]
pub enum SliceAction {
    /// Connect to the address of each of these calls.
    OpenQueues(Vec<QueueCall>),
    /// Take the next step of the Queue RPC to the member at `index`.
    Perform { index: usize, command: RpcCommand },
    /// Send the response, then read the next request.
    Respond(SliceResponse),
    /// Read the next request.
    Read,
    /// End the responses with an error.
    Fail(ShuffleError),
    /// End the responses.
    End,
    /// Await what else is under way.
    Nothing,
}

/// What a `SliceAction` holds.
#[verifier::ext_equal]
pub enum SliceActionView {
    OpenQueues(Seq<QueueCallView>),
    Perform { index: usize, command: RpcCommand },
    Respond(SliceResponse),
    Read,
    Fail(ErrorView),
    End,
    Nothing,
}

impl View for SliceAction {
    type V = SliceActionView;

    open spec fn view(&self) -> SliceActionView {
        match *self {
            SliceAction::OpenQueues(calls) => SliceActionView::OpenQueues(calls_view(calls@)),
            SliceAction::Perform { index, command } => SliceActionView::Perform { index, command },
            SliceAction::Respond(response) => SliceActionView::Respond(response),
            SliceAction::Read => SliceActionView::Read,
            SliceAction::Fail(error) => SliceActionView::Fail(error@),
            SliceAction::End => SliceActionView::End,
            SliceAction::Nothing => SliceActionView::Nothing,
        }
    }
}

/// The response that the slice is open.
pub open spec fn opened() -> SliceResponse {
    SliceResponse { opened: Some(Opened {  }), progress_delta: None }
}

/// A slice that failed with `error`.
pub open spec fn slice_failed(error: ErrorView) -> (SliceStateView, SliceActionView) {
    (SliceStateView::Stopped, SliceActionView::Fail(error))
}

/// What follows from the Open request of a slice: the queues are opened, and without
/// members the slice is open at once.
pub open spec fn slice_open(open: SliceOpenView) -> (SliceStateView, SliceActionView) {
    if open.members.len() == 0 {
        (
            SliceStateView::Serving {
                session_id: open.session_id,
                member_index: open.member_index,
            },
            SliceActionView::Respond(opened()),
        )
    } else {
        (
            SliceStateView::Opening {
                session_id: open.session_id,
                member_index: open.member_index,
                queues: RpcGroupView::dialing(Peer::Queue, open.members),
            },
            SliceActionView::OpenQueues(
                queue_calls(open.session_id, open.member_index, open.members),
            ),
        )
    }
}

/// How an event moves a slice.
pub open spec fn slice_next(state: SliceStateView, event: SliceEventView) -> (
    SliceStateView,
    SliceActionView,
) {
    match (state, event) {
        (SliceStateView::AwaitingOpen, SliceEventView::Request(request)) => match request {
            Err(error) => slice_failed(error),
            Ok(None) => slice_failed(ErrorView::ExpectedOpen),
            Ok(Some(request)) => match request.open {
                None => slice_failed(ErrorView::FirstNotOpen),
                Some(open) => slice_open(open),
            },
        },
        (
            SliceStateView::Opening { session_id, member_index, queues },
            SliceEventView::Queue { index, event },
        ) => {
            let (queues, step) = queues.next(index as int, event);
            match step {
                RpcStepView::Perform(command) => (
                    SliceStateView::Opening { session_id, member_index, queues },
                    SliceActionView::Perform { index, command },
                ),
                RpcStepView::Opened => (
                    SliceStateView::Serving { session_id, member_index },
                    SliceActionView::Respond(opened()),
                ),
                RpcStepView::Fail(error) => slice_failed(error),
                RpcStepView::Nothing => (
                    SliceStateView::Opening { session_id, member_index, queues },
                    SliceActionView::Nothing,
                ),
            }
        },
        (SliceStateView::Serving { .. }, SliceEventView::Request(request)) => match request {
            Err(error) => slice_failed(error),
            Ok(None) => (SliceStateView::Stopped, SliceActionView::End),
            Ok(Some(_)) => (state, SliceActionView::Read),
        },
        _ => (state, SliceActionView::Nothing),
    }
}

/// The response that the slice is open.
fn respond_opened() -> (action: SliceAction)
    ensures
        action@ == SliceActionView::Respond(opened()),
{
    SliceAction::Respond(SliceResponse { opened: Some(Opened {  }), progress_delta: None })
}

/// Takes the Open request of a slice.
fn accept_open(open: SliceOpen) -> (next: (SliceState, SliceAction))
    ensures
        (next.0@, next.1@) == slice_open(open@),
{
    let session_id = open.session_id;
    let member_index = open.member_index;
    if open.members.len() == 0 {
        (SliceState::Serving { session_id, member_index }, respond_opened())
    } else {
        let calls = open_queue_rpcs(session_id, member_index, open.members.as_slice());
        let queues = RpcGroup::new(Peer::Queue, open.members.as_slice());
        (
            SliceState::Opening { session_id, member_index, queues },
            SliceAction::OpenQueues(calls),
        )
    }
}

/// Moves a slice on by one event.
pub fn serve_slice(dialer: &Dialer, state: SliceState, event: SliceEvent) -> (next: (
    SliceState,
    SliceAction,
))
    ensures
        (next.0@, next.1@) == slice_next(state@, event@),
{
    match (state, event) {
        (SliceState::AwaitingOpen, SliceEvent::Request(request)) => match request {
            Err(error) => (SliceState::Stopped, SliceAction::Fail(error)),
            Ok(None) => (SliceState::Stopped, SliceAction::Fail(ShuffleError::ExpectedOpen)),
            Ok(Some(request)) => match request.open {
                None => (SliceState::Stopped, SliceAction::Fail(ShuffleError::FirstNotOpen)),
                Some(open) => accept_open(open),
            },
        },
        (
            SliceState::Opening { session_id, member_index, queues },
            SliceEvent::Queue { index, event },
        ) => {
            let mut queues = queues;
            match queues.step(dialer, index, event) {
                RpcStep::Perform(command) => (
                    SliceState::Opening { session_id, member_index, queues },
                    SliceAction::Perform { index, command },
                ),
                RpcStep::Opened => (
                    SliceState::Serving { session_id, member_index },
                    respond_opened(),
                ),
                RpcStep::Fail(error) => (SliceState::Stopped, SliceAction::Fail(error)),
                RpcStep::Nothing => (
                    SliceState::Opening { session_id, member_index, queues },
                    SliceAction::Nothing,
                ),
            }
        },
        (SliceState::Serving { session_id, member_index }, SliceEvent::Request(request)) =>
        match request {
            Err(error) => (SliceState::Stopped, SliceAction::Fail(error)),
            Ok(None) => (SliceState::Stopped, SliceAction::End),
            Ok(Some(_)) => (SliceState::Serving { session_id, member_index }, SliceAction::Read),
        },
        (state, _) => (state, SliceAction::Nothing),
    }
}

/// Default implementation of the Slice RPC.
pub struct DefaultSliceHandler {
    dialer: Dialer,
}

impl DefaultSliceHandler {
    /// The dialer that queues are connected to with.
    pub closed spec fn dialer(self) -> Dialer {
        self.dialer
    }

    pub fn new(dialer: Dialer) -> (handler: DefaultSliceHandler)
        ensures
            handler.dialer() == dialer,
    {
        DefaultSliceHandler { dialer }
    }

    /// Moves a slice on by one event.
    pub fn serve_slice(&self, state: SliceState, event: SliceEvent) -> (next: (
        SliceState,
        SliceAction,
    ))
        ensures
            (next.0@, next.1@) == slice_next(state@, event@),
    {
        serve_slice(&self.dialer, state, event)
    }
}

impl Clone for DefaultSliceHandler {
    fn clone(&self) -> (handler: DefaultSliceHandler)
        ensures
            handler == *self,
    {
        DefaultSliceHandler { dialer: self.dialer.clone() }
    }
}

/// The state of a slice after some events, and the actions that it asked for, one
/// for each event.
pub open spec fn slice_run(state: SliceStateView, events: Seq<SliceEventView>) -> (
    SliceStateView,
    Seq<SliceActionView>,
)
    decreases events.len(),
{
    if events.len() == 0 {
        (state, Seq::empty())
    } else {
        let (before, actions) = slice_run(state, events.drop_last());
        let (after, action) = slice_next(before, events.last());
        (after, actions.push(action))
    }
}

/// The responses among some actions, in their order.
pub open spec fn slice_responses(actions: Seq<SliceActionView>) -> Seq<SliceResponse>
    decreases actions.len(),
{
    if actions.len() == 0 {
        Seq::empty()
    } else {
        let before = slice_responses(actions.drop_last());
        match actions.last() {
            SliceActionView::Respond(response) => before.push(response),
            _ => before,
        }
    }
}

/// The events of the Queue RPCs among those of a slice.
pub open spec fn queue_log(events: Seq<SliceEventView>) -> RpcLog {
    Seq::new(
        events.len(),
        |i: int|
            match events[i] {
                SliceEventView::Queue { index, event } => Some((index as int, event)),
                _ => None,
            },
    )
}

/// The event is an Open request.
pub open spec fn is_open(event: SliceEventView, open: SliceOpenView) -> bool {
    event matches SliceEventView::Request(Ok(Some(request))) && request.open == Some(open)
}

/// The event at `place` is the first request, and it is this Open.
pub open spec fn first_open(events: Seq<SliceEventView>, place: int, open: SliceOpenView) -> bool {
    &&& 0 <= place < events.len()
    &&& is_open(events[place], open)
    &&& forall|i: int| 0 <= i < place ==> !(#[trigger] events[i] is Request)
}

/// After the first request, which is this Open, the events show as much of opening the
/// queues as the group has behind it.
spec fn opening(
    events: Seq<SliceEventView>,
    place: int,
    open: SliceOpenView,
    queues: RpcGroupView,
) -> bool {
    &&& first_open(events, place, open)
    &&& queues.rpcs.len() == open.members.len()
    &&& queues.earned(queue_log(events.skip(place + 1)))
}

/// One more event adds to what the group has behind it.
proof fn lemma_opening_push(
    events: Seq<SliceEventView>,
    place: int,
    open: SliceOpenView,
    queues: RpcGroupView,
)
    requires
        events.len() > 0,
        opening(events.drop_last(), place, open, queues),
    ensures
        opening(events, place, open, queues),
        events.last() matches SliceEventView::Queue { index, event } ==> opening(
            events,
            place,
            open,
            queues.next(index as int, event).0,
        ),
{
    let before = events.drop_last();
    let log = queue_log(before.skip(place + 1));
    let longer = queue_log(events.skip(place + 1));
    assert(events.skip(place + 1).last() == events.last());
    assert(log.push(longer.last()) =~= longer);
    rpc::lemma_earned_push(queues, log, longer.last());
    assert(first_open(events, place, open)) by {
        assert(before[place] == events[place]);
        assert forall|i: int| 0 <= i < place implies !(#[trigger] events[i] is Request) by {
            assert(before[i] == events[i]);
        }
    }
}

proof fn lemma_opening(events: Seq<SliceEventView>)
    ensures
        match slice_run(SliceStateView::AwaitingOpen, events).0 {
            SliceStateView::AwaitingOpen => forall|i: int|
                0 <= i < events.len() ==> !(#[trigger] events[i] is Request),
            SliceStateView::Opening { session_id, member_index, queues } => exists|
                place: int,
                open: SliceOpenView,
            | #[trigger] opening(events, place, open, queues),
            _ => true,
        },
    decreases events.len(),
{
    if events.len() > 0 {
        let before = events.drop_last();
        let last = events.last();
        lemma_opening(before);
        assert(forall|i: int| 0 <= i < before.len() ==> before[i] == #[trigger] events[i]);
        let (state, _) = slice_run(SliceStateView::AwaitingOpen, before);
        let (next, _) = slice_next(state, last);
        match (state, next) {
            (SliceStateView::Opening { queues, .. }, SliceStateView::Opening { .. }) => {
                let (place, open) = choose|place: int, open: SliceOpenView| #[trigger]
                    opening(before, place, open, queues);
                lemma_opening_push(events, place, open, queues);
            },
            (SliceStateView::AwaitingOpen, SliceStateView::Opening { queues: after, .. }) => {
                let open = last->Request_0->Ok_0->0.open->0;
                let place = events.len() - 1;
                let log = queue_log(events.skip(place + 1));
                rpc::lemma_earned_dialing(Peer::Queue, open.members, log);
                assert(opening(events, place, open, after));
            },
            _ => {},
        }
    }
}

/// A slice answers that it is open only after its first request opened it, and after a
/// Queue RPC was opened to every member since: connected, sent its Open, started, and
/// answered with an Opened, in this order.
pub proof fn law_opened_after_all_queues(events: Seq<SliceEventView>)
    requires
        slice_run(SliceStateView::AwaitingOpen, events).1.len() > 0,
        slice_run(SliceStateView::AwaitingOpen, events).1.last()
            == SliceActionView::Respond(opened()),
    ensures
        exists|place: int, open: SliceOpenView|
            {
                &&& #[trigger] first_open(events, place, open)
                &&& forall|i: int|
                    0 <= i < open.members.len() ==> #[trigger] rpc::succeeded(
                        queue_log(events.skip(place + 1)),
                        i,
                        4,
                    )
            },
{
    let before = events.drop_last();
    let last = events.last();
    lemma_opening(before);
    assert(forall|i: int| 0 <= i < before.len() ==> before[i] == #[trigger] events[i]);
    match slice_run(SliceStateView::AwaitingOpen, before).0 {
        SliceStateView::Opening { session_id, member_index, queues } => {
            let (place, open) = choose|place: int, open: SliceOpenView| #[trigger]
                opening(before, place, open, queues);
            lemma_opening_push(events, place, open, queues);
            let after = queues.next(last->index as int, last->event).0;
            assert(after.all_open());
            assert forall|i: int| 0 <= i < open.members.len() implies #[trigger] rpc::succeeded(
                queue_log(events.skip(place + 1)),
                i,
                4,
            ) by {
                assert(after.rpcs[i].state is Open);
            }
            assert(first_open(events, place, open));
        },
        SliceStateView::AwaitingOpen => {
            let open = last->Request_0->Ok_0->0.open->0;
            assert(first_open(events, events.len() - 1, open));
        },
        _ => {},
    }
}

/// A slice responds at most once, with the Opened.
pub proof fn law_slice_responses(events: Seq<SliceEventView>)
    ensures
        ({
            let (state, actions) = slice_run(SliceStateView::AwaitingOpen, events);
            let responses = slice_responses(actions);
            &&& responses == Seq::<SliceResponse>::empty() || responses == seq![opened()]
            &&& state is AwaitingOpen || state is Opening ==> responses.len() == 0
            &&& state is Serving ==> responses.len() == 1
        }),
    decreases events.len(),
{
    if events.len() > 0 {
        law_slice_responses(events.drop_last());
        let (before, actions) = slice_run(SliceStateView::AwaitingOpen, events.drop_last());
        let (_, action) = slice_next(before, events.last());
        assert(actions.push(action).drop_last() =~= actions);
        assert(slice_responses(actions.push(action)) =~= Seq::<SliceResponse>::empty()
            || slice_responses(actions.push(action)) =~= seq![opened()]);
    }
}

/// A slice that has ended or failed does nothing more.
pub proof fn law_slice_stopped(events: Seq<SliceEventView>)
    ensures
        slice_run(SliceStateView::Stopped, events) == (
            SliceStateView::Stopped,
            Seq::new(events.len(), |i: int| SliceActionView::Nothing),
        ),
    decreases events.len(),
{
    if events.len() > 0 {
        law_slice_stopped(events.drop_last());
        assert(slice_run(SliceStateView::Stopped, events).1 =~= Seq::new(
            events.len(),
            |i: int| SliceActionView::Nothing,
        ));
    }
}

/// A slice stops exactly when it ends or fails.
pub proof fn law_slice_stops(state: SliceStateView, event: SliceEventView)
    requires
        !(state is Stopped),
    ensures
        ({
            let (next, action) = slice_next(state, event);
            next is Stopped <==> action is Fail || action is End
        }),
{
}

/// The events of Queue RPCs that succeed step by step, in the given order.
pub open spec fn queues_succeed(order: Seq<int>) -> Seq<SliceEventView> {
    Seq::new(
        order.len(),
        |place: int|
            SliceEventView::Queue {
                index: order[place] as usize,
                event: rpc::success_at(order, place),
            },
    )
}

proof fn lemma_slice_opening(
    request: SliceRequestView,
    open: SliceOpenView,
    order: Seq<int>,
    late: int,
)
    requires
        request.open == Some(open),
        open.members.len() <= usize::MAX,
        rpc::is_order(order, open.members.len() as int),
        0 <= late < open.members.len(),
        rpc::occurrences(order, late) < 4,
    ensures
        slice_run(
            SliceStateView::AwaitingOpen,
            seq![SliceEventView::Request(Ok(Some(request)))] + queues_succeed(order),
        ).0 == (SliceStateView::Opening {
            session_id: open.session_id,
            member_index: open.member_index,
            queues: RpcGroupView::dialing(Peer::Queue, open.members).run(rpc::success_log(order)),
        }),
    decreases order.len(),
{
    let first = seq![SliceEventView::Request(Ok(Some(request)))];
    let events = first + queues_succeed(order);
    if order.len() == 0 {
        assert(events =~= first);
        assert(first.drop_last() =~= Seq::empty());
        reveal_with_fuel(slice_run, 2);
    } else {
        let before = order.drop_last();
        let last = order.last();
        rpc::lemma_order_drop_last(order, open.members.len() as int);
        lemma_slice_opening(request, open, before, late);
        rpc::law_success_counts(Peer::Queue, open.members, before);
        rpc::law_success_counts(Peer::Queue, open.members, order);
        rpc::lemma_occurrences_not_negative(before, last);
        rpc::lemma_occurrences_not_negative(order, late);
        assert(0 <= order[order.len() - 1] < open.members.len());
        assert(rpc::occurrences(order, last) <= 4);
        assert forall|place: int| 0 <= place < before.len() implies queues_succeed(order)[place]
            == queues_succeed(before)[place] by {
            assert(rpc::success_log(order).drop_last()[place] == rpc::success_log(before)[place]);
        }
        assert(events.drop_last() =~= first + queues_succeed(before));
        let group = RpcGroupView::dialing(Peer::Queue, open.members).run(rpc::success_log(order));
        assert(!(group.rpcs[late].state is Open));
        assert(!group.all_open());
        assert(rpc::success_log(order).last() == Some(
            (last, rpc::success_at(order, order.len() - 1)),
        ));
    }
}

/// A slice that is opened answers that it is open once the Queue RPC to every member
/// has succeeded in all its four steps, in whatever order the RPCs take turns.
pub proof fn law_slice_opens(
    request: SliceRequestView,
    open: SliceOpenView,
    order: Seq<int>,
)
    requires
        request.open == Some(open),
        open.members.len() <= usize::MAX,
        rpc::is_order(order, open.members.len() as int),
        forall|i: int|
            0 <= i < open.members.len() ==> #[trigger] rpc::occurrences(order, i) == 4,
    ensures
        ({
            let (state, actions) = slice_run(
                SliceStateView::AwaitingOpen,
                seq![SliceEventView::Request(Ok(Some(request)))] + queues_succeed(order),
            );
            &&& state == (SliceStateView::Serving {
                session_id: open.session_id,
                member_index: open.member_index,
            })
            &&& actions.last() == SliceActionView::Respond(opened())
        }),
{
    let first = seq![SliceEventView::Request(Ok(Some(request)))];
    let events = first + queues_succeed(order);
    if open.members.len() == 0 {
        assert(order.len() == 0) by {
            if order.len() > 0 {
                assert(0 <= order[0] < 0);
            }
        }
        assert(events =~= first);
        assert(first.drop_last() =~= Seq::empty());
        reveal_with_fuel(slice_run, 2);
    } else {
        assert(rpc::occurrences(order, 0) == 4);
        let before = order.drop_last();
        let last = order.last();
        rpc::lemma_order_drop_last(order, open.members.len() as int);
        assert(0 <= order[order.len() - 1] < open.members.len());
        assert(rpc::occurrences(order, last) == 4);
        lemma_slice_opening(request, open, before, last);
        rpc::law_success_counts(Peer::Queue, open.members, before);
        rpc::law_success_counts(Peer::Queue, open.members, order);
        assert forall|place: int| 0 <= place < before.len() implies queues_succeed(order)[place]
            == queues_succeed(before)[place] by {
            assert(rpc::success_log(order).drop_last()[place] == rpc::success_log(before)[place]);
        }
        assert(events.drop_last() =~= first + queues_succeed(before));
        let group = RpcGroupView::dialing(Peer::Queue, open.members).run(rpc::success_log(order));
        assert forall|i: int| 0 <= i < group.rpcs.len() implies (#[trigger] group.rpcs[i]).state
            is Open by {
            assert(rpc::occurrences(order, i) == 4);
        }
        assert(rpc::success_log(order).last() == Some(
            (last, rpc::success_at(order, order.len() - 1)),
        ));
    }
}

/// A slice whose requests do not start with an Open fails: with the error of the
/// requests, where they failed, and else with an internal error that says what was
/// expected.
pub proof fn law_slice_refuses(event: SliceEventView, report: Seq<char>)
    requires
        event is Request,
    ensures
        match event {
            SliceEventView::Request(Err(error)) => slice_next(SliceStateView::AwaitingOpen, event)
                == slice_failed(error),
            SliceEventView::Request(Ok(None)) => refused(event, "expected Open request"@, report),
            SliceEventView::Request(Ok(Some(request))) => match request.open {
                None => refused(event, "first message must be Open"@, report),
                Some(_) => !(slice_next(SliceStateView::AwaitingOpen, event).1 is Fail),
            },
            _ => true,
        },
{
}

/// The first event of a slice stops it with an internal error of this one message.
pub open spec fn refused(event: SliceEventView, message: Seq<char>, report: Seq<char>) -> bool {
    let (state, action) = slice_next(SliceStateView::AwaitingOpen, event);
    &&& state is Stopped
    &&& action matches SliceActionView::Fail(error) && {
        &&& status::reported(error, report) == StatusView::internal(report)
        &&& error.chain() == seq![message]
    }
}

/// A status that the caller's requests fail with comes back to the caller, from
/// wherever the slice reads requests: unchanged, or as an internal error of the same
/// message where it is one.
pub proof fn law_slice_status_kept(state: SliceStateView, status: StatusView, report: Seq<char>)
    requires
        state is AwaitingOpen || state is Serving,
    ensures
        ({
            let failed = SliceEventView::Request(Err(status::from_status(status)));
            let (next, action) = slice_next(state, failed);
            &&& next is Stopped
            &&& action matches SliceActionView::Fail(error) && if status.code == INTERNAL {
                &&& status::reported(error, report) == StatusView::internal(report)
                &&& error.chain() == seq![status.message]
            } else {
                status::reported(error, report) == status
            }
        }),
{
    if status.code == INTERNAL {
        assert(status::from_status(status).chain() =~= seq![status.message]);
    }
}

/// A request was read.
pub open spec fn has_request(events: Seq<SliceEventView>) -> bool {
    exists|i: int| 0 <= i < events.len() && #[trigger] events[i] is Request
}

/// The event without the Open that its request may hold.
pub open spec fn without_open(event: SliceEventView) -> SliceEventView {
    match event {
        SliceEventView::Request(Ok(Some(request))) => SliceEventView::Request(
            Ok(Some(SliceRequestView { open: None, ..request })),
        ),
        _ => event,
    }
}

/// The events differ at most in the Opens of requests after the first.
pub open spec fn same_but_later_opens(a: Seq<SliceEventView>, b: Seq<SliceEventView>) -> bool {
    &&& a.len() == b.len()
    &&& forall|i: int|
        0 <= i < a.len() ==> if has_request(a.take(i)) {
            without_open(#[trigger] a[i]) == without_open(b[i])
        } else {
            a[i] == b[i]
        }
}

/// An Open after the first request of a slice is ignored: the slice does the same
/// without it. It opens no second set of queues, and does not fail.
pub proof fn law_slice_ignores_later_opens(a: Seq<SliceEventView>, b: Seq<SliceEventView>)
    requires
        same_but_later_opens(a, b),
    ensures
        slice_run(SliceStateView::AwaitingOpen, a) == slice_run(SliceStateView::AwaitingOpen, b),
    decreases a.len(),
{
    if a.len() > 0 {
        let before = a.drop_last();
        let place = a.len() - 1;
        assert(same_but_later_opens(before, b.drop_last())) by {
            assert forall|i: int| 0 <= i < before.len() implies if has_request(before.take(i)) {
                without_open(#[trigger] before[i]) == without_open(b.drop_last()[i])
            } else {
                before[i] == b.drop_last()[i]
            } by {
                assert(before.take(i) =~= a.take(i));
                assert(before[i] == a[i]);
            }
        }
        law_slice_ignores_later_opens(before, b.drop_last());
        lemma_opening(before);
        assert(a.take(place) =~= before);
        assert(a[place] == a.last());
    }
}

/// While a slice opens its queues, each RPC is driven by its own events: what the RPC at
/// an index asks for next is asked for at that index and no other. An RPC that fails,
/// fails the slice with the same error, and the Opened is sent once all are open.
pub proof fn law_slice_drives_each_rpc(
    session_id: u64,
    member_index: u32,
    queues: RpcGroup,
    index: usize,
    event: RpcEvent<QueueResponse>,
    after: SliceState,
    action: SliceAction,
)
    requires
        (after@, action@) == slice_next(
            SliceState::Opening { session_id, member_index, queues }@,
            SliceEvent::Queue { index, event }@,
        ),
    ensures
        action matches SliceAction::Perform { index: at, .. } ==> at == index,
        ({
            let (rest, step) = queues@.next(index as int, event@);
            match step {
                RpcStepView::Perform(command) => {
                    &&& action == (SliceAction::Perform { index, command })
                    &&& after matches SliceState::Opening {
                        session_id: id,
                        member_index: at,
                        queues: kept,
                    }
                    &&& id == session_id && at == member_index && kept@ == rest
                },
                RpcStepView::Opened => {
                    &&& after == (SliceState::Serving { session_id, member_index })
                    &&& action matches SliceAction::Respond(response)
                    &&& response.opened is Some && response.progress_delta is None
                },
                RpcStepView::Fail(error) => {
                    &&& after is Stopped
                    &&& action matches SliceAction::Fail(told)
                    &&& told@ == error
                },
                RpcStepView::Nothing => {
                    &&& action is Nothing
                    &&& after matches SliceState::Opening {
                        session_id: id,
                        member_index: at,
                        queues: kept,
                    }
                    &&& id == session_id && at == member_index && kept@ == rest
                },
            }
        }),
{
}

/// Steps of the Queue RPC to a member that succeed lead to its next step, at the same
/// member: once connected, its Open is sent; once sent, it is started; once started, its
/// response is waited for.
pub proof fn law_slice_opens_each_queue(
    session_id: u64,
    member_index: u32,
    queues: RpcGroup,
    index: usize,
    event: RpcEvent<QueueResponse>,
    after: SliceState,
    action: SliceAction,
)
    requires
        (after@, action@) == slice_next(
            SliceState::Opening { session_id, member_index, queues }@,
            SliceEvent::Queue { index, event }@,
        ),
        index < queues.rpcs@.len(),
    ensures
        queues.rpcs@[index as int].state is Dialing ==> (event matches RpcEvent::Dialed(Ok(_))
            ==> action == (SliceAction::Perform { index, command: RpcCommand::Send })),
        queues.rpcs@[index as int].state is Sending ==> (event matches RpcEvent::Sent(Ok(_))
            ==> action == (SliceAction::Perform { index, command: RpcCommand::Start })),
        queues.rpcs@[index as int].state is Starting ==> (event matches RpcEvent::Started(Ok(_))
            ==> action == (SliceAction::Perform { index, command: RpcCommand::Wait })),
{
    assert(queues@.rpcs[index as int] == queues.rpcs@[index as int]@);
}

/// A step of the Queue RPC to any member that fails, fails the slice: a member that cannot
/// be connected to or sent its Open, that refuses the RPC, that fails or ends before it
/// answers, or that answers with anything but an Opened.
pub proof fn law_slice_fails_with_a_queue(
    session_id: u64,
    member_index: u32,
    queues: RpcGroup,
    index: usize,
    event: RpcEvent<QueueResponse>,
    after: SliceState,
    action: SliceAction,
)
    requires
        (after@, action@) == slice_next(
            SliceState::Opening { session_id, member_index, queues }@,
            SliceEvent::Queue { index, event }@,
        ),
        index < queues.rpcs@.len(),
        match queues.rpcs@[index as int].state {
            RpcState::Dialing => event matches RpcEvent::Dialed(Err(_)),
            RpcState::Sending => event matches RpcEvent::Sent(Err(_)),
            RpcState::Starting => event matches RpcEvent::Started(Err(_)),
            RpcState::Waiting => match event {
                RpcEvent::Replied(Ok(Some(reply))) => reply.opened is None,
                RpcEvent::Replied(_) => true,
                _ => false,
            },
            _ => false,
        },
    ensures
        after is Stopped,
        action is Fail,
        event matches RpcEvent::Dialed(Err(why)) ==> {
            &&& action matches SliceAction::Fail(ShuffleError::Connecting { address, cause })
            &&& address@ == queues.rpcs@[index as int].address@
            &&& cause@ == why@
        },
        event matches RpcEvent::Started(Err(why)) ==> {
            &&& action matches SliceAction::Fail(ShuffleError::Starting { status, .. })
            &&& status@ == why@
        },
        event matches RpcEvent::Replied(Err(why)) ==> {
            &&& action matches SliceAction::Fail(ShuffleError::Waiting { status, .. })
            &&& status@ == why@
        },
{
    assert(queues@.rpcs[index as int] == queues.rpcs@[index as int]@);
}

/// What is not awaited changes nothing and asks for nothing: a request while the queues
/// are being opened, an outcome of their RPCs at any other time, and anything once the
/// slice has stopped.
pub proof fn law_slice_awaits(
    before: SliceState,
    event: SliceEvent,
    after: SliceState,
    action: SliceAction,
)
    requires
        (after@, action@) == slice_next(before@, event@),
        match before {
            SliceState::AwaitingOpen => event is Queue,
            SliceState::Opening { .. } => event is Request,
            SliceState::Serving { .. } => event is Queue,
            SliceState::Stopped => true,
        },
    ensures
        after@ == before@,
        action is Nothing,
{
}

/// Every member gets the Open of the slice's queue there: at its own address, with the
/// session, the number of members and the slice's index, under its own index, and with
/// nothing else.
pub proof fn law_queue_calls(
    session_id: u64,
    slice_member_index: u32,
    members: Seq<Member>,
    calls: Seq<QueueCall>,
)
    requires
        calls_view(calls) == queue_calls(
            session_id,
            slice_member_index,
            message::addresses(members),
        ),
    ensures
        calls.len() == members.len(),
        forall|i: int|
            0 <= i < calls.len() ==> {
                let call = #[trigger] calls[i];
                &&& call.address@ == members[i].address@
                &&& call.request.enqueue is None
                &&& call.request.flush is None
                &&& call.request.open matches Some(open)
                &&& open.session_id == session_id
                &&& open.member_count as int == members.len() as int % 0x1_0000_0000
                &&& open.slice_member_index == slice_member_index
                &&& open.queue_member_index as int == i % 0x1_0000_0000
            },
{
    assert(calls_view(calls).len() == calls.len());
    assert forall|i: int| 0 <= i < calls.len() implies {
        let call = #[trigger] calls[i];
        &&& call.address@ == members[i].address@
        &&& call.request.enqueue is None
        &&& call.request.flush is None
        &&& call.request.open matches Some(open)
        &&& open.session_id == session_id
        &&& open.member_count as int == members.len() as int % 0x1_0000_0000
        &&& open.slice_member_index == slice_member_index
        &&& open.queue_member_index as int == i % 0x1_0000_0000
    } by {
        assert(calls_view(calls)[i] == calls[i]@);
    }
}

/// The first request decides: without one, or without an Open in it, the slice fails with
/// the error that says so, and where the requests failed with their error. Else all
/// members are called at once with what the slice was opened with, with a task or
/// without, or the slice is open where there are none.
pub proof fn law_slice_first_request(
    request: Result<Option<SliceRequest>, ShuffleError>,
    after: SliceState,
    action: SliceAction,
)
    requires
        (after@, action@) == slice_next(
            SliceState::AwaitingOpen@,
            SliceEvent::Request(request)@,
        ),
    ensures
        match request {
            Err(error) => {
                &&& after is Stopped
                &&& action matches SliceAction::Fail(told)
                &&& told@ == error@
            },
            Ok(None) => after is Stopped && action == SliceAction::Fail(
                ShuffleError::ExpectedOpen,
            ),
            Ok(Some(request)) => match request.open {
                None => after is Stopped && action == SliceAction::Fail(
                    ShuffleError::FirstNotOpen,
                ),
                Some(open) => if open.members@.len() == 0 {
                    &&& after == (SliceState::Serving {
                        session_id: open.session_id,
                        member_index: open.member_index,
                    })
                    &&& action matches SliceAction::Respond(response)
                    &&& response.opened is Some && response.progress_delta is None
                } else {
                    &&& action matches SliceAction::OpenQueues(calls)
                    &&& calls@.len() == open.members@.len()
                    &&& forall|i: int|
                        0 <= i < calls@.len() ==> {
                            let call = #[trigger] calls@[i];
                            &&& call.address@ == open.members@[i].address@
                            &&& call.request.open matches Some(to)
                            &&& to.session_id == open.session_id
                            &&& to.member_count as int == calls@.len() as int % 0x1_0000_0000
                            &&& to.slice_member_index == open.member_index
                            &&& to.queue_member_index as int == i % 0x1_0000_0000
                        }
                    &&& after matches SliceState::Opening { session_id, member_index, queues }
                    &&& session_id == open.session_id
                    &&& member_index == open.member_index
                    &&& queues.peer is Queue
                    &&& queues.rpcs@.len() == open.members@.len()
                    &&& forall|i: int|
                        0 <= i < queues.rpcs@.len() ==> (#[trigger] queues.rpcs@[i]).address@
                            == open.members@[i].address@ && queues.rpcs@[i].state is Dialing
                },
            },
        },
{
    if let Ok(Some(request)) = request {
        if let Some(open) = request.open {
            assert(open@.members.len() == open.members@.len());
            if open.members@.len() > 0 {
                law_queue_calls(
                    open.session_id,
                    open.member_index,
                    open.members@,
                    action->OpenQueues_0@,
                );
                rpc::law_group_dials(Peer::Queue, open.members@, after->queues);
            }
        }
    }
}

/// An open slice is served until its requests end or fail: it reads on after each
/// request, whatever it asks for, ends where the requests end, and fails only with the
/// error of the requests.
pub proof fn law_slice_serves(
    session_id: u64,
    member_index: u32,
    request: Result<Option<SliceRequest>, ShuffleError>,
    after: SliceState,
    action: SliceAction,
)
    requires
        (after@, action@) == slice_next(
            SliceState::Serving { session_id, member_index }@,
            SliceEvent::Request(request)@,
        ),
    ensures
        match request {
            Err(error) => {
                &&& after is Stopped
                &&& action matches SliceAction::Fail(told)
                &&& told@ == error@
            },
            Ok(None) => after is Stopped && action is End,
            Ok(Some(_)) => after == (SliceState::Serving { session_id, member_index })
                && action is Read,
        },
{
}

/// The events that read some requests.
pub open spec fn reading(requests: Seq<SliceRequestView>) -> Seq<SliceEventView> {
    Seq::new(requests.len(), |i: int| SliceEventView::Request(Ok(Some(requests[i]))))
}

/// An open slice takes any requests, whatever they ask for, and reads on after each of
/// them; once they end, it ends without an error.
pub proof fn law_slice_reads_on(
    session_id: u64,
    member_index: u32,
    requests: Seq<SliceRequestView>,
)
    ensures
        ({
            let serving = SliceStateView::Serving { session_id, member_index };
            let end = SliceEventView::Request(Ok(None));
            let read = Seq::new(requests.len(), |i: int| SliceActionView::Read);
            &&& slice_run(serving, reading(requests)) == (serving, read)
            &&& slice_run(serving, reading(requests).push(end)) == (
                SliceStateView::Stopped,
                read.push(SliceActionView::End),
            )
        }),
    decreases requests.len(),
{
    let serving = SliceStateView::Serving { session_id, member_index };
    let end = SliceEventView::Request(Ok(None));
    let read = Seq::new(requests.len(), |i: int| SliceActionView::Read);
    if requests.len() > 0 {
        law_slice_reads_on(session_id, member_index, requests.drop_last());
        assert(reading(requests).drop_last() =~= reading(requests.drop_last()));
    }
    assert(slice_run(serving, reading(requests)).1 =~= read);
    assert(reading(requests).push(end).drop_last() =~= reading(requests));
}

} // verus!
