//! The Queue RPC: joins the slices that connect to a queue, then acknowledges flushes.

use crate::message::{Flushed, Opened, QueueOpen, QueueRequest, QueueResponse};
use crate::status::{self, ErrorView, ShuffleError, StatusView, INTERNAL};
use std::collections::hash_map::Entry;
use std::collections::HashMap;
use tokio::sync::oneshot;
use vstd::prelude::*;

verus! {

/// The sending half of a `tokio` oneshot channel.
#[verifier::external_type_specification]
#[verifier::external_body]
#[verifier::reject_recursive_types(T)]
pub struct ExSender<T>(oneshot::Sender<T>);

/// The receiving half of a `tokio` oneshot channel.
#[verifier::external_type_specification]
#[verifier::external_body]
#[verifier::reject_recursive_types(T)]
pub struct ExReceiver<T>(oneshot::Receiver<T>);

/// The error that awaiting the receiving half ends in where the sender is gone.
#[verifier::external_type_specification]
#[verifier::external_body]
pub struct ExRecvError(oneshot::error::RecvError);

/// `tokio::sync::oneshot::channel`: a new channel. Nothing is said of its halves; that
/// they belong together is said by the call that returned both.
pub assume_specification<T>[ oneshot::channel::<T> ]() -> (oneshot::Sender<T>, oneshot::Receiver<T>);

/// `tokio::sync::oneshot::Sender::send`: hands the value to the receiver, or hands it
/// back where the receiver is gone. Which of the two happens depends on the receiver,
/// and is left unsaid.
pub assume_specification<T>[ oneshot::Sender::<T>::send ](sender: oneshot::Sender<T>, t: T) -> (sent:
    Result<(), T>)
    ensures
        sent matches Err(unsent) ==> unsent == t,
;

/// The unit value was handed to `send` of this sender.
pub open spec fn sent(sender: oneshot::Sender<()>) -> bool {
    exists|outcome: Result<(), ()>| #[trigger]
        call_ensures(oneshot::Sender::<()>::send, (sender, ()), outcome)
}

/// The receiver was made by `channel` together with a sender that has been sent on, so
/// that awaiting it waits for nobody.
pub open spec fn notified(receiver: oneshot::Receiver<()>) -> bool {
    exists|sender: oneshot::Sender<()>| #[trigger]
        call_ensures(oneshot::channel::<()>, (), (sender, receiver)) && sent(sender)
}

/// QueueJoin coordinates multiple Slice streams connecting to the same Queue.
/// Each Queue member receives connections from all Slices.
pub struct QueueJoin {
    /// Expected number of Slice connections.
    member_count: u32,
    /// Sender to notify when all Slices have connected.
    ready_tx: Option<oneshot::Sender<()>>,
    /// Number of Slices that have connected so far.
    connected: u32,
}

/// What a `QueueJoin` holds.
#[verifier::ext_equal]
pub struct QueueJoinView {
    /// Expected number of Slice connections.
    pub member_count: u32,
    /// Number of Slices that have connected so far.
    pub connected: u32,
    /// Whether the sender has been taken out to be notified.
    pub taken: bool,
}

impl View for QueueJoin {
    type V = QueueJoinView;

    closed spec fn view(&self) -> QueueJoinView {
        QueueJoinView {
            member_count: self.member_count,
            connected: self.connected,
            taken: self.ready_tx is None,
        }
    }
}

impl QueueJoinView {
    /// A join that no Slice has connected to.
    pub open spec fn fresh(member_count: u32) -> QueueJoinView {
        QueueJoinView { member_count, connected: 0, taken: false }
    }

    /// The join after one more connection.
    pub open spec fn connect(self) -> QueueJoinView {
        let connected = (self.connected + 1) as u32;
        QueueJoinView {
            connected,
            taken: self.taken || connected == self.member_count,
            ..self
        }
    }

    /// The sender has been taken out exactly if all Slices have connected.
    pub open spec fn consistent(self) -> bool {
        self.taken <==> 1 <= self.member_count <= self.connected
    }
}

impl QueueJoin {
    /// The sender that is still to be notified.
    pub closed spec fn ready_tx(self) -> Option<oneshot::Sender<()>> {
        self.ready_tx
    }

    /// `after` is the join after one more connection. The connection that makes the
    /// join complete takes the sender out and sends on it; any other leaves it.
    pub open spec fn recorded(self, after: QueueJoin) -> bool {
        &&& after@ == self@.connect()
        &&& if after@.connected == after@.member_count {
            &&& after.ready_tx() is None
            &&& self.ready_tx() matches Some(tx) ==> sent(tx)
        } else {
            after.ready_tx() == self.ready_tx()
        }
    }

    pub fn new(member_count: u32, ready_tx: oneshot::Sender<()>) -> (join: QueueJoin)
        ensures
            join@ == QueueJoinView::fresh(member_count),
            join.ready_tx() == Some(ready_tx),
    {
        QueueJoin { member_count, ready_tx: Some(ready_tx), connected: 0 }
    }

    /// Tells whether one more connection can be counted.
    pub fn has_room(&self) -> (room: bool)
        ensures
            room == (self@.connected < u32::MAX),
    {
        self.connected < u32::MAX
    }

    /// Record a new Slice connection. Returns true if all Slices are now connected.
    pub fn add_connection(&mut self) -> (complete: bool)
        requires
            old(self)@.connected < u32::MAX,
        ensures
            old(self).recorded(*final(self)),
            complete == (final(self)@.connected == final(self)@.member_count),
            old(self)@.consistent() ==> final(self)@.consistent(),
    {
        self.connected = self.connected + 1;
        if self.connected == self.member_count {
            if let Some(tx) = self.ready_tx.take() {
                let _ = tx.send(());
            }
            true
        } else {
            false
        }
    }
}

/// The key of a queue among all sessions: the session and the queue's member index.
pub open spec fn packed(key: (u64, u32)) -> u128 {
    (key.0 * 0x1_0000_0000 + key.1) as u128
}

/// Default implementation of the Queue RPC.
pub struct DefaultQueueHandler {
    /// The joins of all queues, for coordinating Queue RPCs from multiple Slices.
    /// Keyed by session and queue member index, in one number.
    queue_joins: HashMap<u128, QueueJoin>,
}

impl View for DefaultQueueHandler {
    type V = Map<(u64, u32), QueueJoinView>;

    closed spec fn view(&self) -> Map<(u64, u32), QueueJoinView> {
        Map::new(
            |key: (u64, u32)| self.queue_joins@.contains_key(packed(key)),
            |key: (u64, u32)| self.queue_joins@[packed(key)]@,
        )
    }
}

/// The joins after one more connection to a queue. The first connection to a queue
/// decides how many are expected of it.
pub open spec fn joined(joins: Map<(u64, u32), QueueJoinView>, open: QueueOpen) -> Map<
    (u64, u32),
    QueueJoinView,
> {
    let key = (open.session_id, open.queue_member_index);
    let join = if joins.contains_key(key) {
        joins[key]
    } else {
        QueueJoinView::fresh(open.member_count)
    };
    joins.insert(key, join.connect())
}

/// One more connection to the queue can be counted.
pub open spec fn room(joins: Map<(u64, u32), QueueJoinView>, open: QueueOpen) -> bool {
    let key = (open.session_id, open.queue_member_index);
    joins.contains_key(key) ==> joins[key].connected < u32::MAX
}

/// All Slices are connected to the queue, and no more than those.
pub open spec fn complete(joins: Map<(u64, u32), QueueJoinView>, open: QueueOpen) -> bool {
    let join = joins[(open.session_id, open.queue_member_index)];
    join.connected == join.member_count
}

/// Every join is consistent.
pub open spec fn all_consistent(joins: Map<(u64, u32), QueueJoinView>) -> bool {
    forall|key: (u64, u32)| joins.contains_key(key) ==> (#[trigger] joins[key]).consistent()
}

impl DefaultQueueHandler {
    /// The sender that is still to be notified for a queue.
    pub closed spec fn ready_tx(self, key: (u64, u32)) -> Option<oneshot::Sender<()>> {
        if self.queue_joins@.contains_key(packed(key)) {
            self.queue_joins@[packed(key)].ready_tx()
        } else {
            None
        }
    }

    /// `after` is the handler after one more connection to a queue. The connection that
    /// makes the queue complete takes the queue's sender out and sends on it; a sender
    /// of this queue that is still to be notified, and those of all others, stay.
    pub open spec fn recorded(self, after: DefaultQueueHandler, open: QueueOpen) -> bool {
        let key = (open.session_id, open.queue_member_index);
        &&& after@ == joined(self@, open)
        &&& if complete(after@, open) {
            &&& after.ready_tx(key) is None
            &&& self.ready_tx(key) matches Some(tx) ==> sent(tx)
        } else {
            self@.contains_key(key) ==> after.ready_tx(key) == self.ready_tx(key)
        }
        &&& forall|other: (u64, u32)|
            other != key ==> #[trigger] after.ready_tx(other) == self.ready_tx(other)
    }

    pub fn new() -> (handler: DefaultQueueHandler)
        ensures
            handler@ == Map::<(u64, u32), QueueJoinView>::empty(),
    {
        DefaultQueueHandler { queue_joins: HashMap::new() }
    }

    fn key(open: &QueueOpen) -> (key: u128)
        ensures
            key == packed((open.session_id, open.queue_member_index)),
    {
        open.session_id as u128 * 0x1_0000_0000 + open.queue_member_index as u128
    }

    /// Tells whether one more connection to the queue can be counted.
    pub fn has_room(&self, open: &QueueOpen) -> (room: bool)
        ensures
            room == self::room(self@, *open),
    {
        match self.queue_joins.get(&Self::key(open)) {
            Some(join) => join.has_room(),
            None => true,
        }
    }

    /// Registers a connection with the join of its queue. Returns whether all Slices
    /// are now connected to the queue, and the receiver to await before the Open is
    /// answered.
    ///
    /// The receiver has been notified, so that awaiting it does not wait for other
    /// Slices.
    pub fn connect(&mut self, open: &QueueOpen) -> (ready: (bool, oneshot::Receiver<()>))
        requires
            room(old(self)@, *open),
        ensures
            old(self).recorded(*final(self), *open),
            ready.0 == complete(final(self)@, *open),
            notified(ready.1),
            all_consistent(old(self)@) ==> all_consistent(final(self)@),
    {
        let key = Self::key(open);
        let join = match self.queue_joins.entry(key) {
            Entry::Occupied(entry) => entry.into_mut(),
            Entry::Vacant(entry) => {
                let (ready_tx, _) = oneshot::channel();
                entry.insert(QueueJoin::new(open.member_count, ready_tx))
            },
        };
        let (ready_tx, ready_rx) = oneshot::channel();
        let complete = join.add_connection();
        let _ = ready_tx.send(());
        assert(self@ =~= joined(old(self)@, *open));
        (complete, ready_rx)
    }
}

impl Default for DefaultQueueHandler {
    fn default() -> (handler: DefaultQueueHandler)
        ensures
            handler@ == Map::<(u64, u32), QueueJoinView>::empty(),
    {
        DefaultQueueHandler::new()
    }
}

/// How far a queue has come.
#[derive(Debug, PartialEq, Eq)]
pub enum QueueState {
    /// The Open request is to be read.
    AwaitingOpen,
    /// The connection is being registered with the join of its queue.
    Joining(QueueOpen),
    /// Requests are being answered.
    Serving(QueueOpen),
    /// The queue has ended or failed.
    Stopped,
}

/// What happened to a queue.
pub enum QueueEvent {
    /// The next request was read, or the requests ended.
    Request(Result<Option<QueueRequest>, ShuffleError>),
    /// The connection is registered, and its receiver has been awaited.
    Joined,
}

/// What a `QueueEvent` holds.
#[verifier::ext_equal]
pub enum QueueEventView {
    Request(Result<Option<QueueRequest>, ErrorView>),
    Joined,
}

impl View for QueueEvent {
    type V = QueueEventView;

    open spec fn view(&self) -> QueueEventView {
        match *self {
            QueueEvent::Request(Ok(request)) => QueueEventView::Request(Ok(request)),
            QueueEvent::Request(Err(error)) => QueueEventView::Request(Err(error@)),
            QueueEvent::Joined => QueueEventView::Joined,
        }
    }
}

/// What to do next for a queue.
#[derive(Debug, PartialEq, Eq)]
pub enum QueueAction {
    /// Register the connection, and await its receiver.
    Join(QueueOpen),
    /// Send the response, then read the next request.
    Respond(QueueResponse),
    /// Read the next request.
    Read,
    /// End the responses with an error.
    Fail(ShuffleError),
    /// End the responses.
    End,
    /// Await what else is under way.
    Nothing,
}

/// What a `QueueAction` holds.
#[verifier::ext_equal]
pub enum QueueActionView {
    Join(QueueOpen),
    Respond(QueueResponse),
    Read,
    Fail(ErrorView),
    End,
    Nothing,
}

impl View for QueueAction {
    type V = QueueActionView;

    open spec fn view(&self) -> QueueActionView {
        match *self {
            QueueAction::Join(open) => QueueActionView::Join(open),
            QueueAction::Respond(response) => QueueActionView::Respond(response),
            QueueAction::Read => QueueActionView::Read,
            QueueAction::Fail(error) => QueueActionView::Fail(error@),
            QueueAction::End => QueueActionView::End,
            QueueAction::Nothing => QueueActionView::Nothing,
        }
    }
}

/// The response that the queue is open.
pub open spec fn opened() -> QueueResponse {
    QueueResponse { opened: Some(Opened {  }), flushed: None }
}

/// The response to the Flush with this sequence number.
pub open spec fn flushed(seq: u64) -> QueueResponse {
    QueueResponse { opened: None, flushed: Some(Flushed { seq }) }
}

/// A queue that failed with `error`.
pub open spec fn queue_failed(error: ErrorView) -> (QueueState, QueueActionView) {
    (QueueState::Stopped, QueueActionView::Fail(error))
}

/// How an event moves a queue.
pub open spec fn queue_next(state: QueueState, event: QueueEventView) -> (
    QueueState,
    QueueActionView,
) {
    match (state, event) {
        (QueueState::AwaitingOpen, QueueEventView::Request(request)) => match request {
            Err(error) => queue_failed(error),
            Ok(None) => queue_failed(ErrorView::ExpectedOpen),
            Ok(Some(request)) => match request.open {
                None => queue_failed(ErrorView::FirstNotOpen),
                Some(open) => (QueueState::Joining(open), QueueActionView::Join(open)),
            },
        },
        (QueueState::Joining(open), QueueEventView::Joined) => (
            QueueState::Serving(open),
            QueueActionView::Respond(opened()),
        ),
        (QueueState::Serving(_), QueueEventView::Request(request)) => match request {
            Err(error) => queue_failed(error),
            Ok(None) => (QueueState::Stopped, QueueActionView::End),
            Ok(Some(request)) => match request.flush {
                Some(flush) => (state, QueueActionView::Respond(flushed(flush.seq))),
                None => (state, QueueActionView::Read),
            },
        },
        _ => (state, QueueActionView::Nothing),
    }
}

/// Moves a queue on by one event.
pub fn serve_queue(state: QueueState, event: QueueEvent) -> (next: (QueueState, QueueAction))
    ensures
        (next.0, next.1@) == queue_next(state, event@),
{
    match (state, event) {
        (QueueState::AwaitingOpen, QueueEvent::Request(request)) => match request {
            Err(error) => (QueueState::Stopped, QueueAction::Fail(error)),
            Ok(None) => (QueueState::Stopped, QueueAction::Fail(ShuffleError::ExpectedOpen)),
            Ok(Some(request)) => match request.open {
                None => (QueueState::Stopped, QueueAction::Fail(ShuffleError::FirstNotOpen)),
                Some(open) => (QueueState::Joining(open), QueueAction::Join(open)),
            },
        },
        (QueueState::Joining(open), QueueEvent::Joined) => (
            QueueState::Serving(open),
            QueueAction::Respond(QueueResponse { opened: Some(Opened {  }), flushed: None }),
        ),
        (QueueState::Serving(open), QueueEvent::Request(request)) => match request {
            Err(error) => (QueueState::Stopped, QueueAction::Fail(error)),
            Ok(None) => (QueueState::Stopped, QueueAction::End),
            Ok(Some(request)) => {
                let action = match request.flush {
                    Some(flush) => QueueAction::Respond(
                        QueueResponse { opened: None, flushed: Some(Flushed { seq: flush.seq }) },
                    ),
                    None => QueueAction::Read,
                };
                (QueueState::Serving(open), action)
            },
        },
        (state, _) => (state, QueueAction::Nothing),
    }
}

/// The connection that an event of a queue registers.
pub open spec fn registers(state: QueueState, event: QueueEventView) -> Option<QueueOpen> {
    match queue_next(state, event).1 {
        QueueActionView::Join(open) => Some(open),
        _ => None,
    }
}

impl DefaultQueueHandler {
    /// Tells whether the connection that the event registers can be counted.
    pub fn can_serve(&self, state: &QueueState, event: &QueueEvent) -> (can: bool)
        ensures
            can == (registers(*state, event@) matches Some(open) ==> room(self@, open)),
    {
        match (state, event) {
            (QueueState::AwaitingOpen, QueueEvent::Request(Ok(Some(request)))) =>
            match &request.open {
                Some(open) => self.has_room(open),
                None => true,
            },
            _ => true,
        }
    }

    /// Moves a queue on by one event. An Open is registered with the join of its queue;
    /// the receiver to await, which has been notified, is then returned with the action.
    pub fn serve_queue(&mut self, state: QueueState, event: QueueEvent) -> (next: (
        QueueState,
        QueueAction,
        Option<oneshot::Receiver<()>>,
    ))
        requires
            registers(state, event@) matches Some(open) ==> room(old(self)@, open),
        ensures
            (next.0, next.1@) == queue_next(state, event@),
            next.2 is Some <==> registers(state, event@) is Some,
            next.2 matches Some(ready_rx) ==> notified(ready_rx),
            match registers(state, event@) {
                Some(open) => old(self).recorded(*final(self), open),
                None => *final(self) == *old(self),
            },
            all_consistent(old(self)@) ==> all_consistent(final(self)@),
    {
        let (state, action) = serve_queue(state, event);
        let ready_rx = match &action {
            QueueAction::Join(open) => Some(self.connect(open).1),
            _ => None,
        };
        (state, action, ready_rx)
    }
}

/// The state of a queue after some events, and the actions that it asked for, one for
/// each event.
pub open spec fn queue_run(state: QueueState, events: Seq<QueueEventView>) -> (
    QueueState,
    Seq<QueueActionView>,
)
    decreases events.len(),
{
    if events.len() == 0 {
        (state, Seq::empty())
    } else {
        let (before, actions) = queue_run(state, events.drop_last());
        let (after, action) = queue_next(before, events.last());
        (after, actions.push(action))
    }
}

/// The responses among some actions, in their order.
pub open spec fn queue_responses(actions: Seq<QueueActionView>) -> Seq<QueueResponse>
    decreases actions.len(),
{
    if actions.len() == 0 {
        Seq::empty()
    } else {
        let before = queue_responses(actions.drop_last());
        match actions.last() {
            QueueActionView::Respond(response) => before.push(response),
            _ => before,
        }
    }
}

/// The first response of a queue is the Opened, and all after it acknowledge a Flush.
pub proof fn law_queue_responses(events: Seq<QueueEventView>)
    ensures
        ({
            let (state, actions) = queue_run(QueueState::AwaitingOpen, events);
            let responses = queue_responses(actions);
            &&& responses.len() > 0 ==> responses[0] == opened()
            &&& forall|i: int|
                0 < i < responses.len() ==> (#[trigger] responses[i]).opened is None
                    && responses[i].flushed is Some
            &&& state is AwaitingOpen || state is Joining ==> responses.len() == 0
            &&& state is Serving ==> responses.len() > 0
        }),
    decreases events.len(),
{
    if events.len() > 0 {
        law_queue_responses(events.drop_last());
        let (before, actions) = queue_run(QueueState::AwaitingOpen, events.drop_last());
        let (_, action) = queue_next(before, events.last());
        assert(actions.push(action).drop_last() =~= actions);
    }
}

/// A queue that is opened and joined answers that it is open.
pub proof fn law_queue_opens(request: QueueRequest)
    requires
        request.open is Some,
    ensures
        queue_run(
            QueueState::AwaitingOpen,
            seq![QueueEventView::Request(Ok(Some(request))), QueueEventView::Joined],
        ) == (
            QueueState::Serving(request.open->0),
            seq![
                QueueActionView::Join(request.open->0),
                QueueActionView::Respond(opened()),
            ],
        ),
{
    let events = seq![QueueEventView::Request(Ok(Some(request))), QueueEventView::Joined];
    assert(events.drop_last() =~= seq![QueueEventView::Request(Ok(Some(request)))]);
    assert(events.drop_last().drop_last() =~= Seq::empty());
    reveal_with_fuel(queue_run, 3);
    assert(queue_run(QueueState::AwaitingOpen, events).1 =~= seq![
        QueueActionView::Join(request.open->0),
        QueueActionView::Respond(opened()),
    ]);
}

/// The events that read some requests.
pub open spec fn reading(requests: Seq<QueueRequest>) -> Seq<QueueEventView> {
    Seq::new(requests.len(), |i: int| QueueEventView::Request(Ok(Some(requests[i]))))
}

/// The request asks for a flush.
pub open spec fn asks_flush() -> spec_fn(QueueRequest) -> bool {
    |request: QueueRequest| request.flush is Some
}

/// An open queue answers each Flush with exactly one Flushed of the same sequence
/// number, in the order of the requests, and no other request, and stays open.
pub proof fn law_flushes(open: QueueOpen, requests: Seq<QueueRequest>)
    ensures
        ({
            let serving = QueueState::Serving(open);
            let (state, actions) = queue_run(serving, reading(requests));
            let flushes = requests.filter(asks_flush());
            &&& state == serving
            &&& queue_responses(actions) == Seq::new(
                flushes.len(),
                |i: int| flushed(flushes[i].flush->0.seq),
            )
        }),
    decreases requests.len(),
{
    reveal(Seq::filter);
    let serving = QueueState::Serving(open);
    let flushes = requests.filter(asks_flush());
    let (state, all) = queue_run(serving, reading(requests));
    if requests.len() > 0 {
        law_flushes(open, requests.drop_last());
        assert(reading(requests).drop_last() =~= reading(requests.drop_last()));
        let (before, actions) = queue_run(serving, reading(requests.drop_last()));
        let (_, action) = queue_next(before, reading(requests).last());
        assert(actions.push(action).drop_last() =~= actions);
    }
    assert(queue_responses(all) =~= Seq::new(
        flushes.len(),
        |i: int| flushed(flushes[i].flush->0.seq),
    ));
}

/// A queue that has ended or failed does nothing more.
pub proof fn law_queue_stopped(events: Seq<QueueEventView>)
    ensures
        queue_run(QueueState::Stopped, events) == (
            QueueState::Stopped,
            Seq::new(events.len(), |i: int| QueueActionView::Nothing),
        ),
    decreases events.len(),
{
    if events.len() > 0 {
        law_queue_stopped(events.drop_last());
        assert(queue_run(QueueState::Stopped, events).1 =~= Seq::new(
            events.len(),
            |i: int| QueueActionView::Nothing,
        ));
    }
}

/// A queue stops exactly when it ends or fails.
pub proof fn law_queue_stops(state: QueueState, event: QueueEventView)
    requires
        !(state is Stopped),
    ensures
        ({
            let (next, action) = queue_next(state, event);
            next is Stopped <==> action is Fail || action is End
        }),
{
}

/// A join's sender is taken out exactly where it holds none.
pub proof fn law_join_sender(join: QueueJoin)
    ensures
        join@.taken <==> join.ready_tx() is None,
{
}

/// The joins that follow from one another by one more connection each.
pub open spec fn is_history(history: Seq<QueueJoin>) -> bool {
    forall|i: int, j: int|
        0 <= i && j == i + 1 && j < history.len() ==> #[trigger] history[i].recorded(history[j])
}

/// A join keeps its sender until the expected number of connections is complete, and
/// with that connection sends on it. Since the sender is then gone, it is sent on once.
pub proof fn law_join_notifies(
    history: Seq<QueueJoin>,
    member_count: u32,
    tx: oneshot::Sender<()>,
)
    requires
        0 < history.len() <= u32::MAX + 1,
        member_count >= 1,
        history[0]@ == QueueJoinView::fresh(member_count),
        history[0].ready_tx() == Some(tx),
        is_history(history),
    ensures
        ({
            let connections = history.len() - 1;
            &&& history.last()@ == (QueueJoinView {
                member_count,
                connected: connections as u32,
                taken: member_count <= connections,
            })
            &&& history.last().ready_tx() == if connections < member_count {
                Some(tx)
            } else {
                None
            }
            &&& connections >= member_count ==> sent(tx)
        }),
    decreases history.len(),
{
    if history.len() > 1 {
        let before = history.drop_last();
        assert(is_history(before)) by {
            assert forall|i: int, j: int|
                0 <= i && j == i + 1 && j < before.len() implies #[trigger] before[i].recorded(
                before[j],
            ) by {
                assert(history[i].recorded(history[j]));
            }
        }
        law_join_notifies(before, member_count, tx);
        assert(history[history.len() - 2].recorded(history[history.len() - 1]));
    }
}

/// The joins after some connections, one after the other.
pub open spec fn joined_all(
    joins: Map<(u64, u32), QueueJoinView>,
    opens: Seq<QueueOpen>,
) -> Map<(u64, u32), QueueJoinView>
    decreases opens.len(),
{
    if opens.len() == 0 {
        joins
    } else {
        joined(joined_all(joins, opens.drop_last()), opens.last())
    }
}

/// The connections are all to the queue of this key, and all expect this many.
pub open spec fn to_queue(opens: Seq<QueueOpen>, key: (u64, u32), member_count: u32) -> bool {
    forall|i: int|
        0 <= i < opens.len() ==> {
            let open = #[trigger] opens[i];
            &&& (open.session_id, open.queue_member_index) == key
            &&& open.member_count == member_count
        }
}

/// Connections to a new queue are counted one by one, and its sender is taken out to
/// be notified by the one that makes the expected number complete. No other queue is
/// touched.
pub proof fn law_joins_count(
    joins: Map<(u64, u32), QueueJoinView>,
    opens: Seq<QueueOpen>,
    key: (u64, u32),
    member_count: u32,
)
    requires
        !joins.contains_key(key),
        0 < opens.len() <= u32::MAX,
        to_queue(opens, key, member_count),
    ensures
        joined_all(joins, opens) == joins.insert(
            key,
            QueueJoinView {
                member_count,
                connected: opens.len() as u32,
                taken: 1 <= member_count <= opens.len(),
            },
        ),
        complete(joined_all(joins, opens), opens.last()) <==> opens.len() == member_count,
        opens.len() < u32::MAX ==> room(joined_all(joins, opens), opens.last()),
    decreases opens.len(),
{
    let before = opens.drop_last();
    assert(opens[opens.len() - 1] == opens.last());
    if before.len() > 0 {
        assert(to_queue(before, key, member_count)) by {
            assert forall|i: int| 0 <= i < before.len() implies {
                let open = #[trigger] before[i];
                &&& (open.session_id, open.queue_member_index) == key
                &&& open.member_count == member_count
            } by {
                assert(before[i] == opens[i]);
            }
        }
        law_joins_count(joins, before, key, member_count);
    }
    reveal_with_fuel(joined_all, 2);
    assert(joined_all(joins, opens) =~= joins.insert(
        key,
        QueueJoinView {
            member_count,
            connected: opens.len() as u32,
            taken: 1 <= member_count <= opens.len(),
        },
    ));
}

/// A connection to one queue leaves the joins of all others as they are.
pub proof fn law_joins_apart(
    joins: Map<(u64, u32), QueueJoinView>,
    open: QueueOpen,
    other: (u64, u32),
)
    requires
        other != (open.session_id, open.queue_member_index),
    ensures
        joined(joins, open).contains_key(other) == joins.contains_key(other),
        joined(joins, open)[other] == joins[other],
{
}

/// From an empty handler on, the sender of each join has been taken out exactly if all
/// Slices have connected.
pub proof fn law_joins_consistent(opens: Seq<QueueOpen>)
    requires
        forall|i: int|
            0 <= i < opens.len() ==> room(
                joined_all(Map::empty(), opens.take(i)),
                #[trigger] opens[i],
            ),
    ensures
        all_consistent(joined_all(Map::empty(), opens)),
    decreases opens.len(),
{
    if opens.len() > 0 {
        let before = opens.drop_last();
        assert forall|i: int| 0 <= i < before.len() implies room(
            joined_all(Map::empty(), before.take(i)),
            #[trigger] before[i],
        ) by {
            assert(before.take(i) =~= opens.take(i));
            assert(before[i] == opens[i]);
        }
        law_joins_consistent(before);
        assert(opens.take(opens.len() - 1) =~= before);
        assert(room(joined_all(Map::empty(), before), opens[opens.len() - 1]));
    }
}

/// A queue whose requests do not start with an Open fails: with the error of the
/// requests, where they failed, and else with an internal error that says what was
/// expected.
pub proof fn law_queue_refuses(event: QueueEventView, report: Seq<char>)
    requires
        event is Request,
    ensures
        match event {
            QueueEventView::Request(Err(error)) => queue_next(QueueState::AwaitingOpen, event)
                == queue_failed(error),
            QueueEventView::Request(Ok(None)) => refused(event, "expected Open request"@, report),
            QueueEventView::Request(Ok(Some(request))) => match request.open {
                None => refused(event, "first message must be Open"@, report),
                Some(_) => !(queue_next(QueueState::AwaitingOpen, event).1 is Fail),
            },
            _ => true,
        },
{
}

/// The first event of a queue stops it with an internal error of this one message.
pub open spec fn refused(event: QueueEventView, message: Seq<char>, report: Seq<char>) -> bool {
    let (state, action) = queue_next(QueueState::AwaitingOpen, event);
    &&& state is Stopped
    &&& action matches QueueActionView::Fail(error) && {
        &&& status::reported(error, report) == StatusView::internal(report)
        &&& error.chain() == seq![message]
    }
}

/// A status that the caller's requests fail with comes back to the caller, from
/// wherever the queue reads requests: unchanged, or as an internal error of the same
/// message where it is one.
pub proof fn law_queue_status_kept(state: QueueState, status: StatusView, report: Seq<char>)
    requires
        state is AwaitingOpen || state is Serving,
    ensures
        ({
            let failed = QueueEventView::Request(Err(status::from_status(status)));
            let (next, action) = queue_next(state, failed);
            &&& next is Stopped
            &&& action matches QueueActionView::Fail(error) && if status.code == INTERNAL {
                &&& status::reported(error, report) == StatusView::internal(report)
                &&& error.chain() == seq![status.message]
            } else {
                status::reported(error, report) == status
            }
        }),
{
    if status.code == INTERNAL {
        assert(status::from_status(status).chain() =~= seq![status.message]);
    }
}

/// A request was read.
pub open spec fn has_request(events: Seq<QueueEventView>) -> bool {
    exists|i: int| 0 <= i < events.len() && #[trigger] events[i] is Request
}

/// The event without the Open that its request may hold.
pub open spec fn without_open(event: QueueEventView) -> QueueEventView {
    match event {
        QueueEventView::Request(Ok(Some(request))) => QueueEventView::Request(
            Ok(Some(QueueRequest { open: None, ..request })),
        ),
        _ => event,
    }
}

/// The events differ at most in the Opens of requests after the first.
pub open spec fn same_but_later_opens(a: Seq<QueueEventView>, b: Seq<QueueEventView>) -> bool {
    &&& a.len() == b.len()
    &&& forall|i: int|
        0 <= i < a.len() ==> if has_request(a.take(i)) {
            without_open(#[trigger] a[i]) == without_open(b[i])
        } else {
            a[i] == b[i]
        }
}

pub(crate) proof fn lemma_opening(events: Seq<QueueEventView>)
    ensures
        queue_run(QueueState::AwaitingOpen, events).0 is AwaitingOpen <==> !has_request(events),
    decreases events.len(),
{
    if events.len() > 0 {
        let before = events.drop_last();
        lemma_opening(before);
        assert(events[events.len() - 1] == events.last());
        if has_request(before) {
            let i = choose|i: int| 0 <= i < before.len() && #[trigger] before[i] is Request;
            assert(events[i] is Request);
        }
        if has_request(events) && !(events.last() is Request) {
            let i = choose|i: int| 0 <= i < events.len() && #[trigger] events[i] is Request;
            assert(before[i] is Request);
        }
    }
}

/// An Open after the first request of a queue is ignored: the queue does the same
/// without it. It registers no second connection, and does not fail.
pub proof fn law_queue_ignores_later_opens(a: Seq<QueueEventView>, b: Seq<QueueEventView>)
    requires
        same_but_later_opens(a, b),
    ensures
        queue_run(QueueState::AwaitingOpen, a) == queue_run(QueueState::AwaitingOpen, b),
    decreases a.len(),
{
    if a.len() > 0 {
        let before = a.drop_last();
        let place = a.len() - 1;
        assert(same_but_later_opens(before, b.drop_last())) by {
            assert forall|i: int| 0 <= i < before.len() implies if has_request(before.take(i)) {
                without_open(#[trigger] before[i]) == without_open(b.drop_last()[i])
            } else {
                before[i] == b.drop_last()[i]
            } by {
                assert(before.take(i) =~= a.take(i));
                assert(before[i] == a[i]);
            }
        }
        law_queue_ignores_later_opens(before, b.drop_last());
        lemma_opening(before);
        assert(a.take(place) =~= before);
        assert(a[place] == a.last());
    }
}

/// A queue answers its Open without waiting for other Slices: after the Open is read
/// and the connection joined, the Opened is sent. From there on it does the same
/// whatever its Open says, of the number of members too.
pub proof fn law_queue_waits_for_none(
    a: QueueRequest,
    b: QueueRequest,
    events: Seq<QueueEventView>,
)
    requires
        a.open is Some,
        b.open is Some,
    ensures
        ({
            let run = |first: QueueRequest|
                queue_run(
                    QueueState::AwaitingOpen,
                    seq![QueueEventView::Request(Ok(Some(first))), QueueEventView::Joined]
                        + events,
                );
            &&& run(a).1[1] == QueueActionView::Respond(opened())
            &&& run(a).1.skip(1) == run(b).1.skip(1)
            &&& queue_responses(run(a).1) == queue_responses(run(b).1)
            &&& run(a).0 is Serving && run(b).0 is Serving || run(a).0 is Stopped && run(b).0
                is Stopped
        }),
    decreases events.len(),
{
    let first_a = seq![QueueEventView::Request(Ok(Some(a))), QueueEventView::Joined];
    let first_b = seq![QueueEventView::Request(Ok(Some(b))), QueueEventView::Joined];
    if events.len() == 0 {
        law_queue_opens(a);
        law_queue_opens(b);
        assert(first_a + events =~= first_a);
        assert(first_b + events =~= first_b);
        assert(seq![
            QueueActionView::Join(a.open->0),
            QueueActionView::Respond(opened()),
        ].drop_last() =~= seq![QueueActionView::Join(a.open->0)]);
        assert(seq![
            QueueActionView::Join(b.open->0),
            QueueActionView::Respond(opened()),
        ].drop_last() =~= seq![QueueActionView::Join(b.open->0)]);
        reveal_with_fuel(queue_responses, 3);
        assert(queue_run(QueueState::AwaitingOpen, first_a).1.skip(1) =~= queue_run(
            QueueState::AwaitingOpen,
            first_b,
        ).1.skip(1));
    } else {
        let before = events.drop_last();
        law_queue_waits_for_none(a, b, before);
        lemma_run_len(QueueState::AwaitingOpen, first_a + before);
        lemma_run_len(QueueState::AwaitingOpen, first_b + before);
        assert((first_a + events).drop_last() =~= first_a + before);
        assert((first_b + events).drop_last() =~= first_b + before);
        let (state_a, actions_a) = queue_run(QueueState::AwaitingOpen, first_a + before);
        let (state_b, actions_b) = queue_run(QueueState::AwaitingOpen, first_b + before);
        let action_a = queue_next(state_a, events.last()).1;
        let action_b = queue_next(state_b, events.last()).1;
        assert(actions_a.push(action_a).drop_last() =~= actions_a);
        assert(actions_b.push(action_b).drop_last() =~= actions_b);
        assert(actions_a.push(action_a).skip(1) =~= actions_a.skip(1).push(action_a));
        assert(actions_b.push(action_b).skip(1) =~= actions_b.skip(1).push(action_b));
    }
}

proof fn lemma_run_len(state: QueueState, events: Seq<QueueEventView>)
    ensures
        queue_run(state, events).1.len() == events.len(),
    decreases events.len(),
{
    if events.len() > 0 {
        lemma_run_len(state, events.drop_last());
    }
}

/// The first request decides: without one, or without an Open in it, the queue fails with
/// the error that says so, and where the requests failed with their error. Else the
/// connection is registered as the Open says.
pub proof fn law_queue_first_request(
    request: Result<Option<QueueRequest>, ShuffleError>,
    after: QueueState,
    action: QueueAction,
)
    requires
        (after, action@) == queue_next(
            QueueState::AwaitingOpen,
            QueueEvent::Request(request)@,
        ),
    ensures
        match request {
            Err(error) => {
                &&& after is Stopped
                &&& action matches QueueAction::Fail(told)
                &&& told@ == error@
            },
            Ok(None) => after is Stopped && action == QueueAction::Fail(
                ShuffleError::ExpectedOpen,
            ),
            Ok(Some(request)) => match request.open {
                None => after is Stopped && action == QueueAction::Fail(
                    ShuffleError::FirstNotOpen,
                ),
                Some(open) => after == QueueState::Joining(open) && action == QueueAction::Join(
                    open,
                ),
            },
        },
{
}

/// A queue whose connection is registered answers that it is open, with nothing else.
pub proof fn law_queue_joins(open: QueueOpen, after: QueueState, action: QueueAction)
    requires
        (after, action@) == queue_next(QueueState::Joining(open), QueueEvent::Joined@),
    ensures
        after == QueueState::Serving(open),
        action matches QueueAction::Respond(response) && response.opened is Some
            && response.flushed is None,
{
}

/// An open queue is served until its requests end or fail: it answers a Flush with a
/// Flushed of the same sequence number, reads on after any other request, ends where the
/// requests end, and fails only with the error of the requests.
pub proof fn law_queue_serves(
    open: QueueOpen,
    request: Result<Option<QueueRequest>, ShuffleError>,
    after: QueueState,
    action: QueueAction,
)
    requires
        (after, action@) == queue_next(
            QueueState::Serving(open),
            QueueEvent::Request(request)@,
        ),
    ensures
        match request {
            Err(error) => {
                &&& after is Stopped
                &&& action matches QueueAction::Fail(told)
                &&& told@ == error@
            },
            Ok(None) => after is Stopped && action is End,
            Ok(Some(request)) => {
                &&& after == QueueState::Serving(open)
                &&& match request.flush {
                    Some(flush) => {
                        &&& action matches QueueAction::Respond(response)
                        &&& response.opened is None
                        &&& response.flushed matches Some(flushed)
                        &&& flushed.seq == flush.seq
                    },
                    None => action is Read,
                }
            },
        },
{
}

/// What is not awaited changes nothing and asks for nothing: a request while the
/// connection is being registered, its registration at any other time, and anything once
/// the queue has stopped.
pub proof fn law_queue_awaits(
    before: QueueState,
    event: QueueEvent,
    after: QueueState,
    action: QueueAction,
)
    requires
        (after, action@) == queue_next(before, event@),
        match before {
            QueueState::AwaitingOpen => event is Joined,
            QueueState::Joining(_) => event is Request,
            QueueState::Serving(_) => event is Joined,
            QueueState::Stopped => true,
        },
    ensures
        after == before,
        action is Nothing,
{
}

/// A connection is registered exactly by a first request that holds an Open, and as that
/// Open says.
pub proof fn law_registers(state: QueueState, event: QueueEvent)
    ensures
        registers(state, event@) == match event {
            QueueEvent::Request(Ok(Some(request))) => if state is AwaitingOpen {
                request.open
            } else {
                None
            },
            _ => None,
        },
{
}

/// One more connection to a queue is counted at that queue. The first one decides how
/// many are expected, and no later one changes that; the sender is taken out by the
/// connection that reaches this number, and never put back.
pub proof fn law_joined(joins: Map<(u64, u32), QueueJoinView>, open: QueueOpen)
    requires
        room(joins, open),
    ensures
        ({
            let key = (open.session_id, open.queue_member_index);
            let after = joined(joins, open);
            &&& after.dom() == joins.dom().insert(key)
            &&& if joins.contains_key(key) {
                &&& after[key].member_count == joins[key].member_count
                &&& after[key].connected == joins[key].connected + 1
                &&& after[key].taken <==> joins[key].taken || joins[key].connected + 1
                    == joins[key].member_count
            } else {
                &&& after[key].member_count == open.member_count
                &&& after[key].connected == 1
                &&& after[key].taken <==> open.member_count == 1
            }
            &&& complete(after, open) <==> after[key].connected == after[key].member_count
        }),
{
    let key = (open.session_id, open.queue_member_index);
    assert(joined(joins, open).dom() =~= joins.dom().insert(key));
}

/// There is room for one more connection exactly where none is counted yet, or the count
/// can still go up.
pub proof fn law_room(joins: Map<(u64, u32), QueueJoinView>, open: QueueOpen)
    ensures
        ({
            let key = (open.session_id, open.queue_member_index);
            room(joins, open) <==> !joins.contains_key(key) || joins[key].connected
                != 0xffff_ffff
        }),
{
}

/// The slice that a connection comes from has no part in how it is counted.
pub proof fn law_any_slice_counts(
    joins: Map<(u64, u32), QueueJoinView>,
    open: QueueOpen,
    slice_member_index: u32,
)
    ensures
        joined(joins, QueueOpen { slice_member_index, ..open }) == joined(joins, open),
        room(joins, QueueOpen { slice_member_index, ..open }) == room(joins, open),
{
}

/// A new join has counted nobody and holds its sender; one more connection counts one.
pub proof fn law_join_counts(member_count: u32, join: QueueJoinView)
    requires
        join.connected < u32::MAX,
    ensures
        QueueJoinView::fresh(member_count).connected == 0,
        QueueJoinView::fresh(member_count).member_count == member_count,
        !QueueJoinView::fresh(member_count).taken,
        join.connect().connected == join.connected + 1,
        join.connect().member_count == join.member_count,
        join.connect().taken <==> join.taken || join.connected + 1 == join.member_count,
{
}

/// A receiver that has been notified is one half of a channel on whose other half the
/// unit value was sent.
pub proof fn law_notified(receiver: oneshot::Receiver<()>)
    requires
        notified(receiver),
    ensures
        exists|sender: oneshot::Sender<()>, outcome: Result<(), ()>|
            {
                &&& #[trigger] call_ensures(oneshot::channel::<()>, (), (sender, receiver))
                &&& #[trigger] call_ensures(
                    oneshot::Sender::<()>::send,
                    (sender, ()),
                    outcome,
                )
            },
{
    let sender = choose|sender: oneshot::Sender<()>| #[trigger]
        call_ensures(oneshot::channel::<()>, (), (sender, receiver)) && sent(sender);
    let outcome = choose|outcome: Result<(), ()>| #[trigger]
        call_ensures(oneshot::Sender::<()>::send, (sender, ()), outcome);
    assert(call_ensures(oneshot::channel::<()>, (), (sender, receiver)) && call_ensures(
        oneshot::Sender::<()>::send,
        (sender, ()),
        outcome,
    ));
}

/// The connection that makes a join complete sends the unit value on the join's sender.
pub proof fn law_complete_sends(
    before: QueueJoin,
    after: QueueJoin,
    tx: oneshot::Sender<()>,
)
    requires
        before.recorded(after),
        before.ready_tx() == Some(tx),
        after@.connected == after@.member_count,
    ensures
        exists|outcome: Result<(), ()>| #[trigger]
            call_ensures(oneshot::Sender::<()>::send, (tx, ()), outcome),
        after.ready_tx() is None,
{
}

/// A connection to a handler's queue that makes the queue complete sends the unit value
/// on the queue's sender; any other leaves the senders of all queues that are there.
pub proof fn law_handler_sends(
    before: DefaultQueueHandler,
    after: DefaultQueueHandler,
    open: QueueOpen,
    key: (u64, u32),
    tx: oneshot::Sender<()>,
)
    requires
        before.recorded(after, open),
        before@.contains_key(key),
        before.ready_tx(key) == Some(tx),
    ensures
        key == (open.session_id, open.queue_member_index) && after@[key].connected
            == after@[key].member_count ==> after.ready_tx(key) is None && exists|
            outcome: Result<(), ()>,
        | #[trigger] call_ensures(oneshot::Sender::<()>::send, (tx, ()), outcome),
        !(key == (open.session_id, open.queue_member_index) && after@[key].connected
            == after@[key].member_count) ==> after.ready_tx(key) == Some(tx),
{
}

/// A connection to a handler's queue is counted at that queue, and nowhere else.
pub proof fn law_handler_counts(
    before: DefaultQueueHandler,
    after: DefaultQueueHandler,
    open: QueueOpen,
)
    requires
        room(before@, open),
        before.recorded(after, open),
    ensures
        ({
            let key = (open.session_id, open.queue_member_index);
            &&& after@.contains_key(key)
            &&& after@[key].connected == if before@.contains_key(key) {
                before@[key].connected + 1
            } else {
                1
            }
            &&& after@[key].member_count == if before@.contains_key(key) {
                before@[key].member_count
            } else {
                open.member_count
            }
            &&& after@.remove(key) == before@.remove(key)
        }),
{
    let key = (open.session_id, open.queue_member_index);
    assert(after@.remove(key) =~= before@.remove(key));
}

/// A connection to a join is counted there.
pub proof fn law_recorded_counts(before: QueueJoin, after: QueueJoin)
    requires
        before@.connected < u32::MAX,
        before.recorded(after),
    ensures
        after@.connected == before@.connected + 1,
        after@.member_count == before@.member_count,
        before@.connected + 1 != before@.member_count ==> after.ready_tx() == before.ready_tx(),
{
}

} // verus!
