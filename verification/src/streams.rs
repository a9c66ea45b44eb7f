//! Many Queue RPCs on one handler, in whatever order their events come.

use crate::message::{QueueOpen, QueueRequest};
use crate::queue::{self, QueueEventView, QueueJoinView, QueueState};
use vstd::prelude::*;

verus! {

/// A queue handler and the Queue RPCs that it serves: the joins that they share, and
/// how far each of them has come.
#[verifier::ext_equal]
pub struct HandlerView {
    pub joins: Map<(u64, u32), QueueJoinView>,
    pub streams: Seq<QueueState>,
}

/// The events of the RPCs of a handler in the order in which they come, each with the
/// index of its RPC.
pub type StreamLog = Seq<(int, QueueEventView)>;

impl HandlerView {
    /// A new handler that is to serve this many RPCs.
    pub open spec fn new(count: nat) -> HandlerView {
        HandlerView {
            joins: Map::empty(),
            streams: Seq::new(count, |i: int| QueueState::AwaitingOpen),
        }
    }

    /// How an event of the RPC at `stream` moves the handler.
    pub open spec fn next(self, stream: int, event: QueueEventView) -> HandlerView {
        if 0 <= stream < self.streams.len() {
            let state = self.streams[stream];
            HandlerView {
                joins: match queue::registers(state, event) {
                    Some(open) => queue::joined(self.joins, open),
                    None => self.joins,
                },
                streams: self.streams.update(stream, queue::queue_next(state, event).0),
            }
        } else {
            self
        }
    }

    /// The handler after the events of a log.
    pub open spec fn run(self, log: StreamLog) -> HandlerView
        decreases log.len(),
    {
        if log.len() == 0 {
            self
        } else {
            self.run(log.drop_last()).next(log.last().0, log.last().1)
        }
    }
}

/// The events of the RPC at `stream`, in their order.
pub open spec fn events_of(log: StreamLog, stream: int) -> Seq<QueueEventView>
    decreases log.len(),
{
    if log.len() == 0 {
        Seq::empty()
    } else {
        let before = events_of(log.drop_last(), stream);
        if log.last().0 == stream {
            before.push(log.last().1)
        } else {
            before
        }
    }
}

/// The Open that the first request of an RPC holds.
pub open spec fn connection(events: Seq<QueueEventView>) -> Option<QueueOpen>
    decreases events.len(),
{
    if events.len() == 0 {
        None
    } else if queue::has_request(events.drop_last()) {
        connection(events.drop_last())
    } else {
        match events.last() {
            QueueEventView::Request(Ok(Some(request))) => request.open,
            _ => None,
        }
    }
}

/// The Opens of the RPCs of a handler.
pub open spec fn connections(log: StreamLog, count: nat) -> Seq<Option<QueueOpen>> {
    Seq::new(count, |i: int| connection(events_of(log, i)))
}

/// The Open is one to the queue of this key.
pub open spec fn is_to(open: Option<QueueOpen>, key: (u64, u32)) -> bool {
    open matches Some(open) && (open.session_id, open.queue_member_index) == key
}

/// How many Opens are to the queue of this key.
pub open spec fn tally(opens: Seq<Option<QueueOpen>>, key: (u64, u32)) -> int
    decreases opens.len(),
{
    if opens.len() == 0 {
        0
    } else {
        tally(opens.drop_last(), key) + if is_to(opens.last(), key) {
            1int
        } else {
            0int
        }
    }
}

/// The RPCs of a handler do not disturb each other: each comes as far as its own events
/// take it alone.
pub proof fn law_streams_apart(handler: HandlerView, log: StreamLog, stream: int)
    requires
        0 <= stream < handler.streams.len(),
    ensures
        handler.run(log).streams.len() == handler.streams.len(),
        handler.run(log).streams[stream] == queue::queue_run(
            handler.streams[stream],
            events_of(log, stream),
        ).0,
    decreases log.len(),
{
    if log.len() > 0 {
        law_streams_apart(handler, log.drop_last(), stream);
        let before = events_of(log.drop_last(), stream);
        if log.last().0 == stream {
            assert(before.push(log.last().1).drop_last() =~= before);
        }
    }
}

/// One more event of an RPC adds its Open exactly if the event registers it.
proof fn lemma_connection_push(events: Seq<QueueEventView>, event: QueueEventView)
    ensures
        ({
            let state = queue::queue_run(QueueState::AwaitingOpen, events).0;
            connection(events.push(event)) == match queue::registers(state, event) {
                Some(open) => Some(open),
                None => connection(events),
            }
        }),
        queue::registers(
            queue::queue_run(QueueState::AwaitingOpen, events).0,
            event,
        ) is Some ==> connection(events) is None,
{
    queue::lemma_opening(events);
    assert(events.push(event).drop_last() =~= events);
    if !queue::has_request(events) && events.len() > 0 {
        let before = events.drop_last();
        if queue::has_request(before) {
            let i = choose|i: int| 0 <= i < before.len() && #[trigger] before[i] is Request;
            assert(events[i] is Request);
        }
        assert(!(events[events.len() - 1] is Request));
    }
}

/// An RPC that gets an Open counts for the queue of that Open.
proof fn lemma_tally_update(
    opens: Seq<Option<QueueOpen>>,
    stream: int,
    open: QueueOpen,
    key: (u64, u32),
)
    requires
        0 <= stream < opens.len(),
        opens[stream] is None,
    ensures
        tally(opens.update(stream, Some(open)), key) == tally(opens, key) + if is_to(
            Some(open),
            key,
        ) {
            1int
        } else {
            0int
        },
    decreases opens.len(),
{
    let after = opens.update(stream, Some(open));
    if stream == opens.len() - 1 {
        assert(after.drop_last() =~= opens.drop_last());
    } else {
        lemma_tally_update(opens.drop_last(), stream, open, key);
        assert(after.drop_last() =~= opens.drop_last().update(stream, Some(open)));
    }
}

/// One more event changes at most the Open of its own RPC, and counts it.
proof fn lemma_connections_push(count: nat, log: StreamLog, key: (u64, u32))
    requires
        log.len() > 0,
    ensures
        ({
            let (stream, event) = log.last();
            let before = connections(log.drop_last(), count);
            let state = HandlerView::new(count).run(log.drop_last()).streams[stream];
            if 0 <= stream < count && queue::registers(state, event) is Some {
                let open = queue::registers(state, event)->0;
                &&& connections(log, count) == before.update(stream, Some(open))
                &&& before[stream] is None
                &&& tally(connections(log, count), key) == tally(before, key) + if is_to(
                    Some(open),
                    key,
                ) {
                    1int
                } else {
                    0int
                }
            } else {
                connections(log, count) == before
            }
        }),
{
    let (stream, event) = log.last();
    let before = connections(log.drop_last(), count);
    if 0 <= stream < count {
        law_streams_apart(HandlerView::new(count), log.drop_last(), stream);
        lemma_connection_push(events_of(log.drop_last(), stream), event);
        let state = HandlerView::new(count).run(log.drop_last()).streams[stream];
        match queue::registers(state, event) {
            Some(open) => {
                assert(connections(log, count) =~= before.update(stream, Some(open)));
                lemma_tally_update(before, stream, open, key);
            },
            None => assert(connections(log, count) =~= before),
        }
    } else {
        assert(connections(log, count) =~= before);
    }
}

/// An Open to a queue counts for it.
proof fn lemma_tally_positive(opens: Seq<Option<QueueOpen>>, key: (u64, u32))
    ensures
        0 <= tally(opens, key) <= opens.len(),
        tally(opens, key) > 0 <==> exists|i: int|
            0 <= i < opens.len() && is_to(#[trigger] opens[i], key),
    decreases opens.len(),
{
    if opens.len() > 0 {
        let before = opens.drop_last();
        lemma_tally_positive(before, key);
        assert(opens[opens.len() - 1] == opens.last());
        if tally(before, key) > 0 {
            let i = choose|i: int| 0 <= i < before.len() && is_to(#[trigger] before[i], key);
            assert(is_to(opens[i], key));
        }
        if exists|i: int| 0 <= i < opens.len() && is_to(#[trigger] opens[i], key) {
            let i = choose|i: int| 0 <= i < opens.len() && is_to(#[trigger] opens[i], key);
            if i < before.len() {
                assert(is_to(before[i], key));
            }
        }
    }
}

/// A new handler counts for each queue the RPCs whose first request is an Open to it,
/// in whatever order their events come and whichever slices they are of. A queue that
/// no RPC opened is not there, and an RPC that ends or fails takes nothing back.
pub proof fn law_connections_counted(count: nat, log: StreamLog, key: (u64, u32))
    requires
        tally(connections(log, count), key) <= u32::MAX,
    ensures
        ({
            let joins = HandlerView::new(count).run(log).joins;
            let arrived = tally(connections(log, count), key);
            &&& joins.contains_key(key) <==> arrived > 0
            &&& joins.contains_key(key) ==> joins[key].connected == arrived
        }),
    decreases log.len(),
{
    lemma_tally_positive(connections(log, count), key);
    if log.len() == 0 {
        let opens = connections(log, count);
        assert(forall|i: int| 0 <= i < opens.len() ==> !is_to(#[trigger] opens[i], key));
    } else {
        lemma_tally_positive(connections(log.drop_last(), count), key);
        lemma_connections_push(count, log, key);
        lemma_run_streams(count, log.drop_last());
        law_connections_counted(count, log.drop_last(), key);
    }
}

proof fn lemma_run_streams(count: nat, log: StreamLog)
    ensures
        HandlerView::new(count).run(log).streams.len() == count,
    decreases log.len(),
{
    if log.len() > 0 {
        lemma_run_streams(count, log.drop_last());
    }
}

/// Where all RPCs that open a queue expect the same number of connections, the queue
/// expects that number, and its sender is taken out to be notified exactly if so many
/// have arrived.
pub proof fn law_connections_complete(
    count: nat,
    log: StreamLog,
    key: (u64, u32),
    member_count: u32,
)
    requires
        0 < tally(connections(log, count), key) <= u32::MAX,
        forall|i: int|
            0 <= i < count && is_to(#[trigger] connections(log, count)[i], key)
                ==> connections(log, count)[i]->0.member_count == member_count,
    ensures
        ({
            let joins = HandlerView::new(count).run(log).joins;
            let arrived = tally(connections(log, count), key);
            &&& joins.contains_key(key)
            &&& joins[key] == (QueueJoinView {
                member_count,
                connected: arrived as u32,
                taken: 1 <= member_count <= arrived,
            })
        }),
    decreases log.len(),
{
    let opens = connections(log, count);
    lemma_tally_positive(opens, key);
    if log.len() == 0 {
        assert(forall|i: int| 0 <= i < opens.len() ==> !is_to(#[trigger] opens[i], key));
    } else {
        let before = connections(log.drop_last(), count);
        let (stream, event) = log.last();
        lemma_tally_positive(before, key);
        lemma_connections_push(count, log, key);
        lemma_run_streams(count, log.drop_last());
        law_connections_counted(count, log.drop_last(), key);
        assert forall|i: int| 0 <= i < count && is_to(#[trigger] before[i], key) implies
            before[i]->0.member_count == member_count by {
            assert(opens[i] == before[i]);
        }
        if 0 <= stream < count {
            assert(is_to(opens[stream], key) ==> opens[stream]->0.member_count == member_count);
        }
        if tally(before, key) > 0 {
            law_connections_complete(count, log.drop_last(), key, member_count);
        }
    }
}

/// The events of an RPC that is opened, joined, and then ended by its caller.
pub open spec fn open_and_end(open: QueueOpen) -> Seq<QueueEventView> {
    seq![
        QueueEventView::Request(
            Ok(Some(QueueRequest { open: Some(open), enqueue: None, flush: None })),
        ),
        QueueEventView::Joined,
        QueueEventView::Request(Ok(None)),
    ]
}

proof fn lemma_open_and_end(open: QueueOpen)
    ensures
        connection(open_and_end(open)) == Some(open),
        queue::queue_run(QueueState::AwaitingOpen, open_and_end(open)).0 is Stopped,
        queue::queue_responses(
            queue::queue_run(QueueState::AwaitingOpen, open_and_end(open)).1,
        ) == seq![queue::opened()],
{
    let events = open_and_end(open);
    let two = events.drop_last();
    let one = two.drop_last();
    assert(one.drop_last() =~= Seq::empty());
    assert(two[0] is Request);
    assert(one[0] is Request);
    reveal_with_fuel(connection, 4);
    reveal_with_fuel(queue::queue_run, 4);
    reveal_with_fuel(queue::queue_responses, 4);
    let actions = queue::queue_run(QueueState::AwaitingOpen, events).1;
    let first = Seq::<queue::QueueActionView>::empty().push(actions[0]);
    assert(actions =~= first.push(actions[1]).push(actions[2]));
    assert(actions.drop_last() =~= first.push(actions[1]));
    assert(first.push(actions[1]).drop_last() =~= first);
    assert(first.drop_last() =~= Seq::empty());
    assert(queue::queue_responses(actions) =~= seq![queue::opened()]);
}

/// RPCs that share a new handler, all to one queue and expecting the same number of
/// connections, and that each end after their Open, leave the join of that queue alone
/// behind: it counts them all, and its sender is taken out to be notified exactly if so
/// many were expected. Each was answered with the Opened and nothing else.
pub proof fn law_shared_handler(
    opens: Seq<QueueOpen>,
    log: StreamLog,
    key: (u64, u32),
    member_count: u32,
)
    requires
        0 < opens.len() <= u32::MAX,
        queue::to_queue(opens, key, member_count),
        forall|i: int|
            0 <= i < opens.len() ==> #[trigger] events_of(log, i) == open_and_end(opens[i]),
    ensures
        ({
            let handler = HandlerView::new(opens.len()).run(log);
            &&& handler.joins == Map::empty().insert(
                key,
                QueueJoinView {
                    member_count,
                    connected: opens.len() as u32,
                    taken: 1 <= member_count <= opens.len(),
                },
            )
            &&& forall|i: int|
                0 <= i < opens.len() ==> {
                    &&& #[trigger] handler.streams[i] is Stopped
                    &&& queue::queue_responses(
                        queue::queue_run(QueueState::AwaitingOpen, events_of(log, i)).1,
                    ) == seq![queue::opened()]
                }
        }),
{
    let count = opens.len();
    let all = connections(log, count);
    let handler = HandlerView::new(count).run(log);
    assert forall|i: int| 0 <= i < count implies #[trigger] all[i] == Some(opens[i]) by {
        assert(events_of(log, i) == open_and_end(opens[i]));
        lemma_open_and_end(opens[i]);
    }
    assert forall|i: int| 0 <= i < count implies {
        &&& #[trigger] handler.streams[i] is Stopped
        &&& queue::queue_responses(
            queue::queue_run(QueueState::AwaitingOpen, events_of(log, i)).1,
        ) == seq![queue::opened()]
    } by {
        assert(events_of(log, i) == open_and_end(opens[i]));
        lemma_open_and_end(opens[i]);
        law_streams_apart(HandlerView::new(count), log, i);
    }
    assert(forall|i: int| 0 <= i < count ==> is_to(#[trigger] all[i], key));
    lemma_tally_all(all, key);
    law_connections_complete(count, log, key, member_count);
    assert forall|other: (u64, u32)| other != key implies !#[trigger] handler.joins.contains_key(
        other,
    ) by {
        lemma_tally_positive(all, other);
        law_connections_counted(count, log, other);
        assert(forall|i: int| 0 <= i < count ==> is_to(#[trigger] all[i], key));
    }
    assert(handler.joins =~= Map::empty().insert(key, handler.joins[key]));
}

proof fn lemma_tally_all(opens: Seq<Option<QueueOpen>>, key: (u64, u32))
    requires
        forall|i: int| 0 <= i < opens.len() ==> is_to(#[trigger] opens[i], key),
    ensures
        tally(opens, key) == opens.len(),
    decreases opens.len(),
{
    if opens.len() > 0 {
        assert(is_to(opens[opens.len() - 1], key));
        assert forall|i: int| 0 <= i < opens.len() - 1 implies is_to(
            #[trigger] opens.drop_last()[i],
            key,
        ) by {
            assert(is_to(opens[i], key));
        }
        lemma_tally_all(opens.drop_last(), key);
    }
}

/// Handlers after the events of their RPCs, each event with the index of its handler.
pub open spec fn handlers_run(
    handlers: Seq<HandlerView>,
    log: Seq<(int, (int, QueueEventView))>,
) -> Seq<HandlerView>
    decreases log.len(),
{
    if log.len() == 0 {
        handlers
    } else {
        let before = handlers_run(handlers, log.drop_last());
        let (handler, (stream, event)) = log.last();
        if 0 <= handler < before.len() {
            before.update(handler, before[handler].next(stream, event))
        } else {
            before
        }
    }
}

/// The events of the RPCs of one handler.
pub open spec fn log_of(log: Seq<(int, (int, QueueEventView))>, handler: int) -> StreamLog
    decreases log.len(),
{
    if log.len() == 0 {
        Seq::empty()
    } else {
        let before = log_of(log.drop_last(), handler);
        if log.last().0 == handler {
            before.push(log.last().1)
        } else {
            before
        }
    }
}

/// Handlers share nothing: each is moved by the events of its own RPCs alone, and one
/// that serves none stays as it is.
pub proof fn law_handlers_apart(
    handlers: Seq<HandlerView>,
    log: Seq<(int, (int, QueueEventView))>,
    handler: int,
)
    requires
        0 <= handler < handlers.len(),
    ensures
        handlers_run(handlers, log).len() == handlers.len(),
        handlers_run(handlers, log)[handler] == handlers[handler].run(log_of(log, handler)),
        (forall|i: int| 0 <= i < log.len() ==> (#[trigger] log[i]).0 != handler)
            ==> handlers_run(handlers, log)[handler] == handlers[handler],
    decreases log.len(),
{
    if log.len() > 0 {
        let before = log.drop_last();
        law_handlers_apart(handlers, before, handler);
        if log.last().0 == handler {
            let own = log_of(before, handler);
            assert(own.push(log.last().1).drop_last() =~= own);
            assert(log[log.len() - 1].0 == handler);
        } else if forall|i: int| 0 <= i < log.len() ==> (#[trigger] log[i]).0 != handler {
            assert forall|i: int| 0 <= i < before.len() implies (#[trigger] before[i]).0
                != handler by {
                assert(log[i].0 != handler);
            }
        }
    }
}

} // verus!
