//! Opening RPCs to the peers of a session, side by side.

use crate::dialer::Dialer;
use crate::message::{self, Member};
use crate::status::{self, Cause, ErrorView, Peer, ShuffleError, Status, StatusView};
use vstd::prelude::*;

verus! {

/// A response of a peer, which may answer an Open.
pub trait Reply {
    /// The response answers an Open.
    spec fn is_opened(&self) -> bool;

    /// Tells whether the response answers an Open.
    fn has_opened(&self) -> (opened: bool)
        ensures
            opened == self.is_opened(),
    ;
}

/// How far an RPC to a peer has come. Each state names what is under way.
#[derive(Clone, Copy, Debug, PartialEq, Eq, Structural)]
pub enum RpcState {
    /// Connecting to the member's endpoint.
    Dialing,
    /// Sending the Open request.
    Sending,
    /// Starting the RPC.
    Starting,
    /// Waiting for the Opened response.
    Waiting,
    /// The peer has answered with an Opened.
    Open,
    /// The RPC has failed.
    Failed,
}

/// What came of the step that is under way.
pub enum RpcEvent<R> {
    Dialed(Result<(), Cause>),
    Sent(Result<(), Cause>),
    Started(Result<(), Status>),
    /// The next response, or the end of the responses.
    Replied(Result<Option<R>, Status>),
}

/// What an `RpcEvent` holds; of a response, whether it answers an Open.
#[verifier::ext_equal]
pub enum RpcEventView {
    Dialed(Result<(), Seq<Seq<char>>>),
    Sent(Result<(), Seq<Seq<char>>>),
    Started(Result<(), StatusView>),
    Replied(Result<Option<bool>, StatusView>),
}

impl<R: Reply> View for RpcEvent<R> {
    type V = RpcEventView;

    open spec fn view(&self) -> RpcEventView {
        match *self {
            RpcEvent::Dialed(Ok(_)) => RpcEventView::Dialed(Ok(())),
            RpcEvent::Dialed(Err(cause)) => RpcEventView::Dialed(Err(cause@)),
            RpcEvent::Sent(Ok(_)) => RpcEventView::Sent(Ok(())),
            RpcEvent::Sent(Err(cause)) => RpcEventView::Sent(Err(cause@)),
            RpcEvent::Started(Ok(_)) => RpcEventView::Started(Ok(())),
            RpcEvent::Started(Err(status)) => RpcEventView::Started(Err(status@)),
            RpcEvent::Replied(Ok(Some(reply))) => RpcEventView::Replied(
                Ok(Some(reply.is_opened())),
            ),
            RpcEvent::Replied(Ok(None)) => RpcEventView::Replied(Ok(None)),
            RpcEvent::Replied(Err(status)) => RpcEventView::Replied(Err(status@)),
        }
    }
}

/// What to do next for an RPC.
#[derive(Clone, Copy, Debug, PartialEq, Eq, Structural)]
pub enum RpcCommand {
    /// Send the Open request on a new request stream.
    Send,
    /// Start the RPC with the request stream.
    Start,
    /// Read the next response.
    Wait,
}

/// What follows from an event of an RPC.
#[derive(Debug, PartialEq, Eq)]
pub enum RpcStep {
    Perform(RpcCommand),
    /// The RPC is open.
    Opened,
    Fail(ShuffleError),
    /// The event answers nothing that is under way.
    Nothing,
}

/// What an `RpcStep` holds.
#[verifier::ext_equal]
pub enum RpcStepView {
    Perform(RpcCommand),
    Opened,
    Fail(ErrorView),
    Nothing,
}

impl View for RpcStep {
    type V = RpcStepView;

    open spec fn view(&self) -> RpcStepView {
        match *self {
            RpcStep::Perform(command) => RpcStepView::Perform(command),
            RpcStep::Opened => RpcStepView::Opened,
            RpcStep::Fail(error) => RpcStepView::Fail(error@),
            RpcStep::Nothing => RpcStepView::Nothing,
        }
    }
}

/// How an event moves an RPC to a peer at `address`.
pub open spec fn rpc_next(
    peer: Peer,
    address: Seq<char>,
    state: RpcState,
    event: RpcEventView,
) -> (RpcState, RpcStepView) {
    match (state, event) {
        (RpcState::Dialing, RpcEventView::Dialed(Ok(_))) => (
            RpcState::Sending,
            RpcStepView::Perform(RpcCommand::Send),
        ),
        (RpcState::Dialing, RpcEventView::Dialed(Err(cause))) => rpc_failed(
            ErrorView::Connecting { address, cause },
        ),
        (RpcState::Sending, RpcEventView::Sent(Ok(_))) => (
            RpcState::Starting,
            RpcStepView::Perform(RpcCommand::Start),
        ),
        (RpcState::Sending, RpcEventView::Sent(Err(cause))) => rpc_failed(
            ErrorView::Sending { peer, cause },
        ),
        (RpcState::Starting, RpcEventView::Started(Ok(_))) => (
            RpcState::Waiting,
            RpcStepView::Perform(RpcCommand::Wait),
        ),
        (RpcState::Starting, RpcEventView::Started(Err(status))) => rpc_failed(
            ErrorView::Starting { peer, status },
        ),
        (RpcState::Waiting, RpcEventView::Replied(Ok(Some(opened)))) => if opened {
            (RpcState::Open, RpcStepView::Opened)
        } else {
            rpc_failed(ErrorView::ExpectedOpened { peer })
        },
        (RpcState::Waiting, RpcEventView::Replied(Ok(None))) => rpc_failed(
            ErrorView::ClosedWithoutOpened { peer },
        ),
        (RpcState::Waiting, RpcEventView::Replied(Err(status))) => rpc_failed(
            ErrorView::Waiting { peer, status },
        ),
        _ => (state, RpcStepView::Nothing),
    }
}

/// An RPC that failed with `error`.
pub open spec fn rpc_failed(error: ErrorView) -> (RpcState, RpcStepView) {
    (RpcState::Failed, RpcStepView::Fail(error))
}

/// Moves an RPC to a peer on by one event.
pub fn open_rpc<R: Reply>(
    dialer: &Dialer,
    peer: Peer,
    address: &str,
    state: RpcState,
    event: RpcEvent<R>,
) -> (next: (RpcState, RpcStep))
    ensures
        (next.0, next.1@) == rpc_next(peer, address@, state, event@),
{
    match (state, event) {
        (RpcState::Dialing, RpcEvent::Dialed(connected)) => match dialer.dial(address, connected) {
            Ok(_) => (RpcState::Sending, RpcStep::Perform(RpcCommand::Send)),
            Err(error) => (RpcState::Failed, RpcStep::Fail(error)),
        },
        (RpcState::Sending, RpcEvent::Sent(Ok(_))) => (
            RpcState::Starting,
            RpcStep::Perform(RpcCommand::Start),
        ),
        (RpcState::Sending, RpcEvent::Sent(Err(cause))) => (
            RpcState::Failed,
            RpcStep::Fail(ShuffleError::Sending { peer, cause }),
        ),
        (RpcState::Starting, RpcEvent::Started(Ok(_))) => (
            RpcState::Waiting,
            RpcStep::Perform(RpcCommand::Wait),
        ),
        (RpcState::Starting, RpcEvent::Started(Err(status))) => (
            RpcState::Failed,
            RpcStep::Fail(ShuffleError::Starting { peer, status }),
        ),
        (RpcState::Waiting, RpcEvent::Replied(Ok(Some(reply)))) => if reply.has_opened() {
            (RpcState::Open, RpcStep::Opened)
        } else {
            (RpcState::Failed, RpcStep::Fail(ShuffleError::ExpectedOpened { peer }))
        },
        (RpcState::Waiting, RpcEvent::Replied(Ok(None))) => (
            RpcState::Failed,
            RpcStep::Fail(ShuffleError::ClosedWithoutOpened { peer }),
        ),
        (RpcState::Waiting, RpcEvent::Replied(Err(status))) => (
            RpcState::Failed,
            RpcStep::Fail(ShuffleError::Waiting { peer, status }),
        ),
        (state, _) => (state, RpcStep::Nothing),
    }
}

/// An RPC to the member at `address`.
#[derive(Debug, PartialEq, Eq)]
pub struct Rpc {
    pub address: String,
    pub state: RpcState,
}

/// What an `Rpc` holds.
#[verifier::ext_equal]
pub struct RpcView {
    pub address: Seq<char>,
    pub state: RpcState,
}

impl View for Rpc {
    type V = RpcView;

    open spec fn view(&self) -> RpcView {
        RpcView { address: self.address@, state: self.state }
    }
}

/// RPCs to all members, opened side by side: the RPC at index `i` is the one to the
/// member at index `i`.
#[derive(Debug, PartialEq, Eq)]
pub struct RpcGroup {
    pub peer: Peer,
    pub rpcs: Vec<Rpc>,
}

/// What an `RpcGroup` holds.
#[verifier::ext_equal]
pub struct RpcGroupView {
    pub peer: Peer,
    pub rpcs: Seq<RpcView>,
}

impl View for RpcGroup {
    type V = RpcGroupView;

    open spec fn view(&self) -> RpcGroupView {
        RpcGroupView {
            peer: self.peer,
            rpcs: Seq::new(self.rpcs@.len(), |i: int| self.rpcs@[i]@),
        }
    }
}

impl RpcGroupView {
    /// RPCs to these addresses, none of them connected yet.
    pub open spec fn dialing(peer: Peer, addresses: Seq<Seq<char>>) -> RpcGroupView {
        RpcGroupView {
            peer,
            rpcs: Seq::new(
                addresses.len(),
                |i: int| RpcView { address: addresses[i], state: RpcState::Dialing },
            ),
        }
    }

    /// Every peer has answered with an Opened.
    pub open spec fn all_open(self) -> bool {
        forall|i: int| 0 <= i < self.rpcs.len() ==> (#[trigger] self.rpcs[i]).state is Open
    }

    /// How an event of the RPC at `index` moves the group. The group is open once all
    /// of its RPCs are, and fails with the first that does.
    pub open spec fn next(self, index: int, event: RpcEventView) -> (RpcGroupView, RpcStepView) {
        if 0 <= index < self.rpcs.len() {
            let rpc = self.rpcs[index];
            let (state, step) = rpc_next(self.peer, rpc.address, rpc.state, event);
            let group = RpcGroupView {
                rpcs: self.rpcs.update(index, RpcView { state, ..rpc }),
                ..self
            };
            if step is Opened && !group.all_open() {
                (group, RpcStepView::Nothing)
            } else {
                (group, step)
            }
        } else {
            (self, RpcStepView::Nothing)
        }
    }
}

impl RpcGroup {
    /// RPCs to the members, none of them connected yet.
    pub fn new(peer: Peer, members: &[Member]) -> (group: RpcGroup)
        ensures
            group@ == RpcGroupView::dialing(peer, message::addresses(members@)),
    {
        let mut rpcs: Vec<Rpc> = Vec::new();
        for i in 0..members.len()
            invariant
                rpcs@.len() == i,
                forall|j: int|
                    0 <= j < i ==> (#[trigger] rpcs@[j])@ == (RpcView {
                        address: members@[j]@,
                        state: RpcState::Dialing,
                    }),
        {
            rpcs.push(Rpc { address: members[i].address.clone(), state: RpcState::Dialing });
        }
        RpcGroup { peer, rpcs }
    }

    /// Tells whether every peer has answered with an Opened.
    pub fn all_open(&self) -> (open: bool)
        ensures
            open == self@.all_open(),
    {
        for i in 0..self.rpcs.len()
            invariant
                forall|j: int| 0 <= j < i ==> (#[trigger] self@.rpcs[j]).state is Open,
        {
            match self.rpcs[i].state {
                RpcState::Open => {},
                _ => {
                    assert(!(self@.rpcs[i as int].state is Open));
                    return false;
                },
            }
        }
        true
    }

    /// Moves the group on by one event of the RPC at `index`.
    pub fn step<R: Reply>(&mut self, dialer: &Dialer, index: usize, event: RpcEvent<R>) -> (step:
        RpcStep)
        ensures
            (final(self)@, step@) == old(self)@.next(index as int, event@),
    {
        if index < self.rpcs.len() {
            let address = self.rpcs[index].address.clone();
            let (state, step) = open_rpc(
                dialer,
                self.peer,
                address.as_str(),
                self.rpcs[index].state,
                event,
            );
            self.rpcs[index].state = state;
            assert(self@.rpcs =~= old(self)@.rpcs.update(
                index as int,
                RpcView { address: address@, state },
            ));
            match step {
                RpcStep::Opened => if self.all_open() {
                    RpcStep::Opened
                } else {
                    RpcStep::Nothing
                },
                step => step,
            }
        } else {
            RpcStep::Nothing
        }
    }
}

/// The event by which the given step of opening an RPC succeeds: connecting, sending
/// the Open, starting the RPC, and receiving the Opened.
pub open spec fn success(step: int) -> RpcEventView {
    if step == 0 {
        RpcEventView::Dialed(Ok(()))
    } else if step == 1 {
        RpcEventView::Sent(Ok(()))
    } else if step == 2 {
        RpcEventView::Started(Ok(()))
    } else {
        RpcEventView::Replied(Ok(Some(true)))
    }
}

/// How many steps of opening an RPC in this state have succeeded.
pub open spec fn steps_done(state: RpcState) -> int {
    match state {
        RpcState::Dialing => 0,
        RpcState::Sending => 1,
        RpcState::Starting => 2,
        RpcState::Waiting => 3,
        RpcState::Open => 4,
        RpcState::Failed => 0,
    }
}

/// What happened, in order: an event of the RPC at an index, or something else.
pub type RpcLog = Seq<Option<(int, RpcEventView)>>;

/// At these places of the log, in this order, the first steps of opening the RPC at
/// `index` succeeded.
pub open spec fn succeeded_at(log: RpcLog, index: int, places: Seq<int>) -> bool {
    &&& forall|k: int|
        0 <= k < places.len() ==> 0 <= #[trigger] places[k] < log.len() && log[places[k]] == Some(
            (index, success(k)),
        )
    &&& forall|j: int, k: int| 0 <= j < k < places.len() ==> places[j] < places[k]
}

/// The log shows the first `steps` steps of opening the RPC at `index` succeed, one
/// after the other.
pub open spec fn succeeded(log: RpcLog, index: int, steps: int) -> bool {
    exists|places: Seq<int>| places.len() == steps && #[trigger] succeeded_at(log, index, places)
}

impl RpcGroupView {
    /// The group after the events of a log.
    pub open spec fn run(self, log: RpcLog) -> RpcGroupView
        decreases log.len(),
    {
        if log.len() == 0 {
            self
        } else {
            let group = self.run(log.drop_last());
            match log.last() {
                Some((index, event)) => group.next(index, event).0,
                None => group,
            }
        }
    }

    /// The log shows each RPC of the group succeed in all steps that it has behind it.
    pub open spec fn earned(self, log: RpcLog) -> bool {
        forall|i: int|
            0 <= i < self.rpcs.len() ==> succeeded(
                log,
                i,
                steps_done((#[trigger] self.rpcs[i]).state),
            )
    }
}

/// A longer log shows what a shorter one does.
proof fn lemma_succeeded_push(
    log: RpcLog,
    entry: Option<(int, RpcEventView)>,
    index: int,
    steps: int,
)
    requires
        succeeded(log, index, steps),
    ensures
        succeeded(log.push(entry), index, steps),
        entry == Some((index, success(steps))) ==> succeeded(log.push(entry), index, steps + 1),
{
    let places = choose|places: Seq<int>|
        places.len() == steps && #[trigger] succeeded_at(log, index, places);
    assert(succeeded_at(log.push(entry), index, places));
    if entry == Some((index, success(steps))) {
        assert(succeeded_at(log.push(entry), index, places.push(log.len() as int)));
    }
}

/// An RPC moves on only by the success of its next step.
pub proof fn law_rpc_progress(
    peer: Peer,
    address: Seq<char>,
    state: RpcState,
    event: RpcEventView,
)
    ensures
        ({
            let (next, step) = rpc_next(peer, address, state, event);
            ||| next == state && step is Nothing
            ||| next is Failed && step is Fail
            ||| {
                &&& !(state is Failed)
                &&& event == success(steps_done(state))
                &&& steps_done(next) == steps_done(state) + 1
                &&& if next is Open {
                    step is Opened
                } else {
                    step is Perform
                }
            }
        }),
{
    match event {
        RpcEventView::Dialed(Ok(unit)) => assert(unit == ()),
        RpcEventView::Sent(Ok(unit)) => assert(unit == ()),
        RpcEventView::Started(Ok(unit)) => assert(unit == ()),
        _ => {},
    }
}

/// Whatever the log adds, each RPC of the group has succeeded in the steps behind it.
pub(crate) proof fn lemma_earned_push(
    group: RpcGroupView,
    log: RpcLog,
    entry: Option<(int, RpcEventView)>,
)
    requires
        group.earned(log),
    ensures
        group.earned(log.push(entry)),
        entry matches Some((index, event)) ==> group.next(index, event).0.earned(log.push(entry)),
{
    assert forall|i: int| 0 <= i < group.rpcs.len() implies succeeded(
        log.push(entry),
        i,
        steps_done((#[trigger] group.rpcs[i]).state),
    ) by {
        lemma_succeeded_push(log, entry, i, steps_done(group.rpcs[i].state));
    }
    if let Some((index, event)) = entry {
        let next = group.next(index, event).0;
        assert forall|i: int| 0 <= i < next.rpcs.len() implies succeeded(
            log.push(entry),
            i,
            steps_done((#[trigger] next.rpcs[i]).state),
        ) by {
            let state = group.rpcs[i].state;
            lemma_succeeded_push(log, entry, i, steps_done(state));
            if i == index {
                law_rpc_progress(group.peer, group.rpcs[i].address, state, event);
                if next.rpcs[i].state is Failed {
                    assert(succeeded_at(log.push(entry), i, Seq::empty()));
                }
            }
        }
    }
}

/// Nothing is shown of RPCs that are not connected yet.
pub(crate) proof fn lemma_earned_dialing(peer: Peer, addresses: Seq<Seq<char>>, log: RpcLog)
    ensures
        RpcGroupView::dialing(peer, addresses).earned(log),
{
    let group = RpcGroupView::dialing(peer, addresses);
    assert forall|i: int| 0 <= i < group.rpcs.len() implies succeeded(
        log,
        i,
        steps_done((#[trigger] group.rpcs[i]).state),
    ) by {
        assert(succeeded_at(log, i, Seq::empty()));
    }
}

/// An RPC of a group is open only after the peer was connected to, the Open was sent,
/// the RPC was started and the peer answered with an Opened, in this order.
pub proof fn law_open_in_order(peer: Peer, addresses: Seq<Seq<char>>, log: RpcLog, index: int)
    requires
        ({
            let group = RpcGroupView::dialing(peer, addresses).run(log);
            0 <= index < group.rpcs.len() && group.rpcs[index].state is Open
        }),
    ensures
        succeeded(log, index, 4),
{
    lemma_run_earned(peer, addresses, log);
}

proof fn lemma_run_earned(peer: Peer, addresses: Seq<Seq<char>>, log: RpcLog)
    ensures
        RpcGroupView::dialing(peer, addresses).run(log).earned(log),
    decreases log.len(),
{
    let start = RpcGroupView::dialing(peer, addresses);
    if log.len() == 0 {
        lemma_earned_dialing(peer, addresses, log);
    } else {
        lemma_run_earned(peer, addresses, log.drop_last());
        lemma_earned_push(start.run(log.drop_last()), log.drop_last(), log.last());
        assert(log.drop_last().push(log.last()) =~= log);
    }
}

/// A group opens exactly by the Opened of the one peer that was still to answer.
pub proof fn law_group_opens(group: RpcGroupView, index: int, event: RpcEventView)
    ensures
        group.next(index, event).1 is Opened <==> {
            &&& 0 <= index < group.rpcs.len()
            &&& group.rpcs[index].state is Waiting
            &&& event == success(3)
            &&& forall|i: int|
                0 <= i < group.rpcs.len() && i != index ==> (
                #[trigger] group.rpcs[i]).state is Open
        },
{
    if 0 <= index < group.rpcs.len() {
        let rpc = group.rpcs[index];
        let (state, step) = rpc_next(group.peer, rpc.address, rpc.state, event);
        let next = group.rpcs.update(index, RpcView { state, ..rpc });
        assert(forall|i: int|
            0 <= i < next.len() && i != index ==> #[trigger] next[i] == group.rpcs[i]);
        assert(forall|i: int|
            0 <= i < next.len() && i != index ==> next[i] == #[trigger] group.rpcs[i]);
    }
}

/// A group fails exactly if one of its RPCs does, and with that RPC's error.
pub proof fn law_group_fails(group: RpcGroupView, index: int, event: RpcEventView)
    requires
        0 <= index < group.rpcs.len(),
    ensures
        ({
            let rpc = group.rpcs[index];
            let step = rpc_next(group.peer, rpc.address, rpc.state, event).1;
            &&& group.next(index, event).1 is Fail <==> step is Fail
            &&& step is Fail ==> group.next(index, event).1 == step
        }),
{
}

/// An event moves only the RPC that it is about, and no RPC changes its address.
pub proof fn law_group_frame(group: RpcGroupView, index: int, event: RpcEventView)
    ensures
        ({
            let next = group.next(index, event).0;
            &&& next.peer == group.peer
            &&& next.rpcs.len() == group.rpcs.len()
            &&& forall|i: int|
                0 <= i < group.rpcs.len() ==> (#[trigger] next.rpcs[i]).address
                    == group.rpcs[i].address
            &&& forall|i: int|
                0 <= i < group.rpcs.len() && i != index ==> #[trigger] next.rpcs[i]
                    == group.rpcs[i]
        }),
{
}

/// The status of a peer that refuses an RPC, or fails before it answers the Open,
/// reaches the caller unchanged.
pub proof fn law_peer_status_kept(
    peer: Peer,
    address: Seq<char>,
    status: StatusView,
    report: Seq<char>,
)
    ensures
        rpc_next(peer, address, RpcState::Starting, RpcEventView::Started(Err(status))).1
            matches RpcStepView::Fail(error) && status::reported(error, report) == status,
        rpc_next(peer, address, RpcState::Waiting, RpcEventView::Replied(Err(status))).1
            matches RpcStepView::Fail(error) && status::reported(error, report) == status,
{
}

/// A peer that cannot be connected to, or not be sent the Open, or that does not answer
/// with an Opened, makes an internal error of what was under way and of its cause.
pub proof fn law_peer_failure_told(
    peer: Peer,
    address: Seq<char>,
    state: RpcState,
    event: RpcEventView,
    report: Seq<char>,
)
    requires
        !(event is Started),
        !(event matches RpcEventView::Replied(Err(_))),
        rpc_next(peer, address, state, event).1 is Fail,
    ensures
        ({
            let error = rpc_next(peer, address, state, event).1->Fail_0;
            let name = match peer {
                Peer::Slice => "Slice"@,
                Peer::Queue => "Queue"@,
            };
            &&& status::reported(error, report) == StatusView::internal(report)
            &&& match event {
                RpcEventView::Dialed(connected) => error.chain() == seq![
                    "connecting to "@ + address,
                ] + connected->Err_0,
                RpcEventView::Sent(sent) => error.chain() == seq!["sending "@ + name + " Open"@]
                    + sent->Err_0,
                RpcEventView::Replied(Ok(None)) => error.chain() == seq![
                    name + " closed without Opened"@,
                ],
                _ => error.chain() == seq!["expected Opened response from "@ + name],
            }
        }),
{
    reveal_strlit("Slice");
    reveal_strlit("Queue");
    reveal_strlit("sending ");
    reveal_strlit(" Open");
    reveal_strlit("sending Slice Open");
    reveal_strlit("sending Queue Open");
    reveal_strlit(" closed without Opened");
    reveal_strlit("Slice closed without Opened");
    reveal_strlit("Queue closed without Opened");
    reveal_strlit("expected Opened response from ");
    reveal_strlit("expected Opened response from Slice");
    reveal_strlit("expected Opened response from Queue");
    assert("sending Slice Open"@ =~= "sending "@ + "Slice"@ + " Open"@);
    assert("sending Queue Open"@ =~= "sending "@ + "Queue"@ + " Open"@);
    assert("Slice closed without Opened"@ =~= "Slice"@ + " closed without Opened"@);
    assert("Queue closed without Opened"@ =~= "Queue"@ + " closed without Opened"@);
    assert("expected Opened response from Slice"@ =~= "expected Opened response from "@
        + "Slice"@);
    assert("expected Opened response from Queue"@ =~= "expected Opened response from "@
        + "Queue"@);
    let error = rpc_next(peer, address, state, event).1->Fail_0;
    assert(error.chain() =~= seq![error.headline()->0] + error.causes());
}

/// How often an index occurs.
pub open spec fn occurrences(order: Seq<int>, index: int) -> int
    decreases order.len(),
{
    if order.len() == 0 {
        0
    } else {
        occurrences(order.drop_last(), index) + if order.last() == index {
            1int
        } else {
            0int
        }
    }
}

/// The event at `place` where RPCs succeed step by step, in the given order.
pub open spec fn success_at(order: Seq<int>, place: int) -> RpcEventView {
    success(occurrences(order.take(place), order[place]))
}

/// The log of RPCs that succeed step by step, in the given order.
pub open spec fn success_log(order: Seq<int>) -> RpcLog {
    Seq::new(order.len(), |place: int| Some((order[place], success_at(order, place))))
}

/// The order names only the first `count` RPCs, and each of them at most four times.
pub open spec fn is_order(order: Seq<int>, count: int) -> bool {
    &&& forall|place: int| 0 <= place < order.len() ==> 0 <= #[trigger] order[place] < count
    &&& forall|i: int| 0 <= i < count ==> #[trigger] occurrences(order, i) <= 4
}

/// The state of an RPC that succeeded in this many steps.
pub open spec fn stage(steps: int) -> RpcState {
    if steps == 0 {
        RpcState::Dialing
    } else if steps == 1 {
        RpcState::Sending
    } else if steps == 2 {
        RpcState::Starting
    } else if steps == 3 {
        RpcState::Waiting
    } else {
        RpcState::Open
    }
}

/// What holds of an order holds of its beginning.
pub(crate) proof fn lemma_order_drop_last(order: Seq<int>, count: int)
    requires
        is_order(order, count),
        order.len() > 0,
    ensures
        is_order(order.drop_last(), count),
        success_log(order).drop_last() == success_log(order.drop_last()),
        success_at(order, order.len() - 1) == success(
            occurrences(order.drop_last(), order.last()),
        ),
        forall|i: int| #[trigger]
            occurrences(order, i) == occurrences(order.drop_last(), i) + if order.last() == i {
                1int
            } else {
                0int
            },
{
    let before = order.drop_last();
    assert forall|i: int| 0 <= i < count implies #[trigger] occurrences(before, i) <= 4 by {
        assert(occurrences(order, i) <= 4);
    }
    assert forall|place: int| 0 <= place < before.len() implies 0 <= #[trigger] before[place]
        < count by {
        assert(before[place] == order[place]);
    }
    assert(order.take(order.len() - 1) =~= before);
    assert forall|place: int| 0 <= place < before.len() implies #[trigger] success_at(order, place)
        == success_at(before, place) by {
        assert(order.take(place) =~= before.take(place));
    }
    assert(success_log(order).drop_last() =~= success_log(before));
}

pub(crate) proof fn lemma_occurrences_not_negative(order: Seq<int>, index: int)
    ensures
        occurrences(order, index) >= 0,
    decreases order.len(),
{
    if order.len() > 0 {
        lemma_occurrences_not_negative(order.drop_last(), index);
    }
}

/// An RPC that succeeds step by step is as far as the number of its steps says.
pub proof fn law_success_counts(peer: Peer, addresses: Seq<Seq<char>>, order: Seq<int>)
    requires
        is_order(order, addresses.len() as int),
    ensures
        RpcGroupView::dialing(peer, addresses).run(success_log(order)) == (RpcGroupView {
            peer,
            rpcs: Seq::new(
                addresses.len(),
                |i: int|
                    RpcView { address: addresses[i], state: stage(occurrences(order, i)) },
            ),
        }),
    decreases order.len(),
{
    let start = RpcGroupView::dialing(peer, addresses);
    let group = start.run(success_log(order));
    if order.len() > 0 {
        let before = order.drop_last();
        lemma_order_drop_last(order, addresses.len() as int);
        law_success_counts(peer, addresses, before);
        let last = order.last();
        lemma_occurrences_not_negative(before, last);
        assert(0 <= order[order.len() - 1] < addresses.len());
        assert(occurrences(order, last) <= 4);
        assert(success_log(order).last() == Some((last, success_at(order, order.len() - 1))));
    }
    assert(group.rpcs =~= Seq::new(
        addresses.len(),
        |i: int| RpcView { address: addresses[i], state: stage(occurrences(order, i)) },
    ));
}

/// What the RPC at hand asks for is what its next step is, for either kind of peer: once
/// connected, send the Open; once sent, start the RPC; once started, wait for the
/// response; and an Opened opens it.
pub proof fn law_rpc_steps<R: Reply>(
    peer: Peer,
    address: Seq<char>,
    state: RpcState,
    event: RpcEvent<R>,
    after: RpcState,
    step: RpcStep,
)
    requires
        (after, step@) == rpc_next(peer, address, state, event@),
    ensures
        state is Dialing ==> (event matches RpcEvent::Dialed(Ok(_)) ==> after is Sending && step
            == RpcStep::Perform(RpcCommand::Send)),
        state is Sending ==> (event matches RpcEvent::Sent(Ok(_)) ==> after is Starting && step
            == RpcStep::Perform(RpcCommand::Start)),
        state is Starting ==> (event matches RpcEvent::Started(Ok(_)) ==> after is Waiting && step
            == RpcStep::Perform(RpcCommand::Wait)),
        state is Waiting ==> (event matches RpcEvent::Replied(Ok(Some(reply)))
            && reply.is_opened() ==> after is Open && step is Opened),
{
}

/// A step under way that fails, fails the RPC, for either kind of peer, with the error
/// that names the step and holds what it failed with: the address and the cause, or the
/// status of the peer.
pub proof fn law_rpc_fails<R: Reply>(
    peer: Peer,
    address: Seq<char>,
    state: RpcState,
    event: RpcEvent<R>,
    after: RpcState,
    step: RpcStep,
)
    requires
        (after, step@) == rpc_next(peer, address, state, event@),
    ensures
        state is Dialing ==> (event matches RpcEvent::Dialed(Err(why)) ==> {
            &&& after is Failed
            &&& step matches RpcStep::Fail(ShuffleError::Connecting { address: to, cause })
            &&& to@ == address
            &&& cause@ == why@
        }),
        state is Sending ==> (event matches RpcEvent::Sent(Err(why)) ==> {
            &&& after is Failed
            &&& step matches RpcStep::Fail(ShuffleError::Sending { peer: to, cause })
            &&& to == peer
            &&& cause@ == why@
        }),
        state is Starting ==> (event matches RpcEvent::Started(Err(why)) ==> {
            &&& after is Failed
            &&& step matches RpcStep::Fail(ShuffleError::Starting { peer: to, status })
            &&& to == peer
            &&& status@ == why@
        }),
        state is Waiting ==> (event matches RpcEvent::Replied(Err(why)) ==> {
            &&& after is Failed
            &&& step matches RpcStep::Fail(ShuffleError::Waiting { peer: to, status })
            &&& to == peer
            &&& status@ == why@
        }),
        state is Waiting ==> (event matches RpcEvent::Replied(Ok(None)) ==> after is Failed && step
            == RpcStep::Fail(ShuffleError::ClosedWithoutOpened { peer })),
        state is Waiting ==> (event matches RpcEvent::Replied(Ok(Some(reply)))
            && !reply.is_opened() ==> after is Failed && step == RpcStep::Fail(
            ShuffleError::ExpectedOpened { peer },
        )),
{
}

/// The event is the outcome of what is under way in this state.
pub open spec fn is_due<R>(state: RpcState, event: RpcEvent<R>) -> bool {
    ||| state is Dialing && event is Dialed
    ||| state is Sending && event is Sent
    ||| state is Starting && event is Started
    ||| state is Waiting && event is Replied
}

/// An RPC is moved exactly by the outcome of what is under way; nothing else that is
/// reported of it changes it or asks for anything, nor anything once it is open or has
/// failed.
pub proof fn law_rpc_due<R: Reply>(
    peer: Peer,
    address: Seq<char>,
    state: RpcState,
    event: RpcEvent<R>,
    after: RpcState,
    step: RpcStep,
)
    requires
        (after, step@) == rpc_next(peer, address, state, event@),
    ensures
        is_due(state, event) ==> after != state && !(step is Nothing),
        !is_due(state, event) ==> after == state && step is Nothing,
{
}

/// New RPCs are one to each member, in their order, each still to be connected.
pub proof fn law_group_dials(peer: Peer, members: Seq<Member>, group: RpcGroup)
    requires
        group@ == RpcGroupView::dialing(peer, message::addresses(members)),
    ensures
        group.peer == peer,
        group.rpcs@.len() == members.len(),
        forall|i: int|
            0 <= i < members.len() ==> (#[trigger] group.rpcs@[i]).address@
                == members[i].address@ && group.rpcs@[i].state is Dialing,
{
    assert(group@.rpcs.len() == members.len());
    assert forall|i: int| 0 <= i < members.len() implies (#[trigger] group.rpcs@[i]).address@
        == members[i].address@ && group.rpcs@[i].state is Dialing by {
        assert(group@.rpcs[i] == group.rpcs@[i]@);
        assert(group@.rpcs[i].address == message::addresses(members)[i]);
    }
}

/// An event is one of the RPC that it names, and of no other: that RPC takes its own
/// step, the group asks for what that RPC asks for and fails as it fails, and all other
/// RPCs stay as they are. Only that the RPC is open is withheld until all are. An event
/// of an RPC that is not there does nothing.
pub proof fn law_group_steps<R: Reply>(
    group: RpcGroup,
    index: usize,
    event: RpcEvent<R>,
    after: RpcGroup,
    step: RpcStep,
)
    requires
        (after@, step@) == group@.next(index as int, event@),
    ensures
        after.peer == group.peer,
        after.rpcs@.len() == group.rpcs@.len(),
        forall|i: int|
            0 <= i < group.rpcs@.len() ==> (#[trigger] after.rpcs@[i]).address@
                == group.rpcs@[i].address@,
        forall|i: int|
            0 <= i < group.rpcs@.len() && i != index ==> (#[trigger] after.rpcs@[i]).state
                == group.rpcs@[i].state,
        index >= group.rpcs@.len() ==> step is Nothing,
        index < group.rpcs@.len() ==> {
            let rpc = group.rpcs@[index as int];
            let (state, own) = rpc_next(group.peer, rpc.address@, rpc.state, event@);
            &&& after.rpcs@[index as int].state == state
            &&& !(own is Opened) ==> step@ == own
            &&& own is Opened ==> if forall|i: int|
                0 <= i < group.rpcs@.len() && i != index ==> (#[trigger] group.rpcs@[i]).state
                    is Open {
                step is Opened
            } else {
                step is Nothing
            }
        },
{
    assert(after@.rpcs.len() == group@.rpcs.len());
    assert forall|i: int| 0 <= i < group.rpcs@.len() implies {
        &&& (#[trigger] after.rpcs@[i]).address@ == group.rpcs@[i].address@
        &&& i != index ==> after.rpcs@[i].state == group.rpcs@[i].state
    } by {
        assert(after@.rpcs[i] == after.rpcs@[i]@);
        assert(group@.rpcs[i] == group.rpcs@[i]@);
    }
    if index < group.rpcs@.len() {
        let rpc = group.rpcs@[index as int];
        let (state, own) = rpc_next(group.peer, rpc.address@, rpc.state, event@);
        assert(group@.rpcs[index as int] == rpc@);
        assert(after@.rpcs[index as int] == after.rpcs@[index as int]@);
        law_rpc_progress(group.peer, rpc.address@, rpc.state, event@);
        law_group_opens(group@, index as int, event@);
        assert(forall|i: int|
            0 <= i < group.rpcs@.len() ==> (#[trigger] group@.rpcs[i]).state
                == group.rpcs@[i].state);
        assert(forall|i: int|
            0 <= i < group.rpcs@.len() ==> group@.rpcs[i].state == (#[trigger]
                group.rpcs@[i]).state);
    }
}

/// Opening RPCs that all wait for nothing but their own peer: what has come of one RPC
/// has no part in what the others do next.
pub proof fn law_group_any_order(
    group: RpcGroupView,
    first: int,
    first_event: RpcEventView,
    second: int,
    second_event: RpcEventView,
)
    requires
        first != second,
    ensures
        group.next(first, first_event).0.next(second, second_event).0 == group.next(
            second,
            second_event,
        ).0.next(first, first_event).0,
{
    let there = group.next(first, first_event).0.next(second, second_event).0;
    let back = group.next(second, second_event).0.next(first, first_event).0;
    assert(there.rpcs =~= back.rpcs);
}

} // verus!
