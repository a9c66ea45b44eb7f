//! How the RPCs of a session fit together: the session opens a slice at every member,
//! and every slice opens a queue at every member.

use crate::message::{self, QueueOpen};
use crate::queue::{self, QueueActionView, QueueEventView, QueueJoinView, QueueState};
use crate::rpc::RpcGroupView;
use crate::session;
use crate::slice::{self, SliceActionView, SliceEventView, SliceStateView};
use crate::status::Peer;
use vstd::prelude::*;

verus! {

/// A slice takes the Open that the session sends to its member: it goes on to open a
/// queue at every member of the session, under its own member's index.
pub proof fn law_slice_takes_open(
    session_id: u64,
    task: Seq<u8>,
    members: Seq<Seq<char>>,
    index: int,
)
    requires
        0 <= index < members.len(),
    ensures
        ({
            let call = session::slice_calls(session_id, task, members)[index];
            let member_index = message::wire_index(index);
            &&& call.address == members[index]
            &&& slice::slice_next(
                SliceStateView::AwaitingOpen,
                SliceEventView::Request(Ok(Some(call.request))),
            ) == (
                SliceStateView::Opening {
                    session_id,
                    member_index,
                    queues: RpcGroupView::dialing(Peer::Queue, members),
                },
                SliceActionView::OpenQueues(slice::queue_calls(session_id, member_index, members)),
            )
        }),
{
}

/// A queue takes the Open that a slice sends to its member, and registers the
/// connection.
pub proof fn law_queue_takes_open(
    session_id: u64,
    slice_member_index: u32,
    members: Seq<Seq<char>>,
    index: int,
)
    requires
        0 <= index < members.len(),
    ensures
        ({
            let call = slice::queue_calls(session_id, slice_member_index, members)[index];
            let open = QueueOpen {
                session_id,
                member_count: message::wire_index(members.len() as int),
                slice_member_index,
                queue_member_index: message::wire_index(index),
            };
            &&& call.address == members[index]
            &&& queue::queue_next(
                QueueState::AwaitingOpen,
                QueueEventView::Request(Ok(Some(call.request))),
            ) == (QueueState::Joining(open), QueueActionView::Join(open))
        }),
{
}

/// Indexes and numbers of members that fit in 32 bits reach the peer unchanged.
pub proof fn law_index_kept(index: int)
    requires
        0 <= index <= u32::MAX,
    ensures
        message::wire_index(index) == index,
{
}

/// The Opens that the queue of one member receives, from the slices in the order in
/// which they connect.
pub open spec fn arriving(
    session_id: u64,
    members: Seq<Seq<char>>,
    queue: int,
    slices: Seq<int>,
) -> Seq<QueueOpen> {
    Seq::new(
        slices.len(),
        |i: int|
            slice::queue_calls(
                session_id,
                message::wire_index(slices[i]),
                members,
            )[queue].request.open->0,
    )
}

/// The queue of a member is complete with the connection of the last slice, in
/// whatever order the slices of all members connect, and not before; its sender is
/// then taken out to be notified. No other queue is touched.
pub proof fn law_all_slices_join(
    joins: Map<(u64, u32), QueueJoinView>,
    session_id: u64,
    members: Seq<Seq<char>>,
    queue: int,
    slices: Seq<int>,
)
    requires
        members.len() <= u32::MAX,
        0 <= queue < members.len(),
        0 < slices.len() <= members.len(),
        !joins.contains_key((session_id, queue as u32)),
    ensures
        ({
            let opens = arriving(session_id, members, queue, slices);
            let after = queue::joined_all(joins, opens);
            &&& queue::complete(after, opens.last()) <==> slices.len() == members.len()
            &&& after == joins.insert(
                (session_id, queue as u32),
                QueueJoinView {
                    member_count: members.len() as u32,
                    connected: slices.len() as u32,
                    taken: slices.len() == members.len(),
                },
            )
        }),
{
    let opens = arriving(session_id, members, queue, slices);
    let key = (session_id, queue as u32);
    assert(queue::to_queue(opens, key, members.len() as u32));
    queue::law_joins_count(joins, opens, key, members.len() as u32);
}

} // verus!
