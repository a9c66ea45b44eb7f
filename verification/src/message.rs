//! Requests and responses of the Session, Slice and Queue RPCs.

use crate::rpc::Reply;
use vstd::prelude::*;

verus! {

/// The task of a session, in its encoded form: carried, and not read.
#[derive(Debug, PartialEq, Eq)]
pub struct Task {
    pub encoded: Vec<u8>,
}

impl View for Task {
    type V = Seq<u8>;

    open spec fn view(&self) -> Seq<u8> {
        self.encoded@
    }
}

/// A member of a session: where its shuffle service is reached.
#[derive(Debug, PartialEq, Eq)]
pub struct Member {
    pub address: String,
}

impl View for Member {
    type V = Seq<char>;

    open spec fn view(&self) -> Seq<char> {
        self.address@
    }
}

/// The addresses of a list of members.
pub open spec fn addresses(members: Seq<Member>) -> Seq<Seq<char>> {
    Seq::new(members.len(), |i: int| members[i]@)
}

/// The task of an Open, where there is one.
pub open spec fn task_view(task: Option<Task>) -> Option<Seq<u8>> {
    match task {
        Some(task) => Some(task@),
        None => None,
    }
}

impl Clone for Task {
    fn clone(&self) -> (copy: Task)
        ensures
            copy@ == self@,
    {
        Task { encoded: self.encoded.clone() }
    }
}

impl Clone for Member {
    fn clone(&self) -> (copy: Member)
        ensures
            copy == *self,
    {
        Member { address: self.address.clone() }
    }
}

/// A copy of a list of members.
pub fn copy_members(members: &[Member]) -> (copy: Vec<Member>)
    ensures
        copy@ == members@,
{
    let mut copy: Vec<Member> = Vec::new();
    for i in 0..members.len()
        invariant
            copy@ == members@.take(i as int),
    {
        copy.push(members[i].clone());
        assert(members@.take(i + 1) =~= members@.take(i as int).push(members@[i as int]));
    }
    assert(members@.take(members@.len() as int) =~= members@);
    copy
}

/// The index or number of members as requests carry it, in 32 bits.
pub open spec fn wire_index(index: int) -> u32 {
    (index % 0x1_0000_0000) as u32
}

/// The index or number of members as requests carry it, in 32 bits.
pub fn index_on_wire(index: usize) -> (wire: u32)
    ensures
        wire == wire_index(index as int),
{
    let wide: u64 = index as u64;
    assert(wide as u32 == wide % 0x1_0000_0000) by (bit_vector);
    wide as u32
}

/// The answer to an Open.
#[derive(Clone, Copy, Debug, PartialEq, Eq)]
pub struct Opened {}

/// The first request of a session.
///
/// The tags, commits and offsets to resume from are carried in their encoded form, and
/// not read.
#[derive(Debug, PartialEq, Eq)]
pub struct SessionOpen {
    pub session_id: u64,
    pub task: Option<Task>,
    pub members: Vec<Member>,
    pub resume_tags: Vec<Vec<u8>>,
    pub last_commit: Vec<Vec<u8>>,
    pub read_through: Vec<Vec<u8>>,
}

/// What serving a session reads of its Open.
#[verifier::ext_equal]
pub struct SessionOpenView {
    pub session_id: u64,
    pub task: Option<Seq<u8>>,
    pub members: Seq<Seq<char>>,
}

impl View for SessionOpen {
    type V = SessionOpenView;

    open spec fn view(&self) -> SessionOpenView {
        SessionOpenView {
            session_id: self.session_id,
            task: task_view(self.task),
            members: addresses(self.members@),
        }
    }
}

/// Asks a session for its next checkpoint.
#[derive(Clone, Copy, Debug, PartialEq, Eq)]
pub struct NextCheckpoint {}

/// A request of the Session RPC.
#[derive(Debug, PartialEq, Eq)]
pub struct SessionRequest {
    pub open: Option<SessionOpen>,
    pub next_checkpoint: Option<NextCheckpoint>,
}

/// What a `SessionRequest` holds.
#[verifier::ext_equal]
pub struct SessionRequestView {
    pub open: Option<SessionOpenView>,
    pub next_checkpoint: Option<NextCheckpoint>,
}

impl View for SessionRequest {
    type V = SessionRequestView;

    open spec fn view(&self) -> SessionRequestView {
        SessionRequestView {
            open: match self.open {
                Some(open) => Some(open@),
                None => None,
            },
            next_checkpoint: self.next_checkpoint,
        }
    }
}

/// A checkpoint of a session: the encoded deltas since the one before.
#[derive(Debug, PartialEq, Eq)]
pub struct Checkpoint {
    pub delta_checkpoint: Vec<Vec<u8>>,
}

impl View for Checkpoint {
    type V = Seq<Seq<u8>>;

    open spec fn view(&self) -> Seq<Seq<u8>> {
        Seq::new(self.delta_checkpoint@.len(), |i: int| self.delta_checkpoint@[i]@)
    }
}

/// A response of the Session RPC.
#[derive(Debug, PartialEq, Eq)]
pub struct SessionResponse {
    pub opened: Option<Opened>,
    pub next_checkpoint: Option<Checkpoint>,
}

/// What a `SessionResponse` holds.
#[verifier::ext_equal]
pub struct SessionResponseView {
    pub opened: Option<Opened>,
    pub next_checkpoint: Option<Seq<Seq<u8>>>,
}

impl View for SessionResponse {
    type V = SessionResponseView;

    open spec fn view(&self) -> SessionResponseView {
        SessionResponseView {
            opened: self.opened,
            next_checkpoint: match self.next_checkpoint {
                Some(checkpoint) => Some(checkpoint@),
                None => None,
            },
        }
    }
}

/// The first request of a slice.
#[derive(Debug, PartialEq, Eq)]
pub struct SliceOpen {
    pub session_id: u64,
    pub task: Option<Task>,
    pub members: Vec<Member>,
    pub member_index: u32,
}

/// What a `SliceOpen` holds.
#[verifier::ext_equal]
pub struct SliceOpenView {
    pub session_id: u64,
    pub task: Option<Seq<u8>>,
    pub members: Seq<Seq<char>>,
    pub member_index: u32,
}

impl View for SliceOpen {
    type V = SliceOpenView;

    open spec fn view(&self) -> SliceOpenView {
        SliceOpenView {
            session_id: self.session_id,
            task: task_view(self.task),
            members: addresses(self.members@),
            member_index: self.member_index,
        }
    }
}

/// Journals by the tags that stand for them, each entry in its encoded form.
#[derive(Debug, PartialEq, Eq)]
pub struct JournalTags {
    pub tags: Vec<Vec<u8>>,
}

/// Asks a slice to start reading a journal.
#[derive(Clone, Copy, Debug, PartialEq, Eq)]
pub struct StartRead {
    pub journal_tag: u32,
    pub binding: u32,
}

/// Asks a slice to stop reading a journal.
#[derive(Clone, Copy, Debug, PartialEq, Eq)]
pub struct StopRead {
    pub journal_tag: u32,
}

/// A request of the Slice RPC.
#[derive(Debug, PartialEq, Eq)]
pub struct SliceRequest {
    pub open: Option<SliceOpen>,
    pub journal_tags: Option<JournalTags>,
    pub start_read: Option<StartRead>,
    pub stop_read: Option<StopRead>,
}

/// What a `SliceRequest` holds.
#[verifier::ext_equal]
pub struct SliceRequestView {
    pub open: Option<SliceOpenView>,
    pub journal_tags: Option<JournalTags>,
    pub start_read: Option<StartRead>,
    pub stop_read: Option<StopRead>,
}

impl View for SliceRequest {
    type V = SliceRequestView;

    open spec fn view(&self) -> SliceRequestView {
        SliceRequestView {
            open: match self.open {
                Some(open) => Some(open@),
                None => None,
            },
            journal_tags: self.journal_tags,
            start_read: self.start_read,
            stop_read: self.stop_read,
        }
    }
}

/// Progress of a slice, in its encoded form.
#[derive(Debug, PartialEq, Eq)]
pub struct ProgressDelta {
    pub encoded: Vec<u8>,
}

/// A response of the Slice RPC.
#[derive(Debug, PartialEq, Eq)]
pub struct SliceResponse {
    pub opened: Option<Opened>,
    pub progress_delta: Option<ProgressDelta>,
}

impl Reply for SliceResponse {
    open spec fn is_opened(&self) -> bool {
        self.opened is Some
    }

    fn has_opened(&self) -> bool {
        self.opened.is_some()
    }
}

/// The first request of a queue.
#[derive(Clone, Copy, Debug, PartialEq, Eq)]
pub struct QueueOpen {
    pub session_id: u64,
    pub member_count: u32,
    pub slice_member_index: u32,
    pub queue_member_index: u32,
}

/// Hands a queue a document.
#[derive(Debug, PartialEq, Eq)]
pub struct Enqueue {
    pub journal_tag: u32,
    pub binding: u32,
    pub document: Vec<u8>,
}

/// Asks a queue to make all documents before it durable.
#[derive(Clone, Copy, Debug, PartialEq, Eq)]
pub struct Flush {
    pub seq: u64,
}

/// A request of the Queue RPC.
#[derive(Debug, PartialEq, Eq)]
pub struct QueueRequest {
    pub open: Option<QueueOpen>,
    pub enqueue: Option<Enqueue>,
    pub flush: Option<Flush>,
}

/// Answers the Flush of the same sequence number.
#[derive(Clone, Copy, Debug, PartialEq, Eq)]
pub struct Flushed {
    pub seq: u64,
}

/// A response of the Queue RPC.
#[derive(Clone, Copy, Debug, PartialEq, Eq)]
pub struct QueueResponse {
    pub opened: Option<Opened>,
    pub flushed: Option<Flushed>,
}

impl Reply for QueueResponse {
    open spec fn is_opened(&self) -> bool {
        self.opened is Some
    }

    fn has_opened(&self) -> bool {
        self.opened.is_some()
    }
}

/// A response answers an Open exactly if it holds an Opened, whatever else it holds.
pub proof fn law_replies(slice: SliceResponse, queue: QueueResponse)
    ensures
        slice.is_opened() <==> slice.opened is Some,
        queue.is_opened() <==> queue.opened is Some,
{
}

/// Indexes and numbers of members are carried in 32 bits: those that fit unchanged, and
/// any two that differ by a multiple of what fits as the same number.
pub proof fn law_wire_index(index: int, multiple: int)
    requires
        0 <= index <= u32::MAX,
        0 <= multiple,
    ensures
        wire_index(index + multiple * 0x1_0000_0000) == index,
{
    assert((index + multiple * 0x1_0000_0000) % 0x1_0000_0000 == index) by (nonlinear_arith)
        requires
            0 <= index < 0x1_0000_0000,
            0 <= multiple,
    ;
}

} // verus!
