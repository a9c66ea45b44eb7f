//! Errors of the shuffle service, and the gRPC statuses that they are reported as.

use vstd::prelude::*;

verus! {

/// The gRPC status code of an internal error.
pub const INTERNAL: i32 = 13;

/// A gRPC status: its code, its message, its binary details, and its metadata entries
/// in order.
#[derive(Debug, PartialEq, Eq)]
pub struct Status {
    pub code: i32,
    pub message: String,
    pub details: Vec<u8>,
    pub metadata: Vec<(String, Vec<u8>)>,
}

/// What a `Status` holds.
#[verifier::ext_equal]
pub struct StatusView {
    pub code: i32,
    pub message: Seq<char>,
    pub details: Seq<u8>,
    pub metadata: Seq<(Seq<char>, Seq<u8>)>,
}

impl View for Status {
    type V = StatusView;

    open spec fn view(&self) -> StatusView {
        StatusView {
            code: self.code,
            message: self.message@,
            details: self.details@,
            metadata: Seq::new(
                self.metadata@.len(),
                |i: int| (self.metadata@[i].0@, self.metadata@[i].1@),
            ),
        }
    }
}

impl StatusView {
    /// The status of an internal error with this message.
    pub open spec fn internal(message: Seq<char>) -> StatusView {
        StatusView {
            code: INTERNAL,
            message,
            details: Seq::empty(),
            metadata: Seq::empty(),
        }
    }
}

/// The texts of a list of strings.
pub open spec fn texts(strings: Seq<String>) -> Seq<Seq<char>> {
    Seq::new(strings.len(), |i: int| strings[i]@)
}

/// Why a connection or a channel failed: the message of the error, and those of the
/// errors below it, outermost first.
#[derive(Debug, PartialEq, Eq)]
pub struct Cause {
    pub message: String,
    pub causes: Vec<String>,
}

impl View for Cause {
    type V = Seq<Seq<char>>;

    open spec fn view(&self) -> Seq<Seq<char>> {
        seq![self.message@] + texts(self.causes@)
    }
}

/// The kind of RPC that a peer serves.
#[derive(Clone, Copy, Debug, PartialEq, Eq, Structural)]
pub enum Peer {
    Slice,
    Queue,
}

/// Why serving an RPC failed.
#[derive(Debug, PartialEq, Eq)]
pub enum ShuffleError {
    /// The caller's requests failed with a status.
    Status(Status),
    /// The caller's requests failed without a status, or with an internal error, of
    /// which only the message is kept.
    Other(Cause),
    /// The requests ended before the first one.
    ExpectedOpen,
    /// The first request is not an Open.
    FirstNotOpen,
    /// The Open of a session has no task.
    MissingTask,
    /// A member could not be connected to.
    Connecting { address: String, cause: Cause },
    /// The Open could not be sent to the peer.
    Sending { peer: Peer, cause: Cause },
    /// The peer refused the RPC.
    Starting { peer: Peer, status: Status },
    /// The peer failed before it answered the Open.
    Waiting { peer: Peer, status: Status },
    /// The peer ended its responses before it answered the Open.
    ClosedWithoutOpened { peer: Peer },
    /// The peer's first response is not an Opened.
    ExpectedOpened { peer: Peer },
}

/// What a `ShuffleError` holds.
#[verifier::ext_equal]
pub enum ErrorView {
    Status(StatusView),
    Other(Seq<Seq<char>>),
    ExpectedOpen,
    FirstNotOpen,
    MissingTask,
    Connecting { address: Seq<char>, cause: Seq<Seq<char>> },
    Sending { peer: Peer, cause: Seq<Seq<char>> },
    Starting { peer: Peer, status: StatusView },
    Waiting { peer: Peer, status: StatusView },
    ClosedWithoutOpened { peer: Peer },
    ExpectedOpened { peer: Peer },
}

impl View for ShuffleError {
    type V = ErrorView;

    open spec fn view(&self) -> ErrorView {
        match *self {
            ShuffleError::Status(status) => ErrorView::Status(status@),
            ShuffleError::Other(cause) => ErrorView::Other(cause@),
            ShuffleError::ExpectedOpen => ErrorView::ExpectedOpen,
            ShuffleError::FirstNotOpen => ErrorView::FirstNotOpen,
            ShuffleError::MissingTask => ErrorView::MissingTask,
            ShuffleError::Connecting { address, cause } => ErrorView::Connecting {
                address: address@,
                cause: cause@,
            },
            ShuffleError::Sending { peer, cause } => ErrorView::Sending { peer, cause: cause@ },
            ShuffleError::Starting { peer, status } => ErrorView::Starting {
                peer,
                status: status@,
            },
            ShuffleError::Waiting { peer, status } => ErrorView::Waiting { peer, status: status@ },
            ShuffleError::ClosedWithoutOpened { peer } => ErrorView::ClosedWithoutOpened { peer },
            ShuffleError::ExpectedOpened { peer } => ErrorView::ExpectedOpened { peer },
        }
    }
}

impl ErrorView {
    /// The status that the error came with, if it came with one.
    pub open spec fn carried(self) -> Option<StatusView> {
        match self {
            ErrorView::Status(status) => Some(status),
            ErrorView::Starting { status, .. } => Some(status),
            ErrorView::Waiting { status, .. } => Some(status),
            _ => None,
        }
    }

    /// What the service says of the error; of a status of the caller, nothing.
    pub open spec fn headline(self) -> Option<Seq<char>> {
        match self {
            ErrorView::Status(_) => None,
            ErrorView::Other(cause) => Some(cause[0]),
            ErrorView::ExpectedOpen => Some("expected Open request"@),
            ErrorView::FirstNotOpen => Some("first message must be Open"@),
            ErrorView::MissingTask => Some("Open must include task"@),
            ErrorView::Connecting { address, .. } => Some("connecting to "@ + address),
            ErrorView::Sending { peer: Peer::Slice, .. } => Some("sending Slice Open"@),
            ErrorView::Sending { peer: Peer::Queue, .. } => Some("sending Queue Open"@),
            ErrorView::Starting { peer: Peer::Slice, .. } => Some("starting Slice RPC"@),
            ErrorView::Starting { peer: Peer::Queue, .. } => Some("starting Queue RPC"@),
            ErrorView::Waiting { peer: Peer::Slice, .. } => Some("waiting for Slice Opened"@),
            ErrorView::Waiting { peer: Peer::Queue, .. } => Some("waiting for Queue Opened"@),
            ErrorView::ClosedWithoutOpened { peer: Peer::Slice } => Some(
                "Slice closed without Opened"@,
            ),
            ErrorView::ClosedWithoutOpened { peer: Peer::Queue } => Some(
                "Queue closed without Opened"@,
            ),
            ErrorView::ExpectedOpened { peer: Peer::Slice } => Some(
                "expected Opened response from Slice"@,
            ),
            ErrorView::ExpectedOpened { peer: Peer::Queue } => Some(
                "expected Opened response from Queue"@,
            ),
        }
    }

    /// The messages of the errors below this one, outermost first.
    pub open spec fn causes(self) -> Seq<Seq<char>> {
        match self {
            ErrorView::Other(cause) => cause.skip(1),
            ErrorView::Connecting { cause, .. } => cause,
            ErrorView::Sending { cause, .. } => cause,
            _ => Seq::empty(),
        }
    }

    /// The messages of an error that carries no status, outermost first.
    pub open spec fn chain(self) -> Seq<Seq<char>>
        recommends
            self.carried() is None,
    {
        seq![self.headline()->0] + self.causes()
    }
}

/// The Debug report that `anyhow` makes of an error with these messages, outermost
/// first, without the backtrace that it may append.
pub uninterp spec fn error_report(messages: Seq<Seq<char>>) -> Seq<char>;

/// `text` is the report, or the report with a backtrace after it.
pub open spec fn may_end_in_backtrace(report: Seq<char>, text: Seq<char>) -> bool {
    text == report || (report + "\n\nStack backtrace:"@).is_prefix_of(text)
}

/// `text` is what `anyhow` makes of an error with these messages: its report, and
/// possibly a backtrace after it. The report of a single message is that message; that
/// of more starts with the outermost one and then lists those below it.
pub open spec fn is_report(messages: Seq<Seq<char>>, text: Seq<char>) -> bool {
    &&& may_end_in_backtrace(error_report(messages), text)
    &&& messages.len() == 1 ==> may_end_in_backtrace(messages[0], text)
    &&& messages.len() > 1 ==> (messages[0] + "\n\nCaused by:\n"@).is_prefix_of(text)
}

/// Builds an `anyhow::Error` with `anyhow::Error::msg` from the innermost message and
/// with `anyhow::Error::context` from each one around it, and formats it with `{:?}`.
///
/// The text is a function of the messages or, where the environment asks `anyhow` to
/// capture a backtrace, that with a backtrace section after it. A single message is
/// given out as it is; after the outermost of several, the others follow under a
/// heading. How they are laid out there is left unsaid.
#[verifier::external_body]
fn report(messages: &Vec<String>) -> (text: String)
    requires
        messages@.len() > 0,
    ensures
        may_end_in_backtrace(error_report(texts(messages@)), text@),
        messages@.len() == 1 ==> may_end_in_backtrace(messages@[0]@, text@),
        messages@.len() > 1 ==> (messages@[0]@ + "\n\nCaused by:\n"@).is_prefix_of(text@),
{
    let mut inner_first = messages.iter().rev();
    let innermost = anyhow::Error::msg(inner_first.next().unwrap().clone());
    let error = inner_first.fold(innermost, |error, message| error.context(message.clone()));
    format!("{error:?}")
}

/// Calls `tonic::Status::internal` and reads the status back with its `code`,
/// `message`, `details` and `metadata` methods: the code of an internal error, the
/// message as given, no details, no metadata.
#[verifier::external_body]
fn internal_status(message: String) -> (status: Status)
    ensures
        status@ == StatusView::internal(message@),
{
    let status = tonic::Status::internal(message);
    Status {
        code: status.code() as i32,
        message: status.message().to_string(),
        details: status.details().to_vec(),
        metadata: status.metadata().clone().into_headers().iter()
            .map(|(name, value)| (name.to_string(), value.as_bytes().to_vec())).collect(),
    }
}

impl Cause {
    /// The messages of the cause, outermost first, after those of `messages`.
    fn extend(self, messages: &mut Vec<String>)
        ensures
            texts(final(messages)@) == texts(old(messages)@) + self@,
    {
        let mut causes = self.causes;
        messages.push(self.message);
        messages.append(&mut causes);
        assert(texts(messages@) =~= texts(old(messages)@) + self@);
    }
}

impl ShuffleError {
    /// What the service says of the error; of a status of the caller, nothing.
    pub fn headline(&self) -> (headline: Option<String>)
        ensures
            headline is Some <==> self@.headline() is Some,
            headline matches Some(text) ==> text@ == self@.headline()->0,
    {
        let text: &str = match self {
            ShuffleError::Status(_) => {
                return None;
            },
            ShuffleError::Other(cause) => {
                return Some(cause.message.clone());
            },
            ShuffleError::Connecting { address, .. } => {
                return Some("connecting to ".to_string().concat(address.as_str()));
            },
            ShuffleError::ExpectedOpen => "expected Open request",
            ShuffleError::FirstNotOpen => "first message must be Open",
            ShuffleError::MissingTask => "Open must include task",
            ShuffleError::Sending { peer: Peer::Slice, .. } => "sending Slice Open",
            ShuffleError::Sending { peer: Peer::Queue, .. } => "sending Queue Open",
            ShuffleError::Starting { peer: Peer::Slice, .. } => "starting Slice RPC",
            ShuffleError::Starting { peer: Peer::Queue, .. } => "starting Queue RPC",
            ShuffleError::Waiting { peer: Peer::Slice, .. } => "waiting for Slice Opened",
            ShuffleError::Waiting { peer: Peer::Queue, .. } => "waiting for Queue Opened",
            ShuffleError::ClosedWithoutOpened { peer: Peer::Slice } =>
                "Slice closed without Opened",
            ShuffleError::ClosedWithoutOpened { peer: Peer::Queue } =>
                "Queue closed without Opened",
            ShuffleError::ExpectedOpened { peer: Peer::Slice } =>
                "expected Opened response from Slice",
            ShuffleError::ExpectedOpened { peer: Peer::Queue } =>
                "expected Opened response from Queue",
        };
        Some(text.to_string())
    }

    /// The status that the error came with or, where it came with none, the messages
    /// of the error, outermost first.
    pub fn downcast(self) -> (result: Result<Status, Vec<String>>)
        ensures
            match self@.carried() {
                Some(status) => result matches Ok(found) && found@ == status,
                None => result matches Err(messages) && texts(messages@) == self@.chain(),
            },
    {
        let headline = self.headline();
        let mut messages: Vec<String> = Vec::new();
        if let Some(text) = headline {
            messages.push(text);
        }
        assert(self@.headline() is Some ==> texts(messages@) =~= seq![self@.headline()->0]);
        match self {
            ShuffleError::Status(status) => {
                return Ok(status);
            },
            ShuffleError::Starting { status, .. } => {
                return Ok(status);
            },
            ShuffleError::Waiting { status, .. } => {
                return Ok(status);
            },
            ShuffleError::Other(cause) => {
                let mut causes = cause.causes;
                assert(cause@.skip(1) =~= texts(causes@));
                messages.append(&mut causes);
            },
            ShuffleError::Connecting { cause, .. } => {
                cause.extend(&mut messages);
            },
            ShuffleError::Sending { cause, .. } => {
                cause.extend(&mut messages);
            },
            _ => {},
        }
        assert(self@.chain() =~= texts(messages@));
        Err(messages)
    }
}

/// The status that `error_to_status` makes of an error, given the error's report: the
/// status that the error came with, or else an internal error with the report.
pub open spec fn reported(error: ErrorView, report: Seq<char>) -> StatusView {
    match error.carried() {
        Some(status) => status,
        None => StatusView::internal(report),
    }
}

/// The error that a status of the caller's requests becomes: an internal error keeps
/// only its message, any other status is kept whole.
pub open spec fn from_status(status: StatusView) -> ErrorView {
    if status.code == INTERNAL {
        ErrorView::Other(seq![status.message])
    } else {
        ErrorView::Status(status)
    }
}

/// The status that answers an error, given the status that it came with or else its
/// report.
pub fn answer(found: Result<Status, String>) -> (status: Status)
    ensures
        match found {
            Ok(carried) => status == carried,
            Err(report) => status@ == StatusView::internal(report@),
        },
{
    match found {
        Ok(carried) => carried,
        Err(report) => internal_status(report),
    }
}

/// Maps an error into a status: the status that the error came with, or else an
/// internal error whose message is the error's report.
pub fn error_to_status(error: ShuffleError) -> (status: Status)
    ensures
        error@.carried() matches Some(carried) ==> status@ == carried,
        error@.carried() is None ==> is_report(error@.chain(), status.message@),
        status@ == reported(error@, status.message@),
{
    let found = match error.downcast() {
        Ok(carried) => Ok(carried),
        Err(messages) => {
            assert(texts(messages@).len() > 0 && texts(messages@)[0] == messages@[0]@);
            Err(report(&messages))
        },
    };
    answer(found)
}

/// Maps a status into an error.
pub fn status_to_error(status: Status) -> (error: ShuffleError)
    ensures
        error@ == from_status(status@),
{
    if status.code == INTERNAL {
        let cause = Cause { message: status.message, causes: Vec::new() };
        assert(cause@ =~= seq![status@.message]);
        ShuffleError::Other(cause)
    } else {
        ShuffleError::Status(status)
    }
}

/// A status that is not an internal error comes back unchanged from the error that it
/// becomes.
pub proof fn law_status_round_trip(status: StatusView, report: Seq<char>)
    requires
        status.code != INTERNAL,
    ensures
        reported(from_status(status), report) == status,
{
}

/// An internal error comes back from the error that it becomes as an internal error
/// with the same message, but for a backtrace that may follow, and without details or
/// metadata.
pub proof fn law_internal_round_trip(status: StatusView, report: Seq<char>)
    requires
        status.code == INTERNAL,
        is_report(from_status(status).chain(), report),
    ensures
        reported(from_status(status), report) == StatusView::internal(report),
        may_end_in_backtrace(status.message, report),
        from_status(status).chain() == seq![status.message],
{
    assert(from_status(status).chain() =~= seq![status.message]);
}

/// Reporting an error and reading the status back keeps a status that is not an
/// internal error, and of any other error keeps the message that was reported.
pub proof fn law_error_round_trip(error: ErrorView, report: Seq<char>)
    ensures
        from_status(reported(error, report)) == match error.carried() {
            Some(status) => if status.code == INTERNAL {
                ErrorView::Other(seq![status.message])
            } else {
                ErrorView::Status(status)
            },
            None => ErrorView::Other(seq![report]),
        },
{
}

/// Statuses that are the same to callers agree in every part.
pub proof fn law_status_whole(a: Status, b: Status)
    requires
        a@ == b@,
    ensures
        a.code == b.code,
        a.message@ == b.message@,
        a.details@ == b.details@,
        a.metadata@.len() == b.metadata@.len(),
        forall|i: int|
            0 <= i < a.metadata@.len() ==> (#[trigger] a.metadata@[i]).0@ == b.metadata@[i].0@
                && a.metadata@[i].1@ == b.metadata@[i].1@,
{
    assert(a@.metadata.len() == a.metadata@.len());
    assert(b@.metadata.len() == b.metadata@.len());
    assert forall|i: int| 0 <= i < a.metadata@.len() implies (#[trigger] a.metadata@[i]).0@
        == b.metadata@[i].0@ && a.metadata@[i].1@ == b.metadata@[i].1@ by {
        assert(a@.metadata[i] == b@.metadata[i]);
    }
}

/// A cause is its message and then those below it, in their order, and none is lost.
pub proof fn law_cause_whole(cause: Cause)
    ensures
        cause@.len() == cause.causes@.len() + 1,
        cause@[0] == cause.message@,
        forall|i: int| 0 <= i < cause.causes@.len() ==> cause@[i + 1] == (#[trigger]
            cause.causes@[i])@,
{
}

/// A failure of the caller's requests becomes an error that keeps a status whole, but
/// of an internal error the message alone.
pub proof fn law_failure_of_requests(status: Status, error: ShuffleError)
    requires
        error@ == from_status(status@),
    ensures
        if status.code == 13 {
            &&& error matches ShuffleError::Other(cause)
            &&& cause.message@ == status.message@
            &&& cause.causes@.len() == 0
        } else {
            &&& error matches ShuffleError::Status(kept)
            &&& kept@ == status@
        },
{
    if let ShuffleError::Other(cause) = error {
        law_cause_whole(cause);
    }
}

/// The error that came with a status is answered with that status in every part, and
/// any other with an internal error that has nothing but a message.
pub proof fn law_answers(error: ShuffleError, status: Status)
    requires
        status@ == reported(error@, status.message@),
    ensures
        match error {
            ShuffleError::Status(carried) => status@ == carried@,
            ShuffleError::Starting { status: carried, .. } => status@ == carried@,
            ShuffleError::Waiting { status: carried, .. } => status@ == carried@,
            _ => {
                &&& status.code == 13
                &&& status.details@.len() == 0
                &&& status.metadata@.len() == 0
            },
        },
{
    match error {
        ShuffleError::Status(_) => {},
        ShuffleError::Starting { .. } => {},
        ShuffleError::Waiting { .. } => {},
        _ => {
            assert(status@.metadata.len() == 0);
        },
    }
}

/// The messages of an error that came without a status: what the service says of it,
/// and then all of its cause, in order. Of an error that is nothing but a cause, these
/// are the cause.
pub proof fn law_messages(error: ShuffleError)
    requires
        error@.carried() is None,
    ensures
        error@.headline() == Some(error@.chain()[0]),
        match error {
            ShuffleError::Other(cause) => error@.chain() == cause@,
            ShuffleError::Connecting { address, cause } => error@.chain() == seq![
                "connecting to "@ + address@,
            ] + cause@,
            ShuffleError::Sending { cause, .. } => {
                &&& error@.chain().len() == cause@.len() + 1
                &&& error@.chain().skip(1) == cause@
            },
            _ => error@.chain().len() == 1,
        },
{
    match error {
        ShuffleError::Other(cause) => assert(error@.chain() =~= cause@),
        ShuffleError::Connecting { address, cause } => assert(error@.chain() =~= seq![
            "connecting to "@ + address@,
        ] + cause@),
        ShuffleError::Sending { peer, cause } => assert(error@.chain().skip(1) =~= cause@),
        _ => {},
    }
}

/// What the service says of an error: the same for slices and queues, but for the name
/// of the peer.
pub proof fn law_headlines(peer: Peer, cause: Seq<Seq<char>>, status: StatusView)
    ensures
        ({
            let name = match peer {
                Peer::Slice => "Slice"@,
                Peer::Queue => "Queue"@,
            };
            &&& ErrorView::Sending { peer, cause }.headline() == Some(
                "sending "@ + name + " Open"@,
            )
            &&& ErrorView::Starting { peer, status }.headline() == Some(
                "starting "@ + name + " RPC"@,
            )
            &&& ErrorView::Waiting { peer, status }.headline() == Some(
                "waiting for "@ + name + " Opened"@,
            )
            &&& ErrorView::ClosedWithoutOpened { peer }.headline() == Some(
                name + " closed without Opened"@,
            )
            &&& ErrorView::ExpectedOpened { peer }.headline() == Some(
                "expected Opened response from "@ + name,
            )
        }),
        ErrorView::Status(status).headline() is None,
        ErrorView::ExpectedOpen.headline() == Some("expected Open request"@),
        ErrorView::FirstNotOpen.headline() == Some("first message must be Open"@),
        ErrorView::MissingTask.headline() == Some("Open must include task"@),
{
    reveal_strlit("Slice");
    reveal_strlit("Queue");
    reveal_strlit("sending ");
    reveal_strlit(" Open");
    reveal_strlit("sending Slice Open");
    reveal_strlit("sending Queue Open");
    reveal_strlit("starting ");
    reveal_strlit(" RPC");
    reveal_strlit("starting Slice RPC");
    reveal_strlit("starting Queue RPC");
    reveal_strlit("waiting for ");
    reveal_strlit(" Opened");
    reveal_strlit("waiting for Slice Opened");
    reveal_strlit("waiting for Queue Opened");
    reveal_strlit(" closed without Opened");
    reveal_strlit("Slice closed without Opened");
    reveal_strlit("Queue closed without Opened");
    reveal_strlit("expected Opened response from ");
    reveal_strlit("expected Opened response from Slice");
    reveal_strlit("expected Opened response from Queue");
    assert("sending Slice Open"@ =~= "sending "@ + "Slice"@ + " Open"@);
    assert("sending Queue Open"@ =~= "sending "@ + "Queue"@ + " Open"@);
    assert("starting Slice RPC"@ =~= "starting "@ + "Slice"@ + " RPC"@);
    assert("starting Queue RPC"@ =~= "starting "@ + "Queue"@ + " RPC"@);
    assert("waiting for Slice Opened"@ =~= "waiting for "@ + "Slice"@ + " Opened"@);
    assert("waiting for Queue Opened"@ =~= "waiting for "@ + "Queue"@ + " Opened"@);
    assert("Slice closed without Opened"@ =~= "Slice"@ + " closed without Opened"@);
    assert("Queue closed without Opened"@ =~= "Queue"@ + " closed without Opened"@);
    assert("expected Opened response from Slice"@ =~= "expected Opened response from "@
        + "Slice"@);
    assert("expected Opened response from Queue"@ =~= "expected Opened response from "@
        + "Queue"@);
}

/// The report of an error says its outermost message first, and of an error with a
/// single message says nothing else, but for a backtrace that may follow.
pub proof fn law_report(messages: Seq<Seq<char>>, text: Seq<char>)
    requires
        messages.len() > 0,
        is_report(messages, text),
    ensures
        messages[0].is_prefix_of(text),
        messages.len() == 1 ==> text == messages[0] || (messages[0]
            + "\n\nStack backtrace:"@).is_prefix_of(text),
        messages.len() > 1 ==> (messages[0] + "\n\nCaused by:\n"@).is_prefix_of(text),
        text == error_report(messages) || (error_report(messages)
            + "\n\nStack backtrace:"@).is_prefix_of(text),
{
    let after = if messages.len() == 1 {
        "\n\nStack backtrace:"@
    } else {
        "\n\nCaused by:\n"@
    };
    if (messages[0] + after).is_prefix_of(text) {
        assert(messages[0] =~= text.subrange(0, messages[0].len() as int)) by {
            assert forall|i: int| 0 <= i < messages[0].len() implies messages[0][i] == text[i] by {
                assert((messages[0] + after)[i] == text.subrange(
                    0,
                    (messages[0] + after).len() as int,
                )[i]);
            }
        }
    }
}

/// Errors that are the same to callers are of the same kind and agree in all they hold.
pub proof fn law_error_whole(a: ShuffleError, b: ShuffleError)
    requires
        a@ == b@,
    ensures
        match a {
            ShuffleError::Status(status) => b matches ShuffleError::Status(other) && other@
                == status@,
            ShuffleError::Other(cause) => b matches ShuffleError::Other(other) && other@ == cause@,
            ShuffleError::ExpectedOpen => b is ExpectedOpen,
            ShuffleError::FirstNotOpen => b is FirstNotOpen,
            ShuffleError::MissingTask => b is MissingTask,
            ShuffleError::Connecting { address, cause } => b matches ShuffleError::Connecting {
                address: to,
                cause: other,
            } && to@ == address@ && other@ == cause@,
            ShuffleError::Sending { peer, cause } => b matches ShuffleError::Sending {
                peer: to,
                cause: other,
            } && to == peer && other@ == cause@,
            ShuffleError::Starting { peer, status } => b matches ShuffleError::Starting {
                peer: to,
                status: other,
            } && to == peer && other@ == status@,
            ShuffleError::Waiting { peer, status } => b matches ShuffleError::Waiting {
                peer: to,
                status: other,
            } && to == peer && other@ == status@,
            ShuffleError::ClosedWithoutOpened { peer } => b
                == (ShuffleError::ClosedWithoutOpened { peer }),
            ShuffleError::ExpectedOpened { peer } => b == (ShuffleError::ExpectedOpened { peer }),
        },
{
}

/// The status of an internal error says what it was given to say, and nothing else.
pub proof fn law_internal_status(message: Seq<char>)
    ensures
        StatusView::internal(message).code == 13,
        StatusView::internal(message).message == message,
        StatusView::internal(message).details.len() == 0,
        StatusView::internal(message).metadata.len() == 0,
{
}

} // verus!
