//! The shuffle service as a whole.

use crate::dialer::Dialer;
use crate::queue::DefaultQueueHandler;
use crate::session::DefaultSessionHandler;
use crate::slice::DefaultSliceHandler;
use vstd::prelude::*;

verus! {

/// ShuffleService serves the Session, Slice and Queue RPCs, delegating to pluggable
/// handlers.
///
/// The generic parameters allow mocking individual handlers for testing.
pub struct ShuffleService<Sess, Sli, Que> {
    session_handler: Sess,
    slice_handler: Sli,
    queue_handler: Que,
}

impl<Sess, Sli, Que> ShuffleService<Sess, Sli, Que> {
    /// The handlers of the Session, Slice and Queue RPCs.
    pub closed spec fn handlers(self) -> (Sess, Sli, Que) {
        (self.session_handler, self.slice_handler, self.queue_handler)
    }

    pub fn new(session_handler: Sess, slice_handler: Sli, queue_handler: Que) -> (service:
        ShuffleService<Sess, Sli, Que>)
        ensures
            service.handlers() == (session_handler, slice_handler, queue_handler),
    {
        ShuffleService { session_handler, slice_handler, queue_handler }
    }

    /// Takes the service apart into its handlers.
    pub fn into_handlers(self) -> (handlers: (Sess, Sli, Que))
        ensures
            handlers == self.handlers(),
    {
        (self.session_handler, self.slice_handler, self.queue_handler)
    }
}

impl<Sess: Clone, Sli: Clone, Que: Clone> Clone for ShuffleService<Sess, Sli, Que> {
    fn clone(&self) -> (service: ShuffleService<Sess, Sli, Que>)
        ensures
            cloned(self.handlers().0, service.handlers().0),
            cloned(self.handlers().1, service.handlers().1),
            cloned(self.handlers().2, service.handlers().2),
    {
        ShuffleService {
            session_handler: self.session_handler.clone(),
            slice_handler: self.slice_handler.clone(),
            queue_handler: self.queue_handler.clone(),
        }
    }
}

impl ShuffleService<DefaultSessionHandler, DefaultSliceHandler, DefaultQueueHandler> {
    /// Create a ShuffleService with default handler implementations.
    pub fn with_defaults() -> (service: Self)
        ensures
            service.handlers().0.dialer() == Dialer::unconfigured(),
            service.handlers().1.dialer() == Dialer::unconfigured(),
            service.handlers().2@.is_empty(),
    {
        let dialer = Dialer::new();
        Self::new(
            DefaultSessionHandler::new(dialer.clone()),
            DefaultSliceHandler::new(dialer),
            DefaultQueueHandler::new(),
        )
    }
}

} // verus!
