//! Connections to the shuffle services of members.

use crate::status::{Cause, ErrorView, ShuffleError};
use std::sync::Arc;
use vstd::prelude::*;

verus! {

/// Dialer manages connections to shuffle service endpoints.
///
/// It is the one place for what all connections have in common. It has no
/// configuration yet, so that any two dialers are the same.
pub struct Dialer {
    inner: Arc<DialerInner>,
}

struct DialerInner {}

impl Dialer {
    /// The dialer without any configuration.
    pub closed spec fn unconfigured() -> Dialer {
        Dialer { inner: Arc::new(DialerInner {  }) }
    }

    pub fn new() -> (dialer: Dialer)
        ensures
            dialer == Dialer::unconfigured(),
    {
        Dialer { inner: Arc::new(DialerInner {  }) }
    }

    /// Takes what came of connecting to a shuffle service endpoint: the client, or an
    /// error that names the address.
    pub fn dial<C>(&self, address: &str, connected: Result<C, Cause>) -> (client: Result<
        C,
        ShuffleError,
    >)
        ensures
            match connected {
                Ok(connection) => client == Ok::<C, ShuffleError>(connection),
                Err(cause) => client matches Err(error) && error@ == (ErrorView::Connecting {
                    address: address@,
                    cause: cause@,
                }),
            },
    {
        match connected {
            Ok(connection) => Ok(connection),
            Err(cause) => Err(ShuffleError::Connecting { address: address.to_string(), cause }),
        }
    }
}

impl Clone for Dialer {
    fn clone(&self) -> (dialer: Dialer)
        ensures
            dialer == *self,
    {
        Dialer { inner: self.inner.clone() }
    }
}

impl Default for Dialer {
    fn default() -> (dialer: Dialer)
        ensures
            dialer == Dialer::unconfigured(),
    {
        Dialer::new()
    }
}

} // verus!
