//! The shuffle service: decisions of its Session, Slice and Queue RPCs.
//!
//! Each RPC is served by a state machine. A driver hands it what happened (a request
//! was read, a peer answered) and performs the action that it hands back (read on,
//! answer, call a peer, stop).

pub mod dialer;
pub mod mesh;
pub mod message;
pub mod queue;
pub mod rpc;
pub mod service;
pub mod session;
pub mod slice;
pub mod status;
pub mod streams;

pub use dialer::Dialer;
pub use queue::DefaultQueueHandler;
pub use service::ShuffleService;
pub use session::DefaultSessionHandler;
pub use slice::DefaultSliceHandler;
