//! The socket a tier of streams comes in on.

use vstd::prelude::*;

use crate::venue::registry::{stream_ids, StreamId};
use crate::venue::stream::{StreamMessage, StreamTier, Subscription};

verus! {

/// Why a socket failed.
#[derive(Debug)]
pub enum WsError {
    /// It could not be opened.
    Connect(String),
    /// It did not take the subscriptions.
    Subscribe(String),
    /// It could not be opened again.
    Closed,
}

/// What asking a socket for its next event gives.
#[derive(Debug, Clone, PartialEq, Eq)]
pub enum WsPoll {
    /// A message.
    Message(StreamMessage),
    /// The socket has dropped.
    Disconnected,
    /// Nothing right now.
    Idle,
}

/// The socket of one tier. What it gives and answers is the venue's to say; `may_give` and `may_answer`
/// name it. An implementation may narrow them to what it knows of its socket, and says nothing otherwise.
pub trait WsConnection {
    /// Which socket this is. Using a socket does not make it another one.
    open spec fn id(&self) -> int {
        0
    }

    /// Whether `event` is one that the socket may give when it is asked now.
    open spec fn may_give(&self, event: WsPoll) -> bool {
        true
    }

    /// Whether `answer` is one that the socket may give when it is asked for these streams now.
    open spec fn may_answer(&self, streams: Seq<StreamId>, answer: Result<(), WsError>) -> bool {
        true
    }

    /// Subscribes to `subs`: when the socket is opened, and again each time it is opened anew.
    fn subscribe(&mut self, subs: &[Subscription]) -> (r: Result<(), WsError>)
        ensures
            old(self).may_answer(stream_ids(subs@), r),
            final(self).id() == old(self).id(),
    ;

    /// The next event.
    fn poll(&mut self) -> (r: WsPoll)
        ensures
            old(self).may_give(r),
            final(self).id() == old(self).id(),
    ;
}

/// Opens the sockets of the tiers.
pub trait WsConnector {
    /// A fresh socket for `tier`.
    fn connect(&self, tier: StreamTier) -> Result<Box<dyn WsConnection>, WsError>;
}

} // verus!
