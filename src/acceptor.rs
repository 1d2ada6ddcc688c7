use vstd::prelude::*;

verus! {

/// The state of the task that owns the listening socket.
#[derive(Clone, Copy, Debug, PartialEq, Eq, Structural)]
pub enum Acceptor {
    Start,
    Listening,
}

/// What the acceptor last learned from the listening socket.
#[derive(Clone, Copy, Debug, PartialEq, Eq, Structural)]
pub enum AcceptEvent {
    /// The task was advanced, possibly without any new readiness.
    Resume,
    /// The socket is bound and registered for read readiness.
    Bound,
    /// A connection was accepted.
    Accepted,
    /// No connection is waiting.
    WouldBlock,
    /// Binding, registering or accepting failed.
    Failed,
}

/// What the acceptor asks for next.
#[derive(Clone, Copy, Debug, PartialEq, Eq, Structural)]
pub enum AcceptAction {
    /// Bind the listening socket and register it for read readiness.
    Listen,
    /// Accept one connection.
    Accept,
    /// Spawn a handler for the accepted connection, then advance again.
    SpawnHandler,
    /// Return pending until the listener is ready again.
    Yield,
    /// The listening socket is lost: stop the server.
    Abort,
}

/// One step of the acceptor. Once listening it keeps accepting until no
/// connection is waiting, so one readiness event drains them all; it never
/// completes, and any failure of the listening socket is fatal.
pub open spec fn accept_next(s: Acceptor, e: AcceptEvent) -> (Acceptor, AcceptAction) {
    match e {
        AcceptEvent::Failed => (s, AcceptAction::Abort),
        AcceptEvent::Bound => (Acceptor::Listening, AcceptAction::Accept),
        _ => match s {
            Acceptor::Start => (s, AcceptAction::Listen),
            Acceptor::Listening => match e {
                AcceptEvent::Accepted => (s, AcceptAction::SpawnHandler),
                AcceptEvent::WouldBlock => (s, AcceptAction::Yield),
                _ => (s, AcceptAction::Accept),
            },
        },
    }
}

impl Acceptor {
    pub fn new() -> (r: Acceptor)
        ensures
            r == Acceptor::Start,
    {
        Acceptor::Start
    }

    /// Advances the acceptor by one event and says what to do next.
    pub fn step(&mut self, e: AcceptEvent) -> (r: AcceptAction)
        ensures
            (*final(self), r) == accept_next(*old(self), e),
    {
        match e {
            AcceptEvent::Failed => AcceptAction::Abort,
            AcceptEvent::Bound => {
                *self = Acceptor::Listening;
                AcceptAction::Accept
            },
            _ => match *self {
                Acceptor::Start => AcceptAction::Listen,
                Acceptor::Listening => match e {
                    AcceptEvent::Accepted => AcceptAction::SpawnHandler,
                    AcceptEvent::WouldBlock => AcceptAction::Yield,
                    _ => AcceptAction::Accept,
                },
            },
        }
    }
}

} // verus!
