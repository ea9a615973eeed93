use vstd::prelude::*;

verus! {

/// An IPv4 address and a port.
#[derive(Debug, PartialEq, Eq, Clone, Copy)]
pub struct SocketAddr {
    pub ip: [u8; 4],
    pub port: u16,
}

/// The readiness that the loop reports for a socket, or the interest that
/// a socket is registered with.
#[derive(Debug, PartialEq, Eq, Clone, Copy, Structural)]
pub struct EventSet {
    pub readable: bool,
    pub writable: bool,
}

impl EventSet {
    /// No readiness.
    pub fn none() -> (e: EventSet)
        ensures
            e == (EventSet { readable: false, writable: false }),
    {
        EventSet { readable: false, writable: false }
    }

    /// Readable only.
    pub fn readable() -> (e: EventSet)
        ensures
            e == (EventSet { readable: true, writable: false }),
    {
        EventSet { readable: true, writable: false }
    }

    /// Writable only.
    pub fn writable() -> (e: EventSet)
        ensures
            e == (EventSet { readable: false, writable: true }),
    {
        EventSet { readable: false, writable: true }
    }

    /// Readable and writable.
    pub fn all() -> (e: EventSet)
        ensures
            e == (EventSet { readable: true, writable: true }),
    {
        EventSet { readable: true, writable: true }
    }

    /// Whether the set holds readable.
    pub fn is_readable(&self) -> (b: bool)
        ensures
            b == self.readable,
    {
        self.readable
    }

    /// Whether the set holds writable.
    pub fn is_writable(&self) -> (b: bool)
        ensures
            b == self.writable,
    {
        self.writable
    }
}

/// How the loop reports readiness for a registration.
#[derive(Debug, PartialEq, Eq, Clone, Copy, Structural)]
pub struct PollOpt {
    pub edge: bool,
    pub level: bool,
    pub oneshot: bool,
}

impl PollOpt {
    /// No option.
    pub fn empty() -> (p: PollOpt)
        ensures
            p == (PollOpt { edge: false, level: false, oneshot: false }),
    {
        PollOpt { edge: false, level: false, oneshot: false }
    }

    /// Signalled once per change, and then not again until registered anew.
    pub fn edge_oneshot() -> (p: PollOpt)
        ensures
            p == (PollOpt { edge: true, level: false, oneshot: true }),
    {
        PollOpt { edge: true, level: false, oneshot: true }
    }

    /// Signalled for as long as it holds.
    pub fn level() -> (p: PollOpt)
        ensures
            p == (PollOpt { edge: false, level: true, oneshot: false }),
    {
        PollOpt { edge: false, level: true, oneshot: false }
    }
}

/// The socket call that a state machine asks its caller to make before the
/// next step.
#[derive(Debug, PartialEq, Eq, Clone, Copy, Structural)]
pub enum IoRequest {
    /// Send the visible octets of the buffer to the remote address.
    Send,
    /// Receive into the writable room of the buffer.
    Receive,
    /// Make no call.
    Nothing,
}

/// What a non-blocking socket call came back with.
#[derive(Debug, PartialEq, Eq, Clone, Copy)]
pub enum IoResult {
    /// So many octets were sent.
    Sent(usize),
    /// So many octets were received into the writable room, from this address.
    Received(usize, SocketAddr),
    /// The call would have blocked.
    WouldBlock,
    /// The call failed.
    Failed,
    /// No call was made.
    Skipped,
}

} // verus!
