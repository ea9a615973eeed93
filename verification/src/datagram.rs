use vstd::prelude::*;
use crate::buf::BufState;
use crate::buf::ByteBuf;
use crate::buf::Mode;
use crate::buf::BUF_LEN;
use crate::errors::Error;
use crate::net::EventSet;
use crate::net::IoRequest;
use crate::net::IoResult;
use crate::net::PollOpt;
use crate::net::SocketAddr;
use crate::server::Action;

verus! {

/// What one step of a datagram came to.
#[derive(Debug, PartialEq, Eq, Clone, Copy)]
pub enum EventResponse {
    /// A send was tried: so many octets went out, or none could.
    Tx(Option<usize>),
    /// A receive was tried: so many octets came in from there, or none were there.
    Rx(Option<(usize, SocketAddr)>),
    /// The datagram is idle.
    Nothing,
}

/// Which way a datagram is going.
#[derive(Debug, PartialEq, Eq, Clone, Copy, Structural)]
pub enum State {
    Tx,
    Rx,
    Idle,
}

/// One sub-query to one upstream resolver: its buffer and its direction.
/// The socket itself is kept by the caller under the datagram's handle.
#[derive(Debug)]
pub struct Datagram {
    token: usize,
    query_token: usize,
    socket_addr: SocketAddr,
    buf: ByteBuf,
    state: State,
}

/// A datagram as mathematics.
pub struct DatagramView {
    pub token: usize,
    pub query_token: usize,
    pub addr: SocketAddr,
    pub buf: BufState,
    pub state: State,
}

impl DatagramView {
    /// The buffer is valid, reads while the datagram sends and is written
    /// while it receives.
    pub open spec fn valid(self) -> bool {
        &&& self.buf.valid()
        &&& (self.state == State::Tx ==> self.buf.mode == Mode::Reading)
        &&& (self.state == State::Rx ==> self.buf.mode == Mode::Writing)
    }

    /// A datagram before its first use.
    pub open spec fn fresh(token: usize, query_token: usize, addr: SocketAddr) -> DatagramView {
        DatagramView { token, query_token, addr, buf: BufState::fresh(), state: State::Idle }
    }

    /// Loaded with `bytes` to send.
    pub open spec fn filled(self, bytes: Seq<u8>) -> DatagramView {
        DatagramView {
            buf: self.buf.set_writable().written(bytes).flipped(),
            state: State::Tx,
            ..self
        }
    }

    /// Turned to receiving, the buffer emptied.
    pub open spec fn receiving(self) -> DatagramView {
        DatagramView { buf: self.buf.set_writable(), state: State::Rx, ..self }
    }

    /// Turned idle; the buffer stays as it is.
    pub open spec fn idle(self) -> DatagramView {
        DatagramView { state: State::Idle, ..self }
    }

    /// The socket call that the next step needs, for the readiness `events`.
    pub open spec fn wants(self, events: EventSet) -> Result<IoRequest, Error> {
        match self.state {
            State::Tx => if events.writable {
                Ok(IoRequest::Send)
            } else {
                Err(Error::InvalidState)
            },
            State::Rx => if events.readable {
                Ok(IoRequest::Receive)
            } else {
                Err(Error::InvalidState)
            },
            State::Idle => Ok(IoRequest::Nothing),
        }
    }

    /// What one step reports, for the readiness `events` and the outcome
    /// `io` of the socket call.
    pub open spec fn response(self, events: EventSet, io: IoResult) -> Result<EventResponse, Error> {
        match self.wants(events) {
            Err(e) => Err(e),
            Ok(IoRequest::Nothing) => Ok(EventResponse::Nothing),
            Ok(IoRequest::Send) => match io {
                IoResult::Sent(n) => Ok(EventResponse::Tx(Some(n))),
                IoResult::WouldBlock => Ok(EventResponse::Tx(None)),
                IoResult::Failed => Err(Error::Io),
                _ => Err(Error::InvalidState),
            },
            Ok(IoRequest::Receive) => match io {
                IoResult::Received(n, from) => Ok(EventResponse::Rx(Some((n, from)))),
                IoResult::WouldBlock => Ok(EventResponse::Rx(None)),
                IoResult::Failed => Err(Error::Io),
                _ => Err(Error::InvalidState),
            },
        }
    }

    /// The datagram after one step: the buffer moved past what was sent or
    /// received, nothing else changed.
    pub open spec fn stepped(self, events: EventSet, io: IoResult) -> DatagramView {
        match self.response(events, io) {
            Ok(EventResponse::Tx(Some(n))) => DatagramView {
                buf: self.buf.advanced(n as int),
                ..self
            },
            Ok(EventResponse::Rx(Some((n, _)))) => DatagramView {
                buf: self.buf.advanced(n as int),
                ..self
            },
            _ => self,
        }
    }

    /// The interest that the datagram is registered with.
    pub open spec fn interest(self) -> (EventSet, PollOpt) {
        match self.state {
            State::Tx => (
                EventSet { readable: false, writable: true },
                PollOpt { edge: true, level: false, oneshot: true },
            ),
            State::Rx => (
                EventSet { readable: true, writable: false },
                PollOpt { edge: true, level: false, oneshot: true },
            ),
            State::Idle => (
                EventSet { readable: false, writable: false },
                PollOpt { edge: false, level: false, oneshot: false },
            ),
        }
    }
}

impl View for Datagram {
    type V = DatagramView;

    closed spec fn view(&self) -> DatagramView {
        DatagramView {
            token: self.token,
            query_token: self.query_token,
            addr: self.socket_addr,
            buf: self.buf@,
            state: self.state,
        }
    }
}

impl Datagram {
    /// The invariant that every datagram keeps.
    pub open spec fn wf(&self) -> bool {
        self@.valid()
    }

    /// An idle datagram with the handle `t`, for the query with the handle
    /// `qt`, to the resolver at `remote`.
    pub fn new(t: usize, qt: usize, remote: SocketAddr) -> (d: Datagram)
        ensures
            d.wf(),
            d@ == DatagramView::fresh(t, qt, remote),
    {
        Datagram { token: t, query_token: qt, socket_addr: remote, buf: ByteBuf::new(), state: State::Idle }
    }

    /// Which way the datagram is going.
    pub fn state(&self) -> (s: State)
        ensures
            s == self@.state,
    {
        self.state
    }

    /// Names another resolver to send to.
    pub fn set_addr(&mut self, addr: SocketAddr)
        ensures
            final(self)@ == (DatagramView { addr, ..old(self)@ }),
    {
        self.socket_addr = addr;
    }

    /// The resolver that the datagram is for.
    pub fn get_addr(&self) -> (a: &SocketAddr)
        ensures
            *a == self@.addr,
    {
        &self.socket_addr
    }

    /// The handle of the query that owns the datagram.
    pub fn query_token(&self) -> (t: usize)
        ensures
            t == self@.query_token,
    {
        self.query_token
    }

    /// The handle of the datagram.
    pub fn token(&self) -> (t: usize)
        ensures
            t == self@.token,
    {
        self.token
    }

    /// Loads the datagram with `bytes` and turns it to sending.  More
    /// octets than a buffer holds are refused with `Short`, and nothing
    /// changes.
    pub fn fill(&mut self, bytes: &[u8]) -> (r: Result<(), Error>)
        requires
            old(self).wf(),
        ensures
            final(self).wf(),
            bytes@.len() <= BUF_LEN ==> r is Ok && final(self)@ == old(self)@.filled(bytes@),
            bytes@.len() > BUF_LEN ==> r == Err::<(), Error>(Error::Short) && final(self)@ == old(
                self,
            )@,
    {
        if bytes.len() > BUF_LEN {
            return Err(Error::Short);
        }
        self.buf.clear();
        self.buf.set_writable();
        let _ = self.buf.write_all(bytes);
        self.buf.flip();
        self.state = State::Tx;
        assert(old(self)@.buf.cleared().set_writable() == old(self)@.buf.set_writable());
        Ok(())
    }

    /// Empties the buffer and turns the datagram to receiving.
    pub fn set_rx(&mut self)
        requires
            old(self).wf(),
        ensures
            final(self).wf(),
            final(self)@ == old(self)@.receiving(),
    {
        self.state = State::Rx;
        self.buf.set_writable();
    }

    /// Turns the datagram idle.
    pub fn set_idle(&mut self)
        requires
            old(self).wf(),
        ensures
            final(self).wf(),
            final(self)@ == old(self)@.idle(),
    {
        self.state = State::Idle;
    }

    /// The visible octets of the buffer: what is still to send, or what was
    /// received.
    pub fn get_ref(&self) -> (s: &[u8])
        requires
            self.wf(),
        ensures
            s@ == self@.buf.visible(),
    {
        self.buf.bytes()
    }

    /// The room of a receiving datagram, for a socket to receive into.
    pub fn get_mut(&mut self) -> (room: &mut [u8])
        requires
            old(self).wf(),
            old(self)@.state == State::Rx,
        ensures
            room@ == old(self)@.buf.writable(),
            final(room)@.len() == room@.len(),
            final(self)@ == (DatagramView { buf: old(self)@.buf.filled(final(room)@), ..old(self)@ }),
            final(self).wf(),
    {
        self.buf.mut_bytes()
    }

    /// Copies `data` into the room of a receiving datagram, as a socket
    /// that receives into the room would.
    pub fn load(&mut self, data: &[u8])
        requires
            old(self).wf(),
            old(self)@.state == State::Rx,
        ensures
            final(self).wf(),
            final(self)@ == (DatagramView { buf: old(self)@.buf.put(data@), ..old(self)@ }),
    {
        let _ = self.buf.put(data);
    }

    /// How many octets the room of the buffer has.
    pub fn room(&self) -> (n: usize)
        requires
            self.wf(),
        ensures
            n == self@.buf.remaining(),
    {
        self.buf.lim() - self.buf.pos()
    }

    /// The socket call that `event` needs to have been made, for the
    /// readiness `events`.
    pub fn wants(&self, events: EventSet) -> (r: Result<IoRequest, Error>)
        ensures
            r == self@.wants(events),
    {
        match self.state {
            State::Tx => if events.is_writable() {
                Ok(IoRequest::Send)
            } else {
                Err(Error::InvalidState)
            },
            State::Rx => if events.is_readable() {
                Ok(IoRequest::Receive)
            } else {
                Err(Error::InvalidState)
            },
            State::Idle => Ok(IoRequest::Nothing),
        }
    }

    /// One step of the datagram: the readiness `events` was signalled, and
    /// the socket call that `wants` named came back with `io`.
    pub fn event(&mut self, events: EventSet, io: IoResult) -> (r: Result<EventResponse, Error>)
        requires
            old(self).wf(),
        ensures
            final(self).wf(),
            r == old(self)@.response(events, io),
            final(self)@ == old(self)@.stepped(events, io),
    {
        match self.state {
            State::Tx => {
                if events.is_writable() {
                    match io {
                        IoResult::Sent(size) => {
                            self.buf.advance(size);
                            Ok(EventResponse::Tx(Some(size)))
                        },
                        IoResult::WouldBlock => Ok(EventResponse::Tx(None)),
                        IoResult::Failed => Err(Error::Io),
                        _ => Err(Error::InvalidState),
                    }
                } else {
                    Err(Error::InvalidState)
                }
            },
            State::Rx => {
                if events.is_readable() {
                    match io {
                        IoResult::Received(size, addr) => {
                            self.buf.advance(size);
                            Ok(EventResponse::Rx(Some((size, addr))))
                        },
                        IoResult::WouldBlock => Ok(EventResponse::Rx(None)),
                        IoResult::Failed => Err(Error::Io),
                        _ => Err(Error::InvalidState),
                    }
                } else {
                    Err(Error::InvalidState)
                }
            },
            State::Idle => Ok(EventResponse::Nothing),
        }
    }

    /// The interest to register the socket with: writable while sending,
    /// readable while receiving, each signalled once; none while idle.
    pub fn event_set_poll_opts(&self) -> (r: (EventSet, PollOpt))
        ensures
            r == self@.interest(),
    {
        match self.state {
            State::Tx => (EventSet::writable(), PollOpt::edge_oneshot()),
            State::Rx => (EventSet::readable(), PollOpt::edge_oneshot()),
            State::Idle => (EventSet::none(), PollOpt::empty()),
        }
    }
}


impl Datagram {
    /// What is asked of the loop to take the socket of the datagram on:
    /// a socket to the resolver, registered with the interest that the
    /// direction of the datagram calls for.
    pub fn register(&self) -> (a: Action)
        ensures
            a == (Action::Register {
                token: self@.token,
                remote: self@.addr,
                interest: self@.interest().0,
                opts: self@.interest().1,
            }),
    {
        let (interest, opts) = self.event_set_poll_opts();
        Action::Register { token: self.token, remote: self.socket_addr, interest, opts }
    }

    /// What is asked of the loop after every event: the socket registered
    /// anew with the interest that the direction of the datagram calls for.
    pub fn reregister(&self) -> (a: Action)
        ensures
            a == (Action::Reregister {
                token: self@.token,
                interest: self@.interest().0,
                opts: self@.interest().1,
            }),
    {
        let (interest, opts) = self.event_set_poll_opts();
        Action::Reregister { token: self.token, interest, opts }
    }
}

} // verus!
