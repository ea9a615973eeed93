use vstd::prelude::*;
use crate::buf::BufState;
use crate::buf::ByteBuf;

verus! {

/// A buffer that is written to while a socket is read.
pub type MutByteBuf = ByteBuf;

/// What a socket is doing with its buffer.
#[derive(Debug, PartialEq, Eq, Clone, Copy, Structural)]
pub enum SocketState {
    Writing,
    Reading,
    Closed,
}

/// The buffer of one socket: a buffer to write to the socket from while
/// the socket is written, a buffer to read into while it is read, and
/// neither while it is closed.
#[derive(Debug)]
pub struct Buffer {
    state: SocketState,
    buf: Option<ByteBuf>,
    mut_buf: Option<MutByteBuf>,
}

/// A socket buffer as mathematics.
pub struct BufferView {
    pub state: SocketState,
    pub buf: Option<BufState>,
    pub mut_buf: Option<BufState>,
}

impl BufferView {
    /// The buffers that are there are valid.
    pub open spec fn valid(self) -> bool {
        &&& (self.buf matches Some(b) ==> b.valid())
        &&& (self.mut_buf matches Some(b) ==> b.valid())
    }

    /// After `to_buf`: a closed buffer gets a new buffer to write from; a
    /// reading one hands over what was read, flipped; a writing one stays
    /// as it is.
    pub open spec fn to_buf(self) -> BufferView {
        match self.state {
            SocketState::Closed => BufferView { buf: Some(BufState::fresh()), ..self },
            SocketState::Reading => BufferView {
                buf: match self.mut_buf {
                    Some(b) => Some(b.flipped()),
                    None => None,
                },
                mut_buf: None,
                ..self
            },
            SocketState::Writing => self,
        }
    }

    /// After `to_mut_buf`: a closed buffer gets a new, empty buffer to
    /// read into; a writing one hands over its buffer, flipped; a reading
    /// one stays as it is.
    pub open spec fn to_mut_buf(self) -> BufferView {
        match self.state {
            SocketState::Closed => BufferView {
                mut_buf: Some(BufState::fresh().flipped()),
                ..self
            },
            SocketState::Writing => BufferView {
                mut_buf: match self.buf {
                    Some(b) => Some(b.flipped()),
                    None => None,
                },
                buf: None,
                ..self
            },
            SocketState::Reading => self,
        }
    }

    /// After `to_writing`.
    pub open spec fn to_writing(self) -> BufferView {
        match self.state {
            SocketState::Writing => self,
            _ => BufferView { state: SocketState::Writing, ..self.to_mut_buf() },
        }
    }

    /// After `to_reading`.
    pub open spec fn to_reading(self) -> BufferView {
        match self.state {
            SocketState::Reading => self,
            _ => BufferView { state: SocketState::Reading, ..self.to_buf() },
        }
    }

    /// A closed socket buffer: no buffer on either side.
    pub open spec fn closed() -> BufferView {
        BufferView { state: SocketState::Closed, buf: None, mut_buf: None }
    }
}

impl View for Buffer {
    type V = BufferView;

    closed spec fn view(&self) -> BufferView {
        BufferView {
            state: self.state,
            buf: match self.buf {
                Some(b) => Some(b@),
                None => None,
            },
            mut_buf: match self.mut_buf {
                Some(b) => Some(b@),
                None => None,
            },
        }
    }
}

/// The buffer `b`, flipped.
fn flipped(b: ByteBuf) -> (r: ByteBuf)
    requires
        b.wf(),
    ensures
        r.wf(),
        r@ == b@.flipped(),
{
    let mut b = b;
    b.flip();
    b
}

impl Buffer {
    /// The invariant that every socket buffer keeps.
    pub open spec fn wf(&self) -> bool {
        self@.valid()
    }

    /// A closed socket buffer.
    pub fn new() -> (b: Buffer)
        ensures
            b.wf(),
            b@ == BufferView::closed(),
    {
        Buffer { state: SocketState::Closed, buf: None, mut_buf: None }
    }

    /// The buffer to write to the socket from.  The socket is being
    /// written and has that buffer.
    pub fn buf(&mut self) -> (b: &mut ByteBuf)
        requires
            old(self)@.state == SocketState::Writing,
            old(self)@.buf is Some,
        ensures
            b@ == old(self)@.buf->0,
            final(self)@ == (BufferView { buf: Some(final(b)@), ..old(self)@ }),
    {
        match &mut self.buf {
            Some(b) => b,
            None => vstd::pervasive::unreached(),
        }
    }

    /// The buffer to read from the socket into.  The socket is being read
    /// and has that buffer.
    pub fn mut_buf(&mut self) -> (b: &mut MutByteBuf)
        requires
            old(self)@.state == SocketState::Reading,
            old(self)@.mut_buf is Some,
        ensures
            b@ == old(self)@.mut_buf->0,
            final(self)@ == (BufferView { mut_buf: Some(final(b)@), ..old(self)@ }),
    {
        match &mut self.mut_buf {
            Some(b) => b,
            None => vstd::pervasive::unreached(),
        }
    }

    /// Whether the socket is being read.
    pub fn is_mut_buf(&self) -> (b: bool)
        ensures
            b == (self@.state == SocketState::Reading),
    {
        match self.state {
            SocketState::Reading => true,
            _ => false,
        }
    }

    /// Whether the socket is being written.
    pub fn is_buf(&self) -> (b: bool)
        ensures
            b == (self@.state == SocketState::Writing),
    {
        match self.state {
            SocketState::Writing => true,
            _ => false,
        }
    }

    /// Hands the buffer of the side in use over to the other side,
    /// flipped.  The socket is not closed.
    pub fn flip(&mut self)
        requires
            old(self).wf(),
            old(self)@.state != SocketState::Closed,
        ensures
            final(self).wf(),
            final(self)@ == if old(self)@.state == SocketState::Reading {
                old(self)@.to_buf()
            } else {
                old(self)@.to_mut_buf()
            },
    {
        match self.state {
            SocketState::Reading => self.to_buf(),
            _ => self.to_mut_buf(),
        }
    }

    /// Makes the buffer to write from: see `BufferView::to_buf`.
    pub fn to_buf(&mut self)
        requires
            old(self).wf(),
        ensures
            final(self).wf(),
            final(self)@ == old(self)@.to_buf(),
    {
        match self.state {
            SocketState::Closed => {
                self.buf = Some(ByteBuf::new());
            },
            SocketState::Reading => {
                self.buf = match self.mut_buf.take() {
                    Some(b) => Some(flipped(b)),
                    None => None,
                };
            },
            SocketState::Writing => (),
        }
    }

    /// Makes the buffer to read into: see `BufferView::to_mut_buf`.
    pub fn to_mut_buf(&mut self)
        requires
            old(self).wf(),
        ensures
            final(self).wf(),
            final(self)@ == old(self)@.to_mut_buf(),
    {
        match self.state {
            SocketState::Closed => {
                self.mut_buf = Some(flipped(ByteBuf::new()));
            },
            SocketState::Writing => {
                self.mut_buf = match self.buf.take() {
                    Some(b) => Some(flipped(b)),
                    None => None,
                };
            },
            SocketState::Reading => {},
        }
    }

    /// Turns the socket to being written.
    pub fn to_writing(&mut self)
        requires
            old(self).wf(),
        ensures
            final(self).wf(),
            final(self)@ == old(self)@.to_writing(),
    {
        match self.state {
            SocketState::Reading | SocketState::Closed => {
                self.to_mut_buf();
                self.state = SocketState::Writing;
            },
            _ => (),
        }
    }

    /// Turns the socket to being read.
    pub fn to_reading(&mut self)
        requires
            old(self).wf(),
        ensures
            final(self).wf(),
            final(self)@ == old(self)@.to_reading(),
    {
        match self.state {
            SocketState::Writing | SocketState::Closed => {
                self.to_buf();
                self.state = SocketState::Reading;
            },
            _ => (),
        }
    }

    /// Closes the socket buffer: both buffers go.
    pub fn close(&mut self)
        ensures
            final(self).wf(),
            final(self)@ == BufferView::closed(),
    {
        self.buf = None;
        self.mut_buf = None;
        self.state = SocketState::Closed;
    }

    /// The readiness that the socket waits for: writable while it is
    /// written, readable while it is read, none while it is closed.
    pub fn event_set(&self) -> (e: crate::net::EventSet)
        ensures
            e == match self@.state {
                SocketState::Closed => crate::net::EventSet { readable: false, writable: false },
                SocketState::Writing => crate::net::EventSet { readable: false, writable: true },
                SocketState::Reading => crate::net::EventSet { readable: true, writable: false },
            },
    {
        match self.state {
            SocketState::Closed => crate::net::EventSet::none(),
            SocketState::Writing => crate::net::EventSet::writable(),
            SocketState::Reading => crate::net::EventSet::readable(),
        }
    }
}

} // verus!
