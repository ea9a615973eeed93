use vstd::prelude::*;
use vstd::slice::slice_subrange;
use crate::errors::Error;

verus! {

/// The capacity of every buffer: one DNS message over UDP.
pub const BUF_LEN: usize = 512;

/// Which side of a buffer is in use.
#[derive(Debug, PartialEq, Eq, Clone, Copy, Structural)]
pub enum Mode {
    Reading,
    Writing,
    Idle,
}

/// A fixed-capacity scratch area with a read side and a write side, of which
/// one is in use at a time.
#[derive(Debug)]
pub struct ByteBuf {
    mode: Mode,
    pos: usize,
    lim: usize,
    mark: Option<usize>,
    mem: [u8; BUF_LEN],
}

/// What a buffer is, as mathematics: its cursor, its limit, its mark, its mode
/// and the 512 octets behind them.
pub struct BufState {
    pub mode: Mode,
    pub pos: int,
    pub lim: int,
    pub mark: Option<int>,
    pub mem: Seq<u8>,
}

/// One operation on a buffer, with its argument.
pub enum BufOp {
    SetWritable,
    SetReadable,
    Clear,
    Flip,
    SetPos(int),
    Resume,
    Mark,
    Reset,
    Advance(int),
    Write(Seq<u8>),
    /// The writable slice was handed out and came back holding these octets.
    Fill(Seq<u8>),
}

impl BufState {
    /// `0 <= position <= limit <= capacity`, and a mark, if any, is no
    /// further than the limit.
    pub open spec fn valid(self) -> bool {
        &&& 0 <= self.pos <= self.lim <= BUF_LEN
        &&& self.mem.len() == BUF_LEN
        &&& (self.mark matches Some(m) ==> 0 <= m <= self.lim)
    }

    /// The octets a reader sees: `[position, limit)` when reading,
    /// `[0, position)` otherwise.
    pub open spec fn visible(self) -> Seq<u8> {
        if self.mode == Mode::Reading {
            self.mem.subrange(self.pos, self.lim)
        } else {
            self.mem.subrange(0, self.pos)
        }
    }

    /// The room a writer has: `[position, limit)`.
    pub open spec fn writable(self) -> Seq<u8> {
        self.mem.subrange(self.pos, self.lim)
    }

    /// How many octets lie between the position and the limit.
    pub open spec fn remaining(self) -> int {
        self.lim - self.pos
    }

    /// A new buffer: reading, over 512 zero octets, no mark.
    pub open spec fn fresh() -> BufState {
        BufState {
            mode: Mode::Reading,
            pos: 0,
            lim: BUF_LEN as int,
            mark: None,
            mem: Seq::new(BUF_LEN as nat, |i: int| 0u8),
        }
    }

    /// After `clear`: position at the start, limit at the capacity.
    pub open spec fn cleared(self) -> BufState {
        BufState { pos: 0, lim: BUF_LEN as int, ..self }
    }

    /// After `set_writable`: cleared, writing, no mark.
    pub open spec fn set_writable(self) -> BufState {
        BufState { mode: Mode::Writing, mark: None, ..self.cleared() }
    }

    /// After `set_readable`: reading, no mark.
    pub open spec fn set_readable(self) -> BufState {
        BufState { mode: Mode::Reading, mark: None, ..self }
    }

    /// After `flip`: from writing to reading what was written; from
    /// anything else to an empty buffer in writing mode.
    pub open spec fn flipped(self) -> BufState {
        if self.mode == Mode::Writing {
            BufState { mode: Mode::Reading, lim: self.pos, pos: 0, mark: None, ..self }
        } else {
            self.set_writable()
        }
    }

    /// After `set_pos`.
    pub open spec fn with_pos(self, i: int) -> BufState {
        BufState { pos: i, ..self }
    }

    /// After `resume`: writing again, behind what was there to read.
    pub open spec fn resumed(self) -> BufState {
        BufState { mode: Mode::Writing, pos: self.lim, lim: BUF_LEN as int, mark: None, ..self }
    }

    /// After `mark`: the position is remembered.
    pub open spec fn marked(self) -> BufState {
        BufState { mark: Some(self.pos), ..self }
    }

    /// After `reset`: the position is the mark, and the mark is gone.
    pub open spec fn reset(self) -> BufState {
        BufState { pos: self.mark->0, mark: None, ..self }
    }

    /// How far `advance(n)` moves: `n`, but no further than the limit.
    pub open spec fn step(self, n: int) -> int {
        if n <= self.remaining() {
            n
        } else {
            self.remaining()
        }
    }

    /// After `advance`.
    pub open spec fn advanced(self, n: int) -> BufState {
        BufState { pos: self.pos + self.step(n), ..self }
    }

    /// The room `[position, limit)` replaced by `room`, nothing else touched.
    pub open spec fn filled(self, room: Seq<u8>) -> BufState {
        BufState {
            mem: self.mem.subrange(0, self.pos) + room + self.mem.subrange(self.lim, BUF_LEN as int),
            ..self
        }
    }

    /// As many octets of `data` as there is room for, copied in at the
    /// position, which stays where it is.
    pub open spec fn put(self, data: Seq<u8>) -> BufState {
        let n = self.step(data.len() as int);
        BufState {
            mem: self.mem.subrange(0, self.pos) + data.subrange(0, n) + self.mem.subrange(
                self.pos + n,
                BUF_LEN as int,
            ),
            ..self
        }
    }

    /// As many octets of `data` as there is room for, copied in at the
    /// position, and the position moved past them.
    pub open spec fn written(self, data: Seq<u8>) -> BufState {
        let n = self.step(data.len() as int);
        BufState {
            pos: self.pos + n,
            mem: self.mem.subrange(0, self.pos) + data.subrange(0, n) + self.mem.subrange(
                self.pos + n,
                BUF_LEN as int,
            ),
            ..self
        }
    }

    /// Whether `op` may be asked of this state.
    pub open spec fn admits(self, op: BufOp) -> bool {
        match op {
            BufOp::SetPos(i) => 0 <= i <= self.lim,
            BufOp::Reset => self.mark is Some,
            BufOp::Advance(n) => 0 <= n,
            BufOp::Write(_) => self.mode == Mode::Writing,
            BufOp::Fill(room) => self.mode == Mode::Writing && room.len() == self.remaining(),
            _ => true,
        }
    }

    /// The state after `op`.
    pub open spec fn apply(self, op: BufOp) -> BufState {
        match op {
            BufOp::SetWritable => self.set_writable(),
            BufOp::SetReadable => self.set_readable(),
            BufOp::Clear => self.cleared(),
            BufOp::Flip => self.flipped(),
            BufOp::SetPos(i) => self.with_pos(i),
            BufOp::Resume => self.resumed(),
            BufOp::Mark => self.marked(),
            BufOp::Reset => self.reset(),
            BufOp::Advance(n) => self.advanced(n),
            BufOp::Write(data) => self.written(data),
            BufOp::Fill(room) => self.filled(room),
        }
    }

    /// The state after the operations of `ops`, first to last.
    pub open spec fn run(self, ops: Seq<BufOp>) -> BufState
        decreases ops.len(),
    {
        if ops.len() == 0 {
            self
        } else {
            self.run(ops.drop_last()).apply(ops.last())
        }
    }

    /// Whether each operation of `ops` may be asked of the state it meets.
    pub open spec fn admits_all(self, ops: Seq<BufOp>) -> bool
        decreases ops.len(),
    {
        ops.len() > 0 ==> self.admits_all(ops.drop_last()) && self.run(ops.drop_last()).admits(
            ops.last(),
        )
    }
}

/// Whether `op` leaves a mark where it is: every operation does but those
/// that change the mode, and `mark` and `reset` themselves.
pub open spec fn keeps_mark(op: BufOp) -> bool {
    match op {
        BufOp::Clear | BufOp::SetPos(_) | BufOp::Advance(_) | BufOp::Write(_) | BufOp::Fill(_) => true,
        _ => false,
    }
}

/// Every operation takes a valid buffer to a valid buffer.
pub proof fn lemma_valid_preserved(s: BufState, op: BufOp)
    requires
        s.valid(),
        s.admits(op),
    ensures
        s.apply(op).valid(),
{
}

/// Operations that are admitted one after the other keep the buffer valid.
pub proof fn lemma_valid_preserved_by_run(s: BufState, ops: Seq<BufOp>)
    requires
        s.valid(),
        s.admits_all(ops),
    ensures
        s.run(ops).valid(),
    decreases ops.len(),
{
    if ops.len() > 0 {
        lemma_valid_preserved_by_run(s, ops.drop_last());
        lemma_valid_preserved(s.run(ops.drop_last()), ops.last());
    }
}

/// Two flips in a row leave nothing to see, whatever the mode was.
pub proof fn lemma_flip_flip_empty(s: BufState)
    requires
        s.valid(),
    ensures
        s.flipped().flipped().visible() == Seq::<u8>::empty(),
        s.mode == Mode::Writing ==> s.flipped().flipped() == s.set_writable(),
{
}

/// After `mark`, any number of operations that keep the mark, and `reset`,
/// the position is what it was at the `mark`.
pub proof fn lemma_mark_reset(s: BufState, ops: Seq<BufOp>)
    requires
        s.valid(),
        s.marked().admits_all(ops),
        forall|i: int| 0 <= i < ops.len() ==> keeps_mark(#[trigger] ops[i]),
    ensures
        s.marked().run(ops).mark == Some(s.pos),
        s.marked().run(ops).admits(BufOp::Reset),
        s.marked().run(ops).reset().pos == s.pos,
        s.marked().run(ops).reset().valid(),
    decreases ops.len(),
{
    if ops.len() > 0 {
        let front = ops.drop_last();
        assert forall|i: int| 0 <= i < front.len() implies keeps_mark(#[trigger] front[i]) by {
            assert(front[i] == ops[i]);
        }
        lemma_mark_reset(s, front);
        lemma_valid_preserved_by_run(s.marked(), front);
        assert(keeps_mark(ops[ops.len() - 1]));
    }
}

impl View for ByteBuf {
    type V = BufState;

    closed spec fn view(&self) -> BufState {
        BufState {
            mode: self.mode,
            pos: self.pos as int,
            lim: self.lim as int,
            mark: match self.mark {
                Some(m) => Some(m as int),
                None => None,
            },
            mem: self.mem@,
        }
    }
}

impl ByteBuf {
    /// The invariant that every buffer made by this module keeps.
    pub open spec fn wf(&self) -> bool {
        self@.valid()
    }

    /// A buffer in reading mode over 512 zero octets.
    pub fn new() -> (b: ByteBuf)
        ensures
            b.wf(),
            b@ == BufState::fresh(),
    {
        let b = ByteBuf { mode: Mode::Reading, pos: 0, lim: BUF_LEN, mark: None, mem: [0u8;BUF_LEN] };
        assert(b@.mem =~= BufState::fresh().mem);
        b
    }

    /// The mode of the buffer.
    pub fn get_mode(&self) -> (m: Mode)
        ensures
            m == self@.mode,
    {
        self.mode
    }

    /// Empties the buffer and turns it to writing.
    pub fn set_writable(&mut self)
        requires
            old(self).wf(),
        ensures
            final(self).wf(),
            final(self)@ == old(self)@.set_writable(),
    {
        self.clear();
        self.mode = Mode::Writing;
        self.mark = None;
    }

    /// Turns the buffer to reading, cursor and limit as they are.
    pub fn set_readable(&mut self)
        requires
            old(self).wf(),
        ensures
            final(self).wf(),
            final(self)@ == old(self)@.set_readable(),
    {
        self.mode = Mode::Reading;
        self.mark = None;
    }

    /// Position to the start, limit to the capacity.
    pub fn clear(&mut self)
        requires
            old(self).wf(),
        ensures
            final(self).wf(),
            final(self)@ == old(self)@.cleared(),
    {
        self.pos = 0;
        self.lim = BUF_LEN;
    }

    /// The capacity: 512 octets.
    pub fn capacity(&self) -> (n: usize)
        ensures
            n == BUF_LEN,
    {
        BUF_LEN
    }

    /// From writing to reading what was written; from anything else to an
    /// empty buffer in writing mode.  The mark is dropped.
    pub fn flip(&mut self)
        requires
            old(self).wf(),
        ensures
            final(self).wf(),
            final(self)@ == old(self)@.flipped(),
    {
        if self.mode == Mode::Writing {
            self.lim = self.pos;
            self.pos = 0;
            self.mode = Mode::Reading;
            self.mark = None;
        } else {
            self.set_writable();
        }
    }

    /// Moves the position to `i`, which lies between the start and the limit.
    pub fn set_pos(&mut self, i: i32)
        requires
            old(self).wf(),
            0 <= i <= old(self)@.lim,
        ensures
            final(self).wf(),
            final(self)@ == old(self)@.with_pos(i as int),
    {
        self.pos = i as usize;
    }

    /// Back to writing, the position on the octet after what was there to read.
    pub fn resume(&mut self)
        requires
            old(self).wf(),
        ensures
            final(self).wf(),
            final(self)@ == old(self)@.resumed(),
    {
        self.pos = self.lim;
        self.lim = BUF_LEN;
        self.mode = Mode::Writing;
        self.mark = None;
    }

    /// Remembers the position for a later `reset`.
    pub fn mark(&mut self)
        requires
            old(self).wf(),
        ensures
            final(self).wf(),
            final(self)@ == old(self)@.marked(),
    {
        self.mark = Some(self.pos);
    }

    /// Returns the position to the mark and drops the mark.
    pub fn reset(&mut self)
        requires
            old(self).wf(),
            old(self)@.mark is Some,
        ensures
            final(self).wf(),
            final(self)@ == old(self)@.reset(),
    {
        match self.mark {
            Some(m) => {
                self.pos = m;
                self.mark = None;
            },
            None => {},
        }
    }

    /// The position.
    pub fn pos(&self) -> (p: usize)
        ensures
            p == self@.pos,
    {
        self.pos
    }

    /// The limit.
    pub fn lim(&self) -> (l: usize)
        ensures
            l == self@.lim,
    {
        self.lim
    }

    /// How many octets lie between the position and the limit.
    pub fn remaining(&self) -> (n: i32)
        requires
            self.wf(),
        ensures
            n == self@.remaining(),
    {
        (self.lim - self.pos) as i32
    }

    /// The visible octets: `[position, limit)` when reading, `[0, position)`
    /// otherwise.
    pub fn bytes(&self) -> (s: &[u8])
        requires
            self.wf(),
        ensures
            s@ == self@.visible(),
    {
        if self.mode == Mode::Reading {
            slice_subrange(self.mem.as_slice(), self.pos, self.lim)
        } else {
            slice_subrange(self.mem.as_slice(), 0, self.pos)
        }
    }

    /// Moves the position forward by `cnt`, or to the limit if that is nearer.
    pub fn advance(&mut self, cnt: usize)
        requires
            old(self).wf(),
        ensures
            final(self).wf(),
            final(self)@ == old(self)@.advanced(cnt as int),
    {
        let room = self.lim - self.pos;
        if cnt <= room {
            self.pos = self.pos + cnt;
        } else {
            self.pos = self.lim;
        }
    }

    /// The room `[position, limit)` of a buffer in writing mode, to be
    /// written through.  Nothing but that room changes.
    pub fn mut_bytes(&mut self) -> (room: &mut [u8])
        requires
            old(self).wf(),
            old(self)@.mode == Mode::Writing,
        ensures
            room@ == old(self)@.writable(),
            final(room)@.len() == room@.len(),
            final(self)@ == old(self)@.filled(final(room)@),
            final(self).wf(),
    {
        let pos = self.pos;
        let lim = self.lim;
        subslice_mut(&mut self.mem, pos, lim)
    }

    /// Copies as much of `data` as there is room for into the room, as a
    /// socket that receives into the room would, and says how much that
    /// was.  The position stays where it is.
    pub fn put(&mut self, data: &[u8]) -> (n: usize)
        requires
            old(self).wf(),
            old(self)@.mode == Mode::Writing,
        ensures
            final(self).wf(),
            n == old(self)@.step(data@.len() as int),
            final(self)@ == old(self)@.put(data@),
    {
        let start = self.pos;
        let n = self.write(data);
        self.pos = start;
        n
    }

    /// Copies in as much of `data` as there is room for and says how much
    /// that was.
    pub fn write(&mut self, data: &[u8]) -> (n: usize)
        requires
            old(self).wf(),
            old(self)@.mode == Mode::Writing,
        ensures
            final(self).wf(),
            n == old(self)@.step(data@.len() as int),
            final(self)@ == old(self)@.written(data@),
    {
        let room = self.lim - self.pos;
        let n = if data.len() <= room {
            data.len()
        } else {
            room
        };
        let start = self.pos;
        let mut i: usize = 0;
        while i < n
            invariant
                0 <= i <= n,
                n <= data@.len(),
                start + n <= self.lim <= BUF_LEN,
                start == old(self).pos,
                self.pos == start,
                self.lim == old(self).lim,
                self.mode == old(self).mode,
                self.mark == old(self).mark,
                self.mem@ == old(self).mem@.subrange(0, start as int) + data@.subrange(0, i as int)
                    + old(self).mem@.subrange(start + i, BUF_LEN as int),
            decreases n - i,
        {
            self.mem[start + i] = data[i];
            i = i + 1;
        }
        self.pos = start + n;
        n
    }

    /// Copies in all of `data`, or fails with `Short` when it does not fit;
    /// what did fit has then been written.
    pub fn write_all(&mut self, data: &[u8]) -> (r: Result<(), Error>)
        requires
            old(self).wf(),
            old(self)@.mode == Mode::Writing,
        ensures
            final(self).wf(),
            final(self)@ == old(self)@.written(data@),
            r is Ok <==> data@.len() <= old(self)@.remaining(),
            r is Err ==> r == Err::<(), Error>(Error::Short),
    {
        let n = self.write(data);
        if n == data.len() {
            Ok(())
        } else {
            Err(Error::Short)
        }
    }
}

/// Indexing a mutable slice by a range (`IndexMut<Range<usize>>` of std):
/// the octets `[from, to)` of `s`, to be written through.  The slice keeps
/// its length, and what lies outside the range stays as it was.
#[verifier::external_body]
fn subslice_mut(s: &mut [u8; BUF_LEN], from: usize, to: usize) -> (r: &mut [u8])
    requires
        from <= to <= BUF_LEN,
    ensures
        r@ == old(s)@.subrange(from as int, to as int),
        final(r)@.len() == r@.len(),
        final(s)@ == old(s)@.subrange(0, from as int) + final(r)@ + old(s)@.subrange(
            to as int,
            BUF_LEN as int,
        ),
{
    &mut s[from..to]
}

} // verus!
