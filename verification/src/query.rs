use vstd::prelude::*;
use arrayvec::ArrayVec;
use crate::buf::BufState;
use crate::buf::ByteBuf;
use crate::buf::BUF_LEN;
use crate::cache::canonical;
use crate::cache::is_hit;
use crate::cache::with_record;
use crate::cache::Cache;
use crate::cache::EntryView;
use crate::clock::clock_ns;
use crate::datagram::Datagram;
use crate::datagram::DatagramView;
use crate::datagram::EventResponse;
use crate::dns;
use crate::dns::question_views;
use crate::dns::record_views;
use crate::dns::with_flag;
use crate::dns::Message;
use crate::dns::MessageBuilder;
use crate::dns::FLAG_RECURSION_AVAILABLE;
use crate::dns::FLAG_RECURSION_DESIRED;
use crate::dns::FLAG_RESPONSE;
use crate::errors::Error;
use crate::net::EventSet;
use crate::net::IoResult;
use crate::net::SocketAddr;
use crate::wire;
use crate::wire::MessageView;
use crate::wire::QuestionView;
use crate::wire::RecordView;

verus! {

/// How far a query, or one of its upstream sub-queries, has come.
#[derive(Debug, PartialEq, Eq, Clone, Copy, Structural)]
pub enum QueryPhase {
    Waiting,
    SendRequest,
    WaitResponse,
    ResponseReady,
}

impl QueryPhase {
    /// The place of a phase in the order in which phases are passed through.
    pub open spec fn rank(self) -> int {
        match self {
            QueryPhase::Waiting => 0,
            QueryPhase::SendRequest => 1,
            QueryPhase::WaitResponse => 2,
            QueryPhase::ResponseReady => 3,
        }
    }
}

/// Whether a sub-query may go from phase `from` to phase `to` in one step:
/// it stays where it is, or goes from sending the request to waiting for
/// the response, or from waiting for the response to having it.
pub open spec fn may_step(from: QueryPhase, to: QueryPhase) -> bool {
    ||| to == from
    ||| (from == QueryPhase::SendRequest && to == QueryPhase::WaitResponse)
    ||| (from == QueryPhase::WaitResponse && to == QueryPhase::ResponseReady)
}

/// The handle of a timeout that was armed for a query.
#[derive(Debug, PartialEq, Eq, Clone, Copy, Structural)]
pub struct Timeout(pub usize);

/// One upstream sub-query as the query sees it.
#[derive(Debug)]
pub struct Upstream {
    pub token: usize,
    pub answer: Message,
    pub phase: QueryPhase,
    /// The clock, in nanoseconds, when the sub-query was made.
    pub start_time: u64,
    /// The clock, in nanoseconds, when the response was there; zero before.
    pub end_time: u64,
}

/// An upstream sub-query as mathematics.
pub struct UpstreamView {
    pub token: usize,
    pub answer: MessageView,
    pub phase: QueryPhase,
    pub start_time: u64,
    pub end_time: u64,
}

impl View for Upstream {
    type V = UpstreamView;

    open spec fn view(&self) -> UpstreamView {
        UpstreamView {
            token: self.token,
            answer: self.answer@,
            phase: self.phase,
            start_time: self.start_time,
            end_time: self.end_time,
        }
    }
}

/// The most upstream sub-queries that one query can have.
pub const MAX_UPSTREAMS: usize = 16;

/// The sub-queries that a vector holds, first to last, each as its view.
pub uninterp spec fn upstream_items(v: ArrayVec<Upstream, 16>) -> Seq<UpstreamView>;

/// `ArrayVec::new`: a vector that holds nothing.
#[verifier::external_body]
fn upstreams_new() -> (v: ArrayVec<Upstream, 16>)
    ensures
        upstream_items(v).len() == 0,
{
    ArrayVec::new()
}

/// `ArrayVec::push`: the element is put after the last one.  The vector
/// must have room, for a full one makes the call panic.
#[verifier::external_body]
fn upstreams_push(v: &mut ArrayVec<Upstream, 16>, u: Upstream)
    requires
        upstream_items(*old(v)).len() < 16,
    ensures
        upstream_items(*final(v)) == upstream_items(*old(v)).push(u@),
{
    v.push(u)
}

/// `ArrayVec::as_slice`: the elements as a slice.
#[verifier::external_body]
fn upstreams_slice(v: &ArrayVec<Upstream, 16>) -> (s: &[Upstream])
    ensures
        upstream_views(s@) == upstream_items(*v),
{
    v.as_slice()
}

/// `ArrayVec::deref_mut` and an index: the element at `i`, to be written
/// through.  The other elements stay as they are.
#[verifier::external_body]
fn upstream_mut(v: &mut ArrayVec<Upstream, 16>, i: usize) -> (u: &mut Upstream)
    requires
        i < upstream_items(*old(v)).len(),
    ensures
        u@ == upstream_items(*old(v))[i as int],
        upstream_items(*final(v)) == upstream_items(*old(v)).update(i as int, final(u)@),
{
    &mut v[i]
}

/// The views of sub-queries, each in its place.
pub open spec fn upstream_views(us: Seq<Upstream>) -> Seq<UpstreamView> {
    Seq::new(us.len(), |i: int| us[i]@)
}

/// One client query: the message that came in, where it came from, the
/// octets to send next, and the upstream sub-queries that work on it.
#[derive(Debug)]
pub struct Query {
    token: usize,
    message: Option<Message>,
    addr: Option<SocketAddr>,
    bytes: ByteBuf,
    upstreams: ArrayVec<Upstream, 16>,
    timeout: Option<Timeout>,
    phase: QueryPhase,
}

/// A query as mathematics.
pub struct QueryView {
    pub token: usize,
    pub message: Option<MessageView>,
    pub addr: Option<SocketAddr>,
    pub buf: BufState,
    pub upstreams: Seq<UpstreamView>,
    pub timeout: Option<Timeout>,
    pub phase: QueryPhase,
}

impl View for Query {
    type V = QueryView;

    closed spec fn view(&self) -> QueryView {
        QueryView {
            token: self.token,
            message: match self.message {
                Some(m) => Some(m@),
                None => None,
            },
            addr: self.addr,
            buf: self.bytes@,
            upstreams: upstream_items(self.upstreams),
            timeout: self.timeout,
            phase: self.phase,
        }
    }
}

impl QueryView {
    /// The buffer is valid and there are no more sub-queries than a query
    /// can have.
    pub open spec fn valid(self) -> bool {
        self.buf.valid() && self.upstreams.len() <= MAX_UPSTREAMS
    }

    /// A query without message, address, sub-queries or timeout.
    pub open spec fn fresh(token: usize) -> QueryView {
        QueryView {
            token,
            message: None,
            addr: None,
            buf: BufState::fresh(),
            upstreams: Seq::empty(),
            timeout: None,
            phase: QueryPhase::Waiting,
        }
    }

    /// The handles of the sub-queries, in their order.
    pub open spec fn tokens(self) -> Seq<usize> {
        Seq::new(self.upstreams.len(), |i: int| self.upstreams[i].token)
    }

    /// The place of the first sub-query with the handle `t`, or the number
    /// of sub-queries if none has it.
    pub open spec fn find(self, t: usize) -> int {
        first_index(self.tokens(), t)
    }
}

/// The place of the first `t` in `tokens`, or the length of `tokens` if
/// `t` is not among them.
pub open spec fn first_index(tokens: Seq<usize>, t: usize) -> int
    decreases tokens.len(),
{
    if tokens.len() == 0 || tokens[0] == t {
        0
    } else {
        1 + first_index(tokens.skip(1), t)
    }
}

/// The first index is the least place that holds the handle.
pub proof fn lemma_first_index(tokens: Seq<usize>, t: usize)
    ensures
        0 <= first_index(tokens, t) <= tokens.len(),
        first_index(tokens, t) < tokens.len() ==> tokens[first_index(tokens, t)] == t,
        forall|j: int| 0 <= j < first_index(tokens, t) ==> tokens[j] != t,
    decreases tokens.len(),
{
    if tokens.len() == 0 || tokens[0] == t {
    } else {
        let rest = tokens.skip(1);
        lemma_first_index(rest, t);
        assert forall|j: int| 0 <= j < first_index(tokens, t) implies tokens[j] != t by {
            if j > 0 {
                assert(rest[j - 1] == tokens[j]);
            }
        }
    }
}

/// A place that holds the handle, with no earlier place that holds it, is
/// the first index.
pub proof fn lemma_first_index_is(tokens: Seq<usize>, t: usize, i: int)
    requires
        0 <= i <= tokens.len(),
        i < tokens.len() ==> tokens[i] == t,
        forall|j: int| 0 <= j < i ==> tokens[j] != t,
    ensures
        first_index(tokens, t) == i,
{
    lemma_first_index(tokens, t);
    let f = first_index(tokens, t);
    if f < i {
        assert(tokens[f] == t);
    }
}


/// The records that the cache `c` holds for the names of `qs`, question by
/// question.
pub open spec fn cached_answers(qs: Seq<QuestionView>, c: Map<Seq<u8>, EntryView>) -> Seq<RecordView>
    decreases qs.len(),
{
    if qs.len() == 0 {
        Seq::empty()
    } else {
        cached_answers(qs.drop_last(), c) + c[canonical(qs.last().name)].records
    }
}

/// Whether the cache `c` holds an entry for the name of every question.
pub open spec fn all_cached(qs: Seq<QuestionView>, c: Map<Seq<u8>, EntryView>) -> bool {
    forall|i: int| 0 <= i < qs.len() ==> c.contains_key(canonical((#[trigger] qs[i]).name))
}

/// Whether the cache `c` has an answer to every question.
pub open spec fn all_hit(qs: Seq<QuestionView>, c: Map<Seq<u8>, EntryView>) -> bool {
    forall|i: int| 0 <= i < qs.len() ==> is_hit(c, (#[trigger] qs[i]).name, qs[i].qtype)
}

/// The flags of a response made from the cache to a query with the flags
/// `query_flags`: a response, recursion available, recursion desired if
/// the query desired it.
pub open spec fn cached_flags(query_flags: u16) -> u16 {
    let response = with_flag(0, FLAG_RESPONSE, true);
    if query_flags & FLAG_RECURSION_DESIRED != 0 {
        with_flag(with_flag(response, FLAG_RECURSION_DESIRED, true), FLAG_RECURSION_AVAILABLE, true)
    } else {
        with_flag(response, FLAG_RECURSION_AVAILABLE, true)
    }
}

/// The response to the query `m` made from the cache `c`: the transaction
/// id and the questions of the query, and the cached records as answers.
pub open spec fn cached_response(m: MessageView, c: Map<Seq<u8>, EntryView>) -> MessageView {
    MessageView {
        tx_id: m.tx_id,
        flags: cached_flags(m.flags),
        questions: m.questions,
        answers: cached_answers(m.questions, c),
        name_server: Seq::empty(),
        additional: Seq::empty(),
    }
}

/// The cache `c` with the records `rs` added, each under its own name, in
/// entries made at `now` where there were none.
pub open spec fn with_records(c: Map<Seq<u8>, EntryView>, rs: Seq<RecordView>, now: u64) -> Map<
    Seq<u8>,
    EntryView,
>
    decreases rs.len(),
{
    if rs.len() == 0 {
        c
    } else {
        with_record(with_records(c, rs.drop_last(), now), rs.last().name, rs.last(), now)
    }
}

impl QueryView {
    /// What `rx` reports for the outcome `io` of the receive.
    pub open spec fn rx_result(self, io: IoResult) -> Result<Option<()>, Error> {
        match io {
            IoResult::Received(n, from) => if n > BUF_LEN {
                Err(Error::Short)
            } else {
                match wire::parse_message(self.buf.mem.subrange(0, n as int)) {
                    Ok(m) => Ok(Some(())),
                    Err(e) => Err(Error::DnsParse(e)),
                }
            },
            IoResult::WouldBlock => Ok(None),
            IoResult::Failed => Err(Error::Io),
            _ => Err(Error::InvalidState),
        }
    }

    /// The query after `rx`: what was received is what the buffer shows,
    /// and if it is a message, it is the query's message, come from there.
    pub open spec fn rx_state(self, io: IoResult) -> QueryView {
        match io {
            IoResult::Received(n, from) => if n > BUF_LEN {
                self
            } else {
                let shown = QueryView { buf: self.buf.set_writable().with_pos(n as int), ..self };
                match wire::parse_message(self.buf.mem.subrange(0, n as int)) {
                    Ok(m) => QueryView { message: Some(m), addr: Some(from), ..shown },
                    Err(e) => shown,
                }
            },
            _ => self,
        }
    }

    /// What `answer_from_cache` reports.
    pub open spec fn cache_result(self, c: Map<Seq<u8>, EntryView>) -> Result<(), Error> {
        match self.message {
            None => Err(Error::QueryStateError),
            Some(m) => if !all_cached(m.questions, c) {
                Err(Error::QueryStateError)
            } else if !wire::message_ok(cached_response(m, c)) {
                Err(Error::DnsParse(dns::Error::Unencodable))
            } else if wire::emit_message(cached_response(m, c)).len() > BUF_LEN {
                Err(Error::Short)
            } else {
                Ok(())
            },
        }
    }

    /// The query with `bytes` as the octets to send, which fit the buffer.
    pub open spec fn loaded(self, bytes: Seq<u8>) -> QueryView {
        QueryView { buf: self.buf.set_writable().written(bytes), ..self }
    }

    /// The query with one more sub-query, made at `now`, if there is room.
    pub open spec fn with_upstream(self, t: usize, now: u64) -> QueryView {
        if self.upstreams.len() < MAX_UPSTREAMS {
            QueryView {
                upstreams: self.upstreams.push(
                    UpstreamView {
                        token: t,
                        answer: MessageView::bare(0, 0),
                        phase: QueryPhase::SendRequest,
                        start_time: now,
                        end_time: 0,
                    },
                ),
                ..self
            }
        } else {
            self
        }
    }
}

impl Query {
    /// The invariant that every query keeps.
    pub open spec fn wf(&self) -> bool {
        self@.valid()
    }

    /// An empty query with the handle `token`, waiting.
    pub fn new(token: usize) -> (q: Query)
        ensures
            q.wf(),
            q@ == QueryView::fresh(token),
    {
        let q = Query {
            token,
            bytes: ByteBuf::new(),
            message: None,
            addr: None,
            upstreams: upstreams_new(),
            timeout: None,
            phase: QueryPhase::Waiting,
        };
        assert(q@.upstreams =~= Seq::empty());
        q
    }

    /// The handle of the query.
    pub fn token(&self) -> (t: usize)
        ensures
            t == self@.token,
    {
        self.token
    }

    /// The timeout that is armed for the query, if one is.
    pub fn timeout(&self) -> (t: Option<Timeout>)
        ensures
            t == self@.timeout,
    {
        self.timeout
    }

    /// How far the query has come.
    pub fn phase(&self) -> (p: QueryPhase)
        ensures
            p == self@.phase,
    {
        self.phase
    }

    /// Empties the buffer and hands out its room, for the server socket to
    /// receive into.
    pub fn rx_buf(&mut self) -> (room: &mut [u8])
        requires
            old(self).wf(),
        ensures
            room@ == old(self)@.buf.mem,
            final(room)@.len() == BUF_LEN,
            final(self)@ == (QueryView {
                buf: BufState { mem: final(room)@, ..old(self)@.buf.set_writable() },
                ..old(self)@
            }),
            final(self).wf(),
    {
        self.bytes.set_writable();
        let ghost mid = self.bytes@;
        let room = self.bytes.mut_bytes();
        proof {
            assert(mid.writable() =~= mid.mem);
            assert(mid.filled(final(room)@).mem =~= final(room)@);
        }
        room
    }

    /// Empties the buffer and copies `data` into its room, as the server
    /// socket would when it receives into the room of `rx_buf`.
    pub fn load(&mut self, data: &[u8])
        requires
            old(self).wf(),
        ensures
            final(self).wf(),
            final(self)@ == (QueryView { buf: old(self)@.buf.set_writable().put(data@), ..old(self)@ }),
    {
        self.bytes.set_writable();
        let _ = self.bytes.put(data);
    }

    /// Takes in what the server socket received into the room of `rx_buf`:
    /// the octets are parsed, and the message and the sender are kept.
    pub fn rx(&mut self, io: IoResult) -> (r: Result<Option<()>, Error>)
        requires
            old(self).wf(),
        ensures
            final(self).wf(),
            r == old(self)@.rx_result(io),
            final(self)@ == old(self)@.rx_state(io),
    {
        match io {
            IoResult::Received(size, addr) => {
                if size > BUF_LEN {
                    return Err(Error::Short);
                }
                self.bytes.set_writable();
                self.bytes.set_pos(size as i32);
                assert(self.bytes@.visible() == old(self)@.buf.mem.subrange(0, size as int));
                match Message::new(self.bytes.bytes()) {
                    Err(e) => Err(Error::DnsParse(e)),
                    Ok(m) => {
                        self.message = Some(m);
                        self.addr = Some(addr);
                        Ok(Some(()))
                    },
                }
            },
            IoResult::WouldBlock => Ok(None),
            IoResult::Failed => Err(Error::Io),
            _ => Err(Error::InvalidState),
        }
    }

    /// Notes the timeout that was armed for the query.
    pub fn set_timeout(&mut self, t: Timeout)
        ensures
            final(self)@ == (QueryView { timeout: Some(t), ..old(self)@ }),
    {
        self.timeout = Some(t);
    }

    /// The armed timeout, which the query then no longer has.
    pub fn take_timeout(&mut self) -> (t: Option<Timeout>)
        ensures
            t == old(self)@.timeout,
            final(self)@ == (QueryView { timeout: None, ..old(self)@ }),
    {
        let t = self.timeout;
        self.timeout = None;
        t
    }

    /// The handles of the sub-queries, in their order.
    pub fn upstream_tokens(&self) -> (v: Vec<usize>)
        ensures
            v@ == self@.tokens(),
    {
        let us = upstreams_slice(&self.upstreams);
        let mut v: Vec<usize> = Vec::new();
        let mut i: usize = 0;
        while i < us.len()
            invariant
                0 <= i <= us@.len(),
                upstream_views(us@) == upstream_items(self.upstreams),
                v@ == self@.tokens().take(i as int),
            decreases us@.len() - i,
        {
            v.push(us[i].token);
            assert(self@.tokens().take(i + 1) =~= self@.tokens().take(i as int).push(us@[i as int].token));
            i = i + 1;
        }
        assert(self@.tokens().take(i as int) =~= self@.tokens());
        v
    }

    /// The place of the sub-query with the handle `t`.
    fn find_upstream(&self, t: usize) -> (r: Option<usize>)
        ensures
            match r {
                Some(i) => i == self@.find(t) && i < self@.upstreams.len(),
                None => self@.find(t) == self@.upstreams.len(),
            },
    {
        let us = upstreams_slice(&self.upstreams);
        let mut i: usize = 0;
        while i < us.len()
            invariant
                0 <= i <= us@.len(),
                upstream_views(us@) == upstream_items(self.upstreams),
                forall|j: int| 0 <= j < i ==> self@.tokens()[j] != t,
            decreases us@.len() - i,
        {
            if us[i].token == t {
                proof {
                    lemma_first_index_is(self@.tokens(), t, i as int);
                }
                return Some(i);
            }
            i = i + 1;
        }
        proof {
            lemma_first_index_is(self@.tokens(), t, i as int);
        }
        None
    }

    /// Where the query came from, once it was read.
    pub fn get_addr(&self) -> (a: Option<&SocketAddr>)
        ensures
            match a {
                Some(x) => self@.addr == Some(*x),
                None => self@.addr is None,
            },
    {
        self.addr.as_ref()
    }

    /// Makes `bytes` the octets to send next.  More octets than a buffer
    /// holds are refused with `Short`, and nothing changes.
    pub fn copy_message_bytes(&mut self, bytes: &[u8]) -> (r: Result<(), Error>)
        requires
            old(self).wf(),
        ensures
            final(self).wf(),
            bytes@.len() <= BUF_LEN ==> r is Ok && final(self)@ == old(self)@.loaded(bytes@),
            bytes@.len() > BUF_LEN ==> r == Err::<(), Error>(Error::Short) && final(self)@ == old(self)@,
    {
        if bytes.len() > BUF_LEN {
            return Err(Error::Short);
        }
        self.bytes.set_writable();
        self.bytes.write_all(bytes)
    }

    /// The octets to send next: the query as it came in, or the response
    /// once there is one.
    pub fn question_bytes(&self) -> (s: &[u8])
        requires
            self.wf(),
        ensures
            s@ == self@.buf.visible(),
    {
        self.bytes.bytes()
    }

    /// Takes on the datagram with the handle `t` as a sub-query that has
    /// its request to send.  A query that has sixteen sub-queries takes on
    /// no more.
    pub fn add_upstream_token(&mut self, t: usize)
        requires
            old(self).wf(),
        ensures
            final(self).wf(),
            final(self)@ == old(self)@.with_upstream(
                t,
                if old(self)@.upstreams.len() < MAX_UPSTREAMS {
                    final(self)@.upstreams.last().start_time
                } else {
                    0
                },
            ),
    {
        if upstreams_slice(&self.upstreams).len() >= MAX_UPSTREAMS {
            return ;
        }
        let ghost before = upstream_items(self.upstreams);
        let upstream = Upstream {
            token: t,
            answer: Message::default(),
            phase: QueryPhase::SendRequest,
            start_time: clock_ns(),
            end_time: 0,
        };
        upstreams_push(&mut self.upstreams, upstream);
        assert(upstream_items(self.upstreams) =~= before.push(
            upstream@,
        ));
    }
}


impl Query {
    /// Whether the cache has an answer to every question of the query.  A
    /// query without a message has none.
    pub fn answer_in_cache(&self, cache: &Cache) -> (b: bool)
        requires
            cache.wf(),
        ensures
            b == match self@.message {
                Some(m) => all_hit(m.questions, cache@),
                None => false,
            },
    {
        match &self.message {
            None => false,
            Some(m) => {
                let questions = m.questions();
                let ghost views = question_views(questions@);
                let mut i: usize = 0;
                while i < questions.len()
                    invariant
                        0 <= i <= questions@.len(),
                        cache.wf(),
                        views == question_views(questions@),
                        self@.message is Some,
                        views == self@.message->0.questions,
                        forall|j: int|
                            0 <= j < i ==> is_hit(cache@, (#[trigger] views[j]).name, views[j].qtype),
                    decreases questions@.len() - i,
                {
                    let q = &questions[i];
                    if !cache.hit(q.name_bytes(), q.q_type) {
                        assert(!is_hit(cache@, views[i as int].name, views[i as int].qtype));
                        return false;
                    }
                    i = i + 1;
                }
                true
            },
        }
    }

    /// The response to the query made from the cache: the transaction id
    /// and the questions of the query, the flags of a response that offers
    /// recursion, and for each question the records kept under its name.
    pub fn build_cached_response(&self, cache: &Cache) -> (r: Result<Message, Error>)
        requires
            cache.wf(),
        ensures
            match self@.message {
                Some(m) => if all_cached(m.questions, cache@) {
                    r is Ok && r->Ok_0@ == cached_response(m, cache@)
                } else {
                    r is Err && r->Err_0 == Error::QueryStateError
                },
                None => r is Err && r->Err_0 == Error::QueryStateError,
            },
    {
        let msg_query = match &self.message {
            None => {
                return Err(Error::QueryStateError);
            },
            Some(m) => m,
        };
        let questions = msg_query.questions();
        let ghost views = question_views(questions@);
        let mut b = MessageBuilder::new().tx_id(msg_query.tx_id).response();
        if msg_query.is_recursion_desired() {
            b = b.recursion_desired();
        }
        b = b.recursion_available().questions(questions);
        let ghost base = b@;
        assert(base.answers =~= cached_answers(views.take(0), cache@));
        let mut i: usize = 0;
        while i < questions.len()
            invariant
                0 <= i <= questions@.len(),
                cache.wf(),
                views == question_views(questions@),
                self@.message is Some,
                views == self@.message->0.questions,
                base == (MessageView { answers: Seq::empty(), ..cached_response(self@.message->0, cache@) }),
                forall|j: int| 0 <= j < i ==> cache@.contains_key(canonical((#[trigger] views[j]).name)),
                b@ == (MessageView { answers: cached_answers(views.take(i as int), cache@), ..base }),
            decreases questions@.len() - i,
        {
            match cache.get(questions[i].name_bytes()) {
                None => {
                    assert(!cache@.contains_key(canonical(views[i as int].name)));
                    return Err(Error::QueryStateError);
                },
                Some(records) => {
                    let ghost start = b@.answers;
                    let ghost kept = record_views(records@);
                    let mut k: usize = 0;
                    assert(start + kept.take(0) =~= start);
                    while k < records.len()
                        invariant
                            0 <= k <= records@.len(),
                            kept == record_views(records@),
                            b@ == (MessageView { answers: start + kept.take(k as int), ..base }),
                        decreases records@.len() - k,
                    {
                        b = b.answer(&records[k]);
                        assert(start + kept.take(k + 1) =~= (start + kept.take(k as int)).push(
                            records@[k as int]@,
                        ));
                        k = k + 1;
                    }
                    assert(kept.take(k as int) =~= kept);
                    assert(views.take(i + 1).drop_last() =~= views.take(i as int));
                    assert(views.take(i + 1).last() == views[i as int]);
                },
            }
            i = i + 1;
        }
        assert(views.take(i as int) =~= views);
        match b.build() {
            Ok(m) => Ok(m),
            Err(e) => Err(Error::DnsParse(e)),
        }
    }

    /// Answers the query from the cache: the response is built, encoded and
    /// made the octets to send, and the query has its response.  When that
    /// cannot be done the query stays as it is.
    pub fn answer_from_cache(&mut self, cache: &Cache) -> (r: Result<(), Error>)
        requires
            old(self).wf(),
            cache.wf(),
        ensures
            final(self).wf(),
            r == old(self)@.cache_result(cache@),
            r is Err ==> final(self)@ == old(self)@,
            r is Ok ==> final(self)@ == (QueryView {
                phase: QueryPhase::ResponseReady,
                ..old(self)@.loaded(
                    wire::emit_message(cached_response(old(self)@.message->0, cache@)),
                )
            }),
    {
        let response = match self.build_cached_response(cache) {
            Err(e) => {
                return Err(e);
            },
            Ok(m) => m,
        };
        let bytes = match response.write() {
            Err(e) => {
                return Err(Error::DnsParse(e));
            },
            Ok(b) => b,
        };
        match self.copy_message_bytes(bytes.as_slice()) {
            Err(e) => Err(e),
            Ok(()) => {
                self.phase = QueryPhase::ResponseReady;
                Ok(())
            },
        }
    }

    /// Puts the answers of the sub-query with the handle `t` into the
    /// cache, each under its own name.  With no such sub-query the cache
    /// stays as it is.
    pub fn add_to_cache(&self, t: usize, cache: &mut Cache)
        requires
            old(cache).wf(),
        ensures
            final(cache).wf(),
            self@.find(t) == self@.upstreams.len() ==> final(cache)@ == old(cache)@,
            self@.find(t) < self@.upstreams.len() ==> exists|now: u64|
                final(cache)@ == #[trigger] with_records(
                    old(cache)@,
                    self@.upstreams[self@.find(t)].answer.answers,
                    now,
                ),
    {
        let at = match self.find_upstream(t) {
            None => {
                return ;
            },
            Some(i) => i,
        };
        let us = upstreams_slice(&self.upstreams);
        let answers = us[at].answer.answers();
        let ghost views = record_views(answers@);
        let now = clock_ns() / 1_000_000_000;
        let mut i: usize = 0;
        assert(views.take(0) =~= Seq::empty());
        while i < answers.len()
            invariant
                0 <= i <= answers@.len(),
                cache.wf(),
                views == record_views(answers@),
                cache@ == with_records(old(cache)@, views.take(i as int), now),
            decreases answers@.len() - i,
        {
            let rec = answers[i].clone();
            cache.add_at(answers[i].name_bytes(), rec, now);
            assert(views.take(i + 1).drop_last() =~= views.take(i as int));
            assert(views.take(i + 1).last() == views[i as int]);
            i = i + 1;
        }
        assert(views.take(i as int) =~= views);
        assert(views == self@.upstreams[at as int].answer.answers);
        assert(cache@ == with_records(old(cache)@, self@.upstreams[self@.find(t)].answer.answers, now));
    }
}


/// What one event on a datagram comes to for the query that owns it.
pub enum Step {
    /// The datagram is not one of the query's sub-queries.
    NoUpstream,
    /// The sub-query is not under way, or has its response: nothing is done.
    Ignored,
    /// The step failed.
    Failed(Error),
    /// The request is not out yet.
    Stay,
    /// The request is out; the response is waited for.
    Sent,
    /// The response is there.
    Done(MessageView),
}

impl QueryView {
    /// What an event with the readiness `events` and the socket outcome
    /// `io` on the datagram `d` comes to.
    ///
    /// A sub-query that sends its request goes on to wait once the datagram
    /// reports as many octets sent as the query has to send, stays where it
    /// is on fewer, and fails on anything else.  A sub-query that waits has
    /// its response once the datagram reports octets received that parse
    /// to a message with the transaction id of the query, and fails on
    /// anything else.
    #[verifier::opaque]
    pub open spec fn step(self, d: DatagramView, events: EventSet, io: IoResult) -> Step {
        let i = self.find(d.token);
        if i >= self.upstreams.len() {
            Step::NoUpstream
        } else if self.upstreams[i].phase == QueryPhase::Waiting || self.upstreams[i].phase
            == QueryPhase::ResponseReady {
            Step::Ignored
        } else {
            match d.response(events, io) {
                Err(e) => Step::Failed(e),
                Ok(resp) => if self.upstreams[i].phase == QueryPhase::SendRequest {
                    match resp {
                        EventResponse::Tx(Some(n)) => if n == self.buf.visible().len() {
                            Step::Sent
                        } else if n < self.buf.visible().len() {
                            Step::Stay
                        } else {
                            Step::Failed(Error::InvalidResponse)
                        },
                        _ => Step::Failed(Error::InvalidResponse),
                    }
                } else {
                    match resp {
                        EventResponse::Rx(Some(_)) => match wire::parse_message(
                            d.stepped(events, io).buf.visible(),
                        ) {
                            Err(e) => Step::Failed(Error::DnsParse(e)),
                            Ok(m) => match self.message {
                                None => Step::Failed(Error::QueryStateError),
                                Some(q) => if q.tx_id != m.tx_id {
                                    Step::Failed(Error::InvalidTxId)
                                } else {
                                    Step::Done(m)
                                },
                            },
                        },
                        _ => Step::Failed(Error::InvalidResponse),
                    }
                },
            }
        }
    }

    /// What `datagram_event` reports: whether the query has its response.
    pub open spec fn step_result(self, d: DatagramView, events: EventSet, io: IoResult) -> Result<
        bool,
        Error,
    > {
        match self.step(d, events, io) {
            Step::NoUpstream => Err(Error::NoUpstream),
            Step::Failed(e) => Err(e),
            Step::Done(_) => Ok(true),
            _ => Ok(false),
        }
    }

    /// The query after the event; `end_time` is what the clock said when
    /// the response was there.
    pub open spec fn step_query(
        self,
        d: DatagramView,
        events: EventSet,
        io: IoResult,
        end_time: u64,
    ) -> QueryView {
        let i = self.find(d.token);
        match self.step(d, events, io) {
            Step::Sent => QueryView {
                upstreams: self.upstreams.update(
                    i,
                    UpstreamView { phase: QueryPhase::WaitResponse, ..self.upstreams[i] },
                ),
                ..self
            },
            Step::Done(m) => QueryView {
                upstreams: self.upstreams.update(
                    i,
                    UpstreamView {
                        answer: m,
                        phase: QueryPhase::ResponseReady,
                        end_time,
                        ..self.upstreams[i]
                    },
                ),
                phase: QueryPhase::ResponseReady,
                ..self.loaded(d.stepped(events, io).buf.visible())
            },
            _ => self,
        }
    }

    /// The datagram after the event.
    pub open spec fn step_datagram(self, d: DatagramView, events: EventSet, io: IoResult) -> DatagramView {
        match self.step(d, events, io) {
            Step::NoUpstream => d,
            Step::Ignored => d,
            Step::Sent => d.stepped(events, io).receiving(),
            Step::Done(_) => d.stepped(events, io).idle(),
            _ => d.stepped(events, io),
        }
    }
}

/// An event moves no sub-query but the one it is for, and that one only
/// along the order of the phases, one phase at most: no phase comes again.
/// Neither sub-queries nor handles come or go.
pub proof fn lemma_step_advances(
    q: QueryView,
    d: DatagramView,
    events: EventSet,
    io: IoResult,
    end_time: u64,
)
    ensures
        q.step_query(d, events, io, end_time).upstreams.len() == q.upstreams.len(),
        q.step_query(d, events, io, end_time).tokens() == q.tokens(),
        forall|j: int|
            0 <= j < q.upstreams.len() ==> may_step(
                q.upstreams[j].phase,
                #[trigger] q.step_query(d, events, io, end_time).upstreams[j].phase,
            ),
        forall|j: int|
            0 <= j < q.upstreams.len() && j != q.find(d.token) ==> #[trigger] q.step_query(
                d,
                events,
                io,
                end_time,
            ).upstreams[j] == q.upstreams[j],
        forall|j: int|
            0 <= j < q.upstreams.len() ==> q.upstreams[j].phase.rank() <= (#[trigger] q.step_query(
                d,
                events,
                io,
                end_time,
            ).upstreams[j]).phase.rank() <= q.upstreams[j].phase.rank() + 1,
{
    reveal(QueryView::step);
    lemma_first_index(q.tokens(), d.token);
    assert(q.step_query(d, events, io, end_time).tokens() =~= q.tokens());
}

/// An event gives the query its response exactly when it gives one of the
/// sub-queries its response; no event takes the response away.
pub proof fn lemma_step_ready(
    q: QueryView,
    d: DatagramView,
    events: EventSet,
    io: IoResult,
    end_time: u64,
)
    ensures
        q.step_result(d, events, io) == Ok::<bool, Error>(true) <==> exists|j: int|
            0 <= j < q.upstreams.len() && q.upstreams[j].phase != QueryPhase::ResponseReady
                && (#[trigger] q.step_query(d, events, io, end_time).upstreams[j]).phase
                == QueryPhase::ResponseReady,
        q.step_query(d, events, io, end_time).phase == QueryPhase::ResponseReady <==> q.phase
            == QueryPhase::ResponseReady || q.step_result(d, events, io) == Ok::<bool, Error>(true),
        q.step_result(d, events, io) != Ok::<bool, Error>(true) ==> q.step_query(
            d,
            events,
            io,
            end_time,
        ).phase == q.phase,
{
    reveal(QueryView::step);
    lemma_first_index(q.tokens(), d.token);
    let after = q.step_query(d, events, io, end_time);
    let i = q.find(d.token);
    if q.step_result(d, events, io) == Ok::<bool, Error>(true) {
        assert(after.upstreams[i].phase == QueryPhase::ResponseReady);
    }
}

/// One event as a query meets it: the datagram it is for, the readiness,
/// the outcome of the socket call, and what the clock said.
pub struct Event {
    pub datagram: DatagramView,
    pub events: EventSet,
    pub io: IoResult,
    pub end_time: u64,
}

/// The query after the events of `es`, first to last.
pub open spec fn after_events(q: QueryView, es: Seq<Event>) -> QueryView
    decreases es.len(),
{
    if es.len() == 0 {
        q
    } else {
        after_events(q, es.drop_last()).step_query(
            es.last().datagram,
            es.last().events,
            es.last().io,
            es.last().end_time,
        )
    }
}

/// Whatever events come, in whatever order: the sub-queries stay the same
/// in number and handles, no sub-query ever goes back to a phase that it
/// has left, and a query that has its response keeps it.
pub proof fn lemma_phases_never_go_back(q: QueryView, es: Seq<Event>)
    ensures
        after_events(q, es).tokens() == q.tokens(),
        after_events(q, es).upstreams.len() == q.upstreams.len(),
        forall|j: int|
            0 <= j < q.upstreams.len() ==> q.upstreams[j].phase.rank() <= (
            #[trigger] after_events(q, es).upstreams[j]).phase.rank(),
        q.phase == QueryPhase::ResponseReady ==> after_events(q, es).phase
            == QueryPhase::ResponseReady,
    decreases es.len(),
{
    if es.len() > 0 {
        let before = after_events(q, es.drop_last());
        let e = es.last();
        lemma_phases_never_go_back(q, es.drop_last());
        lemma_step_advances(before, e.datagram, e.events, e.io, e.end_time);
        lemma_step_ready(before, e.datagram, e.events, e.io, e.end_time);
        assert forall|j: int| 0 <= j < q.upstreams.len() implies q.upstreams[j].phase.rank() <= (
        #[trigger] after_events(q, es).upstreams[j]).phase.rank() by {
            assert(q.upstreams[j].phase.rank() <= before.upstreams[j].phase.rank());
        }
    }
}

impl Query {
    /// One step of the state machine: the datagram of one of the
    /// sub-queries was signalled ready with `events`, and the socket call
    /// that the datagram wanted came back with `io`.  Says whether the
    /// query now has its response.
    #[verifier::rlimit(40)]
    pub fn datagram_event(&mut self, datagram: &mut Datagram, events: EventSet, io: IoResult) -> (r:
        Result<bool, Error>)
        requires
            old(self).wf(),
            old(datagram).wf(),
        ensures
            final(self).wf(),
            final(datagram).wf(),
            r == old(self)@.step_result(old(datagram)@, events, io),
            final(datagram)@ == old(self)@.step_datagram(old(datagram)@, events, io),
            final(self)@ == old(self)@.step_query(
                old(datagram)@,
                events,
                io,
                if old(self)@.find(old(datagram)@.token) < old(self)@.upstreams.len() {
                    final(self)@.upstreams[old(self)@.find(old(datagram)@.token)].end_time
                } else {
                    0
                },
            ),
    {
        reveal(QueryView::step);
        let upstream = match self.find_upstream(datagram.token()) {
            None => {
                return Err(Error::NoUpstream);
            },
            Some(i) => i,
        };
        let ghost before = upstream_items(self.upstreams);
        let phase = upstreams_slice(&self.upstreams)[upstream].phase;
        assert(phase == self@.upstreams[upstream as int].phase);
        match phase {
            QueryPhase::SendRequest => {
                let event_response = match datagram.event(events, io) {
                    Err(e) => {
                        return Err(e);
                    },
                    Ok(resp) => resp,
                };
                let sent = match self.send_request_phase(event_response) {
                    Err(e) => {
                        return Err(e);
                    },
                    Ok(sent) => sent,
                };
                if sent {
                    let u = upstream_mut(&mut self.upstreams, upstream);
                    u.phase = QueryPhase::WaitResponse;
                    datagram.set_rx();
                    assert(self@.upstreams =~= old(self)@.upstreams.update(
                        upstream as int,
                        UpstreamView {
                            phase: QueryPhase::WaitResponse,
                            ..old(self)@.upstreams[upstream as int]
                        },
                    ));
                }
                Ok(false)
            },
            QueryPhase::WaitResponse => {
                let event_response = match datagram.event(events, io) {
                    Err(e) => {
                        return Err(e);
                    },
                    Ok(resp) => resp,
                };
                let answer = match self.wait_response_phase(datagram, event_response) {
                    Err(e) => {
                        return Err(e);
                    },
                    Ok(m) => m,
                };
                let ghost answer_view = answer@;
                let now = clock_ns();
                let u = upstream_mut(&mut self.upstreams, upstream);
                u.answer = answer;
                u.end_time = now;
                u.phase = QueryPhase::ResponseReady;
                datagram.set_idle();
                let _ = self.copy_message_bytes(datagram.get_ref());
                self.phase = QueryPhase::ResponseReady;
                assert(self@.upstreams =~= old(self)@.upstreams.update(
                    upstream as int,
                    UpstreamView {
                        answer: answer_view,
                        phase: QueryPhase::ResponseReady,
                        end_time: now,
                        ..old(self)@.upstreams[upstream as int]
                    },
                ));
                Ok(true)
            },
            QueryPhase::ResponseReady => Ok(false),
            QueryPhase::Waiting => Ok(false),
        }
    }

    /// Whether the request is out: the datagram reports as many octets
    /// sent as the query has to send.
    fn send_request_phase(&self, event_response: EventResponse) -> (r: Result<bool, Error>)
        requires
            self.wf(),
        ensures
            r == match event_response {
                EventResponse::Tx(Some(n)) => if n == self@.buf.visible().len() {
                    Ok::<bool, Error>(true)
                } else if n < self@.buf.visible().len() {
                    Ok(false)
                } else {
                    Err(Error::InvalidResponse)
                },
                _ => Err(Error::InvalidResponse),
            },
    {
        match event_response {
            EventResponse::Tx(Some(size)) => {
                let len = self.question_bytes().len();
                if size == len {
                    Ok(true)
                } else if size < len {
                    Ok(false)
                } else {
                    Err(Error::InvalidResponse)
                }
            },
            _ => Err(Error::InvalidResponse),
        }
    }

    /// The response that the datagram holds, if it reports octets received
    /// that parse to a message with the transaction id of the query.
    fn wait_response_phase(&self, datagram: &Datagram, event_response: EventResponse) -> (r: Result<
        Message,
        Error,
    >)
        requires
            datagram.wf(),
        ensures
            match event_response {
                EventResponse::Rx(Some(_)) => match wire::parse_message(datagram@.buf.visible()) {
                    Err(e) => r is Err && r->Err_0 == Error::DnsParse(e),
                    Ok(m) => match self@.message {
                        None => r is Err && r->Err_0 == Error::QueryStateError,
                        Some(q) => if q.tx_id != m.tx_id {
                            r is Err && r->Err_0 == Error::InvalidTxId
                        } else {
                            r is Ok && r->Ok_0@ == m
                        },
                    },
                },
                _ => r is Err && r->Err_0 == Error::InvalidResponse,
            },
    {
        match event_response {
            EventResponse::Rx(Some(_)) => {
                let answer = match Message::new(datagram.get_ref()) {
                    Err(e) => {
                        return Err(Error::DnsParse(e));
                    },
                    Ok(m) => m,
                };
                let tx_id = match &self.message {
                    None => {
                        return Err(Error::QueryStateError);
                    },
                    Some(m) => m.tx_id,
                };
                if tx_id != answer.tx_id {
                    return Err(Error::InvalidTxId);
                }
                Ok(answer)
            },
            _ => Err(Error::InvalidResponse),
        }
    }
}

} // verus!
