use vstd::prelude::*;
use vstd::slice::slice_to_vec;
use std::collections::VecDeque;
use crate::buf::BUF_LEN;
use crate::cache::Cache;
use crate::cache::EntryView;
use crate::datagram::DatagramView;
use crate::errors::Error;
use crate::net::EventSet;
use crate::net::IoRequest;
use crate::net::IoResult;
use crate::net::PollOpt;
use crate::net::SocketAddr;
use crate::query::with_records;
use crate::query::all_hit;
use crate::query::cached_response;
use crate::query::UpstreamView;
use crate::query::MAX_UPSTREAMS;
use crate::slots::datagrams_count;
use crate::wire;
use crate::wire::MessageView;
use crate::query::Query;
use crate::query::QueryPhase;
use crate::query::QueryView;
use crate::query::Step;
use crate::query::Timeout;
use crate::slots::datagram_first;
use crate::slots::datagram_limit;
use crate::slots::datagram_slots;
use crate::slots::datagrams_get;
use crate::slots::datagrams_get_mut;
use crate::slots::datagrams_insert;
use crate::slots::datagrams_new;
use crate::slots::datagrams_remove;
use crate::slots::queries_get;
use crate::slots::queries_get_mut;
use crate::slots::queries_insert;
use crate::slots::queries_new;
use crate::slots::queries_remove;
use crate::slots::query_first;
use crate::slots::query_limit;
use crate::slots::query_slots;
use crate::slots::DatagramSlab;
use crate::slots::QuerySlab;

verus! {

/// The handle of the server socket.
pub const SERVER: usize = 1;

/// The most queries that are under way at a time.
pub const NUM_CONCURRENT_QUERIES: usize = 256;

/// The most upstream datagrams that are under way at a time.
pub const DATAGRAM_BUF_SIZE: usize = 512;

/// The first handle of a query.
pub const FIRST_QUERY: usize = 0;

/// The first handle of an upstream datagram.
pub const FIRST_DATAGRAM: usize = 2;

/// How long a query may take, in milliseconds.
pub const QUERY_TIMEOUT_MS: u64 = 10000;

/// What is said to the dispatcher from outside the loop.
#[derive(Debug, PartialEq, Eq, Clone, Copy, Structural)]
pub enum ServerEvent {
    Quit,
}

/// What the dispatcher asks its caller to do to sockets, timers and the loop.
#[derive(Debug, PartialEq, Eq, Clone, Copy)]
pub enum Action {
    /// Open a socket for the datagram with this handle, to that resolver,
    /// and register it with this interest.
    Register { token: usize, remote: SocketAddr, interest: EventSet, opts: PollOpt },
    /// Register the socket of the datagram anew with this interest.
    Reregister { token: usize, interest: EventSet, opts: PollOpt },
    /// Take the socket of the datagram off the loop and close it.
    Deregister { token: usize },
    /// Arm a timeout that fires with the handle of the query.
    SetTimeout { query: usize, timeout: Timeout, delay_ms: u64 },
    /// Clear an armed timeout.
    ClearTimeout { timeout: Timeout },
    /// Register the server socket anew with this interest, level-triggered.
    ReregisterServer { interest: EventSet },
    /// Tell the loop to stop.
    Shutdown,
}

/// What the dispatcher asks its caller to do to sockets before an event is
/// handed in.
#[derive(Debug)]
pub struct Plan {
    /// Whether to receive on the socket that the event is for.
    pub receive: bool,
    /// The octets to send on that socket, and where to.
    pub send: Option<(Vec<u8>, SocketAddr)>,
}

/// The dispatcher: the queries and upstream datagrams that are under way,
/// the cache, the queries that wait to be answered, and the resolvers.
#[derive(Debug)]
pub struct Server {
    cache: Cache,
    datagrams: DatagramSlab,
    upstreams: Vec<SocketAddr>,
    queries: QuerySlab,
    outgoing_queries: VecDeque<usize>,
    interest: EventSet,
}

/// The dispatcher as mathematics.
pub struct ServerView {
    pub cache: Map<Seq<u8>, EntryView>,
    pub datagrams: Map<usize, DatagramView>,
    pub queries: Map<usize, QueryView>,
    pub upstreams: Seq<SocketAddr>,
    pub outgoing: Seq<usize>,
    /// The interest that the server socket is registered with.
    pub interest: EventSet,
}

/// The interest of the server socket: always readable, and writable when
/// there are queries that wait to be answered.
pub open spec fn server_interest(outgoing: Seq<usize>) -> EventSet {
    EventSet { readable: true, writable: outgoing.len() > 0 }
}

impl ServerView {
    /// Every query and every datagram is in order and sits under its own
    /// handle, within the handles of its slab.
    pub open spec fn sound(self) -> bool {
        &&& forall|t: usize| #[trigger]
            self.queries.contains_key(t) ==> self.queries[t].valid() && self.queries[t].token == t
                && FIRST_QUERY <= t < FIRST_QUERY + NUM_CONCURRENT_QUERIES
        &&& forall|t: usize| #[trigger]
            self.datagrams.contains_key(t) ==> self.datagrams[t].valid() && self.datagrams[t].token
                == t && FIRST_DATAGRAM <= t < FIRST_DATAGRAM + DATAGRAM_BUF_SIZE
    }

    /// Every datagram belongs to a query that is under way, that has it
    /// among its sub-queries and that has no response yet.
    pub open spec fn owned(self) -> bool {
        forall|t: usize| #[trigger]
            self.datagrams.contains_key(t) ==> self.queries.contains_key(
                self.datagrams[t].query_token,
            ) && self.queries[self.datagrams[t].query_token].tokens().contains(t)
                && self.queries[self.datagrams[t].query_token].phase != QueryPhase::ResponseReady
    }

    /// The queries that wait to be answered are under way, have their
    /// response and no timeout, and none waits twice.
    pub open spec fn queued(self) -> bool {
        &&& forall|i: int|
            0 <= i < self.outgoing.len() ==> self.queries.contains_key(#[trigger] self.outgoing[i])
                && self.queries[self.outgoing[i]].phase == QueryPhase::ResponseReady
                && self.queries[self.outgoing[i]].timeout is None
        &&& forall|i: int, j: int|
            0 <= i < j < self.outgoing.len() ==> self.outgoing[i] != self.outgoing[j]
    }

    /// What holds of the dispatcher at all times.
    pub open spec fn valid(self) -> bool {
        self.sound() && self.owned() && self.queued()
    }

    /// Whether the server socket is registered as the queue of waiting
    /// queries asks: writable exactly when a query waits to be answered.
    pub open spec fn settled(self) -> bool {
        self.interest == server_interest(self.outgoing)
    }

    /// Whether the datagram with the handle `t` is under way for a query
    /// that is under way.
    pub open spec fn live(self, t: usize) -> bool {
        self.datagrams.contains_key(t) && self.queries.contains_key(self.datagrams[t].query_token)
    }
}

impl View for Server {
    type V = ServerView;

    closed spec fn view(&self) -> ServerView {
        ServerView {
            cache: self.cache@,
            datagrams: datagram_slots(self.datagrams),
            queries: query_slots(self.queries),
            upstreams: self.upstreams@,
            outgoing: self.outgoing_queries@,
            interest: self.interest,
        }
    }
}

impl Server {
    /// The slabs are the two that `new` made, the cache is in order, and
    /// every query and datagram is in order.
    pub closed spec fn inner(&self) -> bool {
        &&& self.cache.wf()
        &&& query_first(self.queries) == FIRST_QUERY
        &&& query_limit(self.queries) == NUM_CONCURRENT_QUERIES
        &&& datagram_first(self.datagrams) == FIRST_DATAGRAM
        &&& datagram_limit(self.datagrams) == DATAGRAM_BUF_SIZE
        &&& query_slots(self.queries).dom().finite()
        &&& datagram_slots(self.datagrams).dom().finite()
        &&& self@.sound()
    }

    /// The dispatcher is in order, whatever the server socket is
    /// registered with.
    pub closed spec fn steady(&self) -> bool {
        self.inner() && self@.valid()
    }

    /// The invariant of the dispatcher between any two events: it is in
    /// order, and the server socket is registered as the queue of waiting
    /// queries asks.
    pub closed spec fn wf(&self) -> bool {
        self.steady() && self@.settled()
    }

    /// Between any two events the view of the dispatcher is valid, and the
    /// server socket has writable interest exactly when a query waits to
    /// be answered.
    pub proof fn lemma_wf(&self)
        requires
            self.wf(),
        ensures
            self.steady(),
            self@.valid(),
            self@.settled(),
            self@.interest.readable,
            self@.interest.writable <==> self@.outgoing.len() > 0,
    {
    }

    /// A dispatcher with nothing under way, an empty cache, and the
    /// resolvers `upstreams` to ask.
    pub fn new(upstreams: Vec<SocketAddr>) -> (s: Server)
        ensures
            s.wf(),
            s@ == (ServerView {
                cache: Map::empty(),
                datagrams: Map::empty(),
                queries: Map::empty(),
                upstreams: upstreams@,
                outgoing: Seq::empty(),
                interest: EventSet { readable: true, writable: false },
            }),
    {
        let s = Server {
            cache: Cache::new(),
            datagrams: datagrams_new(FIRST_DATAGRAM, DATAGRAM_BUF_SIZE),
            queries: queries_new(FIRST_QUERY, NUM_CONCURRENT_QUERIES),
            upstreams,
            outgoing_queries: VecDeque::with_capacity(NUM_CONCURRENT_QUERIES),
            interest: EventSet::readable(),
        };
        assert(s@.datagrams =~= Map::empty());
        assert(s@.queries =~= Map::empty());
        assert(s@.outgoing =~= Seq::empty());
        s
    }

    /// The two public resolvers that are asked when no others are named.
    pub fn default_upstreams() -> (v: Vec<SocketAddr>)
        ensures
            v@ == seq![
                SocketAddr { ip: [8u8, 8u8, 8u8, 8u8], port: 53 },
                SocketAddr { ip: [8u8, 8u8, 4u8, 4u8], port: 53 },
            ],
    {
        let mut v: Vec<SocketAddr> = Vec::new();
        v.push(SocketAddr { ip: [8u8, 8u8, 8u8, 8u8], port: 53 });
        v.push(SocketAddr { ip: [8u8, 8u8, 4u8, 4u8], port: 53 });
        v
    }

    /// A message from outside the loop: `Quit` stops the loop.
    pub fn notify(&mut self, msg: ServerEvent) -> (actions: Vec<Action>)
        ensures
            *final(self) == *old(self),
            actions@ == seq![Action::Shutdown],
    {
        let mut actions: Vec<Action> = Vec::new();
        match msg {
            ServerEvent::Quit => {
                actions.push(Action::Shutdown);
            },
        }
        actions
    }

    /// The loop was interrupted: it is stopped.
    pub fn interrupted(&mut self) -> (actions: Vec<Action>)
        ensures
            *final(self) == *old(self),
            actions@ == seq![Action::Shutdown],
    {
        let mut actions: Vec<Action> = Vec::new();
        actions.push(Action::Shutdown);
        actions
    }
}


/// The two things asked for the socket of a datagram that is torn down:
/// no interest any more, and off the loop.
pub open spec fn release_actions(t: usize) -> Seq<Action> {
    seq![
        Action::Reregister {
            token: t,
            interest: EventSet { readable: false, writable: false },
            opts: PollOpt { edge: false, level: false, oneshot: false },
        },
        Action::Deregister { token: t },
    ]
}

/// The datagrams without those that the query `qt` has under the handles
/// `tokens`, and what is asked for their sockets, in the order of the
/// handles.  A handle under which another query has a datagram, or nobody
/// has one, is passed over.
pub open spec fn release(datagrams: Map<usize, DatagramView>, qt: usize, tokens: Seq<usize>) -> (
    Map<usize, DatagramView>,
    Seq<Action>,
)
    decreases tokens.len(),
{
    if tokens.len() == 0 {
        (datagrams, Seq::empty())
    } else {
        let (left, asked) = release(datagrams, qt, tokens.drop_last());
        let t = tokens.last();
        if left.contains_key(t) && left[t].query_token == qt {
            (left.remove(t), asked + release_actions(t))
        } else {
            (left, asked)
        }
    }
}

/// What is asked for the timeout of a query that is torn down.
pub open spec fn timeout_actions(timeout: Option<Timeout>) -> Seq<Action> {
    match timeout {
        Some(t) => seq![Action::ClearTimeout { timeout: t }],
        None => Seq::empty(),
    }
}

impl ServerView {
    /// The dispatcher after the query `qt` was torn down: its datagrams
    /// are gone and it has no timeout.  The slot of the query is kept.
    pub open spec fn torn_down(self, qt: usize) -> ServerView {
        if self.queries.contains_key(qt) {
            ServerView {
                datagrams: release(self.datagrams, qt, self.queries[qt].tokens()).0,
                queries: self.queries.insert(qt, QueryView { timeout: None, ..self.queries[qt] }),
                ..self
            }
        } else {
            self
        }
    }

    /// What tearing down the query `qt` asks of the caller.
    pub open spec fn tear_down_actions(self, qt: usize) -> Seq<Action> {
        if self.queries.contains_key(qt) {
            release(self.datagrams, qt, self.queries[qt].tokens()).1 + timeout_actions(
                self.queries[qt].timeout,
            )
        } else {
            Seq::empty()
        }
    }
}

/// After the datagrams of a query were released, the query has no datagram
/// under any of its handles; the datagrams of other queries, and those
/// under other handles, are where they were.
pub proof fn lemma_release(datagrams: Map<usize, DatagramView>, qt: usize, tokens: Seq<usize>)
    ensures
        forall|i: int|
            0 <= i < tokens.len() ==> !(release(datagrams, qt, tokens).0.contains_key(
                #[trigger] tokens[i],
            ) && release(datagrams, qt, tokens).0[tokens[i]].query_token == qt),
        forall|t: usize| #[trigger]
            release(datagrams, qt, tokens).0.contains_key(t) ==> datagrams.contains_key(t)
                && release(datagrams, qt, tokens).0[t] == datagrams[t],
        forall|t: usize|
            datagrams.contains_key(t) && !(datagrams[t].query_token == qt && tokens.contains(t))
                ==> #[trigger] release(datagrams, qt, tokens).0.contains_key(t),
    decreases tokens.len(),
{
    if tokens.len() > 0 {
        let front = tokens.drop_last();
        lemma_release(datagrams, qt, front);
        let left = release(datagrams, qt, front).0;
        let after = release(datagrams, qt, tokens).0;
        assert forall|i: int| 0 <= i < tokens.len() implies !(after.contains_key(
            #[trigger] tokens[i],
        ) && after[tokens[i]].query_token == qt) by {
            if i < front.len() {
                assert(front[i] == tokens[i]);
            }
        }
        assert forall|t: usize|
            datagrams.contains_key(t) && !(datagrams[t].query_token == qt && tokens.contains(
                t,
            )) implies #[trigger] after.contains_key(t) by {
            if datagrams[t].query_token == qt {
                assert(!tokens.contains(t));
                assert forall|j: int| 0 <= j < front.len() implies front[j] != t by {
                    assert(front[j] == tokens[j]);
                }
                assert(tokens.last() != t) by {
                    assert(tokens[tokens.len() - 1] == tokens.last());
                }
            } else {
                assert(left.contains_key(t));
            }
        }
    }
}

/// Tearing down a query takes its datagrams out of the slab, every one
/// that it has under one of its handles, and leaves it without a timeout.
pub proof fn lemma_torn_down(v: ServerView, qt: usize)
    requires
        v.queries.contains_key(qt),
    ensures
        v.torn_down(qt).queries[qt].timeout is None,
        forall|i: int|
            0 <= i < v.queries[qt].tokens().len() ==> !(v.torn_down(qt).datagrams.contains_key(
                #[trigger] v.queries[qt].tokens()[i],
            ) && v.torn_down(qt).datagrams[v.queries[qt].tokens()[i]].query_token == qt),
{
    lemma_release(v.datagrams, qt, v.queries[qt].tokens());
}

impl Server {
    /// Tears down the query with the handle `t`: every datagram that it
    /// has under way is taken out, and its timeout is cleared.  The query
    /// keeps its slot.  With no such query nothing is done.
    #[verifier::rlimit(40)]
    fn destroy_query(&mut self, t: usize) -> (actions: Vec<Action>)
        requires
            old(self).inner(),
        ensures
            final(self).inner(),
            old(self).steady() ==> final(self).steady(),
            final(self)@ == old(self)@.torn_down(t),
            actions@ == old(self)@.tear_down_actions(t),
    {
        let mut actions: Vec<Action> = Vec::new();
        if t >= FIRST_QUERY + NUM_CONCURRENT_QUERIES {
            return actions;
        }
        let tokens = match queries_get(&self.queries, t) {
            None => {
                return actions;
            },
            Some(q) => q.upstream_tokens(),
        };
        let ghost start = self@.datagrams;
        let mut i: usize = 0;
        assert(tokens@.take(0) =~= Seq::empty());
        while i < tokens.len()
            invariant
                0 <= i <= tokens@.len(),
                self.inner(),
                t < FIRST_QUERY + NUM_CONCURRENT_QUERIES,
                self.queries == old(self).queries,
                query_slots(self.queries).contains_key(t),
                tokens@ == old(self)@.queries[t].tokens(),
                self@ == (ServerView {
                    datagrams: release(start, t, tokens@.take(i as int)).0,
                    ..old(self)@
                }),
                actions@ == release(start, t, tokens@.take(i as int)).1,
            decreases tokens@.len() - i,
        {
            let token = tokens[i];
            let ghost left = self@.datagrams;
            proof {
                assert(tokens@.take(i + 1).drop_last() =~= tokens@.take(i as int));
                assert(tokens@.take(i + 1).last() == token);
            }
            if token < FIRST_DATAGRAM + DATAGRAM_BUF_SIZE {
                let owned = match datagrams_get(&self.datagrams, token) {
                    None => false,
                    Some(d) => d.query_token() == t,
                };
                if owned {
                    let _ = datagrams_remove(&mut self.datagrams, token);
                    actions.push(
                        Action::Reregister {
                            token,
                            interest: EventSet::none(),
                            opts: PollOpt::empty(),
                        },
                    );
                    actions.push(Action::Deregister { token });
                    proof {
                        assert(self@.datagrams =~= left.remove(token));
                        assert(actions@ =~= release(start, t, tokens@.take(i as int)).1
                            + release_actions(token));
                    }
                }
            }
            i = i + 1;
        }
        assert(tokens@.take(i as int) =~= tokens@);
        let ghost mid = self@;
        let q = queries_get_mut(&mut self.queries, t);
        match q.take_timeout() {
            Some(timeout) => {
                actions.push(Action::ClearTimeout { timeout });
            },
            None => {},
        }
        proof {
            assert(self@.queries =~= mid.queries.insert(
                t,
                QueryView { timeout: None, ..mid.queries[t] },
            ));
            assert(self@.datagrams == mid.datagrams);
            assert(query_slots(self.queries).dom() =~= query_slots(old(self).queries).dom());
            assert(mid.sound());
            assert forall|k: usize| #[trigger] self@.queries.contains_key(k) implies self@.queries[k].valid()
                && self@.queries[k].token == k && FIRST_QUERY <= k < FIRST_QUERY
                + NUM_CONCURRENT_QUERIES by {
                assert(mid.queries.contains_key(k));
            }
            if old(self).steady() {
                lemma_torn_down_valid(old(self)@, t);
            }
        }
        actions
    }
}

/// Tearing down a query leaves the dispatcher in order.
pub proof fn lemma_torn_down_valid(v: ServerView, qt: usize)
    requires
        v.valid(),
    ensures
        v.torn_down(qt).owned(),
        v.torn_down(qt).queued(),
{
    if v.queries.contains_key(qt) {
        let after = v.torn_down(qt);
        lemma_release(v.datagrams, qt, v.queries[qt].tokens());
        assert forall|k: usize| #[trigger] after.datagrams.contains_key(k) implies after.queries.contains_key(
            after.datagrams[k].query_token,
        ) && after.queries[after.datagrams[k].query_token].tokens().contains(k)
            && after.queries[after.datagrams[k].query_token].phase
            != QueryPhase::ResponseReady by {
            assert(v.datagrams.contains_key(k));
            assert(v.queries.contains_key(v.datagrams[k].query_token));
        }
        assert forall|j: int| 0 <= j < after.outgoing.len() implies after.queries.contains_key(
            #[trigger] after.outgoing[j],
        ) && after.queries[after.outgoing[j]].phase == QueryPhase::ResponseReady
            && after.queries[after.outgoing[j]].timeout is None by {
            assert(v.queries.contains_key(v.outgoing[j]));
        }
    }
}

impl ServerView {
    /// Whether nothing of the query `qt` is left but its slot: it has no
    /// datagram under way and does not wait to be answered.
    pub open spec fn loose(self, qt: usize) -> bool {
        &&& forall|t: usize| #[trigger]
            self.datagrams.contains_key(t) ==> self.datagrams[t].query_token != qt
        &&& forall|i: int| 0 <= i < self.outgoing.len() ==> #[trigger] self.outgoing[i] != qt
    }

    /// The dispatcher after the timeout of the query `qt` fired.  A query
    /// that is under way with a timeout armed is torn down and its slot is
    /// freed; for any other handle nothing is done.
    pub open spec fn timed_out(self, qt: usize) -> ServerView {
        if self.queries.contains_key(qt) && self.queries[qt].timeout is Some {
            ServerView { queries: self.queries.remove(qt), ..self.torn_down(qt) }
        } else {
            self
        }
    }

    /// What the timeout of the query `qt` asks of the caller.
    pub open spec fn timeout_asks(self, qt: usize) -> Seq<Action> {
        if self.queries.contains_key(qt) && self.queries[qt].timeout is Some {
            self.tear_down_actions(qt)
        } else {
            Seq::empty()
        }
    }

    /// What became of sending the response at the front of the queue, for
    /// the outcome `send` of the send: the handle of the query if all of
    /// the response went out.
    pub open spec fn outgoing_result(self, send: IoResult) -> Result<Option<usize>, Error> {
        if self.outgoing.len() == 0 {
            Err(Error::QueryStateError)
        } else if self.queries[self.outgoing[0]].addr is None {
            Err(Error::NoClientAddress)
        } else {
            match send {
                IoResult::Sent(n) => if n == self.queries[self.outgoing[0]].buf.visible().len() {
                    Ok(Some(self.outgoing[0]))
                } else {
                    Ok(None)
                },
                IoResult::Failed => Err(Error::Io),
                IoResult::Received(_, _) => Err(Error::InvalidState),
                _ => Ok(None),
            }
        }
    }

    /// The query that leaves the queue when the server socket was writable
    /// and the send came back with `send`: the one at the front, once all
    /// of its response is out, or at once if it has nobody to answer to.
    pub open spec fn leaving(self, send: IoResult) -> Option<usize> {
        match self.outgoing_result(send) {
            Ok(Some(qt)) => Some(qt),
            Err(Error::NoClientAddress) => Some(self.outgoing[0]),
            _ => None,
        }
    }

    /// The dispatcher after the server socket was writable and the send
    /// came back with `send`: the query that leaves the queue is torn down
    /// and gives up its slot.
    pub open spec fn written(self, send: IoResult) -> ServerView {
        match self.leaving(send) {
            Some(qt) => {
                let popped = ServerView { outgoing: self.outgoing.skip(1), ..self };
                ServerView { queries: popped.queries.remove(qt), ..popped.torn_down(qt) }
            },
            None => self,
        }
    }

    /// What a writable server socket asks of the caller.
    pub open spec fn written_asks(self, send: IoResult) -> Seq<Action> {
        match self.leaving(send) {
            Some(qt) => self.tear_down_actions(qt),
            None => Seq::empty(),
        }
    }
}

impl Server {
    /// Frees the slot of the query `qt`, of which nothing else is left.
    fn release_query(&mut self, qt: usize)
        requires
            old(self).steady(),
            old(self)@.queries.contains_key(qt),
            old(self)@.loose(qt),
        ensures
            final(self).steady(),
            final(self)@ == (ServerView { queries: old(self)@.queries.remove(qt), ..old(self)@ }),
    {
        let _ = queries_remove(&mut self.queries, qt);
        proof {
            let before = old(self)@;
            assert(self@.queries =~= before.queries.remove(qt));
            assert forall|k: usize| #[trigger] self@.queries.contains_key(k) implies self@.queries[k].valid()
                && self@.queries[k].token == k && FIRST_QUERY <= k < FIRST_QUERY
                + NUM_CONCURRENT_QUERIES by {
                assert(before.queries.contains_key(k));
            }
            assert forall|k: usize| #[trigger] self@.datagrams.contains_key(k) implies self@.queries.contains_key(
                self@.datagrams[k].query_token,
            ) && self@.queries[self@.datagrams[k].query_token].tokens().contains(k)
                && self@.queries[self@.datagrams[k].query_token].phase
                != QueryPhase::ResponseReady by {
                assert(before.datagrams.contains_key(k));
                assert(before.queries.contains_key(before.datagrams[k].query_token));
            }
            assert forall|j: int| 0 <= j < self@.outgoing.len() implies self@.queries.contains_key(
                #[trigger] self@.outgoing[j],
            ) && self@.queries[self@.outgoing[j]].phase == QueryPhase::ResponseReady
                && self@.queries[self@.outgoing[j]].timeout is None by {
                assert(before.queries.contains_key(before.outgoing[j]));
            }
        }
    }

    /// The timeout of the query with the handle `query_token` fired: a
    /// query that is under way with a timeout armed is torn down and gives
    /// up its slot.  For any other handle nothing is done.
    #[verifier::rlimit(40)]
    pub fn timeout(&mut self, query_token: usize) -> (actions: Vec<Action>)
        requires
            old(self).wf(),
        ensures
            final(self).wf(),
            final(self)@ == old(self)@.timed_out(query_token),
            actions@ == old(self)@.timeout_asks(query_token),
    {
        if query_token >= FIRST_QUERY + NUM_CONCURRENT_QUERIES {
            return Vec::new();
        }
        let armed = match queries_get(&self.queries, query_token) {
            None => false,
            Some(q) => q.timeout().is_some(),
        };
        if !armed {
            return Vec::new();
        }
        let actions = self.destroy_query(query_token);
        proof {
            let before = old(self)@;
            lemma_release(before.datagrams, query_token, before.queries[query_token].tokens());
            assert forall|t: usize| #[trigger] self@.datagrams.contains_key(t) implies self@.datagrams[t].query_token
                != query_token by {
                if self@.datagrams[t].query_token == query_token {
                    assert(before.datagrams.contains_key(t));
                    let i = choose|i: int|
                        0 <= i < before.queries[query_token].tokens().len()
                            && before.queries[query_token].tokens()[i] == t;
                    assert(before.queries[query_token].tokens()[i] == t);
                }
            }
            assert forall|i: int| 0 <= i < self@.outgoing.len() implies #[trigger] self@.outgoing[i]
                != query_token by {
                assert(before.queries.contains_key(before.outgoing[i]));
            }
        }
        self.release_query(query_token);
        assert(self@.queries =~= old(self)@.queries.remove(query_token));
        actions
    }

    /// What became of sending the response at the front of the queue: the
    /// handle of its query if all of the response went out.
    pub fn outgoing_query_event(&self, send: IoResult) -> (r: Result<Option<usize>, Error>)
        requires
            self.steady(),
        ensures
            r == self@.outgoing_result(send),
    {
        if self.outgoing_queries.len() == 0 {
            return Err(Error::QueryStateError);
        }
        let qt = self.outgoing_queries[0];
        assert(self@.queries.contains_key(self@.outgoing[0]));
        let q = match queries_get(&self.queries, qt) {
            None => {
                return Err(Error::QueryStateError);
            },
            Some(q) => q,
        };
        if q.get_addr().is_none() {
            return Err(Error::NoClientAddress);
        }
        match send {
            IoResult::Sent(size) => {
                if size == q.question_bytes().len() {
                    Ok(Some(qt))
                } else {
                    Ok(None)
                }
            },
            IoResult::Failed => Err(Error::Io),
            IoResult::Received(_, _) => Err(Error::InvalidState),
            _ => Ok(None),
        }
    }

    /// The server socket was writable and the send of the response at the
    /// front of the queue came back with `send`.
    #[verifier::rlimit(40)]
    fn server_writable(&mut self, send: IoResult) -> (actions: Vec<Action>)
        requires
            old(self).steady(),
        ensures
            final(self).steady(),
            final(self)@ == old(self)@.written(send),
            actions@ == old(self)@.written_asks(send),
    {
        let qt = match self.outgoing_query_event(send) {
            Ok(Some(qt)) => qt,
            Err(Error::NoClientAddress) => self.outgoing_queries[0],
            _ => {
                return Vec::new();
            },
        };
        let ghost before = self@;
        assert(before.queries.contains_key(before.outgoing[0]));
        let _ = self.outgoing_queries.pop_front();
        proof {
            assert(self@.outgoing =~= before.outgoing.skip(1));
            assert(self@ == (ServerView { outgoing: before.outgoing.skip(1), ..before }));
            assert forall|j: int| 0 <= j < self@.outgoing.len() implies self@.queries.contains_key(
                #[trigger] self@.outgoing[j],
            ) && self@.queries[self@.outgoing[j]].phase == QueryPhase::ResponseReady
                && self@.queries[self@.outgoing[j]].timeout is None by {
                assert(self@.outgoing[j] == before.outgoing[j + 1]);
            }
            assert forall|i: int, j: int| 0 <= i < j < self@.outgoing.len() implies self@.outgoing[i]
                != self@.outgoing[j] by {
                assert(self@.outgoing[i] == before.outgoing[i + 1]);
                assert(self@.outgoing[j] == before.outgoing[j + 1]);
            }
        }
        let ghost popped = self@;
        let actions = self.destroy_query(qt);
        proof {
            lemma_release(popped.datagrams, qt, popped.queries[qt].tokens());
            assert forall|t: usize| #[trigger] self@.datagrams.contains_key(t) implies self@.datagrams[t].query_token
                != qt by {
                if self@.datagrams[t].query_token == qt {
                    assert(popped.datagrams.contains_key(t));
                    let i = choose|i: int|
                        0 <= i < popped.queries[qt].tokens().len() && popped.queries[qt].tokens()[i]
                            == t;
                    assert(popped.queries[qt].tokens()[i] == t);
                }
            }
            assert forall|i: int| 0 <= i < self@.outgoing.len() implies #[trigger] self@.outgoing[i]
                != qt by {
                assert(self@.outgoing[i] == before.outgoing[i + 1]);
            }
        }
        self.release_query(qt);
        assert(self@.queries =~= before.queries.remove(qt));
        actions
    }
}


impl ServerView {
    /// Whether `data` is what a receive that came back with `io` can have
    /// put into the room of the datagram `d`.
    pub open spec fn fits(d: DatagramView, io: IoResult, data: Seq<u8>) -> bool {
        io matches IoResult::Received(n, _) && n == data.len() && n <= d.buf.remaining()
    }

    /// The socket outcome as the datagram with the handle `token` is told
    /// it: a receive whose octets are not handed in with it, or do not fit
    /// the room, counts as failed.
    pub open spec fn told(self, token: usize, events: EventSet, io: IoResult, data: Seq<u8>) -> IoResult {
        let d = self.datagrams[token];
        if io is Received && d.wants(events) == Ok::<IoRequest, Error>(IoRequest::Receive)
            && !Self::fits(d, io, data) {
            IoResult::Failed
        } else {
            io
        }
    }

    /// The datagram with the handle `token` with the received octets in
    /// the room of its buffer.
    pub open spec fn fed(self, token: usize, events: EventSet, io: IoResult, data: Seq<u8>) -> DatagramView {
        let d = self.datagrams[token];
        if d.wants(events) == Ok::<IoRequest, Error>(IoRequest::Receive) && Self::fits(d, io, data) {
            DatagramView { buf: d.buf.put(data), ..d }
        } else {
            d
        }
    }

    /// What an event on the datagram with the handle `token` comes to for
    /// the query that owns it.
    pub open spec fn datagram_step(self, token: usize, events: EventSet, io: IoResult, data: Seq<u8>) -> Step {
        self.queries[self.datagrams[token].query_token].step(
            self.fed(token, events, io, data),
            events,
            self.told(token, events, io, data),
        )
    }

    /// The dispatcher after the query and the datagram took their step.
    pub open spec fn stepped(
        self,
        token: usize,
        events: EventSet,
        io: IoResult,
        data: Seq<u8>,
        end_time: u64,
    ) -> ServerView {
        let qt = self.datagrams[token].query_token;
        let d = self.fed(token, events, io, data);
        let told = self.told(token, events, io, data);
        ServerView {
            queries: self.queries.insert(qt, self.queries[qt].step_query(d, events, told, end_time)),
            datagrams: self.datagrams.insert(token, self.queries[qt].step_datagram(d, events, told)),
            ..self
        }
    }

    /// Whether the step ends the query: it failed with anything but a
    /// response that bears another transaction id, which is only dropped.
    pub open spec fn ends_query(step: Step) -> bool {
        match step {
            Step::NoUpstream => true,
            Step::Failed(e) => e != Error::InvalidTxId,
            _ => false,
        }
    }

    /// The error that a step ends in, if it does.
    pub open spec fn step_error(step: Step) -> Option<Error> {
        match step {
            Step::NoUpstream => Some(Error::NoUpstream),
            Step::Failed(e) => Some(e),
            _ => None,
        }
    }

    /// The dispatcher after an event on the datagram with the handle
    /// `token`.  An event for a handle that is not live is dropped.  When
    /// the event gives the query its response, the answers go into the
    /// cache, the query joins the queue of those that wait to be answered,
    /// and the query is torn down.  When the event fails, the query is torn
    /// down and gives up its slot, unless what failed is a response that
    /// bears another transaction id, which is dropped and nothing more.
    /// `end_time` and `now` are what the clock said.
    pub open spec fn after_datagram(
        self,
        token: usize,
        events: EventSet,
        io: IoResult,
        data: Seq<u8>,
        end_time: u64,
        now: u64,
    ) -> ServerView {
        if !self.live(token) {
            self
        } else {
            let qt = self.datagrams[token].query_token;
            let next = self.stepped(token, events, io, data, end_time);
            let step = self.datagram_step(token, events, io, data);
            match step {
                Step::Done(m) => (ServerView {
                    cache: with_records(self.cache, m.answers, now),
                    outgoing: self.outgoing.push(qt),
                    ..next
                }).torn_down(qt),
                _ => if Self::ends_query(step) {
                    ServerView { queries: next.queries.remove(qt), ..next.torn_down(qt) }
                } else {
                    next
                },
            }
        }
    }

    /// What an event on the datagram with the handle `token` asks of the
    /// caller: what tearing down the query asks when the query has its
    /// response or is ended, the new registration of the datagram when the
    /// step went well, nothing otherwise.
    pub open spec fn datagram_asks(
        self,
        token: usize,
        events: EventSet,
        io: IoResult,
        data: Seq<u8>,
        end_time: u64,
    ) -> Seq<Action> {
        if !self.live(token) {
            Seq::empty()
        } else {
            let qt = self.datagrams[token].query_token;
            let next = self.stepped(token, events, io, data, end_time);
            let step = self.datagram_step(token, events, io, data);
            if step is Done || Self::ends_query(step) {
                next.tear_down_actions(qt)
            } else if Self::step_error(step) is Some {
                Seq::empty()
            } else {
                seq![
                    Action::Reregister {
                        token,
                        interest: next.datagrams[token].interest().0,
                        opts: next.datagrams[token].interest().1,
                    },
                ]
            }
        }
    }

    /// The error that an event on the datagram with the handle `token`
    /// ends in, if it does.
    pub open spec fn datagram_error(
        self,
        token: usize,
        events: EventSet,
        io: IoResult,
        data: Seq<u8>,
    ) -> Option<Error> {
        if !self.live(token) {
            None
        } else {
            Self::step_error(self.datagram_step(token, events, io, data))
        }
    }
}

/// What `datagram_event` promises: the dispatcher after the event, what it
/// asks and the error it ends in are what the event comes to, for what the
/// clock said.
pub open spec fn datagram_handled(
    before: ServerView,
    token: usize,
    events: EventSet,
    io: IoResult,
    data: Seq<u8>,
    after: ServerView,
    r: (Vec<Action>, Option<Error>),
    end_time: u64,
    now: u64,
) -> bool {
    &&& after == before.after_datagram(token, events, io, data, end_time, now)
    &&& r.0@ == before.datagram_asks(token, events, io, data, end_time)
    &&& r.1 == before.datagram_error(token, events, io, data)
}

impl Server {
    /// Hands the event to the datagram and to the query that owns it.
    #[verifier::rlimit(40)]
    fn step(&mut self, token: usize, qt: usize, events: EventSet, io: IoResult, data: &[u8]) -> (r: (
        Result<bool, Error>,
        Ghost<u64>,
    ))
        requires
            old(self).inner(),
            old(self)@.live(token),
            old(self)@.datagrams[token].query_token == qt,
        ensures
            final(self).inner(),
            final(self)@ == old(self)@.stepped(token, events, io, data@, r.1@),
            r.0 == old(self)@.queries[qt].step_result(
                old(self)@.fed(token, events, io, data@),
                events,
                old(self)@.told(token, events, io, data@),
            ),
    {
        let ghost before = self@;
        let d = datagrams_get_mut(&mut self.datagrams, token);
        let mut told = io;
        match io {
            IoResult::Received(n, _) => {
                match d.wants(events) {
                    Ok(IoRequest::Receive) => {
                        if n == data.len() && n <= d.room() {
                            d.load(data);
                        } else {
                            told = IoResult::Failed;
                        }
                    },
                    _ => {},
                }
            },
            _ => {},
        }
        assert(d@ == before.fed(token, events, io, data@));
        assert(told == before.told(token, events, io, data@));
        let q = queries_get_mut(&mut self.queries, qt);
        let ghost q0 = q@;
        let ghost d0 = d@;
        let r = q.datagram_event(d, events, told);
        let ghost end_time: u64 = if q0.find(d0.token) < q0.upstreams.len() {
            q@.upstreams[q0.find(d0.token)].end_time
        } else {
            0
        };
        proof {
            crate::query::lemma_step_advances(q0, d0, events, told, end_time);
            assert(self@.queries =~= before.queries.insert(qt, q0.step_query(d0, events, told, end_time)));
            assert(self@.datagrams =~= before.datagrams.insert(
                token,
                q0.step_datagram(d0, events, told),
            ));
            assert(query_slots(self.queries).dom() =~= query_slots(old(self).queries).dom());
            assert(datagram_slots(self.datagrams).dom() =~= datagram_slots(old(self).datagrams).dom());
        }
        (r, Ghost(end_time))
    }

    /// What follows when a query has its response: the answers go into
    /// the cache, the query joins the queue and is torn down.
    #[verifier::rlimit(40)]
    fn finish(&mut self, token: usize, qt: usize) -> (r: (Vec<Action>, Ghost<u64>))
        requires
            old(self).inner(),
            old(self)@.queries.contains_key(qt),
            old(self)@.queries[qt].find(token) < old(self)@.queries[qt].upstreams.len(),
        ensures
            final(self).inner(),
            final(self)@ == (ServerView {
                cache: with_records(
                    old(self)@.cache,
                    old(self)@.queries[qt].upstreams[old(self)@.queries[qt].find(token)].answer.answers,
                    r.1@,
                ),
                outgoing: old(self)@.outgoing.push(qt),
                ..old(self)@
            }).torn_down(qt),
            r.0@ == old(self)@.tear_down_actions(qt),
    {
        let ghost before = self@;
        let ghost answers = before.queries[qt].upstreams[before.queries[qt].find(token)].answer.answers;
        match queries_get(&self.queries, qt) {
            None => {},
            Some(q) => {
                q.add_to_cache(token, &mut self.cache);
            },
        }
        let ghost now = choose|now: u64| self.cache@ == #[trigger] with_records(before.cache, answers, now);
        self.outgoing_queries.push_back(qt);
        let actions = self.destroy_query(qt);
        (actions, Ghost(now))
    }

    /// Ends the query `qt` after a step that failed: it is torn down and
    /// gives up its slot.
    #[verifier::rlimit(40)]
    fn end_query(&mut self, qt: usize) -> (actions: Vec<Action>)
        requires
            old(self).steady(),
            old(self)@.queries.contains_key(qt),
            old(self)@.queries[qt].phase != QueryPhase::ResponseReady,
        ensures
            final(self).steady(),
            final(self)@ == (ServerView {
                queries: old(self)@.queries.remove(qt),
                ..old(self)@.torn_down(qt)
            }),
            actions@ == old(self)@.tear_down_actions(qt),
    {
        let ghost before = self@;
        let actions = self.destroy_query(qt);
        proof {
            lemma_release(before.datagrams, qt, before.queries[qt].tokens());
            assert forall|t: usize| #[trigger] self@.datagrams.contains_key(t) implies self@.datagrams[t].query_token
                != qt by {
                if self@.datagrams[t].query_token == qt {
                    assert(before.datagrams.contains_key(t));
                    let i = choose|i: int|
                        0 <= i < before.queries[qt].tokens().len() && before.queries[qt].tokens()[i]
                            == t;
                    assert(before.queries[qt].tokens()[i] == t);
                }
            }
            assert forall|i: int| 0 <= i < self@.outgoing.len() implies #[trigger] self@.outgoing[i]
                != qt by {
                assert(before.queries.contains_key(before.outgoing[i]));
            }
        }
        self.release_query(qt);
        assert(self@.queries =~= before.queries.remove(qt));
        actions
    }

    /// What follows a step that failed with `e`.
    #[verifier::rlimit(40)]
    fn on_failed(
        &mut self,
        Ghost(before): Ghost<ServerView>,
        token: usize,
        qt: usize,
        events: EventSet,
        io: IoResult,
        Ghost(data): Ghost<Seq<u8>>,
        Ghost(end_time): Ghost<u64>,
        e: Error,
    ) -> (r: (Vec<Action>, Option<Error>))
        requires
            before.valid(),
            before.live(token),
            before.datagrams[token].query_token == qt,
            old(self).inner(),
            old(self)@ == before.stepped(token, events, io, data, end_time),
            ServerView::step_error(before.datagram_step(token, events, io, data)) == Some(e),
        ensures
            final(self).steady(),
            datagram_handled(before, token, events, io, data, final(self)@, r, end_time, 0),
    {
        proof {
            lemma_stepped_valid(before, token, events, io, data, end_time);
            crate::query::lemma_step_ready(
                before.queries[qt],
                before.fed(token, events, io, data),
                events,
                before.told(token, events, io, data),
                end_time,
            );
        }
        let actions = match e {
            Error::InvalidTxId => Vec::new(),
            _ => self.end_query(qt),
        };
        (actions, Some(e))
    }

    /// What follows a step that went well and left the query waiting.
    #[verifier::rlimit(40)]
    fn on_stay(
        &mut self,
        Ghost(before): Ghost<ServerView>,
        token: usize,
        events: EventSet,
        io: IoResult,
        Ghost(data): Ghost<Seq<u8>>,
        Ghost(end_time): Ghost<u64>,
    ) -> (r: (Vec<Action>, Option<Error>))
        requires
            before.valid(),
            before.live(token),
            token < FIRST_DATAGRAM + DATAGRAM_BUF_SIZE,
            old(self).inner(),
            old(self)@ == before.stepped(token, events, io, data, end_time),
            ServerView::step_error(before.datagram_step(token, events, io, data)) is None,
            !(before.datagram_step(token, events, io, data) is Done),
        ensures
            final(self).steady(),
            datagram_handled(before, token, events, io, data, final(self)@, r, end_time, 0),
    {
        let mut actions: Vec<Action> = Vec::new();
        match datagrams_get(&self.datagrams, token) {
            None => {},
            Some(d) => {
                actions.push(d.reregister());
            },
        }
        let r = (actions, None);
        proof {
            lemma_stepped_valid(before, token, events, io, data, end_time);
            assert(self@.datagrams.contains_key(token));
            assert(r.0@ =~= seq![
                Action::Reregister {
                    token,
                    interest: self@.datagrams[token].interest().0,
                    opts: self@.datagrams[token].interest().1,
                },
            ]);
        }
        r
    }

    /// What follows a step that gave the query its response.
    #[verifier::rlimit(40)]
    fn on_done(
        &mut self,
        Ghost(before): Ghost<ServerView>,
        token: usize,
        qt: usize,
        events: EventSet,
        io: IoResult,
        Ghost(data): Ghost<Seq<u8>>,
        Ghost(end_time): Ghost<u64>,
    ) -> (r: ((Vec<Action>, Option<Error>), Ghost<u64>))
        requires
            before.valid(),
            before.live(token),
            before.datagrams[token].query_token == qt,
            old(self).inner(),
            old(self)@ == before.stepped(token, events, io, data, end_time),
            before.datagram_step(token, events, io, data) is Done,
        ensures
            final(self).steady(),
            datagram_handled(before, token, events, io, data, final(self)@, r.0, end_time, r.1@),
    {
        proof {
            crate::query::lemma_first_index(before.queries[qt].tokens(), token);
            crate::query::lemma_step_advances(
                before.queries[qt],
                before.fed(token, events, io, data),
                events,
                before.told(token, events, io, data),
                end_time,
            );
        }
        let (actions, Ghost(now)) = self.finish(token, qt);
        proof {
            lemma_done_valid(before, token, events, io, data, end_time, now);
        }
        ((actions, None), Ghost(now))
    }

    /// An event on the datagram with the handle `token`: the readiness
    /// `events` was signalled, and the socket call that the datagram wanted
    /// came back with `io`; `data` holds the octets of a receive.  An event
    /// for a handle without a datagram, or for a datagram without a query,
    /// is dropped and nothing changes.  The result is what is asked of the
    /// caller, and the error that the event ended in, if it did.
    #[verifier::rlimit(40)]
    fn datagram_event(&mut self, token: usize, events: EventSet, io: IoResult, data: &[u8]) -> (r: (
        Vec<Action>,
        Option<Error>,
    ))
        requires
            old(self).steady(),
        ensures
            final(self).steady(),
            !old(self)@.live(token) ==> final(self)@ == old(self)@ && r.0@.len() == 0 && r.1 is None,
            exists|end_time: u64, now: u64| #[trigger]
                datagram_handled(old(self)@, token, events, io, data@, final(self)@, r, end_time, now),
            final(self)@.interest == old(self)@.interest,
    {
        let ghost before = self@;
        if token >= FIRST_DATAGRAM + DATAGRAM_BUF_SIZE {
            let r = (Vec::new(), None);
            assert(datagram_handled(before, token, events, io, data@, self@, r, 0, 0));
            return r;
        }
        let qt = match datagrams_get(&self.datagrams, token) {
            None => {
                let r = (Vec::new(), None);
                assert(datagram_handled(before, token, events, io, data@, self@, r, 0, 0));
                return r;
            },
            Some(d) => d.query_token(),
        };
        assert(before.datagrams.contains_key(token));
        assert(before.queries.contains_key(qt));
        let (stepped, Ghost(end_time)) = self.step(token, qt, events, io, data);
        match stepped {
            Err(e) => self.on_failed(
                Ghost(before),
                token,
                qt,
                events,
                io,
                Ghost(data@),
                Ghost(end_time),
                e,
            ),
            Ok(false) => self.on_stay(Ghost(before), token, events, io, Ghost(data@), Ghost(end_time)),
            Ok(true) => {
                let (r, Ghost(now)) = self.on_done(
                    Ghost(before),
                    token,
                    qt,
                    events,
                    io,
                    Ghost(data@),
                    Ghost(end_time),
                );
                r
            },
        }
    }
}

/// A step that does not give the query its response leaves the dispatcher
/// in order.
pub proof fn lemma_stepped_valid(
    v: ServerView,
    token: usize,
    events: EventSet,
    io: IoResult,
    data: Seq<u8>,
    end_time: u64,
)
    requires
        v.valid(),
        v.live(token),
        !(v.datagram_step(token, events, io, data) is Done),
    ensures
        v.stepped(token, events, io, data, end_time).owned(),
        v.stepped(token, events, io, data, end_time).queued(),
{
    let qt = v.datagrams[token].query_token;
    let d = v.fed(token, events, io, data);
    let told = v.told(token, events, io, data);
    let after = v.stepped(token, events, io, data, end_time);
    crate::query::lemma_step_advances(v.queries[qt], d, events, told, end_time);
    crate::query::lemma_step_ready(v.queries[qt], d, events, told, end_time);
    assert forall|k: usize| #[trigger] after.datagrams.contains_key(k) implies after.queries.contains_key(
        after.datagrams[k].query_token,
    ) && after.queries[after.datagrams[k].query_token].tokens().contains(k)
        && after.queries[after.datagrams[k].query_token].phase != QueryPhase::ResponseReady by {
        assert(v.datagrams.contains_key(k));
        assert(v.queries.contains_key(v.datagrams[k].query_token));
    }
    assert forall|j: int| 0 <= j < after.outgoing.len() implies after.queries.contains_key(
        #[trigger] after.outgoing[j],
    ) && after.queries[after.outgoing[j]].phase == QueryPhase::ResponseReady
        && after.queries[after.outgoing[j]].timeout is None by {
        assert(v.queries.contains_key(v.outgoing[j]));
    }
}

/// A step that gives the query its response, with what follows it, leaves
/// the dispatcher in order.
pub proof fn lemma_done_valid(
    v: ServerView,
    token: usize,
    events: EventSet,
    io: IoResult,
    data: Seq<u8>,
    end_time: u64,
    now: u64,
)
    requires
        v.valid(),
        v.live(token),
        v.datagram_step(token, events, io, data) is Done,
    ensures
        v.after_datagram(token, events, io, data, end_time, now).owned(),
        v.after_datagram(token, events, io, data, end_time, now).queued(),
{
    let qt = v.datagrams[token].query_token;
    let d = v.fed(token, events, io, data);
    let told = v.told(token, events, io, data);
    let next = v.stepped(token, events, io, data, end_time);
    let after = v.after_datagram(token, events, io, data, end_time, now);
    crate::query::lemma_step_advances(v.queries[qt], d, events, told, end_time);
    crate::query::lemma_step_ready(v.queries[qt], d, events, told, end_time);
    let tokens = next.queries[qt].tokens();
    assert(tokens == v.queries[qt].tokens());
    lemma_release(next.datagrams, qt, tokens);
    assert forall|k: usize| #[trigger] after.datagrams.contains_key(k) implies after.queries.contains_key(
        after.datagrams[k].query_token,
    ) && after.queries[after.datagrams[k].query_token].tokens().contains(k)
        && after.queries[after.datagrams[k].query_token].phase != QueryPhase::ResponseReady by {
        assert(next.datagrams.contains_key(k));
        assert(v.datagrams.contains_key(k));
        assert(v.queries.contains_key(v.datagrams[k].query_token));
        if after.datagrams[k].query_token == qt {
            let i = choose|i: int| 0 <= i < tokens.len() && tokens[i] == k;
            assert(tokens[i] == k);
        }
    }
    assert forall|j: int| 0 <= j < after.outgoing.len() implies after.queries.contains_key(
        #[trigger] after.outgoing[j],
    ) && after.queries[after.outgoing[j]].phase == QueryPhase::ResponseReady
        && after.queries[after.outgoing[j]].timeout is None by {
        if j < v.outgoing.len() {
            assert(v.queries.contains_key(v.outgoing[j]));
        }
    }
    assert forall|i: int, j: int| 0 <= i < j < after.outgoing.len() implies after.outgoing[i]
        != after.outgoing[j] by {
        if j == v.outgoing.len() {
            assert(v.queries.contains_key(v.outgoing[i]));
        }
    }
}


/// What becomes of a datagram that the server socket received.
pub enum Intake {
    /// Nothing: the receive brought nothing that is a query, or there is
    /// no room for it.
    Dropped,
    /// The query is answered from the cache.
    Cached,
    /// The query is sent on to the resolvers.
    FanOut,
}

/// The sub-query that a query has for the datagram with the handle `t`
/// before anything was sent; `start_time` is what the clock said.
pub open spec fn new_upstream(t: usize, start_time: u64) -> UpstreamView {
    UpstreamView {
        token: t,
        answer: MessageView::bare(0, 0),
        phase: QueryPhase::SendRequest,
        start_time,
        end_time: 0,
    }
}

/// The datagrams with one more for each of the handles `tokens`, each to
/// the resolver in its place in `addrs`, loaded with `bytes` to send for
/// the query `qt`.
pub open spec fn fanned(
    datagrams: Map<usize, DatagramView>,
    qt: usize,
    addrs: Seq<SocketAddr>,
    tokens: Seq<usize>,
    bytes: Seq<u8>,
) -> Map<usize, DatagramView>
    decreases tokens.len(),
{
    if tokens.len() == 0 {
        datagrams
    } else {
        fanned(datagrams, qt, addrs, tokens.drop_last(), bytes).insert(
            tokens.last(),
            DatagramView::fresh(tokens.last(), qt, addrs[tokens.len() - 1]).filled(bytes),
        )
    }
}

/// What is asked for the sockets of new datagrams: one to open and to
/// register as writable for each handle, to the resolver in its place.
pub open spec fn registers(addrs: Seq<SocketAddr>, tokens: Seq<usize>) -> Seq<Action> {
    Seq::new(
        tokens.len(),
        |k: int|
            Action::Register {
                token: tokens[k],
                remote: addrs[k],
                interest: EventSet { readable: false, writable: true },
                opts: PollOpt { edge: true, level: false, oneshot: true },
            },
    )
}

impl ServerView {
    /// Whether `data` is what a receive on the server socket that came
    /// back with `io` brought.
    pub open spec fn brought(io: IoResult, data: Seq<u8>) -> bool {
        io matches IoResult::Received(n, _) && n == data.len() && n <= BUF_LEN
    }

    /// The query with the handle `qt` as it is when `data` has come in.
    pub open spec fn arrived(qt: usize, io: IoResult, data: Seq<u8>) -> QueryView {
        (QueryView {
            buf: QueryView::fresh(qt).buf.set_writable().put(data),
            ..QueryView::fresh(qt)
        }).rx_state(io)
    }

    /// To how many resolvers a query is sent on: to all that are named,
    /// but to no more than a query can have sub-queries.
    pub open spec fn fan(self) -> int {
        if self.upstreams.len() <= MAX_UPSTREAMS {
            self.upstreams.len() as int
        } else {
            MAX_UPSTREAMS as int
        }
    }

    /// What becomes of a datagram that the server socket received.  It is
    /// dropped when the receive brought nothing, when no query slot is
    /// free, when it does not parse, when the cache has the answers but
    /// the response cannot be made, or when there are not enough datagram
    /// slots for all resolvers.
    pub open spec fn intake(self, io: IoResult, data: Seq<u8>) -> Intake {
        let q = Self::arrived(0, io, data);
        if !Self::brought(io, data) || self.queries.dom().len() >= NUM_CONCURRENT_QUERIES
            || q.message is None {
            Intake::Dropped
        } else if all_hit(q.message->0.questions, self.cache) {
            if q.cache_result(self.cache) is Ok {
                Intake::Cached
            } else {
                Intake::Dropped
            }
        } else if self.datagrams.dom().len() + self.fan() > DATAGRAM_BUF_SIZE {
            Intake::Dropped
        } else {
            Intake::FanOut
        }
    }

    /// The query with the handle `qt` once it was answered from the cache.
    pub open spec fn answered(self, qt: usize, io: IoResult, data: Seq<u8>) -> QueryView {
        let q = Self::arrived(qt, io, data);
        QueryView {
            phase: QueryPhase::ResponseReady,
            ..q.loaded(wire::emit_message(cached_response(q.message->0, self.cache)))
        }
    }

    /// Whether `after` is the dispatcher once the query that came in has
    /// been answered from the cache under the handle `qt`.
    pub open spec fn cached_as(self, io: IoResult, data: Seq<u8>, qt: usize, after: ServerView) -> bool {
        &&& !self.queries.contains_key(qt)
        &&& after == (ServerView {
            queries: self.queries.insert(qt, self.answered(qt, io, data)),
            outgoing: self.outgoing.push(qt),
            ..self
        })
    }

    /// Whether `after` is the dispatcher once the query `qt`, which is
    /// under way without sub-queries, has been sent on to the resolvers:
    /// the query has one sub-query for each resolver, each with a datagram
    /// of its own that is loaded with the octets of the query, and a
    /// timeout is armed.
    pub open spec fn fanned_to(self, qt: usize, after: ServerView) -> bool {
        let q = after.queries[qt];
        let base = self.queries[qt];
        &&& after.queries == self.queries.insert(qt, q)
        &&& q == (QueryView { upstreams: q.upstreams, timeout: Some(Timeout(qt)), ..base })
        &&& q.upstreams.len() == self.fan()
        &&& forall|k: int|
            0 <= k < q.upstreams.len() ==> #[trigger] q.upstreams[k] == new_upstream(
                q.upstreams[k].token,
                q.upstreams[k].start_time,
            ) && !self.datagrams.contains_key(q.upstreams[k].token)
        &&& forall|j: int, k: int|
            0 <= j < k < q.upstreams.len() ==> q.upstreams[j].token != q.upstreams[k].token
        &&& after.datagrams == fanned(
            self.datagrams,
            qt,
            self.upstreams,
            q.tokens(),
            base.buf.visible(),
        )
        &&& after.cache == self.cache
        &&& after.upstreams == self.upstreams
        &&& after.outgoing == self.outgoing
        &&& after.interest == self.interest
    }

    /// What sending the query `qt` on asks of the caller: a socket for
    /// each new datagram, and a timeout for the query.
    pub open spec fn fan_asks(self, qt: usize, after: ServerView) -> Seq<Action> {
        registers(self.upstreams, after.queries[qt].tokens()).push(
            Action::SetTimeout { query: qt, timeout: Timeout(qt), delay_ms: QUERY_TIMEOUT_MS },
        )
    }

    /// The dispatcher with the query that came in under the handle `qt`.
    pub open spec fn with_arrival(self, qt: usize, io: IoResult, data: Seq<u8>) -> ServerView {
        ServerView { queries: self.queries.insert(qt, Self::arrived(qt, io, data)), ..self }
    }

    /// Whether `after` is the dispatcher once the query that came in has
    /// been sent on to the resolvers under the handle `qt`.
    pub open spec fn fanned_as(self, io: IoResult, data: Seq<u8>, qt: usize, after: ServerView) -> bool {
        !self.queries.contains_key(qt) && self.with_arrival(qt, io, data).fanned_to(qt, after)
    }

    /// What `server_readable` promises.
    pub open spec fn taken_in(
        self,
        io: IoResult,
        data: Seq<u8>,
        after: ServerView,
        taken: Option<usize>,
        asked: Seq<Action>,
    ) -> bool {
        match self.intake(io, data) {
            Intake::Dropped => taken is None && after == self && asked.len() == 0,
            Intake::Cached => taken is Some && self.cached_as(io, data, taken->0, after)
                && asked.len() == 0,
            Intake::FanOut => taken is Some && self.fanned_as(io, data, taken->0, after) && asked
                == self.fan_asks(taken->0, after),
        }
    }
}


impl Server {
    /// Takes a slot for the query that `data` spells and reads it in.  The
    /// slot is given up again when the octets are no query.
    #[verifier::rlimit(40)]
    fn take_in(&mut self, io: IoResult, data: &[u8]) -> (r: Option<usize>)
        requires
            old(self).steady(),
            ServerView::brought(io, data@),
        ensures
            final(self).steady(),
            r is None <==> old(self)@.queries.dom().len() >= NUM_CONCURRENT_QUERIES
                || ServerView::arrived(0, io, data@).message is None,
            r is None ==> final(self)@ == old(self)@,
            r matches Some(qt) ==> !old(self)@.queries.contains_key(qt) && final(self)@ == (ServerView {
                queries: old(self)@.queries.insert(qt, ServerView::arrived(qt, io, data@)),
                ..old(self)@
            }) && ServerView::arrived(qt, io, data@).message == ServerView::arrived(
                0,
                io,
                data@,
            ).message,
    {
        let ghost before = self@;
        assert(query_slots(self.queries).dom() =~= before.queries.dom());
        let qt = match queries_insert(&mut self.queries) {
            None => {
                assert(self@.queries =~= before.queries);
                return None;
            },
            Some(qt) => qt,
        };
        let q = queries_get_mut(&mut self.queries, qt);
        q.load(data);
        let r = q.rx(io);
        proof {
            assert(self@.queries =~= before.queries.insert(qt, ServerView::arrived(qt, io, data@)));
            assert(query_slots(self.queries).dom() =~= query_slots(old(self).queries).dom().insert(qt));
            assert(self@.sound());
            assert forall|k: usize| #[trigger] self@.datagrams.contains_key(k) implies self@.queries.contains_key(
                self@.datagrams[k].query_token,
            ) && self@.queries[self@.datagrams[k].query_token].tokens().contains(k)
                && self@.queries[self@.datagrams[k].query_token].phase
                != QueryPhase::ResponseReady by {
                assert(before.datagrams.contains_key(k));
                assert(before.queries.contains_key(before.datagrams[k].query_token));
            }
            assert forall|j: int| 0 <= j < self@.outgoing.len() implies self@.queries.contains_key(
                #[trigger] self@.outgoing[j],
            ) && self@.queries[self@.outgoing[j]].phase == QueryPhase::ResponseReady
                && self@.queries[self@.outgoing[j]].timeout is None by {
                assert(before.queries.contains_key(before.outgoing[j]));
            }
        }
        match r {
            Ok(Some(())) => Some(qt),
            _ => {
                proof {
                    assert forall|t: usize| #[trigger] self@.datagrams.contains_key(t) implies self@.datagrams[t].query_token
                        != qt by {
                        assert(before.datagrams.contains_key(t));
                    }
                    assert forall|i: int| 0 <= i < self@.outgoing.len() implies #[trigger] self@.outgoing[i]
                        != qt by {
                        assert(before.queries.contains_key(before.outgoing[i]));
                    }
                }
                self.release_query(qt);
                assert(self@.queries =~= before.queries);
                None
            },
        }
    }

    /// Answers the query `qt` from the cache and puts it in the queue of
    /// those that wait to be answered.  When the response cannot be made
    /// the query gives up its slot.
    #[verifier::rlimit(40)]
    fn answer_cached(&mut self, qt: usize) -> (done: bool)
        requires
            old(self).steady(),
            old(self)@.queries.contains_key(qt),
            old(self)@.queries[qt].phase == QueryPhase::Waiting,
            old(self)@.queries[qt].timeout is None,
            old(self)@.loose(qt),
        ensures
            final(self).steady(),
            done == old(self)@.queries[qt].cache_result(old(self)@.cache) is Ok,
            done ==> final(self)@ == (ServerView {
                queries: old(self)@.queries.insert(
                    qt,
                    QueryView {
                        phase: QueryPhase::ResponseReady,
                        ..old(self)@.queries[qt].loaded(
                            wire::emit_message(
                                cached_response(old(self)@.queries[qt].message->0, old(self)@.cache),
                            ),
                        )
                    },
                ),
                outgoing: old(self)@.outgoing.push(qt),
                ..old(self)@
            }),
            !done ==> final(self)@ == (ServerView {
                queries: old(self)@.queries.remove(qt),
                ..old(self)@
            }),
    {
        let ghost before = self@;
        let q = queries_get_mut(&mut self.queries, qt);
        let r = q.answer_from_cache(&self.cache);
        proof {
            assert(query_slots(self.queries).dom() =~= query_slots(old(self).queries).dom());
        }
        match r {
            Err(_) => {
                assert(self@.queries =~= before.queries);
                self.release_query(qt);
                false
            },
            Ok(()) => {
                self.outgoing_queries.push_back(qt);
                proof {
                    assert(self@.queries =~= before.queries.insert(
                        qt,
                        QueryView {
                            phase: QueryPhase::ResponseReady,
                            ..before.queries[qt].loaded(
                                wire::emit_message(
                                    cached_response(before.queries[qt].message->0, before.cache),
                                ),
                            )
                        },
                    ));
                    assert(self@.sound());
                    assert forall|k: usize| #[trigger] self@.datagrams.contains_key(k) implies self@.queries.contains_key(
                        self@.datagrams[k].query_token,
                    ) && self@.queries[self@.datagrams[k].query_token].tokens().contains(k)
                        && self@.queries[self@.datagrams[k].query_token].phase
                        != QueryPhase::ResponseReady by {
                        assert(before.datagrams.contains_key(k));
                        assert(before.queries.contains_key(before.datagrams[k].query_token));
                    }
                    assert forall|j: int| 0 <= j < self@.outgoing.len() implies self@.queries.contains_key(
                        #[trigger] self@.outgoing[j],
                    ) && self@.queries[self@.outgoing[j]].phase == QueryPhase::ResponseReady
                        && self@.queries[self@.outgoing[j]].timeout is None by {
                        if j < before.outgoing.len() {
                            assert(before.queries.contains_key(before.outgoing[j]));
                        }
                    }
                    assert forall|i: int, j: int|
                        0 <= i < j < self@.outgoing.len() implies self@.outgoing[i]
                        != self@.outgoing[j] by {
                        if j == before.outgoing.len() {
                            assert(before.outgoing[i] != qt);
                        }
                    }
                }
                true
            },
        }
    }
}


/// What `fanned` holds: what was there before, and under each new handle
/// the datagram that was made for it.
pub proof fn lemma_fanned(
    datagrams: Map<usize, DatagramView>,
    qt: usize,
    addrs: Seq<SocketAddr>,
    tokens: Seq<usize>,
    bytes: Seq<u8>,
)
    requires
        forall|j: int| 0 <= j < tokens.len() ==> !datagrams.contains_key(#[trigger] tokens[j]),
        forall|i: int, j: int| 0 <= i < j < tokens.len() ==> tokens[i] != tokens[j],
    ensures
        forall|t: usize| #[trigger]
            fanned(datagrams, qt, addrs, tokens, bytes).contains_key(t) <==> datagrams.contains_key(
                t,
            ) || tokens.contains(t),
        forall|t: usize|
            datagrams.contains_key(t) ==> #[trigger] fanned(datagrams, qt, addrs, tokens, bytes)[t]
                == datagrams[t],
        forall|j: int|
            0 <= j < tokens.len() ==> fanned(datagrams, qt, addrs, tokens, bytes)[#[trigger] tokens[j]]
                == DatagramView::fresh(tokens[j], qt, addrs[j]).filled(bytes),
    decreases tokens.len(),
{
    if tokens.len() > 0 {
        let front = tokens.drop_last();
        let last = tokens.last();
        assert forall|j: int| 0 <= j < front.len() implies !datagrams.contains_key(
            #[trigger] front[j],
        ) by {
            assert(front[j] == tokens[j]);
        }
        assert forall|i: int, j: int| 0 <= i < j < front.len() implies front[i] != front[j] by {
            assert(front[i] == tokens[i]);
            assert(front[j] == tokens[j]);
        }
        lemma_fanned(datagrams, qt, addrs, front, bytes);
        let before = fanned(datagrams, qt, addrs, front, bytes);
        let after = fanned(datagrams, qt, addrs, tokens, bytes);
        assert(!datagrams.contains_key(tokens[tokens.len() - 1]));
        assert forall|t: usize| #[trigger] after.contains_key(t) <==> datagrams.contains_key(t)
            || tokens.contains(t) by {
            if tokens.contains(t) {
                let i = choose|i: int| 0 <= i < tokens.len() && tokens[i] == t;
                if i < front.len() {
                    assert(front[i] == t);
                }
            }
            if front.contains(t) {
                let i = choose|i: int| 0 <= i < front.len() && front[i] == t;
                assert(tokens[i] == t);
            }
            if t == last {
                assert(tokens[tokens.len() - 1] == t);
            }
        }
        assert forall|j: int| 0 <= j < tokens.len() implies after[#[trigger] tokens[j]]
            == DatagramView::fresh(tokens[j], qt, addrs[j]).filled(bytes) by {
            if j < front.len() {
                assert(front[j] == tokens[j]);
                assert(tokens[j] != tokens[tokens.len() - 1]);
            }
        }
    } else {
        assert forall|t: usize| !tokens.contains(t) by {}
    }
}

impl Server {
    /// Makes one more datagram for the query `qt`, to the resolver at
    /// `addr`, loaded with the octets of the query, and takes it on as a
    /// sub-query.
    #[verifier::rlimit(40)]
    fn fan_one(&mut self, qt: usize, addr: SocketAddr) -> (t: usize)
        requires
            old(self).inner(),
            old(self)@.queries.contains_key(qt),
            old(self)@.queries[qt].upstreams.len() < MAX_UPSTREAMS,
            old(self)@.datagrams.dom().len() < DATAGRAM_BUF_SIZE,
        ensures
            final(self).inner(),
            !old(self)@.datagrams.contains_key(t),
            final(self)@.queries[qt].upstreams.len() == old(self)@.queries[qt].upstreams.len() + 1,
            final(self)@ == (ServerView {
                datagrams: old(self)@.datagrams.insert(
                    t,
                    DatagramView::fresh(t, qt, addr).filled(old(self)@.queries[qt].buf.visible()),
                ),
                queries: old(self)@.queries.insert(
                    qt,
                    old(self)@.queries[qt].with_upstream(
                        t,
                        final(self)@.queries[qt].upstreams.last().start_time,
                    ),
                ),
                ..old(self)@
            }),
    {
        let ghost before = self@;
        assert(datagram_slots(self.datagrams).dom() =~= before.datagrams.dom());
        let t = match datagrams_insert(&mut self.datagrams, qt, addr) {
            None => {
                assert(false);
                0
            },
            Some(t) => t,
        };
        let q = queries_get_mut(&mut self.queries, qt);
        q.add_upstream_token(t);
        let d = datagrams_get_mut(&mut self.datagrams, t);
        let _ = d.fill(q.question_bytes());
        proof {
            assert(self@.datagrams =~= before.datagrams.insert(
                t,
                DatagramView::fresh(t, qt, addr).filled(before.queries[qt].buf.visible()),
            ));
            assert(self@.queries =~= before.queries.insert(
                qt,
                before.queries[qt].with_upstream(t, self@.queries[qt].upstreams.last().start_time),
            ));
            assert(query_slots(self.queries).dom() =~= query_slots(old(self).queries).dom());
            assert(datagram_slots(self.datagrams).dom() =~= datagram_slots(old(self).datagrams).dom().insert(
                t,
            ));
        }
        t
    }
}


/// Sending a query on leaves the dispatcher in order.
pub proof fn lemma_fanned_valid(v: ServerView, qt: usize, after: ServerView)
    requires
        v.valid(),
        v.queries.contains_key(qt),
        v.queries[qt].phase == QueryPhase::Waiting,
        v.queries[qt].upstreams.len() == 0,
        v.loose(qt),
        v.fanned_to(qt, after),
    ensures
        after.owned(),
        after.queued(),
{
    let q = after.queries[qt];
    let tokens = q.tokens();
    assert forall|j: int| 0 <= j < tokens.len() implies !v.datagrams.contains_key(
        #[trigger] tokens[j],
    ) by {
        assert(q.upstreams[j].token == tokens[j]);
    }
    assert forall|i: int, j: int| 0 <= i < j < tokens.len() implies tokens[i] != tokens[j] by {
        assert(q.upstreams[i].token == tokens[i]);
        assert(q.upstreams[j].token == tokens[j]);
    }
    lemma_fanned(v.datagrams, qt, v.upstreams, tokens, v.queries[qt].buf.visible());
    assert forall|k: usize| #[trigger] after.datagrams.contains_key(k) implies after.queries.contains_key(
        after.datagrams[k].query_token,
    ) && after.queries[after.datagrams[k].query_token].tokens().contains(k)
        && after.queries[after.datagrams[k].query_token].phase != QueryPhase::ResponseReady by {
        if v.datagrams.contains_key(k) {
            assert(after.datagrams[k] == v.datagrams[k]);
            assert(v.queries.contains_key(v.datagrams[k].query_token));
            assert(v.datagrams[k].query_token != qt);
        } else {
            assert(tokens.contains(k));
            let j = choose|j: int| 0 <= j < tokens.len() && tokens[j] == k;
            assert(after.datagrams[tokens[j]].query_token == qt);
        }
    }
    assert forall|j: int| 0 <= j < after.outgoing.len() implies after.queries.contains_key(
        #[trigger] after.outgoing[j],
    ) && after.queries[after.outgoing[j]].phase == QueryPhase::ResponseReady
        && after.queries[after.outgoing[j]].timeout is None by {
        assert(v.queries.contains_key(v.outgoing[j]));
        assert(v.outgoing[j] != qt);
    }
}

impl Server {
    /// Sends the query `qt` on: a datagram for each resolver, and a
    /// timeout for the query.
    #[verifier::rlimit(40)]
    fn fan_out(&mut self, qt: usize) -> (actions: Vec<Action>)
        requires
            old(self).steady(),
            old(self)@.queries.contains_key(qt),
            old(self)@.queries[qt].phase == QueryPhase::Waiting,
            old(self)@.queries[qt].upstreams.len() == 0,
            old(self)@.loose(qt),
            old(self)@.datagrams.dom().len() + old(self)@.fan() <= DATAGRAM_BUF_SIZE,
        ensures
            final(self).steady(),
            old(self)@.fanned_to(qt, final(self)@),
            actions@ == old(self)@.fan_asks(qt, final(self)@),
    {
        let ghost before = self@;
        let ghost base = before.queries[qt];
        let ghost bytes = base.buf.visible();
        let fan: usize = if self.upstreams.len() <= MAX_UPSTREAMS {
            self.upstreams.len()
        } else {
            MAX_UPSTREAMS
        };
        let mut actions: Vec<Action> = Vec::new();
        let mut k: usize = 0;
        proof {
            assert(base.upstreams =~= Seq::empty());
            assert(base.tokens() =~= Seq::empty());
            assert(before.queries =~= before.queries.insert(qt, base));
            assert(actions@ =~= registers(before.upstreams, base.tokens()));
            assert(before.datagrams.dom() =~= datagram_slots(self.datagrams).dom());
        }
        while k < fan
            invariant
                0 <= k <= fan,
                fan == before.fan(),
                fan <= self.upstreams@.len(),
                before == old(self)@,
                base == before.queries[qt],
                bytes == base.buf.visible(),
                before.queries.contains_key(qt),
                before.datagrams.dom().finite(),
                before.datagrams.dom().len() + fan <= DATAGRAM_BUF_SIZE,
                self.inner(),
                self@.cache == before.cache,
                self@.upstreams == before.upstreams,
                self@.outgoing == before.outgoing,
                self@.interest == before.interest,
                self@.queries == before.queries.insert(qt, self@.queries[qt]),
                self@.queries[qt] == (QueryView { upstreams: self@.queries[qt].upstreams, ..base }),
                self@.queries[qt].upstreams.len() == k,
                forall|j: int|
                    0 <= j < k ==> #[trigger] self@.queries[qt].upstreams[j] == new_upstream(
                        self@.queries[qt].upstreams[j].token,
                        self@.queries[qt].upstreams[j].start_time,
                    ) && !before.datagrams.contains_key(self@.queries[qt].upstreams[j].token),
                forall|i: int, j: int|
                    0 <= i < j < k ==> self@.queries[qt].upstreams[i].token
                        != self@.queries[qt].upstreams[j].token,
                self@.datagrams == fanned(
                    before.datagrams,
                    qt,
                    before.upstreams,
                    self@.queries[qt].tokens(),
                    bytes,
                ),
                self@.datagrams.dom().len() == before.datagrams.dom().len() + k,
                self@.datagrams.dom().finite(),
                actions@ == registers(before.upstreams, self@.queries[qt].tokens()),
            decreases fan - k,
        {
            let addr = self.upstreams[k];
            let ghost mid = self@;
            let ghost tokens = mid.queries[qt].tokens();
            proof {
                assert forall|j: int| 0 <= j < tokens.len() implies !before.datagrams.contains_key(
                    #[trigger] tokens[j],
                ) by {
                    assert(mid.queries[qt].upstreams[j].token == tokens[j]);
                }
                assert forall|i: int, j: int| 0 <= i < j < tokens.len() implies tokens[i]
                    != tokens[j] by {
                    assert(mid.queries[qt].upstreams[i].token == tokens[i]);
                    assert(mid.queries[qt].upstreams[j].token == tokens[j]);
                }
                lemma_fanned(before.datagrams, qt, before.upstreams, tokens, bytes);
            }
            let t = self.fan_one(qt, addr);
            assert(self@.datagrams.contains_key(t));
            match datagrams_get(&self.datagrams, t) {
                None => {},
                Some(d) => {
                    actions.push(d.register());
                },
            }
            proof {
                let now = self@.queries[qt];
                assert(now.upstreams =~= mid.queries[qt].upstreams.push(
                    new_upstream(t, now.upstreams.last().start_time),
                ));
                assert(now.tokens() =~= tokens.push(t));
                assert(now.tokens().drop_last() =~= tokens);
                assert(self@.queries =~= before.queries.insert(qt, now));
                assert(!tokens.contains(t));
                assert forall|j: int| 0 <= j < k + 1 implies #[trigger] now.upstreams[j]
                    == new_upstream(now.upstreams[j].token, now.upstreams[j].start_time)
                    && !before.datagrams.contains_key(now.upstreams[j].token) by {
                    if j < k {
                        assert(now.upstreams[j] == mid.queries[qt].upstreams[j]);
                    }
                }
                assert forall|i: int, j: int| 0 <= i < j < k + 1 implies now.upstreams[i].token
                    != now.upstreams[j].token by {
                    assert(now.upstreams[i] == mid.queries[qt].upstreams[i]);
                    assert(tokens[i] == mid.queries[qt].upstreams[i].token);
                    if j < k {
                        assert(now.upstreams[j] == mid.queries[qt].upstreams[j]);
                    }
                }
                assert(actions@ =~= registers(before.upstreams, now.tokens()));
            }
            k = k + 1;
        }
        let ghost mid = self@;
        let ghost slots_mid = query_slots(self.queries);
        let q = queries_get_mut(&mut self.queries, qt);
        q.set_timeout(Timeout(qt));
        actions.push(
            Action::SetTimeout { query: qt, timeout: Timeout(qt), delay_ms: QUERY_TIMEOUT_MS },
        );
        proof {
            assert(self@.queries =~= before.queries.insert(qt, self@.queries[qt]));
            assert(self@.queries[qt].upstreams == mid.queries[qt].upstreams);
            assert(query_slots(self.queries).dom() =~= slots_mid.dom());
            assert(before.fanned_to(qt, self@));
            assert(self@.sound());
            lemma_fanned_valid(before, qt, self@);
        }
        actions
    }
}


impl Server {
    /// The server socket was readable and the receive came back with `io`;
    /// `data` holds the octets that it brought.  Says under which handle
    /// the query was taken on, if it was, and what is asked of the caller.
    #[verifier::rlimit(40)]
    fn server_readable(&mut self, io: IoResult, data: &[u8]) -> (r: (Option<usize>, Vec<Action>))
        requires
            old(self).steady(),
        ensures
            final(self).steady(),
            old(self)@.taken_in(io, data@, final(self)@, r.0, r.1@),
            final(self)@.interest == old(self)@.interest,
    {
        let ghost before = self@;
        let brought = match io {
            IoResult::Received(n, _) => n == data.len() && n <= BUF_LEN,
            _ => false,
        };
        if !brought {
            return (None, Vec::new());
        }
        let qt = match self.take_in(io, data) {
            None => {
                return (None, Vec::new());
            },
            Some(qt) => qt,
        };
        let ghost arrival = self@;
        proof {
            assert(arrival == before.with_arrival(qt, io, data@));
            assert forall|t: usize| #[trigger] arrival.datagrams.contains_key(t) implies arrival.datagrams[t].query_token
                != qt by {
                assert(before.datagrams.contains_key(t));
            }
            assert forall|i: int| 0 <= i < arrival.outgoing.len() implies #[trigger] arrival.outgoing[i]
                != qt by {
                assert(before.queries.contains_key(before.outgoing[i]));
            }
            assert(arrival.queries[qt].upstreams =~= Seq::empty());
            assert(arrival.queries.contains_key(qt));
            assert(qt < FIRST_QUERY + NUM_CONCURRENT_QUERIES);
        }
        let hit = match queries_get(&self.queries, qt) {
            None => false,
            Some(q) => q.answer_in_cache(&self.cache),
        };
        if hit {
            if self.answer_cached(qt) {
                proof {
                    assert(self@.queries =~= before.queries.insert(qt, before.answered(qt, io, data@)));
                }
                (Some(qt), Vec::new())
            } else {
                assert(self@.queries =~= before.queries);
                (None, Vec::new())
            }
        } else {
            let fan: usize = if self.upstreams.len() <= MAX_UPSTREAMS {
                self.upstreams.len()
            } else {
                MAX_UPSTREAMS
            };
            assert(datagram_slots(self.datagrams).dom() =~= before.datagrams.dom());
            if datagrams_count(&self.datagrams) > DATAGRAM_BUF_SIZE - fan {
                self.release_query(qt);
                assert(self@.queries =~= before.queries);
                (None, Vec::new())
            } else {
                let actions = self.fan_out(qt);
                (Some(qt), actions)
            }
        }
    }
}

impl ServerView {
    /// Whether the caller is to receive on the socket with the handle
    /// `token` before it hands in the event: on the server socket when it
    /// is readable, on the socket of a live datagram when the datagram
    /// wants to receive.
    pub open spec fn plan_receive(self, token: usize, events: EventSet) -> bool {
        if token == SERVER {
            events.readable
        } else {
            self.live(token) && self.datagrams[token].wants(events) == Ok::<IoRequest, Error>(
                IoRequest::Receive,
            )
        }
    }

    /// What the caller is to send on the socket with the handle `token`
    /// before it hands in the event, and where to: on the writable server
    /// socket the response at the front of the queue, to the client; on
    /// the socket of a live datagram that wants to send what it has to
    /// send, to its resolver.
    pub open spec fn plan_send(self, token: usize, events: EventSet) -> Option<(Seq<u8>, SocketAddr)> {
        if token == SERVER {
            if events.writable && self.outgoing.len() > 0 && self.queries[self.outgoing[0]].addr is Some {
                Some(
                    (
                        self.queries[self.outgoing[0]].buf.visible(),
                        self.queries[self.outgoing[0]].addr->0,
                    ),
                )
            } else {
                None
            }
        } else if self.live(token) && self.datagrams[token].wants(events) == Ok::<IoRequest, Error>(
            IoRequest::Send,
        ) {
            Some((self.datagrams[token].buf.visible(), self.datagrams[token].addr))
        } else {
            None
        }
    }
}

impl Server {
    /// What the caller is to do on the socket with the handle `token`, for
    /// which the readiness `events` was signalled, before it hands the
    /// event to `ready`.
    pub fn plan(&self, token: usize, events: EventSet) -> (p: Plan)
        requires
            self.wf(),
        ensures
            p.receive == self@.plan_receive(token, events),
            match p.send {
                Some(pair) => self@.plan_send(token, events) == Some((pair.0@, pair.1)),
                None => self@.plan_send(token, events) is None,
            },
    {
        if token == SERVER {
            let mut send: Option<(Vec<u8>, SocketAddr)> = None;
            if events.is_writable() && self.outgoing_queries.len() > 0 {
                let qt = self.outgoing_queries[0];
                assert(self@.queries.contains_key(self@.outgoing[0]));
                match queries_get(&self.queries, qt) {
                    None => {},
                    Some(q) => {
                        match q.get_addr() {
                            None => {},
                            Some(addr) => {
                                send = Some((slice_to_vec(q.question_bytes()), *addr));
                            },
                        }
                    },
                }
            }
            return Plan { receive: events.is_readable(), send };
        }
        if token >= FIRST_DATAGRAM + DATAGRAM_BUF_SIZE {
            return Plan { receive: false, send: None };
        }
        match datagrams_get(&self.datagrams, token) {
            None => Plan { receive: false, send: None },
            Some(d) => {
                assert(self@.datagrams.contains_key(token));
                assert(self@.queries.contains_key(self@.datagrams[token].query_token));
                match d.wants(events) {
                    Ok(IoRequest::Receive) => Plan { receive: true, send: None },
                    Ok(IoRequest::Send) => Plan {
                        receive: false,
                        send: Some((slice_to_vec(d.get_ref()), *d.get_addr())),
                    },
                    _ => Plan { receive: false, send: None },
                }
            },
        }
    }
}


impl ServerView {
    /// The dispatcher with the server socket registered as the queue of
    /// waiting queries asks.
    pub open spec fn settle(self) -> ServerView {
        ServerView { interest: server_interest(self.outgoing), ..self }
    }

    /// The socket outcome that an event on the datagram `token` is about:
    /// that of the send when the datagram wanted to send, else that of the
    /// receive.
    pub open spec fn outcome_for(
        self,
        token: usize,
        events: EventSet,
        recv: IoResult,
        send: IoResult,
    ) -> IoResult {
        if self.plan_send(token, events) is Some {
            send
        } else {
            recv
        }
    }

    /// What `ready` promises for an event on the server socket: first the
    /// receive is taken in, if the socket was readable; then the send is
    /// accounted for, if it was writable; then the socket is registered
    /// anew.  `mid` is the dispatcher between the two, `taken` the handle
    /// of the query that was taken on, `first` what taking it on asks.
    pub open spec fn served(
        self,
        events: EventSet,
        recv: IoResult,
        data: Seq<u8>,
        send: IoResult,
        mid: ServerView,
        taken: Option<usize>,
        first: Seq<Action>,
        after: ServerView,
        asked: Seq<Action>,
    ) -> bool {
        let last = if events.writable {
            mid.written(send)
        } else {
            mid
        };
        let second = if events.writable {
            mid.written_asks(send)
        } else {
            Seq::empty()
        };
        &&& if events.readable {
            self.taken_in(recv, data, mid, taken, first)
        } else {
            mid == self && first.len() == 0
        }
        &&& after == last.settle()
        &&& asked == (first + second).push(Action::ReregisterServer { interest: after.interest })
    }

    /// What `ready` promises for an event on a datagram: the event is
    /// handled, an error is handed on, and the server socket is registered
    /// anew.
    pub open spec fn relayed(
        self,
        token: usize,
        events: EventSet,
        io: IoResult,
        data: Seq<u8>,
        end_time: u64,
        now: u64,
        after: ServerView,
        asked: Seq<Action>,
        error: Option<Error>,
    ) -> bool {
        &&& after == self.after_datagram(token, events, io, data, end_time, now).settle()
        &&& asked == self.datagram_asks(token, events, io, data, end_time).push(
            Action::ReregisterServer { interest: after.interest },
        )
        &&& error == self.datagram_error(token, events, io, data)
    }
}

impl Server {
    /// Registers the server socket as the queue of waiting queries asks:
    /// readable always, writable while a query waits to be answered.
    fn settle(&mut self, actions: &mut Vec<Action>)
        requires
            old(self).steady(),
        ensures
            final(self).steady(),
            final(self)@ == old(self)@.settle(),
            final(actions)@ == old(actions)@.push(
                Action::ReregisterServer { interest: final(self)@.interest },
            ),
    {
        let interest = if self.outgoing_queries.len() == 0 {
            EventSet::readable()
        } else {
            EventSet::all()
        };
        self.interest = interest;
        actions.push(Action::ReregisterServer { interest });
    }

    /// A socket is ready.  `token` says which, `events` how.  The caller
    /// has made the socket calls that `plan` named: `recv` is what the
    /// receive came back with and `data` the octets it brought, `send` is
    /// what the send came back with.  The result is what the caller is to
    /// do next, ending with the new registration of the server socket, and
    /// the error that the event ended in, if it did.
    #[verifier::rlimit(40)]
    pub fn ready(
        &mut self,
        token: usize,
        events: EventSet,
        recv: IoResult,
        data: &[u8],
        send: IoResult,
    ) -> (r: (Vec<Action>, Option<Error>))
        requires
            old(self).wf(),
        ensures
            final(self).wf(),
            final(self)@.settled(),
            token == SERVER ==> r.1 is None && exists|mid: ServerView, taken: Option<usize>, first: Seq<Action>| #[trigger]
                old(self)@.served(events, recv, data@, send, mid, taken, first, final(self)@, r.0@),
            token != SERVER ==> exists|end_time: u64, now: u64| #[trigger]
                old(self)@.relayed(
                    token,
                    events,
                    old(self)@.outcome_for(token, events, recv, send),
                    data@,
                    end_time,
                    now,
                    final(self)@,
                    r.0@,
                    r.1,
                ),
            token != SERVER && !old(self)@.live(token) ==> final(self)@ == old(self)@,
    {
        let ghost before = self@;
        let mut actions: Vec<Action> = Vec::new();
        let mut error: Option<Error> = None;
        if token == SERVER {
            let ghost mut taken: Option<usize> = None;
            let ghost mut first: Seq<Action> = Seq::empty();
            if events.is_readable() {
                let (t, mut a) = self.server_readable(recv, data);
                proof {
                    taken = t;
                    first = a@;
                }
                actions.append(&mut a);
            }
            let ghost mid = self@;
            assert(actions@ =~= first);
            if events.is_writable() {
                let mut a = self.server_writable(send);
                actions.append(&mut a);
            }
            self.settle(&mut actions);
            proof {
                assert(before.served(events, recv, data@, send, mid, taken, first, self@, actions@));
            }
            let r = (actions, error);
            assert(before.served(events, recv, data@, send, mid, taken, first, self@, r.0@));
            r
        } else {
            let wants_send = match self.plan(token, events).send {
                Some(_) => true,
                None => false,
            };
            let io = if wants_send {
                send
            } else {
                recv
            };
            let r = self.datagram_event(token, events, io, data);
            let ghost (end_time, now) = choose|end_time: u64, now: u64| #[trigger]
                datagram_handled(before, token, events, io, data@, self@, r, end_time, now);
            let (mut a, e) = r;
            actions.append(&mut a);
            error = e;
            self.settle(&mut actions);
            proof {
                assert(io == before.outcome_for(token, events, recv, send));
                assert(before.relayed(token, events, io, data@, end_time, now, self@, actions@, error));
            }
            let r = (actions, error);
            assert(before.relayed(
                token,
                events,
                before.outcome_for(token, events, recv, send),
                data@,
                end_time,
                now,
                self@,
                r.0@,
                r.1,
            ));
            r
        }
    }
}


impl Server {
    /// The cache.
    pub fn cache(&self) -> (c: &Cache)
        requires
            self.wf(),
        ensures
            c.wf(),
            c@ == self@.cache,
    {
        &self.cache
    }

    /// Whether a query is under way under the handle `t`.
    pub fn has_query(&self, t: usize) -> (b: bool)
        requires
            self.wf(),
        ensures
            b == self@.queries.contains_key(t),
    {
        if t >= FIRST_QUERY + NUM_CONCURRENT_QUERIES {
            return false;
        }
        queries_get(&self.queries, t).is_some()
    }

    /// Whether a datagram is under way under the handle `t`.
    pub fn has_datagram(&self, t: usize) -> (b: bool)
        requires
            self.wf(),
        ensures
            b == self@.datagrams.contains_key(t),
    {
        if t >= FIRST_DATAGRAM + DATAGRAM_BUF_SIZE {
            return false;
        }
        datagrams_get(&self.datagrams, t).is_some()
    }

    /// How many queries wait to be answered.
    pub fn outgoing_len(&self) -> (n: usize)
        ensures
            n == self@.outgoing.len(),
    {
        self.outgoing_queries.len()
    }

    /// The interest that the server socket is registered with.
    pub fn interest(&self) -> (e: EventSet)
        ensures
            e == self@.interest,
    {
        self.interest
    }
}

} // verus!
