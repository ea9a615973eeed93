use vstd::prelude::*;
use slab::Slab;
use crate::datagram::Datagram;
use crate::datagram::DatagramView;
use crate::net::SocketAddr;
use crate::query::Query;
use crate::query::QueryView;

verus! {

/// The slots of the queries: a slab of fixed size whose handles start at
/// a given number.
#[derive(Debug)]
#[verifier::external_body]
pub struct QuerySlab {
    inner: Slab<Query, usize>,
}

/// The slots of the upstream datagrams: a slab of fixed size whose handles
/// start at a given number.
#[derive(Debug)]
#[verifier::external_body]
pub struct DatagramSlab {
    inner: Slab<Datagram, usize>,
}

/// The queries that a slab holds, by handle, each as its view.
pub uninterp spec fn query_slots(s: QuerySlab) -> Map<usize, QueryView>;

/// The first handle of a slab of queries.
pub uninterp spec fn query_first(s: QuerySlab) -> usize;

/// The number of slots of a slab of queries.
pub uninterp spec fn query_limit(s: QuerySlab) -> usize;

/// The datagrams that a slab holds, by handle, each as its view.
pub uninterp spec fn datagram_slots(s: DatagramSlab) -> Map<usize, DatagramView>;

/// The first handle of a slab of datagrams.
pub uninterp spec fn datagram_first(s: DatagramSlab) -> usize;

/// The number of slots of a slab of datagrams.
pub uninterp spec fn datagram_limit(s: DatagramSlab) -> usize;

/// `Slab::new_starting_at`: a slab of `limit` empty slots whose handles
/// are `first`, `first + 1` and so on.  The limit is below the largest
/// number, for the call counts one past it.
#[verifier::external_body]
pub(crate) fn queries_new(first: usize, limit: usize) -> (s: QuerySlab)
    requires
        first + limit <= usize::MAX,
        limit < usize::MAX,
    ensures
        query_slots(s).dom() =~= Set::empty(),
        query_first(s) == first,
        query_limit(s) == limit,
{
    QuerySlab { inner: Slab::new_starting_at(first, limit) }
}

/// `Slab::insert_with`: if a slot is free, the slab takes one, hands its
/// handle to `Query::new` and keeps what that makes; the handle comes
/// back.  Which of the free slots it takes is not told.  If no slot is
/// free, nothing changes and nothing comes back.
#[verifier::external_body]
pub(crate) fn queries_insert(s: &mut QuerySlab) -> (r: Option<usize>)
    requires
        query_slots(*old(s)).dom().finite(),
    ensures
        query_first(*final(s)) == query_first(*old(s)),
        query_limit(*final(s)) == query_limit(*old(s)),
        query_slots(*final(s)).dom().finite(),
        r is None <==> query_slots(*old(s)).dom().len() >= query_limit(*old(s)),
        r is None ==> query_slots(*final(s)) == query_slots(*old(s)),
        r matches Some(t) ==> {
            &&& query_first(*old(s)) <= t < query_first(*old(s)) + query_limit(*old(s))
            &&& !query_slots(*old(s)).contains_key(t)
            &&& query_slots(*final(s)) == query_slots(*old(s)).insert(t, QueryView::fresh(t))
        },
{
    s.inner.insert_with(|t| Query::new(t))
}

/// `Slab::get`: the query in the slot with the handle `t`, if the slot is
/// taken.  The handle is below the end of the slab's handles.
#[verifier::external_body]
pub(crate) fn queries_get(s: &QuerySlab, t: usize) -> (r: Option<&Query>)
    requires
        t < query_first(*s) + query_limit(*s),
    ensures
        r is Some <==> query_slots(*s).contains_key(t),
        r matches Some(q) ==> q@ == query_slots(*s)[t],
{
    s.inner.get(t)
}

/// `Slab::index_mut`: the query in the taken slot with the handle `t`, to
/// be written through.  The other slots stay as they are.
#[verifier::external_body]
pub(crate) fn queries_get_mut(s: &mut QuerySlab, t: usize) -> (q: &mut Query)
    requires
        t < query_first(*old(s)) + query_limit(*old(s)),
        query_slots(*old(s)).contains_key(t),
    ensures
        q@ == query_slots(*old(s))[t],
        query_slots(*final(s)) == query_slots(*old(s)).insert(t, final(q)@),
        query_first(*final(s)) == query_first(*old(s)),
        query_limit(*final(s)) == query_limit(*old(s)),
{
    &mut s.inner[t]
}

/// `Slab::remove`: frees the taken slot with the handle `t` and hands
/// back what it held.
#[verifier::external_body]
pub(crate) fn queries_remove(s: &mut QuerySlab, t: usize) -> (r: Option<Query>)
    requires
        t < query_first(*old(s)) + query_limit(*old(s)),
        query_slots(*old(s)).contains_key(t),
    ensures
        r matches Some(q) && q@ == query_slots(*old(s))[t],
        query_slots(*final(s)) == query_slots(*old(s)).remove(t),
        query_first(*final(s)) == query_first(*old(s)),
        query_limit(*final(s)) == query_limit(*old(s)),
{
    s.inner.remove(t)
}

/// `Slab::new_starting_at`: a slab of `limit` empty slots whose handles
/// are `first`, `first + 1` and so on.  The limit is below the largest
/// number, for the call counts one past it.
#[verifier::external_body]
pub(crate) fn datagrams_new(first: usize, limit: usize) -> (s: DatagramSlab)
    requires
        first + limit <= usize::MAX,
        limit < usize::MAX,
    ensures
        datagram_slots(s).dom() =~= Set::empty(),
        datagram_first(s) == first,
        datagram_limit(s) == limit,
{
    DatagramSlab { inner: Slab::new_starting_at(first, limit) }
}

/// `Slab::insert_with`: if a slot is free, the slab takes one, hands its
/// handle to `Datagram::new` with the query's handle and the resolver's
/// address, and keeps what that makes; the handle comes back.  Which of
/// the free slots it takes is not told.  If no slot is free, nothing
/// changes and nothing comes back.
#[verifier::external_body]
pub(crate) fn datagrams_insert(s: &mut DatagramSlab, query: usize, remote: SocketAddr) -> (r: Option<
    usize,
>)
    requires
        datagram_slots(*old(s)).dom().finite(),
    ensures
        datagram_first(*final(s)) == datagram_first(*old(s)),
        datagram_limit(*final(s)) == datagram_limit(*old(s)),
        datagram_slots(*final(s)).dom().finite(),
        r is None <==> datagram_slots(*old(s)).dom().len() >= datagram_limit(*old(s)),
        r is None ==> datagram_slots(*final(s)) == datagram_slots(*old(s)),
        r matches Some(t) ==> {
            &&& datagram_first(*old(s)) <= t < datagram_first(*old(s)) + datagram_limit(*old(s))
            &&& !datagram_slots(*old(s)).contains_key(t)
            &&& datagram_slots(*final(s)) == datagram_slots(*old(s)).insert(
                t,
                DatagramView::fresh(t, query, remote),
            )
        },
{
    s.inner.insert_with(|t| Datagram::new(t, query, remote))
}

/// `Slab::get`: the datagram in the slot with the handle `t`, if the slot
/// is taken.  The handle is below the end of the slab's handles.
#[verifier::external_body]
pub(crate) fn datagrams_get(s: &DatagramSlab, t: usize) -> (r: Option<&Datagram>)
    requires
        t < datagram_first(*s) + datagram_limit(*s),
    ensures
        r is Some <==> datagram_slots(*s).contains_key(t),
        r matches Some(d) ==> d@ == datagram_slots(*s)[t],
{
    s.inner.get(t)
}

/// `Slab::index_mut`: the datagram in the taken slot with the handle `t`,
/// to be written through.  The other slots stay as they are.
#[verifier::external_body]
pub(crate) fn datagrams_get_mut(s: &mut DatagramSlab, t: usize) -> (d: &mut Datagram)
    requires
        t < datagram_first(*old(s)) + datagram_limit(*old(s)),
        datagram_slots(*old(s)).contains_key(t),
    ensures
        d@ == datagram_slots(*old(s))[t],
        datagram_slots(*final(s)) == datagram_slots(*old(s)).insert(t, final(d)@),
        datagram_first(*final(s)) == datagram_first(*old(s)),
        datagram_limit(*final(s)) == datagram_limit(*old(s)),
{
    &mut s.inner[t]
}

/// `Slab::remove`: frees the taken slot with the handle `t` and hands
/// back what it held.
#[verifier::external_body]
pub(crate) fn datagrams_remove(s: &mut DatagramSlab, t: usize) -> (r: Option<Datagram>)
    requires
        t < datagram_first(*old(s)) + datagram_limit(*old(s)),
        datagram_slots(*old(s)).contains_key(t),
    ensures
        r matches Some(d) && d@ == datagram_slots(*old(s))[t],
        datagram_slots(*final(s)) == datagram_slots(*old(s)).remove(t),
        datagram_first(*final(s)) == datagram_first(*old(s)),
        datagram_limit(*final(s)) == datagram_limit(*old(s)),
{
    s.inner.remove(t)
}


/// `Slab::count`: how many slots are taken.
#[verifier::external_body]
pub(crate) fn datagrams_count(s: &DatagramSlab) -> (n: usize)
    requires
        datagram_slots(*s).dom().finite(),
    ensures
        n == datagram_slots(*s).dom().len(),
{
    s.inner.count()
}

} // verus!
