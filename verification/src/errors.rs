use vstd::prelude::*;
use crate::dns;

verus! {

/// What can go wrong while a query is handled.  None of these is fatal to
/// the dispatcher: each one ends the query it arose in.
#[derive(Debug, PartialEq, Eq, Clone, Copy, Structural)]
pub enum Error {
    /// An operation was asked of a query that is not in a state for it.
    QueryStateError,
    /// A message did not parse or could not be encoded.
    DnsParse(dns::Error),
    /// A socket call failed with something other than "would block".
    Io,
    /// A datagram was handed readiness that does not fit its mode.
    InvalidState,
    /// An upstream answered with another transaction id than the query's.
    InvalidTxId,
    /// An upstream sub-query was handed an event that its phase does not expect.
    InvalidResponse,
    /// The datagram is not one of the query's upstream sub-queries.
    NoUpstream,
    /// The query has no client address to answer to.
    NoClientAddress,
    /// More bytes were offered than the buffer has room for.
    Short,
}

} // verus!
