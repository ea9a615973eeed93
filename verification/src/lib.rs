//! A caching DNS forwarder: the wire codec, the fixed-size byte buffer, the
//! record cache and the state machines that carry a client query through its
//! upstream sub-queries.  Sockets, timers and the readiness loop belong to the
//! program that links this library; the library decides, the program performs.
pub mod buf;
pub mod cache;
mod clock;
pub mod datagram;
pub mod net;
pub mod query;
pub mod server;
pub mod slots;
pub mod socket_buffer;
pub mod users;
pub mod dns;
pub mod errors;
pub mod wire;
pub mod roundtrip;
