use pdnsd::cache::Cache;
use pdnsd::datagram::Datagram;
use pdnsd::datagram::State;
use pdnsd::dns;
use pdnsd::dns::Message;
use pdnsd::dns::ResourceData;
use pdnsd::dns::ResourceRecord;
use pdnsd::errors::Error;
use pdnsd::net::EventSet;
use pdnsd::net::IoResult;
use pdnsd::net::SocketAddr;
use pdnsd::query::Query;
use pdnsd::query::QueryPhase;
use pdnsd::query::Timeout;

fn request(tx: u16) -> Vec<u8> {
    vec![
        (tx >> 8) as u8, tx as u8, 0x01, 0x00, 0x00, 0x01, 0x00, 0x00, 0x00, 0x00, 0x00, 0x00, 4,
        b'f', b'a', b'r', b'k', 3, b'c', b'o', b'm', 0, 0x00, 0x01, 0x00, 0x01,
    ]
}

fn response(tx: u16) -> Vec<u8> {
    let mut v = request(tx);
    v[2] = 0x81;
    v[3] = 0x80;
    v[7] = 0x01;
    v.extend_from_slice(&[
        0xc0, 0x0c, 0x00, 0x01, 0x00, 0x01, 0x00, 0x00, 0x01, 0x2c, 0x00, 0x04, 64, 191, 171, 200,
    ]);
    v
}

fn client() -> SocketAddr {
    SocketAddr { ip: [127, 0, 0, 1], port: 40000 }
}

fn upstream() -> SocketAddr {
    SocketAddr { ip: [8, 8, 8, 8], port: 53 }
}

/// A query that has read `request(0x1234)` from the client.
fn arrived() -> Query {
    let mut q = Query::new(5);
    let bytes = request(0x1234);
    q.rx_buf()[..bytes.len()].copy_from_slice(&bytes);
    assert_eq!(Ok(Some(())), q.rx(IoResult::Received(bytes.len(), client())));
    q
}

/// A query with one sub-query whose request is out.
fn waiting(d: &mut Datagram) -> Query {
    let mut q = arrived();
    q.add_upstream_token(d.token());
    d.fill(q.question_bytes()).unwrap();
    assert_eq!(Ok(false), q.datagram_event(d, EventSet::writable(), IoResult::Sent(26)));
    q
}

#[test]
fn new_query_waits_with_nothing() {
    let mut q = Query::new(5);
    assert_eq!(5, q.token());
    assert_eq!(QueryPhase::Waiting, q.phase());
    assert!(q.get_addr().is_none());
    assert!(q.upstream_tokens().is_empty());
    assert_eq!(None, q.timeout());
    assert_eq!(None, q.take_timeout());
}

#[test]
fn rx_parses_and_keeps_the_sender() {
    let q = arrived();
    assert_eq!(Some(&client()), q.get_addr());
    assert_eq!(q.question_bytes(), &request(0x1234)[..]);
    assert_eq!(QueryPhase::Waiting, q.phase());
}

#[test]
fn rx_without_data_changes_nothing() {
    let mut q = Query::new(5);
    assert_eq!(Ok(None), q.rx(IoResult::WouldBlock));
    assert!(q.get_addr().is_none());
    assert_eq!(Err(Error::Io), q.rx(IoResult::Failed));
    assert_eq!(Err(Error::InvalidState), q.rx(IoResult::Sent(3)));
    assert_eq!(Err(Error::Short), q.rx(IoResult::Received(513, client())));
    assert_eq!(QueryPhase::Waiting, q.phase());
}

#[test]
fn rx_of_garbage_is_a_parse_error() {
    let mut q = Query::new(5);
    q.load(&[1, 2, 3]);
    assert_eq!(Err(Error::DnsParse(dns::Error::Truncated)), q.rx(IoResult::Received(3, client())));
    assert!(q.get_addr().is_none());
}

#[test]
fn timeout_is_set_and_taken_once() {
    let mut q = Query::new(5);
    q.set_timeout(Timeout(5));
    assert_eq!(Some(Timeout(5)), q.timeout());
    assert_eq!(Some(Timeout(5)), q.take_timeout());
    assert_eq!(None, q.take_timeout());
}

#[test]
fn sub_query_goes_from_send_to_wait_to_ready() {
    let mut d = Datagram::new(9, 5, upstream());
    let mut q = arrived();
    q.add_upstream_token(9);
    assert_eq!(vec![9], q.upstream_tokens());
    d.fill(q.question_bytes()).unwrap();
    assert_eq!(Ok(false), q.datagram_event(&mut d, EventSet::writable(), IoResult::Sent(26)));
    assert_eq!(State::Rx, d.state());
    assert_eq!(QueryPhase::Waiting, q.phase());
    let r = response(0x1234);
    d.load(&r);
    assert_eq!(Ok(true), q.datagram_event(&mut d, EventSet::readable(), IoResult::Received(r.len(), upstream())));
    assert_eq!(State::Idle, d.state());
    assert_eq!(QueryPhase::ResponseReady, q.phase());
    assert_eq!(q.question_bytes(), &r[..]);
    // an event for a sub-query that has its response is ignored
    assert_eq!(Ok(false), q.datagram_event(&mut d, EventSet::readable(), IoResult::Received(1, upstream())));
    assert_eq!(QueryPhase::ResponseReady, q.phase());
    assert_eq!(q.question_bytes(), &r[..]);
}

#[test]
fn partial_send_stays_in_send_request() {
    let mut d = Datagram::new(9, 5, upstream());
    let mut q = arrived();
    q.add_upstream_token(9);
    d.fill(q.question_bytes()).unwrap();
    assert_eq!(Ok(false), q.datagram_event(&mut d, EventSet::writable(), IoResult::Sent(10)));
    assert_eq!(State::Tx, d.state());
    assert_eq!(16, d.get_ref().len());
}

#[test]
fn send_request_fails_on_anything_else() {
    let mut d = Datagram::new(9, 5, upstream());
    let mut q = arrived();
    q.add_upstream_token(9);
    d.fill(q.question_bytes()).unwrap();
    assert_eq!(Err(Error::InvalidResponse), q.datagram_event(&mut d, EventSet::writable(), IoResult::WouldBlock));
    assert_eq!(Err(Error::InvalidResponse), q.datagram_event(&mut d, EventSet::writable(), IoResult::Sent(27)));
    assert_eq!(Err(Error::InvalidState), q.datagram_event(&mut d, EventSet::readable(), IoResult::Sent(26)));
    assert_eq!(Err(Error::Io), q.datagram_event(&mut d, EventSet::writable(), IoResult::Failed));
    assert_eq!(State::Tx, d.state());
}

#[test]
fn wrong_transaction_id_leaves_the_query_waiting() {
    let mut d = Datagram::new(9, 5, upstream());
    let mut q = waiting(&mut d);
    let r = response(0x4321);
    d.load(&r);
    assert_eq!(
        Err(Error::InvalidTxId),
        q.datagram_event(&mut d, EventSet::readable(), IoResult::Received(r.len(), upstream()))
    );
    assert_eq!(QueryPhase::Waiting, q.phase());
    assert_eq!(State::Rx, d.state());
    assert_eq!(q.question_bytes(), &request(0x1234)[..]);
}

#[test]
fn response_that_does_not_parse_is_a_parse_error() {
    let mut d = Datagram::new(9, 5, upstream());
    let mut q = waiting(&mut d);
    d.load(&[0; 5]);
    assert_eq!(
        Err(Error::DnsParse(dns::Error::Truncated)),
        q.datagram_event(&mut d, EventSet::readable(), IoResult::Received(5, upstream()))
    );
    assert_eq!(QueryPhase::Waiting, q.phase());
}

#[test]
fn wait_response_fails_on_anything_else() {
    let mut d = Datagram::new(9, 5, upstream());
    let mut q = waiting(&mut d);
    assert_eq!(Err(Error::InvalidResponse), q.datagram_event(&mut d, EventSet::readable(), IoResult::WouldBlock));
    assert_eq!(Err(Error::InvalidState), q.datagram_event(&mut d, EventSet::writable(), IoResult::Sent(1)));
}

#[test]
fn datagram_of_another_query_is_no_upstream() {
    let mut d = Datagram::new(9, 5, upstream());
    let mut other = Datagram::new(10, 6, upstream());
    let mut q = waiting(&mut d);
    assert_eq!(Err(Error::NoUpstream), q.datagram_event(&mut other, EventSet::readable(), IoResult::WouldBlock));
}

#[test]
fn query_takes_sixteen_sub_queries_and_no_more() {
    let mut q = arrived();
    for t in 0..20 {
        q.add_upstream_token(100 + t);
    }
    let tokens = q.upstream_tokens();
    assert_eq!(16, tokens.len());
    assert_eq!(100, tokens[0]);
    assert_eq!(115, tokens[15]);
}

#[test]
fn answers_go_into_the_cache_under_their_own_names() {
    let mut d = Datagram::new(9, 5, upstream());
    let mut q = waiting(&mut d);
    let r = response(0x1234);
    d.load(&r);
    q.datagram_event(&mut d, EventSet::readable(), IoResult::Received(r.len(), upstream())).unwrap();
    let mut cache = Cache::new();
    q.add_to_cache(77, &mut cache);
    assert!(cache.get(b"fark.com").is_none());
    q.add_to_cache(9, &mut cache);
    let got = cache.get(b"fark.com").unwrap();
    assert_eq!(1, got.len());
    assert!(matches!(got[0].r_data, ResourceData::A([64, 191, 171, 200])));
}

#[test]
fn cached_response_copies_id_and_questions() {
    let mut cache = Cache::new();
    let q = arrived();
    assert!(!q.answer_in_cache(&cache));
    assert!(matches!(q.build_cached_response(&cache), Err(Error::QueryStateError)));
    cache.add(b"fark.com", ResourceRecord::new(b"fark.com", 1, 1, 300, ResourceData::A([64, 191, 171, 200])).unwrap());
    cache.add(b"fark.com", ResourceRecord::new(b"fark.com", 1, 1, 300, ResourceData::A([64, 191, 171, 201])).unwrap());
    assert!(q.answer_in_cache(&cache));
    let m = q.build_cached_response(&cache).unwrap();
    assert_eq!(0x1234, m.tx_id);
    assert_eq!(0x8180, m.flags);
    assert_eq!(1, m.questions().len());
    assert_eq!("fark.com", m.questions()[0].name());
    assert_eq!(2, m.answers().len());
    assert!(matches!(m.answers()[1].r_data, ResourceData::A([64, 191, 171, 201])));
    assert!(matches!(Query::new(1).build_cached_response(&cache), Err(Error::QueryStateError)));
    assert!(!Query::new(1).answer_in_cache(&cache));
}

#[test]
fn cached_response_copies_recursion_desired() {
    let mut cache = Cache::new();
    cache.add(b"fark.com", ResourceRecord::new(b"fark.com", 1, 1, 300, ResourceData::A([1, 2, 3, 4])).unwrap());
    let mut q = Query::new(5);
    let mut bytes = request(0x0001);
    bytes[2] = 0;
    q.load(&bytes);
    q.rx(IoResult::Received(bytes.len(), client())).unwrap();
    let m = q.build_cached_response(&cache).unwrap();
    assert_eq!(0x8080, m.flags);
}

#[test]
fn cache_of_another_type_is_no_answer() {
    let mut cache = Cache::new();
    cache.add(b"fark.com", ResourceRecord::new(b"fark.com", 15, 1, 300, ResourceData::Bytes(vec![0, 1, 0])).unwrap());
    let q = arrived();
    assert!(!q.answer_in_cache(&cache));
}

#[test]
fn answer_from_cache_makes_the_response_ready() {
    let mut cache = Cache::new();
    cache.add(b"fark.com", ResourceRecord::new(b"fark.com", 1, 1, 300, ResourceData::A([64, 191, 171, 200])).unwrap());
    let mut q = arrived();
    assert_eq!(Ok(()), q.answer_from_cache(&cache));
    assert_eq!(QueryPhase::ResponseReady, q.phase());
    assert_eq!(q.question_bytes(), &response(0x1234)[..]);
    let mut empty = Query::new(1);
    assert_eq!(Err(Error::QueryStateError), empty.answer_from_cache(&cache));
    assert_eq!(QueryPhase::Waiting, empty.phase());
}

#[test]
fn copy_message_bytes_replaces_what_is_sent() {
    let mut q = arrived();
    assert_eq!(Ok(()), q.copy_message_bytes(&[1, 2, 3]));
    assert_eq!(q.question_bytes(), &[1, 2, 3]);
    assert_eq!(Err(Error::Short), q.copy_message_bytes(&[0; 513]));
    assert_eq!(q.question_bytes(), &[1, 2, 3]);
    let m = Message::new(&request(1)).unwrap();
    assert_eq!(1, m.tx_id);
}
