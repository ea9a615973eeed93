use pdnsd::dns::Message;
use pdnsd::dns::ResourceData;
use pdnsd::errors::Error;
use pdnsd::net::EventSet;
use pdnsd::net::IoResult;
use pdnsd::net::PollOpt;
use pdnsd::net::SocketAddr;
use pdnsd::query::Timeout;
use pdnsd::server::Action;
use pdnsd::server::Server;
use pdnsd::server::ServerEvent;
use pdnsd::server::SERVER;

fn request(tx: u16, name: &[&[u8]]) -> Vec<u8> {
    let mut v = vec![(tx >> 8) as u8, tx as u8, 0x01, 0x00, 0x00, 0x01, 0x00, 0x00, 0x00, 0x00, 0x00, 0x00];
    for label in name {
        v.push(label.len() as u8);
        v.extend_from_slice(label);
    }
    v.extend_from_slice(&[0, 0x00, 0x01, 0x00, 0x01]);
    v
}

fn response(tx: u16, name: &[&[u8]], addrs: &[[u8; 4]]) -> Vec<u8> {
    let mut v = request(tx, name);
    v[2] = 0x81;
    v[3] = 0x80;
    v[7] = addrs.len() as u8;
    for a in addrs {
        v.extend_from_slice(&[0xc0, 0x0c, 0x00, 0x01, 0x00, 0x01, 0x00, 0x00, 0x01, 0x2c, 0x00, 0x04]);
        v.extend_from_slice(a);
    }
    v
}

fn fark(tx: u16) -> Vec<u8> {
    request(tx, &[b"fark", b"com"])
}

fn fark_response(tx: u16) -> Vec<u8> {
    response(tx, &[b"fark", b"com"], &[[64, 191, 171, 200]])
}

fn client() -> SocketAddr {
    SocketAddr { ip: [127, 0, 0, 1], port: 40000 }
}

fn a() -> SocketAddr {
    SocketAddr { ip: [8, 8, 8, 8], port: 53 }
}

fn b() -> SocketAddr {
    SocketAddr { ip: [8, 8, 4, 4], port: 53 }
}

fn server() -> Server {
    Server::new(vec![a(), b()])
}

fn rw() -> Action {
    Action::ReregisterServer { interest: EventSet::all() }
}

fn ro() -> Action {
    Action::ReregisterServer { interest: EventSet::readable() }
}

/// Hands a client datagram in; says which query and datagrams were made.
fn ask(s: &mut Server, bytes: &[u8]) -> (usize, Vec<usize>) {
    let (actions, error) = s.ready(SERVER, EventSet::readable(), IoResult::Received(bytes.len(), client()), bytes, IoResult::Skipped);
    assert_eq!(None, error);
    let mut tokens = vec![];
    let mut query = None;
    for act in &actions {
        match act {
            Action::Register { token, .. } => tokens.push(*token),
            Action::SetTimeout { query: q, .. } => query = Some(*q),
            _ => {},
        }
    }
    (query.unwrap(), tokens)
}

/// Sends the request of the datagram `t` out in full.
fn send_out(s: &mut Server, t: usize, len: usize) {
    let plan = s.plan(t, EventSet::writable());
    assert!(!plan.receive);
    assert_eq!(len, plan.send.unwrap().0.len());
    let (actions, error) = s.ready(t, EventSet::writable(), IoResult::Skipped, &[], IoResult::Sent(len));
    assert_eq!(None, error);
    assert_eq!(
        vec![Action::Reregister { token: t, interest: EventSet::readable(), opts: PollOpt::edge_oneshot() }, ro()],
        actions
    );
}

fn reply(s: &mut Server, t: usize, from: SocketAddr, bytes: &[u8]) -> (Vec<Action>, Option<Error>) {
    let plan = s.plan(t, EventSet::readable());
    assert!(plan.receive);
    assert!(plan.send.is_none());
    s.ready(t, EventSet::readable(), IoResult::Received(bytes.len(), from), bytes, IoResult::Skipped)
}

/// Sends the response at the front of the queue to the client in full.
fn answer(s: &mut Server) -> Vec<u8> {
    let plan = s.plan(SERVER, EventSet::all());
    assert!(plan.receive);
    let (bytes, to) = plan.send.unwrap();
    assert_eq!(client(), to);
    let (actions, error) = s.ready(SERVER, EventSet::writable(), IoResult::Skipped, &[], IoResult::Sent(bytes.len()));
    assert_eq!(None, error);
    assert_eq!(&ro(), actions.last().unwrap());
    bytes
}

#[test]
fn default_resolvers_are_the_two_public_ones() {
    assert_eq!(vec![a(), b()], Server::default_upstreams());
}

#[test]
fn new_server_listens_only() {
    let s = server();
    assert_eq!(EventSet::readable(), s.interest());
    assert_eq!(0, s.outgoing_len());
    assert!(!s.has_query(0));
    assert!(!s.has_datagram(2));
    let plan = s.plan(SERVER, EventSet::all());
    assert!(plan.receive);
    assert!(plan.send.is_none());
}

#[test]
fn query_fans_out_to_every_resolver() {
    let mut s = server();
    let bytes = fark(0x1234);
    let (actions, error) = s.ready(SERVER, EventSet::readable(), IoResult::Received(26, client()), &bytes, IoResult::Skipped);
    assert_eq!(None, error);
    assert_eq!(4, actions.len());
    let (t0, t1) = match (&actions[0], &actions[1]) {
        (Action::Register { token: t0, remote: r0, interest: i0, opts: o0 },
         Action::Register { token: t1, remote: r1, interest: i1, opts: o1 }) => {
            assert_eq!((&a(), &b()), (r0, r1));
            assert_eq!((&EventSet::writable(), &EventSet::writable()), (i0, i1));
            assert_eq!((&PollOpt::edge_oneshot(), &PollOpt::edge_oneshot()), (o0, o1));
            (*t0, *t1)
        },
        _ => panic!("two sockets are to be opened"),
    };
    assert!(t0 != t1 && t0 >= 2 && t1 >= 2 && t0 < 514 && t1 < 514);
    let q = match &actions[2] {
        Action::SetTimeout { query, timeout, delay_ms } => {
            assert_eq!(&Timeout(*query), timeout);
            assert_eq!(10000, *delay_ms);
            *query
        },
        _ => panic!("a timeout is to be armed"),
    };
    assert!(q < 256);
    assert_eq!(ro(), actions[3]);
    assert!(s.has_query(q) && s.has_datagram(t0) && s.has_datagram(t1));
    let plan = s.plan(t0, EventSet::writable());
    assert_eq!(Some((bytes.clone(), a())), plan.send);
    let plan = s.plan(t1, EventSet::writable());
    assert_eq!(Some((bytes, b())), plan.send);
}

#[test]
fn simple_round_trip() {
    let mut s = server();
    let (q, tokens) = ask(&mut s, &fark(0x1234));
    send_out(&mut s, tokens[0], 26);
    send_out(&mut s, tokens[1], 26);
    let (actions, error) = reply(&mut s, tokens[0], a(), &fark_response(0x1234));
    assert_eq!(None, error);
    let none = EventSet::none();
    assert_eq!(
        vec![
            Action::Reregister { token: tokens[0], interest: none, opts: PollOpt::empty() },
            Action::Deregister { token: tokens[0] },
            Action::Reregister { token: tokens[1], interest: none, opts: PollOpt::empty() },
            Action::Deregister { token: tokens[1] },
            Action::ClearTimeout { timeout: Timeout(q) },
            rw(),
        ],
        actions
    );
    assert!(!s.has_datagram(tokens[0]) && !s.has_datagram(tokens[1]));
    assert!(s.has_query(q));
    assert_eq!(1, s.outgoing_len());
    assert_eq!(EventSet::all(), s.interest());
    let got = s.cache().get(b"fark.com").unwrap();
    assert_eq!(1, got.len());
    assert!(matches!(got[0].r_data, ResourceData::A([64, 191, 171, 200])));
    let sent = answer(&mut s);
    assert_eq!(fark_response(0x1234), sent);
    assert!(!s.has_query(q));
    assert_eq!(0, s.outgoing_len());
    assert_eq!(EventSet::readable(), s.interest());
}

#[test]
fn multi_answer_response() {
    let mut s = server();
    let name: [&[u8]; 3] = [b"shops", b"shopify", b"com"];
    let addrs = [[23, 227, 38, 71], [23, 227, 38, 70], [23, 227, 38, 69], [23, 227, 38, 68]];
    let req = request(0x0042, &name);
    let (_, tokens) = ask(&mut s, &req);
    send_out(&mut s, tokens[1], req.len());
    let resp = response(0x0042, &name, &addrs);
    let (_, error) = reply(&mut s, tokens[1], b(), &resp);
    assert_eq!(None, error);
    let sent = answer(&mut s);
    assert_eq!(resp, sent);
    let m = Message::new(&sent).unwrap();
    assert_eq!(4, m.answers().len());
    let got = s.cache().get(b"shops.shopify.com").unwrap();
    assert_eq!(4, got.len());
    for i in 0..4 {
        assert!(matches!(got[i].r_data, ResourceData::A(x) if x == addrs[i]));
    }
}

#[test]
fn cache_hit_asks_no_resolver() {
    let mut s = server();
    let (_, tokens) = ask(&mut s, &fark(0x1234));
    send_out(&mut s, tokens[0], 26);
    reply(&mut s, tokens[0], a(), &fark_response(0x1234));
    answer(&mut s);
    let bytes = fark(0x5678);
    let (actions, error) = s.ready(SERVER, EventSet::readable(), IoResult::Received(26, client()), &bytes, IoResult::Skipped);
    assert_eq!(None, error);
    assert_eq!(vec![rw()], actions);
    assert_eq!(1, s.outgoing_len());
    let sent = answer(&mut s);
    let m = Message::new(&sent).unwrap();
    assert_eq!(0x5678, m.tx_id);
    assert!(m.is_response());
    assert!(m.recursion_available());
    assert_eq!(1, m.questions().len());
    assert_eq!("fark.com", m.questions()[0].name());
    assert_eq!(1, m.answers().len());
    assert!(matches!(m.answers()[0].r_data, ResourceData::A([64, 191, 171, 200])));
    assert_eq!(0, s.outgoing_len());
}

#[test]
fn fan_out_race_is_won_by_the_first() {
    let mut s = server();
    let (q, tokens) = ask(&mut s, &fark(0x1234));
    send_out(&mut s, tokens[0], 26);
    send_out(&mut s, tokens[1], 26);
    reply(&mut s, tokens[0], a(), &response(0x1234, &[b"fark", b"com"], &[[1, 1, 1, 1]]));
    assert!(!s.has_datagram(tokens[0]) && !s.has_datagram(tokens[1]));
    // the late response of the other resolver is for a dead handle
    let late = response(0x1234, &[b"fark", b"com"], &[[2, 2, 2, 2]]);
    let plan = s.plan(tokens[1], EventSet::readable());
    assert!(!plan.receive && plan.send.is_none());
    let (actions, error) = s.ready(tokens[1], EventSet::readable(), IoResult::Received(late.len(), b()), &late, IoResult::Skipped);
    assert_eq!(None, error);
    assert_eq!(vec![rw()], actions);
    assert_eq!(1, s.outgoing_len());
    assert!(s.has_query(q));
    let sent = answer(&mut s);
    assert!(matches!(Message::new(&sent).unwrap().answers()[0].r_data, ResourceData::A([1, 1, 1, 1])));
    assert_eq!(1, s.cache().get(b"fark.com").unwrap().len());
    assert!(!s.has_query(q));
}

#[test]
fn timeout_destroys_the_query() {
    let mut s = server();
    let (q, tokens) = ask(&mut s, &fark(0x1234));
    send_out(&mut s, tokens[0], 26);
    let actions = s.timeout(q);
    let none = EventSet::none();
    assert_eq!(
        vec![
            Action::Reregister { token: tokens[0], interest: none, opts: PollOpt::empty() },
            Action::Deregister { token: tokens[0] },
            Action::Reregister { token: tokens[1], interest: none, opts: PollOpt::empty() },
            Action::Deregister { token: tokens[1] },
            Action::ClearTimeout { timeout: Timeout(q) },
        ],
        actions
    );
    assert!(!s.has_query(q));
    assert!(!s.has_datagram(tokens[0]) && !s.has_datagram(tokens[1]));
    assert_eq!(0, s.outgoing_len());
    assert_eq!(EventSet::readable(), s.interest());
    assert!(s.plan(SERVER, EventSet::all()).send.is_none());
    // the freed handles are there for the next request
    let (q2, tokens2) = ask(&mut s, &fark(0x1234));
    assert_eq!(q, q2);
    assert_eq!(2, tokens2.len());
    assert!(tokens2.contains(&tokens[0]) && tokens2.contains(&tokens[1]));
    // a timeout for a handle that is not under way does nothing
    assert!(s.timeout(200).is_empty());
    assert!(s.timeout(100000).is_empty());
    assert!(s.has_query(q2));
}

#[test]
fn transaction_id_mismatch_is_discarded() {
    let mut s = server();
    let (q, tokens) = ask(&mut s, &fark(0x1234));
    send_out(&mut s, tokens[0], 26);
    send_out(&mut s, tokens[1], 26);
    let (actions, error) = reply(&mut s, tokens[0], a(), &fark_response(0x9999));
    assert_eq!(Some(Error::InvalidTxId), error);
    assert_eq!(vec![ro()], actions);
    assert!(s.has_query(q));
    assert!(s.has_datagram(tokens[0]) && s.has_datagram(tokens[1]));
    assert_eq!(0, s.outgoing_len());
    assert!(s.cache().get(b"fark.com").is_none());
    // the other resolver can still answer
    let (_, error) = reply(&mut s, tokens[1], b(), &fark_response(0x1234));
    assert_eq!(None, error);
    assert_eq!(fark_response(0x1234), answer(&mut s));
}

#[test]
fn request_that_does_not_parse_is_dropped() {
    let mut s = server();
    let (actions, error) = s.ready(SERVER, EventSet::readable(), IoResult::Received(3, client()), &[1, 2, 3], IoResult::Skipped);
    assert_eq!(None, error);
    assert_eq!(vec![ro()], actions);
    assert!(!s.has_query(0));
    for io in [IoResult::WouldBlock, IoResult::Failed, IoResult::Skipped, IoResult::Received(5, client())] {
        let (actions, _) = s.ready(SERVER, EventSet::readable(), io, &fark(1), IoResult::Skipped);
        assert_eq!(vec![ro()], actions);
        assert!(!s.has_query(0));
    }
}

#[test]
fn partial_send_stays_at_the_front() {
    let mut s = server();
    let (q, tokens) = ask(&mut s, &fark(0x1234));
    send_out(&mut s, tokens[0], 26);
    reply(&mut s, tokens[0], a(), &fark_response(0x1234));
    for io in [IoResult::Sent(10), IoResult::WouldBlock, IoResult::Failed, IoResult::Skipped] {
        let (actions, error) = s.ready(SERVER, EventSet::writable(), IoResult::Skipped, &[], io);
        assert_eq!(None, error);
        assert_eq!(vec![rw()], actions);
        assert!(s.has_query(q));
        assert_eq!(1, s.outgoing_len());
    }
    assert_eq!(Ok(None), s.outgoing_query_event(IoResult::Sent(10)));
    assert_eq!(Ok(Some(q)), s.outgoing_query_event(IoResult::Sent(42)));
    assert_eq!(Err(Error::Io), s.outgoing_query_event(IoResult::Failed));
    assert_eq!(fark_response(0x1234), answer(&mut s));
    assert_eq!(Err(Error::QueryStateError), s.outgoing_query_event(IoResult::Sent(42)));
}

#[test]
fn responses_leave_in_the_order_they_were_ready() {
    let mut s = server();
    let (q1, t1) = ask(&mut s, &fark(1));
    let (q2, t2) = ask(&mut s, &request(2, &[b"other", b"org"]));
    assert!(q1 != q2);
    send_out(&mut s, t1[0], 26);
    send_out(&mut s, t2[0], 27);
    reply(&mut s, t2[0], a(), &response(2, &[b"other", b"org"], &[[9, 9, 9, 9]]));
    reply(&mut s, t1[0], a(), &fark_response(1));
    assert_eq!(2, s.outgoing_len());
    assert_eq!(2, Message::new(&answer_keeping(&mut s)).unwrap().tx_id);
    assert_eq!(1, Message::new(&answer(&mut s)).unwrap().tx_id);
}

/// Like `answer`, while another response still waits.
fn answer_keeping(s: &mut Server) -> Vec<u8> {
    let (bytes, _) = s.plan(SERVER, EventSet::writable()).send.unwrap();
    let (actions, _) = s.ready(SERVER, EventSet::writable(), IoResult::Skipped, &[], IoResult::Sent(bytes.len()));
    assert_eq!(&rw(), actions.last().unwrap());
    bytes
}

#[test]
fn dead_tokens_change_nothing() {
    let mut s = server();
    let (q, tokens) = ask(&mut s, &fark(0x1234));
    for t in [0usize, 300, 513, 514, 10000, usize::MAX] {
        if tokens.contains(&t) {
            continue;
        }
        let (actions, error) = s.ready(t, EventSet::all(), IoResult::Received(26, a()), &fark(1), IoResult::Sent(26));
        assert_eq!(None, error);
        assert_eq!(vec![ro()], actions);
    }
    assert!(s.has_query(q));
    assert!(s.has_datagram(tokens[0]) && s.has_datagram(tokens[1]));
    assert_eq!(Some((fark(0x1234), a())), s.plan(tokens[0], EventSet::writable()).send);
}

#[test]
fn query_slots_run_out_at_256() {
    let mut s = Server::new(vec![]);
    for i in 0..256u16 {
        let (actions, _) = s.ready(SERVER, EventSet::readable(), IoResult::Received(26, client()), &fark(i), IoResult::Skipped);
        assert_eq!(2, actions.len());
    }
    let (actions, _) = s.ready(SERVER, EventSet::readable(), IoResult::Received(26, client()), &fark(999), IoResult::Skipped);
    assert_eq!(vec![ro()], actions);
    s.timeout(17);
    assert!(!s.has_query(17));
    let (q, tokens) = ask(&mut s, &fark(999));
    assert_eq!(17, q);
    assert!(tokens.is_empty());
    assert!(s.has_query(17));
}

#[test]
fn datagram_slots_run_out_at_512() {
    let mut s = server();
    for i in 0..256u16 {
        let (_, tokens) = ask(&mut s, &fark(i));
        assert_eq!(2, tokens.len());
    }
    assert!(s.has_datagram(2) && s.has_datagram(513));
    let mut three = Server::new(vec![a(), b(), a()]);
    for i in 0..170u16 {
        ask(&mut three, &fark(i));
    }
    // 510 datagrams are under way: the next query would need three more
    let (actions, _) = three.ready(SERVER, EventSet::readable(), IoResult::Received(26, client()), &fark(999), IoResult::Skipped);
    assert_eq!(vec![ro()], actions);
    assert!(!three.has_query(170));
}

#[test]
fn quit_and_interrupt_stop_the_loop() {
    let mut s = server();
    assert_eq!(vec![Action::Shutdown], s.notify(ServerEvent::Quit));
    assert_eq!(vec![Action::Shutdown], s.interrupted());
}

#[test]
fn more_resolvers_than_sub_queries() {
    let mut s = Server::new(vec![a(); 20]);
    let (q, tokens) = ask(&mut s, &fark(1));
    assert_eq!(16, tokens.len());
    let actions = s.timeout(q);
    assert_eq!(33, actions.len());
    assert!(!s.has_query(q));
    assert!(!s.has_datagram(tokens[0]));
}

#[test]
fn failed_sub_query_ends_the_query() {
    let none = EventSet::none();
    for (events, io, error) in [
        (EventSet::writable(), IoResult::Failed, Error::Io),
        (EventSet::readable(), IoResult::Sent(26), Error::InvalidState),
        (EventSet::writable(), IoResult::WouldBlock, Error::InvalidResponse),
        (EventSet::writable(), IoResult::Sent(27), Error::InvalidResponse),
    ] {
        let mut s = server();
        let (q, tokens) = ask(&mut s, &fark(0x1234));
        let (actions, e) = s.ready(tokens[0], events, IoResult::Skipped, &[], io);
        assert_eq!(Some(error), e);
        assert_eq!(
            vec![
                Action::Reregister { token: tokens[0], interest: none, opts: PollOpt::empty() },
                Action::Deregister { token: tokens[0] },
                Action::Reregister { token: tokens[1], interest: none, opts: PollOpt::empty() },
                Action::Deregister { token: tokens[1] },
                Action::ClearTimeout { timeout: Timeout(q) },
                ro(),
            ],
            actions
        );
        assert!(!s.has_query(q));
        assert!(!s.has_datagram(tokens[0]) && !s.has_datagram(tokens[1]));
        assert_eq!(0, s.outgoing_len());
    }
}

#[test]
fn response_that_does_not_parse_ends_the_query() {
    let mut s = server();
    let (q, tokens) = ask(&mut s, &fark(0x1234));
    send_out(&mut s, tokens[0], 26);
    let (actions, e) = reply(&mut s, tokens[0], a(), &[1, 2, 3]);
    assert_eq!(Some(Error::DnsParse(pdnsd::dns::Error::Truncated)), e);
    assert_eq!(6, actions.len());
    assert!(!s.has_query(q));
    // a receive whose octets are not handed in counts as failed
    let (q, tokens) = ask(&mut s, &fark(0x1234));
    send_out(&mut s, tokens[0], 26);
    let (_, e) = s.ready(tokens[0], EventSet::readable(), IoResult::Received(40, a()), &[0; 3], IoResult::Skipped);
    assert_eq!(Some(Error::Io), e);
    assert!(!s.has_query(q));
}
