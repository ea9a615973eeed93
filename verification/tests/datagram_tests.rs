use pdnsd::datagram::Datagram;
use pdnsd::datagram::EventResponse;
use pdnsd::datagram::State;
use pdnsd::errors::Error;
use pdnsd::net::EventSet;
use pdnsd::net::IoRequest;
use pdnsd::net::IoResult;
use pdnsd::net::PollOpt;
use pdnsd::net::SocketAddr;
use pdnsd::server::Action;

fn google() -> SocketAddr {
    SocketAddr { ip: [8, 8, 8, 8], port: 53 }
}

#[test]
fn new_datagram_is_idle() {
    let mut d = Datagram::new(7, 3, google());
    assert_eq!(State::Idle, d.state());
    assert_eq!(7, d.token());
    assert_eq!(3, d.query_token());
    assert_eq!(google(), *d.get_addr());
    assert_eq!((EventSet::none(), PollOpt::empty()), d.event_set_poll_opts());
    assert_eq!(Ok(IoRequest::Nothing), d.wants(EventSet::readable()));
    assert_eq!(Ok(EventResponse::Nothing), d.event(EventSet::all(), IoResult::Sent(3)));
    d.set_addr(SocketAddr { ip: [8, 8, 4, 4], port: 53 });
    assert_eq!(SocketAddr { ip: [8, 8, 4, 4], port: 53 }, *d.get_addr());
}

#[test]
fn filled_datagram_sends() {
    let mut d = Datagram::new(2, 0, google());
    assert_eq!(Ok(()), d.fill(&[1, 2, 3, 4, 5]));
    assert_eq!(State::Tx, d.state());
    assert_eq!(d.get_ref(), &[1, 2, 3, 4, 5]);
    assert_eq!((EventSet::writable(), PollOpt::edge_oneshot()), d.event_set_poll_opts());
    assert_eq!(Ok(IoRequest::Send), d.wants(EventSet::writable()));
    assert_eq!(Ok(EventResponse::Tx(None)), d.event(EventSet::writable(), IoResult::WouldBlock));
    assert_eq!(d.get_ref(), &[1, 2, 3, 4, 5]);
    assert_eq!(Ok(EventResponse::Tx(Some(2))), d.event(EventSet::writable(), IoResult::Sent(2)));
    assert_eq!(d.get_ref(), &[3, 4, 5]);
    assert_eq!(Ok(EventResponse::Tx(Some(9))), d.event(EventSet::all(), IoResult::Sent(9)));
    assert_eq!(d.get_ref().len(), 0);
}

#[test]
fn readiness_that_does_not_fit_is_invalid_state() {
    let mut d = Datagram::new(2, 0, google());
    d.fill(&[1]).unwrap();
    assert_eq!(Err(Error::InvalidState), d.wants(EventSet::readable()));
    assert_eq!(Err(Error::InvalidState), d.event(EventSet::readable(), IoResult::Sent(1)));
    assert_eq!(Err(Error::InvalidState), d.event(EventSet::writable(), IoResult::Received(1, google())));
    assert_eq!(Err(Error::InvalidState), d.event(EventSet::writable(), IoResult::Skipped));
    d.set_rx();
    assert_eq!(Err(Error::InvalidState), d.wants(EventSet::writable()));
    assert_eq!(Err(Error::InvalidState), d.event(EventSet::writable(), IoResult::WouldBlock));
    assert_eq!(Err(Error::InvalidState), d.event(EventSet::readable(), IoResult::Sent(1)));
    assert_eq!(d.get_ref().len(), 0);
}

#[test]
fn socket_failure_is_io() {
    let mut d = Datagram::new(2, 0, google());
    d.fill(&[1]).unwrap();
    assert_eq!(Err(Error::Io), d.event(EventSet::writable(), IoResult::Failed));
    d.set_rx();
    assert_eq!(Err(Error::Io), d.event(EventSet::readable(), IoResult::Failed));
}

#[test]
fn receiving_datagram_takes_what_comes() {
    let mut d = Datagram::new(2, 0, google());
    d.fill(&[1, 2, 3]).unwrap();
    d.set_rx();
    assert_eq!(State::Rx, d.state());
    assert_eq!(512, d.room());
    assert_eq!((EventSet::readable(), PollOpt::edge_oneshot()), d.event_set_poll_opts());
    assert_eq!(Ok(IoRequest::Receive), d.wants(EventSet::readable()));
    assert_eq!(Ok(EventResponse::Rx(None)), d.event(EventSet::readable(), IoResult::WouldBlock));
    {
        let room = d.get_mut();
        assert_eq!(512, room.len());
        room[0] = 9;
        room[1] = 8;
    }
    assert_eq!(
        Ok(EventResponse::Rx(Some((2, google())))),
        d.event(EventSet::readable(), IoResult::Received(2, google()))
    );
    assert_eq!(d.get_ref(), &[9, 8]);
    d.load(&[7]);
    d.event(EventSet::readable(), IoResult::Received(1, google())).unwrap();
    assert_eq!(d.get_ref(), &[9, 8, 7]);
    d.set_idle();
    assert_eq!(State::Idle, d.state());
    assert_eq!(d.get_ref(), &[9, 8, 7]);
}

#[test]
fn fill_refuses_more_than_a_buffer() {
    let mut d = Datagram::new(2, 0, google());
    assert_eq!(Err(Error::Short), d.fill(&[0; 513]));
    assert_eq!(State::Idle, d.state());
    assert_eq!(Ok(()), d.fill(&[0; 512]));
    assert_eq!(512, d.get_ref().len());
}

#[test]
fn registration_follows_the_direction() {
    let mut d = Datagram::new(7, 3, google());
    assert_eq!(
        Action::Register { token: 7, remote: google(), interest: EventSet::none(), opts: PollOpt::empty() },
        d.register()
    );
    d.fill(&[1]).unwrap();
    assert_eq!(
        Action::Register { token: 7, remote: google(), interest: EventSet::writable(), opts: PollOpt::edge_oneshot() },
        d.register()
    );
    assert_eq!(
        Action::Reregister { token: 7, interest: EventSet::writable(), opts: PollOpt::edge_oneshot() },
        d.reregister()
    );
    d.set_rx();
    assert_eq!(
        Action::Reregister { token: 7, interest: EventSet::readable(), opts: PollOpt::edge_oneshot() },
        d.reregister()
    );
    d.set_idle();
    assert_eq!(Action::Reregister { token: 7, interest: EventSet::none(), opts: PollOpt::empty() }, d.reregister());
}
