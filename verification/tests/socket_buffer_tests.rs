use pdnsd::buf::Mode;
use pdnsd::net::EventSet;
use pdnsd::socket_buffer::Buffer;
use pdnsd::users::get_ids;
use pdnsd::users::Error;

#[test]
fn closed_buffer_waits_for_nothing() {
    let b = Buffer::new();
    assert!(!b.is_buf());
    assert!(!b.is_mut_buf());
    assert_eq!(EventSet::none(), b.event_set());
}

#[test]
fn reading_from_closed_makes_a_buffer() {
    let mut b = Buffer::new();
    b.to_reading();
    assert!(b.is_mut_buf());
    assert_eq!(EventSet::readable(), b.event_set());
    b.flip();
    b.to_writing();
    assert!(b.is_buf());
    assert_eq!(EventSet::writable(), b.event_set());
    b.close();
    assert_eq!(EventSet::none(), b.event_set());
}

#[test]
fn writing_side_flips_to_reading_side() {
    let mut b = Buffer::new();
    b.to_buf();
    b.to_writing();
    assert!(b.is_buf());
    assert_eq!(Mode::Reading, b.buf().get_mode());
    b.flip();
    b.to_reading();
    b.to_mut_buf();
    b.to_reading();
    assert!(b.is_mut_buf());
}

#[test]
fn ids_need_both_user_and_group() {
    assert!(matches!(get_ids(Ok(10), Ok(20)), Ok((10, 20))));
    assert!(matches!(get_ids(Err(Error::DUNNOLOL), Ok(20)), Err(Error::DUNNOLOL)));
    assert!(matches!(get_ids(Ok(10), Err(Error::DUNNOLOL)), Err(Error::DUNNOLOL)));
    assert!(matches!(get_ids(Err(Error::DUNNOLOL), Err(Error::DUNNOLOL)), Err(Error::DUNNOLOL)));
}
