use pdnsd::buf::ByteBuf;
use pdnsd::buf::Mode;
use pdnsd::errors::Error;

#[test]
fn new_buffer_reads_whole_capacity() {
    let b = ByteBuf::new();
    assert_eq!(b.get_mode(), Mode::Reading);
    assert_eq!(b.capacity(), 512);
    assert_eq!(b.pos(), 0);
    assert_eq!(b.lim(), 512);
    assert_eq!(b.remaining(), 512);
    assert_eq!(b.bytes().len(), 512);
    assert!(b.bytes().iter().all(|x| *x == 0));
}

#[test]
fn write_then_flip_shows_what_was_written() {
    let mut b = ByteBuf::new();
    b.set_writable();
    assert_eq!(b.get_mode(), Mode::Writing);
    assert_eq!(3, b.write(&[1, 2, 3]));
    assert_eq!(b.pos(), 3);
    assert_eq!(b.bytes(), &[1, 2, 3]);
    assert_eq!(b.remaining(), 509);
    b.flip();
    assert_eq!(b.get_mode(), Mode::Reading);
    assert_eq!(b.pos(), 0);
    assert_eq!(b.lim(), 3);
    assert_eq!(b.bytes(), &[1, 2, 3]);
    b.advance(1);
    assert_eq!(b.bytes(), &[2, 3]);
}

#[test]
fn flip_twice_leaves_nothing_to_see() {
    let mut b = ByteBuf::new();
    b.set_writable();
    b.write(&[9; 40]);
    b.flip();
    b.flip();
    assert_eq!(b.get_mode(), Mode::Writing);
    assert_eq!(0, b.bytes().len());
    assert_eq!(b.pos(), 0);
    assert_eq!(b.lim(), 512);
    let mut r = ByteBuf::new();
    r.flip();
    r.flip();
    assert_eq!(r.get_mode(), Mode::Reading);
    assert_eq!(0, r.bytes().len());
}

#[test]
fn mark_and_reset_restore_the_position() {
    let mut b = ByteBuf::new();
    b.advance(7);
    b.mark();
    b.advance(100);
    b.set_pos(20);
    b.clear();
    b.advance(3);
    b.reset();
    assert_eq!(b.pos(), 7);
    assert_eq!(b.lim(), 512);
}

#[test]
fn advance_stops_at_the_limit() {
    let mut b = ByteBuf::new();
    b.set_writable();
    b.write(&[1, 2, 3, 4]);
    b.flip();
    b.advance(3);
    assert_eq!(b.remaining(), 1);
    b.advance(usize::MAX);
    assert_eq!(b.pos(), 4);
    assert_eq!(b.remaining(), 0);
    assert_eq!(b.bytes().len(), 0);
    b.advance(0);
    assert_eq!(b.pos(), 4);
}

#[test]
fn write_all_is_short_when_it_does_not_fit() {
    let mut b = ByteBuf::new();
    b.set_writable();
    assert_eq!(Ok(()), b.write_all(&[5; 512]));
    assert_eq!(b.remaining(), 0);
    assert_eq!(Err(Error::Short), b.write_all(&[1]));
    assert_eq!(Ok(()), b.write_all(&[]));
    let mut c = ByteBuf::new();
    c.set_writable();
    assert_eq!(Err(Error::Short), c.write_all(&[7; 513]));
    assert_eq!(c.pos(), 512);
    assert_eq!(c.bytes(), &[7; 512]);
    let mut d = ByteBuf::new();
    d.set_writable();
    assert_eq!(512, d.write(&[1; 600]));
}

#[test]
fn mut_bytes_is_the_room_behind_the_position() {
    let mut b = ByteBuf::new();
    b.set_writable();
    b.write(&[1, 2]);
    {
        let room = b.mut_bytes();
        assert_eq!(510, room.len());
        room[0] = 3;
        room[1] = 4;
    }
    assert_eq!(b.pos(), 2);
    b.advance(2);
    assert_eq!(b.bytes(), &[1, 2, 3, 4]);
}

#[test]
fn put_fills_the_room_and_stays() {
    let mut b = ByteBuf::new();
    b.set_writable();
    b.write(&[1]);
    assert_eq!(2, b.put(&[8, 9]));
    assert_eq!(b.pos(), 1);
    b.advance(2);
    assert_eq!(b.bytes(), &[1, 8, 9]);
}

#[test]
fn resume_goes_on_behind_what_was_there() {
    let mut b = ByteBuf::new();
    b.set_writable();
    b.write(&[1, 2, 3]);
    b.flip();
    b.resume();
    assert_eq!(b.get_mode(), Mode::Writing);
    assert_eq!(b.pos(), 3);
    assert_eq!(b.lim(), 512);
    b.write(&[4]);
    assert_eq!(b.bytes(), &[1, 2, 3, 4]);
}

#[test]
fn set_readable_keeps_cursor_and_limit() {
    let mut b = ByteBuf::new();
    b.set_writable();
    b.write(&[1, 2, 3]);
    b.set_readable();
    assert_eq!(b.get_mode(), Mode::Reading);
    assert_eq!(b.pos(), 3);
    assert_eq!(b.lim(), 512);
    assert_eq!(b.remaining(), 509);
}
