use stream_slice::io::{Error, ErrorKind, Read, Seek, SeekFrom, Write};
use stream_slice::{Cursor, StreamSlice};

fn text() -> Vec<u8> {
    b"BeforeTest dataAfter".to_vec()
}

fn slice_of_text() -> StreamSlice<Cursor> {
    StreamSlice::new(Cursor::new(text()), 6, 15).unwrap()
}

fn position<T: Seek>(s: &mut StreamSlice<T>) -> u64 {
    s.seek(SeekFrom::Current(0)).unwrap()
}

fn invalid_seek(r: Result<u64, Error>) -> bool {
    match r {
        Err(e) => e.kind == ErrorKind::InvalidInput && e.message == "invalid seek",
        Ok(_) => false,
    }
}

#[test]
fn new_slice_has_the_size_of_its_range_and_stands_at_zero() {
    let mut s = slice_of_text();
    assert_eq!(position(&mut s), 0);
    assert_eq!(s.seek(SeekFrom::End(0)).unwrap(), 9);
    let mut s = StreamSlice::new(Cursor::new(text()), 0, 20).unwrap();
    assert_eq!(position(&mut s), 0);
    assert_eq!(s.seek(SeekFrom::End(0)).unwrap(), 20);
}

#[test]
fn new_moves_the_inner_stream_to_the_start_of_the_window() {
    let mut c = Cursor::new(text());
    c.seek(SeekFrom::Start(17)).unwrap();
    let s = StreamSlice::new(c, 6, 15).unwrap();
    assert_eq!(s.into_inner().position(), 6);
}

#[test]
fn empty_slice_reads_and_writes_nothing() {
    let mut s = StreamSlice::new(Cursor::new(text()), 6, 6).unwrap();
    assert_eq!(s.seek(SeekFrom::End(0)).unwrap(), 0);
    let mut buf = [1u8; 4];
    assert_eq!(s.read(&mut buf).unwrap(), 0);
    assert_eq!(buf, [1, 1, 1, 1]);
    assert_eq!(s.write(b"abc").unwrap(), 0);
    assert!(invalid_seek(s.seek(SeekFrom::Start(1))));
    let c = s.into_inner();
    assert_eq!(c.position(), 6);
    assert_eq!(c.into_inner(), text());
}

#[test]
fn read_is_cut_at_the_end_of_the_window() {
    let mut s = slice_of_text();
    let mut buf = [0u8; 6];
    assert_eq!(s.read(&mut buf).unwrap(), 6);
    assert_eq!(&buf, b"Test d");
    assert_eq!(position(&mut s), 6);
    let mut buf = [b'.'; 6];
    assert_eq!(s.read(&mut buf).unwrap(), 3);
    assert_eq!(&buf, b"ata...");
    assert_eq!(position(&mut s), 9);
}

#[test]
fn read_at_the_end_of_the_window_returns_zero() {
    let mut s = slice_of_text();
    s.seek(SeekFrom::End(0)).unwrap();
    let mut buf = [b'.'; 5];
    assert_eq!(s.read(&mut buf).unwrap(), 0);
    assert_eq!(&buf, b".....");
    assert_eq!(s.read(&mut buf).unwrap(), 0);
    assert_eq!(position(&mut s), 9);
    // The inner stream has more to give, and was not asked.
    assert_eq!(s.into_inner().position(), 15);
}

#[test]
fn reads_never_take_the_position_past_the_size() {
    let mut s = slice_of_text();
    let mut total = 0;
    let mut buf = [0u8; 2];
    for _ in 0..10 {
        total += s.read(&mut buf).unwrap();
        assert!(position(&mut s) <= 9);
        assert_eq!(position(&mut s), total as u64);
    }
    assert_eq!(total, 9);
}

#[test]
fn read_stops_where_the_inner_stream_ends_inside_the_window() {
    let mut s = StreamSlice::new(Cursor::new(text()), 16, 30).unwrap();
    let mut buf = [b'.'; 8];
    assert_eq!(s.read(&mut buf).unwrap(), 4);
    assert_eq!(&buf, b"fter....");
    assert_eq!(position(&mut s), 4);
    assert_eq!(s.read(&mut buf).unwrap(), 0);
    assert_eq!(position(&mut s), 4);
    assert_eq!(s.seek(SeekFrom::End(0)).unwrap(), 14);
}

#[test]
fn seek_inside_the_window_moves_the_inner_stream_with_it() {
    for t in 0..=9u64 {
        let mut s = slice_of_text();
        assert_eq!(s.seek(SeekFrom::Start(t)).unwrap(), t);
        assert_eq!(position(&mut s), t);
        let mut buf = [0u8; 1];
        let n = s.read(&mut buf).unwrap();
        if t < 9 {
            assert_eq!(n, 1);
            assert_eq!(buf[0], text()[6 + t as usize]);
        } else {
            assert_eq!(n, 0);
        }
        let c = s.into_inner();
        assert_eq!(c.position(), 6 + t + n as u64);
    }
}

#[test]
fn seek_from_current_and_from_end() {
    let mut s = slice_of_text();
    assert_eq!(s.seek(SeekFrom::Current(4)).unwrap(), 4);
    assert_eq!(s.seek(SeekFrom::Current(-1)).unwrap(), 3);
    assert_eq!(s.seek(SeekFrom::Current(6)).unwrap(), 9);
    assert_eq!(s.seek(SeekFrom::End(-4)).unwrap(), 5);
    let mut buf = [0u8; 4];
    assert_eq!(s.read(&mut buf).unwrap(), 4);
    assert_eq!(&buf, b"data");
    assert_eq!(s.seek(SeekFrom::End(-9)).unwrap(), 0);
    assert_eq!(s.read(&mut buf).unwrap(), 4);
    assert_eq!(&buf, b"Test");
}

#[test]
fn seek_outside_the_window_fails_and_moves_nothing() {
    let mut s = slice_of_text();
    s.seek(SeekFrom::Start(4)).unwrap();
    assert!(invalid_seek(s.seek(SeekFrom::Start(10))));
    assert_eq!(position(&mut s), 4);
    assert!(invalid_seek(s.seek(SeekFrom::Current(-5))));
    assert_eq!(position(&mut s), 4);
    assert!(invalid_seek(s.seek(SeekFrom::Current(6))));
    assert_eq!(position(&mut s), 4);
    assert!(invalid_seek(s.seek(SeekFrom::End(1))));
    assert_eq!(position(&mut s), 4);
    assert!(invalid_seek(s.seek(SeekFrom::End(-10))));
    assert_eq!(position(&mut s), 4);
    assert!(invalid_seek(s.seek(SeekFrom::Start(u64::MAX))));
    assert!(invalid_seek(s.seek(SeekFrom::Current(i64::MIN))));
    assert!(invalid_seek(s.seek(SeekFrom::End(i64::MAX))));
    assert_eq!(position(&mut s), 4);
    // The inner stream stands where the last good seek left it.
    assert_eq!(s.into_inner().position(), 10);
}

#[test]
fn written_bytes_are_read_back() {
    let mut s = slice_of_text();
    s.seek(SeekFrom::Start(2)).unwrap();
    assert_eq!(s.write(b"abcde").unwrap(), 5);
    assert_eq!(position(&mut s), 7);
    s.seek(SeekFrom::Start(2)).unwrap();
    let mut buf = [0u8; 5];
    assert_eq!(s.read(&mut buf).unwrap(), 5);
    assert_eq!(&buf, b"abcde");
}

#[test]
fn written_bytes_that_reach_the_end_of_the_window_are_read_back() {
    let mut s = slice_of_text();
    s.seek(SeekFrom::Start(0)).unwrap();
    assert_eq!(s.write(b"123456789").unwrap(), 9);
    s.seek(SeekFrom::Start(0)).unwrap();
    let mut buf = [0u8; 9];
    assert_eq!(s.read(&mut buf).unwrap(), 9);
    assert_eq!(&buf, b"123456789");
    assert_eq!(s.into_inner().into_inner(), b"Before123456789After".to_vec());
}

#[test]
fn write_is_cut_at_the_end_of_the_window() {
    let mut s = slice_of_text();
    s.seek(SeekFrom::Start(5)).unwrap();
    assert_eq!(s.write(b"Rusty nail").unwrap(), 4);
    assert_eq!(position(&mut s), 9);
    assert_eq!(s.write(b"X").unwrap(), 0);
    assert_eq!(position(&mut s), 9);
    assert_eq!(s.into_inner().into_inner(), b"BeforeTest RustAfter".to_vec());
}

#[test]
fn write_of_more_than_the_whole_window_stores_the_window() {
    let mut s = slice_of_text();
    assert_eq!(s.write(b"0123456789abcdef").unwrap(), 9);
    assert_eq!(s.write(b"0123456789abcdef").unwrap(), 0);
    assert_eq!(s.into_inner().into_inner(), b"Before012345678After".to_vec());
}

#[test]
fn write_makes_the_inner_stream_longer_inside_the_window_only() {
    let mut s = StreamSlice::new(Cursor::new(b"abc".to_vec()), 2, 6).unwrap();
    assert_eq!(s.write(b"0123456789").unwrap(), 4);
    assert_eq!(s.write(b"0123456789").unwrap(), 0);
    let c = s.into_inner();
    assert_eq!(c.position(), 6);
    assert_eq!(c.into_inner(), b"ab0123".to_vec());
}

#[test]
fn flush_leaves_the_position() {
    let mut s = slice_of_text();
    s.seek(SeekFrom::Start(3)).unwrap();
    s.write(b"xy").unwrap();
    s.flush().unwrap();
    assert_eq!(position(&mut s), 5);
}

#[test]
fn into_inner_returns_the_stream_as_the_slice_left_it() {
    let s = slice_of_text();
    let c = s.into_inner();
    assert_eq!(c.position(), 6);
    assert_eq!(c.into_inner(), text());

    let mut s = slice_of_text();
    let mut buf = [0u8; 4];
    s.read(&mut buf).unwrap();
    let c = s.into_inner();
    assert_eq!(c.position(), 10);
    assert_eq!(c.into_inner(), text());
}

#[test]
fn clone_is_a_slice_of_its_own() {
    let mut s = StreamSlice::new(Cursor::new(text()), 6, 15).unwrap();
    s.seek(SeekFrom::Start(5)).unwrap();
    let inner: StreamSlice<StreamSlice<Cursor>> = StreamSlice::new(s, 0, 4).unwrap();
    let mut copy = inner.clone();
    let mut inner = inner;
    assert_eq!(copy.write(b"RUST").unwrap(), 4);
    let mut buf = [0u8; 4];
    assert_eq!(inner.read(&mut buf).unwrap(), 4);
    assert_eq!(&buf, b"Test");
    assert_eq!(position(&mut copy), 4);
    assert_eq!(position(&mut inner), 4);
}

#[test]
fn slice_of_a_slice_counts_from_the_inner_window() {
    let outer = slice_of_text();
    let mut s = StreamSlice::new(outer, 5, 9).unwrap();
    assert_eq!(s.seek(SeekFrom::End(0)).unwrap(), 4);
    s.seek(SeekFrom::Start(0)).unwrap();
    let mut buf = [b'.'; 6];
    assert_eq!(s.read(&mut buf).unwrap(), 4);
    assert_eq!(&buf, b"data..");
    s.seek(SeekFrom::Start(1)).unwrap();
    assert_eq!(s.write(b"ots!").unwrap(), 3);
    let mut outer = s.into_inner();
    assert_eq!(position(&mut outer), 9);
    assert_eq!(outer.into_inner().into_inner(), b"BeforeTest dotsAfter".to_vec());
}

#[test]
fn new_fails_where_the_inner_stream_cannot_be_moved_to_the_start() {
    let outer = slice_of_text();
    match StreamSlice::new(outer, 10, 12) {
        Err(e) => {
            assert_eq!(e.kind, ErrorKind::InvalidInput);
            assert_eq!(e.message, "invalid seek");
        },
        Ok(_) => panic!("the inner slice has no position 10"),
    }
}

#[test]
fn seek_hands_on_the_error_of_the_inner_stream_and_stays() {
    let outer = slice_of_text();
    // The window reaches beyond the end of the slice that it lies in.
    let mut s = StreamSlice::new(outer, 5, 20).unwrap();
    assert_eq!(s.seek(SeekFrom::Start(3)).unwrap(), 3);
    let e = s.seek(SeekFrom::Start(5)).unwrap_err();
    assert_eq!(e.kind, ErrorKind::InvalidInput);
    assert_eq!(e.message, "invalid seek");
    assert_eq!(position(&mut s), 3);
    assert_eq!(s.seek(SeekFrom::End(0)).unwrap_err().kind, ErrorKind::InvalidInput);
    assert_eq!(position(&mut s), 3);
    let mut buf = [0u8; 4];
    assert_eq!(s.read(&mut buf).unwrap(), 1);
    assert_eq!(buf[0], b'a');
}
