use bufio::empty;
use bufio::memchr;
use bufio::memrchr;
use bufio::repeat;
use bufio::sink;
use bufio::BorrowedBuf;
use bufio::BufRead;
use bufio::BufReader;
use bufio::Buffer;
use bufio::Bytes;
use bufio::Cursor;
use bufio::Error;
use bufio::ErrorKind;
use bufio::Read;
use bufio::Seek;
use bufio::SeekFrom;
use bufio::SimpleMessage;
use bufio::Write;

#[test]
fn memchr_finds_first() {
    assert_eq!(memchr(b'a', b"xaya"), Some(1));
    assert_eq!(memchr(b'z', b"xaya"), None);
    assert_eq!(memchr(b'x', b""), None);
    assert_eq!(memrchr(b'a', b"xaya"), Some(3));
    assert_eq!(memrchr(b'z', b"xaya"), None);
}

#[test]
fn error_shapes() {
    let e = Error::new_os(42);
    assert_eq!(e.raw_os_error(), Some(42));
    assert_eq!(e.kind(), ErrorKind::Other);

    let e = Error::from_raw_os_error(-7);
    assert_eq!(e.raw_os_error(), Some(-7));

    let e = Error::new_simple(ErrorKind::NotFound);
    assert_eq!(e.kind(), ErrorKind::NotFound);
    assert_eq!(e.raw_os_error(), None);
    assert!(!e.is_interrupted());

    let e = Error::new_simple(ErrorKind::Interrupted);
    assert!(e.is_interrupted());

    let e = Error::new_simple_message(SimpleMessage::new(ErrorKind::TimedOut, "too slow"));
    assert_eq!(e.kind(), ErrorKind::TimedOut);

    let mut e = Error::new(ErrorKind::InvalidData, String::from("bad frame"));
    assert_eq!(e.kind(), ErrorKind::InvalidData);
    assert_eq!(e.get_ref().unwrap(), "bad frame");
    assert!(e.get_mut().is_some());
    let payload = e.into_inner().unwrap();
    assert_eq!(payload, "bad frame");

    let e = Error::other(String::from("odd"));
    assert_eq!(e.kind(), ErrorKind::Other);
    let c = e.downcast().unwrap();
    assert_eq!(c.message, "odd");
    let plain = Error::new_simple(ErrorKind::NotFound);
    assert!(plain.downcast().is_err());

    assert_eq!(ErrorKind::NotFound.as_str(), "entity not found");
    assert_eq!(ErrorKind::WriteZero.as_str(), "write zero");
    assert_eq!(ErrorKind::Interrupted.as_str(), "operation interrupted");
}

#[test]
fn borrowed_buf_tracks_marks() {
    let bb = BorrowedBuf::new(vec![7u8; 8]);
    assert_eq!(bb.capacity(), 8);
    assert_eq!(bb.len(), 0);
    assert!(bb.is_empty());
    assert_eq!(bb.init_len(), 8);

    let mut cursor = bb.unfilled();
    assert_eq!(cursor.capacity(), 8);
    assert_eq!(cursor.written(), 0);
    cursor.append(b"abc");
    assert_eq!(cursor.written(), 3);
    assert_eq!(cursor.capacity(), 5);
    let mut bb = cursor.finish();
    assert_eq!(bb.len(), 3);
    assert_eq!(bb.filled(), b"abc");

    // clearing keeps the initialized watermark
    bb.clear();
    assert_eq!(bb.len(), 0);
    assert_eq!(bb.init_len(), 8);
}

#[test]
fn borrowed_cursor_advance_within_watermark() {
    let bb = BorrowedBuf::with_watermark(vec![9u8; 6], 4);
    assert_eq!(bb.init_len(), 4);
    let mut cursor = bb.unfilled();
    // the first four bytes are vouched for, so an advance of three is legal
    cursor.advance(3);
    assert_eq!(cursor.written(), 3);
    let bb = cursor.finish();
    assert_eq!(bb.filled(), b"\x09\x09\x09");

    // ensure_init zeroes the suffix above the watermark
    let bb = BorrowedBuf::with_watermark(vec![9u8; 4], 2);
    let mut cursor = bb.unfilled();
    cursor.ensure_init();
    cursor.advance(4);
    let bb = cursor.finish();
    assert_eq!(bb.filled(), b"\x09\x09\x00\x00");
    assert_eq!(bb.init_len(), 4);
}

#[test]
fn buffer_consume_and_refill() {
    let mut b = Buffer::with_capacity(4);
    assert_eq!(b.capacity(), 4);
    assert_eq!(b.pos(), 0);
    assert_eq!(b.filled(), 0);
    assert_eq!(b.initialized(), 0);

    let mut src = &b"abcdef"[..];
    b.fill_buf(&mut src).unwrap();
    assert_eq!(b.buffer(), b"abcd");
    assert_eq!(b.initialized(), 4);

    b.consume(2);
    assert_eq!(b.buffer(), b"cd");
    b.unconsume(1);
    assert_eq!(b.buffer(), b"bcd");

    // a consume past the end clamps
    b.consume(10);
    assert_eq!(b.buffer(), b"");

    // an exact claim from resident bytes, or a refusal that changes nothing
    b.fill_buf(&mut src).unwrap();
    assert_eq!(b.buffer(), b"ef");
    assert_eq!(b.consume_with(3), None);
    let claimed = b.consume_with(2).unwrap();
    assert_eq!(claimed, b"ef".to_vec());
    assert_eq!(b.buffer(), b"");

    b.discard_buffer();
    assert_eq!(b.pos(), 0);
    assert_eq!(b.filled(), 0);
    assert_eq!(b.initialized(), 4);
}

struct Counting<'a> {
    data: &'a [u8],
    calls: usize,
}

impl<'a> Read for Counting<'a> {
    fn read(&mut self, buf: &mut Vec<u8>) -> Result<usize, Error> {
        self.calls += 1;
        self.data.read(buf)
    }
}

/// Consecutive reads that fit in one fill touch the source exactly once.
#[test]
fn small_reads_touch_source_once() {
    let src = Counting { data: b"abcdefgh", calls: 0 };
    let mut r = BufReader::with_capacity(8, src);
    let mut two = vec![0u8; 2];
    for _ in 0..4 {
        r.read(&mut two).unwrap();
    }
    assert_eq!(r.get_ref().calls, 1);
}

/// An exact read of the resident bytes makes no source call; asking for one
/// more byte triggers exactly one more fill.
#[test]
fn read_exact_boundary() {
    let src = Counting { data: b"abcdefgh", calls: 0 };
    let mut r = BufReader::with_capacity(8, src);
    let mut one = vec![0u8; 1];
    r.read(&mut one).unwrap();
    assert_eq!(r.get_ref().calls, 1);
    assert_eq!(r.buffer(), b"bcdefgh");

    // exactly the resident seven bytes: no call
    let mut seven = vec![0u8; 7];
    r.read_exact(&mut seven).unwrap();
    assert_eq!(&seven, b"bcdefgh");
    assert_eq!(r.get_ref().calls, 1);

    // one byte more than resident (zero): exactly one fill
    let mut one = vec![0u8; 1];
    assert!(r.read_exact(&mut one).is_err());
    assert_eq!(r.get_ref().calls, 2);
}

/// Reading up to a byte, then skipping to the next, partitions the source
/// exactly: nothing twice, nothing dropped.
#[test]
fn read_until_skip_until_partition() {
    let mut r = BufReader::with_capacity(4, &b"123456789"[..]);
    let mut v = Vec::new();
    assert_eq!(r.read_until(b'3', &mut v).unwrap(), 3);
    assert_eq!(v, b"123");
    assert_eq!(r.skip_until(b'3').unwrap(), 6);
    let mut rest = Vec::new();
    assert_eq!(r.read_until(b'3', &mut rest).unwrap(), 0);
    assert_eq!(rest, b"");
}

#[test]
fn bufreader_seek_within_window() {
    let mut r = BufReader::with_capacity(8, Cursor::new(b"abcdefgh".to_vec()));
    let mut two = vec![0u8; 2];
    r.read(&mut two).unwrap();
    assert_eq!(&two, b"ab");

    // a backwards step inside the window touches only the buffer
    r.seek_relative(-1).unwrap();
    let mut one = vec![0u8; 1];
    r.read(&mut one).unwrap();
    assert_eq!(&one, b"b");

    // a forwards step inside the window
    r.seek_relative(2).unwrap();
    r.read(&mut one).unwrap();
    assert_eq!(&one, b"e");

    assert_eq!(r.stream_position().unwrap(), 5);
    assert_eq!(r.seek(SeekFrom::Start(0)).unwrap(), 0);
    assert_eq!(r.buffer(), b"");
    r.read(&mut one).unwrap();
    assert_eq!(&one, b"a");
}

#[test]
fn bufreader_accessors() {
    let r = BufReader::with_capacity(16, &b"xyz"[..]);
    assert_eq!(r.capacity(), 16);
    assert_eq!(r.buffer(), b"");
    assert_eq!(r.initialized(), 0);
    let inner = r.into_inner();
    assert_eq!(inner, b"xyz");
}

#[test]
fn cursor_positioning() {
    let mut c = Cursor::new(b"hello".to_vec());
    assert_eq!(c.position(), 0);
    assert_eq!(c.get_ref().len(), 5);
    c.set_position(2);
    assert_eq!(c.remaining_slice(), b"llo");
    assert!(!c.is_empty());
    c.set_position(9);
    assert_eq!(c.remaining_slice(), b"");
    assert!(c.is_empty());
    c.get_mut().push(b'!');
    assert_eq!(c.into_inner(), b"hello!".to_vec());
}

#[test]
fn cursor_seek_errors_stay_put() {
    let mut c = Cursor::new(b"abc".to_vec());
    c.set_position(1);
    let e = c.seek(SeekFrom::Current(-2)).unwrap_err();
    assert_eq!(e.kind(), ErrorKind::InvalidInput);
    assert_eq!(c.position(), 1);
    assert_eq!(c.seek(SeekFrom::End(-1)).unwrap(), 2);
}

/// A vector-backed cursor overwrites from its position and zero-fills any
/// gap a past-the-end seek left.
#[test]
fn cursor_write_overwrites_and_pads() {
    let mut c = Cursor::new(b"abcd".to_vec());
    c.set_position(1);
    assert_eq!(c.write(b"XY").unwrap(), 2);
    assert_eq!(c.get_ref(), &b"aXYd".to_vec());

    let mut c = Cursor::new(b"ab".to_vec());
    c.set_position(4);
    assert_eq!(c.write(b"Z").unwrap(), 1);
    assert_eq!(c.get_ref(), &b"ab\x00\x00Z".to_vec());
    c.flush().unwrap();
}

#[test]
fn degenerate_sources_and_sinks() {
    let mut e = empty();
    let mut buf = vec![1u8; 3];
    assert_eq!(e.read(&mut buf).unwrap(), 0);
    assert_eq!(buf, vec![1u8; 3]);
    assert_eq!(e.fill_buf().unwrap(), Vec::<u8>::new());
    e.consume(7);
    assert_eq!(e.seek(SeekFrom::End(5)).unwrap(), 0);
    assert_eq!(e.stream_len().unwrap(), 0);
    assert_eq!(e.stream_position().unwrap(), 0);
    assert_eq!(e.write(b"dropped").unwrap(), 7);
    e.flush().unwrap();

    let mut r = repeat(b'x');
    let mut buf = vec![0u8; 4];
    assert_eq!(r.read(&mut buf).unwrap(), 4);
    assert_eq!(buf, b"xxxx".to_vec());
    let mut out = Vec::new();
    let e = r.read_to_end(&mut out).unwrap_err();
    assert_eq!(e.kind(), ErrorKind::OutOfMemory);
    let mut text = String::new();
    assert!(r.read_to_string(&mut text).is_err());

    let mut s = sink();
    assert_eq!(s.write(b"gone").unwrap(), 4);
    s.write_all(b"all gone").unwrap();
    s.flush().unwrap();
}

#[test]
fn take_limits_and_truncates() {
    let mut t = Cursor::new(&b"abcdef"[..]).take(4);
    assert_eq!(t.limit(), 4);
    assert_eq!(t.fill_buf().unwrap(), b"abcd".to_vec());
    t.consume(2);
    assert_eq!(t.limit(), 2);
    let mut buf = vec![0u8; 4];
    assert_eq!(t.read(&mut buf).unwrap(), 2);
    assert_eq!(&buf[..2], b"cd");
    assert_eq!(t.limit(), 0);
    assert_eq!(t.read(&mut buf).unwrap(), 0);
    t.set_limit(1);
    assert_eq!(t.limit(), 1);
    assert_eq!(t.read(&mut buf).unwrap(), 1);
    assert_eq!(&buf[..1], b"e");
    assert_eq!(t.get_ref().position(), 5);
    t.get_mut().set_position(0);
    let inner = t.into_inner();
    assert_eq!(inner.position(), 0);
}

#[test]
fn bytes_walks_byte_by_byte() {
    let mut b: Bytes<&[u8]> = (&b"hi"[..]).bytes();
    assert_eq!(b.next().unwrap().unwrap(), b'h');
    assert_eq!(b.next().unwrap().unwrap(), b'i');
    assert!(b.next().is_none());
}

/// A fill while bytes are resident does not touch the source at all.
#[test]
fn fill_buf_is_idempotent_while_resident() {
    let src = Counting { data: b"abcd", calls: 0 };
    let mut r = BufReader::with_capacity(4, src);
    assert_eq!(r.fill_buf().unwrap(), b"abcd".to_vec());
    assert_eq!(r.fill_buf().unwrap(), b"abcd".to_vec());
    assert_eq!(r.fill_buf().unwrap(), b"abcd".to_vec());
    assert_eq!(r.get_ref().calls, 1);
}

#[test]
fn chain_accessors() {
    let mut c = bufio::Chain::new(&b"ab"[..], &b"cd"[..]);
    {
        let (f, s) = c.get_ref();
        assert_eq!(*f, b"ab");
        assert_eq!(*s, b"cd");
    }
    {
        let (f, _s) = c.get_mut();
        f.consume(1);
    }
    let (f, s) = c.into_inner();
    assert_eq!(f, b"b");
    assert_eq!(s, b"cd");
}

#[test]
fn watermark_raises_only() {
    let mut bb = BorrowedBuf::with_watermark(vec![5u8; 6], 2);
    bb.set_init(4);
    assert_eq!(bb.init_len(), 4);
    bb.set_init(1);
    assert_eq!(bb.init_len(), 4);

    let mut cursor = bb.unfilled();
    cursor.set_init(5);
    let bb = cursor.finish();
    assert_eq!(bb.init_len(), 5);
}

#[test]
fn default_sources_and_sinks() {
    let mut e: bufio::Empty = Default::default();
    let mut buf = vec![9u8; 2];
    assert_eq!(e.read(&mut buf).unwrap(), 0);
    let mut s: bufio::Sink = Default::default();
    assert_eq!(s.write(b"xy").unwrap(), 2);
}

#[test]
fn cursor_partial_reads() {
    let mut c = Cursor::new(&b"abcdef"[..]);
    let mut four = vec![0u8; 4];
    assert_eq!(c.read(&mut four).unwrap(), 4);
    assert_eq!(&four, b"abcd");
    assert_eq!(c.fill_buf().unwrap(), b"ef".to_vec());
    c.consume(1);
    assert_eq!(c.read(&mut four).unwrap(), 1);
    assert_eq!(four[0], b'f');
    assert_eq!(c.read(&mut four).unwrap(), 0);
}
