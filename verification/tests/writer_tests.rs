use bufio::copy;
use bufio::stack_buffer_copy;
use bufio::BufWriter;
use bufio::Cursor;
use bufio::Error;
use bufio::IoSlice;
use bufio::ErrorKind;
use bufio::LineWriter;
use bufio::Read;
use bufio::Seek;
use bufio::SeekFrom;
use bufio::Write;

/// Writes whose sizes stay within capacity never touch the sink until an
/// explicit flush.
#[test]
fn writes_within_capacity_stay_buffered() {
    let mut w = BufWriter::with_capacity(8, Vec::new());
    assert_eq!(w.write(b"ab").unwrap(), 2);
    assert_eq!(w.write(b"cd").unwrap(), 2);
    assert_eq!(w.write(b"ef").unwrap(), 2);
    assert_eq!(w.get_ref().len(), 0);
    assert_eq!(w.buffer(), b"abcdef");
    w.flush().unwrap();
    assert_eq!(w.get_ref(), &b"abcdef".to_vec());
    assert_eq!(w.buffer(), b"");
}

/// Capacity four; writes of "12", "34", "5" with no flush in between, then
/// an explicit flush: the sink first sees exactly the bytes buffered when
/// capacity was exceeded, then the remainder, with no gaps or repeats.
#[test]
fn capacity_four_scenario() {
    let mut w = BufWriter::with_capacity(4, Vec::new());
    assert_eq!(w.write(b"12").unwrap(), 2);
    assert_eq!(w.get_ref().len(), 0);
    assert_eq!(w.write(b"34").unwrap(), 2);
    assert_eq!(w.get_ref().len(), 0);
    assert_eq!(w.write(b"5").unwrap(), 1);
    assert_eq!(w.get_ref(), &b"1234".to_vec());
    assert_eq!(w.buffer(), b"5");
    w.flush().unwrap();
    assert_eq!(w.get_ref(), &b"12345".to_vec());
    assert_eq!(w.buffer(), b"");
}

/// Writing bytes and flushing yields exactly those bytes at the sink, in
/// order, from empty input up to several multiples of the capacity.
#[test]
fn round_trip_through_bufwriter() {
    let sizes: [usize; 6] = [0, 1, 3, 4, 9, 21];
    for &n in sizes.iter() {
        let data: Vec<u8> = (0..n).map(|i| (i % 251) as u8).collect();
        let mut w = BufWriter::with_capacity(4, Vec::new());
        w.write_all(&data).unwrap();
        w.flush().unwrap();
        assert_eq!(w.get_ref(), &data);
    }
}

/// A write at least as large as the whole buffer goes to the sink directly.
#[test]
fn oversized_write_bypasses_buffer() {
    let mut w = BufWriter::with_capacity(4, Vec::new());
    assert_eq!(w.write(b"123456").unwrap(), 6);
    assert_eq!(w.get_ref(), &b"123456".to_vec());
    assert_eq!(w.buffer(), b"");
}

/// A sink that accepts zero bytes while bytes are owed is an error of kind
/// `WriteZero`.
#[test]
fn zero_accepting_sink_is_write_zero() {
    struct Full;

    impl Write for Full {
        fn write(&mut self, _buf: &[u8]) -> Result<usize, Error> {
            Ok(0)
        }
        fn flush(&mut self) -> Result<(), Error> {
            Ok(())
        }
    }

    let mut w = BufWriter::with_capacity(4, Full);
    assert_eq!(w.write(b"ab").unwrap(), 2);
    let e = w.flush().unwrap_err();
    assert_eq!(e.kind(), ErrorKind::WriteZero);
}

/// A failing drain hands the writer back intact inside the error.
#[test]
fn into_inner_error_keeps_writer() {
    #[derive(Debug)]
    struct Broken;

    impl Write for Broken {
        fn write(&mut self, _buf: &[u8]) -> Result<usize, Error> {
            Err(Error::new_simple(ErrorKind::BrokenPipe))
        }
        fn flush(&mut self) -> Result<(), Error> {
            Ok(())
        }
    }

    let mut w = BufWriter::with_capacity(4, Broken);
    assert_eq!(w.write(b"ab").unwrap(), 2);
    let err = w.into_inner().unwrap_err();
    assert_eq!(err.error().kind(), ErrorKind::BrokenPipe);
    let w = err.into_inner();
    assert_eq!(w.buffer(), b"ab");
    let (inner, buffered) = w.into_parts();
    let _ = inner;
    assert_eq!(buffered.unwrap(), b"ab".to_vec());
}

#[test]
fn into_inner_flushes() {
    let mut w = BufWriter::with_capacity(8, Vec::new());
    w.write_all(b"abc").unwrap();
    let sink = w.into_inner().unwrap();
    assert_eq!(sink, b"abc".to_vec());
}

/// Seeking a buffered writer drains the buffer first, so the sink sees the
/// bytes in order before its position moves.
#[test]
fn bufwriter_seek_flushes_first() {
    let mut w = BufWriter::with_capacity(8, Cursor::new(Vec::new()));
    w.write_all(b"abcd").unwrap();
    assert_eq!(w.seek(SeekFrom::Start(1)).unwrap(), 1);
    w.write_all(b"XY").unwrap();
    w.flush().unwrap();
    assert_eq!(w.get_ref().get_ref(), &b"aXYd".to_vec());
}

/// After a successful `write_all` the line writer's buffer holds no
/// newline: every complete line has been pushed down.
#[test]
fn line_writer_write_all_keeps_no_line() {
    let mut w = LineWriter::with_capacity(16, Vec::new());
    w.write_all(b"ab\ncd\nef").unwrap();
    assert_eq!(w.get_ref(), &b"ab\ncd\n".to_vec());
    w.write_all(b"gh\n").unwrap();
    assert_eq!(w.get_ref(), &b"ab\ncd\nefgh\n".to_vec());
    w.flush().unwrap();
    assert_eq!(w.get_ref(), &b"ab\ncd\nefgh\n".to_vec());
}

/// A write without a newline only accumulates; one with a newline pushes
/// everything up to it.
#[test]
fn line_writer_write_splits_at_newline() {
    let mut w = LineWriter::with_capacity(16, Vec::new());
    assert_eq!(w.write(b"ab").unwrap(), 2);
    assert_eq!(w.get_ref().len(), 0);
    assert_eq!(w.write(b"cd\nef").unwrap(), 5);
    assert_eq!(w.get_ref(), &b"abcd\n".to_vec());
    w.flush().unwrap();
    assert_eq!(w.get_ref(), &b"abcd\nef".to_vec());
}

/// If the sink takes a line prefix only partially, exactly that count is
/// reported and nothing more is buffered on speculation.
#[test]
fn line_writer_partial_sink() {
    struct Trickle {
        taken: Vec<u8>,
    }

    impl Write for Trickle {
        fn write(&mut self, buf: &[u8]) -> Result<usize, Error> {
            let n = if buf.len() < 2 { buf.len() } else { 2 };
            self.taken.extend_from_slice(&buf[..n]);
            Ok(n)
        }
        fn flush(&mut self) -> Result<(), Error> {
            Ok(())
        }
    }

    let mut w = LineWriter::with_capacity(8, Trickle { taken: Vec::new() });
    assert_eq!(w.write(b"abc\n").unwrap(), 2);
    assert_eq!(w.get_ref().taken, b"ab".to_vec());
}

#[test]
fn line_writer_into_inner() {
    let mut w = LineWriter::with_capacity(8, Vec::new());
    w.write_all(b"no newline").unwrap();
    let sink = w.into_inner().unwrap();
    assert_eq!(sink, b"no newline".to_vec());
}

#[test]
fn copy_moves_everything() {
    let mut src = Cursor::new(&b"some bytes to move"[..]);
    let mut dst: Vec<u8> = Vec::new();
    assert_eq!(copy(&mut src, &mut dst).unwrap(), 18);
    assert_eq!(dst, b"some bytes to move".to_vec());

    let big: Vec<u8> = (0..5000).map(|i| (i % 241) as u8).collect();
    let mut src = Cursor::new(&big[..]);
    let mut dst: Vec<u8> = Vec::new();
    assert_eq!(stack_buffer_copy(&mut src, &mut dst).unwrap(), 5000);
    assert_eq!(dst, big);
}

/// Interrupted reads are absorbed by the copy loop, not surfaced.
#[test]
fn copy_retries_interruptions() {
    struct Flaky {
        hiccups: usize,
        data: Cursor<Vec<u8>>,
    }

    impl Read for Flaky {
        fn read(&mut self, buf: &mut Vec<u8>) -> Result<usize, Error> {
            if self.hiccups > 0 {
                self.hiccups -= 1;
                return Err(Error::new_simple(ErrorKind::Interrupted));
            }
            self.hiccups = 1;
            self.data.read(buf)
        }
    }

    let mut src = Flaky {
        hiccups: 1,
        data: Cursor::new(b"abc".to_vec()),
    };
    let mut dst: Vec<u8> = Vec::new();
    assert_eq!(copy(&mut src, &mut dst).unwrap(), 3);
    assert_eq!(dst, b"abc".to_vec());
}

/// The source-buffer-driven and sink-buffer-driven copies move everything
/// too, in order.
#[test]
fn buffered_copies_move_everything() {
    let data: Vec<u8> = (0..1000).map(|i| (i % 199) as u8).collect();

    let mut src = bufio::BufReader::with_capacity(64, &data[..]);
    let mut dst: Vec<u8> = Vec::new();
    assert_eq!(src.copy_to(&mut dst).unwrap(), 1000);
    assert_eq!(dst, data);

    let mut src = Cursor::new(&data[..]);
    let mut dst = BufWriter::with_capacity(64, Vec::new());
    assert_eq!(dst.copy_from(&mut src).unwrap(), 1000);
    dst.flush().unwrap();
    assert_eq!(dst.get_ref(), &data);
}

/// A vectored write hands the sink a prefix of the segments joined in
/// order; empty segments contribute nothing.
#[test]
fn write_vectored_takes_joined_prefix() {
    let mut sink: Vec<u8> = Vec::new();
    let segs = [
        IoSlice::new(b""),
        IoSlice::new(b"ab"),
        IoSlice::new(b"cd"),
    ];
    assert_eq!(sink.write_vectored(&segs).unwrap(), 2);
    assert_eq!(sink, b"ab".to_vec());

    let mut w = LineWriter::with_capacity(8, Vec::new());
    let segs = [IoSlice::new(b""), IoSlice::new(b"xy
z")];
    assert_eq!(w.write_vectored(&segs).unwrap(), 4);
    assert_eq!(w.get_ref(), &b"xy
".to_vec());
    w.flush().unwrap();
    assert_eq!(w.get_ref(), &b"xy
z".to_vec());

    let none: [IoSlice; 2] = [IoSlice::new(b""), IoSlice::new(b"")];
    let mut sink2: Vec<u8> = Vec::new();
    assert_eq!(sink2.write_vectored(&none).unwrap(), 0);
    assert_eq!(sink2.len(), 0);
}

/// The general default capacity is larger than the line-buffering default.
#[test]
fn default_capacities() {
    let r = bufio::BufReader::new(&b""[..]);
    assert_eq!(r.capacity(), bufio::DEFAULT_BUF_SIZE);
    assert!(bufio::DEFAULT_BUF_SIZE > 1024);
    let w = BufWriter::new(Vec::new());
    assert_eq!(w.capacity(), bufio::DEFAULT_BUF_SIZE);
    let lw = LineWriter::new(Vec::new());
    let sink = lw.into_inner().unwrap();
    assert_eq!(sink.len(), 0);
}
