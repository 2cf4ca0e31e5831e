use thread_io::chunker::Chunker;
use thread_io::error::{ErrorKind, ErrorSlot, SinkError};
use thread_io::proxy::outcome;
use thread_io::sink::Sink;
use thread_io::staging::Writer;
use thread_io::worker::{Message, Worker};

#[test]
fn staging_writer_takes_at_most_bufsize() {
    let mut w = Writer::new(false, false, 3);
    assert_eq!(w.write(b"abcdef").unwrap(), 3);
    assert_eq!(w.write(b"gh").unwrap(), 2);
    assert_eq!(w.data(), b"");
    w.flush().unwrap();
    assert_eq!(w.data(), b"abcgh");
    w.flush().unwrap();
    assert_eq!(w.data(), b"abcgh");
}

#[test]
fn staging_writer_failures() {
    let mut w = Writer::new(true, true, 3);
    let e = w.write(b"abc").unwrap_err();
    assert_eq!(e.kind(), ErrorKind::Other);
    assert_eq!(e.message(), "write err");
    assert_eq!(w.flush().unwrap_err().message(), "flush err");
    assert_eq!(w.data(), b"");
}

#[test]
fn chunker_hands_out_full_chunks() {
    let mut c = Chunker::new(3);
    assert_eq!(c.chunk_size(), 3);
    let (n, full) = c.fill(b"ab");
    assert_eq!(n, 2);
    assert!(full.is_none());
    let (n, full) = c.fill(b"cdef");
    assert_eq!(n, 1);
    assert_eq!(full.unwrap(), b"abc".to_vec());
    let (n, full) = c.fill(b"def");
    assert_eq!(n, 3);
    assert_eq!(full.unwrap(), b"def".to_vec());
    assert!(c.take().is_none());
    c.fill(b"g");
    assert_eq!(c.take().unwrap(), b"g".to_vec());
    assert!(c.take().is_none());
}

#[test]
fn chunker_zero_capacity_is_one() {
    let mut c = Chunker::new(0);
    assert_eq!(c.chunk_size(), 1);
    let (n, full) = c.fill(b"xy");
    assert_eq!(n, 1);
    assert_eq!(full.unwrap(), b"x".to_vec());
}

#[test]
fn error_slot_keeps_first_failure() {
    let mut s = ErrorSlot::new();
    assert!(!s.is_set());
    assert!(s.get().is_none());
    s.record(SinkError::new(ErrorKind::Other, "first"));
    s.record(SinkError::new(ErrorKind::WriteZero, "second"));
    let e = s.get().unwrap();
    assert_eq!(e.message(), "first");
    assert_eq!(e.kind(), ErrorKind::Other);
    let d = e.duplicate();
    assert_eq!(d.message(), "first");
}

#[test]
fn worker_writes_then_flushes() {
    let mut w = Writer::new(false, false, 2);
    let mut k = Worker::new();
    k.handle(&mut w, Message::Data(b"hello".to_vec()));
    assert_eq!(w.data(), b"");
    k.handle(&mut w, Message::Flush);
    assert_eq!(w.data(), b"hello");
    assert!(!k.failed());
}

#[test]
fn worker_stops_after_failure() {
    let mut w = Writer::new(false, true, 2);
    let mut k = Worker::new();
    k.handle(&mut w, Message::Data(b"ab".to_vec()));
    k.handle(&mut w, Message::Flush);
    assert!(k.failed());
    assert_eq!(k.error().unwrap().message(), "flush err");
    k.handle(&mut w, Message::Data(b"cd".to_vec()));
    w.flush().unwrap_err();
    assert_eq!(w.data(), b"");
}

#[test]
fn absorb_write_decides_on_each_result() {
    let mut k = Worker::new();
    assert_eq!(k.absorb_write(Ok(3)), 3);
    assert!(!k.failed());
    assert_eq!(k.absorb_write(Ok(0)), 0);
    let e = k.error().unwrap();
    assert_eq!(e.kind(), ErrorKind::WriteZero);
    assert_eq!(e.message(), "failed to write whole buffer");

    let mut k = Worker::new();
    assert_eq!(k.absorb_write(Err(SinkError::new(ErrorKind::Other, "disk full"))), 0);
    assert_eq!(k.error().unwrap().message(), "disk full");
}

#[test]
fn absorb_flush_records_sink_error_verbatim() {
    let mut k = Worker::new();
    k.absorb_flush(Ok(()));
    assert!(!k.failed());
    k.absorb_flush(Err(SinkError::new(ErrorKind::Other, "flush err")));
    assert_eq!(k.error().unwrap().message(), "flush err");
}

#[test]
fn zero_becomes_one() {
    assert_eq!(thread_io::chunker::at_least_one(0), 1);
    assert_eq!(thread_io::chunker::at_least_one(1), 1);
    assert_eq!(thread_io::chunker::at_least_one(9), 9);
}

#[test]
fn recorded_failure_beats_work_result() {
    let r: Result<u8, &str> = outcome(Ok(5), None);
    assert_eq!(r, Ok(5));
    let r: Result<u8, &str> = outcome(Ok(5), Some("write err"));
    assert_eq!(r, Err("write err"));
    let r: Result<u8, &str> = outcome(Err("body"), Some("write err"));
    assert_eq!(r, Err("write err"));
    let r: Result<u8, &str> = outcome(Err("body"), None);
    assert_eq!(r, Err("body"));
}
