use thread_io::proxy::Proxy;
use thread_io::sink::Sink;
use thread_io::staging::Writer;

fn sample(len: usize) -> Vec<u8> {
    (0..len).map(|i| (i * 7 + 3) as u8).collect()
}

/// Writes `data` through a proxy, closes it, then flushes the returned sink
/// directly when `flush_after` holds.
fn run(chunk: usize, depth: usize, bufsize: usize, data: &[u8], flush_after: bool) -> Writer {
    let mut p = Proxy::new(chunk, depth, Writer::new(false, false, bufsize));
    assert_eq!(p.write(data).unwrap(), data.len());
    let (res, mut w) = p.finish();
    res.unwrap();
    if flush_after {
        w.flush().unwrap();
    }
    w
}

#[test]
fn write_without_flush_leaves_output_empty() {
    for chunk in [1, 2, 5, 64] {
        for depth in [1, 2, 7] {
            for bufsize in [1, 3, 63] {
                let w = run(chunk, depth, bufsize, &sample(50), false);
                assert_eq!(w.data(), b"");
            }
        }
    }
}

#[test]
fn write_then_flush_round_trips() {
    for chunk in [1, 2, 5, 64] {
        for depth in [1, 2, 7] {
            for bufsize in [1, 3, 63] {
                for len in [1, 4, 50, 200] {
                    let d = sample(len);
                    let w = run(chunk, depth, bufsize, &d, true);
                    assert_eq!(w.data(), &d[..]);
                }
            }
        }
    }
}

#[test]
fn flushing_twice_keeps_output() {
    let d = sample(37);
    let mut w = run(4, 2, 5, &d, true);
    assert_eq!(w.data(), &d[..]);
    w.flush().unwrap();
    assert_eq!(w.data(), &d[..]);

    let mut p = Proxy::new(3, 2, Writer::new(false, false, 2));
    p.write(&d).unwrap();
    p.flush().unwrap();
    assert_eq!(p.sink().data(), &d[..]);
    p.flush().unwrap();
    assert_eq!(p.sink().data(), &d[..]);
}

#[test]
fn flush_through_proxy_publishes_all_bytes() {
    let d = sample(10);
    let mut p = Proxy::new(4, 1, Writer::new(false, false, 3));
    p.write(&d[..6]).unwrap();
    assert_eq!(p.sink().data(), b"");
    p.write(&d[6..]).unwrap();
    p.flush().unwrap();
    assert_eq!(p.sink().data(), &d[..]);
    let (res, w) = p.finish();
    assert!(res.is_ok());
    assert_eq!(w.data(), &d[..]);
}

#[test]
fn write_failure_surfaces_message() {
    for chunk in [1, 3, 64] {
        for depth in [1, 4] {
            let mut p = Proxy::new(chunk, depth, Writer::new(true, false, 4));
            let _ = p.write(&sample(20));
            let (res, w) = p.finish();
            let e = res.unwrap_err();
            assert_eq!(e.message(), "write err");
            assert_eq!(w.data(), b"");
        }
    }
}

#[test]
fn write_failure_is_sticky() {
    let mut p = Proxy::new(1, 1, Writer::new(true, false, 4));
    // With chunks of one byte and a queue of one chunk, the third byte makes
    // the worker take the first chunk, which fails.
    assert_eq!(p.write(b"abc").unwrap(), 3);
    let e = p.write(b"d").unwrap_err();
    assert_eq!(e.message(), "write err");
    let e = p.flush().unwrap_err();
    assert_eq!(e.message(), "write err");
    assert_eq!(p.error().unwrap().message(), "write err");
}

#[test]
fn flush_failure_surfaces_message() {
    for chunk in [1, 3, 64] {
        for depth in [1, 4] {
            let mut p = Proxy::new(chunk, depth, Writer::new(false, true, 4));
            let e = p.flush().unwrap_err();
            assert_eq!(e.message(), "flush err");
            let (res, w) = p.finish();
            assert_eq!(res.unwrap_err().message(), "flush err");
            assert_eq!(w.data(), b"");
        }
    }
}

#[test]
fn flush_failure_reports_nothing_delivered() {
    let mut p = Proxy::new(2, 2, Writer::new(false, true, 4));
    p.write(b"hello").unwrap();
    let e = p.flush().unwrap_err();
    assert_eq!(e.message(), "flush err");
    assert_eq!(p.sink().data(), b"");
    assert_eq!(p.write(b"x").unwrap_err().message(), "flush err");
}

#[test]
fn backpressure_with_smallest_queue_and_chunk() {
    let d = sample(300);
    let w = run(1, 1, 1, &d, true);
    assert_eq!(w.data(), &d[..]);
    let mut p = Proxy::new(1, 1, Writer::new(false, false, 1));
    p.write(&d).unwrap();
    p.flush().unwrap();
    assert_eq!(p.sink().data(), &d[..]);
}

#[test]
fn boundary_parameters_are_kept() {
    let d = sample(9);
    let w = run(1, 1, 1, &d, true);
    assert_eq!(w.data(), &d[..]);
    // A size or depth of zero cannot make progress and is taken as one.
    let w = run(0, 0, 1, &d, true);
    assert_eq!(w.data(), &d[..]);
}

#[test]
fn empty_write_changes_nothing() {
    let mut p = Proxy::new(4, 2, Writer::new(true, false, 4));
    assert_eq!(p.write(b"").unwrap(), 0);
    let (res, w) = p.finish();
    assert!(res.is_ok());
    assert_eq!(w.data(), b"");
}

#[test]
fn sink_that_takes_nothing_gives_write_zero() {
    let mut p = Proxy::new(4, 2, Writer::new(false, false, 0));
    p.write(b"abc").unwrap();
    let e = p.flush().unwrap_err();
    assert_eq!(e.kind(), thread_io::error::ErrorKind::WriteZero);
    assert_eq!(e.message(), "failed to write whole buffer");
}

#[test]
fn write_error_wins_over_flush_error() {
    let mut p = Proxy::new(3, 2, Writer::new(true, true, 4));
    p.write(b"abcd").unwrap();
    assert_eq!(p.flush().unwrap_err().message(), "write err");
    let (res, _) = p.finish();
    assert_eq!(res.unwrap_err().message(), "write err");
}

#[test]
fn flush_refusal_with_pending_bytes() {
    let mut p = Proxy::new(8, 2, Writer::new(false, true, 3));
    p.write(b"pending").unwrap();
    assert_eq!(p.flush().unwrap_err().message(), "flush err");
}

#[test]
fn close_on_healthy_sink_succeeds() {
    let mut p = Proxy::new(3, 1, Writer::new(false, false, 1));
    p.write(b"hello").unwrap();
    let (res, mut w) = p.finish();
    assert!(res.is_ok());
    assert_eq!(w.data(), b"");
    w.flush().unwrap();
    assert_eq!(w.data(), b"hello");
    w.flush().unwrap();
    assert_eq!(w.data(), b"hello");
}
