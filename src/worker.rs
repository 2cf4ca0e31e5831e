use vstd::prelude::*;

use crate::error::{ErrorKind, ErrorSlot, SinkError};
use crate::sink::Sink;

verus! {

/// What travels from the producer to the worker.
#[derive(Debug)]
pub enum Message {
    /// A chunk of bytes to write, in order.
    Data(Vec<u8>),
    /// Flush the sink once everything sent before has been written.
    Flush,
}

/// The failure recorded when a write takes no byte of a non-empty buffer.
pub open spec fn write_zero() -> (ErrorKind, Seq<char>) {
    (ErrorKind::WriteZero, "failed to write whole buffer"@)
}

/// The consumer's side: owns the decisions made for each message, and the
/// first failure of the sink, after which it leaves the sink alone.
#[derive(Debug)]
pub struct Worker {
    slot: ErrorSlot,
}

impl Worker {
    /// The first failure recorded, if any.
    pub closed spec fn failure(&self) -> Option<(ErrorKind, Seq<char>)> {
        self.slot@
    }

    pub fn new() -> (r: Worker)
        ensures
            r.failure() is None,
    {
        Worker { slot: ErrorSlot::new() }
    }

    pub fn failed(&self) -> (r: bool)
        ensures
            r == self.failure() is Some,
    {
        self.slot.is_set()
    }

    /// A copy of the first failure, if any.
    pub fn error(&self) -> (r: Option<SinkError>)
        ensures
            match r {
                Some(e) => self.failure() == Some(e@),
                None => self.failure() is None,
            },
    {
        self.slot.get()
    }

    /// Acts on the result of one sink write of a non-empty buffer: returns how
    /// far to advance, or records the failure (the sink's own error verbatim,
    /// or a write-zero error when no byte was taken) and returns 0.
    pub fn absorb_write(&mut self, r: Result<usize, SinkError>) -> (advance: usize)
        requires
            old(self).failure() is None,
        ensures
            match r {
                Ok(n) => if n > 0 {
                    advance == n && final(self).failure() is None
                } else {
                    advance == 0 && final(self).failure() == Some(write_zero())
                },
                Err(e) => advance == 0 && final(self).failure() == Some(e@),
            },
    {
        match r {
            Ok(n) => {
                if n == 0 {
                    self.slot.record(
                        SinkError::new(ErrorKind::WriteZero, "failed to write whole buffer"),
                    );
                }
                n
            },
            Err(e) => {
                self.slot.record(e);
                0
            },
        }
    }

    /// Acts on the result of a sink flush: records its failure verbatim.
    pub fn absorb_flush(&mut self, r: Result<(), SinkError>)
        requires
            old(self).failure() is None,
        ensures
            final(self).failure() == match r {
                Ok(_) => None,
                Err(e) => Some(e@),
            },
    {
        match r {
            Ok(_) => {},
            Err(e) => {
                self.slot.record(e);
            },
        }
    }

    /// Writes all of `chunk` to the sink, stopping at the first failure.
    fn write_chunk<S: Sink>(&mut self, sink: &mut S, chunk: &[u8])
        requires
            old(self).failure() is None,
        ensures
            final(sink).committed() == old(sink).committed(),
            final(sink).write_refusal() == old(sink).write_refusal(),
            final(sink).flush_refusal() == old(sink).flush_refusal(),
            exists|k: int|
                0 <= k <= chunk@.len() && final(sink).taken() == old(sink).taken()
                    + chunk@.subrange(0, k),
            final(self).failure() is None ==> final(sink).taken() == old(sink).taken() + chunk@,
            final(sink).takes_all_writes() == old(sink).takes_all_writes(),
            final(sink).takes_all_flushes() == old(sink).takes_all_flushes(),
            old(sink).takes_all_writes() ==> final(self).failure() is None,
            old(sink).write_refusal() is Some ==> final(sink).taken() == old(sink).taken(),
            old(sink).write_refusal() matches Some(m) ==> final(self).failure() == (if chunk@.len()
                > 0 {
                Some(m)
            } else {
                None
            }),
    {
        let len: usize = chunk.len();
        let mut pos: usize = 0;
        let mut done: bool = false;
        while pos < len && !done
            invariant
                len == chunk@.len(),
                pos <= len,
                done ==> pos < len,
                done == self.failure() is Some,
                sink.committed() == old(sink).committed(),
                sink.write_refusal() == old(sink).write_refusal(),
                sink.flush_refusal() == old(sink).flush_refusal(),
                sink.takes_all_writes() == old(sink).takes_all_writes(),
                sink.takes_all_flushes() == old(sink).takes_all_flushes(),
                old(sink).takes_all_writes() ==> !done,
                sink.taken() == old(sink).taken() + chunk@.subrange(0, pos as int),
                old(sink).write_refusal() is Some ==> pos == 0,
                old(sink).write_refusal() matches Some(m) ==> (done ==> self.failure() == Some(m)),
            decreases len - pos + (if done { 0int } else { 1int }),
        {
            let rest = vstd::slice::slice_subrange(chunk, pos, len);
            let res = sink.write(rest);
            let ghost taken = res;
            let advance = self.absorb_write(res);
            if advance == 0 {
                done = true;
            } else {
                proof {
                    let n = advance;
                    assert(taken matches Ok(k) && k == n);
                    assert(chunk@.subrange(0, pos as int) + rest@.subrange(0, n as int)
                        =~= chunk@.subrange(0, pos + n));
                }
                pos = pos + advance;
            }
        }
        proof {
            assert(0 <= pos <= chunk@.len() && sink.taken() == old(sink).taken()
                + chunk@.subrange(0, pos as int));
            if !done {
                assert(chunk@.subrange(0, pos as int) =~= chunk@);
            }
            if pos == 0 {
                assert(chunk@.subrange(0, 0) =~= Seq::<u8>::empty());
                assert(sink.taken() =~= old(sink).taken());
            }
            if let Some(m) = old(sink).write_refusal() {
                if chunk@.len() > 0 {
                    assert(done);
                    assert(self.failure() == Some(m));
                } else {
                    assert(!done);
                }
            }
        }
    }

    /// Flushes the sink, recording its failure.
    fn flush_sink<S: Sink>(&mut self, sink: &mut S)
        requires
            old(self).failure() is None,
        ensures
            final(sink).taken() == old(sink).taken(),
            final(sink).write_refusal() == old(sink).write_refusal(),
            final(sink).flush_refusal() == old(sink).flush_refusal(),
            final(sink).takes_all_writes() == old(sink).takes_all_writes(),
            final(sink).takes_all_flushes() == old(sink).takes_all_flushes(),
            old(sink).takes_all_flushes() ==> final(self).failure() is None,
            match final(self).failure() {
                None => {
                    &&& final(sink).committed() == final(sink).taken()
                    &&& old(sink).flush_refusal() is None
                },
                Some(e) => {
                    &&& final(sink).committed() == old(sink).committed()
                    &&& (old(sink).flush_refusal() matches Some(m) ==> e == m)
                },
            },
    {
        let res = sink.flush();
        self.absorb_flush(res);
    }

    /// Acts on one message. Once a failure is recorded, messages are consumed
    /// and dropped without touching the sink, so the producer never waits on
    /// a queue that nobody empties.
    pub fn handle<S: Sink>(&mut self, sink: &mut S, msg: Message)
        ensures
            final(sink).write_refusal() == old(sink).write_refusal(),
            final(sink).flush_refusal() == old(sink).flush_refusal(),
            final(sink).takes_all_writes() == old(sink).takes_all_writes(),
            final(sink).takes_all_flushes() == old(sink).takes_all_flushes(),
            old(self).failure() is Some ==> {
                &&& final(self).failure() == old(self).failure()
                &&& *final(sink) == *old(sink)
            },
            old(self).failure() is None ==> match msg {
                Message::Data(c) => {
                    &&& final(sink).committed() == old(sink).committed()
                    &&& old(sink).takes_all_writes() ==> final(self).failure() is None
                    &&& exists|k: int|
                        0 <= k <= c@.len() && final(sink).taken() == old(sink).taken()
                            + c@.subrange(0, k)
                    &&& final(self).failure() is None ==> final(sink).taken()
                        == old(sink).taken() + c@
                    &&& old(sink).write_refusal() is Some ==> final(sink).taken()
                        == old(sink).taken()
                    &&& old(sink).write_refusal() matches Some(m) ==> final(self).failure()
                        == (if c@.len() > 0 { Some(m) } else { None })
                },
                Message::Flush => {
                    &&& final(sink).taken() == old(sink).taken()
                    &&& old(sink).takes_all_flushes() ==> final(self).failure() is None
                    &&& match final(self).failure() {
                        None => {
                            &&& final(sink).committed() == final(sink).taken()
                            &&& old(sink).flush_refusal() is None
                        },
                        Some(e) => {
                            &&& final(sink).committed() == old(sink).committed()
                            &&& (old(sink).flush_refusal() matches Some(m) ==> e == m)
                        },
                    }
                },
            },
    {
        if self.slot.is_set() {
            return;
        }
        match msg {
            Message::Data(c) => self.write_chunk(sink, c.as_slice()),
            Message::Flush => self.flush_sink(sink),
        }
    }
}

} // verus!
