use vstd::prelude::*;

use crate::chunker::{at_least_one, carried, Chunker};
use crate::error::{ErrorKind, SinkError};
use crate::sink::Sink;
use crate::worker::{Message, Worker};

verus! {

/// The bytes held by a queue of chunks, in order.
pub open spec fn queued_bytes(q: Seq<Vec<u8>>) -> Seq<u8> {
    q.map_values(|c: Vec<u8>| c@).flatten()
}

/// What a run of a caller's work against a proxy returns: the first failure of
/// the sink if one was recorded, even where the work itself succeeded, and
/// otherwise the work's own result.
pub fn outcome<T, E>(work: Result<T, E>, recorded: Option<E>) -> (r: Result<T, E>)
    ensures
        r == (match recorded {
            Some(e) => Err(e),
            None => work,
        }),
{
    match recorded {
        Some(e) => Err(e),
        None => work,
    }
}

/// A writer that gathers bytes into chunks and passes them through a bounded
/// queue to a worker that owns the sink.
///
/// Here both ends run on the caller's thread: when the queue is full, the
/// worker takes the oldest chunk before a new one goes in. A flush is a
/// barrier: every chunk queued before it is written, then the sink is
/// flushed. The first failure of the sink is kept and returned by every later
/// operation. Closing writes what is left and does not flush.
pub struct Proxy<S: Sink> {
    chunker: Chunker,
    queue: Vec<Vec<u8>>,
    depth: usize,
    worker: Worker,
    sink: S,
    origin: Ghost<Seq<u8>>,
    accepted: Ghost<Seq<u8>>,
}

impl<S: Sink> Proxy<S> {
    /// What the sink had taken when the proxy was made.
    pub closed spec fn origin(&self) -> Seq<u8> {
        self.origin@
    }

    /// Every byte the proxy has accepted from its caller, in order.
    pub closed spec fn accepted(&self) -> Seq<u8> {
        self.accepted@
    }

    /// Bytes accepted and not yet handed to the sink.
    pub closed spec fn in_flight(&self) -> Seq<u8> {
        queued_bytes(self.queue@) + self.chunker.pending()
    }

    /// The first failure of the sink, if any.
    pub closed spec fn failure(&self) -> Option<(ErrorKind, Seq<char>)> {
        self.worker.failure()
    }

    pub closed spec fn sink_view(&self) -> S {
        self.sink
    }

    pub closed spec fn chunk_size(&self) -> nat {
        self.chunker.capacity()
    }

    pub closed spec fn queue_depth(&self) -> nat {
        self.depth as nat
    }

    pub closed spec fn wf(&self) -> bool {
        self.wf_with(Seq::<u8>::empty())
    }

    /// Well-formed while the bytes `held` are out of the chunker and not yet
    /// queued.
    closed spec fn wf_with(&self, held: Seq<u8>) -> bool {
        &&& self.chunker.wf()
        &&& self.depth >= 1
        &&& self.queue@.len() <= self.depth
        &&& forall|i: int| 0 <= i < self.queue@.len() ==> (#[trigger] self.queue@[i])@.len() > 0
        &&& self.worker.failure() is None ==> self.sink.taken() + self.in_flight() + held
            == self.origin@ + self.accepted@
        &&& self.sink.write_refusal() is Some ==> self.sink.taken() == self.origin@
    }

    /// A proxy over `sink` with chunks of `chunk_size` bytes and room for
    /// `queue_depth` chunks; a size or depth of 0 is taken as 1.
    pub fn new(chunk_size: usize, queue_depth: usize, sink: S) -> (r: Proxy<S>)
        ensures
            r.wf(),
            r.sink_view() == sink,
            r.origin() == sink.taken(),
            r.accepted() == Seq::<u8>::empty(),
            r.in_flight() == Seq::<u8>::empty(),
            r.failure() is None,
            r.chunk_size() == (if chunk_size == 0 { 1 } else { chunk_size }),
            r.queue_depth() == (if queue_depth == 0 { 1 } else { queue_depth }),
    {
        let depth: usize = at_least_one(queue_depth);
        let r = Proxy {
            chunker: Chunker::new(chunk_size),
            queue: Vec::new(),
            depth,
            worker: Worker::new(),
            sink,
            origin: Ghost(sink.taken()),
            accepted: Ghost(Seq::empty()),
        };
        proof {
            assert(r.queue@.map_values(|c: Vec<u8>| c@) =~= Seq::<Seq<u8>>::empty());
            assert(r.in_flight() =~= Seq::<u8>::empty());
            assert(r.sink.taken() + r.in_flight() =~= r.origin@ + r.accepted@);
        }
        r
    }

    /// The sink, for inspection.
    pub fn sink(&self) -> (r: &S)
        ensures
            *r == self.sink_view(),
    {
        &self.sink
    }

    /// A copy of the first failure, if any.
    pub fn error(&self) -> (r: Option<SinkError>)
        ensures
            match r {
                Some(e) => self.failure() == Some(e@),
                None => self.failure() is None,
            },
    {
        self.worker.error()
    }

    /// The worker takes the oldest queued chunk.
    fn step(&mut self, Ghost(held): Ghost<Seq<u8>>)
        requires
            old(self).wf_with(held),
            old(self).queue@.len() > 0,
        ensures
            final(self).wf_with(held),
            final(self).queue@.len() == old(self).queue@.len() - 1,
            final(self).chunker == old(self).chunker,
            final(self).depth == old(self).depth,
            final(self).origin() == old(self).origin(),
            final(self).accepted() == old(self).accepted(),
            final(self).sink.committed() == old(self).sink.committed(),
            final(self).sink.write_refusal() == old(self).sink.write_refusal(),
            final(self).sink.flush_refusal() == old(self).sink.flush_refusal(),
            final(self).sink.takes_all_writes() == old(self).sink.takes_all_writes(),
            final(self).sink.takes_all_flushes() == old(self).sink.takes_all_flushes(),
            old(self).sink.takes_all_writes() && old(self).failure() is None ==> final(self).failure() is None,
            old(self).failure() is Some ==> final(self).failure() == old(self).failure()
                && final(self).sink == old(self).sink,
            old(self).sink.write_refusal() matches Some(m) ==> (old(self).failure() is None
                ==> final(self).failure() == Some(m)),
    {
        let ghost q = self.queue@;
        let c = self.queue.remove(0);
        assert(c@.len() > 0);
        proof {
            let mq = q.map_values(|c: Vec<u8>| c@);
            assert(mq.len() > 0);
            assert(mq.drop_first() =~= self.queue@.map_values(|c: Vec<u8>| c@));
            assert(queued_bytes(q) == c@ + queued_bytes(self.queue@));
        }
        let ghost s0 = self.sink;
        self.worker.handle(&mut self.sink, Message::Data(c));
        proof {
            if self.worker.failure() is None {
                assert(self.sink.taken() + self.in_flight() + held =~= s0.taken() + (c@
                    + queued_bytes(self.queue@) + self.chunker.pending()) + held);
            }
        }
    }

    /// Puts a chunk at the back of the queue, first letting the worker take
    /// one if the queue is full.
    fn enqueue(&mut self, c: Vec<u8>)
        requires
            old(self).wf_with(c@),
            old(self).chunker.pending() == Seq::<u8>::empty(),
            c@.len() > 0,
        ensures
            final(self).wf(),
            final(self).queue@.len() >= 1,
            final(self).chunker == old(self).chunker,
            final(self).depth == old(self).depth,
            final(self).origin() == old(self).origin(),
            final(self).accepted() == old(self).accepted(),
            final(self).sink.committed() == old(self).sink.committed(),
            final(self).sink.write_refusal() == old(self).sink.write_refusal(),
            final(self).sink.flush_refusal() == old(self).sink.flush_refusal(),
            final(self).sink.takes_all_writes() == old(self).sink.takes_all_writes(),
            final(self).sink.takes_all_flushes() == old(self).sink.takes_all_flushes(),
            old(self).sink.takes_all_writes() && old(self).failure() is None ==> final(self).failure() is None,
            old(self).failure() is Some ==> final(self).failure() == old(self).failure()
                && final(self).sink == old(self).sink,
            old(self).sink.write_refusal() matches Some(m) ==> (old(self).failure() is None
                ==> (final(self).failure() is None || final(self).failure() == Some(m))),
    {
        if self.queue.len() >= self.depth {
            self.step(Ghost(c@));
        }
        let ghost q = self.queue@;
        self.queue.push(c);
        proof {
            let mq = q.map_values(|c: Vec<u8>| c@);
            assert(self.queue@.map_values(|c: Vec<u8>| c@) =~= mq.push(c@));
            mq.lemma_flatten_push(c@);
            assert(self.in_flight() =~= queued_bytes(q) + c@);
            assert forall|i: int| 0 <= i < self.queue@.len() implies (
            #[trigger] self.queue@[i])@.len() > 0 by {
                if i < q.len() {
                    assert(self.queue@[i] == q[i]);
                }
            }
            if self.worker.failure() is None {
                assert(self.sink.taken() + self.in_flight() + Seq::<u8>::empty() =~= self.sink.taken()
                    + (queued_bytes(q) + self.chunker.pending()) + c@);
            }
        }
    }

    /// The worker takes every queued chunk.
    fn drain(&mut self)
        requires
            old(self).wf(),
        ensures
            final(self).wf(),
            final(self).queue@.len() == 0,
            final(self).chunker == old(self).chunker,
            final(self).depth == old(self).depth,
            final(self).origin() == old(self).origin(),
            final(self).accepted() == old(self).accepted(),
            final(self).sink.committed() == old(self).sink.committed(),
            final(self).sink.write_refusal() == old(self).sink.write_refusal(),
            final(self).sink.flush_refusal() == old(self).sink.flush_refusal(),
            final(self).sink.takes_all_writes() == old(self).sink.takes_all_writes(),
            final(self).sink.takes_all_flushes() == old(self).sink.takes_all_flushes(),
            old(self).sink.takes_all_writes() && old(self).failure() is None ==> final(self).failure() is None,
            old(self).failure() is Some ==> final(self).failure() == old(self).failure()
                && final(self).sink == old(self).sink,
            old(self).queue@.len() == 0 ==> *final(self) == *old(self),
            old(self).sink.write_refusal() matches Some(m) ==> (old(self).failure() is None
                ==> final(self).failure() == (if old(self).queue@.len() > 0 {
                Some(m)
            } else {
                None
            })),
    {
        while self.queue.len() > 0
            invariant
                self.wf(),
                self.chunker == old(self).chunker,
                self.depth == old(self).depth,
                self.origin() == old(self).origin(),
                self.accepted() == old(self).accepted(),
                self.sink.committed() == old(self).sink.committed(),
                self.sink.write_refusal() == old(self).sink.write_refusal(),
                self.sink.flush_refusal() == old(self).sink.flush_refusal(),
                self.sink.takes_all_writes() == old(self).sink.takes_all_writes(),
                self.sink.takes_all_flushes() == old(self).sink.takes_all_flushes(),
                old(self).sink.takes_all_writes() && old(self).failure() is None ==> self.failure()
                    is None,
                old(self).failure() is Some ==> self.failure() == old(self).failure() && self.sink
                    == old(self).sink,
                old(self).queue@.len() == 0 ==> *self == *old(self),
                old(self).sink.write_refusal() matches Some(m) ==> (old(self).failure() is None
                    ==> self.failure() == (if self.queue@.len() < old(self).queue@.len() {
                    Some(m)
                } else {
                    None
                })),
                self.queue@.len() <= old(self).queue@.len(),
            decreases self.queue@.len(),
        {
            self.step(Ghost(Seq::empty()));
        }
    }

    /// Accepts all of `data`, unless a failure is already recorded, in which
    /// case that failure is returned and nothing is accepted. Queued chunks
    /// reach the sink's `write` when the queue needs room; nothing is flushed.
    pub fn write(&mut self, data: &[u8]) -> (r: Result<usize, SinkError>)
        requires
            old(self).wf(),
        ensures
            final(self).wf(),
            final(self).origin() == old(self).origin(),
            final(self).chunk_size() == old(self).chunk_size(),
            final(self).queue_depth() == old(self).queue_depth(),
            final(self).sink_view().committed() == old(self).sink_view().committed(),
            final(self).sink_view().write_refusal() == old(self).sink_view().write_refusal(),
            final(self).sink_view().flush_refusal() == old(self).sink_view().flush_refusal(),
            final(self).sink_view().takes_all_writes() == old(self).sink_view().takes_all_writes(),
            final(self).sink_view().takes_all_flushes() == old(self).sink_view().takes_all_flushes(),
            final(self).failure() is None ==> final(self).sink_view().taken() + final(self).in_flight()
                == final(self).origin() + final(self).accepted(),
            final(self).sink_view().write_refusal() is Some ==> final(self).sink_view().taken()
                == final(self).origin(),
            old(self).sink_view().takes_all_writes() && old(self).failure() is None ==> (final(self).failure() is None),
            match old(self).failure() {
                Some(e) => {
                    &&& r matches Err(x) && x@ == e
                    &&& final(self).failure() == old(self).failure()
                    &&& final(self).accepted() == old(self).accepted()
                    &&& final(self).in_flight() == old(self).in_flight()
                    &&& final(self).sink_view() == old(self).sink_view()
                },
                None => {
                    &&& r == Ok::<usize, SinkError>(data@.len() as usize)
                    &&& final(self).accepted() == old(self).accepted() + data@
                    &&& (old(self).sink_view().write_refusal() matches Some(m) ==> (
                    final(self).failure() is None || final(self).failure() == Some(m)))
                },
            },
    {
        match self.worker.error() {
            Some(e) => {
                return Err(e);
            },
            None => {},
        }
        let len: usize = data.len();
        let mut pos: usize = 0;
        while pos < len
            invariant
                len == data@.len(),
                pos <= len,
                self.wf(),
                self.origin() == old(self).origin(),
                self.chunker.capacity() == old(self).chunker.capacity(),
                self.depth == old(self).depth,
                self.accepted() == old(self).accepted() + data@.subrange(0, pos as int),
                self.sink.committed() == old(self).sink.committed(),
                self.sink.write_refusal() == old(self).sink.write_refusal(),
                self.sink.flush_refusal() == old(self).sink.flush_refusal(),
                self.sink.takes_all_writes() == old(self).sink.takes_all_writes(),
                self.sink.takes_all_flushes() == old(self).sink.takes_all_flushes(),
                old(self).sink.takes_all_writes() && old(self).failure() is None ==> self.failure()
                    is None,
                old(self).sink.write_refusal() matches Some(m) ==> (self.failure() is None
                    || self.failure() == Some(m)),
            decreases len - pos,
        {
            let rest = vstd::slice::slice_subrange(data, pos, len);
            let ghost before = self.chunker.pending();
            proof {
                self.chunker.lemma_wf();
                if self.worker.failure() is None {
                    assert(self.sink.taken() + self.in_flight() + Seq::<u8>::empty()
                        =~= self.sink.taken() + queued_bytes(self.queue@) + before);
                }
            }
            let (n, full) = self.chunker.fill(rest);
            proof {
                assert(rest@.subrange(0, n as int) =~= data@.subrange(pos as int, pos + n));
                assert(data@.subrange(0, pos as int) + data@.subrange(pos as int, pos + n)
                    =~= data@.subrange(0, pos + n));
            }
            self.accepted = Ghost(self.accepted@ + rest@.subrange(0, n as int));
            match full {
                Some(c) => {
                    proof {
                        if self.worker.failure() is None {
                            assert(self.sink.taken() + self.in_flight() + c@ =~= self.sink.taken()
                                + queued_bytes(self.queue@) + (carried(Some(c))
                                + self.chunker.pending()));
                            assert(carried(Some(c)) + self.chunker.pending() == before
                                + rest@.subrange(0, n as int));
                            assert(self.sink.taken() + self.in_flight() + c@ =~= self.sink.taken()
                                + queued_bytes(self.queue@) + before + rest@.subrange(0, n as int));
                            assert(self.sink.taken() + self.in_flight() + c@ =~= self.origin@
                                + self.accepted@);
                        }
                        assert(forall|i: int|
                            0 <= i < self.queue@.len() ==> (#[trigger] self.queue@[i])@.len() > 0);
                    }
                    self.enqueue(c);
                },
                None => {
                    proof {
                        if self.worker.failure() is None {
                            assert(self.sink.taken() + self.in_flight() =~= self.sink.taken()
                                + queued_bytes(self.queue@) + (carried(None)
                                + self.chunker.pending()));
                            assert(carried(None) + self.chunker.pending() == before + rest@.subrange(
                                0,
                                n as int,
                            ));
                            assert(self.sink.taken() + self.in_flight() =~= self.sink.taken()
                                + queued_bytes(self.queue@) + before + rest@.subrange(0, n as int));
                            assert(self.sink.taken() + self.in_flight() + Seq::<u8>::empty()
                                =~= self.origin@ + self.accepted@);
                        }
                        assert(forall|i: int|
                            0 <= i < self.queue@.len() ==> (#[trigger] self.queue@[i])@.len() > 0);
                    }
                },
            }
            pos = pos + n;
        }
        proof {
            assert(data@.subrange(0, len as int) =~= data@);
        }
        Ok(len)
    }

    /// A sink that refuses writes has taken nothing, so everything accepted is
    /// still in flight.
    proof fn lemma_refused_bytes_in_flight(&self)
        requires
            self.wf(),
            self.failure() is None,
            self.sink.write_refusal() is Some,
        ensures
            self.in_flight() == self.accepted(),
    {
        assert(self.sink.taken() + self.in_flight() + Seq::<u8>::empty() == self.origin@
            + self.accepted@);
        let whole = self.sink.taken() + self.in_flight();
        assert(self.in_flight() =~= whole.subrange(self.origin@.len() as int, whole.len() as int));
        assert(self.accepted@ =~= whole.subrange(self.origin@.len() as int, whole.len() as int));
    }

    /// A queue of non-empty chunks holds no byte only when it is empty.
    proof fn lemma_nothing_queued(&self)
        requires
            self.wf(),
            queued_bytes(self.queue@).len() == 0,
        ensures
            self.queue@.len() == 0,
    {
        let mq = self.queue@.map_values(|c: Vec<u8>| c@);
        if mq.len() > 0 {
            assert(mq[0] == self.queue@[0]@);
            assert(mq.flatten() == mq.first() + mq.drop_first().flatten());
        }
    }

    /// Queues the partial chunk, then lets the worker take every chunk.
    fn settle(&mut self)
        requires
            old(self).wf(),
        ensures
            final(self).wf(),
            final(self).in_flight() == Seq::<u8>::empty(),
            final(self).chunker.capacity() == old(self).chunker.capacity(),
            final(self).depth == old(self).depth,
            final(self).origin() == old(self).origin(),
            final(self).accepted() == old(self).accepted(),
            final(self).sink.committed() == old(self).sink.committed(),
            final(self).sink.write_refusal() == old(self).sink.write_refusal(),
            final(self).sink.flush_refusal() == old(self).sink.flush_refusal(),
            final(self).sink.takes_all_writes() == old(self).sink.takes_all_writes(),
            final(self).sink.takes_all_flushes() == old(self).sink.takes_all_flushes(),
            old(self).sink.takes_all_writes() && old(self).failure() is None ==> final(self).failure() is None,
            old(self).failure() is Some ==> final(self).failure() == old(self).failure()
                && final(self).sink == old(self).sink,
            old(self).in_flight().len() == 0 ==> {
                &&& final(self).failure() == old(self).failure()
                &&& final(self).sink == old(self).sink
            },
            final(self).failure() is None ==> final(self).sink.taken() == final(self).origin()
                + final(self).accepted(),
            old(self).sink.write_refusal() matches Some(m) ==> (old(self).failure() is None
                ==> final(self).failure() == (if old(self).in_flight().len() > 0 {
                Some(m)
            } else {
                None
            })),
    {
        proof {
            if self.in_flight().len() == 0 {
                self.lemma_nothing_queued();
            }
        }
        match self.chunker.take() {
            Some(c) => {
                proof {
                    if self.worker.failure() is None {
                        assert(self.sink.taken() + self.in_flight() + c@ =~= old(self).sink.taken()
                            + old(self).in_flight() + Seq::<u8>::empty());
                    }
                    assert(forall|i: int|
                        0 <= i < self.queue@.len() ==> (#[trigger] self.queue@[i])@.len() > 0);
                }
                self.enqueue(c);
            },
            None => {},
        }
        self.drain();
        proof {
            assert(self.queue@.map_values(|c: Vec<u8>| c@) =~= Seq::<Seq<u8>>::empty());
            assert(self.in_flight() =~= Seq::<u8>::empty());
            if self.worker.failure() is None {
                assert(self.sink.taken() =~= self.sink.taken() + self.in_flight()
                    + Seq::<u8>::empty());
            }
        }
    }

    /// Writes every accepted byte to the sink and then flushes it. Returns
    /// `Ok` exactly when no failure is recorded afterwards, and then every
    /// accepted byte is committed. A recorded failure is returned as it is.
    pub fn flush(&mut self) -> (r: Result<(), SinkError>)
        requires
            old(self).wf(),
        ensures
            final(self).wf(),
            final(self).origin() == old(self).origin(),
            final(self).accepted() == old(self).accepted(),
            final(self).chunk_size() == old(self).chunk_size(),
            final(self).queue_depth() == old(self).queue_depth(),
            final(self).sink_view().write_refusal() == old(self).sink_view().write_refusal(),
            final(self).sink_view().flush_refusal() == old(self).sink_view().flush_refusal(),
            final(self).sink_view().takes_all_writes() == old(self).sink_view().takes_all_writes(),
            final(self).sink_view().takes_all_flushes() == old(self).sink_view().takes_all_flushes(),
            final(self).failure() is None ==> final(self).sink_view().taken() + final(self).in_flight()
                == final(self).origin() + final(self).accepted(),
            match old(self).failure() {
                Some(e) => {
                    &&& r matches Err(x) && x@ == e
                    &&& final(self).failure() == old(self).failure()
                    &&& final(self).in_flight() == old(self).in_flight()
                    &&& final(self).sink_view() == old(self).sink_view()
                },
                None => {
                    &&& final(self).in_flight() == Seq::<u8>::empty()
                    &&& (old(self).sink_view().takes_all_writes() && old(self).sink_view().takes_all_flushes() ==> r is Ok)
                    &&& match r {
                        Ok(_) => {
                            &&& final(self).failure() is None
                            &&& final(self).sink_view().taken() == final(self).origin()
                                + final(self).accepted()
                            &&& final(self).sink_view().committed() == final(self).origin()
                                + final(self).accepted()
                        },
                        Err(e) => {
                            &&& final(self).failure() == Some(e@)
                            &&& final(self).sink_view().committed()
                                == old(self).sink_view().committed()
                        },
                    }
                    &&& (old(self).sink_view().flush_refusal() matches Some(m) ==> (
                    r matches Err(e) && (old(self).in_flight().len() == 0
                        || old(self).sink_view().takes_all_writes() ==> e@ == m)))
                    &&& (old(self).sink_view().write_refusal() matches Some(m) ==> (
                    old(self).accepted().len() > 0 ==> (r matches Err(e) && e@ == m)))
                },
            },
    {
        match self.worker.error() {
            Some(e) => {
                return Err(e);
            },
            None => {},
        }
        proof {
            if self.sink.write_refusal() is Some {
                self.lemma_refused_bytes_in_flight();
            }
        }
        self.settle();
        self.worker.handle(&mut self.sink, Message::Flush);
        match self.worker.error() {
            Some(e) => Err(e),
            None => Ok(()),
        }
    }

    /// Closes the queue: writes what is left to the sink, without flushing
    /// it, and hands the sink back with the outcome. The outcome is the first
    /// failure recorded, if any.
    pub fn finish(self) -> (r: (Result<(), SinkError>, S))
        requires
            self.wf(),
        ensures
            r.1.committed() == self.sink_view().committed(),
            r.1.write_refusal() == self.sink_view().write_refusal(),
            r.1.flush_refusal() == self.sink_view().flush_refusal(),
            r.1.takes_all_writes() == self.sink_view().takes_all_writes(),
            r.1.takes_all_flushes() == self.sink_view().takes_all_flushes(),
            match self.failure() {
                Some(e) => {
                    &&& r.0 matches Err(x) && x@ == e
                    &&& r.1 == self.sink_view()
                },
                None => {
                    &&& r.0 is Ok ==> r.1.taken() == self.origin() + self.accepted()
                    &&& self.sink_view().takes_all_writes() ==> r.0 is Ok
                    &&& self.in_flight().len() == 0 ==> (r.0 is Ok && r.1 == self.sink_view())
                    &&& (self.sink_view().write_refusal() matches Some(m) ==> {
                        &&& (r.0 is Ok <==> self.accepted().len() == 0)
                        &&& (r.0 matches Err(x) ==> x@ == m)
                    })
                },
            },
    {
        let mut p = self;
        proof {
            if p.sink.write_refusal() is Some && p.worker.failure() is None {
                p.lemma_refused_bytes_in_flight();
            }
        }
        p.settle();
        let e = p.worker.error();
        match e {
            Some(e) => (Err(e), p.sink),
            None => (Ok(()), p.sink),
        }
    }
}

} // verus!
