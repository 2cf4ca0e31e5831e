use vstd::prelude::*;

verus! {

/// The bytes a chunk hand-off carries: the chunk, or nothing.
pub open spec fn carried(c: Option<Vec<u8>>) -> Seq<u8> {
    match c {
        Some(v) => v@,
        None => Seq::<u8>::empty(),
    }
}

/// A size or a depth as used: 0 cannot make progress and is taken as 1.
pub fn at_least_one(n: usize) -> (r: usize)
    ensures
        r == (if n == 0 { 1 } else { n }),
{
    if n == 0 {
        1
    } else {
        n
    }
}

/// The producer's side of the queue: fills one chunk of a fixed capacity and
/// hands it out when it is full, or when asked to.
#[derive(Debug)]
pub struct Chunker {
    chunk: Vec<u8>,
    cap: usize,
}

impl Chunker {
    /// The bytes gathered and not handed out yet.
    pub closed spec fn pending(&self) -> Seq<u8> {
        self.chunk@
    }

    /// The size of a full chunk.
    pub closed spec fn capacity(&self) -> nat {
        self.cap as nat
    }

    /// A chunk is handed out as soon as it is full, so it is never full here.
    pub closed spec fn wf(&self) -> bool {
        &&& self.cap >= 1
        &&& self.chunk@.len() < self.cap
    }

    /// What well-formedness tells a user of the chunker.
    pub proof fn lemma_wf(&self)
        requires
            self.wf(),
        ensures
            self.capacity() >= 1,
            self.pending().len() < self.capacity(),
    {
    }

    /// A chunker for chunks of `cap` bytes; a capacity of 0 is taken as 1.
    pub fn new(cap: usize) -> (r: Chunker)
        ensures
            r.wf(),
            r.capacity() == (if cap == 0 { 1 } else { cap }),
            r.pending() == Seq::<u8>::empty(),
    {
        Chunker { chunk: Vec::new(), cap: at_least_one(cap) }
    }

    /// The size of a full chunk.
    pub fn chunk_size(&self) -> (r: usize)
        ensures
            r == self.capacity(),
    {
        self.cap
    }

    /// Takes as many leading bytes of `data` as fit in the current chunk, and
    /// returns how many it took together with the chunk if that filled it.
    pub fn fill(&mut self, data: &[u8]) -> (r: (usize, Option<Vec<u8>>))
        requires
            old(self).wf(),
        ensures
            final(self).wf(),
            final(self).capacity() == old(self).capacity(),
            r.0 == vstd::math::min(
                data@.len() as int,
                old(self).capacity() - old(self).pending().len(),
            ),
            carried(r.1) + final(self).pending() == old(self).pending() + data@.subrange(
                0,
                r.0 as int,
            ),
            match r.1 {
                Some(c) => c@.len() == old(self).capacity() && final(self).pending()
                    == Seq::<u8>::empty(),
                None => final(self).pending().len() < old(self).capacity(),
            },
    {
        let room: usize = self.cap - self.chunk.len();
        let n: usize = if data.len() < room { data.len() } else { room };
        let mut i: usize = 0;
        while i < n
            invariant
                i <= n,
                n <= data@.len(),
                self.cap == old(self).cap,
                old(self).chunk@.len() + n <= self.cap,
                self.chunk@ == old(self).chunk@ + data@.subrange(0, i as int),
            decreases n - i,
        {
            self.chunk.push(data[i]);
            i = i + 1;
            assert(data@.subrange(0, i as int) == data@.subrange(0, i - 1) + seq![data@[i - 1]]);
        }
        if self.chunk.len() == self.cap {
            let mut full: Vec<u8> = Vec::new();
            std::mem::swap(&mut full, &mut self.chunk);
            proof {
                assert(full@ + self.chunk@ =~= full@);
            }
            (n, Some(full))
        } else {
            proof {
                assert(carried(None) + self.chunk@ =~= self.chunk@);
            }
            (n, None)
        }
    }

    /// Hands out the partial chunk, if it holds any byte.
    pub fn take(&mut self) -> (r: Option<Vec<u8>>)
        requires
            old(self).wf(),
        ensures
            final(self).wf(),
            final(self).capacity() == old(self).capacity(),
            final(self).pending() == Seq::<u8>::empty(),
            carried(r) == old(self).pending(),
            r matches Some(c) ==> c@.len() > 0,
            r is None ==> *final(self) == *old(self),
    {
        if self.chunk.len() == 0 {
            proof {
                assert(self.chunk@ =~= Seq::<u8>::empty());
            }
            None
        } else {
            let mut partial: Vec<u8> = Vec::new();
            std::mem::swap(&mut partial, &mut self.chunk);
            Some(partial)
        }
    }
}

} // verus!
