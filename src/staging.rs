use vstd::prelude::*;

use crate::error::{ErrorKind, SinkError};
use crate::sink::Sink;

verus! {

/// A sink that stages written bytes and publishes them only on `flush`.
///
/// Each `write` takes at most `bufsize` bytes. It can be told to refuse every
/// write (with the message "write err") or every flush ("flush err").
#[derive(Debug)]
pub struct Writer {
    cache: Vec<u8>,
    data: Vec<u8>,
    write_fails: bool,
    flush_fails: bool,
    bufsize: usize,
}

/// Appends `src` to `dst`.
fn append_bytes(dst: &mut Vec<u8>, src: &[u8])
    ensures
        final(dst)@ == old(dst)@ + src@,
{
    let mut i: usize = 0;
    while i < src.len()
        invariant
            i <= src@.len(),
            dst@ == old(dst)@ + src@.subrange(0, i as int),
        decreases src@.len() - i,
    {
        dst.push(src[i]);
        i = i + 1;
        assert(src@.subrange(0, i as int) == src@.subrange(0, i - 1) + seq![src@[i - 1]]);
    }
    assert(src@.subrange(0, src@.len() as int) == src@);
}

impl Writer {
    /// Bytes written but not flushed yet.
    pub closed spec fn staged(&self) -> Seq<u8> {
        self.cache@
    }

    /// Bytes published by successful flushes.
    pub closed spec fn published(&self) -> Seq<u8> {
        self.data@
    }

    pub closed spec fn fails_writes(&self) -> bool {
        self.write_fails
    }

    pub closed spec fn fails_flushes(&self) -> bool {
        self.flush_fails
    }

    /// The most bytes one `write` takes.
    pub closed spec fn chunk_limit(&self) -> nat {
        self.bufsize as nat
    }

    pub fn new(write_fails: bool, flush_fails: bool, bufsize: usize) -> (r: Writer)
        ensures
            r.staged() == Seq::<u8>::empty(),
            r.published() == Seq::<u8>::empty(),
            r.fails_writes() == write_fails,
            r.fails_flushes() == flush_fails,
            r.chunk_limit() == bufsize,
    {
        Writer { cache: Vec::new(), data: Vec::new(), write_fails, flush_fails, bufsize }
    }

    /// The published bytes.
    pub fn data(&self) -> (r: &[u8])
        ensures
            r@ == self.published(),
    {
        self.data.as_slice()
    }
}

pub open spec fn write_err() -> (ErrorKind, Seq<char>) {
    (ErrorKind::Other, "write err"@)
}

pub open spec fn flush_err() -> (ErrorKind, Seq<char>) {
    (ErrorKind::Other, "flush err"@)
}

impl Sink for Writer {
    open spec fn taken(&self) -> Seq<u8> {
        self.published() + self.staged()
    }

    open spec fn committed(&self) -> Seq<u8> {
        self.published()
    }

    open spec fn write_refusal(&self) -> Option<(ErrorKind, Seq<char>)> {
        if self.fails_writes() { Some(write_err()) } else { None }
    }

    open spec fn flush_refusal(&self) -> Option<(ErrorKind, Seq<char>)> {
        if self.fails_flushes() { Some(flush_err()) } else { None }
    }

    open spec fn takes_all_writes(&self) -> bool {
        !self.fails_writes() && self.chunk_limit() >= 1
    }

    open spec fn takes_all_flushes(&self) -> bool {
        !self.fails_flushes()
    }

    /// Stages the first `min(buf.len(), bufsize)` bytes of `buf`.
    fn write(&mut self, buf: &[u8]) -> (r: Result<usize, SinkError>)
        ensures
            final(self).published() == old(self).published(),
            final(self).fails_writes() == old(self).fails_writes(),
            final(self).fails_flushes() == old(self).fails_flushes(),
            final(self).chunk_limit() == old(self).chunk_limit(),
            match r {
                Ok(n) => {
                    &&& !old(self).fails_writes()
                    &&& n == vstd::math::min(buf@.len() as int, old(self).chunk_limit() as int)
                    &&& final(self).staged() == old(self).staged() + buf@.subrange(0, n as int)
                },
                Err(e) => {
                    &&& old(self).fails_writes()
                    &&& e@ == write_err()
                    &&& final(self).staged() == old(self).staged()
                },
            },
    {
        if self.write_fails {
            return Err(SinkError::new(ErrorKind::Other, "write err"));
        }
        let n: usize = if buf.len() < self.bufsize { buf.len() } else { self.bufsize };
        append_bytes(&mut self.cache, vstd::slice::slice_subrange(buf, 0, n));
        proof {
            assert(self.taken() =~= old(self).taken() + buf@.subrange(0, n as int));
        }
        Ok(n)
    }

    /// Moves the staged bytes to the published ones.
    fn flush(&mut self) -> (r: Result<(), SinkError>)
        ensures
            final(self).fails_writes() == old(self).fails_writes(),
            final(self).fails_flushes() == old(self).fails_flushes(),
            final(self).chunk_limit() == old(self).chunk_limit(),
            match r {
                Ok(_) => {
                    &&& !old(self).fails_flushes()
                    &&& final(self).published() == old(self).published() + old(self).staged()
                    &&& final(self).staged() == Seq::<u8>::empty()
                },
                Err(e) => {
                    &&& old(self).fails_flushes()
                    &&& e@ == flush_err()
                    &&& final(self).published() == old(self).published()
                    &&& final(self).staged() == old(self).staged()
                },
            },
    {
        if self.flush_fails {
            Err(SinkError::new(ErrorKind::Other, "flush err"))
        } else {
            append_bytes(&mut self.data, self.cache.as_slice());
            self.cache.clear();
            proof {
                assert(self.taken() =~= old(self).taken());
            }
            Ok(())
        }
    }
}

} // verus!
