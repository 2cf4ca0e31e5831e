use vstd::prelude::*;

use crate::error::{ErrorKind, SinkError};

verus! {

/// Something bytes can be written to and flushed, such as a file or a socket.
///
/// Its state is seen through spec functions: the bytes it has `taken` from
/// `write`, the bytes that a successful flush has `committed`; for a sink known
/// to refuse an operation every time, the error it refuses with; and for a
/// sink known to succeed, that it does. A sink that promises neither says
/// `None` for the refusals and `false` for the promises.
pub trait Sink: Sized {
    /// Every byte accepted by `write`, in order.
    spec fn taken(&self) -> Seq<u8>;

    /// The bytes a successful flush has made durable or visible.
    spec fn committed(&self) -> Seq<u8>;

    /// The error every `write` returns, where the sink refuses all writes.
    spec fn write_refusal(&self) -> Option<(ErrorKind, Seq<char>)>;

    /// The error every `flush` returns, where the sink refuses all flushes.
    spec fn flush_refusal(&self) -> Option<(ErrorKind, Seq<char>)>;

    /// Every `write` succeeds, and takes at least one byte of a non-empty buffer.
    spec fn takes_all_writes(&self) -> bool;

    /// Every `flush` succeeds.
    spec fn takes_all_flushes(&self) -> bool;

    /// Takes a prefix of `buf`, and returns its length; commits nothing.
    fn write(&mut self, buf: &[u8]) -> (r: Result<usize, SinkError>)
        ensures
            final(self).committed() == old(self).committed(),
            final(self).write_refusal() == old(self).write_refusal(),
            final(self).flush_refusal() == old(self).flush_refusal(),
            final(self).takes_all_writes() == old(self).takes_all_writes(),
            final(self).takes_all_flushes() == old(self).takes_all_flushes(),
            old(self).takes_all_writes() ==> (r matches Ok(n) && (buf@.len() > 0 ==> n > 0)),
            match r {
                Ok(n) => {
                    &&& n <= buf@.len()
                    &&& final(self).taken() == old(self).taken() + buf@.subrange(0, n as int)
                    &&& old(self).write_refusal() is None
                },
                Err(e) => {
                    &&& final(self).taken() == old(self).taken()
                    &&& (old(self).write_refusal() matches Some(m) ==> e@ == m)
                },
            },
    ;

    /// Commits every byte taken so far, or fails and commits nothing new.
    fn flush(&mut self) -> (r: Result<(), SinkError>)
        ensures
            final(self).taken() == old(self).taken(),
            final(self).write_refusal() == old(self).write_refusal(),
            final(self).flush_refusal() == old(self).flush_refusal(),
            final(self).takes_all_writes() == old(self).takes_all_writes(),
            final(self).takes_all_flushes() == old(self).takes_all_flushes(),
            old(self).takes_all_flushes() ==> r is Ok,
            match r {
                Ok(_) => {
                    &&& final(self).committed() == final(self).taken()
                    &&& old(self).flush_refusal() is None
                },
                Err(e) => {
                    &&& final(self).committed() == old(self).committed()
                    &&& (old(self).flush_refusal() matches Some(m) ==> e@ == m)
                },
            },
    ;
}

} // verus!
