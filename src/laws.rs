use vstd::prelude::*;

use crate::proxy::Proxy;
use crate::sink::Sink;
use crate::staging::Writer;

verus! {

/// Round trip: bytes `d` written into a fresh proxy and then flushed with
/// success are committed to the sink exactly, after what the sink already
/// held, whatever the chunk size and queue depth.
///
/// `fresh` is what `Proxy::new` returns, `written` what `write(d)` leaves when
/// it returns `Ok`, and `flushed` what `flush` leaves when it returns `Ok`.
/// On a sink that takes every write and every flush, `write` and `flush`
/// both return `Ok`, so there the round trip always holds.
pub proof fn lemma_round_trip<S: Sink>(
    fresh: Proxy<S>,
    written: Proxy<S>,
    flushed: Proxy<S>,
    d: Seq<u8>,
)
    requires
        fresh.accepted() == Seq::<u8>::empty(),
        written.origin() == fresh.origin(),
        written.accepted() == fresh.accepted() + d,
        flushed.origin() == written.origin(),
        flushed.accepted() == written.accepted(),
        flushed.sink_view().committed() == flushed.origin() + flushed.accepted(),
    ensures
        flushed.sink_view().committed() == fresh.origin() + d,
{
    assert(fresh.accepted() + d =~= d);
}

/// Round trip on a staging writer: with a fresh `Writer` as the sink, what it
/// publishes after the flush is exactly `d`.
pub proof fn lemma_round_trip_staged(
    fresh: Proxy<Writer>,
    written: Proxy<Writer>,
    flushed: Proxy<Writer>,
    d: Seq<u8>,
)
    requires
        fresh.sink_view().staged() == Seq::<u8>::empty(),
        fresh.sink_view().published() == Seq::<u8>::empty(),
        fresh.origin() == fresh.sink_view().taken(),
        fresh.accepted() == Seq::<u8>::empty(),
        written.origin() == fresh.origin(),
        written.accepted() == fresh.accepted() + d,
        flushed.origin() == written.origin(),
        flushed.accepted() == written.accepted(),
        flushed.sink_view().committed() == flushed.origin() + flushed.accepted(),
    ensures
        flushed.sink_view().published() == d,
{
    lemma_round_trip(fresh, written, flushed, d);
    assert(fresh.origin() =~= Seq::<u8>::empty());
    assert(fresh.origin() + d =~= d);
}

/// A second flush with no write since the first changes nothing that the
/// first committed: it neither duplicates nor drops bytes.
///
/// `first` is what a flush that returned `Ok` leaves (every flush on a sink
/// that takes every write and flush does); `second` is what the next `flush`
/// leaves, which commits everything on `Ok` and nothing new on `Err`.
pub proof fn lemma_flush_twice<S: Sink>(first: Proxy<S>, second: Proxy<S>)
    requires
        first.sink_view().committed() == first.origin() + first.accepted(),
        second.origin() == first.origin(),
        second.accepted() == first.accepted(),
        second.sink_view().committed() == second.origin() + second.accepted()
            || second.sink_view().committed() == first.sink_view().committed(),
    ensures
        second.sink_view().committed() == first.sink_view().committed(),
{
}

} // verus!
