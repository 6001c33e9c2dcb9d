//! The byte link between a board and its host.
use vstd::prelude::*;

verus! {

/// One thing that happened on a link.
#[verifier::ext_equal]
pub enum Event<E> {
    /// These bytes went out.
    Sent(Seq<u8>),
    /// These bytes were to go out, and the link reported an error.
    SendFailed(Seq<u8>, E),
    /// One read returned these bytes; none, where nothing had arrived.
    Received(Seq<u8>),
    /// A read reported an error.
    RecvFailed(E),
}

/// The event of a write of `bytes`.
pub open spec fn send_event<E>(bytes: Seq<u8>, result: Result<(), E>) -> Event<E> {
    match result {
        Ok(()) => Event::Sent(bytes),
        Err(e) => Event::SendFailed(bytes, e),
    }
}

/// The event of a read that left `buf` behind.
pub open spec fn recv_event<E>(buf: Seq<u8>, result: Result<usize, E>) -> Event<E> {
    match result {
        Ok(n) => Event::Received(buf.take(n as int)),
        Err(e) => Event::RecvFailed(e),
    }
}

/// Something that can send raw bytes to the other side and receive raw bytes
/// from it. What stands behind it (a UART, a USB CDC port) is the business of
/// the board or of the host program.
///
/// Each call adds one [`Event`] to the link's `log`, and `recv` makes no
/// promise on how the bytes are cut into reads. Contracts speak of that log. It
/// exists for proofs alone, as `silence` does: an implementation that is not
/// itself proved can leave both out.
pub trait Transport {
    type Error;

    /// Everything that has happened on this link so far.
    open spec fn log(&self) -> Seq<Event<Self::Error>> {
        Seq::empty()
    }

    /// A bound on the number of reads in a row that return nothing: the link
    /// does not stay silent forever.
    open spec fn silence(&self) -> nat {
        0
    }

    /// Writes `bytes` to the link. Blocks until they have gone out.
    fn send(&mut self, bytes: &[u8]) -> (result: Result<(), Self::Error>)
        ensures
            final(self).log() == old(self).log().push(send_event(bytes@, result)),
    ;

    /// Reads up to `buf.len()` bytes into the front of `buf` and returns how
    /// many were read. Returning 0 means that nothing is available yet.
    fn recv(&mut self, buf: &mut [u8]) -> (result: Result<usize, Self::Error>)
        ensures
            final(buf)@.len() == old(buf)@.len(),
            result matches Ok(n) ==> n <= final(buf)@.len(),
            result == Ok::<usize, Self::Error>(0) && old(buf)@.len() > 0 ==> final(self).silence()
                < old(self).silence(),
            final(self).log() == old(self).log().push(recv_event(final(buf)@, result)),
    ;
}

/// What was added to a log between two of its states.
pub open spec fn since<E>(before: Seq<Event<E>>, after: Seq<Event<E>>) -> Seq<Event<E>> {
    after.skip(before.len() as int)
}

/// What was added in two steps is what each step added, in order.
pub proof fn lemma_since<E>(first: Seq<Event<E>>, second: Seq<Event<E>>, third: Seq<Event<E>>)
    requires
        first.is_prefix_of(second),
        second.is_prefix_of(third),
    ensures
        first.is_prefix_of(third),
        since(first, third) == since(first, second) + since(second, third),
{
    assert(since(first, third) =~= since(first, second) + since(second, third));
}

/// The bytes that the reads in `events` returned, in order.
pub open spec fn received<E>(events: Seq<Event<E>>) -> Seq<u8>
    decreases events.len(),
{
    if events.len() == 0 {
        Seq::empty()
    } else {
        let first = match events[0] {
            Event::Received(bytes) => bytes,
            _ => Seq::empty(),
        };
        first + received(events.skip(1))
    }
}

/// The bytes that the writes in `events` sent, in order.
pub open spec fn sent<E>(events: Seq<Event<E>>) -> Seq<u8>
    decreases events.len(),
{
    if events.len() == 0 {
        Seq::empty()
    } else {
        let first = match events[0] {
            Event::Sent(bytes) => bytes,
            _ => Seq::empty(),
        };
        first + sent(events.skip(1))
    }
}

/// What the log tells of each call: the bytes that were handed to `send`, and those
/// at the front of the buffer that `recv` says it has read, all of them and in
/// order; an error tells of no bytes read.
pub proof fn law_log_tells_what_moved<E>(
    bytes: Seq<u8>,
    n: usize,
    error: E,
    earlier: Seq<Event<E>>,
    later: Seq<Event<E>>,
)
    ensures
        sent(seq![send_event(bytes, Ok::<(), E>(()))] + later) == bytes + sent(later),
        received(seq![send_event(bytes, Ok::<(), E>(()))] + later) == received(later),
        send_event(bytes, Err::<(), E>(error)) == Event::SendFailed(bytes, error),
        n <= bytes.len() ==> received(seq![recv_event(bytes, Ok::<usize, E>(n))] + later)
            == bytes.take(n as int) + received(later),
        sent(seq![recv_event(bytes, Ok::<usize, E>(n))] + later) == sent(later),
        recv_event(bytes, Err::<usize, E>(error)) == Event::RecvFailed(error),
        received(seq![Event::RecvFailed(error)] + later) == received(later),
        sent(seq![Event::SendFailed(bytes, error)] + later) == sent(later),
        since(earlier, earlier + later) == later,
{
    assert(since(earlier, earlier + later) =~= later);
    let a = seq![send_event(bytes, Ok::<(), E>(()))] + later;
    let b = seq![recv_event(bytes, Ok::<usize, E>(n))] + later;
    let c = seq![Event::<E>::RecvFailed(error)] + later;
    let d = seq![Event::<E>::SendFailed(bytes, error)] + later;
    assert(a.skip(1) =~= later && b.skip(1) =~= later && c.skip(1) =~= later && d.skip(1)
        =~= later);
    assert(sent(a) =~= bytes + sent(later));
    assert(received(a) =~= received(later));
    assert(sent(b) =~= sent(later));
    assert(received(c) =~= received(later));
    assert(sent(d) =~= sent(later));
}

} // verus!
