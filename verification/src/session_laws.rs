//! What holds of links, boards and the host together.
use vstd::prelude::*;
use vstd::utf8;

use crate::args;
use crate::args::{Flag, Settings};
use crate::bip78;
use crate::device;
use crate::device::Failure;
use crate::host;
use crate::proto;
use crate::proto::{Command, DecodeError, FRAME_OVERHEAD, MAX_PAYLOAD_LEN};
use crate::proto_laws;
use crate::relay;
use crate::relay::{Due, HostError, Link, Point};
use crate::roles;
use crate::transport;
use crate::transport::Event;

verus! {

/// A link that only delivers bytes.
pub open spec fn only_reads<E>(events: Seq<Event<E>>) -> bool {
    forall|i: int| 0 <= i < events.len() ==> (#[trigger] events[i]) is Received
}

/// A link that only delivers bytes, and some with every read.
pub open spec fn busy_reads<E>(events: Seq<Event<E>>) -> bool {
    forall|i: int|
        0 <= i < events.len() ==> ((#[trigger] events[i]) matches Event::Received(bytes)
            && bytes.len() > 0)
}

/// However the bytes of a frame are cut into reads, and whatever is delivered
/// with them or was held before, a board reads that frame; and the bytes after
/// it, held or yet to be delivered, are all still there.
pub proof fn law_board_reads_frame<E>(
    held: Seq<u8>,
    capacity: nat,
    events: Seq<Event<E>>,
    command: Command,
    payload: Seq<u8>,
    rest: Seq<u8>,
)
    requires
        payload.len() <= MAX_PAYLOAD_LEN,
        FRAME_OVERHEAD + payload.len() <= capacity,
        only_reads(events),
        held + transport::received(events) == proto::frame_bytes(command, payload) + rest,
    ensures
        device::frame_read(held, capacity, events) matches Some(outcome) && {
            &&& outcome.result == Ok::<(Command, Seq<u8>), Failure<E>>((command, payload))
            &&& only_reads(outcome.rest)
            &&& outcome.held + transport::received(outcome.rest) == rest
        },
    decreases events.len(),
{
    let frame = proto::frame_bytes(command, payload);
    let stream = frame + rest;
    let later = transport::received(events);
    let incomplete = Err::<(Command, Seq<u8>, nat), _>(DecodeError::Incomplete);
    proto_laws::law_decode_undoes_encode(command, payload, rest);
    if proto::decoded(held) != incomplete {
        proto_laws::law_verdict_is_settled(held, later);
        proto_laws::law_decoded_bytes_are_a_frame(held);
        assert(held.skip(frame.len() as int) + later =~= rest) by {
            assert((held + later).skip(frame.len() as int) =~= rest);
            assert((held + later).skip(frame.len() as int) =~= held.skip(frame.len() as int)
                + later);
        }
    } else {
        if held.len() >= frame.len() {
            assert(held =~= frame + held.skip(frame.len() as int)) by {
                assert forall|i: int| 0 <= i < frame.len() implies held[i] == frame[i] by {
                    assert(held[i] == (held + later)[i]);
                    assert(frame[i] == (frame + rest)[i]);
                }
            }
            proto_laws::law_decode_undoes_encode(command, payload, held.skip(frame.len() as int));
        }
        if events.len() == 0 {
            assert(held + later =~= held);
            assert(stream.len() >= frame.len());
        } else {
            assert(events[0] is Received);
            let bytes = events[0]->Received_0;
            assert((held + bytes) + transport::received(events.skip(1)) =~= held + later);
            assert forall|i: int| 0 <= i < events.skip(1).len() implies (#[trigger] events.skip(
                1,
            )[i]) is Received by {
                assert(events.skip(1)[i] == events[i + 1]);
            }
            law_board_reads_frame(
                held + bytes,
                capacity,
                events.skip(1),
                command,
                payload,
                rest,
            );
        }
    }
}

/// The same of a host port, on a link that delivers something with every read.
pub proof fn law_host_reads_frame<E>(
    held: Seq<u8>,
    events: Seq<Event<E>>,
    command: Command,
    payload: Seq<u8>,
    rest: Seq<u8>,
)
    requires
        payload.len() <= MAX_PAYLOAD_LEN,
        busy_reads(events),
        held + transport::received(events) == proto::frame_bytes(command, payload) + rest,
    ensures
        host::port_read(held, events) matches Some(outcome) && {
            &&& outcome.result == Ok::<(Command, Seq<u8>), host::PortError<E>>((command, payload))
            &&& busy_reads(outcome.rest)
            &&& outcome.held + transport::received(outcome.rest) == rest
        },
    decreases events.len(),
{
    let frame = proto::frame_bytes(command, payload);
    let stream = frame + rest;
    let later = transport::received(events);
    let incomplete = Err::<(Command, Seq<u8>, nat), _>(DecodeError::Incomplete);
    proto_laws::law_decode_undoes_encode(command, payload, rest);
    if proto::decoded(held) != incomplete {
        proto_laws::law_verdict_is_settled(held, later);
        proto_laws::law_decoded_bytes_are_a_frame(held);
        assert(held.skip(frame.len() as int) + later =~= rest) by {
            assert((held + later).skip(frame.len() as int) =~= rest);
            assert((held + later).skip(frame.len() as int) =~= held.skip(frame.len() as int)
                + later);
        }
    } else {
        if events.len() == 0 {
            assert(held + later =~= held);
        } else {
            assert(events[0] is Received);
            let bytes = events[0]->Received_0;
            assert((held + bytes) + transport::received(events.skip(1)) =~= held + later);
            assert forall|i: int| 0 <= i < events.skip(1).len() implies ((#[trigger] events.skip(
                1,
            )[i]) matches Event::Received(b) && b.len() > 0) by {
                assert(events.skip(1)[i] == events[i + 1]);
            }
            law_host_reads_frame(held + bytes, events.skip(1), command, payload, rest);
        }
    }
}

/// What a board sends, the host reads: the frame that a board wrote comes out of
/// a host port with the command and the payload that went in.
pub proof fn law_board_frame_reaches_host<B, H>(
    command: Command,
    payload: Seq<u8>,
    room: nat,
    board_events: Seq<Event<B>>,
    host_events: Seq<Event<H>>,
)
    requires
        device::frame_written(command, payload, room, board_events) matches Some(written)
            && written.0 is Ok,
        busy_reads(host_events),
        transport::received(host_events) == transport::sent(board_events.take(1)),
    ensures
        host::port_read(Seq::empty(), host_events) matches Some(read) && read.result == Ok::<
            (Command, Seq<u8>),
            host::PortError<H>,
        >((command, payload)),
{
    lemma_first_sent(board_events, proto::frame_bytes(command, payload));
    let frame = proto::frame_bytes(command, payload);
    assert(Seq::<u8>::empty() + transport::received(host_events) =~= frame + Seq::<u8>::empty());
    law_host_reads_frame(Seq::empty(), host_events, command, payload, Seq::empty());
}

/// What the host sends, a board reads.
pub proof fn law_host_frame_reaches_board<H, B>(
    command: Command,
    payload: Seq<u8>,
    held: Seq<u8>,
    host_events: Seq<Event<H>>,
    capacity: nat,
    board_events: Seq<Event<B>>,
)
    requires
        host::port_written(command, payload, held, host_events) matches Some(written)
            && written.result is Ok,
        FRAME_OVERHEAD + payload.len() <= capacity,
        only_reads(board_events),
        transport::received(board_events) == transport::sent(host_events.take(1)),
    ensures
        device::frame_read(Seq::empty(), capacity, board_events) matches Some(read)
            && read.result == Ok::<(Command, Seq<u8>), Failure<B>>((command, payload)),
{
    lemma_first_sent(host_events, proto::frame_bytes(command, payload));
    let frame = proto::frame_bytes(command, payload);
    assert(Seq::<u8>::empty() + transport::received(board_events) =~= frame + Seq::<u8>::empty());
    law_board_reads_frame(Seq::empty(), capacity, board_events, command, payload, Seq::empty());
}

/// What one host port writes, another reads.
pub proof fn law_host_frame_reaches_host<H, G>(
    command: Command,
    payload: Seq<u8>,
    held: Seq<u8>,
    host_events: Seq<Event<H>>,
    other_events: Seq<Event<G>>,
)
    requires
        host::port_written(command, payload, held, host_events) matches Some(written)
            && written.result is Ok,
        busy_reads(other_events),
        transport::received(other_events) == transport::sent(host_events.take(1)),
    ensures
        host::port_read(Seq::empty(), other_events) matches Some(read) && read.result == Ok::<
            (Command, Seq<u8>),
            host::PortError<G>,
        >((command, payload)),
{
    lemma_first_sent(host_events, proto::frame_bytes(command, payload));
    let frame = proto::frame_bytes(command, payload);
    assert(Seq::<u8>::empty() + transport::received(other_events) =~= frame + Seq::<u8>::empty());
    law_host_reads_frame(Seq::empty(), other_events, command, payload, Seq::empty());
}

proof fn lemma_first_sent<E>(events: Seq<Event<E>>, bytes: Seq<u8>)
    requires
        events.len() > 0,
        events[0] == Event::<E>::Sent(bytes),
    ensures
        transport::sent(events.take(1)) == bytes,
{
    let first = events.take(1);
    assert(first[0] == events[0]);
    assert(first.skip(1) =~= Seq::empty());
    reveal_with_fuel(transport::sent, 2);
    assert(transport::sent(first) =~= bytes);
}

/// The bytes of some frames, one after another.
pub open spec fn stream_of(frames: Seq<(Command, Seq<u8>)>) -> Seq<u8>
    decreases frames.len(),
{
    if frames.len() == 0 {
        Seq::empty()
    } else {
        proto::frame_bytes(frames[0].0, frames[0].1) + stream_of(frames.skip(1))
    }
}

/// The frames that a board reads in `count` readings, where each succeeds.
pub open spec fn board_reads<E>(
    held: Seq<u8>,
    capacity: nat,
    events: Seq<Event<E>>,
    count: nat,
) -> Option<Seq<(Command, Seq<u8>)>>
    decreases count,
{
    if count == 0 {
        Some(Seq::empty())
    } else {
        match device::frame_read(held, capacity, events) {
            None => None,
            Some(outcome) => match outcome.result {
                Err(_) => None,
                Ok(frame) => match board_reads(
                    outcome.held,
                    capacity,
                    outcome.rest,
                    (count - 1) as nat,
                ) {
                    None => None,
                    Some(others) => Some(seq![frame] + others),
                },
            },
        }
    }
}

/// The frames that a host port reads in `count` readings, where each succeeds.
pub open spec fn host_reads<E>(held: Seq<u8>, events: Seq<Event<E>>, count: nat) -> Option<
    Seq<(Command, Seq<u8>)>,
>
    decreases count,
{
    if count == 0 {
        Some(Seq::empty())
    } else {
        match host::port_read(held, events) {
            None => None,
            Some(outcome) => match outcome.result {
                Err(_) => None,
                Ok(frame) => match host_reads(outcome.held, outcome.rest, (count - 1) as nat) {
                    None => None,
                    Some(others) => Some(seq![frame] + others),
                },
            },
        }
    }
}

/// Frames that arrive one after another are read one after another, each with
/// its payload, however they are cut into reads and however many come with one:
/// nothing is lost and nothing is mixed up. A buffer for the largest frame is
/// enough.
pub proof fn law_board_reads_frames_in_order<E>(
    held: Seq<u8>,
    capacity: nat,
    events: Seq<Event<E>>,
    frames: Seq<(Command, Seq<u8>)>,
)
    requires
        forall|i: int| 0 <= i < frames.len() ==> (#[trigger] frames[i]).1.len() <= MAX_PAYLOAD_LEN,
        FRAME_OVERHEAD + MAX_PAYLOAD_LEN <= capacity,
        only_reads(events),
        held + transport::received(events) == stream_of(frames),
    ensures
        board_reads(held, capacity, events, frames.len()) == Some(frames),
    decreases frames.len(),
{
    if frames.len() == 0 {
        assert(frames =~= Seq::empty());
    } else {
        let (command, payload) = frames[0];
        let others = frames.skip(1);
        law_board_reads_frame(held, capacity, events, command, payload, stream_of(others));
        let outcome = device::frame_read(held, capacity, events).unwrap();
        assert forall|i: int| 0 <= i < others.len() implies (#[trigger] others[i]).1.len()
            <= MAX_PAYLOAD_LEN by {
            assert(others[i] == frames[i + 1]);
        }
        law_board_reads_frames_in_order(outcome.held, capacity, outcome.rest, others);
        assert(seq![frames[0]] + others =~= frames);
    }
}

/// The same of a host port, on a link that delivers something with every read.
pub proof fn law_host_reads_frames_in_order<E>(
    held: Seq<u8>,
    events: Seq<Event<E>>,
    frames: Seq<(Command, Seq<u8>)>,
)
    requires
        forall|i: int| 0 <= i < frames.len() ==> (#[trigger] frames[i]).1.len() <= MAX_PAYLOAD_LEN,
        busy_reads(events),
        held + transport::received(events) == stream_of(frames),
    ensures
        host_reads(held, events, frames.len()) == Some(frames),
    decreases frames.len(),
{
    if frames.len() == 0 {
        assert(frames =~= Seq::empty());
    } else {
        let (command, payload) = frames[0];
        let others = frames.skip(1);
        law_host_reads_frame(held, events, command, payload, stream_of(others));
        let outcome = host::port_read(held, events).unwrap();
        assert forall|i: int| 0 <= i < others.len() implies (#[trigger] others[i]).1.len()
            <= MAX_PAYLOAD_LEN by {
            assert(others[i] == frames[i + 1]);
        }
        law_host_reads_frames_in_order(outcome.held, outcome.rest, others);
        assert(seq![frames[0]] + others =~= frames);
    }
}

/// A role that waits for a frame takes the payload of one with the command that
/// is due, and refuses an intact frame with any other command.
pub proof fn law_only_the_due_command_is_accepted<E>(
    due: Command,
    events: Seq<Event<E>>,
    command: Command,
    payload: Seq<u8>,
    rest: Seq<u8>,
)
    requires
        payload.len() <= MAX_PAYLOAD_LEN,
        only_reads(events),
        transport::received(events) == proto::frame_bytes(command, payload) + rest,
    ensures
        device::awaited(due, events) matches Some(outcome) && outcome.0 == if command == due {
            Ok::<Seq<u8>, Failure<E>>(payload)
        } else {
            Err::<Seq<u8>, Failure<E>>(Failure::UnexpectedCommand)
        },
{
    assert(Seq::<u8>::empty() + transport::received(events) =~= transport::received(events));
    law_board_reads_frame(
        Seq::empty(),
        device::role_buffer(),
        events,
        command,
        payload,
        rest,
    );
}

/// Wiring the sender role to the receiver role with nothing that translates
/// command tags in between fails: whatever the sender sent, once it is
/// delivered the receiver refuses it as unexpected.
pub proof fn law_untranslated_request_is_refused<E, R, F: Fn(&[u8]) -> bool>(
    body: Seq<u8>,
    verdict: spec_fn(Seq<u8>) -> Result<Seq<u8>, Seq<char>>,
    sender_events: Seq<Event<E>>,
    query: Seq<char>,
    owns: F,
    receiver_events: Seq<Event<R>>,
    result: Result<Seq<u8>, Failure<R>>,
)
    requires
        roles::sender_run(Ok(body), verdict, sender_events) is Some,
        body.len() <= MAX_PAYLOAD_LEN,
        sender_events.len() > 0,
        sender_events[0] is Sent,
        only_reads(receiver_events),
        transport::received(receiver_events) == transport::sent(sender_events.take(1)),
        roles::receiver_run(query, owns, receiver_events, result),
    ensures
        result == Err::<Seq<u8>, Failure<R>>(Failure::UnexpectedCommand),
{
    let frame = proto::frame_bytes(Command::OutRequest, body);
    lemma_first_sent(sender_events, frame);
    assert(frame + Seq::<u8>::empty() =~= frame);
    law_only_the_due_command_is_accepted(
        Command::OriginalPsbt,
        receiver_events,
        Command::OutRequest,
        body,
        Seq::empty(),
    );
}

/// With the tag that the host gives it, the request reaches the receiver's
/// judgement: what the receiver answers is its answer to that request, byte for
/// byte.
pub proof fn law_translated_request_is_answered<E, F: Fn(&[u8]) -> bool>(
    body: Seq<u8>,
    query: Seq<char>,
    owns: F,
    reads: Seq<Event<E>>,
    more: Seq<Event<E>>,
    result: Result<Seq<u8>, Failure<E>>,
)
    requires
        body.len() <= MAX_PAYLOAD_LEN,
        only_reads(reads),
        transport::received(reads) == proto::frame_bytes(Command::OriginalPsbt, body),
        roles::receiver_run(query, owns, reads + more, result),
    ensures
        exists|unread: Seq<Event<E>>|
            only_reads(unread) && #[trigger] roles::request_answered(
                query,
                owns,
                body,
                unread + more,
                result,
            ),
{
    let frame = proto::frame_bytes(Command::OriginalPsbt, body);
    assert(Seq::<u8>::empty() + frame =~= frame + Seq::<u8>::empty());
    law_board_reads_frame(
        Seq::empty(),
        device::role_buffer(),
        reads,
        Command::OriginalPsbt,
        body,
        Seq::empty(),
    );
    device::lemma_frame_read_then(Seq::empty(), device::role_buffer(), reads, more);
    let unread = device::frame_read(Seq::empty(), device::role_buffer(), reads).unwrap().rest;
    assert(roles::request_answered(query, owns, body, unread + more, result));
}

/// The way back fails as well: a sender that is given the receiver's own frame
/// as the response refuses it as unexpected.
pub proof fn law_untranslated_response_is_refused<E>(
    body: Seq<u8>,
    verdict: spec_fn(Seq<u8>) -> Result<Seq<u8>, Seq<char>>,
    proposal: Seq<u8>,
    events: Seq<Event<E>>,
)
    requires
        body.len() <= MAX_PAYLOAD_LEN,
        roles::response_bytes(proposal).len() <= MAX_PAYLOAD_LEN,
        events.len() > 0,
        events[0] == Event::<E>::Sent(proto::frame_bytes(Command::OutRequest, body)),
        only_reads(events.skip(1)),
        transport::received(events.skip(1)) == proto::frame_bytes(
            Command::SignedPsbt,
            roles::response_bytes(proposal),
        ),
    ensures
        roles::sender_run(Ok(body), verdict, events) matches Some(outcome) && outcome.0 == Err::<Seq<u8>, Failure<E>>(
            Failure::UnexpectedCommand,
        ),
{
    let frame = proto::frame_bytes(Command::SignedPsbt, roles::response_bytes(proposal));
    assert(frame + Seq::<u8>::empty() =~= frame);
    law_only_the_due_command_is_accepted(
        Command::InResponse,
        events.skip(1),
        Command::SignedPsbt,
        roles::response_bytes(proposal),
        Seq::empty(),
    );
}

/// With the tag that the host gives it, the response reaches the sender's
/// judgement: the base64 text of the proposal, byte for byte.
pub proof fn law_translated_response_is_judged<E>(
    body: Seq<u8>,
    verdict: spec_fn(Seq<u8>) -> Result<Seq<u8>, Seq<char>>,
    proposal: Seq<u8>,
    events: Seq<Event<E>>,
)
    requires
        body.len() <= MAX_PAYLOAD_LEN,
        roles::response_bytes(proposal).len() <= MAX_PAYLOAD_LEN,
        events.len() > 0,
        events[0] == Event::<E>::Sent(proto::frame_bytes(Command::OutRequest, body)),
        only_reads(events.skip(1)),
        transport::received(events.skip(1)) == proto::frame_bytes(
            Command::InResponse,
            roles::response_bytes(proposal),
        ),
    ensures
        roles::sender_run(Ok(body), verdict, events) matches Some(outcome) && outcome.0 == match verdict(roles::response_bytes(proposal)) {
            Ok(psbt) => Ok::<Seq<u8>, Failure<E>>(psbt),
            Err(text) => Err::<Seq<u8>, Failure<E>>(Failure::Payjoin(text)),
        },
{
    let frame = proto::frame_bytes(Command::InResponse, roles::response_bytes(proposal));
    assert(frame + Seq::<u8>::empty() =~= frame);
    law_only_the_due_command_is_accepted(
        Command::InResponse,
        events.skip(1),
        Command::InResponse,
        roles::response_bytes(proposal),
        Seq::empty(),
    );
}

/// A frame as it is passed on by something that gives frames with the tag `from`
/// the tag `to`, and leaves everything else as it is.
pub open spec fn retagged(bytes: Seq<u8>, from: Command, to: Command) -> Seq<u8> {
    match proto::decoded(bytes) {
        Ok((command, payload, consumed)) => if command == from && consumed == bytes.len() {
            proto::frame_bytes(to, payload)
        } else {
            bytes
        },
        Err(_) => bytes,
    }
}

proof fn lemma_retagged(from: Command, to: Command, payload: Seq<u8>)
    requires
        payload.len() <= MAX_PAYLOAD_LEN,
    ensures
        retagged(proto::frame_bytes(from, payload), from, to) == proto::frame_bytes(to, payload),
{
    let frame = proto::frame_bytes(from, payload);
    proto_laws::law_decode_undoes_encode(from, payload, Seq::empty());
    assert(frame + Seq::<u8>::empty() =~= frame);
}

proof fn lemma_only_reads<E>(events: Seq<Event<E>>)
    requires
        only_reads(events),
    ensures
        transport::sent(events) == Seq::<u8>::empty(),
    decreases events.len(),
{
    if events.len() > 0 {
        assert(events[0] is Received);
        assert forall|i: int| 0 <= i < events.skip(1).len() implies (#[trigger] events.skip(1)[i])
            is Received by {
            assert(events.skip(1)[i] == events[i + 1]);
        }
        lemma_only_reads(events.skip(1));
        assert(transport::sent(events) =~= Seq::empty());
    }
}

proof fn lemma_traffic_concat<E>(first: Seq<Event<E>>, second: Seq<Event<E>>)
    ensures
        transport::sent(first + second) == transport::sent(first) + transport::sent(second),
        transport::received(first + second) == transport::received(first) + transport::received(
            second,
        ),
    decreases first.len(),
{
    let all = first + second;
    if first.len() == 0 {
        assert(all =~= second);
        assert(Seq::<u8>::empty() + transport::sent(second) =~= transport::sent(second));
        assert(Seq::<u8>::empty() + transport::received(second) =~= transport::received(second));
    } else {
        assert(all[0] == first[0]);
        assert(all.skip(1) =~= first.skip(1) + second);
        lemma_traffic_concat(first.skip(1), second);
        assert(transport::sent(all) =~= transport::sent(first) + transport::sent(second));
        assert(transport::received(all) =~= transport::received(first) + transport::received(
            second,
        ));
    }
}

/// What a board that has read a frame has taken from its link: reads, whose bytes
/// are the frame and what it now holds.
proof fn lemma_frame_was_delivered<E>(held: Seq<u8>, capacity: nat, events: Seq<Event<E>>)
    requires
        device::frame_read(held, capacity, events) matches Some(outcome) && outcome.result is Ok,
    ensures
        ({
            let outcome = device::frame_read(held, capacity, events).unwrap();
            let (command, payload) = outcome.result->Ok_0;
            let taken = events.len() - outcome.rest.len();
            &&& 0 <= taken <= events.len()
            &&& outcome.rest == events.skip(taken)
            &&& only_reads(events.take(taken))
            &&& payload.len() <= MAX_PAYLOAD_LEN
            &&& held + transport::received(events.take(taken)) == proto::frame_bytes(
                command,
                payload,
            ) + outcome.held
        }),
    decreases events.len(),
{
    let outcome = device::frame_read(held, capacity, events).unwrap();
    let (command, payload) = outcome.result->Ok_0;
    let taken = events.len() - outcome.rest.len();
    proto_laws::law_decoded_bytes_are_a_frame(held);
    if proto::decoded(held) is Ok {
        assert(events.skip(0) =~= events);
        assert(events.take(0) =~= Seq::empty());
        assert(held + Seq::<u8>::empty() =~= held);
        let n = proto::frame_bytes(command, payload).len() as int;
        assert(held =~= held.take(n) + held.skip(n));
    } else {
        let bytes = events[0]->Received_0;
        let later = events.skip(1);
        lemma_frame_was_delivered(held + bytes, capacity, later);
        assert(later.skip(taken - 1) =~= events.skip(taken));
        let front = events.take(taken);
        assert(front[0] == events[0]);
        assert(front.skip(1) =~= later.take(taken - 1));
        assert forall|i: int| 0 <= i < front.len() implies (#[trigger] front[i]) is Received by {
            if i > 0 {
                assert(front[i] == later.take(taken - 1)[i - 1]);
            }
        }
        assert(held + transport::received(front) =~= (held + bytes) + transport::received(
            later.take(taken - 1),
        ));
    }
}

/// The whole version 1 round trip. Where the sender role and the receiver role
/// run over links that carry each side's bytes to the other, a request under the
/// tag of an original PSBT and a signed PSBT under the tag of a response, and the
/// receiver returns a PSBT, then that PSBT is its proposal for the sender's own
/// request, and what the sender returns is its verdict on the base64 text of that
/// very PSBT.
pub proof fn law_v1_round_trip<S, R, F: Fn(&[u8]) -> bool>(
    request: Result<Seq<u8>, Seq<char>>,
    verdict: spec_fn(Seq<u8>) -> Result<Seq<u8>, Seq<char>>,
    sender_events: Seq<Event<S>>,
    sender_result: Result<Seq<u8>, Failure<S>>,
    query: Seq<char>,
    owns: F,
    receiver_events: Seq<Event<R>>,
    psbt: Seq<u8>,
)
    requires
        roles::sender_run(request, verdict, sender_events) == Some(
            (sender_result, Seq::<Event<S>>::empty()),
        ),
        only_reads(sender_events.skip(1)),
        roles::receiver_run(query, owns, receiver_events, Ok(psbt)),
        transport::received(receiver_events) == retagged(
            transport::sent(sender_events),
            Command::OutRequest,
            Command::OriginalPsbt,
        ),
        transport::received(sender_events) == retagged(
            transport::sent(receiver_events),
            Command::SignedPsbt,
            Command::InResponse,
        ),
    ensures
        request matches Ok(body) && roles::proposed(owns, body, query, Ok(psbt)),
        device::exchanged(
            Command::OutRequest,
            request->Ok_0,
            Command::InResponse,
            sender_events,
        ) == Some((Ok::<_, Failure<S>>(bip78::base64_bytes(psbt)), Seq::<Event<S>>::empty())),
        sender_result == match verdict(bip78::base64_bytes(psbt)) {
            Ok(accepted) => Ok::<Seq<u8>, Failure<S>>(accepted),
            Err(text) => Err::<Seq<u8>, Failure<S>>(Failure::Payjoin(text)),
        },
{
    let buffer = device::role_buffer();
    let none = Seq::<u8>::empty();
    // What the receiver did: it read a frame and sent its answer.
    let read = device::frame_read(none, buffer, receiver_events).unwrap();
    lemma_frame_was_delivered(none, buffer, receiver_events);
    let (tag, asked) = read.result->Ok_0;
    let taken = receiver_events.len() - read.rest.len();
    let reads = receiver_events.take(taken);
    assert(roles::request_answered(query, owns, asked, read.rest, Ok(psbt)));
    let proposal = choose|proposal: Result<Seq<u8>, Seq<char>>| #[trigger]
        roles::proposed(owns, asked, query, proposal) && roles::answered(
            Command::SignedPsbt,
            proposal,
            read.rest,
        ) == Some((Ok::<_, Failure<R>>(psbt), Seq::<Event<R>>::empty()));
    let response = bip78::base64_bytes(psbt);
    let answer = proto::frame_bytes(Command::SignedPsbt, response);
    assert(proposal == Ok::<Seq<u8>, Seq<char>>(psbt));
    assert(read.rest.skip(1).len() == 0);
    assert(read.rest =~= seq![Event::<R>::Sent(answer)]);
    assert(receiver_events =~= reads + read.rest);
    lemma_traffic_concat(reads, read.rest);
    lemma_only_reads(reads);
    lemma_first_sent(read.rest, answer);
    assert(read.rest.take(1) =~= read.rest);
    assert(transport::received(read.rest) =~= none) by {
        assert(read.rest.skip(1) =~= Seq::empty());
        reveal_with_fuel(transport::received, 2);
    }
    assert(transport::sent(receiver_events) =~= answer);
    assert(transport::received(receiver_events) =~= transport::received(reads));
    lemma_retagged(Command::SignedPsbt, Command::InResponse, response);
    // What the sender did: it sent its request and read.
    let frame_in = proto::frame_bytes(Command::OriginalPsbt, asked);
    assert(none + transport::received(reads) =~= transport::received(reads));
    assert(transport::received(receiver_events).len() > 0) by {
        proto_laws::law_decode_undoes_encode(tag, asked, none);
    }
    if sender_events.len() == 0 {
        assert(transport::sent(sender_events) =~= none);
        assert(retagged(none, Command::OutRequest, Command::OriginalPsbt) =~= none);
    }
    let first = sender_events.take(1);
    let later = sender_events.skip(1);
    assert(sender_events =~= first + later);
    lemma_traffic_concat(first, later);
    lemma_only_reads(later);
    assert(first[0] == sender_events[0]);
    assert(first.skip(1) =~= Seq::empty());
    assert(transport::sent(sender_events) =~= transport::sent(first));
    reveal_with_fuel(transport::sent, 2);
    reveal_with_fuel(transport::received, 2);
    if request is Err {
        assert(sender_events.len() == 0);
    }
    let body = request->Ok_0;
    let frame_out = proto::frame_bytes(Command::OutRequest, body);
    if !(sender_events[0] is Sent) {
        assert(transport::sent(first) =~= none);
        assert(retagged(none, Command::OutRequest, Command::OriginalPsbt) =~= none);
    }
    assert(sender_events[0] == Event::<S>::Sent(frame_out));
    assert(transport::sent(first) =~= frame_out);
    lemma_retagged(Command::OutRequest, Command::OriginalPsbt, body);
    assert(transport::received(reads) == proto::frame_bytes(Command::OriginalPsbt, body));
    assert(proto::frame_bytes(Command::OriginalPsbt, body) + none =~= frame_in + read.held);
    proto_laws::law_frames_are_unambiguous(
        Command::OriginalPsbt,
        body,
        none,
        Command::OriginalPsbt,
        asked,
        read.held,
    );
    // The response that the sender read.
    let frame_back = proto::frame_bytes(Command::InResponse, response);
    assert(transport::received(first) =~= none);
    assert(transport::received(later) =~= frame_back);
    assert(frame_back + none =~= frame_back);
    law_only_the_due_command_is_accepted(
        Command::InResponse,
        later,
        Command::InResponse,
        response,
        none,
    );
}

/// A link that reports no error.
pub open spec fn failure_free<E>(events: Seq<Event<E>>) -> bool {
    forall|i: int|
        0 <= i < events.len() ==> ((#[trigger] events[i]) is Sent || events[i] is Received)
}

proof fn lemma_failure_free_skip<E>(events: Seq<Event<E>>, n: int)
    requires
        failure_free(events),
        0 <= n <= events.len(),
    ensures
        failure_free(events.skip(n)),
{
    let rest = events.skip(n);
    assert forall|i: int| 0 <= i < rest.len() implies ((#[trigger] rest[i]) is Sent
        || rest[i] is Received) by {
        assert(rest[i] == events[i + n]);
    }
}

/// What a board took from a link without errors until a frame was read or given
/// up, where nothing is left, was all reads.
proof fn lemma_all_was_read<E>(held: Seq<u8>, capacity: nat, events: Seq<Event<E>>)
    requires
        failure_free(events),
        device::frame_read(held, capacity, events) matches Some(outcome) && outcome.rest.len()
            == 0,
    ensures
        only_reads(events),
    decreases events.len(),
{
    if events.len() > 0 {
        assert(events[0] is Sent || events[0] is Received);
        let bytes = events[0]->Received_0;
        let later = events.skip(1);
        lemma_failure_free_skip(events, 1);
        lemma_all_was_read(held + bytes, capacity, later);
        assert forall|i: int| 0 <= i < events.len() implies (#[trigger] events[i]) is Received by {
            if i > 0 {
                assert(events[i] == later[i - 1]);
            }
        }
    }
}

/// A reading that comes to its end on a link without errors, whose bytes begin
/// with a frame, has read that frame.
proof fn lemma_delivered_frame_is_read<E>(
    held: Seq<u8>,
    capacity: nat,
    events: Seq<Event<E>>,
    command: Command,
    payload: Seq<u8>,
    rest: Seq<u8>,
)
    requires
        payload.len() <= MAX_PAYLOAD_LEN,
        FRAME_OVERHEAD + payload.len() <= capacity,
        failure_free(events),
        held + transport::received(events) == proto::frame_bytes(command, payload) + rest,
        device::frame_read(held, capacity, events) is Some,
    ensures
        device::frame_read(held, capacity, events).unwrap().result == Ok::<
            (Command, Seq<u8>),
            Failure<E>,
        >((command, payload)),
    decreases events.len(),
{
    let frame = proto::frame_bytes(command, payload);
    let later = transport::received(events);
    let incomplete = Err::<(Command, Seq<u8>, nat), _>(DecodeError::Incomplete);
    proto_laws::law_decode_undoes_encode(command, payload, rest);
    if proto::decoded(held) != incomplete {
        proto_laws::law_verdict_is_settled(held, later);
    } else {
        if held.len() >= frame.len() {
            assert(held =~= frame + held.skip(frame.len() as int)) by {
                assert forall|i: int| 0 <= i < frame.len() implies held[i] == frame[i] by {
                    assert(held[i] == (held + later)[i]);
                    assert(frame[i] == (frame + rest)[i]);
                }
            }
            proto_laws::law_decode_undoes_encode(command, payload, held.skip(frame.len() as int));
        }
        assert(events.len() > 0);
        assert(events[0] is Sent || events[0] is Received);
        let bytes = events[0]->Received_0;
        lemma_failure_free_skip(events, 1);
        assert((held + bytes) + transport::received(events.skip(1)) =~= held + later);
        lemma_delivered_frame_is_read(
            held + bytes,
            capacity,
            events.skip(1),
            command,
            payload,
            rest,
        );
    }
}

/// Where whatever the receiver proposes for the sender's request is a PSBT whose
/// base64 text fits a frame, it proposes one.
proof fn lemma_receiver_proposes<S, R, F: Fn(&[u8]) -> bool>(
    body: Seq<u8>,
    verdict: spec_fn(Seq<u8>) -> Result<Seq<u8>, Seq<char>>,
    sender_events: Seq<Event<S>>,
    sender_result: Result<Seq<u8>, Failure<S>>,
    query: Seq<char>,
    owns: F,
    receiver_events: Seq<Event<R>>,
    receiver_result: Result<Seq<u8>, Failure<R>>,
)
    requires
        body.len() <= MAX_PAYLOAD_LEN,
        forall|proposal: Result<Seq<u8>, Seq<char>>| #[trigger]
            roles::proposed(owns, body, query, proposal) ==> (proposal matches Ok(psbt)
                && bip78::base64_bytes(psbt).len() <= MAX_PAYLOAD_LEN),
        roles::sender_run(Ok(body), verdict, sender_events) == Some(
            (sender_result, Seq::<Event<S>>::empty()),
        ),
        roles::receiver_run(query, owns, receiver_events, receiver_result),
        failure_free(sender_events),
        failure_free(receiver_events),
        transport::received(receiver_events) == retagged(
            transport::sent(sender_events),
            Command::OutRequest,
            Command::OriginalPsbt,
        ),
    ensures
        receiver_result matches Ok(psbt) && roles::proposed(owns, body, query, Ok(psbt)),
        only_reads(sender_events.skip(1)),
{
    let buffer = device::role_buffer();
    let none = Seq::<u8>::empty();
    // The sender: its request went out, and all that came after it were reads.
    assert(sender_events.len() > 0);
    assert(sender_events[0] is Sent || sender_events[0] is Received);
    let frame_out = proto::frame_bytes(Command::OutRequest, body);
    assert(sender_events[0] == Event::<S>::Sent(frame_out));
    let first = sender_events.take(1);
    let later = sender_events.skip(1);
    lemma_failure_free_skip(sender_events, 1);
    lemma_all_was_read(none, buffer, later);
    assert(sender_events =~= first + later);
    lemma_traffic_concat(first, later);
    lemma_only_reads(later);
    lemma_first_sent(sender_events, frame_out);
    assert(transport::sent(sender_events) =~= frame_out);
    lemma_retagged(Command::OutRequest, Command::OriginalPsbt, body);
    // The receiver: it read that request and answered it.
    let frame_in = proto::frame_bytes(Command::OriginalPsbt, body);
    assert(none + transport::received(receiver_events) =~= frame_in + none);
    lemma_delivered_frame_is_read(
        none,
        buffer,
        receiver_events,
        Command::OriginalPsbt,
        body,
        none,
    );
    lemma_frame_was_delivered(none, buffer, receiver_events);
    let rest = device::frame_read(none, buffer, receiver_events).unwrap().rest;
    lemma_failure_free_skip(receiver_events, receiver_events.len() - rest.len());
    assert(roles::request_answered(query, owns, body, rest, receiver_result));
    let proposal = choose|proposal: Result<Seq<u8>, Seq<char>>| #[trigger]
        roles::proposed(owns, body, query, proposal) && roles::answered(
            Command::SignedPsbt,
            proposal,
            rest,
        ) == Some((receiver_result, Seq::<Event<R>>::empty()));
    let psbt = proposal->Ok_0;
    assert(rest.len() > 0);
    assert(rest[0] is Sent || rest[0] is Received);
    assert(receiver_result == Ok::<Seq<u8>, Failure<R>>(psbt));
}

/// When the whole version 1 round trip succeeds. Both roles run over links that
/// report no error and carry each side's bytes to the other with the host's tags.
/// The request was made and fits a frame; whatever the receiver proposes for it
/// is a PSBT whose base64 text fits a frame and which the sender accepts. Then
/// both roles succeed: the receiver returns a proposal for that request, and the
/// sender returns what it accepts of that very proposal.
pub proof fn law_v1_round_trip_succeeds<S, R, F: Fn(&[u8]) -> bool>(
    body: Seq<u8>,
    verdict: spec_fn(Seq<u8>) -> Result<Seq<u8>, Seq<char>>,
    sender_events: Seq<Event<S>>,
    sender_result: Result<Seq<u8>, Failure<S>>,
    query: Seq<char>,
    owns: F,
    receiver_events: Seq<Event<R>>,
    receiver_result: Result<Seq<u8>, Failure<R>>,
)
    requires
        body.len() <= MAX_PAYLOAD_LEN,
        forall|proposal: Result<Seq<u8>, Seq<char>>| #[trigger]
            roles::proposed(owns, body, query, proposal) ==> (proposal matches Ok(psbt)
                && bip78::base64_bytes(psbt).len() <= MAX_PAYLOAD_LEN && verdict(
                bip78::base64_bytes(psbt),
            ) is Ok),
        roles::sender_run(Ok(body), verdict, sender_events) == Some(
            (sender_result, Seq::<Event<S>>::empty()),
        ),
        roles::receiver_run(query, owns, receiver_events, receiver_result),
        failure_free(sender_events),
        failure_free(receiver_events),
        transport::received(receiver_events) == retagged(
            transport::sent(sender_events),
            Command::OutRequest,
            Command::OriginalPsbt,
        ),
        transport::received(sender_events) == retagged(
            transport::sent(receiver_events),
            Command::SignedPsbt,
            Command::InResponse,
        ),
    ensures
        receiver_result matches Ok(psbt) && {
            &&& roles::proposed(owns, body, query, Ok(psbt))
            &&& verdict(bip78::base64_bytes(psbt)) matches Ok(accepted) && sender_result == Ok::<
                Seq<u8>,
                Failure<S>,
            >(accepted)
        },
{
    lemma_receiver_proposes(
        body,
        verdict,
        sender_events,
        sender_result,
        query,
        owns,
        receiver_events,
        receiver_result,
    );
    law_v1_round_trip(
        Ok(body),
        verdict,
        sender_events,
        sender_result,
        query,
        owns,
        receiver_events,
        receiver_result->Ok_0,
    );
}

/// The version 1 round trip of a plain payment succeeds, and leaves the payment as
/// it is. The original PSBT spends one output and pays no more than that; its
/// payee is paid by exactly one of its outputs, any but the first, and with
/// whatever amount; the receiver takes that output, wherever it stands, for its
/// own. Where both roles run to their end over links that report no error and carry
/// each side's bytes to the other with the host's tags, then both return the
/// original PSBT. What the sender role states of its request and of its judgement
/// is taken as given.
pub proof fn law_plain_payment_goes_through<S, R, F: Fn(&[u8]) -> bool>(
    original: Seq<u8>,
    outputs: Seq<(u64, Seq<u8>)>,
    spent: u64,
    endpoint: Seq<char>,
    payee: Seq<char>,
    script: Seq<u8>,
    k: int,
    max_fee: u64,
    sender_events: Seq<Event<S>>,
    sender_result: Result<Seq<u8>, Failure<S>>,
    owns: F,
    receiver_events: Seq<Event<R>>,
    receiver_result: Result<Seq<u8>, Failure<R>>,
)
    requires
        bip78::is_plain(original, outputs, spent),
        bip78::total(outputs) <= spent,
        bip78::base64_bytes(original).len() <= 4096,
        bip78::endpoint_is_v1(endpoint) == Ok::<bool, Seq<char>>(true),
        bip78::is_address_of(payee, script),
        bip78::paid_once_at(outputs, script, k),
        k > 0,
        roles::takes_for_own(owns, script),
        roles::sender_run(
            roles::sender_request_of(original, endpoint, payee, max_fee),
            |response: Seq<u8>|
                roles::sender_verdict(original, endpoint, payee, max_fee, response),
            sender_events,
        ) == Some((sender_result, Seq::<Event<S>>::empty())),
        roles::plain_payment_is_requested(original, endpoint, payee, max_fee),
        roles::plain_payment_is_accepted(original, endpoint, payee, max_fee, sender_events),
        roles::receiver_run(""@, owns, receiver_events, receiver_result),
        failure_free(sender_events),
        failure_free(receiver_events),
        transport::received(receiver_events) == retagged(
            transport::sent(sender_events),
            Command::OutRequest,
            Command::OriginalPsbt,
        ),
        transport::received(sender_events) == retagged(
            transport::sent(receiver_events),
            Command::SignedPsbt,
            Command::InResponse,
        ),
    ensures
        sender_result == Ok::<Seq<u8>, Failure<S>>(original),
        receiver_result == Ok::<Seq<u8>, Failure<R>>(original),
{
    let body = bip78::base64_bytes(original);
    let verdict = |response: Seq<u8>|
        roles::sender_verdict(original, endpoint, payee, max_fee, response);
    assert(bip78::suits_request(
        original,
        outputs,
        spent,
        payee,
        script,
        k,
        None,
        Some(0),
    ));
    let request = roles::sender_request_of(original, endpoint, payee, max_fee);
    assert(request == Ok::<Seq<u8>, Seq<char>>(body));
    assert forall|proposal: Result<Seq<u8>, Seq<char>>| #[trigger]
        roles::proposed(owns, body, ""@, proposal) implies proposal == Ok::<Seq<u8>, Seq<char>>(
        original,
    ) by {
        law_plain_payment_is_proposed(owns, original, outputs, spent, k, proposal);
    }
    lemma_receiver_proposes(
        body,
        verdict,
        sender_events,
        sender_result,
        ""@,
        owns,
        receiver_events,
        receiver_result,
    );
    law_v1_round_trip(
        request,
        verdict,
        sender_events,
        sender_result,
        ""@,
        owns,
        receiver_events,
        receiver_result->Ok_0,
    );
}

/// A receiver that is handed a plain PSBT, without a query, proposes that very
/// PSBT wherever one of its outputs is its own, at whatever index.
pub proof fn law_plain_payment_is_proposed<F: Fn(&[u8]) -> bool>(
    owns: F,
    original: Seq<u8>,
    outputs: Seq<(u64, Seq<u8>)>,
    spent: u64,
    k: int,
    proposal: Result<Seq<u8>, Seq<char>>,
)
    requires
        bip78::is_plain(original, outputs, spent),
        0 <= k < outputs.len(),
        roles::takes_for_own(owns, outputs[k].1),
        roles::proposed(owns, bip78::base64_bytes(original), ""@, proposal),
    ensures
        proposal == Ok::<Seq<u8>, Seq<char>>(original),
{
    let scripts = outputs.map_values(|payment: (u64, Seq<u8>)| payment.1);
    assert(scripts[k] == outputs[k].1);
    assert(roles::takes_for_own(owns, scripts[k]));
    assert(roles::pays_owner(owns, scripts));
}

/// Nothing is added on the way: where such a round trip ends with a PSBT that the
/// sender accepts, the sender's PSBT and the receiver's are of the transaction of
/// the sender's original PSBT. That a request carries the original's transaction
/// and that an accepted PSBT follows the response is what the sender role states.
pub proof fn law_round_trip_keeps_the_transaction<S, R, F: Fn(&[u8]) -> bool>(
    original: Seq<u8>,
    request: Result<Seq<u8>, Seq<char>>,
    verdict: spec_fn(Seq<u8>) -> Result<Seq<u8>, Seq<char>>,
    sender_events: Seq<Event<S>>,
    accepted: Seq<u8>,
    query: Seq<char>,
    owns: F,
    receiver_events: Seq<Event<R>>,
    psbt: Seq<u8>,
)
    requires
        roles::sender_run(request, verdict, sender_events) == Some(
            (Ok::<Seq<u8>, Failure<S>>(accepted), Seq::<Event<S>>::empty()),
        ),
        request matches Ok(body) ==> bip78::carries_transaction(body, original),
        roles::follows_response(request, sender_events, accepted),
        only_reads(sender_events.skip(1)),
        roles::receiver_run(query, owns, receiver_events, Ok(psbt)),
        transport::received(receiver_events) == retagged(
            transport::sent(sender_events),
            Command::OutRequest,
            Command::OriginalPsbt,
        ),
        transport::received(sender_events) == retagged(
            transport::sent(receiver_events),
            Command::SignedPsbt,
            Command::InResponse,
        ),
    ensures
        bip78::same_transaction(psbt, original),
        bip78::same_transaction(accepted, psbt),
{
    law_v1_round_trip(
        request,
        verdict,
        sender_events,
        Ok(accepted),
        query,
        owns,
        receiver_events,
        psbt,
    );
    let body = request->Ok_0;
    let inner = choose|inner: Seq<u8>| #[trigger]
        bip78::base64_bytes(inner) == body && bip78::same_transaction(inner, original);
    assert(bip78::keeps_transaction(body, psbt));
    assert(bip78::same_transaction(psbt, inner));
    assert(bip78::keeps_transaction(bip78::base64_bytes(psbt), accepted));
}

/// A round trip that succeeds has relayed both ways without touching a byte:
/// what the sender board sent as its request went to the receiver board as the
/// original PSBT, what the receiver board sent as the signed PSBT went to the
/// sender board as the response, and the sender board then reported its status.
pub proof fn law_round_trip_relays_unchanged<S, R>(sender: Link<S>, receiver: Link<R>)
    requires
        relay::round_trip(Point::AwaitRequest, sender, receiver) matches Some(end)
            && end.result is Ok,
    ensures
        host::port_read(sender.held, sender.events) matches Some(asked) && {
            &&& asked.result matches Ok((tag, request)) && {
                &&& tag == Command::OutRequest
                &&& receiver.events.len() > 0
                &&& receiver.events[0] == Event::<R>::Sent(
                    proto::frame_bytes(Command::OriginalPsbt, request),
                )
            }
            &&& host::port_read(receiver.held, receiver.events.skip(1)) matches Some(offered) && {
                &&& offered.result matches Ok((tag, proposal)) && {
                    &&& tag == Command::SignedPsbt
                    &&& asked.rest.len() > 0
                    &&& asked.rest[0] == Event::<S>::Sent(
                        proto::frame_bytes(Command::InResponse, proposal),
                    )
                }
                &&& host::port_read(asked.held, asked.rest.skip(1)) matches Some(reported) && {
                    reported.result matches Ok((tag, status)) && tag == Command::Status
                }
            }
        },
{
    reveal_with_fuel(relay::round_trip, 6);
}

/// A frame that is not the one that is due ends a round trip at once, before
/// anything is relayed.
pub proof fn law_round_trip_refuses_wrong_request<S, R>(
    sender: Link<S>,
    receiver: Link<R>,
    command: Command,
    payload: Seq<u8>,
)
    requires
        command != Command::OutRequest,
        host::port_read(sender.held, sender.events) matches Some(read) && read.result == Ok::<
            (Command, Seq<u8>),
            host::PortError<S>,
        >((command, payload)),
    ensures
        relay::round_trip(Point::AwaitRequest, sender, receiver) matches Some(end) && {
            &&& end.result == Err::<(), relay::RoundTripError<S, R>>(
                relay::RoundTripError::Sender(HostError::Unexpected(Due::Request, command)),
            )
            &&& end.receiver == receiver
        },
{
}

/// Probing a board through the host gives the short id of the seed: where the
/// board is delivered what the host sent, and the host what the board sent, the
/// host reports the text of the first eight bytes of the SHA-256 digest of the seed
/// it was given.
pub proof fn law_probe_reports_the_id_of_the_seed<H, B>(
    seed: Seq<u8>,
    host_events: Seq<Event<H>>,
    board_events: Seq<Event<B>>,
    answer: Seq<u8>,
)
    requires
        seed.len() <= MAX_PAYLOAD_LEN,
        host_events.len() > 0,
        host_events[0] == Event::<H>::Sent(proto::frame_bytes(Command::OriginalPsbt, seed)),
        busy_reads(host_events.skip(1)),
        only_reads(board_events.drop_last()),
        board_events.len() > 0,
        board_events.last() == Event::<B>::Sent(answer),
        transport::received(board_events.drop_last()) == proto::frame_bytes(
            Command::OriginalPsbt,
            seed,
        ),
        transport::received(host_events.skip(1)) == answer,
        roles::probe_run(board_events) matches Some(board) && board.0 is Ok && board.1.len() == 0,
    ensures
        relay::probed(seed, Seq::empty(), host_events) matches Some(report) && report.result
            == Ok::<Seq<char>, HostError<H>>(
            bip78::short_id_text(bip78::sha256_digest(seed).take(8)),
        ),
{
    let reads = board_events.drop_last();
    let sending = seq![board_events.last()];
    let text = bip78::short_id_text(bip78::sha256_digest(seed).take(8));
    let frame = proto::frame_bytes(Command::OriginalPsbt, seed);
    assert(frame + Seq::<u8>::empty() =~= frame);
    assert(Seq::<u8>::empty() + frame =~= frame);
    assert(board_events =~= reads + sending);
    law_board_reads_frame(
        Seq::empty(),
        device::role_buffer(),
        reads,
        Command::OriginalPsbt,
        seed,
        Seq::empty(),
    );
    device::lemma_frame_read_then(Seq::empty(), device::role_buffer(), reads, sending);
    let outcome = device::frame_read(Seq::empty(), device::role_buffer(), reads).unwrap();
    let after = outcome.rest + sending;
    if outcome.rest.len() > 0 {
        assert(outcome.rest[0] is Received);
        assert(after[0] == outcome.rest[0]);
    }
    assert(after =~= sending);
    bip78::lemma_short_id_text(bip78::sha256_digest(seed).take(8));
    let reply = utf8::encode_utf8(text);
    assert(answer == proto::frame_bytes(Command::SignedPsbt, reply));
    assert(answer + Seq::<u8>::empty() =~= answer);
    assert(Seq::<u8>::empty() + answer =~= answer);
    law_host_reads_frame(
        Seq::empty(),
        host_events.skip(1),
        Command::SignedPsbt,
        reply,
        Seq::empty(),
    );
    utf8::encode_utf8_valid_utf8(text);
    utf8::encode_utf8_decode_utf8(text);
}

/// Whether two settings differ at most in what `flag` sets.
pub open spec fn agree_but_for(flag: Flag, a: Settings, b: Settings) -> bool {
    &&& flag == Flag::Mode || a.mode == b.mode
    &&& flag == Flag::SenderPort || a.sender_port == b.sender_port
    &&& flag == Flag::ReceiverPort || a.receiver_port == b.receiver_port
    &&& flag == Flag::DevicePort || a.device_port == b.device_port
    &&& flag == Flag::Seed || a.seed == b.seed
    &&& flag == Flag::Baud || a.baud == b.baud
}

/// Whole pairs of a flag and its value are read before what follows them.
proof fn lemma_settings_concat(
    pairs: Seq<Seq<char>>,
    more: Seq<Seq<char>>,
    settings: Settings,
)
    requires
        pairs.len() % 2 == 0,
    ensures
        args::settings_from(pairs + more, settings) == match args::settings_from(pairs, settings) {
            Ok(next) => args::settings_from(more, next),
            Err(e) => Err(e),
        },
    decreases pairs.len(),
{
    let all = pairs + more;
    if pairs.len() == 0 {
        assert(all =~= more);
    } else {
        assert(all[0] == pairs[0]);
        assert(all[1] == pairs[1]);
        assert(all.skip(2) =~= pairs.skip(2) + more);
        if let Some(flag) = Flag::of_name(pairs[0]) {
            if let Ok(next) = settings.with(flag, pairs[1]) {
                lemma_settings_concat(pairs.skip(2), more, next);
            }
        }
    }
}

/// What was set by a flag before has no influence on how other pairs are read.
proof fn lemma_settings_agree(pairs: Seq<Seq<char>>, flag: Flag, a: Settings, b: Settings)
    requires
        agree_but_for(flag, a, b),
    ensures
        match (args::settings_from(pairs, a), args::settings_from(pairs, b)) {
            (Ok(x), Ok(y)) => agree_but_for(flag, x, y),
            (Err(x), Err(y)) => x == y,
            _ => false,
        },
    decreases pairs.len(),
{
    if pairs.len() > 1 {
        if let Some(other) = Flag::of_name(pairs[0]) {
            if let (Ok(x), Ok(y)) = (a.with(other, pairs[1]), b.with(other, pairs[1])) {
                lemma_settings_agree(pairs.skip(2), flag, x, y);
            }
        }
    }
}

/// Where a flag is given twice, whatever other flags stand before, between and
/// behind, the command line means the same without the earlier one.
pub proof fn law_later_value_wins(
    front: Seq<Seq<char>>,
    flag: Flag,
    earlier: Seq<char>,
    between: Seq<Seq<char>>,
    later: Seq<char>,
    back: Seq<Seq<char>>,
)
    requires
        front.len() % 2 == 0,
        between.len() % 2 == 0,
        args::defaults().with(flag, earlier) is Ok,
    ensures
        args::parsed(
            front + (seq![flag.name(), earlier] + (between + (seq![flag.name(), later] + back))),
        ) == args::parsed(front + (between + (seq![flag.name(), later] + back))),
{
    let name = flag.name();
    let tail = seq![name, later] + back;
    let rest = between + tail;
    let first = seq![name, earlier] + rest;
    lemma_flag_name(flag);
    lemma_settings_concat(front, first, args::defaults());
    lemma_settings_concat(front, rest, args::defaults());
    if let Ok(s) = args::settings_from(front, args::defaults()) {
        assert(first[0] == name && first[1] == earlier);
        assert(first.skip(2) =~= rest);
        let set = s.with(flag, earlier)->Ok_0;
        assert(s.with(flag, earlier) is Ok);
        lemma_settings_concat(between, tail, set);
        lemma_settings_concat(between, tail, s);
        lemma_settings_agree(between, flag, set, s);
        if let (Ok(x), Ok(y)) = (
            args::settings_from(between, set),
            args::settings_from(between, s),
        ) {
            assert(tail[0] == name && tail[1] == later);
            assert(x.with(flag, later) == y.with(flag, later));
        }
    }
}

proof fn lemma_flag_name(flag: Flag)
    ensures
        Flag::of_name(flag.name()) == Some(flag),
{
    reveal_strlit("--mode");
    reveal_strlit("--sender-port");
    reveal_strlit("--receiver-port");
    reveal_strlit("--device-port");
    reveal_strlit("--seed");
    reveal_strlit("--baud");
    assert("--mode"@.len() == 6 && "--sender-port"@.len() == 13 && "--receiver-port"@.len() == 15);
    assert("--device-port"@.len() == 13 && "--seed"@.len() == 6 && "--baud"@.len() == 6);
    assert("--mode"@[2] == 'm' && "--seed"@[2] == 's' && "--baud"@[2] == 'b');
    assert("--sender-port"@[2] == 's' && "--device-port"@[2] == 'd');
}

/// A refusal stands whatever arguments follow, unless it is that a value is
/// missing: then the next argument is that value.
pub proof fn law_first_refusal_stands(
    arguments: Seq<Seq<char>>,
    more: Seq<Seq<char>>,
    settings: Settings,
)
    requires
        args::settings_from(arguments, settings) matches Err(refusal) && refusal
            !is MissingValue,
    ensures
        args::settings_from(arguments + more, settings) == args::settings_from(
            arguments,
            settings,
        ),
    decreases arguments.len(),
{
    let all = arguments + more;
    assert(all[0] == arguments[0]);
    if let Some(flag) = Flag::of_name(arguments[0]) {
        if arguments.len() > 1 {
            assert(all[1] == arguments[1]);
            assert(all.skip(2) =~= arguments.skip(2) + more);
            if let Ok(next) = settings.with(flag, arguments[1]) {
                law_first_refusal_stands(arguments.skip(2), more, next);
            }
        }
    }
}

} // verus!
