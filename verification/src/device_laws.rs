//! What a board's reading and writing come to, told by what goes over its link.
use vstd::prelude::*;

use crate::device;
use crate::device::{Failure, HarnessError};
use crate::proto;
use crate::proto::{Command, DecodeError};
use crate::proto_laws;
use crate::session_laws;
use crate::transport;
use crate::transport::Event;

verus! {

proof fn lemma_skip<E>(events: Seq<Event<E>>)
    requires
        session_laws::failure_free(events),
        events.len() > 0,
    ensures
        session_laws::failure_free(events.skip(1)),
        events[0] is Sent || events[0] is Received,
{
    let rest = events.skip(1);
    assert forall|i: int| 0 <= i < rest.len() implies ((#[trigger] rest[i]) is Sent
        || rest[i] is Received) by {
        assert(rest[i] == events[i + 1]);
    }
    assert(events[0] is Sent || events[0] is Received);
}

/// A board whose link brings a frame that its buffer can hold reads that frame,
/// whatever its payload and its command are. It writes nothing meanwhile, and the
/// bytes behind the frame stay there to be read.
pub proof fn law_board_reads_what_arrives<E>(
    held: Seq<u8>,
    capacity: nat,
    events: Seq<Event<E>>,
    command: Command,
    payload: Seq<u8>,
    more: Seq<u8>,
)
    requires
        payload.len() <= 4096,
        5 + payload.len() <= capacity,
        session_laws::failure_free(events),
        held + transport::received(events) == proto::frame_bytes(command, payload) + more,
        device::frame_read(held, capacity, events) is Some,
    ensures
        ({
            let read = device::frame_read(held, capacity, events).unwrap();
            &&& read.result == Ok::<(Command, Seq<u8>), Failure<E>>((command, payload))
            &&& read.held + transport::received(read.rest) == more
            &&& transport::sent(read.rest) == transport::sent(events)
            &&& session_laws::failure_free(read.rest)
        }),
    decreases events.len(),
{
    let later = transport::received(events);
    proto_laws::law_frame_is_found_once_complete(held, later, command, payload, more);
    if held.len() < 5 + payload.len() {
        lemma_skip(events);
        let bytes = events[0]->Received_0;
        assert((held + bytes) + transport::received(events.skip(1)) =~= held + later);
        assert(transport::sent(events) =~= transport::sent(events.skip(1)));
        law_board_reads_what_arrives(
            held + bytes,
            capacity,
            events.skip(1),
            command,
            payload,
            more,
        );
    }
}

/// As long as what has arrived is the beginning of a frame and there is room for
/// more, a board goes on reading, also after reads that returned nothing. It gives
/// up on the first error of its link, with that error and with all that was read
/// still held.
pub proof fn law_board_reads_until_the_link_fails<E>(
    held: Seq<u8>,
    capacity: nat,
    reads: Seq<Event<E>>,
    more: Seq<Event<E>>,
)
    requires
        session_laws::only_reads(reads),
        proto::decoded(held + transport::received(reads)) == Err::<(Command, Seq<u8>, nat), _>(
            DecodeError::Incomplete,
        ),
        held.len() + transport::received(reads).len() < capacity,
    ensures
        device::frame_read(held, capacity, reads) is None,
        more.len() > 0 ==> (more[0] matches Event::RecvFailed(e) ==> device::frame_read(
            held,
            capacity,
            reads + more,
        ) == Some(
            device::Outcome {
                result: Err::<(Command, Seq<u8>), _>(Failure::Transport(e)),
                held: held + transport::received(reads),
                rest: more.skip(1),
            },
        )),
    decreases reads.len(),
{
    let arrived = transport::received(reads);
    let all = reads + more;
    if proto::decoded(held) != Err::<(Command, Seq<u8>, nat), _>(DecodeError::Incomplete) {
        proto_laws::law_verdict_is_settled(held, arrived);
    }
    if reads.len() == 0 {
        assert(all =~= more);
        assert(held + arrived =~= held);
    } else {
        assert(reads[0] is Received);
        let bytes = reads[0]->Received_0;
        let later = reads.skip(1);
        assert forall|i: int| 0 <= i < later.len() implies (#[trigger] later[i]) is Received by {
            assert(later[i] == reads[i + 1]);
        }
        assert((held + bytes) + transport::received(later) =~= held + arrived);
        assert(all[0] == reads[0]);
        assert(all.skip(1) =~= later + more);
        law_board_reads_until_the_link_fails(held + bytes, capacity, later, more);
    }
}

/// A board gives up on bytes that are no frame as soon as that is settled, with
/// what is wrong with them, and takes nothing more from its link.
pub proof fn law_board_gives_up_on_bad_bytes<E>(
    held: Seq<u8>,
    capacity: nat,
    events: Seq<Event<E>>,
    error: DecodeError,
)
    requires
        error != DecodeError::Incomplete,
        proto::decoded(held) == Err::<(Command, Seq<u8>, nat), _>(error),
    ensures
        device::frame_read(held, capacity, events) == Some(
            device::Outcome {
                result: Err::<(Command, Seq<u8>), Failure<E>>(Failure::Framing(error)),
                held,
                rest: events,
            },
        ),
{
}

/// A board whose buffer is full with the beginning of a frame gives up: the frame
/// is too large for it.
pub proof fn law_board_gives_up_on_a_full_buffer<E>(
    held: Seq<u8>,
    capacity: nat,
    events: Seq<Event<E>>,
)
    requires
        proto::decoded(held) == Err::<(Command, Seq<u8>, nat), _>(DecodeError::Incomplete),
        held.len() >= capacity,
    ensures
        device::frame_read(held, capacity, events) == Some(
            device::Outcome {
                result: Err::<(Command, Seq<u8>), Failure<E>>(
                    Failure::Framing(DecodeError::PayloadTooLarge),
                ),
                held,
                rest: events,
            },
        ),
{
}

/// Reading takes from the link what is read next, and so all comes to the same as
/// if it had been held from the start.
pub proof fn law_board_takes_the_next_read<E>(
    held: Seq<u8>,
    capacity: nat,
    bytes: Seq<u8>,
    more: Seq<Event<E>>,
)
    requires
        proto::decoded(held) == Err::<(Command, Seq<u8>, nat), _>(DecodeError::Incomplete),
        held.len() < capacity,
    ensures
        device::frame_read(held, capacity, seq![Event::Received(bytes)] + more)
            == device::frame_read(held + bytes, capacity, more),
{
    let all = seq![Event::<E>::Received(bytes)] + more;
    assert(all.skip(1) =~= more);
    assert(all[0] == Event::<E>::Received(bytes));
}

/// Writing a frame puts exactly its bytes on the link, in one piece, whatever the
/// payload is. What a frame cannot hold, or the scratch buffer, is not written at
/// all.
pub proof fn law_board_writes_one_frame<E>(
    command: Command,
    payload: Seq<u8>,
    room: nat,
    events: Seq<Event<E>>,
)
    ensures
        payload.len() > 4096 || room < 5 + payload.len() ==> device::frame_written(
            command,
            payload,
            room,
            events,
        ) == Some((Err::<(), Failure<E>>(Failure::Payjoin("failed to encode frame"@)), events)),
        payload.len() <= 4096 && 5 + payload.len() <= room && device::frame_written(
            command,
            payload,
            room,
            events,
        ) is Some ==> {
            let written = device::frame_written(command, payload, room, events).unwrap();
            &&& events.len() > 0
            &&& written.1 == events.skip(1)
            &&& match events[0] {
                Event::Sent(bytes) => bytes == proto::frame_bytes(command, payload) && written.0
                    == Ok::<(), Failure<E>>(()),
                Event::SendFailed(bytes, e) => bytes == proto::frame_bytes(command, payload)
                    && written.0 == Err::<(), Failure<E>>(Failure::Transport(e)),
                _ => false,
            }
        },
{
}

/// A role that waits for a frame passes on why it got none.
pub proof fn law_waiting_passes_on_failures<E>(due: Command, events: Seq<Event<E>>)
    ensures
        match device::frame_read(Seq::empty(), 4101, events) {
            None => device::awaited(due, events) is None,
            Some(read) => device::awaited(due, events) == Some(
                (
                    match read.result {
                        Err(e) => Err::<Seq<u8>, Failure<E>>(e),
                        Ok((command, payload)) => if command == due {
                            Ok::<Seq<u8>, Failure<E>>(payload)
                        } else {
                            Err::<Seq<u8>, Failure<E>>(Failure::UnexpectedCommand)
                        },
                    },
                    read.rest,
                ),
            ),
        },
{
}

/// What an exchange comes to is settled by the frame that comes back: its payload
/// where the command is the one that is due, whatever request and response hold.
/// The request goes out as it is, in one frame, and nothing else does; what is taken
/// from the link is what reading the response takes.
pub proof fn law_exchange_is_settled_by_the_response<E>(
    request_command: Command,
    request: Seq<u8>,
    due: Command,
    events: Seq<Event<E>>,
    command: Command,
    payload: Seq<u8>,
    more: Seq<u8>,
)
    requires
        request.len() <= 4096,
        payload.len() <= 4096,
        session_laws::failure_free(events),
        transport::received(events) == proto::frame_bytes(command, payload) + more,
        device::exchanged(request_command, request, due, events) is Some,
    ensures
        ({
            let end = device::exchanged(request_command, request, due, events).unwrap();
            &&& end.0 == if command == due {
                Ok::<Seq<u8>, Failure<E>>(payload)
            } else {
                Err::<Seq<u8>, Failure<E>>(Failure::UnexpectedCommand)
            }
            &&& transport::sent(events) == proto::frame_bytes(request_command, request)
                + transport::sent(end.1)
            &&& device::frame_read(Seq::empty(), 4101, events.skip(1)) matches Some(read)
                && end.1 == read.rest
        }),
{
    let none = Seq::<u8>::empty();
    lemma_skip(events);
    assert(transport::received(events) =~= transport::received(events.skip(1)));
    assert(none + transport::received(events.skip(1)) =~= transport::received(events.skip(1)));
    law_board_reads_what_arrives(
        none,
        device::role_buffer(),
        events.skip(1),
        command,
        payload,
        more,
    );
}

/// A request that no frame can hold is not sent, and nothing is waited for.
pub proof fn law_oversized_request_is_not_sent<E>(
    request_command: Command,
    request: Seq<u8>,
    due: Command,
    events: Seq<Event<E>>,
)
    requires
        request.len() > 4096,
    ensures
        device::exchanged(request_command, request, due, events) == Some(
            (Err::<Seq<u8>, Failure<E>>(Failure::Payjoin("failed to encode frame"@)), events),
        ),
{
}

/// What a role returns stands for itself: the bytes that it returns, and the error
/// with what it holds.
pub proof fn law_results_stand_for_themselves<R, E>(
    command: Command,
    bytes: Vec<u8>,
    value: R,
    error: HarnessError<E>,
)
    ensures
        device::bytes_result(Ok::<Vec<u8>, HarnessError<E>>(bytes)) == Ok::<
            Seq<u8>,
            Failure<E>,
        >(bytes@),
        device::bytes_result(Err::<Vec<u8>, HarnessError<E>>(error)) == Err::<
            Seq<u8>,
            Failure<E>,
        >(error@),
        device::frame_result(Ok::<(Command, Vec<u8>), HarnessError<E>>((command, bytes))) == Ok::<
            (Command, Seq<u8>),
            Failure<E>,
        >((command, bytes@)),
        device::frame_result(Err::<(Command, Vec<u8>), HarnessError<E>>(error)) == Err::<
            (Command, Seq<u8>),
            Failure<E>,
        >(error@),
        device::plain_result(Ok::<R, HarnessError<E>>(value)) == Ok::<R, Failure<E>>(value),
        device::plain_result(Err::<R, HarnessError<E>>(error)) == Err::<R, Failure<E>>(error@),
        error@ == match error {
            HarnessError::Transport(e) => Failure::Transport(e),
            HarnessError::Framing(e) => Failure::Framing(e),
            HarnessError::UnexpectedCommand => Failure::UnexpectedCommand,
            HarnessError::Payjoin(text) => Failure::Payjoin(text@),
        },
{
}

} // verus!
