//! What the host's ports and its relay come to, told by what goes over the links.
use vstd::prelude::*;
use vstd::utf8;

use crate::host;
use crate::host::PortError;
use crate::proto;
use crate::proto::{Command, DecodeError, EncodeError};
use crate::proto_laws;
use crate::relay;
use crate::relay::{Due, HostError, Link, Point, RoundTripError};
use crate::session_laws;
use crate::text;
use crate::transport;
use crate::transport::Event;

verus! {

/// A link that reports no error, and does not end: every read returns something.
pub open spec fn flowing<E>(events: Seq<Event<E>>) -> bool {
    forall|i: int|
        0 <= i < events.len() ==> match #[trigger] events[i] {
            Event::Sent(_) => true,
            Event::Received(bytes) => bytes.len() > 0,
            _ => false,
        }
}

proof fn lemma_flowing_skip<E>(events: Seq<Event<E>>, n: int)
    requires
        flowing(events),
        0 <= n <= events.len(),
    ensures
        flowing(events.skip(n)),
{
    let rest = events.skip(n);
    assert forall|i: int| 0 <= i < rest.len() implies match #[trigger] rest[i] {
        Event::Sent(_) => true,
        Event::Received(bytes) => bytes.len() > 0,
        _ => false,
    } by {
        assert(rest[i] == events[i + n]);
    }
}

/// A host port whose link brings a frame reads that frame, whatever its payload,
/// whatever its command and however it is cut into reads. It writes nothing
/// meanwhile, and the bytes behind the frame stay there to be read.
pub proof fn law_port_reads_what_arrives<E>(
    held: Seq<u8>,
    events: Seq<Event<E>>,
    command: Command,
    payload: Seq<u8>,
    more: Seq<u8>,
)
    requires
        payload.len() <= 4096,
        flowing(events),
        held + transport::received(events) == proto::frame_bytes(command, payload) + more,
        host::port_read(held, events) is Some,
    ensures
        ({
            let read = host::port_read(held, events).unwrap();
            &&& read.result == Ok::<(Command, Seq<u8>), PortError<E>>((command, payload))
            &&& read.held + transport::received(read.rest) == more
            &&& transport::sent(read.rest) == transport::sent(events)
            &&& flowing(read.rest)
        }),
    decreases events.len(),
{
    let later = transport::received(events);
    proto_laws::law_frame_is_found_once_complete(held, later, command, payload, more);
    if held.len() < 5 + payload.len() {
        assert(events.len() > 0);
        assert(match events[0] {
            Event::Sent(_) => true,
            Event::Received(bytes) => bytes.len() > 0,
            _ => false,
        });
        let bytes = events[0]->Received_0;
        lemma_flowing_skip(events, 1);
        assert((held + bytes) + transport::received(events.skip(1)) =~= held + later);
        assert(transport::sent(events) =~= transport::sent(events.skip(1)));
        law_port_reads_what_arrives(held + bytes, events.skip(1), command, payload, more);
    }
}

proof fn lemma_port_writes<E>(
    command: Command,
    payload: Seq<u8>,
    held: Seq<u8>,
    events: Seq<Event<E>>,
)
    requires
        payload.len() <= 4096,
        flowing(events),
        host::port_written(command, payload, held, events) is Some,
    ensures
        ({
            let written = host::port_written(command, payload, held, events).unwrap();
            &&& written.result == Ok::<(), PortError<E>>(())
            &&& written.held == held
            &&& transport::received(written.rest) == transport::received(events)
            &&& transport::sent(events) == proto::frame_bytes(command, payload)
                + transport::sent(written.rest)
            &&& flowing(written.rest)
        }),
{
    assert(match events[0] {
        Event::Sent(_) => true,
        Event::Received(bytes) => bytes.len() > 0,
        _ => false,
    });
    lemma_flowing_skip(events, 1);
    assert(transport::received(events) =~= transport::received(events.skip(1)));
}

/// What a round trip comes to is settled by the commands that the boards send, and
/// by nothing else: whatever the payloads hold and however long they are, it
/// succeeds if the sender board sends a request and later a status, and the
/// receiver board a signed PSBT; otherwise the first frame with another command
/// is what it fails with. Of what the host writes, each board gets the other's
/// payload, in one frame with the tag that it accepts, and nothing more, and
/// nothing where the frame before was not the one that was due.
pub proof fn law_round_trip_is_settled_by_the_commands<S, R>(
    sender: Link<S>,
    receiver: Link<R>,
    asked: (Command, Seq<u8>),
    offered: (Command, Seq<u8>),
    reported: (Command, Seq<u8>),
    sender_more: Seq<u8>,
    receiver_more: Seq<u8>,
)
    requires
        asked.1.len() <= 4096,
        offered.1.len() <= 4096,
        reported.1.len() <= 4096,
        flowing(sender.events),
        flowing(receiver.events),
        sender.held + transport::received(sender.events) == proto::frame_bytes(asked.0, asked.1)
            + (proto::frame_bytes(reported.0, reported.1) + sender_more),
        receiver.held + transport::received(receiver.events) == proto::frame_bytes(
            offered.0,
            offered.1,
        ) + receiver_more,
        relay::round_trip(Point::AwaitRequest, sender, receiver) is Some,
    ensures
        ({
            let end = relay::round_trip(Point::AwaitRequest, sender, receiver).unwrap();
            let to_receiver = proto::frame_bytes(Command::OriginalPsbt, asked.1);
            let to_sender = proto::frame_bytes(Command::InResponse, offered.1);
            let wrote_to_sender = transport::sent(sender.events) == to_sender + transport::sent(
                end.sender.events,
            );
            let wrote_to_receiver = transport::sent(receiver.events) == to_receiver
                + transport::sent(end.receiver.events);
            let left_sender_alone = transport::sent(sender.events) == transport::sent(
                end.sender.events,
            );
            if asked.0 != Command::OutRequest {
                &&& end.result == Err::<(), RoundTripError<S, R>>(
                    RoundTripError::Sender(HostError::Unexpected(Due::Request, asked.0)),
                )
                &&& left_sender_alone
                &&& end.receiver == receiver
            } else if offered.0 != Command::SignedPsbt {
                &&& end.result == Err::<(), RoundTripError<S, R>>(
                    RoundTripError::Receiver(HostError::Unexpected(Due::Proposal, offered.0)),
                )
                &&& wrote_to_receiver
                &&& left_sender_alone
            } else if reported.0 != Command::Status {
                &&& end.result == Err::<(), RoundTripError<S, R>>(
                    RoundTripError::Sender(HostError::Unexpected(Due::Completion, reported.0)),
                )
                &&& wrote_to_receiver
                &&& wrote_to_sender
            } else {
                &&& end.result == Ok::<(), RoundTripError<S, R>>(())
                &&& wrote_to_receiver
                &&& wrote_to_sender
                &&& end.sender.held + transport::received(end.sender.events) == sender_more
                &&& end.receiver.held + transport::received(end.receiver.events) == receiver_more
            }
        }),
{
    reveal_with_fuel(relay::round_trip, 6);
    let report = proto::frame_bytes(reported.0, reported.1) + sender_more;
    law_port_reads_what_arrives(sender.held, sender.events, asked.0, asked.1, report);
    let first = host::port_read(sender.held, sender.events).unwrap();
    if asked.0 == Command::OutRequest {
        lemma_port_writes(Command::OriginalPsbt, asked.1, receiver.held, receiver.events);
        let second = host::port_written(
            Command::OriginalPsbt,
            asked.1,
            receiver.held,
            receiver.events,
        ).unwrap();
        law_port_reads_what_arrives(
            second.held,
            second.rest,
            offered.0,
            offered.1,
            receiver_more,
        );
        if offered.0 == Command::SignedPsbt {
            lemma_port_writes(Command::InResponse, offered.1, first.held, first.rest);
            let third = host::port_written(
                Command::InResponse,
                offered.1,
                first.held,
                first.rest,
            ).unwrap();
            law_port_reads_what_arrives(
                third.held,
                third.rest,
                reported.0,
                reported.1,
                sender_more,
            );
        }
    }
}

/// What a probe comes to is settled by the frame that the board answers with: the
/// host reports its payload as text where the command is that of a signed PSBT
/// and the payload is text, whatever that text is. The seed goes out as it is, in
/// one frame.
pub proof fn law_probe_is_settled_by_the_answer<E>(
    seed: Seq<u8>,
    held: Seq<u8>,
    events: Seq<Event<E>>,
    command: Command,
    payload: Seq<u8>,
    more: Seq<u8>,
)
    requires
        seed.len() <= 4096,
        payload.len() <= 4096,
        flowing(events),
        held + transport::received(events) == proto::frame_bytes(command, payload) + more,
        relay::probed(seed, held, events) is Some,
    ensures
        ({
            let end = relay::probed(seed, held, events).unwrap();
            &&& end.result == if command != Command::SignedPsbt {
                Err::<Seq<char>, HostError<E>>(HostError::Unexpected(Due::ShortId, command))
            } else if !utf8::valid_utf8(payload) {
                Err::<Seq<char>, HostError<E>>(HostError::NotUtf8)
            } else {
                Ok::<Seq<char>, HostError<E>>(utf8::decode_utf8(payload))
            }
            &&& transport::sent(events) == proto::frame_bytes(Command::OriginalPsbt, seed)
                + transport::sent(end.rest)
            &&& end.held + transport::received(end.rest) == more
        }),
{
    lemma_port_writes(Command::OriginalPsbt, seed, held, events);
    let written = host::port_written(Command::OriginalPsbt, seed, held, events).unwrap();
    law_port_reads_what_arrives(written.held, written.rest, command, payload, more);
}

/// As long as what has arrived is the beginning of a frame, a host port goes on
/// reading. A read of nothing means that the port is closed, and an error of the
/// link is passed on; all that was read is still held.
pub proof fn law_port_reads_until_the_link_fails<E>(
    held: Seq<u8>,
    reads: Seq<Event<E>>,
    more: Seq<Event<E>>,
)
    requires
        session_laws::busy_reads(reads),
        proto::decoded(held + transport::received(reads)) == Err::<(Command, Seq<u8>, nat), _>(
            DecodeError::Incomplete,
        ),
    ensures
        host::port_read(held, reads) is None,
        more.len() > 0 ==> (more[0] matches Event::RecvFailed(e) ==> host::port_read(
            held,
            reads + more,
        ) == Some(
            host::PortOutcome {
                result: Err::<(Command, Seq<u8>), _>(PortError::Read(e)),
                held: held + transport::received(reads),
                rest: more.skip(1),
            },
        )),
        more.len() > 0 ==> (more[0] matches Event::Received(bytes) ==> bytes.len() == 0
            ==> host::port_read(held, reads + more) == Some(
            host::PortOutcome {
                result: Err::<(Command, Seq<u8>), PortError<E>>(PortError::Closed),
                held: held + transport::received(reads),
                rest: more.skip(1),
            },
        )),
    decreases reads.len(),
{
    let arrived = transport::received(reads);
    let all = reads + more;
    if proto::decoded(held) != Err::<(Command, Seq<u8>, nat), _>(DecodeError::Incomplete) {
        proto_laws::law_verdict_is_settled(held, arrived);
    }
    if reads.len() == 0 {
        assert(all =~= more);
        assert(held + arrived =~= held);
    } else {
        assert(reads[0] matches Event::Received(first) && first.len() > 0);
        let bytes = reads[0]->Received_0;
        let later = reads.skip(1);
        assert forall|i: int| 0 <= i < later.len() implies ((#[trigger] later[i])
            matches Event::Received(next) && next.len() > 0) by {
            assert(later[i] == reads[i + 1]);
        }
        assert((held + bytes) + transport::received(later) =~= held + arrived);
        assert(all[0] == reads[0]);
        assert(all.skip(1) =~= later + more);
        law_port_reads_until_the_link_fails(held + bytes, later, more);
    }
}

/// A host port gives up on bytes that are no frame as soon as that is settled, with
/// what is wrong with them, and takes nothing more from its link; what is still to
/// be settled is settled by the next read.
pub proof fn law_port_gives_up_on_bad_bytes<E>(
    held: Seq<u8>,
    bytes: Seq<u8>,
    events: Seq<Event<E>>,
)
    ensures
        match proto::decoded(held) {
            Err(DecodeError::Incomplete) => bytes.len() > 0 ==> host::port_read(
                held,
                seq![Event::Received(bytes)] + events,
            ) == host::port_read(held + bytes, events),
            Err(error) => host::port_read(held, events) == Some(
                host::PortOutcome {
                    result: Err::<(Command, Seq<u8>), PortError<E>>(PortError::Framing(error)),
                    held,
                    rest: events,
                },
            ),
            Ok((command, payload, consumed)) => host::port_read(held, events) == Some(
                host::PortOutcome {
                    result: Ok::<(Command, Seq<u8>), PortError<E>>((command, payload)),
                    held: held.skip(consumed as int),
                    rest: events,
                },
            ),
        },
{
    let all = seq![Event::<E>::Received(bytes)] + events;
    assert(all.skip(1) =~= events);
    assert(all[0] == Event::<E>::Received(bytes));
}

/// Writing to a port puts exactly the bytes of the frame on its link, in one piece,
/// whatever the payload is, and leaves what the port holds alone. What a frame
/// cannot hold is not written at all.
pub proof fn law_port_writes_one_frame<E>(
    command: Command,
    payload: Seq<u8>,
    held: Seq<u8>,
    events: Seq<Event<E>>,
)
    ensures
        payload.len() > 4096 ==> host::port_written(command, payload, held, events) == Some(
            host::PortOutcome {
                result: Err::<(), PortError<E>>(PortError::Encode(EncodeError::PayloadTooLarge)),
                held,
                rest: events,
            },
        ),
        payload.len() <= 4096 && host::port_written(command, payload, held, events) is Some ==> {
            let written = host::port_written(command, payload, held, events).unwrap();
            &&& events.len() > 0
            &&& written.held == held
            &&& written.rest == events.skip(1)
            &&& match events[0] {
                Event::Sent(bytes) => bytes == proto::frame_bytes(command, payload)
                    && written.result == Ok::<(), PortError<E>>(()),
                Event::SendFailed(bytes, e) => bytes == proto::frame_bytes(command, payload)
                    && written.result == Err::<(), PortError<E>>(PortError::Write(e)),
                _ => false,
            }
        },
{
}

/// A round trip ends with the first failure of a port, told as that of the board
/// behind it: of the sender's port while its request is read, of the receiver's
/// while the request is passed on and the proposal read, and of the sender's again
/// while the proposal is passed on and the status read.
pub proof fn law_round_trip_ends_with_the_first_failure<S, R>(sender: Link<S>, receiver: Link<R>)
    requires
        relay::round_trip(Point::AwaitRequest, sender, receiver) is Some,
    ensures
        ({
            let end = relay::round_trip(Point::AwaitRequest, sender, receiver).unwrap();
            let asked = host::port_read(sender.held, sender.events);
            &&& asked matches Some(first)
            &&& match first.result {
                Err(e) => end.result == Err::<(), RoundTripError<S, R>>(
                    RoundTripError::Sender(HostError::Port(e)),
                ),
                Ok((tag, request)) => tag == Command::OutRequest ==> {
                    let relayed = host::port_written(
                        Command::OriginalPsbt,
                        request,
                        receiver.held,
                        receiver.events,
                    );
                    &&& relayed matches Some(second)
                    &&& match second.result {
                        Err(e) => end.result == Err::<(), RoundTripError<S, R>>(
                            RoundTripError::Receiver(HostError::Port(e)),
                        ),
                        Ok(_) => {
                            let offered = host::port_read(second.held, second.rest);
                            &&& offered matches Some(third)
                            &&& match third.result {
                                Err(e) => end.result == Err::<(), RoundTripError<S, R>>(
                                    RoundTripError::Receiver(HostError::Port(e)),
                                ),
                                Ok((tag, proposal)) => tag == Command::SignedPsbt ==> {
                                    let answered = host::port_written(
                                        Command::InResponse,
                                        proposal,
                                        first.held,
                                        first.rest,
                                    );
                                    &&& answered matches Some(fourth)
                                    &&& match fourth.result {
                                        Err(e) => end.result == Err::<(), RoundTripError<S, R>>(
                                            RoundTripError::Sender(HostError::Port(e)),
                                        ),
                                        Ok(_) => {
                                            let told = host::port_read(fourth.held, fourth.rest);
                                            &&& told matches Some(last)
                                            &&& match last.result {
                                                Err(e) => end.result == Err::<
                                                    (),
                                                    RoundTripError<S, R>,
                                                >(RoundTripError::Sender(HostError::Port(e))),
                                                Ok((tag, status)) => (tag == Command::Status)
                                                    == (end.result is Ok),
                                            }
                                        },
                                    }
                                },
                            }
                        },
                    }
                },
            }
        }),
{
    reveal_with_fuel(relay::round_trip, 6);
}

/// One step of a round trip reads one frame from one board or writes one to the
/// other, whatever bytes are to be written, and leaves the other board's port
/// alone; once all is done, nothing more happens.
pub proof fn law_step_reads_or_writes_once<S, R>(
    sender: Link<S>,
    receiver: Link<R>,
    bytes: Seq<u8>,
)
    ensures
        relay::stepped(Point::AwaitRequest, sender, receiver) matches Some(end) ==> {
            &&& host::port_read(sender.held, sender.events) matches Some(read)
            &&& end.sender == (Link { held: read.held, events: read.rest })
            &&& end.receiver == receiver
            &&& end.result == match read.result {
                Ok((Command::OutRequest, request)) => Ok(Point::RelayRequest(request)),
                Ok((command, _)) => Err(
                    RoundTripError::<S, R>::Sender(HostError::Unexpected(Due::Request, command)),
                ),
                Err(e) => Err(RoundTripError::<S, R>::Sender(HostError::Port(e))),
            }
        },
        relay::stepped(Point::RelayRequest(bytes), sender, receiver) matches Some(end) ==> {
            &&& host::port_written(
                Command::OriginalPsbt,
                bytes,
                receiver.held,
                receiver.events,
            ) matches Some(written)
            &&& end.sender == sender
            &&& end.receiver == (Link { held: written.held, events: written.rest })
            &&& end.result == match written.result {
                Ok(_) => Ok(Point::AwaitProposal),
                Err(e) => Err(RoundTripError::<S, R>::Receiver(HostError::Port(e))),
            }
        },
        relay::stepped(Point::AwaitProposal, sender, receiver) matches Some(end) ==> {
            &&& host::port_read(receiver.held, receiver.events) matches Some(read)
            &&& end.sender == sender
            &&& end.receiver == (Link { held: read.held, events: read.rest })
            &&& end.result == match read.result {
                Ok((Command::SignedPsbt, proposal)) => Ok(Point::RelayProposal(proposal)),
                Ok((command, _)) => Err(
                    RoundTripError::<S, R>::Receiver(HostError::Unexpected(Due::Proposal, command)),
                ),
                Err(e) => Err(RoundTripError::<S, R>::Receiver(HostError::Port(e))),
            }
        },
        relay::stepped(Point::RelayProposal(bytes), sender, receiver) matches Some(end) ==> {
            &&& host::port_written(
                Command::InResponse,
                bytes,
                sender.held,
                sender.events,
            ) matches Some(written)
            &&& end.sender == (Link { held: written.held, events: written.rest })
            &&& end.receiver == receiver
            &&& end.result == match written.result {
                Ok(_) => Ok(Point::AwaitStatus),
                Err(e) => Err(RoundTripError::<S, R>::Sender(HostError::Port(e))),
            }
        },
        relay::stepped(Point::AwaitStatus, sender, receiver) matches Some(end) ==> {
            &&& host::port_read(sender.held, sender.events) matches Some(read)
            &&& end.sender == (Link { held: read.held, events: read.rest })
            &&& end.receiver == receiver
            &&& end.result == match read.result {
                Ok((Command::Status, _)) => Ok(Point::Done),
                Ok((command, _)) => Err(
                    RoundTripError::<S, R>::Sender(HostError::Unexpected(Due::Completion, command)),
                ),
                Err(e) => Err(RoundTripError::<S, R>::Sender(HostError::Port(e))),
            }
        },
        relay::stepped(Point::Done, sender, receiver) == Some(
            relay::Relayed { result: Ok(Point::Done), sender, receiver },
        ),
{
}

/// A probe fails with the failure of its port: nothing is read where the seed was
/// not written.
pub proof fn law_probe_ends_with_the_first_failure<E>(
    seed: Seq<u8>,
    held: Seq<u8>,
    events: Seq<Event<E>>,
)
    requires
        relay::probed(seed, held, events) is Some,
    ensures
        ({
            let end = relay::probed(seed, held, events).unwrap();
            let written = host::port_written(Command::OriginalPsbt, seed, held, events);
            &&& written matches Some(first)
            &&& match first.result {
                Err(e) => end.result == Err::<Seq<char>, HostError<E>>(HostError::Port(e))
                    && end.rest == first.rest,
                Ok(_) => {
                    let read = host::port_read(first.held, first.rest);
                    &&& read matches Some(second)
                    &&& second.result matches Err(e) ==> end.result == Err::<
                        Seq<char>,
                        HostError<E>,
                    >(HostError::Port(e))
                },
            }
        }),
{
}

/// Reading a frame that is due takes one frame from the port and nothing more,
/// passes on why there was none, and refuses one that carries another command than
/// the board is to send there: a tool that plays the other board waits for the same
/// request and the same proposal as the relay.
pub proof fn law_due_frame_is_told_by_its_command<E>(
    due: Due,
    held: Seq<u8>,
    events: Seq<Event<E>>,
)
    ensures
        match host::port_read(held, events) {
            None => relay::due_read(due, held, events) is None,
            Some(read) => {
                let command = match due {
                    Due::Request | Due::DeviceRequest => Command::OutRequest,
                    Due::Proposal | Due::DeviceProposal | Due::ShortId => Command::SignedPsbt,
                    Due::Completion => Command::Status,
                };
                &&& due.command() == command
                &&& relay::due_read(due, held, events) matches Some(end)
                &&& end.held == read.held
                &&& end.rest == read.rest
                &&& end.result == match read.result {
                    Err(e) => Err::<Seq<u8>, HostError<E>>(HostError::Port(e)),
                    Ok((tag, payload)) => if tag == command {
                        Ok::<Seq<u8>, HostError<E>>(payload)
                    } else {
                        Err::<Seq<u8>, HostError<E>>(HostError::Unexpected(due, tag))
                    },
                }
            },
        },
{
}

/// What is told of a failure: what the host waited for, and the name of what came;
/// or what failed at the port, whichever board it is.
pub proof fn law_failures_are_told<S, R>(
    due: Due,
    command: Command,
    byte: u8,
    sender_error: HostError<S>,
    receiver_error: HostError<R>,
    failure: S,
)
    ensures
        HostError::<S>::Unexpected(due, command).message() == match due {
            Due::Request => "expected OutRequest from sender board, got "@,
            Due::Proposal => "expected SignedPsbt from receiver board, got "@,
            Due::Completion => "expected a Status frame from sender at the end, got "@,
            Due::ShortId => "expected SignedPsbt (v2 probe response) from device, got "@,
            Due::DeviceRequest => "expected OutRequest from device, got "@,
            Due::DeviceProposal => "expected SignedPsbt from device, got "@,
        } + match command {
            Command::InitKeys => "InitKeys"@,
            Command::OriginalPsbt => "OriginalPsbt"@,
            Command::OutRequest => "OutRequest"@,
            Command::InResponse => "InResponse"@,
            Command::SignedPsbt => "SignedPsbt"@,
            Command::Status => "Status"@,
        },
        HostError::<S>::NotUtf8.message() == "device returned non-UTF-8 ShortId"@,
        HostError::Port(PortError::Read(failure)).message() == "serial read failed"@,
        HostError::Port(PortError::Write(failure)).message() == "serial write failed"@,
        HostError::Port(PortError::<S>::Closed).message()
            == "serial port closed before a full frame arrived"@,
        HostError::Port(PortError::<S>::Encode(EncodeError::PayloadTooLarge)).message()
            == "failed to encode frame: "@ + "PayloadTooLarge"@,
        HostError::Port(PortError::<S>::Encode(EncodeError::BufferTooSmall)).message()
            == "failed to encode frame: "@ + "BufferTooSmall"@,
        HostError::Port(PortError::<S>::Framing(DecodeError::Incomplete)).message()
            == "framing error: "@ + "Incomplete"@,
        HostError::Port(PortError::<S>::Framing(DecodeError::PayloadTooLarge)).message()
            == "framing error: "@ + "PayloadTooLarge"@,
        HostError::Port(PortError::<S>::Framing(DecodeError::CrcMismatch)).message()
            == "framing error: "@ + "CrcMismatch"@,
        HostError::Port(PortError::<S>::Framing(DecodeError::UnknownCommand(byte))).message()
            == "framing error: "@ + ("UnknownCommand("@ + text::decimal_digits(byte as nat)
            + ")"@),
        RoundTripError::<S, R>::Sender(sender_error).message() == sender_error.message(),
        RoundTripError::<S, R>::Receiver(receiver_error).message() == receiver_error.message(),
{
}

/// What is told of a round trip as it goes on: what is waited for, and of what is
/// relayed how many bytes it has.
pub proof fn law_progress_is_told(bytes: Seq<u8>)
    ensures
        Point::AwaitRequest.report() == "Waiting for the sender board's request..."@,
        Point::RelayRequest(bytes).report() == "Got "@ + text::decimal_digits(bytes.len())
            + " byte request from sender, relaying to receiver..."@,
        Point::AwaitProposal.report() == "Waiting for the receiver board's signed proposal..."@,
        Point::RelayProposal(bytes).report() == "Got "@ + text::decimal_digits(bytes.len())
            + " byte proposal from receiver, relaying to sender..."@,
        Point::AwaitStatus.report()
            == "Waiting for the sender board to confirm it finalized the PSBT..."@,
        Point::Done.report() == "Sender reported completion. Round trip done."@,
{
}

/// What the host returns stands for itself: the bytes or the text that it returns,
/// and the error.
pub proof fn law_results_stand_for_themselves<E>(
    command: Command,
    bytes: Vec<u8>,
    answer: String,
    error: HostError<E>,
    port_error: PortError<E>,
)
    ensures
        host::read_result(Ok::<(Command, Vec<u8>), PortError<E>>((command, bytes))) == Ok::<
            (Command, Seq<u8>),
            PortError<E>,
        >((command, bytes@)),
        host::read_result(Err::<(Command, Vec<u8>), PortError<E>>(port_error)) == Err::<
            (Command, Seq<u8>),
            PortError<E>,
        >(port_error),
        relay::due_result(Ok::<Vec<u8>, HostError<E>>(bytes)) == Ok::<Seq<u8>, HostError<E>>(
            bytes@,
        ),
        relay::due_result(Err::<Vec<u8>, HostError<E>>(error)) == Err::<Seq<u8>, HostError<E>>(
            error,
        ),
        relay::text_result(Ok::<String, HostError<E>>(answer)) == Ok::<Seq<char>, HostError<E>>(
            answer@,
        ),
        relay::text_result(Err::<String, HostError<E>>(error)) == Err::<Seq<char>, HostError<E>>(
            error,
        ),
{
}

} // verus!
