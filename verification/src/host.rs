//! The host's side: framed ports, the version 1 relay between two boards, and
//! the version 2 probe of one board.
//!
//! The host makes no payjoin decision. It reads and writes frames, relays their
//! payloads as they are, and translates command tags on the way.
use vstd::prelude::*;
use vstd::slice::{slice_subrange, slice_to_vec};
use vstd::string::StringExecFns;

use crate::proto;
use crate::proto::{
    decode,
    encode,
    Command,
    DecodeError,
    EncodeError,
    FRAME_OVERHEAD,
    MAX_PAYLOAD_LEN,
};
use crate::proto_laws;
use crate::text;
use crate::transport;
use crate::transport::{Event, Transport};

verus! {

/// What can go wrong on a framed port.
#[derive(Debug)]
pub enum PortError<E> {
    /// What arrived is no frame.
    Framing(DecodeError),
    /// Reading from the link failed.
    Read(E),
    /// The link ended before a full frame arrived.
    Closed,
    /// There is no frame for what was to be written.
    Encode(EncodeError),
    /// Writing to the link failed.
    Write(E),
}

/// A link with a read buffer that outlives the reading of a frame: one read can
/// return more than one frame, and what is left over belongs to the next.
pub struct FramedPort<T> {
    pub port: T,
    pub buf: Vec<u8>,
}

/// Where an operation on a port stands once it is through: what it came to, the
/// bytes that were read and not used, and what the link did after that.
#[verifier::ext_equal]
pub struct PortOutcome<R, E> {
    pub result: R,
    pub held: Seq<u8>,
    pub rest: Seq<Event<E>>,
}

/// Reading one frame from a port that holds the bytes `held`, on a link that
/// does `events`. `None` where the frame would take other events than these.
pub open spec fn port_read<E>(held: Seq<u8>, events: Seq<Event<E>>) -> Option<
    PortOutcome<Result<(Command, Seq<u8>), PortError<E>>, E>,
>
    decreases events.len(),
{
    match proto::decoded(held) {
        Ok((command, payload, consumed)) => Some(
            PortOutcome {
                result: Ok((command, payload)),
                held: held.skip(consumed as int),
                rest: events,
            },
        ),
        Err(DecodeError::Incomplete) => {
            if events.len() == 0 {
                None
            } else {
                match events[0] {
                    Event::Received(bytes) => if bytes.len() == 0 {
                        Some(
                            PortOutcome {
                                result: Err(PortError::Closed),
                                held,
                                rest: events.skip(1),
                            },
                        )
                    } else {
                        port_read(held + bytes, events.skip(1))
                    },
                    Event::RecvFailed(e) => Some(
                        PortOutcome {
                            result: Err(PortError::Read(e)),
                            held,
                            rest: events.skip(1),
                        },
                    ),
                    _ => None,
                }
            }
        },
        Err(e) => Some(PortOutcome { result: Err(PortError::Framing(e)), held, rest: events }),
    }
}

/// Writing one frame to a port that holds the bytes `held`.
pub open spec fn port_written<E>(
    command: Command,
    payload: Seq<u8>,
    held: Seq<u8>,
    events: Seq<Event<E>>,
) -> Option<PortOutcome<Result<(), PortError<E>>, E>> {
    if payload.len() > MAX_PAYLOAD_LEN {
        Some(
            PortOutcome {
                result: Err(PortError::Encode(EncodeError::PayloadTooLarge)),
                held,
                rest: events,
            },
        )
    } else if events.len() == 0 {
        None
    } else if events[0] == Event::<E>::Sent(proto::frame_bytes(command, payload)) {
        Some(PortOutcome { result: Ok(()), held, rest: events.skip(1) })
    } else {
        match events[0] {
            Event::SendFailed(bytes, e) if bytes == proto::frame_bytes(command, payload) => Some(
                PortOutcome { result: Err(PortError::Write(e)), held, rest: events.skip(1) },
            ),
            _ => None,
        }
    }
}

/// What a returned command and payload, or a returned error, stand for.
pub open spec fn read_result<E>(result: Result<(Command, Vec<u8>), PortError<E>>) -> Result<
    (Command, Seq<u8>),
    PortError<E>,
> {
    match result {
        Ok((command, payload)) => Ok((command, payload@)),
        Err(e) => Err(e),
    }
}

impl<T: Transport> FramedPort<T> {
    /// What has happened on the link.
    pub open spec fn log(self) -> Seq<Event<T::Error>> {
        self.port.log()
    }

    /// What happened on the link from this state of the port to `later`.
    pub open spec fn until(self, later: Self) -> Seq<Event<T::Error>> {
        transport::since(self.log(), later.log())
    }

    /// A port on `port` that holds no bytes yet.
    pub fn new(port: T) -> (framed: Self)
        ensures
            framed.port == port,
            framed.buf@ == Seq::<u8>::empty(),
    {
        FramedPort { port, buf: Vec::new() }
    }

    /// Reads until a complete frame is there and returns its command and its
    /// payload. What was read beyond it is kept for the next call. On a host
    /// port a read of no bytes means that the port is closed.
    pub fn read_frame(&mut self) -> (result: Result<(Command, Vec<u8>), PortError<T::Error>>)
        ensures
            old(self).log().is_prefix_of(final(self).log()),
            port_read(old(self).buf@, old(self).until(*final(self))) == Some(
                PortOutcome {
                    result: read_result(result),
                    held: final(self).buf@,
                    rest: Seq::<Event<T::Error>>::empty(),
                },
            ),
    {
        let mut chunk: Vec<u8> = vec![0u8; 256];
        let ghost log = self.port.log();
        let ghost start = self.buf@;
        let ghost none = Seq::<Event<T::Error>>::empty();
        proof {
            assert forall|s: Seq<Event<T::Error>>|
                #[trigger] port_read(start, transport::since(log, log) + s) == port_read(
                    start,
                    s,
                ) by {
                assert(transport::since(log, log) + s =~= s);
            }
        }
        loop
            invariant
                chunk@.len() == 256,
                log == old(self).port.log(),
                start == old(self).buf@,
                none == Seq::<Event<T::Error>>::empty(),
                log.is_prefix_of(self.port.log()),
                forall|s: Seq<Event<T::Error>>|
                    #[trigger] port_read(start, transport::since(log, self.port.log()) + s)
                        == port_read(self.buf@, s),
            decreases FRAME_OVERHEAD + MAX_PAYLOAD_LEN + chunk@.len() - self.buf@.len(),
        {
            let ghost held = self.buf@;
            let ghost events = transport::since(log, self.port.log());
            proof {
                assert(events + none =~= events);
                assert(port_read(start, events + none) == port_read(held, none));
            }
            match decode(self.buf.as_slice()) {
                Ok((frame, consumed)) => {
                    let command = frame.command;
                    let payload = slice_to_vec(frame.payload);
                    proof {
                        proto_laws::law_decoded_bytes_are_a_frame(held);
                    }
                    let rest = self.buf.split_off(consumed);
                    self.buf = rest;
                    assert(self.buf@ =~= held.skip(consumed as int));
                    return Ok((command, payload));
                },
                Err(DecodeError::Incomplete) => {},
                Err(e) => {
                    return Err(PortError::Framing(e));
                },
            }
            proof {
                proto_laws::law_incomplete_is_short(held);
            }
            let result = self.port.recv(chunk.as_mut_slice());
            let ghost event = transport::recv_event(chunk@, result);
            proof {
                assert(transport::since(log, self.port.log()) =~= events.push(event));
                assert forall|s: Seq<Event<T::Error>>|
                    #[trigger] port_read(start, events.push(event) + s) == port_read(
                        held,
                        seq![event] + s,
                    ) by {
                    assert(events.push(event) + s =~= events + (seq![event] + s));
                }
                assert(events.push(event) + none =~= events.push(event));
                assert((seq![event] + none).skip(1) =~= none);
                assert(port_read(start, events.push(event) + none) == port_read(
                    held,
                    seq![event] + none,
                ));
            }
            let n: usize = match result {
                Ok(n) => n,
                Err(e) => {
                    return Err(PortError::Read(e));
                },
            };
            if n == 0 {
                return Err(PortError::Closed);
            }
            let read = slice_subrange(chunk.as_slice(), 0, n);
            assert(read@ =~= chunk@.take(n as int));
            self.buf.extend_from_slice(read);
            proof {
                assert(self.buf@ =~= held + read@);
                assert forall|s: Seq<Event<T::Error>>|
                    #[trigger] port_read(start, events.push(event) + s) == port_read(
                        self.buf@,
                        s,
                    ) by {
                    assert((seq![event] + s).skip(1) =~= s);
                    assert((seq![event] + s)[0] == event);
                }
            }
        }
    }

    /// Writes one frame.
    pub fn write_frame(&mut self, command: Command, payload: &[u8]) -> (result: Result<
        (),
        PortError<T::Error>,
    >)
        ensures
            old(self).log().is_prefix_of(final(self).log()),
            port_written(command, payload@, old(self).buf@, old(self).until(*final(self))) == Some(
                PortOutcome { result, held: final(self).buf@, rest: Seq::<Event<T::Error>>::empty() },
            ),
    {
        let ghost log = self.port.log();
        assert(transport::since(log, log) =~= Seq::empty());
        if payload.len() > MAX_PAYLOAD_LEN {
            return Err(PortError::Encode(EncodeError::PayloadTooLarge));
        }
        let mut scratch: Vec<u8> = vec![0u8; payload.len() + FRAME_OVERHEAD];
        match encode(command, payload, scratch.as_mut_slice()) {
            Ok(written) => {
                let frame = slice_subrange(scratch.as_slice(), 0, written);
                assert(frame@ =~= proto::frame_bytes(command, payload@)) by {
                    proto_laws::law_decode_undoes_encode(command, payload@, Seq::empty());
                }
                let result = self.port.send(frame);
                proof {
                    let event = transport::send_event(frame@, result);
                    assert(transport::since(log, self.port.log()) =~= seq![event]);
                    assert(seq![event].skip(1) =~= Seq::empty());
                }
                match result {
                    Ok(()) => Ok(()),
                    Err(e) => Err(PortError::Write(e)),
                }
            },
            Err(e) => Err(PortError::Encode(e)),
        }
    }
}

/// What follows a frame does not change how the frame is read.
pub proof fn lemma_port_read_then<E>(held: Seq<u8>, events: Seq<Event<E>>, more: Seq<Event<E>>)
    requires
        port_read(held, events) is Some,
    ensures
        ({
            let first = port_read(held, events).unwrap();
            port_read(held, events + more) == Some(
                PortOutcome { result: first.result, held: first.held, rest: first.rest + more },
            )
        }),
    decreases events.len(),
{
    if events.len() > 0 {
        assert((events + more).skip(1) =~= events.skip(1) + more);
        assert((events + more)[0] == events[0]);
        if proto::decoded(held) == Err::<(Command, Seq<u8>, nat), _>(DecodeError::Incomplete) {
            if let Event::Received(bytes) = events[0] {
                if bytes.len() > 0 {
                    lemma_port_read_then(held + bytes, events.skip(1), more);
                }
            }
        }
    }
}

/// What follows a write does not change how it went.
pub proof fn lemma_port_written_then<E>(
    command: Command,
    payload: Seq<u8>,
    held: Seq<u8>,
    events: Seq<Event<E>>,
    more: Seq<Event<E>>,
)
    requires
        port_written(command, payload, held, events) is Some,
    ensures
        ({
            let first = port_written(command, payload, held, events).unwrap();
            port_written(command, payload, held, events + more) == Some(
                PortOutcome { result: first.result, held: first.held, rest: first.rest + more },
            )
        }),
{
    if events.len() > 0 {
        assert((events + more).skip(1) =~= events.skip(1) + more);
    }
}

/// How the name of a command is written.
pub open spec fn command_name(command: Command) -> Seq<char> {
    match command {
        Command::InitKeys => "InitKeys"@,
        Command::OriginalPsbt => "OriginalPsbt"@,
        Command::OutRequest => "OutRequest"@,
        Command::InResponse => "InResponse"@,
        Command::SignedPsbt => "SignedPsbt"@,
        Command::Status => "Status"@,
    }
}

/// How the name of a command is written.
pub fn command_text(command: Command) -> (name: &'static str)
    ensures
        name@ == command_name(command),
{
    match command {
        Command::InitKeys => "InitKeys",
        Command::OriginalPsbt => "OriginalPsbt",
        Command::OutRequest => "OutRequest",
        Command::InResponse => "InResponse",
        Command::SignedPsbt => "SignedPsbt",
        Command::Status => "Status",
    }
}

/// How a decoding error is written.
pub open spec fn decode_error_name(error: DecodeError) -> Seq<char> {
    match error {
        DecodeError::Incomplete => "Incomplete"@,
        DecodeError::PayloadTooLarge => "PayloadTooLarge"@,
        DecodeError::UnknownCommand(byte) => "UnknownCommand("@ + text::decimal_digits(byte as nat)
            + ")"@,
        DecodeError::CrcMismatch => "CrcMismatch"@,
    }
}

/// How a decoding error is written.
pub fn decode_error_text(error: DecodeError) -> (name: String)
    ensures
        name@ == decode_error_name(error),
{
    match error {
        DecodeError::Incomplete => "Incomplete".to_owned(),
        DecodeError::PayloadTooLarge => "PayloadTooLarge".to_owned(),
        DecodeError::UnknownCommand(byte) => {
            let mut name = "UnknownCommand(".to_owned();
            name.append(text::decimal(byte as usize).as_str());
            name.append(")");
            name
        },
        DecodeError::CrcMismatch => "CrcMismatch".to_owned(),
    }
}

/// How an encoding error is written.
pub open spec fn encode_error_name(error: EncodeError) -> Seq<char> {
    match error {
        EncodeError::PayloadTooLarge => "PayloadTooLarge"@,
        EncodeError::BufferTooSmall => "BufferTooSmall"@,
    }
}

/// How an encoding error is written.
pub fn encode_error_text(error: EncodeError) -> (name: &'static str)
    ensures
        name@ == encode_error_name(error),
{
    match error {
        EncodeError::PayloadTooLarge => "PayloadTooLarge",
        EncodeError::BufferTooSmall => "BufferTooSmall",
    }
}

impl<E> PortError<E> {
    /// How the error is put to the user.
    pub open spec fn message(self) -> Seq<char> {
        match self {
            PortError::Framing(e) => "framing error: "@ + decode_error_name(e),
            PortError::Read(_) => "serial read failed"@,
            PortError::Closed => "serial port closed before a full frame arrived"@,
            PortError::Encode(e) => "failed to encode frame: "@ + encode_error_name(e),
            PortError::Write(_) => "serial write failed"@,
        }
    }

    /// How the error is put to the user.
    pub fn to_string(&self) -> (message: String)
        ensures
            message@ == self.message(),
    {
        match self {
            PortError::Framing(e) => {
                let mut message = "framing error: ".to_owned();
                message.append(decode_error_text(*e).as_str());
                message
            },
            PortError::Read(_) => "serial read failed".to_owned(),
            PortError::Closed => "serial port closed before a full frame arrived".to_owned(),
            PortError::Encode(e) => {
                let mut message = "failed to encode frame: ".to_owned();
                message.append(encode_error_text(*e));
                message
            },
            PortError::Write(_) => "serial write failed".to_owned(),
        }
    }
}

} // verus!
