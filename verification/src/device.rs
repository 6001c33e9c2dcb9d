//! The roles that a board plays, over any [`Transport`].
use vstd::prelude::*;
use vstd::slice::{slice_subrange, slice_to_vec};

use crate::proto;
use crate::proto::{decode, encode, Command, DecodeError, FRAME_OVERHEAD, MAX_PAYLOAD_LEN};
use crate::proto_laws;
use crate::transport;
use crate::transport::{Event, Transport};

verus! {

/// What can go wrong while a role runs over a [`Transport`].
#[derive(Debug)]
pub enum HarnessError<E> {
    /// The link reported an error.
    Transport(E),
    /// What arrived is no frame.
    Framing(DecodeError),
    /// An intact frame arrived whose command is not the one that is due.
    UnexpectedCommand,
    /// The payjoin protocol itself failed.
    Payjoin(String),
}

/// What a [`HarnessError`] says.
#[verifier::ext_equal]
pub enum Failure<E> {
    Transport(E),
    Framing(DecodeError),
    UnexpectedCommand,
    Payjoin(Seq<char>),
}

impl<E> View for HarnessError<E> {
    type V = Failure<E>;

    open spec fn view(&self) -> Failure<E> {
        match *self {
            HarnessError::Transport(e) => Failure::Transport(e),
            HarnessError::Framing(e) => Failure::Framing(e),
            HarnessError::UnexpectedCommand => Failure::UnexpectedCommand,
            HarnessError::Payjoin(text) => Failure::Payjoin(text@),
        }
    }
}

/// Where an operation stands once it is through: what it came to, the bytes
/// that were read and not used, and what the link did after that.
#[verifier::ext_equal]
pub struct Outcome<R, E> {
    pub result: Result<R, Failure<E>>,
    pub held: Seq<u8>,
    pub rest: Seq<Event<E>>,
}

/// Reading one frame: `held` are the bytes read earlier and not used, in a
/// buffer for `capacity` bytes, and `events` is what the link does. `None`
/// where the frame would take other events than these.
pub open spec fn frame_read<E>(held: Seq<u8>, capacity: nat, events: Seq<Event<E>>) -> Option<
    Outcome<(Command, Seq<u8>), E>,
>
    decreases events.len(),
{
    match proto::decoded(held) {
        Ok((command, payload, consumed)) => Some(
            Outcome { result: Ok((command, payload)), held: held.skip(consumed as int), rest: events },
        ),
        Err(DecodeError::Incomplete) => {
            if held.len() >= capacity {
                Some(
                    Outcome {
                        result: Err(Failure::Framing(DecodeError::PayloadTooLarge)),
                        held,
                        rest: events,
                    },
                )
            } else if events.len() == 0 {
                None
            } else {
                match events[0] {
                    Event::Received(bytes) => frame_read(held + bytes, capacity, events.skip(1)),
                    Event::RecvFailed(e) => Some(
                        Outcome {
                            result: Err(Failure::Transport(e)),
                            held,
                            rest: events.skip(1),
                        },
                    ),
                    _ => None,
                }
            }
        },
        Err(e) => Some(Outcome { result: Err(Failure::Framing(e)), held, rest: events }),
    }
}

/// What a returned command and payload, or a returned error, stand for.
pub open spec fn frame_result<E>(result: Result<(Command, Vec<u8>), HarnessError<E>>) -> Result<
    (Command, Seq<u8>),
    Failure<E>,
> {
    match result {
        Ok((command, payload)) => Ok((command, payload@)),
        Err(e) => Err(e@),
    }
}

/// Moves the bytes of `buf` from `from` up to `to` to its front.
fn move_to_front(buf: &mut [u8], from: usize, to: usize)
    requires
        from <= to <= old(buf)@.len(),
    ensures
        final(buf)@.len() == old(buf)@.len(),
        final(buf)@.take(to - from) == old(buf)@.subrange(from as int, to as int),
{
    let mut i: usize = 0;
    let count: usize = to - from;
    while i < count
        invariant
            i <= count == to - from,
            from <= to <= buf@.len(),
            buf@.len() == old(buf)@.len(),
            forall|k: int| 0 <= k < i ==> #[trigger] buf@[k] == old(buf)@[from + k],
            forall|k: int| i <= k < buf@.len() ==> #[trigger] buf@[k] == old(buf)@[k],
        decreases count - i,
    {
        buf[i] = buf[from + i];
        i = i + 1;
    }
    assert(buf@.take(to - from) =~= old(buf)@.subrange(from as int, to as int));
}

/// Reads from `transport` into `read_buf` until a complete frame is there, and
/// returns its command and its payload.
///
/// `filled` says how many bytes at the front of `read_buf` are valid: they may
/// hold a part of a frame, or frames that arrived with an earlier one. Start
/// with 0 and pass the same pair to every call. What was read beyond the frame
/// is kept for the next call.
pub fn recv_frame<T: Transport>(
    transport: &mut T,
    read_buf: &mut [u8],
    filled: &mut usize,
) -> (result: Result<(Command, Vec<u8>), HarnessError<T::Error>>)
    requires
        *old(filled) <= old(read_buf)@.len(),
    ensures
        final(read_buf)@.len() == old(read_buf)@.len(),
        *final(filled) <= final(read_buf)@.len(),
        old(transport).log().is_prefix_of(final(transport).log()),
        frame_read(
            old(read_buf)@.take(*old(filled) as int),
            old(read_buf)@.len(),
            transport::since(old(transport).log(), final(transport).log()),
        ) == Some(
            Outcome {
                result: frame_result(result),
                held: final(read_buf)@.take(*final(filled) as int),
                rest: Seq::empty(),
            },
        ),
{
    let ghost log = transport.log();
    let ghost start = read_buf@.take(*filled as int);
    let ghost capacity = read_buf@.len();
    proof {
        assert forall|s: Seq<Event<T::Error>>|
            #[trigger] frame_read(start, capacity, transport::since(log, log) + s) == frame_read(
                start,
                capacity,
                s,
            ) by {
            assert(transport::since(log, log) + s =~= s);
        }
    }
    loop
        invariant
            log == old(transport).log(),
            start == old(read_buf)@.take(*old(filled) as int),
            capacity == old(read_buf)@.len(),
            capacity == read_buf@.len(),
            *filled <= read_buf@.len(),
            log.is_prefix_of(transport.log()),
            forall|s: Seq<Event<T::Error>>|
                #[trigger] frame_read(start, capacity, transport::since(log, transport.log()) + s)
                    == frame_read(read_buf@.take(*filled as int), capacity, s),
        decreases read_buf@.len() - *filled, transport.silence(),
    {
        let ghost held = read_buf@.take(*filled as int);
        let ghost events = transport::since(log, transport.log());
        proof {
            assert(events + Seq::<Event<T::Error>>::empty() =~= events);
            assert(frame_read(start, capacity, events + Seq::empty()) == frame_read(
                held,
                capacity,
                Seq::<Event<T::Error>>::empty(),
            ));
        }
        let front = slice_subrange(read_buf, 0, *filled);
        assert(front@ =~= held);
        match decode(front) {
            Ok((frame, consumed)) => {
                let command = frame.command;
                let payload = slice_to_vec(frame.payload);
                proof {
                    proto_laws::law_decoded_bytes_are_a_frame(held);
                }
                move_to_front(read_buf, consumed, *filled);
                *filled = *filled - consumed;
                assert(read_buf@.take(*filled as int) =~= held.skip(consumed as int));
                return Ok((command, payload));
            },
            Err(DecodeError::Incomplete) => {},
            Err(e) => {
                return Err(HarnessError::Framing(e));
            },
        }
        if *filled == read_buf.len() {
            return Err(HarnessError::Framing(DecodeError::PayloadTooLarge));
        }
        let (kept, free) = read_buf.split_at_mut(*filled);
        let result = transport.recv(free);
        let ghost event = transport::recv_event(free@, result);
        proof {
            assert(transport::since(log, transport.log()) =~= events.push(event));
            assert(read_buf@.take(*filled as int) =~= held);
            assert forall|s: Seq<Event<T::Error>>|
                #[trigger] frame_read(start, capacity, events.push(event) + s) == frame_read(
                    held,
                    capacity,
                    seq![event] + s,
                ) by {
                assert(events.push(event) + s =~= events + (seq![event] + s));
            }
        }
        match result {
            Ok(n) => {
                *filled = *filled + n;
                proof {
                    let now = read_buf@.take(*filled as int);
                    assert(event matches Event::Received(bytes) && now =~= held + bytes);
                    assert forall|s: Seq<Event<T::Error>>|
                        #[trigger] frame_read(start, capacity, events.push(event) + s)
                            == frame_read(now, capacity, s) by {
                        assert((seq![event] + s).skip(1) =~= s);
                        assert((seq![event] + s)[0] == event);
                    }
                }
            },
            Err(e) => {
                proof {
                    let none = Seq::<Event<T::Error>>::empty();
                    assert(events.push(event) + none =~= events.push(event));
                    assert((seq![event] + none).skip(1) =~= none);
                    assert(frame_read(start, capacity, events.push(event) + none) == frame_read(
                        held,
                        capacity,
                        seq![event] + none,
                    ));
                }
                return Err(HarnessError::Transport(e));
            },
        }
    }
}

/// Writing one frame through a scratch buffer of `room` bytes: what it comes to
/// and what the link does after it. `None` where `events` does not begin with
/// the write of that frame.
pub open spec fn frame_written<E>(
    command: Command,
    payload: Seq<u8>,
    room: nat,
    events: Seq<Event<E>>,
) -> Option<(Result<(), Failure<E>>, Seq<Event<E>>)> {
    if proto::encode_result(payload.len(), room) is Err {
        Some((Err(Failure::Payjoin("failed to encode frame"@)), events))
    } else if events.len() == 0 {
        None
    } else if events[0] == Event::<E>::Sent(proto::frame_bytes(command, payload)) {
        Some((Ok(()), events.skip(1)))
    } else {
        match events[0] {
            Event::SendFailed(bytes, e) if bytes == proto::frame_bytes(command, payload) => Some(
                (Err(Failure::Transport(e)), events.skip(1)),
            ),
            _ => None,
        }
    }
}

/// What a returned value without a view, or a returned error, stands for.
pub open spec fn plain_result<R, E>(result: Result<R, HarnessError<E>>) -> Result<R, Failure<E>> {
    match result {
        Ok(value) => Ok(value),
        Err(e) => Err(e@),
    }
}

/// Sends one frame over `transport`. `scratch` is where it is put together, and
/// has to hold `payload.len() + FRAME_OVERHEAD` bytes.
pub fn send_frame<T: Transport>(
    transport: &mut T,
    command: Command,
    payload: &[u8],
    scratch: &mut [u8],
) -> (result: Result<(), HarnessError<T::Error>>)
    ensures
        final(scratch)@ == match proto::encode_result(payload@.len(), old(scratch)@.len()) {
            Ok(written) => proto::frame_bytes(command, payload@) + old(scratch)@.skip(
                written as int,
            ),
            Err(_) => old(scratch)@,
        },
        old(transport).log().is_prefix_of(final(transport).log()),
        frame_written(
            command,
            payload@,
            old(scratch)@.len(),
            transport::since(old(transport).log(), final(transport).log()),
        ) == Some((plain_result(result), Seq::<Event<T::Error>>::empty())),
{
    let ghost log = transport.log();
    match encode(command, payload, scratch) {
        Ok(written) => {
            let frame = slice_subrange(scratch, 0, written);
            assert(frame@ =~= proto::frame_bytes(command, payload@)) by {
                proto_laws::law_decode_undoes_encode(command, payload@, Seq::empty());
            }
            let result = transport.send(frame);
            proof {
                let event = transport::send_event(frame@, result);
                assert(transport::since(log, transport.log()) =~= seq![event]);
                assert(seq![event].skip(1) =~= Seq::empty());
            }
            match result {
                Ok(()) => Ok(()),
                Err(e) => Err(HarnessError::Transport(e)),
            }
        },
        Err(_) => {
            assert(transport::since(log, log) =~= Seq::empty());
            Err(HarnessError::Payjoin("failed to encode frame".to_owned()))
        },
    }
}

/// What follows a frame does not change how the frame is read.
pub proof fn lemma_frame_read_then<E>(
    held: Seq<u8>,
    capacity: nat,
    events: Seq<Event<E>>,
    more: Seq<Event<E>>,
)
    requires
        frame_read(held, capacity, events) is Some,
    ensures
        ({
            let first = frame_read(held, capacity, events).unwrap();
            frame_read(held, capacity, events + more) == Some(
                Outcome { result: first.result, held: first.held, rest: first.rest + more },
            )
        }),
    decreases events.len(),
{
    if events.len() > 0 {
        assert((events + more).skip(1) =~= events.skip(1) + more);
        assert((events + more)[0] == events[0]);
        if proto::decoded(held) == Err::<(Command, Seq<u8>, nat), _>(DecodeError::Incomplete)
            && held.len() < capacity {
            if let Event::Received(bytes) = events[0] {
                lemma_frame_read_then(held + bytes, capacity, events.skip(1), more);
            }
        }
    }
}

/// A payload that was read is one that a frame can hold.
pub proof fn lemma_read_payload_fits<E>(held: Seq<u8>, capacity: nat, events: Seq<Event<E>>)
    ensures
        frame_read(held, capacity, events) matches Some(outcome) ==> (outcome.result matches Ok(
            frame,
        ) ==> frame.1.len() <= MAX_PAYLOAD_LEN),
    decreases events.len(),
{
    proto_laws::law_decoded_bytes_are_a_frame(held);
    if events.len() > 0 {
        if let Event::Received(bytes) = events[0] {
            lemma_read_payload_fits(held + bytes, capacity, events.skip(1));
        }
    }
}

/// The size of the buffers that the roles read and write with: the largest
/// frame fits.
pub open spec fn role_buffer() -> nat {
    (MAX_PAYLOAD_LEN + FRAME_OVERHEAD) as nat
}

/// Waiting for one frame whose command has to be `due`: its payload, or why it
/// was not had, and what the link does after it.
pub open spec fn awaited<E>(due: Command, events: Seq<Event<E>>) -> Option<
    (Result<Seq<u8>, Failure<E>>, Seq<Event<E>>),
> {
    match frame_read(Seq::empty(), role_buffer(), events) {
        None => None,
        Some(outcome) => Some(
            (
                match outcome.result {
                    Ok((command, payload)) => if command == due {
                        Ok(payload)
                    } else {
                        Err(Failure::UnexpectedCommand)
                    },
                    Err(e) => Err(e),
                },
                outcome.rest,
            ),
        ),
    }
}

/// What returned bytes, or a returned error, stand for.
pub open spec fn bytes_result<E>(result: Result<Vec<u8>, HarnessError<E>>) -> Result<
    Seq<u8>,
    Failure<E>,
> {
    match result {
        Ok(bytes) => Ok(bytes@),
        Err(e) => Err(e@),
    }
}

/// Waits for one frame and returns its payload. A frame with another command
/// than `due` is refused.
pub fn await_frame<T: Transport>(transport: &mut T, due: Command) -> (result: Result<
    Vec<u8>,
    HarnessError<T::Error>,
>)
    ensures
        old(transport).log().is_prefix_of(final(transport).log()),
        awaited(due, transport::since(old(transport).log(), final(transport).log())) == Some(
            (bytes_result(result), Seq::<Event<T::Error>>::empty()),
        ),
        result matches Ok(payload) ==> payload@.len() <= MAX_PAYLOAD_LEN,
{
    let ghost log = transport.log();
    let mut read_buf: Vec<u8> = vec![0u8; MAX_PAYLOAD_LEN + FRAME_OVERHEAD];
    let mut filled: usize = 0;
    assert(read_buf@.take(0) =~= Seq::empty());
    match recv_frame(transport, read_buf.as_mut_slice(), &mut filled) {
        Ok((command, payload)) => {
            proof {
                lemma_read_payload_fits(
                    Seq::empty(),
                    role_buffer(),
                    transport::since(log, transport.log()),
                );
            }
            if command == due {
                Ok(payload)
            } else {
                Err(HarnessError::UnexpectedCommand)
            }
        },
        Err(e) => Err(e),
    }
}

/// Sends one frame through a scratch buffer that any frame fits in.
pub fn send_reply<T: Transport>(transport: &mut T, command: Command, payload: &[u8]) -> (result:
    Result<(), HarnessError<T::Error>>)
    ensures
        old(transport).log().is_prefix_of(final(transport).log()),
        frame_written(
            command,
            payload@,
            role_buffer(),
            transport::since(old(transport).log(), final(transport).log()),
        ) == Some((plain_result(result), Seq::<Event<T::Error>>::empty())),
{
    let mut scratch: Vec<u8> = vec![0u8; MAX_PAYLOAD_LEN + FRAME_OVERHEAD];
    send_frame(transport, command, payload, scratch.as_mut_slice())
}

/// Sending a request and waiting for the response to it.
pub open spec fn exchanged<E>(
    request_command: Command,
    request: Seq<u8>,
    response_command: Command,
    events: Seq<Event<E>>,
) -> Option<(Result<Seq<u8>, Failure<E>>, Seq<Event<E>>)> {
    match frame_written(request_command, request, role_buffer(), events) {
        Some((Ok(()), rest)) => awaited(response_command, rest),
        Some((Err(e), rest)) => Some((Err(e), rest)),
        None => None,
    }
}

/// Sends `request` and waits for the response, whose payload it returns.
pub fn exchange<T: Transport>(
    transport: &mut T,
    request_command: Command,
    request: &[u8],
    response_command: Command,
) -> (result: Result<Vec<u8>, HarnessError<T::Error>>)
    ensures
        old(transport).log().is_prefix_of(final(transport).log()),
        exchanged(
            request_command,
            request@,
            response_command,
            transport::since(old(transport).log(), final(transport).log()),
        ) == Some((bytes_result(result), Seq::<Event<T::Error>>::empty())),
        result matches Ok(response) ==> response@.len() <= MAX_PAYLOAD_LEN,
{
    let ghost start = transport.log();
    let sent = send_reply(transport, request_command, request);
    let ghost middle = transport.log();
    match sent {
        Ok(()) => {
            let result = await_frame(transport, response_command);
            proof {
                lemma_frame_written_then(
                    request_command,
                    request@,
                    role_buffer(),
                    transport::since(start, middle),
                    transport::since(middle, transport.log()),
                );
                transport::lemma_since(start, middle, transport.log());
            }
            result
        },
        Err(e) => Err(e),
    }
}

/// What follows a write does not change how it went.
pub proof fn lemma_frame_written_then<E>(
    command: Command,
    payload: Seq<u8>,
    room: nat,
    events: Seq<Event<E>>,
    more: Seq<Event<E>>,
)
    requires
        frame_written(command, payload, room, events) is Some,
    ensures
        ({
            let first = frame_written(command, payload, room, events).unwrap();
            frame_written(command, payload, room, events + more) == Some(
                (first.0, first.1 + more),
            )
        }),
{
    if events.len() > 0 {
        assert((events + more).skip(1) =~= events.skip(1) + more);
    }
}

} // verus!
