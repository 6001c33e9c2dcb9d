//! What holds of the framing as a whole.
use vstd::prelude::*;

use crate::crc;
use crate::proto;
use crate::proto::{
    Command,
    DecodeError,
    EncodeError,
    StatusCode,
    FRAME_OVERHEAD,
    MAX_PAYLOAD_LEN,
};

verus! {

/// A command's byte stands for that command and for no other.
pub proof fn law_command_byte_round_trip(command: Command, byte: u8)
    ensures
        Command::of_byte(command.byte()) == Some(command),
        Command::of_byte(byte) == Some(command) ==> byte == command.byte(),
{
}

/// The status that a status frame was made for is the status that its payload
/// is read as.
pub proof fn law_status_round_trip(status: StatusCode)
    ensures
        proto::status_of(seq![status.byte()]) == Some(status),
{
}

proof fn lemma_le16(value: nat)
    requires
        value < 65536,
    ensures
        proto::le16_bytes(value).len() == 2,
        proto::le16_value(proto::le16_bytes(value)[0], proto::le16_bytes(value)[1]) == value,
{
}

/// What decoding sees of a sealed frame, whatever its command byte is and
/// whatever follows it.
proof fn lemma_sealed(byte: u8, payload: Seq<u8>, rest: Seq<u8>)
    requires
        payload.len() <= MAX_PAYLOAD_LEN,
    ensures
        ({
            let buf = proto::sealed_bytes(byte, payload) + rest;
            &&& proto::sealed_bytes(byte, payload).len() == FRAME_OVERHEAD + payload.len()
            &&& buf[0] == byte
            &&& proto::claimed_len(buf) == payload.len()
            &&& buf.take(3 + payload.len() as int) == proto::covered_bytes(byte, payload)
            &&& buf.subrange(3, 3 + payload.len() as int) == payload
            &&& proto::carried_checksum(buf, payload.len() as int) == crc::checksum(
                proto::covered_bytes(byte, payload),
            )
        }),
{
    let covered = proto::covered_bytes(byte, payload);
    let sum = crc::checksum(covered) as nat;
    let buf = proto::sealed_bytes(byte, payload) + rest;
    lemma_le16(payload.len());
    lemma_le16(sum);
    assert(buf[1] == proto::le16_bytes(payload.len())[0]);
    assert(buf[2] == proto::le16_bytes(payload.len())[1]);
    assert(buf[3 + payload.len() as int] == proto::le16_bytes(sum)[0]);
    assert(buf[4 + payload.len() as int] == proto::le16_bytes(sum)[1]);
    assert(buf.take(3 + payload.len() as int) =~= covered);
    assert(buf.subrange(3, 3 + payload.len() as int) =~= payload);
}

/// Decoding undoes encoding: from a frame, and whatever bytes come after it,
/// the command and the payload come back, and exactly the frame is consumed.
pub proof fn law_decode_undoes_encode(command: Command, payload: Seq<u8>, rest: Seq<u8>)
    requires
        payload.len() <= MAX_PAYLOAD_LEN,
    ensures
        proto::frame_bytes(command, payload).len() == FRAME_OVERHEAD + payload.len(),
        proto::decoded(proto::frame_bytes(command, payload) + rest) == Ok::<_, DecodeError>(
            (command, payload, proto::frame_bytes(command, payload).len()),
        ),
{
    lemma_sealed(command.byte(), payload, rest);
    law_command_byte_round_trip(command, command.byte());
}

/// Whatever decodes was encoded: the bytes that a decoded frame takes up are
/// the ones that its command and payload are encoded as.
pub proof fn law_decoded_bytes_are_a_frame(buf: Seq<u8>)
    ensures
        proto::decoded(buf) matches Ok((command, payload, consumed)) ==> {
            &&& payload.len() <= MAX_PAYLOAD_LEN
            &&& consumed == FRAME_OVERHEAD + payload.len()
            &&& consumed <= buf.len()
            &&& buf.take(consumed as int) == proto::frame_bytes(command, payload)
        },
{
    if let Ok((command, payload, consumed)) = proto::decoded(buf) {
        let len = proto::claimed_len(buf);
        law_command_byte_round_trip(command, buf[0]);
        let covered = proto::covered_bytes(buf[0], payload);
        assert(buf.take(3 + len) =~= covered);
        assert(buf.take(consumed as int) =~= proto::frame_bytes(command, payload));
    }
}

/// A verdict other than "incomplete" stands, whatever bytes come after.
pub proof fn law_verdict_is_settled(buf: Seq<u8>, more: Seq<u8>)
    requires
        proto::decoded(buf) != Err::<(Command, Seq<u8>, nat), _>(DecodeError::Incomplete),
    ensures
        proto::decoded(buf + more) == proto::decoded(buf),
{
    let len = proto::claimed_len(buf);
    if len <= MAX_PAYLOAD_LEN {
        assert((buf + more).take(3 + len) =~= buf.take(3 + len));
        assert((buf + more).subrange(3, 3 + len) =~= buf.subrange(3, 3 + len));
    }
}

/// Every proper beginning of a frame is incomplete.
pub proof fn law_beginning_of_frame_is_incomplete(command: Command, payload: Seq<u8>, n: int)
    requires
        payload.len() <= MAX_PAYLOAD_LEN,
        0 <= n < proto::frame_bytes(command, payload).len(),
    ensures
        proto::decoded(proto::frame_bytes(command, payload).take(n)) == Err::<
            (Command, Seq<u8>, nat),
            _,
        >(DecodeError::Incomplete),
{
    let whole = proto::frame_bytes(command, payload);
    let front = whole.take(n);
    let rest = whole.skip(n);
    assert(front + rest =~= whole);
    if proto::decoded(front) != Err::<(Command, Seq<u8>, nat), _>(DecodeError::Incomplete) {
        law_verdict_is_settled(front, rest);
        law_decode_undoes_encode(command, payload, Seq::empty());
        assert(whole + Seq::<u8>::empty() =~= whole);
        law_decoded_bytes_are_a_frame(front);
    }
}

/// Bytes that are still incomplete are fewer than the largest frame has.
pub proof fn law_incomplete_is_short(buf: Seq<u8>)
    requires
        proto::decoded(buf) == Err::<(Command, Seq<u8>, nat), _>(DecodeError::Incomplete),
    ensures
        buf.len() < FRAME_OVERHEAD + MAX_PAYLOAD_LEN,
{
}

/// No frame is the beginning of another: two frames at the front of the same
/// bytes carry the same command and the same payload.
pub proof fn law_frames_are_unambiguous(
    command: Command,
    payload: Seq<u8>,
    rest: Seq<u8>,
    other_command: Command,
    other_payload: Seq<u8>,
    other_rest: Seq<u8>,
)
    requires
        payload.len() <= MAX_PAYLOAD_LEN,
        other_payload.len() <= MAX_PAYLOAD_LEN,
        proto::frame_bytes(command, payload) + rest == proto::frame_bytes(
            other_command,
            other_payload,
        ) + other_rest,
    ensures
        command == other_command,
        payload == other_payload,
        rest == other_rest,
{
    law_decode_undoes_encode(command, payload, rest);
    law_decode_undoes_encode(other_command, other_payload, other_rest);
    let n = proto::frame_bytes(command, payload).len() as int;
    assert(rest =~= (proto::frame_bytes(command, payload) + rest).skip(n));
    assert(other_rest =~= (proto::frame_bytes(other_command, other_payload) + other_rest).skip(n));
}

/// An intact frame whose command byte no command has is reported with that
/// byte.
pub proof fn law_unknown_command_is_reported(byte: u8, payload: Seq<u8>, rest: Seq<u8>)
    requires
        payload.len() <= MAX_PAYLOAD_LEN,
        Command::of_byte(byte) is None,
    ensures
        proto::decoded(proto::sealed_bytes(byte, payload) + rest) == Err::<
            (Command, Seq<u8>, nat),
            _,
        >(DecodeError::UnknownCommand(byte)),
{
    lemma_sealed(byte, payload, rest);
}

/// Altering any one byte of a frame outside its length field is detected, and
/// reported as a corrupt frame even where the altered byte is the command.
pub proof fn law_altered_byte_is_detected(
    command: Command,
    payload: Seq<u8>,
    rest: Seq<u8>,
    i: int,
    byte: u8,
)
    requires
        payload.len() <= MAX_PAYLOAD_LEN,
        0 <= i < proto::frame_bytes(command, payload).len(),
        i != 1 && i != 2,
        proto::frame_bytes(command, payload)[i] != byte,
    ensures
        proto::decoded(proto::frame_bytes(command, payload).update(i, byte) + rest) == Err::<
            (Command, Seq<u8>, nat),
            _,
        >(DecodeError::CrcMismatch),
{
    let frame = proto::frame_bytes(command, payload);
    let len = payload.len() as int;
    let good = frame + rest;
    let bad = frame.update(i, byte) + rest;
    let covered = proto::covered_bytes(command.byte(), payload);
    lemma_sealed(command.byte(), payload, rest);
    assert(bad =~= good.update(i, byte));
    if i < 3 + len {
        assert(covered[i] == good.take(3 + len)[i]);
        assert(bad.take(3 + len) =~= covered.update(i, byte));
        crc::law_checksum_detects_altered_byte(covered, i, byte);
    } else {
        assert(bad.take(3 + len) =~= covered);
    }
}

/// Bytes that come in two parts and begin with a frame: the frame is found in the
/// first part once it is all there, not before, and what follows it is left over.
pub proof fn law_frame_is_found_once_complete(
    first: Seq<u8>,
    second: Seq<u8>,
    command: Command,
    payload: Seq<u8>,
    more: Seq<u8>,
)
    requires
        payload.len() <= MAX_PAYLOAD_LEN,
        first + second == proto::frame_bytes(command, payload) + more,
    ensures
        proto::frame_bytes(command, payload).len() == FRAME_OVERHEAD + payload.len(),
        first.len() < FRAME_OVERHEAD + payload.len() ==> proto::decoded(first) == Err::<
            (Command, Seq<u8>, nat),
            _,
        >(DecodeError::Incomplete),
        first.len() >= FRAME_OVERHEAD + payload.len() ==> {
            &&& proto::decoded(first) == Ok::<_, DecodeError>(
                (command, payload, (FRAME_OVERHEAD + payload.len()) as nat),
            )
            &&& first.skip(FRAME_OVERHEAD + payload.len()) + second == more
        },
{
    let frame = proto::frame_bytes(command, payload);
    let n = FRAME_OVERHEAD + payload.len();
    law_decode_undoes_encode(command, payload, Seq::empty());
    if first.len() < n {
        assert(first =~= frame.take(first.len() as int)) by {
            assert forall|i: int| 0 <= i < first.len() implies first[i] == frame[i] by {
                assert(first[i] == (first + second)[i]);
                assert(frame[i] == (frame + more)[i]);
            }
        }
        law_beginning_of_frame_is_incomplete(command, payload, first.len() as int);
    } else {
        let left = first.skip(n);
        assert(first =~= frame + left) by {
            assert forall|i: int| 0 <= i < n implies first[i] == frame[i] by {
                assert(first[i] == (first + second)[i]);
                assert(frame[i] == (frame + more)[i]);
            }
        }
        law_decode_undoes_encode(command, payload, left);
        assert(left + second =~= more) by {
            assert forall|i: int| 0 <= i < (left + second).len() implies (left + second)[i]
                == more[i] by {
                assert((left + second)[i] == (first + second)[i + n]);
                assert(more[i] == (frame + more)[i + n]);
            }
            assert((left + second).len() == (first + second).len() - n);
            assert(more.len() == (frame + more).len() - n);
        }
    }
}

/// The bytes that stand for each command and for each status, and that no other
/// byte stands for any.
pub proof fn law_bytes_of_commands(byte: u8, payload: Seq<u8>)
    ensures
        Command::InitKeys.byte() == 1,
        Command::OriginalPsbt.byte() == 2,
        Command::OutRequest.byte() == 3,
        Command::InResponse.byte() == 4,
        Command::SignedPsbt.byte() == 5,
        Command::Status.byte() == 6,
        Command::of_byte(byte) is Some <==> 1 <= byte <= 6,
        StatusCode::Success.byte() == 0,
        StatusCode::Error.byte() == 1,
        proto::status_of_byte(byte) is Some <==> byte <= 1,
        proto::status_of(payload) is Some <==> payload.len() > 0 && payload[0] <= 1,
        proto::status_of(payload) matches Some(status) ==> payload[0] == status.byte(),
{
}

/// How a frame is laid out: the command's byte, the length of the payload, low byte
/// first, the payload as it is, and the checksum of all that, low byte first.
pub proof fn law_frame_layout(command: Command, payload: Seq<u8>)
    requires
        payload.len() <= 4096,
    ensures
        ({
            let frame = proto::frame_bytes(command, payload);
            let n = payload.len() as int;
            let sum = crc::checksum(frame.take(3 + n));
            &&& frame.len() == 5 + n
            &&& frame[0] == command.byte()
            &&& frame[1] + 256 * frame[2] == n
            &&& forall|i: int| 0 <= i < n ==> frame[3 + i] == #[trigger] payload[i]
            &&& frame[3 + n] + 256 * frame[4 + n] == sum
        }),
{
    let frame = proto::frame_bytes(command, payload);
    let n = payload.len() as int;
    lemma_sealed(command.byte(), payload, Seq::empty());
    assert(frame + Seq::<u8>::empty() =~= frame);
    assert forall|i: int| 0 <= i < n implies frame[3 + i] == #[trigger] payload[i] by {
        assert(frame.subrange(3, 3 + n)[i] == frame[3 + i]);
    }
}

/// When a frame is encoded: the payload is at most 4096 bytes long and there is room
/// for it and the five bytes round it, which is then what is written.
pub proof fn law_encoding_takes_room(payload_len: nat, room: nat)
    ensures
        payload_len > 4096 ==> proto::encode_result(payload_len, room) == Err::<usize, _>(
            EncodeError::PayloadTooLarge,
        ),
        payload_len <= 4096 && room < payload_len + 5 ==> proto::encode_result(payload_len, room)
            == Err::<usize, _>(EncodeError::BufferTooSmall),
        payload_len <= 4096 && room >= payload_len + 5 ==> proto::encode_result(payload_len, room)
            == Ok::<usize, EncodeError>((payload_len + 5) as usize),
{
}

/// What is made of bytes that are not a frame. Fewer than five, or fewer than the
/// header claims, wait for more; a header that claims more than 4096 is refused at
/// once; of a whole frame the checksum is tested first, then the command.
pub proof fn law_decoding_tells_what_is_wrong(buf: Seq<u8>)
    ensures
        ({
            let len = buf[1] + 256 * buf[2];
            let sound = buf[3 + len] + 256 * buf[4 + len] == crc::checksum(buf.take(3 + len));
            let verdict = proto::decoded(buf);
            &&& buf.len() < 5 ==> verdict == Err::<(Command, Seq<u8>, nat), _>(
                DecodeError::Incomplete,
            )
            &&& buf.len() >= 5 && len > 4096 ==> verdict == Err::<(Command, Seq<u8>, nat), _>(
                DecodeError::PayloadTooLarge,
            )
            &&& 5 <= buf.len() < 5 + len && len <= 4096 ==> verdict == Err::<
                (Command, Seq<u8>, nat),
                _,
            >(DecodeError::Incomplete)
            &&& len <= 4096 && buf.len() >= 5 + len && !sound ==> verdict == Err::<
                (Command, Seq<u8>, nat),
                _,
            >(DecodeError::CrcMismatch)
            &&& len <= 4096 && buf.len() >= 5 + len && sound && !(1 <= buf[0] <= 6) ==> verdict
                == Err::<(Command, Seq<u8>, nat), _>(DecodeError::UnknownCommand(buf[0]))
            &&& len <= 4096 && buf.len() >= 5 + len && sound && 1 <= buf[0] <= 6 ==> (verdict
                matches Ok((command, payload, consumed)) && {
                &&& command.byte() == buf[0]
                &&& consumed == 5 + len
                &&& payload == buf.subrange(3, 3 + len)
            })
        }),
{
}

} // verus!
