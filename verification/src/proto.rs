//! Length-prefixed framing shared by the host and the boards.
//!
//! ```text
//! [u8 command][u16 len_le][payload; len bytes][u16 crc16_le]
//! ```
//!
//! The checksum covers the command byte, the length field and the payload.
//! Encoding writes into a buffer of the caller's and decoding borrows from its
//! input, so neither allocates.
//!
//! The same commands carry both protocol versions. For version 1 a payload is
//! the protocol's own plain bytes. For version 2 it is always the decrypted,
//! decapsulated application bytes: whatever envelope the network needs is put
//! on and taken off by the host.
use vstd::prelude::*;
use vstd::slice::slice_subrange;

use crate::crc;

verus! {

/// The largest payload that one frame can hold.
pub const MAX_PAYLOAD_LEN: usize = 4096;

/// The bytes of a frame beside its payload: one for the command, two for the
/// length, two for the checksum.
pub const FRAME_OVERHEAD: usize = 5;

/// What a frame's payload means.
#[derive(Debug, Clone, Copy, PartialEq, Eq, Structural)]
pub enum Command {
    /// Board to host: the board's key material, sent once at startup.
    InitKeys,
    /// Host to board: the original PSBT, or an incoming request.
    OriginalPsbt,
    /// Board to host: bytes ready to hand to the transport.
    OutRequest,
    /// Host to board: bytes received from the counterparty.
    InResponse,
    /// Board to host: the finished PSBT.
    SignedPsbt,
    /// Either direction: a [`StatusCode`] byte.
    Status,
}

impl Command {
    /// The byte that stands for this command on the wire.
    pub open spec fn byte(self) -> u8 {
        match self {
            Command::InitKeys => 0x01,
            Command::OriginalPsbt => 0x02,
            Command::OutRequest => 0x03,
            Command::InResponse => 0x04,
            Command::SignedPsbt => 0x05,
            Command::Status => 0x06,
        }
    }

    /// The command that `byte` stands for, where there is one.
    pub open spec fn of_byte(byte: u8) -> Option<Command> {
        match byte {
            0x01 => Some(Command::InitKeys),
            0x02 => Some(Command::OriginalPsbt),
            0x03 => Some(Command::OutRequest),
            0x04 => Some(Command::InResponse),
            0x05 => Some(Command::SignedPsbt),
            0x06 => Some(Command::Status),
            _ => None,
        }
    }

    /// The byte that stands for this command on the wire.
    pub fn to_u8(self) -> (byte: u8)
        ensures
            byte == self.byte(),
    {
        match self {
            Command::InitKeys => 0x01,
            Command::OriginalPsbt => 0x02,
            Command::OutRequest => 0x03,
            Command::InResponse => 0x04,
            Command::SignedPsbt => 0x05,
            Command::Status => 0x06,
        }
    }

    /// The command that `byte` stands for, or `None` where no command has it.
    pub fn from_u8(byte: u8) -> (command: Option<Command>)
        ensures
            command == Command::of_byte(byte),
    {
        match byte {
            0x01 => Some(Command::InitKeys),
            0x02 => Some(Command::OriginalPsbt),
            0x03 => Some(Command::OutRequest),
            0x04 => Some(Command::InResponse),
            0x05 => Some(Command::SignedPsbt),
            0x06 => Some(Command::Status),
            _ => None,
        }
    }
}

/// The payload of a [`Command::Status`] frame.
#[derive(Debug, Clone, Copy, PartialEq, Eq, Structural)]
pub enum StatusCode {
    Success,
    Error,
}

impl StatusCode {
    /// The byte that stands for this status on the wire.
    pub open spec fn byte(self) -> u8 {
        match self {
            StatusCode::Success => 0x00,
            StatusCode::Error => 0x01,
        }
    }

    /// The byte that stands for this status on the wire.
    pub fn to_u8(self) -> (byte: u8)
        ensures
            byte == self.byte(),
    {
        match self {
            StatusCode::Success => 0x00,
            StatusCode::Error => 0x01,
        }
    }

    /// The status that `byte` stands for, or `None` where no status has it.
    pub fn from_u8(byte: u8) -> (status: Option<StatusCode>)
        ensures
            status == status_of_byte(byte),
    {
        match byte {
            0x00 => Some(StatusCode::Success),
            0x01 => Some(StatusCode::Error),
            _ => None,
        }
    }
}

/// The status that `byte` stands for, where there is one.
pub open spec fn status_of_byte(byte: u8) -> Option<StatusCode> {
    if byte == StatusCode::Success.byte() {
        Some(StatusCode::Success)
    } else if byte == StatusCode::Error.byte() {
        Some(StatusCode::Error)
    } else {
        None
    }
}

/// A decoded frame; its payload is borrowed from the buffer it was found in.
#[derive(Debug, Clone, Copy, PartialEq, Eq)]
pub struct Frame<'a> {
    pub command: Command,
    pub payload: &'a [u8],
}

#[derive(Debug, Clone, Copy, PartialEq, Eq, Structural)]
pub enum DecodeError {
    /// The bytes so far are only the beginning of a frame: read more and try
    /// again.
    Incomplete,
    /// The header claims more payload than a frame can hold.
    PayloadTooLarge,
    /// The frame is intact, but no command has this byte.
    UnknownCommand(u8),
    /// The checksum does not match: the frame is corrupt.
    CrcMismatch,
}

#[derive(Debug, Clone, Copy, PartialEq, Eq, Structural)]
pub enum EncodeError {
    /// The payload is longer than [`MAX_PAYLOAD_LEN`].
    PayloadTooLarge,
    /// The destination cannot hold the frame.
    BufferTooSmall,
}

/// The number that two bytes stand for, low byte first.
pub open spec fn le16_value(low: u8, high: u8) -> int {
    low + 256 * high
}

/// The two bytes of `value`, low byte first.
pub open spec fn le16_bytes(value: nat) -> Seq<u8> {
    seq![(value % 256) as u8, (value / 256 % 256) as u8]
}

/// The part of a frame that the checksum covers.
pub open spec fn covered_bytes(command_byte: u8, payload: Seq<u8>) -> Seq<u8> {
    seq![command_byte] + le16_bytes(payload.len()) + payload
}

/// A whole frame with `command_byte` in the command's place.
pub open spec fn sealed_bytes(command_byte: u8, payload: Seq<u8>) -> Seq<u8> {
    let covered = covered_bytes(command_byte, payload);
    covered + le16_bytes(crc::checksum(covered) as nat)
}

/// The frame that carries `payload` under `command`.
pub open spec fn frame_bytes(command: Command, payload: Seq<u8>) -> Seq<u8> {
    sealed_bytes(command.byte(), payload)
}

/// The payload length that a header claims.
pub open spec fn claimed_len(buf: Seq<u8>) -> int {
    le16_value(buf[1], buf[2])
}

/// The checksum that a frame with a payload of `len` bytes carries.
pub open spec fn carried_checksum(buf: Seq<u8>, len: int) -> int {
    le16_value(buf[3 + len], buf[4 + len])
}

/// What the bytes at the front of `buf` hold: a command, its payload and the
/// length of the whole frame, or why there is no frame to be had.
pub open spec fn decoded(buf: Seq<u8>) -> Result<(Command, Seq<u8>, nat), DecodeError> {
    let len = claimed_len(buf);
    if buf.len() < FRAME_OVERHEAD {
        Err(DecodeError::Incomplete)
    } else if len > MAX_PAYLOAD_LEN {
        Err(DecodeError::PayloadTooLarge)
    } else if buf.len() < FRAME_OVERHEAD + len {
        Err(DecodeError::Incomplete)
    } else if carried_checksum(buf, len) != crc::checksum(buf.take(3 + len)) {
        Err(DecodeError::CrcMismatch)
    } else {
        match Command::of_byte(buf[0]) {
            Some(command) => Ok((command, buf.subrange(3, 3 + len), (FRAME_OVERHEAD + len) as nat)),
            None => Err(DecodeError::UnknownCommand(buf[0])),
        }
    }
}

/// The status that the payload of a status frame holds.
pub open spec fn status_of(payload: Seq<u8>) -> Option<StatusCode> {
    if payload.len() == 0 {
        None
    } else {
        status_of_byte(payload[0])
    }
}

/// Writes the frame for `command` and `payload` to the front of `out` and
/// returns its length. Where it returns an error, `out` is untouched.
pub fn encode(command: Command, payload: &[u8], out: &mut [u8]) -> (result: Result<
    usize,
    EncodeError,
>)
    ensures
        result == encode_result(payload@.len(), old(out)@.len()),
        result matches Ok(written) ==> final(out)@ == frame_bytes(command, payload@)
            + old(out)@.skip(written as int),
        result is Err ==> final(out)@ == old(out)@,
{
    if payload.len() > MAX_PAYLOAD_LEN {
        return Err(EncodeError::PayloadTooLarge);
    }
    let total_len: usize = FRAME_OVERHEAD + payload.len();
    if out.len() < total_len {
        return Err(EncodeError::BufferTooSmall);
    }
    let len: usize = payload.len();
    out[0] = command.to_u8();
    out[1] = (len % 256) as u8;
    out[2] = (len / 256) as u8;
    let mut i: usize = 0;
    while i < len
        invariant
            i <= len == payload@.len() <= MAX_PAYLOAD_LEN,
            out@.len() == old(out)@.len(),
            FRAME_OVERHEAD + len <= out@.len(),
            out@[0] == command.byte(),
            out@[1] == (len % 256) as u8,
            out@[2] == (len / 256) as u8,
            forall|k: int| 0 <= k < i ==> #[trigger] out@[3 + k] == payload@[k],
            forall|k: int| 3 + i <= k < out@.len() ==> #[trigger] out@[k] == old(out)@[k],
        decreases len - i,
    {
        out[3 + i] = payload[i];
        i = i + 1;
    }
    let ghost covered = covered_bytes(command.byte(), payload@);
    let crc: u16 = {
        let body = slice_subrange(out, 0, 3 + len);
        assert(body@ =~= covered) by {
            assert forall|k: int| 3 <= k < 3 + len implies body@[k] == covered[k] by {
                assert(body@[k] == out@[3 + (k - 3)]);
            }
        }
        crc::crc16(body)
    };
    let ghost before = out@;
    assert(before.take(3 + len) =~= covered);
    out[3 + len] = (crc % 256) as u8;
    out[4 + len] = (crc / 256) as u8;
    assert(out@ =~= frame_bytes(command, payload@) + old(out)@.skip(total_len as int)) by {
        assert forall|k: int| 0 <= k < 3 + len implies out@[k] == covered[k] by {
            assert(out@[k] == before[k]);
            assert(before[k] == before.take(3 + len)[k]);
        }
        assert forall|k: int| total_len <= k < out@.len() implies out@[k] == old(out)@[k] by {
            assert(out@[k] == before[k]);
        }
    }
    Ok(total_len)
}

/// When a frame for a payload of `payload_len` bytes can be encoded into
/// `room` bytes, and what is reported.
pub open spec fn encode_result(payload_len: nat, room: nat) -> Result<usize, EncodeError> {
    if payload_len > MAX_PAYLOAD_LEN {
        Err(EncodeError::PayloadTooLarge)
    } else if room < FRAME_OVERHEAD + payload_len {
        Err(EncodeError::BufferTooSmall)
    } else {
        Ok((FRAME_OVERHEAD + payload_len) as usize)
    }
}

/// Writes a status frame to the front of `out` and returns its length.
pub fn encode_status(status: StatusCode, out: &mut [u8]) -> (result: Result<usize, EncodeError>)
    ensures
        result == encode_result(1, old(out)@.len()),
        result matches Ok(written) ==> final(out)@ == frame_bytes(
            Command::Status,
            seq![status.byte()],
        ) + old(out)@.skip(written as int),
        result is Err ==> final(out)@ == old(out)@,
{
    let payload = [status.to_u8()];
    assert(payload@ =~= seq![status.byte()]);
    encode(Command::Status, &payload, out)
}

/// Decodes the frame at the front of `buf`, and returns it with the number of
/// bytes it takes up there.
///
/// The checksum is tested before the command byte, so a corrupt frame is
/// reported as [`DecodeError::CrcMismatch`] whatever its command byte holds.
pub fn decode(buf: &[u8]) -> (result: Result<(Frame<'_>, usize), DecodeError>)
    ensures
        match result {
            Ok((frame, consumed)) => decoded(buf@) == Ok::<_, DecodeError>(
                (frame.command, frame.payload@, consumed as nat),
            ),
            Err(e) => decoded(buf@) == Err::<(Command, Seq<u8>, nat), _>(e),
        },
{
    if buf.len() < FRAME_OVERHEAD {
        return Err(DecodeError::Incomplete);
    }
    let len: usize = buf[1] as usize + 256 * (buf[2] as usize);
    if len > MAX_PAYLOAD_LEN {
        return Err(DecodeError::PayloadTooLarge);
    }
    let total_len: usize = FRAME_OVERHEAD + len;
    if buf.len() < total_len {
        return Err(DecodeError::Incomplete);
    }
    let crc_expected: u16 = buf[3 + len] as u16 + 256 * (buf[4 + len] as u16);
    let body = slice_subrange(buf, 0, 3 + len);
    assert(body@ =~= buf@.take(3 + len));
    let crc_actual: u16 = crc::crc16(body);
    if crc_expected != crc_actual {
        return Err(DecodeError::CrcMismatch);
    }
    match Command::from_u8(buf[0]) {
        Some(command) => {
            let payload = slice_subrange(buf, 3, 3 + len);
            Ok((Frame { command, payload }, total_len))
        },
        None => Err(DecodeError::UnknownCommand(buf[0])),
    }
}

/// Reads the status from the payload of a status frame. Bytes after the first
/// are ignored.
pub fn decode_status(payload: &[u8]) -> (status: Option<StatusCode>)
    ensures
        status == status_of(payload@),
{
    if payload.len() == 0 {
        None
    } else {
        StatusCode::from_u8(payload[0])
    }
}

} // verus!
