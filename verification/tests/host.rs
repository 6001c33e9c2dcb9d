use std::collections::VecDeque;

use payjoin_harness::host::{FramedPort, PortError};
use payjoin_harness::proto::{decode, encode, Command, DecodeError, EncodeError, FRAME_OVERHEAD};
use payjoin_harness::relay::{
    read_due, read_short_id, run_v1_roundtrip, run_v2_probe, send_seed, step, Due, HostError,
    RoundTripError, Stage,
};
use payjoin_harness::roles;
use payjoin_harness::transport::Transport;

/// A scripted in-memory duplex: bytes queued into `to_read` are handed back on
/// `recv` in order; everything that is sent is captured in `written`.
struct ScriptedPort {
    to_read: VecDeque<u8>,
    written: Vec<u8>,
}

impl ScriptedPort {
    fn preloaded_with_frames(frames: &[(Command, &[u8])]) -> Self {
        let mut to_read = VecDeque::new();
        for (command, payload) in frames {
            let mut scratch = vec![0u8; payload.len() + FRAME_OVERHEAD];
            let written = encode(*command, payload, &mut scratch).unwrap();
            to_read.extend(scratch[..written].iter().copied());
        }
        Self { to_read, written: Vec::new() }
    }
}

impl Transport for ScriptedPort {
    type Error = String;

    fn send(&mut self, bytes: &[u8]) -> Result<(), Self::Error> {
        self.written.extend_from_slice(bytes);
        Ok(())
    }

    fn recv(&mut self, buf: &mut [u8]) -> Result<usize, Self::Error> {
        if self.to_read.is_empty() {
            panic!("ScriptedPort ran out of preloaded bytes -- script is missing a frame");
        }
        let n = buf.len().min(self.to_read.len());
        for slot in buf.iter_mut().take(n) {
            *slot = self.to_read.pop_front().unwrap();
        }
        Ok(n)
    }
}

/// Bytes that are written and read back like a file in memory: reading starts at
/// the front, and ends with empty reads.
struct MemoryPort {
    bytes: Vec<u8>,
    at: usize,
}

impl MemoryPort {
    fn new(bytes: Vec<u8>) -> Self {
        Self { bytes, at: 0 }
    }
}

impl Transport for MemoryPort {
    type Error = String;

    fn send(&mut self, bytes: &[u8]) -> Result<(), Self::Error> {
        self.bytes.extend_from_slice(bytes);
        Ok(())
    }

    fn recv(&mut self, buf: &mut [u8]) -> Result<usize, Self::Error> {
        let n = buf.len().min(self.bytes.len() - self.at);
        buf[..n].copy_from_slice(&self.bytes[self.at..self.at + n]);
        self.at += n;
        Ok(n)
    }
}

/// A port on which nothing works.
struct BrokenPort;

impl Transport for BrokenPort {
    type Error = &'static str;

    fn send(&mut self, _bytes: &[u8]) -> Result<(), Self::Error> {
        Err("no write")
    }

    fn recv(&mut self, _buf: &mut [u8]) -> Result<usize, Self::Error> {
        Err("no read")
    }
}

#[test]
fn write_frame_then_read_frame_round_trips() {
    let mut port = FramedPort::new(MemoryPort::new(Vec::<u8>::new()));
    port.write_frame(Command::OriginalPsbt, b"decrypted bytes").unwrap();

    let written = port.port.bytes;
    let mut reader = FramedPort::new(MemoryPort::new(written));
    let (command, payload) = reader.read_frame().unwrap();
    assert_eq!(command, Command::OriginalPsbt);
    assert_eq!(payload, b"decrypted bytes");
}

#[test]
fn read_frame_accumulates_across_short_reads() {
    struct OneByteAtATime(VecDeque<u8>);
    impl Transport for OneByteAtATime {
        type Error = String;

        fn send(&mut self, _bytes: &[u8]) -> Result<(), Self::Error> {
            Ok(())
        }

        fn recv(&mut self, buf: &mut [u8]) -> Result<usize, Self::Error> {
            match self.0.pop_front() {
                Some(b) => {
                    buf[0] = b;
                    Ok(1)
                }
                None => Ok(0),
            }
        }
    }

    let mut scratch = vec![0u8; b"hi".len() + FRAME_OVERHEAD];
    let written = encode(Command::Status, b"hi", &mut scratch).unwrap();
    let source = OneByteAtATime(scratch[..written].iter().copied().collect());

    let mut port = FramedPort::new(source);
    let (command, payload) = port.read_frame().unwrap();
    assert_eq!(command, Command::Status);
    assert_eq!(payload, b"hi");
}

#[test]
fn read_frame_retains_leftover_bytes_from_multi_frame_reads() {
    let mut scratch1 = vec![0u8; b"first".len() + FRAME_OVERHEAD];
    let n1 = encode(Command::OutRequest, b"first", &mut scratch1).unwrap();
    let mut scratch2 = vec![0u8; 1 + FRAME_OVERHEAD];
    let n2 = encode(Command::Status, &[0x00], &mut scratch2).unwrap();

    let mut both = Vec::new();
    both.extend_from_slice(&scratch1[..n1]);
    both.extend_from_slice(&scratch2[..n2]);

    // One read hands back both frames at once.
    let mut port = FramedPort::new(MemoryPort::new(both));

    let (command, payload) = port.read_frame().unwrap();
    assert_eq!(command, Command::OutRequest);
    assert_eq!(payload, b"first");

    let (command, _) = port.read_frame().unwrap();
    assert_eq!(command, Command::Status);
}

#[test]
fn roundtrip_happy_path() {
    let mut sender = FramedPort::new(ScriptedPort::preloaded_with_frames(&[
        (Command::OutRequest, b"original psbt fixture"),
        (Command::Status, &[0x00]),
    ]));
    let mut receiver = FramedPort::new(ScriptedPort::preloaded_with_frames(&[(
        Command::SignedPsbt,
        b"signed psbt fixture",
    )]));

    run_v1_roundtrip(&mut sender, &mut receiver).unwrap();

    // The receiver was handed exactly the sender's request, as OriginalPsbt.
    let (frame, _) = decode(&receiver.port.written).unwrap();
    assert_eq!(frame.command, Command::OriginalPsbt);
    assert_eq!(frame.payload, b"original psbt fixture");

    // The sender was handed the receiver's proposal, as InResponse.
    let (frame, _) = decode(&sender.port.written).unwrap();
    assert_eq!(frame.command, Command::InResponse);
    assert_eq!(frame.payload, b"signed psbt fixture");
}

#[test]
fn roundtrip_rejects_wrong_command_from_sender() {
    let mut sender = FramedPort::new(ScriptedPort::preloaded_with_frames(&[(
        Command::SignedPsbt,
        b"not a request",
    )]));
    let mut receiver = FramedPort::new(ScriptedPort::preloaded_with_frames(&[]));

    let err = run_v1_roundtrip(&mut sender, &mut receiver).unwrap_err();
    assert!(err.to_string().contains("expected OutRequest"));
}

#[test]
fn roundtrip_rejects_wrong_command_from_receiver() {
    let mut sender = FramedPort::new(ScriptedPort::preloaded_with_frames(&[(
        Command::OutRequest,
        b"original psbt",
    )]));
    let mut receiver =
        FramedPort::new(ScriptedPort::preloaded_with_frames(&[(Command::Status, &[0x01])]));

    let err = run_v1_roundtrip(&mut sender, &mut receiver).unwrap_err();
    assert!(err.to_string().contains("expected SignedPsbt"));
}

#[test]
fn run_v2_probe_happy_path() {
    let mut device = FramedPort::new(ScriptedPort::preloaded_with_frames(&[(
        Command::SignedPsbt,
        b"bech32m-encoded-shortid",
    )]));

    let encoded = run_v2_probe(&mut device, b"some seed bytes").unwrap();
    assert_eq!(encoded, "bech32m-encoded-shortid");

    // The device was sent exactly the seed, as OriginalPsbt.
    let (frame, _) = decode(&device.port.written).unwrap();
    assert_eq!(frame.command, Command::OriginalPsbt);
    assert_eq!(frame.payload, b"some seed bytes");
}

#[test]
fn run_v2_probe_rejects_wrong_command() {
    let mut device =
        FramedPort::new(ScriptedPort::preloaded_with_frames(&[(Command::Status, &[0x00])]));

    let err = run_v2_probe(&mut device, b"seed").unwrap_err();
    assert!(err.to_string().contains("expected SignedPsbt"));
}

#[test]
fn run_v2_probe_rejects_non_utf8_response() {
    let mut device = FramedPort::new(ScriptedPort::preloaded_with_frames(&[(
        Command::SignedPsbt,
        &[0xFF, 0xFE, 0xFD],
    )]));

    let err = run_v2_probe(&mut device, b"seed").unwrap_err();
    assert!(err.to_string().contains("non-UTF-8"));
}

#[test]
fn host_and_board_agree_on_the_short_id() {
    // The host's seed goes to the board, and the board's answer to the host.
    let mut asking = FramedPort::new(MemoryPort::new(Vec::new()));
    asking.write_frame(Command::OriginalPsbt, b"some seed bytes").unwrap();
    let mut board = ScriptedPort { to_read: asking.port.bytes.into(), written: Vec::new() };
    let told = roles::run_v2_probe(&mut board).unwrap();

    let answer = ScriptedPort { to_read: board.written.into(), written: Vec::new() };
    let mut device = FramedPort::new(answer);
    let reported = run_v2_probe(&mut device, b"some seed bytes").unwrap();
    assert_eq!(reported, told);
    assert_eq!(reported, roles::shortid_of(b"some seed bytes").to_string());
}

#[test]
fn round_trip_goes_through_its_stages() {
    let mut sender = FramedPort::new(ScriptedPort::preloaded_with_frames(&[
        (Command::OutRequest, b"0123456789"),
        (Command::Status, &[0x00]),
    ]));
    let mut receiver =
        FramedPort::new(ScriptedPort::preloaded_with_frames(&[(Command::SignedPsbt, b"abc")]));

    let mut stage = Stage::AwaitRequest;
    let mut said = vec![stage.announcement()];
    while !stage.is_done() {
        stage = step(stage, &mut sender, &mut receiver).unwrap();
        said.push(stage.announcement());
    }
    assert_eq!(
        said,
        [
            "Waiting for the sender board's request...",
            "Got 10 byte request from sender, relaying to receiver...",
            "Waiting for the receiver board's signed proposal...",
            "Got 3 byte proposal from receiver, relaying to sender...",
            "Waiting for the sender board to confirm it finalized the PSBT...",
            "Sender reported completion. Round trip done.",
        ]
    );
}

#[test]
fn round_trip_wants_a_status_at_the_end() {
    let mut sender = FramedPort::new(ScriptedPort::preloaded_with_frames(&[
        (Command::OutRequest, b"request"),
        (Command::InitKeys, b""),
    ]));
    let mut receiver =
        FramedPort::new(ScriptedPort::preloaded_with_frames(&[(Command::SignedPsbt, b"abc")]));
    let err = run_v1_roundtrip(&mut sender, &mut receiver).unwrap_err();
    assert_eq!(
        err.to_string(),
        "expected a Status frame from sender at the end, got InitKeys"
    );
    assert!(matches!(
        err,
        RoundTripError::Sender(HostError::Unexpected(Due::Completion, Command::InitKeys))
    ));
}

#[test]
fn refused_requests_reach_no_one() {
    let mut sender = FramedPort::new(ScriptedPort::preloaded_with_frames(&[(
        Command::InResponse,
        b"not a request",
    )]));
    let mut receiver = FramedPort::new(ScriptedPort::preloaded_with_frames(&[]));
    let err = run_v1_roundtrip(&mut sender, &mut receiver).unwrap_err();
    assert_eq!(err.to_string(), "expected OutRequest from sender board, got InResponse");
    assert!(receiver.port.written.is_empty());
    assert!(sender.port.written.is_empty());
}

#[test]
fn errors_name_the_side_that_failed() {
    let mut sender =
        FramedPort::new(ScriptedPort::preloaded_with_frames(&[(Command::OutRequest, b"r")]));
    let mut receiver = FramedPort::new(BrokenPort);
    let err = run_v1_roundtrip(&mut sender, &mut receiver).unwrap_err();
    assert_eq!(err.to_string(), "serial write failed");
    assert!(matches!(err, RoundTripError::Receiver(HostError::Port(PortError::Write("no write")))));

    let mut sender = FramedPort::new(BrokenPort);
    let mut receiver = FramedPort::new(ScriptedPort::preloaded_with_frames(&[]));
    let err = run_v1_roundtrip(&mut sender, &mut receiver).unwrap_err();
    assert_eq!(err.to_string(), "serial read failed");
    assert!(matches!(err, RoundTripError::Sender(HostError::Port(PortError::Read("no read")))));
}

#[test]
fn closed_ports_are_reported() {
    let mut whole = FramedPort::new(MemoryPort::new(Vec::new()));
    whole.write_frame(Command::Status, b"hi").unwrap();
    let mut bytes = whole.port.bytes;
    bytes.pop();
    let mut port = FramedPort::new(MemoryPort::new(bytes.clone()));
    let err = port.read_frame().unwrap_err();
    assert!(matches!(err, PortError::Closed));
    assert_eq!(err.to_string(), "serial port closed before a full frame arrived");
    // What was read is kept.
    assert_eq!(port.buf, bytes);
}

#[test]
fn port_errors_are_put_exactly() {
    let texts = [
        (PortError::<()>::Framing(DecodeError::CrcMismatch), "framing error: CrcMismatch"),
        (PortError::Framing(DecodeError::PayloadTooLarge), "framing error: PayloadTooLarge"),
        (PortError::Framing(DecodeError::Incomplete), "framing error: Incomplete"),
        (
            PortError::Framing(DecodeError::UnknownCommand(0xEE)),
            "framing error: UnknownCommand(238)",
        ),
        (
            PortError::Encode(EncodeError::PayloadTooLarge),
            "failed to encode frame: PayloadTooLarge",
        ),
        (
            PortError::Encode(EncodeError::BufferTooSmall),
            "failed to encode frame: BufferTooSmall",
        ),
    ];
    for (error, text) in texts {
        assert_eq!(error.to_string(), text);
    }
    // The names are those that the types' own debug output has.
    assert_eq!(format!("{:?}", DecodeError::UnknownCommand(0xEE)), "UnknownCommand(238)");
}

#[test]
fn corrupt_frames_are_refused() {
    let mut whole = FramedPort::new(MemoryPort::new(Vec::new()));
    whole.write_frame(Command::Status, b"hi").unwrap();
    let mut bytes = whole.port.bytes;
    bytes[3] ^= 0x01;
    let mut port = FramedPort::new(MemoryPort::new(bytes));
    let err = port.read_frame().unwrap_err();
    assert!(matches!(err, PortError::Framing(DecodeError::CrcMismatch)));
}

#[test]
fn oversized_payloads_are_not_written() {
    let mut port = FramedPort::new(MemoryPort::new(Vec::new()));
    let err = port.write_frame(Command::Status, &[0u8; 4097]).unwrap_err();
    assert!(matches!(err, PortError::Encode(EncodeError::PayloadTooLarge)));
    assert!(port.port.bytes.is_empty());
    port.write_frame(Command::Status, &[0u8; 4096]).unwrap();
    assert_eq!(port.port.bytes.len(), 4101);
    let (_, payload) = port.read_frame().unwrap();
    assert_eq!(payload, [0u8; 4096]);
}

#[test]
fn host_reads_frames_in_order() {
    let frames: [(Command, &[u8]); 3] = [
        (Command::OutRequest, &[1u8; 300]),
        (Command::SignedPsbt, b""),
        (Command::Status, &[0x01]),
    ];
    let mut port = FramedPort::new(ScriptedPort::preloaded_with_frames(&frames));
    for (command, payload) in frames {
        let (c, p) = port.read_frame().unwrap();
        assert_eq!((c, p.as_slice()), (command, payload));
    }
    assert!(port.buf.is_empty());
}

#[test]
fn due_frames_are_told_by_their_command() {
    let all = [
        Due::Request,
        Due::Proposal,
        Due::Completion,
        Due::ShortId,
        Due::DeviceRequest,
        Due::DeviceProposal,
    ];
    for due in all {
        let frames: [(Command, &[u8]); 2] = [(due.expected(), b"x"), (Command::InitKeys, b"y")];
        let mut port = FramedPort::new(ScriptedPort::preloaded_with_frames(&frames));
        assert_eq!(read_due(&mut port, due).unwrap(), b"x");
        let err = read_due(&mut port, due).unwrap_err();
        assert!(err.to_string().ends_with(", got InitKeys"));
    }
}

#[test]
fn probe_goes_in_two_parts() {
    let mut device =
        FramedPort::new(ScriptedPort::preloaded_with_frames(&[(Command::SignedPsbt, b"ID")]));
    send_seed(&mut device, b"seed").unwrap();
    let (frame, consumed) = decode(&device.port.written).unwrap();
    assert_eq!((frame.command, frame.payload), (Command::OriginalPsbt, &b"seed"[..]));
    assert_eq!(consumed, device.port.written.len());
    assert_eq!(device.port.to_read.len(), 7);
    assert_eq!(read_short_id(&mut device).unwrap(), "ID");
    assert_eq!(device.port.written.len(), consumed);

    let err = send_seed(&mut device, &[0u8; 4097]).unwrap_err();
    assert_eq!(err.to_string(), "failed to encode frame: PayloadTooLarge");
}

#[test]
fn probe_texts_are_put_exactly() {
    let mut device =
        FramedPort::new(ScriptedPort::preloaded_with_frames(&[(Command::OutRequest, b"x")]));
    assert_eq!(
        run_v2_probe(&mut device, b"seed").unwrap_err().to_string(),
        "expected SignedPsbt (v2 probe response) from device, got OutRequest"
    );
    let mut device =
        FramedPort::new(ScriptedPort::preloaded_with_frames(&[(Command::SignedPsbt, &[0xC0])]));
    assert_eq!(
        run_v2_probe(&mut device, b"seed").unwrap_err().to_string(),
        "device returned non-UTF-8 ShortId"
    );
    // Text beyond ASCII is text.
    let mut device = FramedPort::new(ScriptedPort::preloaded_with_frames(&[(
        Command::SignedPsbt,
        "\u{e9}\u{1f980}".as_bytes(),
    )]));
    assert_eq!(run_v2_probe(&mut device, b"seed").unwrap(), "\u{e9}\u{1f980}");
}
