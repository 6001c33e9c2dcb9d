use std::collections::VecDeque;
use std::convert::Infallible;
use std::str::FromStr;

use bitcoin::psbt::Psbt;
use bitcoin::{Address, Amount, FeeRate};
use payjoin::send::v1::SenderBuilder;
use payjoin::PjParam;
use payjoin_harness::bip78::{FixedHeaders, MAX_ORIGINAL_FEE};
use payjoin_harness::device::{
    await_frame, exchange, recv_frame, send_frame, send_reply, HarnessError,
};
use payjoin_harness::proto::{
    decode, encode, Command, DecodeError, FRAME_OVERHEAD, MAX_PAYLOAD_LEN,
};
use payjoin_harness::roles::{
    answer, judge_response, mark_outputs, original_fee_in_range, original_psbt_fixture,
    receiver_proposal, receiver_script, require_v1, run_receiver, run_sender, run_v2_probe,
    sender_request, shortid_of, transaction_counts, try_run_sender, ShortId,
};
use payjoin_harness::transport::Transport;

/// A transport whose `recv` hands back bytes from a preloaded queue, at most
/// `chunk_size` bytes per call, and records everything passed to `send`.
struct QueueTransport {
    to_read: VecDeque<u8>,
    chunk_size: usize,
    written: Vec<u8>,
}

impl QueueTransport {
    fn preloaded(bytes: &[u8], chunk_size: usize) -> Self {
        Self { to_read: bytes.iter().copied().collect(), chunk_size, written: Vec::new() }
    }
}

impl Transport for QueueTransport {
    type Error = Infallible;

    fn send(&mut self, bytes: &[u8]) -> Result<(), Self::Error> {
        self.written.extend_from_slice(bytes);
        Ok(())
    }

    fn recv(&mut self, buf: &mut [u8]) -> Result<usize, Self::Error> {
        assert!(!self.to_read.is_empty(), "nothing is left to read");
        let n = buf.len().min(self.chunk_size).min(self.to_read.len());
        for slot in buf.iter_mut().take(n) {
            *slot = self.to_read.pop_front().unwrap();
        }
        Ok(n)
    }
}

/// A transport that follows a script of reads, and fails to send on demand.
struct ScriptTransport {
    reads: VecDeque<Result<Vec<u8>, &'static str>>,
    send_error: Option<&'static str>,
    sends: usize,
}

impl ScriptTransport {
    fn new(reads: Vec<Result<Vec<u8>, &'static str>>) -> Self {
        Self { reads: reads.into_iter().collect(), send_error: None, sends: 0 }
    }
}

impl Transport for ScriptTransport {
    type Error = &'static str;

    fn send(&mut self, _bytes: &[u8]) -> Result<(), Self::Error> {
        self.sends += 1;
        match self.send_error {
            Some(e) => Err(e),
            None => Ok(()),
        }
    }

    fn recv(&mut self, buf: &mut [u8]) -> Result<usize, Self::Error> {
        let bytes = self.reads.pop_front().expect("the script has no more reads")?;
        buf[..bytes.len()].copy_from_slice(&bytes);
        Ok(bytes.len())
    }
}

fn encode_frame(command: Command, payload: &[u8]) -> Vec<u8> {
    let mut scratch = vec![0u8; payload.len() + FRAME_OVERHEAD];
    let written = encode(command, payload, &mut scratch).unwrap();
    scratch[..written].to_vec()
}

#[test]
fn recv_frame_reassembles_across_short_reads() {
    let bytes = encode_frame(Command::OriginalPsbt, b"hello device");
    let mut transport = QueueTransport::preloaded(&bytes, 1); // 1 byte per recv() call

    let mut read_buf = [0u8; 64];
    let mut filled = 0usize;
    let (command, payload) = recv_frame(&mut transport, &mut read_buf, &mut filled).unwrap();
    assert_eq!(command, Command::OriginalPsbt);
    assert_eq!(payload, b"hello device");
}

#[test]
fn recv_frame_does_not_corrupt_payload_when_a_second_frame_is_already_buffered() {
    let mut both = encode_frame(Command::OutRequest, b"first");
    both.extend(encode_frame(Command::Status, &[0x00]));
    // One read hands back both frames at once.
    let mut transport = QueueTransport::preloaded(&both, 1024);

    let mut read_buf = [0u8; 64];
    let mut filled = 0usize;

    let (command, payload) = recv_frame(&mut transport, &mut read_buf, &mut filled).unwrap();
    assert_eq!(command, Command::OutRequest);
    assert_eq!(payload, b"first");

    let (command, _) = recv_frame(&mut transport, &mut read_buf, &mut filled).unwrap();
    assert_eq!(command, Command::Status);
}

#[test]
fn recv_frame_reports_payload_too_large_when_buffer_fills_without_a_frame() {
    // A buffer that no complete frame fits in.
    let mut transport = QueueTransport::preloaded(&[0xAA; 16], 16);
    let mut read_buf = [0u8; 4];
    let mut filled = 0usize;

    let err = recv_frame(&mut transport, &mut read_buf, &mut filled).unwrap_err();
    assert!(matches!(err, HarnessError::Framing(DecodeError::PayloadTooLarge)));
}

#[test]
fn send_frame_writes_a_well_formed_frame() {
    let mut transport = QueueTransport::preloaded(&[], 0);
    let mut scratch = [0u8; 64];
    send_frame(&mut transport, Command::SignedPsbt, b"proposal bytes", &mut scratch).unwrap();

    let (frame, consumed) = decode(&transport.written).unwrap();
    assert_eq!(consumed, transport.written.len());
    assert_eq!(frame.command, Command::SignedPsbt);
    assert_eq!(frame.payload, b"proposal bytes");
}

#[test]
fn v2_shortid_round_trip_over_transport() {
    let seed = b"payjoin-blackpill-test";
    let host_frame = encode_frame(Command::OriginalPsbt, seed);
    let mut transport = QueueTransport::preloaded(&host_frame, 1024);

    let encoded = run_v2_probe(&mut transport).unwrap();

    let expected = shortid_of(seed);
    assert_eq!(encoded, expected.to_string());

    // The text reads back as the same id.
    let decoded: ShortId = encoded.parse().expect("encoded id should parse back");
    assert_eq!(decoded, expected);

    // And that text is what went out over the wire.
    let (frame, _) = decode(&transport.written).unwrap();
    assert_eq!(frame.command, Command::SignedPsbt);
    assert_eq!(frame.payload, encoded.as_bytes());
}

#[test]
fn v2_mailbox_id_is_nonempty() {
    let id = shortid_of(b"ohttp-keys-hash");
    assert!(!id.to_string().is_empty());
}

#[test]
fn v2_probe_rejects_wrong_command() {
    let host_frame = encode_frame(Command::Status, &[0x00]);
    let mut transport = QueueTransport::preloaded(&host_frame, 1024);

    let err = run_v2_probe(&mut transport).unwrap_err();
    assert!(matches!(err, HarnessError::UnexpectedCommand));
}

/// Splits a full request URL into its query string.
fn query_of(url: &str) -> &str {
    url.split('?').nth(1).unwrap_or("")
}

/// The query string of the request that the sender role makes of the fixture.
fn fixture_query(original: &Psbt, payee: &str) -> String {
    let pj_param = match PjParam::parse("https://example.com/").unwrap() {
        PjParam::V1(v1_param) => v1_param,
        _ => panic!("expected a v1 PjParam"),
    };
    let payee = Address::from_str(payee).unwrap().assume_checked();
    let probe_sender = SenderBuilder::from_parts(original.clone(), &pj_param, &payee, None)
        .build_with_additional_fee(Amount::from_sat(182), Some(0), FeeRate::ZERO, true)
        .unwrap();
    let (probe_request, _) = probe_sender.create_v1_post_request();
    query_of(&probe_request.url).to_string()
}

#[test]
fn v1_round_trip_over_real_transport() {
    let (original_psbt, receiver_address) = original_psbt_fixture();
    let original = Psbt::deserialize(&original_psbt).unwrap();
    let payee_script = original.unsigned_tx.output[1].script_pubkey.to_bytes();
    let query = fixture_query(&original, &receiver_address);

    // The sender's request, re-tagged on the way to the receiver.
    let request =
        sender_request(&original_psbt, "https://example.com/", &receiver_address, 182).unwrap();
    let relayed = encode_frame(Command::OriginalPsbt, &request);
    let mut receiver = QueueTransport::preloaded(&relayed, 7);
    let proposal_psbt =
        run_receiver(&mut receiver, &query, |script: &[u8]| script == payee_script)
            .expect("run_receiver failed");

    // The receiver's proposal, re-tagged on the way back.
    let (frame, _) = decode(&receiver.written).unwrap();
    assert_eq!(frame.command, Command::SignedPsbt);
    let response = encode_frame(Command::InResponse, frame.payload);
    let mut sender = QueueTransport::preloaded(&response, 13);
    let final_psbt =
        run_sender(&mut sender, &original_psbt, "https://example.com/", &receiver_address, 182)
            .expect("run_sender failed");

    assert_eq!(final_psbt, proposal_psbt);
    assert!(Psbt::deserialize(&final_psbt).unwrap().unsigned_tx.output.len() >= 2);

    // What the sender put on the wire is the request that was relayed.
    let (frame, consumed) = decode(&sender.written).unwrap();
    assert_eq!(frame.command, Command::OutRequest);
    assert_eq!(frame.payload, request);
    assert_eq!(consumed, sender.written.len());
}

#[test]
fn untranslated_wiring_is_refused_both_ways() {
    let (original_psbt, receiver_address) = original_psbt_fixture();
    let request =
        sender_request(&original_psbt, "https://example.com/", &receiver_address, 182).unwrap();
    let script = receiver_script();
    let mut receiver =
        QueueTransport::preloaded(&encode_frame(Command::OutRequest, &request), 1024);
    let err = run_receiver(&mut receiver, "", |s: &[u8]| s == script).unwrap_err();
    assert!(matches!(err, HarnessError::UnexpectedCommand));
    assert!(receiver.written.is_empty());

    let mut sender = QueueTransport::preloaded(&encode_frame(Command::SignedPsbt, b"x"), 1024);
    let err =
        run_sender(&mut sender, &original_psbt, "https://example.com/", &receiver_address, 182)
            .unwrap_err();
    assert!(matches!(err, HarnessError::UnexpectedCommand));
}

#[test]
fn parts_of_the_roles_work_under_other_tags() {
    // A tool without a host in between speaks the other side's tags.
    let (original_psbt, receiver_address) = original_psbt_fixture();
    let script = receiver_script();
    let request =
        sender_request(&original_psbt, "https://example.com/", &receiver_address, 182).unwrap();
    let mut board = QueueTransport::preloaded(&encode_frame(Command::OutRequest, &request), 64);
    let body = await_frame(&mut board, Command::OutRequest).unwrap();
    let proposal = receiver_proposal(&body, "", &|s: &[u8]| s == script);
    let proposal = answer(&mut board, Command::InResponse, proposal).unwrap();
    let (frame, _) = decode(&board.written).unwrap();
    assert_eq!(frame.command, Command::InResponse);

    let accepted = judge_response(
        &original_psbt,
        "https://example.com/",
        &receiver_address,
        182,
        frame.payload,
    )
    .unwrap();
    assert_eq!(accepted, proposal);
}

#[test]
fn fixture_is_exact() {
    let (bytes, address) = original_psbt_fixture();
    let psbt = Psbt::deserialize(&bytes).unwrap();
    assert_eq!(psbt.serialize(), bytes);
    let tx = &psbt.unsigned_tx;
    assert_eq!(tx.version, bitcoin::transaction::Version::TWO);
    assert_eq!(tx.lock_time, bitcoin::absolute::LockTime::ZERO);
    assert_eq!(tx.input.len(), 1);
    assert_eq!(tx.input[0].previous_output.txid.to_string(), "11".repeat(32));
    assert_eq!(tx.input[0].previous_output.vout, 0);
    assert_eq!(tx.input[0].sequence, bitcoin::Sequence::ENABLE_RBF_NO_LOCKTIME);
    assert!(tx.input[0].script_sig.is_empty());
    assert_eq!(tx.output.len(), 2);
    assert_eq!(tx.output[0].value, Amount::from_sat(90_000));
    assert_eq!(tx.output[1].value, Amount::from_sat(50_000));
    let mut sender_script = vec![0x00, 0x14];
    sender_script.extend([0x11; 20]);
    let mut payee_script = vec![0x00, 0x14];
    payee_script.extend([0x22; 20]);
    assert_eq!(tx.output[0].script_pubkey.to_bytes(), sender_script);
    assert_eq!(tx.output[1].script_pubkey.to_bytes(), payee_script);
    assert_eq!(receiver_script(), payee_script);
    let utxo = psbt.inputs[0].witness_utxo.as_ref().unwrap();
    assert_eq!(utxo.value, Amount::from_sat(150_000));
    assert_eq!(utxo.script_pubkey.to_bytes(), sender_script);
    assert_eq!(psbt.fee().unwrap(), Amount::from_sat(10_000));
    assert_eq!(address, "tb1qyg3zyg3zyg3zyg3zyg3zyg3zyg3zyg3zjuhu9x");
    let parsed = Address::from_str(&address).unwrap();
    assert!(parsed.is_valid_for_network(bitcoin::Network::Testnet));
    assert_eq!(parsed.assume_checked().script_pubkey().to_bytes(), payee_script);
}

#[test]
fn sender_request_is_the_outside_request() {
    let (bytes, address) = original_psbt_fixture();
    let request = sender_request(&bytes, "https://example.com/", &address, 182).unwrap();
    // The body is the original PSBT in base64: nothing in it needs clearing.
    let original = Psbt::deserialize(&bytes).unwrap();
    assert_eq!(request, original.to_string().as_bytes());
}

#[test]
fn endpoints_are_judged_before_anything_is_sent() {
    let (bytes, address) = original_psbt_fixture();
    let mut transport = QueueTransport::preloaded(&[], 0);
    let err = run_sender(&mut transport, &bytes, "not a url", &address, 182).unwrap_err();
    assert!(matches!(err, HarnessError::Payjoin(text) if text.starts_with("invalid endpoint: ")));
    let err = run_sender(&mut transport, &bytes, "http://example.com/", &address, 182).unwrap_err();
    assert!(matches!(err, HarnessError::Payjoin(text) if text.starts_with("invalid endpoint: ")));
    assert!(transport.written.is_empty());

    assert_eq!(require_v1(Ok(true)), Ok(()));
    assert_eq!(require_v1(Ok(false)), Err("endpoint is not a v1 payjoin URI".to_string()));
    assert_eq!(require_v1(Err("E".to_string())), Err("invalid endpoint: E".to_string()));
}

#[test]
fn sender_refuses_what_is_no_psbt_or_no_address() {
    let (bytes, address) = original_psbt_fixture();
    assert!(sender_request(b"junk", "https://example.com/", &address, 182).is_err());
    assert!(sender_request(&bytes, "https://example.com/", "junk", 182).is_err());
    // The change output is not the payee's: the sender's own address is refused.
    let sender_script = Psbt::deserialize(&bytes).unwrap().unsigned_tx.output[0].clone();
    let own = Address::from_script(&sender_script.script_pubkey, bitcoin::Network::Testnet)
        .unwrap()
        .to_string();
    assert!(sender_request(&bytes, "https://example.com/", &own, 182).is_err());
}

#[test]
fn sender_refuses_a_response_that_is_not_base64() {
    let (bytes, address) = original_psbt_fixture();
    // The raw PSBT instead of its text.
    let mut transport =
        QueueTransport::preloaded(&encode_frame(Command::InResponse, &bytes), 1024);
    let err =
        run_sender(&mut transport, &bytes, "https://example.com/", &address, 182).unwrap_err();
    assert!(matches!(err, HarnessError::Payjoin(_)));
}

#[test]
fn fees_beyond_bounds_are_not_run() {
    let (bytes, address) = original_psbt_fixture();
    assert!(original_fee_in_range(&bytes));
    assert!(original_fee_in_range(b"junk"));

    let mut psbt = Psbt::deserialize(&bytes).unwrap();
    let utxo = psbt.inputs[0].witness_utxo.as_mut().unwrap();
    utxo.value = Amount::from_sat(140_000 + MAX_ORIGINAL_FEE);
    assert!(original_fee_in_range(&psbt.serialize()));
    let utxo = psbt.inputs[0].witness_utxo.as_mut().unwrap();
    utxo.value = Amount::from_sat(140_001 + MAX_ORIGINAL_FEE);
    let rich = psbt.serialize();
    assert!(!original_fee_in_range(&rich));

    let mut transport = QueueTransport::preloaded(&[], 0);
    assert!(try_run_sender(&mut transport, &rich, "https://example.com/", &address, 182).is_none());
    assert!(transport.written.is_empty());
    // Where no request is made, the fee does not matter.
    for psbt in [&bytes, &rich] {
        let run = try_run_sender(&mut transport, psbt, "junk", &address, 182);
        assert!(matches!(run, Some(Err(HarnessError::Payjoin(t))) if t.starts_with("invalid endpoint: ")));
        let run = try_run_sender(&mut transport, psbt, "https://example.com/", "junk", 182);
        assert!(matches!(run, Some(Err(HarnessError::Payjoin(_)))));
        let err = run_sender(&mut transport, psbt, "junk", &address, 182).unwrap_err();
        assert!(matches!(err, HarnessError::Payjoin(_)));
        let err = judge_response(psbt, "junk", &address, 182, b"").unwrap_err();
        assert!(err.starts_with("invalid endpoint: "));
    }
    assert!(transport.written.is_empty());
}

#[test]
fn receiver_looks_at_each_output_once_and_in_order() {
    let (bytes, address) = original_psbt_fixture();
    let request = sender_request(&bytes, "https://example.com/", &address, 182).unwrap();
    let asked = std::cell::RefCell::new(Vec::new());
    let script = receiver_script();
    let proposal = receiver_proposal(&request, "", &|s: &[u8]| {
        asked.borrow_mut().push(s.to_vec());
        s == script
    })
    .unwrap();
    let original = Psbt::deserialize(&bytes).unwrap();
    let scripts: Vec<Vec<u8>> =
        original.unsigned_tx.output.iter().map(|o| o.script_pubkey.to_bytes()).collect();
    assert_eq!(*asked.borrow(), scripts);
    // The original transaction is proposed as it is.
    assert_eq!(Psbt::deserialize(&proposal).unwrap().unsigned_tx, original.unsigned_tx);
}

#[test]
fn receiver_that_is_paid_nothing_refuses() {
    let (bytes, address) = original_psbt_fixture();
    let request = sender_request(&bytes, "https://example.com/", &address, 182).unwrap();
    let mut transport =
        QueueTransport::preloaded(&encode_frame(Command::OriginalPsbt, &request), 1024);
    let err = run_receiver(&mut transport, "", |_: &[u8]| false).unwrap_err();
    assert!(matches!(err, HarnessError::Payjoin(text) if text.contains("MissingPayment")));
    assert!(transport.written.is_empty());
}

#[test]
fn receiver_refuses_a_body_that_is_no_request() {
    let never_asked = |_: &[u8]| panic!("no output is there to ask about");
    assert!(receiver_proposal(b"junk", "", &never_asked).is_err());
    let (bytes, address) = original_psbt_fixture();
    let request = sender_request(&bytes, "https://example.com/", &address, 182).unwrap();
    // A protocol version that is not supported.
    assert!(receiver_proposal(&request, "v=7", &never_asked).is_err());
}

#[test]
fn marks_follow_the_answers() {
    let scripts = vec![vec![1u8], vec![2, 2], vec![1]];
    assert_eq!(mark_outputs(&scripts, &|s: &[u8]| s == [1]), [true, false, true]);
    assert!(mark_outputs(&Vec::new(), &|_: &[u8]| true).is_empty());
}

#[test]
fn proposals_go_out_as_base64() {
    let cases: [(&[u8], &[u8]); 6] = [
        (b"", b""),
        (b"f", b"Zg=="),
        (b"fo", b"Zm8="),
        (b"foo", b"Zm9v"),
        (b"foob", b"Zm9vYg=="),
        (&[0xFB, 0xFF, 0xBF], b"+/+/"),
    ];
    for (proposal, text) in cases {
        let mut transport = QueueTransport::preloaded(&[], 0);
        let sent = answer(&mut transport, Command::SignedPsbt, Ok(proposal.to_vec())).unwrap();
        assert_eq!(sent, proposal);
        let (frame, _) = decode(&transport.written).unwrap();
        assert_eq!((frame.command, frame.payload), (Command::SignedPsbt, text));
    }
    let mut transport = QueueTransport::preloaded(&[], 0);
    let err = answer(&mut transport, Command::SignedPsbt, Err("E".to_string())).unwrap_err();
    assert!(matches!(err, HarnessError::Payjoin(text) if text == "E"));
    assert!(transport.written.is_empty());
}

#[test]
fn proposals_that_no_frame_holds_are_not_sent() {
    for (len, fits) in [(3072, true), (3073, false), (4096, false), (4097, false)] {
        let mut transport = QueueTransport::preloaded(&[], 0);
        let result = answer(&mut transport, Command::SignedPsbt, Ok(vec![7u8; len]));
        if fits {
            assert_eq!(result.unwrap().len(), len);
            assert_eq!(transport.written.len(), MAX_PAYLOAD_LEN + FRAME_OVERHEAD);
        } else {
            let err = result.unwrap_err();
            assert!(
                matches!(err, HarnessError::Payjoin(text) if text == "failed to encode frame")
            );
            assert!(transport.written.is_empty());
        }
    }
}

#[test]
fn short_ids_are_exact() {
    // SHA-256 of the empty text begins with e3b0c44298fc1c14.
    let id = shortid_of(b"");
    assert_eq!(id.bytes, [0xe3, 0xb0, 0xc4, 0x42, 0x98, 0xfc, 0x1c, 0x14]);
    assert_eq!(id.to_string(), payjoin::directory::ShortId(id.bytes).to_string());
    assert_eq!(ShortId { bytes: [0; 8] }.to_string(), "QQQQQQQQQQQQQ");
    assert_eq!(ShortId { bytes: [0xFF; 8] }.to_string(), "LLLLLLLLLLLL7");
    assert_eq!(
        ShortId { bytes: [0, 0, 0, 0, 0, 0, 0, 1] }.to_string(),
        "QQQQQQQQQQQQZ"
    );
}

#[test]
fn short_ids_are_read_back() {
    for bytes in [[0u8; 8], [0xFF; 8], [1, 2, 3, 4, 5, 6, 7, 8]] {
        let id = ShortId { bytes };
        assert_eq!(id.to_string().len(), 13);
        assert_eq!(ShortId::from_str(&id.to_string()), Ok(id));
    }
    assert!(ShortId::from_str("").is_err());
    assert!(ShortId::from_str("QQQQ").is_err());
    assert!(ShortId::from_str("not an id").is_err());
}

#[test]
fn transactions_are_counted() {
    let (bytes, _) = original_psbt_fixture();
    assert_eq!(transaction_counts(&bytes), Ok((1, 2)));
    assert!(transaction_counts(b"junk").is_err());
}

#[test]
fn round_trip_keeps_the_transaction() {
    let (original_psbt, address) = original_psbt_fixture();
    let script = receiver_script();
    let request = sender_request(&original_psbt, "https://example.com/", &address, 182).unwrap();
    let mut receiver =
        QueueTransport::preloaded(&encode_frame(Command::OriginalPsbt, &request), 64);
    let proposal = run_receiver(&mut receiver, "", |s: &[u8]| s == script).unwrap();
    let (frame, _) = decode(&receiver.written).unwrap();
    let response = encode_frame(Command::InResponse, frame.payload);
    let mut sender = QueueTransport::preloaded(&response, 64);
    let accepted =
        run_sender(&mut sender, &original_psbt, "https://example.com/", &address, 182).unwrap();
    let tx = |psbt: &[u8]| Psbt::deserialize(psbt).unwrap().unsigned_tx;
    assert_eq!(tx(&accepted), tx(&original_psbt));
    assert_eq!(tx(&proposal), tx(&original_psbt));
}

#[test]
fn fixed_headers() {
    let headers = FixedHeaders::for_body(&[0u8; 1234]);
    assert_eq!(headers.lookup("content-length"), Some("1234"));
    assert_eq!(headers.lookup("content-type"), Some("text/plain"));
    assert_eq!(headers.lookup("Content-Type"), None);
    assert_eq!(headers.lookup("host"), None);
    use_as_headers(headers);
}

fn use_as_headers(headers: impl payjoin::receive::v1::Headers) {
    assert_eq!(headers.get_header("content-length"), Some("1234"));
    assert_eq!(headers.get_header("other"), None);
}

#[test]
fn empty_reads_mean_try_again() {
    let frame = encode_frame(Command::Status, b"ok");
    let (a, b) = frame.split_at(4);
    let mut transport = ScriptTransport::new(vec![
        Ok(vec![]),
        Ok(a.to_vec()),
        Ok(vec![]),
        Ok(vec![]),
        Ok(b.to_vec()),
    ]);
    let mut read_buf = [0u8; 64];
    let mut filled = 0usize;
    let (command, payload) = recv_frame(&mut transport, &mut read_buf, &mut filled).unwrap();
    assert_eq!((command, payload.as_slice()), (Command::Status, &b"ok"[..]));
    assert_eq!(filled, 0);
}

#[test]
fn failed_reads_keep_what_was_read() {
    let frame = encode_frame(Command::Status, b"ok");
    let (a, b) = frame.split_at(3);
    let mut transport =
        ScriptTransport::new(vec![Ok(a.to_vec()), Err("unplugged"), Ok(b.to_vec())]);
    let mut read_buf = [0u8; 64];
    let mut filled = 0usize;
    let err = recv_frame(&mut transport, &mut read_buf, &mut filled).unwrap_err();
    assert!(matches!(err, HarnessError::Transport("unplugged")));
    assert_eq!(filled, 3);
    let (command, payload) = recv_frame(&mut transport, &mut read_buf, &mut filled).unwrap();
    assert_eq!((command, payload.as_slice()), (Command::Status, &b"ok"[..]));
}

#[test]
fn framing_errors_consume_nothing() {
    let mut frame = encode_frame(Command::Status, b"ok");
    frame[3] ^= 1;
    let mut transport = ScriptTransport::new(vec![Ok(frame.clone())]);
    let mut read_buf = [0u8; 64];
    let mut filled = 0usize;
    for _ in 0..2 {
        let err = recv_frame(&mut transport, &mut read_buf, &mut filled).unwrap_err();
        assert!(matches!(err, HarnessError::Framing(DecodeError::CrcMismatch)));
        assert_eq!(read_buf[..filled], frame);
    }
}

#[test]
fn frames_are_read_in_order_however_they_are_cut() {
    let frames: [(Command, &[u8]); 4] = [
        (Command::InitKeys, b"keys"),
        (Command::OutRequest, b""),
        (Command::SignedPsbt, b"a longer payload than the others have"),
        (Command::Status, &[0x00]),
    ];
    let mut stream = Vec::new();
    for (command, payload) in frames {
        stream.extend(encode_frame(command, payload));
    }
    for chunk_size in 1..=stream.len() {
        let mut transport = QueueTransport::preloaded(&stream, chunk_size);
        let mut read_buf = [0u8; 64];
        let mut filled = 0usize;
        for (command, payload) in frames {
            let (c, p) = recv_frame(&mut transport, &mut read_buf, &mut filled).unwrap();
            assert_eq!((c, p.as_slice()), (command, payload));
        }
        assert_eq!(filled, 0);
        assert!(transport.to_read.is_empty());
    }
}

#[test]
fn sending_reports_what_went_wrong() {
    let mut transport = ScriptTransport::new(vec![]);
    let mut scratch = [0u8; 6];
    let err = send_frame(&mut transport, Command::Status, b"hi", &mut scratch).unwrap_err();
    assert!(matches!(err, HarnessError::Payjoin(text) if text == "failed to encode frame"));
    let payload = vec![0u8; MAX_PAYLOAD_LEN + 1];
    let err = send_reply(&mut transport, Command::Status, &payload).unwrap_err();
    assert!(matches!(err, HarnessError::Payjoin(text) if text == "failed to encode frame"));
    assert_eq!(transport.sends, 0);

    transport.send_error = Some("unplugged");
    let err = send_frame(&mut transport, Command::Status, b"h", &mut scratch).unwrap_err();
    assert!(matches!(err, HarnessError::Transport("unplugged")));
    assert_eq!(transport.sends, 1);
}

#[test]
fn scratch_holds_the_frame_that_was_sent() {
    let mut transport = ScriptTransport::new(vec![]);
    let mut scratch = [0xAAu8; 10];
    send_frame(&mut transport, Command::Status, b"hi", &mut scratch).unwrap();
    assert_eq!(scratch[..7], encode_frame(Command::Status, b"hi"));
    assert_eq!(scratch[7..], [0xAA; 3]);
    let kept = scratch;
    assert!(send_frame(&mut transport, Command::Status, b"too long", &mut scratch).is_err());
    assert_eq!(scratch, kept);
}

#[test]
fn exchanges_send_first_and_take_only_the_due_response() {
    let reply = encode_frame(Command::InResponse, b"pong");
    let mut transport = QueueTransport::preloaded(&reply, 2);
    let got =
        exchange(&mut transport, Command::OutRequest, b"ping", Command::InResponse).unwrap();
    assert_eq!(got, b"pong");
    assert_eq!(transport.written, encode_frame(Command::OutRequest, b"ping"));

    let mut transport = QueueTransport::preloaded(&reply, 64);
    let err = await_frame(&mut transport, Command::OriginalPsbt).unwrap_err();
    assert!(matches!(err, HarnessError::UnexpectedCommand));
}
