//! The payjoin roles that a board plays: the version 1 sender, the version 1
//! receiver, and the version 2 probe.
use std::str::FromStr;

use vstd::prelude::*;
use vstd::string::StringExecFns;
use vstd::utf8;

use crate::bip78;
use crate::bip78::FixedHeaders;
use crate::device;
use crate::device::{Failure, HarnessError};
use crate::proto::{Command, MAX_PAYLOAD_LEN};
use crate::text;
use crate::transport;
use crate::transport::{Event, Transport};

verus! {

/// What is made of a parsed endpoint: it has to be one of version 1.
pub open spec fn v1_only(parsed: Result<bool, Seq<char>>) -> Result<(), Seq<char>> {
    match parsed {
        Ok(true) => Ok(()),
        Ok(false) => Err("endpoint is not a v1 payjoin URI"@),
        Err(text) => Err("invalid endpoint: "@ + text),
    }
}

/// Refuses a parsed endpoint that is not one of version 1.
pub fn require_v1(parsed: Result<bool, String>) -> (result: Result<(), String>)
    ensures
        bip78::text_error(result) == v1_only(bip78::text_error(parsed)),
{
    match parsed {
        Ok(true) => Ok(()),
        Ok(false) => Err("endpoint is not a v1 payjoin URI".to_owned()),
        Err(text) => {
            let mut message = "invalid endpoint: ".to_owned();
            message.append(text.as_str());
            Err(message)
        },
    }
}

/// The request that a sender makes: the PSBT may pay any amount, any additional
/// fee comes out of the first output, no minimum fee rate is asked for, and a fee
/// that the output cannot pay is lowered to what it can.
pub open spec fn sender_request_of(
    original: Seq<u8>,
    endpoint: Seq<char>,
    payee: Seq<char>,
    max_fee: u64,
) -> Result<Seq<u8>, Seq<char>> {
    match v1_only(bip78::endpoint_is_v1(endpoint)) {
        Ok(()) => bip78::v1_request_body(
            original,
            endpoint,
            payee,
            None,
            max_fee,
            Some(0),
            0,
            true,
        ),
        Err(text) => Err(text),
    }
}

/// What a sender makes of the response to that request. Where there is no
/// request, that is why there is no verdict.
pub open spec fn sender_verdict(
    original: Seq<u8>,
    endpoint: Seq<char>,
    payee: Seq<char>,
    max_fee: u64,
    response: Seq<u8>,
) -> Result<Seq<u8>, Seq<char>> {
    match sender_request_of(original, endpoint, payee, max_fee) {
        Ok(_) => bip78::v1_response_psbt(
            original,
            endpoint,
            payee,
            None,
            max_fee,
            Some(0),
            0,
            true,
            response,
        ),
        Err(text) => Err(text),
    }
}

/// Whether the fee of the original PSBT is within bounds, where a request is made
/// of it at all.
pub open spec fn judgeable(
    original: Seq<u8>,
    endpoint: Seq<char>,
    payee: Seq<char>,
    max_fee: u64,
) -> bool {
    sender_request_of(original, endpoint, payee, max_fee) is Ok ==> bip78::fee_in_range(original)
}

/// Makes the request of a sender that has this original PSBT.
pub fn sender_request(original_psbt: &[u8], endpoint: &str, payee: &str, max_additional_fee: u64) -> (result:
    Result<Vec<u8>, String>)
    ensures
        bip78::bytes_or_text(result) == sender_request_of(
            original_psbt@,
            endpoint@,
            payee@,
            max_additional_fee,
        ),
        result matches Ok(body) ==> bip78::carries_transaction(body@, original_psbt@),
        bip78::made_only_of_payment(
            original_psbt@,
            payee@,
            None,
            Some(0),
            bip78::bytes_or_text(result),
        ),
        bip78::made_where_suited(
            original_psbt@,
            endpoint@,
            payee@,
            None,
            Some(0),
            true,
            bip78::bytes_or_text(result),
        ),
        bip78::endpoint_is_v1(endpoint@) == Ok::<bool, Seq<char>>(true)
            ==> bip78::made_for_any_amount(
            original_psbt@,
            endpoint@,
            payee@,
            max_additional_fee,
            Some(0),
            0,
            true,
            bip78::bytes_or_text(result),
        ),
        match bip78::endpoint_is_v1(endpoint@) {
            Ok(true) => bip78::bytes_or_text(result) == bip78::v1_request_body(
                original_psbt@,
                endpoint@,
                payee@,
                None,
                max_additional_fee,
                Some(0),
                0,
                true,
            ),
            Ok(false) => result matches Err(text) && text@ == "endpoint is not a v1 payjoin URI"@,
            Err(cause) => result matches Err(text) && text@ == "invalid endpoint: "@ + cause,
        },
{
    match require_v1(bip78::parse_endpoint(endpoint)) {
        Ok(()) => bip78::build_v1_request(
            original_psbt,
            endpoint,
            payee,
            None,
            max_additional_fee,
            Some(0),
            0,
            true,
        ),
        Err(text) => Err(text),
    }
}

/// The sender role, once its request is made or could not be made: the request
/// goes out, the response comes in, and `verdict` says what is made of that.
pub open spec fn sender_run<E>(
    request: Result<Seq<u8>, Seq<char>>,
    verdict: spec_fn(Seq<u8>) -> Result<Seq<u8>, Seq<char>>,
    events: Seq<Event<E>>,
) -> Option<(Result<Seq<u8>, Failure<E>>, Seq<Event<E>>)> {
    match request {
        Err(text) => Some((Err(Failure::Payjoin(text)), events)),
        Ok(body) => match device::exchanged(
            Command::OutRequest,
            body,
            Command::InResponse,
            events,
        ) {
            None => None,
            Some((Err(e), rest)) => Some((Err(e), rest)),
            Some((Ok(response), rest)) => Some(
                (
                    match verdict(response) {
                        Ok(psbt) => Ok(psbt),
                        Err(text) => Err(Failure::Payjoin(text)),
                    },
                    rest,
                ),
            ),
        },
    }
}

/// Whether the fee of an original PSBT, where it has one, is at most
/// [`bip78::MAX_ORIGINAL_FEE`].
pub fn original_fee_in_range(original_psbt: &[u8]) -> (in_range: bool)
    ensures
        in_range == bip78::fee_in_range(original_psbt@),
{
    match bip78::fee_of(original_psbt) {
        Ok(fee) => fee <= bip78::MAX_ORIGINAL_FEE,
        Err(_) => true,
    }
}

/// Judges the response to the request of a sender that has this original PSBT,
/// and returns the PSBT that is to be signed.
pub fn judge_response(
    original_psbt: &[u8],
    endpoint: &str,
    payee: &str,
    max_additional_fee: u64,
    response: &[u8],
) -> (result: Result<Vec<u8>, String>)
    requires
        judgeable(original_psbt@, endpoint@, payee@, max_additional_fee),
        response@.len() <= MAX_PAYLOAD_LEN,
    ensures
        bip78::bytes_or_text(result) == sender_verdict(
            original_psbt@,
            endpoint@,
            payee@,
            max_additional_fee,
            response@,
        ),
        result matches Ok(psbt) ==> bip78::keeps_transaction(response@, psbt@),
        bip78::original_is_accepted(
            original_psbt@,
            endpoint@,
            payee@,
            None,
            Some(0),
            0,
            true,
            response@,
            bip78::bytes_or_text(result),
        ),
        sender_request_of(original_psbt@, endpoint@, payee@, max_additional_fee) is Ok
            ==> bip78::bytes_or_text(result) == bip78::v1_response_psbt(
            original_psbt@,
            endpoint@,
            payee@,
            None,
            max_additional_fee,
            Some(0),
            0,
            true,
            response@,
        ),
{
    match sender_request(original_psbt, endpoint, payee, max_additional_fee) {
        Ok(_) => bip78::process_v1_response(
            original_psbt,
            endpoint,
            payee,
            None,
            max_additional_fee,
            Some(0),
            0,
            true,
            response,
        ),
        Err(text) => Err(text),
    }
}

/// Whether the request of a sender is the base64 text of its original PSBT, where
/// that is plain, its payee is paid once, and not by the first output, whatever
/// the amount.
pub open spec fn plain_payment_is_requested(
    original: Seq<u8>,
    endpoint: Seq<char>,
    payee: Seq<char>,
    max_fee: u64,
) -> bool {
    bip78::made_where_suited(
        original,
        endpoint,
        payee,
        None,
        Some(0),
        true,
        sender_request_of(original, endpoint, payee, max_fee),
    )
}

/// Whether such a sender, where its own PSBT comes back as the response, accepts
/// it as it is.
pub open spec fn plain_payment_is_accepted<E>(
    original: Seq<u8>,
    endpoint: Seq<char>,
    payee: Seq<char>,
    max_fee: u64,
    events: Seq<Event<E>>,
) -> bool {
    sender_request_of(original, endpoint, payee, max_fee) matches Ok(body) ==> (device::exchanged(
        Command::OutRequest,
        body,
        Command::InResponse,
        events,
    ) matches Some((Ok(response), rest)) ==> bip78::original_is_accepted(
        original,
        endpoint,
        payee,
        None,
        Some(0),
        0,
        true,
        response,
        sender_verdict(original, endpoint, payee, max_fee, response),
    ))
}

/// Whether `psbt` is of the transaction that the response to a sender's request
/// proposes.
pub open spec fn follows_response<E>(
    request: Result<Seq<u8>, Seq<char>>,
    events: Seq<Event<E>>,
    psbt: Seq<u8>,
) -> bool {
    request matches Ok(body) && (device::exchanged(
        Command::OutRequest,
        body,
        Command::InResponse,
        events,
    ) matches Some((Ok(response), rest)) && bip78::keeps_transaction(response, psbt))
}

/// Runs the sender role: makes a payjoin request of `original_psbt`, hands it
/// to the host, waits for the response that the host brings back, and returns
/// the PSBT that is to be signed.
///
/// `endpoint` is the payjoin endpoint, and `payee` the address that the PSBT
/// pays. Nothing here touches the network: the host delivers the bytes.
pub fn run_sender<T: Transport>(
    transport: &mut T,
    original_psbt: &[u8],
    endpoint: &str,
    payee: &str,
    max_additional_fee: u64,
) -> (result: Result<Vec<u8>, HarnessError<T::Error>>)
    requires
        judgeable(original_psbt@, endpoint@, payee@, max_additional_fee),
    ensures
        old(transport).log().is_prefix_of(final(transport).log()),
        sender_run(
            sender_request_of(original_psbt@, endpoint@, payee@, max_additional_fee),
            |response: Seq<u8>|
                sender_verdict(original_psbt@, endpoint@, payee@, max_additional_fee, response),
            transport::since(old(transport).log(), final(transport).log()),
        ) == Some((device::bytes_result(result), Seq::<Event<T::Error>>::empty())),
        sender_request_of(original_psbt@, endpoint@, payee@, max_additional_fee) matches Ok(body)
            ==> bip78::carries_transaction(body, original_psbt@),
        result matches Ok(psbt) ==> follows_response(
            sender_request_of(original_psbt@, endpoint@, payee@, max_additional_fee),
            transport::since(old(transport).log(), final(transport).log()),
            psbt@,
        ),
        plain_payment_is_requested(original_psbt@, endpoint@, payee@, max_additional_fee),
        plain_payment_is_accepted(
            original_psbt@,
            endpoint@,
            payee@,
            max_additional_fee,
            transport::since(old(transport).log(), final(transport).log()),
        ),
{
    let ghost log = transport.log();
    let request = match sender_request(original_psbt, endpoint, payee, max_additional_fee) {
        Ok(body) => body,
        Err(text) => {
            assert(transport::since(log, log) =~= Seq::empty());
            return Err(HarnessError::Payjoin(text));
        },
    };
    let response = match device::exchange(
        transport,
        Command::OutRequest,
        request.as_slice(),
        Command::InResponse,
    ) {
        Ok(response) => response,
        Err(e) => {
            return Err(e);
        },
    };
    match judge_response(
        original_psbt,
        endpoint,
        payee,
        max_additional_fee,
        response.as_slice(),
    ) {
        Ok(psbt) => Ok(psbt),
        Err(text) => Err(HarnessError::Payjoin(text)),
    }
}

/// Runs the sender role where the fee of the original PSBT is within bounds, or no
/// request is made of it; elsewhere returns `None` and leaves the link alone.
pub fn try_run_sender<T: Transport>(
    transport: &mut T,
    original_psbt: &[u8],
    endpoint: &str,
    payee: &str,
    max_additional_fee: u64,
) -> (result: Option<Result<Vec<u8>, HarnessError<T::Error>>>)
    ensures
        old(transport).log().is_prefix_of(final(transport).log()),
        result is None <==> !judgeable(
            original_psbt@,
            endpoint@,
            payee@,
            max_additional_fee,
        ),
        match result {
            None => *final(transport) == *old(transport),
            Some(run) => sender_run(
                sender_request_of(original_psbt@, endpoint@, payee@, max_additional_fee),
                |response: Seq<u8>|
                    sender_verdict(original_psbt@, endpoint@, payee@, max_additional_fee, response),
                transport::since(old(transport).log(), final(transport).log()),
            ) == Some((device::bytes_result(run), Seq::<Event<T::Error>>::empty())),
        },
        result is Some ==> plain_payment_is_requested(
            original_psbt@,
            endpoint@,
            payee@,
            max_additional_fee,
        ) && plain_payment_is_accepted(
            original_psbt@,
            endpoint@,
            payee@,
            max_additional_fee,
            transport::since(old(transport).log(), final(transport).log()),
        ),
{
    if original_fee_in_range(original_psbt) || sender_request(
        original_psbt,
        endpoint,
        payee,
        max_additional_fee,
    ).is_err() {
        Some(run_sender(transport, original_psbt, endpoint, payee, max_additional_fee))
    } else {
        None
    }
}

/// Whether `mark` is an answer that `owns` gives for `script`.
pub open spec fn answers<F: Fn(&[u8]) -> bool>(owns: F, script: Seq<u8>, mark: bool) -> bool {
    exists|slice: &[u8]| slice@ == script && call_ensures(owns, (slice,), mark)
}

/// Whether `owns` takes no output for the receiver's own.
pub open spec fn owns_nothing<F: Fn(&[u8]) -> bool>(owns: F) -> bool {
    forall|slice: &[u8], mark: bool| call_ensures(owns, (slice,), mark) ==> !mark
}

/// Whether `owns` takes an output with this script for the receiver's own,
/// whenever it is asked.
pub open spec fn takes_for_own<F: Fn(&[u8]) -> bool>(owns: F, script: Seq<u8>) -> bool {
    forall|slice: &[u8], mark: bool|
        slice@ == script && #[trigger] call_ensures(owns, (slice,), mark) ==> mark
}

/// Whether one of `scripts`, wherever it stands, is the receiver's own.
pub open spec fn pays_owner<F: Fn(&[u8]) -> bool>(owns: F, scripts: Seq<Seq<u8>>) -> bool {
    exists|i: int| 0 <= i < scripts.len() && #[trigger] takes_for_own(owns, scripts[i])
}

/// Whether `marks` are answers that `owns` gives for `scripts`, one for each.
pub open spec fn marked_by<F: Fn(&[u8]) -> bool>(
    owns: F,
    scripts: Seq<Seq<u8>>,
    marks: Seq<bool>,
) -> bool {
    &&& marks.len() == scripts.len()
    &&& forall|i: int| 0 <= i < marks.len() ==> answers(owns, scripts[i], #[trigger] marks[i])
}

/// Asks of each script whether it is the receiver's own.
pub fn mark_outputs<F: Fn(&[u8]) -> bool>(scripts: &Vec<Vec<u8>>, is_receiver_output: &F) -> (marks:
    Vec<bool>)
    requires
        forall|slice: &[u8]| call_requires(*is_receiver_output, (slice,)),
    ensures
        marked_by(*is_receiver_output, bip78::rows(scripts@), marks@),
{
    let mut marks: Vec<bool> = Vec::new();
    let mut i: usize = 0;
    while i < scripts.len()
        invariant
            i <= scripts@.len(),
            marks@.len() == i,
            forall|slice: &[u8]| call_requires(*is_receiver_output, (slice,)),
            forall|k: int|
                0 <= k < i ==> answers(
                    *is_receiver_output,
                    bip78::rows(scripts@)[k],
                    #[trigger] marks@[k],
                ),
        decreases scripts@.len() - i,
    {
        let script = scripts[i].as_slice();
        let mark: bool = is_receiver_output(script);
        assert(script@ == bip78::rows(scripts@)[i as int]);
        marks.push(mark);
        i = i + 1;
    }
    marks
}

/// The proposal that a receiver makes in answer to a request, where it takes the
/// marked outputs for its own. It knows none of the inputs, and sets no bounds
/// on fees.
pub open spec fn marked_proposal(body: Seq<u8>, query: Seq<char>, marks: Seq<bool>) -> Result<
    Seq<u8>,
    Seq<char>,
> {
    bip78::receiver_psbt(
        body,
        query,
        text::decimal_digits(body.len()),
        false,
        false,
        marks,
        None,
        None,
    )
}

/// Whether `proposal` is what a receiver that tells its own outputs by `owns`
/// makes of a request: it looks at each output of the original PSBT once, and
/// what it proposes is of the same transaction, with no input and no output of
/// its own.
pub open spec fn proposed<F: Fn(&[u8]) -> bool>(
    owns: F,
    body: Seq<u8>,
    query: Seq<char>,
    proposal: Result<Seq<u8>, Seq<char>>,
) -> bool {
    let scripts = bip78::request_output_scripts(
        body,
        query,
        text::decimal_digits(body.len()),
        false,
        false,
    );
    &&& bip78::plain_request_is_read(
        body,
        query,
        text::decimal_digits(body.len()),
        false,
        false,
        scripts,
    )
    &&& match scripts {
        Err(text) => proposal == Err::<Seq<u8>, Seq<char>>(text),
        Ok(scripts) => {
            &&& bip78::pays_scripts(body, scripts)
            &&& proposed_for(owns, scripts, body, query, proposal)
            &&& proposal matches Ok(psbt) ==> bip78::keeps_transaction(body, psbt)
            &&& pays_owner(owns, scripts) ==> proposal is Ok
            &&& bip78::plain_psbt_is_kept(body, proposal)
        },
    }
}

/// Whether `proposal` is what such a receiver makes of a request whose outputs
/// have these scripts.
pub open spec fn proposed_for<F: Fn(&[u8]) -> bool>(
    owns: F,
    scripts: Seq<Seq<u8>>,
    body: Seq<u8>,
    query: Seq<char>,
    proposal: Result<Seq<u8>, Seq<char>>,
) -> bool {
    exists|marks: Seq<bool>| #[trigger]
        marked_by(owns, scripts, marks) && proposal == marked_proposal(body, query, marks)
}

proof fn lemma_proposed<F: Fn(&[u8]) -> bool>(
    owns: F,
    body: Seq<u8>,
    query: Seq<char>,
    scripts: Seq<Seq<u8>>,
    marks: Seq<bool>,
)
    requires
        bip78::request_output_scripts(
            body,
            query,
            text::decimal_digits(body.len()),
            false,
            false,
        ) == Ok::<Seq<Seq<u8>>, Seq<char>>(scripts),
        bip78::plain_request_is_read(
            body,
            query,
            text::decimal_digits(body.len()),
            false,
            false,
            Ok(scripts),
        ),
        marked_by(owns, scripts, marks),
        bip78::pays_scripts(body, scripts),
        marked_proposal(body, query, marks) matches Ok(psbt) ==> bip78::keeps_transaction(
            body,
            psbt,
        ),
        pays_owner(owns, scripts) ==> marked_proposal(body, query, marks) is Ok,
        bip78::plain_psbt_is_kept(body, marked_proposal(body, query, marks)),
    ensures
        proposed(owns, body, query, marked_proposal(body, query, marks)),
{
    assert(proposed_for(owns, scripts, body, query, marked_proposal(body, query, marks)));
}

proof fn lemma_owner_is_marked<F: Fn(&[u8]) -> bool>(
    owns: F,
    scripts: Seq<Seq<u8>>,
    marks: Seq<bool>,
)
    requires
        pays_owner(owns, scripts),
        marked_by(owns, scripts, marks),
    ensures
        exists|i: int| 0 <= i < marks.len() && #[trigger] marks[i],
{
    let i = choose|i: int| 0 <= i < scripts.len() && #[trigger] takes_for_own(owns, scripts[i]);
    assert(answers(owns, scripts[i], marks[i]));
    assert(marks[i]);
}

/// Makes the proposal in answer to a request, or says why there is none. A
/// request that pays the receiver nothing is refused.
pub fn receiver_proposal<F: Fn(&[u8]) -> bool>(
    request_body: &[u8],
    query: &str,
    is_receiver_output: &F,
) -> (result: Result<Vec<u8>, String>)
    requires
        forall|slice: &[u8]| call_requires(*is_receiver_output, (slice,)),
    ensures
        proposed(*is_receiver_output, request_body@, query@, bip78::bytes_or_text(result)),
        owns_nothing(*is_receiver_output) ==> result is Err,
        match bip78::request_output_scripts(
            request_body@,
            query@,
            text::decimal_digits(request_body@.len()),
            false,
            false,
        ) {
            Ok(scripts) => pays_owner(*is_receiver_output, scripts) ==> result is Ok,
            Err(text) => bip78::bytes_or_text(result) == Err::<Seq<u8>, Seq<char>>(text),
        },
        bip78::plain_request_is_read(
            request_body@,
            query@,
            text::decimal_digits(request_body@.len()),
            false,
            false,
            bip78::request_output_scripts(
                request_body@,
                query@,
                text::decimal_digits(request_body@.len()),
                false,
                false,
            ),
        ),
        bip78::plain_psbt_is_kept(request_body@, bip78::bytes_or_text(result)),
{
    let headers = FixedHeaders::for_body(request_body);
    let scripts = match bip78::output_scripts(request_body, query, headers, false, false) {
        Ok(scripts) => scripts,
        Err(text) => {
            return Err(text);
        },
    };
    let marks = mark_outputs(&scripts, is_receiver_output);
    let result = bip78::build_proposal(
        request_body,
        query,
        FixedHeaders::for_body(request_body),
        false,
        false,
        marks.as_slice(),
        None,
        None,
    );
    proof {
        if pays_owner(*is_receiver_output, bip78::rows(scripts@)) {
            lemma_owner_is_marked(*is_receiver_output, bip78::rows(scripts@), marks@);
        }
        lemma_proposed(
            *is_receiver_output,
            request_body@,
            query@,
            bip78::rows(scripts@),
            marks@,
        );
    }
    result
}

/// The bytes in which a proposal is sent back: its base64 text, which is what
/// the sender's side reads.
pub open spec fn response_bytes(proposal: Seq<u8>) -> Seq<u8> {
    bip78::base64_bytes(proposal)
}

/// Sending a proposal back: what it comes to, and what the link does after it.
pub open spec fn answered<E>(
    response_command: Command,
    proposal: Result<Seq<u8>, Seq<char>>,
    events: Seq<Event<E>>,
) -> Option<(Result<Seq<u8>, Failure<E>>, Seq<Event<E>>)> {
    match proposal {
        Err(text) => Some((Err(Failure::Payjoin(text)), events)),
        Ok(psbt) => match device::frame_written(
            response_command,
            response_bytes(psbt),
            device::role_buffer(),
            events,
        ) {
            None => None,
            Some((Ok(()), rest)) => Some((Ok(psbt), rest)),
            Some((Err(e), rest)) => Some((Err(e), rest)),
        },
    }
}

/// Sends a proposal back, where there is one, and returns it.
pub fn answer<T: Transport>(
    transport: &mut T,
    response_command: Command,
    proposal: Result<Vec<u8>, String>,
) -> (result: Result<Vec<u8>, HarnessError<T::Error>>)
    ensures
        old(transport).log().is_prefix_of(final(transport).log()),
        answered(
            response_command,
            bip78::bytes_or_text(proposal),
            transport::since(old(transport).log(), final(transport).log()),
        ) == Some((device::bytes_result(result), Seq::<Event<T::Error>>::empty())),
{
    let ghost log = transport.log();
    assert(transport::since(log, log) =~= Seq::empty());
    let psbt = match proposal {
        Ok(psbt) => psbt,
        Err(text) => {
            return Err(HarnessError::Payjoin(text));
        },
    };
    proof {
        bip78::lemma_base64_length(psbt@);
    }
    if psbt.len() > MAX_PAYLOAD_LEN {
        return Err(HarnessError::Payjoin("failed to encode frame".to_owned()));
    }
    let text = bip78::encode_base64(psbt.as_slice());
    match device::send_reply(transport, response_command, text.as_str().as_bytes()) {
        Ok(()) => Ok(psbt),
        Err(e) => Err(e),
    }
}

/// The receiver role: `result` is what it comes to, where the link does `events`
/// and nothing else. The request comes in as the original PSBT, and the proposal
/// goes out as the signed PSBT.
pub open spec fn receiver_run<E, F: Fn(&[u8]) -> bool>(
    query: Seq<char>,
    owns: F,
    events: Seq<Event<E>>,
    result: Result<Seq<u8>, Failure<E>>,
) -> bool {
    match device::awaited(Command::OriginalPsbt, events) {
        None => false,
        Some((Err(e), rest)) => result == Err::<Seq<u8>, Failure<E>>(e) && rest.len() == 0,
        Some((Ok(body), rest)) => request_answered(query, owns, body, rest, result),
    }
}

/// What the receiver role does once it has a request: it makes a proposal and
/// sends it back.
pub open spec fn request_answered<E, F: Fn(&[u8]) -> bool>(
    query: Seq<char>,
    owns: F,
    body: Seq<u8>,
    events: Seq<Event<E>>,
    result: Result<Seq<u8>, Failure<E>>,
) -> bool {
    exists|proposal: Result<Seq<u8>, Seq<char>>| #[trigger]
        proposed(owns, body, query, proposal) && answered(Command::SignedPsbt, proposal, events)
            == Some((result, Seq::<Event<E>>::empty()))
}

/// Runs the receiver role: waits for the request that the host relays, makes a
/// proposal of it, and hands that back.
///
/// The policy is the simplest there is: the original PSBT is accepted as it is,
/// nothing is contributed and nothing is signed. `is_receiver_output` says of an
/// output's script whether it is the receiver's own.
pub fn run_receiver<T: Transport, F: Fn(&[u8]) -> bool>(
    transport: &mut T,
    query: &str,
    is_receiver_output: F,
) -> (result: Result<Vec<u8>, HarnessError<T::Error>>)
    requires
        forall|slice: &[u8]| call_requires(is_receiver_output, (slice,)),
    ensures
        old(transport).log().is_prefix_of(final(transport).log()),
        receiver_run(
            query@,
            is_receiver_output,
            transport::since(old(transport).log(), final(transport).log()),
            device::bytes_result(result),
        ),
        owns_nothing(is_receiver_output) ==> result is Err,
{
    let ghost start = transport.log();
    let request_body = match device::await_frame(transport, Command::OriginalPsbt) {
        Ok(body) => body,
        Err(e) => {
            return Err(e);
        },
    };
    let ghost middle = transport.log();
    let proposal = receiver_proposal(request_body.as_slice(), query, &is_receiver_output);
    let result = answer(transport, Command::SignedPsbt, proposal);
    proof {
        let more = transport::since(middle, transport.log());
        transport::lemma_since(start, middle, transport.log());
        device::lemma_frame_read_then(
            Seq::empty(),
            device::role_buffer(),
            transport::since(start, middle),
            more,
        );
        assert(Seq::<Event<T::Error>>::empty() + more =~= more);
        assert(proposed(
            is_receiver_output,
            request_body@,
            query@,
            bip78::bytes_or_text(proposal),
        ));
        assert(request_answered(
            query@,
            is_receiver_output,
            request_body@,
            more,
            device::bytes_result(result),
        ));
        assert(device::awaited(
            Command::OriginalPsbt,
            transport::since(start, transport.log()),
        ) == Some((Ok::<Seq<u8>, Failure<T::Error>>(request_body@), more)));
    }
    result
}

/// A 64-bit identifier of an entry in a payjoin directory.
#[derive(Debug, Clone, Copy, PartialEq, Eq)]
pub struct ShortId {
    pub bytes: [u8; 8],
}

impl ShortId {
    /// How the id is written.
    pub fn to_string(&self) -> (text: String)
        ensures
            text@ == bip78::short_id_text(self.bytes@),
            text@.len() == 13,
    {
        proof {
            bip78::lemma_short_id_text(self.bytes@);
        }
        bip78::write_short_id(&self.bytes)
    }
}

/// What a returned id, or a returned error text, stands for.
pub open spec fn id_result(result: Result<ShortId, String>) -> Result<Seq<u8>, Seq<char>> {
    match result {
        Ok(id) => Ok(id.bytes@),
        Err(text) => Err(text@),
    }
}

impl FromStr for ShortId {
    type Err = String;

    /// Reads an id from its text: every id is read back from the text that it is
    /// written as.
    fn from_str(text: &str) -> (result: Result<ShortId, String>)
        ensures
            id_result(result) == bip78::short_id_read(text@),
            forall|id: ShortId|
                text@ == #[trigger] bip78::short_id_text(id.bytes@) ==> (result matches Ok(read)
                    && read.bytes@ == id.bytes@),
    {
        match bip78::read_short_id(text) {
            Ok(bytes) => Ok(ShortId { bytes }),
            Err(text) => Err(text),
        }
    }
}

/// The id that belongs to a seed: the beginning of its SHA-256 digest.
pub open spec fn id_of_seed(seed: Seq<u8>) -> Seq<u8> {
    bip78::sha256_digest(seed).take(8)
}

/// Derives the short id of `seed`.
pub fn shortid_of(seed: &[u8]) -> (id: ShortId)
    ensures
        id.bytes@ == id_of_seed(seed@),
        id.bytes@ == bip78::sha256_digest(seed@).take(8),
{
    let digest = bip78::sha256_of(seed);
    ShortId { bytes: bip78::short_id_bytes(&digest) }
}

/// The probe role: the seed comes in as the original PSBT, and the text of its
/// short id goes back as the signed PSBT.
pub open spec fn probe_run<E>(events: Seq<Event<E>>) -> Option<
    (Result<Seq<char>, Failure<E>>, Seq<Event<E>>),
> {
    match device::awaited(Command::OriginalPsbt, events) {
        None => None,
        Some((Err(e), rest)) => Some((Err(e), rest)),
        Some((Ok(seed), rest)) => {
            let text = bip78::short_id_text(id_of_seed(seed));
            match device::frame_written(
                Command::SignedPsbt,
                utf8::encode_utf8(text),
                device::role_buffer(),
                rest,
            ) {
                None => None,
                Some((Ok(()), last)) => Some((Ok(text), last)),
                Some((Err(e), last)) => Some((Err(e), last)),
            }
        },
    }
}

/// What a returned text, or a returned error, stands for.
pub open spec fn text_result<E>(result: Result<String, HarnessError<E>>) -> Result<
    Seq<char>,
    Failure<E>,
> {
    match result {
        Ok(text) => Ok(text@),
        Err(e) => Err(e@),
    }
}

/// Runs the version 2 probe: waits for a seed, derives its short id, and sends
/// its text back. No live version 2 session is run.
pub fn run_v2_probe<T: Transport>(transport: &mut T) -> (result: Result<
    String,
    HarnessError<T::Error>,
>)
    ensures
        old(transport).log().is_prefix_of(final(transport).log()),
        probe_run(transport::since(old(transport).log(), final(transport).log())) == Some(
            (text_result(result), Seq::<Event<T::Error>>::empty()),
        ),
{
    let ghost start = transport.log();
    let seed = match device::await_frame(transport, Command::OriginalPsbt) {
        Ok(seed) => seed,
        Err(e) => {
            return Err(e);
        },
    };
    let ghost middle = transport.log();
    let encoded = shortid_of(seed.as_slice()).to_string();
    let sent = device::send_reply(transport, Command::SignedPsbt, encoded.as_str().as_bytes());
    proof {
        let more = transport::since(middle, transport.log());
        transport::lemma_since(start, middle, transport.log());
        device::lemma_frame_read_then(
            Seq::empty(),
            device::role_buffer(),
            transport::since(start, middle),
            more,
        );
        assert(Seq::<Event<T::Error>>::empty() + more =~= more);
    }
    match sent {
        Ok(()) => Ok(encoded),
        Err(e) => Err(e),
    }
}

/// How many inputs and outputs the transaction of a PSBT has.
pub fn transaction_counts(psbt: &[u8]) -> (result: Result<(usize, usize), String>)
    ensures
        match result {
            Ok((inputs, outputs)) => bip78::psbt_transaction(psbt@) matches Ok(tx) && inputs
                == tx.0.len() && outputs == tx.1.len(),
            Err(text) => bip78::psbt_transaction(psbt@) == Err::<
                (Seq<(Seq<u8>, u32)>, Seq<(u64, Seq<u8>)>),
                Seq<char>,
            >(text@),
        },
{
    match bip78::transaction_of(psbt) {
        Ok((inputs, outputs)) => Ok((inputs.len(), outputs.len())),
        Err(text) => Err(text),
    }
}

/// The script of the sender's change in the fixture.
pub open spec fn fixture_sender_script() -> Seq<u8> {
    bip78::p2wpkh_script(Seq::new(20, |i: int| 0x11u8))
}

/// The script that the fixture pays the receiver with.
pub open spec fn fixture_receiver_script() -> Seq<u8> {
    bip78::p2wpkh_script(Seq::new(20, |i: int| 0x22u8))
}

/// What the fixture pays: the sender's change, then the receiver.
pub open spec fn fixture_outputs() -> Seq<(u64, Seq<u8>)> {
    seq![(90_000u64, fixture_sender_script()), (50_000u64, fixture_receiver_script())]
}

/// The fixture: a version 2 transaction without a lock time, that spends 150,000
/// satoshis of the sender's and can be replaced by fee.
pub open spec fn fixture_psbt() -> Seq<u8> {
    bip78::one_input_psbt(
        2,
        0,
        Seq::new(32, |i: int| 0x11u8),
        0,
        0xFFFF_FFFD,
        fixture_outputs(),
        150_000,
        fixture_sender_script(),
    )
}

/// The script that the fixture's receiver is paid with.
pub fn receiver_script() -> (script: Vec<u8>)
    ensures
        script@ == fixture_receiver_script(),
{
    let hash = [0x22u8; 20];
    let script = bip78::witness_script(&hash);
    assert(hash@ =~= Seq::new(20, |i: int| 0x22u8));
    script
}

/// A small original PSBT to run the roles with, and the address that it pays:
/// one input, whose spent output is told so that the payjoin checks pass, and
/// two outputs, of which the second is the receiver's.
pub fn original_psbt_fixture() -> (fixture: (Vec<u8>, String))
    ensures
        fixture.0@ == fixture_psbt(),
        bip78::holds_transaction(
            fixture.0@,
            seq![(Seq::new(32, |i: int| 0x11u8), 0u32)],
            fixture_outputs(),
        ),
        bip78::pays_fee(fixture.0@, 10_000),
        bip78::fee_in_range(fixture.0@),
        bip78::script_address(fixture_receiver_script(), "testnet"@) == Ok::<
            Seq<char>,
            Seq<char>,
        >(fixture.1@),
{
    let hash = [0x11u8; 20];
    assert(hash@ =~= Seq::new(20, |i: int| 0x11u8));
    let sender_script = bip78::witness_script(&hash);
    let payee_script = receiver_script();
    assert(payee_script@.skip(2) =~= Seq::new(20, |i: int| 0x22u8));
    let address = match bip78::address_of(payee_script.as_slice(), "testnet") {
        Ok(address) => address,
        Err(_) => vstd::pervasive::unreached(),
    };
    let txid = [0x11u8; 32];
    assert(txid@ =~= Seq::new(32, |i: int| 0x11u8));
    let change = bip78::witness_script(&hash);
    let outputs: Vec<(u64, Vec<u8>)> = vec![(90_000, change), (50_000, payee_script)];
    proof {
        let paid = bip78::payments(outputs@);
        assert(paid =~= fixture_outputs());
        assert(paid.drop_last().drop_last() =~= Seq::empty());
        reveal_with_fuel(bip78::total, 3);
    }
    let spent: (u64, Vec<u8>) = (150_000, sender_script);
    let psbt = bip78::build_psbt(
        2,
        0,
        &txid,
        0,
        0xFFFF_FFFD,
        &outputs,
        &spent,
    );
    (psbt, address)
}

} // verus!
