//! What the roles of a board come to, told by what they are given and by what goes
//! over their links.
use vstd::prelude::*;
use vstd::utf8;

use crate::bip78;
use crate::device;
use crate::device::{Failure, HarnessError};
use crate::device_laws;
use crate::proto;
use crate::proto::{Command, DecodeError};
use crate::roles;
use crate::session_laws;
use crate::text;
use crate::transport;
use crate::transport::Event;

verus! {

/// What the sender asks of the payjoin crates: that no particular amount is paid,
/// that an additional fee of at most `max_fee` comes out of the first output, that
/// there is no minimum fee rate, and that a fee which that output cannot pay is
/// lowered. An endpoint that is not one of version 1 is refused for what it is.
pub proof fn law_sender_asks_for_no_amount(
    original: Seq<u8>,
    endpoint: Seq<char>,
    payee: Seq<char>,
    max_fee: u64,
    response: Seq<u8>,
)
    ensures
        ({
            let request = roles::sender_request_of(original, endpoint, payee, max_fee);
            let verdict = roles::sender_verdict(original, endpoint, payee, max_fee, response);
            match bip78::endpoint_is_v1(endpoint) {
                Ok(true) => {
                    &&& request == bip78::v1_request_body(
                        original,
                        endpoint,
                        payee,
                        None,
                        max_fee,
                        Some(0),
                        0,
                        true,
                    )
                    &&& request is Ok ==> verdict == bip78::v1_response_psbt(
                        original,
                        endpoint,
                        payee,
                        None,
                        max_fee,
                        Some(0),
                        0,
                        true,
                        response,
                    )
                    &&& request matches Err(why) ==> verdict == Err::<Seq<u8>, Seq<char>>(why)
                },
                Ok(false) => request == Err::<Seq<u8>, Seq<char>>(
                    "endpoint is not a v1 payjoin URI"@,
                ) && verdict == request,
                Err(cause) => request == Err::<Seq<u8>, Seq<char>>("invalid endpoint: "@ + cause)
                    && verdict == request,
            }
        }),
{
}

/// A request is made of a plain PSBT that pays the payee by exactly one output, any
/// but the first, at a version 1 endpoint, and is the text of that PSBT: whatever
/// the amount is that the output pays, whatever the other outputs pay, and whatever
/// fee may be added. That requests are made so is what the sender role states.
pub proof fn law_payment_of_any_amount_is_requested(
    original: Seq<u8>,
    outputs: Seq<(u64, Seq<u8>)>,
    spent: u64,
    endpoint: Seq<char>,
    payee: Seq<char>,
    script: Seq<u8>,
    k: int,
    max_fee: u64,
)
    requires
        roles::plain_payment_is_requested(original, endpoint, payee, max_fee),
        bip78::is_plain(original, outputs, spent),
        bip78::endpoint_is_v1(endpoint) == Ok::<bool, Seq<char>>(true),
        bip78::is_address_of(payee, script),
        bip78::paid_once_at(outputs, script, k),
        k > 0,
    ensures
        roles::sender_request_of(original, endpoint, payee, max_fee) == Ok::<Seq<u8>, Seq<char>>(
            bip78::base64_bytes(original),
        ),
{
    assert(bip78::suits_request(
        original,
        outputs,
        spent,
        payee,
        script,
        k,
        None,
        Some(0),
    ));
}

/// The fixture is a plain payment that every promise on plain payments holds of: it
/// spends 150,000 satoshis and pays no more, and its second output alone is the
/// receiver's.
pub proof fn law_fixture_is_a_plain_payment()
    ensures
        bip78::is_plain(roles::fixture_psbt(), roles::fixture_outputs(), 150_000),
        bip78::total(roles::fixture_outputs()) == 140_000,
        bip78::paid_once_at(roles::fixture_outputs(), roles::fixture_receiver_script(), 1),
{
    let outputs = roles::fixture_outputs();
    assert(outputs.drop_last().drop_last() =~= Seq::empty());
    reveal_with_fuel(bip78::total, 3);
    assert(roles::fixture_sender_script()[2] == 0x11);
    assert(roles::fixture_receiver_script()[2] == 0x22);
    let txid = Seq::new(32, |i: int| 0x11u8);
    assert(roles::fixture_psbt() == bip78::one_input_psbt(
        2,
        0,
        txid,
        0,
        0xFFFF_FFFD,
        outputs,
        150_000,
        roles::fixture_sender_script(),
    ));
}

/// The fees that an original PSBT can be judged with: up to two million bitcoin, or
/// none that can be told.
pub proof fn law_fee_bound(
    original: Seq<u8>,
    endpoint: Seq<char>,
    payee: Seq<char>,
    max_fee: u64,
)
    ensures
        roles::judgeable(original, endpoint, payee, max_fee) <==> (roles::sender_request_of(
            original,
            endpoint,
            payee,
            max_fee,
        ) is Err || (bip78::psbt_fee(original) matches Ok(fee) ==> fee <= 200_000_000_000_000)),
        bip78::fee_in_range(original) <==> (bip78::psbt_fee(original) matches Ok(fee) ==> fee
            <= 200_000_000_000_000),
{
}

/// A sender that could not make a request says why, and leaves its link alone.
pub proof fn law_sender_without_request_sends_nothing<E>(
    why: Seq<char>,
    verdict: spec_fn(Seq<u8>) -> Result<Seq<u8>, Seq<char>>,
    events: Seq<Event<E>>,
)
    ensures
        roles::sender_run(Err(why), verdict, events) == Some(
            (Err::<Seq<u8>, Failure<E>>(Failure::Payjoin(why)), events),
        ),
{
}

/// What a sender comes to is settled by the frame that comes back: its verdict on
/// the payload where that is a response, whatever request and payload hold. Its
/// request goes out as it is, in one frame, and nothing else does.
pub proof fn law_sender_is_settled_by_the_response<E>(
    body: Seq<u8>,
    verdict: spec_fn(Seq<u8>) -> Result<Seq<u8>, Seq<char>>,
    events: Seq<Event<E>>,
    command: Command,
    payload: Seq<u8>,
    more: Seq<u8>,
)
    requires
        body.len() <= 4096,
        payload.len() <= 4096,
        session_laws::failure_free(events),
        transport::received(events) == proto::frame_bytes(command, payload) + more,
        roles::sender_run(Ok(body), verdict, events) is Some,
    ensures
        ({
            let end = roles::sender_run(Ok(body), verdict, events).unwrap();
            &&& end.0 == if command != Command::InResponse {
                Err::<Seq<u8>, Failure<E>>(Failure::UnexpectedCommand)
            } else {
                match verdict(payload) {
                    Ok(psbt) => Ok::<Seq<u8>, Failure<E>>(psbt),
                    Err(why) => Err::<Seq<u8>, Failure<E>>(Failure::Payjoin(why)),
                }
            }
            &&& transport::sent(events) == proto::frame_bytes(Command::OutRequest, body)
                + transport::sent(end.1)
            &&& device::frame_read(Seq::empty(), 4101, events.skip(1)) matches Some(read)
                && end.1 == read.rest
        }),
{
    device_laws::law_exchange_is_settled_by_the_response(
        Command::OutRequest,
        body,
        Command::InResponse,
        events,
        command,
        payload,
        more,
    );
}

/// A sender passes on why it got no response.
pub proof fn law_sender_passes_on_failures<E>(
    body: Seq<u8>,
    verdict: spec_fn(Seq<u8>) -> Result<Seq<u8>, Seq<char>>,
    events: Seq<Event<E>>,
    failure: Failure<E>,
    rest: Seq<Event<E>>,
)
    requires
        device::exchanged(Command::OutRequest, body, Command::InResponse, events) == Some(
            (Err::<Seq<u8>, Failure<E>>(failure), rest),
        ),
    ensures
        roles::sender_run(Ok(body), verdict, events) == Some(
            (Err::<Seq<u8>, Failure<E>>(failure), rest),
        ),
{
}

/// Whether `owns` may give this answer when it is asked about `script`.
pub open spec fn may_say<F: Fn(&[u8]) -> bool>(owns: F, script: Seq<u8>, answer: bool) -> bool {
    exists|slice: &[u8]| slice@ == script && call_ensures(owns, (slice,), answer)
}

/// A receiver asks of every output of a request whether it is its own, and proposes
/// with all the answers, one for each output; it names the length of the request
/// as its content length, takes no input for its own and none for known, and sets
/// no fee rates. A request that cannot be read is refused for why it cannot.
pub proof fn law_receiver_looks_at_every_output<F: Fn(&[u8]) -> bool>(
    owns: F,
    body: Seq<u8>,
    query: Seq<char>,
    proposal: Result<Seq<u8>, Seq<char>>,
)
    requires
        roles::proposed(owns, body, query, proposal),
    ensures
        match bip78::request_output_scripts(
            body,
            query,
            text::decimal_digits(body.len()),
            false,
            false,
        ) {
            Err(why) => proposal == Err::<Seq<u8>, Seq<char>>(why),
            Ok(scripts) => exists|marks: Seq<bool>|
                {
                    &&& marks.len() == scripts.len()
                    &&& forall|i: int|
                        0 <= i < scripts.len() ==> may_say(owns, scripts[i], #[trigger] marks[i])
                    &&& proposal == #[trigger] bip78::receiver_psbt(
                        body,
                        query,
                        text::decimal_digits(body.len()),
                        false,
                        false,
                        marks,
                        None,
                        None,
                    )
                },
        },
{
    let read = bip78::request_output_scripts(
        body,
        query,
        text::decimal_digits(body.len()),
        false,
        false,
    );
    if let Ok(scripts) = read {
        assert(roles::proposed_for(owns, scripts, body, query, proposal));
        let marks = choose|marks: Seq<bool>| #[trigger]
            roles::marked_by(owns, scripts, marks) && proposal == roles::marked_proposal(
                body,
                query,
                marks,
            );
        assert forall|i: int| 0 <= i < scripts.len() implies may_say(
            owns,
            scripts[i],
            #[trigger] marks[i],
        ) by {
            assert(roles::answers(owns, scripts[i], marks[i]));
        }
        assert(proposal == bip78::receiver_psbt(
            body,
            query,
            text::decimal_digits(body.len()),
            false,
            false,
            marks,
            None,
            None,
        ));
    }
}

/// A receiver that is paid proposes: where the request passes the checks that come
/// before its outputs, and one of its outputs, at whatever index, has a script that
/// the receiver takes for its own, there is a proposal.
pub proof fn law_paid_receiver_proposes<F: Fn(&[u8]) -> bool>(
    owns: F,
    body: Seq<u8>,
    query: Seq<char>,
    proposal: Result<Seq<u8>, Seq<char>>,
    scripts: Seq<Seq<u8>>,
    i: int,
)
    requires
        roles::proposed(owns, body, query, proposal),
        bip78::request_output_scripts(
            body,
            query,
            text::decimal_digits(body.len()),
            false,
            false,
        ) == Ok::<Seq<Seq<u8>>, Seq<char>>(scripts),
        0 <= i < scripts.len(),
        forall|slice: &[u8], mark: bool|
            slice@ == scripts[i] && #[trigger] call_ensures(owns, (slice,), mark) ==> mark,
    ensures
        proposal is Ok,
{
    assert(roles::takes_for_own(owns, scripts[i]));
    assert(roles::pays_owner(owns, scripts));
}

proof fn lemma_rest_is_the_end<E>(held: Seq<u8>, capacity: nat, events: Seq<Event<E>>)
    requires
        device::frame_read(held, capacity, events) is Some,
    ensures
        ({
            let rest = device::frame_read(held, capacity, events).unwrap().rest;
            rest.len() <= events.len() && rest == events.skip(events.len() - rest.len())
        }),
    decreases events.len(),
{
    let rest = device::frame_read(held, capacity, events).unwrap().rest;
    assert(events.skip(0) =~= events);
    if proto::decoded(held) == Err::<(Command, Seq<u8>, nat), _>(DecodeError::Incomplete)
        && held.len() < capacity {
        if let Event::Received(bytes) = events[0] {
            let later = events.skip(1);
            lemma_rest_is_the_end(held + bytes, capacity, later);
            assert(later.skip(later.len() - rest.len()) =~= events.skip(
                events.len() - rest.len(),
            ));
        }
    }
}

/// What a receiver comes to is settled by the frame that it gets: it refuses any
/// command but that of an original PSBT, and answers nothing then. To a request it
/// makes a proposal, whatever the request holds: where there is one whose text fits
/// a frame, that text goes out in one frame, and the proposal is returned; else why
/// there is none is told, and nothing goes out.
pub proof fn law_receiver_is_settled_by_the_request<E, F: Fn(&[u8]) -> bool>(
    query: Seq<char>,
    owns: F,
    events: Seq<Event<E>>,
    result: Result<Seq<u8>, Failure<E>>,
    command: Command,
    payload: Seq<u8>,
    more: Seq<u8>,
)
    requires
        payload.len() <= 4096,
        session_laws::failure_free(events),
        transport::received(events) == proto::frame_bytes(command, payload) + more,
        roles::receiver_run(query, owns, events, result),
    ensures
        command != Command::OriginalPsbt ==> result == Err::<Seq<u8>, Failure<E>>(
            Failure::UnexpectedCommand,
        ) && transport::sent(events).len() == 0,
        command == Command::OriginalPsbt ==> exists|proposal: Result<Seq<u8>, Seq<char>>|
            {
                &&& #[trigger] roles::proposed(owns, payload, query, proposal)
                &&& match proposal {
                    Err(why) => result == Err::<Seq<u8>, Failure<E>>(Failure::Payjoin(why))
                        && transport::sent(events).len() == 0,
                    Ok(psbt) => if bip78::base64_bytes(psbt).len() <= 4096 {
                        &&& result == Ok::<Seq<u8>, Failure<E>>(psbt)
                        &&& transport::sent(events) == proto::frame_bytes(
                            Command::SignedPsbt,
                            bip78::base64_bytes(psbt),
                        )
                        &&& events.last() is Sent
                    } else {
                        &&& result == Err::<Seq<u8>, Failure<E>>(
                            Failure::Payjoin("failed to encode frame"@),
                        )
                        &&& transport::sent(events).len() == 0
                    },
                }
            },
{
    let none = Seq::<u8>::empty();
    let buffer = device::role_buffer();
    assert(none + transport::received(events) =~= transport::received(events));
    device_laws::law_board_reads_what_arrives(none, buffer, events, command, payload, more);
    let rest = device::frame_read(none, buffer, events).unwrap().rest;
    if command == Command::OriginalPsbt {
        assert(roles::request_answered(query, owns, payload, rest, result));
        let proposal = choose|proposal: Result<Seq<u8>, Seq<char>>| #[trigger]
            roles::proposed(owns, payload, query, proposal) && roles::answered(
                Command::SignedPsbt,
                proposal,
                rest,
            ) == Some((result, Seq::<Event<E>>::empty()));
        if let Ok(psbt) = proposal {
            if bip78::base64_bytes(psbt).len() <= 4096 {
                assert(rest[0] is Sent || rest[0] is Received);
                assert(rest.skip(1) =~= Seq::empty());
                assert(rest.len() == 1);
                lemma_rest_is_the_end(none, buffer, events);
                assert(events.last() == rest[0]);
                reveal_with_fuel(transport::sent, 2);
                assert(transport::sent(rest) =~= proto::frame_bytes(
                    Command::SignedPsbt,
                    bip78::base64_bytes(psbt),
                ));
            }
        }
        assert(roles::proposed(owns, payload, query, proposal));
    }
}

/// What a probed board comes to is settled by the frame that it gets: it refuses any
/// command but that of an original PSBT; else, whatever the seed is, it sends back
/// in one frame, and returns, the text of the first eight bytes of the SHA-256
/// digest of the whole seed.
pub proof fn law_probe_answers_with_the_digest_of_the_seed<E>(
    events: Seq<Event<E>>,
    command: Command,
    seed: Seq<u8>,
    more: Seq<u8>,
)
    requires
        seed.len() <= 4096,
        session_laws::failure_free(events),
        transport::received(events) == proto::frame_bytes(command, seed) + more,
        roles::probe_run(events) is Some,
    ensures
        ({
            let end = roles::probe_run(events).unwrap();
            let id = bip78::short_id_text(bip78::sha256_digest(seed).take(8));
            if command == Command::OriginalPsbt {
                &&& end.0 == Ok::<Seq<char>, Failure<E>>(id)
                &&& transport::sent(events) == proto::frame_bytes(
                    Command::SignedPsbt,
                    utf8::encode_utf8(id),
                ) + transport::sent(end.1)
                &&& device::frame_read(Seq::empty(), 4101, events) matches Some(read) && end.1
                    == read.rest.skip(1)
            } else {
                &&& end.0 == Err::<Seq<char>, Failure<E>>(Failure::UnexpectedCommand)
                &&& transport::sent(events) == transport::sent(end.1)
                &&& device::frame_read(Seq::empty(), 4101, events) matches Some(read) && end.1
                    == read.rest
            }
        }),
{
    let none = Seq::<u8>::empty();
    let buffer = device::role_buffer();
    assert(none + transport::received(events) =~= transport::received(events));
    device_laws::law_board_reads_what_arrives(none, buffer, events, command, seed, more);
    let rest = device::frame_read(none, buffer, events).unwrap().rest;
    if command == Command::OriginalPsbt {
        bip78::lemma_short_id_text(bip78::sha256_digest(seed).take(8));
        assert(rest.len() > 0);
        assert(rest[0] is Sent || rest[0] is Received);
    }
}

/// Sending a proposal back puts its base64 text on the link, in one frame with the
/// command that is asked for, and comes to the proposal itself; a proposal that
/// there is not, or whose text no frame can hold, is not sent.
pub proof fn law_answer_is_the_text_of_the_proposal<E>(
    command: Command,
    proposal: Result<Seq<u8>, Seq<char>>,
    events: Seq<Event<E>>,
)
    requires
        roles::answered(command, proposal, events) is Some,
    ensures
        ({
            let end = roles::answered(command, proposal, events).unwrap();
            match proposal {
                Err(why) => end == (Err::<Seq<u8>, Failure<E>>(Failure::Payjoin(why)), events),
                Ok(psbt) => if bip78::base64_bytes(psbt).len() > 4096 {
                    end == (
                        Err::<Seq<u8>, Failure<E>>(Failure::Payjoin("failed to encode frame"@)),
                        events,
                    )
                } else {
                    let frame = proto::frame_bytes(command, bip78::base64_bytes(psbt));
                    &&& events.len() > 0
                    &&& end.1 == events.skip(1)
                    &&& match events[0] {
                        Event::Sent(bytes) => bytes == frame && end.0 == Ok::<
                            Seq<u8>,
                            Failure<E>,
                        >(psbt),
                        Event::SendFailed(bytes, e) => bytes == frame && end.0 == Err::<
                            Seq<u8>,
                            Failure<E>,
                        >(Failure::Transport(e)),
                        _ => false,
                    }
                },
            }
        }),
{
}

/// A receiver and a probed board pass on why they got no frame, and answer nothing
/// then.
pub proof fn law_roles_pass_on_failures<E, F: Fn(&[u8]) -> bool>(
    query: Seq<char>,
    owns: F,
    events: Seq<Event<E>>,
    result: Result<Seq<u8>, Failure<E>>,
    failure: Failure<E>,
    rest: Seq<Event<E>>,
)
    requires
        device::awaited(Command::OriginalPsbt, events) == Some(
            (Err::<Seq<u8>, Failure<E>>(failure), rest),
        ),
    ensures
        roles::receiver_run(query, owns, events, result) ==> result == Err::<
            Seq<u8>,
            Failure<E>,
        >(failure) && rest.len() == 0,
        roles::probe_run(events) == Some((Err::<Seq<char>, Failure<E>>(failure), rest)),
{
}

/// The headers of a request are its content length and its content type, and there
/// are no others.
pub proof fn law_headers(headers: bip78::FixedHeaders, key: Seq<char>)
    ensures
        headers.header("content-length"@) == Some(headers.content_length@),
        headers.header("content-type"@) == Some("text/plain"@),
        key != "content-length"@ && key != "content-type"@ ==> headers.header(key) is None,
{
    reveal_strlit("content-length");
    reveal_strlit("content-type");
    assert("content-length"@.len() != "content-type"@.len());
}

/// What a role returns stands for itself: the id or the text that it returns, and
/// the error with what it holds.
pub proof fn law_results_stand_for_themselves<E>(
    id: roles::ShortId,
    answer: String,
    error: HarnessError<E>,
)
    ensures
        roles::id_result(Ok(id)) == Ok::<Seq<u8>, Seq<char>>(id.bytes@),
        roles::id_result(Err(answer)) == Err::<Seq<u8>, Seq<char>>(answer@),
        roles::text_result(Ok::<String, HarnessError<E>>(answer)) == Ok::<Seq<char>, Failure<E>>(
            answer@,
        ),
        roles::text_result(Err::<String, HarnessError<E>>(error)) == Err::<
            Seq<char>,
            Failure<E>,
        >(error@),
{
}

} // verus!
