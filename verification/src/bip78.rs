//! The calls into the `payjoin`, `bitcoin` and `base64` crates.
//!
//! A PSBT is held as its serialized bytes, a script as its bytes, an address as
//! its text and an amount as its number of satoshis. What an outside call
//! returns is either stated outright or has a name here; every name stands for
//! a function of its arguments alone.
use std::str::FromStr;

use base64::Engine;
use bitcoin::absolute::LockTime;
use bitcoin::hashes::{sha256, HashEngine};
use bitcoin::psbt::Psbt;
use bitcoin::transaction::Version;
use bitcoin::{
    Address, Amount, FeeRate, Network, OutPoint, ScriptBuf, Sequence, Transaction, TxIn, TxOut,
    WPubkeyHash,
};
use payjoin::directory;
use payjoin::receive::v1::{Headers, UncheckedOriginalPayload};
use payjoin::send::v1::SenderBuilder;
use payjoin::PjParam;
use vstd::prelude::*;
use vstd::utf8;

use crate::proto::MAX_PAYLOAD_LEN;
use crate::text;

verus! {

/// What a returned error text stands for.
pub open spec fn text_error<R>(result: Result<R, String>) -> Result<R, Seq<char>> {
    match result {
        Ok(value) => Ok(value),
        Err(text) => Err(text@),
    }
}

/// What returned bytes, or a returned error text, stand for.
pub open spec fn bytes_or_text(result: Result<Vec<u8>, String>) -> Result<Seq<u8>, Seq<char>> {
    match result {
        Ok(bytes) => Ok(bytes@),
        Err(text) => Err(text@),
    }
}

/// The rows of bytes that a list of byte vectors holds.
pub open spec fn rows(list: Seq<Vec<u8>>) -> Seq<Seq<u8>> {
    list.map_values(|row: Vec<u8>| row@)
}

/// What returned rows of bytes, or a returned error text, stand for.
pub open spec fn rows_or_text(result: Result<Vec<Vec<u8>>, String>) -> Result<
    Seq<Seq<u8>>,
    Seq<char>,
> {
    match result {
        Ok(list) => Ok(rows(list@)),
        Err(text) => Err(text@),
    }
}

/// What `PjParam::parse` makes of an endpoint: whether it is a version 1
/// endpoint, or the error.
pub uninterp spec fn endpoint_is_v1(endpoint: Seq<char>) -> Result<bool, Seq<char>>;

/// `payjoin::PjParam::parse`. An error is given as its debug text.
#[verifier::external_body]
pub(crate) fn parse_endpoint(endpoint: &str) -> (result: Result<bool, String>)
    ensures
        text_error(result) == endpoint_is_v1(endpoint@),
{
    match PjParam::parse(endpoint) {
        Ok(PjParam::V1(_)) => Ok(true),
        Ok(_) => Ok(false),
        Err(e) => Err(format!("{e:?}")),
    }
}

/// What `Psbt::fee` makes of a serialized PSBT: the fee in satoshis, or the
/// error.
pub uninterp spec fn psbt_fee(psbt: Seq<u8>) -> Result<u64, Seq<char>>;

/// `bitcoin::Psbt::fee`, on a PSBT that is read with `Psbt::deserialize`. An
/// error of either is given as its debug text.
#[verifier::external_body]
pub(crate) fn fee_of(psbt: &[u8]) -> (result: Result<u64, String>)
    ensures
        text_error(result) == psbt_fee(psbt@),
{
    Psbt::deserialize(psbt)
        .and_then(|psbt| psbt.fee())
        .map(|fee| fee.to_sat())
        .map_err(|e| format!("{e:?}"))
}

/// Whether a PSBT pays this fee.
pub open spec fn pays_fee(psbt: Seq<u8>, fee: int) -> bool {
    psbt_fee(psbt) matches Ok(sat) && sat == fee
}

/// The largest fee that an original PSBT may pay, in satoshis, where a response
/// is to be judged against it. The `payjoin` crate then multiplies the original's
/// fee rate by the weight of the inputs that the response adds, in 64 bits and
/// without a test of overflow.
///
/// A payload of 4096 bytes is the base64 text of 3072 bytes. An added input takes
/// at least 79 of them and weighs at most 592 units, so together they weigh at
/// most 38 * 592 = 22,496. An original that pays a fee has an input and, beside
/// the payee's output, a first output that is not the payee's, and weighs more
/// than 256 units. So the product is at most
/// 200,000,000,000,000 * 1000 / 256 * 22,496, which is less than 2^64. This is a
/// margin: just above it nothing overflows yet.
pub const MAX_ORIGINAL_FEE: u64 = 200_000_000_000_000;

/// Whether the fee of the original PSBT, where it has one, is within bounds.
pub open spec fn fee_in_range(psbt: Seq<u8>) -> bool {
    psbt_fee(psbt) matches Ok(fee) ==> fee <= MAX_ORIGINAL_FEE
}

/// The transaction of a serialized PSBT: the outputs that it spends, each with
/// the id of its transaction and its index there, and the payments that it makes;
/// or the error.
pub uninterp spec fn psbt_transaction(psbt: Seq<u8>) -> Result<
    (Seq<(Seq<u8>, u32)>, Seq<(u64, Seq<u8>)>),
    Seq<char>,
>;

/// What is spent, by transaction id and index.
pub open spec fn outpoints(list: Seq<([u8; 32], u32)>) -> Seq<(Seq<u8>, u32)> {
    list.map_values(|point: ([u8; 32], u32)| (point.0@, point.1))
}

/// What a returned transaction, or a returned error text, stands for.
pub open spec fn transaction_or_text(
    result: Result<(Vec<([u8; 32], u32)>, Vec<(u64, Vec<u8>)>), String>,
) -> Result<(Seq<(Seq<u8>, u32)>, Seq<(u64, Seq<u8>)>), Seq<char>> {
    match result {
        Ok((inputs, outputs)) => Ok((outpoints(inputs@), payments(outputs@))),
        Err(text) => Err(text@),
    }
}

/// The unsigned transaction of a PSBT that is read with
/// `bitcoin::Psbt::deserialize`: what its inputs spend, and its outputs. An error
/// is given as its debug text.
#[verifier::external_body]
pub(crate) fn transaction_of(psbt: &[u8]) -> (result: Result<
    (Vec<([u8; 32], u32)>, Vec<(u64, Vec<u8>)>),
    String,
>)
    ensures
        transaction_or_text(result) == psbt_transaction(psbt@),
{
    let tx = Psbt::deserialize(psbt).map_err(|e| format!("{e:?}"))?.unsigned_tx;
    let spent = tx.input.iter().map(|input| input.previous_output);
    let inputs = spent.map(|p| (bitcoin::hashes::Hash::to_byte_array(p.txid), p.vout));
    let outputs = tx.output.iter().map(|o| (o.value.to_sat(), o.script_pubkey.to_bytes()));
    Ok((inputs.collect(), outputs.collect()))
}

/// Whether a PSBT holds the transaction that spends and pays just this.
pub open spec fn holds_transaction(
    psbt: Seq<u8>,
    inputs: Seq<(Seq<u8>, u32)>,
    outputs: Seq<(u64, Seq<u8>)>,
) -> bool {
    psbt_transaction(psbt) matches Ok(tx) && tx.0 == inputs && tx.1 == outputs
}

/// Whether two PSBTs are of a transaction that spends and pays the same.
pub open spec fn same_transaction(psbt: Seq<u8>, other: Seq<u8>) -> bool {
    psbt_transaction(psbt) is Ok && psbt_transaction(psbt) == psbt_transaction(other)
}

/// The bytes of the base64 text of `bytes`.
pub open spec fn base64_bytes(bytes: Seq<u8>) -> Seq<u8> {
    utf8::encode_utf8(base64_text(bytes))
}

/// Whether `body` is the base64 text of a PSBT of the same transaction as `psbt`.
pub open spec fn carries_transaction(body: Seq<u8>, psbt: Seq<u8>) -> bool {
    exists|inner: Seq<u8>| #[trigger] base64_bytes(inner) == body && same_transaction(inner, psbt)
}

/// Whether `psbt` is of the same transaction as the PSBT whose base64 text `body`
/// is: nothing is spent or paid in one that is not in the other.
pub open spec fn keeps_transaction(body: Seq<u8>, psbt: Seq<u8>) -> bool {
    forall|inner: Seq<u8>| #[trigger]
        base64_bytes(inner) == body ==> same_transaction(psbt, inner)
}

/// Whether `scripts` are those that the PSBT whose base64 text `body` is pays to,
/// in order.
pub open spec fn pays_scripts(body: Seq<u8>, scripts: Seq<Seq<u8>>) -> bool {
    forall|inner: Seq<u8>| #[trigger]
        base64_bytes(inner) == body ==> (psbt_transaction(inner) matches Ok(tx) && scripts
            == tx.1.map_values(|payment: (u64, Seq<u8>)| payment.1))
}

/// The body of the version 1 request that a sender makes of its original PSBT,
/// or the error.
pub uninterp spec fn v1_request_body(
    original: Seq<u8>,
    endpoint: Seq<char>,
    payee: Seq<char>,
    amount: Option<u64>,
    max_fee: u64,
    change_index: Option<usize>,
    min_fee_rate: u64,
    clamp: bool,
) -> Result<Seq<u8>, Seq<char>>;

/// Whether `psbt` is one that [`build_psbt`] makes: a PSBT of a transaction that
/// spends one output of `spent` satoshis and makes these payments, with no amount
/// beyond the 21 million bitcoin that there are.
pub open spec fn is_plain(psbt: Seq<u8>, outputs: Seq<(u64, Seq<u8>)>, spent: u64) -> bool {
    &&& outputs.len() <= 16
    &&& forall|i: int|
        0 <= i < outputs.len() ==> (#[trigger] outputs[i]).1.len() <= 64 && outputs[i].0
            <= 2_100_000_000_000_000
    &&& spent <= 2_100_000_000_000_000
    &&& exists|
        version: i32,
        lock_time: u32,
        txid: Seq<u8>,
        vout: u32,
        sequence: u32,
        spent_script: Seq<u8>,
    |
        txid.len() == 32 && spent_script.len() <= 64 && psbt == #[trigger] one_input_psbt(
            version,
            lock_time,
            txid,
            vout,
            sequence,
            outputs,
            spent,
            spent_script,
        )
}

/// Whether `script` is paid by the output at `k` and by no other.
pub open spec fn paid_once_at(outputs: Seq<(u64, Seq<u8>)>, script: Seq<u8>, k: int) -> bool {
    &&& 0 <= k < outputs.len()
    &&& outputs[k].1 == script
    &&& forall|j: int| 0 <= j < outputs.len() && j != k ==> (#[trigger] outputs[j]).1 != script
}

/// Whether the address `payee` belongs to `script` on some network.
pub open spec fn is_address_of(payee: Seq<char>, script: Seq<u8>) -> bool {
    exists|network: Seq<char>| #[trigger] script_address(script, network) == Ok::<
        Seq<char>,
        Seq<char>,
    >(payee)
}

/// Whether a plain PSBT suits a request: it pays the payee's script once, at `k`,
/// the asked amount where one is asked for, and any additional fee comes out of
/// another output.
pub open spec fn suits_request(
    original: Seq<u8>,
    outputs: Seq<(u64, Seq<u8>)>,
    spent: u64,
    payee: Seq<char>,
    script: Seq<u8>,
    k: int,
    amount: Option<u64>,
    change_index: Option<usize>,
) -> bool {
    &&& is_plain(original, outputs, spent)
    &&& is_address_of(payee, script)
    &&& paid_once_at(outputs, script, k)
    &&& amount matches Some(asked) ==> outputs[k].0 == asked
    &&& change_index matches Some(change) && change < outputs.len() && outputs[change as int].1
        != script
}

/// Whether `request` is the base64 text of the original PSBT itself, where that
/// one suits and the endpoint is one of version 1. What amount the payee is paid
/// makes no difference where none is asked for.
pub open spec fn made_where_suited(
    original: Seq<u8>,
    endpoint: Seq<char>,
    payee: Seq<char>,
    amount: Option<u64>,
    change_index: Option<usize>,
    clamp: bool,
    request: Result<Seq<u8>, Seq<char>>,
) -> bool {
    forall|outputs: Seq<(u64, Seq<u8>)>, spent: u64, script: Seq<u8>, k: int|
        endpoint_is_v1(endpoint) == Ok::<bool, Seq<char>>(true) && clamp && #[trigger]
            suits_request(original, outputs, spent, payee, script, k, amount, change_index)
            ==> request == Ok::<Seq<u8>, Seq<char>>(base64_bytes(original))
}

/// Whether a request is made only of a PSBT that pays the payee's script in
/// exactly one output, with the asked amount where one is asked for, and that has
/// the output which the additional fee is to come out of, another than the
/// payee's.
pub open spec fn made_only_of_payment(
    original: Seq<u8>,
    payee: Seq<char>,
    amount: Option<u64>,
    change_index: Option<usize>,
    request: Result<Seq<u8>, Seq<char>>,
) -> bool {
    request is Ok ==> (psbt_transaction(original) matches Ok(tx) && forall|script: Seq<u8>|
        #[trigger] is_address_of(payee, script) ==> {
            &&& exists|k: int| #[trigger]
                paid_once_at(tx.1, script, k) && (amount matches Some(asked) ==> tx.1[k].0
                    == asked)
            &&& change_index matches Some(change) ==> change < tx.1.len() && tx.1[change as int].1
                != script
        })
}

/// Whether `request` is the one that would be made where an amount is asked for, for
/// every amount with which one would be made at all.
pub open spec fn made_for_any_amount(
    original: Seq<u8>,
    endpoint: Seq<char>,
    payee: Seq<char>,
    max_fee: u64,
    change_index: Option<usize>,
    min_fee_rate: u64,
    clamp: bool,
    request: Result<Seq<u8>, Seq<char>>,
) -> bool {
    forall|amount: u64|
        (#[trigger] v1_request_body(
            original,
            endpoint,
            payee,
            Some(amount),
            max_fee,
            change_index,
            min_fee_rate,
            clamp,
        )) is Ok ==> request == v1_request_body(
            original,
            endpoint,
            payee,
            Some(amount),
            max_fee,
            change_index,
            min_fee_rate,
            clamp,
        )
}

/// Whether `verdict` accepts the original PSBT itself as the response to a request
/// that it suits, and gives it back unchanged.
pub open spec fn original_is_accepted(
    original: Seq<u8>,
    endpoint: Seq<char>,
    payee: Seq<char>,
    amount: Option<u64>,
    change_index: Option<usize>,
    min_fee_rate: u64,
    clamp: bool,
    response: Seq<u8>,
    verdict: Result<Seq<u8>, Seq<char>>,
) -> bool {
    forall|outputs: Seq<(u64, Seq<u8>)>, spent: u64, script: Seq<u8>, k: int|
        endpoint_is_v1(endpoint) == Ok::<bool, Seq<char>>(true) && clamp && min_fee_rate == 0
            && response == base64_bytes(original) && total(outputs) <= spent && #[trigger]
            suits_request(original, outputs, spent, payee, script, k, amount, change_index)
            ==> verdict == Ok::<Seq<u8>, Seq<char>>(original)
}

/// Whether a request that is the base64 text of a plain PSBT, without a query and
/// with its own length as the content length, is read as the scripts that the
/// PSBT pays, where no input is owned or known.
pub open spec fn plain_request_is_read(
    body: Seq<u8>,
    query: Seq<char>,
    content_length: Seq<char>,
    inputs_owned: bool,
    inputs_seen: bool,
    scripts: Result<Seq<Seq<u8>>, Seq<char>>,
) -> bool {
    forall|inner: Seq<u8>, outputs: Seq<(u64, Seq<u8>)>, spent: u64|
        body == base64_bytes(inner) && query == ""@ && content_length == text::decimal_digits(
            body.len(),
        ) && !inputs_owned && !inputs_seen && #[trigger] is_plain(inner, outputs, spent)
            ==> scripts == Ok::<Seq<Seq<u8>>, Seq<char>>(
            outputs.map_values(|payment: (u64, Seq<u8>)| payment.1),
        )
}

/// Whether what is proposed in answer to a request that is the base64 text of a
/// plain PSBT is that PSBT, unchanged.
pub open spec fn plain_psbt_is_kept(
    body: Seq<u8>,
    proposal: Result<Seq<u8>, Seq<char>>,
) -> bool {
    forall|inner: Seq<u8>, outputs: Seq<(u64, Seq<u8>)>, spent: u64|
        body == base64_bytes(inner) && proposal is Ok && #[trigger] is_plain(
            inner,
            outputs,
            spent,
        ) ==> proposal == Ok::<Seq<u8>, Seq<char>>(inner)
}

/// `payjoin::send::v1`: `SenderBuilder::from_parts`, `build_with_additional_fee`,
/// and the body of what `create_v1_post_request` gives. The PSBT is read with
/// `Psbt::deserialize`, the payee with `Address::from_str` on whatever network it
/// belongs to, the endpoint with `PjParam::parse`. An error of any of them is
/// given as its debug text; a version 2 endpoint is an error here. The body is the
/// base64 text of a PSBT of the original's transaction. A request is made only of
/// a PSBT that pays the payee once, and the asked amount where one is asked for;
/// of a plain PSBT that does, it is made, and is the text of that PSBT. Of whatever
/// PSBT a request is made with an amount asked for, the same is made with none.
#[verifier::external_body]
pub(crate) fn build_v1_request(
    original: &[u8],
    endpoint: &str,
    payee: &str,
    amount: Option<u64>,
    max_fee: u64,
    change_index: Option<usize>,
    min_fee_rate: u64,
    clamp: bool,
) -> (result: Result<Vec<u8>, String>)
    ensures
        bytes_or_text(result) == v1_request_body(
            original@,
            endpoint@,
            payee@,
            amount,
            max_fee,
            change_index,
            min_fee_rate,
            clamp,
        ),
        result matches Ok(body) ==> carries_transaction(body@, original@),
        made_only_of_payment(original@, payee@, amount, change_index, bytes_or_text(result)),
        made_where_suited(
            original@,
            endpoint@,
            payee@,
            amount,
            change_index,
            clamp,
            bytes_or_text(result),
        ),
        amount is None ==> made_for_any_amount(
            original@,
            endpoint@,
            payee@,
            max_fee,
            change_index,
            min_fee_rate,
            clamp,
            bytes_or_text(result),
        ),
{
    let psbt = Psbt::deserialize(original).map_err(|e| format!("{e:?}"))?;
    let payee = Address::from_str(payee).map_err(|e| format!("{e:?}"))?.assume_checked();
    let param = match PjParam::parse(endpoint) {
        Ok(PjParam::V1(param)) => param,
        other => return Err(format!("{other:?}")),
    };
    let (sat, rate) = (Amount::from_sat, FeeRate::from_sat_per_kwu(min_fee_rate));
    let sender = SenderBuilder::from_parts(psbt, &param, &payee, amount.map(sat))
        .build_with_additional_fee(sat(max_fee), change_index, rate, clamp)
        .map_err(|e| format!("{e:?}"))?;
    Ok(sender.create_v1_post_request().0.body)
}

/// The PSBT that a sender accepts from the response to its version 1 request,
/// or the error.
pub uninterp spec fn v1_response_psbt(
    original: Seq<u8>,
    endpoint: Seq<char>,
    payee: Seq<char>,
    amount: Option<u64>,
    max_fee: u64,
    change_index: Option<usize>,
    min_fee_rate: u64,
    clamp: bool,
    response: Seq<u8>,
) -> Result<Seq<u8>, Seq<char>>;

/// `payjoin::send::v1::V1Context::process_response`, on the context that
/// belongs to the request that [`build_v1_request`] gives for the same
/// arguments. The accepted PSBT is serialized; an error is given as its debug
/// text. The fee of the original PSBT and the length of the response are bounded
/// because fee rates are multiplied by weights there without a test of overflow.
/// The accepted PSBT is of the transaction that the response proposes. A plain
/// PSBT that suits its request and pays no more than it spends is accepted as the
/// response to it.
#[verifier::external_body]
pub(crate) fn process_v1_response(
    original: &[u8],
    endpoint: &str,
    payee: &str,
    amount: Option<u64>,
    max_fee: u64,
    change_index: Option<usize>,
    min_fee_rate: u64,
    clamp: bool,
    response: &[u8],
) -> (result: Result<Vec<u8>, String>)
    requires
        fee_in_range(original@),
        response@.len() <= MAX_PAYLOAD_LEN,
    ensures
        bytes_or_text(result) == v1_response_psbt(
            original@,
            endpoint@,
            payee@,
            amount,
            max_fee,
            change_index,
            min_fee_rate,
            clamp,
            response@,
        ),
        result matches Ok(psbt) ==> keeps_transaction(response@, psbt@),
        original_is_accepted(
            original@,
            endpoint@,
            payee@,
            amount,
            change_index,
            min_fee_rate,
            clamp,
            response@,
            bytes_or_text(result),
        ),
{
    let psbt = Psbt::deserialize(original).map_err(|e| format!("{e:?}"))?;
    let payee = Address::from_str(payee).map_err(|e| format!("{e:?}"))?.assume_checked();
    let param = match PjParam::parse(endpoint) {
        Ok(PjParam::V1(param)) => param,
        other => return Err(format!("{other:?}")),
    };
    let (sat, rate) = (Amount::from_sat, FeeRate::from_sat_per_kwu(min_fee_rate));
    let sender = SenderBuilder::from_parts(psbt, &param, &payee, amount.map(sat))
        .build_with_additional_fee(sat(max_fee), change_index, rate, clamp)
        .map_err(|e| format!("{e:?}"))?;
    let context = sender.create_v1_post_request().1;
    context.process_response(response).map(|p| p.serialize()).map_err(|e| format!("{e:?}"))
}

/// The HTTP headers that a request would have come with. None exist on the wire
/// between host and board: the content length is the length of the body, and
/// the content type is plain text.
#[derive(Debug)]
pub struct FixedHeaders {
    pub content_length: String,
}

impl FixedHeaders {
    /// The value of the header `key`.
    pub open spec fn header(self, key: Seq<char>) -> Option<Seq<char>> {
        if key == "content-length"@ {
            Some(self.content_length@)
        } else if key == "content-type"@ {
            Some("text/plain"@)
        } else {
            None
        }
    }

    /// The headers for a request with this body.
    pub fn for_body(body: &[u8]) -> (headers: FixedHeaders)
        ensures
            headers.content_length@ == text::decimal_digits(body@.len()),
    {
        FixedHeaders { content_length: text::decimal(body.len()) }
    }

    /// The value of the header `key`.
    pub fn lookup(&self, key: &str) -> (value: Option<&str>)
        ensures
            match value {
                Some(text) => self.header(key@) == Some(text@),
                None => self.header(key@) is None,
            },
    {
        if text::same_text(key, "content-length") {
            Some(self.content_length.as_str())
        } else if text::same_text(key, "content-type") {
            Some("text/plain")
        } else {
            None
        }
    }
}

impl Headers for FixedHeaders {
    fn get_header(&self, key: &str) -> (value: Option<&str>)
        ensures
            match value {
                Some(text) => self.header(key@) == Some(text@),
                None => self.header(key@) is None,
            },
    {
        self.lookup(key)
    }
}

/// The scripts of the outputs of the original PSBT that a request carries, in
/// order, once the request is through the checks that come before its outputs
/// are looked at; or the error. The headers are those of a [`FixedHeaders`]
/// with this content length.
pub uninterp spec fn request_output_scripts(
    body: Seq<u8>,
    query: Seq<char>,
    content_length: Seq<char>,
    inputs_owned: bool,
    inputs_seen: bool,
) -> Result<Seq<Seq<u8>>, Seq<char>>;

/// `payjoin::receive::v1`: `UncheckedOriginalPayload::from_request`,
/// `assume_interactive_receiver`, `check_inputs_not_owned` and
/// `check_no_inputs_seen_before`, each with the same answer for every input,
/// and the values of `outputs_owned_checklist`, which are the scripts of all the
/// outputs of the request's transaction. An error is given as its debug text.
/// There is none for the text of a plain PSBT without a query, where no input is
/// owned or known.
#[verifier::external_body]
pub(crate) fn output_scripts(
    body: &[u8],
    query: &str,
    headers: FixedHeaders,
    inputs_owned: bool,
    inputs_seen: bool,
) -> (result: Result<Vec<Vec<u8>>, String>)
    ensures
        rows_or_text(result) == request_output_scripts(
            body@,
            query@,
            headers.content_length@,
            inputs_owned,
            inputs_seen,
        ),
        result matches Ok(scripts) ==> pays_scripts(body@, rows(scripts@)),
        plain_request_is_read(
            body@,
            query@,
            headers.content_length@,
            inputs_owned,
            inputs_seen,
            rows_or_text(result),
        ),
{
    let text = |e| format!("{e:?}");
    let outputs = UncheckedOriginalPayload::from_request(body, query, headers)
        .map_err(text)?
        .assume_interactive_receiver()
        .check_inputs_not_owned(&mut |_| Ok(inputs_owned))
        .and_then(|seen| seen.check_no_inputs_seen_before(&mut |_| Ok(inputs_seen)))
        .map_err(text)?;
    Ok(outputs.outputs_owned_checklist().map(|item| item.value().to_bytes()).collect())
}

/// Gives the next of some marks; false, once there are no more.
fn next_mark(marks: &[bool], at: &mut usize) -> (mark: bool)
    ensures
        mark == (*old(at) < marks@.len() && marks@[*old(at) as int]),
        *final(at) == if *old(at) < marks@.len() {
            *old(at) + 1
        } else {
            *old(at) as int
        },
{
    if *at < marks.len() {
        let mark: bool = marks[*at];
        *at = *at + 1;
        mark
    } else {
        false
    }
}

/// Whether a request was read, there is a mark for each of its outputs, and one of
/// them is true.
pub open spec fn paid_and_read(
    scripts: Result<Seq<Seq<u8>>, Seq<char>>,
    marks: Seq<bool>,
) -> bool {
    scripts matches Ok(list) && list.len() == marks.len() && exists|i: int|
        0 <= i < marks.len() && #[trigger] marks[i]
}

/// The PSBT that a receiver proposes in answer to a request in which it takes
/// the marked outputs for its own and contributes nothing; or the error.
pub uninterp spec fn receiver_psbt(
    body: Seq<u8>,
    query: Seq<char>,
    content_length: Seq<char>,
    inputs_owned: bool,
    inputs_seen: bool,
    marks: Seq<bool>,
    min_fee_rate: Option<u64>,
    max_fee_rate: Option<u64>,
) -> Result<Seq<u8>, Seq<char>>;

/// `payjoin::receive::v1`: what [`output_scripts`] calls, then
/// `identify_receiver_outputs`, which asks once for each output in order and is
/// answered with the marks in order, `commit_outputs`, `commit_inputs`,
/// `apply_fee_range`, `finalize_proposal` with a signer that hands the PSBT back
/// as it is, and `psbt`. The proposal is serialized; an error is given as its
/// debug text. A request in which no output is marked is refused; one that is read
/// and has a mark for every output, at least one of them true, is not. No input
/// and no output is contributed: the proposal is of the request's own transaction,
/// and is the request's PSBT itself where that is plain.
#[verifier::external_body]
pub(crate) fn build_proposal(
    body: &[u8],
    query: &str,
    headers: FixedHeaders,
    inputs_owned: bool,
    inputs_seen: bool,
    marks: &[bool],
    min_fee_rate: Option<u64>,
    max_fee_rate: Option<u64>,
) -> (result: Result<Vec<u8>, String>)
    ensures
        bytes_or_text(result) == receiver_psbt(
            body@,
            query@,
            headers.content_length@,
            inputs_owned,
            inputs_seen,
            marks@,
            min_fee_rate,
            max_fee_rate,
        ),
        (forall|i: int| 0 <= i < marks@.len() ==> !#[trigger] marks@[i]) ==> result is Err,
        result matches Ok(psbt) ==> keeps_transaction(body@, psbt@),
        paid_and_read(
            request_output_scripts(
                body@,
                query@,
                headers.content_length@,
                inputs_owned,
                inputs_seen,
            ),
            marks@,
        ) ==> result is Ok,
        plain_psbt_is_kept(body@, bytes_or_text(result)),
{
    let (text, rate) = (|e| format!("{e:?}"), FeeRate::from_sat_per_kwu);
    let mut at: usize = 0;
    let proposal = UncheckedOriginalPayload::from_request(body, query, headers)
        .map_err(text)?
        .assume_interactive_receiver()
        .check_inputs_not_owned(&mut |_| Ok(inputs_owned))
        .and_then(|seen| seen.check_no_inputs_seen_before(&mut |_| Ok(inputs_seen)))
        .and_then(|o| o.identify_receiver_outputs(&mut |_| Ok(next_mark(marks, &mut at))))
        .map_err(text)?
        .commit_outputs()
        .commit_inputs()
        .apply_fee_range(min_fee_rate.map(rate), max_fee_rate.map(rate))
        .and_then(|unsigned| unsigned.finalize_proposal(|psbt| Ok(psbt.clone())))
        .map_err(text)?;
    Ok(proposal.psbt().serialize())
}

/// The character for six bits in the standard alphabet.
pub open spec fn base64_char(bits: int) -> char {
    "ABCDEFGHIJKLMNOPQRSTUVWXYZabcdefghijklmnopqrstuvwxyz0123456789+/"@[bits]
}

/// The four characters for three bytes.
pub open spec fn base64_quad(a: u8, b: u8, c: u8) -> Seq<char> {
    let bits = 65536 * a + 256 * b + c;
    seq![
        base64_char(bits / 262144),
        base64_char(bits / 4096 % 64),
        base64_char(bits / 64 % 64),
        base64_char(bits % 64),
    ]
}

/// `bytes` in base64: four characters for every three bytes, where missing bytes
/// count as zero and what stands for nothing but them is an equals sign.
pub open spec fn base64_text(bytes: Seq<u8>) -> Seq<char>
    decreases bytes.len(),
{
    if bytes.len() == 0 {
        Seq::empty()
    } else if bytes.len() == 1 {
        base64_quad(bytes[0], 0, 0).take(2) + seq!['=', '=']
    } else if bytes.len() == 2 {
        base64_quad(bytes[0], bytes[1], 0).take(3) + seq!['=']
    } else {
        base64_quad(bytes[0], bytes[1], bytes[2]) + base64_text(bytes.skip(3))
    }
}

/// Base64 takes four characters for every three bytes begun, and all of them are
/// ASCII.
pub proof fn lemma_base64_length(bytes: Seq<u8>)
    ensures
        base64_text(bytes).len() == 4 * ((bytes.len() + 2) / 3),
        utf8::is_ascii_chars(base64_text(bytes)),
        utf8::encode_utf8(base64_text(bytes)).len() == base64_text(bytes).len(),
    decreases bytes.len(),
{
    let text = base64_text(bytes);
    if bytes.len() >= 3 {
        let quad = base64_quad(bytes[0], bytes[1], bytes[2]);
        let others = base64_text(bytes.skip(3));
        lemma_base64_length(bytes.skip(3));
        lemma_base64_quad(bytes[0], bytes[1], bytes[2]);
        assert(text == quad + others);
        assert forall|i: int| 0 <= i < text.len() implies (#[trigger] text[i] as nat) < 128 by {
            if i < 4 {
                assert(text[i] == quad[i]);
            } else {
                assert(text[i] == others[i - 4]);
            }
        }
    } else if bytes.len() == 2 {
        lemma_base64_quad(bytes[0], bytes[1], 0);
    } else if bytes.len() == 1 {
        lemma_base64_quad(bytes[0], 0, 0);
    }
    assert(utf8::is_ascii_chars(text));
    utf8::is_ascii_chars_encode_utf8(text);
}

proof fn lemma_base64_quad(a: u8, b: u8, c: u8)
    ensures
        base64_quad(a, b, c).len() == 4,
        forall|i: int| 0 <= i < 4 ==> (#[trigger] base64_quad(a, b, c)[i] as nat) < 128,
{
    let bits = 65536 * a + 256 * b + c;
    lemma_base64_chars();
    assert(0 <= bits / 262144 < 64);
}

proof fn lemma_base64_chars()
    ensures
        forall|bits: int| 0 <= bits < 64 ==> (#[trigger] base64_char(bits) as nat) < 128,
{
    reveal_strlit("ABCDEFGHIJKLMNOPQRSTUVWXYZabcdefghijklmnopqrstuvwxyz0123456789+/");
}

/// `base64::engine::general_purpose::STANDARD.encode`: the standard alphabet,
/// with padding.
#[verifier::external_body]
pub(crate) fn encode_base64(bytes: &[u8]) -> (text: String)
    requires
        bytes@.len() <= MAX_PAYLOAD_LEN,
    ensures
        text@ == base64_text(bytes@),
{
    base64::engine::general_purpose::STANDARD.encode(bytes)
}

/// The SHA-256 digest of `data`.
pub uninterp spec fn sha256_digest(data: Seq<u8>) -> Seq<u8>;

/// `bitcoin::hashes::sha256`: a default `HashEngine`, `input`, and
/// `Hash::from_engine`.
#[verifier::external_body]
pub(crate) fn sha256_of(data: &[u8]) -> (digest: [u8; 32])
    ensures
        digest@ == sha256_digest(data@),
{
    let mut engine = sha256::HashEngine::default();
    engine.input(data);
    let hash: sha256::Hash = bitcoin::hashes::Hash::from_engine(engine);
    bitcoin::hashes::Hash::to_byte_array(hash)
}

/// `payjoin::directory::ShortId::from` on a SHA-256 hash: the first eight bytes.
#[verifier::external_body]
pub(crate) fn short_id_bytes(digest: &[u8; 32]) -> (id: [u8; 8])
    ensures
        id@ == digest@.take(8),
{
    let hash: sha256::Hash = bitcoin::hashes::Hash::from_byte_array(*digest);
    directory::ShortId::from(hash).0
}

/// `base` to the power of `exponent`.
pub open spec fn pow(base: nat, exponent: nat) -> nat
    decreases exponent,
{
    if exponent == 0 {
        1
    } else {
        base * pow(base, (exponent - 1) as nat)
    }
}

/// The number that `bytes` stand for, highest byte first.
pub open spec fn big_endian(bytes: Seq<u8>) -> nat
    decreases bytes.len(),
{
    if bytes.len() == 0 {
        0
    } else {
        256 * big_endian(bytes.drop_last()) + bytes.last() as nat
    }
}

/// The character for five bits in the bech32 alphabet, in upper case.
pub open spec fn bech32_char(bits: int) -> char {
    "QPZRY9X8GF2TVDW0S3JN54KHCE6MUA7L"@[bits]
}

/// The last `count` digits of `number` to the base 32.
pub open spec fn bech32_digits(number: nat, count: nat) -> Seq<char>
    decreases count,
{
    if count == 0 {
        Seq::empty()
    } else {
        bech32_digits(number / 32, (count - 1) as nat).push(bech32_char(number as int % 32))
    }
}

/// How a short id is written: its 64 bits and a zero bit, in groups of five.
pub open spec fn short_id_text(id: Seq<u8>) -> Seq<char> {
    bech32_digits(2 * big_endian(id), 13)
}

/// A short id is written with thirteen ASCII characters.
pub proof fn lemma_short_id_text(id: Seq<u8>)
    ensures
        short_id_text(id).len() == 13,
        utf8::encode_utf8(short_id_text(id)).len() == 13,
{
    let text = short_id_text(id);
    lemma_bech32_digits(2 * big_endian(id), 13);
    assert(utf8::is_ascii_chars(text));
    utf8::is_ascii_chars_encode_utf8(text);
}

proof fn lemma_bech32_digits(number: nat, count: nat)
    ensures
        bech32_digits(number, count).len() == count,
        forall|i: int|
            0 <= i < count ==> '\0' <= (#[trigger] bech32_digits(number, count)[i]) <= '\u{7f}',
    decreases count,
{
    reveal_strlit("QPZRY9X8GF2TVDW0S3JN54KHCE6MUA7L");
    if count > 0 {
        lemma_bech32_digits(number / 32, (count - 1) as nat);
    }
}

proof fn lemma_bech32_injective(a: int, b: int)
    requires
        0 <= a < 32,
        0 <= b < 32,
        bech32_char(a) == bech32_char(b),
    ensures
        a == b,
{
    reveal_strlit("QPZRY9X8GF2TVDW0S3JN54KHCE6MUA7L");
}

proof fn lemma_digits_injective(a: nat, b: nat, count: nat)
    requires
        bech32_digits(a, count) == bech32_digits(b, count),
        a < pow(32, count),
        b < pow(32, count),
    ensures
        a == b,
    decreases count,
{
    if count > 0 {
        let front_a = bech32_digits(a / 32, (count - 1) as nat);
        let front_b = bech32_digits(b / 32, (count - 1) as nat);
        assert(front_a =~= bech32_digits(a, count).drop_last());
        assert(front_b =~= bech32_digits(b, count).drop_last());
        assert(bech32_digits(a, count).last() == bech32_char(a as int % 32));
        assert(bech32_digits(b, count).last() == bech32_char(b as int % 32));
        lemma_bech32_injective(a as int % 32, b as int % 32);
        assert(pow(32, count) == 32 * pow(32, (count - 1) as nat));
        lemma_digits_injective(a / 32, b / 32, (count - 1) as nat);
    } else {
        assert(pow(32, 0) == 1);
    }
}

proof fn lemma_big_endian(a: Seq<u8>, b: Seq<u8>)
    requires
        a.len() == b.len(),
        big_endian(a) == big_endian(b),
    ensures
        a == b,
    decreases a.len(),
{
    if a.len() > 0 {
        lemma_big_endian(a.drop_last(), b.drop_last());
        assert(a =~= a.drop_last().push(a.last()));
        assert(b =~= b.drop_last().push(b.last()));
    } else {
        assert(a =~= b);
    }
}

proof fn lemma_big_endian_bound(bytes: Seq<u8>)
    ensures
        big_endian(bytes) < pow(256, bytes.len()),
    decreases bytes.len(),
{
    if bytes.len() > 0 {
        lemma_big_endian_bound(bytes.drop_last());
        assert(pow(256, bytes.len()) == 256 * pow(256, (bytes.len() - 1) as nat));
    } else {
        assert(pow(256, 0) == 1);
    }
}

/// No two short ids are written alike.
pub proof fn law_short_id_text_is_unambiguous(id: Seq<u8>, other: Seq<u8>)
    requires
        id.len() == 8,
        other.len() == 8,
        short_id_text(id) == short_id_text(other),
    ensures
        id == other,
{
    lemma_big_endian_bound(id);
    lemma_big_endian_bound(other);
    assert(2 * pow(256, 8) <= pow(32, 13)) by {
        reveal_with_fuel(pow, 14);
    }
    lemma_digits_injective(2 * big_endian(id), 2 * big_endian(other), 13);
    lemma_big_endian(id, other);
}

/// `payjoin::directory::ShortId`'s `Display`: bech32 in upper case, without a
/// checksum and without the human-readable part and its separator.
#[verifier::external_body]
pub(crate) fn write_short_id(id: &[u8; 8]) -> (text: String)
    ensures
        text@ == short_id_text(id@),
{
    format!("{}", directory::ShortId(*id))
}

/// What the text of a short id is read as, or the error.
pub uninterp spec fn short_id_read(text: Seq<char>) -> Result<Seq<u8>, Seq<char>>;

/// What returned id bytes, or a returned error text, stand for.
pub open spec fn id_or_text(result: Result<[u8; 8], String>) -> Result<Seq<u8>, Seq<char>> {
    match result {
        Ok(id) => Ok(id@),
        Err(text) => Err(text@),
    }
}

/// Whether `read` is the id that is written as `text`, where one is.
pub open spec fn reads_back(text: Seq<char>, read: Result<Seq<u8>, Seq<char>>) -> bool {
    forall|id: Seq<u8>|
        id.len() == 8 && text == #[trigger] short_id_text(id) ==> (read matches Ok(bytes) && bytes
            == id)
}

/// `payjoin::directory::ShortId`'s `FromStr`. An error is given as its debug
/// text. What its `Display` writes is read back.
#[verifier::external_body]
pub(crate) fn read_short_id(text: &str) -> (result: Result<[u8; 8], String>)
    ensures
        id_or_text(result) == short_id_read(text@),
        reads_back(text@, id_or_text(result)),
{
    directory::ShortId::from_str(text).map(|id| id.0).map_err(|e| format!("{e:?}"))
}

/// The script that pays to a witness public key hash: version zero, then a push
/// of the hash.
pub open spec fn p2wpkh_script(hash: Seq<u8>) -> Seq<u8> {
    seq![0x00u8, 0x14u8] + hash
}

/// `bitcoin::ScriptBuf::new_p2wpkh`.
#[verifier::external_body]
pub(crate) fn witness_script(hash: &[u8; 20]) -> (script: Vec<u8>)
    ensures
        script@ == p2wpkh_script(hash@),
{
    let hash: WPubkeyHash = bitcoin::hashes::Hash::from_byte_array(*hash);
    ScriptBuf::new_p2wpkh(&hash).into_bytes()
}

/// The address that a script belongs to on a network, or the error.
pub uninterp spec fn script_address(script: Seq<u8>, network: Seq<char>) -> Result<
    Seq<char>,
    Seq<char>,
>;

/// What a returned text, or a returned error text, stands for.
pub open spec fn text_or_text(result: Result<String, String>) -> Result<Seq<char>, Seq<char>> {
    match result {
        Ok(text) => Ok(text@),
        Err(text) => Err(text@),
    }
}

/// `bitcoin::Address::from_script`, on the network that `Network::from_str`
/// reads. The address is written as text; an error is given as its debug text.
/// Every script that pays to a witness public key hash has an address on the
/// test network.
#[verifier::external_body]
pub(crate) fn address_of(script: &[u8], network: &str) -> (result: Result<String, String>)
    ensures
        text_or_text(result) == script_address(script@, network@),
        network@ == "testnet"@ && script@.len() == 22 && script@ == p2wpkh_script(script@.skip(2))
            ==> result is Ok,
{
    let network = Network::from_str(network).map_err(|e| format!("{e:?}"))?;
    let script = ScriptBuf::from_bytes(script.to_vec());
    Address::from_script(&script, network).map(|a| a.to_string()).map_err(|e| format!("{e:?}"))
}

/// Amounts, each with the script that it is paid to.
pub open spec fn payments(list: Seq<(u64, Vec<u8>)>) -> Seq<(u64, Seq<u8>)> {
    list.map_values(|payment: (u64, Vec<u8>)| (payment.0, payment.1@))
}

/// The sum of some payments' amounts.
pub open spec fn total(list: Seq<(u64, Seq<u8>)>) -> nat
    decreases list.len(),
{
    if list.len() == 0 {
        0
    } else {
        total(list.drop_last()) + list.last().0 as nat
    }
}

/// A PSBT for an unsigned transaction that spends one output, of which only the
/// amount and the script are told, and makes some payments.
pub uninterp spec fn one_input_psbt(
    version: i32,
    lock_time: u32,
    txid: Seq<u8>,
    vout: u32,
    sequence: u32,
    outputs: Seq<(u64, Seq<u8>)>,
    spent_amount: u64,
    spent_script: Seq<u8>,
) -> Seq<u8>;

/// `bitcoin::Psbt::from_unsigned_tx` on a transaction whose one input has an
/// empty script and no witness, so that it cannot fail; then the witness UTXO of
/// that input is set, and the PSBT serialized. Where what is spent covers what
/// is paid, the difference is the fee of that PSBT, and the transaction reads back
/// as it was given. Scripts and outputs are kept
/// few and short: what is too large is not read back.
#[verifier::external_body]
pub(crate) fn build_psbt(
    version: i32,
    lock_time: u32,
    txid: &[u8; 32],
    vout: u32,
    sequence: u32,
    outputs: &Vec<(u64, Vec<u8>)>,
    spent: &(u64, Vec<u8>),
) -> (psbt: Vec<u8>)
    requires
        outputs@.len() <= 16,
        forall|i: int| 0 <= i < outputs@.len() ==> (#[trigger] outputs@[i]).1@.len() <= 64,
        spent.1@.len() <= 64,
    ensures
        psbt@ == one_input_psbt(
            version,
            lock_time,
            txid@,
            vout,
            sequence,
            payments(outputs@),
            spent.0,
            spent.1@,
        ),
        holds_transaction(psbt@, seq![(txid@, vout)], payments(outputs@)),
        total(payments(outputs@)) <= spent.0 ==> pays_fee(
            psbt@,
            spent.0 - total(payments(outputs@)),
        ),
{
    let pay = |(sat, script): &(u64, Vec<u8>)| TxOut {
        value: Amount::from_sat(*sat),
        script_pubkey: ScriptBuf::from_bytes(script.clone()),
    };
    let previous_output = OutPoint { txid: bitcoin::hashes::Hash::from_byte_array(*txid), vout };
    let input = TxIn { previous_output, sequence: Sequence(sequence), ..TxIn::default() };
    let tx = Transaction {
        version: Version(version),
        lock_time: LockTime::from_consensus(lock_time),
        input: vec![input],
        output: outputs.iter().map(pay).collect(),
    };
    let mut psbt = Psbt::from_unsigned_tx(tx).unwrap();
    psbt.inputs[0].witness_utxo = Some(pay(spent));
    psbt.serialize()
}

} // verus!
