//! What the host orchestrates: a version 1 round trip between two boards, and
//! the version 2 probe of one board.
//!
//! In a round trip the sender board's request goes to the receiver board, and
//! the receiver board's proposal goes back, each with its bytes as they are and
//! with the command tag that the other board accepts.
use vstd::prelude::*;
use vstd::string::StringExecFns;
use vstd::utf8;

use crate::host;
use crate::host::{FramedPort, PortError, PortOutcome};
use crate::proto::Command;
use crate::text;
use crate::transport;
use crate::transport::{Event, Transport};

verus! {

/// The frames that the host waits for.
#[derive(Debug, Clone, Copy, PartialEq, Eq, Structural)]
pub enum Due {
    /// The sender board's request.
    Request,
    /// The receiver board's proposal.
    Proposal,
    /// The sender board's word that it is through.
    Completion,
    /// The probed board's answer.
    ShortId,
    /// The request of a sender board that a tool plays the receiver for.
    DeviceRequest,
    /// The proposal of a receiver board that a tool plays the sender for.
    DeviceProposal,
}

impl Due {
    /// The command that the frame has to carry.
    pub open spec fn command(self) -> Command {
        match self {
            Due::Request => Command::OutRequest,
            Due::Proposal => Command::SignedPsbt,
            Due::Completion => Command::Status,
            Due::ShortId => Command::SignedPsbt,
            Due::DeviceRequest => Command::OutRequest,
            Due::DeviceProposal => Command::SignedPsbt,
        }
    }

    /// What is said when another frame came, up to the name of its command.
    pub open spec fn complaint(self) -> Seq<char> {
        match self {
            Due::Request => "expected OutRequest from sender board, got "@,
            Due::Proposal => "expected SignedPsbt from receiver board, got "@,
            Due::Completion => "expected a Status frame from sender at the end, got "@,
            Due::ShortId => "expected SignedPsbt (v2 probe response) from device, got "@,
            Due::DeviceRequest => "expected OutRequest from device, got "@,
            Due::DeviceProposal => "expected SignedPsbt from device, got "@,
        }
    }

    /// The command that the frame has to carry.
    pub fn expected(self) -> (command: Command)
        ensures
            command == self.command(),
    {
        match self {
            Due::Request => Command::OutRequest,
            Due::Proposal => Command::SignedPsbt,
            Due::Completion => Command::Status,
            Due::ShortId => Command::SignedPsbt,
            Due::DeviceRequest => Command::OutRequest,
            Due::DeviceProposal => Command::SignedPsbt,
        }
    }

    fn complaint_text(self) -> (text: &'static str)
        ensures
            text@ == self.complaint(),
    {
        match self {
            Due::Request => "expected OutRequest from sender board, got ",
            Due::Proposal => "expected SignedPsbt from receiver board, got ",
            Due::Completion => "expected a Status frame from sender at the end, got ",
            Due::ShortId => "expected SignedPsbt (v2 probe response) from device, got ",
            Due::DeviceRequest => "expected OutRequest from device, got ",
            Due::DeviceProposal => "expected SignedPsbt from device, got ",
        }
    }
}

/// Why the host gives up on a board.
#[derive(Debug)]
pub enum HostError<E> {
    /// The port failed.
    Port(PortError<E>),
    /// An intact frame came, with this command, while another was due.
    Unexpected(Due, Command),
    /// The board's answer is no text.
    NotUtf8,
}

impl<E> HostError<E> {
    /// How the error is put to the user.
    pub open spec fn message(self) -> Seq<char> {
        match self {
            HostError::Port(e) => e.message(),
            HostError::Unexpected(due, command) => due.complaint() + host::command_name(command),
            HostError::NotUtf8 => "device returned non-UTF-8 ShortId"@,
        }
    }

    /// How the error is put to the user.
    pub fn to_string(&self) -> (message: String)
        ensures
            message@ == self.message(),
    {
        match self {
            HostError::Port(e) => e.to_string(),
            HostError::Unexpected(due, command) => {
                let mut message = due.complaint_text().to_owned();
                message.append(host::command_text(*command));
                message
            },
            HostError::NotUtf8 => "device returned non-UTF-8 ShortId".to_owned(),
        }
    }
}

/// Why a round trip failed, and on whose side.
#[derive(Debug)]
pub enum RoundTripError<S, R> {
    Sender(HostError<S>),
    Receiver(HostError<R>),
}

impl<S, R> RoundTripError<S, R> {
    /// How the error is put to the user.
    pub open spec fn message(self) -> Seq<char> {
        match self {
            RoundTripError::Sender(e) => e.message(),
            RoundTripError::Receiver(e) => e.message(),
        }
    }

    /// How the error is put to the user.
    pub fn to_string(&self) -> (message: String)
        ensures
            message@ == self.message(),
    {
        match self {
            RoundTripError::Sender(e) => e.to_string(),
            RoundTripError::Receiver(e) => e.to_string(),
        }
    }
}

/// Reading a frame whose command has to be the one that is due.
pub open spec fn due_read<E>(due: Due, held: Seq<u8>, events: Seq<Event<E>>) -> Option<
    PortOutcome<Result<Seq<u8>, HostError<E>>, E>,
> {
    match host::port_read(held, events) {
        None => None,
        Some(outcome) => Some(
            PortOutcome {
                result: match outcome.result {
                    Ok((command, payload)) => if command == due.command() {
                        Ok(payload)
                    } else {
                        Err(HostError::Unexpected(due, command))
                    },
                    Err(e) => Err(HostError::Port(e)),
                },
                held: outcome.held,
                rest: outcome.rest,
            },
        ),
    }
}

/// Writing a frame on the host's behalf.
pub open spec fn tagged_write<E>(
    command: Command,
    payload: Seq<u8>,
    held: Seq<u8>,
    events: Seq<Event<E>>,
) -> Option<PortOutcome<Result<(), HostError<E>>, E>> {
    match host::port_written(command, payload, held, events) {
        None => None,
        Some(outcome) => Some(
            PortOutcome {
                result: match outcome.result {
                    Ok(()) => Ok(()),
                    Err(e) => Err(HostError::Port(e)),
                },
                held: outcome.held,
                rest: outcome.rest,
            },
        ),
    }
}

/// What returned bytes, or a returned error, stand for.
pub open spec fn due_result<E>(result: Result<Vec<u8>, HostError<E>>) -> Result<
    Seq<u8>,
    HostError<E>,
> {
    match result {
        Ok(bytes) => Ok(bytes@),
        Err(e) => Err(e),
    }
}

/// Reads the frame that is due and returns its payload.
pub fn read_due<T: Transport>(port: &mut FramedPort<T>, due: Due) -> (result: Result<
    Vec<u8>,
    HostError<T::Error>,
>)
    ensures
        old(port).log().is_prefix_of(final(port).log()),
        due_read(due, old(port).buf@, old(port).until(*final(port))) == Some(
            PortOutcome {
                result: due_result(result),
                held: final(port).buf@,
                rest: Seq::<Event<T::Error>>::empty(),
            },
        ),
{
    match port.read_frame() {
        Ok((command, payload)) => {
            if command == due.expected() {
                Ok(payload)
            } else {
                Err(HostError::Unexpected(due, command))
            }
        },
        Err(e) => Err(HostError::Port(e)),
    }
}

fn write_tagged<T: Transport>(port: &mut FramedPort<T>, command: Command, payload: &[u8]) -> (result:
    Result<(), HostError<T::Error>>)
    ensures
        old(port).log().is_prefix_of(final(port).log()),
        tagged_write(command, payload@, old(port).buf@, old(port).until(*final(port))) == Some(
            PortOutcome {
                result,
                held: final(port).buf@,
                rest: Seq::<Event<T::Error>>::empty(),
            },
        ),
{
    match port.write_frame(command, payload) {
        Ok(()) => Ok(()),
        Err(e) => Err(HostError::Port(e)),
    }
}

/// How far a round trip has come.
#[derive(Debug)]
pub enum Stage {
    /// The sender board is to send its request.
    AwaitRequest,
    /// This request is to go to the receiver board.
    RelayRequest(Vec<u8>),
    /// The receiver board is to send its proposal.
    AwaitProposal,
    /// This proposal is to go to the sender board.
    RelayProposal(Vec<u8>),
    /// The sender board is to report that it is through.
    AwaitStatus,
    /// The round trip is complete.
    Done,
}

/// What a [`Stage`] holds.
#[verifier::ext_equal]
pub enum Point {
    AwaitRequest,
    RelayRequest(Seq<u8>),
    AwaitProposal,
    RelayProposal(Seq<u8>),
    AwaitStatus,
    Done,
}

impl View for Stage {
    type V = Point;

    open spec fn view(&self) -> Point {
        match *self {
            Stage::AwaitRequest => Point::AwaitRequest,
            Stage::RelayRequest(bytes) => Point::RelayRequest(bytes@),
            Stage::AwaitProposal => Point::AwaitProposal,
            Stage::RelayProposal(bytes) => Point::RelayProposal(bytes@),
            Stage::AwaitStatus => Point::AwaitStatus,
            Stage::Done => Point::Done,
        }
    }
}

impl Point {
    /// How many steps are still to come.
    pub open spec fn steps_left(self) -> nat {
        match self {
            Point::AwaitRequest => 5,
            Point::RelayRequest(_) => 4,
            Point::AwaitProposal => 3,
            Point::RelayProposal(_) => 2,
            Point::AwaitStatus => 1,
            Point::Done => 0,
        }
    }

    /// What the host reports when it has come this far.
    pub open spec fn report(self) -> Seq<char> {
        match self {
            Point::AwaitRequest => "Waiting for the sender board's request..."@,
            Point::RelayRequest(bytes) => "Got "@ + text::decimal_digits(bytes.len())
                + " byte request from sender, relaying to receiver..."@,
            Point::AwaitProposal => "Waiting for the receiver board's signed proposal..."@,
            Point::RelayProposal(bytes) => "Got "@ + text::decimal_digits(bytes.len())
                + " byte proposal from receiver, relaying to sender..."@,
            Point::AwaitStatus =>
                "Waiting for the sender board to confirm it finalized the PSBT..."@,
            Point::Done => "Sender reported completion. Round trip done."@,
        }
    }
}

/// What is known of one port: the bytes that it holds and what its link is yet
/// to do.
#[verifier::ext_equal]
pub struct Link<E> {
    pub held: Seq<u8>,
    pub events: Seq<Event<E>>,
}

/// Where an operation on both boards' ports stands once it is through.
#[verifier::ext_equal]
pub struct Relayed<O, S, R> {
    pub result: Result<O, RoundTripError<S, R>>,
    pub sender: Link<S>,
    pub receiver: Link<R>,
}

/// What a step at the sender board's port came to.
pub open spec fn at_sender<P, O, S, R>(
    outcome: Option<PortOutcome<Result<P, HostError<S>>, S>>,
    next: spec_fn(P) -> O,
    receiver: Link<R>,
) -> Option<Relayed<O, S, R>> {
    match outcome {
        None => None,
        Some(outcome) => Some(
            Relayed {
                result: match outcome.result {
                    Ok(value) => Ok(next(value)),
                    Err(e) => Err(RoundTripError::Sender(e)),
                },
                sender: Link { held: outcome.held, events: outcome.rest },
                receiver,
            },
        ),
    }
}

/// What a step at the receiver board's port came to.
pub open spec fn at_receiver<P, O, S, R>(
    outcome: Option<PortOutcome<Result<P, HostError<R>>, R>>,
    next: spec_fn(P) -> O,
    sender: Link<S>,
) -> Option<Relayed<O, S, R>> {
    match outcome {
        None => None,
        Some(outcome) => Some(
            Relayed {
                result: match outcome.result {
                    Ok(value) => Ok(next(value)),
                    Err(e) => Err(RoundTripError::Receiver(e)),
                },
                sender,
                receiver: Link { held: outcome.held, events: outcome.rest },
            },
        ),
    }
}

/// One step of a round trip. What was read as a request is written as the
/// original PSBT, what was read as the signed PSBT is written as the response.
pub open spec fn stepped<S, R>(point: Point, sender: Link<S>, receiver: Link<R>) -> Option<
    Relayed<Point, S, R>,
> {
    match point {
        Point::AwaitRequest => at_sender(
            due_read(Due::Request, sender.held, sender.events),
            |bytes: Seq<u8>| Point::RelayRequest(bytes),
            receiver,
        ),
        Point::RelayRequest(bytes) => at_receiver(
            tagged_write(Command::OriginalPsbt, bytes, receiver.held, receiver.events),
            |done: ()| Point::AwaitProposal,
            sender,
        ),
        Point::AwaitProposal => at_receiver(
            due_read(Due::Proposal, receiver.held, receiver.events),
            |bytes: Seq<u8>| Point::RelayProposal(bytes),
            sender,
        ),
        Point::RelayProposal(bytes) => at_sender(
            tagged_write(Command::InResponse, bytes, sender.held, sender.events),
            |done: ()| Point::AwaitStatus,
            receiver,
        ),
        Point::AwaitStatus => at_sender(
            due_read(Due::Completion, sender.held, sender.events),
            |bytes: Seq<u8>| Point::Done,
            receiver,
        ),
        Point::Done => Some(Relayed { result: Ok(Point::Done), sender, receiver }),
    }
}

/// What a round trip that has come to `point` comes to in the end.
pub open spec fn round_trip<S, R>(point: Point, sender: Link<S>, receiver: Link<R>) -> Option<
    Relayed<(), S, R>,
>
    decreases point.steps_left(),
{
    if point is Done {
        Some(Relayed { result: Ok(()), sender, receiver })
    } else {
        match stepped(point, sender, receiver) {
            None => None,
            Some(step) => match step.result {
                Ok(next) => round_trip(next, step.sender, step.receiver),
                Err(e) => Some(
                    Relayed { result: Err(e), sender: step.sender, receiver: step.receiver },
                ),
            },
        }
    }
}

/// A port's part in an operation that took it from `before` to `after`, where
/// the link goes on with `more`.
pub open spec fn link<T: Transport>(
    before: FramedPort<T>,
    after: FramedPort<T>,
    more: Seq<Event<T::Error>>,
) -> Link<T::Error> {
    Link { held: before.buf@, events: before.until(after) + more }
}

/// A port that has done its part, on a link that goes on with `more`.
pub open spec fn settled<T: Transport>(
    port: FramedPort<T>,
    more: Seq<Event<T::Error>>,
) -> Link<T::Error> {
    Link { held: port.buf@, events: more }
}

/// What a returned stage, or a returned error, stands for.
pub open spec fn stage_result<S, R>(result: Result<Stage, RoundTripError<S, R>>) -> Result<
    Point,
    RoundTripError<S, R>,
> {
    match result {
        Ok(stage) => Ok(stage@),
        Err(e) => Err(e),
    }
}

impl Stage {
    /// What the host reports when it has come this far.
    pub fn announcement(&self) -> (report: String)
        ensures
            report@ == self@.report(),
    {
        match self {
            Stage::AwaitRequest => "Waiting for the sender board's request...".to_owned(),
            Stage::RelayRequest(bytes) => {
                let mut report = "Got ".to_owned();
                report.append(text::decimal(bytes.len()).as_str());
                report.append(" byte request from sender, relaying to receiver...");
                report
            },
            Stage::AwaitProposal =>
                "Waiting for the receiver board's signed proposal...".to_owned(),
            Stage::RelayProposal(bytes) => {
                let mut report = "Got ".to_owned();
                report.append(text::decimal(bytes.len()).as_str());
                report.append(" byte proposal from receiver, relaying to sender...");
                report
            },
            Stage::AwaitStatus =>
                "Waiting for the sender board to confirm it finalized the PSBT...".to_owned(),
            Stage::Done => "Sender reported completion. Round trip done.".to_owned(),
        }
    }

    /// Whether the round trip is complete.
    pub fn is_done(&self) -> (done: bool)
        ensures
            done == (self@ is Done),
    {
        matches!(self, Stage::Done)
    }
}

/// Takes a round trip one step further.
pub fn step<S: Transport, R: Transport>(
    stage: Stage,
    sender: &mut FramedPort<S>,
    receiver: &mut FramedPort<R>,
) -> (result: Result<Stage, RoundTripError<S::Error, R::Error>>)
    ensures
        old(sender).log().is_prefix_of(final(sender).log()),
        old(receiver).log().is_prefix_of(final(receiver).log()),
        forall|x: Seq<Event<S::Error>>, y: Seq<Event<R::Error>>|
            #[trigger] stepped(
                stage@,
                link(*old(sender), *final(sender), x),
                link(*old(receiver), *final(receiver), y),
            ) == Some(
                Relayed {
                    result: stage_result(result),
                    sender: settled(*final(sender), x),
                    receiver: settled(*final(receiver), y),
                },
            ),
{
    let ghost sender_before = *sender;
    let ghost receiver_before = *receiver;
    let result = match stage {
        Stage::AwaitRequest => match read_due(sender, Due::Request) {
            Ok(bytes) => Ok(Stage::RelayRequest(bytes)),
            Err(e) => Err(RoundTripError::Sender(e)),
        },
        Stage::RelayRequest(bytes) => match write_tagged(
            receiver,
            Command::OriginalPsbt,
            bytes.as_slice(),
        ) {
            Ok(()) => Ok(Stage::AwaitProposal),
            Err(e) => Err(RoundTripError::Receiver(e)),
        },
        Stage::AwaitProposal => match read_due(receiver, Due::Proposal) {
            Ok(bytes) => Ok(Stage::RelayProposal(bytes)),
            Err(e) => Err(RoundTripError::Receiver(e)),
        },
        Stage::RelayProposal(bytes) => match write_tagged(
            sender,
            Command::InResponse,
            bytes.as_slice(),
        ) {
            Ok(()) => Ok(Stage::AwaitStatus),
            Err(e) => Err(RoundTripError::Sender(e)),
        },
        Stage::AwaitStatus => match read_due(sender, Due::Completion) {
            Ok(_) => Ok(Stage::Done),
            Err(e) => Err(RoundTripError::Sender(e)),
        },
        Stage::Done => Ok(Stage::Done),
    };
    proof {
        assert forall|x: Seq<Event<S::Error>>, y: Seq<Event<R::Error>>|
            #[trigger] stepped(
                stage@,
                link(sender_before, *sender, x),
                link(receiver_before, *receiver, y),
            ) == Some(
                Relayed {
                    result: stage_result(result),
                    sender: settled(*sender, x),
                    receiver: settled(*receiver, y),
                },
            ) by {
            let es = sender_before.until(*sender);
            let er = receiver_before.until(*receiver);
            let none_s = Seq::<Event<S::Error>>::empty();
            let none_r = Seq::<Event<R::Error>>::empty();
            assert(none_s + x =~= x);
            assert(none_r + y =~= y);
            match stage@ {
                Point::AwaitRequest | Point::AwaitStatus => {
                    assert(er =~= none_r);
                    host::lemma_port_read_then(sender_before.buf@, es, x);
                },
                Point::AwaitProposal => {
                    assert(es =~= none_s);
                    host::lemma_port_read_then(receiver_before.buf@, er, y);
                },
                Point::RelayRequest(bytes) => {
                    assert(es =~= none_s);
                    host::lemma_port_written_then(
                        Command::OriginalPsbt,
                        bytes,
                        receiver_before.buf@,
                        er,
                        y,
                    );
                },
                Point::RelayProposal(bytes) => {
                    assert(er =~= none_r);
                    host::lemma_port_written_then(
                        Command::InResponse,
                        bytes,
                        sender_before.buf@,
                        es,
                        x,
                    );
                },
                Point::Done => {
                    assert(es =~= none_s);
                    assert(er =~= none_r);
                },
            }
        }
    }
    result
}

/// Runs a version 1 round trip between the board behind `sender` and the board
/// behind `receiver`.
pub fn run_v1_roundtrip<S: Transport, R: Transport>(
    sender: &mut FramedPort<S>,
    receiver: &mut FramedPort<R>,
) -> (result: Result<(), RoundTripError<S::Error, R::Error>>)
    ensures
        old(sender).log().is_prefix_of(final(sender).log()),
        old(receiver).log().is_prefix_of(final(receiver).log()),
        round_trip(
            Point::AwaitRequest,
            Link { held: old(sender).buf@, events: old(sender).until(*final(sender)) },
            Link { held: old(receiver).buf@, events: old(receiver).until(*final(receiver)) },
        ) == Some(
            Relayed {
                result,
                sender: settled(*final(sender), Seq::empty()),
                receiver: settled(*final(receiver), Seq::empty()),
            },
        ),
{
    let ghost sender_start = *sender;
    let ghost receiver_start = *receiver;
    let ghost none_s = Seq::<Event<S::Error>>::empty();
    let ghost none_r = Seq::<Event<R::Error>>::empty();
    let mut stage = Stage::AwaitRequest;
    proof {
        assert forall|x: Seq<Event<S::Error>>, y: Seq<Event<R::Error>>|
            #[trigger] round_trip(
                Point::AwaitRequest,
                link(sender_start, *sender, x),
                link(receiver_start, *receiver, y),
            ) == round_trip(stage@, settled(*sender, x), settled(*receiver, y)) by {
            assert(sender_start.until(*sender) + x =~= x);
            assert(receiver_start.until(*receiver) + y =~= y);
        }
    }
    while !stage.is_done()
        invariant
            sender_start == *old(sender),
            receiver_start == *old(receiver),
            none_s == Seq::<Event<S::Error>>::empty(),
            none_r == Seq::<Event<R::Error>>::empty(),
            sender_start.log().is_prefix_of(sender.log()),
            receiver_start.log().is_prefix_of(receiver.log()),
            forall|x: Seq<Event<S::Error>>, y: Seq<Event<R::Error>>|
                #[trigger] round_trip(
                    Point::AwaitRequest,
                    link(sender_start, *sender, x),
                    link(receiver_start, *receiver, y),
                ) == round_trip(stage@, settled(*sender, x), settled(*receiver, y)),
        decreases stage@.steps_left(),
    {
        let ghost point = stage@;
        let ghost sender_before = *sender;
        let ghost receiver_before = *receiver;
        let result = step(stage, sender, receiver);
        proof {
            transport::lemma_since(sender_start.log(), sender_before.log(), sender.log());
            transport::lemma_since(receiver_start.log(), receiver_before.log(), receiver.log());
            assert forall|x: Seq<Event<S::Error>>, y: Seq<Event<R::Error>>|
                #[trigger] round_trip(
                    Point::AwaitRequest,
                    link(sender_start, *sender, x),
                    link(receiver_start, *receiver, y),
                ) == round_trip(
                    point,
                    link(sender_before, *sender, x),
                    link(receiver_before, *receiver, y),
                ) by {
                let xs = sender_before.until(*sender) + x;
                let ys = receiver_before.until(*receiver) + y;
                assert(link(sender_start, *sender, x) =~= link(sender_start, sender_before, xs));
                assert(link(receiver_start, *receiver, y) =~= link(
                    receiver_start,
                    receiver_before,
                    ys,
                ));
                assert(round_trip(
                    Point::AwaitRequest,
                    link(sender_start, sender_before, xs),
                    link(receiver_start, receiver_before, ys),
                ) == round_trip(
                    point,
                    settled(sender_before, xs),
                    settled(receiver_before, ys),
                ));
            }
            assert(sender_start.until(*sender) + none_s =~= sender_start.until(*sender));
            assert(receiver_start.until(*receiver) + none_r =~= receiver_start.until(*receiver));
            assert(round_trip(
                Point::AwaitRequest,
                link(sender_start, *sender, none_s),
                link(receiver_start, *receiver, none_r),
            ) == round_trip(
                point,
                link(sender_before, *sender, none_s),
                link(receiver_before, *receiver, none_r),
            ));
        }
        match result {
            Ok(next) => {
                proof {
                    assert forall|x: Seq<Event<S::Error>>, y: Seq<Event<R::Error>>|
                        #[trigger] round_trip(
                            Point::AwaitRequest,
                            link(sender_start, *sender, x),
                            link(receiver_start, *receiver, y),
                        ) == round_trip(next@, settled(*sender, x), settled(*receiver, y)) by {
                        assert(stepped(
                            point,
                            link(sender_before, *sender, x),
                            link(receiver_before, *receiver, y),
                        ) is Some);
                    }
                    assert(stepped(
                        point,
                        link(sender_before, *sender, none_s),
                        link(receiver_before, *receiver, none_r),
                    ) is Some);
                }
                stage = next;
            },
            Err(e) => {
                assert(stepped(
                    point,
                    link(sender_before, *sender, none_s),
                    link(receiver_before, *receiver, none_r),
                ) is Some);
                return Err(e);
            },
        }
    }
    proof {
        assert(sender_start.until(*sender) + none_s =~= sender_start.until(*sender));
        assert(receiver_start.until(*receiver) + none_r =~= receiver_start.until(*receiver));
        assert(round_trip(
            Point::AwaitRequest,
            link(sender_start, *sender, none_s),
            link(receiver_start, *receiver, none_r),
        ) == round_trip(stage@, settled(*sender, none_s), settled(*receiver, none_r)));
    }
    Ok(())
}

/// The text that the probed board's answer stands for.
pub open spec fn short_id_answer<E>(payload: Seq<u8>) -> Result<Seq<char>, HostError<E>> {
    if utf8::valid_utf8(payload) {
        Ok(utf8::decode_utf8(payload))
    } else {
        Err(HostError::NotUtf8)
    }
}

/// Reading the probed board's answer.
pub open spec fn answer_read<E>(held: Seq<u8>, events: Seq<Event<E>>) -> Option<
    PortOutcome<Result<Seq<char>, HostError<E>>, E>,
> {
    match due_read(Due::ShortId, held, events) {
        None => None,
        Some(read) => Some(
            PortOutcome {
                result: match read.result {
                    Ok(payload) => short_id_answer(payload),
                    Err(e) => Err(e),
                },
                held: read.held,
                rest: read.rest,
            },
        ),
    }
}

/// Probing a board: the seed goes out as the original PSBT, and the answer comes
/// back as the signed PSBT.
pub open spec fn probed<E>(seed: Seq<u8>, held: Seq<u8>, events: Seq<Event<E>>) -> Option<
    PortOutcome<Result<Seq<char>, HostError<E>>, E>,
> {
    match tagged_write(Command::OriginalPsbt, seed, held, events) {
        None => None,
        Some(written) => match written.result {
            Err(e) => Some(
                PortOutcome { result: Err(e), held: written.held, rest: written.rest },
            ),
            Ok(()) => answer_read(written.held, written.rest),
        },
    }
}

/// What a returned text, or a returned error, stands for.
pub open spec fn text_result<E>(result: Result<String, HostError<E>>) -> Result<
    Seq<char>,
    HostError<E>,
> {
    match result {
        Ok(text) => Ok(text@),
        Err(e) => Err(e),
    }
}

/// Hands `seed` to the board behind `device`.
pub fn send_seed<T: Transport>(device: &mut FramedPort<T>, seed: &[u8]) -> (result: Result<
    (),
    HostError<T::Error>,
>)
    ensures
        old(device).log().is_prefix_of(final(device).log()),
        tagged_write(
            Command::OriginalPsbt,
            seed@,
            old(device).buf@,
            old(device).until(*final(device)),
        ) == Some(
            PortOutcome {
                result,
                held: final(device).buf@,
                rest: Seq::<Event<T::Error>>::empty(),
            },
        ),
{
    write_tagged(device, Command::OriginalPsbt, seed)
}

/// Reads the short id that the board behind `device` answers a seed with.
pub fn read_short_id<T: Transport>(device: &mut FramedPort<T>) -> (result: Result<
    String,
    HostError<T::Error>,
>)
    ensures
        old(device).log().is_prefix_of(final(device).log()),
        answer_read(old(device).buf@, old(device).until(*final(device))) == Some(
            PortOutcome {
                result: text_result(result),
                held: final(device).buf@,
                rest: Seq::<Event<T::Error>>::empty(),
            },
        ),
{
    match read_due(device, Due::ShortId) {
        Ok(payload) => match text::utf8_text(payload) {
            Some(encoded) => Ok(encoded),
            None => Err(HostError::NotUtf8),
        },
        Err(e) => Err(e),
    }
}

/// Hands `seed` to the board behind `device` and returns the short id that the
/// board says it has. Whether it is the right one is for the caller to check.
pub fn run_v2_probe<T: Transport>(device: &mut FramedPort<T>, seed: &[u8]) -> (result: Result<
    String,
    HostError<T::Error>,
>)
    ensures
        old(device).log().is_prefix_of(final(device).log()),
        probed(seed@, old(device).buf@, old(device).until(*final(device))) == Some(
            PortOutcome {
                result: text_result(result),
                held: final(device).buf@,
                rest: Seq::<Event<T::Error>>::empty(),
            },
        ),
{
    let ghost start = *device;
    let written = send_seed(device, seed);
    let ghost middle = *device;
    match written {
        Ok(()) => {
            let result = read_short_id(device);
            proof {
                let none = Seq::<Event<T::Error>>::empty();
                transport::lemma_since(start.log(), middle.log(), device.log());
                host::lemma_port_written_then(
                    Command::OriginalPsbt,
                    seed@,
                    start.buf@,
                    start.until(middle),
                    middle.until(*device),
                );
                assert(none + middle.until(*device) =~= middle.until(*device));
            }
            result
        },
        Err(e) => Err(e),
    }
}

} // verus!
