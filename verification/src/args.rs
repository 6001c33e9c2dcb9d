//! What the host program is asked to do on its command line.
use vstd::prelude::*;
use vstd::std_specs::iter::IteratorSpec;
use vstd::string::StringExecFns;

use crate::text;

verus! {

/// What the host orchestrates.
#[derive(Debug, Clone, Copy, PartialEq, Eq, Structural)]
pub enum Mode {
    /// A version 1 round trip between two boards.
    V1,
    /// The version 2 probe of one board.
    V2Probe,
}

/// The flags of the command line. Each takes a value.
#[derive(Debug, Clone, Copy, PartialEq, Eq, Structural)]
pub enum Flag {
    Mode,
    SenderPort,
    ReceiverPort,
    DevicePort,
    Seed,
    Baud,
}

/// A command line that makes sense: in mode `V1` both boards' ports are given,
/// in mode `V2Probe` the device's port and the seed.
#[derive(Debug)]
pub struct Args {
    pub mode: Mode,
    pub sender_port: Option<String>,
    pub receiver_port: Option<String>,
    pub device_port: Option<String>,
    pub seed: Option<String>,
    pub baud: u32,
}

/// Why a command line makes no sense.
#[derive(Debug)]
pub enum ArgsError {
    /// The flag is the last argument.
    MissingValue(Flag),
    /// No mode has this name.
    UnknownMode(String),
    /// The value of `--baud` is no number.
    BaudNotANumber,
    /// No flag is written like this.
    UnknownArgument(String),
    /// The mode asks for this flag.
    Required(Flag, Mode),
}

/// What an [`Args`] holds, or is to hold once the command line is read.
#[verifier::ext_equal]
pub struct Settings {
    pub mode: Mode,
    pub sender_port: Option<Seq<char>>,
    pub receiver_port: Option<Seq<char>>,
    pub device_port: Option<Seq<char>>,
    pub seed: Option<Seq<char>>,
    pub baud: u32,
}

/// What an [`ArgsError`] says.
#[verifier::ext_equal]
pub enum Refusal {
    MissingValue(Flag),
    UnknownMode(Seq<char>),
    BaudNotANumber,
    UnknownArgument(Seq<char>),
    Required(Flag, Mode),
}

/// The text behind an optional string.
pub open spec fn text_of(value: Option<String>) -> Option<Seq<char>> {
    match value {
        Some(s) => Some(s@),
        None => None,
    }
}

impl View for Args {
    type V = Settings;

    open spec fn view(&self) -> Settings {
        Settings {
            mode: self.mode,
            sender_port: text_of(self.sender_port),
            receiver_port: text_of(self.receiver_port),
            device_port: text_of(self.device_port),
            seed: text_of(self.seed),
            baud: self.baud,
        }
    }
}

impl View for ArgsError {
    type V = Refusal;

    open spec fn view(&self) -> Refusal {
        match *self {
            ArgsError::MissingValue(flag) => Refusal::MissingValue(flag),
            ArgsError::UnknownMode(name) => Refusal::UnknownMode(name@),
            ArgsError::BaudNotANumber => Refusal::BaudNotANumber,
            ArgsError::UnknownArgument(argument) => Refusal::UnknownArgument(argument@),
            ArgsError::Required(flag, mode) => Refusal::Required(flag, mode),
        }
    }
}

impl Mode {
    /// How the mode is written.
    pub open spec fn name(self) -> Seq<char> {
        match self {
            Mode::V1 => "v1"@,
            Mode::V2Probe => "v2-probe"@,
        }
    }

    /// How the mode is written.
    pub fn as_str(self) -> (name: &'static str)
        ensures
            name@ == self.name(),
    {
        match self {
            Mode::V1 => "v1",
            Mode::V2Probe => "v2-probe",
        }
    }
}

impl Flag {
    /// How the flag is written.
    pub open spec fn name(self) -> Seq<char> {
        match self {
            Flag::Mode => "--mode"@,
            Flag::SenderPort => "--sender-port"@,
            Flag::ReceiverPort => "--receiver-port"@,
            Flag::DevicePort => "--device-port"@,
            Flag::Seed => "--seed"@,
            Flag::Baud => "--baud"@,
        }
    }

    /// The flag that is written as `argument`.
    pub open spec fn of_name(argument: Seq<char>) -> Option<Flag> {
        if argument == "--mode"@ {
            Some(Flag::Mode)
        } else if argument == "--sender-port"@ {
            Some(Flag::SenderPort)
        } else if argument == "--receiver-port"@ {
            Some(Flag::ReceiverPort)
        } else if argument == "--device-port"@ {
            Some(Flag::DevicePort)
        } else if argument == "--seed"@ {
            Some(Flag::Seed)
        } else if argument == "--baud"@ {
            Some(Flag::Baud)
        } else {
            None
        }
    }

    /// How the flag is written.
    pub fn as_str(self) -> (name: &'static str)
        ensures
            name@ == self.name(),
    {
        match self {
            Flag::Mode => "--mode",
            Flag::SenderPort => "--sender-port",
            Flag::ReceiverPort => "--receiver-port",
            Flag::DevicePort => "--device-port",
            Flag::Seed => "--seed",
            Flag::Baud => "--baud",
        }
    }

    /// The flag that is written as `argument`.
    pub fn from_name(argument: &str) -> (flag: Option<Flag>)
        ensures
            flag == Flag::of_name(argument@),
    {
        if text::same_text(argument, "--mode") {
            Some(Flag::Mode)
        } else if text::same_text(argument, "--sender-port") {
            Some(Flag::SenderPort)
        } else if text::same_text(argument, "--receiver-port") {
            Some(Flag::ReceiverPort)
        } else if text::same_text(argument, "--device-port") {
            Some(Flag::DevicePort)
        } else if text::same_text(argument, "--seed") {
            Some(Flag::Seed)
        } else if text::same_text(argument, "--baud") {
            Some(Flag::Baud)
        } else {
            None
        }
    }
}

/// What holds before any argument is read.
pub open spec fn defaults() -> Settings {
    Settings {
        mode: Mode::V1,
        sender_port: None,
        receiver_port: None,
        device_port: None,
        seed: None,
        baud: 115_200,
    }
}

impl Settings {
    /// These settings once `flag` is given the value `value`.
    pub open spec fn with(self, flag: Flag, value: Seq<char>) -> Result<Settings, Refusal> {
        match flag {
            Flag::Mode => if value == Mode::V1.name() {
                Ok(Settings { mode: Mode::V1, ..self })
            } else if value == Mode::V2Probe.name() {
                Ok(Settings { mode: Mode::V2Probe, ..self })
            } else {
                Err(Refusal::UnknownMode(value))
            },
            Flag::SenderPort => Ok(Settings { sender_port: Some(value), ..self }),
            Flag::ReceiverPort => Ok(Settings { receiver_port: Some(value), ..self }),
            Flag::DevicePort => Ok(Settings { device_port: Some(value), ..self }),
            Flag::Seed => Ok(Settings { seed: Some(value), ..self }),
            Flag::Baud => match text::parsed_u32(value) {
                Some(baud) => Ok(Settings { baud, ..self }),
                None => Err(Refusal::BaudNotANumber),
            },
        }
    }

    /// The first flag that the mode asks for and that was not given.
    pub open spec fn missing(self) -> Option<Flag> {
        match self.mode {
            Mode::V1 => if self.sender_port is None {
                Some(Flag::SenderPort)
            } else if self.receiver_port is None {
                Some(Flag::ReceiverPort)
            } else {
                None
            },
            Mode::V2Probe => if self.device_port is None {
                Some(Flag::DevicePort)
            } else if self.seed is None {
                Some(Flag::Seed)
            } else {
                None
            },
        }
    }
}

/// Reading `arguments` from left to right, in pairs of a flag and its value,
/// where `settings` holds what was read before.
pub open spec fn settings_from(arguments: Seq<Seq<char>>, settings: Settings) -> Result<
    Settings,
    Refusal,
>
    decreases arguments.len(),
{
    if arguments.len() == 0 {
        Ok(settings)
    } else {
        match Flag::of_name(arguments[0]) {
            None => Err(Refusal::UnknownArgument(arguments[0])),
            Some(flag) => if arguments.len() == 1 {
                Err(Refusal::MissingValue(flag))
            } else {
                match settings.with(flag, arguments[1]) {
                    Ok(next) => settings_from(arguments.skip(2), next),
                    Err(e) => Err(e),
                }
            },
        }
    }
}

/// How many of `arguments` are looked at: all of them, or those up to the one
/// that is refused.
pub open spec fn arguments_read(arguments: Seq<Seq<char>>, settings: Settings) -> nat
    decreases arguments.len(),
{
    if arguments.len() == 0 {
        0
    } else {
        match Flag::of_name(arguments[0]) {
            None => 1,
            Some(flag) => if arguments.len() == 1 {
                1
            } else {
                match settings.with(flag, arguments[1]) {
                    Ok(next) => 2 + arguments_read(arguments.skip(2), next),
                    Err(_) => 2,
                }
            },
        }
    }
}

/// What a whole command line comes to.
pub open spec fn parsed(arguments: Seq<Seq<char>>) -> Result<Settings, Refusal> {
    match settings_from(arguments, defaults()) {
        Ok(settings) => match settings.missing() {
            None => Ok(settings),
            Some(flag) => Err(Refusal::Required(flag, settings.mode)),
        },
        Err(e) => Err(e),
    }
}

/// The texts of a row of strings.
pub open spec fn texts(strings: Seq<String>) -> Seq<Seq<char>> {
    strings.map_values(|s: String| s@)
}

/// What a returned command line, or a returned error, stands for.
pub open spec fn args_result(result: Result<Args, ArgsError>) -> Result<Settings, Refusal> {
    match result {
        Ok(args) => Ok(args@),
        Err(e) => Err(e@),
    }
}

impl Args {
    /// Whether everything that the mode asks for is there.
    pub open spec fn complete(self) -> bool {
        match self.mode {
            Mode::V1 => self.sender_port is Some && self.receiver_port is Some,
            Mode::V2Probe => self.device_port is Some && self.seed is Some,
        }
    }

    /// Reads a command line, without the program's name.
    pub fn parse_from<I: Iterator<Item = String>>(args: I) -> (result: Result<Args, ArgsError>)
        requires
            args.obeys_prophetic_iter_laws(),
            args.decrease() is Some,
        ensures
            args_result(result) == parsed(texts(args.remaining())),
            result matches Ok(parsed) ==> parsed.complete(),
    {
        let mut iter = args;
        Args::parse_iter(&mut iter)
    }

    /// Reads a command line from an iterator. Nothing is taken from it after the
    /// first argument that is refused.
    pub fn parse_iter<I: Iterator<Item = String>>(iter: &mut I) -> (result: Result<
        Args,
        ArgsError,
    >)
        requires
            <I as IteratorSpec>::obeys_prophetic_iter_laws(old(iter)),
            <I as IteratorSpec>::decrease(old(iter)) is Some,
        ensures
            args_result(result) == parsed(texts(<I as IteratorSpec>::remaining(old(iter)))),
            result matches Ok(parsed) ==> parsed.complete(),
            <I as IteratorSpec>::obeys_prophetic_iter_laws(final(iter)),
            <I as IteratorSpec>::remaining(final(iter)) == <I as IteratorSpec>::remaining(
                old(iter),
            ).skip(
                arguments_read(
                    texts(<I as IteratorSpec>::remaining(old(iter))),
                    defaults(),
                ) as int,
            ),
    {
        let mut args = Args {
            mode: Mode::V1,
            sender_port: None,
            receiver_port: None,
            device_port: None,
            seed: None,
            baud: 115_200,
        };
        let ghost mut taken: int = 0;
        assert(<I as IteratorSpec>::remaining(iter).skip(0) =~= <I as IteratorSpec>::remaining(
            iter,
        ));
        loop
            invariant
                <I as IteratorSpec>::obeys_prophetic_iter_laws(iter),
                <I as IteratorSpec>::decrease(iter) is Some,
                0 <= taken <= <I as IteratorSpec>::remaining(old(iter)).len(),
                <I as IteratorSpec>::remaining(iter) == <I as IteratorSpec>::remaining(
                    old(iter),
                ).skip(taken),
                settings_from(texts(<I as IteratorSpec>::remaining(old(iter))), defaults())
                    == settings_from(texts(<I as IteratorSpec>::remaining(iter)), args@),
                arguments_read(texts(<I as IteratorSpec>::remaining(old(iter))), defaults())
                    == taken + arguments_read(texts(<I as IteratorSpec>::remaining(iter)), args@),
            ensures
                <I as IteratorSpec>::obeys_prophetic_iter_laws(iter),
                settings_from(texts(<I as IteratorSpec>::remaining(old(iter))), defaults()) == Ok::<
                    Settings,
                    Refusal,
                >(args@),
                <I as IteratorSpec>::remaining(iter) == <I as IteratorSpec>::remaining(
                    old(iter),
                ).skip(
                    arguments_read(
                        texts(<I as IteratorSpec>::remaining(old(iter))),
                        defaults(),
                    ) as int,
                ),
            decreases <I as IteratorSpec>::decrease(iter)->0,
        {
            let argument = match iter.next() {
                Some(argument) => argument,
                None => break,
            };
            let flag = match Flag::from_name(argument.as_str()) {
                Some(flag) => flag,
                None => {
                    return Err(ArgsError::UnknownArgument(argument));
                },
            };
            let value = match iter.next() {
                Some(value) => value,
                None => {
                    return Err(ArgsError::MissingValue(flag));
                },
            };
            match flag {
                Flag::Mode => {
                    if text::same_text(value.as_str(), "v1") {
                        args.mode = Mode::V1;
                    } else if text::same_text(value.as_str(), "v2-probe") {
                        args.mode = Mode::V2Probe;
                    } else {
                        return Err(ArgsError::UnknownMode(value));
                    }
                },
                Flag::SenderPort => {
                    args.sender_port = Some(value);
                },
                Flag::ReceiverPort => {
                    args.receiver_port = Some(value);
                },
                Flag::DevicePort => {
                    args.device_port = Some(value);
                },
                Flag::Seed => {
                    args.seed = Some(value);
                },
                Flag::Baud => {
                    match text::parse_u32(value.as_str()) {
                        Some(baud) => {
                            args.baud = baud;
                        },
                        None => {
                            return Err(ArgsError::BaudNotANumber);
                        },
                    }
                },
            }
            assert(texts(<I as IteratorSpec>::remaining(old(iter)).skip(taken)).skip(2)
                =~= texts(<I as IteratorSpec>::remaining(iter)));
            proof {
                taken = taken + 2;
            }
        }
        match args.mode {
            Mode::V1 => {
                if args.sender_port.is_none() {
                    return Err(ArgsError::Required(Flag::SenderPort, Mode::V1));
                }
                if args.receiver_port.is_none() {
                    return Err(ArgsError::Required(Flag::ReceiverPort, Mode::V1));
                }
            },
            Mode::V2Probe => {
                if args.device_port.is_none() {
                    return Err(ArgsError::Required(Flag::DevicePort, Mode::V2Probe));
                }
                if args.seed.is_none() {
                    return Err(ArgsError::Required(Flag::Seed, Mode::V2Probe));
                }
            },
        }
        Ok(args)
    }
}

impl Refusal {
    /// How the refusal is put to the user.
    pub open spec fn message(self) -> Seq<char> {
        match self {
            Refusal::MissingValue(flag) => flag.name() + " needs a value"@,
            Refusal::UnknownMode(name) => "unknown --mode "@ + name
                + " (expected v1 or v2-probe)"@,
            Refusal::BaudNotANumber => "--baud must be a number"@,
            Refusal::UnknownArgument(argument) => "unknown argument: "@ + argument,
            Refusal::Required(flag, mode) => flag.name() + " is required for --mode "@
                + mode.name(),
        }
    }
}

impl ArgsError {
    /// How the error is put to the user.
    pub fn to_string(&self) -> (message: String)
        ensures
            message@ == self@.message(),
    {
        match self {
            ArgsError::MissingValue(flag) => {
                let mut message = flag.as_str().to_owned();
                message.append(" needs a value");
                message
            },
            ArgsError::UnknownMode(name) => {
                let mut message = "unknown --mode ".to_owned();
                message.append(name.as_str());
                message.append(" (expected v1 or v2-probe)");
                message
            },
            ArgsError::BaudNotANumber => "--baud must be a number".to_owned(),
            ArgsError::UnknownArgument(argument) => {
                let mut message = "unknown argument: ".to_owned();
                message.append(argument.as_str());
                message
            },
            ArgsError::Required(flag, mode) => {
                let mut message = flag.as_str().to_owned();
                message.append(" is required for --mode ");
                message.append(mode.as_str());
                message
            },
        }
    }
}

} // verus!
