//! What the command line means, told by the arguments that stand on it.
use vstd::prelude::*;

use crate::args;
use crate::args::{Args, ArgsError, Flag, Mode, Refusal, Settings};
use crate::text;

verus! {

/// Whether no flag of this name is given: none of the arguments that stand in a
/// flag's place reads like it.
pub open spec fn absent(arguments: Seq<Seq<char>>, name: Seq<char>) -> bool {
    forall|j: int| 0 <= j < arguments.len() && j % 2 == 0 ==> #[trigger] arguments[j] != name
}

/// Whether the flag of this name is given last by the pair at `i`.
pub open spec fn last_given(arguments: Seq<Seq<char>>, name: Seq<char>, i: int) -> bool {
    &&& 0 <= i
    &&& i % 2 == 0
    &&& i + 1 < arguments.len()
    &&& arguments[i] == name
    &&& forall|j: int|
        i < j < arguments.len() && j % 2 == 0 ==> #[trigger] arguments[j] != name
}

/// Whether a flag is written like this.
pub open spec fn is_flag(name: Seq<char>) -> bool {
    ||| name == "--mode"@
    ||| name == "--sender-port"@
    ||| name == "--receiver-port"@
    ||| name == "--device-port"@
    ||| name == "--seed"@
    ||| name == "--baud"@
}

/// Whether a flag and its value can stand on a command line: any text is a port or
/// a seed, the mode is one of two, the baud rate is a number.
pub open spec fn sound_pair(name: Seq<char>, value: Seq<char>) -> bool {
    &&& is_flag(name)
    &&& name == "--mode"@ ==> value == "v1"@ || value == "v2-probe"@
    &&& name == "--baud"@ ==> text::parsed_u32(value) is Some
}

/// Whether the arguments before `n` are sound pairs.
pub open spec fn sound_until(arguments: Seq<Seq<char>>, n: int) -> bool {
    &&& 0 <= n <= arguments.len()
    &&& n % 2 == 0
    &&& forall|j: int|
        0 <= j < n && j % 2 == 0 ==> sound_pair(#[trigger] arguments[j], arguments[j + 1])
}

/// Whether the command line asks for the version 2 probe: that is the mode which
/// is given last.
pub open spec fn asks_for_probe(arguments: Seq<Seq<char>>) -> bool {
    exists|i: int| #[trigger] last_given(arguments, "--mode"@, i) && arguments[i + 1]
        == "v2-probe"@
}

/// How a field that holds text stands to an argument.
pub open spec fn holds(field: Option<String>, argument: Seq<char>) -> bool {
    field matches Some(text) && text@ == argument
}

proof fn lemma_flag_names()
    ensures
        Flag::of_name("--mode"@) == Some(Flag::Mode),
        Flag::of_name("--sender-port"@) == Some(Flag::SenderPort),
        Flag::of_name("--receiver-port"@) == Some(Flag::ReceiverPort),
        Flag::of_name("--device-port"@) == Some(Flag::DevicePort),
        Flag::of_name("--seed"@) == Some(Flag::Seed),
        Flag::of_name("--baud"@) == Some(Flag::Baud),
        "v1"@ != "v2-probe"@,
{
    reveal_strlit("--mode");
    reveal_strlit("--sender-port");
    reveal_strlit("--receiver-port");
    reveal_strlit("--device-port");
    reveal_strlit("--seed");
    reveal_strlit("--baud");
    reveal_strlit("v1");
    reveal_strlit("v2-probe");
    assert("--mode"@.len() == 6 && "--sender-port"@.len() == 13 && "--receiver-port"@.len() == 15);
    assert("--device-port"@.len() == 13 && "--seed"@.len() == 6 && "--baud"@.len() == 6);
    assert("--mode"@[2] == 'm' && "--seed"@[2] == 's' && "--baud"@[2] == 'b');
    assert("--sender-port"@[2] == 's' && "--device-port"@[2] == 'd');
    assert("v1"@.len() != "v2-probe"@.len());
}

proof fn lemma_absent(arguments: Seq<Seq<char>>, before: Settings, after: Settings)
    requires
        args::settings_from(arguments, before) == Ok::<Settings, Refusal>(after),
    ensures
        absent(arguments, "--mode"@) ==> after.mode == before.mode,
        absent(arguments, "--sender-port"@) ==> after.sender_port == before.sender_port,
        absent(arguments, "--receiver-port"@) ==> after.receiver_port == before.receiver_port,
        absent(arguments, "--device-port"@) ==> after.device_port == before.device_port,
        absent(arguments, "--seed"@) ==> after.seed == before.seed,
        absent(arguments, "--baud"@) ==> after.baud == before.baud,
    decreases arguments.len(),
{
    if arguments.len() > 0 {
        let flag = Flag::of_name(arguments[0]).unwrap();
        let next = before.with(flag, arguments[1])->Ok_0;
        let others = arguments.skip(2);
        lemma_absent(others, next, after);
        assert forall|name: Seq<char>| #[trigger] absent(arguments, name) implies absent(
            others,
            name,
        ) && arguments[0] != name by {
            assert forall|j: int| 0 <= j < others.len() && j % 2 == 0 implies #[trigger] others[j]
                != name by {
                assert(others[j] == arguments[j + 2]);
            }
        }
    }
}

proof fn lemma_last_given(arguments: Seq<Seq<char>>, before: Settings, after: Settings, i: int)
    requires
        args::settings_from(arguments, before) == Ok::<Settings, Refusal>(after),
        0 <= i,
        i % 2 == 0,
        i + 1 < arguments.len(),
        last_given(arguments, arguments[i], i),
    ensures
        arguments[i] == "--mode"@ ==> arguments[i + 1] == if after.mode == Mode::V1 {
            "v1"@
        } else {
            "v2-probe"@
        },
        arguments[i] == "--sender-port"@ ==> after.sender_port == Some(arguments[i + 1]),
        arguments[i] == "--receiver-port"@ ==> after.receiver_port == Some(arguments[i + 1]),
        arguments[i] == "--device-port"@ ==> after.device_port == Some(arguments[i + 1]),
        arguments[i] == "--seed"@ ==> after.seed == Some(arguments[i + 1]),
        arguments[i] == "--baud"@ ==> text::parsed_u32(arguments[i + 1]) == Some(after.baud),
    decreases arguments.len(),
{
    let flag = Flag::of_name(arguments[0]).unwrap();
    let next = before.with(flag, arguments[1])->Ok_0;
    let others = arguments.skip(2);
    lemma_flag_names();
    if i == 0 {
        assert(absent(others, arguments[0])) by {
            assert forall|j: int| 0 <= j < others.len() && j % 2 == 0 implies #[trigger] others[j]
                != arguments[0] by {
                assert(others[j] == arguments[j + 2]);
            }
        }
        lemma_absent(others, next, after);
    } else {
        assert(others[i - 2] == arguments[i]);
        assert(others[i - 1] == arguments[i + 1]);
        assert forall|j: int| i - 2 < j < others.len() && j % 2 == 0 implies #[trigger] others[j]
            != arguments[i] by {
            assert(others[j] == arguments[j + 2]);
        }
        lemma_last_given(others, next, after, i - 2);
    }
}

/// A flag sets its field to the value that it is given last: the text as it is for
/// a port and for the seed, the number that the text stands for, every `u32` of
/// it, for the baud rate, and for the mode the one that is written like that.
pub proof fn law_flag_sets_its_field(arguments: Seq<Seq<char>>, parsed: Args, i: int)
    requires
        args::args_result(Ok(parsed)) == args::parsed(arguments),
    ensures
        last_given(arguments, "--mode"@, i) ==> arguments[i + 1] == if parsed.mode == Mode::V1 {
            "v1"@
        } else {
            "v2-probe"@
        },
        last_given(arguments, "--sender-port"@, i) ==> holds(parsed.sender_port, arguments[i + 1]),
        last_given(arguments, "--receiver-port"@, i) ==> holds(
            parsed.receiver_port,
            arguments[i + 1],
        ),
        last_given(arguments, "--device-port"@, i) ==> holds(parsed.device_port, arguments[i + 1]),
        last_given(arguments, "--seed"@, i) ==> holds(parsed.seed, arguments[i + 1]),
        last_given(arguments, "--baud"@, i) ==> text::parsed_u32(arguments[i + 1]) == Some(
            parsed.baud,
        ),
{
    if 0 <= i && i + 1 < arguments.len() && last_given(arguments, arguments[i], i) {
        lemma_last_given(arguments, args::defaults(), parsed@, i);
    }
}

/// A flag that is not given leaves its field as it is by default: mode `V1`, no
/// port, no seed, and a baud rate of 115200.
pub proof fn law_absent_flag_leaves_the_default(arguments: Seq<Seq<char>>, parsed: Args)
    requires
        args::args_result(Ok(parsed)) == args::parsed(arguments),
    ensures
        absent(arguments, "--mode"@) ==> parsed.mode == Mode::V1,
        absent(arguments, "--sender-port"@) ==> parsed.sender_port is None,
        absent(arguments, "--receiver-port"@) ==> parsed.receiver_port is None,
        absent(arguments, "--device-port"@) ==> parsed.device_port is None,
        absent(arguments, "--seed"@) ==> parsed.seed is None,
        absent(arguments, "--baud"@) ==> parsed.baud == 115_200,
{
    lemma_absent(arguments, args::defaults(), parsed@);
}

proof fn lemma_sound_pairs(arguments: Seq<Seq<char>>, settings: Settings, n: int)
    requires
        sound_until(arguments, n),
    ensures
        exists|next: Settings|
            args::settings_from(arguments, settings) == #[trigger] args::settings_from(
                arguments.skip(n),
                next,
            ) && args::arguments_read(arguments, settings) == n + args::arguments_read(
                arguments.skip(n),
                next,
            ),
    decreases n,
{
    lemma_flag_names();
    if n == 0 {
        assert(arguments.skip(0) =~= arguments);
    } else {
        assert(sound_pair(arguments[0], arguments[1]));
        let flag = Flag::of_name(arguments[0]).unwrap();
        let set = settings.with(flag, arguments[1])->Ok_0;
        let others = arguments.skip(2);
        assert forall|j: int| 0 <= j < n - 2 && j % 2 == 0 implies sound_pair(
            #[trigger] others[j],
            others[j + 1],
        ) by {
            assert(others[j] == arguments[j + 2]);
            assert(others[j + 1] == arguments[j + 3]);
        }
        lemma_sound_pairs(others, set, n - 2);
        let next = choose|next: Settings|
            args::settings_from(others, set) == #[trigger] args::settings_from(
                others.skip(n - 2),
                next,
            ) && args::arguments_read(others, set) == n - 2 + args::arguments_read(
                others.skip(n - 2),
                next,
            );
        assert(others.skip(n - 2) =~= arguments.skip(n));
        assert(args::settings_from(arguments, settings) == args::settings_from(
            arguments.skip(n),
            next,
        ));
    }
}

/// The first argument that is out of place is the one that is refused, for what is
/// wrong with it, and nothing behind it is looked at.
pub proof fn law_first_fault_is_refused(
    arguments: Seq<Seq<char>>,
    result: Result<Args, ArgsError>,
    n: int,
)
    requires
        args::args_result(result) == args::parsed(arguments),
        sound_until(arguments, n),
        n < arguments.len(),
    ensures
        !is_flag(arguments[n]) ==> {
            &&& result matches Err(ArgsError::UnknownArgument(argument)) && argument@
                == arguments[n]
            &&& args::arguments_read(arguments, args::defaults()) == n + 1
        },
        is_flag(arguments[n]) && n + 1 == arguments.len() ==> {
            &&& result matches Err(ArgsError::MissingValue(flag)) && arguments[n] == flag.name()
            &&& args::arguments_read(arguments, args::defaults()) == n + 1
        },
        n + 1 < arguments.len() && arguments[n] == "--mode"@ && !sound_pair(
            arguments[n],
            arguments[n + 1],
        ) ==> {
            &&& result matches Err(ArgsError::UnknownMode(name)) && name@ == arguments[n + 1]
            &&& args::arguments_read(arguments, args::defaults()) == n + 2
        },
        n + 1 < arguments.len() && arguments[n] == "--baud"@ && !sound_pair(
            arguments[n],
            arguments[n + 1],
        ) ==> {
            &&& result matches Err(ArgsError::BaudNotANumber)
            &&& args::arguments_read(arguments, args::defaults()) == n + 2
        },
{
    lemma_flag_names();
    lemma_sound_pairs(arguments, args::defaults(), n);
    let next = choose|next: Settings|
        args::settings_from(arguments, args::defaults()) == #[trigger] args::settings_from(
            arguments.skip(n),
            next,
        ) && args::arguments_read(arguments, args::defaults()) == n + args::arguments_read(
            arguments.skip(n),
            next,
        );
    let others = arguments.skip(n);
    assert(others[0] == arguments[n]);
    if n + 1 < arguments.len() {
        assert(others[1] == arguments[n + 1]);
    }
    assert(args::settings_from(others, next) == args::settings_from(
        arguments,
        args::defaults(),
    ));
}

proof fn lemma_last_exists(arguments: Seq<Seq<char>>, name: Seq<char>, n: int)
    requires
        arguments.len() % 2 == 0,
        !absent(arguments, name),
        0 <= n <= arguments.len(),
        n % 2 == 0,
        forall|j: int| n <= j < arguments.len() && j % 2 == 0 ==> #[trigger] arguments[j] != name,
    ensures
        exists|i: int| #[trigger] last_given(arguments, name, i),
    decreases n,
{
    if n > 0 {
        if arguments[n - 2] == name {
            assert(last_given(arguments, name, n - 2));
        } else {
            assert forall|j: int| n - 2 <= j < arguments.len() && j % 2 == 0 implies
                #[trigger] arguments[j] != name by {
            }
            lemma_last_exists(arguments, name, n - 2);
        }
    }
}

/// A command line of sound pairs is accepted if what its mode asks for is given:
/// both boards' ports for a round trip, the device's port and the seed for a
/// probe. Otherwise the first of the two that is not given is asked for.
pub proof fn law_mode_decides_what_is_required(
    arguments: Seq<Seq<char>>,
    result: Result<Args, ArgsError>,
)
    requires
        args::args_result(result) == args::parsed(arguments),
        sound_until(arguments, arguments.len() as int),
    ensures
        args::arguments_read(arguments, args::defaults()) == arguments.len(),
        asks_for_probe(arguments) ==> if absent(arguments, "--device-port"@) {
            result matches Err(ArgsError::Required(Flag::DevicePort, Mode::V2Probe))
        } else if absent(arguments, "--seed"@) {
            result matches Err(ArgsError::Required(Flag::Seed, Mode::V2Probe))
        } else {
            result matches Ok(parsed) && parsed.mode == Mode::V2Probe
        },
        !asks_for_probe(arguments) ==> if absent(arguments, "--sender-port"@) {
            result matches Err(ArgsError::Required(Flag::SenderPort, Mode::V1))
        } else if absent(arguments, "--receiver-port"@) {
            result matches Err(ArgsError::Required(Flag::ReceiverPort, Mode::V1))
        } else {
            result matches Ok(parsed) && parsed.mode == Mode::V1
        },
{
    let defaults = args::defaults();
    let len = arguments.len() as int;
    lemma_flag_names();
    lemma_sound_pairs(arguments, defaults, len);
    let settings = choose|next: Settings|
        args::settings_from(arguments, defaults) == #[trigger] args::settings_from(
            arguments.skip(len),
            next,
        ) && args::arguments_read(arguments, defaults) == len + args::arguments_read(
            arguments.skip(len),
            next,
        );
    assert(args::settings_from(arguments, defaults) == Ok::<Settings, Refusal>(settings));
    lemma_absent(arguments, defaults, settings);
    if !absent(arguments, "--mode"@) {
        lemma_last_exists(arguments, "--mode"@, len);
        let i = choose|i: int| #[trigger] last_given(arguments, "--mode"@, i);
        lemma_last_given(arguments, defaults, settings, i);
    }
    if asks_for_probe(arguments) {
        let i = choose|i: int| #[trigger]
            last_given(arguments, "--mode"@, i) && arguments[i + 1] == "v2-probe"@;
        lemma_last_given(arguments, defaults, settings, i);
    }
    if !absent(arguments, "--sender-port"@) {
        lemma_last_exists(arguments, "--sender-port"@, len);
        let i = choose|i: int| #[trigger] last_given(arguments, "--sender-port"@, i);
        lemma_last_given(arguments, defaults, settings, i);
    }
    if !absent(arguments, "--receiver-port"@) {
        lemma_last_exists(arguments, "--receiver-port"@, len);
        let i = choose|i: int| #[trigger] last_given(arguments, "--receiver-port"@, i);
        lemma_last_given(arguments, defaults, settings, i);
    }
    if !absent(arguments, "--device-port"@) {
        lemma_last_exists(arguments, "--device-port"@, len);
        let i = choose|i: int| #[trigger] last_given(arguments, "--device-port"@, i);
        lemma_last_given(arguments, defaults, settings, i);
    }
    if !absent(arguments, "--seed"@) {
        lemma_last_exists(arguments, "--seed"@, len);
        let i = choose|i: int| #[trigger] last_given(arguments, "--seed"@, i);
        lemma_last_given(arguments, defaults, settings, i);
    }
}

/// How each flag and each mode is written, and what is said of each refusal.
pub proof fn law_refusals_are_told(error: ArgsError)
    ensures
        match error {
            ArgsError::MissingValue(flag) => error@.message() == flag.name() + " needs a value"@,
            ArgsError::UnknownMode(name) => error@.message() == "unknown --mode "@ + name@
                + " (expected v1 or v2-probe)"@,
            ArgsError::BaudNotANumber => error@.message() == "--baud must be a number"@,
            ArgsError::UnknownArgument(argument) => error@.message() == "unknown argument: "@
                + argument@,
            ArgsError::Required(flag, mode) => error@.message() == flag.name()
                + " is required for --mode "@ + mode.name(),
        },
        Flag::Mode.name() == "--mode"@,
        Flag::SenderPort.name() == "--sender-port"@,
        Flag::ReceiverPort.name() == "--receiver-port"@,
        Flag::DevicePort.name() == "--device-port"@,
        Flag::Seed.name() == "--seed"@,
        Flag::Baud.name() == "--baud"@,
        Mode::V1.name() == "v1"@,
        Mode::V2Probe.name() == "v2-probe"@,
{
}

/// The arguments that are read are the strings that were given, each as it is.
pub proof fn law_arguments_are_taken_as_they_are(strings: Seq<String>, i: int)
    requires
        0 <= i < strings.len(),
    ensures
        args::texts(strings).len() == strings.len(),
        args::texts(strings)[i] == strings[i]@,
{
}

} // verus!
