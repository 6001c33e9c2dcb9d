use payjoin_harness::args::{Args, Mode};
use payjoin_harness::text::{decimal, parse_u32, same_text};

fn parse(words: &[&str]) -> Result<Args, String> {
    let words: Vec<String> = words.iter().map(|w| w.to_string()).collect();
    Args::parse_from(words.into_iter()).map_err(|e| e.to_string())
}

#[test]
fn args_parse_defaults_to_v1_mode() {
    let args = Args::parse_from(
        vec![
            "--sender-port".to_string(),
            "/dev/ttyACM0".to_string(),
            "--receiver-port".to_string(),
            "/dev/ttyACM1".to_string(),
        ]
        .into_iter(),
    )
    .unwrap();
    assert_eq!(args.mode, Mode::V1);
}

#[test]
fn args_parse_requires_both_ports() {
    let err = Args::parse_from(
        vec!["--sender-port".to_string(), "/dev/ttyACM0".to_string()].into_iter(),
    )
    .unwrap_err();
    assert!(err.to_string().contains("--receiver-port"));
}

#[test]
fn args_parse_defaults_baud_and_accepts_override() {
    let args = Args::parse_from(
        vec![
            "--sender-port".to_string(),
            "/dev/ttyACM0".to_string(),
            "--receiver-port".to_string(),
            "/dev/ttyACM1".to_string(),
        ]
        .into_iter(),
    )
    .unwrap();
    assert_eq!(args.baud, 115_200);

    let args = Args::parse_from(
        vec![
            "--sender-port".to_string(),
            "/dev/ttyACM0".to_string(),
            "--receiver-port".to_string(),
            "/dev/ttyACM1".to_string(),
            "--baud".to_string(),
            "9600".to_string(),
        ]
        .into_iter(),
    )
    .unwrap();
    assert_eq!(args.baud, 9600);
}

#[test]
fn args_parse_v2_probe_mode_requires_device_port_and_seed() {
    let err = Args::parse_from(vec!["--mode".to_string(), "v2-probe".to_string()].into_iter())
        .unwrap_err();
    assert!(err.to_string().contains("--device-port"));

    let err = Args::parse_from(
        vec![
            "--mode".to_string(),
            "v2-probe".to_string(),
            "--device-port".to_string(),
            "/dev/ttyACM0".to_string(),
        ]
        .into_iter(),
    )
    .unwrap_err();
    assert!(err.to_string().contains("--seed"));

    let args = Args::parse_from(
        vec![
            "--mode".to_string(),
            "v2-probe".to_string(),
            "--device-port".to_string(),
            "/dev/ttyACM0".to_string(),
            "--seed".to_string(),
            "hello".to_string(),
        ]
        .into_iter(),
    )
    .unwrap();
    assert_eq!(args.mode, Mode::V2Probe);
    assert_eq!(args.device_port.as_deref(), Some("/dev/ttyACM0"));
    assert_eq!(args.seed.as_deref(), Some("hello"));
}

#[test]
fn args_parse_rejects_unknown_mode() {
    let err =
        Args::parse_from(vec!["--mode".to_string(), "v3".to_string()].into_iter()).unwrap_err();
    assert!(err.to_string().contains("unknown --mode"));
}

#[test]
fn args_errors_are_put_exactly() {
    assert_eq!(parse(&["--mode", "v3"]).unwrap_err(), "unknown --mode v3 (expected v1 or v2-probe)");
    assert_eq!(parse(&["--bogus"]).unwrap_err(), "unknown argument: --bogus");
    assert_eq!(parse(&["--baud", "fast"]).unwrap_err(), "--baud must be a number");
    assert_eq!(parse(&[]).unwrap_err(), "--sender-port is required for --mode v1");
    assert_eq!(
        parse(&["--sender-port", "a"]).unwrap_err(),
        "--receiver-port is required for --mode v1"
    );
    assert_eq!(
        parse(&["--mode", "v2-probe"]).unwrap_err(),
        "--device-port is required for --mode v2-probe"
    );
    assert_eq!(
        parse(&["--mode", "v2-probe", "--device-port", "a"]).unwrap_err(),
        "--seed is required for --mode v2-probe"
    );
    let flags =
        ["--mode", "--sender-port", "--receiver-port", "--device-port", "--seed", "--baud"];
    for flag in flags {
        assert_eq!(parse(&[flag]).unwrap_err(), format!("{flag} needs a value"));
    }
}

#[test]
fn later_values_win() {
    let words = [
        "--baud", "300", "--sender-port", "a", "--sender-port", "b", "--receiver-port", "c",
        "--baud", "+57600", "--mode", "v2-probe", "--mode", "v1",
    ];
    let args = parse(&words).unwrap();
    assert_eq!(args.mode, Mode::V1);
    assert_eq!(args.sender_port.as_deref(), Some("b"));
    assert_eq!(args.receiver_port.as_deref(), Some("c"));
    assert_eq!(args.baud, 57600);
    assert_eq!(args.seed, None);

    // The same without the earlier values.
    let args = parse(&["--sender-port", "b", "--receiver-port", "c", "--baud", "+57600"]).unwrap();
    assert_eq!(args.sender_port.as_deref(), Some("b"));
    assert_eq!(args.baud, 57600);
}

#[test]
fn first_refusal_stands() {
    assert_eq!(
        parse(&["--baud", "x", "--mode", "v3", "junk"]).unwrap_err(),
        "--baud must be a number"
    );
    // A flag takes whatever comes next as its value.
    assert_eq!(parse(&["--seed", "--baud", "junk"]).unwrap_err(), "unknown argument: junk");
}

#[test]
fn nothing_is_read_after_a_refusal() {
    let left_over = |words: &[&str]| {
        let words: Vec<String> = words.iter().map(|w| w.to_string()).collect();
        let mut iter = words.into_iter();
        let result = Args::parse_from(iter.by_ref());
        assert!(result.is_err());
        iter.collect::<Vec<String>>()
    };
    assert_eq!(left_over(&["--bogus", "a", "b"]), ["a", "b"]);
    assert_eq!(left_over(&["--baud", "x", "--seed", "b"]), ["--seed", "b"]);
    assert_eq!(left_over(&["--seed", "s", "--mode", "v3", "c"]), ["c"]);
    // What is missing is only known at the end.
    assert!(left_over(&["--seed", "s"]).is_empty());

    let words: Vec<String> = ["--mode", "v3", "rest"].iter().map(|w| w.to_string()).collect();
    let mut iter = words.into_iter();
    assert!(Args::parse_iter(&mut iter).is_err());
    assert_eq!(iter.next().as_deref(), Some("rest"));
}

#[test]
fn numbers_are_read_as_the_standard_library_reads_them() {
    let texts = [
        "", "+", "-1", "0", "007", "+42", "++1", "4294967295", "4294967296", "99999999999999999999",
        "00000000000000000000001", "1 ", " 1", "1_000", "12a", "\u{661}",
    ];
    for text in texts {
        assert_eq!(parse_u32(text), text.parse::<u32>().ok(), "{text:?}");
    }
}

#[test]
fn numbers_are_written_in_decimal() {
    for n in [0usize, 7, 10, 4096, 4101, 115_200, usize::MAX] {
        assert_eq!(decimal(n), n.to_string());
    }
}

#[test]
fn texts_are_compared_whole() {
    assert!(same_text("--seed", "--seed"));
    assert!(!same_text("--seed", "--see"));
    assert!(!same_text("--seed", "--seeD"));
    assert!(same_text("", ""));
}
