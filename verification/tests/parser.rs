use httpkv::parser::{parse_set_command, Expiration, RedisCommand, SetOptions};

fn args(words: &[&str]) -> Vec<String> {
    words.iter().map(|w| w.to_string()).collect()
}

fn parse_ok(words: &[&str]) -> (String, String, SetOptions) {
    match parse_set_command(&args(words)).unwrap() {
        RedisCommand::SetCmd { key, value, options } => (key, value, options),
        RedisCommand::Unknown { .. } => panic!("expected a parsed SET"),
    }
}

#[test]
fn test_plain_set() {
    let (key, value, options) = parse_ok(&["mykey", "myvalue"]);
    assert_eq!(key, "mykey");
    assert_eq!(value, "myvalue");
    assert!(!options.nx && !options.xx && !options.get);
    assert_eq!(options.expiration, None);
}

#[test]
fn test_too_few_arguments() {
    assert_eq!(
        parse_set_command(&args(&["only-key"])).unwrap_err(),
        "SET command requires at least a key and a value."
    );
    assert_eq!(
        parse_set_command(&args(&[])).unwrap_err(),
        "SET command requires at least a key and a value."
    );
}

#[test]
fn test_options_are_case_insensitive() {
    let (_, _, options) = parse_ok(&["k", "v", "nx", "Get"]);
    assert!(options.nx);
    assert!(options.get);
    assert!(!options.xx);
}

#[test]
fn test_nx_xx_conflict() {
    assert_eq!(
        parse_set_command(&args(&["k", "v", "NX", "XX"])).unwrap_err(),
        "Cannot specify both NX and XX."
    );
    assert_eq!(
        parse_set_command(&args(&["k", "v", "XX", "NX"])).unwrap_err(),
        "Cannot specify both NX and XX."
    );
}

#[test]
fn test_expiration_options() {
    let (_, _, options) = parse_ok(&["k", "v", "EX", "60"]);
    assert_eq!(options.expiration, Some(Expiration::Ex(60)));
    let (_, _, options) = parse_ok(&["k", "v", "px", "1500"]);
    assert_eq!(options.expiration, Some(Expiration::Px(1500)));
    let (_, _, options) = parse_ok(&["k", "v", "EXAT", "1700000000"]);
    assert_eq!(options.expiration, Some(Expiration::ExAt(1_700_000_000)));
    let (_, _, options) = parse_ok(&["k", "v", "PXAT", "1700000000000"]);
    assert_eq!(options.expiration, Some(Expiration::PxAt(1_700_000_000_000)));
    let (_, _, options) = parse_ok(&["k", "v", "KEEPTTL"]);
    assert_eq!(options.expiration, Some(Expiration::KeepTtl));
}

#[test]
fn test_later_expiration_wins() {
    let (_, _, options) = parse_ok(&["k", "v", "EX", "60", "PX", "1500"]);
    assert_eq!(options.expiration, Some(Expiration::Px(1500)));
}

#[test]
fn test_expiration_needs_value() {
    assert_eq!(
        parse_set_command(&args(&["k", "v", "EX"])).unwrap_err(),
        "EX requires a seconds value."
    );
    assert_eq!(
        parse_set_command(&args(&["k", "v", "PX"])).unwrap_err(),
        "PX requires a milliseconds value."
    );
    assert_eq!(
        parse_set_command(&args(&["k", "v", "EXAT"])).unwrap_err(),
        "EXAT requires a Unix timestamp in seconds."
    );
    assert_eq!(
        parse_set_command(&args(&["k", "v", "PXAT"])).unwrap_err(),
        "PXAT requires a Unix timestamp in milliseconds."
    );
}

#[test]
fn test_invalid_expiration_values() {
    assert_eq!(
        parse_set_command(&args(&["k", "v", "EX", "sixty"])).unwrap_err(),
        "Invalid EX seconds value."
    );
    // an overflowing number is refused like any other bad digit string
    assert_eq!(
        parse_set_command(&args(&["k", "v", "EX", "99999999999999999999"])).unwrap_err(),
        "Invalid EX seconds value."
    );
    // a plus sign alone carries no digits
    assert_eq!(
        parse_set_command(&args(&["k", "v", "PX", "+"])).unwrap_err(),
        "Invalid PX milliseconds value."
    );
}

#[test]
fn test_signed_and_boundary_numbers() {
    let (_, _, options) = parse_ok(&["k", "v", "EX", "+42"]);
    assert_eq!(options.expiration, Some(Expiration::Ex(42)));
    let (_, _, options) = parse_ok(&["k", "v", "EX", "18446744073709551615"]);
    assert_eq!(options.expiration, Some(Expiration::Ex(u64::MAX)));
}

#[test]
fn test_keepttl_conflicts_with_expiration() {
    assert_eq!(
        parse_set_command(&args(&["k", "v", "EX", "60", "KEEPTTL"])).unwrap_err(),
        "Cannot specify KEEPTTL with other expiration options."
    );
}

#[test]
fn test_unknown_option() {
    assert_eq!(
        parse_set_command(&args(&["k", "v", "FROB"])).unwrap_err(),
        "Unknown option: FROB"
    );
}
