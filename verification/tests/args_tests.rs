use swarm::{get_bee_id_from_args, parse_bee_id, ArgsError, BeeIdError, IdParseError};

fn args(list: &[&str]) -> Vec<String> {
    list.iter().map(|s| s.to_string()).collect()
}

#[test]
fn reads_the_bee_id() {
    assert_eq!(get_bee_id_from_args(&args(&["bee", "id", "42"])), Ok(42));
}

#[test]
fn extra_arguments_are_ignored() {
    assert_eq!(get_bee_id_from_args(&args(&["bee", "id", "7", "more"])), Ok(7));
}

#[test]
fn too_few_arguments() {
    let expected = Err(BeeIdError::Args(ArgsError::MissingArguments));
    assert_eq!(get_bee_id_from_args(&args(&[])), expected);
    assert_eq!(get_bee_id_from_args(&args(&["bee"])), expected);
    assert_eq!(get_bee_id_from_args(&args(&["bee", "id"])), expected);
}

#[test]
fn query_must_be_id() {
    let expected = Err(BeeIdError::Args(ArgsError::MissingId));
    assert_eq!(get_bee_id_from_args(&args(&["bee", "name", "42"])), expected);
    assert_eq!(get_bee_id_from_args(&args(&["bee", "ID", "42"])), expected);
    assert_eq!(get_bee_id_from_args(&args(&["bee", "idx", "42"])), expected);
}

#[test]
fn bad_id_is_a_parse_error() {
    assert_eq!(
        get_bee_id_from_args(&args(&["bee", "id", "x1"])),
        Err(BeeIdError::Parse(IdParseError::InvalidDigit))
    );
    assert_eq!(
        get_bee_id_from_args(&args(&["bee", "id", ""])),
        Err(BeeIdError::Parse(IdParseError::Empty))
    );
}

#[test]
fn parse_matches_the_standard_library() {
    let cases = [
        "0", "1", "42", "+42", "007", "", "+", "-", "-1", "++1", "1+", " 1", "1 ", "abc", "4a",
        "18446744073709551615", "18446744073709551616", "99999999999999999999",
        "99999999999999999999x", "1844674407370955161x", "+18446744073709551615", "١٢",
    ];
    for case in cases {
        let expected = match case.parse::<u64>() {
            Ok(v) => Ok(v),
            Err(e) => Err(match e.kind() {
                std::num::IntErrorKind::Empty => IdParseError::Empty,
                std::num::IntErrorKind::PosOverflow => IdParseError::PosOverflow,
                _ => IdParseError::InvalidDigit,
            }),
        };
        assert_eq!(parse_bee_id(case), expected, "case {:?}", case);
    }
}

#[test]
fn parse_exact_values() {
    assert_eq!(parse_bee_id("18446744073709551615"), Ok(u64::MAX));
    assert_eq!(parse_bee_id("18446744073709551616"), Err(IdParseError::PosOverflow));
    assert_eq!(parse_bee_id("99999999999999999999x"), Err(IdParseError::PosOverflow));
    assert_eq!(parse_bee_id("12x99999999999999999999"), Err(IdParseError::InvalidDigit));
    assert_eq!(parse_bee_id("+"), Err(IdParseError::InvalidDigit));
    assert_eq!(parse_bee_id("+0"), Ok(0));
}

#[test]
fn error_messages() {
    assert_eq!(ArgsError::MissingArguments.message(), "no arguments provided");
    assert_eq!(ArgsError::MissingId.message(), "missing argument 'id'");
    assert_eq!(IdParseError::Empty.message(), "".parse::<u64>().unwrap_err().to_string());
    assert_eq!(IdParseError::InvalidDigit.message(), "z".parse::<u64>().unwrap_err().to_string());
    assert_eq!(
        IdParseError::PosOverflow.message(),
        "99999999999999999999".parse::<u64>().unwrap_err().to_string()
    );
}
