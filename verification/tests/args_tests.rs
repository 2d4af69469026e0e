use portscan::args::{classify_arguments, contains_substr, parse_u16, ArgDecision, ArgError};

fn args_of(parts: &[&str]) -> Vec<String> {
    parts.iter().map(|s| s.to_string()).collect()
}

#[test]
fn rejects_no_arguments() {
    let args = args_of(&["scanner"]);
    assert_eq!(
        classify_arguments(&args, false, false),
        ArgDecision::Reject(ArgError::NotEnough)
    );
}

#[test]
fn rejects_too_many_arguments() {
    let args = args_of(&["scanner", "a", "b", "c", "d"]);
    assert_eq!(
        classify_arguments(&args, false, false),
        ArgDecision::Reject(ArgError::TooMany)
    );
}

#[test]
fn bare_address_runs_with_default_workers() {
    let args = args_of(&["scanner", "127.0.0.1"]);
    assert_eq!(
        classify_arguments(&args, true, false),
        ArgDecision::Run { addr_arg: 1, workers: 4 }
    );
}

#[test]
fn help_flag_alone_shows_help() {
    let args = args_of(&["scanner", "-h"]);
    assert_eq!(classify_arguments(&args, false, false), ArgDecision::Help);
    let args = args_of(&["scanner", "-help"]);
    assert_eq!(classify_arguments(&args, false, false), ArgDecision::Help);
}

#[test]
fn help_flag_with_extras_is_rejected() {
    let args = args_of(&["scanner", "-h", "127.0.0.1"]);
    assert_eq!(
        classify_arguments(&args, false, false),
        ArgDecision::Reject(ArgError::TooMany)
    );
}

#[test]
fn worker_flag_runs_with_given_count() {
    let args = args_of(&["scanner", "-j", "100", "10.0.0.1"]);
    assert_eq!(
        classify_arguments(&args, false, true),
        ArgDecision::Run { addr_arg: 3, workers: 100 }
    );
}

#[test]
fn worker_flag_needs_count_and_address() {
    let args = args_of(&["scanner", "-j", "100"]);
    assert_eq!(
        classify_arguments(&args, false, false),
        ArgDecision::Reject(ArgError::NotEnoughForJobs)
    );
}

#[test]
fn rejects_unparsable_worker_count() {
    for bad in ["abc", "", "12x", "65536", "99999999999999999999", "-3"] {
        let args = args_of(&["scanner", "-j", bad, "10.0.0.1"]);
        assert_eq!(
            classify_arguments(&args, false, true),
            ArgDecision::Reject(ArgError::BadWorkerCount),
            "count {:?}",
            bad
        );
    }
}

#[test]
fn rejects_zero_workers() {
    let args = args_of(&["scanner", "-j", "0", "10.0.0.1"]);
    assert_eq!(
        classify_arguments(&args, false, true),
        ArgDecision::Reject(ArgError::BadWorkerCount)
    );
}

#[test]
fn rejects_malformed_address() {
    let args = args_of(&["scanner", "-j", "8", "not-an-address"]);
    assert_eq!(
        classify_arguments(&args, false, false),
        ArgDecision::Reject(ArgError::BadAddress)
    );
}

#[test]
fn rejects_unknown_flag() {
    let args = args_of(&["scanner", "--frobnicate"]);
    assert_eq!(
        classify_arguments(&args, false, false),
        ArgDecision::Reject(ArgError::InvalidSyntax)
    );
}

#[test]
fn error_messages() {
    assert_eq!(ArgError::NotEnough.message(), "Not enough Arguments");
    assert_eq!(ArgError::TooMany.message(), "Too many Arguments");
    assert_eq!(
        ArgError::NotEnoughForJobs.message(),
        "Not enough arguments for -j flag"
    );
    assert_eq!(ArgError::BadWorkerCount.message(), "Failed to parse thread count");
    assert_eq!(ArgError::BadAddress.message(), "Not a valid IP Address");
    assert_eq!(ArgError::InvalidSyntax.message(), "Invalid Syntax");
}

#[test]
fn parse_u16_accepts_numerals() {
    assert_eq!(parse_u16("0"), Some(0));
    assert_eq!(parse_u16("4"), Some(4));
    assert_eq!(parse_u16("+123"), Some(123));
    assert_eq!(parse_u16("007"), Some(7));
    assert_eq!(parse_u16("65535"), Some(65535));
    assert_eq!(parse_u16("0000000001"), Some(1));
}

#[test]
fn parse_u16_rejects_non_numerals() {
    assert_eq!(parse_u16(""), None);
    assert_eq!(parse_u16("+"), None);
    assert_eq!(parse_u16("65536"), None);
    assert_eq!(parse_u16("123456789012345678901234567890"), None);
    assert_eq!(parse_u16("1 2"), None);
    assert_eq!(parse_u16("-1"), None);
    assert_eq!(parse_u16("1.5"), None);
}

#[test]
fn substring_search() {
    assert!(contains_substr("-help", "-h"));
    assert!(contains_substr("x-jx", "-j"));
    assert!(contains_substr("abc", ""));
    assert!(!contains_substr("", "-h"));
    assert!(!contains_substr("-g", "-h"));
    assert!(!contains_substr("h-", "-h"));
}
