use bulkrename::args::parse_args;
use bulkrename::args::Args;
use bulkrename::error::Error;

fn parse(tokens: &[&str]) -> Result<Args, Error> {
    let argv: Vec<String> = tokens.iter().map(|t| t.to_string()).collect();
    parse_args(&argv)
}

#[test]
fn no_arguments_parse_to_defaults() {
    let args = parse(&[]).unwrap();
    assert!(!args.show_help);
    assert!(!args.replace);
    assert!(!args.quiet);
    assert!(args.files.is_empty());
}

#[test]
fn help_flags_set_show_help() {
    assert!(parse(&["-h"]).unwrap().show_help);
    assert!(parse(&["--help"]).unwrap().show_help);
}

#[test]
fn replace_and_quiet_flags_accumulate() {
    let args = parse(&["-r", "-q", "a.txt"]).unwrap();
    assert!(args.replace);
    assert!(args.quiet);
    assert!(!args.show_help);
    assert_eq!(args.files, vec!["a.txt".to_string()]);
}

#[test]
fn long_flags_are_recognized() {
    let args = parse(&["--replace", "--quiet"]).unwrap();
    assert!(args.replace);
    assert!(args.quiet);
    assert!(args.files.is_empty());
}

#[test]
fn unknown_flag_is_an_error() {
    let r = parse(&["-x"]);
    assert_eq!(r.unwrap_err(), Error::UnknownOption("-x".to_string()));
}

#[test]
fn lone_dash_is_an_unknown_option() {
    let r = parse(&["-"]);
    assert_eq!(r.unwrap_err(), Error::UnknownOption("-".to_string()));
}

#[test]
fn unknown_flag_after_valid_flags_still_fails() {
    let r = parse(&["-h", "--bogus"]);
    assert_eq!(r.unwrap_err(), Error::UnknownOption("--bogus".to_string()));
}

#[test]
fn double_dash_ends_flag_parsing() {
    let args = parse(&["--", "-r", "b.txt"]).unwrap();
    assert!(!args.replace);
    assert_eq!(args.files, vec!["-r".to_string(), "b.txt".to_string()]);
}

#[test]
fn double_dash_alone_means_an_empty_file_list() {
    let args = parse(&["-q", "--"]).unwrap();
    assert!(args.quiet);
    assert!(args.files.is_empty());
}

#[test]
fn first_file_ends_flag_parsing() {
    let args = parse(&["-q", "a.txt", "-r"]).unwrap();
    assert!(args.quiet);
    assert!(!args.replace);
    assert_eq!(args.files, vec!["a.txt".to_string(), "-r".to_string()]);
}

#[test]
fn empty_token_is_a_file() {
    let args = parse(&[""]).unwrap();
    assert_eq!(args.files, vec!["".to_string()]);
}
