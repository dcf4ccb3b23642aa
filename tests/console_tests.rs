use paxos::{replica_ids, replica_port, Command, ParseCommandError};
use std::collections::HashSet;

#[test]
fn test_command_parse() {
    let start = "start 4";
    assert_eq!(start.parse::<Command>(), Ok(Command::Start(4)));
    let propose = "propose 0 42";
    assert_eq!(propose.parse::<Command>(), Ok(Command::Propose(0, 42)));
    let exit = "exit";
    assert_eq!(exit.parse::<Command>(), Ok(Command::Exit));
    let error = "error";
    assert_eq!(error.parse::<Command>(), Err(ParseCommandError));
}

#[test]
fn short_forms_parse() {
    assert_eq!(Command::parse("s 3"), Ok(Command::Start(3)));
    assert_eq!(Command::parse("p 2 7"), Ok(Command::Propose(2, 7)));
    assert_eq!(Command::parse("q 1"), Ok(Command::Query(1)));
    assert_eq!(Command::parse("query 12"), Ok(Command::Query(12)));
    assert_eq!(Command::parse("x"), Ok(Command::Exit));
}

#[test]
fn case_and_spacing_are_ignored() {
    assert_eq!(Command::parse("START 4"), Ok(Command::Start(4)));
    assert_eq!(Command::parse("  Propose\t1   +9 "), Ok(Command::Propose(1, 9)));
    assert_eq!(Command::parse("exit now"), Ok(Command::Exit));
}

#[test]
fn bad_arguments_are_errors() {
    assert_eq!(Command::parse(""), Err(ParseCommandError));
    assert_eq!(Command::parse("start"), Err(ParseCommandError));
    assert_eq!(Command::parse("start four"), Err(ParseCommandError));
    assert_eq!(Command::parse("start -1"), Err(ParseCommandError));
    assert_eq!(Command::parse("start +"), Err(ParseCommandError));
    assert_eq!(Command::parse("propose 1"), Err(ParseCommandError));
    assert_eq!(Command::parse("propose 1 4294967296"), Err(ParseCommandError));
    assert_eq!(Command::parse("propose 1 4294967295"), Ok(Command::Propose(1, u32::MAX)));
    assert_eq!(Command::parse("query 99999999999999999999999"), Err(ParseCommandError));
    assert_eq!(Command::parse("stop"), Err(ParseCommandError));
}

#[test]
fn parse_words_takes_words_as_given() {
    let words = vec!["p".to_string(), "3".to_string(), "5".to_string()];
    assert_eq!(Command::parse_words(&words), Ok(Command::Propose(3, 5)));
    let upper = vec!["START".to_string(), "2".to_string()];
    assert_eq!(Command::parse_words(&upper), Err(ParseCommandError));
}

#[test]
fn cluster_ids_and_ports() {
    let ids = replica_ids(3);
    let expected: HashSet<usize> = [1, 2, 3].into_iter().collect();
    assert_eq!(ids, expected);
    assert!(replica_ids(0).is_empty());
    assert_eq!(replica_port(12345, 2), Some(12347));
    assert_eq!(replica_port(65535, 0), Some(65535));
    assert_eq!(replica_port(65535, 1), None);
}
