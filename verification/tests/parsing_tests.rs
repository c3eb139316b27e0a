use serpico::cli_parser::parse_blocks;
use serpico::datasets::{dataset_of_arg, Datasets};
use serpico::error::SerpicoError;
use serpico::files::{make_file_name, parse_file_name};
use serpico::numbers::{parse_u64, u64_to_dec};

#[test]
fn u64_to_dec_renders_decimal() {
    assert_eq!(u64_to_dec(0), "0");
    assert_eq!(u64_to_dec(7), "7");
    assert_eq!(u64_to_dec(10), "10");
    assert_eq!(u64_to_dec(12345), "12345");
    assert_eq!(u64_to_dec(u64::MAX), "18446744073709551615");
}

#[test]
fn parse_u64_accepts_digits_and_plus() {
    assert_eq!(parse_u64("0"), Some(0));
    assert_eq!(parse_u64("42"), Some(42));
    assert_eq!(parse_u64("+7"), Some(7));
    assert_eq!(parse_u64("007"), Some(7));
    assert_eq!(parse_u64("18446744073709551615"), Some(u64::MAX));
}

#[test]
fn parse_u64_rejects_everything_else() {
    assert_eq!(parse_u64(""), None);
    assert_eq!(parse_u64("+"), None);
    assert_eq!(parse_u64("-1"), None);
    assert_eq!(parse_u64("12a"), None);
    assert_eq!(parse_u64("1 2"), None);
    assert_eq!(parse_u64("18446744073709551616"), None);
}

#[test]
fn parse_u64_round_trips_rendering() {
    for n in [0u64, 1, 9, 10, 99, 100, 4_294_967_296, u64::MAX] {
        assert_eq!(parse_u64(&u64_to_dec(n)), Some(n));
    }
}

#[test]
fn parse_blocks_explicit_bounds() {
    assert!(matches!(parse_blocks("5:10".to_string(), 999), Ok((5, 10))));
}

#[test]
fn parse_blocks_empty_start_means_one() {
    assert!(matches!(parse_blocks(":10".to_string(), 999), Ok((1, 10))));
}

#[test]
fn parse_blocks_empty_or_latest_end_means_head() {
    assert!(matches!(parse_blocks("5:".to_string(), 999), Ok((5, 999))));
    assert!(matches!(parse_blocks("5:latest".to_string(), 999), Ok((5, 999))));
    assert!(matches!(parse_blocks(":".to_string(), 999), Ok((1, 999))));
}

#[test]
fn parse_blocks_ignores_text_after_second_colon() {
    assert!(matches!(parse_blocks("1:2:3".to_string(), 999), Ok((1, 2))));
}

#[test]
fn parse_blocks_rejects_malformed_bounds() {
    match parse_blocks("abc:10".to_string(), 999) {
        Err(SerpicoError::IntParsingErr(t)) => assert_eq!(t, "abc"),
        other => panic!("expected IntParsingErr, got {:?}", other),
    }
    match parse_blocks("1:x".to_string(), 999) {
        Err(SerpicoError::IntParsingErr(t)) => assert_eq!(t, "x"),
        other => panic!("expected IntParsingErr, got {:?}", other),
    }
}

#[test]
fn dataset_arg_aliases() {
    assert!(matches!(dataset_of_arg("blocks"), Datasets::Blocks));
    assert!(matches!(dataset_of_arg("block"), Datasets::Blocks));
    assert!(matches!(dataset_of_arg("transactions"), Datasets::Transactions));
    assert!(matches!(dataset_of_arg("transaction"), Datasets::Transactions));
    assert!(matches!(dataset_of_arg("logs"), Datasets::Logs));
    assert!(matches!(dataset_of_arg("events"), Datasets::Logs));
    assert!(matches!(dataset_of_arg("log"), Datasets::Logs));
    assert!(matches!(dataset_of_arg("traces"), Datasets::Empty));
    assert!(matches!(dataset_of_arg(""), Datasets::Empty));
}

#[test]
fn dataset_names() {
    assert_eq!(Datasets::Blocks.to_name(), "blocks");
    assert_eq!(Datasets::Transactions.to_name(), "transactions");
    assert_eq!(Datasets::Logs.to_name(), "logs");
    assert_eq!(Datasets::Empty.to_name(), "");
}

#[test]
fn file_name_shape() {
    assert_eq!(make_file_name("blocks", 0, 9999, "csv"), "blocks_from_0_to_9999.csv");
    assert_eq!(make_file_name("logs", 20, 25, "csv"), "logs_from_20_to_25.csv");
}

#[test]
fn file_name_round_trip() {
    let name = make_file_name("transactions", 10000, 19999, "csv");
    assert_eq!(parse_file_name(&name, "transactions", "csv"), Some((10000, 19999)));
}

#[test]
fn discovery_ignores_foreign_names() {
    assert_eq!(parse_file_name("notes.txt", "blocks", "csv"), None);
    assert_eq!(parse_file_name("blocks_from_0_to_9.json", "blocks", "csv"), None);
    assert_eq!(parse_file_name("blocks_from_0_to_9.csv", "logs", "csv"), None);
    assert_eq!(parse_file_name("blocks_from_x_to_9.csv", "blocks", "csv"), None);
    assert_eq!(parse_file_name("blocks_from_0_to_.csv", "blocks", "csv"), None);
    assert_eq!(parse_file_name("blocks_from_0_to_9_extra.csv", "blocks", "csv"), None);
    assert_eq!(parse_file_name("blocks_by_0_to_9.csv", "blocks", "csv"), None);
    assert_eq!(parse_file_name("", "blocks", "csv"), None);
}

#[test]
fn discovery_accepts_plus_signed_bounds_like_integer_parsing() {
    assert_eq!(parse_file_name("blocks_from_+5_to_9.csv", "blocks", "csv"), Some((5, 9)));
}
