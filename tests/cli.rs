use alpacka::cli::{decimal, generation_line, Cli, ListGenerationsFormatMethod};
use alpacka::manifest::GenerationHash;

#[test]
fn decimal_text() {
    assert_eq!(decimal(0), "0");
    assert_eq!(decimal(7), "7");
    assert_eq!(decimal(10), "10");
    assert_eq!(decimal(1234567890), "1234567890");
    assert_eq!(decimal(u64::MAX), u64::MAX.to_string());
}

#[test]
fn listing_line() {
    assert_eq!(
        generation_line(0, GenerationHash(123_125_124, 32)),
        "Manifest number 0 | Hash 123125124 | generation 32"
    );
}

#[test]
fn commands_hold_their_options() {
    let c = Cli::ListGenerations { data_dir: None, format_style: Some(ListGenerationsFormatMethod::Json) };
    match c {
        Cli::ListGenerations { format_style, .. } => assert_eq!(format_style, Some(ListGenerationsFormatMethod::Json)),
        Cli::Install { .. } => panic!("wrong command"),
    }
}
