//! Parsing, formatting, and the text helpers.

use mandelbrot::bytes::u32_from_le_bytes;
use mandelbrot::misc::{Config, AllocType, Params, ValuesZeroByDefault};
use mandelbrot::parse::{parse_i32, parse_numbers, parse_pair, NumberError};
use mandelbrot::text::{
    get_filenames, grep_lines, merge_processed_texts, proc_label, str_contains,
    thread_file_line, to_decimal,
};
use std::time::Duration;

#[test]
fn test_parse_pair() {
    assert_eq!(parse_pair("", ','), None);
    assert_eq!(parse_pair("10,", ','), None);
    assert_eq!(parse_pair("10,20", ','), Some((10, 20)));
    assert_eq!(parse_pair("10x20", 'x'), Some((10, 20)));
}

#[test]
fn test_parse_pair_negative_halves() {
    assert_eq!(parse_pair("-3,+4", ','), Some((-3, 4)));
    assert_eq!(parse_pair(",20", ','), None);
    assert_eq!(parse_pair("10;20", ','), None);
}

#[test]
fn test_parse_i32_values() {
    assert_eq!(parse_i32("0"), Ok(0));
    assert_eq!(parse_i32("+5"), Ok(5));
    assert_eq!(parse_i32("-0"), Ok(0));
    assert_eq!(parse_i32("007"), Ok(7));
    assert_eq!(parse_i32("2147483647"), Ok(i32::MAX));
    assert_eq!(parse_i32("-2147483648"), Ok(i32::MIN));
}

#[test]
fn test_parse_i32_errors() {
    assert_eq!(parse_i32(""), Err(NumberError::Empty));
    assert_eq!(parse_i32("+"), Err(NumberError::InvalidDigit));
    assert_eq!(parse_i32("-"), Err(NumberError::InvalidDigit));
    assert_eq!(parse_i32("12a"), Err(NumberError::InvalidDigit));
    assert_eq!(parse_i32("1.5"), Err(NumberError::InvalidDigit));
    assert_eq!(parse_i32("2147483648"), Err(NumberError::TooLarge));
    assert_eq!(parse_i32("99999999999999999999"), Err(NumberError::TooLarge));
    assert_eq!(parse_i32("-2147483649"), Err(NumberError::TooSmall));
}

#[test]
fn test_parse_numbers_ok() {
    let lines = vec!["1".to_string(), "-2".to_string(), "30".to_string()];
    assert_eq!(parse_numbers(&lines).unwrap(), vec![1, -2, 30]);
}

#[test]
fn test_parse_numbers_first_bad_line() {
    let lines = vec!["1".to_string(), "x7".to_string(), "zz".to_string()];
    let err = parse_numbers(&lines).unwrap_err();
    assert_eq!(err.line_number, 2);
    assert_eq!(err.line, "x7");
    assert_eq!(err.message, "invalid digit found in string");
    assert_eq!(err.describe(), "'invalid digit found in string' on line 2: 'x7'");
}

#[test]
fn test_parse_numbers_empty_line() {
    let lines = vec!["".to_string()];
    let err = parse_numbers(&lines).unwrap_err();
    assert_eq!(err.line_number, 1);
    assert_eq!(err.message, "cannot parse integer from empty string");
}

#[test]
fn test_to_decimal() {
    assert_eq!(to_decimal(0), "0");
    assert_eq!(to_decimal(7), "7");
    assert_eq!(to_decimal(10), "10");
    assert_eq!(to_decimal(12345), "12345");
    assert_eq!(to_decimal(u64::MAX), "18446744073709551615");
}

#[test]
fn test_get_filenames() {
    let names = get_filenames(false);
    assert_eq!(names.len(), 100);
    assert_eq!(names[0], "file_0.txt");
    assert_eq!(names[42], "file_42.txt");
    assert_eq!(names[99], "file_99.txt");
    let reversed = get_filenames(true);
    assert_eq!(reversed[0], "file_99.txt");
    assert_eq!(reversed[99], "file_0.txt");
}

#[test]
fn test_str_contains() {
    assert!(str_contains("hello world", "o w"));
    assert!(str_contains("hello", ""));
    assert!(str_contains("hello", "hello"));
    assert!(!str_contains("hello", "hello!"));
    assert!(!str_contains("hay", "needle"));
}

#[test]
fn test_grep_lines() {
    let lines = vec![
        "the quick fox".to_string(),
        "lazy dog".to_string(),
        "quicksilver".to_string(),
    ];
    let found = grep_lines("quick", &lines);
    assert_eq!(found, vec!["the quick fox".to_string(), "quicksilver".to_string()]);
    assert_eq!(grep_lines("cat", &lines), Vec::<String>::new());
}

#[test]
fn test_merge_processed_texts() {
    let texts = vec!["a".to_string(), "b".to_string(), "c".to_string()];
    assert_eq!(merge_processed_texts(&texts), "a\nb\nc");
    assert_eq!(merge_processed_texts(&vec![]), "");
    assert_eq!(merge_processed_texts(&vec!["only".to_string()]), "only");
}

#[test]
fn test_stage_labels() {
    assert_eq!(thread_file_line("file_3.txt", 2), "Thread:  2, File: file_3.txt");
    assert_eq!(proc_label(0, "payload"), "proc: 0 -> payload");
}

#[test]
fn test_u32_from_le_bytes() {
    assert_eq!(u32_from_le_bytes(&[0x78, 0x56, 0x34, 0x12]), 0x12345678);
    assert_eq!(u32_from_le_bytes(&[0, 0, 0, 0]), 0);
    assert_eq!(u32_from_le_bytes(&[0xff, 0xff, 0xff, 0xff]), u32::MAX);
}

#[test]
fn test_params_default() {
    let p = Params::default();
    assert_eq!(p.name, "default");
    assert!(p.is_active);
    assert_eq!(p.width, 640);
    assert_eq!(p.height, 480);
    assert_eq!(p.depth, 1);
    let z = ValuesZeroByDefault::default();
    assert_eq!((z.a, z.b, z.c), (0, 0, 0));
}

#[test]
fn test_config_round_trip() {
    let c = Config {
        alloc_type: AllocType::Array,
        iterations: 10,
        size: 1_000,
        elapsed: Duration::from_millis(5),
    };
    let d = c.clone();
    assert_eq!(c, d);
    assert_eq!(d.elapsed, Duration::from_millis(5));
}
