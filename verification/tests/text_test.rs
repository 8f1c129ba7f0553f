//! Tests for texts, numbers in writing, and tables.

use tinyconnectors_sync::clock::{within_dates, MAX_DEPTH_DAYS};
use tinyconnectors_sync::decimal::{read_signed, read_unsigned, write_signed, write_unsigned};
use tinyconnectors_sync::table::Table;
use tinyconnectors_sync::text::{
    cut_once, find_char, has, join_with, lowercased, strip, trimmed, white_space,
};

#[test]
fn white_space_is_what_unicode_says_it_is() {
    for c in '\0'..=char::MAX {
        assert_eq!(white_space(c), c.is_whitespace(), "{c:?}");
    }
}

#[test]
fn trimming_takes_the_white_space_around_a_text() {
    for text in ["", " ", "a", " a b\t", "\u{3000}é\u{85}", "\n\n"] {
        assert_eq!(trimmed(text), text.trim());
    }
}

#[test]
fn lower_case_reaches_ascii_alone() {
    for text in ["", "TOKEN_Revoked", "ÉÀ", "az[`@AZ"] {
        assert_eq!(lowercased(text), text.to_ascii_lowercase());
    }
}

#[test]
fn a_text_is_searched_and_split_by_characters() {
    assert_eq!(find_char("héé<x", '<'), Some(3));
    assert_eq!(find_char("abc", '<'), None);
    assert_eq!(cut_once("é|b|c", '|'), Some(("é", "b|c")));
    assert_eq!(cut_once("abc", '|'), None);
    for (text, pattern) in [("abc", ""), ("abc", "bc"), ("abc", "cb"), ("", "a"), ("aab", "ab")] {
        assert_eq!(has(text, pattern), text.contains(pattern));
    }
    assert_eq!(strip("1.2.3", '.'), "123");
    let parts = vec!["a".to_string(), "b".to_string()];
    assert_eq!(join_with(&parts, "\n"), "a\nb");
    assert_eq!(join_with(&Vec::new(), "\n"), "");
}

#[test]
fn numbers_survive_being_written_down() {
    for n in [0, 1, 9, 10, 1_700_000_000, u64::MAX] {
        assert_eq!(write_unsigned(n), n.to_string());
        assert_eq!(read_unsigned(&write_unsigned(n), u64::MAX), Some(n));
    }
    for n in [0, -1, 7, i64::MAX, i64::MIN] {
        assert_eq!(write_signed(n), n.to_string());
        assert_eq!(read_signed(&write_signed(n)), Some(n));
    }
}

#[test]
fn numbers_are_read_as_the_parser_of_the_language_reads_them() {
    for text in [
        "", "+", "-", "0", "007", "+5", "-5", "--5", "5 ", "5a", "é",
        "9223372036854775807", "9223372036854775808", "-9223372036854775808",
        "-9223372036854775809", "18446744073709551615", "18446744073709551616",
        "00000000000000000000000000000001",
    ] {
        assert_eq!(read_signed(text), text.parse::<i64>().ok(), "{text}");
        assert_eq!(
            read_unsigned(text, u64::MAX),
            text.parse::<u64>().ok(),
            "{text}"
        );
        assert_eq!(
            read_unsigned(text, u64::from(u32::MAX)),
            text.parse::<u32>().ok().map(u64::from),
            "{text}"
        );
    }
}

#[test]
fn a_table_holds_one_value_per_key() {
    let mut table = Table::new();
    assert!(table.is_empty());
    table.insert("a".to_string(), "1".to_string());
    table.insert("b".to_string(), "2".to_string());
    table.insert("a".to_string(), "3".to_string());
    assert_eq!(table.get("a").map(String::as_str), Some("3"));
    assert_eq!(table.get("c"), None);
    assert_eq!(table.pairs().len(), 2);
    assert_eq!(table.remove("a").as_deref(), Some("3"));
    assert_eq!(table.remove("a"), None);
    assert_eq!(table.get("b").map(String::as_str), Some("2"));
    assert!(!table.is_empty());
}

#[test]
fn dates_reach_back_so_many_days_and_no_more() {
    let earliest = chrono::DateTime::<chrono::Utc>::MIN_UTC;
    for now_ms in [0, 999, 1_700_000_000_123] {
        let now = chrono::DateTime::<chrono::Utc>::from_timestamp_millis(now_ms).unwrap();
        let most = u32::try_from((now - earliest).num_days()).unwrap();
        assert!(within_dates(now_ms, most));
        assert!(!within_dates(now_ms, most + 1));
        assert!(most >= MAX_DEPTH_DAYS);
        assert!(now
            .checked_sub_signed(chrono::TimeDelta::days(i64::from(most)))
            .is_some());
        assert!(now
            .checked_sub_signed(chrono::TimeDelta::days(i64::from(most + 1)))
            .is_none());
    }
    assert!(!within_dates(-1, 0));
}
