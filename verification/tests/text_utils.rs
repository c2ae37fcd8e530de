use panel800::custom_strings::{
    extract_after_delimiter, extract_before_delimiter, extract_between_delimiters,
    separate_chars_by_commas, str_eq, str_starts_with,
};
use panel800::date_converter::{format_gsm_time, TimeBuffer};
use panel800::gsm_time_converter::GsmTime;
use panel800::phone_book::PhoneBook;

#[test]
fn extract_after_returns_the_suffix() {
    assert_eq!(extract_after_delimiter("101;2401", ";"), Some("2401"));
    assert_eq!(extract_after_delimiter("a;;b", ";"), Some(";b"));
    assert_eq!(extract_after_delimiter("no divider", ";"), None);
}

#[test]
fn extract_before_returns_the_prefix() {
    assert_eq!(extract_before_delimiter("101;2401", ";"), Some("101"));
    assert_eq!(extract_before_delimiter(";tail", ";"), Some(""));
    assert_eq!(extract_before_delimiter("no divider", ";"), None);
}

#[test]
fn extract_between_returns_the_first_quoted_span() {
    let s = "+CPBR: 2,\"*105#\",129,\"0\"";
    assert_eq!(extract_between_delimiters(s, "\"", "\""), Some("*105#"));
    assert_eq!(extract_between_delimiters("a[x]b", "[", "]"), Some("x"));
    assert_eq!(extract_between_delimiters("a[x b", "[", "]"), None);
    assert_eq!(extract_between_delimiters("plain", "[", "]"), None);
}

#[test]
fn separate_chars_inserts_commas() {
    let mut buf = vec![0u8; 16];
    assert_eq!(separate_chars_by_commas("456", &mut buf[..]), Some("4,5,6"));
}

#[test]
fn separate_chars_handles_empty_input() {
    let mut buf = vec![0u8; 4];
    assert_eq!(separate_chars_by_commas("", &mut buf[..]), Some(""));
}

#[test]
fn separate_chars_rejects_a_short_buffer() {
    let mut buf = vec![0u8; 4];
    assert_eq!(separate_chars_by_commas("456", &mut buf[..]), None);
}

#[test]
fn string_comparisons() {
    assert!(str_eq("OK", "OK"));
    assert!(!str_eq("OK", "OKAY"));
    assert!(str_starts_with("+CMT: rest", "+CMT:"));
    assert!(!str_starts_with("+CM", "+CMT:"));
}

#[test]
fn parse_gsm_timestamp() {
    let probe = GsmTime { year: 0, month: 0, day: 0, hour: 0, minute: 0, second: 0 };
    let t = probe.parse_gsm_time("24/01/01,12:00:00+00");
    // The trailing "+00" zone offset adds a seventh digit run, so the
    // strict six-field parse rejects it; without the zone it parses.
    assert_eq!(t, None);
    let t = probe.parse_gsm_time("24/01/02,12:34:56");
    assert_eq!(
        t,
        Some(GsmTime { year: 24, month: 1, day: 2, hour: 12, minute: 34, second: 56 })
    );
}

#[test]
fn parse_gsm_time_collapses_long_years() {
    let probe = GsmTime { year: 0, month: 0, day: 0, hour: 0, minute: 0, second: 0 };
    let t = probe.parse_gsm_time("2024/01/02,03:04:05");
    assert_eq!(
        t,
        Some(GsmTime { year: 24, month: 1, day: 2, hour: 3, minute: 4, second: 5 })
    );
}

#[test]
fn parse_gsm_time_rejects_out_of_range_fields() {
    let probe = GsmTime { year: 0, month: 0, day: 0, hour: 0, minute: 0, second: 0 };
    assert_eq!(probe.parse_gsm_time("24/13/01,12:00:00"), None);
    assert_eq!(probe.parse_gsm_time("24/00/01,12:00:00"), None);
    assert_eq!(probe.parse_gsm_time("24/01/32,12:00:00"), None);
    assert_eq!(probe.parse_gsm_time("24/01/01,24:00:00"), None);
    assert_eq!(probe.parse_gsm_time("24/01/01,12:60:00"), None);
    assert_eq!(probe.parse_gsm_time("24/01/01,12:00:60"), None);
    assert_eq!(probe.parse_gsm_time("24/01/01"), None);
}

#[test]
fn parse_u8_bounds() {
    assert_eq!(GsmTime::parse_u8(b"255"), Some(255));
    assert_eq!(GsmTime::parse_u8(b"256"), None);
    assert_eq!(GsmTime::parse_u8(b"007"), Some(7));
    assert_eq!(GsmTime::parse_u8(b""), Some(0));
    assert_eq!(GsmTime::parse_u8(b"1x"), None);
}

#[test]
fn parse_year_takes_the_last_two_digits() {
    assert_eq!(GsmTime::parse_u16_to_u8_year(b"2024"), Some(24));
    assert_eq!(GsmTime::parse_u16_to_u8_year(b"1999"), Some(99));
    assert_eq!(GsmTime::parse_u16_to_u8_year(b"65536"), None);
}

#[test]
fn format_gsm_time_is_twelve_digits() {
    let t = GsmTime { year: 24, month: 1, day: 2, hour: 3, minute: 4, second: 5 };
    let buf = format_gsm_time(&t);
    assert_eq!(buf.as_str(), "240102030405");
}

#[test]
fn time_buffer_starts_empty() {
    let buf = TimeBuffer::new();
    assert_eq!(buf.as_str(), "");
}

#[test]
fn phone_book_stores_and_looks_up() {
    let mut book = PhoneBook::new();
    assert_eq!(book.get_first(), None);
    assert!(book.add_number("+3912345").is_ok());
    assert!(book.add_number("+3967890").is_ok());
    assert_eq!(book.get_first(), Some("+3912345"));
    assert_eq!(book.get(1), Some("+3967890"));
    assert_eq!(book.get(2), None);
    assert!(book.contains("+3967890"));
    assert!(!book.contains("+39678"));
}

#[test]
fn phone_book_rejects_duplicates_and_long_numbers() {
    let mut book = PhoneBook::new();
    assert!(book.add_number("+3912345").is_ok());
    assert_eq!(book.add_number("+3912345"), Err("Phone number already exists"));
    assert_eq!(book.add_number("0123456789012345"), Err("Phone number too long"));
}

#[test]
fn phone_book_rejects_a_ninth_number() {
    let mut book = PhoneBook::new();
    for i in 0..8 {
        let number = format!("+39000{}", i);
        assert!(book.add_number(&number).is_ok());
    }
    assert_eq!(book.add_number("+391111"), Err("Phone book full"));
}
