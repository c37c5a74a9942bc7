use monitrust::watcher::memory::{parse_meminfo, parse_u64, MemInfo, MemInfoError};

const LISTING: &str = "MemTotal:       16318480 kB\n\
MemFree:          512340 kB\n\
MemAvailable:    8123456 kB\n\
Buffers:          123456 kB\n\
HugePages_Total:       0\n\
Hugepagesize:       2048 kB\n";

fn chars(s: &str) -> Vec<char> {
    s.chars().collect()
}

#[test]
fn reads_total_and_available() {
    assert_eq!(
        parse_meminfo(LISTING),
        Ok(MemInfo { total: 16318480, available: 8123456 })
    );
}

#[test]
fn last_figure_line_wins() {
    let text = "MemTotal: 10 kB\nMemAvailable: 5 kB\nMemTotal: 20 kB\n";
    assert_eq!(parse_meminfo(text), Ok(MemInfo { total: 20, available: 5 }));
}

#[test]
fn other_lines_are_skipped() {
    let text = "MemTotal: 10 kB\nsomething odd here and there\nMemAvailable: 4 kB extra\nMemAvailable: 3 kB";
    assert_eq!(parse_meminfo(text), Ok(MemInfo { total: 10, available: 3 }));
}

#[test]
fn two_word_figure_line_is_skipped() {
    let text = "MemTotal: 10\nMemAvailable: 3 kB\n";
    assert_eq!(parse_meminfo(text), Err(MemInfoError::MissingTotal));
}

#[test]
fn missing_available() {
    assert_eq!(parse_meminfo("MemTotal: 10 kB\n"), Err(MemInfoError::MissingAvailable));
}

#[test]
fn missing_total() {
    assert_eq!(parse_meminfo("MemAvailable: 10 kB\n"), Err(MemInfoError::MissingTotal));
}

#[test]
fn missing_both() {
    assert_eq!(parse_meminfo(""), Err(MemInfoError::MissingBoth));
    assert_eq!(parse_meminfo("MemFree: 1 kB\n"), Err(MemInfoError::MissingBoth));
}

#[test]
fn bad_figure_stops_reading() {
    let text = "MemTotal: 1x0 kB\nMemAvailable: 3 kB\nMemTotal: 7 kB\n";
    assert_eq!(
        parse_meminfo(text),
        Err(MemInfoError::InvalidNumber("1x0".to_string()))
    );
}

#[test]
fn figure_too_large_is_invalid() {
    let text = "MemTotal: 18446744073709551616 kB\nMemAvailable: 3 kB\n";
    assert_eq!(
        parse_meminfo(text),
        Err(MemInfoError::InvalidNumber("18446744073709551616".to_string()))
    );
}

#[test]
fn bad_figure_of_other_key_is_ignored() {
    let text = "MemFree: zz kB\nMemTotal: 2 kB\nMemAvailable: 1 kB\n";
    assert_eq!(parse_meminfo(text), Ok(MemInfo { total: 2, available: 1 }));
}

#[test]
fn words_split_at_unicode_white_space() {
    let text = "MemTotal:\t\u{3000}12\u{a0}kB\r\nMemAvailable:\u{2003}6 kB\r\n";
    assert_eq!(parse_meminfo(text), Ok(MemInfo { total: 12, available: 6 }));
}

#[test]
fn parses_decimal_u64() {
    assert_eq!(parse_u64(&chars("0")), Some(0));
    assert_eq!(parse_u64(&chars("42")), Some(42));
    assert_eq!(parse_u64(&chars("+42")), Some(42));
    assert_eq!(parse_u64(&chars("007")), Some(7));
    assert_eq!(parse_u64(&chars("18446744073709551615")), Some(u64::MAX));
}

#[test]
fn refuses_what_std_refuses() {
    for s in ["", "+", "-", "-1", "++1", "1 ", "1a", "a1", "18446744073709551616", "99999999999999999999x", "\u{661}"] {
        assert_eq!(parse_u64(&chars(s)), None, "{:?}", s);
        assert!(s.parse::<u64>().is_err());
    }
}

#[test]
fn agrees_with_std_parse() {
    for s in ["0", "+0", "12345", "+18446744073709551615", "000000000000000000000001"] {
        assert_eq!(parse_u64(&chars(s)), s.parse::<u64>().ok(), "{:?}", s);
    }
}
