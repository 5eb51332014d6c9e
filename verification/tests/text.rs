use market_data::duration::Duration;
use market_data::text::{
    chars_of, push_decimal, push_padded, push_signed, read_signed, read_unsigned, split, trim,
};

fn chars(s: &str) -> Vec<char> {
    chars_of(s)
}

#[test]
fn numbers_are_written_as_std_writes_them() {
    for n in [0, 9, 10, 99, 100, 404, 1_234_567_890, u64::MAX] {
        let mut out = String::from("n=");
        push_decimal(&mut out, n);
        assert_eq!(out, format!("n={n}"));
        assert_eq!(read_unsigned(&chars(&n.to_string())), Some(n));
    }
    for n in [0, -1, 7, -42, 1_700_000_000_000, i64::MIN, i64::MAX] {
        let mut out = String::new();
        push_signed(&mut out, n);
        assert_eq!(out, n.to_string());
        assert_eq!(read_signed(&chars(&out)), Some(n));
        let mut out = String::new();
        push_padded(&mut out, n, 4);
        assert_eq!(out, format!("{n:04}"));
        assert_eq!(read_signed(&chars(&out)), Some(n));
        let mut out = String::new();
        push_padded(&mut out, n, 2);
        assert_eq!(out, format!("{n:02}"));
    }
}

#[test]
fn numbers_are_read_as_std_reads_them() {
    for s in [
        "", "+", "-", "0", "-0", "+0", "00", "+-1", "-+1", "12a", " 1", "9223372036854775807",
        "9223372036854775808", "-9223372036854775808", "-9223372036854775809",
        "18446744073709551615", "18446744073709551616", "99999999999999999999999999", "\u{661}",
    ] {
        assert_eq!(read_signed(&chars(s)), s.parse::<i64>().ok());
        assert_eq!(read_unsigned(&chars(s)), s.parse::<u64>().ok());
    }
}

#[test]
fn text_is_cut_and_trimmed_as_std_does() {
    for s in ["", "-", "a", "a-b", "-a--b-", "2024-03-01", "\u{e9}-\u{1f600}"] {
        let pieces: Vec<String> = split(&chars(s), '-')
            .into_iter()
            .map(|p| p.into_iter().collect())
            .collect();
        assert_eq!(pieces, s.split('-').collect::<Vec<_>>());
    }
    for s in ["", " ", "  a b  ", "\u{2003}x\u{85}", "\u{200b}x", "x"] {
        let trimmed: String = trim(&chars(s)).into_iter().collect();
        assert_eq!(trimmed, s.trim());
    }
}

#[test]
fn spans_convert_exactly() {
    let d = Duration::from_millis(1_234_567);
    assert_eq!(d, Duration::new(1234, 567_000_000));
    assert_eq!(d.as_secs(), 1234);
    assert_eq!(d.subsec_nanos(), 567_000_000);
    assert_eq!(d.as_millis(), 1_234_567);
    assert_eq!(d.saturating_mul(3), Duration::new(3703, 701_000_000));
    assert_eq!(d.saturating_mul(0), Duration::from_secs(0));
}
