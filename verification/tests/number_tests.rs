use srb2_relay::number::{parse_u64, u64_to_decimal};

fn dec(n: u64) -> String {
    u64_to_decimal(n).into_iter().collect()
}

fn parse(s: &str) -> Option<u64> {
    parse_u64(&s.chars().collect())
}

#[test]
fn decimal_text() {
    assert_eq!(dec(0), "0");
    assert_eq!(dec(7), "7");
    assert_eq!(dec(10), "10");
    assert_eq!(dec(1234567890), "1234567890");
    assert_eq!(dec(u64::MAX), "18446744073709551615");
}

#[test]
fn parse_like_std() {
    for s in ["0", "007", "+12", "", "+", "-", "-1", "1a", " 1", "18446744073709551615", "18446744073709551616", "99999999999999999999x"] {
        assert_eq!(parse(s), s.parse::<u64>().ok(), "input {:?}", s);
    }
    assert_eq!(parse("+12"), Some(12));
    assert_eq!(parse("18446744073709551616"), None);
}

#[test]
fn decimal_roundtrip_values() {
    for n in [0u64, 1, 9, 10, 99, 100, 4242, u64::MAX - 1, u64::MAX] {
        assert_eq!(parse(&dec(n)), Some(n));
    }
}
