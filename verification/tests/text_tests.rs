use pulsar::text::{decimal, has_prefix, has_suffix, parse_u64, parse_usize, same};

#[test]
fn decimal_text_reads_back() {
    for n in [0u64, 7, 10, 99, 1_000_000, u64::MAX] {
        let s = decimal(n);
        assert_eq!(s, n.to_string());
        assert_eq!(parse_u64(&s), Some(n));
    }
}

#[test]
fn numbers_are_read_like_std_reads_them() {
    for s in ["", "+", "-1", "+5", "007", "1a", "18446744073709551615", "18446744073709551616", " 1"] {
        assert_eq!(parse_u64(s), s.parse::<u64>().ok(), "{:?}", s);
        assert_eq!(parse_usize(s), s.parse::<usize>().ok(), "{:?}", s);
    }
}

#[test]
fn affixes() {
    assert!(has_prefix("blk.3.ffn", "blk."));
    assert!(!has_prefix("bl", "blk."));
    assert!(has_suffix("blk.3.ffn_up.weight", "ffn_up.weight"));
    assert!(!has_suffix("weight", "ffn_up.weight"));
    assert!(same("a", "a") && !same("a", "b"));
}
