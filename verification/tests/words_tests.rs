use pulsar::bytes;
use pulsar::sort;
use pulsar::words;
use pulsar::words::Span;

fn text_at(v: &[char], s: &Span) -> String {
    v[s.lo..s.hi].iter().collect()
}

#[test]
fn lines_drop_their_breaks() {
    let v: Vec<char> = "one\ntwo\r\n\nlast\n".chars().collect();
    let got: Vec<String> = words::split_lines(&v).iter().map(|s| text_at(&v, s)).collect();
    assert_eq!(got, vec!["one", "two\r", "", "last"]);
    let none: Vec<char> = Vec::new();
    assert_eq!(words::split_lines(&none).len(), 0);
}

#[test]
fn words_are_split_at_white_space() {
    let v: Vec<char> = "  a\tbc  d ".chars().collect();
    let got: Vec<String> = words::split_words(&v, 0, v.len()).iter().map(|s| text_at(&v, s)).collect();
    assert_eq!(got, vec!["a", "bc", "d"]);
    let part: Vec<String> = words::split_words(&v, 3, 6).iter().map(|s| text_at(&v, s)).collect();
    assert_eq!(part, vec!["bc"]);
}

#[test]
fn three_words_come_back() {
    let v: Vec<char> = "12 3 400".chars().collect();
    let got = words::split_words(&v, 0, v.len());
    assert_eq!(got.len(), 3);
    assert_eq!(words::parse_i64_span(&v, got[2].lo, got[2].hi), Some(400));
}

#[test]
fn trimming_keeps_inner_space() {
    let v: Vec<char> = " \t a b \n".chars().collect();
    let s = words::trim_span(&v, 0, v.len());
    assert_eq!(text_at(&v, &s), "a b");
    let blank: Vec<char> = "   ".chars().collect();
    let e = words::trim_span(&blank, 0, 3);
    assert_eq!(e.lo, e.hi);
}

#[test]
fn signed_numbers() {
    assert_eq!(words::parse_i64("-9223372036854775808"), Some(i64::MIN));
    assert_eq!(words::parse_i64("9223372036854775808"), None);
    assert_eq!(words::parse_i64("+7"), Some(7));
    assert_eq!(words::parse_i64("-"), None);
    assert_eq!(words::parse_i64(""), None);
    assert_eq!(words::parse_i32_trimmed(" -3\n"), Some(-3));
    assert_eq!(words::parse_i32_trimmed("2147483648"), None);
    assert_eq!(words::parse_u32("4294967295"), Some(u32::MAX));
    assert_eq!(words::parse_u32("4294967296"), None);
    assert_eq!(words::parse_u32("-1"), None);
}

#[test]
fn little_endian_round_trip() {
    let mut out = vec![9u8];
    bytes::push_le(&mut out, 0x0102_0304_0506_0708, 8);
    assert_eq!(out, vec![9, 8, 7, 6, 5, 4, 3, 2, 1]);
    assert_eq!(bytes::read_le(&out, 1, 8), 0x0102_0304_0506_0708);
    assert_eq!(bytes::read_le(&out, 1, 4), 0x0506_0708);
    let mut short = Vec::new();
    bytes::push_le(&mut short, 0x1_0000_0002, 4);
    assert_eq!(short, vec![2, 0, 0, 0]);
}

#[test]
fn ranking_is_stable() {
    assert_eq!(sort::rank_asc(&vec![3, 1, 2, 1]), vec![1, 3, 2, 0]);
    assert_eq!(sort::rank_desc(&vec![3, 1, 3, 1]), vec![0, 2, 1, 3]);
    assert_eq!(sort::rank_asc(&Vec::new()), Vec::<usize>::new());
}
