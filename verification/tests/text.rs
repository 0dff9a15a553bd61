use telemetry_core::byte_order::{compare_bytes, compare_text, Rank};
use telemetry_core::decimal::parse_decimal;
use telemetry_core::node_types::BlockHash;

fn expected(ordering: std::cmp::Ordering) -> Rank {
    match ordering {
        std::cmp::Ordering::Less => Rank::Below,
        std::cmp::Ordering::Equal => Rank::Same,
        std::cmp::Ordering::Greater => Rank::Above,
    }
}

#[test]
fn bytes_compare_as_slices_do() {
    let samples: Vec<Vec<u8>> = vec![
        vec![],
        vec![0],
        vec![0, 0],
        vec![1],
        vec![1, 2, 3],
        vec![1, 2, 4],
        vec![1, 3],
        vec![255],
        vec![255, 0],
    ];
    for a in &samples {
        for b in &samples {
            assert_eq!(compare_bytes(a, b), expected(a.as_slice().cmp(b.as_slice())));
        }
    }
}

#[test]
fn a_prefix_comes_first() {
    assert_eq!(compare_bytes(&[1, 2], &[1, 2, 0]), Rank::Below);
    assert_eq!(compare_bytes(&[1, 2, 0], &[1, 2]), Rank::Above);
    assert_eq!(compare_bytes(&[], &[]), Rank::Same);
}

#[test]
fn text_compares_as_strings_do() {
    let samples = ["", "a", "A", "ab", "b", "node-1", "node-10", "node-2", "é", "z", "日本", "0.9.1"];
    for a in samples {
        for b in samples {
            assert_eq!(compare_text(a, b), expected(a.cmp(b)));
        }
    }
}

#[test]
fn hashes_compare_by_their_bytes() {
    let mut low = [0u8; 32];
    let mut high = [0u8; 32];
    low[31] = 0xff;
    high[0] = 0x01;
    let low = BlockHash::from_bytes(low);
    let high = BlockHash::from_bytes(high);
    assert_eq!(low.rank(&high), Rank::Below);
    assert_eq!(high.rank(&low), Rank::Above);
    assert_eq!(low.rank(&low), Rank::Same);
    assert!(low.same(&low));
    assert!(!low.same(&high));
    assert_eq!(BlockHash::zero().bytes, [0u8; 32]);
}

#[test]
fn decimal_numbers_are_read() {
    assert_eq!(parse_decimal("0"), Some(0));
    assert_eq!(parse_decimal("42"), Some(42));
    assert_eq!(parse_decimal("+42"), Some(42));
    assert_eq!(parse_decimal("007"), Some(7));
    assert_eq!(parse_decimal("1650000000000"), Some(1_650_000_000_000));
    assert_eq!(parse_decimal("18446744073709551615"), Some(u64::MAX));
}

#[test]
fn other_text_is_no_number() {
    assert_eq!(parse_decimal(""), None);
    assert_eq!(parse_decimal("+"), None);
    assert_eq!(parse_decimal("-1"), None);
    assert_eq!(parse_decimal("++1"), None);
    assert_eq!(parse_decimal(" 1"), None);
    assert_eq!(parse_decimal("1 "), None);
    assert_eq!(parse_decimal("12a"), None);
    assert_eq!(parse_decimal("1.5"), None);
    assert_eq!(parse_decimal("١٢"), None);
    assert_eq!(parse_decimal("18446744073709551616"), None);
    assert_eq!(parse_decimal("99999999999999999999999"), None);
}

#[test]
fn decimal_reading_agrees_with_std() {
    let samples = [
        "", "+", "-", "0", "+0", "-0", "1", "+1", "0001", "18446744073709551615",
        "18446744073709551616", "184467440737095516150", "12x", "x12", "1_000", "٣", "+ 1",
    ];
    for s in samples {
        assert_eq!(parse_decimal(s), s.parse::<u64>().ok(), "{s:?}");
    }
}
