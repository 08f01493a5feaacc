use page_stream::decimal::{i64_text, u64_text, usize_text};

#[test]
fn decimal_of_small_numbers() {
    assert_eq!(u64_text(0), "0");
    assert_eq!(u64_text(7), "7");
    assert_eq!(u64_text(9), "9");
    assert_eq!(u64_text(10), "10");
    assert_eq!(u64_text(120), "120");
    assert_eq!(usize_text(1005), "1005");
}

#[test]
fn decimal_of_largest_numbers() {
    assert_eq!(u64_text(u64::MAX), "18446744073709551615");
    assert_eq!(usize_text(usize::MAX), usize::MAX.to_string());
    assert_eq!(i64_text(i64::MAX), "9223372036854775807");
    assert_eq!(i64_text(i64::MIN), "-9223372036854775808");
}

#[test]
fn decimal_of_negative_numbers() {
    assert_eq!(i64_text(-1), "-1");
    assert_eq!(i64_text(-10), "-10");
    assert_eq!(i64_text(-909), "-909");
    assert_eq!(i64_text(0), "0");
}

#[test]
fn decimal_agrees_with_to_string() {
    let mut value: u64 = 0;
    while value < 3000 {
        assert_eq!(u64_text(value), value.to_string());
        value += 1;
    }
    let mut signed: i64 = -3000;
    while signed < 3000 {
        assert_eq!(i64_text(signed), signed.to_string());
        signed += 1;
    }
    let mut power: u64 = 1;
    while power <= u64::MAX / 10 {
        assert_eq!(u64_text(power), power.to_string());
        assert_eq!(u64_text(power - 1), (power - 1).to_string());
        power *= 10;
    }
}
