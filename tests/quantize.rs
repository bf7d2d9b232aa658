use spot_sniper::decimal::{format_fixed, format_nat, parse_decimal};
use spot_sniper::quantize::{
    buy_limit_price, calculate_token_quantity, fee_adjust, price_text, reached_target,
    sell_limit_price, sell_quantity, truncate_price,
};

#[test]
fn truncate_band_below_one_ten_thousandth_keeps_five_decimals() {
    assert_eq!(truncate_price(9_999), 9_000);
    assert_eq!(truncate_price(0), 0);
}

#[test]
fn truncate_band_edges() {
    assert_eq!(truncate_price(10_000), 10_000);
    assert_eq!(truncate_price(19_999), 10_000);
    assert_eq!(truncate_price(99_999), 90_000);
    assert_eq!(truncate_price(100_000), 100_000);
    assert_eq!(truncate_price(199_990), 100_000);
    assert_eq!(truncate_price(999_990), 900_000);
    assert_eq!(truncate_price(1_000_000), 1_000_000);
    assert_eq!(truncate_price(1_999_000), 1_000_000);
    assert_eq!(truncate_price(9_990_000), 9_000_000);
    assert_eq!(truncate_price(10_000_000), 10_000_000);
    assert_eq!(truncate_price(19_000_000), 10_000_000);
    assert_eq!(truncate_price(99_000_000), 90_000_000);
    assert_eq!(truncate_price(100_000_000), 100_000_000);
    assert_eq!(truncate_price(123_456_000), 123_450_000);
    assert_eq!(truncate_price(1_999_999_000), 1_999_990_000);
    assert_eq!(truncate_price(2_000_000_000), 2_000_000_000);
    assert_eq!(truncate_price(2_050_000_000), 2_000_000_000);
}

#[test]
fn truncate_is_idempotent_and_never_rounds_up() {
    let samples: [u64; 9] = [
        7_777, 15_555, 155_555, 1_555_555, 15_555_555, 95_555_555, 155_555_555, 1_999_999_999,
        123_456_789_012,
    ];
    for p in samples {
        let t = truncate_price(p);
        assert!(t <= p);
        assert_eq!(truncate_price(t), t);
    }
}

#[test]
fn quantity_of_thousand_at_fifty_is_twenty_point_zero() {
    assert_eq!(calculate_token_quantity(1_000 * 100_000_000, 50 * 100_000_000), "20.0");
}

#[test]
fn quantity_truncates_rather_than_rounds() {
    assert_eq!(calculate_token_quantity(9_990_000_000, 5_000_000_000), "1.9");
}

#[test]
fn quantity_bands() {
    // below 1: whole tokens
    assert_eq!(calculate_token_quantity(10 * 100_000_000, 30_000_000), "33");
    // below 1000: 3 decimals
    assert_eq!(calculate_token_quantity(100 * 100_000_000, 300 * 100_000_000), "0.333");
    // below 10000: 4 decimals
    assert_eq!(calculate_token_quantity(100 * 100_000_000, 3_000 * 100_000_000), "0.0333");
    // from 10000: 5 decimals
    assert_eq!(calculate_token_quantity(100 * 100_000_000, 30_000 * 100_000_000), "0.00333");
}

#[test]
fn fee_buffer_takes_a_tenth_of_a_percent() {
    assert_eq!(fee_adjust(100 * 100_000_000), 9_990_000_000);
}

#[test]
fn sell_quantity_bands() {
    assert_eq!(sell_quantity(200_000_000, 5_000_000_000), "1.99");
    assert_eq!(sell_quantity(1_000 * 100_000_000, 5_000_000), "999");
    assert_eq!(sell_quantity(200_000_000, 500_000_000), "1.9");
    assert_eq!(sell_quantity(200_000_000, 500 * 100_000_000), "1.9980");
    assert_eq!(sell_quantity(200_000_000, 20_000 * 100_000_000), "1.99800");
}

#[test]
fn limit_prices() {
    assert_eq!(buy_limit_price(50 * 100_000_000), 50 * 100_000_000);
    assert_eq!(buy_limit_price(150_000_000), 150_750_000);
    assert_eq!(sell_limit_price(5_250_000_000), 52 * 100_000_000);
}

#[test]
fn price_text_uses_band_decimals() {
    assert_eq!(price_text(50 * 100_000_000), "50");
    assert_eq!(price_text(150_000_000), "1.5000");
    assert_eq!(price_text(9_000), "0.00009");
    assert_eq!(price_text(50_000_000), "0.5");
}

#[test]
fn sell_target_is_reached_at_exact_target() {
    let buy = 50 * 100_000_000;
    let multiplier = 105_000_000;
    assert!(!reached_target(5_240_000_000, buy, multiplier));
    // 52.5 truncates to 52 in the whole-number band, below the target.
    assert!(!reached_target(5_250_000_000, buy, multiplier));
    assert!(reached_target(5_300_000_000, buy, multiplier));
    // Within the four-decimal band the comparison is inclusive.
    let buy = 10 * 100_000_000;
    assert!(!reached_target(1_049_990_000, buy, multiplier));
    assert!(reached_target(1_050_000_000, buy, multiplier));
}

#[test]
fn decimal_parsing() {
    assert_eq!(parse_decimal("50"), Some(5_000_000_000));
    assert_eq!(parse_decimal("50.25"), Some(5_025_000_000));
    assert_eq!(parse_decimal("0.00012345"), Some(12_345));
    assert_eq!(parse_decimal("0.000123456"), Some(12_345));
    assert_eq!(parse_decimal("1.123456789"), Some(112_345_678));
    assert_eq!(parse_decimal("0.1234567899999"), Some(12_345_678));
    assert_eq!(parse_decimal("0.12345678x"), None);
    assert_eq!(parse_decimal(""), None);
    assert_eq!(parse_decimal("."), None);
    assert_eq!(parse_decimal("1."), None);
    assert_eq!(parse_decimal(".5"), None);
    assert_eq!(parse_decimal("1.2.3"), None);
    assert_eq!(parse_decimal("-1"), None);
    assert_eq!(parse_decimal("abc"), None);
    assert_eq!(parse_decimal("184467440737.09551615"), Some(u64::MAX));
    assert_eq!(parse_decimal("184467440737.09551616"), None);
    assert_eq!(parse_decimal("99999999999999999999999"), None);
}

#[test]
fn decimal_formatting() {
    assert_eq!(format_nat(0), "0");
    assert_eq!(format_nat(1_234_567), "1234567");
    assert_eq!(format_fixed(19, 1), "1.9");
    assert_eq!(format_fixed(5, 3), "0.005");
    assert_eq!(format_fixed(200, 0), "200");
}
