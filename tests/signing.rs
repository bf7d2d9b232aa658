use spot_sniper::request::{
    generate_query_str, last_price_from, order_accepted, order_body, wallet_balance_from, Side,
};
use spot_sniper::sign::gen_signature;

#[test]
fn signature_matches_known_vector() {
    let sig = gen_signature("1700000000000", "category=spot&symbol=BTCUSDT", "secret", "key", "5000");
    assert_eq!(sig, "b10da919011eb90cc175e8660b7cd78a3f9c2b8aee6b95a44d78990cd76b64f3");
}

#[test]
fn signature_is_deterministic() {
    let a = gen_signature("1700000000000", "category=spot&symbol=BTCUSDT", "secret", "key", "5000");
    let b = gen_signature("1700000000000", "category=spot&symbol=BTCUSDT", "secret", "key", "5000");
    assert_eq!(a, b);
}

#[test]
fn signature_changes_with_each_input() {
    let base = gen_signature("1700000000000", "category=spot&symbol=BTCUSDT", "secret", "key", "5000");
    assert_eq!(
        gen_signature("1700000000000", "category=spot&symbol=ETHUSDT", "secret", "key", "5000"),
        "8da223d83a652a7ff072bf3fd416aafde79b8564e799ca6d3f398f46503385a1"
    );
    assert_ne!(base, gen_signature("1700000000001", "category=spot&symbol=BTCUSDT", "secret", "key", "5000"));
    assert_ne!(base, gen_signature("1700000000000", "category=spot&symbol=BTCUSDT", "secreT", "key", "5000"));
    assert_ne!(base, gen_signature("1700000000000", "category=spot&symbol=BTCUSDT", "secret", "kez", "5000"));
    assert_ne!(base, gen_signature("1700000000000", "category=spot&symbol=BTCUSDT", "secret", "key", "5001"));
}

#[test]
fn signature_of_empty_inputs() {
    assert_eq!(
        gen_signature("", "", "", "", ""),
        "b613679a0814d9ec772f95d778c35fc5ff1697c493715653c6c712144292c5ad"
    );
}

#[test]
fn query_string_keeps_insertion_order() {
    let params = vec![
        ("category".to_string(), "spot".to_string()),
        ("symbol".to_string(), "BTCUSDT".to_string()),
    ];
    assert_eq!(generate_query_str(&params), "category=spot&symbol=BTCUSDT");
    assert_eq!(generate_query_str(&Vec::new()), "");
    let one = vec![("coin".to_string(), "BTC".to_string())];
    assert_eq!(generate_query_str(&one), "coin=BTC");
}

#[test]
fn query_string_percent_encodes_keys_and_values() {
    let params = vec![
        ("a b".to_string(), "c".to_string()),
        ("a&b".to_string(), "x=y".to_string()),
        ("k".to_string(), "-_.~".to_string()),
        ("é".to_string(), "100%".to_string()),
    ];
    assert_eq!(generate_query_str(&params), "a%20b=c&a%26b=x%3Dy&k=-_.~&%C3%A9=100%25");
}

#[test]
fn order_body_text() {
    let body = order_body("BTCUSDT", Side::Buy, "1.9", "50", "abc");
    assert_eq!(
        body,
        "{\"category\":\"spot\",\"symbol\":\"BTCUSDT\",\"side\":\"Buy\",\"orderType\":\"Limit\",\"qty\":\"1.9\",\"price\":\"50\",\"orderLinkId\":\"abc\"}"
    );
    let sell = order_body("X", Side::Sell, "2", "3", "id");
    assert!(sell.contains("\"side\":\"Sell\""));
}

#[test]
fn order_acceptance_marker() {
    assert!(order_accepted("{\"retCode\":0,\"retMsg\":\"OK\"}"));
    assert!(!order_accepted("{\"retCode\":10001,\"retMsg\":\"bad\"}"));
    assert!(!order_accepted(""));
    assert!(!order_accepted("{\"retCode\": 0}"));
}

#[test]
fn ticker_and_balance_readings() {
    assert_eq!(last_price_from(Some(0), Some("50.00")), Some(5_000_000_000));
    assert_eq!(last_price_from(Some(10001), Some("50.00")), None);
    assert_eq!(last_price_from(None, Some("50.00")), None);
    assert_eq!(last_price_from(Some(0), None), None);
    assert_eq!(last_price_from(Some(0), Some("n/a")), None);
    assert_eq!(wallet_balance_from(Some(0), Some("0")), Some(0));
    assert_eq!(wallet_balance_from(Some(0), Some("1.998")), Some(199_800_000));
}
