use nft_market::error::MarketError;
use nft_market::payout::{compute_payout, royalty_to_payout};

fn s(x: &str) -> String {
    x.to_string()
}

fn amount_of(p: &[(String, u128)], who: &str) -> Option<u128> {
    p.iter().find(|e| e.0 == who).map(|e| e.1)
}

#[test]
fn single_royalty_of_twenty_percent() {
    let table = vec![(s("r"), 2000u32)];
    let p = compute_payout(1000, &table, &s("seller")).unwrap();
    assert_eq!(p.len(), 2);
    assert_eq!(amount_of(&p, "r"), Some(200));
    assert_eq!(amount_of(&p, "seller"), Some(800));
}

#[test]
fn payout_sums_to_price_with_rounding() {
    let table = vec![(s("a"), 333u32), (s("b"), 777u32), (s("c"), 1u32)];
    let price = 12_345u128;
    let p = compute_payout(price, &table, &s("seller")).unwrap();
    let total: u128 = p.iter().map(|e| e.1).sum();
    assert_eq!(total, price);
    assert_eq!(amount_of(&p, "a"), Some(411));
    assert_eq!(amount_of(&p, "b"), Some(959));
    assert_eq!(amount_of(&p, "c"), Some(1));
    assert_eq!(amount_of(&p, "seller"), Some(price - 411 - 959 - 1));
}

#[test]
fn empty_table_pays_seller_everything() {
    let p = compute_payout(77, &vec![], &s("seller")).unwrap();
    assert_eq!(p, vec![(s("seller"), 77)]);
}

#[test]
fn seller_royalty_entry_is_kept_by_seller() {
    let table = vec![(s("seller"), 1000u32), (s("r"), 500u32)];
    let p = compute_payout(1000, &table, &s("seller")).unwrap();
    assert_eq!(p, vec![(s("r"), 50), (s("seller"), 950)]);
}

#[test]
fn royalty_cap_exceeded() {
    let table = vec![(s("a"), 1500u32), (s("b"), 501u32)];
    assert_eq!(compute_payout(1000, &table, &s("seller")), Err(MarketError::RoyaltyCapExceeded));
}

#[test]
fn too_many_recipients() {
    let table: Vec<(String, u32)> = (0..6).map(|i| (format!("r{}", i), 10u32)).collect();
    assert_eq!(compute_payout(1000, &table, &s("seller")), Err(MarketError::TooManyRecipients));
}

#[test]
fn five_recipients_at_cap_is_accepted() {
    let table: Vec<(String, u32)> = (0..5).map(|i| (format!("r{}", i), 400u32)).collect();
    let p = compute_payout(10_000, &table, &s("seller")).unwrap();
    assert_eq!(p.len(), 6);
    assert_eq!(amount_of(&p, "seller"), Some(8000));
}

#[test]
fn share_rounds_down_without_overflow() {
    assert_eq!(royalty_to_payout(2000, 1000), 200);
    assert_eq!(royalty_to_payout(1, 9_999), 0);
    assert_eq!(royalty_to_payout(3, 10_001), 3);
    assert_eq!(royalty_to_payout(2000, u128::MAX), u128::MAX / 5);
}
