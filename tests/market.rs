use nft_market::error::MarketError;
use nft_market::market::{Contract, Settlement, TransferOutcome, STORAGE_PER_SALE};

fn s(x: &str) -> String {
    x.to_string()
}

fn market() -> Contract {
    Contract::new(s("alice"), Some(vec![s("usdc.ledger")]), None)
}

fn listed(m: &mut Contract, owner: &str, token: &str, conditions: Vec<(String, u128)>) {
    if m.storage_balance_of(&s(owner)) < (m.count_listings(&s(owner)) as u128 + 1) * STORAGE_PER_SALE {
        m.storage_deposit(&s(owner), STORAGE_PER_SALE).unwrap();
    }
    m.list_sale(&s(owner), s("nft.ledger"), s(token), 0, conditions, None).unwrap();
}

#[test]
fn lib_test_new() {
    let contract = Contract::new(s("alice"), None, None);
    assert_eq!(contract.bid_history_length, 1u8);
    assert_eq!(contract.ft_token_ids.contains(&"near".to_string()), true);
    assert_ne!(contract.ft_token_ids.contains(&"eth".to_string()), true);
}

#[test]
fn test_add_token_type() {
    let mut contract = Contract::new(s("alice"), None, None);
    assert_ne!(contract.ft_token_ids.contains(&s("danny")), true);
    contract.add_ft_token_ids(&s("alice"), vec![s("danny")]).unwrap();
    assert_eq!(contract.ft_token_ids.contains(&s("danny")), true);
}

#[test]
fn add_currencies_reports_which_were_new() {
    let mut m = Contract::new(s("alice"), None, None);
    let added = m.add_ft_token_ids(&s("alice"), vec![s("near"), s("x"), s("x")]).unwrap();
    assert_eq!(added, vec![false, true, false]);
    assert_eq!(m.supported_ft_token_ids(), vec![s("near"), s("x")]);
}

#[test]
fn add_currencies_needs_admin() {
    let mut m = Contract::new(s("alice"), None, None);
    assert_eq!(m.add_ft_token_ids(&s("bob"), vec![s("x")]), Err(MarketError::NotAdmin));
    assert!(!m.is_supported(&s("x")));
}

#[test]
fn deposit_below_minimum_is_refused() {
    let mut m = market();
    assert_eq!(m.storage_deposit(&s("bob"), STORAGE_PER_SALE - 1), Err(MarketError::DepositTooSmall));
    assert_eq!(m.storage_balance_of(&s("bob")), 0);
    let r = m.list_sale(&s("bob"), s("nft.ledger"), s("1"), 0, vec![(s("near"), 10)], None);
    assert_eq!(r, Err(MarketError::InsufficientStorageCredit));
}

#[test]
fn rent_round_trip_returns_deposit() {
    let mut m = market();
    let x = STORAGE_PER_SALE * 3 + 17;
    m.storage_deposit(&s("bob"), x).unwrap();
    m.list_sale(&s("bob"), s("nft.ledger"), s("1"), 0, vec![(s("near"), 10)], None).unwrap();
    assert_eq!(m.storage_paid(&s("bob")), x);
    m.remove_sale(&s("bob"), &s("nft.ledger"), &s("1")).unwrap();
    assert_eq!(m.storage_withdraw(&s("bob"), 1), Ok(x));
    assert_eq!(m.storage_balance_of(&s("bob")), 0);
}

#[test]
fn withdraw_keeps_rent_of_active_sales() {
    let mut m = market();
    m.storage_deposit(&s("bob"), STORAGE_PER_SALE * 2).unwrap();
    m.list_sale(&s("bob"), s("nft.ledger"), s("1"), 0, vec![(s("near"), 10)], None).unwrap();
    assert_eq!(m.storage_withdraw(&s("bob"), 0), Err(MarketError::RequiresOneYocto));
    assert_eq!(m.storage_withdraw(&s("bob"), 1), Ok(STORAGE_PER_SALE));
    assert_eq!(m.storage_balance_of(&s("bob")), STORAGE_PER_SALE);
    assert_eq!(m.storage_withdraw(&s("bob"), 1), Ok(0));
}

#[test]
fn storage_views() {
    let m = market();
    assert_eq!(m.storage_minimum_balance(), STORAGE_PER_SALE);
    assert_eq!(m.storage_amount(), STORAGE_PER_SALE);
    let b = m.storage_balance_bounds();
    assert_eq!(b.min, 10_000_000_000_000_000_000_000);
    assert!(b.max.is_none());
}

#[test]
fn duplicate_listing_is_refused() {
    let mut m = market();
    m.storage_deposit(&s("bob"), STORAGE_PER_SALE * 2).unwrap();
    listed(&mut m, "bob", "1", vec![(s("near"), 10)]);
    let r = m.list_sale(&s("bob"), s("nft.ledger"), s("1"), 0, vec![(s("near"), 20)], None);
    assert_eq!(r, Err(MarketError::DuplicateListing));
    assert_eq!(m.sales.len(), 1);
}

#[test]
fn listing_in_unsupported_currency_is_refused() {
    let mut m = market();
    m.storage_deposit(&s("bob"), STORAGE_PER_SALE).unwrap();
    let r = m.list_sale(&s("bob"), s("nft.ledger"), s("1"), 0, vec![(s("eth"), 10)], None);
    assert_eq!(r, Err(MarketError::UnsupportedCurrency));
}

#[test]
fn owner_changes_conditions() {
    let mut m = market();
    listed(&mut m, "bob", "1", vec![(s("near"), 10)]);
    assert_eq!(m.update_price(&s("carol"), &s("nft.ledger"), &s("1"), &s("near"), 5), Err(MarketError::NotOwner));
    assert_eq!(m.update_price(&s("bob"), &s("nft.ledger"), &s("2"), &s("near"), 5), Err(MarketError::ListingNotFound));
    assert_eq!(m.update_price(&s("bob"), &s("nft.ledger"), &s("1"), &s("eth"), 5), Err(MarketError::UnsupportedCurrency));
    m.update_price(&s("bob"), &s("nft.ledger"), &s("1"), &s("usdc.ledger"), 7).unwrap();
    m.update_price(&s("bob"), &s("nft.ledger"), &s("1"), &s("near"), 12).unwrap();
    let sale = m.get_sale(&s("nft.ledger"), &s("1")).unwrap();
    assert_eq!(sale.sale_conditions, vec![(s("near"), 12), (s("usdc.ledger"), 7)]);
    m.remove_condition(&s("bob"), &s("nft.ledger"), &s("1"), &s("near")).unwrap();
    m.remove_condition(&s("bob"), &s("nft.ledger"), &s("1"), &s("usdc.ledger")).unwrap();
    assert_eq!(
        m.remove_condition(&s("bob"), &s("nft.ledger"), &s("1"), &s("near")),
        Err(MarketError::ConditionNotFound)
    );
    let sale = m.get_sale(&s("nft.ledger"), &s("1")).unwrap();
    assert!(sale.sale_conditions.is_empty());
}

#[test]
fn remove_sale_checks_owner() {
    let mut m = market();
    listed(&mut m, "bob", "1", vec![(s("near"), 10)]);
    assert_eq!(m.remove_sale(&s("carol"), &s("nft.ledger"), &s("1")).err(), Some(MarketError::NotOwner));
    let removed = m.remove_sale(&s("bob"), &s("nft.ledger"), &s("1")).unwrap();
    assert_eq!(removed.token_id, s("1"));
    assert!(m.get_sale(&s("nft.ledger"), &s("1")).is_none());
    assert_eq!(m.remove_sale(&s("bob"), &s("nft.ledger"), &s("1")).err(), Some(MarketError::ListingNotFound));
}

#[test]
fn lower_bid_is_refused_and_history_unchanged() {
    let mut m = market();
    listed(&mut m, "bob", "1", vec![(s("near"), 100)]);
    assert_eq!(m.submit_bid(&s("nft.ledger"), &s("1"), &s("near"), s("buyer1"), 5), Ok(None));
    let r = m.submit_bid(&s("nft.ledger"), &s("1"), &s("near"), s("buyer2"), 3);
    assert_eq!(r, Err(MarketError::BidTooLow));
    let sale = m.get_sale(&s("nft.ledger"), &s("1")).unwrap();
    assert_eq!(sale.bids.len(), 1);
    assert_eq!(sale.bids[0].1.len(), 1);
    assert_eq!(sale.bids[0].1[0].owner_id, s("buyer1"));
    assert_eq!(sale.bids[0].1[0].price, 5);
}

#[test]
fn higher_bid_evicts_lowest() {
    let mut m = market();
    listed(&mut m, "bob", "1", vec![(s("near"), 100)]);
    m.submit_bid(&s("nft.ledger"), &s("1"), &s("near"), s("buyer1"), 5).unwrap();
    let evicted = m.submit_bid(&s("nft.ledger"), &s("1"), &s("near"), s("buyer2"), 6).unwrap().unwrap();
    assert_eq!(evicted.owner_id, s("buyer1"));
    assert_eq!(evicted.price, 5);
    assert_eq!(m.submit_bid(&s("nft.ledger"), &s("1"), &s("near"), s("buyer3"), 6), Err(MarketError::BidTooLow));
    assert_eq!(m.submit_bid(&s("nft.ledger"), &s("1"), &s("eth"), s("buyer3"), 9), Err(MarketError::UnsupportedCurrency));
    assert_eq!(m.submit_bid(&s("nft.ledger"), &s("2"), &s("near"), s("buyer3"), 9), Err(MarketError::ListingNotFound));
}

#[test]
fn longer_history_keeps_top_bids_in_order() {
    let mut m = Contract::new(s("alice"), None, Some(3));
    listed(&mut m, "bob", "1", vec![(s("near"), 100)]);
    for (who, amount) in [("a", 1u128), ("b", 2), ("c", 3)] {
        assert_eq!(m.submit_bid(&s("nft.ledger"), &s("1"), &s("near"), s(who), amount), Ok(None));
    }
    let evicted = m.submit_bid(&s("nft.ledger"), &s("1"), &s("near"), s("d"), 4).unwrap();
    assert_eq!(evicted.map(|b| b.price), Some(1));
    let sale = m.get_sale(&s("nft.ledger"), &s("1")).unwrap();
    let prices: Vec<u128> = sale.bids[0].1.iter().map(|b| b.price).collect();
    assert_eq!(prices, vec![2, 3, 4]);
}

#[test]
fn zero_bid_is_too_low() {
    let mut m = market();
    listed(&mut m, "bob", "1", vec![(s("near"), 100)]);
    assert_eq!(m.submit_bid(&s("nft.ledger"), &s("1"), &s("near"), s("b"), 0), Err(MarketError::BidTooLow));
}

#[test]
fn purchase_refusals() {
    let mut m = market();
    listed(&mut m, "bob", "1", vec![(s("near"), 100)]);
    let k = (s("nft.ledger"), s("1"));
    assert_eq!(m.purchase(&s("near"), &s("buyer"), 99, &k.0, &k.1).err(), Some(MarketError::PriceMismatch));
    assert_eq!(m.purchase(&s("usdc.ledger"), &s("buyer"), 100, &k.0, &k.1).err(), Some(MarketError::UnsupportedCurrency));
    assert_eq!(m.purchase(&s("near"), &s("buyer"), 100, &k.0, &s("9")).err(), Some(MarketError::ListingNotFound));
    assert!(m.get_sale(&k.0, &k.1).unwrap().pending.is_none());
}

#[test]
fn second_buyer_is_refused_while_locked() {
    let mut m = market();
    listed(&mut m, "bob", "1", vec![(s("near"), 100)]);
    let k = (s("nft.ledger"), s("1"));
    let req = m.purchase(&s("near"), &s("buyer1"), 100, &k.0, &k.1).unwrap();
    assert_eq!(req.owner_id, s("bob"));
    assert_eq!(req.buyer_id, s("buyer1"));
    assert_eq!(req.max_payout_recipients, 6);
    assert_eq!(m.purchase(&s("near"), &s("buyer2"), 100, &k.0, &k.1).err(), Some(MarketError::ListingLocked));
    assert_eq!(m.update_price(&s("bob"), &k.0, &k.1, &s("near"), 1), Err(MarketError::ListingLocked));
    assert_eq!(m.remove_sale(&s("bob"), &k.0, &k.1).err(), Some(MarketError::ListingLocked));
    assert_eq!(m.submit_bid(&k.0, &k.1, &s("near"), s("b"), 5), Err(MarketError::ListingLocked));
}

#[test]
fn failed_transfer_rolls_back() {
    let mut m = market();
    listed(&mut m, "bob", "1", vec![(s("near"), 100), (s("usdc.ledger"), 50)]);
    let k = (s("nft.ledger"), s("1"));
    let req = m.purchase(&s("near"), &s("buyer"), 100, &k.0, &k.1).unwrap();
    let r = m.resolve_purchase(&k.0, &k.1, req.attempt_id, TransferOutcome::Failed);
    match r {
        Settlement::RolledBack { ft_token_id, buyer_id, amount } => {
            assert_eq!(ft_token_id, s("near"));
            assert_eq!(buyer_id, s("buyer"));
            assert_eq!(amount, 100);
        },
        _ => panic!("expected a rollback"),
    }
    let sale = m.get_sale(&k.0, &k.1).unwrap();
    assert!(sale.pending.is_none());
    assert_eq!(sale.sale_conditions.len(), 2);
}

#[test]
fn finalized_purchase_removes_condition_and_replay_is_stale() {
    let mut m = market();
    listed(&mut m, "bob", "1", vec![(s("near"), 100), (s("usdc.ledger"), 50)]);
    let k = (s("nft.ledger"), s("1"));
    let req = m.purchase(&s("near"), &s("buyer"), 100, &k.0, &k.1).unwrap();
    let payout = vec![(s("artist"), 10u128), (s("bob"), 90u128)];
    let r = m.resolve_purchase(&k.0, &k.1, req.attempt_id, TransferOutcome::Transferred(Some(payout.clone())));
    match r {
        Settlement::Finalized { ft_token_id, payout: p, removed_sale } => {
            assert_eq!(ft_token_id, s("near"));
            assert_eq!(p, payout);
            assert!(removed_sale.is_none());
        },
        _ => panic!("expected a settlement"),
    }
    let sale = m.get_sale(&k.0, &k.1).unwrap();
    assert_eq!(sale.sale_conditions, vec![(s("usdc.ledger"), 50)]);
    assert!(sale.pending.is_none());
    let again = m.resolve_purchase(&k.0, &k.1, req.attempt_id, TransferOutcome::Failed);
    assert!(matches!(again, Settlement::Stale));
    assert_eq!(m.get_sale(&k.0, &k.1).unwrap().sale_conditions.len(), 1);
}

#[test]
fn invalid_ledger_payout_falls_back_to_seller() {
    let mut m = market();
    listed(&mut m, "bob", "1", vec![(s("near"), 100)]);
    let k = (s("nft.ledger"), s("1"));
    let req = m.purchase(&s("near"), &s("buyer"), 100, &k.0, &k.1).unwrap();
    let bad = vec![(s("artist"), 10u128), (s("bob"), 80u128)];
    match m.resolve_purchase(&k.0, &k.1, req.attempt_id, TransferOutcome::Transferred(Some(bad))) {
        Settlement::Finalized { payout, removed_sale, .. } => {
            assert_eq!(payout, vec![(s("bob"), 100)]);
            assert_eq!(removed_sale.unwrap().token_id, s("1"));
        },
        _ => panic!("expected a settlement"),
    }
    assert!(m.get_sale(&k.0, &k.1).is_none());
    assert_eq!(m.count_listings(&s("bob")), 0);
}

#[test]
fn stale_attempt_id_is_ignored() {
    let mut m = market();
    listed(&mut m, "bob", "1", vec![(s("near"), 100)]);
    let k = (s("nft.ledger"), s("1"));
    let req = m.purchase(&s("near"), &s("buyer"), 100, &k.0, &k.1).unwrap();
    let r = m.resolve_purchase(&k.0, &k.1, req.attempt_id + 1, TransferOutcome::Failed);
    assert!(matches!(r, Settlement::Stale));
    assert!(m.get_sale(&k.0, &k.1).unwrap().pending.is_some());
}

#[test]
fn accept_bid_settles_with_bidder() {
    let mut m = market();
    listed(&mut m, "bob", "1", vec![(s("near"), 100)]);
    let k = (s("nft.ledger"), s("1"));
    assert_eq!(m.accept_bid(&s("bob"), &k.0, &k.1, &s("near")).err(), Some(MarketError::NoBids));
    m.submit_bid(&k.0, &k.1, &s("near"), s("carol"), 40).unwrap();
    assert_eq!(m.accept_bid(&s("carol"), &k.0, &k.1, &s("near")).err(), Some(MarketError::NotOwner));
    let req = m.accept_bid(&s("bob"), &k.0, &k.1, &s("near")).unwrap();
    assert_eq!(req.buyer_id, s("carol"));
    assert_eq!(req.price, 40);
    match m.resolve_purchase(&k.0, &k.1, req.attempt_id, TransferOutcome::Transferred(None)) {
        Settlement::Finalized { payout, removed_sale, .. } => {
            assert_eq!(payout, vec![(s("bob"), 40)]);
            assert!(removed_sale.is_none());
        },
        _ => panic!("expected a settlement"),
    }
    let sale = m.get_sale(&k.0, &k.1).unwrap();
    assert_eq!(sale.sale_conditions, vec![(s("near"), 100)]);
    assert!(sale.bids[0].1.is_empty());
}

#[test]
fn sale_views_page_in_listing_order() {
    let mut m = market();
    m.storage_deposit(&s("bob"), STORAGE_PER_SALE * 2).unwrap();
    m.storage_deposit(&s("carol"), STORAGE_PER_SALE).unwrap();
    m.list_sale(&s("bob"), s("c1"), s("1"), 0, vec![(s("near"), 10)], Some(s("art"))).unwrap();
    m.list_sale(&s("carol"), s("c2"), s("1"), 0, vec![(s("near"), 10)], Some(s("art"))).unwrap();
    m.list_sale(&s("bob"), s("c2"), s("2"), 0, vec![(s("near"), 10)], None).unwrap();
    let keys = |v: Vec<nft_market::market::Sale>| v.into_iter().map(|x| (x.nft_contract_id, x.token_id)).collect::<Vec<_>>();
    assert_eq!(m.get_supply_by_owner_id(s("bob")), 2);
    assert_eq!(keys(m.get_sales_by_owner_id(s("bob"), 0, 10)), vec![(s("c1"), s("1")), (s("c2"), s("2"))]);
    assert_eq!(keys(m.get_sales_by_owner_id(s("bob"), 1, 10)), vec![(s("c2"), s("2"))]);
    assert_eq!(m.get_supply_by_nft_contract_id(s("c2")), 2);
    assert_eq!(keys(m.get_sales_by_nft_contract_id(s("c2"), 0, 1)), vec![(s("c2"), s("1"))]);
    assert_eq!(keys(m.get_sales_by_nft_token_type(s("art"), 0, 10)), vec![(s("c1"), s("1")), (s("c2"), s("1"))]);
    assert_eq!(keys(m.get_sales_by_nft_token_type(s("art"), 2, 10)), vec![]);
    let copy = m.get_sales_by_owner_id(s("carol"), 0, 1).pop().unwrap();
    assert_eq!(&copy, m.get_sale(&s("c2"), &s("1")).unwrap());
}

#[test]
fn first_bid_accepted_then_lower_refused() {
    let mut m = Contract::new(s("alice"), None, None);
    listed(&mut m, "bob", "1", vec![(s("near"), 100)]);
    assert_eq!(m.submit_bid(&s("nft.ledger"), &s("1"), &s("near"), s("buyer1"), 5), Ok(None));
    let before = m.get_sale(&s("nft.ledger"), &s("1")).unwrap().copy();
    assert_eq!(m.submit_bid(&s("nft.ledger"), &s("1"), &s("near"), s("buyer2"), 3), Err(MarketError::BidTooLow));
    assert_eq!(m.get_sale(&s("nft.ledger"), &s("1")).unwrap(), &before);
}
