use std::collections::HashMap;

use nft_market::error::NftError;
use nft_market::market::{Contract as Market, Settlement, TransferOutcome, STORAGE_PER_SALE};
use nft_market::nft::{bytes_for_approved_account_id, refund_deposit, Contract, STORAGE_PRICE_PER_BYTE};
use nft_market::nft_core::NonFungibleTokenCore;
use nft_market::token::{NFTMetadata, TokenMetadata};

const MINT_STORAGE_COST: u128 = 50_000_000_000_000_000_000_000;

fn s(x: &str) -> String {
    x.to_string()
}

fn get_default_nft_metadata() -> NFTMetadata {
    NFTMetadata {
        spec: "nft-1.0".to_string(),
        name: "market nft".to_string(),
        symbol: "MNFT".to_string(),
        icon: None,
        base_uri: None,
        reference: None,
        reference_hash: None,
    }
}

fn get_default_token_metadata() -> TokenMetadata {
    TokenMetadata {
        title: Some("test token".to_string()),
        description: Some("test token desc".to_string()),
        media: None,
        media_hash: None,
        copies: None,
        issued_at: None,
        expires_at: None,
        starts_at: None,
        updated_at: None,
        extra: None,
        reference: None,
        reference_hash: None,
    }
}

fn get_default_contract(supply_cap_by_type: Vec<(String, u64)>) -> Contract {
    Contract::new(s("bob"), get_default_nft_metadata(), supply_cap_by_type, Some(false))
}

fn minted(contract: &mut Contract, token_id: &str, royalties: Vec<(String, u32)>, owner: &str) {
    contract
        .nft_mint(&s(owner), Some(s(token_id)), get_default_token_metadata(), Some(royalties), Some(s(owner)), Some(s("t_token")))
        .unwrap();
}

#[test]
fn hm() {
    let mut hm = HashMap::new();
    hm.insert(1, 2);
    assert_eq!(hm.get(&1).unwrap().clone(), 2);
    hm.insert(1, 3);
    assert_eq!(hm.get(&1).unwrap().clone(), 3);
}

#[test]
fn test_new() {
    let contract = get_default_contract(vec![]);
    assert_eq!(contract.nft_token("1".to_string()), None);
}

#[test]
fn test_token() {
    let contract = get_default_contract(vec![]);
    assert_eq!(contract.nft_token("1".to_string()), None);
}

#[test]
fn test_nft_mint() {
    let token_type = "t_token".to_string();
    let mut contract = get_default_contract(vec![(token_type.clone(), 10u64)]);
    let token_id = "0".to_string();
    let r = 20u32;
    let perpetual_royalties = vec![(s("alice"), r)];
    assert_eq!(refund_deposit(0, MINT_STORAGE_COST), Ok(MINT_STORAGE_COST));
    contract
        .nft_mint(
            &s("alice"),
            Some(token_id.clone()),
            get_default_token_metadata(),
            Some(perpetual_royalties),
            Some(s("alice")),
            Some(token_type.clone()),
        )
        .unwrap();
    let token_json = contract.nft_token(token_id.clone()).unwrap();
    assert_eq!(token_json.token_id, token_id);
    assert_eq!(token_json.token_type.unwrap(), token_type);
    let rr = token_json.royalty.iter().find(|e| e.0 == "alice").map(|e| e.1).unwrap();
    assert_eq!(rr, r);
}

#[test]
fn test_nft_transfer() {
    let token_type = "t_token".to_string();
    let mut contract = get_default_contract(vec![(token_type.clone(), 10u64)]);
    let token_id = "0".to_string();
    let r = 20u32;
    contract
        .nft_mint(
            &s("alice"),
            Some(token_id.clone()),
            get_default_token_metadata(),
            Some(vec![(s("alice"), r)]),
            Some(s("alice")),
            Some(token_type.clone()),
        )
        .unwrap();
    contract.nft_transfer(&s("alice"), s("bob"), token_id.clone(), None, 1).unwrap();
    if let Some(token) = contract.nft_token(token_id.clone()) {
        assert_eq!(token.token_id, token_id);
        assert_ne!(token.owner_id, s("alice"));
        assert_eq!(token.owner_id, s("bob"));
        assert_eq!(token.approved_account_ids, vec![]);
    } else {
        panic!("token not correctly created, or not found by nft_token");
    }
}

#[test]
fn mint_numbers_tokens_by_default() {
    let mut c = get_default_contract(vec![]);
    let id = c.nft_mint(&s("alice"), None, get_default_token_metadata(), None, None, None).unwrap();
    assert_eq!(id, s("1"));
    let id = c.nft_mint(&s("alice"), None, get_default_token_metadata(), None, None, None).unwrap();
    assert_eq!(id, s("2"));
    assert_eq!(c.nft_token(s("2")).unwrap().owner_id, s("alice"));
    assert_eq!(
        c.nft_mint(&s("alice"), Some(s("2")), get_default_token_metadata(), None, None, None),
        Err(NftError::TokenExists)
    );
}

#[test]
fn mint_refusals() {
    let mut c = get_default_contract(vec![(s("t"), 1)]);
    let six: Vec<(String, u32)> = (0..6).map(|i| (format!("r{}", i), 1u32)).collect();
    assert_eq!(
        c.nft_mint(&s("a"), None, get_default_token_metadata(), Some(six), None, None),
        Err(NftError::TooManyRoyaltyRecipients)
    );
    assert_eq!(
        c.nft_mint(&s("a"), None, get_default_token_metadata(), Some(vec![(s("r"), 2001)]), None, None),
        Err(NftError::RoyaltyCapExceeded)
    );
    assert_eq!(
        c.nft_mint(&s("a"), None, get_default_token_metadata(), None, None, Some(s("u"))),
        Err(NftError::UnknownTokenType)
    );
    c.nft_mint(&s("a"), None, get_default_token_metadata(), None, None, Some(s("t"))).unwrap();
    assert_eq!(c.nft_supply_for_type(&s("t")), 1);
    assert_eq!(
        c.nft_mint(&s("a"), None, get_default_token_metadata(), None, None, Some(s("t"))),
        Err(NftError::SupplyCapReached)
    );
}

#[test]
fn transfer_refusals() {
    let mut c = get_default_contract(vec![(s("t_token"), 10)]);
    minted(&mut c, "0", vec![], "alice");
    assert_eq!(c.nft_transfer(&s("alice"), s("bob"), s("0"), None, 0), Err(NftError::RequiresOneYocto));
    assert_eq!(c.nft_transfer(&s("alice"), s("bob"), s("9"), None, 1), Err(NftError::TokenNotFound));
    assert_eq!(c.nft_transfer(&s("carol"), s("bob"), s("0"), None, 1), Err(NftError::Unauthorized));
    assert_eq!(c.nft_transfer(&s("alice"), s("alice"), s("0"), None, 1), Err(NftError::SameOwnerAndReceiver));
    assert_eq!(c.nft_transfer(&s("alice"), s("bob"), s("0"), Some(0), 1), Err(NftError::SenderNotApproved));
    c.add_token_types(&s("bob"), vec![], None).unwrap();
    c.token_types_locked.push(s("t_token"));
    assert_eq!(c.nft_transfer(&s("alice"), s("bob"), s("0"), None, 1), Err(NftError::TransfersLocked));
    assert_eq!(c.is_token_locked(&s("0")), Ok(true));
    c.unlock_token_types(vec![s("t_token")]);
    assert_eq!(c.is_token_locked(&s("0")), Ok(false));
    assert!(c.nft_transfer(&s("alice"), s("bob"), s("0"), None, 1).is_ok());
}

#[test]
fn approvals_and_revocation() {
    let mut c = get_default_contract(vec![(s("t_token"), 10)]);
    minted(&mut c, "0", vec![], "alice");
    let cost = bytes_for_approved_account_id(&s("market")) as u128 * STORAGE_PRICE_PER_BYTE;
    assert_eq!(bytes_for_approved_account_id(&s("market")), 18);
    assert_eq!(c.nft_approve(&s("alice"), s("0"), s("market"), None, 0).err(), Some(NftError::RequiresAtLeastOneYocto));
    assert_eq!(c.nft_approve(&s("bob"), s("0"), s("market"), None, cost).err(), Some(NftError::NotOwner));
    assert_eq!(c.nft_approve(&s("alice"), s("0"), s("market"), None, cost - 1).err(), Some(NftError::InsufficientStorageDeposit));
    let a = c.nft_approve(&s("alice"), s("0"), s("market"), Some(s("{\"price\":\"1\"}")), cost + 5).unwrap();
    assert_eq!(a.approval_id, 0);
    assert_eq!(a.refund, 5);
    let notice = a.notice.unwrap();
    assert_eq!(notice.msg, s("{\"price\":\"1\", \"token_type\":\"t_token\"}"));
    assert_eq!(notice.account_id, s("market"));
    assert_eq!(notice.owner_id, s("alice"));
    assert_eq!(
        c.nft_approve(&s("alice"), s("0"), s("other"), Some(s("")), cost).err(),
        Some(NftError::EmptyMessage)
    );
    let again = c.nft_approve(&s("alice"), s("0"), s("market"), None, 1).unwrap();
    assert_eq!(again.approval_id, 1);
    assert_eq!(again.refund, 1);
    assert!(again.notice.is_none());
    assert_eq!(c.nft_token(s("0")).unwrap().approved_account_ids, vec![(s("market"), 1)]);
    assert_eq!(c.nft_transfer(&s("market"), s("dave"), s("0"), Some(0), 1), Err(NftError::ApprovalIdMismatch));
    assert_eq!(c.nft_revoke(&s("alice"), s("0"), s("other"), 1), Ok(0));
    assert_eq!(c.nft_revoke(&s("alice"), s("0"), s("market"), 1), Ok(cost));
    assert_eq!(c.nft_transfer(&s("market"), s("dave"), s("0"), None, 1), Err(NftError::Unauthorized));
}

#[test]
fn approved_transfer_refunds_approvals() {
    let mut c = get_default_contract(vec![(s("t_token"), 10)]);
    minted(&mut c, "0", vec![], "alice");
    let cost = 18u128 * STORAGE_PRICE_PER_BYTE;
    c.nft_approve(&s("alice"), s("0"), s("market"), None, cost).unwrap();
    let (previous, refund) = c.nft_transfer(&s("market"), s("dave"), s("0"), Some(0), 1).unwrap();
    assert_eq!(previous, s("alice"));
    assert_eq!(refund, cost);
    assert_eq!(c.nft_token(s("0")).unwrap().owner_id, s("dave"));
}

#[test]
fn storage_deposit_refund() {
    assert_eq!(refund_deposit(2, 3 * STORAGE_PRICE_PER_BYTE), Ok(STORAGE_PRICE_PER_BYTE));
    assert_eq!(refund_deposit(2, 2 * STORAGE_PRICE_PER_BYTE - 1), Err(NftError::InsufficientStorageDeposit));
}

#[test]
fn admin_settings() {
    let mut c = get_default_contract(vec![(s("a"), 1)]);
    assert_eq!(c.set_contract_royalty(&s("alice"), 10), Err(NftError::NotOwner));
    assert_eq!(c.set_contract_royalty(&s("bob"), 1001), Err(NftError::ContractRoyaltyTooHigh));
    c.set_contract_royalty(&s("bob"), 1000).unwrap();
    assert_eq!(c.get_contract_royalty(), 1000);
    assert_eq!(c.add_token_types(&s("bob"), vec![(s("a"), 5)], None), Err(NftError::TokenTypeExists));
    c.add_token_types(&s("bob"), vec![(s("b"), 5), (s("c"), 6)], Some(true)).unwrap();
    assert_eq!(c.get_supply_caps(), vec![(s("a"), 1), (s("b"), 5), (s("c"), 6)]);
    assert_eq!(c.get_token_types_locked(), vec![s("b"), s("c")]);
    assert_eq!(c.add_token_types(&s("bob"), vec![(s("b"), 5)], Some(true)), Err(NftError::TokenTypeAlreadyLocked));
    c.unlock_token_types(vec![s("b")]);
    assert_eq!(c.get_token_types_locked(), vec![s("c")]);
    let locked = Contract::new(s("bob"), get_default_nft_metadata(), vec![(s("x"), 1)], Some(true));
    assert_eq!(locked.get_token_types_locked(), vec![s("x")]);
}

#[test]
fn storage_measure() {
    let mut c = get_default_contract(vec![]);
    c.measure_min_token_storage_cost(100);
    assert_eq!(c.extra_storage_in_bytes_per_token, 100 + 64 - 3);
}

#[test]
fn enumeration_pages() {
    let mut c = get_default_contract(vec![(s("t_token"), 10)]);
    minted(&mut c, "a", vec![], "alice");
    minted(&mut c, "b", vec![], "carol");
    minted(&mut c, "c", vec![], "alice");
    c.nft_mint(&s("alice"), Some(s("d")), get_default_token_metadata(), None, None, None).unwrap();
    let ids = |v: Vec<nft_market::token::JsonToken>| v.into_iter().map(|j| j.token_id).collect::<Vec<_>>();
    assert_eq!(ids(c.nft_tokens(1, 2)), vec![s("b"), s("c")]);
    assert_eq!(ids(c.nft_tokens(3, 10)), vec![s("d")]);
    assert_eq!(ids(c.nft_tokens(4, 10)), Vec::<String>::new());
    assert_eq!(ids(c.nft_tokens(0, u64::MAX)).len(), 4);
    assert_eq!(ids(c.nft_tokens_batch(vec![s("c"), s("a")])), vec![s("c"), s("a")]);
    assert_eq!(c.nft_supply_for_owner(&s("alice")), 3);
    assert_eq!(ids(c.nft_tokens_for_owner(&s("alice"), 1, 5)), vec![s("c"), s("d")]);
    assert_eq!(ids(c.nft_tokens_for_owner(&s("nobody"), 0, 5)), Vec::<String>::new());
    assert_eq!(c.nft_supply_for_type(&s("t_token")), 3);
    assert_eq!(ids(c.nft_tokens_for_type(&s("t_token"), 0, 2)), vec![s("a"), s("b")]);
}

#[test]
fn transfer_payout_splits_royalties() {
    let mut c = get_default_contract(vec![(s("t_token"), 10)]);
    minted(&mut c, "0", vec![(s("artist"), 2000)], "alice");
    assert_eq!(c.nft_transfer_payout(&s("alice"), &s("dave"), &s("0"), None, 1000, 1, 1), Err(NftError::PayoutTooLarge));
    let p = c.nft_transfer_payout(&s("alice"), &s("dave"), &s("0"), None, 1000, 6, 1).unwrap();
    assert_eq!(p, vec![(s("artist"), 200), (s("alice"), 800)]);
    assert_eq!(c.nft_token(s("0")).unwrap().owner_id, s("dave"));
}

fn run_purchase(ledger: &mut Contract, market: &mut Market, buyer: &str, price: u128) -> Settlement {
    let req = market.purchase(&s("near"), &s(buyer), price, &s("nft.ledger"), &s("0")).unwrap();
    let outcome = match ledger.nft_transfer_payout(
        &s("market"),
        &req.buyer_id,
        &req.token_id,
        Some(req.approval_id),
        req.price,
        req.max_payout_recipients,
        1,
    ) {
        Ok(p) => TransferOutcome::Transferred(Some(p)),
        Err(_) => TransferOutcome::Failed,
    };
    market.resolve_purchase(&req.nft_contract_id, &req.token_id, req.attempt_id, outcome)
}

#[test]
fn purchase_at_asking_price_moves_asset_and_pays_out() {
    let mut ledger = get_default_contract(vec![(s("t_token"), 10)]);
    minted(&mut ledger, "0", vec![(s("artist"), 500)], "alice");
    let a = ledger.nft_approve(&s("alice"), s("0"), s("market"), None, MINT_STORAGE_COST).unwrap();
    let mut market = Market::new(s("admin"), None, None);
    market.storage_deposit(&s("alice"), STORAGE_PER_SALE).unwrap();
    market
        .list_sale(&s("alice"), s("nft.ledger"), s("0"), a.approval_id, vec![(s("near"), 1000)], None)
        .unwrap();
    match run_purchase(&mut ledger, &mut market, "buyer", 1000) {
        Settlement::Finalized { payout, removed_sale, .. } => {
            assert_eq!(payout, vec![(s("artist"), 50), (s("alice"), 950)]);
            assert!(removed_sale.is_some());
        },
        _ => panic!("expected a settlement"),
    }
    assert_eq!(ledger.nft_token(s("0")).unwrap().owner_id, s("buyer"));
    assert!(market.get_sale(&s("nft.ledger"), &s("0")).is_none());
}

#[test]
fn stale_approval_rolls_back_and_keeps_sale() {
    let mut ledger = get_default_contract(vec![(s("t_token"), 10)]);
    minted(&mut ledger, "0", vec![], "alice");
    let a = ledger.nft_approve(&s("alice"), s("0"), s("market"), None, MINT_STORAGE_COST).unwrap();
    let mut market = Market::new(s("admin"), Some(vec![s("usdc.ledger")]), None);
    market.storage_deposit(&s("alice"), STORAGE_PER_SALE).unwrap();
    market
        .list_sale(&s("alice"), s("nft.ledger"), s("0"), a.approval_id, vec![(s("near"), 1000), (s("usdc.ledger"), 9)], None)
        .unwrap();
    ledger.nft_approve(&s("alice"), s("0"), s("market"), None, 1).unwrap();
    match run_purchase(&mut ledger, &mut market, "buyer", 1000) {
        Settlement::RolledBack { buyer_id, amount, .. } => {
            assert_eq!(buyer_id, s("buyer"));
            assert_eq!(amount, 1000);
        },
        _ => panic!("expected a rollback"),
    }
    assert_eq!(ledger.nft_token(s("0")).unwrap().owner_id, s("alice"));
    let sale = market.get_sale(&s("nft.ledger"), &s("0")).unwrap();
    assert!(sale.pending.is_none());
    assert_eq!(sale.sale_conditions.len(), 2);
}

#[test]
fn decimal_token_ids() {
    let mut c = get_default_contract(vec![]);
    for _ in 0..10 {
        c.nft_mint(&s("alice"), None, get_default_token_metadata(), None, None, None).unwrap();
    }
    let id = c.nft_mint(&s("alice"), None, get_default_token_metadata(), None, None, None).unwrap();
    assert_eq!(id, s("11"));
    assert_eq!(nft_market::nft::decimal_string(0), s("0"));
    assert_eq!(nft_market::nft::decimal_string(1_234_567_890), s("1234567890"));
    assert_eq!(nft_market::nft::decimal_string(u64::MAX), u64::MAX.to_string());
}
