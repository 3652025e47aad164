//! The royalty calculator: splits a sale price between royalty holders and the
//! seller.
use vstd::prelude::*;
use vstd::arithmetic::div_mod::{lemma_div_is_ordered, lemma_div_multiples_vanish, lemma_hoist_over_denominator};
use crate::assoc::{keys_unique, has_key, lemma_as_map_push};
use crate::error::MarketError;

verus! {

/// Account names are strings.
pub type AccountId = String;

/// A split of a price: account to amount, one entry per account.
pub type Payout = Vec<(AccountId, u128)>;

/// Basis points in one whole.
pub const BPS_DENOMINATOR: u128 = 10_000;

/// The largest total of royalties, in basis points (20%).
pub const MAX_ROYALTY_BPS: u32 = 2000;

/// The most royalty recipients a table may name.
pub const MAX_ROYALTY_RECIPIENTS: usize = 5;

/// The most entries in a payout: every royalty recipient and the seller.
pub const MAX_PAYOUT_RECIPIENTS: usize = 6;

/// The share of `price` that `bps` basis points give, rounded down.
pub open spec fn share_of(price: u128, bps: u32) -> u128 {
    (price as int * bps as int / 10000) as u128
}

/// The total of a royalty table, in basis points.
pub open spec fn bps_total(t: Seq<(AccountId, u32)>) -> nat
    decreases t.len(),
{
    if t.len() == 0 {
        0
    } else {
        bps_total(t.drop_last()) + t.last().1 as nat
    }
}

/// The total of the amounts of a payout.
pub open spec fn amount_total(p: Seq<(AccountId, u128)>) -> nat
    decreases p.len(),
{
    if p.len() == 0 {
        0
    } else {
        amount_total(p.drop_last()) + p.last().1 as nat
    }
}

/// The royalty shares of a table, in its order, leaving out the seller's own
/// entry (the seller keeps what is not paid out).
pub open spec fn royalty_shares(price: u128, t: Seq<(AccountId, u32)>, seller: Seq<char>) -> Seq<(AccountId, u128)>
    decreases t.len(),
{
    if t.len() == 0 {
        Seq::empty()
    } else {
        let rest = royalty_shares(price, t.drop_last(), seller);
        if t.last().0@ == seller {
            rest
        } else {
            rest.push((t.last().0, share_of(price, t.last().1)))
        }
    }
}

/// The payout of a sale: the royalty shares, then the seller with the rest.
pub open spec fn payout_for(price: u128, t: Seq<(AccountId, u32)>, seller: AccountId) -> Seq<(AccountId, u128)> {
    let shares = royalty_shares(price, t, seller@);
    shares.push((seller, (price - amount_total(shares)) as u128))
}

/// A payout that may be disbursed for a sale at `price`: one entry per
/// account, at most the recipient cap, adding up to the price.
pub open spec fn valid_payout(p: Seq<(AccountId, u128)>, price: u128) -> bool {
    &&& keys_unique(p)
    &&& p.len() <= MAX_PAYOUT_RECIPIENTS
    &&& amount_total(p) == price
}

proof fn lemma_share_bound(price: u128, bps: u32)
    ensures
        share_of(price, bps) as int * 10000 <= price as int * bps as int,
        bps <= 10000 ==> share_of(price, bps) <= price,
{
    let x = price as int * bps as int;
    assert(x / 10000 * 10000 <= x) by (nonlinear_arith)
        requires x >= 0;
    if bps <= 10000 {
        assert(x <= price as int * 10000) by (nonlinear_arith)
            requires x == price as int * bps as int, bps <= 10000, price >= 0;
        lemma_div_is_ordered(x, price as int * 10000, 10000);
        lemma_div_multiples_vanish(price as int, 10000);
        assert(10000 * price as int == price as int * 10000);
    }
}

proof fn lemma_bps_total_prefix(t: Seq<(AccountId, u32)>, i: int)
    requires
        0 <= i <= t.len(),
    ensures
        bps_total(t.take(i)) <= bps_total(t),
    decreases t.len(),
{
    if i < t.len() {
        assert(t.drop_last().take(i) =~= t.take(i));
        lemma_bps_total_prefix(t.drop_last(), i);
    } else {
        assert(t.take(i) =~= t);
    }
}

proof fn lemma_entry_bounded_by_total(t: Seq<(AccountId, u32)>, i: int)
    requires
        0 <= i < t.len(),
    ensures
        t[i].1 <= bps_total(t),
    decreases t.len(),
{
    if i < t.len() - 1 {
        assert(t.drop_last()[i] == t[i]);
        lemma_entry_bounded_by_total(t.drop_last(), i);
    }
}

/// The royalty shares never pay out more than the table's share of the price.
pub proof fn lemma_shares_bounded(price: u128, t: Seq<(AccountId, u32)>, seller: Seq<char>)
    ensures
        amount_total(royalty_shares(price, t, seller)) * 10000 <= price as int * bps_total(t),
    decreases t.len(),
{
    if t.len() > 0 {
        let d = t.drop_last();
        lemma_shares_bounded(price, d, seller);
        lemma_share_bound(price, t.last().1);
        let a = amount_total(royalty_shares(price, d, seller)) as int;
        let b = bps_total(d) as int;
        let l = t.last().1 as int;
        let sh = share_of(price, t.last().1) as int;
        assert(price as int * (b + l) == price as int * b + price as int * l) by (nonlinear_arith);
        if t.last().0@ != seller {
            assert(royalty_shares(price, t, seller).drop_last() =~= royalty_shares(price, d, seller));
        }
        assert(price as int * l >= 0) by (nonlinear_arith)
            requires price >= 0, l >= 0;
    }
}

proof fn lemma_shares_keys(price: u128, t: Seq<(AccountId, u32)>, seller: Seq<char>)
    requires
        keys_unique(t),
    ensures
        keys_unique(royalty_shares(price, t, seller)),
        royalty_shares(price, t, seller).len() <= t.len(),
        forall|k: Seq<char>| #[trigger] has_key(royalty_shares(price, t, seller), k) ==> has_key(t, k) && k != seller,
    decreases t.len(),
{
    if t.len() > 0 {
        let d = t.drop_last();
        assert(keys_unique(d)) by {
            assert forall|a: int, b: int| 0 <= a < d.len() && 0 <= b < d.len() && a != b
                implies #[trigger] d[a].0@ != #[trigger] d[b].0@ by {
                assert(d[a] == t[a] && d[b] == t[b]);
            }
        }
        lemma_shares_keys(price, d, seller);
        let rest = royalty_shares(price, d, seller);
        assert forall|k: Seq<char>| #[trigger] has_key(d, k) implies has_key(t, k) by {
            let j = choose|j: int| 0 <= j < d.len() && #[trigger] d[j].0@ == k;
            assert(t[j].0@ == k);
        }
        if t.last().0@ != seller {
            let e = (t.last().0, share_of(price, t.last().1));
            assert(!has_key(rest, e.0@)) by {
                if has_key(rest, e.0@) {
                    assert(has_key(d, e.0@));
                    let j = choose|j: int| 0 <= j < d.len() && #[trigger] d[j].0@ == e.0@;
                    assert(t[j].0@ == t[t.len() - 1].0@);
                }
            }
            lemma_as_map_push(rest, e);
            let s = rest.push(e);
            assert forall|k: Seq<char>| has_key(s, k) implies has_key(t, k) && k != seller by {
                let j = choose|j: int| 0 <= j < s.len() && #[trigger] s[j].0@ == k;
                if j < rest.len() {
                    assert(rest[j].0@ == k);
                    assert(has_key(rest, k));
                } else {
                    assert(t[t.len() - 1].0@ == k);
                }
            }
        } else {
            assert forall|k: Seq<char>| has_key(rest, k) implies has_key(t, k) && k != seller by {
                assert(has_key(d, k));
            }
        }
    }
}

/// A payout computed from a table within the royalty cap pays out exactly the
/// price, and the seller receives the price less the royalty shares.
pub proof fn lemma_payout_sums_to_price(price: u128, t: Seq<(AccountId, u32)>, seller: AccountId)
    requires
        bps_total(t) <= MAX_ROYALTY_BPS,
    ensures
        amount_total(royalty_shares(price, t, seller@)) <= price,
        amount_total(payout_for(price, t, seller)) == price,
        payout_for(price, t, seller).last().1 == price - amount_total(royalty_shares(price, t, seller@)),
{
    let shares = royalty_shares(price, t, seller@);
    lemma_shares_bounded(price, t, seller@);
    let a = amount_total(shares) as int;
    assert(a <= price) by (nonlinear_arith)
        requires a * 10000 <= price as int * bps_total(t), bps_total(t) <= 2000, price >= 0;
    assert(payout_for(price, t, seller).drop_last() =~= shares);
}

/// The total of the shares of every entry of a table, the seller's included.
pub open spec fn all_shares_total(price: u128, t: Seq<(AccountId, u32)>) -> nat
    decreases t.len(),
{
    if t.len() == 0 {
        0
    } else {
        all_shares_total(price, t.drop_last()) + share_of(price, t.last().1) as nat
    }
}

proof fn lemma_all_shares_step(price: u128, t: Seq<(AccountId, u32)>, seller: Seq<char>)
    ensures
        all_shares_total(price, t) * 10000 <= price as int * bps_total(t),
        amount_total(royalty_shares(price, t, seller)) <= all_shares_total(price, t),
    decreases t.len(),
{
    if t.len() > 0 {
        let d = t.drop_last();
        lemma_all_shares_step(price, d, seller);
        lemma_share_bound(price, t.last().1);
        let b = bps_total(d) as int;
        let l = t.last().1 as int;
        assert(price as int * (b + l) == price as int * b + price as int * l) by (nonlinear_arith);
        if t.last().0@ != seller {
            assert(royalty_shares(price, t, seller).drop_last() =~= royalty_shares(price, d, seller));
        }
    }
}

/// Every share of a table within the royalty cap, the seller's own entry
/// included, adds up to at most a fifth of the price; so the seller, who gets
/// the price less the shares paid out, gets at least four fifths of it.
pub proof fn lemma_all_shares_bounded(price: u128, t: Seq<(AccountId, u32)>, seller: AccountId)
    requires
        bps_total(t) <= MAX_ROYALTY_BPS,
    ensures
        all_shares_total(price, t) * 10000 <= price as int * bps_total(t),
        all_shares_total(price, t) * 5 <= price,
        amount_total(royalty_shares(price, t, seller@)) <= all_shares_total(price, t),
        payout_for(price, t, seller).last().1 >= price - all_shares_total(price, t),
{
    lemma_all_shares_step(price, t, seller@);
    lemma_payout_sums_to_price(price, t, seller);
    let a = all_shares_total(price, t) as int;
    assert(a * 5 <= price) by (nonlinear_arith)
        requires a * 10000 <= price as int * bps_total(t), bps_total(t) <= 2000, price >= 0;
}

/// A payout computed from a table with at most the recipient cap is a valid
/// payout: one entry per account, at most six, adding up to the price.
pub proof fn lemma_payout_is_valid(price: u128, t: Seq<(AccountId, u32)>, seller: AccountId)
    requires
        keys_unique(t),
        bps_total(t) <= MAX_ROYALTY_BPS,
        t.len() <= MAX_ROYALTY_RECIPIENTS,
    ensures
        valid_payout(payout_for(price, t, seller), price),
{
    lemma_payout_sums_to_price(price, t, seller);
    lemma_shares_keys(price, t, seller@);
    let shares = royalty_shares(price, t, seller@);
    assert(!has_key(shares, seller@));
    lemma_as_map_push(shares, (seller, (price - amount_total(shares)) as u128));
}

/// The share of `price` that `royalty_bps` basis points give, rounded down,
/// computed without overflow.
pub fn royalty_to_payout(royalty_bps: u32, price: u128) -> (r: u128)
    requires
        royalty_bps <= 10000,
    ensures
        r == share_of(price, royalty_bps),
{
    let q: u128 = price / BPS_DENOMINATOR;
    let rem: u128 = price % BPS_DENOMINATOR;
    let b = royalty_bps as u128;
    proof {
        let p = price as int;
        let x = p * b;
        assert(p == 10000 * q + rem);
        assert(x == rem * b + (q * b) * 10000) by (nonlinear_arith)
            requires p == 10000 * q + rem, x == p * b;
        assert(x <= p * 10000) by (nonlinear_arith)
            requires x == p * b, b <= 10000, p >= 0;
        lemma_div_is_ordered(x, p * 10000, 10000);
        lemma_div_multiples_vanish(p, 10000);
        assert(10000 * p == p * 10000);
        lemma_hoist_over_denominator(rem * b, q * b, 10000);
        assert(rem * b >= 0) by (nonlinear_arith)
            requires rem >= 0, b >= 0;
        assert((rem * b) / 10000 >= 0);
        assert(rem * b <= 10000 * 10000) by (nonlinear_arith)
            requires rem < 10000, b <= 10000;
        assert((rem * b) / 10000 + q * b == x / 10000);
        assert(x / 10000 <= p);
    }
    q * b + rem * b / BPS_DENOMINATOR
}

/// Splits `total_price` between the royalty holders of `royalty` and the seller.
/// Each holder but the seller gets its share rounded down; the seller gets the
/// rest.
pub fn compute_payout(total_price: u128, royalty: &Vec<(AccountId, u32)>, seller_id: &AccountId) -> (r: Result<Payout, MarketError>)
    requires
        keys_unique(royalty@),
    ensures
        r == Err::<Payout, MarketError>(MarketError::RoyaltyCapExceeded) <==> bps_total(royalty@) > MAX_ROYALTY_BPS,
        r == Err::<Payout, MarketError>(MarketError::TooManyRecipients) <==> bps_total(royalty@) <= MAX_ROYALTY_BPS
            && royalty@.len() > MAX_ROYALTY_RECIPIENTS,
        r is Ok <==> bps_total(royalty@) <= MAX_ROYALTY_BPS && royalty@.len() <= MAX_ROYALTY_RECIPIENTS,
        r is Ok ==> r->Ok_0@ == payout_for(total_price, royalty@, *seller_id),
        r is Ok ==> valid_payout(r->Ok_0@, total_price),
{
    let mut total_bps: u64 = 0;
    let mut i: usize = 0;
    while i < royalty.len()
        invariant
            i <= royalty@.len(),
            total_bps == bps_total(royalty@.take(i as int)),
            total_bps <= MAX_ROYALTY_BPS,
        decreases royalty@.len() - i,
    {
        assert(royalty@.take(i + 1).drop_last() =~= royalty@.take(i as int));
        total_bps = total_bps + royalty[i].1 as u64;
        if total_bps > MAX_ROYALTY_BPS as u64 {
            proof {
                lemma_bps_total_prefix(royalty@, i + 1);
            }
            return Err(MarketError::RoyaltyCapExceeded);
        }
        i = i + 1;
    }
    assert(royalty@.take(i as int) =~= royalty@);
    if royalty.len() > MAX_ROYALTY_RECIPIENTS {
        return Err(MarketError::TooManyRecipients);
    }
    let mut payout: Payout = Vec::new();
    let mut paid: u128 = 0;
    let mut j: usize = 0;
    while j < royalty.len()
        invariant
            j <= royalty@.len(),
            bps_total(royalty@) <= MAX_ROYALTY_BPS,
            payout@ == royalty_shares(total_price, royalty@.take(j as int), seller_id@),
            paid == amount_total(payout@),
            paid <= total_price,
        decreases royalty@.len() - j,
    {
        let ghost t = royalty@.take(j + 1);
        assert(t.drop_last() =~= royalty@.take(j as int));
        proof {
            lemma_entry_bounded_by_total(royalty@, j as int);
            lemma_bps_total_prefix(royalty@, j + 1);
            lemma_payout_sums_to_price(total_price, t, *seller_id);
        }
        if royalty[j].0 != *seller_id {
            let share = royalty_to_payout(royalty[j].1, total_price);
            payout.push((royalty[j].0.clone(), share));
            assert(payout@.drop_last() =~= royalty_shares(total_price, royalty@.take(j as int), seller_id@));
            paid = paid + share;
        }
        j = j + 1;
    }
    assert(royalty@.take(j as int) =~= royalty@);
    let ghost shares = payout@;
    payout.push((seller_id.clone(), total_price - paid));
    proof {
        lemma_payout_is_valid(total_price, royalty@, *seller_id);
    }
    Ok(payout)
}

} // verus!
