//! The marketplace: the sale registry with its bid books, the storage-rent
//! ledger, and the settlement coordinator that drives a purchase across the
//! asset ledger and the currency ledgers.
use vstd::prelude::*;
use vstd::string::StringExecFns;
use crate::assoc::{keys_unique, has_key, as_map, lookup, find_str, lemma_as_map_dom, lemma_as_map_index,
    lemma_as_map_update, lemma_as_map_push, lemma_as_map_remove};
use crate::error::MarketError;
use crate::payout::{AccountId, Payout, MAX_PAYOUT_RECIPIENTS, amount_total, valid_payout, compute_payout};

verus! {

/// A currency is named by the account of its ledger.
pub type FungibleTokenId = AccountId;

/// An asset's identifier within its collection.
pub type TokenId = String;

/// The rent of one listing: 1000 bytes at 10^19 per byte.
pub const STORAGE_PER_SALE: u128 = 10_000_000_000_000_000_000_000;

/// How many bids per currency a sale keeps unless configured otherwise.
pub const BID_HISTORY_LENGTH_DEFAULT: u8 = 1;

/// The native currency, accepted by every market.
pub open spec fn native_currency() -> Seq<char> {
    seq!['n', 'e', 'a', 'r']
}

/// The bounds on an account's storage balance.
pub struct StorageBalanceBounds {
    pub min: u128,
    pub max: Option<u128>,
}

/// A bid: who offers how much.
#[derive(Debug, PartialEq)]
pub struct Bid {
    pub owner_id: AccountId,
    pub price: u128,
}

/// A purchase in flight: the sale is locked until its callback arrives.
#[derive(Debug, PartialEq)]
pub struct PendingPurchase {
    pub attempt_id: u64,
    pub buyer_id: AccountId,
    pub ft_token_id: FungibleTokenId,
    pub price: u128,
    /// The purchase comes from an accepted bid rather than a deposit at the
    /// asking price.
    pub from_bid: bool,
}

/// A listing of one asset against asking prices in one or more currencies.
#[derive(Debug, PartialEq)]
pub struct Sale {
    pub owner_id: AccountId,
    pub approval_id: u64,
    pub nft_contract_id: AccountId,
    pub token_id: TokenId,
    /// Currency to asking price, one entry per currency.
    pub sale_conditions: Vec<(FungibleTokenId, u128)>,
    /// Currency to bid history, lowest bid first.
    pub bids: Vec<(FungibleTokenId, Vec<Bid>)>,
    pub token_type: Option<String>,
    /// The purchase in flight, if any; while it is there the sale is locked.
    pub pending: Option<PendingPurchase>,
}

/// The whole state of a marketplace.
pub struct Contract {
    pub owner_id: AccountId,
    /// The sales, in the order they were listed, at most one per asset.
    pub sales: Vec<Sale>,
    /// The currencies that the market accepts.
    pub ft_token_ids: Vec<FungibleTokenId>,
    /// Account to storage deposit, one entry per account.
    pub storage_deposits: Vec<(AccountId, u128)>,
    pub bid_history_length: u8,
    /// The attempt id that the next purchase will get.
    pub next_attempt_id: u64,
}

/// Bids in a history strictly increase.
pub open spec fn strictly_ascending(h: Seq<Bid>) -> bool {
    forall|i: int, j: int| 0 <= i < j < h.len() ==> #[trigger] h[i].price < #[trigger] h[j].price
}

/// A bid history within its cap and in increasing order.
pub open spec fn bid_history_ok(h: Seq<Bid>, cap: nat) -> bool {
    h.len() <= cap && strictly_ascending(h)
}

/// How many of `sales` belong to the account `a`.
pub open spec fn owned_count(sales: Seq<Sale>, a: Seq<char>) -> nat
    decreases sales.len(),
{
    if sales.len() == 0 {
        0
    } else {
        owned_count(sales.drop_last(), a) + if sales.last().owner_id@ == a { 1nat } else { 0nat }
    }
}

/// No two sales are for the same asset.
pub open spec fn sale_keys_unique(sales: Seq<Sale>) -> bool {
    forall|i: int, j: int|
        0 <= i < sales.len() && 0 <= j < sales.len() && i != j ==> #[trigger] sales[i].key() != #[trigger] sales[j].key()
}

impl Sale {
    /// The asset that the sale is for: its collection and its id.
    pub open spec fn key(&self) -> (Seq<char>, Seq<char>) {
        (self.nft_contract_id@, self.token_id@)
    }

    /// The asking prices.
    pub open spec fn conditions(&self) -> Map<Seq<char>, u128> {
        as_map(self.sale_conditions@)
    }

    /// The bid history in currency `c`, empty if there is none.
    pub open spec fn history(&self, c: Seq<char>) -> Seq<Bid> {
        match lookup(self.bids@, c) {
            Some(h) => h@,
            None => Seq::empty(),
        }
    }

    pub open spec fn locked(&self) -> bool {
        self.pending is Some
    }

    pub open spec fn wf(&self, cap: nat) -> bool {
        &&& keys_unique(self.sale_conditions@)
        &&& keys_unique(self.bids@)
        &&& forall|i: int| 0 <= i < self.bids@.len() ==> bid_history_ok(#[trigger] self.bids@[i].1@, cap)
    }
}

impl Contract {
    /// A sale for the asset `k` exists.
    pub open spec fn has_sale(&self, k: (Seq<char>, Seq<char>)) -> bool {
        exists|i: int| 0 <= i < self.sales@.len() && #[trigger] self.sales@[i].key() == k
    }

    /// Where the sale for the asset `k` stands.
    pub open spec fn sale_pos(&self, k: (Seq<char>, Seq<char>)) -> int {
        choose|i: int| 0 <= i < self.sales@.len() && #[trigger] self.sales@[i].key() == k
    }

    /// The sale for the asset `k`.
    pub open spec fn sale(&self, k: (Seq<char>, Seq<char>)) -> Sale {
        self.sales@[self.sale_pos(k)]
    }

    /// The storage deposit of the account `a`.
    pub open spec fn credit(&self, a: Seq<char>) -> nat {
        match lookup(self.storage_deposits@, a) {
            Some(v) => v as nat,
            None => 0,
        }
    }

    /// The number of sales of the account `a`.
    pub open spec fn listings_of(&self, a: Seq<char>) -> nat {
        owned_count(self.sales@, a)
    }

    /// What the account `a` may withdraw: its deposit less the rent of its sales.
    pub open spec fn withdrawable(&self, a: Seq<char>) -> nat {
        (self.credit(a) - self.listings_of(a) * STORAGE_PER_SALE) as nat
    }

    /// The market accepts the currency `c`.
    pub open spec fn supports(&self, c: Seq<char>) -> bool {
        exists|i: int| 0 <= i < self.ft_token_ids@.len() && #[trigger] self.ft_token_ids@[i]@ == c
    }

    pub open spec fn wf(&self) -> bool {
        &&& sale_keys_unique(self.sales@)
        &&& forall|i: int| 0 <= i < self.sales@.len() ==> (#[trigger] self.sales@[i]).wf(self.bid_history_length as nat)
        &&& keys_unique(self.storage_deposits@)
        &&& forall|a: Seq<char>| #[trigger] self.credit(a) >= self.listings_of(a) * STORAGE_PER_SALE
    }
}

pub proof fn lemma_owned_count_update(sales: Seq<Sale>, i: int, s: Sale, a: Seq<char>)
    requires
        0 <= i < sales.len(),
        s.owner_id@ == sales[i].owner_id@,
    ensures
        owned_count(sales.update(i, s), a) == owned_count(sales, a),
    decreases sales.len(),
{
    let t = sales.update(i, s);
    if i < sales.len() - 1 {
        assert(t.drop_last() =~= sales.drop_last().update(i, s));
        lemma_owned_count_update(sales.drop_last(), i, s, a);
    } else {
        assert(t.drop_last() =~= sales.drop_last());
    }
}

pub proof fn lemma_owned_count_remove(sales: Seq<Sale>, i: int, a: Seq<char>)
    requires
        0 <= i < sales.len(),
    ensures
        owned_count(sales.remove(i), a) + (if sales[i].owner_id@ == a { 1nat } else { 0nat }) == owned_count(sales, a),
    decreases sales.len(),
{
    let t = sales.remove(i);
    if i < sales.len() - 1 {
        assert(t.drop_last() =~= sales.drop_last().remove(i));
        assert(t.last() == sales.last());
        lemma_owned_count_remove(sales.drop_last(), i, a);
    } else {
        assert(t =~= sales.drop_last());
    }
}

pub proof fn lemma_owned_count_push(sales: Seq<Sale>, s: Sale, a: Seq<char>)
    ensures
        owned_count(sales.push(s), a) == owned_count(sales, a) + (if s.owner_id@ == a { 1nat } else { 0nat }),
{
    assert(sales.push(s).drop_last() =~= sales);
}

/// Well-formedness depends on the sales, the deposits and the bid cap alone.
pub proof fn lemma_wf_same_tables(m1: Contract, m2: Contract)
    requires
        m1.wf(),
        m1.sales == m2.sales,
        m1.storage_deposits == m2.storage_deposits,
        m1.bid_history_length == m2.bid_history_length,
    ensures
        m2.wf(),
{
    assert forall|a: Seq<char>| #[trigger] m2.credit(a) >= m2.listings_of(a) * STORAGE_PER_SALE by {
        assert(m1.credit(a) >= m1.listings_of(a) * STORAGE_PER_SALE);
    }
}

proof fn lemma_lookup_index(s: Seq<(AccountId, u128)>, i: int)
    requires
        keys_unique(s),
        0 <= i < s.len(),
    ensures
        lookup(s, s[i].0@) == Some(s[i].1),
{
    lemma_as_map_index(s, i);
}

impl Contract {
    /// A market with no sale, administered by `owner_id`, accepting the native
    /// currency and the currencies given.
    pub fn new(owner_id: AccountId, ft_token_ids: Option<Vec<FungibleTokenId>>, bid_history_length: Option<u8>) -> (r: Contract)
        ensures
            r.wf(),
            r.owner_id == owner_id,
            r.sales@.len() == 0,
            r.storage_deposits@.len() == 0,
            r.bid_history_length == match bid_history_length {
                Some(n) => n,
                None => BID_HISTORY_LENGTH_DEFAULT,
            },
            forall|c: Seq<char>| #[trigger] r.supports(c) <==> c == native_currency() || match ft_token_ids {
                Some(v) => exists|i: int| 0 <= i < v@.len() && #[trigger] v@[i]@ == c,
                None => false,
            },
    {
        let length = match bid_history_length {
            Some(n) => n,
            None => BID_HISTORY_LENGTH_DEFAULT,
        };
        let mut this = Contract {
            owner_id,
            sales: Vec::new(),
            ft_token_ids: Vec::new(),
            storage_deposits: Vec::new(),
            bid_history_length: length,
            next_attempt_id: 0,
        };
        let ghost initial = this;
        let near = <String as StringExecFns>::from_str("near");
        proof {
            reveal_strlit("near");
            assert(near@ =~= native_currency());
        }
        this.insert_ft_token_id(near);
        proof {
            lemma_wf_same_tables(initial, this);
        }
        assert(this.supports(native_currency()));
        match ft_token_ids {
            Some(v) => {
                let mut i: usize = 0;
                while i < v.len()
                    invariant
                        i <= v@.len(),
                        this.wf(),
                        this.sales@.len() == 0,
                        this.storage_deposits@.len() == 0,
                        this.bid_history_length == length,
                        this.owner_id == owner_id,
                        forall|c: Seq<char>| #[trigger] this.supports(c) <==> c == native_currency()
                            || exists|j: int| 0 <= j < i && #[trigger] v@[j]@ == c,
                    decreases v@.len() - i,
                {
                    let id = v[i].clone();
                    let ghost before = this;
                    this.insert_ft_token_id(id);
                    proof {
                        lemma_wf_same_tables(before, this);
                    }
                    i = i + 1;
                    assert forall|c: Seq<char>| #[trigger] this.supports(c) <==> c == native_currency()
                        || exists|j: int| 0 <= j < i && #[trigger] v@[j]@ == c by {
                        if c == v@[i - 1]@ {
                            assert(v@[i - 1]@ == c);
                        }
                    }
                }
                assert forall|c: Seq<char>| #[trigger] this.supports(c) implies c == native_currency()
                    || exists|j: int| 0 <= j < v@.len() && #[trigger] v@[j]@ == c by {}
            },
            None => {},
        }
        this
    }

    /// Adds a currency; says whether it was new.
    fn insert_ft_token_id(&mut self, id: FungibleTokenId) -> (added: bool)
        ensures
            final(self).owner_id == old(self).owner_id,
            final(self).sales == old(self).sales,
            final(self).storage_deposits == old(self).storage_deposits,
            final(self).bid_history_length == old(self).bid_history_length,
            final(self).next_attempt_id == old(self).next_attempt_id,
            added == !old(self).supports(id@),
            forall|c: Seq<char>| #[trigger] final(self).supports(c) <==> old(self).supports(c) || c == id@,
    {
        let mut i: usize = 0;
        while i < self.ft_token_ids.len()
            invariant
                i <= self.ft_token_ids@.len(),
                forall|j: int| 0 <= j < i ==> #[trigger] self.ft_token_ids@[j]@ != id@,
            decreases self.ft_token_ids@.len() - i,
        {
            if self.ft_token_ids[i] == id {
                assert(self.ft_token_ids@[i as int]@ == id@);
                return false;
            }
            i = i + 1;
        }
        let ghost before = self.ft_token_ids@;
        self.ft_token_ids.push(id);
        assert forall|c: Seq<char>| #[trigger] self.supports(c) <==> old(self).supports(c) || c == id@ by {
            if old(self).supports(c) {
                let j = choose|j: int| 0 <= j < before.len() && #[trigger] before[j]@ == c;
                assert(self.ft_token_ids@[j]@ == c);
            }
            if c == id@ {
                assert(self.ft_token_ids@[before.len() as int]@ == c);
            }
            if self.supports(c) {
                let j = choose|j: int| 0 <= j < self.ft_token_ids@.len() && #[trigger] self.ft_token_ids@[j]@ == c;
                if j < before.len() {
                    assert(before[j]@ == c);
                }
            }
        }
        true
    }

    /// Adds currencies to those accepted. Only the administrator may; the
    /// result says for each currency whether it was new.
    pub fn add_ft_token_ids(&mut self, predecessor_id: &AccountId, ft_token_ids: Vec<FungibleTokenId>) -> (r: Result<Vec<bool>, MarketError>)
        requires
            old(self).wf(),
        ensures
            final(self).wf(),
            predecessor_id@ != old(self).owner_id@ ==> r == Err::<Vec<bool>, MarketError>(MarketError::NotAdmin) && *final(self) == *old(self),
            predecessor_id@ == old(self).owner_id@ ==> r is Ok,
            r is Ok ==> {
                let added = r->Ok_0;
                &&& added@.len() == ft_token_ids@.len()
                &&& forall|i: int| 0 <= i < added@.len() ==> #[trigger] added@[i] == !(old(self).supports(ft_token_ids@[i]@)
                    || exists|j: int| 0 <= j < i && #[trigger] ft_token_ids@[j]@ == ft_token_ids@[i]@)
                &&& forall|c: Seq<char>| #[trigger] final(self).supports(c) <==> old(self).supports(c)
                    || exists|j: int| 0 <= j < ft_token_ids@.len() && #[trigger] ft_token_ids@[j]@ == c
                &&& final(self).sales == old(self).sales
                &&& final(self).storage_deposits == old(self).storage_deposits
                &&& final(self).owner_id == old(self).owner_id
                &&& final(self).bid_history_length == old(self).bid_history_length
                &&& final(self).next_attempt_id == old(self).next_attempt_id
            },
    {
        if *predecessor_id != self.owner_id {
            return Err(MarketError::NotAdmin);
        }
        let mut added: Vec<bool> = Vec::new();
        let mut i: usize = 0;
        while i < ft_token_ids.len()
            invariant
                i <= ft_token_ids@.len(),
                added@.len() == i,
                self.wf(),
                self.sales == old(self).sales,
                self.storage_deposits == old(self).storage_deposits,
                self.bid_history_length == old(self).bid_history_length,
                self.owner_id == old(self).owner_id,
                self.next_attempt_id == old(self).next_attempt_id,
                forall|k: int| 0 <= k < i ==> #[trigger] added@[k] == !(old(self).supports(ft_token_ids@[k]@)
                    || exists|j: int| 0 <= j < k && #[trigger] ft_token_ids@[j]@ == ft_token_ids@[k]@),
                forall|c: Seq<char>| #[trigger] self.supports(c) <==> old(self).supports(c)
                    || exists|j: int| 0 <= j < i && #[trigger] ft_token_ids@[j]@ == c,
            decreases ft_token_ids@.len() - i,
        {
            let ghost mid = *self;
            let id = ft_token_ids[i].clone();
            let fresh = self.insert_ft_token_id(id);
            added.push(fresh);
            proof {
                lemma_wf_same_tables(mid, *self);
            }
            i = i + 1;
            assert(mid.supports(ft_token_ids@[i - 1]@) <==> (old(self).supports(ft_token_ids@[i - 1]@)
                || exists|j: int| 0 <= j < i - 1 && #[trigger] ft_token_ids@[j]@ == ft_token_ids@[i - 1]@));
            assert forall|c: Seq<char>| #[trigger] self.supports(c) <==> old(self).supports(c)
                || exists|j: int| 0 <= j < i && #[trigger] ft_token_ids@[j]@ == c by {
                if c == ft_token_ids@[i - 1]@ {
                    assert(ft_token_ids@[i - 1]@ == c);
                }
                if exists|j: int| 0 <= j < i && #[trigger] ft_token_ids@[j]@ == c {
                    let j = choose|j: int| 0 <= j < i && #[trigger] ft_token_ids@[j]@ == c;
                    if j < i - 1 {
                        assert(mid.supports(c));
                    }
                }
            }
        }
        Ok(added)
    }

    /// The currencies that the market accepts.
    pub fn supported_ft_token_ids(&self) -> (r: Vec<FungibleTokenId>)
        ensures
            r@ == self.ft_token_ids@,
    {
        self.ft_token_ids.clone()
    }
}

impl Contract {
    /// The storage deposit of `account_id`.
    pub fn storage_balance_of(&self, account_id: &AccountId) -> (r: u128)
        requires
            self.wf(),
        ensures
            r == self.credit(account_id@),
    {
        match find_str(&self.storage_deposits, account_id) {
            Some(i) => {
                proof {
                    lemma_as_map_dom(self.storage_deposits@);
                }
                proof {
                    lemma_lookup_index(self.storage_deposits@, i as int);
                }
                self.storage_deposits[i].1
            },
            None => {
                proof {
                    lemma_as_map_dom(self.storage_deposits@);
                }
                0
            },
        }
    }

    /// The storage deposit of `account_id`.
    pub fn storage_paid(&self, account_id: &AccountId) -> (r: u128)
        requires
            self.wf(),
        ensures
            r == self.credit(account_id@),
    {
        self.storage_balance_of(account_id)
    }

    /// The smallest deposit accepted: the rent of one listing.
    pub fn storage_minimum_balance(&self) -> (r: u128)
        ensures
            r == STORAGE_PER_SALE,
    {
        STORAGE_PER_SALE
    }

    /// The rent of one listing.
    pub fn storage_amount(&self) -> (r: u128)
        ensures
            r == STORAGE_PER_SALE,
    {
        STORAGE_PER_SALE
    }

    /// A deposit must cover at least one listing; there is no upper bound.
    pub fn storage_balance_bounds(&self) -> (r: StorageBalanceBounds)
        ensures
            r.min == STORAGE_PER_SALE,
            r.max is None,
    {
        StorageBalanceBounds { min: STORAGE_PER_SALE, max: None }
    }

    /// The number of sales of `account_id`.
    pub fn count_listings(&self, account_id: &AccountId) -> (n: usize)
        ensures
            n == self.listings_of(account_id@),
    {
        let mut n: usize = 0;
        let mut i: usize = 0;
        while i < self.sales.len()
            invariant
                i <= self.sales@.len(),
                n <= i,
                n == owned_count(self.sales@.take(i as int), account_id@),
            decreases self.sales@.len() - i,
        {
            assert(self.sales@.take(i + 1).drop_last() =~= self.sales@.take(i as int));
            if self.sales[i].owner_id == *account_id {
                n = n + 1;
            }
            i = i + 1;
        }
        assert(self.sales@.take(i as int) =~= self.sales@);
        n
    }

    /// Credits `deposit` to the storage balance of `account_id`. A deposit
    /// smaller than the rent of one listing is refused.
    pub fn storage_deposit(&mut self, account_id: &AccountId, deposit: u128) -> (r: Result<(), MarketError>)
        requires
            old(self).wf(),
            deposit >= STORAGE_PER_SALE ==> old(self).credit(account_id@) + deposit <= u128::MAX,
        ensures
            final(self).wf(),
            deposit < STORAGE_PER_SALE ==> r == Err::<(), MarketError>(MarketError::DepositTooSmall) && *final(self) == *old(self),
            deposit >= STORAGE_PER_SALE ==> r is Ok,
            r is Ok ==> {
                &&& final(self).credit(account_id@) == old(self).credit(account_id@) + deposit
                &&& forall|b: Seq<char>| b != account_id@ ==> #[trigger] final(self).credit(b) == old(self).credit(b)
                &&& final(self).sales == old(self).sales
                &&& final(self).ft_token_ids == old(self).ft_token_ids
                &&& final(self).owner_id == old(self).owner_id
                &&& final(self).bid_history_length == old(self).bid_history_length
                &&& final(self).next_attempt_id == old(self).next_attempt_id
            },
    {
        if deposit < STORAGE_PER_SALE {
            return Err(MarketError::DepositTooSmall);
        }
        let balance = self.storage_balance_of(account_id);
        self.set_credit(account_id, balance + deposit);
        Ok(())
    }

    /// Sets the storage deposit of `account_id`.
    fn set_credit(&mut self, account_id: &AccountId, amount: u128)
        requires
            keys_unique(old(self).storage_deposits@),
        ensures
            keys_unique(final(self).storage_deposits@),
            final(self).credit(account_id@) == amount,
            forall|b: Seq<char>| b != account_id@ ==> #[trigger] final(self).credit(b) == old(self).credit(b),
            final(self).sales == old(self).sales,
            final(self).ft_token_ids == old(self).ft_token_ids,
            final(self).owner_id == old(self).owner_id,
            final(self).bid_history_length == old(self).bid_history_length,
            final(self).next_attempt_id == old(self).next_attempt_id,
    {
        let ghost s = self.storage_deposits@;
        match find_str(&self.storage_deposits, account_id) {
            Some(i) => {
                let e = (self.storage_deposits[i].0.clone(), amount);
                proof {
                    lemma_as_map_update(s, i as int, e);
                }
                self.storage_deposits.set(i, e);
            },
            None => {
                let e = (account_id.clone(), amount);
                proof {
                    lemma_as_map_push(s, e);
                }
                self.storage_deposits.push(e);
            },
        }
    }

    /// Pays out to `account_id` its storage deposit less the rent of its sales;
    /// the rent stays deposited. The call must carry exactly one unit of the
    /// native currency.
    pub fn storage_withdraw(&mut self, account_id: &AccountId, attached_deposit: u128) -> (r: Result<u128, MarketError>)
        requires
            old(self).wf(),
        ensures
            final(self).wf(),
            attached_deposit != 1 ==> r == Err::<u128, MarketError>(MarketError::RequiresOneYocto) && *final(self) == *old(self),
            attached_deposit == 1 ==> r is Ok,
            r is Ok ==> {
                &&& r->Ok_0 == old(self).withdrawable(account_id@)
                &&& final(self).credit(account_id@) == old(self).listings_of(account_id@) * STORAGE_PER_SALE
                &&& forall|b: Seq<char>| b != account_id@ ==> #[trigger] final(self).credit(b) == old(self).credit(b)
                &&& final(self).sales == old(self).sales
                &&& final(self).ft_token_ids == old(self).ft_token_ids
                &&& final(self).owner_id == old(self).owner_id
                &&& final(self).bid_history_length == old(self).bid_history_length
                &&& final(self).next_attempt_id == old(self).next_attempt_id
            },
    {
        if attached_deposit != 1 {
            return Err(MarketError::RequiresOneYocto);
        }
        let balance = self.storage_balance_of(account_id);
        let n = self.count_listings(account_id);
        proof {
            let c = self.credit(account_id@);
            assert(c >= n * STORAGE_PER_SALE);
        }
        let reserved = (n as u128) * STORAGE_PER_SALE;
        let amount = balance - reserved;
        self.set_credit(account_id, reserved);
        proof {
            assert forall|a: Seq<char>| #[trigger] self.credit(a) >= self.listings_of(a) * STORAGE_PER_SALE by {
                assert(old(self).credit(a) >= old(self).listings_of(a) * STORAGE_PER_SALE);
            }
        }
        Ok(amount)
    }
}

/// Replacing a sale by a well-formed one for the same asset and owner keeps
/// the market well formed.
pub proof fn lemma_wf_replace(m1: Contract, m2: Contract, i: int)
    requires
        m1.wf(),
        0 <= i < m1.sales@.len(),
        m2.sales@ == m1.sales@.update(i, m2.sales@[i]),
        m2.sales@[i].key() == m1.sales@[i].key(),
        m2.sales@[i].owner_id@ == m1.sales@[i].owner_id@,
        m2.sales@[i].wf(m1.bid_history_length as nat),
        m2.storage_deposits == m1.storage_deposits,
        m2.bid_history_length == m1.bid_history_length,
    ensures
        m2.wf(),
{
    let s = m2.sales@;
    assert forall|a: int, b: int| 0 <= a < s.len() && 0 <= b < s.len() && a != b
        implies #[trigger] s[a].key() != #[trigger] s[b].key() by {
        assert(m1.sales@[a].key() != m1.sales@[b].key());
    }
    assert forall|j: int| 0 <= j < s.len() implies (#[trigger] s[j]).wf(m2.bid_history_length as nat) by {
        if j != i {
            assert(m1.sales@[j].wf(m1.bid_history_length as nat));
        }
    }
    assert forall|a: Seq<char>| #[trigger] m2.credit(a) >= m2.listings_of(a) * STORAGE_PER_SALE by {
        lemma_owned_count_update(m1.sales@, i, m2.sales@[i], a);
        assert(m1.credit(a) >= m1.listings_of(a) * STORAGE_PER_SALE);
    }
}

/// Removing a sale keeps the market well formed.
pub proof fn lemma_wf_remove(m1: Contract, m2: Contract, i: int)
    requires
        m1.wf(),
        0 <= i < m1.sales@.len(),
        m2.sales@ == m1.sales@.remove(i),
        m2.storage_deposits == m1.storage_deposits,
        m2.bid_history_length == m1.bid_history_length,
    ensures
        m2.wf(),
        forall|a: Seq<char>| #[trigger] m2.listings_of(a) + (if m1.sales@[i].owner_id@ == a { 1nat } else { 0nat })
            == m1.listings_of(a),
{
    let s = m2.sales@;
    assert forall|a: int, b: int| 0 <= a < s.len() && 0 <= b < s.len() && a != b
        implies #[trigger] s[a].key() != #[trigger] s[b].key() by {
        let a2 = if a < i { a } else { a + 1 };
        let b2 = if b < i { b } else { b + 1 };
        assert(s[a] == m1.sales@[a2] && s[b] == m1.sales@[b2]);
        assert(m1.sales@[a2].key() != m1.sales@[b2].key());
    }
    assert forall|j: int| 0 <= j < s.len() implies (#[trigger] s[j]).wf(m2.bid_history_length as nat) by {
        let j2 = if j < i { j } else { j + 1 };
        assert(s[j] == m1.sales@[j2]);
        assert(m1.sales@[j2].wf(m1.bid_history_length as nat));
    }
    assert forall|a: Seq<char>| #[trigger] m2.listings_of(a) + (if m1.sales@[i].owner_id@ == a { 1nat } else { 0nat })
        == m1.listings_of(a) by {
        lemma_owned_count_remove(m1.sales@, i, a);
    }
    assert forall|a: Seq<char>| #[trigger] m2.credit(a) >= m2.listings_of(a) * STORAGE_PER_SALE by {
        lemma_owned_count_remove(m1.sales@, i, a);
        assert(m1.credit(a) >= m1.listings_of(a) * STORAGE_PER_SALE);
        assert(m2.listings_of(a) * STORAGE_PER_SALE <= m1.listings_of(a) * STORAGE_PER_SALE) by (nonlinear_arith)
            requires m2.listings_of(a) <= m1.listings_of(a);
    }
}

/// With unique keys, the sale found for an asset is the one that `sale_pos` names.
pub proof fn lemma_sale_pos(m: Contract, i: int)
    requires
        sale_keys_unique(m.sales@),
        0 <= i < m.sales@.len(),
    ensures
        m.has_sale(m.sales@[i].key()),
        m.sale_pos(m.sales@[i].key()) == i,
{
    let k = m.sales@[i].key();
    assert(m.sales@[i].key() == k);
    let p = m.sale_pos(k);
    assert(m.sales@[p].key() == k);
}

impl Contract {
    /// Where the sale for the asset stands, if there is one.
    pub fn find_sale(&self, nft_contract_id: &AccountId, token_id: &TokenId) -> (r: Option<usize>)
        requires
            self.wf(),
        ensures
            match r {
                Some(i) => i < self.sales@.len() && self.has_sale((nft_contract_id@, token_id@))
                    && i == self.sale_pos((nft_contract_id@, token_id@)),
                None => !self.has_sale((nft_contract_id@, token_id@)),
            },
    {
        let mut i: usize = 0;
        while i < self.sales.len()
            invariant
                i <= self.sales@.len(),
                self.wf(),
                forall|j: int| 0 <= j < i ==> #[trigger] self.sales@[j].key() != (nft_contract_id@, token_id@),
            decreases self.sales@.len() - i,
        {
            if self.sales[i].nft_contract_id == *nft_contract_id && self.sales[i].token_id == *token_id {
                proof {
                    lemma_sale_pos(*self, i as int);
                }
                return Some(i);
            }
            i = i + 1;
        }
        None
    }

    /// The sale for the asset, if there is one.
    pub fn get_sale(&self, nft_contract_id: &AccountId, token_id: &TokenId) -> (r: Option<&Sale>)
        requires
            self.wf(),
        ensures
            self.has_sale((nft_contract_id@, token_id@)) ==> r == Some(&self.sale((nft_contract_id@, token_id@))),
            !self.has_sale((nft_contract_id@, token_id@)) ==> r is None,
    {
        match self.find_sale(nft_contract_id, token_id) {
            Some(i) => Some(&self.sales[i]),
            None => None,
        }
    }

    /// The market accepts the currency.
    pub fn is_supported(&self, ft_token_id: &FungibleTokenId) -> (r: bool)
        ensures
            r == self.supports(ft_token_id@),
    {
        let mut i: usize = 0;
        while i < self.ft_token_ids.len()
            invariant
                i <= self.ft_token_ids@.len(),
                forall|j: int| 0 <= j < i ==> #[trigger] self.ft_token_ids@[j]@ != ft_token_id@,
            decreases self.ft_token_ids@.len() - i,
        {
            if self.ft_token_ids[i] == *ft_token_id {
                return true;
            }
            i = i + 1;
        }
        false
    }

    /// Lists an asset for sale at the prices given, one per currency. The
    /// owner's storage deposit must cover the rent of one more listing.
    pub fn list_sale(
        &mut self,
        owner_id: &AccountId,
        nft_contract_id: AccountId,
        token_id: TokenId,
        approval_id: u64,
        sale_conditions: Vec<(FungibleTokenId, u128)>,
        token_type: Option<String>,
    ) -> (r: Result<(), MarketError>)
        requires
            old(self).wf(),
            keys_unique(sale_conditions@),
        ensures
            final(self).wf(),
            r is Err ==> *final(self) == *old(self),
            old(self).has_sale((nft_contract_id@, token_id@))
                ==> r == Err::<(), MarketError>(MarketError::DuplicateListing),
            !old(self).has_sale((nft_contract_id@, token_id@))
                && old(self).credit(owner_id@) < (old(self).listings_of(owner_id@) + 1) * STORAGE_PER_SALE
                ==> r == Err::<(), MarketError>(MarketError::InsufficientStorageCredit),
            !old(self).has_sale((nft_contract_id@, token_id@))
                && old(self).credit(owner_id@) >= (old(self).listings_of(owner_id@) + 1) * STORAGE_PER_SALE
                && !(forall|i: int| 0 <= i < sale_conditions@.len() ==> old(self).supports(#[trigger] sale_conditions@[i].0@))
                ==> r == Err::<(), MarketError>(MarketError::UnsupportedCurrency),
            !old(self).has_sale((nft_contract_id@, token_id@))
                && old(self).credit(owner_id@) >= (old(self).listings_of(owner_id@) + 1) * STORAGE_PER_SALE
                && (forall|i: int| 0 <= i < sale_conditions@.len() ==> old(self).supports(#[trigger] sale_conditions@[i].0@))
                ==> r is Ok,
            r is Ok ==> {
                &&& final(self).sales@.len() == old(self).sales@.len() + 1
                &&& final(self).sales@.drop_last() == old(self).sales@
                &&& final(self).sales@.last().owner_id == *owner_id
                &&& final(self).sales@.last().approval_id == approval_id
                &&& final(self).sales@.last().nft_contract_id == nft_contract_id
                &&& final(self).sales@.last().token_id == token_id
                &&& final(self).sales@.last().sale_conditions == sale_conditions
                &&& final(self).sales@.last().bids@.len() == 0
                &&& final(self).sales@.last().token_type == token_type
                &&& final(self).sales@.last().pending is None
                &&& final(self).listings_of(owner_id@) == old(self).listings_of(owner_id@) + 1
                &&& final(self).has_sale((nft_contract_id@, token_id@))
                &&& final(self).storage_deposits == old(self).storage_deposits
                &&& final(self).ft_token_ids == old(self).ft_token_ids
                &&& final(self).owner_id == old(self).owner_id
                &&& final(self).bid_history_length == old(self).bid_history_length
                &&& final(self).next_attempt_id == old(self).next_attempt_id
            },
    {
        if self.find_sale(&nft_contract_id, &token_id).is_some() {
            return Err(MarketError::DuplicateListing);
        }
        let balance = self.storage_balance_of(owner_id);
        let n = self.count_listings(owner_id);
        proof {
            assert(self.credit(owner_id@) >= self.listings_of(owner_id@) * STORAGE_PER_SALE);
            assert((n + 1) * STORAGE_PER_SALE == n * STORAGE_PER_SALE + STORAGE_PER_SALE) by (nonlinear_arith);
        }
        let reserved = (n as u128) * STORAGE_PER_SALE;
        if balance - reserved < STORAGE_PER_SALE {
            return Err(MarketError::InsufficientStorageCredit);
        }
        let mut i: usize = 0;
        while i < sale_conditions.len()
            invariant
                i <= sale_conditions@.len(),
                *self == *old(self),
                self.wf(),
                !old(self).has_sale((nft_contract_id@, token_id@)),
                old(self).credit(owner_id@) >= (old(self).listings_of(owner_id@) + 1) * STORAGE_PER_SALE,
                forall|j: int| 0 <= j < i ==> self.supports(#[trigger] sale_conditions@[j].0@),
            decreases sale_conditions@.len() - i,
        {
            if !self.is_supported(&sale_conditions[i].0) {
                return Err(MarketError::UnsupportedCurrency);
            }
            i = i + 1;
        }
        let sale = Sale {
            owner_id: owner_id.clone(),
            approval_id,
            nft_contract_id,
            token_id,
            sale_conditions,
            bids: Vec::new(),
            token_type,
            pending: None,
        };
        let ghost before = *self;
        self.sales.push(sale);
        assert(self.sales@.drop_last() =~= before.sales@);
        proof {
            let s = self.sales@;
            let last = s.len() - 1;
            assert forall|a: int, b: int| 0 <= a < s.len() && 0 <= b < s.len() && a != b
                implies #[trigger] s[a].key() != #[trigger] s[b].key() by {
                if a == last {
                    assert(s[b] == before.sales@[b]);
                } else if b == last {
                    assert(s[a] == before.sales@[a]);
                } else {
                    assert(before.sales@[a].key() != before.sales@[b].key());
                }
            }
            assert forall|j: int| 0 <= j < s.len() implies (#[trigger] s[j]).wf(self.bid_history_length as nat) by {
                if j < last {
                    assert(before.sales@[j].wf(before.bid_history_length as nat));
                }
            }
            assert forall|a: Seq<char>| #[trigger] self.credit(a) >= self.listings_of(a) * STORAGE_PER_SALE by {
                lemma_owned_count_push(before.sales@, s[last], a);
                assert(before.credit(a) >= before.listings_of(a) * STORAGE_PER_SALE);
            }
            lemma_owned_count_push(before.sales@, s[last], owner_id@);
            lemma_sale_pos(*self, last);
        }
        Ok(())
    }
}

/// Two sales that differ at most in their asking prices.
pub open spec fn same_but_conditions(a: Sale, b: Sale) -> bool {
    &&& a.owner_id == b.owner_id
    &&& a.approval_id == b.approval_id
    &&& a.nft_contract_id == b.nft_contract_id
    &&& a.token_id == b.token_id
    &&& a.bids == b.bids
    &&& a.token_type == b.token_type
    &&& a.pending == b.pending
}

/// Sets the asking price in a currency.
fn set_condition(conditions: &mut Vec<(FungibleTokenId, u128)>, ft_token_id: &FungibleTokenId, price: u128)
    requires
        keys_unique(old(conditions)@),
    ensures
        keys_unique(final(conditions)@),
        as_map(final(conditions)@) == as_map(old(conditions)@).insert(ft_token_id@, price),
{
    let ghost s = conditions@;
    match find_str(conditions, ft_token_id) {
        Some(i) => {
            let e = (conditions[i].0.clone(), price);
            proof {
                lemma_as_map_update(s, i as int, e);
            }
            conditions.set(i, e);
        },
        None => {
            let e = (ft_token_id.clone(), price);
            proof {
                lemma_as_map_push(s, e);
            }
            conditions.push(e);
        },
    }
}

impl Contract {
    /// The other parts of two markets, beside the sales, agree.
    pub open spec fn same_but_sales(&self, other: Contract) -> bool {
        &&& self.owner_id == other.owner_id
        &&& self.storage_deposits == other.storage_deposits
        &&& self.ft_token_ids == other.ft_token_ids
        &&& self.bid_history_length == other.bid_history_length
        &&& self.next_attempt_id == other.next_attempt_id
    }

    /// Why the account `p` may not change the sale for the asset `k`, if it
    /// may: there is no such sale, it is not the owner, or a purchase is in
    /// flight.
    pub open spec fn owner_refusal(&self, p: Seq<char>, k: (Seq<char>, Seq<char>)) -> Option<MarketError> {
        if !self.has_sale(k) {
            Some(MarketError::ListingNotFound)
        } else if self.sale(k).owner_id@ != p {
            Some(MarketError::NotOwner)
        } else if self.sale(k).locked() {
            Some(MarketError::ListingLocked)
        } else {
            None
        }
    }

    /// Finds the sale that `predecessor_id` may change.
    fn owned_unlocked_sale(&self, predecessor_id: &AccountId, nft_contract_id: &AccountId, token_id: &TokenId) -> (r: Result<usize, MarketError>)
        requires
            self.wf(),
        ensures
            match self.owner_refusal(predecessor_id@, (nft_contract_id@, token_id@)) {
                Some(e) => r == Err::<usize, MarketError>(e),
                None => r is Ok && r->Ok_0 as int == self.sale_pos((nft_contract_id@, token_id@)),
            },
            r is Ok ==> r->Ok_0 < self.sales@.len(),
    {
        let i = match self.find_sale(nft_contract_id, token_id) {
            Some(i) => i,
            None => {
                return Err(MarketError::ListingNotFound);
            },
        };
        if self.sales[i].owner_id != *predecessor_id {
            return Err(MarketError::NotOwner);
        }
        if self.sales[i].pending.is_some() {
            return Err(MarketError::ListingLocked);
        }
        Ok(i)
    }

    /// Sets the asking price of a sale in a currency that the market accepts.
    /// Only the owner may, and not while a purchase is in flight.
    pub fn update_price(
        &mut self,
        predecessor_id: &AccountId,
        nft_contract_id: &AccountId,
        token_id: &TokenId,
        ft_token_id: &FungibleTokenId,
        price: u128,
    ) -> (r: Result<(), MarketError>)
        requires
            old(self).wf(),
        ensures
            final(self).wf(),
            r is Err ==> *final(self) == *old(self),
            old(self).owner_refusal(predecessor_id@, (nft_contract_id@, token_id@)) matches Some(e)
                ==> r == Err::<(), MarketError>(e),
            old(self).owner_refusal(predecessor_id@, (nft_contract_id@, token_id@)) is None
                ==> (r == Err::<(), MarketError>(MarketError::UnsupportedCurrency) <==> !old(self).supports(ft_token_id@)),
            old(self).owner_refusal(predecessor_id@, (nft_contract_id@, token_id@)) is None && old(self).supports(ft_token_id@)
                ==> r is Ok,
            r is Ok ==> {
                let k = (nft_contract_id@, token_id@);
                let i = old(self).sale_pos(k);
                &&& final(self).sales@ == old(self).sales@.update(i, final(self).sales@[i])
                &&& same_but_conditions(final(self).sales@[i], old(self).sales@[i])
                &&& final(self).sales@[i].conditions() == old(self).sales@[i].conditions().insert(ft_token_id@, price)
                &&& final(self).same_but_sales(*old(self))
            },
    {
        let i = match self.owned_unlocked_sale(predecessor_id, nft_contract_id, token_id) {
            Ok(i) => i,
            Err(e) => {
                return Err(e);
            },
        };
        if !self.is_supported(ft_token_id) {
            return Err(MarketError::UnsupportedCurrency);
        }
        let ghost before = *self;
        let mut sale = self.sales.remove(i);
        assert(sale.wf(self.bid_history_length as nat));
        set_condition(&mut sale.sale_conditions, ft_token_id, price);
        self.sales.insert(i, sale);
        proof {
            assert(self.sales@ =~= before.sales@.update(i as int, self.sales@[i as int]));
            lemma_wf_replace(before, *self, i as int);
        }
        Ok(())
    }

    /// Withdraws the asking price of a sale in a currency. The sale stays
    /// listed even without any price. Only the owner may, and not while a
    /// purchase is in flight.
    pub fn remove_condition(
        &mut self,
        predecessor_id: &AccountId,
        nft_contract_id: &AccountId,
        token_id: &TokenId,
        ft_token_id: &FungibleTokenId,
    ) -> (r: Result<(), MarketError>)
        requires
            old(self).wf(),
        ensures
            final(self).wf(),
            r is Err ==> *final(self) == *old(self),
            old(self).owner_refusal(predecessor_id@, (nft_contract_id@, token_id@)) matches Some(e)
                ==> r == Err::<(), MarketError>(e),
            old(self).owner_refusal(predecessor_id@, (nft_contract_id@, token_id@)) is None
                ==> (r == Err::<(), MarketError>(MarketError::ConditionNotFound)
                    <==> !old(self).sale((nft_contract_id@, token_id@)).conditions().contains_key(ft_token_id@)),
            old(self).owner_refusal(predecessor_id@, (nft_contract_id@, token_id@)) is None
                && old(self).sale((nft_contract_id@, token_id@)).conditions().contains_key(ft_token_id@) ==> r is Ok,
            r is Ok ==> {
                let k = (nft_contract_id@, token_id@);
                let i = old(self).sale_pos(k);
                &&& final(self).sales@ == old(self).sales@.update(i, final(self).sales@[i])
                &&& same_but_conditions(final(self).sales@[i], old(self).sales@[i])
                &&& final(self).sales@[i].conditions() == old(self).sales@[i].conditions().remove(ft_token_id@)
                &&& final(self).same_but_sales(*old(self))
            },
    {
        let i = match self.owned_unlocked_sale(predecessor_id, nft_contract_id, token_id) {
            Ok(i) => i,
            Err(e) => {
                return Err(e);
            },
        };
        let ghost before = *self;
        proof {
            assert(self.sales@[i as int].wf(self.bid_history_length as nat));
            lemma_as_map_dom(self.sales@[i as int].sale_conditions@);
        }
        let j = match find_str(&self.sales[i].sale_conditions, ft_token_id) {
            Some(j) => j,
            None => {
                return Err(MarketError::ConditionNotFound);
            },
        };
        assert(has_key(self.sales@[i as int].sale_conditions@, ft_token_id@));
        let mut sale = self.sales.remove(i);
        proof {
            lemma_as_map_remove(sale.sale_conditions@, j as int);
        }
        sale.sale_conditions.remove(j);
        self.sales.insert(i, sale);
        proof {
            assert(self.sales@ =~= before.sales@.update(i as int, self.sales@[i as int]));
            lemma_wf_replace(before, *self, i as int);
        }
        Ok(())
    }

    /// Delists a sale, which releases its rent. Only the owner may, and not
    /// while a purchase is in flight. Returns the sale, whose bids are to be
    /// refunded.
    pub fn remove_sale(&mut self, predecessor_id: &AccountId, nft_contract_id: &AccountId, token_id: &TokenId) -> (r: Result<Sale, MarketError>)
        requires
            old(self).wf(),
        ensures
            final(self).wf(),
            r is Err ==> *final(self) == *old(self),
            old(self).owner_refusal(predecessor_id@, (nft_contract_id@, token_id@)) matches Some(e)
                ==> r == Err::<Sale, MarketError>(e),
            old(self).owner_refusal(predecessor_id@, (nft_contract_id@, token_id@)) is None ==> r is Ok,
            r is Ok ==> {
                let k = (nft_contract_id@, token_id@);
                &&& r->Ok_0 == old(self).sale(k)
                &&& final(self).sales@ == old(self).sales@.remove(old(self).sale_pos(k))
                &&& !final(self).has_sale(k)
                &&& final(self).same_but_sales(*old(self))
                &&& final(self).listings_of(predecessor_id@) + 1 == old(self).listings_of(predecessor_id@)
            },
    {
        let i = match self.owned_unlocked_sale(predecessor_id, nft_contract_id, token_id) {
            Ok(i) => i,
            Err(e) => {
                return Err(e);
            },
        };
        let ghost before = *self;
        let sale = self.sales.remove(i);
        proof {
            lemma_wf_remove(before, *self, i as int);
            lemma_owned_count_remove(before.sales@, i as int, predecessor_id@);
            if self.has_sale((nft_contract_id@, token_id@)) {
                let j = choose|j: int| 0 <= j < self.sales@.len() && #[trigger] self.sales@[j].key() == (nft_contract_id@, token_id@);
                let j2 = if j < i { j } else { j + 1 };
                assert(self.sales@[j] == before.sales@[j2]);
                assert(before.sales@[j2].key() != before.sales@[i as int].key());
            }
        }
        Ok(sale)
    }
}

/// The history after a bid is accepted: the bid goes on top and, past the
/// cap, the lowest bid leaves.
pub open spec fn next_history(h: Seq<Bid>, b: Bid, cap: nat) -> Seq<Bid> {
    if h.len() + 1 > cap {
        h.push(b).drop_first()
    } else {
        h.push(b)
    }
}

/// The bid that leaves a history when `b` is accepted, if one does.
pub open spec fn evicted_bid(h: Seq<Bid>, b: Bid, cap: nat) -> Option<Bid> {
    if h.len() + 1 > cap {
        Some(h.push(b)[0])
    } else {
        None
    }
}

/// A bid of `amount` does not beat the history: it is zero, or no more than
/// the highest bid.
pub open spec fn bid_too_low(h: Seq<Bid>, amount: u128) -> bool {
    amount == 0 || (h.len() > 0 && amount <= h.last().price)
}

/// Two sales that differ at most in their bids.
pub open spec fn same_but_bids(a: Sale, b: Sale) -> bool {
    &&& a.owner_id == b.owner_id
    &&& a.approval_id == b.approval_id
    &&& a.nft_contract_id == b.nft_contract_id
    &&& a.token_id == b.token_id
    &&& a.sale_conditions == b.sale_conditions
    &&& a.token_type == b.token_type
    &&& a.pending == b.pending
}

proof fn lemma_next_history_ok(h: Seq<Bid>, b: Bid, cap: nat)
    requires
        bid_history_ok(h, cap),
        !bid_too_low(h, b.price),
    ensures
        bid_history_ok(next_history(h, b, cap), cap),
        forall|j: int| 0 <= j < h.len() ==> #[trigger] h[j].price < b.price,
{
    let h2 = h.push(b);
    assert forall|j: int| 0 <= j < h.len() implies #[trigger] h[j].price < b.price by {
        if j < h.len() - 1 {
            assert(h[j].price < h[h.len() - 1].price);
        }
    }
    assert(strictly_ascending(h2)) by {
        assert forall|x: int, y: int| 0 <= x < y < h2.len() implies #[trigger] h2[x].price < #[trigger] h2[y].price by {
            if y == h.len() {
                assert(h2[x] == h[x]);
            } else {
                assert(h2[x] == h[x] && h2[y] == h[y]);
            }
        }
    }
    if h.len() + 1 > cap {
        let h3 = h2.drop_first();
        assert forall|x: int, y: int| 0 <= x < y < h3.len() implies #[trigger] h3[x].price < #[trigger] h3[y].price by {
            assert(h3[x] == h2[x + 1] && h3[y] == h2[y + 1]);
        }
    }
}

/// The request that starts the asset's transfer for a purchase.
pub struct TransferRequest {
    pub attempt_id: u64,
    pub nft_contract_id: AccountId,
    pub token_id: TokenId,
    /// The seller, from whom the asset goes.
    pub owner_id: AccountId,
    /// The buyer, to whom the asset goes.
    pub buyer_id: AccountId,
    pub approval_id: u64,
    pub ft_token_id: FungibleTokenId,
    pub price: u128,
    pub max_payout_recipients: usize,
}

impl Contract {
    /// Records a bid of `amount` in a currency that the sale has a price in.
    /// The bid must beat the highest bid recorded; when the history is full
    /// its lowest bid leaves and is returned, to be refunded.
    pub fn submit_bid(
        &mut self,
        nft_contract_id: &AccountId,
        token_id: &TokenId,
        ft_token_id: &FungibleTokenId,
        bidder_id: AccountId,
        amount: u128,
    ) -> (r: Result<Option<Bid>, MarketError>)
        requires
            old(self).wf(),
        ensures
            final(self).wf(),
            r is Err ==> *final(self) == *old(self),
            ({
                let k = (nft_contract_id@, token_id@);
                let sale = old(self).sale(k);
                &&& !old(self).has_sale(k) ==> r == Err::<Option<Bid>, MarketError>(MarketError::ListingNotFound)
                &&& old(self).has_sale(k) && sale.locked() ==> r == Err::<Option<Bid>, MarketError>(MarketError::ListingLocked)
                &&& old(self).has_sale(k) && !sale.locked() && !sale.conditions().contains_key(ft_token_id@)
                    ==> r == Err::<Option<Bid>, MarketError>(MarketError::UnsupportedCurrency)
                &&& old(self).has_sale(k) && !sale.locked() && sale.conditions().contains_key(ft_token_id@)
                    ==> (r == Err::<Option<Bid>, MarketError>(MarketError::BidTooLow)
                        <==> bid_too_low(sale.history(ft_token_id@), amount))
                &&& old(self).has_sale(k) && !sale.locked() && sale.conditions().contains_key(ft_token_id@)
                    && !bid_too_low(sale.history(ft_token_id@), amount) ==> r is Ok
            }),
            r is Ok ==> {
                let k = (nft_contract_id@, token_id@);
                let i = old(self).sale_pos(k);
                let h = old(self).sales@[i].history(ft_token_id@);
                let b = Bid { owner_id: bidder_id, price: amount };
                let cap = old(self).bid_history_length as nat;
                &&& final(self).sales@ == old(self).sales@.update(i, final(self).sales@[i])
                &&& same_but_bids(final(self).sales@[i], old(self).sales@[i])
                &&& as_map(final(self).sales@[i].bids@).remove(ft_token_id@) == as_map(old(self).sales@[i].bids@).remove(ft_token_id@)
                &&& final(self).sales@[i].history(ft_token_id@) == next_history(h, b, cap)
                &&& r->Ok_0 == evicted_bid(h, b, cap)
                &&& forall|j: int| 0 <= j < h.len() ==> #[trigger] h[j].price < amount
                &&& final(self).same_but_sales(*old(self))
            },
    {
        let i = match self.find_sale(nft_contract_id, token_id) {
            Some(i) => i,
            None => {
                return Err(MarketError::ListingNotFound);
            },
        };
        if self.sales[i].pending.is_some() {
            return Err(MarketError::ListingLocked);
        }
        let ghost before = *self;
        let ghost old_sale = self.sales@[i as int];
        let ghost cap = self.bid_history_length as nat;
        proof {
            assert(old_sale.wf(cap));
            lemma_as_map_dom(old_sale.sale_conditions@);
            lemma_as_map_dom(old_sale.bids@);
        }
        if find_str(&self.sales[i].sale_conditions, ft_token_id).is_none() {
            return Err(MarketError::UnsupportedCurrency);
        }
        let found = find_str(&self.sales[i].bids, ft_token_id);
        let ghost h = old_sale.history(ft_token_id@);
        proof {
            if let Some(k) = found {
                lemma_as_map_index(old_sale.bids@, k as int);
                assert(bid_history_ok(old_sale.bids@[k as int].1@, cap));
            }
        }
        let too_low = match found {
            Some(k) => {
                let hist = &self.sales[i].bids[k].1;
                amount == 0 || (hist.len() > 0 && amount <= hist[hist.len() - 1].price)
            },
            None => amount == 0,
        };
        if too_low {
            return Err(MarketError::BidTooLow);
        }
        let b = Bid { owner_id: bidder_id, price: amount };
        let ghost gb = b;
        proof {
            lemma_next_history_ok(h, b, cap);
        }
        let mut sale = self.sales.remove(i);
        let (key, mut hist) = match found {
            Some(k) => sale.bids.remove(k),
            None => (ft_token_id.clone(), Vec::new()),
        };
        assert(hist@ == h);
        hist.push(b);
        let evicted = if hist.len() > self.bid_history_length as usize {
            Some(hist.remove(0))
        } else {
            None
        };
        assert(hist@ =~= next_history(h, gb, cap));
        let e = (key, hist);
        match found {
            Some(k) => {
                proof {
                    assert(sale.bids@.insert(k as int, e) =~= old_sale.bids@.update(k as int, e));
                    lemma_as_map_update(old_sale.bids@, k as int, e);
                }
                sale.bids.insert(k, e);
            },
            None => {
                proof {
                    lemma_as_map_push(old_sale.bids@, e);
                }
                sale.bids.push(e);
            },
        }
        proof {
            lemma_as_map_index(sale.bids@, if found is Some { found->Some_0 as int } else { sale.bids@.len() - 1 });
            assert forall|j: int| 0 <= j < sale.bids@.len() implies bid_history_ok(#[trigger] sale.bids@[j].1@, cap) by {
                if found is Some && j != found->Some_0 as int {
                    assert(sale.bids@[j] == old_sale.bids@[j]);
                } else if found is None && j < sale.bids@.len() - 1 {
                    assert(sale.bids@[j] == old_sale.bids@[j]);
                }
            }
            assert(as_map(sale.bids@).remove(ft_token_id@) =~= as_map(old_sale.bids@).remove(ft_token_id@));
        }
        self.sales.insert(i, sale);
        proof {
            assert(self.sales@ =~= before.sales@.update(i as int, self.sales@[i as int]));
            lemma_wf_replace(before, *self, i as int);
        }
        Ok(evicted)
    }
}

/// Two sales that agree in everything that the owner listed.
pub open spec fn same_listing(a: Sale, b: Sale) -> bool {
    &&& a.owner_id == b.owner_id
    &&& a.approval_id == b.approval_id
    &&& a.nft_contract_id == b.nft_contract_id
    &&& a.token_id == b.token_id
    &&& a.token_type == b.token_type
}

/// What the asset ledger answered to a transfer request.
pub enum TransferOutcome {
    /// The asset moved; the ledger may have returned its own payout.
    Transferred(Option<Payout>),
    /// The asset did not move (not the owner, a stale approval, no asset).
    Failed,
}

/// What the settlement of a purchase asks the currency ledgers to do.
#[derive(Debug)]
pub enum Settlement {
    /// The callback does not belong to the purchase in flight: nothing to do.
    Stale,
    /// Pay every recipient of the payout; the sale may have left the registry,
    /// in which case its bids are to be refunded.
    Finalized { ft_token_id: FungibleTokenId, payout: Payout, removed_sale: Option<Sale> },
    /// Refund the buyer in full.
    RolledBack { ft_token_id: FungibleTokenId, buyer_id: AccountId, amount: u128 },
}

/// The payout that a settlement disburses: the ledger's own if it is valid,
/// else the whole price to the seller.
pub open spec fn chosen_payout(answer: Option<Payout>, price: u128, seller: AccountId) -> Seq<(AccountId, u128)> {
    match answer {
        Some(p) => if valid_payout(p@, price) {
            p@
        } else {
            seq![(seller, price)]
        },
        None => seq![(seller, price)],
    }
}

/// The asking prices left after a purchase: one at the asking price uses up
/// its condition, one from a bid does not.
pub open spec fn settled_conditions(s: Sale, p: PendingPurchase) -> Map<Seq<char>, u128> {
    if p.from_bid {
        s.conditions()
    } else {
        s.conditions().remove(p.ft_token_id@)
    }
}

/// Checks that a payout may be disbursed for a sale at `price`.
pub fn is_valid_payout(payout: &Payout, price: u128) -> (r: bool)
    ensures
        r == valid_payout(payout@, price),
{
    if payout.len() > MAX_PAYOUT_RECIPIENTS {
        return false;
    }
    let n = payout.len();
    let mut a: usize = 0;
    while a < n
        invariant
            n == payout@.len(),
            a <= n,
            forall|x: int, y: int| 0 <= x < a && 0 <= y < n && x != y ==> #[trigger] payout@[x].0@ != #[trigger] payout@[y].0@,
        decreases n - a,
    {
        let mut b: usize = 0;
        while b < n
            invariant
                n == payout@.len(),
                a < n,
                b <= n,
                forall|x: int, y: int| 0 <= x < a && 0 <= y < n && x != y ==> #[trigger] payout@[x].0@ != #[trigger] payout@[y].0@,
                forall|y: int| 0 <= y < b && a != y ==> payout@[a as int].0@ != #[trigger] payout@[y].0@,
            decreases n - b,
        {
            if a != b && payout[a].0 == payout[b].0 {
                return false;
            }
            b = b + 1;
        }
        a = a + 1;
    }
    let mut total: u128 = 0;
    let mut i: usize = 0;
    while i < n
        invariant
            n == payout@.len(),
            i <= n,
            total == amount_total(payout@.take(i as int)),
            total <= price,
        decreases n - i,
    {
        assert(payout@.take(i + 1).drop_last() =~= payout@.take(i as int));
        if payout[i].1 > price - total {
            proof {
                lemma_amount_total_prefix(payout@, i + 1);
            }
            return false;
        }
        total = total + payout[i].1;
        i = i + 1;
    }
    assert(payout@.take(i as int) =~= payout@);
    total == price
}

proof fn lemma_amount_total_prefix(p: Seq<(AccountId, u128)>, i: int)
    requires
        0 <= i <= p.len(),
    ensures
        amount_total(p.take(i)) <= amount_total(p),
    decreases p.len(),
{
    if i < p.len() {
        assert(p.drop_last().take(i) =~= p.take(i));
        lemma_amount_total_prefix(p.drop_last(), i);
    } else {
        assert(p.take(i) =~= p);
    }
}

proof fn lemma_as_map_empty<K: View, V>(s: Seq<(K, V)>)
    ensures
        (as_map(s) == Map::<K::V, V>::empty()) <==> s.len() == 0,
{
    if s.len() > 0 {
        assert(as_map(s).contains_key(s.last().0@));
    }
}

impl Contract {
    /// A purchase in flight for the asset `k` has the attempt id `t`.
    pub open spec fn holds_attempt(&self, k: (Seq<char>, Seq<char>), t: u64) -> bool {
        self.has_sale(k) && (self.sale(k).pending matches Some(p) && p.attempt_id == t)
    }

    /// Why a deposit of `amount` in currency `c` does not buy the asset `k`,
    /// if it does not.
    pub open spec fn purchase_refusal(&self, c: Seq<char>, amount: u128, k: (Seq<char>, Seq<char>)) -> Option<MarketError> {
        if !self.has_sale(k) {
            Some(MarketError::ListingNotFound)
        } else if self.sale(k).locked() {
            Some(MarketError::ListingLocked)
        } else if !self.sale(k).conditions().contains_key(c) {
            Some(MarketError::UnsupportedCurrency)
        } else if self.sale(k).conditions()[c] != amount {
            Some(MarketError::PriceMismatch)
        } else {
            None
        }
    }

    /// Locks sale `i` for a purchase and builds the transfer request.
    fn start_settlement(&mut self, i: usize, buyer_id: AccountId, ft_token_id: FungibleTokenId, price: u128, from_bid: bool) -> (req: TransferRequest)
        requires
            old(self).wf(),
            i < old(self).sales@.len(),
            old(self).next_attempt_id < u64::MAX,
        ensures
            final(self).wf(),
            final(self).sales@ == old(self).sales@.update(i as int, final(self).sales@[i as int]),
            same_listing(final(self).sales@[i as int], old(self).sales@[i as int]),
            final(self).sales@[i as int].sale_conditions == old(self).sales@[i as int].sale_conditions,
            final(self).sales@[i as int].bids == old(self).sales@[i as int].bids,
            final(self).sales@[i as int].pending == Some(PendingPurchase {
                attempt_id: old(self).next_attempt_id, buyer_id, ft_token_id, price, from_bid,
            }),
            final(self).next_attempt_id == old(self).next_attempt_id + 1,
            final(self).owner_id == old(self).owner_id,
            final(self).storage_deposits == old(self).storage_deposits,
            final(self).ft_token_ids == old(self).ft_token_ids,
            final(self).bid_history_length == old(self).bid_history_length,
            req.attempt_id == old(self).next_attempt_id,
            req.nft_contract_id == old(self).sales@[i as int].nft_contract_id,
            req.token_id == old(self).sales@[i as int].token_id,
            req.owner_id == old(self).sales@[i as int].owner_id,
            req.buyer_id == buyer_id,
            req.approval_id == old(self).sales@[i as int].approval_id,
            req.ft_token_id == ft_token_id,
            req.price == price,
            req.max_payout_recipients == MAX_PAYOUT_RECIPIENTS,
    {
        let ghost before = *self;
        let attempt_id = self.next_attempt_id;
        let mut sale = self.sales.remove(i);
        let req = TransferRequest {
            attempt_id,
            nft_contract_id: sale.nft_contract_id.clone(),
            token_id: sale.token_id.clone(),
            owner_id: sale.owner_id.clone(),
            buyer_id: buyer_id.clone(),
            approval_id: sale.approval_id,
            ft_token_id: ft_token_id.clone(),
            price,
            max_payout_recipients: MAX_PAYOUT_RECIPIENTS,
        };
        sale.pending = Some(PendingPurchase { attempt_id, buyer_id, ft_token_id, price, from_bid });
        self.sales.insert(i, sale);
        self.next_attempt_id = attempt_id + 1;
        proof {
            assert(self.sales@ =~= before.sales@.update(i as int, self.sales@[i as int]));
            lemma_wf_replace(before, *self, i as int);
        }
        req
    }

    /// The entry point of a purchase: `buyer_id` has deposited `amount` of
    /// currency `ft_token_id` for the asset. If the amount is the asking price
    /// the sale is locked and the asset's transfer is requested; otherwise the
    /// error says why, and the deposit is to be refunded in full.
    pub fn purchase(
        &mut self,
        ft_token_id: &FungibleTokenId,
        buyer_id: &AccountId,
        amount: u128,
        nft_contract_id: &AccountId,
        token_id: &TokenId,
    ) -> (r: Result<TransferRequest, MarketError>)
        requires
            old(self).wf(),
            old(self).next_attempt_id < u64::MAX,
        ensures
            final(self).wf(),
            r is Err ==> *final(self) == *old(self),
            old(self).purchase_refusal(ft_token_id@, amount, (nft_contract_id@, token_id@)) matches Some(e)
                ==> r == Err::<TransferRequest, MarketError>(e),
            old(self).purchase_refusal(ft_token_id@, amount, (nft_contract_id@, token_id@)) is None ==> r is Ok,
            r is Ok ==> {
                let k = (nft_contract_id@, token_id@);
                let i = old(self).sale_pos(k);
                let sale = old(self).sales@[i];
                let req = r->Ok_0;
                &&& final(self).sales@ == old(self).sales@.update(i, final(self).sales@[i])
                &&& same_listing(final(self).sales@[i], sale)
                &&& final(self).sales@[i].sale_conditions == sale.sale_conditions
                &&& final(self).sales@[i].bids == sale.bids
                &&& final(self).sales@[i].pending == Some(PendingPurchase {
                    attempt_id: old(self).next_attempt_id, buyer_id: *buyer_id, ft_token_id: *ft_token_id,
                    price: amount, from_bid: false,
                })
                &&& final(self).holds_attempt(k, old(self).next_attempt_id)
                &&& final(self).next_attempt_id == old(self).next_attempt_id + 1
                &&& req.attempt_id == old(self).next_attempt_id
                &&& req.nft_contract_id == sale.nft_contract_id
                &&& req.token_id == sale.token_id
                &&& req.owner_id == sale.owner_id
                &&& req.buyer_id == *buyer_id
                &&& req.approval_id == sale.approval_id
                &&& req.ft_token_id == *ft_token_id
                &&& req.price == amount
                &&& req.max_payout_recipients == MAX_PAYOUT_RECIPIENTS
            },
    {
        let i = match self.find_sale(nft_contract_id, token_id) {
            Some(i) => i,
            None => {
                return Err(MarketError::ListingNotFound);
            },
        };
        if self.sales[i].pending.is_some() {
            return Err(MarketError::ListingLocked);
        }
        proof {
            assert(self.sales@[i as int].wf(self.bid_history_length as nat));
            lemma_as_map_dom(self.sales@[i as int].sale_conditions@);
        }
        let j = match find_str(&self.sales[i].sale_conditions, ft_token_id) {
            Some(j) => j,
            None => {
                return Err(MarketError::UnsupportedCurrency);
            },
        };
        proof {
            lemma_as_map_index(self.sales@[i as int].sale_conditions@, j as int);
        }
        if self.sales[i].sale_conditions[j].1 != amount {
            return Err(MarketError::PriceMismatch);
        }
        let req = self.start_settlement(i, buyer_id.clone(), ft_token_id.clone(), amount, false);
        proof {
            lemma_sale_pos(*self, i as int);
        }
        Ok(req)
    }

    /// The owner accepts the highest bid in a currency: the bid leaves the
    /// history, the sale is locked, and the asset's transfer to the bidder is
    /// requested.
    pub fn accept_bid(
        &mut self,
        predecessor_id: &AccountId,
        nft_contract_id: &AccountId,
        token_id: &TokenId,
        ft_token_id: &FungibleTokenId,
    ) -> (r: Result<TransferRequest, MarketError>)
        requires
            old(self).wf(),
            old(self).next_attempt_id < u64::MAX,
        ensures
            final(self).wf(),
            r is Err ==> *final(self) == *old(self),
            old(self).owner_refusal(predecessor_id@, (nft_contract_id@, token_id@)) matches Some(e)
                ==> r == Err::<TransferRequest, MarketError>(e),
            old(self).owner_refusal(predecessor_id@, (nft_contract_id@, token_id@)) is None
                ==> (r == Err::<TransferRequest, MarketError>(MarketError::NoBids)
                    <==> old(self).sale((nft_contract_id@, token_id@)).history(ft_token_id@).len() == 0),
            old(self).owner_refusal(predecessor_id@, (nft_contract_id@, token_id@)) is None
                && old(self).sale((nft_contract_id@, token_id@)).history(ft_token_id@).len() > 0 ==> r is Ok,
            r is Ok ==> {
                let k = (nft_contract_id@, token_id@);
                let i = old(self).sale_pos(k);
                let sale = old(self).sales@[i];
                let h = sale.history(ft_token_id@);
                let top = h.last();
                let req = r->Ok_0;
                &&& final(self).sales@ == old(self).sales@.update(i, final(self).sales@[i])
                &&& same_listing(final(self).sales@[i], sale)
                &&& final(self).sales@[i].sale_conditions == sale.sale_conditions
                &&& final(self).sales@[i].history(ft_token_id@) == h.drop_last()
                &&& as_map(final(self).sales@[i].bids@).remove(ft_token_id@) == as_map(sale.bids@).remove(ft_token_id@)
                &&& final(self).sales@[i].pending == Some(PendingPurchase {
                    attempt_id: old(self).next_attempt_id, buyer_id: top.owner_id, ft_token_id: *ft_token_id,
                    price: top.price, from_bid: true,
                })
                &&& final(self).holds_attempt(k, old(self).next_attempt_id)
                &&& final(self).next_attempt_id == old(self).next_attempt_id + 1
                &&& req.attempt_id == old(self).next_attempt_id
                &&& req.owner_id == sale.owner_id
                &&& req.buyer_id == top.owner_id
                &&& req.price == top.price
                &&& req.ft_token_id == *ft_token_id
            },
    {
        let i = match self.owned_unlocked_sale(predecessor_id, nft_contract_id, token_id) {
            Ok(i) => i,
            Err(e) => {
                return Err(e);
            },
        };
        let ghost before = *self;
        let ghost old_sale = self.sales@[i as int];
        let ghost cap = self.bid_history_length as nat;
        proof {
            assert(old_sale.wf(cap));
            lemma_as_map_dom(old_sale.bids@);
        }
        let k = match find_str(&self.sales[i].bids, ft_token_id) {
            Some(k) => k,
            None => {
                return Err(MarketError::NoBids);
            },
        };
        proof {
            lemma_as_map_index(old_sale.bids@, k as int);
            assert(bid_history_ok(old_sale.bids@[k as int].1@, cap));
        }
        if self.sales[i].bids[k].1.len() == 0 {
            return Err(MarketError::NoBids);
        }
        let mut sale = self.sales.remove(i);
        let (key, mut hist) = sale.bids.remove(k);
        let top = match hist.pop() {
            Some(b) => b,
            None => {
                return Err(MarketError::NoBids);
            },
        };
        let ghost h2 = hist@;
        assert(h2 =~= old_sale.bids@[k as int].1@.drop_last());
        let e = (key, hist);
        proof {
            assert(sale.bids@.insert(k as int, e) =~= old_sale.bids@.update(k as int, e));
            lemma_as_map_update(old_sale.bids@, k as int, e);
        }
        sale.bids.insert(k, e);
        proof {
            lemma_as_map_index(sale.bids@, k as int);
            let h0 = old_sale.bids@[k as int].1@;
            assert(bid_history_ok(h2, cap)) by {
                assert forall|x: int, y: int| 0 <= x < y < h2.len() implies #[trigger] h2[x].price < #[trigger] h2[y].price by {
                    assert(h2[x] == h0[x] && h2[y] == h0[y]);
                }
            }
            assert forall|j: int| 0 <= j < sale.bids@.len() implies bid_history_ok(#[trigger] sale.bids@[j].1@, cap) by {
                if j != k as int {
                    assert(sale.bids@[j] == old_sale.bids@[j]);
                }
            }
            assert(as_map(sale.bids@).remove(ft_token_id@) =~= as_map(old_sale.bids@).remove(ft_token_id@));
        }
        self.sales.insert(i, sale);
        proof {
            assert(self.sales@ =~= before.sales@.update(i as int, self.sales@[i as int]));
            lemma_wf_replace(before, *self, i as int);
        }
        let ghost mid = *self;
        let req = self.start_settlement(i, top.owner_id.clone(), ft_token_id.clone(), top.price, true);
        proof {
            lemma_sale_pos(*self, i as int);
            assert(self.sales@[i as int].bids == mid.sales@[i as int].bids);
        }
        Ok(req)
    }
}

impl Contract {
    /// The callback of a purchase: the asset ledger's answer to the transfer
    /// request of attempt `attempt_id`. A callback that does not match the
    /// purchase in flight for the asset changes nothing. On a transfer, the
    /// payout is settled, the condition used is withdrawn and the sale leaves
    /// the registry once no condition remains; on a failure the buyer is
    /// refunded in full. Either way the sale is unlocked.
    pub fn resolve_purchase(
        &mut self,
        nft_contract_id: &AccountId,
        token_id: &TokenId,
        attempt_id: u64,
        outcome: TransferOutcome,
    ) -> (r: Settlement)
        requires
            old(self).wf(),
        ensures
            final(self).wf(),
            !final(self).holds_attempt((nft_contract_id@, token_id@), attempt_id),
            !old(self).holds_attempt((nft_contract_id@, token_id@), attempt_id) ==> r is Stale && *final(self) == *old(self),
            old(self).holds_attempt((nft_contract_id@, token_id@), attempt_id) ==> {
                let k = (nft_contract_id@, token_id@);
                let i = old(self).sale_pos(k);
                let sale = old(self).sales@[i];
                let p = sale.pending->Some_0;
                &&& final(self).same_but_sales(*old(self))
                &&& match outcome {
                    TransferOutcome::Failed => {
                        &&& r == Settlement::RolledBack { ft_token_id: p.ft_token_id, buyer_id: p.buyer_id, amount: p.price }
                        &&& final(self).sales@ == old(self).sales@.update(i, final(self).sales@[i])
                        &&& same_listing(final(self).sales@[i], sale)
                        &&& final(self).sales@[i].sale_conditions == sale.sale_conditions
                        &&& final(self).sales@[i].bids == sale.bids
                        &&& final(self).sales@[i].pending is None
                    },
                    TransferOutcome::Transferred(answer) => {
                        &&& r matches Settlement::Finalized { ft_token_id, payout, removed_sale }
                        &&& r->Finalized_ft_token_id == p.ft_token_id
                        &&& r->Finalized_payout@ == chosen_payout(answer, p.price, sale.owner_id)
                        &&& valid_payout(r->Finalized_payout@, p.price)
                        &&& if settled_conditions(sale, p) == Map::<Seq<char>, u128>::empty() {
                            &&& final(self).sales@ == old(self).sales@.remove(i)
                            &&& !final(self).has_sale(k)
                            &&& r->Finalized_removed_sale matches Some(s) && same_listing(s, sale) && s.bids == sale.bids
                        } else {
                            &&& r->Finalized_removed_sale is None
                            &&& final(self).sales@ == old(self).sales@.update(i, final(self).sales@[i])
                            &&& same_listing(final(self).sales@[i], sale)
                            &&& final(self).sales@[i].conditions() == settled_conditions(sale, p)
                            &&& final(self).sales@[i].bids == sale.bids
                            &&& final(self).sales@[i].pending is None
                        }
                    },
                }
            },
    {
        let i = match self.find_sale(nft_contract_id, token_id) {
            Some(i) => i,
            None => {
                return Settlement::Stale;
            },
        };
        let current = match &self.sales[i].pending {
            Some(p) => p.attempt_id == attempt_id,
            None => false,
        };
        if !current {
            return Settlement::Stale;
        }
        let ghost before = *self;
        let ghost old_sale = self.sales@[i as int];
        let mut sale = self.sales.remove(i);
        let p = match sale.pending.take() {
            Some(p) => p,
            None => {
                return Settlement::Stale;
            },
        };
        proof {
            assert(old_sale.wf(before.bid_history_length as nat));
            lemma_sale_pos(before, i as int);
        }
        match outcome {
            TransferOutcome::Failed => {
                self.sales.insert(i, sale);
                proof {
                    assert(self.sales@ =~= before.sales@.update(i as int, self.sales@[i as int]));
                    lemma_wf_replace(before, *self, i as int);
                    lemma_sale_pos(*self, i as int);
                }
                Settlement::RolledBack { ft_token_id: p.ft_token_id, buyer_id: p.buyer_id, amount: p.price }
            },
            TransferOutcome::Transferred(answer) => {
                let ghost g_answer = answer;
                let payout = match answer {
                    Some(v) => {
                        if is_valid_payout(&v, p.price) {
                            v
                        } else {
                            seller_takes_all(p.price, &sale.owner_id)
                        }
                    },
                    None => seller_takes_all(p.price, &sale.owner_id),
                };
                assert(payout@ == chosen_payout(g_answer, p.price, old_sale.owner_id));
                if !p.from_bid {
                    let ghost c0 = sale.sale_conditions@;
                    proof {
                        lemma_as_map_dom(c0);
                    }
                    match find_str(&sale.sale_conditions, &p.ft_token_id) {
                        Some(j) => {
                            proof {
                                lemma_as_map_remove(c0, j as int);
                            }
                            sale.sale_conditions.remove(j);
                        },
                        None => {
                            assert(as_map(c0).remove(p.ft_token_id@) =~= as_map(c0));
                        },
                    }
                }
                assert(as_map(sale.sale_conditions@) == settled_conditions(old_sale, p));
                proof {
                    lemma_as_map_empty(sale.sale_conditions@);
                    lemma_payout_choice_valid(g_answer, p.price, old_sale.owner_id);
                }
                if sale.sale_conditions.len() == 0 {
                    proof {
                        lemma_wf_remove(before, *self, i as int);
                        if self.has_sale((nft_contract_id@, token_id@)) {
                            let j = choose|j: int| 0 <= j < self.sales@.len() && #[trigger] self.sales@[j].key() == (nft_contract_id@, token_id@);
                            let j2 = if j < i { j } else { j + 1 };
                            assert(self.sales@[j] == before.sales@[j2]);
                            assert(before.sales@[j2].key() != before.sales@[i as int].key());
                        }
                    }
                    Settlement::Finalized { ft_token_id: p.ft_token_id, payout, removed_sale: Some(sale) }
                } else {
                    self.sales.insert(i, sale);
                    proof {
                        assert(self.sales@ =~= before.sales@.update(i as int, self.sales@[i as int]));
                        lemma_wf_replace(before, *self, i as int);
                        lemma_sale_pos(*self, i as int);
                    }
                    Settlement::Finalized { ft_token_id: p.ft_token_id, payout, removed_sale: None }
                }
            },
        }
    }
}

/// The payout that gives the whole price to the seller, from the royalty
/// calculator with an empty table.
fn seller_takes_all(price: u128, seller_id: &AccountId) -> (r: Payout)
    ensures
        r@ == seq![(*seller_id, price)],
{
    let table: Vec<(AccountId, u32)> = Vec::new();
    match compute_payout(price, &table, seller_id) {
        Ok(v) => {
            assert(v@ =~= seq![(*seller_id, price)]);
            v
        },
        Err(_) => {
            assert(false);
            Vec::new()
        },
    }
}

/// Whatever the asset ledger answers, the payout chosen is valid.
pub proof fn lemma_payout_choice_valid(answer: Option<Payout>, price: u128, seller: AccountId)
    ensures
        valid_payout(chosen_payout(answer, price, seller), price),
{
    let s = seq![(seller, price)];
    assert(s.drop_last() =~= Seq::<(AccountId, u128)>::empty());
    assert(amount_total(s.drop_last()) == 0);
    assert(amount_total(s) == price);
}

/// Rent is fully released: an account with no deposit and no sale that
/// deposits `x`, lists a sale, delists it and withdraws gets back exactly `x`.
/// Each step is stated as the change that its operation guarantees.
pub proof fn lemma_rent_round_trip(m0: Contract, m1: Contract, m2: Contract, m3: Contract, a: Seq<char>, x: u128, w: nat)
    requires
        m0.wf(),
        m0.credit(a) == 0,
        m0.listings_of(a) == 0,
        m1.credit(a) == m0.credit(a) + x,
        m1.sales == m0.sales,
        m2.listings_of(a) == m1.listings_of(a) + 1,
        m2.storage_deposits == m1.storage_deposits,
        m3.listings_of(a) + 1 == m2.listings_of(a),
        m3.storage_deposits == m2.storage_deposits,
        w == m3.withdrawable(a),
    ensures
        w == x,
{
    assert(m1.listings_of(a) == 0);
    assert(m3.listings_of(a) == 0);
    assert(m3.credit(a) == m1.credit(a));
}

/// At most one sale exists for an asset: any sale for the asset `k` is the
/// one that `sale_pos` names.
pub proof fn lemma_at_most_one_sale(m: Contract, k: (Seq<char>, Seq<char>), i: int)
    requires
        m.wf(),
        0 <= i < m.sales@.len(),
        m.sales@[i].key() == k,
    ensures
        i == m.sale_pos(k),
        forall|j: int| 0 <= j < m.sales@.len() && j != i ==> #[trigger] m.sales@[j].key() != k,
{
    lemma_sale_pos(m, i);
}

} // verus!
