//! Paged views of the sale registry: by owner, by asset collection and by
//! asset category, each in listing order.
use vstd::prelude::*;
use crate::enumerable::page_len;
use crate::market::{Bid, Contract, PendingPurchase, Sale};
use crate::payout::AccountId;
use crate::token::{copy_entries, copy_opt_string};

verus! {

/// Which sales a view shows.
pub enum SaleFilter {
    /// The sales of one owner.
    Owner(AccountId),
    /// The sales of assets of one collection.
    Collection(AccountId),
    /// The sales of assets of one category.
    Category(String),
}

/// The sale belongs to the view.
pub open spec fn sale_matches(s: Sale, f: SaleFilter) -> bool {
    match f {
        SaleFilter::Owner(a) => s.owner_id@ == a@,
        SaleFilter::Collection(c) => s.nft_contract_id@ == c@,
        SaleFilter::Category(t) => s.token_type matches Some(x) && x@ == t@,
    }
}

/// The positions, in listing order, of the sales in the view.
pub open spec fn sale_positions(sales: Seq<Sale>, f: SaleFilter) -> Seq<int>
    decreases sales.len(),
{
    if sales.len() == 0 {
        Seq::empty()
    } else {
        let rest = sale_positions(sales.drop_last(), f);
        if sale_matches(sales.last(), f) {
            rest.push(sales.len() - 1)
        } else {
            rest
        }
    }
}

/// Two sales that agree, their lists compared by content.
pub open spec fn same_sale(a: Sale, b: Sale) -> bool {
    &&& a.owner_id == b.owner_id
    &&& a.approval_id == b.approval_id
    &&& a.nft_contract_id == b.nft_contract_id
    &&& a.token_id == b.token_id
    &&& a.sale_conditions@ == b.sale_conditions@
    &&& a.bids@.len() == b.bids@.len()
    &&& forall|i: int| 0 <= i < a.bids@.len() ==> (#[trigger] a.bids@[i]).0 == b.bids@[i].0 && a.bids@[i].1@ == b.bids@[i].1@
    &&& a.token_type == b.token_type
    &&& a.pending == b.pending
}

fn copy_bids(h: &Vec<Bid>) -> (r: Vec<Bid>)
    ensures
        r@ == h@,
{
    let mut out: Vec<Bid> = Vec::new();
    let mut i: usize = 0;
    while i < h.len()
        invariant
            i <= h@.len(),
            out@ == h@.take(i as int),
        decreases h@.len() - i,
    {
        out.push(Bid { owner_id: h[i].owner_id.clone(), price: h[i].price });
        i = i + 1;
        assert(out@ =~= h@.take(i as int));
    }
    assert(out@ =~= h@);
    out
}

impl Sale {
    /// A copy of the sale.
    pub fn copy(&self) -> (r: Sale)
        ensures
            same_sale(r, *self),
    {
        let mut bids: Vec<(AccountId, Vec<Bid>)> = Vec::new();
        let mut i: usize = 0;
        while i < self.bids.len()
            invariant
                i <= self.bids@.len(),
                bids@.len() == i,
                forall|j: int| 0 <= j < i ==> (#[trigger] bids@[j]).0 == self.bids@[j].0 && bids@[j].1@ == self.bids@[j].1@,
            decreases self.bids@.len() - i,
        {
            bids.push((self.bids[i].0.clone(), copy_bids(&self.bids[i].1)));
            i = i + 1;
        }
        let pending = match &self.pending {
            Some(p) => Some(PendingPurchase {
                attempt_id: p.attempt_id,
                buyer_id: p.buyer_id.clone(),
                ft_token_id: p.ft_token_id.clone(),
                price: p.price,
                from_bid: p.from_bid,
            }),
            None => None,
        };
        Sale {
            owner_id: self.owner_id.clone(),
            approval_id: self.approval_id,
            nft_contract_id: self.nft_contract_id.clone(),
            token_id: self.token_id.clone(),
            sale_conditions: copy_entries(&self.sale_conditions),
            bids,
            token_type: copy_opt_string(&self.token_type),
            pending,
        }
    }

    fn matches(&self, f: &SaleFilter) -> (r: bool)
        ensures
            r == sale_matches(*self, *f),
    {
        match f {
            SaleFilter::Owner(a) => self.owner_id == *a,
            SaleFilter::Collection(c) => self.nft_contract_id == *c,
            SaleFilter::Category(t) => match &self.token_type {
                Some(x) => *x == *t,
                None => false,
            },
        }
    }
}

impl Contract {
    /// How many sales the view shows.
    pub fn get_supply_by_filter(&self, f: &SaleFilter) -> (r: u64)
        ensures
            r == sale_positions(self.sales@, *f).len(),
    {
        let mut n: u64 = 0;
        let mut i: usize = 0;
        while i < self.sales.len()
            invariant
                i <= self.sales@.len(),
                n <= i,
                n == sale_positions(self.sales@.take(i as int), *f).len(),
            decreases self.sales@.len() - i,
        {
            assert(self.sales@.take(i + 1).drop_last() =~= self.sales@.take(i as int));
            if self.sales[i].matches(f) {
                n = n + 1;
            }
            i = i + 1;
        }
        assert(self.sales@.take(i as int) =~= self.sales@);
        n
    }

    /// A page of the sales that the view shows, in listing order.
    pub fn get_sales_by_filter(&self, f: &SaleFilter, from_index: u64, limit: u64) -> (r: Vec<Sale>)
        ensures
            ({
                let ps = sale_positions(self.sales@, *f);
                &&& r@.len() == page_len(ps.len(), from_index as nat, limit as nat)
                &&& forall|k: int| 0 <= k < r@.len() ==> same_sale(#[trigger] r@[k], self.sales@[ps[from_index + k]])
            }),
    {
        let mut out: Vec<Sale> = Vec::new();
        let mut seen: u64 = 0;
        let mut i: usize = 0;
        while i < self.sales.len()
            invariant
                i <= self.sales@.len(),
                seen <= i,
                seen == sale_positions(self.sales@.take(i as int), *f).len(),
                out@.len() == page_len(seen as nat, from_index as nat, limit as nat),
                forall|k: int| 0 <= k < out@.len() ==> same_sale(
                    #[trigger] out@[k], self.sales@[sale_positions(self.sales@.take(i as int), *f)[from_index + k]]),
            decreases self.sales@.len() - i,
        {
            let ghost ps0 = sale_positions(self.sales@.take(i as int), *f);
            assert(self.sales@.take(i + 1).drop_last() =~= self.sales@.take(i as int));
            if self.sales[i].matches(f) {
                if seen >= from_index && seen - from_index < limit {
                    out.push(self.sales[i].copy());
                }
                seen = seen + 1;
            }
            i = i + 1;
            proof {
                let ps1 = sale_positions(self.sales@.take(i as int), *f);
                assert forall|k: int| 0 <= k < out@.len() implies same_sale(#[trigger] out@[k], self.sales@[ps1[from_index + k]]) by {
                    if ps1.len() > ps0.len() && from_index + k == ps0.len() {
                        assert(ps1[from_index + k] == i - 1);
                    } else {
                        assert(ps1[from_index + k] == ps0[from_index + k]);
                    }
                }
            }
        }
        assert(self.sales@.take(i as int) =~= self.sales@);
        out
    }

    /// How many sales `account_id` has.
    pub fn get_supply_by_owner_id(&self, account_id: AccountId) -> (r: u64)
        ensures
            r == sale_positions(self.sales@, SaleFilter::Owner(account_id)).len(),
    {
        self.get_supply_by_filter(&SaleFilter::Owner(account_id))
    }

    /// A page of the sales of `account_id`, in listing order.
    pub fn get_sales_by_owner_id(&self, account_id: AccountId, from_index: u64, limit: u64) -> (r: Vec<Sale>)
        ensures
            ({
                let ps = sale_positions(self.sales@, SaleFilter::Owner(account_id));
                &&& r@.len() == page_len(ps.len(), from_index as nat, limit as nat)
                &&& forall|k: int| 0 <= k < r@.len() ==> same_sale(#[trigger] r@[k], self.sales@[ps[from_index + k]])
            }),
    {
        self.get_sales_by_filter(&SaleFilter::Owner(account_id), from_index, limit)
    }

    /// How many sales there are of assets of the collection `nft_contract_id`.
    pub fn get_supply_by_nft_contract_id(&self, nft_contract_id: AccountId) -> (r: u64)
        ensures
            r == sale_positions(self.sales@, SaleFilter::Collection(nft_contract_id)).len(),
    {
        self.get_supply_by_filter(&SaleFilter::Collection(nft_contract_id))
    }

    /// A page of the sales of assets of the collection `nft_contract_id`, in
    /// listing order.
    pub fn get_sales_by_nft_contract_id(&self, nft_contract_id: AccountId, from_index: u64, limit: u64) -> (r: Vec<Sale>)
        ensures
            ({
                let ps = sale_positions(self.sales@, SaleFilter::Collection(nft_contract_id));
                &&& r@.len() == page_len(ps.len(), from_index as nat, limit as nat)
                &&& forall|k: int| 0 <= k < r@.len() ==> same_sale(#[trigger] r@[k], self.sales@[ps[from_index + k]])
            }),
    {
        self.get_sales_by_filter(&SaleFilter::Collection(nft_contract_id), from_index, limit)
    }

    /// A page of the sales of assets of the category `token_type`, in listing
    /// order.
    pub fn get_sales_by_nft_token_type(&self, token_type: String, from_index: u64, limit: u64) -> (r: Vec<Sale>)
        ensures
            ({
                let ps = sale_positions(self.sales@, SaleFilter::Category(token_type));
                &&& r@.len() == page_len(ps.len(), from_index as nat, limit as nat)
                &&& forall|k: int| 0 <= k < r@.len() ==> same_sale(#[trigger] r@[k], self.sales@[ps[from_index + k]])
            }),
    {
        self.get_sales_by_filter(&SaleFilter::Category(token_type), from_index, limit)
    }
}

} // verus!
