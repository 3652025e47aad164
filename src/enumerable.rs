//! Paged views of the asset ledger's tokens: all of them, by owner, by type.
use vstd::prelude::*;
use crate::nft::Contract;
use crate::payout::AccountId;
use crate::token::{JsonToken, TokenId, TokenType, Token, same_metadata, copy_entries, copy_opt_string};

verus! {

/// How many of `n` items a page that starts at `from` and holds at most
/// `limit` items shows.
pub open spec fn page_len(n: nat, from: nat, limit: nat) -> nat {
    if from >= n {
        0
    } else if limit <= n - from {
        limit
    } else {
        (n - from) as nat
    }
}

/// The positions, in minting order, of the tokens owned by `a`.
pub open spec fn owner_positions(tokens: Seq<(TokenId, Token)>, a: Seq<char>) -> Seq<int>
    decreases tokens.len(),
{
    if tokens.len() == 0 {
        Seq::empty()
    } else {
        let rest = owner_positions(tokens.drop_last(), a);
        if tokens.last().1.owner_id@ == a {
            rest.push(tokens.len() - 1)
        } else {
            rest
        }
    }
}

/// The positions, in minting order, of the tokens of type `t`.
pub open spec fn type_positions(tokens: Seq<(TokenId, Token)>, t: Seq<char>) -> Seq<int>
    decreases tokens.len(),
{
    if tokens.len() == 0 {
        Seq::empty()
    } else {
        let rest = type_positions(tokens.drop_last(), t);
        if tokens.last().1.token_type matches Some(x) && x@ == t {
            rest.push(tokens.len() - 1)
        } else {
            rest
        }
    }
}

impl Contract {
    /// `j` is the view of the token at position `i`.
    pub open spec fn json_at(&self, i: int, j: JsonToken) -> bool {
        let t = self.tokens_by_id@[i].1;
        &&& j.token_id@ == self.tokens_by_id@[i].0@
        &&& j.owner_id == t.owner_id
        &&& j.approved_account_ids@ == t.approved_account_ids@
        &&& j.royalty@ == t.royalty@
        &&& j.token_type == t.token_type
        &&& same_metadata(j.metadata, self.token_metadata_by_id@[i].1)
    }

    /// The view of the token at position `i`.
    pub fn token_json(&self, i: usize) -> (j: JsonToken)
        requires
            self.wf(),
            i < self.tokens_by_id@.len(),
        ensures
            self.json_at(i as int, j),
    {
        let t = &self.tokens_by_id[i].1;
        JsonToken {
            token_id: self.tokens_by_id[i].0.clone(),
            owner_id: t.owner_id.clone(),
            metadata: self.token_metadata_by_id[i].1.copy(),
            approved_account_ids: copy_entries(&t.approved_account_ids),
            royalty: copy_entries(&t.royalty),
            token_type: copy_opt_string(&t.token_type),
        }
    }

    /// A page of all tokens, in minting order.
    pub fn nft_tokens(&self, from_index: u64, limit: u64) -> (r: Vec<JsonToken>)
        requires
            self.wf(),
        ensures
            r@.len() == page_len(self.tokens_by_id@.len(), from_index as nat, limit as nat),
            forall|k: int| 0 <= k < r@.len() ==> self.json_at(from_index + k, #[trigger] r@[k]),
    {
        let mut out: Vec<JsonToken> = Vec::new();
        let n = self.tokens_by_id.len();
        if from_index as u128 >= n as u128 {
            return out;
        }
        let start = from_index as usize;
        let avail = n - start;
        let count: usize = if (limit as u128) < (avail as u128) { limit as usize } else { avail };
        let mut k: usize = 0;
        while k < count
            invariant
                self.wf(),
                n == self.tokens_by_id@.len(),
                start == from_index,
                start + count <= n,
                k <= count,
                out@.len() == k,
                forall|x: int| 0 <= x < k ==> self.json_at(from_index + x, #[trigger] out@[x]),
            decreases count - k,
        {
            out.push(self.token_json(start + k));
            k = k + 1;
        }
        out
    }

    /// The views of the tokens named, which must all exist.
    pub fn nft_tokens_batch(&self, token_ids: Vec<TokenId>) -> (r: Vec<JsonToken>)
        requires
            self.wf(),
            forall|i: int| 0 <= i < token_ids@.len() ==> self.has_token(#[trigger] token_ids@[i]@),
        ensures
            r@.len() == token_ids@.len(),
            forall|k: int| 0 <= k < r@.len() ==> self.json_at(self.token_pos(token_ids@[k]@), #[trigger] r@[k]),
    {
        let mut out: Vec<JsonToken> = Vec::new();
        let mut k: usize = 0;
        while k < token_ids.len()
            invariant
                self.wf(),
                forall|i: int| 0 <= i < token_ids@.len() ==> self.has_token(#[trigger] token_ids@[i]@),
                k <= token_ids@.len(),
                out@.len() == k,
                forall|x: int| 0 <= x < k ==> self.json_at(self.token_pos(token_ids@[x]@), #[trigger] out@[x]),
            decreases token_ids@.len() - k,
        {
            assert(self.has_token(token_ids@[k as int]@));
            let i = match self.find_token(&token_ids[k]) {
                Some(i) => i,
                None => {
                    return out;
                },
            };
            out.push(self.token_json(i));
            k = k + 1;
        }
        out
    }

    /// How many tokens `account_id` owns.
    pub fn nft_supply_for_owner(&self, account_id: &AccountId) -> (r: u64)
        ensures
            r == owner_positions(self.tokens_by_id@, account_id@).len(),
    {
        let mut n: u64 = 0;
        let mut i: usize = 0;
        while i < self.tokens_by_id.len()
            invariant
                i <= self.tokens_by_id@.len(),
                n == owner_positions(self.tokens_by_id@.take(i as int), account_id@).len(),
                n <= i,
            decreases self.tokens_by_id@.len() - i,
        {
            assert(self.tokens_by_id@.take(i + 1).drop_last() =~= self.tokens_by_id@.take(i as int));
            if self.tokens_by_id[i].1.owner_id == *account_id {
                n = n + 1;
            }
            i = i + 1;
        }
        assert(self.tokens_by_id@.take(i as int) =~= self.tokens_by_id@);
        n
    }

    /// A page of the tokens that `account_id` owns, in minting order.
    pub fn nft_tokens_for_owner(&self, account_id: &AccountId, from_index: u64, limit: u64) -> (r: Vec<JsonToken>)
        requires
            self.wf(),
        ensures
            ({
                let ps = owner_positions(self.tokens_by_id@, account_id@);
                &&& r@.len() == page_len(ps.len(), from_index as nat, limit as nat)
                &&& forall|k: int| 0 <= k < r@.len() ==> self.json_at(ps[from_index + k], #[trigger] r@[k])
            }),
    {
        let mut out: Vec<JsonToken> = Vec::new();
        let mut seen: u64 = 0;
        let mut i: usize = 0;
        while i < self.tokens_by_id.len()
            invariant
                self.wf(),
                i <= self.tokens_by_id@.len(),
                seen <= i,
                seen == owner_positions(self.tokens_by_id@.take(i as int), account_id@).len(),
                out@.len() == page_len(seen as nat, from_index as nat, limit as nat),
                forall|k: int| 0 <= k < out@.len() ==> self.json_at(
                    owner_positions(self.tokens_by_id@.take(i as int), account_id@)[from_index + k], #[trigger] out@[k]),
            decreases self.tokens_by_id@.len() - i,
        {
            let ghost ps0 = owner_positions(self.tokens_by_id@.take(i as int), account_id@);
            assert(self.tokens_by_id@.take(i + 1).drop_last() =~= self.tokens_by_id@.take(i as int));
            if self.tokens_by_id[i].1.owner_id == *account_id {
                if seen >= from_index && seen - from_index < limit {
                    out.push(self.token_json(i));
                }
                seen = seen + 1;
            }
            i = i + 1;
            proof {
                let ps1 = owner_positions(self.tokens_by_id@.take(i as int), account_id@);
                assert forall|k: int| 0 <= k < out@.len() implies self.json_at(ps1[from_index + k], #[trigger] out@[k]) by {
                    if ps1.len() > ps0.len() && from_index + k == ps0.len() {
                        assert(ps1[from_index + k] == i - 1);
                    } else {
                        assert(ps1[from_index + k] == ps0[from_index + k]);
                    }
                }
            }
        }
        assert(self.tokens_by_id@.take(i as int) =~= self.tokens_by_id@);
        out
    }

    /// A page of the tokens of type `token_type`, in minting order.
    pub fn nft_tokens_for_type(&self, token_type: &TokenType, from_index: u64, limit: u64) -> (r: Vec<JsonToken>)
        requires
            self.wf(),
        ensures
            ({
                let ps = type_positions(self.tokens_by_id@, token_type@);
                &&& r@.len() == page_len(ps.len(), from_index as nat, limit as nat)
                &&& forall|k: int| 0 <= k < r@.len() ==> self.json_at(ps[from_index + k], #[trigger] r@[k])
            }),
    {
        let mut out: Vec<JsonToken> = Vec::new();
        let mut seen: u64 = 0;
        let mut i: usize = 0;
        while i < self.tokens_by_id.len()
            invariant
                self.wf(),
                i <= self.tokens_by_id@.len(),
                seen <= i,
                seen == type_positions(self.tokens_by_id@.take(i as int), token_type@).len(),
                out@.len() == page_len(seen as nat, from_index as nat, limit as nat),
                forall|k: int| 0 <= k < out@.len() ==> self.json_at(
                    type_positions(self.tokens_by_id@.take(i as int), token_type@)[from_index + k], #[trigger] out@[k]),
            decreases self.tokens_by_id@.len() - i,
        {
            let ghost ps0 = type_positions(self.tokens_by_id@.take(i as int), token_type@);
            assert(self.tokens_by_id@.take(i + 1).drop_last() =~= self.tokens_by_id@.take(i as int));
            let hit = match &self.tokens_by_id[i].1.token_type {
                Some(t) => *t == *token_type,
                None => false,
            };
            if hit {
                if seen >= from_index && seen - from_index < limit {
                    out.push(self.token_json(i));
                }
                seen = seen + 1;
            }
            i = i + 1;
            proof {
                let ps1 = type_positions(self.tokens_by_id@.take(i as int), token_type@);
                assert forall|k: int| 0 <= k < out@.len() implies self.json_at(ps1[from_index + k], #[trigger] out@[k]) by {
                    if ps1.len() > ps0.len() && from_index + k == ps0.len() {
                        assert(ps1[from_index + k] == i - 1);
                    } else {
                        assert(ps1[from_index + k] == ps0[from_index + k]);
                    }
                }
            }
        }
        assert(self.tokens_by_id@.take(i as int) =~= self.tokens_by_id@);
        out
    }
}

} // verus!
