//! The asset ledger: minting, transfers, approvals and the typed supply caps
//! of its tokens.
use vstd::prelude::*;
use vstd::utf8::encode_utf8;
use vstd::string::{StringExecFns, StrSliceExecFns};
use crate::assoc::{keys_unique, has_key, as_map, lookup, find_str, lemma_as_map_dom, lemma_as_map_index,
    lemma_as_map_update, lemma_as_map_push};
use crate::error::NftError;
use crate::payout::{AccountId, Payout, bps_total, payout_for, valid_payout, compute_payout, lemma_payout_is_valid,
    MAX_ROYALTY_RECIPIENTS};
use crate::token::{Token, TokenId, TokenType, TokenMetadata, NFTMetadata};

verus! {

/// The most royalty that the contract itself may take, in basis points (10%).
pub const CONTRACT_ROYALTY_CAP: u32 = 1000;

/// The most royalty that a minter may set, in basis points (20%).
pub const MINTER_ROYALTY_CAP: u32 = 2000;

/// The host's price of one byte of storage.
pub const STORAGE_PRICE_PER_BYTE: u128 = 10_000_000_000_000_000_000;

/// The length of the account name used to measure the storage of a token.
pub const MEASURE_ACCOUNT_ID_LEN: u64 = 64;

/// The length of a string in bytes.
pub open spec fn byte_len(s: Seq<char>) -> nat {
    encode_utf8(s).len()
}

/// The storage that one approval takes: the account, a length prefix and the
/// approval id.
pub open spec fn approval_bytes(account: Seq<char>) -> nat {
    byte_len(account) + 4 + 8
}

/// The storage that a token's approvals take.
pub open spec fn approvals_bytes(s: Seq<(AccountId, u64)>) -> nat
    decreases s.len(),
{
    if s.len() == 0 {
        0
    } else {
        approvals_bytes(s.drop_last()) + approval_bytes(s.last().0@)
    }
}

/// A digit as a character.
pub open spec fn digit_char(d: nat) -> char {
    seq!['0', '1', '2', '3', '4', '5', '6', '7', '8', '9'][d as int]
}

/// The decimal digits of a number.
pub open spec fn decimal(n: nat) -> Seq<char>
    decreases n,
{
    if n < 10 {
        seq![digit_char(n)]
    } else {
        decimal(n / 10).push(digit_char(n % 10))
    }
}

/// The digit `d` as a one-character string.
fn digit_str(d: u64) -> (r: &'static str)
    requires
        d < 10,
    ensures
        r@ == seq![digit_char(d as nat)],
{
    proof {
        reveal_strlit("0");
        reveal_strlit("1");
        reveal_strlit("2");
        reveal_strlit("3");
        reveal_strlit("4");
        reveal_strlit("5");
        reveal_strlit("6");
        reveal_strlit("7");
        reveal_strlit("8");
        reveal_strlit("9");
    }
    let r = if d == 0 {
        "0"
    } else if d == 1 {
        "1"
    } else if d == 2 {
        "2"
    } else if d == 3 {
        "3"
    } else if d == 4 {
        "4"
    } else if d == 5 {
        "5"
    } else if d == 6 {
        "6"
    } else if d == 7 {
        "7"
    } else if d == 8 {
        "8"
    } else {
        "9"
    };
    assert(r@ =~= seq![digit_char(d as nat)]);
    r
}

/// The decimal digits of `n`, without sign or leading zeros.
pub fn decimal_string(n: u64) -> (r: String)
    ensures
        r@ == decimal(n as nat),
    decreases n,
{
    if n < 10 {
        <String as StringExecFns>::from_str(digit_str(n))
    } else {
        let mut s = decimal_string(n / 10);
        s.append(digit_str(n % 10));
        s
    }
}

/// How many of `tokens` have the type `t`.
pub open spec fn supply_of(tokens: Seq<(TokenId, Token)>, t: Seq<char>) -> nat
    decreases tokens.len(),
{
    if tokens.len() == 0 {
        0
    } else {
        supply_of(tokens.drop_last(), t) + if (tokens.last().1.token_type matches Some(x) && x@ == t) {
            1nat
        } else {
            0nat
        }
    }
}

/// Some name in `v` is `t`.
pub open spec fn names_contain(v: Seq<String>, t: Seq<char>) -> bool {
    exists|i: int| 0 <= i < v.len() && #[trigger] v[i]@ == t
}

proof fn lemma_names_take_step(v: Seq<String>, i: int, t: Seq<char>)
    requires
        0 <= i < v.len(),
    ensures
        names_contain(v.take(i + 1), t) <==> names_contain(v.take(i), t) || v[i]@ == t,
{
    let a = v.take(i);
    let b = v.take(i + 1);
    if names_contain(a, t) {
        let x = choose|x: int| 0 <= x < a.len() && #[trigger] a[x]@ == t;
        assert(b[x]@ == t);
    }
    if v[i]@ == t {
        assert(b[i]@ == t);
    }
    if names_contain(b, t) {
        let x = choose|x: int| 0 <= x < b.len() && #[trigger] b[x]@ == t;
        if x < i {
            assert(a[x]@ == t);
        }
    }
}

proof fn lemma_names_push(v: Seq<String>, s: String, t: Seq<char>)
    ensures
        names_contain(v.push(s), t) <==> names_contain(v, t) || s@ == t,
{
    let w = v.push(s);
    if names_contain(v, t) {
        let x = choose|x: int| 0 <= x < v.len() && #[trigger] v[x]@ == t;
        assert(w[x]@ == t);
    }
    if s@ == t {
        assert(w[v.len() as int]@ == t);
    }
    if names_contain(w, t) {
        let x = choose|x: int| 0 <= x < w.len() && #[trigger] w[x]@ == t;
        if x < v.len() {
            assert(v[x]@ == t);
        }
    }
}

/// A token record within the ledger's rules.
pub open spec fn token_ok(t: Token) -> bool {
    &&& keys_unique(t.approved_account_ids@)
    &&& keys_unique(t.royalty@)
    &&& bps_total(t.royalty@) <= MINTER_ROYALTY_CAP
    &&& t.royalty@.len() <= MAX_ROYALTY_RECIPIENTS
    &&& approvals_bytes(t.approved_account_ids@) <= u64::MAX
}

/// The whole state of the asset ledger.
pub struct Contract {
    pub owner_id: AccountId,
    /// The tokens, in the order they were minted, one per id.
    pub tokens_by_id: Vec<(TokenId, Token)>,
    /// The tokens' records, in the same order.
    pub token_metadata_by_id: Vec<(TokenId, TokenMetadata)>,
    /// The storage, in bytes, that a token takes beside its own entries.
    pub extra_storage_in_bytes_per_token: u64,
    pub metadata: NFTMetadata,
    /// Token type to supply cap, one entry per type.
    pub supply_cap_by_type: Vec<(TokenType, u64)>,
    /// The token types whose transfers are locked.
    pub token_types_locked: Vec<TokenType>,
    /// The contract's own royalty, in basis points.
    pub contract_royalty: u32,
}

impl Contract {
    pub open spec fn has_token(&self, id: Seq<char>) -> bool {
        has_key(self.tokens_by_id@, id)
    }

    pub open spec fn token_pos(&self, id: Seq<char>) -> int {
        choose|i: int| 0 <= i < self.tokens_by_id@.len() && #[trigger] self.tokens_by_id@[i].0@ == id
    }

    /// The token with id `id`.
    pub open spec fn token(&self, id: Seq<char>) -> Token {
        self.tokens_by_id@[self.token_pos(id)].1
    }

    /// The supply cap of the type `t`, if it has one.
    pub open spec fn cap_of(&self, t: Seq<char>) -> Option<u64> {
        lookup(self.supply_cap_by_type@, t)
    }

    /// Transfers of the type `t` are locked.
    pub open spec fn type_locked(&self, t: Seq<char>) -> bool {
        names_contain(self.token_types_locked@, t)
    }

    pub open spec fn wf(&self) -> bool {
        &&& keys_unique(self.tokens_by_id@)
        &&& self.token_metadata_by_id@.len() == self.tokens_by_id@.len()
        &&& forall|i: int| 0 <= i < self.tokens_by_id@.len()
            ==> #[trigger] self.token_metadata_by_id@[i].0@ == self.tokens_by_id@[i].0@
        &&& forall|i: int| 0 <= i < self.tokens_by_id@.len() ==> token_ok(#[trigger] self.tokens_by_id@[i].1)
        &&& keys_unique(self.supply_cap_by_type@)
    }

    /// Why minting would be refused, if it would.
    pub open spec fn mint_refusal(
        &self,
        id: Seq<char>,
        royalties: Seq<(AccountId, u32)>,
        token_type: Option<TokenType>,
    ) -> Option<NftError> {
        if royalties.len() > MAX_ROYALTY_RECIPIENTS {
            Some(NftError::TooManyRoyaltyRecipients)
        } else if bps_total(royalties) > MINTER_ROYALTY_CAP {
            Some(NftError::RoyaltyCapExceeded)
        } else if token_type is Some && self.cap_of(token_type->Some_0@) is None {
            Some(NftError::UnknownTokenType)
        } else if token_type is Some && supply_of(self.tokens_by_id@, token_type->Some_0@)
            >= self.cap_of(token_type->Some_0@)->Some_0 {
            Some(NftError::SupplyCapReached)
        } else if self.has_token(id) {
            Some(NftError::TokenExists)
        } else {
            None
        }
    }
}

/// Finds the token `id`; with unique ids the index is the one `token_pos` names.
proof fn lemma_token_pos(c: Contract, i: int)
    requires
        keys_unique(c.tokens_by_id@),
        0 <= i < c.tokens_by_id@.len(),
    ensures
        c.has_token(c.tokens_by_id@[i].0@),
        c.token_pos(c.tokens_by_id@[i].0@) == i,
{
    let k = c.tokens_by_id@[i].0@;
    assert(c.tokens_by_id@[i].0@ == k);
    let p = c.token_pos(k);
    assert(c.tokens_by_id@[p].0@ == k);
}

proof fn lemma_supply_prefix(tokens: Seq<(TokenId, Token)>, i: int, t: Seq<char>)
    requires
        0 <= i <= tokens.len(),
    ensures
        supply_of(tokens.take(i), t) <= i,
    decreases i,
{
    if i > 0 {
        assert(tokens.take(i).drop_last() =~= tokens.take(i - 1));
        lemma_supply_prefix(tokens, i - 1, t);
    }
}

impl Contract {
    /// A ledger with no token, owned by `owner_id`, with the supply caps given;
    /// with `locked` set, transfers of every capped type start locked.
    pub fn new(
        owner_id: AccountId,
        metadata: NFTMetadata,
        supply_cap_by_type: Vec<(TokenType, u64)>,
        locked: Option<bool>,
    ) -> (r: Contract)
        requires
            keys_unique(supply_cap_by_type@),
        ensures
            r.wf(),
            r.owner_id == owner_id,
            r.metadata == metadata,
            r.tokens_by_id@.len() == 0,
            r.supply_cap_by_type == supply_cap_by_type,
            r.extra_storage_in_bytes_per_token == 0,
            r.contract_royalty == 0,
            forall|t: Seq<char>| #[trigger] r.type_locked(t) <==> locked == Some(true) && has_key(supply_cap_by_type@, t),
    {
        let mut locked_types: Vec<TokenType> = Vec::new();
        if let Some(true) = locked {
            let mut i: usize = 0;
            while i < supply_cap_by_type.len()
                invariant
                    i <= supply_cap_by_type@.len(),
                    locked_types@.len() == i,
                    forall|j: int| 0 <= j < i ==> #[trigger] locked_types@[j]@ == supply_cap_by_type@[j].0@,
                decreases supply_cap_by_type@.len() - i,
            {
                locked_types.push(supply_cap_by_type[i].0.clone());
                i = i + 1;
            }
        }
        let r = Contract {
            owner_id,
            tokens_by_id: Vec::new(),
            token_metadata_by_id: Vec::new(),
            extra_storage_in_bytes_per_token: 0,
            metadata,
            supply_cap_by_type,
            token_types_locked: locked_types,
            contract_royalty: 0,
        };
        assert forall|t: Seq<char>| #[trigger] r.type_locked(t) <==> locked == Some(true) && has_key(r.supply_cap_by_type@, t) by {
            if has_key(r.supply_cap_by_type@, t) && locked == Some(true) {
                let j = choose|j: int| 0 <= j < r.supply_cap_by_type@.len() && #[trigger] r.supply_cap_by_type@[j].0@ == t;
                assert(r.token_types_locked@[j]@ == t);
            }
        }
        r
    }

    /// Records the storage that a token takes beside its own entries, given the
    /// size of an owner's entry as measured for an account name of the longest
    /// length; the owner's own name is shorter by the difference.
    pub fn measure_min_token_storage_cost(&mut self, tokens_per_owner_entry_in_bytes: u64)
        requires
            byte_len(old(self).owner_id@) <= MEASURE_ACCOUNT_ID_LEN,
            tokens_per_owner_entry_in_bytes + MEASURE_ACCOUNT_ID_LEN <= u64::MAX,
        ensures
            final(self).extra_storage_in_bytes_per_token
                == tokens_per_owner_entry_in_bytes + (MEASURE_ACCOUNT_ID_LEN - byte_len(old(self).owner_id@)),
            final(self).owner_id == old(self).owner_id,
            final(self).tokens_by_id == old(self).tokens_by_id,
            final(self).token_metadata_by_id == old(self).token_metadata_by_id,
            final(self).supply_cap_by_type == old(self).supply_cap_by_type,
            final(self).token_types_locked == old(self).token_types_locked,
            final(self).contract_royalty == old(self).contract_royalty,
            final(self).metadata == old(self).metadata,
    {
        let owner_len = self.owner_id.as_str().len() as u64;
        self.extra_storage_in_bytes_per_token = tokens_per_owner_entry_in_bytes + (MEASURE_ACCOUNT_ID_LEN - owner_len);
    }

    /// How many tokens have the type `token_type`.
    pub fn nft_supply_for_type(&self, token_type: &String) -> (r: u64)
        ensures
            r == supply_of(self.tokens_by_id@, token_type@),
    {
        let mut n: u64 = 0;
        let mut i: usize = 0;
        while i < self.tokens_by_id.len()
            invariant
                i <= self.tokens_by_id@.len(),
                n == supply_of(self.tokens_by_id@.take(i as int), token_type@),
            decreases self.tokens_by_id@.len() - i,
        {
            assert(self.tokens_by_id@.take(i + 1).drop_last() =~= self.tokens_by_id@.take(i as int));
            proof {
                lemma_supply_prefix(self.tokens_by_id@, i as int, token_type@);
            }
            let hit = match &self.tokens_by_id[i].1.token_type {
                Some(t) => *t == *token_type,
                None => false,
            };
            if hit {
                n = n + 1;
            }
            i = i + 1;
        }
        assert(self.tokens_by_id@.take(i as int) =~= self.tokens_by_id@);
        n
    }

    /// The supply cap of a token type, if it has one.
    fn cap_for_type(&self, token_type: &TokenType) -> (r: Option<u64>)
        requires
            keys_unique(self.supply_cap_by_type@),
        ensures
            r == self.cap_of(token_type@),
    {
        proof {
            lemma_as_map_dom(self.supply_cap_by_type@);
        }
        match find_str(&self.supply_cap_by_type, token_type) {
            Some(i) => {
                proof {
                    lemma_as_map_index(self.supply_cap_by_type@, i as int);
                }
                Some(self.supply_cap_by_type[i].1)
            },
            None => None,
        }
    }

    /// Mints a token for `receiver_id`, or for the caller if none is named,
    /// with the id given or else the next number. The royalty table may name
    /// at most five holders and add up to at most 20%; a typed token needs a
    /// supply cap for its type, not yet reached. Returns the token's id.
    pub fn nft_mint(
        &mut self,
        predecessor_id: &AccountId,
        token_id: Option<TokenId>,
        metadata: TokenMetadata,
        perpetual_royalties: Option<Vec<(AccountId, u32)>>,
        receiver_id: Option<AccountId>,
        token_type: Option<TokenType>,
    ) -> (r: Result<TokenId, NftError>)
        requires
            old(self).wf(),
            old(self).tokens_by_id@.len() < u64::MAX,
            perpetual_royalties matches Some(v) ==> keys_unique(v@),
        ensures
            final(self).wf(),
            ({
                let id = match token_id {
                    Some(t) => t@,
                    None => decimal((old(self).tokens_by_id@.len() + 1) as nat),
                };
                let royalties = match perpetual_royalties {
                    Some(v) => v@,
                    None => Seq::empty(),
                };
                &&& old(self).mint_refusal(id, royalties, token_type) matches Some(e) ==> r == Err::<TokenId, NftError>(e)
                    && *final(self) == *old(self)
                &&& old(self).mint_refusal(id, royalties, token_type) is None ==> r is Ok
                &&& r is Ok ==> {
                    let new_token = final(self).tokens_by_id@.last().1;
                    &&& r->Ok_0@ == id
                    &&& final(self).tokens_by_id@.len() == old(self).tokens_by_id@.len() + 1
                    &&& final(self).tokens_by_id@.drop_last() == old(self).tokens_by_id@
                    &&& final(self).token_metadata_by_id@.drop_last() == old(self).token_metadata_by_id@
                    &&& final(self).tokens_by_id@.last().0@ == id
                    &&& final(self).token_metadata_by_id@.last().1 == metadata
                    &&& new_token.owner_id == match receiver_id {
                        Some(a) => a,
                        None => *predecessor_id,
                    }
                    &&& new_token.approved_account_ids@.len() == 0
                    &&& new_token.next_approval_id == 0
                    &&& new_token.royalty@ == royalties
                    &&& new_token.token_type == token_type
                    &&& final(self).has_token(id)
                    &&& final(self).owner_id == old(self).owner_id
                    &&& final(self).supply_cap_by_type == old(self).supply_cap_by_type
                    &&& final(self).token_types_locked == old(self).token_types_locked
                    &&& final(self).contract_royalty == old(self).contract_royalty
                }
            }),
    {
        let final_token_id = match token_id {
            Some(t) => t,
            None => decimal_string(self.tokens_by_id.len() as u64 + 1),
        };
        let owner_id = match receiver_id {
            Some(a) => a,
            None => predecessor_id.clone(),
        };
        let royalty = match perpetual_royalties {
            Some(v) => v,
            None => Vec::new(),
        };
        if royalty.len() > MAX_ROYALTY_RECIPIENTS {
            return Err(NftError::TooManyRoyaltyRecipients);
        }
        let mut total_perpetual: u64 = 0;
        let mut i: usize = 0;
        while i < royalty.len()
            invariant
                i <= royalty@.len(),
                royalty@.len() <= MAX_ROYALTY_RECIPIENTS,
                total_perpetual == bps_total(royalty@.take(i as int)),
                total_perpetual <= i * 0x1_0000_0000,
            decreases royalty@.len() - i,
        {
            assert(royalty@.take(i + 1).drop_last() =~= royalty@.take(i as int));
            total_perpetual = total_perpetual + royalty[i].1 as u64;
            i = i + 1;
        }
        assert(royalty@.take(i as int) =~= royalty@);
        if total_perpetual > MINTER_ROYALTY_CAP as u64 {
            return Err(NftError::RoyaltyCapExceeded);
        }
        if let Some(t) = &token_type {
            let cap = match self.cap_for_type(t) {
                Some(c) => c,
                None => {
                    return Err(NftError::UnknownTokenType);
                },
            };
            let supply = self.nft_supply_for_type(t);
            if supply >= cap {
                return Err(NftError::SupplyCapReached);
            }
        }
        proof {
            lemma_as_map_dom(self.tokens_by_id@);
        }
        if let Some(_) = find_str(&self.tokens_by_id, &final_token_id) {
            return Err(NftError::TokenExists);
        }
        let ghost before = *self;
        let token = Token {
            owner_id,
            approved_account_ids: Vec::new(),
            next_approval_id: 0,
            royalty,
            token_type,
        };
        let e = (final_token_id.clone(), token);
        proof {
            lemma_as_map_push(before.tokens_by_id@, e);
            assert(approvals_bytes(e.1.approved_account_ids@) == 0);
        }
        self.tokens_by_id.push(e);
        self.token_metadata_by_id.push((final_token_id.clone(), metadata));
        proof {
            assert(self.tokens_by_id@.drop_last() =~= before.tokens_by_id@);
            assert(self.token_metadata_by_id@.drop_last() =~= before.token_metadata_by_id@);
            let n = before.tokens_by_id@.len() as int;
            assert forall|j: int| 0 <= j < self.tokens_by_id@.len() implies token_ok(#[trigger] self.tokens_by_id@[j].1) by {
                if j < n {
                    assert(self.tokens_by_id@[j] == before.tokens_by_id@[j]);
                }
            }
            assert forall|j: int| 0 <= j < self.tokens_by_id@.len()
                implies #[trigger] self.token_metadata_by_id@[j].0@ == self.tokens_by_id@[j].0@ by {
                if j < n {
                    assert(self.tokens_by_id@[j] == before.tokens_by_id@[j]);
                    assert(self.token_metadata_by_id@[j] == before.token_metadata_by_id@[j]);
                }
            }
            lemma_token_pos(*self, n);
        }
        Ok(final_token_id)
    }
}

/// Replacing a token by one within the rules under the same id keeps the
/// ledger well formed.
pub proof fn lemma_wf_replace_token(c1: Contract, c2: Contract, i: int)
    requires
        c1.wf(),
        0 <= i < c1.tokens_by_id@.len(),
        c2.tokens_by_id@ == c1.tokens_by_id@.update(i, c2.tokens_by_id@[i]),
        c2.tokens_by_id@[i].0@ == c1.tokens_by_id@[i].0@,
        token_ok(c2.tokens_by_id@[i].1),
        c2.token_metadata_by_id == c1.token_metadata_by_id,
        c2.supply_cap_by_type == c1.supply_cap_by_type,
    ensures
        c2.wf(),
        c2.has_token(c1.tokens_by_id@[i].0@),
        c2.token_pos(c1.tokens_by_id@[i].0@) == i,
{
    lemma_as_map_update(c1.tokens_by_id@, i, c2.tokens_by_id@[i]);
    assert forall|j: int| 0 <= j < c2.tokens_by_id@.len() implies token_ok(#[trigger] c2.tokens_by_id@[j].1) by {
        if j != i {
            assert(c2.tokens_by_id@[j] == c1.tokens_by_id@[j]);
        }
    }
    assert forall|j: int| 0 <= j < c2.tokens_by_id@.len()
        implies #[trigger] c2.token_metadata_by_id@[j].0@ == c2.tokens_by_id@[j].0@ by {
        assert(c1.token_metadata_by_id@[j].0@ == c1.tokens_by_id@[j].0@);
    }
    lemma_token_pos(c2, i);
}

proof fn lemma_approvals_bytes_prefix(s: Seq<(AccountId, u64)>, i: int)
    requires
        0 <= i <= s.len(),
    ensures
        approvals_bytes(s.take(i)) <= approvals_bytes(s),
        i < s.len() ==> approvals_bytes(s.take(i)) + approval_bytes(s[i].0@) <= approvals_bytes(s),
    decreases s.len(),
{
    if i < s.len() {
        assert(s.drop_last().take(i) =~= s.take(i));
        lemma_approvals_bytes_prefix(s.drop_last(), i);
        if i < s.len() - 1 {
            assert(s.drop_last()[i] == s[i]);
        } else {
            assert(s.take(i) =~= s.drop_last());
        }
    } else {
        assert(s.take(i) =~= s);
    }
}

pub proof fn lemma_approvals_bytes_remove(s: Seq<(AccountId, u64)>, i: int)
    requires
        0 <= i < s.len(),
    ensures
        approvals_bytes(s.remove(i)) + approval_bytes(s[i].0@) == approvals_bytes(s),
    decreases s.len(),
{
    let t = s.remove(i);
    if i < s.len() - 1 {
        assert(t.drop_last() =~= s.drop_last().remove(i));
        assert(t.last() == s.last());
        assert(s.drop_last()[i] == s[i]);
        lemma_approvals_bytes_remove(s.drop_last(), i);
    } else {
        assert(t =~= s.drop_last());
    }
}

pub proof fn lemma_approvals_bytes_update(s: Seq<(AccountId, u64)>, i: int, e: (AccountId, u64))
    requires
        0 <= i < s.len(),
        e.0@ == s[i].0@,
    ensures
        approvals_bytes(s.update(i, e)) == approvals_bytes(s),
    decreases s.len(),
{
    let t = s.update(i, e);
    if i < s.len() - 1 {
        assert(t.drop_last() =~= s.drop_last().update(i, e));
        lemma_approvals_bytes_update(s.drop_last(), i, e);
    } else {
        assert(t.drop_last() =~= s.drop_last());
    }
}

/// The storage that one approval of `account_id` takes, in bytes.
pub fn bytes_for_approved_account_id(account_id: &AccountId) -> (r: u64)
    requires
        approval_bytes(account_id@) <= u64::MAX,
    ensures
        r == approval_bytes(account_id@),
{
    let b = account_id.as_str().as_bytes();
    let n = b.len();
    assert(n as nat == byte_len(account_id@));
    n as u64 + 4 + 8
}

/// The storage that a set of approvals takes, in bytes.
pub fn approvals_storage(approved_account_ids: &Vec<(AccountId, u64)>) -> (r: u64)
    requires
        approvals_bytes(approved_account_ids@) <= u64::MAX,
    ensures
        r == approvals_bytes(approved_account_ids@),
{
    let mut total: u64 = 0;
    let mut i: usize = 0;
    while i < approved_account_ids.len()
        invariant
            i <= approved_account_ids@.len(),
            approvals_bytes(approved_account_ids@) <= u64::MAX,
            total == approvals_bytes(approved_account_ids@.take(i as int)),
        decreases approved_account_ids@.len() - i,
    {
        proof {
            lemma_approvals_bytes_prefix(approved_account_ids@, i as int);
        }
        assert(approved_account_ids@.take(i + 1).drop_last() =~= approved_account_ids@.take(i as int));
        total = total + bytes_for_approved_account_id(&approved_account_ids[i].0);
        i = i + 1;
    }
    assert(approved_account_ids@.take(i as int) =~= approved_account_ids@);
    total
}

/// What releasing the storage of a set of approvals refunds: its bytes at the
/// host's price.
pub fn refund_approved_account_ids(approved_account_ids: &Vec<(AccountId, u64)>) -> (r: u128)
    requires
        approvals_bytes(approved_account_ids@) <= u64::MAX,
    ensures
        r == approvals_bytes(approved_account_ids@) * STORAGE_PRICE_PER_BYTE,
{
    let bytes = approvals_storage(approved_account_ids);
    assert(bytes * STORAGE_PRICE_PER_BYTE <= u128::MAX) by (nonlinear_arith)
        requires bytes <= u64::MAX;
    bytes as u128 * STORAGE_PRICE_PER_BYTE
}

/// What is left of a deposit once `storage_used` bytes are paid for, or an
/// error if the deposit does not cover them.
pub fn refund_deposit(storage_used: u64, attached_deposit: u128) -> (r: Result<u128, NftError>)
    ensures
        storage_used * STORAGE_PRICE_PER_BYTE > attached_deposit
            ==> r == Err::<u128, NftError>(NftError::InsufficientStorageDeposit),
        storage_used * STORAGE_PRICE_PER_BYTE <= attached_deposit
            ==> r == Ok::<u128, NftError>((attached_deposit - storage_used * STORAGE_PRICE_PER_BYTE) as u128),
{
    assert(storage_used * STORAGE_PRICE_PER_BYTE <= u128::MAX) by (nonlinear_arith)
        requires storage_used <= u64::MAX;
    let required_cost = storage_used as u128 * STORAGE_PRICE_PER_BYTE;
    if required_cost > attached_deposit {
        return Err(NftError::InsufficientStorageDeposit);
    }
    Ok(attached_deposit - required_cost)
}

/// The field that an approval message gains to carry the token's type.
pub open spec fn token_type_field(token_type: Seq<char>) -> Seq<char> {
    seq![',', ' ', '"', 't', 'o', 'k', 'e', 'n', '_', 't', 'y', 'p', 'e', '"', ':', '"'] + token_type + seq!['"']
}

/// An approval message with the token type's field put before its last
/// character (the closing brace of a JSON object).
pub open spec fn message_with_type(msg: Seq<char>, token_type: Seq<char>) -> Seq<char> {
    msg.drop_last() + token_type_field(token_type) + seq![msg.last()]
}

/// Puts the field that carries the token's type into an approval message,
/// before its last character.
pub fn add_token_type_to_msg(msg: &String, token_type: &String) -> (r: String)
    requires
        msg@.len() > 0,
    ensures
        r@ == message_with_type(msg@, token_type@),
{
    let m = msg.as_str();
    let n = m.unicode_len();
    let head = m.substring_char(0, n - 1);
    let last = m.substring_char(n - 1, n);
    let mut out = <String as StringExecFns>::from_str(head);
    out.append(", \"token_type\":\"");
    out.append(token_type.as_str());
    out.append("\"");
    out.append(last);
    proof {
        reveal_strlit(", \"token_type\":\"");
        reveal_strlit("\"");
        assert(msg@.subrange(n - 1, n as int) =~= seq![msg@.last()]);
        assert(msg@.subrange(0, n - 1) =~= msg@.drop_last());
        assert(out@ =~= message_with_type(msg@, token_type@));
    }
    out
}

/// A token after a transfer to `receiver`: the new owner, no approvals, the
/// rest kept.
pub open spec fn moved_token(new: Token, old: Token, receiver: Seq<char>) -> bool {
    &&& new.owner_id@ == receiver
    &&& new.approved_account_ids@.len() == 0
    &&& new.next_approval_id == old.next_approval_id
    &&& new.royalty@ == old.royalty@
    &&& new.token_type == old.token_type
}

/// The request that tells an approved account of its approval.
pub struct ApprovalNotice {
    /// The approved account, to be told.
    pub account_id: AccountId,
    pub token_id: TokenId,
    pub owner_id: AccountId,
    pub approval_id: u64,
    /// The caller's message, carrying the token's type.
    pub msg: String,
}

/// The result of an approval.
pub struct Approval {
    pub approval_id: u64,
    /// What is left of the deposit once the approval's storage is paid.
    pub refund: u128,
    /// Present when the caller sent a message and the token has a type.
    pub notice: Option<ApprovalNotice>,
}

impl Contract {
    /// Why a transfer would be refused, if it would.
    pub open spec fn transfer_refusal(&self, sender: Seq<char>, receiver: Seq<char>, id: Seq<char>, approval_id: Option<u64>) -> Option<NftError> {
        if !self.has_token(id) {
            Some(NftError::TokenNotFound)
        } else {
            let t = self.token(id);
            let approvals = as_map(t.approved_account_ids@);
            if t.token_type is Some && self.type_locked(t.token_type->Some_0@) {
                Some(NftError::TransfersLocked)
            } else if sender != t.owner_id@ && !approvals.contains_key(sender) {
                Some(NftError::Unauthorized)
            } else if approval_id is Some && !approvals.contains_key(sender) {
                Some(NftError::SenderNotApproved)
            } else if approval_id is Some && approvals[sender] != approval_id->Some_0 {
                Some(NftError::ApprovalIdMismatch)
            } else if t.owner_id@ == receiver {
                Some(NftError::SameOwnerAndReceiver)
            } else {
                None
            }
        }
    }

    /// Transfers of the type are locked.
    pub fn is_type_locked(&self, token_type: &TokenType) -> (r: bool)
        ensures
            r == self.type_locked(token_type@),
    {
        let mut i: usize = 0;
        while i < self.token_types_locked.len()
            invariant
                i <= self.token_types_locked@.len(),
                forall|j: int| 0 <= j < i ==> #[trigger] self.token_types_locked@[j]@ != token_type@,
            decreases self.token_types_locked@.len() - i,
        {
            if self.token_types_locked[i] == *token_type {
                return true;
            }
            i = i + 1;
        }
        false
    }

    pub fn find_token(&self, token_id: &TokenId) -> (r: Option<usize>)
        requires
            self.wf(),
        ensures
            match r {
                Some(i) => i < self.tokens_by_id@.len() && self.has_token(token_id@) && i == self.token_pos(token_id@)
                    && self.tokens_by_id@[i as int].0@ == token_id@,
                None => !self.has_token(token_id@),
            },
    {
        let r = find_str(&self.tokens_by_id, token_id);
        proof {
            if let Some(i) = r {
                lemma_token_pos(*self, i as int);
            }
        }
        r
    }

    /// Moves a token from its owner to `receiver_id`, on behalf of `sender_id`,
    /// who must own the token or be approved for it (with the approval id
    /// given, if one is). The token's approvals are cleared. Returns the token
    /// as it was.
    pub fn internal_transfer(
        &mut self,
        sender_id: &AccountId,
        receiver_id: &AccountId,
        token_id: &TokenId,
        approval_id: Option<u64>,
    ) -> (r: Result<Token, NftError>)
        requires
            old(self).wf(),
        ensures
            final(self).wf(),
            old(self).transfer_refusal(sender_id@, receiver_id@, token_id@, approval_id) matches Some(e)
                ==> r == Err::<Token, NftError>(e) && *final(self) == *old(self),
            old(self).transfer_refusal(sender_id@, receiver_id@, token_id@, approval_id) is None ==> r is Ok,
            r is Ok ==> {
                let i = old(self).token_pos(token_id@);
                &&& r->Ok_0 == old(self).token(token_id@)
                &&& final(self).tokens_by_id@ == old(self).tokens_by_id@.update(i, final(self).tokens_by_id@[i])
                &&& final(self).tokens_by_id@[i].0@ == token_id@
                &&& moved_token(final(self).tokens_by_id@[i].1, old(self).token(token_id@), receiver_id@)
                &&& final(self).has_token(token_id@)
                &&& final(self).token(token_id@) == final(self).tokens_by_id@[i].1
                &&& final(self).token_metadata_by_id == old(self).token_metadata_by_id
                &&& final(self).extra_storage_in_bytes_per_token == old(self).extra_storage_in_bytes_per_token
                &&& final(self).owner_id == old(self).owner_id
                &&& final(self).supply_cap_by_type == old(self).supply_cap_by_type
                &&& final(self).token_types_locked == old(self).token_types_locked
                &&& final(self).contract_royalty == old(self).contract_royalty
            },
    {
        let i = match self.find_token(token_id) {
            Some(i) => i,
            None => {
                return Err(NftError::TokenNotFound);
            },
        };
        let ghost t = self.tokens_by_id@[i as int].1;
        proof {
            assert(token_ok(t));
            lemma_as_map_dom(t.approved_account_ids@);
        }
        if let Some(tt) = &self.tokens_by_id[i].1.token_type {
            if self.is_type_locked(tt) {
                return Err(NftError::TransfersLocked);
            }
        }
        let approval = find_str(&self.tokens_by_id[i].1.approved_account_ids, sender_id);
        if *sender_id != self.tokens_by_id[i].1.owner_id && approval.is_none() {
            return Err(NftError::Unauthorized);
        }
        if let Some(enforced) = approval_id {
            let j = match approval {
                Some(j) => j,
                None => {
                    return Err(NftError::SenderNotApproved);
                },
            };
            proof {
                lemma_as_map_index(t.approved_account_ids@, j as int);
            }
            if self.tokens_by_id[i].1.approved_account_ids[j].1 != enforced {
                return Err(NftError::ApprovalIdMismatch);
            }
        }
        if self.tokens_by_id[i].1.owner_id == *receiver_id {
            return Err(NftError::SameOwnerAndReceiver);
        }
        let ghost before = *self;
        let (key, token) = self.tokens_by_id.remove(i);
        let new_token = Token {
            owner_id: receiver_id.clone(),
            approved_account_ids: Vec::new(),
            next_approval_id: token.next_approval_id,
            royalty: crate::token::copy_entries(&token.royalty),
            token_type: crate::token::copy_opt_string(&token.token_type),
        };
        proof {
            assert(approvals_bytes(new_token.approved_account_ids@) == 0);
        }
        self.tokens_by_id.insert(i, (key, new_token));
        proof {
            assert(self.tokens_by_id@ =~= before.tokens_by_id@.update(i as int, self.tokens_by_id@[i as int]));
            lemma_wf_replace_token(before, *self, i as int);
        }
        Ok(token)
    }
}

/// Why adding one token type would be refused, if it would.
pub open spec fn type_entry_refusal(c: Contract, e: (TokenType, u64), lock: bool) -> Option<NftError> {
    if lock && c.type_locked(e.0@) {
        Some(NftError::TokenTypeAlreadyLocked)
    } else if has_key(c.supply_cap_by_type@, e.0@) {
        Some(NftError::TokenTypeExists)
    } else {
        None
    }
}

/// The refusal of the first entry, in order, that would be refused.
pub open spec fn first_type_refusal(c: Contract, s: Seq<(TokenType, u64)>, lock: bool) -> Option<NftError>
    decreases s.len(),
{
    if s.len() == 0 {
        None
    } else {
        match first_type_refusal(c, s.drop_last(), lock) {
            Some(e) => Some(e),
            None => type_entry_refusal(c, s.last(), lock),
        }
    }
}

impl Contract {
    /// Sets the contract's own royalty, at most 10%. Only the owner may.
    pub fn set_contract_royalty(&mut self, predecessor_id: &AccountId, contract_royalty: u32) -> (r: Result<(), NftError>)
        ensures
            predecessor_id@ != old(self).owner_id@ ==> r == Err::<(), NftError>(NftError::NotOwner),
            predecessor_id@ == old(self).owner_id@ && contract_royalty > CONTRACT_ROYALTY_CAP
                ==> r == Err::<(), NftError>(NftError::ContractRoyaltyTooHigh),
            r is Err ==> *final(self) == *old(self),
            r is Ok <==> predecessor_id@ == old(self).owner_id@ && contract_royalty <= CONTRACT_ROYALTY_CAP,
            r is Ok ==> *final(self) == (Contract { contract_royalty, ..*old(self) }),
    {
        if *predecessor_id != self.owner_id {
            return Err(NftError::NotOwner);
        }
        if contract_royalty > CONTRACT_ROYALTY_CAP {
            return Err(NftError::ContractRoyaltyTooHigh);
        }
        self.contract_royalty = contract_royalty;
        Ok(())
    }

    /// The contract's own royalty.
    pub fn get_contract_royalty(&self) -> (r: u32)
        ensures
            r == self.contract_royalty,
    {
        self.contract_royalty
    }

    /// The supply caps by token type.
    pub fn get_supply_caps(&self) -> (r: Vec<(TokenType, u64)>)
        ensures
            r@ == self.supply_cap_by_type@,
    {
        crate::token::copy_entries(&self.supply_cap_by_type)
    }

    /// The token types whose transfers are locked.
    pub fn get_token_types_locked(&self) -> (r: Vec<TokenType>)
        ensures
            r@ == self.token_types_locked@,
    {
        crate::token::copy_strings(&self.token_types_locked)
    }

    /// Whether transfers of the token's type are locked; the token must exist
    /// and have a type.
    pub fn is_token_locked(&self, token_id: &TokenId) -> (r: Result<bool, NftError>)
        requires
            self.wf(),
        ensures
            !self.has_token(token_id@) ==> r == Err::<bool, NftError>(NftError::TokenNotFound),
            self.has_token(token_id@) && self.token(token_id@).token_type is None
                ==> r == Err::<bool, NftError>(NftError::TokenHasNoType),
            self.has_token(token_id@) && self.token(token_id@).token_type is Some
                ==> r == Ok::<bool, NftError>(self.type_locked(self.token(token_id@).token_type->Some_0@)),
    {
        let i = match self.find_token(token_id) {
            Some(i) => i,
            None => {
                return Err(NftError::TokenNotFound);
            },
        };
        match &self.tokens_by_id[i].1.token_type {
            Some(t) => Ok(self.is_type_locked(t)),
            None => Err(NftError::TokenHasNoType),
        }
    }

    /// Adds supply caps for new token types, locking their transfers if asked.
    /// Only the owner may; a type that has a cap already, or is locked already
    /// when locking is asked, is refused, and then nothing is added.
    pub fn add_token_types(&mut self, predecessor_id: &AccountId, supply_cap_by_type: Vec<(TokenType, u64)>, locked: Option<bool>) -> (r: Result<(), NftError>)
        requires
            old(self).wf(),
            keys_unique(supply_cap_by_type@),
        ensures
            final(self).wf(),
            r is Err ==> *final(self) == *old(self),
            predecessor_id@ != old(self).owner_id@ ==> r == Err::<(), NftError>(NftError::NotOwner),
            predecessor_id@ == old(self).owner_id@ ==> match first_type_refusal(*old(self), supply_cap_by_type@, locked == Some(true)) {
                Some(e) => r == Err::<(), NftError>(e),
                None => r is Ok,
            },
            r is Ok ==> {
                &&& final(self).supply_cap_by_type@ == old(self).supply_cap_by_type@ + supply_cap_by_type@
                &&& forall|t: Seq<char>| #[trigger] final(self).type_locked(t) <==> old(self).type_locked(t)
                    || (locked == Some(true) && has_key(supply_cap_by_type@, t))
                &&& final(self).tokens_by_id == old(self).tokens_by_id
                &&& final(self).token_metadata_by_id == old(self).token_metadata_by_id
                &&& final(self).owner_id == old(self).owner_id
                &&& final(self).contract_royalty == old(self).contract_royalty
            },
    {
        if *predecessor_id != self.owner_id {
            return Err(NftError::NotOwner);
        }
        let lock = match locked {
            Some(b) => b,
            None => false,
        };
        let mut i: usize = 0;
        while i < supply_cap_by_type.len()
            invariant
                i <= supply_cap_by_type@.len(),
                lock == (locked == Some(true)),
                *self == *old(self),
                self.wf(),
                predecessor_id@ == self.owner_id@,
                first_type_refusal(*self, supply_cap_by_type@.take(i as int), lock) is None,
                keys_unique(self.supply_cap_by_type@),
            decreases supply_cap_by_type@.len() - i,
        {
            assert(supply_cap_by_type@.take(i + 1).drop_last() =~= supply_cap_by_type@.take(i as int));
            let t = &supply_cap_by_type[i].0;
            proof {
                lemma_first_refusal_prefix(*self, supply_cap_by_type@, i + 1, lock);
                assert(supply_cap_by_type@.take(i + 1).last() == supply_cap_by_type@[i as int]);
            }
            if lock && self.is_type_locked(t) {
                assert(first_type_refusal(*self, supply_cap_by_type@.take(i + 1), lock)
                    == Some(NftError::TokenTypeAlreadyLocked));
                return Err(NftError::TokenTypeAlreadyLocked);
            }
            proof {
                lemma_as_map_dom(self.supply_cap_by_type@);
            }
            if let Some(x) = find_str(&self.supply_cap_by_type, t) {
                assert(has_key(self.supply_cap_by_type@, self.supply_cap_by_type@[x as int].0@));
                assert(first_type_refusal(*self, supply_cap_by_type@.take(i + 1), lock)
                    == Some(NftError::TokenTypeExists));
                return Err(NftError::TokenTypeExists);
            }
            i = i + 1;
        }
        assert(supply_cap_by_type@.take(i as int) =~= supply_cap_by_type@);
        let ghost before = *self;
        let mut j: usize = 0;
        while j < supply_cap_by_type.len()
            invariant
                j <= supply_cap_by_type@.len(),
                lock == (locked == Some(true)),
                keys_unique(supply_cap_by_type@),
                first_type_refusal(before, supply_cap_by_type@, lock) is None,
                before.wf(),
                self.wf(),
                self.supply_cap_by_type@ == before.supply_cap_by_type@ + supply_cap_by_type@.take(j as int),
                forall|t: Seq<char>| #[trigger] self.type_locked(t) <==> before.type_locked(t)
                    || (lock && has_key(supply_cap_by_type@.take(j as int), t)),
                self.tokens_by_id == before.tokens_by_id,
                self.token_metadata_by_id == before.token_metadata_by_id,
                self.owner_id == before.owner_id,
                self.contract_royalty == before.contract_royalty,
            decreases supply_cap_by_type@.len() - j,
        {
            let ghost prev = *self;
            let ghost caps = self.supply_cap_by_type@;
            let ghost locks = self.token_types_locked@;
            let e = (supply_cap_by_type[j].0.clone(), supply_cap_by_type[j].1);
            proof {
                lemma_first_refusal_entry(before, supply_cap_by_type@, lock, j as int);
                assert(!has_key(caps, e.0@)) by {
                    if has_key(caps, e.0@) {
                        let x = choose|x: int| 0 <= x < caps.len() && #[trigger] caps[x].0@ == e.0@;
                        if x < before.supply_cap_by_type@.len() {
                            assert(before.supply_cap_by_type@[x].0@ == e.0@);
                        } else {
                            let y = x - before.supply_cap_by_type@.len();
                            assert(supply_cap_by_type@.take(j as int)[y] == supply_cap_by_type@[y]);
                        }
                    }
                }
                lemma_as_map_push(caps, e);
            }
            self.supply_cap_by_type.push(e);
            if lock {
                self.token_types_locked.push(supply_cap_by_type[j].0.clone());
            }
            j = j + 1;
            proof {
                assert(self.supply_cap_by_type@ =~= before.supply_cap_by_type@ + supply_cap_by_type@.take(j as int));
                assert forall|t: Seq<char>| #[trigger] self.type_locked(t) <==> before.type_locked(t)
                    || (lock && has_key(supply_cap_by_type@.take(j as int), t)) by {
                    let tk = supply_cap_by_type@.take(j as int);
                    let tk0 = supply_cap_by_type@.take(j - 1);
                    if has_key(tk0, t) {
                        let x = choose|x: int| 0 <= x < tk0.len() && #[trigger] tk0[x].0@ == t;
                        assert(tk[x].0@ == t);
                    }
                    if has_key(tk, t) {
                        let x = choose|x: int| 0 <= x < tk.len() && #[trigger] tk[x].0@ == t;
                        if x < j - 1 {
                            assert(tk0[x].0@ == t);
                        }
                    }
                    if t == e.0@ {
                        assert(tk[j - 1].0@ == t);
                    }
                    assert(prev.type_locked(t) <==> before.type_locked(t) || (lock && has_key(tk0, t)));
                    if lock {
                        lemma_names_push(locks, self.token_types_locked@.last(), t);
                        assert(self.token_types_locked@ =~= locks.push(self.token_types_locked@.last()));
                    } else {
                        assert(self.token_types_locked@ == locks);
                    }
                }
            }
        }
        assert(supply_cap_by_type@.take(j as int) =~= supply_cap_by_type@);
        Ok(())
    }

    /// Unlocks transfers of the token types given.
    pub fn unlock_token_types(&mut self, token_types: Vec<TokenType>)
        ensures
            forall|t: Seq<char>| #[trigger] final(self).type_locked(t) <==> old(self).type_locked(t)
                && !names_contain(token_types@, t),
            final(self).tokens_by_id == old(self).tokens_by_id,
            final(self).token_metadata_by_id == old(self).token_metadata_by_id,
            final(self).supply_cap_by_type == old(self).supply_cap_by_type,
            final(self).owner_id == old(self).owner_id,
            final(self).contract_royalty == old(self).contract_royalty,
            final(self).metadata == old(self).metadata,
            final(self).extra_storage_in_bytes_per_token == old(self).extra_storage_in_bytes_per_token,
    {
        let mut kept: Vec<TokenType> = Vec::new();
        let mut i: usize = 0;
        while i < self.token_types_locked.len()
            invariant
                i <= self.token_types_locked@.len(),
                forall|t: Seq<char>| #[trigger] names_contain(kept@, t) <==>
                    names_contain(self.token_types_locked@.take(i as int), t) && !names_contain(token_types@, t),
            decreases self.token_types_locked@.len() - i,
        {
            let t = &self.token_types_locked[i];
            let mut unlocked = false;
            let mut k: usize = 0;
            while k < token_types.len()
                invariant
                    k <= token_types@.len(),
                    unlocked <==> names_contain(token_types@.take(k as int), t@),
                decreases token_types@.len() - k,
            {
                proof {
                    lemma_names_take_step(token_types@, k as int, t@);
                }
                if token_types[k] == *t {
                    unlocked = true;
                }
                k = k + 1;
            }
            assert(token_types@.take(k as int) =~= token_types@);
            let ghost kept0 = kept@;
            if !unlocked {
                kept.push(t.clone());
            }
            proof {
                lemma_names_take_step(self.token_types_locked@, i as int, t@);
                assert forall|u: Seq<char>| #[trigger] names_contain(kept@, u) <==>
                    names_contain(self.token_types_locked@.take(i + 1), u) && !names_contain(token_types@, u) by {
                    lemma_names_take_step(self.token_types_locked@, i as int, u);
                    if !unlocked {
                        lemma_names_push(kept0, kept@[kept0.len() as int], u);
                        assert(kept@ =~= kept0.push(kept@[kept0.len() as int]));
                    }
                }
            }
            i = i + 1;
        }
        assert(self.token_types_locked@.take(i as int) =~= self.token_types_locked@);
        self.token_types_locked = kept;
    }

    /// Transfers a token as `nft_transfer` does and returns how the sale price
    /// `balance` is to be split: the token's royalties, the rest to the owner.
    /// The payout may name at most `max_len_payout` accounts.
    pub fn nft_transfer_payout(
        &mut self,
        predecessor_id: &AccountId,
        receiver_id: &AccountId,
        token_id: &TokenId,
        approval_id: Option<u64>,
        balance: u128,
        max_len_payout: usize,
        attached_deposit: u128,
    ) -> (r: Result<Payout, NftError>)
        requires
            old(self).wf(),
        ensures
            final(self).wf(),
            r is Err ==> *final(self) == *old(self),
            attached_deposit != 1 ==> r == Err::<Payout, NftError>(NftError::RequiresOneYocto),
            ({
                let t = old(self).token(token_id@);
                let p = payout_for(balance, t.royalty@, t.owner_id);
                let refusal = old(self).transfer_refusal(predecessor_id@, receiver_id@, token_id@, approval_id);
                &&& attached_deposit == 1 && !old(self).has_token(token_id@)
                    ==> r == Err::<Payout, NftError>(NftError::TokenNotFound)
                &&& attached_deposit == 1 && old(self).has_token(token_id@) && p.len() > max_len_payout
                    ==> r == Err::<Payout, NftError>(NftError::PayoutTooLarge)
                &&& attached_deposit == 1 && old(self).has_token(token_id@) && p.len() <= max_len_payout && refusal is Some
                    ==> r == Err::<Payout, NftError>(refusal->Some_0)
                &&& attached_deposit == 1 && old(self).has_token(token_id@) && p.len() <= max_len_payout && refusal is None
                    ==> r is Ok
                &&& r is Ok ==> {
                    let i = old(self).token_pos(token_id@);
                    &&& r->Ok_0@ == p
                    &&& valid_payout(r->Ok_0@, balance)
                    &&& final(self).tokens_by_id@ == old(self).tokens_by_id@.update(i, final(self).tokens_by_id@[i])
                    &&& final(self).tokens_by_id@[i].0@ == token_id@
                    &&& moved_token(final(self).tokens_by_id@[i].1, t, receiver_id@)
                    &&& final(self).token_metadata_by_id == old(self).token_metadata_by_id
                }
            }),
    {
        if attached_deposit != 1 {
            return Err(NftError::RequiresOneYocto);
        }
        let i = match self.find_token(token_id) {
            Some(i) => i,
            None => {
                return Err(NftError::TokenNotFound);
            },
        };
        proof {
            assert(token_ok(self.tokens_by_id@[i as int].1));
            lemma_payout_is_valid(balance, self.tokens_by_id@[i as int].1.royalty@, self.tokens_by_id@[i as int].1.owner_id);
        }
        let payout = match compute_payout(balance, &self.tokens_by_id[i].1.royalty, &self.tokens_by_id[i].1.owner_id) {
            Ok(p) => p,
            Err(_) => {
                return Err(NftError::RoyaltyCapExceeded);
            },
        };
        if payout.len() > max_len_payout {
            return Err(NftError::PayoutTooLarge);
        }
        match self.internal_transfer(predecessor_id, receiver_id, token_id, approval_id) {
            Ok(_) => Ok(payout),
            Err(e) => Err(e),
        }
    }
}

proof fn lemma_first_refusal_prefix(c: Contract, s: Seq<(TokenType, u64)>, k: int, lock: bool)
    requires
        0 <= k <= s.len(),
    ensures
        first_type_refusal(c, s.take(k), lock) is Some
            ==> first_type_refusal(c, s, lock) == first_type_refusal(c, s.take(k), lock),
    decreases s.len(),
{
    if k < s.len() {
        assert(s.drop_last().take(k) =~= s.take(k));
        lemma_first_refusal_prefix(c, s.drop_last(), k, lock);
    } else {
        assert(s.take(k) =~= s);
    }
}

proof fn lemma_first_refusal_entry(c: Contract, s: Seq<(TokenType, u64)>, lock: bool, j: int)
    requires
        first_type_refusal(c, s, lock) is None,
        0 <= j < s.len(),
    ensures
        type_entry_refusal(c, s[j], lock) is None,
    decreases s.len(),
{
    if j < s.len() - 1 {
        assert(s.drop_last()[j] == s[j]);
        lemma_first_refusal_entry(c, s.drop_last(), lock, j);
    }
}

} // verus!
