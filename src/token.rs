//! Tokens of the asset ledger, and the records that describe them.
use vstd::prelude::*;
use crate::payout::AccountId;

verus! {

/// A token's identifier.
pub type TokenId = String;

/// A token's type, which caps its supply and may lock its transfers.
pub type TokenType = String;

/// What the contract says of itself.
#[derive(Debug, PartialEq)]
pub struct NFTMetadata {
    pub spec: String,
    pub name: String,
    pub symbol: String,
    pub icon: Option<String>,
    pub base_uri: Option<String>,
    pub reference: Option<String>,
    pub reference_hash: Option<Vec<u8>>,
}

/// What a token says of itself.
#[derive(Debug, PartialEq)]
pub struct TokenMetadata {
    pub title: Option<String>,
    pub description: Option<String>,
    pub media: Option<String>,
    pub media_hash: Option<Vec<u8>>,
    pub copies: Option<u64>,
    pub issued_at: Option<String>,
    pub expires_at: Option<String>,
    pub starts_at: Option<String>,
    pub updated_at: Option<String>,
    pub extra: Option<String>,
    pub reference: Option<String>,
    pub reference_hash: Option<Vec<u8>>,
}

/// A token: its owner, the accounts approved to transfer it, its royalty
/// table and its type.
#[derive(Debug, PartialEq)]
pub struct Token {
    pub owner_id: AccountId,
    /// Approved account to approval id, one entry per account.
    pub approved_account_ids: Vec<(AccountId, u64)>,
    /// The approval id that the next approval gets.
    pub next_approval_id: u64,
    /// Royalty holder to basis points, one entry per account.
    pub royalty: Vec<(AccountId, u32)>,
    pub token_type: Option<TokenType>,
}

/// The view of a token that the ledger hands out.
#[derive(Debug, PartialEq)]
pub struct JsonToken {
    pub token_id: TokenId,
    pub owner_id: AccountId,
    pub metadata: TokenMetadata,
    pub approved_account_ids: Vec<(AccountId, u64)>,
    pub royalty: Vec<(AccountId, u32)>,
    pub token_type: Option<String>,
}

/// A copy of an optional string.
pub fn copy_opt_string(s: &Option<String>) -> (r: Option<String>)
    ensures
        r == *s,
{
    match s {
        Some(v) => Some(v.clone()),
        None => None,
    }
}

/// A copy of optional bytes.
pub fn copy_opt_bytes(b: &Option<Vec<u8>>) -> (r: Option<Vec<u8>>)
    ensures
        r matches Some(v) ==> b matches Some(w) && v@ == w@,
        r is None <==> b is None,
{
    match b {
        Some(v) => {
            let mut out: Vec<u8> = Vec::new();
            let mut i: usize = 0;
            while i < v.len()
                invariant
                    i <= v@.len(),
                    out@ == v@.take(i as int),
                decreases v@.len() - i,
            {
                out.push(v[i]);
                i = i + 1;
                assert(out@ =~= v@.take(i as int));
            }
            assert(out@ =~= v@);
            Some(out)
        },
        None => None,
    }
}

/// A copy of an association list with plain values.
pub fn copy_entries<V: Copy>(v: &Vec<(AccountId, V)>) -> (r: Vec<(AccountId, V)>)
    ensures
        r@ == v@,
{
    let mut out: Vec<(AccountId, V)> = Vec::new();
    let mut i: usize = 0;
    while i < v.len()
        invariant
            i <= v@.len(),
            out@ == v@.take(i as int),
        decreases v@.len() - i,
    {
        out.push((v[i].0.clone(), v[i].1));
        i = i + 1;
        assert(out@ =~= v@.take(i as int));
    }
    assert(out@ =~= v@);
    out
}

/// A copy of a list of strings.
pub fn copy_strings(v: &Vec<String>) -> (r: Vec<String>)
    ensures
        r@ == v@,
{
    let mut out: Vec<String> = Vec::new();
    let mut i: usize = 0;
    while i < v.len()
        invariant
            i <= v@.len(),
            out@ == v@.take(i as int),
        decreases v@.len() - i,
    {
        out.push(v[i].clone());
        i = i + 1;
        assert(out@ =~= v@.take(i as int));
    }
    assert(out@ =~= v@);
    out
}

/// Two token records that agree, their byte strings compared by content.
pub open spec fn same_metadata(a: TokenMetadata, b: TokenMetadata) -> bool {
    &&& a.title == b.title
    &&& a.description == b.description
    &&& a.media == b.media
    &&& (a.media_hash matches Some(x) ==> b.media_hash matches Some(y) && x@ == y@)
    &&& (a.media_hash is None <==> b.media_hash is None)
    &&& a.copies == b.copies
    &&& a.issued_at == b.issued_at
    &&& a.expires_at == b.expires_at
    &&& a.starts_at == b.starts_at
    &&& a.updated_at == b.updated_at
    &&& a.extra == b.extra
    &&& a.reference == b.reference
    &&& (a.reference_hash matches Some(x) ==> b.reference_hash matches Some(y) && x@ == y@)
    &&& (a.reference_hash is None <==> b.reference_hash is None)
}

impl TokenMetadata {
    /// A copy of the record.
    pub fn copy(&self) -> (r: TokenMetadata)
        ensures
            same_metadata(r, *self),
    {
        TokenMetadata {
            title: copy_opt_string(&self.title),
            description: copy_opt_string(&self.description),
            media: copy_opt_string(&self.media),
            media_hash: copy_opt_bytes(&self.media_hash),
            copies: self.copies,
            issued_at: copy_opt_string(&self.issued_at),
            expires_at: copy_opt_string(&self.expires_at),
            starts_at: copy_opt_string(&self.starts_at),
            updated_at: copy_opt_string(&self.updated_at),
            extra: copy_opt_string(&self.extra),
            reference: copy_opt_string(&self.reference),
            reference_hash: copy_opt_bytes(&self.reference_hash),
        }
    }
}

} // verus!
