//! The core interface of the asset ledger: viewing, transferring, approving
//! and revoking.
use vstd::prelude::*;
use vstd::string::StrSliceExecFns;
use crate::assoc::{as_map, find_str, lemma_as_map_dom, lemma_as_map_update,
    lemma_as_map_push, lemma_as_map_remove};
use crate::error::NftError;
use crate::nft::{Contract, Approval, ApprovalNotice, approval_bytes, approvals_bytes, token_ok, moved_token,
    approvals_storage, refund_approved_account_ids, STORAGE_PRICE_PER_BYTE, lemma_wf_replace_token,
    lemma_approvals_bytes_update, lemma_approvals_bytes_remove, message_with_type, add_token_type_to_msg};
use crate::payout::AccountId;
use crate::token::{JsonToken, Token, TokenId, same_metadata, copy_entries, copy_opt_string};

verus! {

/// What a ledger of tokens offers.
pub trait NonFungibleTokenCore: Sized {
    /// The ledger's invariant.
    spec fn ledger_wf(&self) -> bool;

    /// `r` is the view of the token `id`: present exactly when the token is.
    spec fn shows_token(&self, id: Seq<char>, r: Option<JsonToken>) -> bool;

    /// What a transfer call does to the ledger and returns.
    spec fn transfer_post(
        &self,
        post: Self,
        predecessor: Seq<char>,
        receiver: Seq<char>,
        id: Seq<char>,
        approval_id: Option<u64>,
        deposit: u128,
        r: Result<(AccountId, u128), NftError>,
    ) -> bool;

    /// What an approval call does to the ledger and returns.
    spec fn approve_post(
        &self,
        post: Self,
        predecessor: Seq<char>,
        id: Seq<char>,
        account: Seq<char>,
        msg: Option<String>,
        deposit: u128,
        r: Result<Approval, NftError>,
    ) -> bool;

    /// What a revocation call does to the ledger and returns.
    spec fn revoke_post(
        &self,
        post: Self,
        predecessor: Seq<char>,
        id: Seq<char>,
        account: Seq<char>,
        deposit: u128,
        r: Result<u128, NftError>,
    ) -> bool;

    /// The view of a token, if it exists.
    fn nft_token(&self, token_id: TokenId) -> (r: Option<JsonToken>)
        requires
            self.ledger_wf(),
        ensures
            self.shows_token(token_id@, r),
    ;

    /// Transfers a token on behalf of the caller, who must attach exactly one
    /// unit of the native currency. Returns the previous owner and the refund
    /// owed to it for the storage of the cleared approvals.
    fn nft_transfer(
        &mut self,
        predecessor_id: &AccountId,
        receiver_id: AccountId,
        token_id: TokenId,
        approval_id: Option<u64>,
        attached_deposit: u128,
    ) -> (r: Result<(AccountId, u128), NftError>)
        requires
            old(self).ledger_wf(),
        ensures
            final(self).ledger_wf(),
            old(self).transfer_post(*final(self), predecessor_id@, receiver_id@, token_id@, approval_id, attached_deposit, r),
    ;

    /// The owner approves `account_id` to transfer the token, paying for the
    /// approval's storage out of the deposit.
    fn nft_approve(
        &mut self,
        predecessor_id: &AccountId,
        token_id: TokenId,
        account_id: AccountId,
        msg: Option<String>,
        attached_deposit: u128,
    ) -> (r: Result<Approval, NftError>)
        requires
            old(self).ledger_wf(),
        ensures
            final(self).ledger_wf(),
            old(self).approve_post(*final(self), predecessor_id@, token_id@, account_id@, msg, attached_deposit, r),
    ;

    /// The owner withdraws the approval of `account_id`; returns the refund
    /// owed for its storage.
    fn nft_revoke(
        &mut self,
        predecessor_id: &AccountId,
        token_id: TokenId,
        account_id: AccountId,
        attached_deposit: u128,
    ) -> (r: Result<u128, NftError>)
        requires
            old(self).ledger_wf(),
        ensures
            final(self).ledger_wf(),
            old(self).revoke_post(*final(self), predecessor_id@, token_id@, account_id@, attached_deposit, r),
    ;
}

impl Contract {
    /// The ledger outside its tokens is the same in both states.
    pub open spec fn same_but_tokens(&self, other: Contract) -> bool {
        &&& self.token_metadata_by_id == other.token_metadata_by_id
        &&& self.owner_id == other.owner_id
        &&& self.supply_cap_by_type == other.supply_cap_by_type
        &&& self.token_types_locked == other.token_types_locked
        &&& self.contract_royalty == other.contract_royalty
        &&& self.extra_storage_in_bytes_per_token == other.extra_storage_in_bytes_per_token
    }

    /// The approval of `account` on token `t` is new.
    pub open spec fn new_approval(t: Token, account: Seq<char>) -> bool {
        !as_map(t.approved_account_ids@).contains_key(account)
    }

    /// The storage that approving `account` on token `t` takes.
    pub open spec fn approval_cost(t: Token, account: Seq<char>) -> nat {
        if Self::new_approval(t, account) {
            approval_bytes(account)
        } else {
            0
        }
    }

    /// Why an approval would be refused, if it would.
    pub open spec fn approve_refusal(
        &self,
        predecessor: Seq<char>,
        id: Seq<char>,
        account: Seq<char>,
        msg: Option<String>,
        deposit: u128,
    ) -> Option<NftError> {
        if deposit < 1 {
            Some(NftError::RequiresAtLeastOneYocto)
        } else if !self.has_token(id) {
            Some(NftError::TokenNotFound)
        } else {
            let t = self.token(id);
            if t.owner_id@ != predecessor {
                Some(NftError::NotOwner)
            } else if t.next_approval_id == u64::MAX
                || approvals_bytes(t.approved_account_ids@) + Self::approval_cost(t, account) > u64::MAX {
                Some(NftError::ApprovalsExhausted)
            } else if Self::approval_cost(t, account) * STORAGE_PRICE_PER_BYTE > deposit {
                Some(NftError::InsufficientStorageDeposit)
            } else if msg is Some && msg->Some_0@.len() == 0 && t.token_type is Some {
                Some(NftError::EmptyMessage)
            } else {
                None
            }
        }
    }

    /// Why a revocation would be refused, if it would.
    pub open spec fn revoke_refusal(&self, predecessor: Seq<char>, id: Seq<char>, deposit: u128) -> Option<NftError> {
        if deposit != 1 {
            Some(NftError::RequiresOneYocto)
        } else if !self.has_token(id) {
            Some(NftError::TokenNotFound)
        } else if self.token(id).owner_id@ != predecessor {
            Some(NftError::NotOwner)
        } else {
            None
        }
    }
}

impl NonFungibleTokenCore for Contract {
    open spec fn ledger_wf(&self) -> bool {
        self.wf()
    }

    open spec fn shows_token(&self, id: Seq<char>, r: Option<JsonToken>) -> bool {
        if self.has_token(id) {
            let t = self.token(id);
            &&& r is Some
            &&& r->Some_0.token_id@ == id
            &&& r->Some_0.owner_id == t.owner_id
            &&& r->Some_0.approved_account_ids@ == t.approved_account_ids@
            &&& r->Some_0.royalty@ == t.royalty@
            &&& r->Some_0.token_type == t.token_type
            &&& same_metadata(r->Some_0.metadata, self.token_metadata_by_id@[self.token_pos(id)].1)
        } else {
            r is None
        }
    }

    open spec fn transfer_post(
        &self,
        post: Self,
        predecessor: Seq<char>,
        receiver: Seq<char>,
        id: Seq<char>,
        approval_id: Option<u64>,
        deposit: u128,
        r: Result<(AccountId, u128), NftError>,
    ) -> bool {
        if deposit != 1 {
            r == Err::<(AccountId, u128), NftError>(NftError::RequiresOneYocto) && post == *self
        } else if self.transfer_refusal(predecessor, receiver, id, approval_id) is Some {
            r == Err::<(AccountId, u128), NftError>(self.transfer_refusal(predecessor, receiver, id, approval_id)->Some_0)
                && post == *self
        } else {
            let i = self.token_pos(id);
            let t = self.token(id);
            &&& r is Ok
            &&& r->Ok_0.0 == t.owner_id
            &&& r->Ok_0.1 == approvals_bytes(t.approved_account_ids@) * STORAGE_PRICE_PER_BYTE
            &&& post.tokens_by_id@ == self.tokens_by_id@.update(i, post.tokens_by_id@[i])
            &&& post.tokens_by_id@[i].0@ == id
            &&& moved_token(post.tokens_by_id@[i].1, t, receiver)
            &&& post.same_but_tokens(*self)
        }
    }

    open spec fn approve_post(
        &self,
        post: Self,
        predecessor: Seq<char>,
        id: Seq<char>,
        account: Seq<char>,
        msg: Option<String>,
        deposit: u128,
        r: Result<Approval, NftError>,
    ) -> bool {
        if self.approve_refusal(predecessor, id, account, msg, deposit) is Some {
            r == Err::<Approval, NftError>(self.approve_refusal(predecessor, id, account, msg, deposit)->Some_0) && post == *self
        } else {
            let i = self.token_pos(id);
            let t = self.token(id);
            let nt = post.tokens_by_id@[i].1;
            let a = r->Ok_0;
            &&& r is Ok
            &&& post.tokens_by_id@ == self.tokens_by_id@.update(i, post.tokens_by_id@[i])
            &&& post.tokens_by_id@[i].0@ == id
            &&& as_map(nt.approved_account_ids@) == as_map(t.approved_account_ids@).insert(account, t.next_approval_id)
            &&& nt.next_approval_id == t.next_approval_id + 1
            &&& nt.owner_id == t.owner_id
            &&& nt.royalty == t.royalty
            &&& nt.token_type == t.token_type
            &&& post.same_but_tokens(*self)
            &&& a.approval_id == t.next_approval_id
            &&& a.refund == deposit - Self::approval_cost(t, account) * STORAGE_PRICE_PER_BYTE
            &&& (a.notice is Some <==> msg is Some && t.token_type is Some)
            &&& (a.notice matches Some(n) ==> {
                &&& n.account_id@ == account
                &&& n.token_id@ == id
                &&& n.owner_id == t.owner_id
                &&& n.approval_id == t.next_approval_id
                &&& n.msg@ == message_with_type(msg->Some_0@, t.token_type->Some_0@)
            })
        }
    }

    open spec fn revoke_post(
        &self,
        post: Self,
        predecessor: Seq<char>,
        id: Seq<char>,
        account: Seq<char>,
        deposit: u128,
        r: Result<u128, NftError>,
    ) -> bool {
        if self.revoke_refusal(predecessor, id, deposit) is Some {
            r == Err::<u128, NftError>(self.revoke_refusal(predecessor, id, deposit)->Some_0) && post == *self
        } else if Self::new_approval(self.token(id), account) {
            r == Ok::<u128, NftError>(0) && post == *self
        } else {
            let i = self.token_pos(id);
            let t = self.token(id);
            let nt = post.tokens_by_id@[i].1;
            &&& r == Ok::<u128, NftError>((approval_bytes(account) * STORAGE_PRICE_PER_BYTE) as u128)
            &&& post.tokens_by_id@ == self.tokens_by_id@.update(i, post.tokens_by_id@[i])
            &&& post.tokens_by_id@[i].0@ == id
            &&& as_map(nt.approved_account_ids@) == as_map(t.approved_account_ids@).remove(account)
            &&& nt.next_approval_id == t.next_approval_id
            &&& nt.owner_id == t.owner_id
            &&& nt.royalty == t.royalty
            &&& nt.token_type == t.token_type
            &&& post.same_but_tokens(*self)
        }
    }

    fn nft_token(&self, token_id: TokenId) -> (r: Option<JsonToken>) {
        match self.find_token(&token_id) {
            Some(i) => {
                let t = &self.tokens_by_id[i].1;
                Some(JsonToken {
                    token_id,
                    owner_id: t.owner_id.clone(),
                    metadata: self.token_metadata_by_id[i].1.copy(),
                    approved_account_ids: copy_entries(&t.approved_account_ids),
                    royalty: copy_entries(&t.royalty),
                    token_type: copy_opt_string(&t.token_type),
                })
            },
            None => None,
        }
    }

    fn nft_transfer(
        &mut self,
        predecessor_id: &AccountId,
        receiver_id: AccountId,
        token_id: TokenId,
        approval_id: Option<u64>,
        attached_deposit: u128,
    ) -> (r: Result<(AccountId, u128), NftError>) {
        if attached_deposit != 1 {
            return Err(NftError::RequiresOneYocto);
        }
        let previous = match self.internal_transfer(predecessor_id, &receiver_id, &token_id, approval_id) {
            Ok(t) => t,
            Err(e) => {
                return Err(e);
            },
        };
        proof {
            assert(token_ok(old(self).tokens_by_id@[old(self).token_pos(token_id@)].1));
        }
        let refund = refund_approved_account_ids(&previous.approved_account_ids);
        Ok((previous.owner_id, refund))
    }

    fn nft_approve(
        &mut self,
        predecessor_id: &AccountId,
        token_id: TokenId,
        account_id: AccountId,
        msg: Option<String>,
        attached_deposit: u128,
    ) -> (r: Result<Approval, NftError>) {
        if attached_deposit < 1 {
            return Err(NftError::RequiresAtLeastOneYocto);
        }
        let i = match self.find_token(&token_id) {
            Some(i) => i,
            None => {
                return Err(NftError::TokenNotFound);
            },
        };
        let ghost t = self.tokens_by_id@[i as int].1;
        proof {
            assert(token_ok(t));
            lemma_as_map_dom(t.approved_account_ids@);
        }
        if self.tokens_by_id[i].1.owner_id != *predecessor_id {
            return Err(NftError::NotOwner);
        }
        let approval_id = self.tokens_by_id[i].1.next_approval_id;
        if approval_id == u64::MAX {
            return Err(NftError::ApprovalsExhausted);
        }
        let existing = find_str(&self.tokens_by_id[i].1.approved_account_ids, &account_id);
        let storage_used: u64 = match existing {
            Some(_) => 0,
            None => {
                let n = account_id.as_str().as_bytes().len();
                if n as u64 > u64::MAX - 12 {
                    return Err(NftError::ApprovalsExhausted);
                }
                n as u64 + 4 + 8
            },
        };
        assert(storage_used == Self::approval_cost(t, account_id@));
        let current = approvals_storage(&self.tokens_by_id[i].1.approved_account_ids);
        if current > u64::MAX - storage_used {
            return Err(NftError::ApprovalsExhausted);
        }
        let refund = match crate::nft::refund_deposit(storage_used, attached_deposit) {
            Ok(v) => v,
            Err(e) => {
                return Err(e);
            },
        };
        let final_msg = match (&msg, &self.tokens_by_id[i].1.token_type) {
            (Some(m), Some(tt)) => {
                if m.as_str().unicode_len() == 0 {
                    return Err(NftError::EmptyMessage);
                }
                Some(add_token_type_to_msg(m, tt))
            },
            _ => None,
        };
        let ghost before = *self;
        let (key, mut token) = self.tokens_by_id.remove(i);
        let ghost s = token.approved_account_ids@;
        match existing {
            Some(j) => {
                let e = (token.approved_account_ids[j].0.clone(), approval_id);
                proof {
                    lemma_as_map_update(s, j as int, e);
                    lemma_approvals_bytes_update(s, j as int, e);
                }
                token.approved_account_ids.set(j, e);
            },
            None => {
                let e = (account_id.clone(), approval_id);
                proof {
                    lemma_as_map_push(s, e);
                    assert(s.push(e).drop_last() =~= s);
                }
                token.approved_account_ids.push(e);
            },
        }
        token.next_approval_id = approval_id + 1;
        let notice = match final_msg {
            Some(m) => Some(ApprovalNotice {
                account_id: account_id.clone(),
                token_id: token_id.clone(),
                owner_id: token.owner_id.clone(),
                approval_id,
                msg: m,
            }),
            None => None,
        };
        self.tokens_by_id.insert(i, (key, token));
        proof {
            assert(self.tokens_by_id@ =~= before.tokens_by_id@.update(i as int, self.tokens_by_id@[i as int]));
            lemma_wf_replace_token(before, *self, i as int);
        }
        Ok(Approval { approval_id, refund, notice })
    }

    fn nft_revoke(
        &mut self,
        predecessor_id: &AccountId,
        token_id: TokenId,
        account_id: AccountId,
        attached_deposit: u128,
    ) -> (r: Result<u128, NftError>) {
        if attached_deposit != 1 {
            return Err(NftError::RequiresOneYocto);
        }
        let i = match self.find_token(&token_id) {
            Some(i) => i,
            None => {
                return Err(NftError::TokenNotFound);
            },
        };
        let ghost t = self.tokens_by_id@[i as int].1;
        proof {
            assert(token_ok(t));
            lemma_as_map_dom(t.approved_account_ids@);
        }
        if self.tokens_by_id[i].1.owner_id != *predecessor_id {
            return Err(NftError::NotOwner);
        }
        let j = match find_str(&self.tokens_by_id[i].1.approved_account_ids, &account_id) {
            Some(j) => j,
            None => {
                return Ok(0);
            },
        };
        let ghost before = *self;
        let (key, mut token) = self.tokens_by_id.remove(i);
        let ghost s = token.approved_account_ids@;
        proof {
            lemma_as_map_remove(s, j as int);
            lemma_approvals_bytes_remove(s, j as int);
        }
        let (removed, _) = token.approved_account_ids.remove(j);
        let bytes = crate::nft::bytes_for_approved_account_id(&removed);
        assert(bytes * STORAGE_PRICE_PER_BYTE <= u128::MAX) by (nonlinear_arith)
            requires bytes <= u64::MAX;
        let refund = bytes as u128 * STORAGE_PRICE_PER_BYTE;
        self.tokens_by_id.insert(i, (key, token));
        proof {
            assert(self.tokens_by_id@ =~= before.tokens_by_id@.update(i as int, self.tokens_by_id@[i as int]));
            lemma_wf_replace_token(before, *self, i as int);
        }
        Ok(refund)
    }
}

} // verus!
