//! Failures reported by the marketplace.
use vstd::prelude::*;

verus! {

/// Why a marketplace operation was refused.
#[derive(Clone, Copy, Debug, PartialEq, Eq, Structural)]
pub enum MarketError {
    /// A sale already exists for the asset.
    DuplicateListing,
    /// The account's storage credit cannot cover one more listing.
    InsufficientStorageCredit,
    /// A storage deposit is smaller than the rent of one listing.
    DepositTooSmall,
    /// The caller does not own the sale.
    NotOwner,
    /// The caller is not the marketplace administrator.
    NotAdmin,
    /// A purchase of the sale is in flight.
    ListingLocked,
    /// No sale exists for the asset.
    ListingNotFound,
    /// The amount paid differs from the asking price.
    PriceMismatch,
    /// The currency is not accepted.
    UnsupportedCurrency,
    /// The sale has no price in this currency.
    ConditionNotFound,
    /// A bid does not exceed the highest bid recorded.
    BidTooLow,
    /// There is no bid to accept.
    NoBids,
    /// The royalties add up to more than the cap.
    RoyaltyCapExceeded,
    /// The royalty table has too many recipients.
    TooManyRecipients,
    /// The call must carry exactly one unit of the native currency.
    RequiresOneYocto,
}

/// Why an operation of the asset ledger was refused.
#[derive(Clone, Copy, Debug, PartialEq, Eq, Structural)]
pub enum NftError {
    /// No token has this id.
    TokenNotFound,
    /// A token with this id exists already.
    TokenExists,
    /// The caller is not the contract's owner, or not the token's owner.
    NotOwner,
    /// The sender neither owns the token nor is approved for it.
    Unauthorized,
    /// An approval id was given but the sender holds no approval.
    SenderNotApproved,
    /// The sender's approval id differs from the one given.
    ApprovalIdMismatch,
    /// The receiver already owns the token.
    SameOwnerAndReceiver,
    /// Transfers of the token's type are locked.
    TransfersLocked,
    /// More royalty recipients than allowed.
    TooManyRoyaltyRecipients,
    /// The royalties add up to more than the cap.
    RoyaltyCapExceeded,
    /// The token type has no supply cap.
    UnknownTokenType,
    /// The token type has reached its supply cap.
    SupplyCapReached,
    /// The token type has a supply cap already.
    TokenTypeExists,
    /// The token type is locked already.
    TokenTypeAlreadyLocked,
    /// The contract's royalty may not exceed the cap.
    ContractRoyaltyTooHigh,
    /// The token has no type.
    TokenHasNoType,
    /// The call must carry exactly one unit of the native currency.
    RequiresOneYocto,
    /// The call must carry at least one unit of the native currency.
    RequiresAtLeastOneYocto,
    /// The deposit does not cover the storage used.
    InsufficientStorageDeposit,
    /// A message for the approved account must not be empty.
    EmptyMessage,
    /// The payout would name more recipients than the caller accepts.
    PayoutTooLarge,
    /// The token has used up its approval ids, or its approvals would need
    /// more storage than can be accounted.
    ApprovalsExhausted,
}

} // verus!
