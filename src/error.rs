//! Why an operation on the ledger was rejected.

use vstd::prelude::*;

verus! {

#[derive(Debug, Clone, Copy, PartialEq, Eq, Structural)]
pub enum ContractError {
    /// A balance, or the tokens an account holds, cannot cover the amount.
    InsufficientBalance,
    /// A token level outside `1..=max_level`.
    InvalidLevel,
    /// A royalty map with more than six entries.
    TooManyRoyaltySplits,
    /// A level probability table that does not fit the contract metadata.
    InvalidLevelConfiguration,
    /// `10^decimals` does not fit in a `u128`.
    InvalidDecimals,
    /// The caller is neither the owner nor the operator.
    IllegalPermissions,
    /// The account has already used its one free mint.
    AlreadyMinted,
    /// The attached deposit is below the mint fee.
    LessMintFee,
    /// The token id counter has reached its largest value.
    TokenIdsExhausted,
}

/// The reason shown for `e`.
pub open spec fn reason_of(e: ContractError) -> Seq<char> {
    match e {
        ContractError::InsufficientBalance => "Insufficient balance"@,
        ContractError::InvalidLevel => "Invalid level"@,
        ContractError::TooManyRoyaltySplits => "Cannot add more than 6 perpetual royalty amounts"@,
        ContractError::InvalidLevelConfiguration => "Invalid level configuration"@,
        ContractError::InvalidDecimals => "Invalid decimals"@,
        ContractError::IllegalPermissions => "Illegal permissions"@,
        ContractError::AlreadyMinted => "Already minted"@,
        ContractError::LessMintFee => "Attached deposit is less than the mint fee"@,
        ContractError::TokenIdsExhausted => "No token id left"@,
    }
}

impl ContractError {
    /// The reason shown to the caller of a rejected operation.
    pub fn reason(&self) -> (r: &'static str)
        ensures
            r@ == reason_of(*self),
    {
        match self {
            ContractError::InsufficientBalance => "Insufficient balance",
            ContractError::InvalidLevel => "Invalid level",
            ContractError::TooManyRoyaltySplits => "Cannot add more than 6 perpetual royalty amounts",
            ContractError::InvalidLevelConfiguration => "Invalid level configuration",
            ContractError::InvalidDecimals => "Invalid decimals",
            ContractError::IllegalPermissions => "Illegal permissions",
            ContractError::AlreadyMinted => "Already minted",
            ContractError::LessMintFee => "Attached deposit is less than the mint fee",
            ContractError::TokenIdsExhausted => "No token id left",
        }
    }
}

} // verus!
