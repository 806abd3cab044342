use vstd::prelude::*;

verus! {

/// Failures of the custody contract.
#[derive(Debug, Clone, Copy, PartialEq, Eq, Structural)]
pub enum Error {
    ErrFinalized,
    ErrSameValueStored,
    ErrChangingPair,
    ErrSamePairTokens,
    ErrAmountMustBePositive,
    ErrTokenIsNotListed,
    ErrBalanceNotEnough,
    ErrAlreadyInitialized,
    ErrNotInitialized,
    ErrNoUserPublicKeyExist,
    ErrPublicKeyAlreadyExist,
    ErrWithdrawDataNotExist,
    ErrSameWithdrawDataExist,
    ErrWithdrawRequestAlreadyProcessed,
    ErrWithdrawRequestDataMismatch,
    ErrBatchIdNotMatch,
    ErrTradeSymbolsNotMatch,
    ErrOverflow,
}

impl Error {
    /// The code of each error.
    pub open spec fn spec_code(self) -> u32 {
        match self {
            Error::ErrFinalized => 1,
            Error::ErrSameValueStored => 2,
            Error::ErrChangingPair => 3,
            Error::ErrSamePairTokens => 4,
            Error::ErrAmountMustBePositive => 5,
            Error::ErrTokenIsNotListed => 6,
            Error::ErrBalanceNotEnough => 7,
            Error::ErrAlreadyInitialized => 8,
            Error::ErrNotInitialized => 9,
            Error::ErrNoUserPublicKeyExist => 10,
            Error::ErrPublicKeyAlreadyExist => 11,
            Error::ErrWithdrawDataNotExist => 12,
            Error::ErrSameWithdrawDataExist => 13,
            Error::ErrWithdrawRequestAlreadyProcessed => 14,
            Error::ErrWithdrawRequestDataMismatch => 15,
            Error::ErrBatchIdNotMatch => 16,
            Error::ErrTradeSymbolsNotMatch => 17,
            Error::ErrOverflow => 18,
        }
    }

    /// The stable integer code under which the host reports this error.
    pub fn code(&self) -> (r: u32)
        ensures
            r == self.spec_code(),
    {
        match self {
            Error::ErrFinalized => 1,
            Error::ErrSameValueStored => 2,
            Error::ErrChangingPair => 3,
            Error::ErrSamePairTokens => 4,
            Error::ErrAmountMustBePositive => 5,
            Error::ErrTokenIsNotListed => 6,
            Error::ErrBalanceNotEnough => 7,
            Error::ErrAlreadyInitialized => 8,
            Error::ErrNotInitialized => 9,
            Error::ErrNoUserPublicKeyExist => 10,
            Error::ErrPublicKeyAlreadyExist => 11,
            Error::ErrWithdrawDataNotExist => 12,
            Error::ErrSameWithdrawDataExist => 13,
            Error::ErrWithdrawRequestAlreadyProcessed => 14,
            Error::ErrWithdrawRequestDataMismatch => 15,
            Error::ErrBatchIdNotMatch => 16,
            Error::ErrTradeSymbolsNotMatch => 17,
            Error::ErrOverflow => 18,
        }
    }
}

} // verus!
