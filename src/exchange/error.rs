use vstd::prelude::*;

verus! {

/// Failures of the order book contract.
#[derive(Debug, Clone, Copy, PartialEq, Eq, Structural)]
pub enum Error {
    IncorrectPriceLevelStorageState,
    InvalidOrderId,
    SameValueStored,
    AmountMustBePositive,
    SamePairTokens,
    BalanceNotEnough,
    OrderNotFound,
    IncorrectPrecisionCalculation,
    InvalidIdFailedToRemove,
    InvalidIdFailedToUpdate,
    InvalidIdFailedToLoad,
    PriceStoreInvalidIndex,
    PriceStoreOrderNotFoundByIndex,
    LevelsStorePriceNotFound,
    LevelsStoreLevelNotFound,
    LevelsStoreRemoveFailed,
    OrderBookNotFound,
    EmptyNodeView,
    NotAChildOfItsParent,
    ZeroValueInsert,
}

impl Error {
    /// The code of each error.
    pub open spec fn spec_code(self) -> u32 {
        match self {
            Error::IncorrectPriceLevelStorageState => 1,
            Error::InvalidOrderId => 2,
            Error::SameValueStored => 3,
            Error::AmountMustBePositive => 4,
            Error::SamePairTokens => 5,
            Error::BalanceNotEnough => 6,
            Error::OrderNotFound => 7,
            Error::IncorrectPrecisionCalculation => 8,
            Error::InvalidIdFailedToRemove => 9,
            Error::InvalidIdFailedToUpdate => 10,
            Error::InvalidIdFailedToLoad => 11,
            Error::PriceStoreInvalidIndex => 12,
            Error::PriceStoreOrderNotFoundByIndex => 13,
            Error::LevelsStorePriceNotFound => 14,
            Error::LevelsStoreLevelNotFound => 15,
            Error::LevelsStoreRemoveFailed => 16,
            Error::OrderBookNotFound => 17,
            Error::EmptyNodeView => 18,
            Error::NotAChildOfItsParent => 19,
            Error::ZeroValueInsert => 20,
        }
    }

    /// The stable integer code under which the host reports this error.
    pub fn code(&self) -> (r: u32)
        ensures
            r == self.spec_code(),
    {
        match self {
            Error::IncorrectPriceLevelStorageState => 1,
            Error::InvalidOrderId => 2,
            Error::SameValueStored => 3,
            Error::AmountMustBePositive => 4,
            Error::SamePairTokens => 5,
            Error::BalanceNotEnough => 6,
            Error::OrderNotFound => 7,
            Error::IncorrectPrecisionCalculation => 8,
            Error::InvalidIdFailedToRemove => 9,
            Error::InvalidIdFailedToUpdate => 10,
            Error::InvalidIdFailedToLoad => 11,
            Error::PriceStoreInvalidIndex => 12,
            Error::PriceStoreOrderNotFoundByIndex => 13,
            Error::LevelsStorePriceNotFound => 14,
            Error::LevelsStoreLevelNotFound => 15,
            Error::LevelsStoreRemoveFailed => 16,
            Error::OrderBookNotFound => 17,
            Error::EmptyNodeView => 18,
            Error::NotAChildOfItsParent => 19,
            Error::ZeroValueInsert => 20,
        }
    }
}

} // verus!
