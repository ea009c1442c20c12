//! The failures that the competition's operations report.

use vstd::prelude::*;
use crate::asset::AssetId;

verus! {

/// The class of a failure.
#[derive(Clone, Copy, Debug, PartialEq, Eq, Structural)]
pub enum ErrorKind {
    Validation,
    NotFound,
    State,
    InsufficientBalance,
    Credential,
    Arithmetic,
}

/// A failure, naming the precondition that was violated.
#[derive(Clone, Copy, Debug, PartialEq, Eq, Structural)]
pub enum CompetitionError {
    /// The competition window does not start before it ends.
    InvalidWindow,
    /// The asset is not on the swap engine's allow-list.
    AssetNotAllowed { asset: AssetId },
    /// A negative amount was asked for.
    NegativeAmount,
    /// No price is recorded for the asset.
    PriceNotFound { asset: AssetId },
    /// No vault is registered for the identity.
    VaultNotFound,
    /// Registration closed when the competition started.
    RegistrationClosed,
    /// Trading has not opened yet.
    TradingNotStarted,
    /// Trading has closed.
    TradingEnded,
    /// The vault holds less of the asset than was asked for.
    InsufficientBalance { asset: AssetId },
    /// The credential is not of the class the competition accepts.
    InvalidCredential,
    /// The destination asset is priced at zero.
    DivisionByZero,
    /// A result does not fit the range of a decimal.
    Overflow,
}

impl CompetitionError {
    pub open spec fn spec_kind(self) -> ErrorKind {
        match self {
            CompetitionError::InvalidWindow => ErrorKind::Validation,
            CompetitionError::AssetNotAllowed { .. } => ErrorKind::Validation,
            CompetitionError::NegativeAmount => ErrorKind::Validation,
            CompetitionError::PriceNotFound { .. } => ErrorKind::NotFound,
            CompetitionError::VaultNotFound => ErrorKind::NotFound,
            CompetitionError::RegistrationClosed => ErrorKind::State,
            CompetitionError::TradingNotStarted => ErrorKind::State,
            CompetitionError::TradingEnded => ErrorKind::State,
            CompetitionError::InsufficientBalance { .. } => ErrorKind::InsufficientBalance,
            CompetitionError::InvalidCredential => ErrorKind::Credential,
            CompetitionError::DivisionByZero => ErrorKind::Arithmetic,
            CompetitionError::Overflow => ErrorKind::Arithmetic,
        }
    }

    pub fn kind(&self) -> (r: ErrorKind)
        ensures
            r == self.spec_kind(),
    {
        match self {
            CompetitionError::InvalidWindow => ErrorKind::Validation,
            CompetitionError::AssetNotAllowed { .. } => ErrorKind::Validation,
            CompetitionError::NegativeAmount => ErrorKind::Validation,
            CompetitionError::PriceNotFound { .. } => ErrorKind::NotFound,
            CompetitionError::VaultNotFound => ErrorKind::NotFound,
            CompetitionError::RegistrationClosed => ErrorKind::State,
            CompetitionError::TradingNotStarted => ErrorKind::State,
            CompetitionError::TradingEnded => ErrorKind::State,
            CompetitionError::InsufficientBalance { .. } => ErrorKind::InsufficientBalance,
            CompetitionError::InvalidCredential => ErrorKind::Credential,
            CompetitionError::DivisionByZero => ErrorKind::Arithmetic,
            CompetitionError::Overflow => ErrorKind::Arithmetic,
        }
    }
}

} // verus!
