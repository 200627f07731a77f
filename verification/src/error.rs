//! The error taxonomy shared by every stage of a build.
//!
//! Resolution errors name the missing hash so a caller can fetch it and
//! retry; structural errors name the missing ingredient; conversion errors
//! report a value outside the ledger encoding's range; collaborator errors
//! carry the collaborator's own message unchanged; configuration errors
//! report malformed caller-supplied settings. Balancing divergence is
//! reported distinctly from resource failures, so a caller can tell a
//! non-convergent build from an underfunded wallet.

use vstd::prelude::*;
use crate::chain::RedeemerTag;

verus! {

/// Everything a build can fail with.
#[derive(Debug, PartialEq, Eq)]
pub enum Error {
    /// No redeemer was found for a minting policy with this hash.
    MissingMintRedeemer(Vec<u8>),
    /// No datum value was found for this datum hash.
    MissingDatum(Vec<u8>),
    /// No script was found for this script hash.
    MissingScript(Vec<u8>),
    /// No suitable collateral could be selected.
    MissingCollateral,
    /// The change strategy requires an existing output and there is none.
    MissingChangeOutput,
    /// Execution units were not supplied for this redeemer purpose.
    MissingExUnits(RedeemerTag, u64),
    /// A protocol parameter the request needs is absent.
    MissingProtocolParameter(String),
    /// A domain value fell outside the ledger encoding's range.
    ConversionError(String),
    /// A value or format this builder does not support.
    Unsupported(String),
    /// An internal error with a free-form cause.
    Internal(String),
    /// A transaction build failure with a free-form cause.
    TransactionBuildError(String),
    /// The balancing loop exceeded its iteration bound without converging;
    /// the payload is the bound that was exhausted.
    BalancingDiverged(u64),
    /// A chain-query collaborator failed; its message is kept unchanged.
    ChainQueryError(String),
    /// A wallet collaborator failed; its message is kept unchanged.
    WalletError(String),
    /// A submitter collaborator failed; its message is kept unchanged.
    SubmitterError(String),
    /// A caller-supplied configuration value is invalid.
    InvalidConfiguration(String),
    /// A POSIX time value is invalid.
    InvalidPOSIXTime(String),
}

impl Error {
    /// A short human-readable description of the error kind.
    pub fn describe(&self) -> (r: String)
        ensures
            r@ == match self {
                Error::MissingMintRedeemer(_) => "unable to find redeemer for minting policy"@,
                Error::MissingDatum(_) => "unable to find datum for hash"@,
                Error::MissingScript(_) => "unable to find Plutus script for hash"@,
                Error::MissingCollateral => "couldn't find suitable collateral"@,
                Error::MissingChangeOutput => "change strategy needs an output, but none exists"@,
                Error::MissingExUnits(_, _) => "execution units were not calculated for a redeemer"@,
                Error::MissingProtocolParameter(_) => "a protocol parameter is missing"@,
                Error::ConversionError(_) => "value outside the ledger encoding's range"@,
                Error::Unsupported(_) => "unsupported value"@,
                Error::Internal(_) => "internal error"@,
                Error::TransactionBuildError(_) => "transaction building failed"@,
                Error::BalancingDiverged(_) => "fee balancing did not converge"@,
                Error::ChainQueryError(_) => "chain query failed"@,
                Error::WalletError(_) => "wallet failed"@,
                Error::SubmitterError(_) => "submitter failed"@,
                Error::InvalidConfiguration(_) => "invalid configuration"@,
                Error::InvalidPOSIXTime(_) => "a POSIX time value is invalid"@,
            },
    {
        match self {
            Error::MissingMintRedeemer(_) => "unable to find redeemer for minting policy".to_owned(),
            Error::MissingDatum(_) => "unable to find datum for hash".to_owned(),
            Error::MissingScript(_) => "unable to find Plutus script for hash".to_owned(),
            Error::MissingCollateral => "couldn't find suitable collateral".to_owned(),
            Error::MissingChangeOutput => "change strategy needs an output, but none exists".to_owned(),
            Error::MissingExUnits(_, _) => "execution units were not calculated for a redeemer".to_owned(),
            Error::MissingProtocolParameter(_) => "a protocol parameter is missing".to_owned(),
            Error::ConversionError(_) => "value outside the ledger encoding's range".to_owned(),
            Error::Unsupported(_) => "unsupported value".to_owned(),
            Error::Internal(_) => "internal error".to_owned(),
            Error::TransactionBuildError(_) => "transaction building failed".to_owned(),
            Error::BalancingDiverged(_) => "fee balancing did not converge".to_owned(),
            Error::ChainQueryError(_) => "chain query failed".to_owned(),
            Error::WalletError(_) => "wallet failed".to_owned(),
            Error::SubmitterError(_) => "submitter failed".to_owned(),
            Error::InvalidConfiguration(_) => "invalid configuration".to_owned(),
            Error::InvalidPOSIXTime(_) => "a POSIX time value is invalid".to_owned(),
        }
    }
}

} // verus!
