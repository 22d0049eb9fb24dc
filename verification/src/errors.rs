//! The error taxonomy of the flashloan builder.

use vstd::prelude::*;

verus! {

/// A flashloan builder error.
///
/// Every fallible operation of the library reports its failure through one of
/// these variants; no verified function of the library panics.
#[derive(Debug, Clone, PartialEq, Eq)]
pub enum FlashloanError {
    /// The deployment request was rejected before it was submitted.
    ContractDeployError,
    /// The deployment was submitted but never confirmed.
    ContractDeployFailed,
    /// A borrower contract is already attached or deployed; the
    /// `None -> Some` transition happens at most once per session.
    AlreadyDeployed,
    /// No borrower contract is attached or deployed yet.
    MissingBorrower,
    /// A call record could not be parsed; carries the offending input.
    CallConstructionError(String),
    /// The token to borrow is not configured.
    MissingToken,
    /// The amount to borrow is not configured.
    MissingAmount,
    /// A simulation or execution call was rejected or reverted; carries the
    /// underlying message.
    ContractError(String),
    /// An account or network query against the client failed; carries the
    /// underlying message.
    ClientFailure(String),
    /// No owner account was configured and the client has none to offer.
    MissingOwner,
}

impl FlashloanError {
    /// A human-readable description of the error.
    pub fn message(&self) -> String {
        match self {
            FlashloanError::ContractDeployError => {
                "failed to create the flashloan borrower contract deployer".to_owned()
            },
            FlashloanError::ContractDeployFailed => {
                "failed to deploy the flashloan borrower contract".to_owned()
            },
            FlashloanError::AlreadyDeployed => {
                "a flashloan borrower contract is already attached or deployed".to_owned()
            },
            FlashloanError::MissingBorrower => {
                "missing the flashloan borrower contract; attach one or deploy a new instance".to_owned()
            },
            FlashloanError::CallConstructionError(input) => {
                let mut m = "failed to construct call from record: ".to_owned();
                m.append(input.as_str());
                m
            },
            FlashloanError::MissingToken => {
                "missing the token address to borrow".to_owned()
            },
            FlashloanError::MissingAmount => {
                "missing the amount to borrow".to_owned()
            },
            FlashloanError::ContractError(msg) => {
                let mut m = "failed to execute the contract call: ".to_owned();
                m.append(msg.as_str());
                m
            },
            FlashloanError::ClientFailure(msg) => {
                let mut m = "failed to query accounts from the client: ".to_owned();
                m.append(msg.as_str());
                m
            },
            FlashloanError::MissingOwner => {
                "missing an owner account and the client offered none".to_owned()
            },
        }
    }
}

} // verus!
