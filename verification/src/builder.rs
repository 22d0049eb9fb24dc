//! The flashloan session: configuration, one-shot borrower deployment, and
//! the borrow/execute/repay transaction.
//!
//! All network work goes through an injected [`FlashClient`]; the builder
//! itself is pure state. Nothing is promised of the client's answers: every
//! contract here holds whatever the client returns.

use vstd::prelude::*;
use crate::address::Address;
use crate::address::default_lender_bytes;
use crate::uint256::U256;
use crate::calls::Call3;
use crate::calls::clone_calls;
use crate::errors::FlashloanError;

verus! {

/// The receipt of a confirmed transaction, as far as the builder reads it.
#[derive(Debug, PartialEq, Eq)]
pub struct TransactionReceipt {
    /// The hash of the confirmed transaction.
    pub transaction_hash: Vec<u8>,
    /// The block the transaction landed in, if the client reports one.
    pub block_number: Option<u64>,
    /// The gas the transaction consumed, if the client reports it.
    pub gas_used: Option<U256>,
}

/// How a deployment request failed.
#[derive(Debug, Clone, Copy, PartialEq, Eq, Structural)]
pub enum DeployFailure {
    /// The request was rejected before it was submitted.
    Rejected,
    /// The request was submitted but never confirmed.
    NotConfirmed,
}

/// The blockchain collaborator a session is built around: account lookup,
/// contract deployment, read-only calls, and transaction submission.
///
/// The caller supplies the implementation; the library promises nothing of
/// its answers and is verified against every possible one.
pub trait FlashClient {
    /// The accounts the client controls, or the underlying failure message.
    fn get_accounts(&self) -> Result<Vec<Address>, String>;

    /// Deploys a borrower contract with `[lender, owner]` as constructor
    /// arguments; returns the deployed contract's address.
    fn deploy_contract(&self, lender: &Address, owner: &Address) -> Result<Address, DeployFailure>;

    /// Invokes the borrower's flash-borrow entry point as a read-only call.
    fn call(&self, borrower: &Address, token: &Address, amount: &U256, calls: &[Call3]) -> Result<
        (),
        String,
    >;

    /// Submits the flash-borrow transaction and awaits its receipt; a client
    /// may legitimately drop tracking and report no receipt.
    fn send_transaction(
        &self,
        borrower: &Address,
        token: &Address,
        amount: &U256,
        calls: &[Call3],
    ) -> Result<Option<TransactionReceipt>, String>;
}

/// The effective lender for a deployment: the explicit argument, else the
/// configured one, else the well-known default.
pub fn resolve_lender(explicit: &Option<Address>, configured: &Option<Address>) -> (r: Address)
    ensures
        match *explicit {
            Some(a) => r@ == a@,
            None => match *configured {
                Some(a) => r@ == a@,
                None => r@ == default_lender_bytes(),
            },
        },
{
    match explicit {
        Some(a) => a.clone(),
        None => match configured {
            Some(a) => a.clone(),
            None => Address::default_lender(),
        },
    }
}

/// The owner for a deployment, as far as it can be resolved without the
/// client: the explicit argument, else the configured one.
pub fn resolve_owner(explicit: &Option<Address>, configured: &Option<Address>) -> (r: Option<
    Address,
>)
    ensures
        match *explicit {
            Some(a) => r matches Some(o) && o@ == a@,
            None => match *configured {
                Some(a) => r matches Some(o) && o@ == a@,
                None => r is None,
            },
        },
{
    match explicit {
        Some(a) => Some(a.clone()),
        None => match configured {
            Some(a) => Some(a.clone()),
            None => None,
        },
    }
}

/// The first account of a client's answer, the last owner fallback;
/// `MissingOwner` when the client offered none.
pub fn first_account(accounts: &Vec<Address>) -> (r: Result<Address, FlashloanError>)
    ensures
        match r {
            Ok(a) => accounts@.len() > 0 && a@ == accounts@[0]@,
            Err(e) => e == FlashloanError::MissingOwner && accounts@.len() == 0,
        },
{
    if accounts.len() == 0 {
        Err(FlashloanError::MissingOwner)
    } else {
        Ok(accounts[0].clone())
    }
}

/// A flashloan session: configuration, the one-shot borrower lifecycle, and
/// the ordered call batch.
pub struct FlashloanBuilder<C: FlashClient> {
    /// The deployed or attached borrower contract; `None` until the one
    /// `None -> Some` transition of the session.
    pub borrower: Option<Address>,
    /// The account to administer the borrower contract; if unset at
    /// deployment time, the client's first account is used.
    pub owner: Option<Address>,
    /// The flash lender; if unset at deployment time, the well-known default
    /// is used.
    pub lender: Option<Address>,
    /// The injected blockchain client.
    pub client: C,
    /// The token to borrow; required before `call` or `execute`.
    pub token: Option<Address>,
    /// The amount to borrow; required before `call` or `execute`.
    pub amount: Option<U256>,
    /// The ordered call batch: insertion order is execution order.
    pub calls: Vec<Call3>,
    /// The network identifier, fixed at session creation.
    pub chain_id: u64,
}

impl<C: FlashClient> FlashloanBuilder<C> {
    /// Everything but the borrower and the call batch is unchanged.
    pub open spec fn config_eq(pre: Self, post: Self) -> bool {
        &&& post.owner == pre.owner
        &&& post.lender == pre.lender
        &&& post.client == pre.client
        &&& post.token == pre.token
        &&& post.amount == pre.amount
        &&& post.chain_id == pre.chain_id
    }

    /// Constructs a session. With `override_contract` supplied the borrower
    /// is attached immediately; otherwise it stays unset until `deploy`.
    pub fn new(
        client: C,
        chain_id: u64,
        owner: Option<Address>,
        lender: Option<Address>,
        token: Option<Address>,
        amount: Option<U256>,
        override_contract: Option<Address>,
    ) -> (r: Self)
        ensures
            r.borrower == override_contract,
            r.owner == owner,
            r.lender == lender,
            r.client == client,
            r.token == token,
            r.amount == amount,
            r.calls@ == Seq::<Call3>::empty(),
            r.chain_id == chain_id,
    {
        FlashloanBuilder {
            borrower: override_contract,
            owner,
            lender,
            client,
            token,
            amount,
            calls: Vec::new(),
            chain_id,
        }
    }

    /// Sets the owner of the borrower contract to deploy.
    pub fn with_owner(&mut self, owner: Address)
        ensures
            *final(self) == (FlashloanBuilder { owner: Some(owner), ..*old(self) }),
    {
        self.owner = Some(owner);
    }

    /// Sets the lender to borrow from.
    pub fn with_lender(&mut self, lender: Address)
        ensures
            *final(self) == (FlashloanBuilder { lender: Some(lender), ..*old(self) }),
    {
        self.lender = Some(lender);
    }

    /// Sets the token to borrow.
    pub fn with_token(&mut self, token: Address)
        ensures
            *final(self) == (FlashloanBuilder { token: Some(token), ..*old(self) }),
    {
        self.token = Some(token);
    }

    /// Sets the amount to borrow.
    pub fn with_amount(&mut self, amount: U256)
        ensures
            *final(self) == (FlashloanBuilder { amount: Some(amount), ..*old(self) }),
    {
        self.amount = Some(amount);
    }

    /// The injected client.
    pub fn inner(&self) -> (r: &C)
        ensures
            *r == self.client,
    {
        &self.client
    }

    /// Appends a call to the end of the batch; the batch keeps insertion
    /// order exactly.
    pub fn add_call(&mut self, call: Call3)
        ensures
            final(self).calls@ == old(self).calls@.push(call),
            final(self).borrower == old(self).borrower,
            Self::config_eq(*old(self), *final(self)),
    {
        self.calls.push(call);
    }

    /// A read-only snapshot of the batch in insertion order; the copy is
    /// deep, so later appends do not touch it.
    pub fn to_ordered_sequence(&self) -> (r: Vec<Call3>)
        ensures
            r.deep_view() == self.calls.deep_view(),
            r@.len() == self.calls@.len(),
    {
        clone_calls(&self.calls)
    }

    /// Deploys a new borrower contract, resolving the lender and owner
    /// fallbacks, and attaches it to the session.
    ///
    /// The lender is the explicit argument, else the configured one, else the
    /// well-known default; the owner is the explicit argument, else the
    /// configured one, else the client's first account. The borrower moves
    /// `None -> Some` exactly on success, and only once per session.
    pub fn deploy(&mut self, lender: Option<Address>, owner: Option<Address>) -> (r: Result<
        (),
        FlashloanError,
    >)
        ensures
            Self::config_eq(*old(self), *final(self)),
            final(self).calls == old(self).calls,
            match r {
                Ok(()) => old(self).borrower is None && final(self).borrower is Some,
                Err(e) => final(self).borrower == old(self).borrower && (
                e == FlashloanError::AlreadyDeployed || e == FlashloanError::MissingOwner
                    || e matches FlashloanError::ClientFailure(_)
                    || e == FlashloanError::ContractDeployError
                    || e == FlashloanError::ContractDeployFailed),
            },
            (r matches Err(e) && e == FlashloanError::AlreadyDeployed) <==> old(
                self,
            ).borrower is Some,
            (owner is Some || old(self).owner is Some) ==> !(r matches Err(e) && (
            e == FlashloanError::MissingOwner || e matches FlashloanError::ClientFailure(_))),
    {
        if self.borrower.is_some() {
            return Err(FlashloanError::AlreadyDeployed);
        }
        let eff_lender = resolve_lender(&lender, &self.lender);
        let eff_owner = match resolve_owner(&owner, &self.owner) {
            Some(o) => o,
            None => {
                match self.client.get_accounts() {
                    Ok(accounts) => match first_account(&accounts) {
                        Ok(a) => a,
                        Err(e) => {
                            return Err(e);
                        },
                    },
                    Err(msg) => {
                        return Err(FlashloanError::ClientFailure(msg));
                    },
                }
            },
        };
        match self.client.deploy_contract(&eff_lender, &eff_owner) {
            Ok(contract) => {
                self.borrower = Some(contract);
                Ok(())
            },
            Err(DeployFailure::Rejected) => Err(FlashloanError::ContractDeployError),
            Err(DeployFailure::NotConfirmed) => Err(FlashloanError::ContractDeployFailed),
        }
    }

    /// Validates the flashloan with a read-only call: the batch, every
    /// `allow_failure = false` call included, and the final repay must
    /// succeed, without submitting a state-changing transaction.
    ///
    /// The required fields are checked in fixed order: token, then amount,
    /// then borrower; the first missing one is the error.
    pub fn call(&mut self) -> (r: Result<(), FlashloanError>)
        ensures
            *final(self) == *old(self),
            (r matches Err(e) && e == FlashloanError::MissingToken) <==> old(self).token is None,
            (r matches Err(e) && e == FlashloanError::MissingAmount) <==> (old(self).token is Some
                && old(self).amount is None),
            (r matches Err(e) && e == FlashloanError::MissingBorrower) <==> (old(
                self,
            ).token is Some && old(self).amount is Some && old(self).borrower is None),
            match r {
                Ok(()) => old(self).token is Some && old(self).amount is Some && old(
                    self,
                ).borrower is Some,
                Err(e) => e == FlashloanError::MissingToken || e == FlashloanError::MissingAmount
                    || e == FlashloanError::MissingBorrower || e matches FlashloanError::ContractError(_),
            },
    {
        let token = match &self.token {
            Some(t) => t.clone(),
            None => {
                return Err(FlashloanError::MissingToken);
            },
        };
        let amount = match self.amount {
            Some(a) => a,
            None => {
                return Err(FlashloanError::MissingAmount);
            },
        };
        let calls = clone_calls(&self.calls);
        self.inner_call(token, amount, calls.as_slice())
    }

    /// The read-only executor behind [`Self::call`]: checks the borrower,
    /// then hands the batch to the client.
    pub fn inner_call(&mut self, token: Address, amount: U256, calls: &[Call3]) -> (r: Result<
        (),
        FlashloanError,
    >)
        ensures
            *final(self) == *old(self),
            (r matches Err(e) && e == FlashloanError::MissingBorrower) <==> old(
                self,
            ).borrower is None,
            match r {
                Ok(()) => old(self).borrower is Some,
                Err(e) => e == FlashloanError::MissingBorrower || e matches FlashloanError::ContractError(_),
            },
    {
        match &self.borrower {
            None => Err(FlashloanError::MissingBorrower),
            Some(b) => match self.client.call(b, &token, &amount, calls) {
                Ok(()) => Ok(()),
                Err(msg) => Err(FlashloanError::ContractError(msg)),
            },
        }
    }

    /// Executes the flashloan as a state-changing transaction and awaits
    /// confirmation; the receipt is returned if the client produces one.
    ///
    /// The required fields are checked in fixed order: token, then amount,
    /// then borrower; the first missing one is the error. A failed execution
    /// leaves the session unchanged, so the caller may retry.
    pub fn execute(&mut self) -> (r: Result<Option<TransactionReceipt>, FlashloanError>)
        ensures
            *final(self) == *old(self),
            (r matches Err(e) && e == FlashloanError::MissingToken) <==> old(self).token is None,
            (r matches Err(e) && e == FlashloanError::MissingAmount) <==> (old(self).token is Some
                && old(self).amount is None),
            (r matches Err(e) && e == FlashloanError::MissingBorrower) <==> (old(
                self,
            ).token is Some && old(self).amount is Some && old(self).borrower is None),
            match r {
                Ok(_) => old(self).token is Some && old(self).amount is Some && old(
                    self,
                ).borrower is Some,
                Err(e) => e == FlashloanError::MissingToken || e == FlashloanError::MissingAmount
                    || e == FlashloanError::MissingBorrower || e matches FlashloanError::ContractError(_),
            },
    {
        let token = match &self.token {
            Some(t) => t.clone(),
            None => {
                return Err(FlashloanError::MissingToken);
            },
        };
        let amount = match self.amount {
            Some(a) => a,
            None => {
                return Err(FlashloanError::MissingAmount);
            },
        };
        let calls = clone_calls(&self.calls);
        self.inner_execute(token, amount, calls.as_slice())
    }

    /// The transaction executor behind [`Self::execute`]: checks the
    /// borrower, then submits the batch through the client.
    pub fn inner_execute(&mut self, token: Address, amount: U256, calls: &[Call3]) -> (r: Result<
        Option<TransactionReceipt>,
        FlashloanError,
    >)
        ensures
            *final(self) == *old(self),
            (r matches Err(e) && e == FlashloanError::MissingBorrower) <==> old(
                self,
            ).borrower is None,
            match r {
                Ok(_) => old(self).borrower is Some,
                Err(e) => e == FlashloanError::MissingBorrower || e matches FlashloanError::ContractError(_),
            },
    {
        match &self.borrower {
            None => Err(FlashloanError::MissingBorrower),
            Some(b) => match self.client.send_transaction(b, &token, &amount, calls) {
                Ok(receipt) => Ok(receipt),
                Err(msg) => Err(FlashloanError::ContractError(msg)),
            },
        }
    }
}

/// Appending calls to an empty batch yields exactly those calls in order:
/// with three calls appended one after the other, the batch reads back as
/// the three-element sequence in insertion order.
pub proof fn lemma_append_order(c1: Call3, c2: Call3, c3: Call3)
    ensures
        Seq::<Call3>::empty().push(c1).push(c2).push(c3) =~= seq![c1, c2, c3],
{
}

} // verus!
