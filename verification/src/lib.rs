//! Builder for atomic flashloan transactions: accumulate an ordered batch of
//! sub-calls, resolve or deploy the borrower contract exactly once, and drive
//! the borrow/execute/repay transaction through an injected client.
//!
//! The heart of the crate is [`builder::FlashloanBuilder`], a session that
//! owns the configuration (lender, owner, token, amount), the one-shot
//! lifecycle of the borrower contract, and the ordered call batch. All
//! network work goes through the caller-supplied [`builder::FlashClient`];
//! the builder itself is verified state-machine logic. Sub-calls are
//! [`calls::Call3`] values, written and read as text records by the verified
//! serializer and parser in [`record`].

pub mod address;
pub mod builder;
pub mod calls;
pub mod errors;
pub mod hex;
pub mod record;
pub mod uint256;
