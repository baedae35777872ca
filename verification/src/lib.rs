//! A fungible-token ledger with a fixed total supply.
//!
//! The ledger tracks per-account balances and per-(owner, spender)
//! allowances, supports direct and delegated transfers, and records a
//! notification event for every state change.  Every operation carries a
//! contract, and the conservation invariant — the balances always sum to
//! the total supply — is proved to hold after each of them.

mod allowances;
mod balances;
mod token;

pub use token::{
    approval_event, approve_post, balances_shifted, lemma_allowance_consumption,
    lemma_approve_overwrites, lemma_balance_bounded, lemma_self_transfer, shifted, transfer_event,
    transfer_from_ok_post, transfer_ok_post, AccountId, Approval, Balance, Error, Event, Token,
    Transfer,
};
