//! A double-entry transaction ledger with a rule engine that rewrites
//! transaction fields after every ledger write.
//!
//! Amounts and balances are signed integers in minor currency units (cents).
//! Identifiers are 128-bit UUID values and timestamps are Unix milliseconds.
//!
//! - `model`: accounts, categories, transactions, requests, errors.
//! - `store`: lookups and the two-sided balance adjustment.
//! - `ledger`: `TransactionService`, the balance-safe create, update and delete.
//! - `laws`: conservation, reversal and resolution properties of the ledger.
//! - `text`, `rules`: conditions, actions and the rule fold.
//! - `rulebook`: `RuleService`, rules kept in priority-then-name order.
//! - `service`: `TransactionRuleService`, ledger writes followed by rules.
//! - `batch`, `preview`: re-running rules over stored transactions, and
//!   previewing a condition set.
//! - `config`, `account_type`: settings, API errors and request records.
use vstd::prelude::*;

pub mod model;
pub mod store;
pub mod ledger;
pub mod laws;
pub mod text;
pub mod rules;
pub mod rulebook;
pub mod service;
pub mod batch;
pub mod preview;
pub mod config;
pub mod account_type;

verus! {

} // verus!
