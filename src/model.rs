//! Records of the ledger: accounts, categories, transactions, requests and errors.
use vstd::prelude::*;

verus! {

/// Class of an account.
#[derive(Debug, Clone, Copy, PartialEq, Eq, Structural)]
pub enum AccountClass {
    OnBudget,
    OffBudget,
    External,
}

/// A financial account. `balance` is in cents.
#[derive(Debug)]
pub struct Account {
    pub id: u128,
    pub name: String,
    pub account_type: AccountClass,
    pub account_sub_type: Option<String>,
    pub balance: i64,
    pub currency: String,
    pub is_default: bool,
    pub created_at: i64,
    pub updated_at: i64,
}

/// A transaction category; names are unique within a ledger.
#[derive(Debug)]
pub struct Category {
    pub id: u128,
    pub name: String,
}

/// A committed transaction. A positive `amount` moves value from the source
/// account to the destination account; a negative one moves it back.
#[derive(Debug)]
pub struct Transaction {
    pub id: u128,
    pub source_account_id: u128,
    pub destination_account_id: u128,
    pub destination_name: Option<String>,
    pub description: String,
    pub amount: i64,
    pub category: String,
    pub category_id: Option<u128>,
    pub budget_id: Option<u128>,
    pub transaction_date: i64,
    pub created_at: i64,
    pub updated_at: i64,
}

/// Data required to create a new transaction.
#[derive(Debug)]
pub struct CreateTransactionRequest {
    pub source_account_id: u128,
    /// When absent, the destination is found or created by name.
    pub destination_account_id: Option<u128>,
    /// Name used to resolve the destination; the description is used when absent.
    pub destination_name: Option<String>,
    pub description: String,
    pub amount: i64,
    pub category: String,
    pub budget_id: Option<u128>,
    /// Defaults to the time of the write.
    pub transaction_date: Option<i64>,
}

/// A sparse set of changes to an existing transaction.
#[derive(Debug)]
pub struct UpdateTransactionRequest {
    pub destination_account_id: Option<u128>,
    pub destination_name: Option<String>,
    pub description: Option<String>,
    pub amount: Option<i64>,
    pub category: Option<String>,
    pub budget_id: Option<u128>,
    pub transaction_date: Option<i64>,
}

/// Failures of a ledger operation. A failed operation leaves the ledger as it was.
#[derive(Debug, Clone, Copy, PartialEq, Eq, Structural)]
pub enum LedgerError {
    /// Zero amount, or source equal to destination.
    InvalidTransaction,
    /// A balance update did not find exactly one account.
    InvariantViolation,
    /// The store cannot hold the result: an identifier already in use, or a
    /// balance outside the range of `i64`.
    StorageError,
}

/// Identifiers handed to one ledger write, used only where the write creates
/// a record.
#[derive(Debug, Clone, Copy)]
pub struct FreshIds {
    pub transaction_id: u128,
    pub account_id: u128,
    pub category_id: u128,
}

/// The balance change that transaction `t` causes on account `a`: the source
/// gives `amount`, the destination receives it.
pub open spec fn delta(t: Transaction, a: u128) -> int {
    if a == t.source_account_id {
        -t.amount
    } else if a == t.destination_account_id {
        t.amount as int
    } else {
        0
    }
}

/// The summed balance effect of the transactions `txns` on account `a`.
pub open spec fn net_effect(txns: Seq<Transaction>, a: u128) -> int
    decreases txns.len(),
{
    if txns.len() == 0 {
        0
    } else {
        net_effect(txns.drop_last(), a) + delta(txns.last(), a)
    }
}

/// Every transaction moves value between two legs whose changes sum to zero.
pub proof fn lemma_two_legs_sum_to_zero(t: Transaction)
    requires
        t.source_account_id != t.destination_account_id,
    ensures
        delta(t, t.source_account_id) + delta(t, t.destination_account_id) == 0,
        forall|a: u128|
            a != t.source_account_id && a != t.destination_account_id ==> delta(t, a) == 0,
{
}

} // verus!
