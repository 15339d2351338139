//! Lookups and balance adjustment over the account, category and
//! transaction tables of a ledger.
use vstd::prelude::*;
use crate::model::{Account, Category, LedgerError, Transaction};

verus! {

/// Index of the first account with identifier `id`, or -1.
#[verifier::opaque]
pub open spec fn account_index(accts: Seq<Account>, id: u128) -> int {
    if exists|i: int|
        0 <= i < accts.len() && accts[i].id == id && forall|j: int| 0 <= j < i ==> accts[j].id != id {
        choose|i: int|
            0 <= i < accts.len() && accts[i].id == id && forall|j: int|
                0 <= j < i ==> accts[j].id != id
    } else {
        -1
    }
}

/// Index of the first account named `name`, or -1.
#[verifier::opaque]
pub open spec fn account_name_index(accts: Seq<Account>, name: Seq<char>) -> int {
    if exists|i: int|
        0 <= i < accts.len() && accts[i].name@ == name && forall|j: int|
            0 <= j < i ==> accts[j].name@ != name {
        choose|i: int|
            0 <= i < accts.len() && accts[i].name@ == name && forall|j: int|
                0 <= j < i ==> accts[j].name@ != name
    } else {
        -1
    }
}

/// Index of the first category named `name`, or -1.
#[verifier::opaque]
pub open spec fn category_index(cats: Seq<Category>, name: Seq<char>) -> int {
    if exists|i: int|
        0 <= i < cats.len() && cats[i].name@ == name && forall|j: int|
            0 <= j < i ==> cats[j].name@ != name {
        choose|i: int|
            0 <= i < cats.len() && cats[i].name@ == name && forall|j: int|
                0 <= j < i ==> cats[j].name@ != name
    } else {
        -1
    }
}

/// Index of the first transaction with identifier `id`, or -1.
#[verifier::opaque]
pub open spec fn transaction_index(txns: Seq<Transaction>, id: u128) -> int {
    if exists|i: int|
        0 <= i < txns.len() && txns[i].id == id && forall|j: int| 0 <= j < i ==> txns[j].id != id {
        choose|i: int|
            0 <= i < txns.len() && txns[i].id == id && forall|j: int|
                0 <= j < i ==> txns[j].id != id
    } else {
        -1
    }
}

/// The index of `id` is -1 or a position that holds it.
pub proof fn lemma_account_index_valid(accts: Seq<Account>, id: u128)
    ensures
        account_index(accts, id) == -1 || (0 <= account_index(accts, id) < accts.len()
            && accts[account_index(accts, id)].id == id),
{
    reveal(account_index);
}

pub proof fn lemma_transaction_index_valid(txns: Seq<Transaction>, id: u128)
    ensures
        transaction_index(txns, id) == -1 || (0 <= transaction_index(txns, id) < txns.len()
            && txns[transaction_index(txns, id)].id == id),
{
    reveal(transaction_index);
}

/// A position that holds `id` shows that the index of `id` is a valid one.
pub proof fn lemma_transaction_index_found(txns: Seq<Transaction>, id: u128, j: int)
    requires
        0 <= j < txns.len(),
        txns[j].id == id,
    ensures
        0 <= transaction_index(txns, id) <= j,
    decreases j,
{
    reveal(transaction_index);
    if exists|k: int| 0 <= k < j && txns[k].id == id {
        let k = choose|k: int| 0 <= k < j && txns[k].id == id;
        lemma_transaction_index_found(txns, id, k);
    } else {
        assert(0 <= j < txns.len() && txns[j].id == id && forall|k: int| 0 <= k < j ==> txns[k].id != id);
    }
}

pub open spec fn has_account(accts: Seq<Account>, id: u128) -> bool {
    exists|i: int| 0 <= i < accts.len() && accts[i].id == id
}

pub open spec fn has_category_id(cats: Seq<Category>, id: u128) -> bool {
    exists|i: int| 0 <= i < cats.len() && cats[i].id == id
}

pub open spec fn has_transaction(txns: Seq<Transaction>, id: u128) -> bool {
    exists|i: int| 0 <= i < txns.len() && txns[i].id == id
}

pub open spec fn fits_i64(x: int) -> bool {
    i64::MIN <= x <= i64::MAX
}

/// Adds `d` to the balance of the account `id` and stamps it with `now`:
/// fails when no account has that identifier, or when the sum leaves `i64`.
pub open spec fn shifted(accts: Seq<Account>, id: u128, d: int, now: i64) -> Result<
    Seq<Account>,
    LedgerError,
> {
    let i = account_index(accts, id);
    if i < 0 || i >= accts.len() {
        Err(LedgerError::InvariantViolation)
    } else if !fits_i64(accts[i].balance + d) {
        Err(LedgerError::StorageError)
    } else {
        Ok(
            accts.update(
                i,
                Account { balance: (accts[i].balance + d) as i64, updated_at: now, ..accts[i] },
            ),
        )
    }
}

/// The balance effect of moving `amount` from `src` to `dst`: the source is
/// adjusted by `-amount`, then the destination by `amount`.
pub open spec fn two_sided(accts: Seq<Account>, src: u128, dst: u128, amount: int, now: i64) -> Result<
    Seq<Account>,
    LedgerError,
> {
    match shifted(accts, src, -amount, now) {
        Ok(a1) => shifted(a1, dst, amount, now),
        Err(e) => Err(e),
    }
}

pub fn find_account(accts: &Vec<Account>, id: u128) -> (r: Option<usize>)
    ensures
        match r {
            Some(i) => i == account_index(accts@, id) && i < accts@.len() && accts@[i as int].id
                == id,
            None => account_index(accts@, id) == -1 && !has_account(accts@, id),
        },
{
    reveal(account_index);
    let mut i: usize = 0;
    while i < accts.len()
        invariant
            i <= accts@.len(),
            forall|j: int| 0 <= j < i ==> accts@[j].id != id,
        decreases accts@.len() - i,
    {
        if accts[i].id == id {
            let ghost s = accts@;
            assert(0 <= i < s.len() && s[i as int].id == id && forall|j: int|
                0 <= j < i ==> s[j].id != id);
            let ghost c = account_index(s, id);
            assert(c == i) by {
                reveal(account_index);
                if c < i {
                } else if c > i {
                }
            }
            return Some(i);
        }
        i = i + 1;
    }
    None
}

pub fn find_account_named(accts: &Vec<Account>, name: &String) -> (r: Option<usize>)
    ensures
        match r {
            Some(i) => i == account_name_index(accts@, name@) && i < accts@.len()
                && accts@[i as int].name@ == name@,
            None => account_name_index(accts@, name@) == -1,
        },
{
    reveal(account_name_index);
    let mut i: usize = 0;
    while i < accts.len()
        invariant
            i <= accts@.len(),
            forall|j: int| 0 <= j < i ==> accts@[j].name@ != name@,
        decreases accts@.len() - i,
    {
        if accts[i].name == *name {
            let ghost s = accts@;
            assert(0 <= i < s.len() && s[i as int].name@ == name@);
            let ghost c = account_name_index(s, name@);
            assert(c == i) by {
                reveal(account_name_index);
                if c < i {
                } else if c > i {
                }
            }
            return Some(i);
        }
        i = i + 1;
    }
    None
}

pub fn find_category_named(cats: &Vec<Category>, name: &String) -> (r: Option<usize>)
    ensures
        match r {
            Some(i) => i == category_index(cats@, name@) && i < cats@.len() && cats@[i as int].name@
                == name@,
            None => category_index(cats@, name@) == -1,
        },
{
    reveal(category_index);
    let mut i: usize = 0;
    while i < cats.len()
        invariant
            i <= cats@.len(),
            forall|j: int| 0 <= j < i ==> cats@[j].name@ != name@,
        decreases cats@.len() - i,
    {
        if cats[i].name == *name {
            let ghost s = cats@;
            assert(0 <= i < s.len() && s[i as int].name@ == name@);
            let ghost c = category_index(s, name@);
            assert(c == i) by {
                reveal(category_index);
                if c < i {
                } else if c > i {
                }
            }
            return Some(i);
        }
        i = i + 1;
    }
    None
}

pub fn has_category_id_exec(cats: &Vec<Category>, id: u128) -> (r: bool)
    ensures
        r == has_category_id(cats@, id),
{
    let mut i: usize = 0;
    while i < cats.len()
        invariant
            i <= cats@.len(),
            forall|j: int| 0 <= j < i ==> cats@[j].id != id,
        decreases cats@.len() - i,
    {
        if cats[i].id == id {
            return true;
        }
        i = i + 1;
    }
    false
}

pub fn find_transaction(txns: &Vec<Transaction>, id: u128) -> (r: Option<usize>)
    ensures
        match r {
            Some(i) => i == transaction_index(txns@, id) && i < txns@.len() && txns@[i as int].id
                == id,
            None => transaction_index(txns@, id) == -1 && !has_transaction(txns@, id),
        },
{
    reveal(transaction_index);
    let mut i: usize = 0;
    while i < txns.len()
        invariant
            i <= txns@.len(),
            forall|j: int| 0 <= j < i ==> txns@[j].id != id,
        decreases txns@.len() - i,
    {
        if txns[i].id == id {
            let ghost s = txns@;
            assert(0 <= i < s.len() && s[i as int].id == id && forall|j: int|
                0 <= j < i ==> s[j].id != id);
            let ghost c = transaction_index(s, id);
            assert(c == i) by {
                reveal(transaction_index);
                if c < i {
                } else if c > i {
                }
            }
            return Some(i);
        }
        i = i + 1;
    }
    None
}

pub fn copy_string_opt(s: &Option<String>) -> (r: Option<String>)
    ensures
        r == *s,
{
    match s {
        Some(v) => Some(v.clone()),
        None => None,
    }
}

pub fn copy_account(a: &Account) -> (r: Account)
    ensures
        r == *a,
{
    Account {
        id: a.id,
        name: a.name.clone(),
        account_type: a.account_type,
        account_sub_type: copy_string_opt(&a.account_sub_type),
        balance: a.balance,
        currency: a.currency.clone(),
        is_default: a.is_default,
        created_at: a.created_at,
        updated_at: a.updated_at,
    }
}

pub fn copy_transaction(t: &Transaction) -> (r: Transaction)
    ensures
        r == *t,
{
    Transaction {
        id: t.id,
        source_account_id: t.source_account_id,
        destination_account_id: t.destination_account_id,
        destination_name: copy_string_opt(&t.destination_name),
        description: t.description.clone(),
        amount: t.amount,
        category: t.category.clone(),
        category_id: t.category_id,
        budget_id: t.budget_id,
        transaction_date: t.transaction_date,
        created_at: t.created_at,
        updated_at: t.updated_at,
    }
}

pub fn copy_accounts(v: &Vec<Account>) -> (r: Vec<Account>)
    ensures
        r@ == v@,
{
    let mut r: Vec<Account> = Vec::new();
    let mut i: usize = 0;
    while i < v.len()
        invariant
            i <= v@.len(),
            r@ == v@.take(i as int),
        decreases v@.len() - i,
    {
        r.push(copy_account(&v[i]));
        proof {
            assert(v@.take(i + 1) == v@.take(i as int).push(v@[i as int]));
        }
        i = i + 1;
    }
    assert(v@.take(v@.len() as int) == v@);
    r
}

/// Adds `d` to the balance of account `id`; on failure `accts` is unchanged.
pub fn shift_balance(accts: &mut Vec<Account>, id: u128, d: i128, now: i64) -> (r: Result<
    (),
    LedgerError,
>)
    requires
        i64::MIN <= d <= 2 * (i64::MAX as int) + 1,
    ensures
        match shifted(old(accts)@, id, d as int, now) {
            Ok(s) => r is Ok && final(accts)@ == s,
            Err(e) => r == Err::<(), LedgerError>(e) && final(accts)@ == old(accts)@,
        },
{
    match find_account(accts, id) {
        None => Err(LedgerError::InvariantViolation),
        Some(i) => {
            let nb: i128 = accts[i].balance as i128 + d;
            if nb < i64::MIN as i128 || nb > i64::MAX as i128 {
                return Err(LedgerError::StorageError);
            }
            let mut a = copy_account(&accts[i]);
            a.balance = nb as i64;
            a.updated_at = now;
            accts.set(i, a);
            Ok(())
        },
    }
}

/// Moves `amount` from `src` to `dst` on `accts`.
pub fn apply_two_sided(accts: &mut Vec<Account>, src: u128, dst: u128, amount: i128, now: i64) -> (r:
    Result<(), LedgerError>)
    requires
        -(i64::MAX as int) - 1 <= amount <= i64::MAX as int + 1,
    ensures
        match two_sided(old(accts)@, src, dst, amount as int, now) {
            Ok(s) => r is Ok && final(accts)@ == s,
            Err(e) => r == Err::<(), LedgerError>(e),
        },
{
    match shift_balance(accts, src, -amount, now) {
        Err(e) => Err(e),
        Ok(()) => shift_balance(accts, dst, amount, now),
    }
}

} // verus!
