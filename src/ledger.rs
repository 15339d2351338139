//! The transaction ledger: balance-safe create, update and delete of
//! transactions, with category and destination-account resolution.
use vstd::prelude::*;
use crate::model::{
    delta, net_effect, Account, AccountClass, Category, CreateTransactionRequest, FreshIds,
    LedgerError, Transaction, UpdateTransactionRequest,
};
use crate::store::{
    account_index, account_name_index, apply_two_sided, category_index, copy_accounts,
    copy_string_opt, copy_transaction, find_account, find_account_named, find_category_named,
    find_transaction, has_account, has_category_id, has_category_id_exec, has_transaction,
    lemma_account_index_valid, shifted, transaction_index, two_sided,
};

verus! {

/// How a transaction's destination account is obtained.
#[derive(Debug)]
pub enum DestinationPlan {
    /// An existing account (or an explicitly named identifier).
    Found(u128),
    /// No account has the name: an `External` account with this name is created.
    CreateNew(String),
    /// The destination would be the source account itself.
    Invalid,
}

pub open spec fn unique_account_ids(accts: Seq<Account>) -> bool {
    forall|i: int, j: int| 0 <= i < j < accts.len() ==> accts[i].id != accts[j].id
}

pub open spec fn unique_transaction_ids(txns: Seq<Transaction>) -> bool {
    forall|i: int, j: int| 0 <= i < j < txns.len() ==> txns[i].id != txns[j].id
}

pub open spec fn unique_categories(cats: Seq<Category>) -> bool {
    forall|i: int, j: int|
        0 <= i < j < cats.len() ==> cats[i].id != cats[j].id && cats[i].name@ != cats[j].name@
}

/// The destination resolution rule: an explicit identifier is used as given;
/// otherwise the first account named `name` is used, and when there is none
/// a new account of that name is called for. A destination equal to the
/// source is invalid.
pub open spec fn destination_plan(
    accts: Seq<Account>,
    source: u128,
    dest_id: Option<u128>,
    name: String,
) -> DestinationPlan {
    match dest_id {
        Some(d) => if d == source {
            DestinationPlan::Invalid
        } else {
            DestinationPlan::Found(d)
        },
        None => {
            let i = account_name_index(accts, name@);
            if i < 0 {
                DestinationPlan::CreateNew(name)
            } else if accts[i].id == source {
                DestinationPlan::Invalid
            } else {
                DestinationPlan::Found(accts[i].id)
            }
        },
    }
}

/// The category identifier that `name` resolves to, with the category table
/// after resolution: an existing category of that name, or a new one.
pub open spec fn category_resolution(cats: Seq<Category>, name: String, fresh: u128) -> Result<
    (u128, Seq<Category>),
    LedgerError,
> {
    let i = category_index(cats, name@);
    if i >= 0 {
        Ok((cats[i].id, cats))
    } else if has_category_id(cats, fresh) {
        Err(LedgerError::StorageError)
    } else {
        Ok((fresh, cats.push(Category { id: fresh, name })))
    }
}

/// The account synthesised for an unknown destination name.
pub open spec fn external_account(id: u128, name: String, currency: String, now: i64) -> Account {
    Account {
        id,
        name,
        account_type: AccountClass::External,
        account_sub_type: None,
        balance: 0,
        currency,
        is_default: false,
        created_at: now,
        updated_at: now,
    }
}

/// The account table once a destination plan has been carried out, and the
/// destination identifier.
pub open spec fn planned_accounts(
    accts: Seq<Account>,
    plan: DestinationPlan,
    fresh: u128,
    currency: String,
    now: i64,
) -> (Seq<Account>, u128) {
    match plan {
        DestinationPlan::Found(d) => (accts, d),
        DestinationPlan::CreateNew(n) => (accts.push(external_account(fresh, n, currency, now)), fresh),
        DestinationPlan::Invalid => (accts, 0),
    }
}

/// The name used to find the destination when no identifier is given.
pub open spec fn lookup_name(req: CreateTransactionRequest) -> String {
    match req.destination_name {
        Some(n) => n,
        None => req.description,
    }
}

/// Outcome of creating a transaction: the new account and category tables
/// and the committed transaction, or the error.
pub open spec fn create_outcome(
    accts: Seq<Account>,
    cats: Seq<Category>,
    txns: Seq<Transaction>,
    currency: String,
    req: CreateTransactionRequest,
    fresh: FreshIds,
    now: i64,
) -> Result<(Seq<Account>, Seq<Category>, Transaction), LedgerError> {
    match category_resolution(cats, req.category, fresh.category_id) {
        Err(e) => Err(e),
        Ok((cat_id, cats1)) => {
            let plan = destination_plan(
                accts,
                req.source_account_id,
                req.destination_account_id,
                lookup_name(req),
            );
            if plan is CreateNew && has_account(accts, fresh.account_id) {
                Err(LedgerError::StorageError)
            } else if req.amount == 0 || plan is Invalid || planned_accounts(
                accts,
                plan,
                fresh.account_id,
                currency,
                now,
            ).1 == req.source_account_id {
                Err(LedgerError::InvalidTransaction)
            } else if has_transaction(txns, fresh.transaction_id) {
                Err(LedgerError::StorageError)
            } else {
                let (accts0, dst) = planned_accounts(accts, plan, fresh.account_id, currency, now);
                let display = match req.destination_name {
                    Some(n) => n,
                    None => accts0[account_index(accts0, dst)].name,
                };
                match two_sided(accts0, req.source_account_id, dst, req.amount as int, now) {
                    Err(e) => Err(e),
                    Ok(accts1) => Ok(
                        (
                            accts1,
                            cats1,
                            Transaction {
                                id: fresh.transaction_id,
                                source_account_id: req.source_account_id,
                                destination_account_id: dst,
                                destination_name: Some(display),
                                description: req.description,
                                amount: req.amount,
                                category: req.category,
                                category_id: Some(cat_id),
                                budget_id: req.budget_id,
                                transaction_date: match req.transaction_date {
                                    Some(d) => d,
                                    None => now,
                                },
                                created_at: now,
                                updated_at: now,
                            },
                        ),
                    ),
                }
            }
        },
    }
}

/// Category name, identifier and table after an update resolves its category.
pub open spec fn update_category(
    cats: Seq<Category>,
    old_t: Transaction,
    patch: UpdateTransactionRequest,
    fresh: u128,
) -> Result<(String, Option<u128>, Seq<Category>), LedgerError> {
    match patch.category {
        Some(name) => match category_resolution(cats, name, fresh) {
            Ok((id, cats1)) => Ok((name, Some(id), cats1)),
            Err(e) => Err(e),
        },
        None => Ok((old_t.category, old_t.category_id, cats)),
    }
}

/// Destination plan of an update: the explicit identifier, else the name,
/// else the current destination.
pub open spec fn update_plan(accts: Seq<Account>, old_t: Transaction, patch: UpdateTransactionRequest) -> DestinationPlan {
    match (patch.destination_account_id, patch.destination_name) {
        (None, None) => DestinationPlan::Found(old_t.destination_account_id),
        (None, Some(n)) => destination_plan(accts, old_t.source_account_id, None, n),
        (Some(d), _) => destination_plan(
            accts,
            old_t.source_account_id,
            Some(d),
            old_t.description,
        ),
    }
}

/// Display name of the destination after an update.
pub open spec fn update_display(accts: Seq<Account>, old_t: Transaction, patch: UpdateTransactionRequest) -> Option<String> {
    match (patch.destination_account_id, patch.destination_name) {
        (_, Some(n)) => Some(n),
        (Some(d), None) => if account_index(accts, d) >= 0 {
            Some(accts[account_index(accts, d)].name)
        } else {
            old_t.destination_name
        },
        (None, None) => old_t.destination_name,
    }
}

pub open spec fn or_keep<T>(o: Option<T>, v: T) -> T {
    match o {
        Some(x) => x,
        None => v,
    }
}

/// Outcome of updating transaction `id`: `Ok(None)` when there is no such
/// transaction; else the new account and category tables and the updated
/// transaction. The old balance effect is reversed before the new one is
/// applied.
pub open spec fn update_outcome(
    accts: Seq<Account>,
    cats: Seq<Category>,
    txns: Seq<Transaction>,
    currency: String,
    id: u128,
    patch: UpdateTransactionRequest,
    fresh: FreshIds,
    now: i64,
) -> Result<Option<(Seq<Account>, Seq<Category>, Transaction)>, LedgerError> {
    let ti = transaction_index(txns, id);
    if ti < 0 {
        Ok(None)
    } else {
        let old_t = txns[ti];
        match update_category(cats, old_t, patch, fresh.category_id) {
            Err(e) => Err(e),
            Ok((cat_name, cat_id, cats1)) => {
                let plan = update_plan(accts, old_t, patch);
                let amount = or_keep(patch.amount, old_t.amount);
                if plan is CreateNew && has_account(accts, fresh.account_id) {
                    Err(LedgerError::StorageError)
                } else if amount == 0 || plan is Invalid || planned_accounts(
                    accts,
                    plan,
                    fresh.account_id,
                    currency,
                    now,
                ).1 == old_t.source_account_id {
                    Err(LedgerError::InvalidTransaction)
                } else {
                    let (accts0, dst) = planned_accounts(accts, plan, fresh.account_id, currency, now);
                    let src = old_t.source_account_id;
                    match two_sided(accts0, src, old_t.destination_account_id, -old_t.amount, now) {
                        Err(e) => Err(e),
                        Ok(accts1) => match two_sided(accts1, src, dst, amount as int, now) {
                            Err(e) => Err(e),
                            Ok(accts2) => Ok(
                                Some(
                                    (
                                        accts2,
                                        cats1,
                                        Transaction {
                                            id: old_t.id,
                                            source_account_id: src,
                                            destination_account_id: dst,
                                            destination_name: update_display(accts, old_t, patch),
                                            description: or_keep(patch.description, old_t.description),
                                            amount,
                                            category: cat_name,
                                            category_id: cat_id,
                                            budget_id: match patch.budget_id {
                                                Some(b) => Some(b),
                                                None => old_t.budget_id,
                                            },
                                            transaction_date: or_keep(
                                                patch.transaction_date,
                                                old_t.transaction_date,
                                            ),
                                            created_at: old_t.created_at,
                                            updated_at: now,
                                        },
                                    ),
                                ),
                            ),
                        },
                    }
                }
            },
        }
    }
}

/// Outcome of deleting transaction `id`: `Ok(None)` when there is no such
/// transaction; else the account table with its balance effect reversed.
pub open spec fn delete_outcome(accts: Seq<Account>, txns: Seq<Transaction>, id: u128, now: i64) -> Result<
    Option<Seq<Account>>,
    LedgerError,
> {
    let ti = transaction_index(txns, id);
    if ti < 0 {
        Ok(None)
    } else {
        let t = txns[ti];
        match two_sided(accts, t.source_account_id, t.destination_account_id, -t.amount, now) {
            Err(e) => Err(e),
            Ok(a) => Ok(Some(a)),
        }
    }
}

/// Applies the destination rule of `destination_plan`.
pub fn resolve_destination(
    accts: &Vec<Account>,
    source: u128,
    dest_id: Option<u128>,
    name: &String,
) -> (r: DestinationPlan)
    ensures
        r == destination_plan(accts@, source, dest_id, *name),
{
    match dest_id {
        Some(d) => if d == source {
            DestinationPlan::Invalid
        } else {
            DestinationPlan::Found(d)
        },
        None => match find_account_named(accts, name) {
            None => DestinationPlan::CreateNew(name.clone()),
            Some(i) => if accts[i].id == source {
                DestinationPlan::Invalid
            } else {
                DestinationPlan::Found(accts[i].id)
            },
        },
    }
}

/// Resolves a category name without writing: the identifier, and the
/// category to add when the name is new.
pub fn plan_category(cats: &Vec<Category>, name: &String, fresh: u128) -> (r: Result<
    (u128, Option<Category>),
    LedgerError,
>)
    ensures
        match category_resolution(cats@, *name, fresh) {
            Ok((id, cats1)) => r is Ok && r->Ok_0.0 == id && cats1 == match r->Ok_0.1 {
                Some(c) => cats@.push(c),
                None => cats@,
            },
            Err(e) => r == Err::<(u128, Option<Category>), LedgerError>(e),
        },
{
    match find_category_named(cats, name) {
        Some(i) => Ok((cats[i].id, None)),
        None => if has_category_id_exec(cats, fresh) {
            Err(LedgerError::StorageError)
        } else {
            Ok((fresh, Some(Category { id: fresh, name: name.clone() })))
        },
    }
}


/// Whether some account in `accts` is flagged as default.
pub open spec fn has_default(accts: Seq<Account>) -> bool {
    exists|i: int| 0 <= i < accts.len() && accts[i].is_default
}

/// Whether some account is flagged as default.
pub fn any_default(accts: &Vec<Account>) -> (r: bool)
    ensures
        r == has_default(accts@),
{
    let mut i: usize = 0;
    while i < accts.len()
        invariant
            i <= accts@.len(),
            forall|j: int| 0 <= j < i ==> !accts@[j].is_default,
        decreases accts@.len() - i,
    {
        if accts[i].is_default {
            return true;
        }
        i = i + 1;
    }
    false
}

/// An in-memory ledger: accounts, transactions and categories.
///
/// `opening` records each account's balance before any transaction of this
/// ledger touched it; the well-formedness invariant ties every balance to it.
pub struct TransactionService {
    pub accounts: Vec<Account>,
    pub transactions: Vec<Transaction>,
    pub categories: Vec<Category>,
    /// Currency given to synthesised external accounts.
    pub default_currency: String,
    pub opening: Ghost<Map<u128, int>>,
}

/// Accounts present before keep their opening balance; new accounts open at zero.
pub open spec fn openings_kept(before: TransactionService, after: TransactionService) -> bool {
    &&& forall|a: u128| has_account(before.accounts@, a) ==> has_account(after.accounts@, a)
    &&& forall|a: u128| has_account(before.accounts@, a) ==> after.opening@[a] == before.opening@[a]
    &&& forall|k: int|
        0 <= k < after.accounts@.len() && !has_account(before.accounts@, after.accounts@[k].id)
            ==> after.opening@[after.accounts@[k].id] == 0
}

/// Each account's balance is its opening balance plus the summed effect of
/// the live transactions on it.
pub open spec fn balances_conserved(accts: Seq<Account>, txns: Seq<Transaction>, opening: Map<u128, int>) -> bool {
    forall|k: int|
        0 <= k < accts.len() ==> #[trigger] accts[k].balance == opening[accts[k].id] + net_effect(
            txns,
            accts[k].id,
        )
}

/// Every transaction has two distinct existing legs and a non-zero amount.
pub open spec fn transactions_valid(accts: Seq<Account>, txns: Seq<Transaction>) -> bool {
    forall|k: int|
        0 <= k < txns.len() ==> {
            let t = #[trigger] txns[k];
            &&& t.source_account_id != t.destination_account_id
            &&& t.amount != 0
            &&& has_account(accts, t.source_account_id)
            &&& has_account(accts, t.destination_account_id)
        }
}

pub open spec fn at_most_one_default(accts: Seq<Account>) -> bool {
    forall|i: int, j: int| 0 <= i < j < accts.len() && accts[i].is_default ==> !accts[j].is_default
}

pub open spec fn ledger_wf(
    accts: Seq<Account>,
    txns: Seq<Transaction>,
    cats: Seq<Category>,
    opening: Map<u128, int>,
) -> bool {
    &&& unique_account_ids(accts)
    &&& unique_transaction_ids(txns)
    &&& unique_categories(cats)
    &&& at_most_one_default(accts)
    &&& transactions_valid(accts, txns)
    &&& balances_conserved(accts, txns, opening)
}

impl TransactionService {
    pub open spec fn wf(&self) -> bool {
        ledger_wf(self.accounts@, self.transactions@, self.categories@, self.opening@)
    }

    /// An empty ledger whose synthesised accounts are in US dollars.
    pub fn new() -> (r: TransactionService)
        ensures
            r.wf(),
            r.accounts@.len() == 0,
            r.transactions@.len() == 0,
            r.categories@.len() == 0,
            r.default_currency@ == "USD"@,
    {
        TransactionService {
            accounts: Vec::new(),
            transactions: Vec::new(),
            categories: Vec::new(),
            default_currency: "USD".to_owned(),
            opening: Ghost(Map::empty()),
        }
    }

    /// Adds an account with its opening balance. Fails with `StorageError`
    /// when its identifier is taken, or when it is flagged default and
    /// another account already is.
    pub fn open_account(&mut self, account: Account) -> (r: Result<(), LedgerError>)
        requires
            old(self).wf(),
        ensures
            final(self).wf(),
            r is Err <==> (has_account(old(self).accounts@, account.id) || (account.is_default
                && has_default(old(self).accounts@))),
            r is Err ==> r == Err::<(), LedgerError>(LedgerError::StorageError) && *final(self) == *old(self),
            r is Ok ==> final(self).accounts@ == old(self).accounts@.push(account)
                && final(self).transactions@ == old(self).transactions@
                && final(self).categories@ == old(self).categories@
                && final(self).default_currency == old(self).default_currency
                && final(self).opening@ == old(self).opening@.insert(account.id, account.balance as int),
    {
        if find_account(&self.accounts, account.id).is_some() {
            return Err(LedgerError::StorageError);
        }
        if account.is_default && any_default(&self.accounts) {
            return Err(LedgerError::StorageError);
        }
        let ghost old_txns = self.transactions@;
        let ghost id = account.id;
        proof {
            assert forall|k: int| 0 <= k < old_txns.len() implies #[trigger] old_txns[k].source_account_id != id
                && old_txns[k].destination_account_id != id by {
                let t = old_txns[k];
                assert(has_account(self.accounts@, t.source_account_id));
                assert(has_account(self.accounts@, t.destination_account_id));
            }
            lemma_net_unreferenced(old_txns, id);
        }
        let ghost old_accts = self.accounts@;
        let ghost old_open = self.opening@;
        self.opening = Ghost(self.opening@.insert(account.id, account.balance as int));
        self.accounts.push(account);
        proof {
            let na = self.accounts@;
            assert(na == old_accts.push(account));
            assert forall|k: int| 0 <= k < self.transactions@.len() implies {
                let t = #[trigger] self.transactions@[k];
                &&& has_account(na, t.source_account_id)
                &&& has_account(na, t.destination_account_id)
            } by {
                let t = self.transactions@[k];
                let a = choose|j: int| 0 <= j < old_accts.len() && old_accts[j].id == t.source_account_id;
                let b = choose|j: int| 0 <= j < old_accts.len() && old_accts[j].id == t.destination_account_id;
                assert(na[a] == old_accts[a]);
                assert(na[b] == old_accts[b]);
            }
            assert forall|k: int| 0 <= k < na.len() implies #[trigger] na[k].balance
                == self.opening@[na[k].id] + net_effect(self.transactions@, na[k].id) by {
                if k < old_accts.len() {
                    assert(na[k] == old_accts[k]);
                    assert(na[k].id != id);
                } else {
                    assert(na[k] == account);
                }
            }
        }
        Ok(())
    }

    /// Creates a transaction with the identifiers `fresh` and the time `now`.
    /// Resolves the category and the destination, validates, records the
    /// transaction and moves `amount` from source to destination, all or
    /// nothing.
    pub fn create_transaction_with(
        &mut self,
        req: &CreateTransactionRequest,
        fresh: FreshIds,
        now: i64,
    ) -> (r: Result<Transaction, LedgerError>)
        requires
            old(self).wf(),
        ensures
            final(self).wf(),
            match create_outcome(
                old(self).accounts@,
                old(self).categories@,
                old(self).transactions@,
                old(self).default_currency,
                *req,
                fresh,
                now,
            ) {
                Ok((a, c, t)) => {
                    &&& r == Ok::<Transaction, LedgerError>(t)
                    &&& final(self).accounts@ == a
                    &&& final(self).categories@ == c
                    &&& final(self).transactions@ == old(self).transactions@.push(t)
                    &&& final(self).default_currency == old(self).default_currency
                    &&& openings_kept(*old(self), *final(self))
                },
                Err(e) => r == Err::<Transaction, LedgerError>(e) && *final(self) == *old(self),
            },
    {
        let ghost pre = *self;
        let (cat_id, new_cat) = match plan_category(&self.categories, &req.category, fresh.category_id) {
            Ok(p) => p,
            Err(e) => return Err(e),
        };
        let lookup = match &req.destination_name {
            Some(n) => n.clone(),
            None => req.description.clone(),
        };
        let plan = resolve_destination(
            &self.accounts,
            req.source_account_id,
            req.destination_account_id,
            &lookup,
        );
        let ghost gplan = plan;
        let (creates, invalid, dst) = match &plan {
            DestinationPlan::Found(d) => (false, false, *d),
            DestinationPlan::CreateNew(_) => (true, false, fresh.account_id),
            DestinationPlan::Invalid => (false, true, 0),
        };
        if creates && find_account(&self.accounts, fresh.account_id).is_some() {
            return Err(LedgerError::StorageError);
        }
        if req.amount == 0 || invalid || dst == req.source_account_id {
            return Err(LedgerError::InvalidTransaction);
        }
        if find_transaction(&self.transactions, fresh.transaction_id).is_some() {
            return Err(LedgerError::StorageError);
        }
        let mut accts = copy_accounts(&self.accounts);
        match plan {
            DestinationPlan::CreateNew(n) => {
                accts.push(
                    Account {
                        id: fresh.account_id,
                        name: n,
                        account_type: AccountClass::External,
                        account_sub_type: None,
                        balance: 0,
                        currency: self.default_currency.clone(),
                        is_default: false,
                        created_at: now,
                        updated_at: now,
                    },
                );
            },
            _ => {},
        }
        let ghost accts0 = accts@;
        assert(accts0 == planned_accounts(
            self.accounts@,
            gplan,
            fresh.account_id,
            self.default_currency,
            now,
        ).0);
        let display = match &req.destination_name {
            Some(n) => n.clone(),
            None => match find_account(&accts, dst) {
                Some(i) => accts[i].name.clone(),
                None => String::new(),
            },
        };
        match apply_two_sided(&mut accts, req.source_account_id, dst, req.amount as i128, now) {
            Err(e) => return Err(e),
            Ok(()) => {},
        }
        proof {
            lemma_two_sided(accts0, req.source_account_id, dst, req.amount as int, now);
        }
        let t = Transaction {
            id: fresh.transaction_id,
            source_account_id: req.source_account_id,
            destination_account_id: dst,
            destination_name: Some(display),
            description: req.description.clone(),
            amount: req.amount,
            category: req.category.clone(),
            category_id: Some(cat_id),
            budget_id: req.budget_id,
            transaction_date: match req.transaction_date {
                Some(d) => d,
                None => now,
            },
            created_at: now,
            updated_at: now,
        };
        proof {
            lemma_create_wf(
                self.accounts@,
                self.categories@,
                self.transactions@,
                self.opening@,
                self.default_currency,
                *req,
                fresh,
                now,
            );
        }
        self.accounts = accts;
        match new_cat {
            Some(c) => self.categories.push(c),
            None => {},
        }
        self.opening = Ghost(
            if creates {
                self.opening@.insert(fresh.account_id, 0)
            } else {
                self.opening@
            },
        );
        self.transactions.push(copy_transaction(&t));
        proof {
            let out = create_outcome(
                pre.accounts@,
                pre.categories@,
                pre.transactions@,
                pre.default_currency,
                *req,
                fresh,
                now,
            );
            assert(lookup_name(*req) == lookup);
            assert(gplan == destination_plan(
                pre.accounts@,
                req.source_account_id,
                req.destination_account_id,
                lookup_name(*req),
            ));
            assert(out is Ok);
            assert(out->Ok_0.2 == t);
            assert(out->Ok_0.0 == self.accounts@);
            assert(out->Ok_0.1 == self.categories@);
            assert(self.opening@ == opening_after(pre.opening@, creates, fresh.account_id));
        }
        Ok(t)
    }

    /// Updates transaction `id` with `patch`, using `fresh` and `now` where a
    /// record is created or stamped. Returns `Ok(None)` when there is no such
    /// transaction. The old balance effect is reversed and the new one
    /// applied, all or nothing; the source account never changes.
    pub fn update_transaction_with(
        &mut self,
        id: u128,
        patch: &UpdateTransactionRequest,
        fresh: FreshIds,
        now: i64,
    ) -> (r: Result<Option<Transaction>, LedgerError>)
        requires
            old(self).wf(),
        ensures
            final(self).wf(),
            match update_outcome(
                old(self).accounts@,
                old(self).categories@,
                old(self).transactions@,
                old(self).default_currency,
                id,
                *patch,
                fresh,
                now,
            ) {
                Ok(Some((a, c, t))) => {
                    &&& r == Ok::<Option<Transaction>, LedgerError>(Some(t))
                    &&& final(self).accounts@ == a
                    &&& final(self).categories@ == c
                    &&& final(self).transactions@ == old(self).transactions@.update(
                        transaction_index(old(self).transactions@, id),
                        t,
                    )
                    &&& final(self).default_currency == old(self).default_currency
                    &&& openings_kept(*old(self), *final(self))
                },
                Ok(None) => r == Ok::<Option<Transaction>, LedgerError>(None) && *final(self) == *old(self),
                Err(e) => r == Err::<Option<Transaction>, LedgerError>(e) && *final(self) == *old(self),
            },
    {
        let ghost pre = *self;
        let ti = match find_transaction(&self.transactions, id) {
            None => return Ok(None),
            Some(i) => i,
        };
        let old_t = copy_transaction(&self.transactions[ti]);
        let src = old_t.source_account_id;
        let (cat_name, cat_id, new_cat) = match &patch.category {
            Some(name) => match plan_category(&self.categories, name, fresh.category_id) {
                Ok((cid, nc)) => (name.clone(), Some(cid), nc),
                Err(e) => return Err(e),
            },
            None => (old_t.category.clone(), old_t.category_id, None),
        };
        let plan = match (&patch.destination_account_id, &patch.destination_name) {
            (None, None) => DestinationPlan::Found(old_t.destination_account_id),
            (None, Some(n)) => resolve_destination(&self.accounts, src, None, n),
            (Some(d), _) => resolve_destination(&self.accounts, src, Some(*d), &old_t.description),
        };
        let ghost gplan = plan;
        let amount = match patch.amount {
            Some(a) => a,
            None => old_t.amount,
        };
        let (creates, invalid, dst) = match &plan {
            DestinationPlan::Found(d) => (false, false, *d),
            DestinationPlan::CreateNew(_) => (true, false, fresh.account_id),
            DestinationPlan::Invalid => (false, true, 0),
        };
        if creates && find_account(&self.accounts, fresh.account_id).is_some() {
            return Err(LedgerError::StorageError);
        }
        if amount == 0 || invalid || dst == src {
            return Err(LedgerError::InvalidTransaction);
        }
        let display = match (&patch.destination_account_id, &patch.destination_name) {
            (_, Some(n)) => Some(n.clone()),
            (Some(d), None) => match find_account(&self.accounts, *d) {
                Some(i) => Some(self.accounts[i].name.clone()),
                None => copy_string_opt(&old_t.destination_name),
            },
            (None, None) => copy_string_opt(&old_t.destination_name),
        };
        let mut accts = copy_accounts(&self.accounts);
        match plan {
            DestinationPlan::CreateNew(n) => {
                accts.push(
                    Account {
                        id: fresh.account_id,
                        name: n,
                        account_type: AccountClass::External,
                        account_sub_type: None,
                        balance: 0,
                        currency: self.default_currency.clone(),
                        is_default: false,
                        created_at: now,
                        updated_at: now,
                    },
                );
            },
            _ => {},
        }
        let ghost accts0 = accts@;
        assert(accts0 == planned_accounts(
            self.accounts@,
            gplan,
            fresh.account_id,
            self.default_currency,
            now,
        ).0);
        match apply_two_sided(
            &mut accts,
            src,
            old_t.destination_account_id,
            -(old_t.amount as i128),
            now,
        ) {
            Err(e) => return Err(e),
            Ok(()) => {},
        }
        match apply_two_sided(&mut accts, src, dst, amount as i128, now) {
            Err(e) => return Err(e),
            Ok(()) => {},
        }
        let t = Transaction {
            id: old_t.id,
            source_account_id: src,
            destination_account_id: dst,
            destination_name: display,
            description: match &patch.description {
                Some(d) => d.clone(),
                None => old_t.description.clone(),
            },
            amount,
            category: cat_name,
            category_id: cat_id,
            budget_id: match patch.budget_id {
                Some(b) => Some(b),
                None => old_t.budget_id,
            },
            transaction_date: match patch.transaction_date {
                Some(d) => d,
                None => old_t.transaction_date,
            },
            created_at: old_t.created_at,
            updated_at: now,
        };
        proof {
            lemma_update_wf(
                self.accounts@,
                self.categories@,
                self.transactions@,
                self.opening@,
                self.default_currency,
                id,
                *patch,
                fresh,
                now,
            );
        }
        self.accounts = accts;
        match new_cat {
            Some(c) => self.categories.push(c),
            None => {},
        }
        self.opening = Ghost(
            if creates {
                self.opening@.insert(fresh.account_id, 0)
            } else {
                self.opening@
            },
        );
        self.transactions.set(ti, copy_transaction(&t));
        proof {
            let out = update_outcome(
                pre.accounts@,
                pre.categories@,
                pre.transactions@,
                pre.default_currency,
                id,
                *patch,
                fresh,
                now,
            );
            assert(gplan == update_plan(pre.accounts@, old_t, *patch));
            assert(out is Ok);
            assert(out->Ok_0 is Some);
            assert(out->Ok_0->Some_0.2 == t);
            assert(out->Ok_0->Some_0.0 == self.accounts@);
            assert(out->Ok_0->Some_0.1 == self.categories@);
            assert(self.opening@ == opening_after(pre.opening@, creates, fresh.account_id));
        }
        Ok(Some(t))
    }

    /// Sets the display name of transaction `id`'s destination, touching no
    /// account; returns whether the transaction exists.
    pub fn relabel_destination(&mut self, id: u128, name: String) -> (r: bool)
        requires
            old(self).wf(),
        ensures
            final(self).wf(),
            r == (transaction_index(old(self).transactions@, id) >= 0),
            final(self).accounts == old(self).accounts,
            final(self).categories == old(self).categories,
            final(self).default_currency == old(self).default_currency,
            final(self).opening == old(self).opening,
            r ==> final(self).transactions@ == old(self).transactions@.update(
                transaction_index(old(self).transactions@, id),
                Transaction {
                    destination_name: Some(name),
                    ..old(self).transactions@[transaction_index(old(self).transactions@, id)]
                },
            ),
            !r ==> final(self).transactions == old(self).transactions,
    {
        match find_transaction(&self.transactions, id) {
            None => false,
            Some(i) => {
                let mut t = copy_transaction(&self.transactions[i]);
                t.destination_name = Some(name);
                let ghost before = self.transactions@;
                self.transactions.set(i, t);
                proof {
                    let after = self.transactions@;
                    assert forall|k: int| 0 <= k < after.len() implies (#[trigger] after[k]).source_account_id
                        == before[k].source_account_id && after[k].destination_account_id
                        == before[k].destination_account_id && after[k].amount == before[k].amount
                        && after[k].id == before[k].id by {}
                    assert forall|x: u128| net_effect(after, x) == net_effect(before, x) by {
                        crate::batch::lemma_same_legs(after, before, x);
                    }
                    assert forall|k: int| 0 <= k < after.len() implies {
                        let u = #[trigger] after[k];
                        &&& u.source_account_id != u.destination_account_id
                        &&& u.amount != 0
                        &&& has_account(self.accounts@, u.source_account_id)
                        &&& has_account(self.accounts@, u.destination_account_id)
                    } by {
                        assert(before[k].source_account_id == after[k].source_account_id);
                    }
                    assert forall|a: int, b: int| 0 <= a < b < after.len() implies after[a].id != after[b].id by {
                        assert(after[a].id == before[a].id);
                        assert(after[b].id == before[b].id);
                    }
                }
                true
            },
        }
    }

    /// Creates a transaction with random identifiers at the current time.
    pub fn create_transaction(&mut self, req: &CreateTransactionRequest) -> (r: Result<Transaction, LedgerError>)
        requires
            old(self).wf(),
        ensures
            final(self).wf(),
            exists|fresh: FreshIds, now: i64|
                match #[trigger] create_outcome(
                    old(self).accounts@,
                    old(self).categories@,
                    old(self).transactions@,
                    old(self).default_currency,
                    *req,
                    fresh,
                    now,
                ) {
                    Ok((a, c, t)) => {
                        &&& r == Ok::<Transaction, LedgerError>(t)
                        &&& final(self).accounts@ == a
                        &&& final(self).categories@ == c
                        &&& final(self).transactions@ == old(self).transactions@.push(t)
                        &&& final(self).default_currency == old(self).default_currency
                        &&& openings_kept(*old(self), *final(self))
                    },
                    Err(e) => r == Err::<Transaction, LedgerError>(e) && *final(self) == *old(self),
                },
    {
        let fresh = crate::service::fresh_ids();
        let now = crate::service::current_time();
        self.create_transaction_with(req, fresh, now)
    }

    /// Updates a transaction with random identifiers at the current time.
    pub fn update_transaction(&mut self, id: u128, patch: &UpdateTransactionRequest) -> (r: Result<
        Option<Transaction>,
        LedgerError,
    >)
        requires
            old(self).wf(),
        ensures
            final(self).wf(),
            exists|fresh: FreshIds, now: i64|
                match #[trigger] update_outcome(
                    old(self).accounts@,
                    old(self).categories@,
                    old(self).transactions@,
                    old(self).default_currency,
                    id,
                    *patch,
                    fresh,
                    now,
                ) {
                    Ok(Some((a, c, t))) => {
                        &&& r == Ok::<Option<Transaction>, LedgerError>(Some(t))
                        &&& final(self).accounts@ == a
                        &&& final(self).categories@ == c
                        &&& final(self).transactions@ == old(self).transactions@.update(
                            transaction_index(old(self).transactions@, id),
                            t,
                        )
                        &&& final(self).default_currency == old(self).default_currency
                        &&& openings_kept(*old(self), *final(self))
                    },
                    Ok(None) => r == Ok::<Option<Transaction>, LedgerError>(None) && *final(self) == *old(self),
                    Err(e) => r == Err::<Option<Transaction>, LedgerError>(e) && *final(self) == *old(self),
                },
    {
        let fresh = crate::service::fresh_ids();
        let now = crate::service::current_time();
        self.update_transaction_with(id, patch, fresh, now)
    }

    /// Deletes a transaction at the current time.
    pub fn delete_transaction(&mut self, id: u128) -> (r: Result<bool, LedgerError>)
        requires
            old(self).wf(),
        ensures
            final(self).wf(),
            exists|now: i64|
                match #[trigger] delete_outcome(old(self).accounts@, old(self).transactions@, id, now) {
                    Ok(Some(a)) => {
                        &&& r == Ok::<bool, LedgerError>(true)
                        &&& final(self).accounts@ == a
                        &&& final(self).transactions@ == old(self).transactions@.remove(
                            transaction_index(old(self).transactions@, id),
                        )
                        &&& final(self).categories@ == old(self).categories@
                        &&& final(self).default_currency == old(self).default_currency
                        &&& final(self).opening == old(self).opening
                    },
                    Ok(None) => r == Ok::<bool, LedgerError>(false) && *final(self) == *old(self),
                    Err(e) => r == Err::<bool, LedgerError>(e) && *final(self) == *old(self),
                },
    {
        let now = crate::service::current_time();
        self.delete_transaction_with(id, now)
    }

    /// Deletes transaction `id` and reverses its balance effect, all or
    /// nothing. Returns `Ok(false)` when there is no such transaction.
    pub fn delete_transaction_with(&mut self, id: u128, now: i64) -> (r: Result<bool, LedgerError>)
        requires
            old(self).wf(),
        ensures
            final(self).wf(),
            match delete_outcome(old(self).accounts@, old(self).transactions@, id, now) {
                Ok(Some(a)) => {
                    &&& r == Ok::<bool, LedgerError>(true)
                    &&& final(self).accounts@ == a
                    &&& final(self).transactions@ == old(self).transactions@.remove(
                        transaction_index(old(self).transactions@, id),
                    )
                    &&& final(self).categories@ == old(self).categories@
                    &&& final(self).default_currency == old(self).default_currency
                    &&& final(self).opening == old(self).opening
                },
                Ok(None) => r == Ok::<bool, LedgerError>(false) && *final(self) == *old(self),
                Err(e) => r == Err::<bool, LedgerError>(e) && *final(self) == *old(self),
            },
    {
        let ti = match find_transaction(&self.transactions, id) {
            None => return Ok(false),
            Some(i) => i,
        };
        let src = self.transactions[ti].source_account_id;
        let dst = self.transactions[ti].destination_account_id;
        let amount = self.transactions[ti].amount;
        let mut accts = copy_accounts(&self.accounts);
        match apply_two_sided(&mut accts, src, dst, -(amount as i128), now) {
            Err(e) => return Err(e),
            Ok(()) => {},
        }
        proof {
            lemma_delete_wf(self.accounts@, self.categories@, self.transactions@, self.opening@, id, now);
        }
        self.accounts = accts;
        self.transactions.remove(ti);
        Ok(true)
    }
}

/// With distinct names, the index of `name` is the one position that holds it.
pub proof fn lemma_category_index_at(cats: Seq<Category>, name: Seq<char>, j: int)
    requires
        0 <= j < cats.len(),
        cats[j].name@ == name,
        unique_categories(cats),
    ensures
        category_index(cats, name) == j,
{
    reveal(category_index);
    assert(forall|k: int| 0 <= k < j ==> cats[k].name@ != name);
    let c = category_index(cats, name);
    assert(c == j) by {
        if c < j {
        } else if c > j {
        }
    }
}

pub proof fn lemma_category_index_valid(cats: Seq<Category>, name: Seq<char>)
    ensures
        category_index(cats, name) == -1 || (0 <= category_index(cats, name) < cats.len()
            && cats[category_index(cats, name)].name@ == name),
{
    reveal(category_index);
}

/// Resolving a name keeps the category table free of duplicates.
pub proof fn lemma_category_resolution_unique(cats: Seq<Category>, name: String, fresh: u128)
    requires
        unique_categories(cats),
        category_resolution(cats, name, fresh) is Ok,
    ensures
        unique_categories(category_resolution(cats, name, fresh)->Ok_0.1),
{
    lemma_category_index_valid(cats, name@);
    if category_index(cats, name@) < 0 {
        let c2 = cats.push(Category { id: fresh, name });
        assert forall|i: int, j: int| 0 <= i < j < c2.len() implies c2[i].id != c2[j].id && c2[i].name@
            != c2[j].name@ by {
            if j == cats.len() {
                if c2[i].name@ == name@ {
                    lemma_category_index_at(cats, name@, i);
                }
                assert(c2[i] == cats[i]);
            }
        }
    }
}

/// Opening balances after a write that may have created account `fresh`.
pub open spec fn opening_after(opening: Map<u128, int>, creates: bool, fresh: u128) -> Map<u128, int> {
    if creates {
        opening.insert(fresh, 0)
    } else {
        opening
    }
}

/// With distinct identifiers, the index of `id` is the one position holding it.
pub proof fn lemma_transaction_index_unique(txns: Seq<Transaction>, id: u128, j: int)
    requires
        0 <= j < txns.len(),
        txns[j].id == id,
        unique_transaction_ids(txns),
    ensures
        transaction_index(txns, id) == j,
{
    crate::store::lemma_transaction_index_valid(txns, id);
    crate::store::lemma_transaction_index_found(txns, id, j);
}

/// A successful create keeps the ledger well formed.
pub proof fn lemma_create_wf(
    accts: Seq<Account>,
    cats: Seq<Category>,
    txns: Seq<Transaction>,
    opening: Map<u128, int>,
    currency: String,
    req: CreateTransactionRequest,
    fresh: FreshIds,
    now: i64,
)
    requires
        ledger_wf(accts, txns, cats, opening),
    ensures
        create_outcome(accts, cats, txns, currency, req, fresh, now) matches Ok((a, c, t)) ==> {
            let plan = destination_plan(
                accts,
                req.source_account_id,
                req.destination_account_id,
                lookup_name(req),
            );
            let op = opening_after(opening, plan is CreateNew, fresh.account_id);
            &&& ledger_wf(a, txns.push(t), c, op)
            &&& forall|x: u128| has_account(accts, x) ==> op[x] == opening[x] && has_account(a, x)
            &&& forall|k: int| 0 <= k < a.len() && !has_account(accts, a[k].id) ==> op[a[k].id] == 0
        },
{
    if let Ok((a, c, t)) = create_outcome(accts, cats, txns, currency, req, fresh, now) {
        let plan = destination_plan(
            accts,
            req.source_account_id,
            req.destination_account_id,
            lookup_name(req),
        );
        let creates = plan is CreateNew;
        let op = opening_after(opening, creates, fresh.account_id);
        let (accts0, dst) = planned_accounts(accts, plan, fresh.account_id, currency, now);
        let src = req.source_account_id;
        lemma_two_sided(accts0, src, dst, req.amount as int, now);
        lemma_category_resolution_unique(cats, req.category, fresh.category_id);
        assert(unique_account_ids(accts0)) by {
            if creates {
                assert forall|i: int, j: int| 0 <= i < j < accts0.len() implies accts0[i].id
                    != accts0[j].id by {
                    if j == accts.len() {
                        assert(accts0[i] == accts[i]);
                    }
                }
            }
        }
        lemma_two_sided_ids(accts0, src, dst, req.amount as int, now);
        if creates {
            assert forall|k: int| 0 <= k < txns.len() implies #[trigger] txns[k].source_account_id
                != fresh.account_id && txns[k].destination_account_id != fresh.account_id by {
                let t0 = txns[k];
                assert(has_account(accts, t0.source_account_id));
                assert(has_account(accts, t0.destination_account_id));
            }
            lemma_net_unreferenced(txns, fresh.account_id);
        }
        let nt = txns.push(t);
        assert forall|x: u128| has_account(accts, x) implies has_account(accts0, x) by {
            let j = choose|j: int| 0 <= j < accts.len() && accts[j].id == x;
            assert(accts0[j] == accts[j]);
        }
        assert forall|i: int, j: int| 0 <= i < j < nt.len() implies nt[i].id != nt[j].id by {
            if j == txns.len() {
                assert(nt[i] == txns[i]);
            }
        }
        assert forall|k: int| 0 <= k < nt.len() implies {
            let u = #[trigger] nt[k];
            &&& u.source_account_id != u.destination_account_id
            &&& u.amount != 0
            &&& has_account(a, u.source_account_id)
            &&& has_account(a, u.destination_account_id)
        } by {
            if k < txns.len() {
                assert(nt[k] == txns[k]);
            }
        }
        assert forall|i: int, j: int| 0 <= i < j < a.len() && a[i].is_default implies !a[j].is_default by {
            assert(a[i].is_default == accts0[i].is_default);
            assert(a[j].is_default == accts0[j].is_default);
            if j < accts.len() {
                assert(accts0[i] == accts[i]);
                assert(accts0[j] == accts[j]);
            }
        }
        assert forall|k: int| 0 <= k < a.len() implies #[trigger] a[k].balance == op[a[k].id]
            + net_effect(nt, a[k].id) by {
            let id = a[k].id;
            assert(id == accts0[k].id);
            lemma_net_push(txns, t, id);
            if k < accts.len() {
                assert(accts0[k] == accts[k]);
                if creates {
                    assert(id != fresh.account_id);
                }
            }
        }
        assert forall|k: int| 0 <= k < a.len() && !has_account(accts, a[k].id) implies op[a[k].id]
            == 0 by {
            assert(a[k].id == accts0[k].id);
            if k < accts.len() {
                assert(accts0[k] == accts[k]);
            }
        }
    }
}

/// A successful update keeps the ledger well formed.
pub proof fn lemma_update_wf(
    accts: Seq<Account>,
    cats: Seq<Category>,
    txns: Seq<Transaction>,
    opening: Map<u128, int>,
    currency: String,
    id: u128,
    patch: UpdateTransactionRequest,
    fresh: FreshIds,
    now: i64,
)
    requires
        ledger_wf(accts, txns, cats, opening),
    ensures
        update_outcome(accts, cats, txns, currency, id, patch, fresh, now) matches Ok(Some((a, c, t))) ==> {
            let ti = transaction_index(txns, id);
            let plan = update_plan(accts, txns[ti], patch);
            let op = opening_after(opening, plan is CreateNew, fresh.account_id);
            &&& 0 <= ti < txns.len()
            &&& ledger_wf(a, txns.update(ti, t), c, op)
            &&& forall|x: u128| has_account(accts, x) ==> op[x] == opening[x] && has_account(a, x)
            &&& forall|k: int| 0 <= k < a.len() && !has_account(accts, a[k].id) ==> op[a[k].id] == 0
        },
{
    if let Ok(Some((a, c, t))) = update_outcome(accts, cats, txns, currency, id, patch, fresh, now) {
        reveal(transaction_index);
        let ti = transaction_index(txns, id);
        let old_t = txns[ti];
        let plan = update_plan(accts, old_t, patch);
        let creates = plan is CreateNew;
        let op = opening_after(opening, creates, fresh.account_id);
        let (accts0, dst) = planned_accounts(accts, plan, fresh.account_id, currency, now);
        let src = old_t.source_account_id;
        let amount = or_keep(patch.amount, old_t.amount);
        let accts1 = two_sided(accts0, src, old_t.destination_account_id, -old_t.amount, now)->Ok_0;
        assert(transactions_valid(accts, txns));
        assert(old_t.source_account_id != old_t.destination_account_id);
        lemma_two_sided(accts0, src, old_t.destination_account_id, -old_t.amount, now);
        if patch.category is Some {
            lemma_category_resolution_unique(cats, patch.category->Some_0, fresh.category_id);
        }
        assert(unique_account_ids(accts0)) by {
            if creates {
                assert forall|i: int, j: int| 0 <= i < j < accts0.len() implies accts0[i].id
                    != accts0[j].id by {
                    if j == accts.len() {
                        assert(accts0[i] == accts[i]);
                    }
                }
            }
        }
        lemma_two_sided_ids(accts0, src, old_t.destination_account_id, -old_t.amount, now);
        lemma_two_sided(accts1, src, dst, amount as int, now);
        lemma_two_sided_ids(accts1, src, dst, amount as int, now);
        if creates {
            assert forall|k: int| 0 <= k < txns.len() implies #[trigger] txns[k].source_account_id
                != fresh.account_id && txns[k].destination_account_id != fresh.account_id by {
                let t0 = txns[k];
                assert(has_account(accts, t0.source_account_id));
                assert(has_account(accts, t0.destination_account_id));
            }
            lemma_net_unreferenced(txns, fresh.account_id);
        }
        let nt = txns.update(ti, t);
        assert forall|x: u128| has_account(accts, x) implies has_account(accts0, x) by {
            let j = choose|j: int| 0 <= j < accts.len() && accts[j].id == x;
            assert(accts0[j] == accts[j]);
        }
        assert forall|i: int, j: int| 0 <= i < j < nt.len() implies nt[i].id != nt[j].id by {
            assert(txns[i].id != txns[j].id);
        }
        assert forall|k: int| 0 <= k < nt.len() implies {
            let u = #[trigger] nt[k];
            &&& u.source_account_id != u.destination_account_id
            &&& u.amount != 0
            &&& has_account(a, u.source_account_id)
            &&& has_account(a, u.destination_account_id)
        } by {
            if k != ti {
                assert(nt[k] == txns[k]);
            }
        }
        assert forall|i: int, j: int| 0 <= i < j < a.len() && a[i].is_default implies !a[j].is_default by {
            assert(a[i].is_default == accts0[i].is_default);
            assert(a[j].is_default == accts0[j].is_default);
            if j < accts.len() {
                assert(accts0[i] == accts[i]);
                assert(accts0[j] == accts[j]);
            }
        }
        assert forall|k: int| 0 <= k < a.len() implies #[trigger] a[k].balance == op[a[k].id]
            + net_effect(nt, a[k].id) by {
            let x = a[k].id;
            assert(x == accts0[k].id);
            lemma_net_update(txns, ti, t, x);
            if k < accts.len() {
                assert(accts0[k] == accts[k]);
                if creates {
                    assert(x != fresh.account_id);
                }
            }
        }
        assert forall|k: int| 0 <= k < a.len() && !has_account(accts, a[k].id) implies op[a[k].id]
            == 0 by {
            assert(a[k].id == accts0[k].id);
            if k < accts.len() {
                assert(accts0[k] == accts[k]);
            }
        }
    }
}

/// A successful delete keeps the ledger well formed.
pub proof fn lemma_delete_wf(
    accts: Seq<Account>,
    cats: Seq<Category>,
    txns: Seq<Transaction>,
    opening: Map<u128, int>,
    id: u128,
    now: i64,
)
    requires
        ledger_wf(accts, txns, cats, opening),
    ensures
        delete_outcome(accts, txns, id, now) matches Ok(Some(a)) ==> {
            let ti = transaction_index(txns, id);
            &&& 0 <= ti < txns.len()
            &&& ledger_wf(a, txns.remove(ti), cats, opening)
        },
{
    if let Ok(Some(a)) = delete_outcome(accts, txns, id, now) {
        reveal(transaction_index);
        let ti = transaction_index(txns, id);
        let t = txns[ti];
        assert(transactions_valid(accts, txns));
        assert(t.source_account_id != t.destination_account_id);
        lemma_two_sided(accts, t.source_account_id, t.destination_account_id, -t.amount, now);
        lemma_two_sided_ids(accts, t.source_account_id, t.destination_account_id, -t.amount, now);
        let nt = txns.remove(ti);
        assert forall|i: int, j: int| 0 <= i < j < nt.len() implies nt[i].id != nt[j].id by {
            if i < ti {
                if j < ti {
                    assert(txns[i].id != txns[j].id);
                } else {
                    assert(txns[i].id != txns[j + 1].id);
                }
            } else {
                assert(txns[i + 1].id != txns[j + 1].id);
            }
        }
        assert forall|k: int| 0 <= k < nt.len() implies {
            let u = #[trigger] nt[k];
            &&& u.source_account_id != u.destination_account_id
            &&& u.amount != 0
            &&& has_account(a, u.source_account_id)
            &&& has_account(a, u.destination_account_id)
        } by {
            if k < ti {
                assert(nt[k] == txns[k]);
            } else {
                assert(nt[k] == txns[k + 1]);
            }
        }
        assert forall|i: int, j: int| 0 <= i < j < a.len() && a[i].is_default implies !a[j].is_default by {
            assert(a[i].is_default == accts[i].is_default);
            assert(a[j].is_default == accts[j].is_default);
        }
        assert forall|k: int| 0 <= k < a.len() implies #[trigger] a[k].balance == opening[a[k].id]
            + net_effect(nt, a[k].id) by {
            let x = a[k].id;
            assert(x == accts[k].id);
            lemma_net_remove(txns, ti, x);
        }
    }
}

pub proof fn lemma_net_push(s: Seq<Transaction>, t: Transaction, a: u128)
    ensures
        net_effect(s.push(t), a) == net_effect(s, a) + delta(t, a),
{
    assert(s.push(t).drop_last() == s);
}

pub proof fn lemma_net_update(s: Seq<Transaction>, i: int, t: Transaction, a: u128)
    requires
        0 <= i < s.len(),
    ensures
        net_effect(s.update(i, t), a) == net_effect(s, a) - delta(s[i], a) + delta(t, a),
    decreases s.len(),
{
    if i == s.len() - 1 {
        assert(s.update(i, t).drop_last() == s.drop_last());
    } else {
        assert(s.update(i, t).drop_last() == s.drop_last().update(i, t));
        lemma_net_update(s.drop_last(), i, t, a);
    }
}

pub proof fn lemma_net_remove(s: Seq<Transaction>, i: int, a: u128)
    requires
        0 <= i < s.len(),
    ensures
        net_effect(s.remove(i), a) == net_effect(s, a) - delta(s[i], a),
    decreases s.len(),
{
    if i == s.len() - 1 {
        assert(s.remove(i) == s.drop_last());
    } else {
        assert(s.remove(i).drop_last() == s.drop_last().remove(i));
        assert(s.remove(i).last() == s.last());
        lemma_net_remove(s.drop_last(), i, a);
    }
}

/// Transactions that name neither leg `a` leave `a` untouched.
pub proof fn lemma_net_unreferenced(s: Seq<Transaction>, a: u128)
    requires
        forall|k: int|
            0 <= k < s.len() ==> #[trigger] s[k].source_account_id != a
                && s[k].destination_account_id != a,
    ensures
        net_effect(s, a) == 0,
    decreases s.len(),
{
    if s.len() > 0 {
        assert forall|k: int| 0 <= k < s.drop_last().len() implies #[trigger] s.drop_last()[k].source_account_id != a
            && s.drop_last()[k].destination_account_id != a by {
            let u = s[k];
            assert(u.source_account_id != a && u.destination_account_id != a);
            assert(s.drop_last()[k] == u);
        }
        lemma_net_unreferenced(s.drop_last(), a);
        assert(s.last() == s[s.len() - 1]);
    }
}

pub proof fn lemma_shifted(accts: Seq<Account>, id: u128, d: int, now: i64)
    requires
        shifted(accts, id, d, now) is Ok,
    ensures
        ({
            let s = shifted(accts, id, d, now)->Ok_0;
            &&& s.len() == accts.len()
            &&& has_account(accts, id)
            &&& forall|k: int|
                0 <= k < accts.len() ==> {
                    &&& (#[trigger] s[k]).id == accts[k].id
                    &&& s[k].name == accts[k].name
                    &&& s[k].is_default == accts[k].is_default
                    &&& (unique_account_ids(accts) ==> s[k].balance == accts[k].balance + (if accts[k].id == id {
                        d
                    } else {
                        0
                    }))
                }
        }),
{
    lemma_account_index_valid(accts, id);
    let i = account_index(accts, id);
    assert(0 <= i < accts.len() && accts[i].id == id);
}

pub proof fn lemma_two_sided(accts: Seq<Account>, src: u128, dst: u128, amount: int, now: i64)
    requires
        two_sided(accts, src, dst, amount, now) is Ok,
    ensures
        ({
            let s = two_sided(accts, src, dst, amount, now)->Ok_0;
            &&& s.len() == accts.len()
            &&& has_account(accts, src)
            &&& has_account(accts, dst)
            &&& forall|k: int|
                0 <= k < accts.len() ==> {
                    &&& (#[trigger] s[k]).id == accts[k].id
                    &&& s[k].name == accts[k].name
                    &&& s[k].is_default == accts[k].is_default
                    &&& (unique_account_ids(accts) ==> s[k].balance == accts[k].balance + (if accts[k].id == src {
                        -amount
                    } else {
                        0
                    }) + (if accts[k].id == dst {
                        amount
                    } else {
                        0
                    }))
                }
        }),
{
    let a1 = shifted(accts, src, -amount, now)->Ok_0;
    lemma_shifted(accts, src, -amount, now);
    lemma_shifted(a1, dst, amount, now);
    let s = two_sided(accts, src, dst, amount, now)->Ok_0;
    assert(has_account(accts, dst)) by {
        let j = choose|j: int| 0 <= j < a1.len() && a1[j].id == dst;
        assert(accts[j].id == dst);
    }
    if unique_account_ids(accts) {
        assert(unique_account_ids(a1)) by {
            assert forall|i: int, j: int| 0 <= i < j < a1.len() implies a1[i].id != a1[j].id by {
                assert(a1[i].id == accts[i].id);
                assert(a1[j].id == accts[j].id);
            }
        }
    }
}

/// Shifting balances keeps the account identifiers distinct.
pub proof fn lemma_two_sided_ids(accts: Seq<Account>, src: u128, dst: u128, amount: int, now: i64)
    requires
        two_sided(accts, src, dst, amount, now) is Ok,
        unique_account_ids(accts),
    ensures
        unique_account_ids(two_sided(accts, src, dst, amount, now)->Ok_0),
        forall|a: u128| has_account(accts, a) ==> has_account(two_sided(accts, src, dst, amount, now)->Ok_0, a),
{
    lemma_two_sided(accts, src, dst, amount, now);
    let s = two_sided(accts, src, dst, amount, now)->Ok_0;
    assert forall|i: int, j: int| 0 <= i < j < s.len() implies s[i].id != s[j].id by {
        assert(s[i].id == accts[i].id);
        assert(s[j].id == accts[j].id);
    }
    assert forall|a: u128| has_account(accts, a) implies has_account(s, a) by {
        let j = choose|j: int| 0 <= j < accts.len() && accts[j].id == a;
        assert(s[j].id == a);
    }
}

} // verus!
