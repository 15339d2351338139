//! The orchestrator: every ledger write is followed by rule evaluation and,
//! when a rule produces a patch, by a second, best-effort ledger write.
use vstd::prelude::*;
use crate::ledger::{create_outcome, openings_kept, update_outcome, TransactionService};
use crate::model::{
    CreateTransactionRequest, FreshIds, LedgerError, Transaction,
    UpdateTransactionRequest,
};
use crate::rulebook::RuleService;
use crate::rules::{evaluation, FieldPatch, Rule};
use crate::store::{copy_string_opt, transaction_index};

verus! {

/// Relies on `uuid::Uuid::new_v4` and `Uuid::as_u128`: a random identifier.
#[verifier::external_body]
fn new_id() -> (r: u128) {
    uuid::Uuid::new_v4().as_u128()
}

/// Relies on `chrono::Utc::now` and `DateTime::timestamp_millis`: the current
/// time in Unix milliseconds.
#[verifier::external_body]
fn now_millis() -> (r: i64) {
    chrono::Utc::now().timestamp_millis()
}

/// The current time in Unix milliseconds.
pub fn current_time() -> (r: i64) {
    now_millis()
}

/// Three random identifiers for one write.
pub fn fresh_ids() -> (r: FreshIds) {
    FreshIds { transaction_id: new_id(), account_id: new_id(), category_id: new_id() }
}

/// The update request that writes a rule patch. The destination name is
/// left out: a rule sets it as a display name only, never re-resolving the
/// destination account.
pub open spec fn patch_request(p: FieldPatch) -> UpdateTransactionRequest {
    UpdateTransactionRequest {
        destination_account_id: None,
        destination_name: None,
        description: p.description,
        amount: None,
        category: p.category,
        budget_id: p.budget_id,
        transaction_date: None,
    }
}

pub fn patch_to_request(p: FieldPatch) -> (r: UpdateTransactionRequest)
    ensures
        r == patch_request(p),
{
    UpdateTransactionRequest {
        destination_account_id: None,
        destination_name: None,
        description: p.description,
        amount: None,
        category: p.category,
        budget_id: p.budget_id,
        transaction_date: None,
    }
}

/// The ledger tables and result after a ledger write that produced `t` and
/// the rule-driven follow-up write; a failed follow-up leaves the first
/// result in place.
pub open spec fn follow_up(
    accts: Seq<crate::model::Account>,
    cats: Seq<crate::model::Category>,
    txns: Seq<Transaction>,
    currency: String,
    rules: Seq<Rule>,
    t: Transaction,
    second: FreshIds,
    now: i64,
) -> (Seq<crate::model::Account>, Seq<crate::model::Category>, Seq<Transaction>, Transaction) {
    match evaluation(rules, t) {
        None => (accts, cats, txns, t),
        Some(p) => match update_outcome(accts, cats, txns, currency, t.id, patch_request(p), second, now) {
            Ok(Some((a2, c2, t2))) => {
                let t3 = match p.destination_name {
                    Some(n) => Transaction { destination_name: Some(n), ..t2 },
                    None => t2,
                };
                (a2, c2, txns.update(transaction_index(txns, t.id), t3), t3)
            },
            _ => (accts, cats, txns, t),
        },
    }
}

/// Outcome of an orchestrated create.
pub open spec fn orchestrated_create(
    l: TransactionService,
    rules: Seq<Rule>,
    req: CreateTransactionRequest,
    first: FreshIds,
    second: FreshIds,
    now: i64,
) -> Result<(Seq<crate::model::Account>, Seq<crate::model::Category>, Seq<Transaction>, Transaction), LedgerError> {
    match create_outcome(
        l.accounts@,
        l.categories@,
        l.transactions@,
        l.default_currency,
        req,
        first,
        now,
    ) {
        Err(e) => Err(e),
        Ok((a, c, t)) => Ok(
            follow_up(a, c, l.transactions@.push(t), l.default_currency, rules, t, second, now),
        ),
    }
}

/// Outcome of an orchestrated update.
pub open spec fn orchestrated_update(
    l: TransactionService,
    rules: Seq<Rule>,
    id: u128,
    patch: UpdateTransactionRequest,
    first: FreshIds,
    second: FreshIds,
    now: i64,
) -> Result<Option<(Seq<crate::model::Account>, Seq<crate::model::Category>, Seq<Transaction>, Transaction)>, LedgerError> {
    match update_outcome(
        l.accounts@,
        l.categories@,
        l.transactions@,
        l.default_currency,
        id,
        patch,
        first,
        now,
    ) {
        Err(e) => Err(e),
        Ok(None) => Ok(None),
        Ok(Some((a, c, t))) => Ok(
            Some(
                follow_up(
                    a,
                    c,
                    l.transactions@.update(transaction_index(l.transactions@, id), t),
                    l.default_currency,
                    rules,
                    t,
                    second,
                    now,
                ),
            ),
        ),
    }
}

/// A ledger and its rules, written to only through rule-aware operations.
pub struct TransactionRuleService {
    pub transaction_service: TransactionService,
    pub rule_service: RuleService,
}

impl TransactionRuleService {
    pub open spec fn wf(&self) -> bool {
        self.transaction_service.wf() && self.rule_service.wf()
    }

    pub fn new(transaction_service: TransactionService, rule_service: RuleService) -> (r: TransactionRuleService)
        ensures
            r.transaction_service == transaction_service,
            r.rule_service == rule_service,
    {
        TransactionRuleService { transaction_service, rule_service }
    }

    /// Runs the rules on `t` and writes a produced patch with `second` and
    /// `now`; returns the transaction as it stands afterwards.
    fn apply_rules_after_write(&mut self, t: Transaction, second: FreshIds, now: i64) -> (r: Transaction)
        requires
            old(self).wf(),
            transaction_index(old(self).transaction_service.transactions@, t.id) >= 0,
        ensures
            final(self).wf(),
            final(self).rule_service == old(self).rule_service,
            final(self).transaction_service.default_currency == old(self).transaction_service.default_currency,
            openings_kept(old(self).transaction_service, final(self).transaction_service),
            ({
                let (a, c, x, u) = follow_up(
                    old(self).transaction_service.accounts@,
                    old(self).transaction_service.categories@,
                    old(self).transaction_service.transactions@,
                    old(self).transaction_service.default_currency,
                    old(self).rule_service.rules@,
                    t,
                    second,
                    now,
                );
                &&& r == u
                &&& final(self).transaction_service.accounts@ == a
                &&& final(self).transaction_service.categories@ == c
                &&& final(self).transaction_service.transactions@ == x
            }),
    {
        match self.rule_service.apply_rules_to_transaction(&t) {
            None => t,
            Some(p) => {
                let label = copy_string_opt(&p.destination_name);
                let upd = patch_to_request(p);
                match self.transaction_service.update_transaction_with(t.id, &upd, second, now) {
                    Ok(Some(t2)) => match label {
                        Some(n) => {
                            let ghost txns1 = self.transaction_service.transactions@;
                            proof {
                                let o = old(self).transaction_service.transactions@;
                                let ti = transaction_index(o, t.id);
                                crate::store::lemma_transaction_index_valid(o, t.id);
                                assert(txns1[ti].id == t.id);
                                crate::store::lemma_transaction_index_found(txns1, t.id, ti);
                                crate::store::lemma_transaction_index_valid(txns1, t.id);
                                crate::ledger::lemma_transaction_index_unique(txns1, t.id, ti);
                            }
                            let mut t3 = t2;
                            t3.destination_name = Some(n.clone());
                            self.transaction_service.relabel_destination(t.id, n);
                            t3
                        },
                        None => t2,
                    },
                    _ => t,
                }
            },
        }
    }

    /// Creates a transaction with the identifiers `first`, then writes the
    /// patch the rules produce for it with `second`, at time `now`. A failed
    /// follow-up write leaves the created transaction as the result.
    pub fn create_transaction_at(
        &mut self,
        req: &CreateTransactionRequest,
        first: FreshIds,
        second: FreshIds,
        now: i64,
    ) -> (r: Result<Transaction, LedgerError>)
        requires
            old(self).wf(),
        ensures
            final(self).wf(),
            final(self).rule_service == old(self).rule_service,
            match orchestrated_create(old(self).transaction_service, old(self).rule_service.rules@, *req, first, second, now) {
                Ok((a, c, x, t)) => {
                    &&& r == Ok::<Transaction, LedgerError>(t)
                    &&& final(self).transaction_service.accounts@ == a
                    &&& final(self).transaction_service.categories@ == c
                    &&& final(self).transaction_service.transactions@ == x
                    &&& final(self).transaction_service.default_currency == old(self).transaction_service.default_currency
                    &&& openings_kept(old(self).transaction_service, final(self).transaction_service)
                },
                Err(e) => r == Err::<Transaction, LedgerError>(e) && *final(self) == *old(self),
            },
    {
        match self.transaction_service.create_transaction_with(req, first, now) {
            Err(e) => Err(e),
            Ok(t) => {
                proof {
                    let n = self.transaction_service.transactions@;
                    assert(n[n.len() - 1].id == t.id);
                    crate::store::lemma_transaction_index_valid(n, t.id);
                    crate::store::lemma_transaction_index_found(n, t.id, n.len() - 1);
                }
                Ok(self.apply_rules_after_write(t, second, now))
            },
        }
    }

    /// Updates transaction `id` with `patch` using `first`, then writes the
    /// patch the rules produce for the result with `second`, at time `now`.
    pub fn update_transaction_at(
        &mut self,
        id: u128,
        patch: &UpdateTransactionRequest,
        first: FreshIds,
        second: FreshIds,
        now: i64,
    ) -> (r: Result<Option<Transaction>, LedgerError>)
        requires
            old(self).wf(),
        ensures
            final(self).wf(),
            final(self).rule_service == old(self).rule_service,
            match orchestrated_update(old(self).transaction_service, old(self).rule_service.rules@, id, *patch, first, second, now) {
                Ok(Some((a, c, x, t))) => {
                    &&& r == Ok::<Option<Transaction>, LedgerError>(Some(t))
                    &&& final(self).transaction_service.accounts@ == a
                    &&& final(self).transaction_service.categories@ == c
                    &&& final(self).transaction_service.transactions@ == x
                    &&& final(self).transaction_service.default_currency == old(self).transaction_service.default_currency
                    &&& openings_kept(old(self).transaction_service, final(self).transaction_service)
                },
                Ok(None) => r == Ok::<Option<Transaction>, LedgerError>(None) && *final(self) == *old(self),
                Err(e) => r == Err::<Option<Transaction>, LedgerError>(e) && *final(self) == *old(self),
            },
    {
        match self.transaction_service.update_transaction_with(id, patch, first, now) {
            Err(e) => Err(e),
            Ok(None) => Ok(None),
            Ok(Some(t)) => {
                proof {
                    let o = old(self).transaction_service.transactions@;
                    let ti = transaction_index(o, id);
                    let n = self.transaction_service.transactions@;
                    crate::store::lemma_transaction_index_valid(o, id);
                    assert(n[ti].id == t.id);
                    crate::store::lemma_transaction_index_found(n, t.id, ti);
                }
                Ok(Some(self.apply_rules_after_write(t, second, now)))
            },
        }
    }

    /// Creates a transaction and applies the rules to it, with random
    /// identifiers and the current time. On failure nothing is written.
    pub fn create_transaction(&mut self, req: &CreateTransactionRequest) -> (r: Result<Transaction, LedgerError>)
        requires
            old(self).wf(),
        ensures
            final(self).wf(),
            final(self).rule_service == old(self).rule_service,
            exists|first: FreshIds, second: FreshIds, now: i64|
                match #[trigger] orchestrated_create(old(self).transaction_service, old(self).rule_service.rules@, *req, first, second, now) {
                    Ok((a, c, x, t)) => {
                        &&& r == Ok::<Transaction, LedgerError>(t)
                        &&& final(self).transaction_service.accounts@ == a
                        &&& final(self).transaction_service.categories@ == c
                        &&& final(self).transaction_service.transactions@ == x
                        &&& final(self).transaction_service.default_currency == old(self).transaction_service.default_currency
                        &&& openings_kept(old(self).transaction_service, final(self).transaction_service)
                    },
                    Err(e) => r == Err::<Transaction, LedgerError>(e) && *final(self) == *old(self),
                },
    {
        let first = fresh_ids();
        let second = fresh_ids();
        let now = current_time();
        self.create_transaction_at(req, first, second, now)
    }

    /// Updates a transaction and applies the rules to the result, with
    /// random identifiers and the current time. On failure nothing is written.
    pub fn update_transaction(&mut self, id: u128, patch: &UpdateTransactionRequest) -> (r: Result<
        Option<Transaction>,
        LedgerError,
    >)
        requires
            old(self).wf(),
        ensures
            final(self).wf(),
            final(self).rule_service == old(self).rule_service,
            exists|first: FreshIds, second: FreshIds, now: i64|
                match #[trigger] orchestrated_update(old(self).transaction_service, old(self).rule_service.rules@, id, *patch, first, second, now) {
                    Ok(Some((a, c, x, t))) => {
                        &&& r == Ok::<Option<Transaction>, LedgerError>(Some(t))
                        &&& final(self).transaction_service.accounts@ == a
                        &&& final(self).transaction_service.categories@ == c
                        &&& final(self).transaction_service.transactions@ == x
                        &&& final(self).transaction_service.default_currency == old(self).transaction_service.default_currency
                        &&& openings_kept(old(self).transaction_service, final(self).transaction_service)
                    },
                    Ok(None) => r == Ok::<Option<Transaction>, LedgerError>(None) && *final(self) == *old(self),
                    Err(e) => r == Err::<Option<Transaction>, LedgerError>(e) && *final(self) == *old(self),
                },
    {
        let first = fresh_ids();
        let second = fresh_ids();
        let now = current_time();
        self.update_transaction_at(id, patch, first, second, now)
    }

    /// Deletes a transaction at the current time.
    pub fn delete_transaction(&mut self, id: u128) -> (r: Result<bool, LedgerError>)
        requires
            old(self).wf(),
        ensures
            final(self).wf(),
            final(self).rule_service == old(self).rule_service,
            exists|now: i64|
                match #[trigger] crate::ledger::delete_outcome(old(self).transaction_service.accounts@, old(self).transaction_service.transactions@, id, now) {
                    Ok(Some(a)) => {
                        &&& r == Ok::<bool, LedgerError>(true)
                        &&& final(self).transaction_service.accounts@ == a
                        &&& final(self).transaction_service.transactions@ == old(self).transaction_service.transactions@.remove(
                            transaction_index(old(self).transaction_service.transactions@, id),
                        )
                        &&& final(self).transaction_service.categories@ == old(self).transaction_service.categories@
                        &&& final(self).transaction_service.default_currency == old(self).transaction_service.default_currency
                        &&& final(self).transaction_service.opening == old(self).transaction_service.opening
                    },
                    Ok(None) => r == Ok::<bool, LedgerError>(false) && *final(self) == *old(self),
                    Err(e) => r == Err::<bool, LedgerError>(e) && *final(self) == *old(self),
                },
    {
        self.transaction_service.delete_transaction(id)
    }
}

} // verus!
