//! Batch re-evaluation of rules over stored transactions. Only fields that
//! carry no balance effect are rewritten.
use vstd::prelude::*;
use crate::ledger::or_keep;
use crate::model::{net_effect, Transaction};
use crate::rules::{
    apply_actions_to, conditions_hold, evaluation, fold_rules, FieldPatch, Rule, empty_patch,
    evaluate_rules,
};
use crate::store::copy_string_opt;

verus! {

/// `t` with the fields that `p` sets, stamped with `now`.
pub open spec fn patched(t: Transaction, p: FieldPatch, now: i64) -> Transaction {
    Transaction {
        category: or_keep(p.category, t.category),
        budget_id: match p.budget_id {
            Some(b) => Some(b),
            None => t.budget_id,
        },
        description: or_keep(p.description, t.description),
        destination_name: match p.destination_name {
            Some(n) => Some(n),
            None => t.destination_name,
        },
        updated_at: now,
        ..t
    }
}

/// `t` after the rules `rules` have been run on it.
pub open spec fn rewritten(rules: Seq<Rule>, t: Transaction, now: i64) -> Transaction {
    match evaluation(rules, t) {
        Some(p) => patched(t, p, now),
        None => t,
    }
}

/// `after` is `before` with every transaction rewritten by `rules` at `now`.
pub open spec fn all_rewritten(rules: Seq<Rule>, before: Seq<Transaction>, after: Seq<Transaction>, now: i64) -> bool {
    &&& after.len() == before.len()
    &&& forall|k: int| 0 <= k < before.len() ==> #[trigger] after[k] == rewritten(rules, before[k], now)
}

/// How many of `txns` the rules `rules` produce a patch for.
pub open spec fn rewrite_count(rules: Seq<Rule>, txns: Seq<Transaction>) -> nat
    decreases txns.len(),
{
    if txns.len() == 0 {
        0
    } else {
        rewrite_count(rules, txns.drop_last()) + if evaluation(rules, txns.last()) is Some {
            1nat
        } else {
            0nat
        }
    }
}

/// Running rule `rule` over `before` at `now` gave `after` and the count `n`:
/// each transaction rewritten by that rule alone; an inactive rule changes
/// nothing and counts nothing.
pub open spec fn rule_run(rule: Rule, before: Seq<Transaction>, after: Seq<Transaction>, now: i64, n: usize) -> bool {
    &&& all_rewritten(seq![rule], before, after, now)
    &&& n == rewrite_count(seq![rule], before)
    &&& !rule.is_active ==> n == 0 && after == before
}

/// `i` is the position of the first rule with identifier `id`.
pub open spec fn first_with_id(rules: Seq<Rule>, id: u128, i: int) -> bool {
    0 <= i < rules.len() && rules[i].id == id && forall|j: int| 0 <= j < i ==> rules[j].id != id
}

pub open spec fn none_active(rules: Seq<Rule>) -> bool {
    forall|i: int| 0 <= i < rules.len() ==> !(#[trigger] rules[i]).is_active
}

/// Inactive rules produce no patch.
pub proof fn lemma_inactive_rules_fold_empty(rules: Seq<Rule>, t: Transaction)
    requires
        none_active(rules),
    ensures
        fold_rules(rules, t) == empty_patch(),
        evaluation(rules, t) is None,
    decreases rules.len(),
{
    if rules.len() > 0 {
        let d = rules.drop_last();
        assert forall|i: int| 0 <= i < d.len() implies !(#[trigger] d[i]).is_active by {
            assert(d[i] == rules[i]);
        }
        assert(rules.last() == rules[rules.len() - 1]);
        lemma_inactive_rules_fold_empty(d, t);
    }
}

/// With inactive rules only, a batch rewrites nothing and counts nothing.
pub proof fn lemma_inactive_rules_rewrite_nothing(rules: Seq<Rule>, txns: Seq<Transaction>, now: i64)
    requires
        none_active(rules),
    ensures
        rewrite_count(rules, txns) == 0,
        forall|k: int| 0 <= k < txns.len() ==> rewritten(rules, #[trigger] txns[k], now) == txns[k],
    decreases txns.len(),
{
    assert forall|k: int| 0 <= k < txns.len() implies rewritten(rules, #[trigger] txns[k], now) == txns[k] by {
        lemma_inactive_rules_fold_empty(rules, txns[k]);
    }
    if txns.len() > 0 {
        lemma_inactive_rules_rewrite_nothing(rules, txns.drop_last(), now);
        lemma_inactive_rules_fold_empty(rules, txns.last());
    }
}

pub fn patch_transaction(t: &Transaction, p: FieldPatch, now: i64) -> (r: Transaction)
    ensures
        r == patched(*t, p, now),
{
    Transaction {
        id: t.id,
        source_account_id: t.source_account_id,
        destination_account_id: t.destination_account_id,
        destination_name: match p.destination_name {
            Some(n) => Some(n),
            None => copy_string_opt(&t.destination_name),
        },
        description: match p.description {
            Some(d) => d,
            None => t.description.clone(),
        },
        amount: t.amount,
        category: match p.category {
            Some(c) => c,
            None => t.category.clone(),
        },
        category_id: t.category_id,
        budget_id: match p.budget_id {
            Some(b) => Some(b),
            None => t.budget_id,
        },
        transaction_date: t.transaction_date,
        created_at: t.created_at,
        updated_at: now,
    }
}

/// Evaluates the single rule `r` on `t`.
pub fn evaluate_one(r: &Rule, t: &Transaction) -> (res: Option<FieldPatch>)
    ensures
        res == evaluation(seq![*r], *t),
{
    let ghost s = seq![*r];
    assert(s.drop_last() =~= Seq::<Rule>::empty());
    assert(s.last() == *r);
    let empty = FieldPatch { category: None, budget_id: None, description: None, destination_name: None };
    let p = if r.is_active {
        match (&r.conditions, &r.actions) {
            (Some(c), Some(a)) => if conditions_hold(c, t) {
                apply_actions_to(empty, a)
            } else {
                empty
            },
            _ => empty,
        }
    } else {
        empty
    };
    assert(fold_rules(s.drop_last(), *t) == empty_patch());
    assert(p == fold_rules(s, *t));
    if p.category.is_none() && p.budget_id.is_none() && p.description.is_none()
        && p.destination_name.is_none() {
        None
    } else {
        Some(p)
    }
}

/// The rules a batch runs: the whole book, or the one rule at `only`.
pub open spec fn selected(rules: Seq<Rule>, only: Option<usize>) -> Seq<Rule> {
    match only {
        Some(i) => seq![rules[i as int]],
        None => rules,
    }
}

/// Rewrites every transaction of `txns` with the selected rules, at time
/// `now`, and returns how many were rewritten.
pub fn rewrite_all(txns: &mut Vec<Transaction>, rules: &Vec<Rule>, only: Option<usize>, now: i64) -> (r: usize)
    requires
        only matches Some(i) ==> i < rules@.len(),
    ensures
        final(txns)@.len() == old(txns)@.len(),
        forall|k: int|
            0 <= k < old(txns)@.len() ==> #[trigger] final(txns)@[k] == rewritten(
                selected(rules@, only),
                old(txns)@[k],
                now,
            ),
        r == rewrite_count(selected(rules@, only), old(txns)@),
{
    let ghost sel = selected(rules@, only);
    let ghost orig = txns@;
    let n = txns.len();
    let mut count: usize = 0;
    let mut i: usize = 0;
    while i < n
        invariant
            n == orig.len() == txns@.len(),
            i <= n,
            count <= i,
            sel == selected(rules@, only),
            only matches Some(x) ==> x < rules@.len(),
            forall|k: int| 0 <= k < i ==> #[trigger] txns@[k] == rewritten(sel, orig[k], now),
            forall|k: int| i <= k < n ==> #[trigger] txns@[k] == orig[k],
            count == rewrite_count(sel, orig.take(i as int)),
        decreases n - i,
    {
        proof {
            assert(orig.take(i + 1).drop_last() =~= orig.take(i as int));
            assert(orig.take(i + 1).last() == orig[i as int]);
        }
        let res = match only {
            Some(ri) => evaluate_one(&rules[ri], &txns[i]),
            None => evaluate_rules(rules, &txns[i]),
        };
        match res {
            Some(p) => {
                let t2 = patch_transaction(&txns[i], p, now);
                txns.set(i, t2);
                count = count + 1;
            },
            None => {},
        }
        i = i + 1;
    }
    assert(orig.take(n as int) =~= orig);
    count
}

/// Net balance effects depend only on each transaction's legs and amount.
pub proof fn lemma_same_legs(a: Seq<Transaction>, b: Seq<Transaction>, x: u128)
    requires
        a.len() == b.len(),
        forall|k: int|
            0 <= k < a.len() ==> (#[trigger] a[k]).source_account_id == b[k].source_account_id
                && a[k].destination_account_id == b[k].destination_account_id && a[k].amount
                == b[k].amount,
    ensures
        net_effect(a, x) == net_effect(b, x),
    decreases a.len(),
{
    if a.len() > 0 {
        let (da, db) = (a.drop_last(), b.drop_last());
        assert forall|k: int| 0 <= k < da.len() implies (#[trigger] da[k]).source_account_id
            == db[k].source_account_id && da[k].destination_account_id == db[k].destination_account_id
            && da[k].amount == db[k].amount by {
            assert(da[k] == a[k]);
            assert(db[k] == b[k]);
        }
        lemma_same_legs(da, db, x);
        assert(a.last() == a[a.len() - 1]);
    }
}

impl crate::service::TransactionRuleService {
    /// Rewrites the stored transactions with the selected rules; no amount,
    /// account or balance changes.
    fn rewrite_with(&mut self, only: Option<usize>, now: i64) -> (r: usize)
        requires
            old(self).wf(),
            only matches Some(i) ==> i < old(self).rule_service.rules@.len(),
        ensures
            final(self).wf(),
            final(self).rule_service == old(self).rule_service,
            final(self).transaction_service.accounts == old(self).transaction_service.accounts,
            final(self).transaction_service.categories == old(self).transaction_service.categories,
            final(self).transaction_service.default_currency == old(self).transaction_service.default_currency,
            final(self).transaction_service.opening == old(self).transaction_service.opening,
            final(self).transaction_service.transactions@.len() == old(self).transaction_service.transactions@.len(),
            forall|k: int|
                0 <= k < old(self).transaction_service.transactions@.len() ==> #[trigger] final(self).transaction_service.transactions@[k]
                    == rewritten(
                    selected(old(self).rule_service.rules@, only),
                    old(self).transaction_service.transactions@[k],
                    now,
                ),
            r == rewrite_count(selected(old(self).rule_service.rules@, only), old(self).transaction_service.transactions@),
    {
        let ghost before = self.transaction_service.transactions@;
        let r = rewrite_all(&mut self.transaction_service.transactions, &self.rule_service.rules, only, now);
        proof {
            let after = self.transaction_service.transactions@;
            assert forall|k: int| 0 <= k < after.len() implies (#[trigger] after[k]).source_account_id
                == before[k].source_account_id && after[k].destination_account_id
                == before[k].destination_account_id && after[k].amount == before[k].amount
                && after[k].id == before[k].id by {
                assert(after[k] == rewritten(selected(self.rule_service.rules@, only), before[k], now));
            }
            assert forall|x: u128| net_effect(after, x) == net_effect(before, x) by {
                lemma_same_legs(after, before, x);
            }
            assert forall|k: int| 0 <= k < after.len() implies {
                let t = #[trigger] after[k];
                &&& t.source_account_id != t.destination_account_id
                &&& t.amount != 0
                &&& crate::store::has_account(self.transaction_service.accounts@, t.source_account_id)
                &&& crate::store::has_account(self.transaction_service.accounts@, t.destination_account_id)
            } by {
                assert(before[k].source_account_id == after[k].source_account_id);
            }
            assert forall|i: int, j: int| 0 <= i < j < after.len() implies after[i].id != after[j].id by {
                assert(after[i].id == before[i].id);
                assert(after[j].id == before[j].id);
            }
        }
        r
    }

    /// Re-runs all active rules on every stored transaction at time `now`;
    /// returns how many transactions got a patch.
    pub fn apply_all_rules_to_all_transactions_at(&mut self, now: i64) -> (r: usize)
        requires
            old(self).wf(),
        ensures
            final(self).wf(),
            final(self).rule_service == old(self).rule_service,
            final(self).transaction_service.accounts == old(self).transaction_service.accounts,
            final(self).transaction_service.categories == old(self).transaction_service.categories,
            final(self).transaction_service.default_currency == old(self).transaction_service.default_currency,
            final(self).transaction_service.opening == old(self).transaction_service.opening,
            final(self).transaction_service.transactions@.len() == old(self).transaction_service.transactions@.len(),
            forall|k: int|
                0 <= k < old(self).transaction_service.transactions@.len() ==> #[trigger] final(self).transaction_service.transactions@[k]
                    == rewritten(old(self).rule_service.rules@, old(self).transaction_service.transactions@[k], now),
            r == rewrite_count(old(self).rule_service.rules@, old(self).transaction_service.transactions@),
            none_active(old(self).rule_service.rules@) ==> r == 0
                && final(self).transaction_service.transactions@ == old(self).transaction_service.transactions@,
    {
        let ghost before = self.transaction_service.transactions;
        let ghost rules = self.rule_service.rules@;
        let r = self.rewrite_with(None, now);
        proof {
            if none_active(rules) {
                lemma_inactive_rules_rewrite_nothing(rules, before@, now);
                assert(self.transaction_service.transactions@ =~= before@);
            }
        }
        r
    }

    /// Re-runs the rule `rule_id` on every stored transaction at time `now`.
    /// Returns `None` when no rule has that identifier; else how many
    /// transactions got a patch (none for an inactive rule).
    pub fn apply_rule_to_all_transactions_at(&mut self, rule_id: u128, now: i64) -> (r: Option<usize>)
        requires
            old(self).wf(),
        ensures
            final(self).wf(),
            final(self).rule_service == old(self).rule_service,
            final(self).transaction_service.accounts == old(self).transaction_service.accounts,
            final(self).transaction_service.categories == old(self).transaction_service.categories,
            final(self).transaction_service.default_currency == old(self).transaction_service.default_currency,
            final(self).transaction_service.opening == old(self).transaction_service.opening,
            r is None <==> forall|i: int|
                0 <= i < old(self).rule_service.rules@.len() ==> #[trigger] old(self).rule_service.rules@[i].id != rule_id,
            r is None ==> *final(self) == *old(self),
            r is Some ==> exists|i: int|
                #[trigger] first_with_id(old(self).rule_service.rules@, rule_id, i) && rule_run(
                    old(self).rule_service.rules@[i],
                    old(self).transaction_service.transactions@,
                    final(self).transaction_service.transactions@,
                    now,
                    r->Some_0,
                ),
    {
        let mut i: usize = 0;
        while i < self.rule_service.rules.len()
            invariant
                i <= self.rule_service.rules@.len(),
                forall|j: int| 0 <= j < i ==> #[trigger] self.rule_service.rules@[j].id != rule_id,
                *self == *old(self),
                self.wf(),
            decreases self.rule_service.rules@.len() - i,
        {
            if self.rule_service.rules[i].id == rule_id {
                let ghost before = self.transaction_service.transactions@;
                let ghost rule = self.rule_service.rules@[i as int];
                let n = self.rewrite_with(Some(i), now);
                proof {
                    assert(first_with_id(old(self).rule_service.rules@, rule_id, i as int));
                    assert(all_rewritten(seq![rule], before, self.transaction_service.transactions@, now));
                    if !rule.is_active {
                        assert(none_active(seq![rule]));
                        lemma_inactive_rules_rewrite_nothing(seq![rule], before, now);
                        assert(self.transaction_service.transactions@ =~= before);
                    }
                }
                return Some(n);
            }
            i = i + 1;
        }
        None
    }

    /// Re-runs all active rules on every stored transaction, now.
    pub fn apply_all_rules_to_all_transactions(&mut self) -> (r: usize)
        requires
            old(self).wf(),
        ensures
            final(self).wf(),
            final(self).rule_service == old(self).rule_service,
            final(self).transaction_service.accounts == old(self).transaction_service.accounts,
            final(self).transaction_service.categories == old(self).transaction_service.categories,
            final(self).transaction_service.default_currency == old(self).transaction_service.default_currency,
            final(self).transaction_service.opening == old(self).transaction_service.opening,
            exists|now: i64|
                #[trigger] all_rewritten(
                    old(self).rule_service.rules@,
                    old(self).transaction_service.transactions@,
                    final(self).transaction_service.transactions@,
                    now,
                ),
            r == rewrite_count(old(self).rule_service.rules@, old(self).transaction_service.transactions@),
            none_active(old(self).rule_service.rules@) ==> r == 0
                && final(self).transaction_service.transactions@ == old(self).transaction_service.transactions@,
    {
        let now = crate::service::current_time();
        let ghost before = self.transaction_service.transactions@;
        let ghost rules = self.rule_service.rules@;
        let r = self.apply_all_rules_to_all_transactions_at(now);
        assert(all_rewritten(rules, before, self.transaction_service.transactions@, now));
        r
    }

    /// Re-runs one rule on every stored transaction, now.
    pub fn apply_rule_to_all_transactions(&mut self, rule_id: u128) -> (r: Option<usize>)
        requires
            old(self).wf(),
        ensures
            final(self).wf(),
            final(self).rule_service == old(self).rule_service,
            final(self).transaction_service.accounts == old(self).transaction_service.accounts,
            final(self).transaction_service.categories == old(self).transaction_service.categories,
            final(self).transaction_service.default_currency == old(self).transaction_service.default_currency,
            final(self).transaction_service.opening == old(self).transaction_service.opening,
            r is None <==> forall|i: int|
                0 <= i < old(self).rule_service.rules@.len() ==> #[trigger] old(self).rule_service.rules@[i].id != rule_id,
            r is None ==> *final(self) == *old(self),
            r is Some ==> exists|i: int, now: i64|
                first_with_id(old(self).rule_service.rules@, rule_id, i) && #[trigger] rule_run(
                    old(self).rule_service.rules@[i],
                    old(self).transaction_service.transactions@,
                    final(self).transaction_service.transactions@,
                    now,
                    r->Some_0,
                ),
    {
        let now = crate::service::current_time();
        let ghost before = self.transaction_service.transactions@;
        let ghost rules = self.rule_service.rules@;
        let r = self.apply_rule_to_all_transactions_at(rule_id, now);
        proof {
            if r is Some {
                let i = choose|i: int| #[trigger] first_with_id(rules, rule_id, i) && rule_run(
                    rules[i],
                    before,
                    self.transaction_service.transactions@,
                    now,
                    r->Some_0,
                );
                assert(rule_run(rules[i], before, self.transaction_service.transactions@, now, r->Some_0));
            }
        }
        r
    }
}

} // verus!
