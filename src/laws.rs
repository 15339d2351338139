//! Properties that hold across ledger operations.
use vstd::prelude::*;
use crate::ledger::{
    category_resolution, create_outcome, delete_outcome, lemma_category_index_at,
    lemma_category_index_valid, lemma_category_resolution_unique, unique_categories,
    update_outcome, TransactionService,
};
use crate::model::{
    delta, lemma_two_legs_sum_to_zero, net_effect, Category, CreateTransactionRequest, FreshIds,
    UpdateTransactionRequest,
};
use crate::store::{category_index, transaction_index, has_transaction, two_sided};
use crate::ledger::{lemma_two_sided, lemma_two_sided_ids, lemma_net_push, unique_account_ids};
use crate::model::{Account, Transaction};
use crate::store::has_account;

verus! {

/// Balance conservation: in a well-formed ledger every account's balance is
/// its opening balance plus the summed effect of the live transactions on
/// it, and each live transaction's two legs sum to zero. Every ledger
/// operation keeps the ledger well formed and keeps existing opening
/// balances, so this holds after any sequence of operations.
pub proof fn lemma_balance_conservation(l: TransactionService)
    requires
        l.wf(),
    ensures
        forall|k: int|
            0 <= k < l.accounts@.len() ==> #[trigger] l.accounts@[k].balance - l.opening@[l.accounts@[k].id]
                == net_effect(l.transactions@, l.accounts@[k].id),
        forall|k: int|
            0 <= k < l.transactions@.len() ==> delta(
                #[trigger] l.transactions@[k],
                l.transactions@[k].source_account_id,
            ) + delta(l.transactions@[k], l.transactions@[k].destination_account_id) == 0,
{
    assert forall|k: int| 0 <= k < l.transactions@.len() implies delta(
        #[trigger] l.transactions@[k],
        l.transactions@[k].source_account_id,
    ) + delta(l.transactions@[k], l.transactions@[k].destination_account_id) == 0 by {
        lemma_two_legs_sum_to_zero(l.transactions@[k]);
    }
}

/// Summed change of all balances since opening.
pub open spec fn total_change(accts: Seq<Account>, opening: Map<u128, int>) -> int
    decreases accts.len(),
{
    if accts.len() == 0 {
        0
    } else {
        total_change(accts.drop_last(), opening) + accts.last().balance - opening[accts.last().id]
    }
}

/// Summed effect of the transactions `txns` over the accounts `accts`.
pub open spec fn effect_over(accts: Seq<Account>, txns: Seq<Transaction>) -> int
    decreases accts.len(),
{
    if accts.len() == 0 {
        0
    } else {
        effect_over(accts.drop_last(), txns) + net_effect(txns, accts.last().id)
    }
}

/// Summed effect of the one transaction `t` over the accounts `accts`.
pub open spec fn one_effect_over(accts: Seq<Account>, t: Transaction) -> int
    decreases accts.len(),
{
    if accts.len() == 0 {
        0
    } else {
        one_effect_over(accts.drop_last(), t) + delta(t, accts.last().id)
    }
}

proof fn lemma_total_change_is_effect(accts: Seq<Account>, txns: Seq<Transaction>, opening: Map<u128, int>)
    requires
        forall|k: int|
            0 <= k < accts.len() ==> #[trigger] accts[k].balance == opening[accts[k].id] + net_effect(
                txns,
                accts[k].id,
            ),
    ensures
        total_change(accts, opening) == effect_over(accts, txns),
    decreases accts.len(),
{
    if accts.len() > 0 {
        let d = accts.drop_last();
        assert forall|k: int| 0 <= k < d.len() implies #[trigger] d[k].balance == opening[d[k].id]
            + net_effect(txns, d[k].id) by {
            assert(d[k] == accts[k]);
        }
        lemma_total_change_is_effect(d, txns, opening);
        assert(accts.last() == accts[accts.len() - 1]);
    }
}

proof fn lemma_effect_push(accts: Seq<Account>, txns: Seq<Transaction>, t: Transaction)
    ensures
        effect_over(accts, txns.push(t)) == effect_over(accts, txns) + one_effect_over(accts, t),
    decreases accts.len(),
{
    if accts.len() > 0 {
        lemma_effect_push(accts.drop_last(), txns, t);
        lemma_net_push(txns, t, accts.last().id);
    }
}

proof fn lemma_effect_empty(accts: Seq<Account>)
    ensures
        effect_over(accts, Seq::empty()) == 0,
    decreases accts.len(),
{
    if accts.len() > 0 {
        lemma_effect_empty(accts.drop_last());
    }
}

proof fn lemma_one_effect(accts: Seq<Account>, t: Transaction)
    requires
        unique_account_ids(accts),
        t.source_account_id != t.destination_account_id,
    ensures
        one_effect_over(accts, t) == (if has_account(accts, t.source_account_id) {
            -t.amount
        } else {
            0
        }) + (if has_account(accts, t.destination_account_id) {
            t.amount as int
        } else {
            0
        }),
    decreases accts.len(),
{
    if accts.len() > 0 {
        let d = accts.drop_last();
        let x = accts.last();
        assert(unique_account_ids(d)) by {
            assert forall|i: int, j: int| 0 <= i < j < d.len() implies d[i].id != d[j].id by {
                assert(d[i] == accts[i]);
                assert(d[j] == accts[j]);
            }
        }
        lemma_one_effect(d, t);
        assert(x == accts[accts.len() - 1]);
        assert forall|a: u128| has_account(accts, a) == (has_account(d, a) || x.id == a) by {
            if has_account(accts, a) && x.id != a {
                let j = choose|j: int| 0 <= j < accts.len() && accts[j].id == a;
                assert(d[j] == accts[j]);
            }
            if has_account(d, a) {
                let j = choose|j: int| 0 <= j < d.len() && d[j].id == a;
                assert(d[j] == accts[j]);
            }
        }
        assert forall|a: u128| x.id == a implies !has_account(d, a) by {
            if has_account(d, a) {
                let j = choose|j: int| 0 <= j < d.len() && d[j].id == a;
                assert(d[j] == accts[j]);
                assert(accts[j].id != accts[accts.len() - 1].id);
            }
        }
    } else {
    }
}

/// The transactions' effect over all accounts is zero when every
/// transaction has two distinct legs among the accounts.
proof fn lemma_effect_zero(accts: Seq<Account>, txns: Seq<Transaction>)
    requires
        unique_account_ids(accts),
        forall|k: int|
            0 <= k < txns.len() ==> {
                let t = #[trigger] txns[k];
                &&& t.source_account_id != t.destination_account_id
                &&& has_account(accts, t.source_account_id)
                &&& has_account(accts, t.destination_account_id)
            },
    ensures
        effect_over(accts, txns) == 0,
    decreases txns.len(),
{
    if txns.len() == 0 {
        lemma_effect_empty(accts);
        assert(txns =~= Seq::<Transaction>::empty());
    } else {
        let d = txns.drop_last();
        assert forall|k: int| 0 <= k < d.len() implies {
            let t = #[trigger] d[k];
            &&& t.source_account_id != t.destination_account_id
            &&& has_account(accts, t.source_account_id)
            &&& has_account(accts, t.destination_account_id)
        } by {
            assert(d[k] == txns[k]);
        }
        lemma_effect_zero(accts, d);
        let t = txns.last();
        assert(t == txns[txns.len() - 1]);
        assert(txns =~= d.push(t));
        lemma_effect_push(accts, d, t);
        lemma_one_effect(accts, t);
    }
}

/// Balance conservation, summed: in a well-formed ledger the balances of all
/// accounts add up to their opening balances, since the live transactions'
/// effects cancel out account by account.
pub proof fn lemma_total_balance_conserved(l: TransactionService)
    requires
        l.wf(),
    ensures
        total_change(l.accounts@, l.opening@) == effect_over(l.accounts@, l.transactions@),
        effect_over(l.accounts@, l.transactions@) == 0,
{
    lemma_total_change_is_effect(l.accounts@, l.transactions@, l.opening@);
    lemma_effect_zero(l.accounts@, l.transactions@);
}

/// Reversal correctness: changing only the amount of a transaction to `b`
/// leaves the same accounts, balances included, as deleting it and creating
/// a transaction with amount `b` and its other fields. The create succeeds
/// whenever the update does and its fresh identifiers are free.
pub proof fn lemma_update_amount_is_delete_then_create(
    l: TransactionService,
    id: u128,
    b: i64,
    patch: UpdateTransactionRequest,
    req: CreateTransactionRequest,
    fresh_u: FreshIds,
    fresh_c: FreshIds,
    now: i64,
)
    requires
        l.wf(),
        transaction_index(l.transactions@, id) >= 0,
        patch.amount == Some(b),
        patch.destination_account_id is None,
        patch.destination_name is None,
        patch.description is None,
        patch.category is None,
        patch.budget_id is None,
        patch.transaction_date is None,
        ({
            let t = l.transactions@[transaction_index(l.transactions@, id)];
            &&& req.source_account_id == t.source_account_id
            &&& req.destination_account_id == Some(t.destination_account_id)
            &&& req.destination_name == t.destination_name
            &&& req.description == t.description
            &&& req.amount == b
            &&& req.category == t.category
            &&& req.budget_id == t.budget_id
            &&& req.transaction_date == Some(t.transaction_date)
        }),
        update_outcome(
            l.accounts@,
            l.categories@,
            l.transactions@,
            l.default_currency,
            id,
            patch,
            fresh_u,
            now,
        ) is Ok,
        !has_transaction(
            l.transactions@.remove(transaction_index(l.transactions@, id)),
            fresh_c.transaction_id,
        ),
        category_resolution(l.categories@, req.category, fresh_c.category_id) is Ok,
    ensures
        ({
            let upd = update_outcome(
                l.accounts@,
                l.categories@,
                l.transactions@,
                l.default_currency,
                id,
                patch,
                fresh_u,
                now,
            );
            let del = delete_outcome(l.accounts@, l.transactions@, id, now);
            &&& del matches Ok(Some(_))
            &&& create_outcome(
                del->Ok_0->Some_0,
                l.categories@,
                l.transactions@.remove(transaction_index(l.transactions@, id)),
                l.default_currency,
                req,
                fresh_c,
                now,
            ) matches Ok((a, _, _)) && a == upd->Ok_0->Some_0.0
        }),
{
    let ti = transaction_index(l.transactions@, id);
    let t = l.transactions@[ti];
    assert(t.source_account_id != t.destination_account_id);
}

/// A write that changes neither amount nor destination, such as a rule
/// patch that sets no destination name, leaves every balance as it was.
pub proof fn lemma_field_patch_keeps_balances(
    l: TransactionService,
    id: u128,
    patch: UpdateTransactionRequest,
    fresh: FreshIds,
    now: i64,
)
    requires
        l.wf(),
        patch.amount is None,
        patch.destination_account_id is None,
        patch.destination_name is None,
    ensures
        update_outcome(
            l.accounts@,
            l.categories@,
            l.transactions@,
            l.default_currency,
            id,
            patch,
            fresh,
            now,
        ) matches Ok(Some((a, _, _))) ==> a.len() == l.accounts@.len() && forall|k: int|
            0 <= k < a.len() ==> #[trigger] a[k].balance == l.accounts@[k].balance && a[k].id
                == l.accounts@[k].id,
{
    if let Ok(Some((a, _, _))) = update_outcome(
        l.accounts@,
        l.categories@,
        l.transactions@,
        l.default_currency,
        id,
        patch,
        fresh,
        now,
    ) {
        let t = l.transactions@[transaction_index(l.transactions@, id)];
        let (src, dst, amt) = (t.source_account_id, t.destination_account_id, t.amount as int);
        let a1 = two_sided(l.accounts@, src, dst, -amt, now)->Ok_0;
        lemma_two_sided(l.accounts@, src, dst, -amt, now);
        lemma_two_sided_ids(l.accounts@, src, dst, -amt, now);
        lemma_two_sided(a1, src, dst, amt, now);
    }
}

/// Idempotent category resolution: resolving a name a second time, in the
/// table the first resolution left, yields the same identifier and adds
/// nothing; the table holds exactly one category of that name.
pub proof fn lemma_category_resolution_idempotent(
    cats: Seq<Category>,
    name: String,
    first: u128,
    second: u128,
)
    requires
        unique_categories(cats),
        category_resolution(cats, name, first) is Ok,
    ensures
        ({
            let (id, after) = category_resolution(cats, name, first)->Ok_0;
            &&& category_resolution(after, name, second) == Ok::<
                (u128, Seq<Category>),
                crate::model::LedgerError,
            >((id, after))
            &&& unique_categories(after)
            &&& exists|i: int| 0 <= i < after.len() && after[i].name@ == name@ && after[i].id == id
            &&& forall|i: int, j: int|
                0 <= i < after.len() && 0 <= j < after.len() && after[i].name@ == name@
                    && after[j].name@ == name@ ==> i == j
        }),
{
    let (id, after) = category_resolution(cats, name, first)->Ok_0;
    lemma_category_resolution_unique(cats, name, first);
    lemma_category_index_valid(cats, name@);
    let i = if category_index(cats, name@) >= 0 {
        category_index(cats, name@)
    } else {
        cats.len() as int
    };
    assert(0 <= i < after.len() && after[i].name@ == name@ && after[i].id == id);
    lemma_category_index_at(after, name@, i);
}

} // verus!
