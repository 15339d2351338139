//! Previewing a condition set against the stored transactions, newest first.
use vstd::prelude::*;
use crate::model::Transaction;
use crate::rules::{matching, test_conditions, RuleCondition, SAMPLE_LIMIT};
use crate::store::copy_transaction;

verus! {

/// `t` placed before the first transaction dated earlier than it.
pub open spec fn insert_by_date(s: Seq<Transaction>, t: Transaction) -> Seq<Transaction>
    decreases s.len(),
{
    if s.len() == 0 {
        seq![t]
    } else if t.transaction_date > s[0].transaction_date {
        seq![t] + s
    } else {
        seq![s[0]] + insert_by_date(s.drop_first(), t)
    }
}

/// The transactions ordered by date, newest first; equal dates keep their
/// recording order.
pub open spec fn newest_first(s: Seq<Transaction>) -> Seq<Transaction>
    decreases s.len(),
{
    if s.len() == 0 {
        Seq::empty()
    } else {
        insert_by_date(newest_first(s.drop_last()), s.last())
    }
}

proof fn lemma_insert_by_date_at(s: Seq<Transaction>, t: Transaction, i: int)
    requires
        0 <= i <= s.len(),
        forall|j: int| 0 <= j < i ==> t.transaction_date <= #[trigger] s[j].transaction_date,
        i == s.len() || t.transaction_date > s[i].transaction_date,
    ensures
        insert_by_date(s, t) == s.insert(i, t),
    decreases s.len(),
{
    if s.len() == 0 {
        assert(s.insert(i, t) =~= seq![t]);
    } else if i == 0 {
        assert(s.insert(0, t) =~= seq![t] + s);
    } else {
        let rest = s.drop_first();
        assert forall|j: int| 0 <= j < i - 1 implies t.transaction_date <= #[trigger] rest[j].transaction_date by {
            assert(rest[j] == s[j + 1]);
        }
        if i < s.len() {
            assert(rest[i - 1] == s[i]);
        }
        assert(t.transaction_date <= s[0].transaction_date);
        lemma_insert_by_date_at(rest, t, i - 1);
        assert(seq![s[0]] + rest.insert(i - 1, t) =~= s.insert(i, t));
    }
}

/// A copy of `txns` ordered newest first.
pub fn newest_first_copy(txns: &Vec<Transaction>) -> (r: Vec<Transaction>)
    ensures
        r@ == newest_first(txns@),
{
    let mut out: Vec<Transaction> = Vec::new();
    let mut i: usize = 0;
    while i < txns.len()
        invariant
            i <= txns@.len(),
            out@ == newest_first(txns@.take(i as int)),
        decreases txns@.len() - i,
    {
        let t = &txns[i];
        let mut j: usize = 0;
        while j < out.len()
            invariant
                j <= out@.len(),
                forall|k: int| 0 <= k < j ==> t.transaction_date <= #[trigger] out@[k].transaction_date,
            ensures
                j <= out@.len(),
                forall|k: int| 0 <= k < j ==> t.transaction_date <= #[trigger] out@[k].transaction_date,
                j == out@.len() || t.transaction_date > out@[j as int].transaction_date,
            decreases out@.len() - j,
        {
            if t.transaction_date > out[j].transaction_date {
                break;
            }
            j = j + 1;
        }
        proof {
            lemma_insert_by_date_at(out@, *t, j as int);
            assert(txns@.take(i + 1).drop_last() =~= txns@.take(i as int));
            assert(txns@.take(i + 1).last() == txns@[i as int]);
        }
        out.insert(j, copy_transaction(t));
        i = i + 1;
    }
    assert(txns@.take(txns@.len() as int) =~= txns@);
    out
}

impl crate::service::TransactionRuleService {
    /// Counts the stored transactions on which all of `conds` hold, and
    /// returns up to `SAMPLE_LIMIT` of them, newest first.
    pub fn test_conditions(&self, conds: &Vec<RuleCondition>) -> (r: (usize, Vec<Transaction>))
        ensures
            r.0 == matching(conds@, newest_first(self.transaction_service.transactions@)).len(),
            r.1@ == matching(conds@, newest_first(self.transaction_service.transactions@)).take(
                if r.0 < SAMPLE_LIMIT {
                    r.0 as int
                } else {
                    SAMPLE_LIMIT as int
                },
            ),
    {
        let ordered = newest_first_copy(&self.transaction_service.transactions);
        test_conditions(conds, &ordered)
    }
}

} // verus!
