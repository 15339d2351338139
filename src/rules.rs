//! The rule engine: conditions over a transaction, actions folded into a
//! field patch, and a rule book kept in evaluation order.
use vstd::prelude::*;
use crate::model::Transaction;
use crate::text::{
    chars_of, contains_chars, equal_chars, finite_of, infinity_sign, lemma_pow10_add,
    lemma_pow10_mono, lemma_pow10_values, lower_chars, lower_of, parse_amount_value, parse_uuid,
    pow10, pow10_exec, AmountValue, seq_contains, seq_starts_with, uuid_parse_of, uuid_string,
    uuid_text, matches_at,
};

verus! {

/// What a condition tests.
#[derive(Debug, Clone, Copy, PartialEq, Eq, Structural)]
pub enum ConditionType {
    DescriptionContains,
    DescriptionStartsWith,
    DescriptionEquals,
    SourceAccountEquals,
    DestinationAccountEquals,
    DestinationNameContains,
    DestinationNameEquals,
    AmountGreaterThan,
    AmountLessThan,
    AmountEquals,
}

/// Which field an action sets.
#[derive(Debug, Clone, Copy, PartialEq, Eq, Structural)]
pub enum ActionType {
    SetCategory,
    SetBudget,
    SetDescription,
    SetDestinationName,
}

/// A condition of a rule and the value it compares against.
#[derive(Debug)]
pub struct RuleCondition {
    pub condition_type: ConditionType,
    pub value: String,
}

/// An action of a rule and the value it writes.
#[derive(Debug)]
pub struct RuleAction {
    pub action_type: ActionType,
    pub value: String,
}

/// A stored rule. `conditions` and `actions` are `None` when the stored
/// list could not be decoded; such a rule is skipped.
#[derive(Debug)]
pub struct Rule {
    pub id: u128,
    pub name: String,
    pub description: Option<String>,
    pub is_active: bool,
    /// Lower numbers run first.
    pub priority: i32,
    pub group_id: Option<u128>,
    pub conditions: Option<Vec<RuleCondition>>,
    pub actions: Option<Vec<RuleAction>>,
}

/// Field overrides produced by rule evaluation; none of them affects a balance.
#[derive(Debug)]
pub struct FieldPatch {
    pub category: Option<String>,
    pub budget_id: Option<u128>,
    pub description: Option<String>,
    pub destination_name: Option<String>,
}

/// Exact comparison of an amount `a` in cents with the number `m * 10^e`:
/// strict for greater and less, and within 0.001 for equality.
pub open spec fn finite_test(kind: ConditionType, a: int, m: int, e: int) -> bool {
    let p = pow10(if e < 0 {
        (-e) as nat
    } else {
        0nat
    });
    let q = pow10(if e > 0 {
        e as nat
    } else {
        0nat
    });
    match kind {
        ConditionType::AmountGreaterThan => a * p > m * 100 * q,
        ConditionType::AmountLessThan => a * p < m * 100 * q,
        _ => {
            let d = 10 * a * p - 1000 * m * q;
            -p < d < p
        },
    }
}

/// An amount test against the literal `v`: an infinity is above or below
/// every amount; a text that is no number fails every test.
pub open spec fn amount_holds(kind: ConditionType, a: int, v: Seq<char>) -> bool {
    let inf = infinity_sign(v);
    if inf == 1 {
        kind == ConditionType::AmountLessThan
    } else if inf == -1 {
        kind == ConditionType::AmountGreaterThan
    } else {
        match finite_of(v) {
            Some((m, e)) => finite_test(kind, a, m, e),
            None => false,
        }
    }
}

/// Whether condition `c` holds of transaction `t`. Text tests ignore case;
/// an account test compares the UUID text; an amount test with a value that
/// is no decimal literal fails.
pub open spec fn condition_holds(c: RuleCondition, t: Transaction) -> bool {
    let v = c.value@;
    match c.condition_type {
        ConditionType::DescriptionContains => seq_contains(lower_of(t.description@), lower_of(v)),
        ConditionType::DescriptionStartsWith => seq_starts_with(
            lower_of(t.description@),
            lower_of(v),
        ),
        ConditionType::DescriptionEquals => lower_of(t.description@) == lower_of(v),
        ConditionType::SourceAccountEquals => uuid_text(t.source_account_id) == v,
        ConditionType::DestinationAccountEquals => uuid_text(t.destination_account_id) == v,
        ConditionType::DestinationNameContains => match t.destination_name {
            Some(n) => seq_contains(lower_of(n@), lower_of(v)),
            None => false,
        },
        ConditionType::DestinationNameEquals => match t.destination_name {
            Some(n) => lower_of(n@) == lower_of(v),
            None => false,
        },
        _ => amount_holds(c.condition_type, t.amount as int, v),
    }
}

pub open spec fn all_hold(conds: Seq<RuleCondition>, t: Transaction) -> bool {
    forall|i: int| 0 <= i < conds.len() ==> condition_holds(#[trigger] conds[i], t)
}

/// The patch after action `a`; a budget value that is no UUID changes nothing.
pub open spec fn apply_action(p: FieldPatch, a: RuleAction) -> FieldPatch {
    match a.action_type {
        ActionType::SetCategory => FieldPatch { category: Some(a.value), ..p },
        ActionType::SetBudget => match uuid_parse_of(a.value@) {
            Some(b) => FieldPatch { budget_id: Some(b), ..p },
            None => p,
        },
        ActionType::SetDescription => FieldPatch { description: Some(a.value), ..p },
        ActionType::SetDestinationName => FieldPatch { destination_name: Some(a.value), ..p },
    }
}

/// The patch after the actions `acts`, in order.
pub open spec fn apply_actions(p: FieldPatch, acts: Seq<RuleAction>) -> FieldPatch
    decreases acts.len(),
{
    if acts.len() == 0 {
        p
    } else {
        apply_action(apply_actions(p, acts.drop_last()), acts.last())
    }
}

pub open spec fn empty_patch() -> FieldPatch {
    FieldPatch { category: None, budget_id: None, description: None, destination_name: None }
}

pub open spec fn patch_is_empty(p: FieldPatch) -> bool {
    p.category is None && p.budget_id is None && p.description is None && p.destination_name is None
}

/// A rule fires on `t` when it is active, decodable, and all its conditions hold.
pub open spec fn rule_fires(r: Rule, t: Transaction) -> bool {
    r.is_active && r.conditions is Some && r.actions is Some && all_hold(r.conditions->Some_0@, t)
}

/// The patch from folding the rules `rules`, in order, over `t`.
pub open spec fn fold_rules(rules: Seq<Rule>, t: Transaction) -> FieldPatch
    decreases rules.len(),
{
    if rules.len() == 0 {
        empty_patch()
    } else {
        let p = fold_rules(rules.drop_last(), t);
        if rule_fires(rules.last(), t) {
            apply_actions(p, rules.last().actions->Some_0@)
        } else {
            p
        }
    }
}

/// The result of evaluating `rules` in order on `t`: the folded patch, or
/// `None` when it sets no field.
pub open spec fn evaluation(rules: Seq<Rule>, t: Transaction) -> Option<FieldPatch> {
    let p = fold_rules(rules, t);
    if patch_is_empty(p) {
        None
    } else {
        Some(p)
    }
}

proof fn lemma_pow_ge_1(n: nat)
    ensures
        pow10(n) >= 1,
{
    lemma_pow10_mono(0, n);
}

/// Decision for a zero number.
proof fn lemma_test_zero(kind: ConditionType, a: int, e: int)
    ensures
        finite_test(kind, a, 0, e) == match kind {
            ConditionType::AmountGreaterThan => a > 0,
            ConditionType::AmountLessThan => a < 0,
            _ => a == 0,
        },
{
    let p = pow10(if e < 0 { (-e) as nat } else { 0nat });
    let q = pow10(if e > 0 { e as nat } else { 0nat });
    lemma_pow_ge_1(if e < 0 { (-e) as nat } else { 0nat });
    assert(0 * 100 * q == 0 && 1000 * 0 * q == 0) by (nonlinear_arith);
    assert((a * p > 0 <==> a > 0) && (a * p < 0 <==> a < 0)) by (nonlinear_arith)
        requires
            p >= 1,
    ;
    assert((-p < 10 * a * p < p) <==> a == 0) by (nonlinear_arith)
        requires
            p >= 1,
    ;
}

/// Decision for a number of magnitude at least 10^19.
proof fn lemma_test_huge(kind: ConditionType, a: int, m: int, e: int)
    requires
        e >= 19,
        m != 0,
        -10_000_000_000_000_000_000 < a < 10_000_000_000_000_000_000,
    ensures
        finite_test(kind, a, m, e) == match kind {
            ConditionType::AmountGreaterThan => m < 0,
            ConditionType::AmountLessThan => m > 0,
            _ => false,
        },
{
    let q = pow10(e as nat);
    lemma_pow10_mono(19, e as nat);
    lemma_pow10_values();
    assert(pow10(0) == 1);
    assert(m >= 1 ==> m * 100 * q >= 100 * q) by (nonlinear_arith)
        requires
            q >= 1,
    ;
    assert(m <= -1 ==> m * 100 * q <= -100 * q) by (nonlinear_arith)
        requires
            q >= 1,
    ;
    assert(1000 * m * q == 10 * (m * 100 * q)) by (nonlinear_arith);
    assert(a * 1 == a);
}

/// Decision for a non-zero number of magnitude below 10^-20.
proof fn lemma_test_tiny(kind: ConditionType, a: int, m: int, e: int)
    requires
        e <= -21,
        -1_000_000_000_000_000_000 < m < 1_000_000_000_000_000_000,
    ensures
        finite_test(kind, a, m, e) == match kind {
            ConditionType::AmountGreaterThan => a > 0 || (a == 0 && m < 0),
            ConditionType::AmountLessThan => a < 0 || (a == 0 && m > 0),
            _ => a == 0,
        },
{
    let p = pow10((-e) as nat);
    lemma_pow10_mono(21, (-e) as nat);
    lemma_pow10_values();
    assert(pow10(0) == 1);
    assert(m * 100 * 1 == m * 100 && 1000 * m * 1 == 1000 * m);
    assert(a >= 1 ==> a * p >= p) by (nonlinear_arith)
        requires
            p >= 1,
    ;
    assert(a <= -1 ==> a * p <= -p) by (nonlinear_arith)
        requires
            p >= 1,
    ;
    assert(10 * a * p == 10 * (a * p)) by (nonlinear_arith);
}

/// Decision for `0 <= e <= 18`, with `q = 10^e`.
proof fn lemma_test_scaled_up(kind: ConditionType, a: int, m: int, e: int, q: int)
    requires
        0 <= e <= 18,
        q == pow10(e as nat),
    ensures
        finite_test(kind, a, m, e) == match kind {
            ConditionType::AmountGreaterThan => a > m * 100 * q,
            ConditionType::AmountLessThan => a < m * 100 * q,
            _ => a == m * 100 * q,
        },
{
    assert(pow10(0) == 1);
    assert(1000 * m * q == 10 * (m * 100 * q)) by (nonlinear_arith);
    assert(10 * a * 1 == 10 * a && a * 1 == a);
}

/// Decision for `-20 <= e <= -3`, with `r = 10^(-e-3)`.
proof fn lemma_test_scaled_down(kind: ConditionType, a: int, m: int, e: int, r: int)
    requires
        -20 <= e <= -3,
        r == pow10((-e - 3) as nat),
    ensures
        finite_test(kind, a, m, e) == match kind {
            ConditionType::AmountGreaterThan => 10 * (a * r) > m,
            ConditionType::AmountLessThan => 10 * (a * r) < m,
            _ => -r < 10 * (a * r) - m < r,
        },
{
    lemma_pow10_add(3, (-e - 3) as nat);
    lemma_pow10_values();
    assert(pow10(0) == 1);
    let p = pow10((-e) as nat);
    assert(p == 1000 * r);
    assert(a * p == 1000 * (a * r)) by (nonlinear_arith)
        requires
            p == 1000 * r,
    ;
    assert(10 * a * p == 10000 * (a * r)) by (nonlinear_arith)
        requires
            p == 1000 * r,
    ;
    assert(m * 100 * 1 == m * 100 && 1000 * m * 1 == 1000 * m);
}

/// Decides an amount test on `m * 10^es`, where `es` is the exact exponent
/// `e` or lies on the same side of 19 or -21.
fn decide_finite(kind: ConditionType, a: i64, m: i64, es: i128, e: Ghost<int>) -> (r: bool)
    requires
        -1_000_000_000_000_000_000 < m < 1_000_000_000_000_000_000,
        es == e@ || (es >= 19 && e@ >= 19) || (es <= -21 && e@ <= -21),
    ensures
        r == finite_test(kind, a as int, m as int, e@),
{
    let gt = match kind {
        ConditionType::AmountGreaterThan => true,
        _ => false,
    };
    let lt = match kind {
        ConditionType::AmountLessThan => true,
        _ => false,
    };
    if m == 0 {
        proof {
            lemma_test_zero(kind, a as int, e@);
        }
        if gt {
            a > 0
        } else if lt {
            a < 0
        } else {
            a == 0
        }
    } else if es >= 19 {
        proof {
            lemma_test_huge(kind, a as int, m as int, e@);
        }
        if gt {
            m < 0
        } else if lt {
            m > 0
        } else {
            false
        }
    } else if es <= -21 {
        proof {
            lemma_test_tiny(kind, a as int, m as int, e@);
        }
        if gt {
            a > 0 || (a == 0 && m < 0)
        } else if lt {
            a < 0 || (a == 0 && m > 0)
        } else {
            a == 0
        }
    } else if es >= 0 {
        let q = pow10_exec(es as u32);
        proof {
            lemma_test_scaled_up(kind, a as int, m as int, e@, q as int);
            assert(-100_000_000_000_000_000_000_000_000_000_000_000_000 <= (m as int) * 100 * (q as int)
                <= 100_000_000_000_000_000_000_000_000_000_000_000_000) by (nonlinear_arith)
                requires
                    -1_000_000_000_000_000_000 < m < 1_000_000_000_000_000_000,
                    1 <= q <= 1_000_000_000_000_000_000,
            ;
        }
        let v = (m as i128) * 100 * q;
        if gt {
            (a as i128) > v
        } else if lt {
            (a as i128) < v
        } else {
            (a as i128) == v
        }
    } else if es > -3 {
        let k = (-es) as u32;
        let p = pow10_exec(k);
        proof {
            assert(p <= 100) by {
                lemma_pow10_mono(k as nat, 2);
                reveal_with_fuel(pow10, 3);
            }
            assert(pow10(0) == 1);
            assert(-1_000_000_000_000_000_000_000 <= (a as int) * (p as int)
                <= 1_000_000_000_000_000_000_000) by (nonlinear_arith)
                requires
                    -9_223_372_036_854_775_808 <= a <= 9_223_372_036_854_775_807,
                    1 <= p <= 100,
            ;
            assert((m as int) * 100 * 1 == (m as int) * 100);
            assert(1000 * (m as int) * 1 == 1000 * (m as int));
            assert(10 * (a as int) * (p as int) == 10 * ((a as int) * (p as int))) by (nonlinear_arith);
            assert(e@ == es as int);
        }
        let ap = (a as i128) * p;
        if gt {
            ap > (m as i128) * 100
        } else if lt {
            ap < (m as i128) * 100
        } else {
            let d = 10 * ap - 1000 * (m as i128);
            -p < d && d < p
        }
    } else {
        let k3 = (-es - 3) as u32;
        let r = pow10_exec(k3);
        proof {
            lemma_test_scaled_down(kind, a as int, m as int, e@, r as int);
            lemma_pow10_mono(k3 as nat, 17);
            lemma_pow10_values();
            assert(-1_000_000_000_000_000_000_000_000_000_000_000_000 <= (a as int) * (r as int)
                <= 1_000_000_000_000_000_000_000_000_000_000_000_000) by (nonlinear_arith)
                requires
                    -9_223_372_036_854_775_808 <= a <= 9_223_372_036_854_775_807,
                    1 <= r <= 100_000_000_000_000_000,
            ;
        }
        let y = 10 * ((a as i128) * r);
        let mm = m as i128;
        if gt {
            y > mm
        } else if lt {
            y < mm
        } else {
            -r < y - mm && y - mm < r
        }
    }
}

/// Evaluates condition `c` on `t`.
pub fn check_condition(c: &RuleCondition, t: &Transaction) -> (r: bool)
    ensures
        r == condition_holds(*c, *t),
{
    match c.condition_type {
        ConditionType::DescriptionContains => {
            let d = lower_chars(t.description.as_str());
            let v = lower_chars(c.value.as_str());
            contains_chars(&d, &v)
        },
        ConditionType::DescriptionStartsWith => {
            let d = lower_chars(t.description.as_str());
            let v = lower_chars(c.value.as_str());
            matches_at(&d, &v, 0)
        },
        ConditionType::DescriptionEquals => {
            let d = lower_chars(t.description.as_str());
            let v = lower_chars(c.value.as_str());
            equal_chars(&d, &v)
        },
        ConditionType::SourceAccountEquals => uuid_string(t.source_account_id) == c.value,
        ConditionType::DestinationAccountEquals => uuid_string(t.destination_account_id) == c.value,
        ConditionType::DestinationNameContains => match &t.destination_name {
            Some(n) => {
                let d = lower_chars(n.as_str());
                let v = lower_chars(c.value.as_str());
                contains_chars(&d, &v)
            },
            None => false,
        },
        ConditionType::DestinationNameEquals => match &t.destination_name {
            Some(n) => {
                let d = lower_chars(n.as_str());
                let v = lower_chars(c.value.as_str());
                equal_chars(&d, &v)
            },
            None => false,
        },
        _ => {
            let vc = chars_of(c.value.as_str());
            match parse_amount_value(&vc) {
                AmountValue::PosInf => match c.condition_type {
                    ConditionType::AmountLessThan => true,
                    _ => false,
                },
                AmountValue::NegInf => match c.condition_type {
                    ConditionType::AmountGreaterThan => true,
                    _ => false,
                },
                AmountValue::Invalid => false,
                AmountValue::Finite(m, es) => {
                    let ghost e = finite_of(c.value@)->Some_0.1;
                    decide_finite(c.condition_type, t.amount, m, es, Ghost(e))
                },
            }
        },
    }
}


/// Evaluates all conditions of `conds` on `t`; an empty list holds.
pub fn conditions_hold(conds: &Vec<RuleCondition>, t: &Transaction) -> (r: bool)
    ensures
        r == all_hold(conds@, *t),
{
    let mut i: usize = 0;
    while i < conds.len()
        invariant
            i <= conds@.len(),
            forall|j: int| 0 <= j < i ==> condition_holds(#[trigger] conds@[j], *t),
        decreases conds@.len() - i,
    {
        if !check_condition(&conds[i], t) {
            return false;
        }
        i = i + 1;
    }
    true
}

/// Applies action `a` to the patch `p`.
pub fn apply_action_to(p: FieldPatch, a: &RuleAction) -> (r: FieldPatch)
    ensures
        r == apply_action(p, *a),
{
    match a.action_type {
        ActionType::SetCategory => FieldPatch {
            category: Some(a.value.clone()),
            budget_id: p.budget_id,
            description: p.description,
            destination_name: p.destination_name,
        },
        ActionType::SetBudget => match parse_uuid(a.value.as_str()) {
            Some(b) => FieldPatch {
                category: p.category,
                budget_id: Some(b),
                description: p.description,
                destination_name: p.destination_name,
            },
            None => p,
        },
        ActionType::SetDescription => FieldPatch {
            category: p.category,
            budget_id: p.budget_id,
            description: Some(a.value.clone()),
            destination_name: p.destination_name,
        },
        ActionType::SetDestinationName => FieldPatch {
            category: p.category,
            budget_id: p.budget_id,
            description: p.description,
            destination_name: Some(a.value.clone()),
        },
    }
}

/// Applies the actions `acts` in order.
pub fn apply_actions_to(p: FieldPatch, acts: &Vec<RuleAction>) -> (r: FieldPatch)
    ensures
        r == apply_actions(p, acts@),
{
    let ghost p0 = p;
    let mut q = p;
    let mut i: usize = 0;
    while i < acts.len()
        invariant
            i <= acts@.len(),
            q == apply_actions(p0, acts@.take(i as int)),
        decreases acts@.len() - i,
    {
        proof {
            assert(acts@.take(i + 1).drop_last() =~= acts@.take(i as int));
        }
        q = apply_action_to(q, &acts[i]);
        i = i + 1;
    }
    assert(acts@.take(acts@.len() as int) =~= acts@);
    q
}

/// Folds the rules `rules`, in order, over `t`, and returns the patch, or
/// `None` when it sets no field.
pub fn evaluate_rules(rules: &Vec<Rule>, t: &Transaction) -> (r: Option<FieldPatch>)
    ensures
        r == evaluation(rules@, *t),
{
    let mut p = FieldPatch { category: None, budget_id: None, description: None, destination_name: None };
    let mut i: usize = 0;
    while i < rules.len()
        invariant
            i <= rules@.len(),
            p == fold_rules(rules@.take(i as int), *t),
        decreases rules@.len() - i,
    {
        proof {
            assert(rules@.take(i + 1).drop_last() =~= rules@.take(i as int));
        }
        let r = &rules[i];
        if r.is_active {
            match (&r.conditions, &r.actions) {
                (Some(c), Some(a)) => {
                    if conditions_hold(c, t) {
                        p = apply_actions_to(p, a);
                    }
                },
                _ => {},
            }
        }
        i = i + 1;
    }
    assert(rules@.take(rules@.len() as int) =~= rules@);
    if p.category.is_none() && p.budget_id.is_none() && p.description.is_none()
        && p.destination_name.is_none() {
        None
    } else {
        Some(p)
    }
}

/// The transactions of `txns` on which all of `conds` hold, in order.
pub open spec fn matching(conds: Seq<RuleCondition>, txns: Seq<Transaction>) -> Seq<Transaction>
    decreases txns.len(),
{
    if txns.len() == 0 {
        Seq::empty()
    } else {
        let m = matching(conds, txns.drop_last());
        if all_hold(conds, txns.last()) {
            m.push(txns.last())
        } else {
            m
        }
    }
}

/// The largest sample that `test_conditions` returns.
pub const SAMPLE_LIMIT: usize = 100;

/// Counts the transactions of `txns` on which all of `conds` hold, and
/// returns the first `SAMPLE_LIMIT` of them in order.
pub fn test_conditions(conds: &Vec<RuleCondition>, txns: &Vec<Transaction>) -> (r: (usize, Vec<Transaction>))
    ensures
        r.0 == matching(conds@, txns@).len(),
        r.1@ == matching(conds@, txns@).take(
            if r.0 < SAMPLE_LIMIT {
                r.0 as int
            } else {
                SAMPLE_LIMIT as int
            },
        ),
{
    let mut count: usize = 0;
    let mut sample: Vec<Transaction> = Vec::new();
    let mut i: usize = 0;
    while i < txns.len()
        invariant
            i <= txns@.len(),
            count <= i,
            count == matching(conds@, txns@.take(i as int)).len(),
            sample@ == matching(conds@, txns@.take(i as int)).take(
                if count < SAMPLE_LIMIT {
                    count as int
                } else {
                    SAMPLE_LIMIT as int
                },
            ),
        decreases txns@.len() - i,
    {
        let ghost before = matching(conds@, txns@.take(i as int));
        proof {
            assert(txns@.take(i + 1).drop_last() =~= txns@.take(i as int));
            assert(txns@.take(i + 1).last() == txns@[i as int]);
        }
        if conditions_hold(conds, &txns[i]) {
            if count < SAMPLE_LIMIT {
                sample.push(crate::store::copy_transaction(&txns[i]));
            }
            count = count + 1;
            proof {
                let after = before.push(txns@[i as int]);
                if count <= SAMPLE_LIMIT {
                    assert(sample@ =~= after.take(count as int));
                } else {
                    assert(sample@ =~= after.take(SAMPLE_LIMIT as int));
                }
            }
        }
        i = i + 1;
    }
    assert(txns@.take(txns@.len() as int) =~= txns@);
    (count, sample)
}

} // verus!
