//! The rule book: rules kept in evaluation order, ascending by priority and
//! then by name.
use vstd::prelude::*;
use crate::model::Transaction;
use crate::rules::{evaluate_rules, evaluation, FieldPatch, Rule};
use crate::text::chars_of;

verus! {

/// Lexicographic order of texts by character.
pub open spec fn name_lt(a: Seq<char>, b: Seq<char>) -> bool
    decreases a.len(),
{
    if b.len() == 0 {
        false
    } else if a.len() == 0 {
        true
    } else if a[0] != b[0] {
        a[0] < b[0]
    } else {
        name_lt(a.drop_first(), b.drop_first())
    }
}

/// Rule `a` runs before rule `b`: lower priority, then smaller name.
pub open spec fn rule_before(a: Rule, b: Rule) -> bool {
    a.priority < b.priority || (a.priority == b.priority && name_lt(a.name@, b.name@))
}

/// `r` placed after every rule that does not come after it.
pub open spec fn insert_sorted(s: Seq<Rule>, r: Rule) -> Seq<Rule>
    decreases s.len(),
{
    if s.len() == 0 {
        seq![r]
    } else if rule_before(r, s[0]) {
        seq![r] + s
    } else {
        seq![s[0]] + insert_sorted(s.drop_first(), r)
    }
}

/// No rule comes after a rule that follows it.
pub open spec fn in_order(s: Seq<Rule>) -> bool {
    forall|i: int, j: int| 0 <= i < j < s.len() ==> !rule_before(s[j], s[i])
}

pub proof fn lemma_name_lt_asym(a: Seq<char>, b: Seq<char>)
    ensures
        !(name_lt(a, b) && name_lt(b, a)),
    decreases a.len(),
{
    if a.len() > 0 && b.len() > 0 && a[0] == b[0] {
        lemma_name_lt_asym(a.drop_first(), b.drop_first());
    }
}

pub proof fn lemma_name_lt_trans(a: Seq<char>, b: Seq<char>, c: Seq<char>)
    requires
        name_lt(a, b),
        name_lt(b, c),
    ensures
        name_lt(a, c),
    decreases a.len(),
{
    if a.len() > 0 && a[0] == b[0] && b[0] == c[0] {
        lemma_name_lt_trans(a.drop_first(), b.drop_first(), c.drop_first());
    }
}

pub proof fn lemma_name_lt_total(a: Seq<char>, b: Seq<char>)
    requires
        a != b,
    ensures
        name_lt(a, b) || name_lt(b, a),
    decreases a.len(),
{
    if a.len() == 0 {
        if b.len() == 0 {
            assert(a =~= b);
        }
    } else if b.len() == 0 {
    } else if a[0] == b[0] {
        if a.drop_first() == b.drop_first() {
            assert(a =~= seq![a[0]] + a.drop_first());
            assert(b =~= seq![b[0]] + b.drop_first());
        }
        lemma_name_lt_total(a.drop_first(), b.drop_first());
    }
}

pub proof fn lemma_rule_before_asym(a: Rule, b: Rule)
    ensures
        !(rule_before(a, b) && rule_before(b, a)),
{
    lemma_name_lt_asym(a.name@, b.name@);
}

pub proof fn lemma_rule_before_trans(a: Rule, b: Rule, c: Rule)
    requires
        rule_before(a, b),
        rule_before(b, c),
    ensures
        rule_before(a, c),
{
    if a.priority == b.priority && b.priority == c.priority {
        lemma_name_lt_trans(a.name@, b.name@, c.name@);
    }
}

/// Inserting two rules whose keys differ gives the same book in either order.
pub proof fn lemma_insert_sorted_commutes(s: Seq<Rule>, a: Rule, b: Rule)
    requires
        rule_before(a, b) || rule_before(b, a),
    ensures
        insert_sorted(insert_sorted(s, a), b) == insert_sorted(insert_sorted(s, b), a),
    decreases s.len(),
{
    lemma_rule_before_asym(a, b);
    if s.len() == 0 {
        assert(seq![a].drop_first() =~= Seq::<Rule>::empty());
        assert(seq![b].drop_first() =~= Seq::<Rule>::empty());
        assert(insert_sorted(s, a) == seq![a]);
        assert(insert_sorted(s, b) == seq![b]);
        assert(seq![a][0] == a);
        assert(seq![b][0] == b);
        assert(insert_sorted(seq![a].drop_first(), b) == seq![b]);
        assert(insert_sorted(seq![b].drop_first(), a) == seq![a]);
        if rule_before(a, b) {
            assert(insert_sorted(insert_sorted(s, a), b) =~= seq![a, b]);
            assert(insert_sorted(insert_sorted(s, b), a) =~= seq![a, b]);
        } else {
            assert(insert_sorted(insert_sorted(s, a), b) =~= seq![b, a]);
            assert(insert_sorted(insert_sorted(s, b), a) =~= seq![b, a]);
        }
    } else {
        let x = s[0];
        let rest = s.drop_first();
        assert((seq![a] + s).drop_first() =~= s);
        assert((seq![b] + s).drop_first() =~= s);
        if rule_before(a, x) && rule_before(b, x) {
            if rule_before(a, b) {
                assert((seq![b] + s)[0] == b);
                assert(insert_sorted(seq![b] + s, a) == seq![a] + (seq![b] + s));
                assert(insert_sorted(seq![a] + s, b) == seq![a] + insert_sorted(s, b));
                assert(seq![a] + (seq![b] + s) =~= seq![a] + insert_sorted(s, b));
            } else {
                assert(insert_sorted(seq![a] + s, b) == seq![b] + (seq![a] + s));
                assert(insert_sorted(seq![b] + s, a) == seq![b] + insert_sorted(s, a));
                assert(seq![b] + (seq![a] + s) =~= seq![b] + insert_sorted(s, a));
            }
        } else if rule_before(a, x) {
            if rule_before(b, a) {
                lemma_rule_before_trans(b, a, x);
            }
            let sb = insert_sorted(s, b);
            assert(sb == seq![x] + insert_sorted(rest, b));
            assert(insert_sorted(seq![a] + s, b) == seq![a] + insert_sorted(s, b));
            assert(insert_sorted(sb, a) == seq![a] + sb);
        } else if rule_before(b, x) {
            if rule_before(a, b) {
                lemma_rule_before_trans(a, b, x);
            }
            let sa = insert_sorted(s, a);
            assert(sa == seq![x] + insert_sorted(rest, a));
            assert(insert_sorted(seq![b] + s, a) == seq![b] + insert_sorted(s, a));
            assert(insert_sorted(sa, b) == seq![b] + sa);
        } else {
            let sa = insert_sorted(s, a);
            let sb = insert_sorted(s, b);
            assert(sa == seq![x] + insert_sorted(rest, a));
            assert(sb == seq![x] + insert_sorted(rest, b));
            assert(sa[0] == x);
            assert(sb[0] == x);
            assert(sa.drop_first() =~= insert_sorted(rest, a));
            assert(sb.drop_first() =~= insert_sorted(rest, b));
            lemma_insert_sorted_commutes(rest, a, b);
        }
    }
}

/// Rule-book order is a tie-break and nothing more: two rules of equal
/// priority and different names, added in either order, give the same
/// book and so the same evaluation of every transaction.
pub proof fn lemma_evaluation_independent_of_insertion_order(s: Seq<Rule>, a: Rule, b: Rule, t: Transaction)
    requires
        a.priority != b.priority || a.name@ != b.name@,
    ensures
        insert_sorted(insert_sorted(s, a), b) == insert_sorted(insert_sorted(s, b), a),
        evaluation(insert_sorted(insert_sorted(s, a), b), t) == evaluation(
            insert_sorted(insert_sorted(s, b), a),
            t,
        ),
{
    if a.priority == b.priority {
        lemma_name_lt_total(a.name@, b.name@);
    }
    lemma_insert_sorted_commutes(s, a, b);
}

/// Tie-break by name: two rules of equal priority that both fire and both
/// set the category, added to an empty book in either order, give the
/// category of the rule with the larger name.
pub proof fn lemma_tie_later_name_wins(r1: Rule, r2: Rule, t: Transaction, v1: String, v2: String)
    requires
        r1.priority == r2.priority,
        name_lt(r1.name@, r2.name@),
        crate::rules::rule_fires(r1, t),
        crate::rules::rule_fires(r2, t),
        r1.actions->Some_0@ == seq![crate::rules::RuleAction { action_type: crate::rules::ActionType::SetCategory, value: v1 }],
        r2.actions->Some_0@ == seq![crate::rules::RuleAction { action_type: crate::rules::ActionType::SetCategory, value: v2 }],
    ensures
        insert_sorted(insert_sorted(Seq::empty(), r1), r2) == seq![r1, r2],
        insert_sorted(insert_sorted(Seq::empty(), r2), r1) == seq![r1, r2],
        evaluation(seq![r1, r2], t) matches Some(p) && p.category == Some(v2),
{
    lemma_rule_before_asym(r1, r2);
    let e = Seq::<Rule>::empty();
    assert(insert_sorted(e, r1) == seq![r1]);
    assert(insert_sorted(e, r2) == seq![r2]);
    assert(seq![r1].drop_first() =~= e);
    assert(seq![r2].drop_first() =~= e);
    assert(insert_sorted(seq![r1], r2) =~= seq![r1, r2]);
    assert(insert_sorted(seq![r2], r1) =~= seq![r1, r2]);
    let s2 = seq![r1, r2];
    assert(s2.drop_last() =~= seq![r1]);
    assert(seq![r1].drop_last() =~= e);
    let a1 = r1.actions->Some_0@;
    let a2 = r2.actions->Some_0@;
    assert(a1.drop_last() =~= Seq::<crate::rules::RuleAction>::empty());
    assert(a2.drop_last() =~= Seq::<crate::rules::RuleAction>::empty());
}

/// `insert_sorted` places `r` at the first position whose rule comes after it.
proof fn lemma_insert_sorted_at(s: Seq<Rule>, r: Rule, i: int)
    requires
        0 <= i <= s.len(),
        forall|j: int| 0 <= j < i ==> !rule_before(r, #[trigger] s[j]),
        i == s.len() || rule_before(r, s[i]),
    ensures
        insert_sorted(s, r) == s.insert(i, r),
    decreases s.len(),
{
    if s.len() == 0 {
        assert(s.insert(i, r) =~= seq![r]);
    } else if i == 0 {
        assert(s.insert(0, r) =~= seq![r] + s);
    } else {
        let rest = s.drop_first();
        assert forall|j: int| 0 <= j < i - 1 implies !rule_before(r, #[trigger] rest[j]) by {
            assert(rest[j] == s[j + 1]);
        }
        if i < s.len() {
            assert(rest[i - 1] == s[i]);
        }
        assert(!rule_before(r, s[0]));
        lemma_insert_sorted_at(rest, r, i - 1);
        assert(seq![s[0]] + rest.insert(i - 1, r) =~= s.insert(i, r));
    }
}

/// Inserting keeps a book in order.
pub proof fn lemma_insert_sorted_in_order(s: Seq<Rule>, r: Rule)
    requires
        in_order(s),
    ensures
        in_order(insert_sorted(s, r)),
        insert_sorted(s, r).len() == s.len() + 1,
    decreases s.len(),
{
    if s.len() == 0 {
    } else if rule_before(r, s[0]) {
        let n = seq![r] + s;
        assert forall|i: int, j: int| 0 <= i < j < n.len() implies !rule_before(n[j], n[i]) by {
            if i == 0 {
                assert(n[j] == s[j - 1]);
                if j > 1 {
                    assert(!rule_before(s[j - 1], s[0]));
                    if rule_before(s[j - 1], r) {
                        lemma_rule_before_trans(s[j - 1], r, s[0]);
                    }
                } else {
                    lemma_rule_before_asym(r, s[0]);
                }
            } else {
                assert(n[i] == s[i - 1]);
                assert(n[j] == s[j - 1]);
            }
        }
    } else {
        let rest = s.drop_first();
        assert(in_order(rest)) by {
            assert forall|i: int, j: int| 0 <= i < j < rest.len() implies !rule_before(rest[j], rest[i]) by {
                assert(rest[i] == s[i + 1]);
                assert(rest[j] == s[j + 1]);
            }
        }
        lemma_insert_sorted_in_order(rest, r);
        let ir = insert_sorted(rest, r);
        let n = seq![s[0]] + ir;
        assert forall|i: int, j: int| 0 <= i < j < n.len() implies !rule_before(n[j], n[i]) by {
            if i == 0 {
                assert(n[j] == ir[j - 1]);
                lemma_insert_sorted_members(rest, r, j - 1);
                if ir[j - 1] != r {
                    let k = choose|k: int| 0 <= k < rest.len() && rest[k] == ir[j - 1];
                    assert(rest[k] == s[k + 1]);
                }
            } else {
                assert(n[i] == ir[i - 1]);
                assert(n[j] == ir[j - 1]);
            }
        }
    }
}

/// Every rule of `insert_sorted(s, r)` is `r` or a rule of `s`.
proof fn lemma_insert_sorted_members(s: Seq<Rule>, r: Rule, i: int)
    requires
        0 <= i < insert_sorted(s, r).len(),
        insert_sorted(s, r).len() == s.len() + 1,
    ensures
        insert_sorted(s, r)[i] == r || exists|k: int| 0 <= k < s.len() && s[k] == insert_sorted(s, r)[i],
    decreases s.len(),
{
    if s.len() > 0 && !rule_before(r, s[0]) {
        let rest = s.drop_first();
        if i > 0 {
            lemma_insert_sorted_len(rest, r);
            lemma_insert_sorted_members(rest, r, i - 1);
            if insert_sorted(rest, r)[i - 1] != r {
                let k = choose|k: int| 0 <= k < rest.len() && rest[k] == insert_sorted(rest, r)[i - 1];
                assert(s[k + 1] == rest[k]);
            }
        } else {
            assert(s[0] == insert_sorted(s, r)[0]);
        }
    } else if s.len() > 0 && i > 0 {
        assert(s[i - 1] == insert_sorted(s, r)[i]);
    }
}

proof fn lemma_insert_sorted_len(s: Seq<Rule>, r: Rule)
    ensures
        insert_sorted(s, r).len() == s.len() + 1,
    decreases s.len(),
{
    if s.len() > 0 && !rule_before(r, s[0]) {
        lemma_insert_sorted_len(s.drop_first(), r);
    }
}

/// Compares two texts character by character.
pub fn name_lt_exec(a: &Vec<char>, b: &Vec<char>) -> (r: bool)
    ensures
        r == name_lt(a@, b@),
{
    let mut i: usize = 0;
    assert(a@.skip(0) =~= a@);
    assert(b@.skip(0) =~= b@);
    while i < a.len() && i < b.len()
        invariant
            i <= a@.len(),
            i <= b@.len(),
            name_lt(a@, b@) == name_lt(a@.skip(i as int), b@.skip(i as int)),
        decreases a@.len() - i,
    {
        assert(a@.skip(i as int)[0] == a@[i as int]);
        assert(b@.skip(i as int)[0] == b@[i as int]);
        if a[i] != b[i] {
            return a[i] < b[i];
        }
        assert(a@.skip(i as int).drop_first() =~= a@.skip(i + 1));
        assert(b@.skip(i as int).drop_first() =~= b@.skip(i + 1));
        i = i + 1;
    }
    i < b.len()
}

/// Whether rule `a` runs before rule `b`.
pub fn rule_before_exec(a: &Rule, b: &Rule) -> (r: bool)
    ensures
        r == rule_before(*a, *b),
{
    if a.priority != b.priority {
        return a.priority < b.priority;
    }
    let an = chars_of(a.name.as_str());
    let bn = chars_of(b.name.as_str());
    name_lt_exec(&an, &bn)
}

/// The rules of a ledger, kept in evaluation order.
pub struct RuleService {
    pub rules: Vec<Rule>,
}

impl RuleService {
    pub open spec fn wf(&self) -> bool {
        in_order(self.rules@)
    }

    pub fn new() -> (r: RuleService)
        ensures
            r.wf(),
            r.rules@.len() == 0,
    {
        RuleService { rules: Vec::new() }
    }

    /// Adds `rule` after every rule that does not come after it.
    pub fn add_rule(&mut self, rule: Rule)
        requires
            old(self).wf(),
        ensures
            final(self).wf(),
            final(self).rules@ == insert_sorted(old(self).rules@, rule),
    {
        let mut i: usize = 0;
        while i < self.rules.len()
            invariant
                i <= self.rules@.len(),
                forall|j: int| 0 <= j < i ==> !rule_before(rule, #[trigger] self.rules@[j]),
            ensures
                i <= self.rules@.len(),
                forall|j: int| 0 <= j < i ==> !rule_before(rule, #[trigger] self.rules@[j]),
                i == self.rules@.len() || rule_before(rule, self.rules@[i as int]),
            decreases self.rules@.len() - i,
        {
            if rule_before_exec(&rule, &self.rules[i]) {
                break;
            }
            i = i + 1;
        }
        proof {
            lemma_insert_sorted_at(self.rules@, rule, i as int);
            lemma_insert_sorted_in_order(self.rules@, rule);
        }
        self.rules.insert(i, rule);
    }

    /// Evaluates the book on `t`, rules in order.
    pub fn apply_rules_to_transaction(&self, t: &Transaction) -> (r: Option<FieldPatch>)
        ensures
            r == evaluation(self.rules@, *t),
    {
        evaluate_rules(&self.rules, t)
    }
}

} // verus!
