use rustler_ledger::account_type::parse_account_type;
use rustler_ledger::config::{ApiError, BalanceFrequency, AccountTypeMapping, default_max_retries, default_retry_delay, default_true};
use rustler_ledger::ledger::TransactionService;
use rustler_ledger::model::{Account, AccountClass, CreateTransactionRequest, FreshIds, Transaction, UpdateTransactionRequest};
use rustler_ledger::rulebook::RuleService;
use rustler_ledger::rules::{
    check_condition, evaluate_rules, test_conditions, ActionType, ConditionType, Rule, RuleAction,
    RuleCondition,
};
use rustler_ledger::service::TransactionRuleService;
use rustler_ledger::text::parse_decimal;

const A: u128 = 0xA;
const B: u128 = 0xB;

fn txn(id: u128, description: &str, dest: Option<&str>, amount: i64, date: i64) -> Transaction {
    Transaction {
        id,
        source_account_id: A,
        destination_account_id: B,
        destination_name: dest.map(|s| s.to_string()),
        description: description.to_string(),
        amount,
        category: String::new(),
        category_id: None,
        budget_id: None,
        transaction_date: date,
        created_at: 0,
        updated_at: 0,
    }
}

fn cond(kind: ConditionType, value: &str) -> RuleCondition {
    RuleCondition { condition_type: kind, value: value.to_string() }
}

fn act(kind: ActionType, value: &str) -> RuleAction {
    RuleAction { action_type: kind, value: value.to_string() }
}

fn rule(id: u128, name: &str, priority: i32, conds: Vec<RuleCondition>, acts: Vec<RuleAction>) -> Rule {
    Rule {
        id,
        name: name.to_string(),
        description: None,
        is_active: true,
        priority,
        group_id: None,
        conditions: Some(conds),
        actions: Some(acts),
    }
}

fn holds(kind: ConditionType, value: &str, t: &Transaction) -> bool {
    check_condition(&cond(kind, value), t)
}

#[test]
fn text_conditions_ignore_case() {
    let t = txn(1, "Morning COFFEE run", Some("Coffee Shop"), 1250, 0);
    assert!(holds(ConditionType::DescriptionContains, "coffee", &t));
    assert!(!holds(ConditionType::DescriptionContains, "tea", &t));
    assert!(holds(ConditionType::DescriptionStartsWith, "MORNING", &t));
    assert!(!holds(ConditionType::DescriptionStartsWith, "coffee", &t));
    assert!(holds(ConditionType::DescriptionEquals, "morning coffee RUN", &t));
    assert!(!holds(ConditionType::DescriptionEquals, "morning coffee", &t));
    assert!(holds(ConditionType::DestinationNameContains, "shop", &t));
    assert!(holds(ConditionType::DestinationNameEquals, "coffee shop", &t));
    let no_dest = txn(2, "x", None, 1, 0);
    assert!(!holds(ConditionType::DestinationNameContains, "", &no_dest));
    assert!(holds(ConditionType::DescriptionContains, "", &no_dest));
}

#[test]
fn account_conditions_compare_uuid_text() {
    let t = txn(1, "x", None, 1, 0);
    assert!(holds(ConditionType::SourceAccountEquals, "00000000-0000-0000-0000-00000000000a", &t));
    assert!(!holds(ConditionType::SourceAccountEquals, "00000000-0000-0000-0000-00000000000A", &t));
    assert!(holds(ConditionType::DestinationAccountEquals, "00000000-0000-0000-0000-00000000000b", &t));
    assert!(!holds(ConditionType::DestinationAccountEquals, "b", &t));
}

#[test]
fn amount_conditions() {
    let t = txn(1, "x", None, 1250, 0);
    assert!(holds(ConditionType::AmountEquals, "12.5", &t));
    assert!(holds(ConditionType::AmountEquals, "12.5009", &t));
    assert!(!holds(ConditionType::AmountEquals, "12.502", &t));
    assert!(holds(ConditionType::AmountGreaterThan, "12", &t));
    assert!(!holds(ConditionType::AmountGreaterThan, "12.50", &t));
    assert!(holds(ConditionType::AmountLessThan, "+12.51", &t));
    assert!(holds(ConditionType::AmountGreaterThan, "-3", &t));
    assert!(!holds(ConditionType::AmountEquals, "abc", &t));
    assert!(!holds(ConditionType::AmountLessThan, "", &t));
}

#[test]
fn decimal_literals() {
    let p = |s: &str| parse_decimal(&s.chars().collect::<Vec<char>>());
    assert_eq!(p("12.50"), Some((1250, 2)));
    assert_eq!(p("-5"), Some((-5, 0)));
    assert_eq!(p(".5"), Some((5, 1)));
    assert_eq!(p("7."), Some((7, 0)));
    assert_eq!(p("."), None);
    assert_eq!(p("1.2.3"), None);
    assert_eq!(p("1e5"), None);
    assert_eq!(p("123456789012345678"), Some((123456789012345678, 0)));
    assert_eq!(p("1234567890123456789"), None);
    assert_eq!(p("0.0000000000000000000001"), Some((1, 22)));
    assert_eq!(p("-000000000000000000000042"), Some((-42, 0)));
}

#[test]
fn coffee_rule_sets_dining() {
    let t = txn(1, "Coffee", Some("Coffee Shop"), 1250, 0);
    let rules = vec![rule(1, "coffee", 10, vec![cond(ConditionType::DescriptionContains, "Coffee")], vec![act(ActionType::SetCategory, "Dining")])];
    let p = evaluate_rules(&rules, &t).unwrap();
    assert_eq!(p.category.as_deref(), Some("Dining"));
    assert!(p.budget_id.is_none() && p.description.is_none() && p.destination_name.is_none());
}

#[test]
fn later_rules_override_and_empty_conditions_match() {
    let t = txn(1, "Coffee", None, 1250, 0);
    let rules = vec![
        rule(1, "a", 1, vec![], vec![act(ActionType::SetCategory, "First"), act(ActionType::SetDescription, "D")]),
        rule(2, "b", 2, vec![], vec![act(ActionType::SetCategory, "Second")]),
        rule(3, "c", 3, vec![cond(ConditionType::DescriptionEquals, "tea")], vec![act(ActionType::SetCategory, "Third")]),
    ];
    let p = evaluate_rules(&rules, &t).unwrap();
    assert_eq!(p.category.as_deref(), Some("Second"));
    assert_eq!(p.description.as_deref(), Some("D"));
}

#[test]
fn inactive_undecodable_and_actionless_rules_give_none() {
    let t = txn(1, "Coffee", None, 1250, 0);
    let mut inactive = rule(1, "a", 1, vec![], vec![act(ActionType::SetCategory, "X")]);
    inactive.is_active = false;
    let mut broken = rule(2, "b", 1, vec![], vec![act(ActionType::SetCategory, "X")]);
    broken.conditions = None;
    let no_actions = rule(3, "c", 1, vec![], vec![]);
    let bad_budget = rule(4, "d", 1, vec![], vec![act(ActionType::SetBudget, "not-a-uuid")]);
    assert!(evaluate_rules(&vec![inactive, broken, no_actions, bad_budget], &t).is_none());
}

#[test]
fn budget_action_parses_uuid() {
    let t = txn(1, "Coffee", None, 1250, 0);
    let rules = vec![rule(1, "a", 1, vec![], vec![act(ActionType::SetBudget, "00000000-0000-0000-0000-0000000000ff")])];
    assert_eq!(evaluate_rules(&rules, &t).unwrap().budget_id, Some(0xff));
}

#[test]
fn rule_book_orders_by_priority_then_name() {
    let t = txn(1, "Coffee", None, 1250, 0);
    let mut one = RuleService::new();
    one.add_rule(rule(1, "beta", 5, vec![], vec![act(ActionType::SetCategory, "Beta")]));
    one.add_rule(rule(2, "alpha", 5, vec![], vec![act(ActionType::SetCategory, "Alpha")]));
    one.add_rule(rule(3, "zeta", 1, vec![], vec![act(ActionType::SetCategory, "Zeta")]));
    let mut two = RuleService::new();
    two.add_rule(rule(2, "alpha", 5, vec![], vec![act(ActionType::SetCategory, "Alpha")]));
    two.add_rule(rule(3, "zeta", 1, vec![], vec![act(ActionType::SetCategory, "Zeta")]));
    two.add_rule(rule(1, "beta", 5, vec![], vec![act(ActionType::SetCategory, "Beta")]));
    let names = |b: &RuleService| b.rules.iter().map(|r| r.name.clone()).collect::<Vec<_>>();
    assert_eq!(names(&one), vec!["zeta", "alpha", "beta"]);
    assert_eq!(names(&one), names(&two));
    assert_eq!(one.apply_rules_to_transaction(&t).unwrap().category.as_deref(), Some("Beta"));
    assert_eq!(two.apply_rules_to_transaction(&t).unwrap().category.as_deref(), Some("Beta"));
    assert_eq!(one.apply_rules_to_transaction(&t).unwrap().category, one.apply_rules_to_transaction(&t).unwrap().category);
}

#[test]
fn condition_test_counts_and_samples_newest_first() {
    let txns: Vec<Transaction> = (0..150).map(|i| txn(i as u128, if i % 2 == 0 { "coffee" } else { "tea" }, None, 100, i)).collect();
    let (n, sample) = test_conditions(&vec![cond(ConditionType::DescriptionContains, "coffee")], &txns);
    assert_eq!(n, 75);
    assert_eq!(sample.len(), 75);
    let (n, sample) = test_conditions(&vec![], &txns);
    assert_eq!(n, 150);
    assert_eq!(sample.len(), 100);
    assert_eq!(sample[0].id, 0);
    let mut service = TransactionRuleService::new(ledger_ab(), RuleService::new());
    for i in 0..3 {
        let mut req = request("Coffee", 100);
        req.transaction_date = Some(10 * i);
        service.create_transaction_at(&req, ids(10 + i as u128), ids(20 + i as u128), 5).unwrap();
    }
    let (n, sample) = service.test_conditions(&vec![cond(ConditionType::AmountEquals, "1")]);
    assert_eq!(n, 3);
    assert_eq!(sample.iter().map(|t| t.transaction_date).collect::<Vec<_>>(), vec![20, 10, 0]);
}

fn ledger_ab() -> TransactionService {
    let mut l = TransactionService::new();
    for (id, name, class, bal) in [(A, "Checking", AccountClass::OnBudget, 10_000), (B, "Grocer", AccountClass::External, 0)] {
        l.open_account(Account {
            id,
            name: name.to_string(),
            account_type: class,
            account_sub_type: None,
            balance: bal,
            currency: "USD".to_string(),
            is_default: false,
            created_at: 0,
            updated_at: 0,
        }).unwrap();
    }
    l
}

fn ids(n: u128) -> FreshIds {
    FreshIds { transaction_id: 100 + n, account_id: 200 + n, category_id: 300 + n }
}

fn request(description: &str, amount: i64) -> CreateTransactionRequest {
    CreateTransactionRequest {
        source_account_id: A,
        destination_account_id: None,
        destination_name: Some("Coffee Shop".to_string()),
        description: description.to_string(),
        amount,
        category: "Food".to_string(),
        budget_id: None,
        transaction_date: None,
    }
}

fn balance(l: &TransactionService, id: u128) -> i64 {
    l.accounts.iter().find(|a| a.id == id).unwrap().balance
}

fn coffee_book() -> RuleService {
    let mut book = RuleService::new();
    book.add_rule(rule(1, "coffee", 10, vec![cond(ConditionType::DescriptionContains, "Coffee")], vec![act(ActionType::SetCategory, "Dining")]));
    book
}

#[test]
fn orchestrated_create_applies_rules_without_moving_balances() {
    let mut service = TransactionRuleService::new(ledger_ab(), coffee_book());
    let t = service.create_transaction_at(&request("Coffee", 1250), ids(1), ids(2), 5).unwrap();
    assert_eq!(t.category, "Dining");
    assert_eq!(t.amount, 1250);
    let shop = t.destination_account_id;
    assert_eq!(balance(&service.transaction_service, A), 8750);
    assert_eq!(balance(&service.transaction_service, shop), 1250);
    assert_eq!(service.transaction_service.transactions.len(), 1);
    assert_eq!(service.transaction_service.transactions[0].category, "Dining");
    assert!(service.transaction_service.categories.iter().any(|c| c.name == "Dining"));
}

#[test]
fn orchestrated_create_without_match_returns_ledger_result() {
    let mut service = TransactionRuleService::new(ledger_ab(), coffee_book());
    let t = service.create_transaction_at(&request("Tea", 300), ids(1), ids(2), 5).unwrap();
    assert_eq!(t.category, "Food");
}

#[test]
fn failed_follow_up_keeps_first_write() {
    let mut service = TransactionRuleService::new(ledger_ab(), coffee_book());
    let mut second = ids(2);
    second.category_id = 301;
    let t = service.create_transaction_at(&request("Coffee", 1250), ids(1), second, 5).unwrap();
    assert_eq!(t.category, "Food");
    assert_eq!(balance(&service.transaction_service, A), 8750);
}

#[test]
fn orchestrated_update_reapplies_rules() {
    let mut service = TransactionRuleService::new(ledger_ab(), coffee_book());
    let t = service.create_transaction_at(&request("Tea", 1250), ids(1), ids(2), 5).unwrap();
    let patch = UpdateTransactionRequest {
        destination_account_id: None,
        destination_name: None,
        description: Some("Coffee again".to_string()),
        amount: Some(-500),
        category: None,
        budget_id: None,
        transaction_date: None,
    };
    let u = service.update_transaction_at(t.id, &patch, ids(3), ids(4), 6).unwrap().unwrap();
    assert_eq!(u.category, "Dining");
    assert_eq!(u.amount, -500);
    assert_eq!(balance(&service.transaction_service, A), 10_500);
    assert_eq!(balance(&service.transaction_service, t.destination_account_id), -500);
}

#[test]
fn create_with_random_identifiers() {
    let mut service = TransactionRuleService::new(ledger_ab(), coffee_book());
    let t = service.create_transaction(&request("Coffee", 1250)).unwrap();
    assert_eq!(t.category, "Dining");
    assert!(service.delete_transaction(t.id).unwrap());
    assert_eq!(balance(&service.transaction_service, A), 10_000);
    let mut bad = request("Coffee", 1250);
    bad.amount = 0;
    assert!(service.create_transaction(&bad).is_err());
    assert_eq!(service.transaction_service.transactions.len(), 0);
}

#[test]
fn batch_application_rewrites_only_non_balance_fields() {
    let mut service = TransactionRuleService::new(ledger_ab(), RuleService::new());
    service.create_transaction_at(&request("Coffee", 1250), ids(1), ids(2), 5).unwrap();
    service.create_transaction_at(&request("Tea", 300), ids(3), ids(4), 5).unwrap();
    service.rule_service = coffee_book();
    let mut inactive = rule(9, "off", 1, vec![], vec![act(ActionType::SetDescription, "never")]);
    inactive.is_active = false;
    service.rule_service.add_rule(inactive);
    let before: Vec<i64> = service.transaction_service.accounts.iter().map(|a| a.balance).collect();
    assert_eq!(service.apply_all_rules_to_all_transactions_at(50), 1);
    assert_eq!(service.transaction_service.transactions[0].category, "Dining");
    assert_eq!(service.transaction_service.transactions[0].updated_at, 50);
    assert_eq!(service.transaction_service.transactions[1].category, "Food");
    let after: Vec<i64> = service.transaction_service.accounts.iter().map(|a| a.balance).collect();
    assert_eq!(before, after);
    assert_eq!(service.apply_rule_to_all_transactions_at(9, 60), Some(0));
    assert_eq!(service.apply_rule_to_all_transactions_at(1, 60), Some(1));
    assert_eq!(service.apply_rule_to_all_transactions_at(77, 60), None);
    assert_eq!(service.apply_all_rules_to_all_transactions(), 1);
    assert_eq!(service.apply_rule_to_all_transactions(77), None);
}

#[test]
fn balance_frequency_text() {
    assert_eq!(BalanceFrequency::from_str("Daily"), Ok(BalanceFrequency::Daily));
    assert_eq!(BalanceFrequency::from_str("WEEKLY"), Ok(BalanceFrequency::Weekly));
    assert_eq!(BalanceFrequency::from_str("monthly"), Ok(BalanceFrequency::Monthly));
    assert_eq!(BalanceFrequency::from_str("auto"), Ok(BalanceFrequency::Auto));
    assert_eq!(BalanceFrequency::from_str("yearly"), Err("Unknown balance frequency: yearly".to_string()));
    assert_eq!(BalanceFrequency::Weekly.as_str(), "weekly");
    assert_eq!(BalanceFrequency::default(), BalanceFrequency::Auto);
}

#[test]
fn api_errors_and_defaults() {
    assert!(matches!(ApiError::bad_request("m".to_string()), ApiError::BadRequest(m) if m == "m"));
    assert!(matches!(ApiError::not_found("n".to_string()), ApiError::NotFound(_)));
    assert_eq!(ApiError::internal_error("x".to_string()).status_code(), 500);
    assert_eq!(ApiError::not_found("x".to_string()).status_code(), 404);
    assert_eq!(default_max_retries(), 3);
    assert_eq!(default_retry_delay(), 1000);
    assert!(default_true());
    let m = AccountTypeMapping::default();
    assert_eq!(m.asset, "On Budget");
    assert_eq!(m.loan, "Off Budget");
    assert_eq!(m.other, "External");
}

#[test]
fn account_type_splits_class_and_sub_type() {
    assert_eq!(parse_account_type("On Budget - Credit Card"), ("On Budget".to_string(), Some("Credit Card".to_string())));
    assert_eq!(parse_account_type("External"), ("External".to_string(), None));
    assert_eq!(parse_account_type(""), (String::new(), None));
    assert_eq!(parse_account_type("  Off Budget  -  Loan "), ("Off Budget".to_string(), Some("Loan".to_string())));
    assert_eq!(parse_account_type("On Budget - "), ("On Budget -".to_string(), None));
    assert_eq!(parse_account_type(" - Savings"), ("- Savings".to_string(), None));
}

#[test]
fn firefly_account_types_map_to_classes() {
    use_map("Asset", "Off Budget");
    use_map("LOAN", "Off Budget");
    use_map("debt", "Off Budget");
    use_map("Liabilities", "Off Budget");
    use_map("expense", "External");
    use_map("revenue", "External");
    use_map("something", "External");
}

fn use_map(input: &str, expected: &str) {
    assert_eq!(rustler_ledger::account_type::map_account_type(input), expected);
}

#[test]
fn amount_conditions_read_exponents_and_infinities() {
    let t = txn(1, "x", None, 200_000, 0);
    assert!(holds(ConditionType::AmountGreaterThan, "1e3", &t));
    assert!(holds(ConditionType::AmountEquals, "2E3", &t));
    assert!(holds(ConditionType::AmountEquals, "0.2e+4", &t));
    assert!(holds(ConditionType::AmountLessThan, "2.5e3", &t));
    assert!(holds(ConditionType::AmountLessThan, "1e25", &t));
    assert!(holds(ConditionType::AmountGreaterThan, "-1e25", &t));
    assert!(holds(ConditionType::AmountGreaterThan, "1e-30", &t));
    assert!(!holds(ConditionType::AmountEquals, "1e-30", &t));
    assert!(holds(ConditionType::AmountLessThan, "inf", &t));
    assert!(holds(ConditionType::AmountLessThan, "+Infinity", &t));
    assert!(holds(ConditionType::AmountGreaterThan, "-INF", &t));
    assert!(!holds(ConditionType::AmountEquals, "inf", &t));
    assert!(!holds(ConditionType::AmountGreaterThan, "NaN", &t));
    assert!(!holds(ConditionType::AmountLessThan, "NaN", &t));
    assert!(!holds(ConditionType::AmountEquals, "5e", &t));
    assert!(!holds(ConditionType::AmountEquals, "e5", &t));
    assert!(holds(ConditionType::AmountGreaterThan, "1e-99999999999", &t));
    assert!(holds(ConditionType::AmountLessThan, "1e99999999999", &t));
    let zero = txn(2, "x", None, 0, 0);
    assert!(holds(ConditionType::AmountEquals, "1e-30", &zero));
    assert!(holds(ConditionType::AmountLessThan, "1e-30", &zero));
    assert!(holds(ConditionType::AmountEquals, "0e99", &zero));
    let cents = txn(3, "x", None, 1, 0);
    assert!(holds(ConditionType::AmountEquals, "1e-2", &cents));
    assert!(holds(ConditionType::AmountEquals, "100e-4", &cents));
    assert!(holds(ConditionType::AmountGreaterThan, "9.99e-3", &cents));
    assert!(holds(ConditionType::AmountEquals, "10000000000000000e-18", &cents));
    assert!(holds(ConditionType::AmountEquals, "0.000000000000000000000000001e25", &cents));
    assert!(holds(ConditionType::AmountGreaterThan, "0.0000000000000000000000001", &cents));
}

#[test]
fn rule_destination_name_is_a_label_only() {
    let mut book = RuleService::new();
    book.add_rule(rule(1, "label", 1, vec![], vec![act(ActionType::SetDestinationName, "Grocer")]));
    let mut service = TransactionRuleService::new(ledger_ab(), book);
    let t = service.create_transaction_at(&request("Coffee", 1250), ids(1), ids(2), 5).unwrap();
    assert_eq!(t.destination_name.as_deref(), Some("Grocer"));
    assert_ne!(t.destination_account_id, B);
    assert_eq!(balance(&service.transaction_service, B), 0);
    assert_eq!(balance(&service.transaction_service, t.destination_account_id), 1250);
    assert_eq!(service.transaction_service.transactions[0].destination_name.as_deref(), Some("Grocer"));
}

#[test]
fn apply_rule_with_inactive_rule_changes_nothing() {
    let mut service = TransactionRuleService::new(ledger_ab(), RuleService::new());
    service.create_transaction_at(&request("Coffee", 1250), ids(1), ids(2), 5).unwrap();
    let mut off = rule(9, "off", 1, vec![], vec![act(ActionType::SetCategory, "X")]);
    off.is_active = false;
    service.rule_service.add_rule(off);
    assert_eq!(service.apply_rule_to_all_transactions(9), Some(0));
    assert_eq!(service.apply_all_rules_to_all_transactions(), 0);
    assert_eq!(service.transaction_service.transactions[0].category, "Food");
    assert_eq!(service.transaction_service.transactions[0].updated_at, 5);
}
