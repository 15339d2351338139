use rustler_ledger::ledger::{resolve_destination, DestinationPlan, TransactionService};
use rustler_ledger::model::{
    Account, AccountClass, CreateTransactionRequest, FreshIds, LedgerError,
    UpdateTransactionRequest,
};

const A: u128 = 0xA;
const B: u128 = 0xB;

fn account(id: u128, name: &str, class: AccountClass, balance: i64) -> Account {
    Account {
        id,
        name: name.to_string(),
        account_type: class,
        account_sub_type: None,
        balance,
        currency: "USD".to_string(),
        is_default: false,
        created_at: 0,
        updated_at: 0,
    }
}

fn ledger_ab() -> TransactionService {
    let mut l = TransactionService::new();
    l.open_account(account(A, "Checking", AccountClass::OnBudget, 10_000)).unwrap();
    l.open_account(account(B, "Grocer", AccountClass::External, 0)).unwrap();
    l
}

fn ids(n: u128) -> FreshIds {
    FreshIds { transaction_id: 100 + n, account_id: 200 + n, category_id: 300 + n }
}

fn request(dest_name: Option<&str>, description: &str, amount: i64) -> CreateTransactionRequest {
    CreateTransactionRequest {
        source_account_id: A,
        destination_account_id: None,
        destination_name: dest_name.map(|s| s.to_string()),
        description: description.to_string(),
        amount,
        category: "Food".to_string(),
        budget_id: None,
        transaction_date: None,
    }
}

fn empty_patch() -> UpdateTransactionRequest {
    UpdateTransactionRequest {
        destination_account_id: None,
        destination_name: None,
        description: None,
        amount: None,
        category: None,
        budget_id: None,
        transaction_date: None,
    }
}

fn balance(l: &TransactionService, id: u128) -> i64 {
    l.accounts.iter().find(|a| a.id == id).unwrap().balance
}

fn total(l: &TransactionService) -> i64 {
    l.accounts.iter().map(|a| a.balance).sum()
}

#[test]
fn create_to_new_external_account() {
    let mut l = ledger_ab();
    let t = l.create_transaction_with(&request(Some("Coffee Shop"), "Coffee", 1250), ids(1), 7).unwrap();
    assert_eq!(t.amount, 1250);
    assert_eq!(t.destination_name.as_deref(), Some("Coffee Shop"));
    assert_eq!(t.destination_account_id, 201);
    assert_eq!(t.transaction_date, 7);
    let shop = l.accounts.iter().find(|a| a.name == "Coffee Shop").unwrap();
    assert_eq!(shop.account_type, AccountClass::External);
    assert_eq!(shop.balance, 1250);
    assert_eq!(balance(&l, A), 8750);
    assert_eq!(l.accounts.len(), 3);
    assert_eq!(l.transactions.len(), 1);
}

#[test]
fn create_uses_existing_account_by_name() {
    let mut l = ledger_ab();
    let t = l.create_transaction_with(&request(Some("Grocer"), "Weekly shop", 300), ids(1), 7).unwrap();
    assert_eq!(t.destination_account_id, B);
    assert_eq!(l.accounts.len(), 2);
    assert_eq!(balance(&l, B), 300);
    assert_eq!(balance(&l, A), 9700);
}

#[test]
fn create_uses_description_when_no_name() {
    let mut l = ledger_ab();
    let t = l.create_transaction_with(&request(None, "Grocer", 300), ids(1), 7).unwrap();
    assert_eq!(t.destination_account_id, B);
    assert_eq!(t.destination_name.as_deref(), Some("Grocer"));
}

#[test]
fn negative_amount_moves_value_back() {
    let mut l = ledger_ab();
    l.create_transaction_with(&request(Some("Grocer"), "Refund", -400), ids(1), 7).unwrap();
    assert_eq!(balance(&l, A), 10_400);
    assert_eq!(balance(&l, B), -400);
    assert_eq!(total(&l), 10_000);
}

#[test]
fn zero_amount_is_invalid_and_writes_nothing() {
    let mut l = ledger_ab();
    let r = l.create_transaction_with(&request(Some("New Payee"), "x", 0), ids(1), 7);
    assert_eq!(r.unwrap_err(), LedgerError::InvalidTransaction);
    assert_eq!(l.accounts.len(), 2);
    assert_eq!(l.transactions.len(), 0);
    assert_eq!(l.categories.len(), 0);
}

#[test]
fn source_equal_to_destination_is_invalid() {
    let mut l = ledger_ab();
    let mut req = request(None, "self", 100);
    req.destination_account_id = Some(A);
    assert_eq!(l.create_transaction_with(&req, ids(1), 7).unwrap_err(), LedgerError::InvalidTransaction);
    let r = l.create_transaction_with(&request(Some("Checking"), "self", 100), ids(1), 7);
    assert_eq!(r.unwrap_err(), LedgerError::InvalidTransaction);
    assert_eq!(balance(&l, A), 10_000);
}

#[test]
fn missing_destination_account_rolls_back() {
    let mut l = ledger_ab();
    let mut req = request(None, "ghost", 100);
    req.destination_account_id = Some(0xDEAD);
    let r = l.create_transaction_with(&req, ids(1), 7);
    assert_eq!(r.unwrap_err(), LedgerError::InvariantViolation);
    assert_eq!(balance(&l, A), 10_000);
    assert_eq!(l.transactions.len(), 0);
    assert_eq!(l.categories.len(), 0);
}

#[test]
fn used_identifier_is_a_storage_error() {
    let mut l = ledger_ab();
    l.create_transaction_with(&request(Some("Grocer"), "a", 100), ids(1), 7).unwrap();
    let r = l.create_transaction_with(&request(Some("Other"), "b", 100), ids(1), 8);
    assert_eq!(r.unwrap_err(), LedgerError::StorageError);
    assert_eq!(l.accounts.len(), 2);
    assert_eq!(l.transactions.len(), 1);
    let mut taken = ids(2);
    taken.account_id = B;
    let r = l.create_transaction_with(&request(Some("Other"), "b", 100), taken, 8);
    assert_eq!(r.unwrap_err(), LedgerError::StorageError);
}

#[test]
fn overflowing_balance_is_a_storage_error() {
    let mut l = TransactionService::new();
    l.open_account(account(A, "A", AccountClass::OnBudget, i64::MIN)).unwrap();
    l.open_account(account(B, "B", AccountClass::External, 0)).unwrap();
    let r = l.create_transaction_with(&request(Some("B"), "x", 1), ids(1), 7);
    assert_eq!(r.unwrap_err(), LedgerError::StorageError);
    assert_eq!(balance(&l, A), i64::MIN);
    assert_eq!(balance(&l, B), 0);
}

#[test]
fn same_category_twice_creates_one_category() {
    let mut l = ledger_ab();
    let t1 = l.create_transaction_with(&request(Some("Grocer"), "a", 100), ids(1), 7).unwrap();
    let t2 = l.create_transaction_with(&request(Some("Grocer"), "b", 200), ids(2), 8).unwrap();
    assert_eq!(l.categories.iter().filter(|c| c.name == "Food").count(), 1);
    assert_eq!(t1.category_id, Some(301));
    assert_eq!(t2.category_id, Some(301));
}

#[test]
fn update_amount_reverses_then_applies() {
    let mut l = ledger_ab();
    let t = l.create_transaction_with(&request(Some("Coffee Shop"), "Coffee", 1250), ids(1), 7).unwrap();
    let dest = t.destination_account_id;
    let mut patch = empty_patch();
    patch.amount = Some(-500);
    let u = l.update_transaction_with(t.id, &patch, ids(2), 9).unwrap().unwrap();
    assert_eq!(u.amount, -500);
    assert_eq!(u.updated_at, 9);
    assert_eq!(u.created_at, 7);
    assert_eq!(balance(&l, A), 8750 + 1750);
    assert_eq!(balance(&l, dest), 1250 - 1750);
    assert_eq!(total(&l), 10_000);
}

#[test]
fn update_amount_equals_delete_then_create() {
    let mut updated = ledger_ab();
    let t = updated.create_transaction_with(&request(Some("Grocer"), "a", 1250), ids(1), 7).unwrap();
    let mut replaced = ledger_ab();
    replaced.create_transaction_with(&request(Some("Grocer"), "a", 1250), ids(1), 7).unwrap();
    let mut patch = empty_patch();
    patch.amount = Some(300);
    updated.update_transaction_with(t.id, &patch, ids(2), 9).unwrap().unwrap();
    assert!(replaced.delete_transaction_with(t.id, 9).unwrap());
    let mut req = request(None, "a", 300);
    req.destination_account_id = Some(B);
    replaced.create_transaction_with(&req, ids(3), 9).unwrap();
    assert_eq!(balance(&updated, A), balance(&replaced, A));
    assert_eq!(balance(&updated, B), balance(&replaced, B));
}

#[test]
fn update_missing_transaction_is_none() {
    let mut l = ledger_ab();
    let r = l.update_transaction_with(42, &empty_patch(), ids(1), 9).unwrap();
    assert!(r.is_none());
}

#[test]
fn update_destination_by_name_creates_account() {
    let mut l = ledger_ab();
    let t = l.create_transaction_with(&request(Some("Grocer"), "a", 100), ids(1), 7).unwrap();
    let mut patch = empty_patch();
    patch.destination_name = Some("Bakery".to_string());
    let u = l.update_transaction_with(t.id, &patch, ids(2), 9).unwrap().unwrap();
    assert_eq!(u.destination_account_id, 202);
    assert_eq!(u.destination_name.as_deref(), Some("Bakery"));
    assert_eq!(balance(&l, B), 0);
    assert_eq!(balance(&l, 202), 100);
    assert_eq!(balance(&l, A), 9900);
}

#[test]
fn update_to_zero_amount_is_invalid() {
    let mut l = ledger_ab();
    let t = l.create_transaction_with(&request(Some("Grocer"), "a", 100), ids(1), 7).unwrap();
    let mut patch = empty_patch();
    patch.amount = Some(0);
    patch.category = Some("Other".to_string());
    let r = l.update_transaction_with(t.id, &patch, ids(2), 9);
    assert_eq!(r.unwrap_err(), LedgerError::InvalidTransaction);
    assert_eq!(l.transactions[0].amount, 100);
    assert_eq!(l.categories.len(), 1);
}

#[test]
fn delete_reverses_balance_effect() {
    let mut l = ledger_ab();
    let t = l.create_transaction_with(&request(Some("Grocer"), "a", 100), ids(1), 7).unwrap();
    assert!(l.delete_transaction_with(t.id, 9).unwrap());
    assert_eq!(balance(&l, A), 10_000);
    assert_eq!(balance(&l, B), 0);
    assert!(l.transactions.is_empty());
    assert!(!l.delete_transaction_with(t.id, 9).unwrap());
}

#[test]
fn second_default_account_is_refused() {
    let mut l = TransactionService::new();
    let mut a = account(A, "A", AccountClass::OnBudget, 0);
    a.is_default = true;
    l.open_account(a).unwrap();
    let mut b = account(B, "B", AccountClass::OnBudget, 0);
    b.is_default = true;
    assert_eq!(l.open_account(b).unwrap_err(), LedgerError::StorageError);
    assert_eq!(l.open_account(account(A, "C", AccountClass::OnBudget, 0)).unwrap_err(), LedgerError::StorageError);
}

#[test]
fn destination_resolution_is_three_way() {
    let l = ledger_ab();
    match resolve_destination(&l.accounts, A, None, &"Grocer".to_string()) {
        DestinationPlan::Found(id) => assert_eq!(id, B),
        _ => panic!("expected an existing account"),
    }
    match resolve_destination(&l.accounts, A, None, &"Nobody".to_string()) {
        DestinationPlan::CreateNew(n) => assert_eq!(n, "Nobody"),
        _ => panic!("expected a new account"),
    }
    assert!(matches!(resolve_destination(&l.accounts, A, None, &"Checking".to_string()), DestinationPlan::Invalid));
    assert!(matches!(resolve_destination(&l.accounts, A, Some(A), &"x".to_string()), DestinationPlan::Invalid));
}

#[test]
fn balances_sum_is_conserved_over_operations() {
    let mut l = ledger_ab();
    let t1 = l.create_transaction_with(&request(Some("Grocer"), "a", 100), ids(1), 7).unwrap();
    let t2 = l.create_transaction_with(&request(Some("Cafe"), "b", -250), ids(2), 7).unwrap();
    let mut patch = empty_patch();
    patch.amount = Some(999);
    patch.destination_name = Some("Cafe".to_string());
    l.update_transaction_with(t1.id, &patch, ids(3), 8).unwrap();
    l.delete_transaction_with(t2.id, 9).unwrap();
    assert_eq!(total(&l), 10_000);
    assert_eq!(balance(&l, A), 10_000 - 999);
}
