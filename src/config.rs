//! Settings, API errors and request records around the ledger.
use vstd::prelude::*;
use vstd::string::StringExecFns;
use crate::text::{chars_of, equal_chars, lower_chars, lower_of};

verus! {

/// Sampling frequency of balance series.
#[derive(Debug, Clone, Copy, PartialEq, Eq, Structural)]
pub enum BalanceFrequency {
    Daily,
    Weekly,
    Monthly,
    Auto,
}

impl BalanceFrequency {
    /// The text form of the frequency.
    pub fn as_str(&self) -> (r: &'static str)
        ensures
            r@ == match *self {
                BalanceFrequency::Daily => "daily"@,
                BalanceFrequency::Weekly => "weekly"@,
                BalanceFrequency::Monthly => "monthly"@,
                BalanceFrequency::Auto => "auto"@,
            },
    {
        match self {
            BalanceFrequency::Daily => "daily",
            BalanceFrequency::Weekly => "weekly",
            BalanceFrequency::Monthly => "monthly",
            BalanceFrequency::Auto => "auto",
        }
    }

    pub fn unknown(s: &str) -> (r: String)
        ensures
            r@ == "Unknown balance frequency: "@ + s@,
    {
        let m = String::from_str("Unknown balance frequency: ");
        m.concat(s)
    }

    /// Reads a frequency, ignoring case.
    pub fn from_str(s: &str) -> (r: Result<BalanceFrequency, String>)
        ensures
            lower_of(s@) == "daily"@ ==> r == Ok::<BalanceFrequency, String>(BalanceFrequency::Daily),
            lower_of(s@) == "weekly"@ ==> r == Ok::<BalanceFrequency, String>(BalanceFrequency::Weekly),
            lower_of(s@) == "monthly"@ ==> r == Ok::<BalanceFrequency, String>(BalanceFrequency::Monthly),
            lower_of(s@) == "auto"@ ==> r == Ok::<BalanceFrequency, String>(BalanceFrequency::Auto),
            r is Err <==> (lower_of(s@) != "daily"@ && lower_of(s@) != "weekly"@ && lower_of(s@)
                != "monthly"@ && lower_of(s@) != "auto"@),
            r matches Err(m) ==> m@ == "Unknown balance frequency: "@ + s@,
    {
        proof {
            reveal_strlit("daily");
            reveal_strlit("weekly");
            reveal_strlit("monthly");
            reveal_strlit("auto");
            assert("daily"@.len() == 5 && "weekly"@.len() == 6 && "monthly"@.len() == 7
                && "auto"@.len() == 4);
        }
        let l = lower_chars(s);
        if equal_chars(&l, &chars_of("daily")) {
            Ok(BalanceFrequency::Daily)
        } else if equal_chars(&l, &chars_of("weekly")) {
            Ok(BalanceFrequency::Weekly)
        } else if equal_chars(&l, &chars_of("monthly")) {
            Ok(BalanceFrequency::Monthly)
        } else if equal_chars(&l, &chars_of("auto")) {
            Ok(BalanceFrequency::Auto)
        } else {
            Err(BalanceFrequency::unknown(s))
        }
    }
}

impl Default for BalanceFrequency {
    fn default() -> (r: BalanceFrequency)
        ensures
            r == BalanceFrequency::Auto,
    {
        BalanceFrequency::Auto
    }
}

/// An error reported by the HTTP layer, with its message.
#[derive(Debug)]
pub enum ApiError {
    BadRequest(String),
    NotFound(String),
    InternalError(String),
}

impl ApiError {
    pub fn bad_request(message: String) -> (r: ApiError)
        ensures
            r == ApiError::BadRequest(message),
    {
        ApiError::BadRequest(message)
    }

    pub fn not_found(message: String) -> (r: ApiError)
        ensures
            r == ApiError::NotFound(message),
    {
        ApiError::NotFound(message)
    }

    pub fn internal_error(message: String) -> (r: ApiError)
        ensures
            r == ApiError::InternalError(message),
    {
        ApiError::InternalError(message)
    }

    /// The HTTP status code of the error.
    pub fn status_code(&self) -> (r: u16)
        ensures
            r == match *self {
                ApiError::BadRequest(_) => 400u16,
                ApiError::NotFound(_) => 404u16,
                ApiError::InternalError(_) => 500u16,
            },
    {
        match self {
            ApiError::BadRequest(_) => 400,
            ApiError::NotFound(_) => 404,
            ApiError::InternalError(_) => 500,
        }
    }
}

/// Body of an error response.
#[derive(Debug)]
pub struct ErrorResponse {
    pub error: String,
    pub message: String,
}

/// Application settings.
#[derive(Debug)]
pub struct AppConfig {
    pub server: ServerConfig,
    pub firefly: FireflyConfig,
}

#[derive(Debug)]
pub struct ServerConfig {
    pub host: String,
    pub port: u16,
}

/// Connection settings of the Firefly III API.
#[derive(Debug)]
pub struct FireflyConfig {
    pub api_url: String,
    pub api_token: String,
    pub accept_invalid_certs: bool,
    pub max_retries: u32,
    pub retry_delay_ms: u64,
    pub debug_mode: bool,
}

pub fn default_accept_invalid_certs() -> (r: bool)
    ensures
        !r,
{
    false
}

pub fn default_max_retries() -> (r: u32)
    ensures
        r == 3,
{
    3
}

pub fn default_retry_delay() -> (r: u64)
    ensures
        r == 1000,
{
    1000
}

pub fn default_debug_mode() -> (r: bool)
    ensures
        !r,
{
    false
}

/// Process settings of the server.
#[derive(Debug)]
pub struct Config {
    pub database_url: String,
    pub port: u16,
    pub host: String,
    pub firefly_import: bool,
}

#[derive(Debug)]
pub struct CreateBudgetGroupRequest {
    pub name: String,
    pub description: Option<String>,
}

#[derive(Debug)]
pub struct UpdateBudgetGroupRequest {
    pub name: Option<String>,
    pub description: Option<String>,
}

#[derive(Debug)]
pub struct CreateCategoryGroupRequest {
    pub name: String,
    pub description: Option<String>,
}

#[derive(Debug)]
pub struct UpdateCategoryGroupRequest {
    pub name: Option<String>,
    pub description: Option<String>,
}

#[derive(Debug)]
pub struct CreateRuleGroupRequest {
    pub name: String,
    pub description: Option<String>,
}

#[derive(Debug)]
pub struct UpdateRuleGroupRequest {
    pub name: Option<String>,
    pub description: Option<String>,
}

#[derive(Debug)]
pub struct UpdateSettingRequest {
    pub value: String,
}

#[derive(Debug)]
pub struct DateRangeQuery {
    pub start_date: Option<String>,
    pub end_date: Option<String>,
}

#[derive(Debug, Clone, Copy)]
pub struct FeaturesResponse {
    pub firefly_import: bool,
}

/// Query of the spending report.
#[derive(Debug)]
pub struct SpendingReportQuery {
    pub start_date: Option<String>,
    pub end_date: Option<String>,
    /// Comma-separated account identifiers.
    pub account_ids: Option<String>,
    /// Group by category group rather than by category.
    pub group: bool,
    pub period: Option<String>,
}

pub fn default_true() -> (r: bool)
    ensures
        r,
{
    true
}

/// Pagination block of a Firefly III response.
#[derive(Debug, Clone, Copy)]
pub struct FireflyPagination {
    pub total: Option<i32>,
    pub count: Option<i32>,
    pub per_page: Option<i32>,
    pub current_page: Option<i32>,
    pub total_pages: Option<i32>,
}

#[derive(Debug, Clone, Copy)]
pub struct FireflyMeta {
    pub pagination: FireflyPagination,
}

/// A Firefly III response: data and optional metadata.
#[derive(Debug)]
pub struct FireflyResponse<T> {
    pub data: T,
    pub meta: Option<FireflyMeta>,
}

/// Account types of Firefly III.
#[derive(Debug, Clone, Copy, PartialEq, Eq, Structural)]
pub enum FireflyAccountType {
    Asset,
    Expense,
    Revenue,
    Loan,
    Debt,
    Liabilities,
    Other,
}

/// Transaction types of Firefly III.
#[derive(Debug, Clone, Copy, PartialEq, Eq, Structural)]
pub enum FireflyTransactionType {
    Withdrawal,
    Deposit,
    Transfer,
    Other,
}

/// Account class given to each Firefly III account type on import;
/// `account_specific` maps account names to a class and takes precedence.
#[derive(Debug)]
pub struct AccountTypeMapping {
    pub asset: String,
    pub expense: String,
    pub revenue: String,
    pub loan: String,
    pub debt: String,
    pub liabilities: String,
    pub other: String,
    pub account_specific: Vec<(String, String)>,
}

impl Default for AccountTypeMapping {
    fn default() -> (r: AccountTypeMapping)
        ensures
            r.asset@ == "On Budget"@,
            r.expense@ == "External"@,
            r.revenue@ == "External"@,
            r.loan@ == "Off Budget"@,
            r.debt@ == "Off Budget"@,
            r.liabilities@ == "Off Budget"@,
            r.other@ == "External"@,
            r.account_specific@.len() == 0,
    {
        AccountTypeMapping {
            asset: String::from_str("On Budget"),
            expense: String::from_str("External"),
            revenue: String::from_str("External"),
            loan: String::from_str("Off Budget"),
            debt: String::from_str("Off Budget"),
            liabilities: String::from_str("Off Budget"),
            other: String::from_str("External"),
            account_specific: Vec::new(),
        }
    }
}

/// How a Firefly III import is run: through the API or from CSV exports.
#[derive(Debug)]
pub struct FireflyImportOptions {
    pub import_method: String,
    pub api_url: Option<String>,
    pub api_token: Option<String>,
    pub accounts_csv_path: Option<String>,
    pub transactions_csv_path: Option<String>,
    pub account_type_mapping: AccountTypeMapping,
}

/// A row of a Firefly III account export.
#[derive(Debug)]
pub struct FireflyAccountCsv {
    pub user_id: Option<String>,
    pub id: String,
    pub created_at: Option<String>,
    pub updated_at: Option<String>,
    pub type_: String,
    pub name: String,
    pub virtual_balance: Option<String>,
    pub iban: Option<String>,
    pub number: Option<String>,
    pub active: Option<String>,
    pub currency_code: String,
    pub role: Option<String>,
    pub cc_type: Option<String>,
    pub cc_payment_date: Option<String>,
    pub in_net_worth: Option<String>,
    pub interest: Option<String>,
    pub interest_period: Option<String>,
    pub current_balance: Option<String>,
    pub notes: Option<String>,
}

/// A row of a Firefly III transaction export.
#[derive(Debug)]
pub struct FireflyTransactionCsv {
    pub user_id: Option<String>,
    pub group_id: Option<String>,
    pub id: String,
    pub created_at: Option<String>,
    pub updated_at: Option<String>,
    pub group_title: Option<String>,
    pub transaction_type: String,
    pub currency_code: Option<String>,
    pub amount: String,
    pub foreign_currency_code: Option<String>,
    pub foreign_amount: Option<String>,
    pub native_currency_code: Option<String>,
    pub native_amount: Option<String>,
    pub native_foreign_amount: Option<String>,
    pub description: String,
    pub date: String,
    pub source_name: String,
    pub source_iban: Option<String>,
    pub source_type: Option<String>,
    pub destination_name: String,
    pub destination_iban: Option<String>,
    pub destination_type: Option<String>,
    pub reconciled: Option<String>,
    pub category_name: Option<String>,
    pub budget: Option<String>,
    pub bill: Option<String>,
    pub tags: Option<String>,
    pub notes: Option<String>,
    pub sepa_cc: Option<String>,
    pub sepa_ct_op: Option<String>,
    pub sepa_ct_id: Option<String>,
    pub sepa_db: Option<String>,
    pub sepa_country: Option<String>,
    pub sepa_ep: Option<String>,
    pub sepa_ci: Option<String>,
    pub sepa_batch_id: Option<String>,
    pub external_url: Option<String>,
    pub interest_date: Option<String>,
    pub book_date: Option<String>,
    pub process_date: Option<String>,
    pub due_date: Option<String>,
    pub payment_date: Option<String>,
    pub invoice_date: Option<String>,
    pub recurrence_id: Option<String>,
    pub internal_reference: Option<String>,
    pub bunq_payment_id: Option<String>,
    pub import_hash: Option<String>,
    pub import_hash_v2: Option<String>,
    pub external_id: Option<String>,
    pub original_source: Option<String>,
    pub recurrence_total: Option<String>,
    pub recurrence_count: Option<String>,
    pub recurrence_date: Option<String>,
}

} // verus!
