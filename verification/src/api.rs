//! The request-level decisions of the service: the error taxonomy, the
//! HTTP-equivalent status code for each outcome, and the wallet-verification
//! decision (plain, case-sensitive string equality against the stored key).

use vstd::prelude::*;
use crate::validation::{valid_emp_id, valid_pub_key};

verus! {

/// Which validation rule a create request broke.
#[derive(Clone, Copy, Debug, PartialEq, Eq)]
pub enum ValidationFault {
    /// `emp_id` is not exactly eight ASCII digits.
    BadEmpId,
    /// `pub_key` is shorter than 32 characters.
    ShortPubKey,
}

/// Why a request failed. Validation faults are detected before any storage
/// access; a conflict is a duplicate `emp_id` on insert; `Storage` stands for
/// any other failure of the persistence layer.
#[derive(Clone, Copy, Debug, PartialEq, Eq)]
pub enum ApiError {
    Validation(ValidationFault),
    Conflict,
    Storage,
}

/// The outcome of comparing a submitted wallet key against the stored one.
#[derive(Clone, Copy, Debug, PartialEq, Eq)]
pub enum VerifyStatus {
    /// A record exists and the stored key equals the submitted one.
    Connected,
    /// A record exists but the stored key differs from the submitted one.
    MismatchedAccounts,
    /// No record exists for the requested `emp_id`.
    NotFound,
}

/// What validating a create request yields: `emp_id` is checked first, then
/// `pub_key`; a valid request passes.
pub open spec fn validate_spec(id: Seq<char>, key: Seq<char>) -> Result<(), ApiError> {
    if !valid_emp_id(id) {
        Err(ApiError::Validation(ValidationFault::BadEmpId))
    } else if !valid_pub_key(key) {
        Err(ApiError::Validation(ValidationFault::ShortPubKey))
    } else {
        Ok(())
    }
}

/// Validates a create request: `emp_id` must be exactly eight ASCII digits
/// and `pub_key` at least 32 characters. No storage is touched.
pub fn validate_new_employee(emp_id: &str, pub_key: &str) -> (r: Result<(), ApiError>)
    ensures
        r == validate_spec(emp_id@, pub_key@),
{
    if !crate::validation::check_emp_id(emp_id) {
        Err(ApiError::Validation(ValidationFault::BadEmpId))
    } else if !crate::validation::check_pub_key(pub_key) {
        Err(ApiError::Validation(ValidationFault::ShortPubKey))
    } else {
        Ok(())
    }
}

/// A submitted wallet key that is absent from the request body counts as the
/// empty string.
pub open spec fn submitted_of(w: Option<&str>) -> Seq<char> {
    match w {
        Some(s) => s@,
        None => Seq::<char>::empty(),
    }
}

/// The verification table: no stored record is "not found"; an equal key is
/// "connected"; a differing key is "mismatched accounts".
pub open spec fn status_decision(stored: Option<Seq<char>>, submitted: Seq<char>) -> VerifyStatus {
    match stored {
        None => VerifyStatus::NotFound,
        Some(k) => if k == submitted {
            VerifyStatus::Connected
        } else {
            VerifyStatus::MismatchedAccounts
        },
    }
}

/// Decides the verification status from the stored key (if any) and the
/// submitted key (if present in the request). Exact, case-sensitive string
/// equality; a missing submitted key is compared as the empty string.
pub fn wallet_status(stored: Option<&String>, wallet_pubkey: Option<&str>) -> (st: VerifyStatus)
    ensures
        st == status_decision(
            match stored {
                Some(k) => Some(k@),
                None => None,
            },
            submitted_of(wallet_pubkey),
        ),
{
    let submitted: String = match wallet_pubkey {
        Some(s) => s.to_owned(),
        None => String::new(),
    };
    match stored {
        None => VerifyStatus::NotFound,
        Some(k) => {
            if *k == submitted {
                VerifyStatus::Connected
            } else {
                VerifyStatus::MismatchedAccounts
            }
        },
    }
}

/// The status text of a verification outcome, as serialized to callers.
pub open spec fn status_text_spec(st: VerifyStatus) -> Seq<char> {
    match st {
        VerifyStatus::Connected => "connected"@,
        VerifyStatus::MismatchedAccounts => "mismatched accounts"@,
        VerifyStatus::NotFound => "not found"@,
    }
}

impl VerifyStatus {
    /// The exact status string reported to callers.
    pub fn status_text(&self) -> (r: String)
        ensures
            r@ == status_text_spec(*self),
    {
        match self {
            VerifyStatus::Connected => "connected".to_owned(),
            VerifyStatus::MismatchedAccounts => "mismatched accounts".to_owned(),
            VerifyStatus::NotFound => "not found".to_owned(),
        }
    }
}

/// The HTTP-equivalent status code of a create outcome: 201 on success,
/// 400 for a validation fault, 409 for a duplicate `emp_id`, 500 for any
/// other storage failure.
pub open spec fn code_of(r: Result<(), ApiError>) -> int {
    match r {
        Ok(_) => 201,
        Err(ApiError::Validation(_)) => 400,
        Err(ApiError::Conflict) => 409,
        Err(ApiError::Storage) => 500,
    }
}

/// Maps a create outcome to its HTTP-equivalent status code.
pub fn response_code(r: &Result<(), ApiError>) -> (c: u16)
    ensures
        c as int == code_of(*r),
{
    match r {
        Ok(_) => 201,
        Err(ApiError::Validation(_)) => 400,
        Err(ApiError::Conflict) => 409,
        Err(ApiError::Storage) => 500,
    }
}

/// The message text of each error, as reported to callers.
pub open spec fn message_spec(e: ApiError) -> Seq<char> {
    match e {
        ApiError::Validation(ValidationFault::BadEmpId) => "emp_id must be exactly 8 ASCII digits"@,
        ApiError::Validation(ValidationFault::ShortPubKey) => "pub_key must be at least 32 characters"@,
        ApiError::Conflict => "duplicate emp_id"@,
        ApiError::Storage => "server error"@,
    }
}

impl ApiError {
    /// The caller-facing message for this error. Storage failures stay
    /// generic: their detail is for operators, not for callers.
    pub fn message(&self) -> (r: String)
        ensures
            r@ == message_spec(*self),
    {
        match self {
            ApiError::Validation(ValidationFault::BadEmpId) => {
                "emp_id must be exactly 8 ASCII digits".to_owned()
            },
            ApiError::Validation(ValidationFault::ShortPubKey) => {
                "pub_key must be at least 32 characters".to_owned()
            },
            ApiError::Conflict => "duplicate emp_id".to_owned(),
            ApiError::Storage => "server error".to_owned(),
        }
    }
}

/// A submitted key equal to the stored one verifies as connected; any
/// differing submitted key verifies as mismatched; without a stored record
/// the outcome is not-found, whatever was submitted.
pub proof fn lemma_verify_decision(stored: Option<Seq<char>>, submitted: Seq<char>)
    ensures
        stored is None ==> status_decision(stored, submitted) == VerifyStatus::NotFound,
        stored matches Some(k) && k == submitted ==> status_decision(stored, submitted)
            == VerifyStatus::Connected,
        stored matches Some(k) && k != submitted ==> status_decision(stored, submitted)
            == VerifyStatus::MismatchedAccounts,
{
}

/// A request without a wallet key is treated exactly as one submitting the
/// empty string, and still yields a plain status: mismatched against any
/// non-empty stored key, connected only against an empty stored key.
pub proof fn lemma_missing_wallet_is_empty(stored: Option<Seq<char>>)
    ensures
        submitted_of(None) == Seq::<char>::empty(),
        status_decision(stored, submitted_of(None)) == status_decision(
            stored,
            Seq::<char>::empty(),
        ),
        stored matches Some(k) && k.len() > 0 ==> status_decision(stored, submitted_of(None))
            == VerifyStatus::MismatchedAccounts,
        stored matches Some(k) && k.len() == 0 ==> status_decision(stored, submitted_of(None))
            == VerifyStatus::Connected,
{
    assert(forall|k: Seq<char>| k.len() == 0 ==> k =~= Seq::<char>::empty());
}

} // verus!
