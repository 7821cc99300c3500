use employee_wallet::api::{
    response_code, validate_new_employee, wallet_status, ApiError, ValidationFault, VerifyStatus,
};
use employee_wallet::store::EmployeeStore;
use employee_wallet::validation::{check_emp_id, check_pub_key, emp_id_value};

const KEY: &str = "Ht9kU1xGg3mZw8Qr5Tb2Nc7Vd4Xe6Yf9";

#[test]
fn emp_id_must_be_eight_digits() {
    assert!(check_emp_id("12345678"));
    assert!(check_emp_id("00000000"));
    assert!(check_emp_id("99999999"));
    assert!(!check_emp_id("1234567"));
    assert!(!check_emp_id("123456789"));
    assert!(!check_emp_id("1234567a"));
    assert!(!check_emp_id("1234 678"));
    assert!(!check_emp_id(""));
    assert!(!check_emp_id("abcdefgh"));
}

#[test]
fn pub_key_must_be_32_chars() {
    assert!(!check_pub_key(""));
    assert!(!check_pub_key(&"x".repeat(31)));
    assert!(check_pub_key(&"x".repeat(32)));
    assert!(check_pub_key(KEY));
}

#[test]
fn emp_id_numeric_value() {
    assert_eq!(emp_id_value("00000042"), 42);
    assert_eq!(emp_id_value("00000000"), 0);
    assert_eq!(emp_id_value("99999999"), 99_999_999);
    assert_eq!(emp_id_value("12345678"), 12_345_678);
}

#[test]
fn validate_checks_emp_id_first() {
    assert_eq!(validate_new_employee("12345678", KEY), Ok(()));
    assert_eq!(
        validate_new_employee("123", KEY),
        Err(ApiError::Validation(ValidationFault::BadEmpId))
    );
    assert_eq!(
        validate_new_employee("12345678", "short"),
        Err(ApiError::Validation(ValidationFault::ShortPubKey))
    );
    assert_eq!(
        validate_new_employee("123", "short"),
        Err(ApiError::Validation(ValidationFault::BadEmpId))
    );
}

#[test]
fn invalid_emp_id_is_rejected_without_insert() {
    let mut st = EmployeeStore::new();
    let r = st.insert_employee("1234567a", KEY);
    assert_eq!(r, Err(ApiError::Validation(ValidationFault::BadEmpId)));
    assert_eq!(response_code(&r), 400);
    assert!(st.list_employees().is_empty());
}

#[test]
fn short_pub_key_is_rejected_without_insert() {
    let mut st = EmployeeStore::new();
    let r = st.insert_employee("12345678", &"k".repeat(31));
    assert_eq!(r, Err(ApiError::Validation(ValidationFault::ShortPubKey)));
    assert_eq!(response_code(&r), 400);
    assert!(st.list_employees().is_empty());
}

#[test]
fn duplicate_emp_id_conflicts_and_keeps_first_row() {
    let mut st = EmployeeStore::new();
    let first = "A".repeat(32);
    let second = "B".repeat(32);
    assert_eq!(st.insert_employee("12345678", &first), Ok(()));
    let r = st.insert_employee("12345678", &second);
    assert_eq!(r, Err(ApiError::Conflict));
    assert_eq!(response_code(&r), 409);
    let rows = st.list_employees();
    assert_eq!(rows.len(), 1);
    assert_eq!(rows[0].emp_id, "12345678");
    assert_eq!(rows[0].pub_key, first);
}

#[test]
fn listing_is_ordered_by_emp_id_ascending() {
    let mut st = EmployeeStore::new();
    assert_eq!(st.insert_employee("00000002", KEY), Ok(()));
    assert_eq!(st.insert_employee("00000001", KEY), Ok(()));
    let rows = st.list_employees();
    assert_eq!(rows.len(), 2);
    assert_eq!(rows[0].emp_id, "00000001");
    assert_eq!(rows[1].emp_id, "00000002");
}

#[test]
fn listing_empty_store_gives_empty_list() {
    let st = EmployeeStore::new();
    assert!(st.list_employees().is_empty());
}

#[test]
fn lookup_finds_stored_key() {
    let mut st = EmployeeStore::new();
    assert_eq!(st.insert_employee("12345678", KEY), Ok(()));
    assert_eq!(st.lookup("12345678").map(|k| k.as_str()), Some(KEY));
    assert_eq!(st.lookup("87654321"), None);
    assert_eq!(st.lookup("not-an-id"), None);
}

#[test]
fn verify_statuses() {
    let mut st = EmployeeStore::new();
    assert_eq!(st.insert_employee("12345678", KEY), Ok(()));
    assert_eq!(st.verify_employee("12345678", Some(KEY)), VerifyStatus::Connected);
    assert_eq!(
        st.verify_employee("12345678", Some("anything else")),
        VerifyStatus::MismatchedAccounts
    );
    assert_eq!(st.verify_employee("99999999", Some(KEY)), VerifyStatus::NotFound);
}

#[test]
fn verify_missing_wallet_key_is_empty_comparison() {
    let mut st = EmployeeStore::new();
    assert_eq!(st.insert_employee("12345678", KEY), Ok(()));
    assert_eq!(st.verify_employee("12345678", None), VerifyStatus::MismatchedAccounts);
    // The decision itself connects when the stored key is the empty string.
    let empty = String::new();
    assert_eq!(wallet_status(Some(&empty), None), VerifyStatus::Connected);
    assert_eq!(wallet_status(None, None), VerifyStatus::NotFound);
}

#[test]
fn status_texts_are_exact() {
    assert_eq!(VerifyStatus::Connected.status_text(), "connected");
    assert_eq!(VerifyStatus::MismatchedAccounts.status_text(), "mismatched accounts");
    assert_eq!(VerifyStatus::NotFound.status_text(), "not found");
}

#[test]
fn response_codes_and_messages() {
    assert_eq!(response_code(&Ok(())), 201);
    assert_eq!(
        response_code(&Err(ApiError::Validation(ValidationFault::BadEmpId))),
        400
    );
    assert_eq!(response_code(&Err(ApiError::Conflict)), 409);
    assert_eq!(response_code(&Err(ApiError::Storage)), 500);
    assert_eq!(
        ApiError::Validation(ValidationFault::BadEmpId).message(),
        "emp_id must be exactly 8 ASCII digits"
    );
    assert_eq!(
        ApiError::Validation(ValidationFault::ShortPubKey).message(),
        "pub_key must be at least 32 characters"
    );
    assert_eq!(ApiError::Conflict.message(), "duplicate emp_id");
    assert_eq!(ApiError::Storage.message(), "server error");
}

#[test]
fn end_to_end_scenario() {
    let mut st = EmployeeStore::new();
    let r = st.insert_employee("12345678", KEY);
    assert_eq!(r, Ok(()));
    assert_eq!(response_code(&r), 201);

    let rows = st.list_employees();
    assert_eq!(rows.len(), 1);
    assert_eq!(rows[0].emp_id, "12345678");
    assert_eq!(rows[0].pub_key, KEY);

    assert_eq!(
        st.verify_employee("12345678", Some(KEY)).status_text(),
        "connected"
    );
    assert_eq!(
        st.verify_employee("12345678", Some("wrong")).status_text(),
        "mismatched accounts"
    );
    assert_eq!(
        st.verify_employee("99999999", Some(KEY)).status_text(),
        "not found"
    );
}

#[test]
fn full_table_of_distinct_ids_stays_sorted() {
    let mut st = EmployeeStore::new();
    let ids = ["50000000", "00000001", "99999999", "50000001", "04999999"];
    for id in ids {
        assert_eq!(st.insert_employee(id, KEY), Ok(()));
    }
    let rows = st.list_employees();
    let listed: Vec<&str> = rows.iter().map(|r| r.emp_id.as_str()).collect();
    assert_eq!(
        listed,
        vec!["00000001", "04999999", "50000000", "50000001", "99999999"]
    );
}
