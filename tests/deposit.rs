use bos_cli::call::{prepare_write, reconcile_call, SET_GAS};
use bos_cli::deposit::{quote_deposit, reconcile_deposit};
use bos_cli::error::DocError;
use bos_cli::json::text_file_value;

#[test]
fn no_growth_needs_no_deposit() {
    let q = quote_deposit(&Some("\"Alice\"".to_string()), &"\"Bob\"".to_string(), 1000, u128::MAX)
        .unwrap();
    assert_eq!(q.delta_bytes, 0);
    assert_eq!(q.amount, 0);
    let q = quote_deposit(&Some("\"Alice\"".to_string()), &"\"Alice\"".to_string(), 5, 0).unwrap();
    assert_eq!(q.amount, 0);
}

#[test]
fn deposit_grows_with_delta() {
    let small = quote_deposit(&None, &"12".to_string(), 10, u128::MAX).unwrap();
    let large = quote_deposit(&None, &"12345".to_string(), 10, u128::MAX).unwrap();
    assert_eq!(small.amount, 20);
    assert_eq!(large.amount, 50);
    assert!(small.amount <= large.amount);
}

#[test]
fn deposit_counts_utf8_bytes() {
    let q = quote_deposit(&Some("\"a\"".to_string()), &"\"é€\"".to_string(), 1, u128::MAX).unwrap();
    assert_eq!(q.delta_bytes, 4);
}

#[test]
fn deposit_over_ceiling_is_refused() {
    assert!(matches!(
        quote_deposit(&None, &"12345".to_string(), 10, 49),
        Err(DocError::DepositShortfall)
    ));
    assert!(matches!(
        quote_deposit(&None, &"12".to_string(), u128::MAX, u128::MAX),
        Err(DocError::DepositShortfall)
    ));
}

#[test]
fn reconcile_attaches_only_the_shortfall() {
    assert_eq!(reconcile_deposit(100, 30), 70);
    assert_eq!(reconcile_deposit(100, 100), 0);
    assert_eq!(reconcile_deposit(100, 500), 0);
    assert_eq!(reconcile_deposit(0, 0), 0);
}

#[test]
fn end_to_end_write_of_alice() {
    let value = text_file_value("Alice");
    assert_eq!(value, "\"Alice\"");
    let path: Vec<String> = vec!["alice.near".to_string(), "profile".to_string(), "name".to_string()];
    let call = prepare_write(&path, value.clone(), &None, 1, u128::MAX, "social.near".to_string())
        .unwrap();
    assert_eq!(call.deposit, value.len() as u128);
    assert_eq!(call.deposit, 7);
    assert_eq!(call.receiver, "social.near");
    assert_eq!(call.method, "set");
    assert_eq!(call.gas, SET_GAS);
    assert_eq!(call.gas, 300_000_000_000_000);
    assert_eq!(call.args, "{\"data\":{\"alice.near\":{\"profile\":{\"name\":\"Alice\"}}}}");
    let signed = reconcile_call(call, 7);
    assert_eq!(signed.deposit, 0);
}

#[test]
fn write_with_small_reserve_pays_difference() {
    let path: Vec<String> = vec!["alice.near".to_string(), "profile".to_string(), "name".to_string()];
    let call = prepare_write(&path, "\"Alice\"".to_string(), &None, 1, u128::MAX, "c".to_string())
        .unwrap();
    assert_eq!(reconcile_call(call, 3).deposit, 4);
}

#[test]
fn write_errors() {
    let empty: Vec<String> = Vec::new();
    assert!(matches!(
        prepare_write(&empty, "1".to_string(), &None, 1, u128::MAX, "c".to_string()),
        Err(DocError::InvalidKeyPath)
    ));
    let path: Vec<String> = vec!["k".to_string()];
    assert!(matches!(
        prepare_write(&path, "12345".to_string(), &None, 1, 4, "c".to_string()),
        Err(DocError::DepositShortfall)
    ));
}

#[test]
fn text_file_is_one_json_string() {
    assert_eq!(text_file_value("a\"b\nc"), "\"a\\\"b\\nc\"");
    assert_eq!(text_file_value(""), "\"\"");
}
