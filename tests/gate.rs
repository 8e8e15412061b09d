use campus_ledger::error::LedgerError;
use campus_ledger::gate::{bearer_token, parse_id};

#[test]
fn bearer_token_takes_what_follows_the_prefix() {
    assert_eq!(bearer_token("Bearer abc.def.ghi"), Ok("abc.def.ghi".to_string()));
    assert_eq!(bearer_token("Bearer "), Ok(String::new()));
}

#[test]
fn bearer_token_refuses_other_schemes() {
    assert_eq!(bearer_token("Basic abc"), Err(LedgerError::AuthRejected));
    assert_eq!(bearer_token("bearer abc"), Err(LedgerError::AuthRejected));
    assert_eq!(bearer_token("Bearer"), Err(LedgerError::AuthRejected));
    assert_eq!(bearer_token(""), Err(LedgerError::AuthRejected));
}

#[test]
fn parse_id_reads_decimal_digits() {
    assert_eq!(parse_id("0"), Ok(0));
    assert_eq!(parse_id("42"), Ok(42));
    assert_eq!(parse_id("007"), Ok(7));
}

#[test]
fn parse_id_refuses_malformed_text() {
    assert_eq!(parse_id(""), Err(LedgerError::Validation));
    assert_eq!(parse_id("4a"), Err(LedgerError::Validation));
    assert_eq!(parse_id("-1"), Err(LedgerError::Validation));
    assert_eq!(parse_id("65f0c3a2b1e4d5c6a7b8c9d0"), Err(LedgerError::Validation));
}

#[test]
fn parse_id_refuses_values_beyond_usize() {
    let max = usize::MAX.to_string();
    assert_eq!(parse_id(&max), Ok(usize::MAX));
    let beyond = format!("{}0", usize::MAX);
    assert_eq!(parse_id(&beyond), Err(LedgerError::Validation));
}
