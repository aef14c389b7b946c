use rust_decimal::Decimal;
use std::str::FromStr;
use ttx_eng::client::{Client, ClientReport};
use ttx_eng::errors::Error::{AccountLocked, InsufficientFunds, NegativeAmount, Overflow};
use ttx_eng::money::Money;

fn dec(s: &str) -> Money {
    let d = Decimal::from_str(s).expect("bad decimal literal");
    Money::new(d.mantissa(), d.scale()).expect("decimal out of range")
}

fn val(m: Money) -> Decimal {
    Decimal::from_i128_with_scale(m.mantissa, m.scale)
}

fn num(s: &str) -> Decimal {
    Decimal::from_str(s).expect("bad decimal literal")
}

//client new
#[test]
fn client_new() {
    let client = Client::new(1);

    assert_eq!(client.id, 1);
    assert_eq!(val(client.available), num("0"));
    assert_eq!(val(client.held), num("0"));
    assert!(!client.locked)
}

// deposit
#[test]
fn deposit_success() {
    let v = dec("1");
    let mut client = Client::new(1);
    client.deposit(&v).expect("failed to deposit");

    assert_eq!(client.id, 1);
    assert_eq!(val(client.available), val(v));
    assert_eq!(val(client.held), num("0"));
    assert!(!client.locked)
}

#[test]
fn deposit_success_round() {
    let v = dec("3.12345");
    let mut client = Client::new(1);
    client.deposit(&v).expect("failed to deposit");

    assert_eq!(client.id, 1);
    assert_eq!(val(client.available).to_string(), "3.1234");
    assert_eq!(val(client.held), num("0"));
    assert!(!client.locked)
}

#[test]
fn deposit_fail_locked() {
    let mut client = Client::new(1);
    client.locked = true;
    let result = client.deposit(&dec("1"));

    assert!(result.is_err());
    assert_eq!(result.unwrap_err(), AccountLocked);
    assert_eq!(client.id, 1);
    assert_eq!(val(client.available), num("0"));
    assert_eq!(val(client.held), num("0"));
    assert!(client.locked)
}

#[test]
fn deposit_fail_negative_amount() {
    let mut client = Client::new(1);
    let result = client.deposit(&dec("-1"));

    assert!(result.is_err());
    assert_eq!(result.unwrap_err(), NegativeAmount);
    assert_eq!(client.id, 1);
    assert_eq!(val(client.available), num("0"));
    assert_eq!(val(client.held), num("0"));
    assert!(!client.locked)
}

#[test]
fn deposit_fail_overflow() {
    let mut client = Client::new(1);
    client.deposit(&Money::max()).expect("failed to deposit max");
    let result = client.deposit(&Money::max());

    assert!(result.is_err());
    assert_eq!(result.unwrap_err(), Overflow);
    assert_eq!(client.id, 1);
    assert_eq!(val(client.available), Decimal::MAX);
    assert_eq!(val(client.held), num("0"));
    assert!(!client.locked)
}

//withdraw
#[test]
fn withdraw_success() {
    let v = dec("1");
    let mut client = Client::new(1);
    client.deposit(&v).expect("failed to deposit");
    client.withdraw(&v).expect("failed to withdraw");

    assert_eq!(client.id, 1);
    assert_eq!(val(client.available), num("0"));
    assert_eq!(val(client.held), num("0"));
    assert!(!client.locked)
}

#[test]
fn withdraw_success_round() {
    let v = dec("3.12345");
    let mut client = Client::new(1);
    client.deposit(&dec("4")).expect("failed to deposit");
    client.withdraw(&v).expect("failed to withdraw");

    assert_eq!(client.id, 1);
    assert_eq!(val(client.available).to_string(), "0.8766");
    assert_eq!(val(client.held), num("0"));
    assert!(!client.locked)
}

#[test]
fn withdraw_fail_insufficient_funds() {
    let v = dec("1");
    let mut client = Client::new(1);
    let result = client.withdraw(&v);

    assert!(result.is_err());
    assert_eq!(result.unwrap_err(), InsufficientFunds);
    assert_eq!(client.id, 1);
    assert_eq!(val(client.available), num("0"));
    assert_eq!(val(client.held), num("0"));
    assert!(!client.locked)
}

#[test]
fn withdraw_fail_locked() {
    let mut client = Client::new(1);
    client.locked = true;
    let result = client.withdraw(&dec("1"));

    assert!(result.is_err());
    assert_eq!(result.unwrap_err(), AccountLocked);
    assert_eq!(client.id, 1);
    assert_eq!(val(client.available), num("0"));
    assert_eq!(val(client.held), num("0"));
    assert!(client.locked)
}

#[test]
fn withdraw_fail_negative_amount() {
    let mut client = Client::new(1);
    client.deposit(&dec("1")).expect("failed to deposit max");
    let result = client.withdraw(&Money::min());

    assert!(result.is_err());
    assert_eq!(result.unwrap_err(), NegativeAmount);
    assert_eq!(client.id, 1);
    assert_eq!(val(client.available), num("1"));
    assert_eq!(val(client.held), num("0"));
    assert!(!client.locked)
}

//dispute
#[test]
fn dispute_success() {
    let v = dec("1");
    let mut client = Client::new(1);
    client.deposit(&v).expect("failed to deposit");
    client.dispute(&v).expect("failed to dispute");

    assert_eq!(client.id, 1);
    assert_eq!(val(client.available), num("0"));
    assert_eq!(val(client.held), val(v));
    assert!(!client.locked)
}

#[test]
fn dispute_success_round() {
    let v = dec("3.12345");
    let mut client = Client::new(1);
    client.deposit(&dec("4")).expect("failed to deposit");
    client.dispute(&v).expect("failed to dispute");

    assert_eq!(client.id, 1);
    assert_eq!(val(client.available).to_string(), "0.8766");
    assert_eq!(val(client.held).to_string(), "3.1234");
    assert!(!client.locked);
}

#[test]
fn dispute_fail_locked() {
    let mut client = Client::new(1);
    client.locked = true;
    let result = client.dispute(&dec("1"));

    assert!(result.is_err());
    assert_eq!(result.unwrap_err(), AccountLocked);
    assert_eq!(client.id, 1);
    assert_eq!(val(client.available), num("0"));
    assert_eq!(val(client.held), num("0"));
    assert!(client.locked)
}

#[test]
fn dispute_fail_negative_amount() {
    let mut client = Client::new(1);
    let result = client.dispute(&dec("-1"));

    assert!(result.is_err());
    assert_eq!(result.unwrap_err(), NegativeAmount);
    assert_eq!(client.id, 1);
    assert_eq!(val(client.available), num("0"));
    assert_eq!(val(client.held), num("0"));
    assert!(!client.locked)
}

#[test]
fn dispute_fail_overflow() {
    let mut client = Client::new(1);
    client.deposit(&dec("1")).expect("failed to deposit");

    client.dispute(&Money::max()).expect("failed dispute");

    assert_eq!(client.id, 1);
    assert_eq!(val(client.available), num("-79228162514264337593543950334"));
    assert_eq!(val(client.held), Decimal::MAX);
    assert!(!client.locked);

    //available overflow
    let result = client.dispute(&Money::max());

    assert!(result.is_err());
    assert_eq!(result.unwrap_err(), Overflow);
    assert_eq!(client.id, 1);
    assert_eq!(val(client.available), num("-79228162514264337593543950334"));
    assert_eq!(val(client.held), Decimal::MAX);
    assert!(!client.locked);

    //held overflow
    client.deposit(&Money::max()).expect("failed to deposit");
    let result = client.dispute(&Money::max());

    assert!(result.is_err());
    assert_eq!(result.unwrap_err(), Overflow);
    assert_eq!(client.id, 1);
    assert_eq!(val(client.available), num("-79228162514264337593543950334"));
    assert_eq!(val(client.held), Decimal::MAX);
    assert!(!client.locked)
}

//resolve
#[test]
fn resolve_success() {
    let v = dec("1");
    let mut client = Client::new(1);
    client.deposit(&v).expect("failed to deposit");
    client.dispute(&v).expect("failed to dispute");
    client.resolve(&v).expect("failed to dispute");

    assert_eq!(client.id, 1);
    assert_eq!(val(client.available), val(v));
    assert_eq!(val(client.held), num("0"));
    assert!(!client.locked)
}

#[test]
fn resolve_success_round() {
    let v = dec("3.12345");
    let mut client = Client::new(1);
    client.deposit(&dec("4")).expect("failed to deposit");
    client.dispute(&v).expect("failed to dispute");
    client.resolve(&dec("1.23456")).expect("failed to dispute");

    assert_eq!(client.id, 1);
    assert_eq!(val(client.available).to_string(), "2.1112");
    assert_eq!(val(client.held).to_string(), "1.8888");
    assert!(!client.locked);
}

#[test]
fn resolve_fail_locked() {
    let mut client = Client::new(1);
    client.locked = true;
    let result = client.resolve(&dec("1"));

    assert!(result.is_err());
    assert_eq!(result.unwrap_err(), AccountLocked);
    assert_eq!(client.id, 1);
    assert_eq!(val(client.available), num("0"));
    assert_eq!(val(client.held), num("0"));
    assert!(client.locked)
}

#[test]
fn resolve_fail_negative_amount() {
    let mut client = Client::new(1);
    let result = client.resolve(&dec("-1"));

    assert!(result.is_err());
    assert_eq!(result.unwrap_err(), NegativeAmount);
    assert_eq!(client.id, 1);
    assert_eq!(val(client.available), num("0"));
    assert_eq!(val(client.held), num("0"));
    assert!(!client.locked)
}

#[test]
fn resolve_fail_overflow() {
    let mut client = Client::new(1);
    client.deposit(&dec("100")).expect("failed to deposit");

    //available overflow
    let result = client.resolve(&Money::max());

    assert!(result.is_err());
    assert_eq!(result.unwrap_err(), Overflow);
    assert_eq!(client.id, 1);
    assert_eq!(val(client.available), num("100"));
    assert_eq!(val(client.held), num("0"));
    assert!(!client.locked);

    //held overflow
    client.resolve(&dec("200")).expect("failed to resolve");
    client.withdraw(&dec("300")).expect("failed to withdraw");
    let result = client.resolve(&Money::max());

    assert!(result.is_err());
    assert_eq!(result.unwrap_err(), Overflow);
    assert_eq!(client.id, 1);
    assert_eq!(val(client.available), Decimal::MAX);
    assert_eq!(val(client.held), num("-200"));
    assert!(!client.locked)
}

//chargeback
#[test]
fn chargeback_success() {
    let v = dec("1");
    let mut client = Client::new(1);
    client.chargeback(&v).expect("failed to chargeback");

    assert_eq!(client.id, 1);
    assert_eq!(val(client.available), num("0"));
    assert_eq!(val(client.held), num("-1"));
    assert!(client.locked)
}

#[test]
fn chargeback_success_round() {
    let v = dec("3.12345");
    let mut client = Client::new(1);
    client.chargeback(&v).expect("failed to deposit");

    assert_eq!(client.id, 1);
    assert_eq!(val(client.available).to_string(), "0");
    assert_eq!(val(client.held).to_string(), "-3.1234");
    assert!(client.locked)
}

#[test]
fn chargeback_fail_locked() {
    let mut client = Client::new(1);
    client.locked = true;
    let result = client.chargeback(&dec("1"));

    assert!(result.is_err());
    assert_eq!(result.unwrap_err(), AccountLocked);
    assert_eq!(client.id, 1);
    assert_eq!(val(client.available), num("0"));
    assert_eq!(val(client.held), num("0"));
    assert!(client.locked)
}

#[test]
fn chargeback_fail_negative_amount() {
    let mut client = Client::new(1);
    let result = client.chargeback(&dec("-1"));

    assert!(result.is_err());
    assert_eq!(result.unwrap_err(), NegativeAmount);
    assert_eq!(client.id, 1);
    assert_eq!(val(client.available), num("0"));
    assert_eq!(val(client.held), num("0"));
    assert!(!client.locked)
}

#[test]
fn chargeback_fail_overflow() {
    let mut client = Client::new(1);
    client.resolve(&dec("1")).expect("failed to deposit max");
    let result = client.chargeback(&Money::max());

    assert!(result.is_err());
    assert_eq!(result.unwrap_err(), Overflow);
    assert_eq!(client.id, 1);
    assert_eq!(val(client.available), num("1"));
    assert_eq!(val(client.held), num("-1"));
    assert!(client.locked)
}

//client report new
#[test]
fn client_report_new() {
    let mut client = Client::new(1);
    client.deposit(&dec("1")).expect("failed to deposit");
    let client_report = ClientReport::new(&client).expect("total out of range");

    assert_eq!(client_report.id, 1);
    assert_eq!(val(client_report.available), num("1"));
    assert_eq!(val(client_report.held), num("0"));
    assert_eq!(val(client_report.total), num("1"));
    assert!(!client_report.locked)
}
