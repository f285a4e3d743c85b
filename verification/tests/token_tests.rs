use freelancer::balance::{read_balance, receive_balance, spend_balance, write_balance};
use freelancer::errors::Error;
use freelancer::token::{check_nonnegative_amount, Token};

const ADMIN: u64 = 1;
const A: u64 = 10;
const B: u64 = 11;
const C: u64 = 12;

fn fresh() -> Token {
    let mut token = Token::new();
    token
        .initialize(ADMIN, 7, "name".to_string(), "symbol".to_string())
        .unwrap();
    token
}

#[test]
fn initialize_happens_once_and_checks_decimals() {
    let mut token = Token::new();
    assert_eq!(
        token.initialize(ADMIN, 19, "name".to_string(), "symbol".to_string()),
        Err(Error::InvalidInput)
    );
    token
        .initialize(ADMIN, 7, "name".to_string(), "symbol".to_string())
        .unwrap();
    assert_eq!(
        token.initialize(ADMIN, 7, "name".to_string(), "symbol".to_string()),
        Err(Error::InvalidState)
    );
    assert_eq!(token.decimals(), 7);
    assert_eq!(token.name(), "name");
    assert_eq!(token.symbol(), "symbol");
}

#[test]
fn mint_needs_an_admin_and_a_nonnegative_amount() {
    let mut token = Token::new();
    assert_eq!(token.mint(A, 5), Err(Error::InvalidState));
    token
        .initialize(ADMIN, 7, "name".to_string(), "symbol".to_string())
        .unwrap();
    assert_eq!(token.mint(A, -1), Err(Error::InvalidInput));
    token.mint(A, 5).unwrap();
    assert_eq!(token.balance(A), 5);
    assert_eq!(token.balance(B), 0);
}

#[test]
fn transfer_moves_exactly_the_amount() {
    let mut token = fresh();
    token.mint(A, 100).unwrap();
    token.transfer(A, B, 30).unwrap();
    assert_eq!(token.balance(A), 70);
    assert_eq!(token.balance(B), 30);
    assert_eq!(token.transfer(A, B, 71), Err(Error::InsufficientFunds));
    assert_eq!(token.transfer(A, B, -1), Err(Error::InvalidInput));
    assert_eq!(token.balance(A), 70);
    assert_eq!(token.balance(B), 30);
    token.transfer(A, A, 10).unwrap();
    assert_eq!(token.balance(A), 70);
}

#[test]
fn transfer_from_consumes_the_allowance() {
    let mut token = fresh();
    token.mint(A, 100).unwrap();
    assert_eq!(
        token.transfer_from(B, A, C, 10),
        Err(Error::InsufficientAllowance)
    );
    token.approve(A, B, 40, 1000).unwrap();
    assert_eq!(token.allowance(A, B), 40);
    token.transfer_from(B, A, C, 30).unwrap();
    assert_eq!(token.balance(A), 70);
    assert_eq!(token.balance(C), 30);
    assert_eq!(token.allowance(A, B), 10);
    assert_eq!(
        token.transfer_from(B, A, C, 20),
        Err(Error::InsufficientAllowance)
    );
    assert_eq!(token.approve(A, B, -1, 1000), Err(Error::InvalidInput));
}

#[test]
fn burn_and_burn_from_shrink_balances() {
    let mut token = fresh();
    token.mint(A, 100).unwrap();
    token.burn(A, 40).unwrap();
    assert_eq!(token.balance(A), 60);
    assert_eq!(token.burn(A, 61), Err(Error::InsufficientFunds));
    token.approve(A, B, 25, 1000).unwrap();
    token.burn_from(B, A, 25).unwrap();
    assert_eq!(token.balance(A), 35);
    assert_eq!(token.allowance(A, B), 0);
    assert_eq!(token.burn_from(B, A, 1), Err(Error::InsufficientAllowance));
}

#[test]
fn balance_helpers_read_and_write_single_accounts() {
    let mut token = fresh();
    assert_eq!(read_balance(&token, A), 0);
    write_balance(&mut token, A, 42);
    assert_eq!(read_balance(&token, A), 42);
    receive_balance(&mut token, A, 8);
    assert_eq!(read_balance(&token, A), 50);
    spend_balance(&mut token, A, 20).unwrap();
    assert_eq!(read_balance(&token, A), 30);
    assert_eq!(
        spend_balance(&mut token, A, 31),
        Err(Error::InsufficientFunds)
    );
    assert_eq!(read_balance(&token, A), 30);
}

#[test]
fn negative_amounts_are_refused_up_front() {
    assert_eq!(check_nonnegative_amount(0), Ok(()));
    assert_eq!(check_nonnegative_amount(7), Ok(()));
    assert_eq!(check_nonnegative_amount(-7), Err(Error::InvalidInput));
}
