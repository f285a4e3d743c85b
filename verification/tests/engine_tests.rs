use freelancer::contract::FreelanceContract;
use freelancer::storage::get_project;
use freelancer::token::Token;

const ADMIN1: u64 = 1;
const CLIENT: u64 = 2;
const FREELANCER: u64 = 3;
const ANOTHER_CLIENT: u64 = 4;
const ANOTHER_FREELANCER: u64 = 5;
const CONTRACT: u64 = 99;

fn create_token(admin: u64) -> Token {
    let mut token = Token::new();
    token
        .initialize(admin, 7, "name".to_string(), "symbol".to_string())
        .unwrap();
    token
}

#[test]
fn test_create_fund_complete_objectives() {
    let mut token = create_token(ADMIN1);
    let mut freelance = FreelanceContract::new(CONTRACT);

    token.mint(CLIENT, 1000).unwrap();
    assert_eq!(token.balance(CLIENT), 1000);

    let expiration_ledger: u32 = 1000;
    let full_price: i128 = 100;
    token
        .approve(CLIENT, CONTRACT, full_price, expiration_ledger)
        .unwrap();
    assert_eq!(token.allowance(CLIENT, CONTRACT), 100);

    let prices: Vec<u128> = vec![100, 100];
    let project_id = freelance.create_project(FREELANCER, &prices, CLIENT).unwrap();

    freelance
        .fund_objective(&mut token, project_id, 0, CLIENT)
        .unwrap();
    let project = get_project(&freelance, project_id).unwrap();
    assert_eq!(project.objectives[0].half_paid, 50);

    freelance
        .complete_objective(&mut token, project_id, 0, FREELANCER)
        .unwrap();
    let project = get_project(&freelance, project_id).unwrap();
    assert_eq!(project.objectives[0].completed, true);

    token
        .approve(CLIENT, CONTRACT, full_price, expiration_ledger)
        .unwrap();
    freelance
        .fund_objective(&mut token, project_id, 1, CLIENT)
        .unwrap();
    freelance
        .complete_objective(&mut token, project_id, 1, FREELANCER)
        .unwrap();

    let project = get_project(&freelance, project_id).unwrap();
    assert_eq!(project.objectives[1].completed, true);
}

#[test]
fn test_client_can_recover_funds_if_freelancer_does_not_complete_all_objectives() {
    let mut token = create_token(ADMIN1);
    let mut freelance = FreelanceContract::new(CONTRACT);

    token.mint(CLIENT, 1000).unwrap();
    assert_eq!(token.balance(CLIENT), 1000);

    let expiration_ledger: u32 = 1000;
    let full_price: i128 = 100;

    let prices: Vec<u128> = vec![100, 100, 100];
    let project_id = freelance.create_project(FREELANCER, &prices, CLIENT).unwrap();

    token
        .approve(CLIENT, CONTRACT, full_price, expiration_ledger)
        .unwrap();
    freelance
        .fund_objective(&mut token, project_id, 0, CLIENT)
        .unwrap();
    let project = get_project(&freelance, project_id).unwrap();
    assert_eq!(project.objectives[0].half_paid, 50);

    freelance
        .complete_objective(&mut token, project_id, 0, FREELANCER)
        .unwrap();

    token
        .approve(CLIENT, CONTRACT, full_price, expiration_ledger)
        .unwrap();
    freelance
        .fund_objective(&mut token, project_id, 1, CLIENT)
        .unwrap();
    freelance
        .complete_objective(&mut token, project_id, 1, FREELANCER)
        .unwrap();

    token
        .approve(CLIENT, CONTRACT, full_price, expiration_ledger)
        .unwrap();
    freelance
        .fund_objective(&mut token, project_id, 2, CLIENT)
        .unwrap();

    freelance.cancel_project(project_id, CLIENT).unwrap();

    assert_eq!(token.balance(CONTRACT), 50);

    freelance
        .refund_remaining_funds(&mut token, project_id, CLIENT)
        .unwrap();

    assert_eq!(token.balance(CONTRACT), 0);

    let client_balance = token.balance(CLIENT);
    let freelancer_balance = token.balance(FREELANCER);

    assert_eq!(client_balance, 800);
    assert_eq!(freelancer_balance, 200);
}

#[test]
fn test_add_new_objectives_and_complete_them() {
    let mut token = create_token(ADMIN1);
    let mut freelance = FreelanceContract::new(CONTRACT);

    token.mint(CLIENT, 1000).unwrap();
    assert_eq!(token.balance(CLIENT), 1000);

    let expiration_ledger: u32 = 1000;
    let full_price: i128 = 100;

    let prices: Vec<u128> = vec![100, 100];
    let project_id = freelance.create_project(FREELANCER, &prices, CLIENT).unwrap();

    token
        .approve(CLIENT, CONTRACT, full_price, expiration_ledger)
        .unwrap();
    freelance
        .fund_objective(&mut token, project_id, 0, CLIENT)
        .unwrap();
    let project = get_project(&freelance, project_id).unwrap();
    assert_eq!(project.objectives[0].half_paid, 50);

    freelance
        .complete_objective(&mut token, project_id, 0, FREELANCER)
        .unwrap();

    token
        .approve(CLIENT, CONTRACT, full_price, expiration_ledger)
        .unwrap();
    freelance
        .fund_objective(&mut token, project_id, 1, CLIENT)
        .unwrap();
    freelance
        .complete_objective(&mut token, project_id, 1, FREELANCER)
        .unwrap();

    let new_prices: Vec<u128> = vec![100];
    freelance.add_objective(project_id, &new_prices, CLIENT).unwrap();

    token
        .approve(CLIENT, CONTRACT, full_price, expiration_ledger)
        .unwrap();
    freelance
        .fund_objective(&mut token, project_id, 2, CLIENT)
        .unwrap();
    freelance
        .complete_objective(&mut token, project_id, 2, FREELANCER)
        .unwrap();

    let client_balance = token.balance(CLIENT);
    let freelancer_balance = token.balance(FREELANCER);

    assert_eq!(client_balance, 700);
    assert_eq!(freelancer_balance, 300);
}

#[test]
fn test_complete_project_after_all_objectives_completed() {
    let mut token = create_token(ADMIN1);
    let mut freelance = FreelanceContract::new(CONTRACT);

    token.mint(CLIENT, 1000).unwrap();
    assert_eq!(token.balance(CLIENT), 1000);

    let expiration_ledger: u32 = 1000;
    let full_price: i128 = 100;

    let prices: Vec<u128> = vec![100, 100];
    let project_id = freelance.create_project(FREELANCER, &prices, CLIENT).unwrap();

    token
        .approve(CLIENT, CONTRACT, full_price, expiration_ledger)
        .unwrap();
    freelance
        .fund_objective(&mut token, project_id, 0, CLIENT)
        .unwrap();
    let project = get_project(&freelance, project_id).unwrap();
    assert_eq!(project.objectives[0].half_paid, 50);

    freelance
        .complete_objective(&mut token, project_id, 0, FREELANCER)
        .unwrap();

    token
        .approve(CLIENT, CONTRACT, full_price, expiration_ledger)
        .unwrap();
    freelance
        .fund_objective(&mut token, project_id, 1, CLIENT)
        .unwrap();
    freelance
        .complete_objective(&mut token, project_id, 1, FREELANCER)
        .unwrap();

    freelance.complete_project(project_id, CLIENT).unwrap();

    let project = get_project(&freelance, project_id).unwrap();
    assert_eq!(project.completed, true);
}

#[test]
fn test_get_projects_by_freelancer() {
    let mut token = create_token(ADMIN1);
    let mut freelance = FreelanceContract::new(CONTRACT);

    token.mint(CLIENT, 1000).unwrap();
    assert_eq!(token.balance(CLIENT), 1000);

    let prices: Vec<u128> = vec![100, 100];
    freelance.create_project(FREELANCER, &prices, CLIENT).unwrap();
    freelance
        .create_project(FREELANCER, &prices, ANOTHER_CLIENT)
        .unwrap();

    let projects = freelance.get_projects_by_freelancer(FREELANCER);

    assert_eq!(projects.len(), 2);
}

#[test]
fn test_get_projects_by_client() {
    let mut token = create_token(ADMIN1);
    let mut freelance = FreelanceContract::new(CONTRACT);

    token.mint(CLIENT, 1000).unwrap();
    assert_eq!(token.balance(CLIENT), 1000);

    let prices: Vec<u128> = vec![100, 100];
    freelance.create_project(FREELANCER, &prices, CLIENT).unwrap();
    freelance
        .create_project(ANOTHER_FREELANCER, &prices, CLIENT)
        .unwrap();

    let projects = freelance.get_projects_by_client(CLIENT);

    assert_eq!(projects.len(), 2);
}
