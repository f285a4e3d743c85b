use freelancer::contract::FreelanceContract;
use freelancer::errors::Error;
use freelancer::storage::{get_all_projects, get_project};
use freelancer::token::Token;

const ADMIN: u64 = 1;
const CLIENT: u64 = 2;
const FREELANCER: u64 = 3;
const STRANGER: u64 = 6;
const CONTRACT: u64 = 99;

fn funded_token() -> Token {
    let mut token = Token::new();
    token
        .initialize(ADMIN, 7, "name".to_string(), "symbol".to_string())
        .unwrap();
    token.mint(CLIENT, 1000).unwrap();
    token
}

#[test]
fn create_project_builds_unfunded_objectives() {
    let mut freelance = FreelanceContract::new(CONTRACT);
    let prices: Vec<u128> = vec![3, 7, 10];
    let project_id = freelance.create_project(FREELANCER, &prices, CLIENT).unwrap();
    assert_eq!(project_id, 1);

    let project = get_project(&freelance, project_id).unwrap();
    assert_eq!(project.objectives_count, 3);
    assert_eq!(project.objectives.len(), 3);
    for (i, price) in prices.iter().enumerate() {
        assert_eq!(project.objectives[i].price, *price);
        assert_eq!(project.objectives[i].half_paid, 0);
        assert_eq!(project.objectives[i].completed, false);
    }
    assert_eq!(project.client, CLIENT);
    assert_eq!(project.freelancer, FREELANCER);
    assert_eq!(project.completed_objectives, 0);
    assert_eq!(project.earned_amount, 0);
    assert!(!project.cancelled);
    assert!(!project.completed);

    let second = freelance.create_project(FREELANCER, &prices, CLIENT).unwrap();
    assert_eq!(second, 2);
}

#[test]
fn create_project_rejects_bad_input() {
    let mut freelance = FreelanceContract::new(CONTRACT);
    let empty: Vec<u128> = vec![];
    assert_eq!(
        freelance.create_project(FREELANCER, &empty, CLIENT),
        Err(Error::InvalidInput)
    );
    let with_zero: Vec<u128> = vec![100, 0, 100];
    assert_eq!(
        freelance.create_project(FREELANCER, &with_zero, CLIENT),
        Err(Error::InvalidInput)
    );
    let prices: Vec<u128> = vec![100];
    assert_eq!(
        freelance.create_project(CLIENT, &prices, CLIENT),
        Err(Error::InvalidInput)
    );
    assert_eq!(get_all_projects(&freelance).len(), 0);
}

#[test]
fn fund_objective_is_not_reenterable() {
    let mut token = funded_token();
    let mut freelance = FreelanceContract::new(CONTRACT);
    let prices: Vec<u128> = vec![100, 100];
    let project_id = freelance.create_project(FREELANCER, &prices, CLIENT).unwrap();

    token.approve(CLIENT, CONTRACT, 100, 1000).unwrap();
    freelance
        .fund_objective(&mut token, project_id, 0, CLIENT)
        .unwrap();
    assert_eq!(token.balance(CLIENT), 950);
    assert_eq!(token.balance(CONTRACT), 50);

    // the second call fails even though a fresh allowance is in place
    token.approve(CLIENT, CONTRACT, 100, 1000).unwrap();
    assert_eq!(
        freelance.fund_objective(&mut token, project_id, 0, CLIENT),
        Err(Error::AlreadyFunded)
    );
    let project = get_project(&freelance, project_id).unwrap();
    assert_eq!(project.objectives[0].half_paid, 50);
    assert_eq!(token.balance(CLIENT), 950);
    assert_eq!(token.balance(CONTRACT), 50);
}

#[test]
fn complete_objective_conserves_value_even_for_odd_prices() {
    let mut token = funded_token();
    let mut freelance = FreelanceContract::new(CONTRACT);
    let prices: Vec<u128> = vec![101];
    let project_id = freelance.create_project(FREELANCER, &prices, CLIENT).unwrap();

    token.approve(CLIENT, CONTRACT, 101, 1000).unwrap();
    freelance
        .fund_objective(&mut token, project_id, 0, CLIENT)
        .unwrap();
    // the deposit is half the price rounded down
    let project = get_project(&freelance, project_id).unwrap();
    assert_eq!(project.objectives[0].half_paid, 50);
    assert_eq!(token.balance(CLIENT), 950);
    assert_eq!(token.balance(CONTRACT), 50);

    freelance
        .complete_objective(&mut token, project_id, 0, FREELANCER)
        .unwrap();
    // the freelancer gains exactly the price, the client loses exactly the
    // price across both tranches, and the escrow account nets to zero
    assert_eq!(token.balance(FREELANCER), 101);
    assert_eq!(token.balance(CLIENT), 899);
    assert_eq!(token.balance(CONTRACT), 0);
    let project = get_project(&freelance, project_id).unwrap();
    assert_eq!(project.earned_amount, 101);
    assert_eq!(project.completed_objectives, 1);
}

#[test]
fn refund_remaining_funds_is_idempotent() {
    let mut token = funded_token();
    let mut freelance = FreelanceContract::new(CONTRACT);
    let prices: Vec<u128> = vec![100, 100];
    let project_id = freelance.create_project(FREELANCER, &prices, CLIENT).unwrap();

    token.approve(CLIENT, CONTRACT, 100, 1000).unwrap();
    freelance
        .fund_objective(&mut token, project_id, 0, CLIENT)
        .unwrap();
    freelance.cancel_project(project_id, CLIENT).unwrap();

    freelance
        .refund_remaining_funds(&mut token, project_id, CLIENT)
        .unwrap();
    assert_eq!(token.balance(CLIENT), 1000);
    assert_eq!(token.balance(CONTRACT), 0);
    let project = get_project(&freelance, project_id).unwrap();
    assert_eq!(project.objectives[0].half_paid, 0);

    // the second refund succeeds and moves nothing
    freelance
        .refund_remaining_funds(&mut token, project_id, CLIENT)
        .unwrap();
    assert_eq!(token.balance(CLIENT), 1000);
    assert_eq!(token.balance(CONTRACT), 0);
}

#[test]
fn refund_is_bounded_by_what_custody_holds() {
    let mut token = funded_token();
    let mut freelance = FreelanceContract::new(CONTRACT);
    let prices: Vec<u128> = vec![100];
    let project_id = freelance.create_project(FREELANCER, &prices, CLIENT).unwrap();

    token.approve(CLIENT, CONTRACT, 100, 1000).unwrap();
    freelance
        .fund_objective(&mut token, project_id, 0, CLIENT)
        .unwrap();
    // part of the deposit leaves custody behind the engine's back
    token.transfer(CONTRACT, ADMIN, 20).unwrap();
    freelance.cancel_project(project_id, CLIENT).unwrap();

    freelance
        .refund_remaining_funds(&mut token, project_id, CLIENT)
        .unwrap();
    // fifty were refundable, but only thirty were held: the client gets
    // thirty back and custody is emptied, never overdrawn
    assert_eq!(token.balance(CLIENT), 980);
    assert_eq!(token.balance(CONTRACT), 0);
    let project = freelancer::storage::get_project(&freelance, project_id).unwrap();
    assert_eq!(project.objectives[0].half_paid, 0);
}

#[test]
fn complete_project_needs_every_objective_done() {
    let mut token = funded_token();
    let mut freelance = FreelanceContract::new(CONTRACT);
    let prices: Vec<u128> = vec![100, 100];
    let project_id = freelance.create_project(FREELANCER, &prices, CLIENT).unwrap();

    assert_eq!(
        freelance.complete_project(project_id, CLIENT),
        Err(Error::IncompleteObjectives)
    );

    token.approve(CLIENT, CONTRACT, 100, 1000).unwrap();
    freelance
        .fund_objective(&mut token, project_id, 0, CLIENT)
        .unwrap();
    freelance
        .complete_objective(&mut token, project_id, 0, FREELANCER)
        .unwrap();
    assert_eq!(
        freelance.complete_project(project_id, CLIENT),
        Err(Error::IncompleteObjectives)
    );

    token.approve(CLIENT, CONTRACT, 100, 1000).unwrap();
    freelance
        .fund_objective(&mut token, project_id, 1, CLIENT)
        .unwrap();
    freelance
        .complete_objective(&mut token, project_id, 1, FREELANCER)
        .unwrap();

    freelance.complete_project(project_id, CLIENT).unwrap();
    let project = get_project(&freelance, project_id).unwrap();
    assert!(project.completed);
}

#[test]
fn full_project_lifecycle_earns_both_prices() {
    let mut token = funded_token();
    let mut freelance = FreelanceContract::new(CONTRACT);
    let prices: Vec<u128> = vec![100, 100];
    let project_id = freelance.create_project(FREELANCER, &prices, CLIENT).unwrap();

    token.approve(CLIENT, CONTRACT, 100, 1000).unwrap();
    freelance
        .fund_objective(&mut token, project_id, 0, CLIENT)
        .unwrap();
    assert_eq!(token.balance(CONTRACT), 50);
    freelance
        .complete_objective(&mut token, project_id, 0, FREELANCER)
        .unwrap();
    assert_eq!(token.balance(FREELANCER), 100);

    token.approve(CLIENT, CONTRACT, 100, 1000).unwrap();
    freelance
        .fund_objective(&mut token, project_id, 1, CLIENT)
        .unwrap();
    freelance
        .complete_objective(&mut token, project_id, 1, FREELANCER)
        .unwrap();
    assert_eq!(token.balance(FREELANCER), 200);
    assert_eq!(token.balance(CLIENT), 800);

    freelance.complete_project(project_id, CLIENT).unwrap();
    let project = get_project(&freelance, project_id).unwrap();
    assert!(project.completed);
    assert_eq!(project.earned_amount, 200);
}

#[test]
fn cancellation_refunds_only_the_open_deposit() {
    let mut token = funded_token();
    let mut freelance = FreelanceContract::new(CONTRACT);
    let prices: Vec<u128> = vec![100, 100, 100];
    let project_id = freelance.create_project(FREELANCER, &prices, CLIENT).unwrap();

    for objective_id in 0..2u128 {
        token.approve(CLIENT, CONTRACT, 100, 1000).unwrap();
        freelance
            .fund_objective(&mut token, project_id, objective_id, CLIENT)
            .unwrap();
        freelance
            .complete_objective(&mut token, project_id, objective_id, FREELANCER)
            .unwrap();
    }
    token.approve(CLIENT, CONTRACT, 100, 1000).unwrap();
    freelance
        .fund_objective(&mut token, project_id, 2, CLIENT)
        .unwrap();
    assert_eq!(token.balance(CONTRACT), 50);

    freelance.cancel_project(project_id, CLIENT).unwrap();
    freelance
        .refund_remaining_funds(&mut token, project_id, CLIENT)
        .unwrap();

    assert_eq!(token.balance(CONTRACT), 0);
    assert_eq!(token.balance(CLIENT), 800);
    assert_eq!(token.balance(FREELANCER), 200);
}

#[test]
fn unauthorized_callers_are_rejected_without_state_change() {
    let mut token = funded_token();
    let mut freelance = FreelanceContract::new(CONTRACT);
    let prices: Vec<u128> = vec![100, 100];
    let project_id = freelance.create_project(FREELANCER, &prices, CLIENT).unwrap();
    token.approve(CLIENT, CONTRACT, 100, 1000).unwrap();

    assert_eq!(
        freelance.fund_objective(&mut token, project_id, 0, STRANGER),
        Err(Error::Unauthorized)
    );
    assert_eq!(
        freelance.cancel_project(project_id, STRANGER),
        Err(Error::Unauthorized)
    );
    let more: Vec<u128> = vec![50];
    assert_eq!(
        freelance.add_objective(project_id, &more, STRANGER),
        Err(Error::Unauthorized)
    );
    assert_eq!(
        freelance.complete_project(project_id, STRANGER),
        Err(Error::Unauthorized)
    );
    assert_eq!(
        freelance.refund_remaining_funds(&mut token, project_id, STRANGER),
        Err(Error::Unauthorized)
    );

    // even the client cannot complete an objective, only the freelancer
    freelance
        .fund_objective(&mut token, project_id, 0, CLIENT)
        .unwrap();
    assert_eq!(
        freelance.complete_objective(&mut token, project_id, 0, CLIENT),
        Err(Error::Unauthorized)
    );

    let project = get_project(&freelance, project_id).unwrap();
    assert_eq!(project.objectives_count, 2);
    assert_eq!(project.objectives[0].half_paid, 50);
    assert_eq!(project.objectives[0].completed, false);
    assert!(!project.cancelled);
    assert!(!project.completed);
    assert_eq!(token.balance(CLIENT), 950);
    assert_eq!(token.balance(CONTRACT), 50);
    assert_eq!(token.balance(FREELANCER), 0);
}
