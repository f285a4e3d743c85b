use freelancer::contract::FreelanceContract;
use freelancer::storage::get_all_projects;

const CLIENT: u64 = 2;
const FREELANCER: u64 = 3;
const OTHER_CLIENT: u64 = 5;
const CONTRACT: u64 = 99;

#[test]
fn register_once_per_identity() {
    let mut freelance = FreelanceContract::new(CONTRACT);
    assert!(freelance.register(7, "Ada".to_string(), "ada@example.com".to_string(), 1111));
    assert!(!freelance.register(7, "Ada again".to_string(), "ada@example.com".to_string(), 2222));
    assert!(freelance.register(8, "Grace".to_string(), "grace@example.com".to_string(), 3333));
}

#[test]
fn login_returns_the_registered_name() {
    let mut freelance = FreelanceContract::new(CONTRACT);
    freelance.register(7, "Ada".to_string(), "ada@example.com".to_string(), 1111);
    assert_eq!(freelance.login(7), "Ada");
    assert_eq!(freelance.login(8), "User not found");
}

#[test]
fn queries_keep_identifier_order() {
    let mut freelance = FreelanceContract::new(CONTRACT);
    let prices: Vec<u128> = vec![10];
    let other_prices: Vec<u128> = vec![20];
    let first = freelance.create_project(FREELANCER, &prices, CLIENT).unwrap();
    let second = freelance.create_project(FREELANCER + 1, &other_prices, CLIENT).unwrap();
    let third = freelance.create_project(FREELANCER, &prices, OTHER_CLIENT).unwrap();
    assert_eq!((first, second, third), (1, 2, 3));

    let mine = freelance.get_projects_by_client(CLIENT);
    assert_eq!(mine.len(), 2);
    assert_eq!(mine[0].objectives[0].price, 10);
    assert_eq!(mine[1].objectives[0].price, 20);

    let theirs = freelance.get_projects_by_freelancer(FREELANCER);
    assert_eq!(theirs.len(), 2);
    assert_eq!(theirs[0].client, CLIENT);
    assert_eq!(theirs[1].client, OTHER_CLIENT);

    assert_eq!(get_all_projects(&freelance).len(), 3);
}
