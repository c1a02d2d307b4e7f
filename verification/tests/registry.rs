use carbon_registry::{Address, CarbonRegistry, Error, Payment};
use std::collections::HashMap;

fn addr(s: &str) -> Address {
    Address { key: s.as_bytes().to_vec() }
}

fn s(v: &str) -> Vec<u8> {
    v.as_bytes().to_vec()
}

/// A stand-in for the stablecoin token: balances that purchases settle in.
struct Token {
    balances: HashMap<Vec<u8>, i128>,
}

impl Token {
    fn new() -> Token {
        Token { balances: HashMap::new() }
    }

    fn mint(&mut self, to: &Address, amount: i128) {
        *self.balances.entry(to.key.clone()).or_insert(0) += amount;
    }

    fn balance(&self, of: &Address) -> i128 {
        *self.balances.get(&of.key).unwrap_or(&0)
    }

    fn settle(&mut self, p: &Payment) {
        assert!(self.balance(&p.from) >= p.amount);
        *self.balances.entry(p.from.key.clone()).or_insert(0) -= p.amount;
        *self.balances.entry(p.to.key.clone()).or_insert(0) += p.amount;
    }
}

/// A fresh, initialized registry. Returns (registry, admin, verifier, usdc).
fn setup() -> (CarbonRegistry, Address, Address, Address) {
    let mut registry = CarbonRegistry::new();
    let admin = addr("GADMIN");
    let verifier = addr("GVERIFIER");
    let usdc = addr("CUSDC");
    registry.initialize(admin.clone(), verifier.clone(), usdc.clone()).unwrap();
    (registry, admin, verifier, usdc)
}

/// Every credit issued is held, listed or retired, and the retired credits
/// are those the certificates record.
fn assert_conserved(registry: &CarbonRegistry) {
    for (k, p) in registry.projects.iter().enumerate() {
        let pid = (k + 1) as u64;
        let held: u128 = registry.holdings.iter().filter(|h| h.project_id == pid).map(|h| h.amount).sum();
        let listed: u128 = registry.listings.iter().filter(|l| l.project_id == pid).map(|l| l.remaining).sum();
        let certified: u128 = registry.retirements.iter().filter(|r| r.project_id == pid).map(|r| r.amount).sum();
        assert_eq!(p.total_issued, held + listed + p.retired);
        assert_eq!(p.retired, certified);
        assert!(p.available + listed <= p.total_issued);
        assert_eq!(p.available, registry.balance_of(p.owner.clone(), pid));
    }
    for l in registry.listings.iter() {
        assert_eq!(l.active, l.remaining > 0);
    }
}

#[test]
fn initialize_sets_config() {
    let (registry, admin, verifier, _usdc) = setup();
    assert_eq!(registry.admin_address(), Ok(admin));
    assert_eq!(registry.verifier_address(), Ok(verifier));
}

#[test]
fn initialize_is_one_shot() {
    let (mut registry, admin, verifier, _usdc) = setup();
    let other = registry.usdc_address().unwrap();
    let res = registry.initialize(admin, verifier, other);
    assert_eq!(res, Err(Error::AlreadyInitialized));
}

#[test]
fn create_and_issue_flow() {
    let (mut registry, admin, _verifier, _usdc) = setup();

    let pid = registry
        .create_project(s("Amazon Reforestation"), s("BR"), s("reforestation"), 2025)
        .unwrap();
    assert_eq!(pid, 1);

    registry.issue_credits(pid, 1_000).unwrap();
    let project = registry.get_project(pid).unwrap();
    assert_eq!(project.total_issued, 1_000);
    assert_eq!(project.available, 1_000);
    // Issued credits are credited to the project owner (admin).
    assert_eq!(registry.balance_of(admin, pid), 1_000);
}

#[test]
fn issue_zero_is_rejected() {
    let (mut registry, _admin, _verifier, _usdc) = setup();
    let pid = registry.create_project(s("P"), s("R"), s("t"), 2025).unwrap();
    assert_eq!(registry.issue_credits(pid, 0), Err(Error::InvalidAmount));
}

#[test]
fn issue_unknown_project_errors() {
    let (mut registry, _admin, _verifier, _usdc) = setup();
    assert_eq!(registry.issue_credits(999, 10), Err(Error::ProjectNotFound));
}

#[test]
fn full_buy_and_retire_lifecycle() {
    let (mut registry, admin, _verifier, usdc_id) = setup();
    let mut usdc = Token::new();

    // Project + issuance.
    let pid = registry.create_project(s("Solar Farm"), s("KE"), s("renewable"), 2025).unwrap();
    registry.issue_credits(pid, 500).unwrap();

    // Owner lists 300 credits at 2 USDC each.
    let listing_id = registry.list_credits(pid, 2, 300).unwrap();
    let project = registry.get_project(pid).unwrap();
    assert_eq!(project.available, 200); // 500 - 300 escrowed
    assert_eq!(registry.balance_of(admin.clone(), pid), 200);

    // Fund a buyer with USDC and purchase 100 credits.
    let buyer = addr("GBUYER");
    usdc.mint(&buyer, 1_000);
    let payment = registry.buy_credits(buyer.clone(), listing_id, 100).unwrap();
    assert_eq!(payment.token, usdc_id);
    usdc.settle(&payment);

    // USDC moved buyer -> seller: 100 * 2 = 200.
    assert_eq!(usdc.balance(&buyer), 800);
    assert_eq!(usdc.balance(&admin), 200);
    // Buyer now holds 100 credits; listing has 200 remaining.
    assert_eq!(registry.balance_of(buyer.clone(), pid), 100);
    assert_eq!(registry.get_listing(listing_id).unwrap().remaining, 200);

    // Buyer retires 40 credits.
    let cert_id = registry.retire_credits(buyer.clone(), pid, 40, s("offset Q3 travel"), 0).unwrap();
    assert_eq!(cert_id, 1);
    assert_eq!(registry.balance_of(buyer.clone(), pid), 60);
    let cert = registry.get_retirement(cert_id).unwrap();
    assert_eq!(cert.retiree, buyer);
    assert_eq!(cert.amount, 40);
    assert_eq!(registry.get_project(pid).unwrap().retired, 40);
    assert_conserved(&registry);
}

#[test]
fn buy_more_than_listed_errors() {
    let (mut registry, _admin, _verifier, _usdc) = setup();
    let mut usdc = Token::new();
    let pid = registry.create_project(s("P"), s("R"), s("t"), 2025).unwrap();
    registry.issue_credits(pid, 100).unwrap();
    let lid = registry.list_credits(pid, 1, 50).unwrap();

    let buyer = addr("GBUYER");
    usdc.mint(&buyer, 1_000);
    assert_eq!(registry.buy_credits(buyer, lid, 51), Err(Error::InsufficientListed));
}

#[test]
fn list_more_than_available_errors() {
    let (mut registry, _admin, _verifier, _usdc) = setup();
    let pid = registry.create_project(s("P"), s("R"), s("t"), 2025).unwrap();
    registry.issue_credits(pid, 100).unwrap();
    assert_eq!(registry.list_credits(pid, 1, 101), Err(Error::InsufficientAvailable));
}

#[test]
fn retire_more_than_balance_errors() {
    let (mut registry, admin, _verifier, _usdc) = setup();
    let pid = registry.create_project(s("P"), s("R"), s("t"), 2025).unwrap();
    registry.issue_credits(pid, 10).unwrap();
    assert_eq!(
        registry.retire_credits(admin, pid, 11, s("x"), 0),
        Err(Error::InsufficientBalance)
    );
}

#[test]
fn cancel_listing_returns_credits() {
    let (mut registry, admin, _verifier, _usdc) = setup();
    let pid = registry.create_project(s("P"), s("R"), s("t"), 2025).unwrap();
    registry.issue_credits(pid, 100).unwrap();
    let lid = registry.list_credits(pid, 5, 60).unwrap();
    assert_eq!(registry.balance_of(admin.clone(), pid), 40);

    registry.cancel_listing(lid).unwrap();
    // Escrowed credits returned to the owner.
    assert_eq!(registry.balance_of(admin, pid), 100);
    assert_eq!(registry.get_project(pid).unwrap().available, 100);
    assert!(!registry.get_listing(lid).unwrap().active);
}

#[test]
fn buy_from_cancelled_listing_errors() {
    let (mut registry, _admin, _verifier, _usdc) = setup();
    let mut usdc = Token::new();
    let pid = registry.create_project(s("P"), s("R"), s("t"), 2025).unwrap();
    registry.issue_credits(pid, 100).unwrap();
    let lid = registry.list_credits(pid, 1, 50).unwrap();
    registry.cancel_listing(lid).unwrap();

    let buyer = addr("GBUYER");
    usdc.mint(&buyer, 100);
    assert_eq!(registry.buy_credits(buyer, lid, 1), Err(Error::ListingNotFound));
}

#[test]
fn selling_out_a_listing_deactivates_it() {
    let (mut registry, admin, _verifier, _usdc) = setup();
    let mut usdc = Token::new();
    let pid = registry.create_project(s("P"), s("R"), s("t"), 2025).unwrap();
    registry.issue_credits(pid, 100).unwrap();
    let lid = registry.list_credits(pid, 3, 100).unwrap();

    let buyer = addr("GBUYER");
    usdc.mint(&buyer, 1_000);
    let payment = registry.buy_credits(buyer.clone(), lid, 100).unwrap();
    usdc.settle(&payment);

    let listing = registry.get_listing(lid).unwrap();
    assert_eq!(listing.remaining, 0);
    assert!(!listing.active);
    assert_eq!(usdc.balance(&admin), 300);
    assert_eq!(registry.balance_of(buyer, pid), 100);
}

#[test]
fn metadata_length_is_bounded() {
    let (mut registry, _admin, _verifier, _usdc) = setup();
    let long = s(
        "this-metadata-string-is-deliberately-far-too-long-to-be-accepted-by-the-registry-contract-because-it-exceeds-the-configured-maximum-length-limit",
    );
    assert_eq!(
        registry.create_project(long, s("R"), s("t"), 2025),
        Err(Error::MetadataTooLong)
    );
}

#[test]
fn views_error_on_missing_entities() {
    let (registry, _admin, _verifier, _usdc) = setup();
    assert_eq!(registry.get_project(42), Err(Error::ProjectNotFound));
    assert_eq!(registry.get_listing(42), Err(Error::ListingNotFound));
    assert_eq!(registry.get_retirement(42), Err(Error::RetirementNotFound));
}
