use carbon_registry::{Address, CarbonRegistry, Error, Operation, MAX_STR_LEN};

fn addr(s: &str) -> Address {
    Address { key: s.as_bytes().to_vec() }
}

fn s(v: &str) -> Vec<u8> {
    v.as_bytes().to_vec()
}

fn ready() -> (CarbonRegistry, Address) {
    let mut registry = CarbonRegistry::new();
    let admin = addr("GADMIN");
    registry.initialize(admin.clone(), addr("GVERIFIER"), addr("CUSDC")).unwrap();
    (registry, admin)
}

/// Checks the registry's invariant on a concrete state.
fn assert_conserved(registry: &CarbonRegistry) {
    for (k, p) in registry.projects.iter().enumerate() {
        let pid = (k + 1) as u64;
        let held: u128 = registry.holdings.iter().filter(|h| h.project_id == pid).map(|h| h.amount).sum();
        let listed: u128 = registry.listings.iter().filter(|l| l.project_id == pid).map(|l| l.remaining).sum();
        let certified: u128 = registry.retirements.iter().filter(|r| r.project_id == pid).map(|r| r.amount).sum();
        assert_eq!(p.total_issued, held + listed + p.retired);
        assert_eq!(p.retired, certified);
        assert!(p.available + listed <= p.total_issued);
        assert_eq!(p.available, registry.balance_of(p.owner.clone(), pid));
    }
    for l in registry.listings.iter() {
        assert_eq!(l.active, l.remaining > 0);
    }
    for (i, a) in registry.holdings.iter().enumerate() {
        for b in registry.holdings.iter().skip(i + 1) {
            assert!(!(a.holder == b.holder && a.project_id == b.project_id));
        }
    }
}

fn snapshot(r: &CarbonRegistry) -> String {
    format!("{:?}{:?}{:?}{:?}{:?}", r.config, r.projects, r.listings, r.retirements, r.holdings)
}

#[test]
fn error_codes_are_stable() {
    let all = [
        (Error::AlreadyInitialized, 1),
        (Error::NotInitialized, 2),
        (Error::ProjectNotFound, 3),
        (Error::ListingNotFound, 4),
        (Error::RetirementNotFound, 5),
        (Error::InvalidAmount, 6),
        (Error::InsufficientAvailable, 7),
        (Error::InsufficientBalance, 8),
        (Error::InsufficientListed, 9),
        (Error::Overflow, 10),
        (Error::NotAuthorizedAdmin, 11),
        (Error::NotAuthorizedVerifier, 12),
        (Error::NotAuthorizedSeller, 13),
        (Error::MetadataTooLong, 14),
    ];
    for (e, c) in all {
        assert_eq!(e.code(), c);
    }
}

#[test]
fn uninitialized_registry_refuses() {
    let mut registry = CarbonRegistry::new();
    assert_eq!(registry.admin_address(), Err(Error::NotInitialized));
    assert_eq!(registry.verifier_address(), Err(Error::NotInitialized));
    assert_eq!(registry.usdc_address(), Err(Error::NotInitialized));
    assert_eq!(registry.create_project(s("P"), s("R"), s("t"), 2025), Err(Error::NotInitialized));
    assert_eq!(registry.issue_credits(1, 10), Err(Error::NotInitialized));
    assert_eq!(registry.list_credits(1, 1, 10), Err(Error::ProjectNotFound));
    assert_eq!(registry.cancel_listing(1), Err(Error::ListingNotFound));
    assert_eq!(registry.retire_credits(addr("G"), 1, 1, s("r"), 0), Err(Error::ProjectNotFound));
    assert_eq!(registry.balance_of(addr("G"), 1), 0);
}

#[test]
fn ids_are_sequential_from_one() {
    let (mut registry, admin) = ready();
    assert_eq!(registry.create_project(s("A"), s("R"), s("t"), 2024), Ok(1));
    assert_eq!(registry.create_project(s("B"), s("R"), s("t"), 2025), Ok(2));
    registry.issue_credits(2, 10).unwrap();
    assert_eq!(registry.list_credits(2, 1, 3), Ok(1));
    assert_eq!(registry.list_credits(2, 1, 3), Ok(2));
    assert_eq!(registry.retire_credits(admin.clone(), 2, 1, s("a"), 7), Ok(1));
    assert_eq!(registry.retire_credits(admin, 2, 1, s("b"), 8), Ok(2));
    let p = registry.get_project(2).unwrap();
    assert_eq!(p.name, s("B"));
    assert_eq!(p.vintage, 2025);
    assert_eq!(p.owner, addr("GADMIN"));
}

#[test]
fn metadata_at_the_limit_is_accepted() {
    let (mut registry, admin) = ready();
    let edge = vec![b'x'; MAX_STR_LEN];
    let over = vec![b'x'; MAX_STR_LEN + 1];
    assert_eq!(registry.create_project(edge.clone(), edge.clone(), edge.clone(), 1), Ok(1));
    assert_eq!(registry.create_project(s("P"), over.clone(), s("t"), 1), Err(Error::MetadataTooLong));
    assert_eq!(registry.create_project(s("P"), s("R"), over.clone(), 1), Err(Error::MetadataTooLong));
    registry.issue_credits(1, 5).unwrap();
    assert_eq!(registry.retire_credits(admin.clone(), 1, 1, over, 0), Err(Error::MetadataTooLong));
    assert_eq!(registry.retire_credits(admin, 1, 1, edge, 0), Ok(1));
}

#[test]
fn zero_amounts_are_rejected() {
    let (mut registry, admin) = ready();
    registry.create_project(s("P"), s("R"), s("t"), 2025).unwrap();
    registry.issue_credits(1, 10).unwrap();
    assert_eq!(registry.list_credits(1, 1, 0), Err(Error::InvalidAmount));
    registry.list_credits(1, 1, 5).unwrap();
    assert_eq!(registry.buy_credits(addr("GB"), 1, 0), Err(Error::InvalidAmount));
    assert_eq!(registry.retire_credits(admin, 1, 0, s("r"), 0), Err(Error::InvalidAmount));
}

#[test]
fn unknown_entities_are_reported() {
    let (mut registry, admin) = ready();
    assert_eq!(registry.list_credits(3, 1, 1), Err(Error::ProjectNotFound));
    assert_eq!(registry.buy_credits(addr("GB"), 3, 1), Err(Error::ListingNotFound));
    assert_eq!(registry.cancel_listing(3), Err(Error::ListingNotFound));
    assert_eq!(registry.retire_credits(admin, 3, 1, s("r"), 0), Err(Error::ProjectNotFound));
    assert_eq!(registry.get_project(0), Err(Error::ProjectNotFound));
}

#[test]
fn owner_retiring_its_credits_shrinks_available() {
    let (mut registry, admin) = ready();
    registry.create_project(s("P"), s("R"), s("t"), 2025).unwrap();
    registry.issue_credits(1, 100).unwrap();
    // The owner retires some of its own credits: they leave both its balance
    // and the project's available pool.
    registry.retire_credits(admin.clone(), 1, 50, s("own"), 0).unwrap();
    assert_eq!(registry.get_project(1).unwrap().available, 50);
    assert_eq!(registry.balance_of(admin.clone(), 1), 50);
    assert_eq!(registry.list_credits(1, 1, 60), Err(Error::InsufficientAvailable));
    assert_eq!(registry.list_credits(1, 1, 50), Ok(1));
    assert_eq!(registry.balance_of(admin, 1), 0);
    assert_eq!(registry.get_project(1).unwrap().available, 0);
    assert_conserved(&registry);
}

#[test]
fn owner_buying_its_own_listing_grows_available() {
    let (mut registry, admin) = ready();
    registry.create_project(s("P"), s("R"), s("t"), 2025).unwrap();
    registry.issue_credits(1, 100).unwrap();
    registry.list_credits(1, 2, 60).unwrap();
    assert_eq!(registry.get_project(1).unwrap().available, 40);
    let pay = registry.buy_credits(admin.clone(), 1, 25).unwrap();
    assert_eq!(pay.amount, 50);
    assert_eq!(registry.balance_of(admin.clone(), 1), 65);
    assert_eq!(registry.get_project(1).unwrap().available, 65);
    assert_eq!(registry.get_listing(1).unwrap().remaining, 35);
    // Someone else buying leaves the owner's pool alone.
    registry.buy_credits(addr("GB"), 1, 5).unwrap();
    assert_eq!(registry.get_project(1).unwrap().available, 65);
    assert_conserved(&registry);
}

#[test]
fn required_signers_follow_the_roles() {
    let mut registry = CarbonRegistry::new();
    assert_eq!(registry.required_signer(&Operation::CreateProject), Err(Error::NotInitialized));
    assert_eq!(registry.required_signer(&Operation::IssueCredits), Err(Error::NotInitialized));
    registry.initialize(addr("GADMIN"), addr("GVERIFIER"), addr("CUSDC")).unwrap();
    assert_eq!(registry.required_signer(&Operation::CreateProject), Ok(addr("GADMIN")));
    assert_eq!(registry.required_signer(&Operation::IssueCredits), Ok(addr("GVERIFIER")));
    assert_eq!(
        registry.required_signer(&Operation::ListCredits { project_id: 1, amount: 5 }),
        Err(Error::ProjectNotFound)
    );
    registry.create_project(s("P"), s("R"), s("t"), 2025).unwrap();
    registry.issue_credits(1, 10).unwrap();
    assert_eq!(
        registry.required_signer(&Operation::ListCredits { project_id: 1, amount: 0 }),
        Err(Error::InvalidAmount)
    );
    assert_eq!(
        registry.required_signer(&Operation::ListCredits { project_id: 1, amount: 5 }),
        Ok(addr("GADMIN"))
    );
    assert_eq!(
        registry.required_signer(&Operation::CancelListing { listing_id: 1 }),
        Err(Error::ListingNotFound)
    );
    registry.list_credits(1, 1, 5).unwrap();
    assert_eq!(
        registry.required_signer(&Operation::CancelListing { listing_id: 1 }),
        Ok(addr("GADMIN"))
    );
    assert_eq!(
        registry.required_signer(&Operation::BuyCredits { buyer: addr("GB") }),
        Ok(addr("GB"))
    );
    assert_eq!(
        registry.required_signer(&Operation::RetireCredits { retiree: addr("GR") }),
        Ok(addr("GR"))
    );
}

#[test]
fn issuing_past_the_maximum_overflows() {
    let (mut registry, admin) = ready();
    registry.create_project(s("P"), s("R"), s("t"), 2025).unwrap();
    registry.issue_credits(1, u128::MAX).unwrap();
    let before = snapshot(&registry);
    assert_eq!(registry.issue_credits(1, 1), Err(Error::Overflow));
    assert_eq!(snapshot(&registry), before);
    assert_eq!(registry.balance_of(admin, 1), u128::MAX);
}

#[test]
fn payment_is_amount_times_price() {
    let (mut registry, admin) = ready();
    registry.create_project(s("P"), s("R"), s("t"), 2025).unwrap();
    registry.issue_credits(1, 1_000).unwrap();
    registry.list_credits(1, 7, 1_000).unwrap();
    let buyer = addr("GBUYER");
    let pay = registry.buy_credits(buyer.clone(), 1, 13).unwrap();
    assert_eq!(pay.amount, 91);
    assert_eq!(pay.from, buyer);
    assert_eq!(pay.to, admin);
    assert_eq!(pay.token, addr("CUSDC"));
    assert_eq!(registry.get_listing(1).unwrap().remaining, 987);
    assert!(registry.get_listing(1).unwrap().active);
}

#[test]
fn prices_beyond_the_token_range_overflow() {
    let (mut registry, _admin) = ready();
    registry.create_project(s("P"), s("R"), s("t"), 2025).unwrap();
    registry.issue_credits(1, 10).unwrap();
    // Fits u128 but not the token's signed amount.
    registry.list_credits(1, u128::MAX / 2, 5).unwrap();
    let before = snapshot(&registry);
    assert_eq!(registry.buy_credits(addr("GB"), 1, 2), Err(Error::Overflow));
    // Does not fit u128 at all.
    assert_eq!(registry.buy_credits(addr("GB"), 1, 3), Err(Error::Overflow));
    assert_eq!(snapshot(&registry), before);
    // Exactly the token's maximum is accepted.
    registry.list_credits(1, i128::MAX as u128, 1).unwrap();
    assert_eq!(registry.buy_credits(addr("GB"), 2, 1).unwrap().amount, i128::MAX);
}

#[test]
fn a_listing_cancels_once() {
    let (mut registry, admin) = ready();
    registry.create_project(s("P"), s("R"), s("t"), 2025).unwrap();
    registry.issue_credits(1, 10).unwrap();
    registry.list_credits(1, 2, 10).unwrap();
    registry.buy_credits(addr("GB"), 1, 4).unwrap();
    registry.cancel_listing(1).unwrap();
    assert_eq!(registry.balance_of(admin.clone(), 1), 6);
    assert_eq!(registry.get_listing(1).unwrap().remaining, 0);
    assert_eq!(registry.cancel_listing(1), Err(Error::ListingNotFound));
    assert_eq!(registry.balance_of(admin, 1), 6);
    assert_conserved(&registry);
}

#[test]
fn sold_out_listing_cannot_be_cancelled() {
    let (mut registry, _admin) = ready();
    registry.create_project(s("P"), s("R"), s("t"), 2025).unwrap();
    registry.issue_credits(1, 10).unwrap();
    registry.list_credits(1, 2, 10).unwrap();
    registry.buy_credits(addr("GB"), 1, 10).unwrap();
    assert_eq!(registry.cancel_listing(1), Err(Error::ListingNotFound));
    assert_eq!(registry.buy_credits(addr("GC"), 1, 1), Err(Error::ListingNotFound));
}

#[test]
fn credits_are_conserved_through_a_market_run() {
    let (mut registry, admin) = ready();
    let a = addr("GA");
    let b = addr("GB");
    registry.create_project(s("Forest"), s("BR"), s("reforestation"), 2024).unwrap();
    registry.create_project(s("Wind"), s("DK"), s("renewable"), 2025).unwrap();
    registry.issue_credits(1, 1_000).unwrap();
    registry.issue_credits(2, 400).unwrap();
    assert_conserved(&registry);
    registry.list_credits(1, 3, 600).unwrap();
    registry.list_credits(2, 5, 400).unwrap();
    assert_conserved(&registry);
    registry.buy_credits(a.clone(), 1, 250).unwrap();
    registry.buy_credits(b.clone(), 1, 100).unwrap();
    registry.buy_credits(a.clone(), 2, 400).unwrap();
    registry.buy_credits(a.clone(), 1, 50).unwrap();
    assert_conserved(&registry);
    registry.retire_credits(a.clone(), 1, 300, s("q1"), 10).unwrap();
    registry.retire_credits(a.clone(), 2, 100, s("q2"), 11).unwrap();
    registry.retire_credits(b.clone(), 1, 100, s("q3"), 12).unwrap();
    registry.cancel_listing(1).unwrap();
    assert_conserved(&registry);
    assert_eq!(registry.balance_of(a.clone(), 1), 0);
    assert_eq!(registry.balance_of(a, 2), 300);
    assert_eq!(registry.balance_of(b, 1), 0);
    assert_eq!(registry.balance_of(admin, 1), 600);
    let p1 = registry.get_project(1).unwrap();
    assert_eq!((p1.total_issued, p1.available, p1.retired), (1_000, 600, 400));
    // A certificate never changes afterwards.
    let cert = registry.get_retirement(1).unwrap();
    registry.issue_credits(1, 5).unwrap();
    assert_eq!(registry.get_retirement(1).unwrap(), cert);
    assert_eq!(cert.timestamp, 10);
    assert_eq!(cert.reason, s("q1"));
}

#[test]
fn failed_operations_change_nothing() {
    let (mut registry, admin) = ready();
    registry.create_project(s("P"), s("R"), s("t"), 2025).unwrap();
    registry.issue_credits(1, 10).unwrap();
    registry.list_credits(1, 1, 4).unwrap();
    let before = snapshot(&registry);
    assert!(registry.list_credits(1, 1, 7).is_err());
    assert!(registry.buy_credits(addr("GB"), 1, 5).is_err());
    assert!(registry.retire_credits(admin.clone(), 1, 7, s("r"), 0).is_err());
    assert!(registry.initialize(admin.clone(), admin.clone(), admin).is_err());
    assert_eq!(snapshot(&registry), before);
}
