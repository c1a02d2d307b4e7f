use vstd::prelude::*;

verus! {

/// An account or contract address, held as the bytes of its string key.
///
/// Two addresses are the same address exactly when their keys are equal.
#[derive(Debug, PartialEq, Eq)]
pub struct Address {
    pub key: Vec<u8>,
}

impl View for Address {
    type V = Seq<u8>;

    open spec fn view(&self) -> Seq<u8> {
        self.key@
    }
}

/// A copy of a byte string.
pub(crate) fn copy_bytes(b: &Vec<u8>) -> (r: Vec<u8>)
    ensures
        r@ == b@,
{
    let r = b.clone();
    assert(r@ =~= b@);
    r
}

impl Clone for Address {
    fn clone(&self) -> (r: Self)
        ensures
            r@ == self@,
    {
        Address { key: copy_bytes(&self.key) }
    }
}

impl Address {
    /// Whether `self` and `other` are the same address.
    pub fn same(&self, other: &Address) -> (r: bool)
        ensures
            r == (self@ == other@),
    {
        let n = self.key.len();
        if n != other.key.len() {
            return false;
        }
        let mut i: usize = 0;
        while i < n
            invariant
                n == self.key.len(),
                n == other.key.len(),
                i <= n,
                forall|j: int| 0 <= j < i ==> self.key@[j] == other.key@[j],
            decreases n - i,
        {
            if self.key[i] != other.key[i] {
                return false;
            }
            i = i + 1;
        }
        assert(self.key@ =~= other.key@);
        true
    }
}

/// The model of a project.
pub struct ProjectView {
    pub owner: Seq<u8>,
    pub name: Seq<u8>,
    pub region: Seq<u8>,
    pub project_type: Seq<u8>,
    pub vintage: u32,
    pub total_issued: u128,
    pub available: u128,
    pub retired: u128,
}

/// A carbon-credit-issuing project (reforestation, renewable energy, direct
/// air capture, ...).
#[derive(Debug, PartialEq, Eq)]
pub struct Project {
    pub owner: Address,
    pub name: Vec<u8>,
    pub region: Vec<u8>,
    pub project_type: Vec<u8>,
    pub vintage: u32,
    /// Total credits ever minted for this project.
    pub total_issued: u128,
    /// Credits held by the project owner that are not currently listed.
    pub available: u128,
    /// Cumulative credits retired against this project.
    pub retired: u128,
}

impl View for Project {
    type V = ProjectView;

    open spec fn view(&self) -> ProjectView {
        ProjectView {
            owner: self.owner@,
            name: self.name@,
            region: self.region@,
            project_type: self.project_type@,
            vintage: self.vintage,
            total_issued: self.total_issued,
            available: self.available,
            retired: self.retired,
        }
    }
}

impl Clone for Project {
    fn clone(&self) -> (r: Self)
        ensures
            r@ == self@,
    {
        Project {
            owner: self.owner.clone(),
            name: copy_bytes(&self.name),
            region: copy_bytes(&self.region),
            project_type: copy_bytes(&self.project_type),
            vintage: self.vintage,
            total_issued: self.total_issued,
            available: self.available,
            retired: self.retired,
        }
    }
}

/// The model of a listing.
pub struct ListingView {
    pub project_id: u64,
    pub seller: Seq<u8>,
    pub price_per_credit: u128,
    pub remaining: u128,
    pub active: bool,
}

/// An open sale offer of credits at a fixed price.
#[derive(Debug, PartialEq, Eq)]
pub struct Listing {
    pub project_id: u64,
    pub seller: Address,
    /// Price of a single credit, in the payment token's smallest unit.
    pub price_per_credit: u128,
    /// Credits still available under this listing.
    pub remaining: u128,
    pub active: bool,
}

impl View for Listing {
    type V = ListingView;

    open spec fn view(&self) -> ListingView {
        ListingView {
            project_id: self.project_id,
            seller: self.seller@,
            price_per_credit: self.price_per_credit,
            remaining: self.remaining,
            active: self.active,
        }
    }
}

impl Clone for Listing {
    fn clone(&self) -> (r: Self)
        ensures
            r@ == self@,
    {
        Listing {
            project_id: self.project_id,
            seller: self.seller.clone(),
            price_per_credit: self.price_per_credit,
            remaining: self.remaining,
            active: self.active,
        }
    }
}

/// The model of a retirement certificate.
pub struct RetirementView {
    pub retiree: Seq<u8>,
    pub project_id: u64,
    pub amount: u128,
    pub reason: Seq<u8>,
    pub timestamp: u64,
}

/// A permanent, immutable retirement certificate.
#[derive(Debug, PartialEq, Eq)]
pub struct Retirement {
    pub retiree: Address,
    pub project_id: u64,
    pub amount: u128,
    pub reason: Vec<u8>,
    pub timestamp: u64,
}

impl View for Retirement {
    type V = RetirementView;

    open spec fn view(&self) -> RetirementView {
        RetirementView {
            retiree: self.retiree@,
            project_id: self.project_id,
            amount: self.amount,
            reason: self.reason@,
            timestamp: self.timestamp,
        }
    }
}

impl Clone for Retirement {
    fn clone(&self) -> (r: Self)
        ensures
            r@ == self@,
    {
        Retirement {
            retiree: self.retiree.clone(),
            project_id: self.project_id,
            amount: self.amount,
            reason: copy_bytes(&self.reason),
            timestamp: self.timestamp,
        }
    }
}

/// The model of a holding.
pub struct HoldingView {
    pub holder: Seq<u8>,
    pub project_id: u64,
    pub amount: u128,
}

/// The credits that one holder owns for one project.
#[derive(Debug, PartialEq, Eq)]
pub struct Holding {
    pub holder: Address,
    pub project_id: u64,
    pub amount: u128,
}

impl View for Holding {
    type V = HoldingView;

    open spec fn view(&self) -> HoldingView {
        HoldingView { holder: self.holder@, project_id: self.project_id, amount: self.amount }
    }
}

impl Clone for Holding {
    fn clone(&self) -> (r: Self)
        ensures
            r@ == self@,
    {
        Holding { holder: self.holder.clone(), project_id: self.project_id, amount: self.amount }
    }
}

/// The model of the registry's configuration.
pub struct ConfigView {
    pub admin: Seq<u8>,
    pub verifier: Seq<u8>,
    pub usdc: Seq<u8>,
}

/// The addresses the registry was initialized with.
#[derive(Debug, PartialEq, Eq)]
pub struct Config {
    /// Bootstraps the registry and creates projects.
    pub admin: Address,
    /// Attests real-world reduction and issues credits.
    pub verifier: Address,
    /// The stablecoin token contract that purchases are paid in.
    pub usdc: Address,
}

impl View for Config {
    type V = ConfigView;

    open spec fn view(&self) -> ConfigView {
        ConfigView { admin: self.admin@, verifier: self.verifier@, usdc: self.usdc@ }
    }
}

impl Clone for Config {
    fn clone(&self) -> (r: Self)
        ensures
            r@ == self@,
    {
        Config { admin: self.admin.clone(), verifier: self.verifier.clone(), usdc: self.usdc.clone() }
    }
}

/// The token transfer that settles a purchase: `amount` of the `token`
/// moves from `from` (the buyer) to `to` (the seller).
#[derive(Debug, PartialEq, Eq)]
pub struct Payment {
    pub token: Address,
    pub from: Address,
    pub to: Address,
    pub amount: i128,
}

} // verus!
