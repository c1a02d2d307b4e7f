//! The registry state and its operations.

use vstd::prelude::*;
use crate::error::Error;
use crate::ledger::{balance_of_in, credit_balance, debit_balance, holdings_view};
use crate::model::{
    balance_in, certified_in, key_is, layout_kept, lemma_balance_none, held_in, lemma_certified_none, lemma_certified_push,
    lemma_held_none, lemma_listed_none, lemma_listed_push, lemma_listed_update, listed_in,
    unique_keys,
};
use crate::types::{
    Address, Config, ConfigView, Holding, HoldingView, Listing, ListingView, Payment, Project,
    ProjectView, Retirement, RetirementView,
};

verus! {

/// Maximum length (in bytes) accepted for a metadata string.
pub const MAX_STR_LEN: usize = 128;

/// The model of the whole registry.
///
/// Ids are positions counted from 1: project `id` is `projects[id - 1]`, and
/// likewise for listings and retirement certificates.
pub struct RegistryView {
    pub config: Option<ConfigView>,
    pub projects: Seq<ProjectView>,
    pub listings: Seq<ListingView>,
    pub retirements: Seq<RetirementView>,
    pub holdings: Seq<HoldingView>,
}

impl RegistryView {
    pub open spec fn has_project(self, id: int) -> bool {
        1 <= id <= self.projects.len()
    }

    pub open spec fn project(self, id: int) -> ProjectView {
        self.projects[id - 1]
    }

    pub open spec fn has_listing(self, id: int) -> bool {
        1 <= id <= self.listings.len()
    }

    pub open spec fn listing(self, id: int) -> ListingView {
        self.listings[id - 1]
    }

    pub open spec fn has_retirement(self, id: int) -> bool {
        1 <= id <= self.retirements.len()
    }

    pub open spec fn retirement(self, id: int) -> RetirementView {
        self.retirements[id - 1]
    }

    /// The credits `holder` owns for project `pid`.
    pub open spec fn balance(self, holder: Seq<u8>, pid: int) -> u128 {
        balance_in(self.holdings, holder, pid)
    }

    /// The credits of project `pid` that holders own.
    pub open spec fn held(self, pid: int) -> int {
        held_in(self.holdings, pid)
    }

    /// The credits of project `pid` in escrow under listings.
    pub open spec fn listed(self, pid: int) -> int {
        listed_in(self.listings, pid)
    }

    /// The credits of project `pid` that retirement certificates record.
    pub open spec fn certified(self, pid: int) -> int {
        certified_in(self.retirements, pid)
    }

    /// `next` differs from `self` in balances only: the balance of `holder`
    /// for `pid` moved by `delta` and no other balance changed.
    pub open spec fn balance_moved(self, next: Self, holder: Seq<u8>, pid: int, delta: int) -> bool {
        forall|h: Seq<u8>, q: int|
            #[trigger] next.balance(h, q) == self.balance(h, q) + if h == holder && q == pid {
                delta
            } else {
                0
            }
    }

    /// Of project `pid`, what holders own moved by `held`, what is listed by
    /// `listed` and what certificates record by `certified`; nothing moved
    /// for any other project.
    pub open spec fn sums_moved(self, next: Self, pid: int, held: int, listed: int, certified: int) -> bool {
        forall|q: int|
            #![trigger next.held(q)]
            #![trigger next.listed(q)]
            #![trigger next.certified(q)]
            {
                &&& next.held(q) == self.held(q) + if q == pid {
                    held
                } else {
                    0
                }
                &&& next.listed(q) == self.listed(q) + if q == pid {
                    listed
                } else {
                    0
                }
                &&& next.certified(q) == self.certified(q) + if q == pid {
                    certified
                } else {
                    0
                }
            }
    }

    /// Every credit ever issued for a project is held by someone, in escrow
    /// under a listing, or retired.
    pub open spec fn credits_conserved(self) -> bool {
        forall|k: int|
            0 <= k < self.projects.len() ==> (#[trigger] self.projects[k]).total_issued == self.held(
                k + 1,
            ) + self.listed(k + 1) + self.projects[k].retired
    }

    /// The credits retired against a project are exactly those its
    /// retirement certificates record.
    pub open spec fn retirements_certified(self) -> bool {
        forall|k: int|
            0 <= k < self.projects.len() ==> (#[trigger] self.projects[k]).retired == self.certified(
                k + 1,
            )
    }

    /// The owner's unlisted pool and what is on sale never exceed what was
    /// issued.
    pub open spec fn unlisted_within_issued(self) -> bool {
        forall|k: int|
            0 <= k < self.projects.len() ==> (#[trigger] self.projects[k]).available + self.listed(
                k + 1,
            ) <= self.projects[k].total_issued
    }

    /// A project's `available` pool is exactly what its owner holds of it:
    /// the owner's credits that are not listed.
    pub open spec fn available_is_owner_balance(self) -> bool {
        forall|k: int|
            0 <= k < self.projects.len() ==> (#[trigger] self.projects[k]).available == self.balance(
                self.projects[k].owner,
                k + 1,
            )
    }

    /// Every listing is offered by the owner of its project.
    pub open spec fn listings_by_owner(self) -> bool {
        forall|i: int|
            0 <= i < self.listings.len() ==> (#[trigger] self.listings[i]).seller == self.project(
                self.listings[i].project_id as int,
            ).owner
    }

    /// A listing is open exactly while it still has credits.
    pub open spec fn listings_flagged(self) -> bool {
        forall|i: int|
            0 <= i < self.listings.len() ==> ((#[trigger] self.listings[i]).active
                <==> self.listings[i].remaining > 0)
    }

    /// Nothing exists before initialization, and every listing, holding and
    /// certificate refers to an existing project.
    pub open spec fn references_valid(self) -> bool {
        &&& self.config is None ==> self.projects.len() == 0
        &&& forall|i: int|
            0 <= i < self.listings.len() ==> self.has_project(
                (#[trigger] self.listings[i]).project_id as int,
            )
        &&& forall|i: int|
            0 <= i < self.holdings.len() ==> self.has_project(
                (#[trigger] self.holdings[i]).project_id as int,
            )
        &&& forall|i: int|
            0 <= i < self.retirements.len() ==> self.has_project(
                (#[trigger] self.retirements[i]).project_id as int,
            )
    }

    /// The invariant that every operation keeps.
    pub open spec fn wf(self) -> bool {
        &&& self.references_valid()
        &&& unique_keys(self.holdings)
        &&& self.listings_flagged()
        &&& self.credits_conserved()
        &&& self.retirements_certified()
        &&& self.unlisted_within_issued()
        &&& self.available_is_owner_balance()
        &&& self.listings_by_owner()
    }

    /// How the registry may change from `self` to `next`: the configuration
    /// never changes once set; projects, listings and certificates are never
    /// removed; a project's metadata and owner never change, and its issued
    /// and retired totals never decrease; a listing's project, seller and
    /// price never change and a closed listing stays as it is; certificates
    /// never change; holdings are never removed and each keeps its position
    /// and its (holder, project) key.
    pub open spec fn evolves_to(self, next: Self) -> bool {
        &&& self.config is Some ==> next.config == self.config
        &&& self.projects.len() <= next.projects.len()
        &&& forall|k: int|
            0 <= k < self.projects.len() ==> {
                let p = #[trigger] self.projects[k];
                let q = next.projects[k];
                &&& q.owner == p.owner
                &&& q.name == p.name
                &&& q.region == p.region
                &&& q.project_type == p.project_type
                &&& q.vintage == p.vintage
                &&& q.total_issued >= p.total_issued
                &&& q.retired >= p.retired
            }
        &&& self.listings.len() <= next.listings.len()
        &&& forall|i: int|
            0 <= i < self.listings.len() ==> {
                let l = #[trigger] self.listings[i];
                let m = next.listings[i];
                &&& m.project_id == l.project_id
                &&& m.seller == l.seller
                &&& m.price_per_credit == l.price_per_credit
                &&& !l.active ==> m == l
            }
        &&& self.retirements.is_prefix_of(next.retirements)
        &&& self.holdings.len() <= next.holdings.len()
        &&& forall|j: int|
            0 <= j < self.holdings.len() ==> (#[trigger] next.holdings[j]).holder
                == self.holdings[j].holder && next.holdings[j].project_id
                == self.holdings[j].project_id
    }
}

/// Where `s` refers only to existing projects and its listings are offered
/// by project owners, so does `t`, when owners stay, and every listing,
/// holding and certificate of `t` is either the old one at its position (as
/// far as project and seller go) or one for the existing project `pid`, a
/// listing of which is offered by `pid`'s owner.
proof fn lemma_references_kept(s: RegistryView, t: RegistryView, pid: int)
    requires
        s.references_valid(),
        s.listings_by_owner(),
        t.has_project(pid),
        s.projects.len() <= t.projects.len(),
        t.config is None ==> t.projects.len() == 0,
        forall|k: int| 0 <= k < s.projects.len() ==> (#[trigger] t.projects[k]).owner == s.projects[k].owner,
        forall|i: int|
            0 <= i < t.listings.len() ==> ((i < s.listings.len() && (#[trigger] t.listings[i]).project_id
                == s.listings[i].project_id && t.listings[i].seller == s.listings[i].seller) || (
            t.listings[i].project_id == pid && t.listings[i].seller == t.project(pid).owner)),
        forall|i: int|
            0 <= i < t.holdings.len() ==> (#[trigger] t.holdings[i]).project_id == pid || (i
                < s.holdings.len() && t.holdings[i].project_id == s.holdings[i].project_id),
        forall|i: int|
            0 <= i < t.retirements.len() ==> (#[trigger] t.retirements[i]).project_id == pid || (i
                < s.retirements.len() && t.retirements[i].project_id == s.retirements[i].project_id),
    ensures
        t.references_valid(),
        t.listings_by_owner(),
{
    assert forall|i: int| 0 <= i < t.listings.len() implies t.has_project(
        (#[trigger] t.listings[i]).project_id as int,
    ) && t.listings[i].seller == t.project(t.listings[i].project_id as int).owner by {
        if !(t.listings[i].project_id == pid && t.listings[i].seller == t.project(pid).owner) {
            let q = s.listings[i].project_id as int;
            assert(s.has_project(q));
            assert(t.projects[q - 1].owner == s.projects[q - 1].owner);
        }
    }
    assert forall|i: int| 0 <= i < t.holdings.len() implies t.has_project(
        (#[trigger] t.holdings[i]).project_id as int,
    ) by {
        if t.holdings[i].project_id != pid {
            assert(s.has_project(s.holdings[i].project_id as int));
        }
    }
    assert forall|i: int| 0 <= i < t.retirements.len() implies t.has_project(
        (#[trigger] t.retirements[i]).project_id as int,
    ) by {
        if t.retirements[i].project_id != pid {
            assert(s.has_project(s.retirements[i].project_id as int));
        }
    }
}

/// An operation that one party must authorize, with the arguments that
/// decide which party that is.
pub enum Operation {
    /// `create_project`: the admin.
    CreateProject,
    /// `issue_credits`: the verifier.
    IssueCredits,
    /// `list_credits`: the owner of the project.
    ListCredits { project_id: u64, amount: u128 },
    /// `buy_credits`: the buyer.
    BuyCredits { buyer: Address },
    /// `cancel_listing`: the seller of the listing.
    CancelListing { listing_id: u64 },
    /// `retire_credits`: the retiree.
    RetireCredits { retiree: Address },
}

/// The whole state of a carbon registry.
pub struct CarbonRegistry {
    pub config: Option<Config>,
    pub projects: Vec<Project>,
    pub listings: Vec<Listing>,
    pub retirements: Vec<Retirement>,
    pub holdings: Vec<Holding>,
}

impl View for CarbonRegistry {
    type V = RegistryView;

    open spec fn view(&self) -> RegistryView {
        RegistryView {
            config: match self.config {
                Some(c) => Some(c@),
                None => None,
            },
            projects: self.projects@.map_values(|p: Project| p@),
            listings: self.listings@.map_values(|l: Listing| l@),
            retirements: self.retirements@.map_values(|r: Retirement| r@),
            holdings: holdings_view(self.holdings@),
        }
    }
}

/// Whether a metadata string is longer than allowed.
pub open spec fn too_long(s: Seq<u8>) -> bool {
    s.len() > MAX_STR_LEN
}

/// The id the next entity of a kind gets, where `count` of them exist: the
/// counters start at 1 and must still be able to advance past the new id.
fn next_id(initialized: bool, count: usize) -> (r: Result<u64, Error>)
    ensures
        !initialized ==> r == Err::<u64, Error>(Error::NotInitialized),
        initialized && count + 1 >= u64::MAX ==> r == Err::<u64, Error>(Error::Overflow),
        initialized && count + 1 < u64::MAX ==> r == Ok::<u64, Error>((count + 1) as u64),
{
    if !initialized {
        return Err(Error::NotInitialized);
    }
    let n: u64 = count as u64;
    if n >= u64::MAX - 1 {
        return Err(Error::Overflow);
    }
    Ok(n + 1)
}

/// The position of the entity with id `id` among `len` of them, if it exists.
fn index_of(id: u64, len: usize) -> (r: Option<usize>)
    ensures
        match r {
            Some(k) => 1 <= id <= len && k == id - 1,
            None => !(1 <= id <= len),
        },
{
    if id == 0 || id > len as u64 {
        None
    } else {
        Some((id - 1) as usize)
    }
}

impl CarbonRegistry {
    /// A registry that has not been initialized yet.
    pub fn new() -> (r: Self)
        ensures
            r@.config is None,
            r@.projects.len() == 0,
            r@.listings.len() == 0,
            r@.retirements.len() == 0,
            r@.holdings.len() == 0,
            r@.wf(),
    {
        let r = CarbonRegistry {
            config: None,
            projects: Vec::new(),
            listings: Vec::new(),
            retirements: Vec::new(),
            holdings: Vec::new(),
        };
        assert(r@.projects =~= Seq::<ProjectView>::empty());
        assert(r@.listings =~= Seq::<ListingView>::empty());
        assert(r@.retirements =~= Seq::<RetirementView>::empty());
        assert(r@.holdings =~= Seq::<HoldingView>::empty());
        r
    }

    /// One-time bootstrap. Sets the admin, the verifier and the stablecoin
    /// token that purchases are paid in.
    pub fn initialize(&mut self, admin: Address, verifier: Address, usdc: Address) -> (r: Result<(), Error>)
        ensures
            old(self)@.config is Some ==> r == Err::<(), Error>(Error::AlreadyInitialized)
                && final(self)@ == old(self)@,
            old(self)@.config is None ==> r == Ok::<(), Error>(()) && final(self)@ == (RegistryView {
                config: Some(ConfigView { admin: admin@, verifier: verifier@, usdc: usdc@ }),
                ..old(self)@
            }),
            old(self)@.wf() ==> final(self)@.wf(),
            old(self)@.evolves_to(final(self)@),
    {
        if self.config.is_some() {
            return Err(Error::AlreadyInitialized);
        }
        self.config = Some(Config { admin, verifier, usdc });
        Ok(())
    }

    /// The admin address.
    pub fn admin_address(&self) -> (r: Result<Address, Error>)
        ensures
            match self@.config {
                Some(c) => r matches Ok(a) && a@ == c.admin,
                None => r == Err::<Address, Error>(Error::NotInitialized),
            },
    {
        match &self.config {
            Some(c) => Ok(c.admin.clone()),
            None => Err(Error::NotInitialized),
        }
    }

    /// The verifier address.
    pub fn verifier_address(&self) -> (r: Result<Address, Error>)
        ensures
            match self@.config {
                Some(c) => r matches Ok(a) && a@ == c.verifier,
                None => r == Err::<Address, Error>(Error::NotInitialized),
            },
    {
        match &self.config {
            Some(c) => Ok(c.verifier.clone()),
            None => Err(Error::NotInitialized),
        }
    }

    /// The address of the stablecoin token contract.
    pub fn usdc_address(&self) -> (r: Result<Address, Error>)
        ensures
            match self@.config {
                Some(c) => r matches Ok(a) && a@ == c.usdc,
                None => r == Err::<Address, Error>(Error::NotInitialized),
            },
    {
        match &self.config {
            Some(c) => Ok(c.usdc.clone()),
            None => Err(Error::NotInitialized),
        }
    }

    /// The party that must authorize `op`, or the error with which the
    /// operation fails before it asks for that authorization.
    pub fn required_signer(&self, op: &Operation) -> (r: Result<Address, Error>)
        ensures
            match op {
                Operation::CreateProject => match self@.config {
                    Some(c) => r matches Ok(a) && a@ == c.admin,
                    None => r == Err::<Address, Error>(Error::NotInitialized),
                },
                Operation::IssueCredits => match self@.config {
                    Some(c) => r matches Ok(a) && a@ == c.verifier,
                    None => r == Err::<Address, Error>(Error::NotInitialized),
                },
                Operation::ListCredits { project_id, amount } => if *amount == 0 {
                    r == Err::<Address, Error>(Error::InvalidAmount)
                } else if !self@.has_project(*project_id as int) {
                    r == Err::<Address, Error>(Error::ProjectNotFound)
                } else {
                    r matches Ok(a) && a@ == self@.project(*project_id as int).owner
                },
                Operation::BuyCredits { buyer } => r matches Ok(a) && a@ == buyer@,
                Operation::CancelListing { listing_id } => if !self@.has_listing(*listing_id as int) {
                    r == Err::<Address, Error>(Error::ListingNotFound)
                } else {
                    r matches Ok(a) && a@ == self@.listing(*listing_id as int).seller
                },
                Operation::RetireCredits { retiree } => r matches Ok(a) && a@ == retiree@,
            },
    {
        match op {
            Operation::CreateProject => self.admin_address(),
            Operation::IssueCredits => self.verifier_address(),
            Operation::ListCredits { project_id, amount } => {
                if *amount == 0 {
                    return Err(Error::InvalidAmount);
                }
                match index_of(*project_id, self.projects.len()) {
                    Some(k) => Ok(self.projects[k].owner.clone()),
                    None => Err(Error::ProjectNotFound),
                }
            },
            Operation::BuyCredits { buyer } => Ok(buyer.clone()),
            Operation::CancelListing { listing_id } => match index_of(*listing_id, self.listings.len()) {
                Some(k) => Ok(self.listings[k].seller.clone()),
                None => Err(Error::ListingNotFound),
            },
            Operation::RetireCredits { retiree } => Ok(retiree.clone()),
        }
    }

    /// The project with id `project_id`.
    pub fn get_project(&self, project_id: u64) -> (r: Result<Project, Error>)
        ensures
            match r {
                Ok(p) => self@.has_project(project_id as int) && p@ == self@.project(project_id as int),
                Err(e) => !self@.has_project(project_id as int) && e == Error::ProjectNotFound,
            },
    {
        match index_of(project_id, self.projects.len()) {
            Some(k) => Ok(self.projects[k].clone()),
            None => Err(Error::ProjectNotFound),
        }
    }

    /// The listing with id `listing_id`.
    pub fn get_listing(&self, listing_id: u64) -> (r: Result<Listing, Error>)
        ensures
            match r {
                Ok(l) => self@.has_listing(listing_id as int) && l@ == self@.listing(listing_id as int),
                Err(e) => !self@.has_listing(listing_id as int) && e == Error::ListingNotFound,
            },
    {
        match index_of(listing_id, self.listings.len()) {
            Some(k) => Ok(self.listings[k].clone()),
            None => Err(Error::ListingNotFound),
        }
    }

    /// The retirement certificate with id `retirement_id`.
    pub fn get_retirement(&self, retirement_id: u64) -> (r: Result<Retirement, Error>)
        ensures
            match r {
                Ok(c) => self@.has_retirement(retirement_id as int) && c@ == self@.retirement(
                    retirement_id as int,
                ),
                Err(e) => !self@.has_retirement(retirement_id as int) && e == Error::RetirementNotFound,
            },
    {
        match index_of(retirement_id, self.retirements.len()) {
            Some(k) => Ok(self.retirements[k].clone()),
            None => Err(Error::RetirementNotFound),
        }
    }

    /// The credits `holder` owns for project `project_id` (0 where it owns
    /// none).
    pub fn balance_of(&self, holder: Address, project_id: u64) -> (r: u128)
        ensures
            r == self@.balance(holder@, project_id as int),
    {
        balance_of_in(&self.holdings, &holder, project_id)
    }


    /// The admin registers a new project, owned by the admin. Credits are
    /// issued for it later by the verifier. Returns the new project's id.
    pub fn create_project(
        &mut self,
        name: Vec<u8>,
        region: Vec<u8>,
        project_type: Vec<u8>,
        vintage: u32,
    ) -> (r: Result<u64, Error>)
        ensures
            ({
                let s = old(self)@;
                let t = final(self)@;
                let long = too_long(name@) || too_long(region@) || too_long(project_type@);
                &&& s.config is None ==> r == Err::<u64, Error>(Error::NotInitialized)
                &&& s.config is Some && long ==> r == Err::<u64, Error>(Error::MetadataTooLong)
                &&& s.config is Some && !long && s.projects.len() + 1 >= u64::MAX ==> r == Err::<
                    u64,
                    Error,
                >(Error::Overflow)
                &&& s.config is Some && !long && s.projects.len() + 1 < u64::MAX ==> {
                    &&& r == Ok::<u64, Error>((s.projects.len() + 1) as u64)
                    &&& t == (RegistryView {
                        projects: s.projects.push(
                            ProjectView {
                                owner: s.config.unwrap().admin,
                                name: name@,
                                region: region@,
                                project_type: project_type@,
                                vintage,
                                total_issued: 0,
                                available: 0,
                                retired: 0,
                            },
                        ),
                        ..s
                    })
                }
                &&& r is Err ==> t == s
                &&& s.wf() ==> t.wf()
                &&& s.evolves_to(t)
            }),
    {
        let admin = match self.admin_address() {
            Ok(a) => a,
            Err(e) => return Err(e),
        };
        if name.len() > MAX_STR_LEN || region.len() > MAX_STR_LEN || project_type.len() > MAX_STR_LEN {
            return Err(Error::MetadataTooLong);
        }
        let id = match next_id(true, self.projects.len()) {
            Ok(id) => id,
            Err(e) => return Err(e),
        };
        let ghost s = self@;
        let project = Project {
            owner: admin,
            name,
            region,
            project_type,
            vintage,
            total_issued: 0,
            available: 0,
            retired: 0,
        };
        self.projects.push(project);
        proof {
            let t = self@;
            assert(t.projects =~= s.projects.push(project@));
            assert(t == (RegistryView { projects: s.projects.push(project@), ..s }));
            let n = s.projects.len() as int;
            if s.wf() {
                lemma_references_kept(s, t, n + 1);
                assert forall|j: int| 0 <= j < s.holdings.len() implies (#[trigger] s.holdings[j]).project_id != n + 1 by {
                    assert(s.has_project(s.holdings[j].project_id as int));
                }
                assert forall|j: int| 0 <= j < s.listings.len() implies (#[trigger] s.listings[j]).project_id != n + 1 by {
                    assert(s.has_project(s.listings[j].project_id as int));
                }
                assert forall|j: int| 0 <= j < s.retirements.len() implies (#[trigger] s.retirements[j]).project_id != n + 1 by {
                    assert(s.has_project(s.retirements[j].project_id as int));
                }
                lemma_held_none(s.holdings, n + 1);
                lemma_listed_none(s.listings, n + 1);
                lemma_certified_none(s.retirements, n + 1);
                assert forall|j: int| 0 <= j < s.holdings.len() implies !key_is(
                    #[trigger] s.holdings[j],
                    project@.owner,
                    n + 1,
                ) by {
                    assert(s.has_project(s.holdings[j].project_id as int));
                }
                lemma_balance_none(s.holdings, project@.owner, n + 1);
                assert(t.projects[n] == project@);
                assert forall|k: int| 0 <= k < t.projects.len() implies (#[trigger] t.projects[k]).available
                    == t.balance(t.projects[k].owner, k + 1) by {
                    if k < n {
                        assert(t.projects[k] == s.projects[k]);
                    }
                }
                assert forall|k: int| 0 <= k < t.projects.len() implies (#[trigger] t.projects[k]).total_issued
                    == t.held(k + 1) + t.listed(k + 1) + t.projects[k].retired by {
                    if k < n {
                        assert(t.projects[k] == s.projects[k]);
                    }
                }
                assert forall|k: int| 0 <= k < t.projects.len() implies (#[trigger] t.projects[k]).retired
                    == t.certified(k + 1) by {
                    if k < n {
                        assert(t.projects[k] == s.projects[k]);
                    }
                }
                assert forall|k: int| 0 <= k < t.projects.len() implies (#[trigger] t.projects[k]).available
                    + t.listed(k + 1) <= t.projects[k].total_issued by {
                    if k < n {
                        assert(t.projects[k] == s.projects[k]);
                    }
                }
            }
            assert(s.retirements.is_prefix_of(t.retirements));
        }
        Ok(id)
    }


    /// The verifier issues `amount` credits for an existing project. The new
    /// credits go to the project owner's balance and to the project's
    /// `available` pool.
    pub fn issue_credits(&mut self, project_id: u64, amount: u128) -> (r: Result<(), Error>)
        ensures
            ({
                let s = old(self)@;
                let t = final(self)@;
                let pid = project_id as int;
                let p = s.project(pid);
                let found = s.config is Some && amount > 0 && s.has_project(pid);
                let overflow = p.total_issued + amount > u128::MAX || p.available + amount
                    > u128::MAX || s.balance(p.owner, pid) + amount > u128::MAX;
                &&& s.config is None ==> r == Err::<(), Error>(Error::NotInitialized)
                &&& s.config is Some && amount == 0 ==> r == Err::<(), Error>(Error::InvalidAmount)
                &&& s.config is Some && amount > 0 && !s.has_project(pid) ==> r == Err::<(), Error>(
                    Error::ProjectNotFound,
                )
                &&& found && overflow ==> r == Err::<(), Error>(Error::Overflow)
                &&& found && !overflow ==> {
                    &&& r == Ok::<(), Error>(())
                    &&& t.config == s.config
                    &&& t.listings == s.listings
                    &&& t.retirements == s.retirements
                    &&& t.projects == s.projects.update(
                        pid - 1,
                        ProjectView {
                            total_issued: (p.total_issued + amount) as u128,
                            available: (p.available + amount) as u128,
                            ..p
                        },
                    )
                    &&& s.balance_moved(t, p.owner, pid, amount as int)
                    &&& layout_kept(s.holdings, t.holdings, p.owner, pid)
                    &&& s.sums_moved(t, pid, amount as int, 0, 0)
                }
                &&& r is Err ==> t == s
                &&& s.wf() ==> t.wf()
                &&& s.evolves_to(t)
            }),
    {
        if self.config.is_none() {
            return Err(Error::NotInitialized);
        }
        if amount == 0 {
            return Err(Error::InvalidAmount);
        }
        let k = match index_of(project_id, self.projects.len()) {
            Some(k) => k,
            None => return Err(Error::ProjectNotFound),
        };
        let mut project = self.projects[k].clone();
        let total = match project.total_issued.checked_add(amount) {
            Some(v) => v,
            None => return Err(Error::Overflow),
        };
        let available = match project.available.checked_add(amount) {
            Some(v) => v,
            None => return Err(Error::Overflow),
        };
        project.total_issued = total;
        project.available = available;
        let ghost s = self@;
        match credit_balance(&mut self.holdings, &project.owner, project_id, amount) {
            Ok(()) => {},
            Err(e) => return Err(e),
        }
        self.projects.set(k, project);
        proof {
            let t = self@;
            assert(t.projects =~= s.projects.update(k as int, project@));
            assert(t.listings == s.listings);
            assert(t.retirements == s.retirements);
            assert(s.balance_moved(t, project@.owner, project_id as int, amount as int));
            if s.wf() {
                lemma_references_kept(s, t, project_id as int);
                assert forall|q: int| 0 <= q < t.projects.len() implies {
                    &&& (#[trigger] t.projects[q]).total_issued == t.held(q + 1) + t.listed(q + 1)
                        + t.projects[q].retired
                    &&& t.projects[q].available + t.listed(q + 1) <= t.projects[q].total_issued
                    &&& t.projects[q].retired == t.certified(q + 1)
                    &&& t.projects[q].available == t.balance(t.projects[q].owner, q + 1)
                } by {
                    assert(s.projects[q].total_issued == s.held(q + 1) + s.listed(q + 1) + s.projects[q].retired);
                    assert(s.projects[q].available + s.listed(q + 1) <= s.projects[q].total_issued);
                    assert(s.projects[q].retired == s.certified(q + 1));
                    assert(s.projects[q].available == s.balance(s.projects[q].owner, q + 1));
                    assert(t.balance(t.projects[q].owner, q + 1) == s.balance(t.projects[q].owner, q + 1)
                        + if t.projects[q].owner == project@.owner && q + 1 == project_id {
                        amount as int
                    } else {
                        0
                    });
                }
            }
            assert(s.retirements.is_prefix_of(t.retirements));
        }
        Ok(())
    }


    /// The project owner lists `amount` of its available credits for sale at
    /// `price_per_credit` (in the payment token's smallest unit). The credits
    /// move out of the owner's balance into escrow under the listing. Returns
    /// the new listing's id.
    pub fn list_credits(&mut self, project_id: u64, price_per_credit: u128, amount: u128) -> (r:
        Result<u64, Error>)
        ensures
            ({
                let s = old(self)@;
                let t = final(self)@;
                let pid = project_id as int;
                let p = s.project(pid);
                let found = amount > 0 && s.has_project(pid);
                let funded = found && p.available >= amount && s.balance(p.owner, pid) >= amount;
                &&& amount == 0 ==> r == Err::<u64, Error>(Error::InvalidAmount)
                &&& amount > 0 && !s.has_project(pid) ==> r == Err::<u64, Error>(Error::ProjectNotFound)
                &&& found && p.available < amount ==> r == Err::<u64, Error>(Error::InsufficientAvailable)
                &&& found && p.available >= amount && s.balance(p.owner, pid) < amount ==> r == Err::<
                    u64,
                    Error,
                >(Error::InsufficientBalance)
                &&& funded && s.config is None ==> r == Err::<u64, Error>(Error::NotInitialized)
                &&& funded && s.config is Some && s.listings.len() + 1 >= u64::MAX ==> r == Err::<
                    u64,
                    Error,
                >(Error::Overflow)
                &&& funded && s.config is Some && s.listings.len() + 1 < u64::MAX ==> {
                    &&& r == Ok::<u64, Error>((s.listings.len() + 1) as u64)
                    &&& t.config == s.config
                    &&& t.retirements == s.retirements
                    &&& t.projects == s.projects.update(
                        pid - 1,
                        ProjectView { available: (p.available - amount) as u128, ..p },
                    )
                    &&& t.listings == s.listings.push(
                        ListingView {
                            project_id,
                            seller: p.owner,
                            price_per_credit,
                            remaining: amount,
                            active: true,
                        },
                    )
                    &&& s.balance_moved(t, p.owner, pid, -amount)
                    &&& layout_kept(s.holdings, t.holdings, p.owner, pid)
                    &&& s.sums_moved(t, pid, -amount, amount as int, 0)
                }
                &&& r is Err ==> t == s
                &&& s.wf() ==> t.wf()
                &&& s.evolves_to(t)
            }),
    {
        if amount == 0 {
            return Err(Error::InvalidAmount);
        }
        let k = match index_of(project_id, self.projects.len()) {
            Some(k) => k,
            None => return Err(Error::ProjectNotFound),
        };
        let mut project = self.projects[k].clone();
        if project.available < amount {
            return Err(Error::InsufficientAvailable);
        }
        if balance_of_in(&self.holdings, &project.owner, project_id) < amount {
            return Err(Error::InsufficientBalance);
        }
        let id = match next_id(self.config.is_some(), self.listings.len()) {
            Ok(id) => id,
            Err(e) => return Err(e),
        };
        let ghost s = self@;
        match debit_balance(&mut self.holdings, &project.owner, project_id, amount) {
            Ok(()) => {},
            Err(e) => return Err(e),
        }
        project.available = project.available - amount;
        let listing = Listing {
            project_id,
            seller: project.owner.clone(),
            price_per_credit,
            remaining: amount,
            active: true,
        };
        self.projects.set(k, project);
        self.listings.push(listing);
        proof {
            let t = self@;
            let pid = project_id as int;
            assert(t.projects =~= s.projects.update(k as int, project@));
            assert(t.listings =~= s.listings.push(listing@));
            assert(t.retirements == s.retirements);
            assert forall|q: int| #![trigger t.held(q)] #![trigger t.listed(q)] #![trigger t.certified(q)]
                t.listed(q) == s.listed(q) + if q == project_id {
                    amount as int
                } else {
                    0
                } by {
                lemma_listed_push(s.listings, listing@, q);
            }
            if s.wf() {
                lemma_references_kept(s, t, project_id as int);
                assert forall|i: int| 0 <= i < t.listings.len() implies ((#[trigger] t.listings[i]).active
                    <==> t.listings[i].remaining > 0) by {
                    if i < s.listings.len() && i != k {
                        assert(t.listings[i] == s.listings[i]);
                    }
                }
                assert forall|q: int| 0 <= q < t.projects.len() implies {
                    &&& (#[trigger] t.projects[q]).total_issued == t.held(q + 1) + t.listed(q + 1)
                        + t.projects[q].retired
                    &&& t.projects[q].available + t.listed(q + 1) <= t.projects[q].total_issued
                    &&& t.projects[q].retired == t.certified(q + 1)
                    &&& t.projects[q].available == t.balance(t.projects[q].owner, q + 1)
                } by {
                    assert(s.projects[q].total_issued == s.held(q + 1) + s.listed(q + 1) + s.projects[q].retired);
                    assert(s.projects[q].available + s.listed(q + 1) <= s.projects[q].total_issued);
                    assert(s.projects[q].retired == s.certified(q + 1));
                    assert(s.projects[q].available == s.balance(s.projects[q].owner, q + 1));
                    assert(t.balance(t.projects[q].owner, q + 1) == s.balance(t.projects[q].owner, q + 1)
                        + if t.projects[q].owner == project@.owner && q + 1 == project_id {
                        -amount
                    } else {
                        0
                    });
                }
            }
            assert(s.retirements.is_prefix_of(t.retirements));
        }
        Ok(id)
    }


    /// `buyer` purchases `amount` credits from an open listing. The credits
    /// move from escrow into the buyer's balance, and the returned payment,
    /// `amount * price_per_credit` of the stablecoin from the buyer to the
    /// seller, is what settles the purchase. Where the buyer owns the
    /// project, the credits it now holds unlisted join its `available` pool.
    pub fn buy_credits(&mut self, buyer: Address, listing_id: u64, amount: u128) -> (r: Result<
        Payment,
        Error,
    >)
        ensures
            ({
                let s = old(self)@;
                let t = final(self)@;
                let lid = listing_id as int;
                let l = s.listing(lid);
                let pid = l.project_id as int;
                let p = s.project(pid);
                let owner_buys = s.has_project(pid) && p.owner == buyer@;
                let open = amount > 0 && s.has_listing(lid) && l.active && l.remaining > 0;
                let total = amount * l.price_per_credit;
                let priced = open && l.remaining >= amount && total <= i128::MAX;
                let fits = s.balance(buyer@, pid) + amount <= u128::MAX;
                &&& amount == 0 ==> r == Err::<Payment, Error>(Error::InvalidAmount)
                &&& amount > 0 && !s.has_listing(lid) ==> r == Err::<Payment, Error>(Error::ListingNotFound)
                &&& amount > 0 && s.has_listing(lid) && (!l.active || l.remaining == 0) ==> r == Err::<
                    Payment,
                    Error,
                >(Error::ListingNotFound)
                &&& open && l.remaining < amount ==> r == Err::<Payment, Error>(Error::InsufficientListed)
                &&& open && l.remaining >= amount && total > i128::MAX ==> r == Err::<Payment, Error>(
                    Error::Overflow,
                )
                &&& priced && s.config is None ==> r == Err::<Payment, Error>(Error::NotInitialized)
                &&& priced && s.config is Some && !fits ==> r == Err::<Payment, Error>(Error::Overflow)
                &&& priced && s.config is Some && fits ==> {
                    &&& r matches Ok(pay) && {
                        &&& pay.token@ == s.config.unwrap().usdc
                        &&& pay.from@ == buyer@
                        &&& pay.to@ == l.seller
                        &&& pay.amount == total
                    }
                    &&& t.config == s.config
                    &&& t.projects == if owner_buys {
                        s.projects.update(
                            pid - 1,
                            ProjectView {
                                available: (s.balance(buyer@, pid) + amount) as u128,
                                ..p
                            },
                        )
                    } else {
                        s.projects
                    }
                    &&& t.retirements == s.retirements
                    &&& t.listings == s.listings.update(
                        lid - 1,
                        ListingView {
                            remaining: (l.remaining - amount) as u128,
                            active: l.remaining - amount > 0,
                            ..l
                        },
                    )
                    &&& s.balance_moved(t, buyer@, pid, amount as int)
                    &&& layout_kept(s.holdings, t.holdings, buyer@, pid)
                    &&& s.sums_moved(t, pid, amount as int, -amount, 0)
                }
                &&& r is Err ==> t == s
                &&& s.wf() ==> t.wf()
                &&& s.evolves_to(t)
            }),
    {
        if amount == 0 {
            return Err(Error::InvalidAmount);
        }
        let k = match index_of(listing_id, self.listings.len()) {
            Some(k) => k,
            None => return Err(Error::ListingNotFound),
        };
        let mut listing = self.listings[k].clone();
        if !listing.active || listing.remaining == 0 {
            return Err(Error::ListingNotFound);
        }
        if listing.remaining < amount {
            return Err(Error::InsufficientListed);
        }
        let total = match amount.checked_mul(listing.price_per_credit) {
            Some(v) => v,
            None => return Err(Error::Overflow),
        };
        if total > i128::MAX as u128 {
            return Err(Error::Overflow);
        }
        let usdc = match self.usdc_address() {
            Ok(a) => a,
            Err(e) => return Err(e),
        };
        let owner_slot: Option<usize> = match index_of(listing.project_id, self.projects.len()) {
            Some(j) => if self.projects[j].owner.same(&buyer) {
                Some(j)
            } else {
                None
            },
            None => None,
        };
        let before = balance_of_in(&self.holdings, &buyer, listing.project_id);
        let ghost s = self@;
        let ghost l = listing@;
        match credit_balance(&mut self.holdings, &buyer, listing.project_id, amount) {
            Ok(()) => {},
            Err(e) => return Err(e),
        }
        listing.remaining = listing.remaining - amount;
        if listing.remaining == 0 {
            listing.active = false;
        }
        let seller = listing.seller.clone();
        self.listings.set(k, listing);
        match owner_slot {
            Some(j) => {
                let mut project = self.projects[j].clone();
                project.available = before + amount;
                self.projects.set(j, project);
                proof {
                    assert(self@.projects =~= s.projects.update(j as int, project@));
                }
            },
            None => {},
        }
        proof {
            let t = self@;
            let pid = l.project_id as int;
            assert(t.listings =~= s.listings.update(k as int, listing@));
            assert(t.retirements == s.retirements);
            assert forall|q: int| #![trigger t.held(q)] #![trigger t.listed(q)] #![trigger t.certified(q)]
                t.listed(q) == s.listed(q) + if q == pid {
                    -amount
                } else {
                    0
                } by {
                lemma_listed_update(s.listings, k as int, listing@, q);
            }
            if s.wf() {
                assert(s.listings[k as int] == l);
                assert(s.has_project(s.listings[k as int].project_id as int));
                assert(s.has_project(pid));
                lemma_references_kept(s, t, pid);
                assert forall|q: int| 0 <= q < t.projects.len() implies {
                    &&& (#[trigger] t.projects[q]).total_issued == t.held(q + 1) + t.listed(q + 1)
                        + t.projects[q].retired
                    &&& t.projects[q].available + t.listed(q + 1) <= t.projects[q].total_issued
                    &&& t.projects[q].retired == t.certified(q + 1)
                    &&& t.projects[q].available == t.balance(t.projects[q].owner, q + 1)
                } by {
                    assert(s.projects[q].total_issued == s.held(q + 1) + s.listed(q + 1) + s.projects[q].retired);
                    assert(s.projects[q].available + s.listed(q + 1) <= s.projects[q].total_issued);
                    assert(s.projects[q].retired == s.certified(q + 1));
                    assert(s.projects[q].available == s.balance(s.projects[q].owner, q + 1));
                    assert(t.balance(t.projects[q].owner, q + 1) == s.balance(t.projects[q].owner, q + 1)
                        + if t.projects[q].owner == buyer@ && q + 1 == pid {
                        amount as int
                    } else {
                        0
                    });
                }
            }
            assert(s.retirements.is_prefix_of(t.retirements));
        }
        Ok(Payment { token: usdc, from: buyer, to: seller, amount: total as i128 })
    }


    /// The seller cancels an open listing. The listing closes, and the
    /// credits still in escrow go back to the seller's balance and to the
    /// project's `available` pool.
    pub fn cancel_listing(&mut self, listing_id: u64) -> (r: Result<(), Error>)
        ensures
            ({
                let s = old(self)@;
                let t = final(self)@;
                let lid = listing_id as int;
                let l = s.listing(lid);
                let pid = l.project_id as int;
                let p = s.project(pid);
                let open = s.has_listing(lid) && l.active;
                let closed = ListingView { remaining: 0, active: false, ..l };
                let overflow = p.available + l.remaining > u128::MAX || s.balance(l.seller, pid)
                    + l.remaining > u128::MAX;
                &&& !s.has_listing(lid) ==> r == Err::<(), Error>(Error::ListingNotFound)
                &&& s.has_listing(lid) && !l.active ==> r == Err::<(), Error>(Error::ListingNotFound)
                &&& open && l.remaining > 0 && !s.has_project(pid) ==> r == Err::<(), Error>(
                    Error::ProjectNotFound,
                )
                &&& open && l.remaining > 0 && s.has_project(pid) && overflow ==> r == Err::<
                    (),
                    Error,
                >(Error::Overflow)
                &&& open && l.remaining == 0 ==> r == Ok::<(), Error>(()) && t == (RegistryView {
                    listings: s.listings.update(lid - 1, closed),
                    ..s
                })
                &&& open && l.remaining > 0 && s.has_project(pid) && !overflow ==> {
                    &&& r == Ok::<(), Error>(())
                    &&& t.config == s.config
                    &&& t.retirements == s.retirements
                    &&& t.listings == s.listings.update(lid - 1, closed)
                    &&& t.projects == s.projects.update(
                        pid - 1,
                        ProjectView { available: (p.available + l.remaining) as u128, ..p },
                    )
                    &&& s.balance_moved(t, l.seller, pid, l.remaining as int)
                    &&& layout_kept(s.holdings, t.holdings, l.seller, pid)
                    &&& s.sums_moved(t, pid, l.remaining as int, -l.remaining, 0)
                }
                &&& r is Err ==> t == s
                &&& s.wf() ==> t.wf()
                &&& s.evolves_to(t)
            }),
    {
        let k = match index_of(listing_id, self.listings.len()) {
            Some(k) => k,
            None => return Err(Error::ListingNotFound),
        };
        let mut listing = self.listings[k].clone();
        if !listing.active {
            return Err(Error::ListingNotFound);
        }
        let remaining = listing.remaining;
        let ghost s = self@;
        let ghost l = listing@;
        let ghost mut pj: int = 0;
        if remaining > 0 {
            let j = match index_of(listing.project_id, self.projects.len()) {
                Some(j) => j,
                None => return Err(Error::ProjectNotFound),
            };
            let mut project = self.projects[j].clone();
            let available = match project.available.checked_add(remaining) {
                Some(v) => v,
                None => return Err(Error::Overflow),
            };
            match credit_balance(&mut self.holdings, &listing.seller, listing.project_id, remaining) {
                Ok(()) => {},
                Err(e) => return Err(e),
            }
            project.available = available;
            self.projects.set(j, project);
            proof {
                pj = j as int;
                assert(self@.projects =~= s.projects.update(pj, project@));
            }
        }
        listing.remaining = 0;
        listing.active = false;
        self.listings.set(k, listing);
        proof {
            let t = self@;
            let pid = l.project_id as int;
            assert(t.listings =~= s.listings.update(k as int, listing@));
            assert(t.retirements == s.retirements);
            assert forall|q: int| #![trigger t.held(q)] #![trigger t.listed(q)] #![trigger t.certified(q)]
                t.listed(q) == s.listed(q) + if q == pid {
                    -remaining
                } else {
                    0
                } by {
                lemma_listed_update(s.listings, k as int, listing@, q);
            }
            if remaining == 0 {
                assert(t.projects == s.projects);
                assert(t.holdings == s.holdings);
            }
            if s.wf() {
                assert(s.listings[k as int] == l);
                assert(s.has_project(s.listings[k as int].project_id as int));
                assert(s.has_project(pid));
                lemma_references_kept(s, t, l.project_id as int);
                assert forall|i: int| 0 <= i < t.listings.len() implies ((#[trigger] t.listings[i]).active
                    <==> t.listings[i].remaining > 0) by {
                    if i < s.listings.len() && i != k {
                        assert(t.listings[i] == s.listings[i]);
                    }
                }
                assert forall|q: int| 0 <= q < t.projects.len() implies {
                    &&& (#[trigger] t.projects[q]).total_issued == t.held(q + 1) + t.listed(q + 1)
                        + t.projects[q].retired
                    &&& t.projects[q].available + t.listed(q + 1) <= t.projects[q].total_issued
                    &&& t.projects[q].retired == t.certified(q + 1)
                    &&& t.projects[q].available == t.balance(t.projects[q].owner, q + 1)
                } by {
                    assert(s.projects[q].total_issued == s.held(q + 1) + s.listed(q + 1) + s.projects[q].retired);
                    assert(s.projects[q].available + s.listed(q + 1) <= s.projects[q].total_issued);
                    assert(s.projects[q].retired == s.certified(q + 1));
                    assert(s.projects[q].available == s.balance(s.projects[q].owner, q + 1));
                    assert(t.balance(t.projects[q].owner, q + 1) == s.balance(t.projects[q].owner, q + 1)
                        + if t.projects[q].owner == l.seller && q + 1 == l.project_id {
                        remaining as int
                    } else {
                        0
                    });
                }
            }
            assert(s.retirements.is_prefix_of(t.retirements));
        }
        Ok(())
    }


    /// `retiree` permanently retires `amount` of its credits for a project,
    /// for the stated `reason`, at ledger time `timestamp`. The credits leave
    /// its balance for good (and, where the retiree owns the project, its
    /// `available` pool) and an immutable retirement certificate is minted.
    /// Returns the certificate's id.
    pub fn retire_credits(
        &mut self,
        retiree: Address,
        project_id: u64,
        amount: u128,
        reason: Vec<u8>,
        timestamp: u64,
    ) -> (r: Result<u64, Error>)
        ensures
            ({
                let s = old(self)@;
                let t = final(self)@;
                let pid = project_id as int;
                let p = s.project(pid);
                let found = amount > 0 && !too_long(reason@) && s.has_project(pid);
                let funded = found && s.balance(retiree@, pid) >= amount;
                let fits = funded && p.retired + amount <= u128::MAX;
                &&& amount == 0 ==> r == Err::<u64, Error>(Error::InvalidAmount)
                &&& amount > 0 && too_long(reason@) ==> r == Err::<u64, Error>(Error::MetadataTooLong)
                &&& amount > 0 && !too_long(reason@) && !s.has_project(pid) ==> r == Err::<u64, Error>(
                    Error::ProjectNotFound,
                )
                &&& found && s.balance(retiree@, pid) < amount ==> r == Err::<u64, Error>(
                    Error::InsufficientBalance,
                )
                &&& funded && p.retired + amount > u128::MAX ==> r == Err::<u64, Error>(Error::Overflow)
                &&& fits && s.config is None ==> r == Err::<u64, Error>(Error::NotInitialized)
                &&& fits && s.config is Some && s.retirements.len() + 1 >= u64::MAX ==> r == Err::<
                    u64,
                    Error,
                >(Error::Overflow)
                &&& fits && s.config is Some && s.retirements.len() + 1 < u64::MAX ==> {
                    &&& r == Ok::<u64, Error>((s.retirements.len() + 1) as u64)
                    &&& t.config == s.config
                    &&& t.listings == s.listings
                    &&& t.projects == s.projects.update(
                        pid - 1,
                        ProjectView {
                            retired: (p.retired + amount) as u128,
                            available: if p.owner == retiree@ {
                                (s.balance(retiree@, pid) - amount) as u128
                            } else {
                                p.available
                            },
                            ..p
                        },
                    )
                    &&& t.retirements == s.retirements.push(
                        RetirementView {
                            retiree: retiree@,
                            project_id,
                            amount,
                            reason: reason@,
                            timestamp,
                        },
                    )
                    &&& s.balance_moved(t, retiree@, pid, -amount)
                    &&& layout_kept(s.holdings, t.holdings, retiree@, pid)
                    &&& s.sums_moved(t, pid, -amount, 0, amount as int)
                }
                &&& r is Err ==> t == s
                &&& s.wf() ==> t.wf()
                &&& s.evolves_to(t)
            }),
    {
        if amount == 0 {
            return Err(Error::InvalidAmount);
        }
        if reason.len() > MAX_STR_LEN {
            return Err(Error::MetadataTooLong);
        }
        let k = match index_of(project_id, self.projects.len()) {
            Some(k) => k,
            None => return Err(Error::ProjectNotFound),
        };
        let mut project = self.projects[k].clone();
        let before = balance_of_in(&self.holdings, &retiree, project_id);
        if before < amount {
            return Err(Error::InsufficientBalance);
        }
        let retired = match project.retired.checked_add(amount) {
            Some(v) => v,
            None => return Err(Error::Overflow),
        };
        let id = match next_id(self.config.is_some(), self.retirements.len()) {
            Ok(id) => id,
            Err(e) => return Err(e),
        };
        let ghost s = self@;
        match debit_balance(&mut self.holdings, &retiree, project_id, amount) {
            Ok(()) => {},
            Err(e) => return Err(e),
        }
        project.retired = retired;
        if project.owner.same(&retiree) {
            project.available = before - amount;
        }
        let certificate = Retirement { retiree, project_id, amount, reason, timestamp };
        self.projects.set(k, project);
        self.retirements.push(certificate);
        proof {
            let t = self@;
            let pid = project_id as int;
            assert(t.projects =~= s.projects.update(k as int, project@));
            assert(t.retirements =~= s.retirements.push(certificate@));
            assert(t.listings == s.listings);
            assert forall|q: int| #![trigger t.held(q)] #![trigger t.listed(q)] #![trigger t.certified(q)]
                t.certified(q) == s.certified(q) + if q == pid {
                    amount as int
                } else {
                    0
                } by {
                lemma_certified_push(s.retirements, certificate@, q);
            }
            if s.wf() {
                lemma_references_kept(s, t, pid);
                assert forall|q: int| 0 <= q < t.projects.len() implies {
                    &&& (#[trigger] t.projects[q]).total_issued == t.held(q + 1) + t.listed(q + 1)
                        + t.projects[q].retired
                    &&& t.projects[q].available + t.listed(q + 1) <= t.projects[q].total_issued
                    &&& t.projects[q].retired == t.certified(q + 1)
                    &&& t.projects[q].available == t.balance(t.projects[q].owner, q + 1)
                } by {
                    assert(s.projects[q].total_issued == s.held(q + 1) + s.listed(q + 1) + s.projects[q].retired);
                    assert(s.projects[q].available + s.listed(q + 1) <= s.projects[q].total_issued);
                    assert(s.projects[q].retired == s.certified(q + 1));
                    assert(s.projects[q].available == s.balance(s.projects[q].owner, q + 1));
                    assert(t.balance(t.projects[q].owner, q + 1) == s.balance(t.projects[q].owner, q + 1)
                        + if t.projects[q].owner == retiree@ && q + 1 == pid {
                        -amount
                    } else {
                        0
                    });
                }
            }
            assert(s.retirements.is_prefix_of(t.retirements));
        }
        Ok(id)
    }

}

} // verus!
