//! Laws of the registry that span operations.
//!
//! `CarbonRegistry::new` establishes `RegistryView::wf` and every operation
//! keeps it (each states `old.wf() ==> new.wf()`); each operation also
//! states `old.evolves_to(new)`. The proof functions here spell out what
//! that gives for every state a registry can reach.

use vstd::prelude::*;
use crate::model::{
    key_is, layout_kept, lemma_balance_at_most_held, unique_keys, lemma_balance_none, lemma_balance_of_unique,
    lemma_listed_nonneg,
};
use crate::registry::RegistryView;

verus! {

/// No double counting: every credit ever issued for a project is, at any
/// time, exactly once either owned by a holder, in escrow under a listing,
/// or retired; and the retired credits are exactly those the project's
/// retirement certificates record. The owner's unlisted pool together with
/// what is on sale never exceeds what was issued.
pub proof fn credits_are_conserved(reg: RegistryView, pid: int)
    requires
        reg.wf(),
        reg.has_project(pid),
    ensures
        reg.project(pid).total_issued == reg.held(pid) + reg.listed(pid) + reg.project(pid).retired,
        reg.project(pid).retired == reg.certified(pid),
        reg.project(pid).available + reg.listed(pid) <= reg.project(pid).total_issued,
{
    assert(reg.projects[pid - 1] == reg.project(pid));
}

/// No holder ever owns more credits of a project than were issued for it
/// and not retired (minus what is in escrow).
pub proof fn balance_within_unretired(reg: RegistryView, holder: Seq<u8>, pid: int)
    requires
        reg.wf(),
        reg.has_project(pid),
    ensures
        reg.balance(holder, pid) + reg.listed(pid) <= reg.project(pid).total_issued - reg.project(
            pid,
        ).retired,
{
    credits_are_conserved(reg, pid);
    lemma_balance_at_most_held(reg.holdings, holder, pid);
    lemma_listed_nonneg(reg.listings, pid);
}

/// A project's `available` pool is exactly what its owner holds of the
/// project, that is, the owner's credits that are not listed.
pub proof fn available_is_owners_unlisted_credits(reg: RegistryView, pid: int)
    requires
        reg.wf(),
        reg.has_project(pid),
    ensures
        reg.project(pid).available == reg.balance(reg.project(pid).owner, pid),
{
    assert(reg.projects[pid - 1] == reg.project(pid));
}

/// Once initialized, the admin, verifier and token stay those that the one
/// successful `initialize` set, whatever operations follow.
pub proof fn configuration_is_permanent(a: RegistryView, b: RegistryView)
    requires
        a.config is Some,
        a.evolves_to(b),
    ensures
        b.config == a.config,
{
}

/// Holdings are one per (holder, project) key, and each holds exactly its
/// key's balance: a holder's balance is the amount of the holding at the one
/// position that has its key, or 0 where no position has it. So the list of
/// holdings, read position by position, gives back every balance.
pub proof fn balances_read_from_holdings(reg: RegistryView, holder: Seq<u8>, pid: int)
    requires
        reg.wf(),
    ensures
        forall|j: int|
            0 <= j < reg.holdings.len() && key_is(#[trigger] reg.holdings[j], holder, pid)
                ==> reg.balance(holder, pid) == reg.holdings[j].amount,
        (forall|j: int| 0 <= j < reg.holdings.len() ==> !key_is(#[trigger] reg.holdings[j], holder, pid))
            ==> reg.balance(holder, pid) == 0,
{
    assert forall|j: int|
        0 <= j < reg.holdings.len() && key_is(#[trigger] reg.holdings[j], holder, pid)
            implies reg.balance(holder, pid) == reg.holdings[j].amount by {
        lemma_balance_of_unique(reg.holdings, j);
    }
    if forall|j: int| 0 <= j < reg.holdings.len() ==> !key_is(#[trigger] reg.holdings[j], holder, pid) {
        lemma_balance_none(reg.holdings, holder, pid);
    }
}

/// When an operation moves the balance of one key by `delta` (as every
/// operation that changes balances states, together with `layout_kept`),
/// the holdings change in place: the holding at each old position keeps its
/// key and gains `delta` exactly where its key is the moved one, and a
/// holding added at the end holds `delta`.
pub proof fn holdings_move_in_place(
    s: RegistryView,
    t: RegistryView,
    holder: Seq<u8>,
    pid: int,
    delta: int,
)
    requires
        unique_keys(s.holdings),
        unique_keys(t.holdings),
        layout_kept(s.holdings, t.holdings, holder, pid),
        s.balance_moved(t, holder, pid, delta),
    ensures
        forall|j: int|
            0 <= j < s.holdings.len() ==> (#[trigger] t.holdings[j]).amount == s.holdings[j].amount
                + if key_is(s.holdings[j], holder, pid) {
                delta
            } else {
                0
            },
        t.holdings.len() == s.holdings.len() + 1 ==> t.holdings.last().amount == delta,
{
    assert forall|j: int| 0 <= j < s.holdings.len() implies (#[trigger] t.holdings[j]).amount
        == s.holdings[j].amount + if key_is(s.holdings[j], holder, pid) {
        delta
    } else {
        0
    } by {
        lemma_balance_of_unique(s.holdings, j);
        lemma_balance_of_unique(t.holdings, j);
        assert(t.balance(s.holdings[j].holder, s.holdings[j].project_id as int) == s.balance(
            s.holdings[j].holder,
            s.holdings[j].project_id as int,
        ) + if key_is(s.holdings[j], holder, pid) {
            delta
        } else {
            0
        });
    }
    if t.holdings.len() == s.holdings.len() + 1 {
        let n = s.holdings.len() as int;
        lemma_balance_of_unique(t.holdings, n);
        lemma_balance_none(s.holdings, holder, pid);
        assert(t.holdings[n] == t.holdings.last());
        assert(t.balance(holder, pid) == s.balance(holder, pid) + delta);
    }
}

/// A listing is open exactly while credits remain under it, so a sold-out
/// or cancelled listing is closed.
pub proof fn listing_open_iff_credits_remain(reg: RegistryView, lid: int)
    requires
        reg.wf(),
        reg.has_listing(lid),
    ensures
        reg.listing(lid).active <==> reg.listing(lid).remaining > 0,
{
    assert(reg.listings[lid - 1] == reg.listing(lid));
}

/// What each operation keeps holds across any sequence of operations: the
/// configuration is fixed once set, projects, listings and certificates are
/// never removed, a project's metadata and owner never change and its issued
/// and retired totals never decrease, closed listings stay closed,
/// retirement certificates never change, and every holding stays at its
/// position with its (holder, project) key.
pub proof fn evolution_composes(a: RegistryView, b: RegistryView, c: RegistryView)
    requires
        a.evolves_to(b),
        b.evolves_to(c),
    ensures
        a.evolves_to(c),
{
    assert forall|k: int| 0 <= k < a.projects.len() implies {
        let p = #[trigger] a.projects[k];
        let q = c.projects[k];
        &&& q.owner == p.owner
        &&& q.name == p.name
        &&& q.region == p.region
        &&& q.project_type == p.project_type
        &&& q.vintage == p.vintage
        &&& q.total_issued >= p.total_issued
        &&& q.retired >= p.retired
    } by {
        assert(b.projects[k] == b.projects[k]);
    }
    assert forall|i: int| 0 <= i < a.listings.len() implies {
        let l = #[trigger] a.listings[i];
        let m = c.listings[i];
        &&& m.project_id == l.project_id
        &&& m.seller == l.seller
        &&& m.price_per_credit == l.price_per_credit
        &&& !l.active ==> m == l
    } by {
        assert(b.listings[i] == b.listings[i]);
    }
    assert forall|i: int| 0 <= i < a.retirements.len() implies #[trigger] c.retirements[i]
        == a.retirements[i] by {
        assert(b.retirements[i] == a.retirements[i]);
    }
}

} // verus!
