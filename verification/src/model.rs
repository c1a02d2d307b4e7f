//! The mathematical model of the registry state: per-holder balances, the
//! per-project sums that the conservation law speaks of, and lemmas on how
//! they change when one entry changes.

use vstd::prelude::*;
use crate::types::{HoldingView, ListingView, RetirementView};

verus! {

/// Whether holding `e` is the one of `holder` for project `pid`.
pub open spec fn key_is(e: HoldingView, holder: Seq<u8>, pid: int) -> bool {
    e.holder == holder && e.project_id == pid
}

/// The balance `holder` owns for project `pid`: the amount of the last
/// holding with that key, or 0 where there is none.
pub open spec fn balance_in(hs: Seq<HoldingView>, holder: Seq<u8>, pid: int) -> u128
    decreases hs.len(),
{
    if hs.len() == 0 {
        0
    } else if key_is(hs.last(), holder, pid) {
        hs.last().amount
    } else {
        balance_in(hs.drop_last(), holder, pid)
    }
}

/// The credits of project `pid` that holders own: the sum of the amounts of
/// all holdings for `pid`.
pub open spec fn held_in(hs: Seq<HoldingView>, pid: int) -> int
    decreases hs.len(),
{
    if hs.len() == 0 {
        0
    } else {
        held_in(hs.drop_last(), pid) + if hs.last().project_id == pid {
            hs.last().amount as int
        } else {
            0
        }
    }
}

/// The credits of project `pid` held in escrow by listings.
pub open spec fn listed_in(ls: Seq<ListingView>, pid: int) -> int
    decreases ls.len(),
{
    if ls.len() == 0 {
        0
    } else {
        listed_in(ls.drop_last(), pid) + if ls.last().project_id == pid {
            ls.last().remaining as int
        } else {
            0
        }
    }
}

/// The credits of project `pid` that retirement certificates account for.
pub open spec fn certified_in(rs: Seq<RetirementView>, pid: int) -> int
    decreases rs.len(),
{
    if rs.len() == 0 {
        0
    } else {
        certified_in(rs.drop_last(), pid) + if rs.last().project_id == pid {
            rs.last().amount as int
        } else {
            0
        }
    }
}

/// No two holdings share a key.
pub open spec fn unique_keys(hs: Seq<HoldingView>) -> bool {
    forall|i: int, j: int|
        0 <= i < j < hs.len() ==> !key_is(#[trigger] hs[i], hs[j].holder, #[trigger] hs[j].project_id as int)
}

/// How the list of holdings may change when the balance of one key,
/// `(holder, pid)`, changes: every holding stays at its position with its
/// key, holdings of other keys keep their amounts, and at most one holding is
/// added, at the end, only for that key and only where it had none.
pub open spec fn layout_kept(old_v: Seq<HoldingView>, new_v: Seq<HoldingView>, holder: Seq<u8>, pid: int) -> bool {
    &&& old_v.len() <= new_v.len() <= old_v.len() + 1
    &&& forall|j: int|
        0 <= j < old_v.len() ==> {
            &&& (#[trigger] new_v[j]).holder == old_v[j].holder
            &&& new_v[j].project_id == old_v[j].project_id
            &&& !key_is(old_v[j], holder, pid) ==> new_v[j] == old_v[j]
        }
    &&& new_v.len() == old_v.len() + 1 ==> {
        &&& key_is(new_v.last(), holder, pid)
        &&& forall|j: int| 0 <= j < old_v.len() ==> !key_is(#[trigger] old_v[j], holder, pid)
    }
}

/// Where keys are unique, the amount of each holding is its key's balance.
pub proof fn lemma_balance_of_unique(hs: Seq<HoldingView>, j: int)
    requires
        unique_keys(hs),
        0 <= j < hs.len(),
    ensures
        balance_in(hs, hs[j].holder, hs[j].project_id as int) == hs[j].amount,
{
    assert forall|x: int| j < x < hs.len() implies !key_is(
        #[trigger] hs[x],
        hs[j].holder,
        hs[j].project_id as int,
    ) by {
        assert(!key_is(hs[j], hs[x].holder, hs[x].project_id as int));
    }
    lemma_balance_at(hs, j, hs[j].holder, hs[j].project_id as int);
}

/// The balance is the amount of the last holding with the key.
pub proof fn lemma_balance_at(hs: Seq<HoldingView>, i: int, holder: Seq<u8>, pid: int)
    requires
        0 <= i < hs.len(),
        key_is(hs[i], holder, pid),
        forall|j: int| i < j < hs.len() ==> !key_is(#[trigger] hs[j], holder, pid),
    ensures
        balance_in(hs, holder, pid) == hs[i].amount,
    decreases hs.len(),
{
    if i < hs.len() - 1 {
        assert(!key_is(hs[hs.len() - 1], holder, pid));
        lemma_balance_at(hs.drop_last(), i, holder, pid);
    }
}

/// Without a holding for the key the balance is 0.
pub proof fn lemma_balance_none(hs: Seq<HoldingView>, holder: Seq<u8>, pid: int)
    requires
        forall|j: int| 0 <= j < hs.len() ==> !key_is(#[trigger] hs[j], holder, pid),
    ensures
        balance_in(hs, holder, pid) == 0,
    decreases hs.len(),
{
    if hs.len() > 0 {
        assert(!key_is(hs[hs.len() - 1], holder, pid));
        lemma_balance_none(hs.drop_last(), holder, pid);
    }
}

/// Changing a holding of another key leaves a balance as it was.
pub proof fn lemma_balance_update_other(
    hs: Seq<HoldingView>,
    i: int,
    x: HoldingView,
    holder: Seq<u8>,
    pid: int,
)
    requires
        0 <= i < hs.len(),
        !key_is(hs[i], holder, pid),
        !key_is(x, holder, pid),
    ensures
        balance_in(hs.update(i, x), holder, pid) == balance_in(hs, holder, pid),
    decreases hs.len(),
{
    let hu = hs.update(i, x);
    if i == hs.len() - 1 {
        assert(hu.drop_last() =~= hs.drop_last());
    } else {
        assert(hu.last() == hs.last());
        assert(hu.drop_last() =~= hs.drop_last().update(i, x));
        lemma_balance_update_other(hs.drop_last(), i, x, holder, pid);
    }
}

/// Appending a holding of another key leaves a balance as it was.
pub proof fn lemma_balance_push_other(hs: Seq<HoldingView>, x: HoldingView, holder: Seq<u8>, pid: int)
    requires
        !key_is(x, holder, pid),
    ensures
        balance_in(hs.push(x), holder, pid) == balance_in(hs, holder, pid),
{
    assert(hs.push(x).drop_last() =~= hs);
}

/// How `held_in` changes when one holding changes.
pub proof fn lemma_held_update(hs: Seq<HoldingView>, i: int, x: HoldingView, pid: int)
    requires
        0 <= i < hs.len(),
    ensures
        held_in(hs.update(i, x), pid) == held_in(hs, pid) - (if hs[i].project_id == pid {
            hs[i].amount as int
        } else {
            0
        }) + (if x.project_id == pid {
            x.amount as int
        } else {
            0
        }),
    decreases hs.len(),
{
    let hu = hs.update(i, x);
    if i == hs.len() - 1 {
        assert(hu.drop_last() =~= hs.drop_last());
    } else {
        assert(hu.drop_last() =~= hs.drop_last().update(i, x));
        lemma_held_update(hs.drop_last(), i, x, pid);
    }
}

/// How `held_in` changes when a holding is appended.
pub proof fn lemma_held_push(hs: Seq<HoldingView>, x: HoldingView, pid: int)
    ensures
        held_in(hs.push(x), pid) == held_in(hs, pid) + (if x.project_id == pid {
            x.amount as int
        } else {
            0
        }),
{
    assert(hs.push(x).drop_last() =~= hs);
}

/// Without holdings for `pid` nothing of it is held.
pub proof fn lemma_held_none(hs: Seq<HoldingView>, pid: int)
    requires
        forall|j: int| 0 <= j < hs.len() ==> (#[trigger] hs[j]).project_id != pid,
    ensures
        held_in(hs, pid) == 0,
    decreases hs.len(),
{
    if hs.len() > 0 {
        assert(hs[hs.len() - 1].project_id != pid);
        lemma_held_none(hs.drop_last(), pid);
    }
}

/// How `listed_in` changes when one listing changes.
pub proof fn lemma_listed_update(ls: Seq<ListingView>, i: int, x: ListingView, pid: int)
    requires
        0 <= i < ls.len(),
    ensures
        listed_in(ls.update(i, x), pid) == listed_in(ls, pid) - (if ls[i].project_id == pid {
            ls[i].remaining as int
        } else {
            0
        }) + (if x.project_id == pid {
            x.remaining as int
        } else {
            0
        }),
    decreases ls.len(),
{
    let lu = ls.update(i, x);
    if i == ls.len() - 1 {
        assert(lu.drop_last() =~= ls.drop_last());
    } else {
        assert(lu.drop_last() =~= ls.drop_last().update(i, x));
        lemma_listed_update(ls.drop_last(), i, x, pid);
    }
}

/// How `listed_in` changes when a listing is appended.
pub proof fn lemma_listed_push(ls: Seq<ListingView>, x: ListingView, pid: int)
    ensures
        listed_in(ls.push(x), pid) == listed_in(ls, pid) + (if x.project_id == pid {
            x.remaining as int
        } else {
            0
        }),
{
    assert(ls.push(x).drop_last() =~= ls);
}

/// Without listings for `pid` nothing of it is listed.
pub proof fn lemma_listed_none(ls: Seq<ListingView>, pid: int)
    requires
        forall|j: int| 0 <= j < ls.len() ==> (#[trigger] ls[j]).project_id != pid,
    ensures
        listed_in(ls, pid) == 0,
    decreases ls.len(),
{
    if ls.len() > 0 {
        assert(ls[ls.len() - 1].project_id != pid);
        lemma_listed_none(ls.drop_last(), pid);
    }
}

/// How `certified_in` changes when a certificate is appended.
pub proof fn lemma_certified_push(rs: Seq<RetirementView>, x: RetirementView, pid: int)
    ensures
        certified_in(rs.push(x), pid) == certified_in(rs, pid) + (if x.project_id == pid {
            x.amount as int
        } else {
            0
        }),
{
    assert(rs.push(x).drop_last() =~= rs);
}

/// Without certificates for `pid` nothing of it is certified.
pub proof fn lemma_certified_none(rs: Seq<RetirementView>, pid: int)
    requires
        forall|j: int| 0 <= j < rs.len() ==> (#[trigger] rs[j]).project_id != pid,
    ensures
        certified_in(rs, pid) == 0,
    decreases rs.len(),
{
    if rs.len() > 0 {
        assert(rs[rs.len() - 1].project_id != pid);
        lemma_certified_none(rs.drop_last(), pid);
    }
}

/// What is listed is never negative.
pub proof fn lemma_listed_nonneg(ls: Seq<ListingView>, pid: int)
    ensures
        listed_in(ls, pid) >= 0,
    decreases ls.len(),
{
    if ls.len() > 0 {
        lemma_listed_nonneg(ls.drop_last(), pid);
    }
}

/// What is held is never negative.
pub proof fn lemma_held_nonneg(hs: Seq<HoldingView>, pid: int)
    ensures
        held_in(hs, pid) >= 0,
    decreases hs.len(),
{
    if hs.len() > 0 {
        lemma_held_nonneg(hs.drop_last(), pid);
    }
}

/// A holder's balance is part of what is held of the project.
pub proof fn lemma_balance_at_most_held(hs: Seq<HoldingView>, holder: Seq<u8>, pid: int)
    ensures
        balance_in(hs, holder, pid) <= held_in(hs, pid),
    decreases hs.len(),
{
    if hs.len() > 0 {
        lemma_held_nonneg(hs.drop_last(), pid);
        lemma_balance_at_most_held(hs.drop_last(), holder, pid);
    }
}

} // verus!
