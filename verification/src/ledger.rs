//! Per-holder credit balances, kept as a list of holdings with at most one
//! holding per (holder, project) key.

use vstd::prelude::*;
use crate::error::Error;
use crate::model::{
    balance_in, held_in, key_is, layout_kept, lemma_balance_at, lemma_balance_none, lemma_balance_push_other,
    lemma_balance_update_other, lemma_held_push, lemma_held_update, unique_keys,
};
use crate::types::{Address, Holding, HoldingView};

verus! {

/// The models of a list of holdings.
pub open spec fn holdings_view(hs: Seq<Holding>) -> Seq<HoldingView> {
    hs.map_values(|h: Holding| h@)
}

/// The index of the last holding of `holder` for `pid`, if there is one.
fn find_holding(hs: &Vec<Holding>, holder: &Address, pid: u64) -> (r: Option<usize>)
    ensures
        match r {
            Some(i) => {
                &&& i < hs@.len()
                &&& key_is(holdings_view(hs@)[i as int], holder@, pid as int)
                &&& forall|j: int|
                    i < j < hs@.len() ==> !key_is(
                        #[trigger] holdings_view(hs@)[j],
                        holder@,
                        pid as int,
                    )
            },
            None => forall|j: int|
                0 <= j < hs@.len() ==> !key_is(#[trigger] holdings_view(hs@)[j], holder@, pid as int),
        },
{
    let ghost v = holdings_view(hs@);
    let mut found: Option<usize> = None;
    let mut i: usize = 0;
    while i < hs.len()
        invariant
            v == holdings_view(hs@),
            i <= hs@.len(),
            match found {
                Some(k) => {
                    &&& k < i
                    &&& key_is(v[k as int], holder@, pid as int)
                    &&& forall|j: int| k < j < i ==> !key_is(#[trigger] v[j], holder@, pid as int)
                },
                None => forall|j: int| 0 <= j < i ==> !key_is(#[trigger] v[j], holder@, pid as int),
            },
        decreases hs.len() - i,
    {
        if hs[i].project_id == pid && hs[i].holder.same(holder) {
            found = Some(i);
        }
        i = i + 1;
    }
    found
}

/// The balance `holder` owns for `pid`.
pub fn balance_of_in(hs: &Vec<Holding>, holder: &Address, pid: u64) -> (r: u128)
    ensures
        r == balance_in(holdings_view(hs@), holder@, pid as int),
{
    match find_holding(hs, holder, pid) {
        Some(i) => {
            proof {
                lemma_balance_at(holdings_view(hs@), i as int, holder@, pid as int);
            }
            hs[i].amount
        },
        None => {
            proof {
                lemma_balance_none(holdings_view(hs@), holder@, pid as int);
            }
            0
        },
    }
}

/// Facts shared by crediting and debiting: the balance of the key moves by
/// `delta`, all other balances stay, what is held of `pid` moves by `delta`,
/// keys stay unique, and every holding is either an old one or one for `pid`.
pub open spec fn moved_by(
    old_v: Seq<HoldingView>,
    new_v: Seq<HoldingView>,
    holder: Seq<u8>,
    pid: u64,
    delta: int,
) -> bool {
    &&& forall|h: Seq<u8>, q: int|
        #[trigger] balance_in(new_v, h, q) == balance_in(old_v, h, q) + if h == holder && q == pid {
            delta
        } else {
            0
        }
    &&& forall|q: int|
        #[trigger] held_in(new_v, q) == held_in(old_v, q) + if q == pid {
            delta
        } else {
            0
        }
    &&& unique_keys(old_v) ==> unique_keys(new_v)
    &&& forall|j: int|
        0 <= j < new_v.len() ==> (#[trigger] new_v[j]).project_id == pid || (j < old_v.len()
            && new_v[j] == old_v[j])
    &&& layout_kept(old_v, new_v, holder, pid as int)
}

/// Sets the balance of `holder` for `pid` to `amount`, where `found` is the
/// result of looking that key up.
fn set_balance(
    hs: &mut Vec<Holding>,
    found: Option<usize>,
    holder: &Address,
    pid: u64,
    amount: u128,
)
    requires
        match found {
            Some(i) => {
                &&& i < old(hs)@.len()
                &&& key_is(holdings_view(old(hs)@)[i as int], holder@, pid as int)
                &&& forall|j: int|
                    i < j < old(hs)@.len() ==> !key_is(
                        #[trigger] holdings_view(old(hs)@)[j],
                        holder@,
                        pid as int,
                    )
            },
            None => forall|j: int|
                0 <= j < old(hs)@.len() ==> !key_is(
                    #[trigger] holdings_view(old(hs)@)[j],
                    holder@,
                    pid as int,
                ),
        },
    ensures
        moved_by(
            holdings_view(old(hs)@),
            holdings_view(final(hs)@),
            holder@,
            pid,
            amount - balance_in(holdings_view(old(hs)@), holder@, pid as int),
        ),
{
    let ghost old_v = holdings_view(hs@);
    let ghost cur: int;
    match found {
        Some(i) => {
            proof {
                lemma_balance_at(old_v, i as int, holder@, pid as int);
                cur = old_v[i as int].amount as int;
            }
            let e = Holding { holder: hs[i].holder.clone(), project_id: pid, amount };
            hs.set(i, e);
            let ghost new_v = holdings_view(hs@);
            assert(new_v =~= old_v.update(i as int, e@));
            proof {
                lemma_balance_at(new_v, i as int, holder@, pid as int);
                assert forall|h: Seq<u8>, q: int|
                    #[trigger] balance_in(new_v, h, q) == balance_in(old_v, h, q) + if h == holder@
                        && q == pid {
                        amount - cur
                    } else {
                        0
                    } by {
                    if !(h == holder@ && q == pid) {
                        lemma_balance_update_other(old_v, i as int, e@, h, q);
                    }
                }
                assert forall|q: int|
                    #[trigger] held_in(new_v, q) == held_in(old_v, q) + if q == pid {
                        amount - cur
                    } else {
                        0
                    } by {
                    lemma_held_update(old_v, i as int, e@, q);
                }
                assert(unique_keys(old_v) ==> unique_keys(new_v)) by {
                    assert(forall|j: int| 0 <= j < new_v.len() ==> #[trigger] new_v[j].holder == old_v[j].holder
                        && new_v[j].project_id == old_v[j].project_id);
                }
            }
        },
        None => {
            proof {
                lemma_balance_none(old_v, holder@, pid as int);
                cur = 0;
            }
            let e = Holding { holder: holder.clone(), project_id: pid, amount };
            hs.push(e);
            let ghost new_v = holdings_view(hs@);
            assert(new_v =~= old_v.push(e@));
            proof {
                lemma_balance_at(new_v, old_v.len() as int, holder@, pid as int);
                assert forall|h: Seq<u8>, q: int|
                    #[trigger] balance_in(new_v, h, q) == balance_in(old_v, h, q) + if h == holder@
                        && q == pid {
                        amount - cur
                    } else {
                        0
                    } by {
                    if !(h == holder@ && q == pid) {
                        lemma_balance_push_other(old_v, e@, h, q);
                    }
                }
                assert forall|q: int|
                    #[trigger] held_in(new_v, q) == held_in(old_v, q) + if q == pid {
                        amount - cur
                    } else {
                        0
                    } by {
                    lemma_held_push(old_v, e@, q);
                }
                assert(unique_keys(old_v) ==> unique_keys(new_v)) by {
                    assert forall|a: int, b: int|
                        0 <= a < b < new_v.len() && unique_keys(old_v) implies !key_is(
                        #[trigger] new_v[a],
                        new_v[b].holder,
                        #[trigger] new_v[b].project_id as int,
                    ) by {
                        if b == old_v.len() {
                            assert(!key_is(old_v[a], holder@, pid as int));
                        }
                    }
                }
            }
        },
    }
}

/// Adds `amount` to the balance `holder` owns for `pid`, failing with
/// `Overflow` (and changing nothing) where the sum does not fit.
pub fn credit_balance(hs: &mut Vec<Holding>, holder: &Address, pid: u64, amount: u128) -> (r: Result<(), Error>)
    ensures
        r is Err <==> balance_in(holdings_view(old(hs)@), holder@, pid as int) + amount > u128::MAX,
        r is Err ==> r == Err::<(), Error>(Error::Overflow) && final(hs)@ == old(hs)@,
        r is Ok ==> moved_by(holdings_view(old(hs)@), holdings_view(final(hs)@), holder@, pid, amount as int),
{
    let found = find_holding(hs, holder, pid);
    let cur = match found {
        Some(i) => {
            proof {
                lemma_balance_at(holdings_view(hs@), i as int, holder@, pid as int);
            }
            hs[i].amount
        },
        None => {
            proof {
                lemma_balance_none(holdings_view(hs@), holder@, pid as int);
            }
            0
        },
    };
    match cur.checked_add(amount) {
        None => Err(Error::Overflow),
        Some(next) => {
            set_balance(hs, found, holder, pid, next);
            Ok(())
        },
    }
}

/// Subtracts `amount` from the balance `holder` owns for `pid`, failing with
/// `InsufficientBalance` (and changing nothing) where the holder does not
/// own that much.
pub fn debit_balance(hs: &mut Vec<Holding>, holder: &Address, pid: u64, amount: u128) -> (r: Result<(), Error>)
    ensures
        r is Err <==> balance_in(holdings_view(old(hs)@), holder@, pid as int) < amount,
        r is Err ==> r == Err::<(), Error>(Error::InsufficientBalance) && final(hs)@ == old(hs)@,
        r is Ok ==> moved_by(holdings_view(old(hs)@), holdings_view(final(hs)@), holder@, pid, -amount),
{
    let found = find_holding(hs, holder, pid);
    let cur = match found {
        Some(i) => {
            proof {
                lemma_balance_at(holdings_view(hs@), i as int, holder@, pid as int);
            }
            hs[i].amount
        },
        None => {
            proof {
                lemma_balance_none(holdings_view(hs@), holder@, pid as int);
            }
            0
        },
    };
    if cur < amount {
        return Err(Error::InsufficientBalance);
    }
    set_balance(hs, found, holder, pid, cur - amount);
    Ok(())
}

} // verus!
