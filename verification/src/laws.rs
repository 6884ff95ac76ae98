//! The ledger's general laws, stated over the transition specifications
//! that every operation's `ensures` pins it to.

use vstd::prelude::*;
use crate::account::AccountId;
use crate::events::{Error, Success, VestingStatus};
use crate::model::{
    BalanceModel, LedgerModel, balance_wf, ledger_wf, find_balance, find_slice, has_balance,
    sum_amounts, lemma_buckets_partition, lemma_find_balance, lemma_find_balance_push,
    lemma_find_balance_same_addresses, STATUS_LIQUID, STATUS_REQUESTED,
};
use crate::transition::{
    spec_setup, spec_add, spec_new_balance, spec_thaw, spec_thaw_balance, spec_request,
    spec_approve, spec_remove, lemma_new_slices_sum,
};
use vstd::arithmetic::div_mod::{lemma_fundamental_div_mod, lemma_mod_bound};

verus! {

/// In a well-formed ledger, every balance's four totals partition the sum
/// of its slice amounts: frozen + liquid + requested + transferred equals
/// that sum, at all times. (It equals the original amount exactly when the
/// schedule count divides it; see `lemma_even_division`.)
pub proof fn lemma_totals_partition(m: LedgerModel, i: int)
    requires
        ledger_wf(m),
        0 <= i < m.balances.len(),
    ensures
        m.balances[i].frozen + m.balances[i].liquid + m.balances[i].requested
            + m.balances[i].transferred == sum_amounts(m.balances[i].slices),
        sum_amounts(m.balances[i].slices) <= m.balances[i].original,
{
    assert(balance_wf(m.balances[i], m.schedule_count));
    lemma_buckets_partition(m.balances[i].slices);
}

/// A newly added balance's slice amounts sum to the original amount exactly
/// when the schedule count divides it evenly; otherwise the remainder of
/// the division stays outside every bucket.
pub proof fn lemma_even_division(address: AccountId, original: u128, n: u8)
    requires
        n > 0,
    ensures
        sum_amounts(spec_new_balance(address, original, n).slices) == original - (original as int
            % n as int),
        (sum_amounts(spec_new_balance(address, original, n).slices) == original) <==> (
        original as int % n as int == 0),
{
    let per = original / (n as u128);
    lemma_new_slices_sum(n, per);
    lemma_fundamental_div_mod(original as int, n as int);
    lemma_mod_bound(original as int, n as int);
}

/// Slice statuses never go down between two ledgers: every address present
/// in both holds the same number of slices, each at least as far along.
pub open spec fn balance_statuses_le(b1: BalanceModel, b2: BalanceModel) -> bool {
    &&& b1.slices.len() == b2.slices.len()
    &&& forall|j: int|
        0 <= j < b1.slices.len() ==> (#[trigger] b1.slices[j]).status <= b2.slices[j].status
}

/// See `balance_statuses_le`: holds for every address present both before
/// and after.
pub open spec fn statuses_non_decreasing(pre: LedgerModel, post: LedgerModel) -> bool {
    forall|a: AccountId|
        find_balance(pre.balances, a) >= 0 && #[trigger] find_balance(post.balances, a) >= 0
            ==> balance_statuses_le(
            pre.balances[find_balance(pre.balances, a)],
            post.balances[find_balance(post.balances, a)],
        )
}

/// `setup_vesting` never decreases a status: it only removes balances.
pub proof fn lemma_setup_monotone(m: LedgerModel, caller: AccountId, asset_id: u128, n: u8)
    ensures
        statuses_non_decreasing(m, spec_setup(m, caller, asset_id, n).0),
{
    let post = spec_setup(m, caller, asset_id, n).0;
    assert forall|a: AccountId|
        find_balance(m.balances, a) >= 0 && #[trigger] find_balance(post.balances, a) >= 0
        implies balance_statuses_le(
        m.balances[find_balance(m.balances, a)],
        post.balances[find_balance(post.balances, a)],
    ) by {
        lemma_find_balance(post.balances, a);
    }
}

/// `add_vested_balance` never decreases a status: existing balances are
/// untouched and the new one starts all-Frozen.
pub proof fn lemma_add_monotone(m: LedgerModel, caller: AccountId, address: AccountId, amt: u128)
    ensures
        statuses_non_decreasing(m, spec_add(m, caller, address, amt).0),
{
    let post = spec_add(m, caller, address, amt).0;
    assert forall|a: AccountId|
        find_balance(m.balances, a) >= 0 && #[trigger] find_balance(post.balances, a) >= 0
        implies balance_statuses_le(
        m.balances[find_balance(m.balances, a)],
        post.balances[find_balance(post.balances, a)],
    ) by {
        if caller == m.owner && find_balance(m.balances, address) < 0 {
            lemma_find_balance_push(m.balances, spec_new_balance(address, amt, m.schedule_count), a);
            lemma_find_balance(m.balances, a);
        }
    }
}

/// `thaw_vested_balances` never decreases a status: it only moves Frozen
/// slices to Liquid.
pub proof fn lemma_thaw_monotone(m: LedgerModel, caller: AccountId, sn: u8)
    ensures
        statuses_non_decreasing(m, spec_thaw(m, caller, sn).0),
{
    let post = spec_thaw(m, caller, sn).0;
    if caller == m.owner {
        assert forall|i: int| 0 <= i < m.balances.len() implies (
        #[trigger] post.balances[i]).address == m.balances[i].address by {}
        assert forall|a: AccountId|
            find_balance(m.balances, a) >= 0 && #[trigger] find_balance(post.balances, a) >= 0
            implies balance_statuses_le(
            m.balances[find_balance(m.balances, a)],
            post.balances[find_balance(post.balances, a)],
        ) by {
            lemma_find_balance_same_addresses(m.balances, post.balances, a);
            lemma_find_balance(m.balances, a);
            let f = find_balance(m.balances, a);
            assert(post.balances[f] == spec_thaw_balance(m.balances[f], sn));
        }
    }
}

/// `request_transfer` never decreases a status: it only moves one Liquid
/// slice to Requested.
pub proof fn lemma_request_monotone(m: LedgerModel, caller: AccountId, sn: u8, r: AccountId)
    ensures
        statuses_non_decreasing(m, spec_request(m, caller, sn, r).0),
{
    let post = spec_request(m, caller, sn, r).0;
    let i = find_balance(m.balances, caller);
    lemma_find_balance(m.balances, caller);
    if i >= 0 {
        let b = m.balances[i];
        let j = find_slice(b.slices, sn);
        crate::model::lemma_find_slice(b.slices, sn);
        if j >= 0 && b.slices[j].status == STATUS_LIQUID {
            let sl2 = crate::model::SliceModel {
                status: STATUS_REQUESTED,
                recipient: Some(r),
                ..b.slices[j]
            };
            let s2 = b.slices.update(j, sl2);
            assert(post.balances.len() == m.balances.len());
            assert(post.balances[i].slices == s2);
            assert forall|k: int| 0 <= k < m.balances.len() implies (
            #[trigger] post.balances[k]).address == m.balances[k].address by {
                if k != i {
                    assert(post.balances[k] == m.balances[k]);
                }
            }
            assert(balance_statuses_le(b, post.balances[i]));
            assert forall|a: AccountId|
                find_balance(m.balances, a) >= 0 && #[trigger] find_balance(post.balances, a) >= 0
                implies balance_statuses_le(
                m.balances[find_balance(m.balances, a)],
                post.balances[find_balance(post.balances, a)],
            ) by {
                lemma_find_balance_same_addresses(m.balances, post.balances, a);
                lemma_find_balance(m.balances, a);
                let f = find_balance(m.balances, a);
                if f != i {
                    assert(post.balances[f] == m.balances[f]);
                    assert(balance_statuses_le(m.balances[f], post.balances[f]));
                }
            }
        }
    }
}

/// `approve_transfer` never decreases a status: it only moves one Requested
/// slice to Transferred.
pub proof fn lemma_approve_monotone(
    m: LedgerModel,
    caller: AccountId,
    addr: AccountId,
    sn: u8,
    memo: Seq<u8>,
)
    ensures
        statuses_non_decreasing(m, spec_approve(m, caller, addr, sn, memo).0),
{
    let post = spec_approve(m, caller, addr, sn, memo).0;
    if caller == m.owner {
        let i = find_balance(m.balances, addr);
        lemma_find_balance(m.balances, addr);
        if i >= 0 {
            let b = m.balances[i];
            let j = find_slice(b.slices, sn);
            crate::model::lemma_find_slice(b.slices, sn);
            if j >= 0 && b.slices[j].status == STATUS_REQUESTED {
                let sl2 = crate::model::SliceModel {
                    status: crate::model::STATUS_TRANSFERRED,
                    memo,
                    ..b.slices[j]
                };
                let s2 = b.slices.update(j, sl2);
                assert(post.balances.len() == m.balances.len());
                assert(post.balances[i].slices == s2);
                assert forall|k: int| 0 <= k < m.balances.len() implies (
                #[trigger] post.balances[k]).address == m.balances[k].address by {
                    if k != i {
                        assert(post.balances[k] == m.balances[k]);
                    }
                }
                assert(balance_statuses_le(b, post.balances[i]));
                assert forall|a: AccountId|
                    find_balance(m.balances, a) >= 0 && #[trigger] find_balance(post.balances, a)
                        >= 0 implies balance_statuses_le(
                    m.balances[find_balance(m.balances, a)],
                    post.balances[find_balance(post.balances, a)],
                ) by {
                    lemma_find_balance_same_addresses(m.balances, post.balances, a);
                    lemma_find_balance(m.balances, a);
                    let f = find_balance(m.balances, a);
                    if f != i {
                        assert(post.balances[f] == m.balances[f]);
                        assert(balance_statuses_le(m.balances[f], post.balances[f]));
                    }
                }
            }
        }
    }
}

/// `remove_vested_balance` never decreases a status: every surviving
/// balance is carried over unchanged.
pub proof fn lemma_remove_monotone(m: LedgerModel, caller: AccountId, addr: AccountId)
    requires
        ledger_wf(m),
    ensures
        statuses_non_decreasing(m, spec_remove(m, caller, addr).0),
{
    let post = spec_remove(m, caller, addr).0;
    if caller == m.owner {
        let i = find_balance(m.balances, addr);
        lemma_find_balance(m.balances, addr);
        if i >= 0 {
            let last = m.balances.len() - 1;
            assert forall|a: AccountId|
                find_balance(m.balances, a) >= 0 && #[trigger] find_balance(post.balances, a) >= 0
                implies balance_statuses_le(
                m.balances[find_balance(m.balances, a)],
                post.balances[find_balance(post.balances, a)],
            ) by {
                let fp = find_balance(m.balances, a);
                let fq = find_balance(post.balances, a);
                lemma_find_balance(m.balances, a);
                lemma_find_balance(post.balances, a);
                assert(post.balances[fq] == if fq == i {
                    m.balances[last]
                } else {
                    m.balances[fq]
                });
                let src = if fq == i {
                    last
                } else {
                    fq as int
                };
                assert(m.balances[src].address == a);
                assert(m.balances[fp].address == a);
                assert(src == fp);
            }
        }
    }
}

/// Adding the same address twice: whatever the first call did, the second
/// changes nothing and reports VestedBalanceAlreadyExist.
pub proof fn lemma_add_twice(
    m: LedgerModel,
    caller: AccountId,
    address: AccountId,
    amt1: u128,
    amt2: u128,
)
    requires
        caller == m.owner,
    ensures
        spec_add(spec_add(m, caller, address, amt1).0, caller, address, amt2).0 == spec_add(
            m,
            caller,
            address,
            amt1,
        ).0,
        spec_add(spec_add(m, caller, address, amt1).0, caller, address, amt2).1
            == VestingStatus::EmitError(Error::VestedBalanceAlreadyExist),
{
    let m1 = spec_add(m, caller, address, amt1).0;
    if find_balance(m.balances, address) < 0 {
        lemma_find_balance_push(
            m.balances,
            spec_new_balance(address, amt1, m.schedule_count),
            address,
        );
    }
    assert(find_balance(m1.balances, address) >= 0);
}

/// A non-owner calling any owner-gated operation leaves the ledger exactly
/// as it was; the event reports BadOrigin.
pub proof fn lemma_non_owner_noop(
    m: LedgerModel,
    caller: AccountId,
    asset_id: u128,
    n: u8,
    address: AccountId,
    amt: u128,
    sn: u8,
    memo: Seq<u8>,
)
    requires
        caller != m.owner,
    ensures
        spec_setup(m, caller, asset_id, n) == (m, VestingStatus::EmitError(Error::BadOrigin)),
        spec_add(m, caller, address, amt) == (m, VestingStatus::EmitError(Error::BadOrigin)),
        spec_thaw(m, caller, sn) == (m, VestingStatus::EmitError(Error::BadOrigin)),
        spec_approve(m, caller, address, sn, memo) == (
            m,
            VestingStatus::EmitError(Error::BadOrigin),
        ),
        spec_remove(m, caller, address) == (m, VestingStatus::EmitError(Error::BadOrigin)),
{
}

/// Requesting a transfer on a slice that is not Liquid (a Frozen one in
/// particular) changes nothing and reports VestedBalanceScheduleNotLiquid.
pub proof fn lemma_request_not_liquid(m: LedgerModel, caller: AccountId, sn: u8, r: AccountId)
    requires
        find_balance(m.balances, caller) >= 0,
        find_slice(m.balances[find_balance(m.balances, caller)].slices, sn) >= 0,
        m.balances[find_balance(m.balances, caller)].slices[find_slice(
            m.balances[find_balance(m.balances, caller)].slices,
            sn,
        )].status != STATUS_LIQUID,
    ensures
        spec_request(m, caller, sn, r) == (
            m,
            VestingStatus::EmitError(Error::VestedBalanceScheduleNotLiquid),
        ),
{
}

/// Approving a transfer on a slice that is not Requested changes nothing
/// and reports VestedBalanceScheduleNotRequested.
pub proof fn lemma_approve_not_requested(
    m: LedgerModel,
    caller: AccountId,
    addr: AccountId,
    sn: u8,
    memo: Seq<u8>,
)
    requires
        caller == m.owner,
        find_balance(m.balances, addr) >= 0,
        find_slice(m.balances[find_balance(m.balances, addr)].slices, sn) >= 0,
        m.balances[find_balance(m.balances, addr)].slices[find_slice(
            m.balances[find_balance(m.balances, addr)].slices,
            sn,
        )].status != STATUS_REQUESTED,
    ensures
        spec_approve(m, caller, addr, sn, memo) == (
            m,
            VestingStatus::EmitError(Error::VestedBalanceScheduleNotRequested),
        ),
{
}

/// Removing a balance the owner asks for succeeds unconditionally — even a
/// pending Requested slice does not protect it — and afterwards the
/// address holds no balance at all.
pub proof fn lemma_remove_unconditional(m: LedgerModel, caller: AccountId, addr: AccountId)
    requires
        ledger_wf(m),
        caller == m.owner,
        has_balance(m, addr),
    ensures
        spec_remove(m, caller, addr).1 == VestingStatus::EmitSuccess(Success::VestedBalanceRemoved),
        !has_balance(spec_remove(m, caller, addr).0, addr),
        spec_remove(m, caller, addr).0.balances.len() == m.balances.len() - 1,
{
    let i = find_balance(m.balances, addr);
    lemma_find_balance(m.balances, addr);
    let post = spec_remove(m, caller, addr).0;
    let last = m.balances.len() - 1;
    assert forall|k: int| 0 <= k < post.balances.len() implies (
    #[trigger] post.balances[k]).address != addr by {
        assert(post.balances[k] == if k == i {
            m.balances[last]
        } else {
            m.balances[k]
        });
        let src = if k == i {
            last
        } else {
            k
        };
        if src != i {
            assert(m.balances[src].address != m.balances[i].address);
        }
    }
    lemma_find_balance(post.balances, addr);
}

/// `setup_vesting` called by the owner discards every balance
/// unconditionally: the resulting ledger is empty.
pub proof fn lemma_setup_clears(m: LedgerModel, caller: AccountId, asset_id: u128, n: u8)
    requires
        caller == m.owner,
    ensures
        spec_setup(m, caller, asset_id, n).0.balances == Seq::<BalanceModel>::empty(),
        spec_setup(m, caller, asset_id, n).1 == VestingStatus::EmitSuccess(
            Success::VestingSetupSuccess,
        ),
        forall|a: AccountId| !has_balance(spec_setup(m, caller, asset_id, n).0, a),
{
}

} // verus!
