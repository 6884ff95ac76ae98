use vstd::prelude::*;
use crate::account::AccountId;
use crate::events::{Error, Success, VestingStatus};
use crate::model::{
    BalanceModel, LedgerModel, SliceModel, bucket_total, find_balance, find_slice, sum_amounts,
    slice_wf, balance_wf, ledger_wf, lemma_bucket_le_sum, lemma_find_balance,
    lemma_sum_pointwise_amounts, lemma_find_slice, STATUS_FROZEN, STATUS_LIQUID, STATUS_REQUESTED,
    STATUS_TRANSFERRED,
};
use vstd::arithmetic::div_mod::{lemma_fundamental_div_mod, lemma_mod_bound};

verus! {

/// Totals recomputed from scratch: each of the four totals becomes the sum
/// of the amounts of the slices currently in that status.
pub open spec fn recalc_balance(b: BalanceModel) -> BalanceModel {
    BalanceModel {
        frozen: bucket_total(b.slices, STATUS_FROZEN) as u128,
        liquid: bucket_total(b.slices, STATUS_LIQUID) as u128,
        requested: bucket_total(b.slices, STATUS_REQUESTED) as u128,
        transferred: bucket_total(b.slices, STATUS_TRANSFERRED) as u128,
        ..b
    }
}

/// The `n` freshly created slices of a new balance: numbered 1..=n, each
/// with the same per-slice amount, Frozen, with no recipient and no memo.
pub open spec fn spec_new_slices(n: u8, per: u128) -> Seq<SliceModel> {
    Seq::new(
        n as nat,
        |i: int|
            SliceModel {
                number: (i + 1) as u8,
                amount: per,
                status: STATUS_FROZEN,
                recipient: None,
                memo: Seq::<u8>::empty(),
            },
    )
}

/// `setup_vesting`: owner only. Replaces the asset and the schedule count
/// and discards every balance.
pub open spec fn spec_setup(
    m: LedgerModel,
    caller: AccountId,
    asset_id: u128,
    schedule_count: u8,
) -> (LedgerModel, VestingStatus) {
    if caller != m.owner {
        (m, VestingStatus::EmitError(Error::BadOrigin))
    } else {
        (
            LedgerModel {
                asset_id,
                schedule_count,
                balances: Seq::empty(),
                owner: m.owner,
            },
            VestingStatus::EmitSuccess(Success::VestingSetupSuccess),
        )
    }
}

/// The balance `add_vested_balance` creates: the original amount divided
/// evenly over the slices (integer division, remainder dropped), everything
/// Frozen. The frozen total starts at the sum of the slice amounts, so the
/// four totals partition the slice amounts exactly from the first moment;
/// the undivided remainder stays visible as `original` minus that sum.
pub open spec fn spec_new_balance(address: AccountId, original: u128, n: u8) -> BalanceModel {
    let per = if n == 0 {
        0u128
    } else {
        original / (n as u128)
    };
    let slices = spec_new_slices(n, per);
    BalanceModel {
        address,
        slices,
        original,
        frozen: sum_amounts(slices) as u128,
        liquid: 0,
        requested: 0,
        transferred: 0,
    }
}

/// `add_vested_balance`: owner only; the address must be fresh.
pub open spec fn spec_add(
    m: LedgerModel,
    caller: AccountId,
    address: AccountId,
    original: u128,
) -> (LedgerModel, VestingStatus) {
    if caller != m.owner {
        (m, VestingStatus::EmitError(Error::BadOrigin))
    } else if find_balance(m.balances, address) >= 0 {
        (m, VestingStatus::EmitError(Error::VestedBalanceAlreadyExist))
    } else {
        (
            LedgerModel {
                balances: m.balances.push(spec_new_balance(address, original, m.schedule_count)),
                ..m
            },
            VestingStatus::EmitSuccess(Success::VestedBalanceAdded),
        )
    }
}

/// One slice under `thaw_vested_balances`: a Frozen slice with the matching
/// schedule number becomes Liquid; every other slice is untouched.
pub open spec fn spec_thaw_slice(sl: SliceModel, sn: u8) -> SliceModel {
    if sl.number == sn && sl.status == STATUS_FROZEN {
        SliceModel { status: STATUS_LIQUID, ..sl }
    } else {
        sl
    }
}

/// One balance under `thaw_vested_balances`: matching Frozen slices thawed,
/// then all four totals recomputed.
pub open spec fn spec_thaw_balance(b: BalanceModel, sn: u8) -> BalanceModel {
    recalc_balance(
        BalanceModel {
            slices: Seq::new(b.slices.len(), |i: int| spec_thaw_slice(b.slices[i], sn)),
            ..b
        },
    )
}

/// `thaw_vested_balances`: owner only. Thaws the matching Frozen slice of
/// every balance in the ledger and recomputes every balance's totals.
pub open spec fn spec_thaw(m: LedgerModel, caller: AccountId, sn: u8) -> (
    LedgerModel,
    VestingStatus,
) {
    if caller != m.owner {
        (m, VestingStatus::EmitError(Error::BadOrigin))
    } else {
        (
            LedgerModel {
                balances: Seq::new(
                    m.balances.len(),
                    |i: int| spec_thaw_balance(m.balances[i], sn),
                ),
                ..m
            },
            VestingStatus::EmitSuccess(Success::VestedBalanceScheduleThawed),
        )
    }
}

/// `request_transfer`: self-service, no owner gate. The caller's own Liquid
/// slice with the given schedule number becomes Requested and records the
/// recipient; the balance's totals are recomputed.
pub open spec fn spec_request(
    m: LedgerModel,
    caller: AccountId,
    sn: u8,
    recipient: AccountId,
) -> (LedgerModel, VestingStatus) {
    let i = find_balance(m.balances, caller);
    if i < 0 {
        (m, VestingStatus::EmitError(Error::VestedBalanceNotFound))
    } else {
        let b = m.balances[i];
        let j = find_slice(b.slices, sn);
        if j < 0 {
            (m, VestingStatus::EmitError(Error::VestedBalanceScheduleNotFound))
        } else if b.slices[j].status != STATUS_LIQUID {
            (m, VestingStatus::EmitError(Error::VestedBalanceScheduleNotLiquid))
        } else {
            let sl2 = SliceModel {
                status: STATUS_REQUESTED,
                recipient: Some(recipient),
                ..b.slices[j]
            };
            let b2 = recalc_balance(BalanceModel { slices: b.slices.update(j, sl2), ..b });
            (
                LedgerModel { balances: m.balances.update(i, b2), ..m },
                VestingStatus::EmitSuccess(Success::VestedBalanceScheduleRequested),
            )
        }
    }
}

/// `approve_transfer`: owner only. The beneficiary's Requested slice with
/// the given schedule number becomes Transferred and records the memo; the
/// balance's totals are recomputed.
pub open spec fn spec_approve(
    m: LedgerModel,
    caller: AccountId,
    requesting_address: AccountId,
    sn: u8,
    memo: Seq<u8>,
) -> (LedgerModel, VestingStatus) {
    if caller != m.owner {
        (m, VestingStatus::EmitError(Error::BadOrigin))
    } else {
        let i = find_balance(m.balances, requesting_address);
        if i < 0 {
            (m, VestingStatus::EmitError(Error::VestedBalanceNotFound))
        } else {
            let b = m.balances[i];
            let j = find_slice(b.slices, sn);
            if j < 0 {
                (m, VestingStatus::EmitError(Error::VestedBalanceScheduleNotFound))
            } else if b.slices[j].status != STATUS_REQUESTED {
                (m, VestingStatus::EmitError(Error::VestedBalanceScheduleNotRequested))
            } else {
                let sl2 = SliceModel { status: STATUS_TRANSFERRED, memo, ..b.slices[j] };
                let b2 = recalc_balance(BalanceModel { slices: b.slices.update(j, sl2), ..b });
                (
                    LedgerModel { balances: m.balances.update(i, b2), ..m },
                    VestingStatus::EmitSuccess(Success::VestedBalanceScheduleApproved),
                )
            }
        }
    }
}

/// `remove_vested_balance`: owner only. Removes the whole balance whatever
/// its slices' statuses, by swapping the last balance into its place
/// (removal order is unspecified for callers; this pins the implementation).
pub open spec fn spec_remove(m: LedgerModel, caller: AccountId, address: AccountId) -> (
    LedgerModel,
    VestingStatus,
) {
    if caller != m.owner {
        (m, VestingStatus::EmitError(Error::BadOrigin))
    } else {
        let i = find_balance(m.balances, address);
        if i < 0 {
            (m, VestingStatus::EmitError(Error::VestedBalanceNotFound))
        } else {
            (
                LedgerModel {
                    balances: m.balances.update(i, m.balances.last()).drop_last(),
                    ..m
                },
                VestingStatus::EmitSuccess(Success::VestedBalanceRemoved),
            )
        }
    }
}

/// Recomputing totals restores balance well-formedness, whatever the four
/// totals held before, as long as everything else about the balance is in
/// shape.
pub proof fn lemma_recalc_balance_wf(b: BalanceModel, n: u8)
    requires
        b.slices.len() == n as nat,
        forall|i: int| 0 <= i < b.slices.len() ==> slice_wf(#[trigger] b.slices[i]),
        forall|i: int| 0 <= i < b.slices.len() ==> (#[trigger] b.slices[i]).number == i + 1,
        sum_amounts(b.slices) <= b.original,
    ensures
        balance_wf(recalc_balance(b), n),
{
    lemma_bucket_le_sum(b.slices, STATUS_FROZEN);
    lemma_bucket_le_sum(b.slices, STATUS_LIQUID);
    lemma_bucket_le_sum(b.slices, STATUS_REQUESTED);
    lemma_bucket_le_sum(b.slices, STATUS_TRANSFERRED);
}

/// The freshly created slices sum to `n * per`.
pub proof fn lemma_new_slices_sum(n: u8, per: u128)
    ensures
        sum_amounts(spec_new_slices(n, per)) == n * per,
    decreases n,
{
    if n == 0 {
        assert(spec_new_slices(0, per) =~= Seq::<SliceModel>::empty());
    } else {
        lemma_new_slices_sum((n - 1) as u8, per);
        assert(spec_new_slices(n, per).drop_last() =~= spec_new_slices((n - 1) as u8, per));
        assert(spec_new_slices(n, per).last() == spec_new_slices(n, per)[n - 1]);
        assert(spec_new_slices(n, per)[n - 1].amount == per);
        assert((n as int - 1) * (per as int) + per == (n as int) * (per as int))
            by (nonlinear_arith);
    }
}

/// In a sequence of all-Frozen slices, the Frozen bucket is the whole sum
/// and the other three buckets are empty.
pub proof fn lemma_all_frozen_buckets(s: Seq<SliceModel>)
    requires
        forall|i: int| 0 <= i < s.len() ==> (#[trigger] s[i]).status == STATUS_FROZEN,
    ensures
        bucket_total(s, STATUS_FROZEN) == sum_amounts(s),
        bucket_total(s, STATUS_LIQUID) == 0,
        bucket_total(s, STATUS_REQUESTED) == 0,
        bucket_total(s, STATUS_TRANSFERRED) == 0,
    decreases s.len(),
{
    if s.len() == 0 {
    } else {
        assert forall|i: int| 0 <= i < s.drop_last().len() implies (
        #[trigger] s.drop_last()[i]).status == STATUS_FROZEN by {
            assert(s.drop_last()[i] == s[i]);
        }
        lemma_all_frozen_buckets(s.drop_last());
        assert(s.last() == s[s.len() - 1]);
    }
}

/// The balance `add_vested_balance` creates is well formed: in particular,
/// the slice amounts sum to `n * (original / n)`, which never exceeds the
/// original amount.
pub proof fn lemma_new_balance_wf(address: AccountId, original: u128, n: u8)
    ensures
        balance_wf(spec_new_balance(address, original, n), n),
        sum_amounts(spec_new_balance(address, original, n).slices) <= original,
{
    let per = if n == 0 {
        0u128
    } else {
        original / (n as u128)
    };
    let slices = spec_new_slices(n, per);
    lemma_new_slices_sum(n, per);
    lemma_all_frozen_buckets(slices);
    if n > 0 {
        lemma_fundamental_div_mod(original as int, n as int);
        lemma_mod_bound(original as int, n as int);
        assert(n * per == original - (original as int % n as int));
    }
}

/// `spec_setup` preserves ledger well-formedness.
pub proof fn lemma_spec_setup_wf(m: LedgerModel, caller: AccountId, asset_id: u128, n: u8)
    requires
        ledger_wf(m),
    ensures
        ledger_wf(spec_setup(m, caller, asset_id, n).0),
{
}

/// `spec_add` preserves ledger well-formedness: the appended balance is
/// well formed and its address was not present before.
pub proof fn lemma_spec_add_wf(m: LedgerModel, caller: AccountId, address: AccountId, orig: u128)
    requires
        ledger_wf(m),
    ensures
        ledger_wf(spec_add(m, caller, address, orig).0),
{
    if caller == m.owner && find_balance(m.balances, address) < 0 {
        lemma_find_balance(m.balances, address);
        lemma_new_balance_wf(address, orig, m.schedule_count);
        let post = spec_add(m, caller, address, orig).0;
        assert(forall|i: int|
            0 <= i < m.balances.len() ==> post.balances[i] == #[trigger] m.balances[i]);
    }
}

/// Thawing one balance keeps it well formed.
pub proof fn lemma_thaw_balance_wf(b: BalanceModel, sn: u8, n: u8)
    requires
        balance_wf(b, n),
    ensures
        balance_wf(spec_thaw_balance(b, sn), n),
        spec_thaw_balance(b, sn).address == b.address,
        spec_thaw_balance(b, sn).original == b.original,
{
    let s2 = Seq::new(b.slices.len(), |i: int| spec_thaw_slice(b.slices[i], sn));
    lemma_sum_pointwise_amounts(s2, b.slices);
    lemma_recalc_balance_wf(BalanceModel { slices: s2, ..b }, n);
}

/// `spec_thaw` preserves ledger well-formedness.
pub proof fn lemma_spec_thaw_wf(m: LedgerModel, caller: AccountId, sn: u8)
    requires
        ledger_wf(m),
    ensures
        ledger_wf(spec_thaw(m, caller, sn).0),
{
    if caller == m.owner {
        let post = spec_thaw(m, caller, sn).0;
        assert forall|i: int| 0 <= i < post.balances.len() implies balance_wf(
            #[trigger] post.balances[i],
            post.schedule_count,
        ) by {
            lemma_thaw_balance_wf(m.balances[i], sn, m.schedule_count);
        }
        assert forall|i: int, j: int|
            0 <= i < j < post.balances.len() implies (#[trigger] post.balances[i]).address != (
        #[trigger] post.balances[j]).address by {
            lemma_thaw_balance_wf(m.balances[i], sn, m.schedule_count);
            lemma_thaw_balance_wf(m.balances[j], sn, m.schedule_count);
        }
    }
}

/// Replacing one slice with a well-formed slice of the same number and
/// amount, then recomputing totals, keeps the balance well formed.
pub proof fn lemma_update_slice_wf(b: BalanceModel, j: int, sl2: SliceModel, n: u8)
    requires
        balance_wf(b, n),
        0 <= j < b.slices.len(),
        slice_wf(sl2),
        sl2.number == b.slices[j].number,
        sl2.amount == b.slices[j].amount,
    ensures
        balance_wf(recalc_balance(BalanceModel { slices: b.slices.update(j, sl2), ..b }), n),
        recalc_balance(BalanceModel { slices: b.slices.update(j, sl2), ..b }).address == b.address,
{
    let s2 = b.slices.update(j, sl2);
    lemma_sum_pointwise_amounts(s2, b.slices);
    lemma_recalc_balance_wf(BalanceModel { slices: s2, ..b }, n);
}

/// `spec_request` preserves ledger well-formedness.
pub proof fn lemma_spec_request_wf(m: LedgerModel, caller: AccountId, sn: u8, r: AccountId)
    requires
        ledger_wf(m),
    ensures
        ledger_wf(spec_request(m, caller, sn, r).0),
{
    let i = find_balance(m.balances, caller);
    lemma_find_balance(m.balances, caller);
    if i >= 0 {
        let b = m.balances[i];
        let j = find_slice(b.slices, sn);
        lemma_find_slice(b.slices, sn);
        if j >= 0 && b.slices[j].status == STATUS_LIQUID {
            let sl2 = SliceModel { status: STATUS_REQUESTED, recipient: Some(r), ..b.slices[j] };
            lemma_update_slice_wf(b, j, sl2, m.schedule_count);
            let post = spec_request(m, caller, sn, r).0;
            assert(forall|k: int|
                0 <= k < post.balances.len() && k != i ==> #[trigger] post.balances[k]
                    == m.balances[k]);
        }
    }
}

/// `spec_approve` preserves ledger well-formedness.
pub proof fn lemma_spec_approve_wf(
    m: LedgerModel,
    caller: AccountId,
    addr: AccountId,
    sn: u8,
    memo: Seq<u8>,
)
    requires
        ledger_wf(m),
    ensures
        ledger_wf(spec_approve(m, caller, addr, sn, memo).0),
{
    if caller == m.owner {
        let i = find_balance(m.balances, addr);
        lemma_find_balance(m.balances, addr);
        if i >= 0 {
            let b = m.balances[i];
            let j = find_slice(b.slices, sn);
            lemma_find_slice(b.slices, sn);
            if j >= 0 && b.slices[j].status == STATUS_REQUESTED {
                let sl2 = SliceModel { status: STATUS_TRANSFERRED, memo, ..b.slices[j] };
                lemma_update_slice_wf(b, j, sl2, m.schedule_count);
                let post = spec_approve(m, caller, addr, sn, memo).0;
                assert(forall|k: int|
                    0 <= k < post.balances.len() && k != i ==> #[trigger] post.balances[k]
                        == m.balances[k]);
            }
        }
    }
}

/// `spec_remove` preserves ledger well-formedness: every remaining balance
/// came unchanged from a distinct slot of the old ledger.
pub proof fn lemma_spec_remove_wf(m: LedgerModel, caller: AccountId, addr: AccountId)
    requires
        ledger_wf(m),
    ensures
        ledger_wf(spec_remove(m, caller, addr).0),
{
    if caller == m.owner {
        let i = find_balance(m.balances, addr);
        lemma_find_balance(m.balances, addr);
        if i >= 0 {
            let last = m.balances.len() - 1;
            let post = spec_remove(m, caller, addr).0;
            assert(forall|k: int|
                0 <= k < post.balances.len() ==> #[trigger] post.balances[k] == if k == i {
                    m.balances[last]
                } else {
                    m.balances[k]
                });
        }
    }
}

} // verus!
