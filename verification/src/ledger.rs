use vstd::prelude::*;
use crate::account::AccountId;
use crate::events::{Error, Success, VestingStatus, VestingEvent};
use crate::model::{
    BalanceModel, LedgerModel, SliceModel, ledger_wf, find_balance, find_slice, has_balance,
    lemma_find_balance, lemma_find_slice, sum_amounts, bucket_total, lemma_bucket_le_sum,
    lemma_bucket_take_step, lemma_sum_take_le, lemma_take_full, balance_wf,
    lemma_sum_pointwise_amounts, STATUS_FROZEN, STATUS_LIQUID, STATUS_REQUESTED,
    STATUS_TRANSFERRED,
};
use crate::transition::{
    spec_setup, spec_add, spec_new_balance, spec_new_slices, lemma_new_slices_sum,
    lemma_spec_add_wf, recalc_balance, spec_thaw, spec_thaw_balance, spec_thaw_slice,
    lemma_spec_thaw_wf, spec_request, lemma_spec_request_wf, spec_approve, lemma_spec_approve_wf,
    spec_remove, lemma_spec_remove_wf,
};
use vstd::arithmetic::div_mod::{lemma_fundamental_div_mod, lemma_mod_bound};

verus! {

/// One schedule slice of a vested balance.
#[derive(Debug, PartialEq, Eq)]
pub struct VestedBalanceSchedule {
    /// Ordinal of this slice, 1..=N for a ledger configured with N slices.
    pub schedule_number: u8,
    /// This slice's share of the original amount.
    pub schedule_balance: u128,
    /// Lifecycle state: 0 Frozen, 1 Liquid, 2 Requested, 3 Transferred.
    pub status: u8,
    /// Transfer recipient, recorded when the slice becomes Requested.
    pub recipient_address: Option<AccountId>,
    /// Settlement memo, recorded when the slice becomes Transferred.
    pub particulars: Vec<u8>,
}

impl View for VestedBalanceSchedule {
    type V = SliceModel;

    open spec fn view(&self) -> SliceModel {
        SliceModel {
            number: self.schedule_number,
            amount: self.schedule_balance,
            status: self.status,
            recipient: self.recipient_address,
            memo: self.particulars@,
        }
    }
}

/// One address's vested balance: its slices and the four derived totals.
#[derive(Debug, PartialEq, Eq)]
pub struct VestedBalance {
    /// The beneficiary that holds this balance; unique within the ledger.
    pub address: AccountId,
    /// The schedule slices, in order, numbered 1..=N.
    pub vested_balance_schedules: Vec<VestedBalanceSchedule>,
    /// The amount the balance was created with; never changes.
    pub original_balance: u128,
    /// Sum of the amounts of the Frozen slices.
    pub frozen_balance: u128,
    /// Sum of the amounts of the Liquid slices.
    pub liquid_balance: u128,
    /// Sum of the amounts of the Requested slices.
    pub requested_balance: u128,
    /// Sum of the amounts of the Transferred slices.
    pub transferred_balance: u128,
}

impl View for VestedBalance {
    type V = BalanceModel;

    open spec fn view(&self) -> BalanceModel {
        BalanceModel {
            address: self.address,
            slices: self.vested_balance_schedules@.map_values(|s: VestedBalanceSchedule| s@),
            original: self.original_balance,
            frozen: self.frozen_balance,
            liquid: self.liquid_balance,
            requested: self.requested_balance,
            transferred: self.transferred_balance,
        }
    }
}

/// Index of the first balance held by `address`, if any, matching what
/// `find_balance` says of the sequence of balance models.
fn position_of(balances: &Vec<VestedBalance>, address: AccountId) -> (r: Option<usize>)
    ensures
        ({
            let s = balances@.map_values(|b: VestedBalance| b@);
            match r {
                Some(i) => 0 <= i < s.len() && find_balance(s, address) == i as int,
                None => find_balance(s, address) == -1,
            }
        }),
{
    let ghost s = balances@.map_values(|b: VestedBalance| b@);
    let mut i: usize = 0;
    while i < balances.len()
        invariant
            i <= balances@.len(),
            s == balances@.map_values(|b: VestedBalance| b@),
            forall|k: int| 0 <= k < i ==> (#[trigger] s[k]).address != address,
        decreases balances@.len() - i,
    {
        if balances[i].address == address {
            proof {
                lemma_find_balance(s, address);
                assert(s[i as int].address == address);
            }
            return Some(i);
        }
        i += 1;
    }
    proof {
        lemma_find_balance(s, address);
    }
    None
}

/// A fresh copy of a byte vector.
fn clone_bytes(v: &Vec<u8>) -> (r: Vec<u8>)
    ensures
        r@ == v@,
{
    let mut r: Vec<u8> = Vec::new();
    let mut i: usize = 0;
    while i < v.len()
        invariant
            i <= v@.len(),
            r@ == v@.take(i as int),
        decreases v@.len() - i,
    {
        r.push(v[i]);
        proof {
            assert(r@ =~= v@.take(i as int + 1));
        }
        i += 1;
    }
    proof {
        assert(v@.take(v@.len() as int) =~= v@);
    }
    r
}

impl Clone for VestedBalanceSchedule {
    /// A deep copy with an identical model.
    fn clone(&self) -> (r: Self)
        ensures
            r@ == self@,
    {
        VestedBalanceSchedule {
            schedule_number: self.schedule_number,
            schedule_balance: self.schedule_balance,
            status: self.status,
            recipient_address: self.recipient_address,
            particulars: clone_bytes(&self.particulars),
        }
    }
}

impl Clone for VestedBalance {
    /// A deep copy with an identical model.
    fn clone(&self) -> (r: Self)
        ensures
            r@ == self@,
    {
        let mut schedules: Vec<VestedBalanceSchedule> = Vec::new();
        let mut i: usize = 0;
        while i < self.vested_balance_schedules.len()
            invariant
                i <= self.vested_balance_schedules@.len(),
                schedules@.len() == i,
                forall|k: int|
                    0 <= k < i ==> (#[trigger] schedules@[k])@
                        == self.vested_balance_schedules@[k]@,
            decreases self.vested_balance_schedules@.len() - i,
        {
            schedules.push(self.vested_balance_schedules[i].clone());
            i += 1;
        }
        let r = VestedBalance {
            address: self.address,
            vested_balance_schedules: schedules,
            original_balance: self.original_balance,
            frozen_balance: self.frozen_balance,
            liquid_balance: self.liquid_balance,
            requested_balance: self.requested_balance,
            transferred_balance: self.transferred_balance,
        };
        proof {
            assert(r@.slices =~= self@.slices);
            assert(r@ =~~= self@);
        }
        r
    }
}

/// Index of the first slice with schedule number `sn`, if any, matching
/// what `find_slice` says of the sequence of slice models.
fn position_of_slice(slices: &Vec<VestedBalanceSchedule>, sn: u8) -> (r: Option<usize>)
    ensures
        ({
            let s = slices@.map_values(|sl: VestedBalanceSchedule| sl@);
            match r {
                Some(j) => 0 <= j < s.len() && find_slice(s, sn) == j as int,
                None => find_slice(s, sn) == -1,
            }
        }),
{
    let ghost s = slices@.map_values(|sl: VestedBalanceSchedule| sl@);
    let mut j: usize = 0;
    while j < slices.len()
        invariant
            j <= slices@.len(),
            s == slices@.map_values(|sl: VestedBalanceSchedule| sl@),
            forall|k: int| 0 <= k < j ==> (#[trigger] s[k]).number != sn,
        decreases slices@.len() - j,
    {
        if slices[j].schedule_number == sn {
            proof {
                lemma_find_slice(s, sn);
                assert(s[j as int].number == sn);
            }
            return Some(j);
        }
        j += 1;
    }
    proof {
        lemma_find_slice(s, sn);
    }
    None
}

/// The vesting ledger: a deterministic state machine over the vested
/// balances of a set of addresses.
pub struct Vesting {
    /// Identifier of the asset class being vested.
    pub asset_id: u128,
    /// N: how many slices each newly added balance is split into.
    pub total_vested_schedule: u8,
    /// The vested balances, keyed by their unique addresses.
    pub vested_balances: Vec<VestedBalance>,
    /// The single address allowed to perform privileged operations.
    pub vesting_owner: AccountId,
}

impl View for Vesting {
    type V = LedgerModel;

    open spec fn view(&self) -> LedgerModel {
        LedgerModel {
            asset_id: self.asset_id,
            schedule_count: self.total_vested_schedule,
            balances: self.vested_balances@.map_values(|b: VestedBalance| b@),
            owner: self.vesting_owner,
        }
    }
}

impl Vesting {
    /// The ledger's invariant: every balance well formed for the current
    /// schedule count, totals partitioning the slice amounts, addresses
    /// unique.
    pub open spec fn wf(&self) -> bool {
        ledger_wf(self@)
    }

    /// Creates an empty ledger owned by the creating caller.
    pub fn new(asset_id: u128, total_vested_schedule: u8, caller: AccountId) -> (s: Self)
        ensures
            s.wf(),
            s@ == (LedgerModel {
                asset_id,
                schedule_count: total_vested_schedule,
                balances: Seq::<BalanceModel>::empty(),
                owner: caller,
            }),
    {
        let s = Vesting {
            asset_id,
            total_vested_schedule,
            vested_balances: Vec::new(),
            vesting_owner: caller,
        };
        proof {
            assert(s@.balances =~= Seq::<BalanceModel>::empty());
            assert(s@ =~= (LedgerModel {
                asset_id,
                schedule_count: total_vested_schedule,
                balances: Seq::<BalanceModel>::empty(),
                owner: caller,
            }));
        }
        s
    }

    /// Creates an empty ledger with a zero asset and a zero schedule count.
    pub fn default(caller: AccountId) -> (s: Self)
        ensures
            s.wf(),
            s@ == (LedgerModel {
                asset_id: 0,
                schedule_count: 0,
                balances: Seq::<BalanceModel>::empty(),
                owner: caller,
            }),
    {
        Self::new(0u128, 0u8, caller)
    }

    /// Unrestricted read of the ledger configuration.
    pub fn get_vesting_info(&self) -> (r: (u128, u8, AccountId))
        ensures
            r.0 == self@.asset_id,
            r.1 == self@.schedule_count,
            r.2 == self@.owner,
    {
        (self.asset_id, self.total_vested_schedule, self.vesting_owner)
    }

    /// Owner-only destructive reconfiguration: replaces the asset and the
    /// schedule count and discards every balance. A non-owner caller gets a
    /// BadOrigin event and the ledger is untouched.
    pub fn setup_vesting(
        &mut self,
        caller: AccountId,
        asset_id: u128,
        total_vested_schedule: u8,
    ) -> (ev: VestingEvent)
        requires
            old(self).wf(),
        ensures
            final(self).wf(),
            final(self)@ == spec_setup(old(self)@, caller, asset_id, total_vested_schedule).0,
            ev.operator == caller,
            ev.status == spec_setup(old(self)@, caller, asset_id, total_vested_schedule).1,
            caller == old(self)@.owner ==> final(self)@.balances == Seq::<BalanceModel>::empty(),
            caller != old(self)@.owner ==> *final(self) == *old(self),
            crate::laws::statuses_non_decreasing(old(self)@, final(self)@),
    {
        proof {
            crate::laws::lemma_setup_monotone(old(self)@, caller, asset_id, total_vested_schedule);
        }
        if caller != self.vesting_owner {
            return VestingEvent {
                operator: caller,
                status: VestingStatus::EmitError(Error::BadOrigin),
            };
        }
        self.asset_id = asset_id;
        self.total_vested_schedule = total_vested_schedule;
        self.vested_balances = Vec::new();
        proof {
            assert(self@.balances =~= Seq::<BalanceModel>::empty());
            assert(self@ =~= spec_setup(old(self)@, caller, asset_id, total_vested_schedule).0);
        }
        VestingEvent {
            operator: caller,
            status: VestingStatus::EmitSuccess(Success::VestingSetupSuccess),
        }
    }

    /// Owner-only creation of a vested balance for a fresh address: N slices
    /// numbered 1..=N, each holding `original_balance / N` (integer
    /// division), all Frozen. The contract leaves one input out: an owner
    /// adding a fresh address to a ledger configured with zero slices would
    /// divide by zero, so that call is not admitted.
    pub fn add_vested_balance(
        &mut self,
        caller: AccountId,
        address: AccountId,
        original_balance: u128,
    ) -> (ev: VestingEvent)
        requires
            old(self).wf(),
            caller == old(self)@.owner && !has_balance(old(self)@, address) ==> old(
                self,
            ).total_vested_schedule > 0,
        ensures
            final(self).wf(),
            final(self)@ == spec_add(old(self)@, caller, address, original_balance).0,
            ev.operator == caller,
            ev.status == spec_add(old(self)@, caller, address, original_balance).1,
            caller != old(self)@.owner ==> *final(self) == *old(self),
            has_balance(old(self)@, address) ==> *final(self) == *old(self),
            crate::laws::statuses_non_decreasing(old(self)@, final(self)@),
    {
        proof {
            lemma_spec_add_wf(old(self)@, caller, address, original_balance);
            crate::laws::lemma_add_monotone(old(self)@, caller, address, original_balance);
        }
        if caller != self.vesting_owner {
            return VestingEvent {
                operator: caller,
                status: VestingStatus::EmitError(Error::BadOrigin),
            };
        }
        if position_of(&self.vested_balances, address).is_some() {
            return VestingEvent {
                operator: caller,
                status: VestingStatus::EmitError(Error::VestedBalanceAlreadyExist),
            };
        }
        let n = self.total_vested_schedule;
        let per = original_balance / (n as u128);
        let ghost target = spec_new_slices(n, per);
        let mut schedules: Vec<VestedBalanceSchedule> = Vec::with_capacity(n as usize);
        let mut k: usize = 0;
        while k < n as usize
            invariant
                k <= n as usize,
                schedules@.len() == k,
                target == spec_new_slices(n, per),
                forall|j: int| 0 <= j < k ==> (#[trigger] schedules@[j])@ == target[j],
            decreases n as usize - k,
        {
            schedules.push(
                VestedBalanceSchedule {
                    schedule_number: (k as u8) + 1,
                    schedule_balance: per,
                    status: STATUS_FROZEN,
                    recipient_address: None,
                    particulars: Vec::new(),
                },
            );
            k += 1;
        }
        proof {
            lemma_new_slices_sum(n, per);
            lemma_fundamental_div_mod(original_balance as int, n as int);
            lemma_mod_bound(original_balance as int, n as int);
            assert(n * per <= original_balance);
        }
        let frozen = (n as u128) * per;
        let balance = VestedBalance {
            address,
            vested_balance_schedules: schedules,
            original_balance,
            frozen_balance: frozen,
            liquid_balance: 0,
            requested_balance: 0,
            transferred_balance: 0,
        };
        proof {
            assert(balance@.slices =~= spec_new_balance(address, original_balance, n).slices);
            assert(balance@ =~~= spec_new_balance(address, original_balance, n));
        }
        self.vested_balances.push(balance);
        proof {
            assert(self@.balances =~= old(self)@.balances.push(
                spec_new_balance(address, original_balance, n),
            ));
            assert(self@ =~~= spec_add(old(self)@, caller, address, original_balance).0);
        }
        VestingEvent {
            operator: caller,
            status: VestingStatus::EmitSuccess(Success::VestedBalanceAdded),
        }
    }

    /// Full recompute of the four totals, shared by every status-changing
    /// operation: reset them, then add each slice's amount to the bucket
    /// matching its status.
    fn calculate_balances(vested_balance: &mut VestedBalance)
        requires
            sum_amounts(old(vested_balance)@.slices) <= u128::MAX,
        ensures
            final(vested_balance)@ == recalc_balance(old(vested_balance)@),
    {
        let ghost s = old(vested_balance)@.slices;
        let mut frozen: u128 = 0;
        let mut liquid: u128 = 0;
        let mut requested: u128 = 0;
        let mut transferred: u128 = 0;
        let mut j: usize = 0;
        while j < vested_balance.vested_balance_schedules.len()
            invariant
                *vested_balance == *old(vested_balance),
                s == vested_balance@.slices,
                sum_amounts(s) <= u128::MAX,
                j <= s.len(),
                frozen == bucket_total(s.take(j as int), STATUS_FROZEN),
                liquid == bucket_total(s.take(j as int), STATUS_LIQUID),
                requested == bucket_total(s.take(j as int), STATUS_REQUESTED),
                transferred == bucket_total(s.take(j as int), STATUS_TRANSFERRED),
            decreases s.len() - j,
        {
            proof {
                lemma_bucket_take_step(s, STATUS_FROZEN, j as int);
                lemma_bucket_take_step(s, STATUS_LIQUID, j as int);
                lemma_bucket_take_step(s, STATUS_REQUESTED, j as int);
                lemma_bucket_take_step(s, STATUS_TRANSFERRED, j as int);
                lemma_bucket_le_sum(s.take(j as int + 1), STATUS_FROZEN);
                lemma_bucket_le_sum(s.take(j as int + 1), STATUS_LIQUID);
                lemma_bucket_le_sum(s.take(j as int + 1), STATUS_REQUESTED);
                lemma_bucket_le_sum(s.take(j as int + 1), STATUS_TRANSFERRED);
                lemma_sum_take_le(s, j as int + 1);
            }
            let sch = &vested_balance.vested_balance_schedules[j];
            if sch.status == STATUS_FROZEN {
                frozen = frozen + sch.schedule_balance;
            } else if sch.status == STATUS_LIQUID {
                liquid = liquid + sch.schedule_balance;
            } else if sch.status == STATUS_REQUESTED {
                requested = requested + sch.schedule_balance;
            } else if sch.status == STATUS_TRANSFERRED {
                transferred = transferred + sch.schedule_balance;
            }
            j += 1;
        }
        proof {
            lemma_take_full(s);
        }
        vested_balance.frozen_balance = frozen;
        vested_balance.liquid_balance = liquid;
        vested_balance.requested_balance = requested;
        vested_balance.transferred_balance = transferred;
        proof {
            assert(vested_balance@ =~~= recalc_balance(old(vested_balance)@));
        }
    }

    /// Thaws the matching Frozen slice of one balance, then recomputes its
    /// totals.
    fn thaw_one_balance(vested_balance: &mut VestedBalance, schedule_number: u8)
        requires
            sum_amounts(old(vested_balance)@.slices) <= old(vested_balance).original_balance,
        ensures
            final(vested_balance)@ == spec_thaw_balance(old(vested_balance)@, schedule_number),
    {
        let ghost s = old(vested_balance)@.slices;
        let ghost thawed = Seq::new(s.len(), |k: int| spec_thaw_slice(s[k], schedule_number));
        let mut j: usize = 0;
        while j < vested_balance.vested_balance_schedules.len()
            invariant
                s == old(vested_balance)@.slices,
                thawed == Seq::new(s.len(), |k: int| spec_thaw_slice(s[k], schedule_number)),
                vested_balance.address == old(vested_balance).address,
                vested_balance.original_balance == old(vested_balance).original_balance,
                vested_balance.vested_balance_schedules@.len() == s.len(),
                j <= s.len(),
                forall|k: int|
                    0 <= k < j ==> (#[trigger] vested_balance.vested_balance_schedules@[k])@
                        == thawed[k],
                forall|k: int|
                    j <= k < s.len() ==> #[trigger] vested_balance.vested_balance_schedules@[k]
                        == old(vested_balance).vested_balance_schedules@[k],
            decreases s.len() - j,
        {
            let needs_thaw = vested_balance.vested_balance_schedules[j].schedule_number
                == schedule_number && vested_balance.vested_balance_schedules[j].status
                == STATUS_FROZEN;
            if needs_thaw {
                let sch = &mut vested_balance.vested_balance_schedules[j];
                sch.status = STATUS_LIQUID;
            }
            j += 1;
        }
        proof {
            assert(vested_balance@.slices =~= thawed);
            lemma_sum_pointwise_amounts(thawed, s);
        }
        Self::calculate_balances(vested_balance);
        proof {
            assert(vested_balance@ =~~= spec_thaw_balance(old(vested_balance)@, schedule_number));
        }
    }

    /// Owner-only thaw: for every balance in the ledger, the Frozen slice
    /// with the matching schedule number (if any) becomes Liquid, and all
    /// four totals of every balance are recomputed. One event reports the
    /// outcome however many slices actually changed. A non-owner caller
    /// gets a BadOrigin event and the ledger is untouched.
    pub fn thaw_vested_balances(&mut self, caller: AccountId, schedule_number: u8) -> (ev:
        VestingEvent)
        requires
            old(self).wf(),
        ensures
            final(self).wf(),
            final(self)@ == spec_thaw(old(self)@, caller, schedule_number).0,
            ev.operator == caller,
            ev.status == spec_thaw(old(self)@, caller, schedule_number).1,
            caller != old(self)@.owner ==> *final(self) == *old(self),
            crate::laws::statuses_non_decreasing(old(self)@, final(self)@),
    {
        proof {
            lemma_spec_thaw_wf(old(self)@, caller, schedule_number);
            crate::laws::lemma_thaw_monotone(old(self)@, caller, schedule_number);
        }
        if caller != self.vesting_owner {
            return VestingEvent {
                operator: caller,
                status: VestingStatus::EmitError(Error::BadOrigin),
            };
        }
        let ghost m0 = old(self)@;
        let mut i: usize = 0;
        while i < self.vested_balances.len()
            invariant
                m0 == old(self)@,
                ledger_wf(m0),
                self.asset_id == old(self).asset_id,
                self.total_vested_schedule == old(self).total_vested_schedule,
                self.vesting_owner == old(self).vesting_owner,
                self.vested_balances@.len() == old(self).vested_balances@.len(),
                i <= self.vested_balances@.len(),
                forall|k: int|
                    0 <= k < i ==> (#[trigger] self.vested_balances@[k])@ == spec_thaw_balance(
                        m0.balances[k],
                        schedule_number,
                    ),
                forall|k: int|
                    i <= k < self.vested_balances@.len() ==> #[trigger] self.vested_balances@[k]
                        == old(self).vested_balances@[k],
            decreases self.vested_balances@.len() - i,
        {
            proof {
                assert(balance_wf(m0.balances[i as int], m0.schedule_count));
                assert(self.vested_balances@[i as int]@ == m0.balances[i as int]);
            }
            let b = &mut self.vested_balances[i];
            Self::thaw_one_balance(b, schedule_number);
            i += 1;
        }
        proof {
            assert(self@.balances =~= spec_thaw(m0, caller, schedule_number).0.balances);
            assert(self@ =~~= spec_thaw(m0, caller, schedule_number).0);
        }
        VestingEvent {
            operator: caller,
            status: VestingStatus::EmitSuccess(Success::VestedBalanceScheduleThawed),
        }
    }

    /// Marks one balance's Liquid slice with the given schedule number as
    /// Requested, records the recipient and recomputes the totals; reports
    /// which rule blocked it otherwise, leaving the balance untouched.
    fn request_in_balance(
        vested_balance: &mut VestedBalance,
        schedule_number: u8,
        recipient_address: AccountId,
    ) -> (r: Option<Error>)
        requires
            sum_amounts(old(vested_balance)@.slices) <= old(vested_balance).original_balance,
        ensures
            ({
                let s = old(vested_balance)@.slices;
                let j = find_slice(s, schedule_number);
                if j < 0 {
                    r == Some(Error::VestedBalanceScheduleNotFound) && *final(vested_balance)
                        == *old(vested_balance)
                } else if s[j].status != STATUS_LIQUID {
                    r == Some(Error::VestedBalanceScheduleNotLiquid) && *final(vested_balance)
                        == *old(vested_balance)
                } else {
                    r is None && final(vested_balance)@ == recalc_balance(
                        (BalanceModel {
                            slices: s.update(
                                j,
                                (SliceModel {
                                    status: STATUS_REQUESTED,
                                    recipient: Some(recipient_address),
                                    ..s[j]
                                }),
                            ),
                            ..old(vested_balance)@
                        }),
                    )
                }
            }),
    {
        let ghost s = old(vested_balance)@.slices;
        match position_of_slice(&vested_balance.vested_balance_schedules, schedule_number) {
            None => Some(Error::VestedBalanceScheduleNotFound),
            Some(j) => {
                if vested_balance.vested_balance_schedules[j].status != STATUS_LIQUID {
                    Some(Error::VestedBalanceScheduleNotLiquid)
                } else {
                    let ghost sl2 = SliceModel {
                        status: STATUS_REQUESTED,
                        recipient: Some(recipient_address),
                        ..s[j as int]
                    };
                    let sch = &mut vested_balance.vested_balance_schedules[j];
                    sch.status = STATUS_REQUESTED;
                    sch.recipient_address = Some(recipient_address);
                    proof {
                        assert(vested_balance@.slices =~= s.update(j as int, sl2));
                        lemma_sum_pointwise_amounts(vested_balance@.slices, s);
                    }
                    Self::calculate_balances(vested_balance);
                    proof {
                        assert(vested_balance@ =~~= recalc_balance(
                            (BalanceModel { slices: s.update(j as int, sl2), ..old(vested_balance)@ }),
                        ));
                    }
                    None
                }
            },
        }
    }

    /// Self-service transfer request: any caller may act on their own
    /// balance. The caller's Liquid slice with the given schedule number
    /// becomes Requested with the recipient recorded, and the balance's
    /// totals are recomputed; otherwise the event reports which rule
    /// blocked it and the ledger is untouched.
    pub fn request_transfer(
        &mut self,
        caller: AccountId,
        schedule_number: u8,
        recipient_address: AccountId,
    ) -> (ev: VestingEvent)
        requires
            old(self).wf(),
        ensures
            final(self).wf(),
            final(self)@ == spec_request(old(self)@, caller, schedule_number, recipient_address).0,
            ev.operator == caller,
            ev.status == spec_request(old(self)@, caller, schedule_number, recipient_address).1,
            crate::laws::statuses_non_decreasing(old(self)@, final(self)@),
    {
        proof {
            lemma_spec_request_wf(old(self)@, caller, schedule_number, recipient_address);
            crate::laws::lemma_request_monotone(
                old(self)@,
                caller,
                schedule_number,
                recipient_address,
            );
        }
        let ghost m0 = old(self)@;
        match position_of(&self.vested_balances, caller) {
            None => VestingEvent {
                operator: caller,
                status: VestingStatus::EmitError(Error::VestedBalanceNotFound),
            },
            Some(i) => {
                proof {
                    assert(balance_wf(m0.balances[i as int], m0.schedule_count));
                }
                let b = &mut self.vested_balances[i];
                let r = Self::request_in_balance(b, schedule_number, recipient_address);
                match r {
                    Some(e) => {
                        proof {
                            assert(self.vested_balances@ =~= old(self).vested_balances@);
                            assert(self@ =~~= m0);
                        }
                        VestingEvent { operator: caller, status: VestingStatus::EmitError(e) }
                    },
                    None => {
                        proof {
                            assert(self@.balances =~= spec_request(
                                m0,
                                caller,
                                schedule_number,
                                recipient_address,
                            ).0.balances);
                            assert(self@ =~~= spec_request(
                                m0,
                                caller,
                                schedule_number,
                                recipient_address,
                            ).0);
                        }
                        VestingEvent {
                            operator: caller,
                            status: VestingStatus::EmitSuccess(
                                Success::VestedBalanceScheduleRequested,
                            ),
                        }
                    },
                }
            },
        }
    }

    /// Marks one balance's Requested slice with the given schedule number
    /// as Transferred, records the memo and recomputes the totals; reports
    /// which rule blocked it otherwise, leaving the balance untouched.
    fn approve_in_balance(
        vested_balance: &mut VestedBalance,
        schedule_number: u8,
        tx_hash: Vec<u8>,
    ) -> (r: Option<Error>)
        requires
            sum_amounts(old(vested_balance)@.slices) <= old(vested_balance).original_balance,
        ensures
            ({
                let s = old(vested_balance)@.slices;
                let j = find_slice(s, schedule_number);
                if j < 0 {
                    r == Some(Error::VestedBalanceScheduleNotFound) && *final(vested_balance)
                        == *old(vested_balance)
                } else if s[j].status != STATUS_REQUESTED {
                    r == Some(Error::VestedBalanceScheduleNotRequested) && *final(vested_balance)
                        == *old(vested_balance)
                } else {
                    r is None && final(vested_balance)@ == recalc_balance(
                        (BalanceModel {
                            slices: s.update(
                                j,
                                (SliceModel {
                                    status: STATUS_TRANSFERRED,
                                    memo: tx_hash@,
                                    ..s[j]
                                }),
                            ),
                            ..old(vested_balance)@
                        }),
                    )
                }
            }),
    {
        let ghost s = old(vested_balance)@.slices;
        let ghost memo = tx_hash@;
        match position_of_slice(&vested_balance.vested_balance_schedules, schedule_number) {
            None => Some(Error::VestedBalanceScheduleNotFound),
            Some(j) => {
                if vested_balance.vested_balance_schedules[j].status != STATUS_REQUESTED {
                    Some(Error::VestedBalanceScheduleNotRequested)
                } else {
                    let ghost sl2 = SliceModel {
                        status: STATUS_TRANSFERRED,
                        memo,
                        ..s[j as int]
                    };
                    let sch = &mut vested_balance.vested_balance_schedules[j];
                    sch.status = STATUS_TRANSFERRED;
                    sch.particulars = tx_hash;
                    proof {
                        assert(vested_balance@.slices =~= s.update(j as int, sl2));
                        lemma_sum_pointwise_amounts(vested_balance@.slices, s);
                    }
                    Self::calculate_balances(vested_balance);
                    proof {
                        assert(vested_balance@ =~~= recalc_balance(
                            (BalanceModel { slices: s.update(j as int, sl2), ..old(vested_balance)@ }),
                        ));
                    }
                    None
                }
            },
        }
    }

    /// Owner-only approval of a requested transfer: the beneficiary's
    /// Requested slice with the given schedule number becomes Transferred
    /// with the settlement memo recorded, and the balance's totals are
    /// recomputed; otherwise the event reports which rule blocked it and
    /// the ledger is untouched.
    pub fn approve_transfer(
        &mut self,
        caller: AccountId,
        requesting_address: AccountId,
        schedule_number: u8,
        tx_hash: Vec<u8>,
    ) -> (ev: VestingEvent)
        requires
            old(self).wf(),
        ensures
            final(self).wf(),
            final(self)@ == spec_approve(
                old(self)@,
                caller,
                requesting_address,
                schedule_number,
                tx_hash@,
            ).0,
            ev.operator == caller,
            ev.status == spec_approve(
                old(self)@,
                caller,
                requesting_address,
                schedule_number,
                tx_hash@,
            ).1,
            caller != old(self)@.owner ==> *final(self) == *old(self),
            crate::laws::statuses_non_decreasing(old(self)@, final(self)@),
    {
        proof {
            lemma_spec_approve_wf(old(self)@, caller, requesting_address, schedule_number, tx_hash@);
            crate::laws::lemma_approve_monotone(
                old(self)@,
                caller,
                requesting_address,
                schedule_number,
                tx_hash@,
            );
        }
        if caller != self.vesting_owner {
            return VestingEvent {
                operator: caller,
                status: VestingStatus::EmitError(Error::BadOrigin),
            };
        }
        let ghost m0 = old(self)@;
        match position_of(&self.vested_balances, requesting_address) {
            None => VestingEvent {
                operator: caller,
                status: VestingStatus::EmitError(Error::VestedBalanceNotFound),
            },
            Some(i) => {
                proof {
                    assert(balance_wf(m0.balances[i as int], m0.schedule_count));
                }
                let b = &mut self.vested_balances[i];
                let r = Self::approve_in_balance(b, schedule_number, tx_hash);
                match r {
                    Some(e) => {
                        proof {
                            assert(self.vested_balances@ =~= old(self).vested_balances@);
                            assert(self@ =~~= m0);
                        }
                        VestingEvent { operator: caller, status: VestingStatus::EmitError(e) }
                    },
                    None => {
                        proof {
                            assert(self@.balances =~= spec_approve(
                                m0,
                                caller,
                                requesting_address,
                                schedule_number,
                                tx_hash@,
                            ).0.balances);
                            assert(self@ =~~= spec_approve(
                                m0,
                                caller,
                                requesting_address,
                                schedule_number,
                                tx_hash@,
                            ).0);
                        }
                        VestingEvent {
                            operator: caller,
                            status: VestingStatus::EmitSuccess(
                                Success::VestedBalanceScheduleApproved,
                            ),
                        }
                    },
                }
            },
        }
    }

    /// Owner-only removal of a whole balance, whatever its slices' statuses
    /// — a Requested slice does not protect it. The last balance takes the
    /// removed one's place; callers may not rely on any order. A non-owner
    /// caller gets a BadOrigin event and the ledger is untouched.
    pub fn remove_vested_balance(&mut self, caller: AccountId, address: AccountId) -> (ev:
        VestingEvent)
        requires
            old(self).wf(),
        ensures
            final(self).wf(),
            final(self)@ == spec_remove(old(self)@, caller, address).0,
            ev.operator == caller,
            ev.status == spec_remove(old(self)@, caller, address).1,
            caller != old(self)@.owner ==> *final(self) == *old(self),
            crate::laws::statuses_non_decreasing(old(self)@, final(self)@),
    {
        proof {
            lemma_spec_remove_wf(old(self)@, caller, address);
            crate::laws::lemma_remove_monotone(old(self)@, caller, address);
        }
        if caller != self.vesting_owner {
            return VestingEvent {
                operator: caller,
                status: VestingStatus::EmitError(Error::BadOrigin),
            };
        }
        let ghost m0 = old(self)@;
        match position_of(&self.vested_balances, address) {
            None => VestingEvent {
                operator: caller,
                status: VestingStatus::EmitError(Error::VestedBalanceNotFound),
            },
            Some(i) => {
                self.vested_balances.swap_remove(i);
                proof {
                    assert(self@.balances =~= spec_remove(m0, caller, address).0.balances);
                    assert(self@ =~~= spec_remove(m0, caller, address).0);
                }
                VestingEvent {
                    operator: caller,
                    status: VestingStatus::EmitSuccess(Success::VestedBalanceRemoved),
                }
            },
        }
    }

    /// Unrestricted read: a snapshot copy of the balance held by `address`,
    /// or nothing when there is none.
    pub fn get_vested_balance(&self, address: AccountId) -> (r: Option<VestedBalance>)
        ensures
            ({
                let f = find_balance(self@.balances, address);
                match r {
                    Some(b) => f >= 0 && b@ == self@.balances[f],
                    None => f == -1,
                }
            }),
    {
        match position_of(&self.vested_balances, address) {
            None => None,
            Some(i) => Some(self.vested_balances[i].clone()),
        }
    }

    /// Unrestricted read: a snapshot copy of every balance in the ledger,
    /// in its current order.
    pub fn get_all_vested_balance(&self) -> (r: Vec<VestedBalance>)
        ensures
            r@.map_values(|b: VestedBalance| b@) == self@.balances,
    {
        let mut r: Vec<VestedBalance> = Vec::new();
        let mut i: usize = 0;
        while i < self.vested_balances.len()
            invariant
                i <= self.vested_balances@.len(),
                r@.len() == i,
                forall|k: int| 0 <= k < i ==> (#[trigger] r@[k])@ == self.vested_balances@[k]@,
            decreases self.vested_balances@.len() - i,
        {
            r.push(self.vested_balances[i].clone());
            i += 1;
        }
        proof {
            assert(r@.map_values(|b: VestedBalance| b@) =~= self@.balances);
        }
        r
    }
}

} // verus!
