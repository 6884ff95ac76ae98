use vesting::{AccountId, Error, Success, Vesting, VestingStatus};

fn acct(n: u128) -> AccountId {
    AccountId { id: n }
}

fn slice_sum(b: &vesting::VestedBalance) -> u128 {
    b.vested_balance_schedules.iter().map(|s| s.schedule_balance).sum::<u128>()
}

fn totals(b: &vesting::VestedBalance) -> u128 {
    b.frozen_balance + b.liquid_balance + b.requested_balance + b.transferred_balance
}

#[test]
fn default_works() {
    let vesting = Vesting::default(acct(1));
    let (asset, count, owner) = vesting.get_vesting_info();
    assert_eq!(asset, 0);
    assert_eq!(count, 0);
    assert_eq!(owner, acct(1));
    assert!(vesting.get_all_vested_balance().is_empty());
}

#[test]
fn scenario_full_lifecycle() {
    let owner = acct(1);
    let a = acct(2);
    let b = acct(3);
    let mut v = Vesting::new(7, 4, owner);

    let ev = v.add_vested_balance(owner, a, 100);
    assert_eq!(ev.operator, owner);
    assert_eq!(ev.status, VestingStatus::EmitSuccess(Success::VestedBalanceAdded));
    let bal = v.get_vested_balance(a).unwrap();
    assert_eq!(bal.vested_balance_schedules.len(), 4);
    for (i, s) in bal.vested_balance_schedules.iter().enumerate() {
        assert_eq!(s.schedule_number as usize, i + 1);
        assert_eq!(s.schedule_balance, 25);
        assert_eq!(s.status, 0);
        assert_eq!(s.recipient_address, None);
        assert!(s.particulars.is_empty());
    }
    assert_eq!(bal.frozen_balance, 100);
    assert_eq!(bal.liquid_balance, 0);

    let ev = v.thaw_vested_balances(owner, 1);
    assert_eq!(ev.status, VestingStatus::EmitSuccess(Success::VestedBalanceScheduleThawed));
    let bal = v.get_vested_balance(a).unwrap();
    assert_eq!(bal.vested_balance_schedules[0].status, 1);
    assert_eq!(bal.frozen_balance, 75);
    assert_eq!(bal.liquid_balance, 25);

    let ev = v.request_transfer(a, 1, b);
    assert_eq!(ev.operator, a);
    assert_eq!(ev.status, VestingStatus::EmitSuccess(Success::VestedBalanceScheduleRequested));
    let bal = v.get_vested_balance(a).unwrap();
    assert_eq!(bal.vested_balance_schedules[0].status, 2);
    assert_eq!(bal.vested_balance_schedules[0].recipient_address, Some(b));
    assert_eq!(bal.requested_balance, 25);
    assert_eq!(bal.liquid_balance, 0);

    let ev = v.approve_transfer(owner, a, 1, vec![0xAB]);
    assert_eq!(ev.status, VestingStatus::EmitSuccess(Success::VestedBalanceScheduleApproved));
    let bal = v.get_vested_balance(a).unwrap();
    assert_eq!(bal.vested_balance_schedules[0].status, 3);
    assert_eq!(bal.vested_balance_schedules[0].particulars, vec![0xAB]);
    assert_eq!(bal.transferred_balance, 25);
    assert_eq!(bal.requested_balance, 0);
}

#[test]
fn add_twice_reports_already_exist() {
    let owner = acct(1);
    let a = acct(2);
    let mut v = Vesting::new(7, 4, owner);
    let ev = v.add_vested_balance(owner, a, 100);
    assert_eq!(ev.status, VestingStatus::EmitSuccess(Success::VestedBalanceAdded));
    let before = v.get_all_vested_balance();

    let ev = v.add_vested_balance(owner, a, 999);
    assert_eq!(ev.status, VestingStatus::EmitError(Error::VestedBalanceAlreadyExist));
    assert_eq!(v.get_all_vested_balance(), before);
}

#[test]
fn non_owner_ops_leave_ledger_unchanged() {
    let owner = acct(1);
    let a = acct(2);
    let intruder = acct(9);
    let mut v = Vesting::new(7, 4, owner);
    v.add_vested_balance(owner, a, 100);
    let info_before = v.get_vesting_info();
    let before = v.get_all_vested_balance();

    let ev = v.setup_vesting(intruder, 5, 2);
    assert_eq!(ev.operator, intruder);
    assert_eq!(ev.status, VestingStatus::EmitError(Error::BadOrigin));
    let ev = v.add_vested_balance(intruder, acct(3), 50);
    assert_eq!(ev.status, VestingStatus::EmitError(Error::BadOrigin));
    let ev = v.thaw_vested_balances(intruder, 1);
    assert_eq!(ev.status, VestingStatus::EmitError(Error::BadOrigin));
    let ev = v.approve_transfer(intruder, a, 1, vec![1]);
    assert_eq!(ev.status, VestingStatus::EmitError(Error::BadOrigin));
    let ev = v.remove_vested_balance(intruder, a);
    assert_eq!(ev.status, VestingStatus::EmitError(Error::BadOrigin));

    assert_eq!(v.get_vesting_info(), info_before);
    assert_eq!(v.get_all_vested_balance(), before);
}

#[test]
fn request_on_frozen_slice_not_liquid() {
    let owner = acct(1);
    let a = acct(2);
    let mut v = Vesting::new(7, 4, owner);
    v.add_vested_balance(owner, a, 100);
    let before = v.get_all_vested_balance();

    let ev = v.request_transfer(a, 1, acct(3));
    assert_eq!(ev.status, VestingStatus::EmitError(Error::VestedBalanceScheduleNotLiquid));
    assert_eq!(v.get_all_vested_balance(), before);
}

#[test]
fn approve_on_non_requested_slice() {
    let owner = acct(1);
    let a = acct(2);
    let mut v = Vesting::new(7, 4, owner);
    v.add_vested_balance(owner, a, 100);
    v.thaw_vested_balances(owner, 2);
    let before = v.get_all_vested_balance();

    // Slice 1 is still Frozen, slice 2 is Liquid: neither is Requested.
    let ev = v.approve_transfer(owner, a, 1, vec![1]);
    assert_eq!(ev.status, VestingStatus::EmitError(Error::VestedBalanceScheduleNotRequested));
    let ev = v.approve_transfer(owner, a, 2, vec![1]);
    assert_eq!(ev.status, VestingStatus::EmitError(Error::VestedBalanceScheduleNotRequested));
    assert_eq!(v.get_all_vested_balance(), before);
}

#[test]
fn remove_with_requested_slice_succeeds() {
    let owner = acct(1);
    let a = acct(2);
    let mut v = Vesting::new(7, 4, owner);
    v.add_vested_balance(owner, a, 100);
    v.thaw_vested_balances(owner, 1);
    let ev = v.request_transfer(a, 1, acct(3));
    assert_eq!(ev.status, VestingStatus::EmitSuccess(Success::VestedBalanceScheduleRequested));

    let ev = v.remove_vested_balance(owner, a);
    assert_eq!(ev.status, VestingStatus::EmitSuccess(Success::VestedBalanceRemoved));
    assert!(v.get_vested_balance(a).is_none());
    assert!(v.get_all_vested_balance().is_empty());
}

#[test]
fn setup_discards_all_balances() {
    let owner = acct(1);
    let mut v = Vesting::new(7, 4, owner);
    v.add_vested_balance(owner, acct(2), 100);
    v.add_vested_balance(owner, acct(3), 60);
    assert_eq!(v.get_all_vested_balance().len(), 2);

    let ev = v.setup_vesting(owner, 8, 10);
    assert_eq!(ev.status, VestingStatus::EmitSuccess(Success::VestingSetupSuccess));
    assert!(v.get_all_vested_balance().is_empty());
    assert_eq!(v.get_vesting_info(), (8, 10, owner));
}

#[test]
fn totals_partition_slice_amounts_at_every_step() {
    let owner = acct(1);
    let a = acct(2);
    let mut v = Vesting::new(7, 3, owner);
    v.add_vested_balance(owner, a, 100);
    let check = |v: &Vesting| {
        for b in v.get_all_vested_balance() {
            assert_eq!(totals(&b), slice_sum(&b));
        }
    };
    check(&v);
    v.thaw_vested_balances(owner, 1);
    check(&v);
    v.thaw_vested_balances(owner, 3);
    check(&v);
    v.request_transfer(a, 3, acct(4));
    check(&v);
    v.approve_transfer(owner, a, 3, vec![0xCD]);
    check(&v);
}

#[test]
fn statuses_never_decrease_across_operations() {
    let owner = acct(1);
    let a = acct(2);
    let mut v = Vesting::new(7, 4, owner);
    v.add_vested_balance(owner, a, 100);
    let mut prev: Vec<u8> = v.get_vested_balance(a).unwrap().vested_balance_schedules.iter().map(|s| s.status).collect();
    let steps: Vec<Box<dyn Fn(&mut Vesting)>> = vec![
        Box::new(move |v: &mut Vesting| {
            v.thaw_vested_balances(acct(1), 2);
        }),
        Box::new(move |v: &mut Vesting| {
            v.thaw_vested_balances(acct(1), 2);
        }),
        Box::new(move |v: &mut Vesting| {
            v.request_transfer(acct(2), 2, acct(5));
        }),
        Box::new(move |v: &mut Vesting| {
            v.request_transfer(acct(2), 2, acct(5));
        }),
        Box::new(move |v: &mut Vesting| {
            v.approve_transfer(acct(1), acct(2), 2, vec![1, 2]);
        }),
        Box::new(move |v: &mut Vesting| {
            v.approve_transfer(acct(1), acct(2), 2, vec![1, 2]);
        }),
    ];
    for step in steps {
        step(&mut v);
        let now: Vec<u8> = v.get_vested_balance(a).unwrap().vested_balance_schedules.iter().map(|s| s.status).collect();
        assert_eq!(now.len(), prev.len());
        for (old_status, new_status) in prev.iter().zip(now.iter()) {
            assert!(new_status >= old_status);
        }
        prev = now;
    }
}

#[test]
fn truncated_division_leaves_remainder_out_of_buckets() {
    let owner = acct(1);
    let a = acct(2);
    let mut v = Vesting::new(7, 4, owner);
    v.add_vested_balance(owner, a, 10);
    let b = v.get_vested_balance(a).unwrap();
    assert_eq!(b.original_balance, 10);
    for s in &b.vested_balance_schedules {
        assert_eq!(s.schedule_balance, 2);
    }
    // The remainder of 10 / 4 belongs to no slice and so to no bucket: the
    // frozen total starts at the slice sum, keeping the partition exact.
    assert_eq!(b.frozen_balance, 8);
    assert_eq!(totals(&b), slice_sum(&b));
}

#[test]
fn request_without_balance_not_found() {
    let owner = acct(1);
    let mut v = Vesting::new(7, 4, owner);
    v.add_vested_balance(owner, acct(2), 100);
    let before = v.get_all_vested_balance();
    let ev = v.request_transfer(acct(9), 1, acct(3));
    assert_eq!(ev.status, VestingStatus::EmitError(Error::VestedBalanceNotFound));
    assert_eq!(v.get_all_vested_balance(), before);
}

#[test]
fn approve_unknown_address_not_found() {
    let owner = acct(1);
    let mut v = Vesting::new(7, 4, owner);
    let ev = v.approve_transfer(owner, acct(9), 1, vec![1]);
    assert_eq!(ev.status, VestingStatus::EmitError(Error::VestedBalanceNotFound));
}

#[test]
fn remove_unknown_address_not_found() {
    let owner = acct(1);
    let mut v = Vesting::new(7, 4, owner);
    let ev = v.remove_vested_balance(owner, acct(9));
    assert_eq!(ev.status, VestingStatus::EmitError(Error::VestedBalanceNotFound));
}

#[test]
fn schedule_number_out_of_range_not_found() {
    let owner = acct(1);
    let a = acct(2);
    let mut v = Vesting::new(7, 4, owner);
    v.add_vested_balance(owner, a, 100);
    let ev = v.request_transfer(a, 9, acct(3));
    assert_eq!(ev.status, VestingStatus::EmitError(Error::VestedBalanceScheduleNotFound));
    let ev = v.approve_transfer(owner, a, 0, vec![1]);
    assert_eq!(ev.status, VestingStatus::EmitError(Error::VestedBalanceScheduleNotFound));
}

#[test]
fn thaw_reports_success_even_when_nothing_changes() {
    let owner = acct(1);
    let mut v = Vesting::new(7, 4, owner);
    let ev = v.thaw_vested_balances(owner, 1);
    assert_eq!(ev.operator, owner);
    assert_eq!(ev.status, VestingStatus::EmitSuccess(Success::VestedBalanceScheduleThawed));
}

#[test]
fn get_vested_balance_returns_a_snapshot() {
    let owner = acct(1);
    let a = acct(2);
    let mut v = Vesting::new(7, 2, owner);
    v.add_vested_balance(owner, a, 100);
    let snapshot = v.get_vested_balance(a).unwrap();
    assert!(v.get_vested_balance(acct(9)).is_none());

    v.thaw_vested_balances(owner, 1);
    // The snapshot is a copy: the ledger's later change does not reach it.
    assert_eq!(snapshot.vested_balance_schedules[0].status, 0);
    let now = v.get_vested_balance(a).unwrap();
    assert_eq!(now.vested_balance_schedules[0].status, 1);
}

#[test]
fn thaw_touches_every_balance() {
    let owner = acct(1);
    let mut v = Vesting::new(7, 2, owner);
    v.add_vested_balance(owner, acct(2), 100);
    v.add_vested_balance(owner, acct(3), 40);
    v.thaw_vested_balances(owner, 2);
    for b in v.get_all_vested_balance() {
        assert_eq!(b.vested_balance_schedules[0].status, 0);
        assert_eq!(b.vested_balance_schedules[1].status, 1);
        assert_eq!(b.liquid_balance, b.vested_balance_schedules[1].schedule_balance);
    }
}
