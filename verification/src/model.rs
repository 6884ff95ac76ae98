use vstd::prelude::*;
use crate::account::AccountId;

verus! {

/// Slice statuses, in lifecycle order. A slice only ever moves forward:
/// Frozen (0) -> Liquid (1) -> Requested (2) -> Transferred (3).
pub const STATUS_FROZEN: u8 = 0;

pub const STATUS_LIQUID: u8 = 1;

pub const STATUS_REQUESTED: u8 = 2;

pub const STATUS_TRANSFERRED: u8 = 3;

/// The mathematical shape of one schedule slice.
#[verifier::ext_equal]
pub struct SliceModel {
    pub number: u8,
    pub amount: u128,
    pub status: u8,
    pub recipient: Option<AccountId>,
    pub memo: Seq<u8>,
}

/// The mathematical shape of one address's vested balance.
#[verifier::ext_equal]
pub struct BalanceModel {
    pub address: AccountId,
    pub slices: Seq<SliceModel>,
    pub original: u128,
    pub frozen: u128,
    pub liquid: u128,
    pub requested: u128,
    pub transferred: u128,
}

/// The mathematical shape of the whole ledger.
#[verifier::ext_equal]
pub struct LedgerModel {
    pub asset_id: u128,
    pub schedule_count: u8,
    pub balances: Seq<BalanceModel>,
    pub owner: AccountId,
}

/// Sum of all slice amounts.
pub open spec fn sum_amounts(s: Seq<SliceModel>) -> int
    decreases s.len(),
{
    if s.len() == 0 {
        0
    } else {
        sum_amounts(s.drop_last()) + s.last().amount
    }
}

/// Sum of the amounts of the slices whose status is `status`.
pub open spec fn bucket_total(s: Seq<SliceModel>, status: u8) -> int
    decreases s.len(),
{
    if s.len() == 0 {
        0
    } else {
        bucket_total(s.drop_last(), status) + if s.last().status == status {
            s.last().amount as int
        } else {
            0
        }
    }
}

/// A slice is well formed: its status is one of the four lifecycle states,
/// a recipient appears only once the slice reaches Requested, and a memo
/// only once it reaches Transferred.
pub open spec fn slice_wf(sl: SliceModel) -> bool {
    &&& sl.status <= STATUS_TRANSFERRED
    &&& sl.status < STATUS_REQUESTED ==> sl.recipient is None
    &&& sl.status < STATUS_TRANSFERRED ==> sl.memo == Seq::<u8>::empty()
}

/// A balance is well formed for a ledger configured with `n` slices:
/// exactly `n` slices numbered 1..=n in order, each slice well formed,
/// the slice amounts summing to no more than the original amount, and the
/// four totals exactly partitioning the slice amounts by status.
pub open spec fn balance_wf(b: BalanceModel, n: u8) -> bool {
    &&& b.slices.len() == n as nat
    &&& forall|i: int| 0 <= i < b.slices.len() ==> slice_wf(#[trigger] b.slices[i])
    &&& forall|i: int| 0 <= i < b.slices.len() ==> (#[trigger] b.slices[i]).number == i + 1
    &&& sum_amounts(b.slices) <= b.original
    &&& b.frozen == bucket_total(b.slices, STATUS_FROZEN)
    &&& b.liquid == bucket_total(b.slices, STATUS_LIQUID)
    &&& b.requested == bucket_total(b.slices, STATUS_REQUESTED)
    &&& b.transferred == bucket_total(b.slices, STATUS_TRANSFERRED)
}

/// The ledger is well formed: every balance is well formed for the current
/// schedule count, and addresses are unique.
pub open spec fn ledger_wf(m: LedgerModel) -> bool {
    &&& forall|i: int|
        0 <= i < m.balances.len() ==> balance_wf(#[trigger] m.balances[i], m.schedule_count)
    &&& forall|i: int, j: int|
        0 <= i < j < m.balances.len() ==> (#[trigger] m.balances[i]).address != (
        #[trigger] m.balances[j]).address
}

/// Index of the first balance held by `a`, or -1 if there is none.
pub open spec fn find_balance(s: Seq<BalanceModel>, a: AccountId) -> int
    decreases s.len(),
{
    if s.len() == 0 {
        -1
    } else if s[0].address == a {
        0
    } else {
        let r = find_balance(s.subrange(1, s.len() as int), a);
        if r < 0 {
            -1
        } else {
            r + 1
        }
    }
}

/// Index of the first slice with schedule number `sn`, or -1 if there is none.
pub open spec fn find_slice(s: Seq<SliceModel>, sn: u8) -> int
    decreases s.len(),
{
    if s.len() == 0 {
        -1
    } else if s[0].number == sn {
        0
    } else {
        let r = find_slice(s.subrange(1, s.len() as int), sn);
        if r < 0 {
            -1
        } else {
            r + 1
        }
    }
}

/// There is a balance held by `a`.
pub open spec fn has_balance(m: LedgerModel, a: AccountId) -> bool {
    find_balance(m.balances, a) >= 0
}

/// What `find_balance` returns: a first match, or proof that none matches.
pub proof fn lemma_find_balance(s: Seq<BalanceModel>, a: AccountId)
    ensures
        -1 <= find_balance(s, a) < s.len(),
        find_balance(s, a) >= 0 ==> s[find_balance(s, a)].address == a,
        find_balance(s, a) == -1 ==> forall|i: int|
            0 <= i < s.len() ==> (#[trigger] s[i]).address != a,
        forall|i: int| 0 <= i < find_balance(s, a) ==> (#[trigger] s[i]).address != a,
    decreases s.len(),
{
    if s.len() == 0 {
    } else if s[0].address == a {
    } else {
        let tail = s.subrange(1, s.len() as int);
        lemma_find_balance(tail, a);
        assert forall|i: int| 1 <= i < s.len() implies s[i] == tail[i - 1] by {}
    }
}

/// What `find_slice` returns: a first match, or proof that none matches.
pub proof fn lemma_find_slice(s: Seq<SliceModel>, sn: u8)
    ensures
        -1 <= find_slice(s, sn) < s.len(),
        find_slice(s, sn) >= 0 ==> s[find_slice(s, sn)].number == sn,
        find_slice(s, sn) == -1 ==> forall|i: int|
            0 <= i < s.len() ==> (#[trigger] s[i]).number != sn,
        forall|i: int| 0 <= i < find_slice(s, sn) ==> (#[trigger] s[i]).number != sn,
    decreases s.len(),
{
    if s.len() == 0 {
    } else if s[0].number == sn {
    } else {
        let tail = s.subrange(1, s.len() as int);
        lemma_find_slice(tail, sn);
        assert forall|i: int| 1 <= i < s.len() implies s[i] == tail[i - 1] by {}
    }
}

/// Two sequences with pointwise equal addresses are searched alike.
pub proof fn lemma_find_balance_same_addresses(
    s1: Seq<BalanceModel>,
    s2: Seq<BalanceModel>,
    a: AccountId,
)
    requires
        s1.len() == s2.len(),
        forall|i: int| 0 <= i < s1.len() ==> (#[trigger] s1[i]).address == s2[i].address,
    ensures
        find_balance(s1, a) == find_balance(s2, a),
    decreases s1.len(),
{
    if s1.len() == 0 {
    } else {
        let t1 = s1.subrange(1, s1.len() as int);
        let t2 = s2.subrange(1, s2.len() as int);
        assert forall|i: int| 0 <= i < t1.len() implies (#[trigger] t1[i]).address
            == t2[i].address by {
            assert(t1[i] == s1[i + 1]);
            assert(t2[i] == s2[i + 1]);
        }
        lemma_find_balance_same_addresses(t1, t2, a);
    }
}

/// Searching after appending one balance: an existing match is found where
/// it was; otherwise the appended balance is found exactly when it matches.
pub proof fn lemma_find_balance_push(s: Seq<BalanceModel>, b: BalanceModel, a: AccountId)
    ensures
        find_balance(s.push(b), a) == if find_balance(s, a) >= 0 {
            find_balance(s, a)
        } else if b.address == a {
            s.len() as int
        } else {
            -1
        },
    decreases s.len(),
{
    if s.len() == 0 {
        assert(s.push(b).len() == 1);
        assert(s.push(b)[0] == b);
        assert(s.push(b).subrange(1, 1) =~= Seq::<BalanceModel>::empty());
        assert(find_balance(Seq::<BalanceModel>::empty(), a) == -1);
        assert(find_balance(s, a) == -1);
        if b.address == a {
            assert(find_balance(s.push(b), a) == 0);
        } else {
            assert(find_balance(s.push(b), a) == -1);
        }
    } else {
        let t = s.subrange(1, s.len() as int);
        lemma_find_balance_push(t, b, a);
        assert(s.push(b).subrange(1, s.push(b).len() as int) =~= t.push(b));
        assert(s.push(b)[0] == s[0]);
        if s[0].address == a {
            assert(find_balance(s, a) == 0);
            assert(find_balance(s.push(b), a) == 0);
        } else {
            let rt = find_balance(t.push(b), a);
            assert(find_balance(s.push(b), a) == if rt < 0 {
                -1
            } else {
                rt + 1
            });
            assert(t.len() + 1 == s.len());
            if find_balance(t, a) >= 0 {
                assert(find_balance(s, a) == find_balance(t, a) + 1);
                assert(find_balance(s.push(b), a) == find_balance(s, a));
            } else if b.address == a {
                assert(find_balance(s, a) == -1);
                assert(rt == t.len());
                assert(find_balance(s.push(b), a) == s.len());
            } else {
                assert(rt == -1);
                assert(find_balance(s.push(b), a) == -1);
                assert(find_balance(s, a) == -1);
            }
        }
    }
}

/// Every bucket holds a sub-sum of the slice amounts: each bucket total is
/// at least 0 and at most the full sum.
pub proof fn lemma_bucket_le_sum(s: Seq<SliceModel>, status: u8)
    ensures
        0 <= bucket_total(s, status) <= sum_amounts(s),
    decreases s.len(),
{
    if s.len() == 0 {
    } else {
        lemma_bucket_le_sum(s.drop_last(), status);
    }
}

/// With every status among the four lifecycle states, the four bucket totals
/// partition the slice amounts: they add up to the full sum.
pub proof fn lemma_buckets_partition(s: Seq<SliceModel>)
    requires
        forall|i: int| 0 <= i < s.len() ==> (#[trigger] s[i]).status <= STATUS_TRANSFERRED,
    ensures
        bucket_total(s, STATUS_FROZEN) + bucket_total(s, STATUS_LIQUID) + bucket_total(
            s,
            STATUS_REQUESTED,
        ) + bucket_total(s, STATUS_TRANSFERRED) == sum_amounts(s),
    decreases s.len(),
{
    if s.len() == 0 {
    } else {
        assert forall|i: int| 0 <= i < s.drop_last().len() implies (
        #[trigger] s.drop_last()[i]).status <= STATUS_TRANSFERRED by {
            assert(s.drop_last()[i] == s[i]);
        }
        lemma_buckets_partition(s.drop_last());
        assert(s.last() == s[s.len() - 1]);
    }
}

/// Prefix step for `sum_amounts`: extending a prefix by one slice adds
/// that slice's amount.
pub proof fn lemma_sum_take_step(s: Seq<SliceModel>, i: int)
    requires
        0 <= i < s.len(),
    ensures
        sum_amounts(s.take(i + 1)) == sum_amounts(s.take(i)) + s[i].amount,
{
    assert(s.take(i + 1).drop_last() =~= s.take(i));
    assert(s.take(i + 1).last() == s[i]);
}

/// Prefix step for `bucket_total`: extending a prefix by one slice adds its
/// amount to exactly the bucket matching its status.
pub proof fn lemma_bucket_take_step(s: Seq<SliceModel>, status: u8, i: int)
    requires
        0 <= i < s.len(),
    ensures
        bucket_total(s.take(i + 1), status) == bucket_total(s.take(i), status) + if s[i].status
            == status {
            s[i].amount as int
        } else {
            0
        },
{
    assert(s.take(i + 1).drop_last() =~= s.take(i));
    assert(s.take(i + 1).last() == s[i]);
}

/// A prefix never sums to more than the whole sequence.
pub proof fn lemma_sum_take_le(s: Seq<SliceModel>, i: int)
    requires
        0 <= i <= s.len(),
    ensures
        sum_amounts(s.take(i)) <= sum_amounts(s),
    decreases s.len() - i,
{
    if i == s.len() {
        assert(s.take(i) =~= s);
    } else {
        lemma_sum_take_step(s, i);
        lemma_sum_take_le(s, i + 1);
    }
}

/// A full-length prefix is the sequence itself.
pub proof fn lemma_take_full<A>(s: Seq<A>)
    ensures
        s.take(s.len() as int) =~= s,
{
}

/// The sum of slice amounts ignores everything but the amounts: two
/// sequences with pointwise equal amounts have the same sum.
pub proof fn lemma_sum_pointwise_amounts(s1: Seq<SliceModel>, s2: Seq<SliceModel>)
    requires
        s1.len() == s2.len(),
        forall|i: int| 0 <= i < s1.len() ==> (#[trigger] s1[i]).amount == s2[i].amount,
    ensures
        sum_amounts(s1) == sum_amounts(s2),
    decreases s1.len(),
{
    if s1.len() == 0 {
    } else {
        assert forall|i: int| 0 <= i < s1.drop_last().len() implies (
        #[trigger] s1.drop_last()[i]).amount == s2.drop_last()[i].amount by {
            assert(s1.drop_last()[i] == s1[i]);
            assert(s2.drop_last()[i] == s2[i]);
        }
        lemma_sum_pointwise_amounts(s1.drop_last(), s2.drop_last());
        assert(s1.last() == s1[s1.len() - 1]);
        assert(s2.last() == s2[s2.len() - 1]);
    }
}

} // verus!
