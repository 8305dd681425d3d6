//! Per-group balance aggregation: folding the share records of a group's
//! live expenses into one consolidated record per user.

use vstd::prelude::*;
use vstd::arithmetic::mul::lemma_mul_inequality;
use crate::money::{
    money_in_range, money_ok, money_val, parse_money, MONEY_MAX_CENTS,
};
use crate::service::expense::{
    is_share_rec, make_share, net_val, Expense, ExpenseError, UserShare,
};

verus! {

/// A stored per-user balance row.
#[derive(Debug)]
pub struct Balance {
    pub user_id: String,
    pub balance: i64,
}

/// The query parameters of a balances request.
#[derive(Debug)]
pub struct ListBalancesRequest {
    pub group_id: String,
}

/// The expense belongs to the group and is not soft-deleted.
pub open spec fn in_group(e: Expense, gid: Seq<char>) -> bool {
    &&& e.group_id matches Some(g) && g@ == gid
    &&& e.deleted_at is None
}

/// The share records an expense carries.
pub open spec fn shares_of_expense(e: Expense) -> Seq<UserShare> {
    match e.users {
        Option::Some(v) => v@,
        Option::None => Seq::empty(),
    }
}

/// All share records of a group's live expenses, in order.
pub open spec fn group_shares(es: Seq<Expense>, gid: Seq<char>) -> Seq<UserShare>
    decreases es.len(),
{
    if es.len() == 0 {
        Seq::empty()
    } else if in_group(es.last(), gid) {
        group_shares(es.drop_last(), gid) + shares_of_expense(es.last())
    } else {
        group_shares(es.drop_last(), gid)
    }
}

/// A share record aggregation can read: a user id and three representable
/// two-decimal amounts.
pub open spec fn share_wf(r: UserShare) -> bool {
    &&& r.user matches Some(u) && u.id is Some
    &&& r.paid_share matches Some(p) && money_ok(p@) && money_in_range(money_val(p@))
    &&& r.owed_share matches Some(o) && money_ok(o@) && money_in_range(money_val(o@))
    &&& r.net_balance matches Some(b) && money_ok(b@) && money_in_range(money_val(b@))
}

pub open spec fn all_wf(rs: Seq<UserShare>) -> bool {
    forall|i: int| 0 <= i < rs.len() ==> share_wf(#[trigger] rs[i])
}

/// The user a share record belongs to.
pub open spec fn share_uid(r: UserShare) -> Seq<char> {
    r.user.unwrap().id.unwrap()@
}

/// The paid amount a share record carries, in cents.
pub open spec fn paid_val(r: UserShare) -> int {
    money_val(r.paid_share.unwrap()@)
}

/// The owed amount a share record carries, in cents.
pub open spec fn owed_val(r: UserShare) -> int {
    money_val(r.owed_share.unwrap()@)
}

/// The distinct user ids of a share sequence, in order of first appearance.
pub open spec fn uids_of(rs: Seq<UserShare>) -> Seq<Seq<char>>
    decreases rs.len(),
{
    if rs.len() == 0 {
        Seq::empty()
    } else {
        let pre = uids_of(rs.drop_last());
        if pre.contains(share_uid(rs.last())) {
            pre
        } else {
            pre.push(share_uid(rs.last()))
        }
    }
}

/// Sum of one user's column over a share sequence.
pub open spec fn sum_for(rs: Seq<UserShare>, uid: Seq<char>, f: spec_fn(UserShare) -> int) -> int
    decreases rs.len(),
{
    if rs.len() == 0 {
        0
    } else {
        sum_for(rs.drop_last(), uid, f) + if share_uid(rs.last()) == uid {
            f(rs.last())
        } else {
            0
        }
    }
}

pub open spec fn paid_fn() -> spec_fn(UserShare) -> int {
    |r: UserShare| paid_val(r)
}

pub open spec fn owed_fn() -> spec_fn(UserShare) -> int {
    |r: UserShare| owed_val(r)
}

pub open spec fn net_fn() -> spec_fn(UserShare) -> int {
    |r: UserShare| net_val(r)
}

/// A user's summed paid column.
pub open spec fn sum_paid(rs: Seq<UserShare>, uid: Seq<char>) -> int {
    sum_for(rs, uid, paid_fn())
}

/// A user's summed owed column.
pub open spec fn sum_owed(rs: Seq<UserShare>, uid: Seq<char>) -> int {
    sum_for(rs, uid, owed_fn())
}

/// A user's summed net column.
pub open spec fn sum_net(rs: Seq<UserShare>, uid: Seq<char>) -> int {
    sum_for(rs, uid, net_fn())
}

/// Every user's three sums stay in the representable range.
pub open spec fn sums_in_range(rs: Seq<UserShare>) -> bool {
    forall|i: int|
        0 <= i < uids_of(rs).len() ==> money_in_range(
            sum_paid(rs, #[trigger] uids_of(rs)[i]),
        ) && money_in_range(sum_owed(rs, uids_of(rs)[i])) && money_in_range(
            sum_net(rs, uids_of(rs)[i]),
        )
}

/// What balance aggregation returns: one consolidated record per user, in
/// order of first appearance, carrying that user's exact column sums.
pub open spec fn group_balance_post(out: Seq<UserShare>, rs: Seq<UserShare>) -> bool {
    let us = uids_of(rs);
    &&& out.len() == us.len()
    &&& forall|i: int|
        0 <= i < us.len() ==> is_share_rec(
            #[trigger] out[i],
            us[i],
            sum_paid(rs, us[i]),
            sum_owed(rs, us[i]),
            sum_net(rs, us[i]),
        )
}

/// No user id appears twice in the distinct-id sequence.
pub proof fn lemma_uids_distinct(rs: Seq<UserShare>)
    ensures
        forall|k1: int, k2: int|
            0 <= k1 < k2 < uids_of(rs).len() ==> uids_of(rs)[k1] != uids_of(rs)[k2],
    decreases rs.len(),
{
    if rs.len() > 0 {
        lemma_uids_distinct(rs.drop_last());
        let pre = uids_of(rs.drop_last());
        let u = share_uid(rs.last());
        if !pre.contains(u) {
            assert(forall|k: int| 0 <= k < pre.len() ==> pre[k] != u);
        }
    }
}

proof fn lemma_sum_for_bound(rs: Seq<UserShare>, uid: Seq<char>, f: spec_fn(UserShare) -> int, m: int)
    requires
        m >= 0,
        forall|i: int| 0 <= i < rs.len() ==> -m <= #[trigger] f(rs[i]) <= m,
    ensures
        -(rs.len() * m) <= sum_for(rs, uid, f) <= rs.len() * m,
    decreases rs.len(),
{
    if rs.len() > 0 {
        lemma_sum_for_bound(rs.drop_last(), uid, f, m);
        assert((rs.len() - 1) * m + m == rs.len() * m) by (nonlinear_arith);
    }
}

struct Tally {
    uid: String,
    paid: i128,
    owed: i128,
    net: i128,
}

spec fn tallies_ok(ts: Seq<Tally>, rs: Seq<UserShare>) -> bool {
    let us = uids_of(rs);
    &&& ts.len() == us.len()
    &&& forall|k: int|
        0 <= k < ts.len() ==> (#[trigger] ts[k]).uid@ == us[k] && ts[k].paid == sum_paid(
            rs,
            us[k],
        ) && ts[k].owed == sum_owed(rs, us[k]) && ts[k].net == sum_net(rs, us[k])
}

fn find_tally(acc: &Vec<Tally>, uid: &String) -> (r: Option<usize>)
    ensures
        match r {
            Some(k) => k < acc@.len() && acc@[k as int].uid@ == uid@,
            None => forall|k: int| 0 <= k < acc@.len() ==> (#[trigger] acc@[k]).uid@ != uid@,
        },
{
    let mut k: usize = 0;
    while k < acc.len()
        invariant
            k <= acc@.len(),
            forall|j: int| 0 <= j < k ==> (#[trigger] acc@[j]).uid@ != uid@,
        decreases acc@.len() - k,
    {
        if acc[k].uid == *uid {
            return Some(k);
        }
        k += 1;
    }
    None
}

/// Folds the share records of a group's live expenses into one consolidated
/// balance record per user.
pub struct BalanceAggregator {}

impl BalanceAggregator {
    pub fn new() -> (r: Self)
        ensures
            r == (BalanceAggregator {  }),
    {
        BalanceAggregator {  }
    }

    /// Aggregates all shares of the group's live expenses, grouped by user
    /// id and summed exactly; sums are rendered to two decimals only at the
    /// end. A group without expenses yields the empty sequence.
    #[verifier::loop_isolation(false)]
    #[verifier::rlimit(100)]
    pub fn group_balance(&self, group_id: &String, expenses: &Vec<Expense>) -> (r: Result<
        Vec<UserShare>,
        ExpenseError,
    >)
        ensures
            match r {
                Ok(out) => {
                    let rs = group_shares(expenses@, group_id@);
                    all_wf(rs) && sums_in_range(rs) && group_balance_post(out@, rs)
                },
                Err(err) => {
                    let rs = group_shares(expenses@, group_id@);
                    if err == ExpenseError::Validation {
                        !all_wf(rs)
                    } else {
                        err == ExpenseError::Arithmetic && all_wf(rs) && !sums_in_range(rs)
                    }
                },
            },
    {
        let ghost gs = group_shares(expenses@, group_id@);
        let mut collected: Vec<&UserShare> = Vec::new();
        let mut i: usize = 0;
        while i < expenses.len()
            invariant
                i <= expenses@.len(),
                collected@.len() == group_shares(expenses@.take(i as int), group_id@).len(),
                forall|k: int|
                    0 <= k < collected@.len() ==> *(#[trigger] collected@[k]) == group_shares(
                        expenses@.take(i as int),
                        group_id@,
                    )[k],
            decreases expenses@.len() - i,
        {
            let ghost pre = group_shares(expenses@.take(i as int), group_id@);
            proof {
                assert(expenses@.take(i + 1).drop_last() =~= expenses@.take(i as int));
                assert(expenses@.take(i + 1).last() == expenses@[i as int]);
            }
            let e = &expenses[i];
            let relevant: bool = match &e.group_id {
                Option::Some(g) => *g == *group_id && e.deleted_at.is_none(),
                Option::None => false,
            };
            if relevant {
                match &e.users {
                    Option::Some(v) => {
                        let mut j: usize = 0;
                        while j < v.len()
                            invariant
                                j <= v@.len(),
                                collected@.len() == pre.len() + j,
                                forall|k: int|
                                    0 <= k < pre.len() ==> *(#[trigger] collected@[k]) == pre[k],
                                forall|k: int|
                                    pre.len() <= k < collected@.len() ==> *(
                                    #[trigger] collected@[k]) == v@[k - pre.len()],
                            decreases v@.len() - j,
                        {
                            collected.push(&v[j]);
                            j += 1;
                        }
                    },
                    Option::None => {},
                }
            }
            proof {
                let cur = group_shares(expenses@.take(i + 1), group_id@);
                if in_group(expenses@[i as int], group_id@) {
                    assert(cur =~= pre + shares_of_expense(expenses@[i as int]));
                } else {
                    assert(cur =~= pre);
                }
                assert(forall|k: int|
                    0 <= k < collected@.len() ==> *(#[trigger] collected@[k]) == cur[k]);
            }
            i += 1;
        }
        proof {
            assert(expenses@.take(expenses@.len() as int) =~= expenses@);
            assert(collected@.len() == gs.len());
        }
        let total = collected.len();
        let mut acc: Vec<Tally> = Vec::new();
        let mut k: usize = 0;
        while k < total
            invariant
                k <= total,
                total == gs.len(),
                collected@.len() == gs.len(),
                forall|t: int| 0 <= t < gs.len() ==> *(#[trigger] collected@[t]) == gs[t],
                all_wf(gs.take(k as int)),
                tallies_ok(acc@, gs.take(k as int)),
            decreases total - k,
        {
            let ghost p = gs.take(k as int);
            proof {
                assert(gs.take(k + 1).drop_last() =~= p);
                assert(gs.take(k + 1).last() == gs[k as int]);
            }
            let r: &UserShare = collected[k];
            let u = match &r.user {
                Option::Some(u) => u,
                Option::None => {
                    proof {
                        assert(!share_wf(gs[k as int]));
                    }
                    return Err(ExpenseError::Validation);
                },
            };
            let uid: &String = match &u.id {
                Option::Some(s) => s,
                Option::None => {
                    proof {
                        assert(!share_wf(gs[k as int]));
                    }
                    return Err(ExpenseError::Validation);
                },
            };
            let dp: i64 = match &r.paid_share {
                Option::Some(p) => match parse_money(p.as_str()) {
                    Ok(v) => v,
                    Err(_) => {
                        proof {
                            assert(!share_wf(gs[k as int]));
                        }
                        return Err(ExpenseError::Validation);
                    },
                },
                Option::None => {
                    proof {
                        assert(!share_wf(gs[k as int]));
                    }
                    return Err(ExpenseError::Validation);
                },
            };
            let dow: i64 = match &r.owed_share {
                Option::Some(o) => match parse_money(o.as_str()) {
                    Ok(v) => v,
                    Err(_) => {
                        proof {
                            assert(!share_wf(gs[k as int]));
                        }
                        return Err(ExpenseError::Validation);
                    },
                },
                Option::None => {
                    proof {
                        assert(!share_wf(gs[k as int]));
                    }
                    return Err(ExpenseError::Validation);
                },
            };
            let dn: i64 = match &r.net_balance {
                Option::Some(b) => match parse_money(b.as_str()) {
                    Ok(v) => v,
                    Err(_) => {
                        proof {
                            assert(!share_wf(gs[k as int]));
                        }
                        return Err(ExpenseError::Validation);
                    },
                },
                Option::None => {
                    proof {
                        assert(!share_wf(gs[k as int]));
                    }
                    return Err(ExpenseError::Validation);
                },
            };
            proof {
                assert(share_wf(gs[k as int]));
                assert(all_wf(gs.take(k + 1)));
                assert(share_uid(gs[k as int]) == uid@);
                lemma_uids_distinct(p);
            }
            let pos = find_tally(&acc, uid);
            match pos {
                Option::Some(at) => {
                    proof {
                        assert(uids_of(p).contains(uid@)) by {
                            assert(uids_of(p)[at as int] == uid@);
                        }
                        assert(uids_of(gs.take(k + 1)) =~= uids_of(p));
                        assert forall|i2: int| 0 <= i2 < p.len() implies -(MONEY_MAX_CENTS as int)
                            <= #[trigger] paid_fn()(p[i2]) <= MONEY_MAX_CENTS as int by {
                            assert(share_wf(p[i2]));
                        }
                        assert forall|i2: int| 0 <= i2 < p.len() implies -(MONEY_MAX_CENTS as int)
                            <= #[trigger] owed_fn()(p[i2]) <= MONEY_MAX_CENTS as int by {
                            assert(share_wf(p[i2]));
                        }
                        assert forall|i2: int| 0 <= i2 < p.len() implies -(MONEY_MAX_CENTS as int)
                            <= #[trigger] net_fn()(p[i2]) <= MONEY_MAX_CENTS as int by {
                            assert(share_wf(p[i2]));
                        }
                        lemma_sum_for_bound(p, uid@, paid_fn(), MONEY_MAX_CENTS as int);
                        lemma_sum_for_bound(p, uid@, owed_fn(), MONEY_MAX_CENTS as int);
                        lemma_sum_for_bound(p, uid@, net_fn(), MONEY_MAX_CENTS as int);
                        lemma_mul_inequality(
                            p.len() as int,
                            usize::MAX as int,
                            MONEY_MAX_CENTS as int,
                        );
                    }
                    let t = &acc[at];
                    let np = t.paid + dp as i128;
                    let no = t.owed + dow as i128;
                    let nn = t.net + dn as i128;
                    let nu = t.uid.clone();
                    acc[at] = Tally { uid: nu, paid: np, owed: no, net: nn };
                    proof {
                        let us1 = uids_of(gs.take(k + 1));
                        assert forall|k2: int| 0 <= k2 < acc@.len() implies (#[trigger] acc@[k2]).uid@
                            == us1[k2] && acc@[k2].paid == sum_paid(gs.take(k + 1), us1[k2])
                            && acc@[k2].owed == sum_owed(gs.take(k + 1), us1[k2]) && acc@[k2].net
                            == sum_net(gs.take(k + 1), us1[k2]) by {
                            if k2 == at {
                            } else {
                                assert(us1[k2] != uid@);
                            }
                        }
                    }
                },
                Option::None => {
                    proof {
                        assert(!uids_of(p).contains(uid@)) by {
                            if uids_of(p).contains(uid@) {
                                let w = choose|w: int|
                                    0 <= w < uids_of(p).len() && uids_of(p)[w] == uid@;
                                assert(acc@[w].uid@ == uid@);
                            }
                        }
                        assert(uids_of(gs.take(k + 1)) =~= uids_of(p).push(uid@));
                    }
                    acc.push(
                        Tally {
                            uid: uid.clone(),
                            paid: dp as i128,
                            owed: dow as i128,
                            net: dn as i128,
                        },
                    );
                    proof {
                        let us1 = uids_of(gs.take(k + 1));
                        assert forall|k2: int| 0 <= k2 < acc@.len() implies (#[trigger] acc@[k2]).uid@
                            == us1[k2] && acc@[k2].paid == sum_paid(gs.take(k + 1), us1[k2])
                            && acc@[k2].owed == sum_owed(gs.take(k + 1), us1[k2]) && acc@[k2].net
                            == sum_net(gs.take(k + 1), us1[k2]) by {
                            if k2 < acc@.len() - 1 {
                                assert(us1[k2] != uid@) by {
                                    lemma_uids_distinct(gs.take(k + 1));
                                }
                            } else {
                                assert(sum_paid(p, uid@) == 0) by {
                                    lemma_sum_absent(p, uid@, paid_fn());
                                }
                                assert(sum_owed(p, uid@) == 0) by {
                                    lemma_sum_absent(p, uid@, owed_fn());
                                }
                                assert(sum_net(p, uid@) == 0) by {
                                    lemma_sum_absent(p, uid@, net_fn());
                                }
                            }
                        }
                    }
                },
            }
            k += 1;
        }
        proof {
            assert(gs.take(gs.len() as int) =~= gs);
        }
        let mut out: Vec<UserShare> = Vec::new();
        let mut w: usize = 0;
        let nacc = acc.len();
        while w < nacc
            invariant
                w <= nacc,
                nacc == acc@.len(),
                tallies_ok(acc@, gs),
                all_wf(gs),
                out@.len() == w,
                forall|i2: int|
                    0 <= i2 < w ==> money_in_range(sum_paid(gs, uids_of(gs)[i2]))
                        && money_in_range(sum_owed(gs, uids_of(gs)[i2])) && money_in_range(
                        sum_net(gs, uids_of(gs)[i2]),
                    ),
                forall|i2: int|
                    0 <= i2 < w ==> is_share_rec(
                        #[trigger] out@[i2],
                        uids_of(gs)[i2],
                        sum_paid(gs, uids_of(gs)[i2]),
                        sum_owed(gs, uids_of(gs)[i2]),
                        sum_net(gs, uids_of(gs)[i2]),
                    ),
            decreases nacc - w,
        {
            let t = &acc[w];
            if t.paid > MONEY_MAX_CENTS as i128 || t.paid < -MONEY_MAX_CENTS as i128 || t.owed
                > MONEY_MAX_CENTS as i128 || t.owed < -MONEY_MAX_CENTS as i128 || t.net
                > MONEY_MAX_CENTS as i128 || t.net < -MONEY_MAX_CENTS as i128 {
                return Err(ExpenseError::Arithmetic);
            }
            let uid = t.uid.clone();
            out.push(make_share(uid, t.paid as i64, t.owed as i64, t.net as i64));
            w += 1;
        }
        Ok(out)
    }
}

proof fn lemma_sum_absent(rs: Seq<UserShare>, uid: Seq<char>, f: spec_fn(UserShare) -> int)
    requires
        !uids_of(rs).contains(uid),
    ensures
        sum_for(rs, uid, f) == 0,
    decreases rs.len(),
{
    if rs.len() > 0 {
        let pre = uids_of(rs.drop_last());
        assert(uids_of(rs).contains(share_uid(rs.last()))) by {
            if pre.contains(share_uid(rs.last())) {
            } else {
                assert(uids_of(rs).last() == share_uid(rs.last()));
            }
        }
        assert(!pre.contains(uid)) by {
            if pre.contains(uid) {
                let w = choose|w: int| 0 <= w < pre.len() && pre[w] == uid;
                if pre.contains(share_uid(rs.last())) {
                    assert(uids_of(rs)[w] == uid);
                } else {
                    assert(uids_of(rs)[w] == uid);
                }
            }
        }
        lemma_sum_absent(rs.drop_last(), uid, f);
        assert(share_uid(rs.last()) != uid);
    }
}

} // verus!