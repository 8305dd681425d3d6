//! Expenses: the equal-split share calculator, expense assembly, and the
//! partial-update path.

use vstd::prelude::*;
use vstd::string::StrSliceExecFns;
use crate::money::{
    format_money, money_in_range, money_ok, money_string, money_val, parse_money, divide_cents,
    round_half_even, MoneyError,
};

verus! {

/// Errors the expense core reports to its callers.
#[derive(Clone, Copy, Debug, PartialEq, Eq, Structural)]
pub enum ExpenseError {
    /// A malformed identifier or amount.
    Validation,
    /// The referenced record does not exist.
    NotFound,
    /// An amount left the representable range.
    Arithmetic,
}

impl ExpenseError {
    /// A short description of the error.
    pub fn message(&self) -> (s: &'static str)
        ensures
            *self == ExpenseError::Validation ==> s@ == "validation error"@,
            *self == ExpenseError::NotFound ==> s@ == "not found"@,
            *self == ExpenseError::Arithmetic ==> s@ == "amount out of range"@,
    {
        match self {
            ExpenseError::Validation => "validation error",
            ExpenseError::NotFound => "not found",
            ExpenseError::Arithmetic => "amount out of range",
        }
    }
}

/// A per-currency amount, as the service stores it on users and groups.
#[derive(Debug)]
pub struct Balance {
    pub currency_code: Option<String>,
    pub amount: Option<String>,
}

/// A debt between two users.
#[derive(Debug)]
pub struct Debt {
    pub from: Option<i64>,
    pub to: Option<i64>,
    pub amount: Option<String>,
    pub currency_code: Option<String>,
}

/// A user's balances within one group.
#[derive(Debug)]
pub struct GroupBalance {
    pub group_id: Option<i64>,
    pub balance: Option<Vec<Balance>>,
}

/// A user as the expense service sees one.
#[derive(Debug)]
pub struct User {
    pub id: Option<String>,
    pub first_name: Option<String>,
    pub email: Option<String>,
    pub default_currency: Option<String>,
    pub balance: Option<Vec<Balance>>,
    pub updated_at: Option<i64>,
}

/// User with share information associated with the expense.
#[derive(Debug, Clone)]
pub struct UserShare {
    pub user: Option<User>,
    pub paid_share: Option<String>,
    pub owed_share: Option<String>,
    pub net_balance: Option<String>,
}

/// Both optional strings hold the same characters, or both are absent.
pub open spec fn opt_str_eqv(a: Option<String>, b: Option<String>) -> bool {
    match (a, b) {
        (Option::None, Option::None) => true,
        (Option::Some(x), Option::Some(y)) => x@ == y@,
        _ => false,
    }
}

/// Two balances hold the same characters field for field.
pub open spec fn balance_eqv(a: Balance, b: Balance) -> bool {
    opt_str_eqv(a.currency_code, b.currency_code) && opt_str_eqv(a.amount, b.amount)
}

/// Two users agree on every field, comparing strings by their characters.
pub open spec fn user_eqv(a: User, b: User) -> bool {
    &&& opt_str_eqv(a.id, b.id)
    &&& opt_str_eqv(a.first_name, b.first_name)
    &&& opt_str_eqv(a.email, b.email)
    &&& opt_str_eqv(a.default_currency, b.default_currency)
    &&& a.updated_at == b.updated_at
    &&& match (a.balance, b.balance) {
        (Option::None, Option::None) => true,
        (Option::Some(x), Option::Some(y)) => x@.len() == y@.len() && (forall|i: int|
            0 <= i < x@.len() ==> balance_eqv(#[trigger] x@[i], y@[i])),
        _ => false,
    }
}

fn clone_opt_string(o: &Option<String>) -> (r: Option<String>)
    ensures
        opt_str_eqv(r, *o),
        r is Some <==> *o is Some,
{
    match o {
        Option::None => Option::None,
        Option::Some(s) => Option::Some(s.clone()),
    }
}

impl Clone for Balance {
    fn clone(&self) -> (r: Self)
        ensures
            balance_eqv(r, *self),
    {
        Balance {
            currency_code: clone_opt_string(&self.currency_code),
            amount: clone_opt_string(&self.amount),
        }
    }
}

impl Clone for User {
    fn clone(&self) -> (r: Self)
        ensures
            user_eqv(r, *self),
    {
        let balance: Option<Vec<Balance>> = match &self.balance {
            Option::None => Option::None,
            Option::Some(v) => {
                let mut out: Vec<Balance> = Vec::new();
                let mut i: usize = 0;
                while i < v.len()
                    invariant
                        i <= v.len(),
                        out@.len() == i,
                        forall|j: int| 0 <= j < i ==> balance_eqv(#[trigger] out@[j], v@[j]),
                    decreases v.len() - i,
                {
                    out.push(v[i].clone());
                    i += 1;
                }
                Option::Some(out)
            },
        };
        User {
            id: clone_opt_string(&self.id),
            first_name: clone_opt_string(&self.first_name),
            email: clone_opt_string(&self.email),
            default_currency: clone_opt_string(&self.default_currency),
            balance,
            updated_at: self.updated_at,
        }
    }
}

impl Default for User {
    fn default() -> (r: Self)
        ensures
            r.id is None,
            r.first_name is None,
            r.email is None,
            r.default_currency is None,
            r.balance is None,
            r.updated_at is None,
    {
        User {
            id: Option::None,
            first_name: Option::None,
            email: Option::None,
            default_currency: Option::None,
            balance: Option::None,
            updated_at: Option::None,
        }
    }
}

impl Default for UserShare {
    fn default() -> (r: Self)
        ensures
            r.user is None,
            r.paid_share is None,
            r.owed_share is None,
            r.net_balance is None,
    {
        UserShare {
            user: Option::None,
            paid_share: Option::None,
            owed_share: Option::None,
            net_balance: Option::None,
        }
    }
}

/// Cadence at which an expense repeats.
#[derive(Debug, Clone, Copy, PartialEq, Eq, Structural)]
pub enum RepeatInterval {
    Never,
    Weekly,
    Fortnightly,
    Monthly,
    Yearly,
}

/// The lowercase name of each repeat interval.
pub open spec fn interval_name(ri: RepeatInterval) -> Seq<char> {
    match ri {
        RepeatInterval::Never => "never"@,
        RepeatInterval::Weekly => "weekly"@,
        RepeatInterval::Fortnightly => "fortnightly"@,
        RepeatInterval::Monthly => "monthly"@,
        RepeatInterval::Yearly => "yearly"@,
    }
}

/// The interval a lowercase name denotes, if any.
pub open spec fn interval_for(s: Seq<char>) -> Option<RepeatInterval> {
    if s == "never"@ {
        Option::Some(RepeatInterval::Never)
    } else if s == "weekly"@ {
        Option::Some(RepeatInterval::Weekly)
    } else if s == "fortnightly"@ {
        Option::Some(RepeatInterval::Fortnightly)
    } else if s == "monthly"@ {
        Option::Some(RepeatInterval::Monthly)
    } else if s == "yearly"@ {
        Option::Some(RepeatInterval::Yearly)
    } else {
        Option::None
    }
}

fn str_eq(a: &str, b: &str) -> (r: bool)
    ensures
        r == (a@ == b@),
{
    let n = a.unicode_len();
    if n != b.unicode_len() {
        return false;
    }
    let mut i: usize = 0;
    while i < n
        invariant
            i <= n,
            n == a@.len(),
            n == b@.len(),
            forall|j: int| 0 <= j < i ==> a@[j] == b@[j],
        decreases n - i,
    {
        if a.get_char(i) != b.get_char(i) {
            return false;
        }
        i += 1;
    }
    proof {
        assert(a@ =~= b@);
    }
    true
}

impl RepeatInterval {
    /// The lowercase name the service renders for this interval.
    pub fn display(&self) -> (s: &'static str)
        ensures
            s@ == interval_name(*self),
    {
        match self {
            RepeatInterval::Never => "never",
            RepeatInterval::Weekly => "weekly",
            RepeatInterval::Fortnightly => "fortnightly",
            RepeatInterval::Monthly => "monthly",
            RepeatInterval::Yearly => "yearly",
        }
    }

    /// Reads an interval back from its lowercase name.
    pub fn from_name(s: &str) -> (r: Option<RepeatInterval>)
        ensures
            r == interval_for(s@),
    {
        if str_eq(s, "never") {
            Option::Some(RepeatInterval::Never)
        } else if str_eq(s, "weekly") {
            Option::Some(RepeatInterval::Weekly)
        } else if str_eq(s, "fortnightly") {
            Option::Some(RepeatInterval::Fortnightly)
        } else if str_eq(s, "monthly") {
            Option::Some(RepeatInterval::Monthly)
        } else if str_eq(s, "yearly") {
            Option::Some(RepeatInterval::Yearly)
        } else {
            Option::None
        }
    }
}

/// The member sequence without any occurrence of the payer, order kept.
pub open spec fn others_of(group: Seq<Seq<char>>, payer: Seq<char>) -> Seq<Seq<char>>
    decreases group.len(),
{
    if group.len() == 0 {
        Seq::empty()
    } else if group.last() == payer {
        others_of(group.drop_last(), payer)
    } else {
        others_of(group.drop_last(), payer).push(group.last())
    }
}

/// How often a member id occurs in the member sequence.
pub open spec fn count_of(group: Seq<Seq<char>>, x: Seq<char>) -> int
    decreases group.len(),
{
    if group.len() == 0 {
        0
    } else {
        count_of(group.drop_last(), x) + if group.last() == x {
            1int
        } else {
            0int
        }
    }
}

/// A user that carries an id and nothing else.
pub open spec fn blank_user_with_id(u: User, uid: Seq<char>) -> bool {
    &&& u.id matches Some(s) && s@ == uid
    &&& u.first_name is None
    &&& u.email is None
    &&& u.default_currency is None
    &&& u.balance is None
    &&& u.updated_at is None
}

/// A share record for the given user carrying the given amounts of cents,
/// each rendered as a two-decimal string.
pub open spec fn is_share_rec(r: UserShare, uid: Seq<char>, paid: int, owed: int, net: int) -> bool {
    &&& r.user matches Some(u) && blank_user_with_id(u, uid)
    &&& r.paid_share matches Some(p) && p@ == money_string(paid)
    &&& r.owed_share matches Some(o) && o@ == money_string(owed)
    &&& r.net_balance matches Some(b) && b@ == money_string(net)
}

/// What an equal split returns for a non-empty member sequence: one record
/// per non-payer member, in order, each owing the common share and having
/// paid nothing, then the payer's record, which paid the whole cost, owes
/// the common share, and nets the rest.
pub open spec fn equal_share_post(
    r: Seq<UserShare>,
    cost: Seq<char>,
    payer: Seq<char>,
    group: Seq<Seq<char>>,
) -> bool {
    let c = money_val(cost);
    let common = round_half_even(c, group.len() as int);
    let others = others_of(group, payer);
    &&& r.len() == others.len() + 1
    &&& forall|i: int|
        0 <= i < others.len() ==> is_share_rec(#[trigger] r[i], others[i], 0, common, -common)
    &&& is_share_rec(r[r.len() - 1], payer, c, common, c - common)
}

pub(crate) fn make_share(uid: String, paid: i64, owed: i64, net: i64) -> (r: UserShare)
    ensures
        is_share_rec(r, uid@, paid as int, owed as int, net as int),
{
    UserShare {
        user: Option::Some(
            User {
                id: Option::Some(uid),
                first_name: Option::None,
                email: Option::None,
                default_currency: Option::None,
                balance: Option::None,
                updated_at: Option::None,
            },
        ),
        paid_share: Option::Some(format_money(paid)),
        owed_share: Option::Some(format_money(owed)),
        net_balance: Option::Some(format_money(net)),
    }
}

/// Computes per-user shares for an expense split equally over a group.
#[derive(Debug, Clone, Copy)]
pub struct ShareCalculator {}

impl Default for ShareCalculator {
    fn default() -> (r: Self)
        ensures
            r == (ShareCalculator {  }),
    {
        ShareCalculator {  }
    }
}

impl ShareCalculator {
    pub fn new() -> (r: Self)
        ensures
            r == (ShareCalculator {  }),
    {
        ShareCalculator {  }
    }

    /// Splits a cost equally over the group's members: everyone owes the
    /// same rounded share; the payer is assumed to be among the members and
    /// is listed last with the whole cost on the paid side.
    #[verifier::loop_isolation(false)]
    pub fn equal_share(&self, cost: String, payer_id: String, group: Vec<String>) -> (r: Vec<
        UserShare,
    >)
        requires
            group@.len() > 0 ==> money_ok(cost@) && money_in_range(money_val(cost@)),
        ensures
            group@.len() == 0 ==> r@ == Seq::<UserShare>::empty(),
            group@.len() > 0 ==> equal_share_post(r@, cost@, payer_id@, group.deep_view()),
    {
        if group.len() == 0 {
            let r: Vec<UserShare> = Vec::new();
            proof {
                assert(r@ =~= Seq::<UserShare>::empty());
            }
            return r;
        }
        let cost_cents: i64 = match parse_money(cost.as_str()) {
            Ok(v) => v,
            Err(_) => {
                proof {
                    assert(false);
                }
                0
            },
        };
        let n = group.len();
        let common = divide_cents(cost_cents, n);
        let payer_net = cost_cents - common;
        let debt_net = -common;
        let ghost gd: Seq<Seq<char>> = group.deep_view();
        proof {
            assert(gd.len() == group@.len());
        }
        let mut shares: Vec<UserShare> = Vec::new();
        let mut idx: usize = 0;
        while idx < n
            invariant
                idx <= n,
                shares@.len() == others_of(gd.take(idx as int), payer_id@).len(),
                forall|i: int|
                    0 <= i < shares@.len() ==> is_share_rec(
                        #[trigger] shares@[i],
                        others_of(gd.take(idx as int), payer_id@)[i],
                        0,
                        common as int,
                        -common as int,
                    ),
            decreases n - idx,
        {
            let ghost pre = others_of(gd.take(idx as int), payer_id@);
            proof {
                assert(gd.take(idx + 1).drop_last() =~= gd.take(idx as int));
                assert(gd.take(idx + 1).last() == gd[idx as int]);
                assert(gd[idx as int] == group@[idx as int]@);
            }
            if !(group[idx] == payer_id) {
                let uid = group[idx].clone();
                shares.push(make_share(uid, 0, common, debt_net));
                proof {
                    assert(others_of(gd.take(idx + 1), payer_id@) =~= pre.push(gd[idx as int]));
                }
            } else {
                proof {
                    assert(others_of(gd.take(idx + 1), payer_id@) =~= pre);
                }
            }
            idx += 1;
        }
        proof {
            assert(gd.take(n as int) =~= gd);
        }
        shares.push(make_share(payer_id, cost_cents, common, payer_net));
        shares
    }
}

/// A stored expense. Timestamps are milliseconds since the Unix epoch.
#[derive(Debug)]
pub struct Expense {
    pub cost: Option<String>,
    pub description: Option<String>,
    pub date: Option<i64>,
    pub repeat_interval: Option<RepeatInterval>,
    pub currency_code: Option<String>,
    /// Null if the expense is not associated with a group.
    pub group_id: Option<String>,
    pub repeats: Option<bool>,
    /// Whether this was a payment between users.
    pub payment: Option<bool>,
    /// Transaction method.
    pub transaction_method: Option<String>,
    /// Transaction status.
    pub transaction_status: Option<String>,
    /// List of debts between users.
    pub repayments: Option<Vec<Debt>>,
    /// When the expense was created.
    pub created_at: Option<i64>,
    /// User that created the expense.
    pub created_by: Option<User>,
    /// The last time the expense was updated.
    pub updated_at: Option<i64>,
    /// User that updated the expense.
    pub updated_by: Option<User>,
    /// If the expense was deleted, when it was deleted.
    pub deleted_at: Option<i64>,
    pub deleted_by: Option<User>,
    pub users: Option<Vec<UserShare>>,
}

impl Default for Expense {
    fn default() -> (r: Self)
        ensures
            r.cost is None,
            r.description is None,
            r.date is None,
            r.repeat_interval is None,
            r.currency_code is None,
            r.group_id is None,
            r.repeats is None,
            r.payment is None,
            r.transaction_method is None,
            r.transaction_status is None,
            r.repayments is None,
            r.created_at is None,
            r.created_by is None,
            r.updated_at is None,
            r.updated_by is None,
            r.deleted_at is None,
            r.deleted_by is None,
            r.users is None,
    {
        Expense {
            cost: Option::None,
            description: Option::None,
            date: Option::None,
            repeat_interval: Option::None,
            currency_code: Option::None,
            group_id: Option::None,
            repeats: Option::None,
            payment: Option::None,
            transaction_method: Option::None,
            transaction_status: Option::None,
            repayments: Option::None,
            created_at: Option::None,
            created_by: Option::None,
            updated_at: Option::None,
            updated_by: Option::None,
            deleted_at: Option::None,
            deleted_by: Option::None,
            users: Option::None,
        }
    }
}

/// A stored expense together with its database identity.
#[derive(Debug)]
pub struct ExpenseEntity {
    pub id: Option<String>,
    pub expense: Expense,
}

/// The expenses a list query returned.
#[derive(Debug)]
pub struct ExpensesResponse {
    pub expenses: Vec<Expense>,
}

/// A query over stored expenses.
#[derive(Debug)]
pub struct ListExpensesRequest {
    /// If provided, only expenses in that group will be returned, and
    /// `friend_id` will be ignored.
    pub group_id: Option<String>,
    /// ID of another user. If provided, only expenses between the current and
    /// provided user will be returned.
    pub friend_id: Option<String>,
    /// Filter to expenses after this date.
    pub dated_after: Option<i64>,
    /// Filter to expenses before this date.
    pub dated_before: Option<i64>,
    /// Filter to expenses updated after this date.
    pub updated_after: Option<i64>,
    /// Filter to expenses updated before this date.
    pub updated_before: Option<i64>,
    /// Maximum number of expenses to return.
    pub limit: Option<i64>,
    /// Offset in the returned set of expenses.
    pub offset: Option<i64>,
}

/// The query parameters of a group-expenses request.
#[derive(Debug)]
pub struct GetExpensesRequest {
    pub group_id: String,
}

/// The validated command that creates an expense.
#[derive(Debug)]
pub struct CreateExpenseSpec {
    /// A string representation of a decimal value, limited to 2 decimal places.
    pub cost: String,
    pub group_id: String,
    pub user: User,
}

impl Default for CreateExpenseSpec {
    fn default() -> (r: Self)
        ensures
            r.cost@ == "0.00"@,
            r.group_id@ == ""@,
            r.user.id is None,
    {
        CreateExpenseSpec {
            cost: String::from_str("0.00"),
            group_id: String::from_str(""),
            user: User::default(),
        }
    }
}

/// A partial patch of a stored expense: every present field replaces the
/// stored one, absent fields are left untouched.
#[derive(Debug)]
pub struct UpdateExpenseSpec {
    /// A string representation of a decimal value, limited to 2 decimal places.
    pub cost: Option<String>,
    pub description: Option<String>,
    /// Free-form detail text; stored expenses have no such field, so the
    /// update path ignores it.
    pub details: Option<String>,
    /// The date and time the expense took place. May differ from `created_at`.
    pub date: Option<i64>,
    /// Cadence at which the expense repeats, by its lowercase name.
    pub repeat_interval: Option<String>,
    /// A currency code.
    pub currency_code: Option<String>,
    pub group_id: Option<String>,
    /// Users by share if not splitting the expense equally.
    pub users: Option<Vec<UserShare>>,
}

impl Default for UpdateExpenseSpec {
    fn default() -> (r: Self)
        ensures
            r.cost is None,
            r.description is None,
            r.details is None,
            r.date is None,
            r.repeat_interval is None,
            r.currency_code is None,
            r.group_id is None,
            r.users is None,
    {
        UpdateExpenseSpec {
            cost: Option::None,
            description: Option::None,
            details: Option::None,
            date: Option::None,
            repeat_interval: Option::None,
            currency_code: Option::None,
            group_id: Option::None,
            users: Option::None,
        }
    }
}

/// Whether a create command can succeed: the payer carries an id and the
/// cost is a representable two-decimal amount.
pub open spec fn create_ok(cs: CreateExpenseSpec) -> bool {
    &&& cs.user.id is Some
    &&& money_ok(cs.cost@)
    &&& money_in_range(money_val(cs.cost@))
}

/// The error a failing create command reports.
pub open spec fn create_err(cs: CreateExpenseSpec) -> ExpenseError {
    if cs.user.id is Some && money_ok(cs.cost@) {
        ExpenseError::Arithmetic
    } else {
        ExpenseError::Validation
    }
}

/// The expense a create command assembles at time `t`: the command's cost
/// and group, a single self-share for the payer, and all three timestamps
/// set to `t`.
pub open spec fn created_expense(cs: CreateExpenseSpec, t: i64, e: Expense) -> bool {
    let payer = cs.user.id.unwrap()@;
    let c = money_val(cs.cost@);
    &&& e.cost matches Some(s) && s@ == cs.cost@
    &&& e.group_id matches Some(g) && g@ == cs.group_id@
    &&& e.users matches Some(us) && us@.len() == 1 && is_share_rec(us@[0], payer, c, c, 0)
    &&& e.created_by matches Some(u) && user_eqv(u, cs.user)
    &&& e.created_at == Some(t)
    &&& e.updated_at == Some(t)
    &&& e.date == Some(t)
    &&& e.description is None
    &&& e.repeat_interval is None
    &&& e.currency_code is None
    &&& e.repeats is None
    &&& e.payment is None
    &&& e.transaction_method is None
    &&& e.transaction_status is None
    &&& e.repayments is None
    &&& e.updated_by is None
    &&& e.deleted_at is None
    &&& e.deleted_by is None
}

/// Turns a validated create-expense command into an expense record.
pub trait Expenses {
    /// Assembles the expense for a create command, stamped with the current
    /// time; the split covers the payer alone, as the create path derives
    /// the participant group from the command's single user.
    fn create_expense(&self, create_spec: &CreateExpenseSpec) -> (r: Result<Expense, ExpenseError>)
        ensures
            match r {
                Ok(e) => create_ok(*create_spec) && (exists|t: i64|
                    created_expense(*create_spec, t, e)),
                Err(err) => !create_ok(*create_spec) && err == create_err(*create_spec),
            },
    ;
}

/// Relies on chrono's `Utc::now` for the process clock; nothing is assumed
/// of the value it returns.
#[verifier::external_body]
fn now_millis() -> i64 {
    chrono::Utc::now().timestamp_millis()
}

/// Assembles expense records from create commands.
#[derive(Debug, Clone, Copy)]
pub struct ExpensesCalculator {}

impl Default for ExpensesCalculator {
    fn default() -> (r: Self)
        ensures
            r == (ExpensesCalculator {  }),
    {
        ExpensesCalculator {  }
    }
}

impl ExpensesCalculator {
    pub fn new() -> (r: Self)
        ensures
            r == (ExpensesCalculator {  }),
    {
        ExpensesCalculator {  }
    }

    /// Assembles the expense for a create command as of the given time.
    pub fn create_expense_at(&self, create_spec: &CreateExpenseSpec, now: i64) -> (r: Result<
        Expense,
        ExpenseError,
    >)
        ensures
            match r {
                Ok(e) => create_ok(*create_spec) && created_expense(*create_spec, now, e),
                Err(err) => !create_ok(*create_spec) && err == create_err(*create_spec),
            },
    {
        let payer_id: String = match &create_spec.user.id {
            Option::Some(s) => s.clone(),
            Option::None => {
                return Err(ExpenseError::Validation);
            },
        };
        match parse_money(create_spec.cost.as_str()) {
            Ok(_) => {},
            Err(MoneyError::Malformed) => {
                return Err(ExpenseError::Validation);
            },
            Err(MoneyError::OutOfRange) => {
                return Err(ExpenseError::Arithmetic);
            },
        }
        let ghost c = money_val(create_spec.cost@);
        let group: Vec<String> = vec![payer_id.clone()];
        proof {
            assert(group.deep_view() =~= seq![payer_id@]);
        }
        let share = ShareCalculator::new().equal_share(
            create_spec.cost.clone(),
            payer_id,
            group,
        );
        proof {
            lemma_single_member_share(share@, create_spec.cost@, create_spec.user.id.unwrap()@);
        }
        Ok(
            Expense {
                cost: Option::Some(create_spec.cost.clone()),
                description: Option::None,
                date: Option::Some(now),
                repeat_interval: Option::None,
                currency_code: Option::None,
                group_id: Option::Some(create_spec.group_id.clone()),
                repeats: Option::None,
                payment: Option::None,
                transaction_method: Option::None,
                transaction_status: Option::None,
                repayments: Option::None,
                created_at: Option::Some(now),
                created_by: Option::Some(create_spec.user.clone()),
                updated_at: Option::Some(now),
                updated_by: Option::None,
                deleted_at: Option::None,
                deleted_by: Option::None,
                users: Option::Some(share),
            },
        )
    }
}

impl Expenses for ExpensesCalculator {
    fn create_expense(&self, create_spec: &CreateExpenseSpec) -> (r: Result<Expense, ExpenseError>) {
        let now = now_millis();
        self.create_expense_at(create_spec, now)
    }
}

/// Law: splitting over a single-member group leaves one record in which the
/// member both paid and owes the whole cost, netting zero.
pub proof fn lemma_single_member_share(r: Seq<UserShare>, cost: Seq<char>, payer: Seq<char>)
    requires
        equal_share_post(r, cost, payer, seq![payer]),
    ensures
        r.len() == 1,
        is_share_rec(r[0], payer, money_val(cost), money_val(cost), 0),
{
    let g: Seq<Seq<char>> = seq![payer];
    assert(g.last() == payer);
    assert(g.drop_last() =~= Seq::<Seq<char>>::empty());
    assert(others_of(g, payer) == others_of(Seq::<Seq<char>>::empty(), payer));
    assert(others_of(Seq::<Seq<char>>::empty(), payer) == Seq::<Seq<char>>::empty());
    let c = money_val(cost);
    assert(round_half_even(c, 1) == c) by {
        vstd::arithmetic::div_mod::lemma_fundamental_div_mod(c, 1);
    }
}

/// Whether a patch can apply: a present cost must be a representable
/// two-decimal amount, and a present repeat interval must name one.
pub open spec fn update_ok(u: UpdateExpenseSpec) -> bool {
    &&& match u.cost {
        Option::Some(cs) => money_ok(cs@) && money_in_range(money_val(cs@)),
        Option::None => true,
    }
    &&& match u.repeat_interval {
        Option::Some(s) => interval_for(s@) is Some,
        Option::None => true,
    }
}

/// The error a failing patch reports.
pub open spec fn update_err(u: UpdateExpenseSpec) -> ExpenseError {
    if (u.repeat_interval matches Some(s) && interval_for(s@) is None) || (u.cost matches Some(cs)
        && !money_ok(cs@)) {
        ExpenseError::Validation
    } else {
        ExpenseError::Arithmetic
    }
}

/// The expense a patch yields: every present field of the patch replaces
/// the stored one, absent fields stay, and the update time is refreshed.
/// The stored shares are replaced only when the patch carries them; a cost
/// change alone leaves them as they were.
pub open spec fn apply_update_spec(e: Expense, u: UpdateExpenseSpec, now: i64) -> Expense {
    Expense {
        cost: if u.cost is Some {
            u.cost
        } else {
            e.cost
        },
        description: if u.description is Some {
            u.description
        } else {
            e.description
        },
        date: if u.date is Some {
            u.date
        } else {
            e.date
        },
        repeat_interval: match u.repeat_interval {
            Option::Some(s) => interval_for(s@),
            Option::None => e.repeat_interval,
        },
        currency_code: if u.currency_code is Some {
            u.currency_code
        } else {
            e.currency_code
        },
        group_id: if u.group_id is Some {
            u.group_id
        } else {
            e.group_id
        },
        repeats: e.repeats,
        payment: e.payment,
        transaction_method: e.transaction_method,
        transaction_status: e.transaction_status,
        repayments: e.repayments,
        created_at: e.created_at,
        created_by: e.created_by,
        updated_at: Some(now),
        updated_by: e.updated_by,
        deleted_at: e.deleted_at,
        deleted_by: e.deleted_by,
        users: if u.users is Some {
            u.users
        } else {
            e.users
        },
    }
}

impl Expense {
    /// Applies a partial update as of the given time: present patch fields
    /// replace stored ones, absent fields are left untouched, and
    /// `updated_at` is refreshed. Shares are not recomputed on a cost
    /// change; they change only when the patch carries them.
    pub fn apply_update(self, patch: UpdateExpenseSpec, now: i64) -> (r: Result<
        Expense,
        ExpenseError,
    >)
        ensures
            match r {
                Ok(e) => update_ok(patch) && e == apply_update_spec(self, patch, now),
                Err(err) => !update_ok(patch) && err == update_err(patch),
            },
    {
        if let Option::Some(s) = &patch.repeat_interval {
            if RepeatInterval::from_name(s.as_str()).is_none() {
                return Err(ExpenseError::Validation);
            }
        }
        if let Option::Some(cs) = &patch.cost {
            match parse_money(cs.as_str()) {
                Ok(_) => {},
                Err(MoneyError::Malformed) => {
                    return Err(ExpenseError::Validation);
                },
                Err(MoneyError::OutOfRange) => {
                    return Err(ExpenseError::Arithmetic);
                },
            }
        }
        let repeat_interval: Option<RepeatInterval> = match &patch.repeat_interval {
            Option::Some(s) => RepeatInterval::from_name(s.as_str()),
            Option::None => self.repeat_interval,
        };
        Ok(
            Expense {
                cost: if patch.cost.is_some() {
                    patch.cost
                } else {
                    self.cost
                },
                description: if patch.description.is_some() {
                    patch.description
                } else {
                    self.description
                },
                date: if patch.date.is_some() {
                    patch.date
                } else {
                    self.date
                },
                repeat_interval,
                currency_code: if patch.currency_code.is_some() {
                    patch.currency_code
                } else {
                    self.currency_code
                },
                group_id: if patch.group_id.is_some() {
                    patch.group_id
                } else {
                    self.group_id
                },
                repeats: self.repeats,
                payment: self.payment,
                transaction_method: self.transaction_method,
                transaction_status: self.transaction_status,
                repayments: self.repayments,
                created_at: self.created_at,
                created_by: self.created_by,
                updated_at: Option::Some(now),
                updated_by: self.updated_by,
                deleted_at: self.deleted_at,
                deleted_by: self.deleted_by,
                users: if patch.users.is_some() {
                    patch.users
                } else {
                    self.users
                },
            },
        )
    }
}

/// Law: a patch that carries only a description leaves the cost, group and
/// shares of the stored expense as they were, and refreshes the update
/// time.
pub proof fn lemma_update_description_only(e: Expense, u: UpdateExpenseSpec, now: i64)
    requires
        u.cost is None,
        u.date is None,
        u.repeat_interval is None,
        u.currency_code is None,
        u.group_id is None,
        u.users is None,
    ensures
        apply_update_spec(e, u, now).cost == e.cost,
        apply_update_spec(e, u, now).group_id == e.group_id,
        apply_update_spec(e, u, now).users == e.users,
        apply_update_spec(e, u, now).created_at == e.created_at,
        apply_update_spec(e, u, now).updated_at == Some(now),
        apply_update_spec(e, u, now).description == if u.description is Some {
            u.description
        } else {
            e.description
        },
{
}

/// The net balance a share record carries, in cents.
pub open spec fn net_val(r: UserShare) -> int {
    money_val(r.net_balance.unwrap()@)
}

/// Sum of the net balances over a sequence of share records.
pub open spec fn net_sum(rs: Seq<UserShare>) -> int
    decreases rs.len(),
{
    if rs.len() == 0 {
        0
    } else {
        net_sum(rs.drop_last()) + net_val(rs.last())
    }
}

proof fn lemma_net_sum_take(r: Seq<UserShare>, k: int, v: int)
    requires
        0 <= k <= r.len(),
        forall|i: int| 0 <= i < k ==> net_val(#[trigger] r[i]) == v,
    ensures
        net_sum(r.take(k)) == k * v,
    decreases k,
{
    if k == 0 {
        assert(r.take(0) =~= Seq::<UserShare>::empty());
    } else {
        lemma_net_sum_take(r, k - 1, v);
        assert(r.take(k).drop_last() =~= r.take(k - 1));
        assert(r.take(k).last() == r[k - 1]);
        assert((k - 1) * v + v == k * v) by (nonlinear_arith);
    }
}

/// Removing the payer's occurrences shortens the member sequence by exactly
/// their count.
pub proof fn lemma_others_len(group: Seq<Seq<char>>, payer: Seq<char>)
    ensures
        0 <= count_of(group, payer) <= group.len(),
        others_of(group, payer).len() == group.len() - count_of(group, payer),
    decreases group.len(),
{
    if group.len() > 0 {
        lemma_others_len(group.drop_last(), payer);
    }
}

/// Law: over an equal split whose payer is in the group exactly once, the
/// net balances sum to the remainder that rounding leaves, which is never
/// more than half a cent per member.
pub proof fn lemma_equal_split_net_sum(
    r: Seq<UserShare>,
    cost: Seq<char>,
    payer: Seq<char>,
    group: Seq<Seq<char>>,
)
    requires
        group.len() >= 1,
        count_of(group, payer) == 1,
        equal_share_post(r, cost, payer, group),
    ensures
        net_sum(r) == money_val(cost) - group.len() * round_half_even(
            money_val(cost),
            group.len() as int,
        ),
        -(group.len() as int) <= 2 * net_sum(r) <= group.len() as int,
{
    let c = money_val(cost);
    let n = group.len() as int;
    let common = round_half_even(c, n);
    let others = others_of(group, payer);
    lemma_others_len(group, payer);
    assert(others.len() == n - 1);
    assert forall|i: int| 0 <= i < others.len() implies net_val(#[trigger] r[i]) == -common by {
        crate::money::lemma_money_string_roundtrip(-common);
    }
    lemma_net_sum_take(r, n - 1, -common);
    assert(r.drop_last() =~= r.take(n - 1));
    assert(net_val(r.last()) == c - common) by {
        crate::money::lemma_money_string_roundtrip(c - common);
    }
    assert(net_sum(r) == (n - 1) * (-common) + (c - common));
    assert((n - 1) * (-common) + (c - common) == c - n * common) by (nonlinear_arith);
    crate::money::lemma_round_half_even_close(c, n);
}

/// Law: when the cost divides so that the rounding remainder is at most one
/// cent — in particular whenever it divides evenly — the net balances of an
/// equal split sum to zero within one cent.
pub proof fn lemma_equal_split_net_sum_within_cent(
    r: Seq<UserShare>,
    cost: Seq<char>,
    payer: Seq<char>,
    group: Seq<Seq<char>>,
)
    requires
        group.len() >= 1,
        count_of(group, payer) == 1,
        equal_share_post(r, cost, payer, group),
        money_val(cost) % (group.len() as int) <= 1 || money_val(cost) % (group.len() as int)
            >= group.len() as int - 1,
    ensures
        -1 <= net_sum(r) <= 1,
{
    lemma_equal_split_net_sum(r, cost, payer, group);
    let c = money_val(cost);
    let n = group.len() as int;
    let q = c / n;
    let rm = c % n;
    vstd::arithmetic::div_mod::lemma_fundamental_div_mod(c, n);
    assert(n * (q + 1) == n * q + n) by (nonlinear_arith);
    assert(c - n * round_half_even(c, n) == rm || c - n * round_half_even(c, n) == rm - n);
}

} // verus!
