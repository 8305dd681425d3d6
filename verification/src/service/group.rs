//! Groups of users: the aggregation boundary for balances.

use vstd::prelude::*;

verus! {

/// A per-currency amount on a group member.
#[derive(Debug)]
pub struct Balance {
    pub currency_code: Option<String>,
    pub amount: Option<String>,
}

/// A debt between two users of a group.
#[derive(Debug)]
pub struct Debt {
    pub from: Option<i64>,
    pub to: Option<i64>,
    pub amount: Option<String>,
    pub currency_code: Option<String>,
}

/// A user as a group stores one.
#[derive(Debug)]
pub struct User {
    pub id: Option<String>,
    pub first_name: Option<String>,
    pub last_name: Option<String>,
    pub email: Option<String>,
    /// Registration status: `confirmed` or `unconfirmed`.
    pub registration_status: Option<String>,
    /// The user's balance in each currency.
    pub balance: Option<Vec<Balance>>,
}

/// A group of users sharing expenses.
#[derive(Debug)]
pub struct Group {
    pub id: Option<String>,
    pub name: Option<String>,
    /// What the group is used for: `apartment`, `house`, `trip` or `other`.
    pub group_type: Option<String>,
    /// When the group was last updated, in milliseconds since the Unix epoch.
    pub updated_at: Option<i64>,
    pub simplify_by_default: Option<bool>,
    pub members: Option<Vec<User>>,
    pub original_debts: Option<Vec<Debt>>,
    pub simplified_debts: Option<Vec<Debt>>,
}

/// The command that creates a group.
#[derive(Debug, PartialEq, Eq)]
pub struct CreateGroupSpec {
    pub name: String,
    pub users: Option<Vec<GroupUser>>,
}

/// A member named by a create-group command.
#[derive(Debug, PartialEq, Eq)]
pub struct GroupUser {
    pub user_id: String,
    pub first_name: Option<String>,
}

impl From<GroupUser> for User {
    fn from(group_user: GroupUser) -> (r: User) {
        User {
            id: Option::Some(group_user.user_id),
            first_name: group_user.first_name,
            last_name: Option::None,
            email: Option::None,
            registration_status: Option::None,
            balance: Option::None,
        }
    }
}

impl vstd::std_specs::convert::FromSpecImpl<GroupUser> for User {
    open spec fn obeys_from_spec() -> bool {
        true
    }

    open spec fn from_spec(group_user: GroupUser) -> User {
        User {
            id: Option::Some(group_user.user_id),
            first_name: group_user.first_name,
            last_name: Option::None,
            email: Option::None,
            registration_status: Option::None,
            balance: Option::None,
        }
    }
}

/// The member record a create command derives for one named user.
pub open spec fn member_of(group_user: GroupUser) -> User {
    <User as vstd::std_specs::convert::FromSpec<GroupUser>>::from_spec(group_user)
}

impl Group {
    /// The group record a create command stores: named, simplifying debts by
    /// default, with one member per named user; the database assigns the id
    /// afterwards.
    pub fn from_create_spec(create_spec: CreateGroupSpec) -> (g: Group)
        ensures
            g.id is None,
            g.name == Some(create_spec.name),
            g.group_type is None,
            g.updated_at is None,
            g.simplify_by_default == Some(true),
            g.original_debts is None,
            g.simplified_debts is None,
            match create_spec.users {
                Option::Some(us) => g.members matches Some(ms) && ms@.len() == us@.len() && (
                forall|i: int| 0 <= i < us@.len() ==> #[trigger] ms@[i] == member_of(us@[i])),
                Option::None => g.members is None,
            },
    {
        let members: Option<Vec<User>> = match create_spec.users {
            Option::None => Option::None,
            Option::Some(mut us) => {
                let ghost orig = us@;
                let mut ms: Vec<User> = Vec::new();
                while us.len() > 0
                    invariant
                        ms@.len() + us@.len() == orig.len(),
                        us@ =~= orig.skip(ms@.len() as int),
                        forall|i: int|
                            0 <= i < ms@.len() ==> #[trigger] ms@[i] == member_of(orig[i]),
                    decreases us@.len(),
                {
                    let gu = us.remove(0);
                    proof {
                        assert(gu == orig[ms@.len() as int]);
                    }
                    ms.push(User::from(gu));
                    proof {
                        assert(us@ =~= orig.skip(ms@.len() as int));
                    }
                }
                Option::Some(ms)
            },
        };
        Group {
            id: Option::None,
            name: Option::Some(create_spec.name),
            group_type: Option::None,
            updated_at: Option::None,
            simplify_by_default: Option::Some(true),
            members,
            original_debts: Option::None,
            simplified_debts: Option::None,
        }
    }

    /// Whether some member of the group carries the given user id.
    #[verifier::loop_isolation(false)]
    pub fn has_member(&self, user_id: &String) -> (r: bool)
        ensures
            r == match self.members {
                Option::Some(ms) => exists|i: int|
                    0 <= i < ms@.len() && ((#[trigger] ms@[i]).id matches Some(s) && s@
                        == user_id@),
                Option::None => false,
            },
    {
        match &self.members {
            Option::None => false,
            Option::Some(ms) => {
                let n = ms.len();
                let mut i: usize = 0;
                while i < n
                    invariant
                        i <= n,
                        n == ms@.len(),
                        forall|j: int|
                            0 <= j < i ==> !((#[trigger] ms@[j]).id matches Some(s) && s@
                                == user_id@),
                    decreases n - i,
                {
                    match &ms[i].id {
                        Option::Some(mid) => {
                            if *mid == *user_id {
                                proof {
                                    assert((ms@[i as int]).id matches Some(s) && s@ == user_id@);
                                }
                                return true;
                            }
                        },
                        Option::None => {},
                    }
                    i += 1;
                }
                false
            },
        }
    }
}

} // verus!
