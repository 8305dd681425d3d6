//! Users of the service.

use vstd::prelude::*;

verus! {

/// A per-currency amount on a user.
#[derive(Debug)]
pub struct Balance {
    pub currency_code: Option<String>,
    pub amount: Option<String>,
}

/// A user's balances within one group.
#[derive(Debug)]
pub struct GroupBalance {
    pub group_id: Option<i64>,
    pub balance: Option<Vec<Balance>>,
}

/// A stored user.
#[derive(Debug)]
pub struct User {
    pub id: Option<String>,
    pub first_name: Option<String>,
    pub email: Option<String>,
    pub default_currency: Option<String>,
    pub balance: Option<Vec<Balance>>,
    pub groups: Option<Vec<GroupBalance>>,
    pub updated_at: Option<i64>,
}

/// The command that creates a user.
#[derive(Debug)]
pub struct CreateUserSpec {
    pub first_name: String,
    pub email: String,
    pub default_currency: String,
}

impl User {
    /// The user record a create command stores: the given name and nothing
    /// else; the database assigns the id afterwards.
    pub fn from_create_spec(create_spec: CreateUserSpec) -> (u: User)
        ensures
            u.id is None,
            u.first_name == Some(create_spec.first_name),
            u.email is None,
            u.default_currency is None,
            u.balance is None,
            u.groups is None,
            u.updated_at is None,
    {
        User {
            id: Option::None,
            first_name: Option::Some(create_spec.first_name),
            email: Option::None,
            default_currency: Option::None,
            balance: Option::None,
            groups: Option::None,
            updated_at: Option::None,
        }
    }
}

} // verus!
