use swc::service::expense::{
    CreateExpenseSpec, ExpenseError, Expenses, ExpensesCalculator, RepeatInterval, ShareCalculator,
    UpdateExpenseSpec, User,
};

#[test]
fn display_repeat_interval() {
    assert_eq!(RepeatInterval::Never.display(), "never");
    assert_eq!(RepeatInterval::Weekly.display(), "weekly");
    assert_eq!(RepeatInterval::Fortnightly.display(), "fortnightly");
    assert_eq!(RepeatInterval::Monthly.display(), "monthly");
    assert_eq!(RepeatInterval::Yearly.display(), "yearly");
}

#[test]
fn repeat_interval_from_name_roundtrip() {
    for ri in [
        RepeatInterval::Never,
        RepeatInterval::Weekly,
        RepeatInterval::Fortnightly,
        RepeatInterval::Monthly,
        RepeatInterval::Yearly,
    ] {
        assert_eq!(RepeatInterval::from_name(ri.display()), Some(ri));
    }
    assert_eq!(RepeatInterval::from_name("sometimes"), None);
    assert_eq!(RepeatInterval::from_name(""), None);
}

#[test]
fn equally_split_expense() {
    let calculator = ShareCalculator::default();
    let cost = "42.00".to_string();
    let payer_id = "1".to_string();
    let group = vec!["1".to_string(), "2".to_string(), "3".to_string()];
    let result = calculator.equal_share(cost, payer_id, group);
    assert_eq!(result.len(), 3);

    let user1 = result
        .iter()
        .find(|share| share.user.as_ref().unwrap().id == Some("1".to_string()))
        .unwrap();
    assert_eq!(user1.paid_share, Some("42.00".to_string()));
    assert_eq!(user1.owed_share, Some("14.00".to_string()));
    assert_eq!(user1.net_balance, Some("28.00".to_string()));

    let user2 = result
        .iter()
        .find(|share| share.user.as_ref().unwrap().id == Some("2".to_string()))
        .unwrap();
    assert_eq!(user2.paid_share, Some("0.00".to_string()));
    assert_eq!(user2.owed_share, Some("14.00".to_string()));
    assert_eq!(user2.net_balance, Some("-14.00".to_string()));

    let user3 = result
        .iter()
        .find(|share| share.user.as_ref().unwrap().id == Some("3".to_string()))
        .unwrap();
    assert_eq!(user3.paid_share, Some("0.00".to_string()));
    assert_eq!(user3.owed_share, Some("14.00".to_string()));
    assert_eq!(user3.net_balance, Some("-14.00".to_string()));
}

#[test]
fn single_user_group_share() {
    let calculator = ShareCalculator::default();
    let cost = "42.00".to_string();
    let payer_id = "1".to_string();
    let group = vec!["1".to_string()];
    let result = calculator.equal_share(cost, payer_id, group);
    assert_eq!(result.len(), 1);

    let user1 = result
        .iter()
        .find(|share| share.user.as_ref().unwrap().id == Some("1".to_string()))
        .unwrap();
    assert_eq!(user1.paid_share, Some("42.00".to_string()));
    assert_eq!(user1.owed_share, Some("42.00".to_string()));
    assert_eq!(user1.net_balance, Some("0.00".to_string()));
}

#[test]
fn multiple_user_group_share() {
    let calculator = ShareCalculator::default();
    let cost = "42.00".to_string();
    let payer_id = "1".to_string();
    let group = vec![
        "1".to_string(),
        "2".to_string(),
        "3".to_string(),
        "4".to_string(),
    ];
    let result = calculator.equal_share(cost, payer_id, group);
    assert_eq!(result.len(), 4);

    let user1 = result
        .iter()
        .find(|share| share.user.as_ref().unwrap().id == Some("1".to_string()))
        .unwrap();
    assert_eq!(user1.paid_share, Some("42.00".to_string()));
    assert_eq!(user1.owed_share, Some("10.50".to_string()));
    assert_eq!(user1.net_balance, Some("31.50".to_string()));

    let user2 = result
        .iter()
        .find(|share| share.user.as_ref().unwrap().id == Some("2".to_string()))
        .unwrap();
    assert_eq!(user2.paid_share, Some("0.00".to_string()));
    assert_eq!(user2.owed_share, Some("10.50".to_string()));
    assert_eq!(user2.net_balance, Some("-10.50".to_string()));

    let user3 = result
        .iter()
        .find(|share| share.user.as_ref().unwrap().id == Some("3".to_string()))
        .unwrap();
    assert_eq!(user3.paid_share, Some("0.00".to_string()));
    assert_eq!(user3.owed_share, Some("10.50".to_string()));
    assert_eq!(user3.net_balance, Some("-10.50".to_string()));

    let user4 = result
        .iter()
        .find(|share| share.user.as_ref().unwrap().id == Some("4".to_string()))
        .unwrap();
    assert_eq!(user4.paid_share, Some("0.00".to_string()));
    assert_eq!(user4.owed_share, Some("10.50".to_string()));
    assert_eq!(user4.net_balance, Some("-10.50".to_string()));
}

#[test]
fn expense_create_expense() {
    let calculator = ExpensesCalculator::new();
    let expense = calculator
        .create_expense(&CreateExpenseSpec {
            cost: "42.00".to_string(),
            group_id: "1".to_string(),
            user: User {
                id: Some("1".to_string()),
                ..Default::default()
            },
        })
        .expect("Failed to create expense");
    assert_eq!(expense.cost, Some("42.00".to_string()));
    assert_eq!(expense.group_id, Some("1".to_string()));
    assert_eq!(
        expense.created_by.expect("Expected user").id,
        Some("1".to_string())
    );
    let shares = expense.users.expect("No Share Found For Expense");
    assert_eq!(shares.len(), 1);
    let share = shares
        .first()
        .expect("No Share Found For Expense")
        .to_owned();
    assert_eq!(share.user.expect("No User").id, Some("1".to_string()));
    assert_eq!(share.paid_share, Some("42.00".to_string()));
    assert_eq!(share.owed_share, Some("42.00".to_string()));
    assert_eq!(share.net_balance, Some("0.00".to_string()));
}

#[test]
fn empty_group_yields_no_shares() {
    let calculator = ShareCalculator::new();
    let result = calculator.equal_share("10.00".to_string(), "u1".to_string(), vec![]);
    assert!(result.is_empty());
    // The cost is not even read for an empty group.
    let result = calculator.equal_share("garbage".to_string(), "u1".to_string(), vec![]);
    assert!(result.is_empty());
}

#[test]
fn uneven_split_nets_sum_to_one_cent() {
    // 1.00 over three members leaves a one-cent remainder with the payer.
    let calculator = ShareCalculator::new();
    let result = calculator.equal_share(
        "1.00".to_string(),
        "1".to_string(),
        vec!["1".to_string(), "2".to_string(), "3".to_string()],
    );
    assert_eq!(result.len(), 3);
    let payer = result.last().unwrap();
    assert_eq!(payer.paid_share, Some("1.00".to_string()));
    assert_eq!(payer.owed_share, Some("0.33".to_string()));
    assert_eq!(payer.net_balance, Some("0.67".to_string()));
    let cents: i64 = result
        .iter()
        .map(|s| swc::money::parse_money(s.net_balance.as_ref().unwrap()).unwrap())
        .sum();
    assert_eq!(cents, 1);
    assert!(-1 <= cents && cents <= 1);
}

#[test]
fn half_cent_split_rounds_to_even() {
    // One cent over two members: the half-cent share rounds down to zero.
    let calculator = ShareCalculator::new();
    let result = calculator.equal_share(
        "0.01".to_string(),
        "1".to_string(),
        vec!["1".to_string(), "2".to_string()],
    );
    assert_eq!(result.len(), 2);
    let other = &result[0];
    assert_eq!(other.owed_share, Some("0.00".to_string()));
    assert_eq!(other.net_balance, Some("0.00".to_string()));
    let payer = &result[1];
    assert_eq!(payer.paid_share, Some("0.01".to_string()));
    assert_eq!(payer.owed_share, Some("0.00".to_string()));
    assert_eq!(payer.net_balance, Some("0.01".to_string()));
}

#[test]
fn negative_cost_splits() {
    let calculator = ShareCalculator::new();
    let result = calculator.equal_share(
        "-10.00".to_string(),
        "a".to_string(),
        vec!["a".to_string(), "b".to_string()],
    );
    assert_eq!(result.len(), 2);
    assert_eq!(result[0].owed_share, Some("-5.00".to_string()));
    assert_eq!(result[0].net_balance, Some("5.00".to_string()));
    assert_eq!(result[1].paid_share, Some("-10.00".to_string()));
    assert_eq!(result[1].net_balance, Some("-5.00".to_string()));
}

#[test]
fn create_expense_rejects_bad_input() {
    let calculator = ExpensesCalculator::new();
    // Cost that is not a two-decimal amount.
    let err = calculator
        .create_expense(&CreateExpenseSpec {
            cost: "abc".to_string(),
            group_id: "1".to_string(),
            user: User {
                id: Some("1".to_string()),
                ..Default::default()
            },
        })
        .unwrap_err();
    assert_eq!(err, ExpenseError::Validation);
    // Payer without an id.
    let err = calculator
        .create_expense(&CreateExpenseSpec {
            cost: "42.00".to_string(),
            group_id: "1".to_string(),
            user: User::default(),
        })
        .unwrap_err();
    assert_eq!(err, ExpenseError::Validation);
    // Cost out of the representable range.
    let err = calculator
        .create_expense(&CreateExpenseSpec {
            cost: "20000000000000.00".to_string(),
            group_id: "1".to_string(),
            user: User {
                id: Some("1".to_string()),
                ..Default::default()
            },
        })
        .unwrap_err();
    assert_eq!(err, ExpenseError::Arithmetic);
}

#[test]
fn create_expense_at_stamps_times() {
    let calculator = ExpensesCalculator::new();
    let expense = calculator
        .create_expense_at(
            &CreateExpenseSpec {
                cost: "5.00".to_string(),
                group_id: "g".to_string(),
                user: User {
                    id: Some("u".to_string()),
                    ..Default::default()
                },
            },
            1234,
        )
        .unwrap();
    assert_eq!(expense.created_at, Some(1234));
    assert_eq!(expense.updated_at, Some(1234));
    assert_eq!(expense.date, Some(1234));
    assert_eq!(expense.description, None);
    assert_eq!(expense.deleted_at, None);
}

#[test]
fn update_only_description_keeps_other_fields() {
    let calculator = ExpensesCalculator::new();
    let expense = calculator
        .create_expense_at(
            &CreateExpenseSpec {
                cost: "42.00".to_string(),
                group_id: "g1".to_string(),
                user: User {
                    id: Some("u1".to_string()),
                    ..Default::default()
                },
            },
            1000,
        )
        .unwrap();
    let patch = UpdateExpenseSpec {
        description: Some("dinner".to_string()),
        ..Default::default()
    };
    let updated = expense.apply_update(patch, 2000).unwrap();
    assert_eq!(updated.description, Some("dinner".to_string()));
    assert_eq!(updated.cost, Some("42.00".to_string()));
    assert_eq!(updated.group_id, Some("g1".to_string()));
    assert_eq!(updated.created_at, Some(1000));
    assert_eq!(updated.updated_at, Some(2000));
    let shares = updated.users.unwrap();
    assert_eq!(shares.len(), 1);
    assert_eq!(shares[0].paid_share, Some("42.00".to_string()));
}

#[test]
fn update_replaces_present_fields() {
    let calculator = ExpensesCalculator::new();
    let expense = calculator
        .create_expense_at(
            &CreateExpenseSpec {
                cost: "42.00".to_string(),
                group_id: "g1".to_string(),
                user: User {
                    id: Some("u1".to_string()),
                    ..Default::default()
                },
            },
            1000,
        )
        .unwrap();
    let patch = UpdateExpenseSpec {
        cost: Some("50.00".to_string()),
        repeat_interval: Some("weekly".to_string()),
        currency_code: Some("EUR".to_string()),
        ..Default::default()
    };
    let updated = expense.apply_update(patch, 3000).unwrap();
    assert_eq!(updated.cost, Some("50.00".to_string()));
    assert_eq!(updated.repeat_interval, Some(RepeatInterval::Weekly));
    assert_eq!(updated.currency_code, Some("EUR".to_string()));
    assert_eq!(updated.updated_at, Some(3000));
    // The shares are not recomputed on a cost change.
    let shares = updated.users.unwrap();
    assert_eq!(shares[0].paid_share, Some("42.00".to_string()));
}

#[test]
fn update_rejects_bad_patch() {
    let calculator = ExpensesCalculator::new();
    let make = || {
        calculator
            .create_expense_at(
                &CreateExpenseSpec {
                    cost: "42.00".to_string(),
                    group_id: "g1".to_string(),
                    user: User {
                        id: Some("u1".to_string()),
                        ..Default::default()
                    },
                },
                1000,
            )
            .unwrap()
    };
    let err = make()
        .apply_update(
            UpdateExpenseSpec {
                repeat_interval: Some("sometimes".to_string()),
                ..Default::default()
            },
            2000,
        )
        .unwrap_err();
    assert_eq!(err, ExpenseError::Validation);
    let err = make()
        .apply_update(
            UpdateExpenseSpec {
                cost: Some("not-money".to_string()),
                ..Default::default()
            },
            2000,
        )
        .unwrap_err();
    assert_eq!(err, ExpenseError::Validation);
    let err = make()
        .apply_update(
            UpdateExpenseSpec {
                cost: Some("20000000000000.00".to_string()),
                ..Default::default()
            },
            2000,
        )
        .unwrap_err();
    assert_eq!(err, ExpenseError::Arithmetic);
}

#[test]
fn expense_error_messages() {
    assert_eq!(ExpenseError::Validation.message(), "validation error");
    assert_eq!(ExpenseError::NotFound.message(), "not found");
    assert_eq!(ExpenseError::Arithmetic.message(), "amount out of range");
}
