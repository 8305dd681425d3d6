use swc::service::group::{CreateGroupSpec, Group, GroupUser};
use swc::service::user::{CreateUserSpec, User as ServiceUser};

#[test]
fn group_from_create_spec() {
    let spec = CreateGroupSpec {
        name: "group1".to_string(),
        users: Some(vec![GroupUser {
            user_id: "user1".to_string(),
            first_name: Some("John".to_string()),
        }]),
    };
    let group = Group::from_create_spec(spec);
    assert_eq!(group.id, None);
    assert_eq!(group.name, Some("group1".to_string()));
    assert_eq!(group.simplify_by_default, Some(true));
    let members = group.members.unwrap();
    assert_eq!(members.len(), 1);
    assert_eq!(members[0].id, Some("user1".to_string()));
    assert_eq!(members[0].first_name, Some("John".to_string()));
    assert_eq!(members[0].email, None);
}

#[test]
fn group_from_create_spec_without_users() {
    let spec = CreateGroupSpec {
        name: "solo".to_string(),
        users: None,
    };
    let group = Group::from_create_spec(spec);
    assert_eq!(group.name, Some("solo".to_string()));
    assert!(group.members.is_none());
}

#[test]
fn group_membership_lookup() {
    let spec = CreateGroupSpec {
        name: "g".to_string(),
        users: Some(vec![
            GroupUser {
                user_id: "a".to_string(),
                first_name: None,
            },
            GroupUser {
                user_id: "b".to_string(),
                first_name: None,
            },
        ]),
    };
    let group = Group::from_create_spec(spec);
    assert!(group.has_member(&"a".to_string()));
    assert!(group.has_member(&"b".to_string()));
    assert!(!group.has_member(&"c".to_string()));
    let empty = Group::from_create_spec(CreateGroupSpec {
        name: "e".to_string(),
        users: None,
    });
    assert!(!empty.has_member(&"a".to_string()));
}

#[test]
fn user_from_create_spec() {
    let user = ServiceUser::from_create_spec(CreateUserSpec {
        first_name: "Ada".to_string(),
        email: "ada@example.com".to_string(),
        default_currency: "EUR".to_string(),
    });
    assert_eq!(user.id, None);
    assert_eq!(user.first_name, Some("Ada".to_string()));
    assert_eq!(user.email, None);
    assert_eq!(user.default_currency, None);
}
