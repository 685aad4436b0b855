use tilings::error::Error;
use tilings::roles::{allowed_admin_roles, allowed_editor_roles, AccountRole, AuthAccount, AuthStep, EditStep, RoleEnum};

#[test]
fn role_ids_round_trip() {
    for role in [RoleEnum::Admin, RoleEnum::Editor, RoleEnum::ReadOnly] {
        let row = AccountRole { id: 7, account_id: 1, role_id: role.as_role_id() };
        assert_eq!(Some(role), AccountRole::as_role_enum(row));
    }
    assert_eq!(3, RoleEnum::Admin.as_role_id());
    assert_eq!(2, RoleEnum::Editor.as_role_id());
    assert_eq!(1, RoleEnum::ReadOnly.as_role_id());
    assert_eq!(None, AccountRole::as_role_enum(AccountRole { id: 1, account_id: 1, role_id: 4 }));
}

#[test]
fn role_names() {
    assert_eq!("Admin", RoleEnum::Admin.name());
    assert_eq!("Editor", RoleEnum::Editor.name());
    assert_eq!("ReadOnly", RoleEnum::ReadOnly.name());
}

#[test]
fn allowed_role_sets() {
    assert_eq!(vec![RoleEnum::Admin], allowed_admin_roles());
    let editors = allowed_editor_roles();
    assert!(editors.contains(&RoleEnum::Admin));
    assert!(editors.contains(&RoleEnum::Editor));
    assert!(!editors.contains(&RoleEnum::ReadOnly));
}

#[test]
fn authorization_steps() {
    let mut account = AuthAccount::new(5);
    assert_eq!(5, account.id);
    assert!(matches!(account.allowed(&allowed_editor_roles()), AuthStep::NeedRoles));
    account.set_roles(&vec![AccountRole { id: 1, account_id: 5, role_id: 2 }]);
    assert!(account.has_roles());
    assert!(matches!(account.allowed(&allowed_admin_roles()), AuthStep::Decided(Err(Error::Unauthorized))));
    assert!(matches!(account.allowed(&allowed_editor_roles()), AuthStep::NeedAccount));
    account.set_account_verified(true);
    assert!(matches!(account.allowed(&allowed_editor_roles()), AuthStep::Decided(Ok(true))));
}

#[test]
fn unverified_account_is_refused() {
    let mut account = AuthAccount::new(5);
    account.set_roles(&vec![AccountRole { id: 1, account_id: 5, role_id: 3 }]);
    account.set_account_verified(false);
    assert!(matches!(account.allowed(&allowed_admin_roles()), AuthStep::Decided(Err(Error::Unauthorized))));
}

#[test]
fn ownership() {
    let account = AuthAccount::new(5);
    assert_eq!(Ok(true), account.owns(Some(5)));
    assert_eq!(Err(Error::Unauthorized), account.owns(Some(6)));
    assert_eq!(Err(Error::Unauthorized), account.owns(None));
}

#[test]
fn has_intersection_of_role_lists() {
    assert!(AuthAccount::has_intersection(&vec![RoleEnum::Editor], &allowed_editor_roles()));
    assert!(!AuthAccount::has_intersection(&vec![RoleEnum::ReadOnly], &allowed_editor_roles()));
    assert!(!AuthAccount::has_intersection(&vec![], &allowed_editor_roles()));
}

#[test]
fn edit_checks() {
    let mut admin = AuthAccount::new(1);
    assert!(matches!(admin.can_edit(None), EditStep::NeedRoles));
    admin.set_roles(&vec![AccountRole { id: 1, account_id: 1, role_id: 3 }]);
    assert!(matches!(admin.can_edit(None), EditStep::NeedAccount));
    admin.set_account_verified(true);
    assert!(matches!(admin.can_edit(None), EditStep::Decided(Ok(true))));

    let mut editor = AuthAccount::new(2);
    editor.set_roles(&vec![AccountRole { id: 2, account_id: 2, role_id: 2 }]);
    editor.set_account_verified(true);
    assert!(matches!(editor.can_edit(None), EditStep::NeedOwner));
    assert!(matches!(editor.can_edit(Some(Some(2))), EditStep::Decided(Ok(true))));
    assert!(matches!(editor.can_edit(Some(Some(3))), EditStep::Decided(Err(Error::Unauthorized))));
    assert!(matches!(editor.can_edit(Some(None)), EditStep::Decided(Err(Error::Unauthorized))));

    let mut reader = AuthAccount::new(3);
    reader.set_roles(&vec![AccountRole { id: 3, account_id: 3, role_id: 1 }]);
    assert!(matches!(reader.can_edit(None), EditStep::Decided(Err(Error::Unauthorized))));

    let mut unverified = AuthAccount::new(4);
    unverified.set_roles(&vec![AccountRole { id: 4, account_id: 4, role_id: 3 }]);
    unverified.set_account_verified(false);
    assert!(matches!(unverified.can_edit(Some(Some(4))), EditStep::Decided(Err(Error::Unauthorized))));
}
