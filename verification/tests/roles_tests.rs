use whalescale::auth::{AdminSession, AppError};
use whalescale::roles::{
    authorize_role_update, authorize_user_delete, can_change_role, can_delete_user, ensure_not_last_owner,
    grantable_role, role_str, Role,
};

#[test]
fn role_ordering() {
    assert!(Role::Owner.at_least(Role::Admin));
    assert!(Role::Admin.at_least(Role::Member));
    assert!(!Role::Member.at_least(Role::Admin));
}

#[test]
fn only_owner_touches_an_owner() {
    assert!(can_change_role(Role::Owner, Role::Owner, Role::Admin));
    assert!(!can_change_role(Role::Admin, Role::Owner, Role::Admin));
}

#[test]
fn only_owner_grants_owner() {
    assert!(can_change_role(Role::Owner, Role::Member, Role::Owner));
    assert!(!can_change_role(Role::Admin, Role::Member, Role::Owner));
}

#[test]
fn admin_manages_members_and_admins() {
    assert!(can_change_role(Role::Admin, Role::Member, Role::Admin));
    assert!(can_change_role(Role::Admin, Role::Admin, Role::Member));
}

#[test]
fn members_cannot_manage() {
    assert!(!can_change_role(Role::Member, Role::Member, Role::Admin));
    assert!(!can_delete_user(Role::Member, Role::Member));
}

#[test]
fn delete_rules() {
    assert!(can_delete_user(Role::Owner, Role::Owner));
    assert!(can_delete_user(Role::Admin, Role::Member));
    assert!(!can_delete_user(Role::Admin, Role::Owner));
}

#[test]
fn stored_role_names() {
    assert_eq!(Role::from_db("owner"), Role::Owner);
    assert_eq!(Role::from_db("admin"), Role::Admin);
    assert_eq!(Role::from_db("member"), Role::Member);
    assert_eq!(Role::from_db("superuser"), Role::Member);
    assert_eq!(role_str(Role::Admin), "admin");
    assert_eq!(Role::Owner.rank(), 3);
}

#[test]
fn last_owner_cannot_be_demoted_or_removed() {
    let msg = "cannot remove the last owner of the organization".to_string();
    assert_eq!(ensure_not_last_owner(1), Err(AppError::BadRequest(msg.clone())));
    assert_eq!(ensure_not_last_owner(2), Ok(()));
    assert_eq!(authorize_role_update(Role::Owner, Role::Owner, Role::Admin, 1), Err(AppError::BadRequest(msg.clone())));
    assert_eq!(authorize_role_update(Role::Owner, Role::Owner, Role::Admin, 2), Ok(()));
    assert_eq!(authorize_role_update(Role::Owner, Role::Owner, Role::Owner, 1), Ok(()));
    assert_eq!(authorize_user_delete(Role::Owner, Role::Owner, 1), Err(AppError::BadRequest(msg)));
    assert_eq!(authorize_user_delete(Role::Admin, Role::Owner, 5), Err(AppError::Unauthorized));
    assert_eq!(authorize_user_delete(Role::Admin, Role::Member, 1), Ok(()));
}

#[test]
fn new_user_roles() {
    assert_eq!(grantable_role(Role::Admin, None), Ok(Role::Member));
    assert_eq!(grantable_role(Role::Admin, Some(Role::Owner)), Err(AppError::Unauthorized));
    assert_eq!(grantable_role(Role::Owner, Some(Role::Owner)), Ok(Role::Owner));
}

#[test]
fn sessions_are_tenant_scoped_and_role_gated() {
    let s = AdminSession { user_id: 1, tenant_id: 7, role: Role::Admin };
    assert_eq!(s.require_tenant(7), Ok(()));
    assert_eq!(s.require_tenant(8), Err(AppError::Unauthorized));
    assert_eq!(s.require_role(Role::Member), Ok(()));
    assert_eq!(s.require_role(Role::Owner), Err(AppError::Unauthorized));
    assert_eq!(AdminSession::from_claims(1, 7, Role::Admin, "admin"), Ok(s));
    assert_eq!(AdminSession::from_claims(1, 7, Role::Admin, "agent"), Err(AppError::Unauthorized));
}
