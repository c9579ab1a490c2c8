//! Dashboard roles and the role-based rules for managing users.

use vstd::prelude::*;
use crate::auth::AppError;
use crate::text::str_eq;

verus! {

/// Role-based access levels for dashboard users.
#[derive(Debug, Clone, Copy, PartialEq, Eq, Structural)]
pub enum Role {
    Owner,
    Admin,
    Member,
}

impl Role {
    /// Numeric privilege level: owner 3, admin 2, member 1.
    pub open spec fn spec_rank(self) -> nat {
        match self {
            Role::Owner => 3,
            Role::Admin => 2,
            Role::Member => 1,
        }
    }

    /// The privilege level of the role.
    pub fn rank(self) -> (r: u8)
        ensures
            r as nat == self.spec_rank(),
    {
        match self {
            Role::Owner => 3,
            Role::Admin => 2,
            Role::Member => 1,
        }
    }

    /// True if `self` has at least the privileges of `other`.
    pub fn at_least(self, other: Role) -> (r: bool)
        ensures
            r == (self.spec_rank() >= other.spec_rank()),
    {
        self.rank() >= other.rank()
    }

    /// Parse a stored role name: `"owner"`, `"admin"`, anything else is a member.
    pub fn from_db(s: &str) -> (r: Role)
        ensures
            r == role_from_text(s@),
    {
        if str_eq(s, "owner") {
            Role::Owner
        } else if str_eq(s, "admin") {
            Role::Admin
        } else {
            Role::Member
        }
    }
}

/// The role a stored role name denotes.
pub open spec fn role_from_text(s: Seq<char>) -> Role {
    if s == "owner"@ {
        Role::Owner
    } else if s == "admin"@ {
        Role::Admin
    } else {
        Role::Member
    }
}

/// The stored name of a role.
pub open spec fn role_text(role: Role) -> Seq<char> {
    match role {
        Role::Owner => "owner"@,
        Role::Admin => "admin"@,
        Role::Member => "member"@,
    }
}

/// The stored name of a role (`"owner"`, `"admin"` or `"member"`).
pub fn role_str(role: Role) -> (r: String)
    ensures
        r@ == role_text(role),
{
    match role {
        Role::Owner => String::from_str("owner"),
        Role::Admin => String::from_str("admin"),
        Role::Member => String::from_str("member"),
    }
}

/// Whether `actor` may change a user from role `current` to `new`: admin or
/// better is required, and only an owner may modify an existing owner or grant
/// the owner role.
pub open spec fn may_change_role(actor: Role, current: Role, new: Role) -> bool {
    &&& actor.spec_rank() >= Role::Admin.spec_rank()
    &&& (current == Role::Owner ==> actor == Role::Owner)
    &&& (new == Role::Owner ==> actor == Role::Owner)
}

/// Whether `actor` may change a user from role `current` to `new`.
pub fn can_change_role(actor: Role, current: Role, new: Role) -> (r: bool)
    ensures
        r == may_change_role(actor, current, new),
{
    if !actor.at_least(Role::Admin) {
        return false;
    }
    if current == Role::Owner && actor != Role::Owner {
        return false;
    }
    if new == Role::Owner && actor != Role::Owner {
        return false;
    }
    true
}

/// Whether `actor` may delete a user holding `target`: admin or better is
/// required, and only an owner may remove another owner.
pub fn can_delete_user(actor: Role, target: Role) -> (r: bool)
    ensures
        r == (actor.spec_rank() >= Role::Admin.spec_rank() && (target != Role::Owner
            || actor == Role::Owner)),
{
    actor.at_least(Role::Admin) && (target != Role::Owner || actor == Role::Owner)
}

/// The refusal given when an operation would leave an organization without
/// an owner.
pub open spec fn last_owner_text() -> Seq<char> {
    "cannot remove the last owner of the organization"@
}

fn last_owner_error() -> (r: AppError)
    ensures
        r matches AppError::BadRequest(m) && m@ == last_owner_text(),
{
    AppError::BadRequest(String::from_str("cannot remove the last owner of the organization"))
}

/// Refuse to remove or demote an owner when `owners` (the organization's
/// owner count) is at most one.
pub fn ensure_not_last_owner(owners: i64) -> (r: Result<(), AppError>)
    ensures
        r is Ok <==> owners > 1,
        r matches Err(e) ==> (e matches AppError::BadRequest(m) && m@ == last_owner_text()),
{
    if owners <= 1 {
        return Err(last_owner_error());
    }
    Ok(())
}

/// Decide a role change by `actor` of a user from `current` to `new`, in an
/// organization with `owners` owners: refused when the roles do not permit
/// it, and when it would demote the last owner.
pub fn authorize_role_update(actor: Role, current: Role, new: Role, owners: i64) -> (r: Result<(), AppError>)
    ensures
        !may_change_role(actor, current, new) ==> r == Err::<(), AppError>(AppError::Unauthorized),
        may_change_role(actor, current, new) && current == Role::Owner && new != Role::Owner && owners <= 1
            ==> (r matches Err(AppError::BadRequest(m)) && m@ == last_owner_text()),
        r is Ok <==> may_change_role(actor, current, new) && !(current == Role::Owner && new != Role::Owner && owners <= 1),
{
    if !can_change_role(actor, current, new) {
        return Err(AppError::Unauthorized);
    }
    if current == Role::Owner && new != Role::Owner {
        ensure_not_last_owner(owners)?;
    }
    Ok(())
}

/// Decide the removal by `actor` of a user holding `target`, in an
/// organization with `owners` owners.
pub fn authorize_user_delete(actor: Role, target: Role, owners: i64) -> (r: Result<(), AppError>)
    ensures
        !(actor.spec_rank() >= Role::Admin.spec_rank() && (target != Role::Owner || actor == Role::Owner))
            ==> r == Err::<(), AppError>(AppError::Unauthorized),
        (actor.spec_rank() >= Role::Admin.spec_rank() && (target != Role::Owner || actor == Role::Owner))
            && target == Role::Owner && owners <= 1 ==> (r matches Err(AppError::BadRequest(m)) && m@ == last_owner_text()),
        r is Ok <==> actor.spec_rank() >= Role::Admin.spec_rank() && (target != Role::Owner || actor == Role::Owner)
            && !(target == Role::Owner && owners <= 1),
{
    if !can_delete_user(actor, target) {
        return Err(AppError::Unauthorized);
    }
    if target == Role::Owner {
        ensure_not_last_owner(owners)?;
    }
    Ok(())
}

/// The role a new user gets: the requested one (member by default); only an
/// owner may create another owner.
pub fn grantable_role(actor: Role, requested: Option<Role>) -> (r: Result<Role, AppError>)
    ensures
        ({
            let want = match requested {
                Some(x) => x,
                None => Role::Member,
            };
            if want == Role::Owner && actor != Role::Owner {
                r == Err::<Role, AppError>(AppError::Unauthorized)
            } else {
                r == Ok::<Role, AppError>(want)
            }
        }),
{
    let want = match requested {
        Some(x) => x,
        None => Role::Member,
    };
    if want == Role::Owner && actor != Role::Owner {
        return Err(AppError::Unauthorized);
    }
    Ok(want)
}

/// An owner is never demoted or removed while the organization has no other
/// owner: whenever a role change or removal of an owner is permitted, another
/// owner remains.
pub proof fn lemma_an_owner_remains(actor: Role, current: Role, new: Role, owners: i64)
    requires
        may_change_role(actor, current, new) && !(current == Role::Owner && new != Role::Owner && owners <= 1),
        current == Role::Owner,
        new != Role::Owner,
    ensures
        owners - 1 >= 1,
{
}

/// A request to change a user's role.
#[derive(Debug, Clone, Copy, PartialEq, Eq, Structural)]
pub struct UpdateRoleRequest {
    pub role: Role,
}

} // verus!
