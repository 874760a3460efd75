use vstd::prelude::*;
use crate::action::{ACTION_MASK, CREATE, DELETE, READ, UPDATE, WRITE_MASK, has_bits};

verus! {

/// Why a store operation was refused.
#[derive(Clone, Copy, Debug, PartialEq, Eq, Structural)]
pub enum AuthError {
    /// A mutation referenced a missing assignment or catalog entry.
    NotFound,
    /// A duplicate subject-role assignment was created.
    Conflict,
    /// A zero-valued action mask or an empty identifier string.
    InvalidArgument,
    /// The external backing store failed during a load or save.
    StorageError,
}

/// Lifecycle status of a subject-role assignment. Only `Active`
/// assignments take part in authorization.
#[derive(Clone, Copy, Debug, PartialEq, Eq, Structural)]
pub enum UserRoleStatus {
    Pending,
    Active,
    Disabled,
}

/// The stable text form of a status, as the backing store records it.
pub open spec fn spec_status_label(s: UserRoleStatus) -> Seq<char> {
    match s {
        UserRoleStatus::Pending => "Pending"@,
        UserRoleStatus::Active => "Active"@,
        UserRoleStatus::Disabled => "Disabled"@,
    }
}

/// The status a stored text form stands for; any other text is rejected.
pub open spec fn spec_parse_status(s: Seq<char>) -> Option<UserRoleStatus> {
    if s == spec_status_label(UserRoleStatus::Pending) {
        Some(UserRoleStatus::Pending)
    } else if s == spec_status_label(UserRoleStatus::Active) {
        Some(UserRoleStatus::Active)
    } else if s == spec_status_label(UserRoleStatus::Disabled) {
        Some(UserRoleStatus::Disabled)
    } else {
        None
    }
}

/// Renders a status in its stable text form.
pub fn status_label(s: UserRoleStatus) -> (r: String)
    ensures
        r@ == spec_status_label(s),
{
    match s {
        UserRoleStatus::Pending => "Pending".to_string(),
        UserRoleStatus::Active => "Active".to_string(),
        UserRoleStatus::Disabled => "Disabled".to_string(),
    }
}

/// Parses the stable text form of a status.
pub fn parse_status(s: &String) -> (r: Option<UserRoleStatus>)
    ensures
        r == spec_parse_status(s@),
{
    let pending = "Pending".to_string();
    let active = "Active".to_string();
    let disabled = "Disabled".to_string();
    if *s == pending {
        Some(UserRoleStatus::Pending)
    } else if *s == active {
        Some(UserRoleStatus::Active)
    } else if *s == disabled {
        Some(UserRoleStatus::Disabled)
    } else {
        None
    }
}

/// A subject's membership in a role, carrying its lifecycle status.
#[derive(Debug)]
pub struct UserRole {
    pub user_id: i64,
    pub role_id: String,
    pub status: UserRoleStatus,
}

impl Clone for UserRole {
    fn clone(&self) -> (res: Self)
        ensures
            res == *self,
    {
        UserRole { user_id: self.user_id, role_id: self.role_id.clone(), status: self.status }
    }
}

/// A partial change to a subject-role assignment: fields left `None`
/// keep their stored value.
#[derive(Debug)]
pub struct UpdateUserRole {
    pub status: Option<UserRoleStatus>,
}

/// A named bundle of permissions; the unit subjects are assigned to.
#[derive(Debug)]
pub struct Role {
    pub id: String,
    pub name: String,
    pub description: Option<String>,
}

impl Clone for Role {
    fn clone(&self) -> (res: Self)
        ensures
            res == *self,
    {
        Role {
            id: self.id.clone(),
            name: self.name.clone(),
            description: match &self.description {
                Some(d) => Some(d.clone()),
                None => None,
            },
        }
    }
}

/// A grant of one permission to one role.
#[derive(Debug)]
pub struct RolePermission {
    pub role_id: String,
    pub permission_id: String,
}

impl Clone for RolePermission {
    fn clone(&self) -> (res: Self)
        ensures
            res == *self,
    {
        RolePermission {
            role_id: self.role_id.clone(),
            permission_id: self.permission_id.clone(),
        }
    }
}

/// A grant of a set of actions, encoded as a bitmask, on one resource.
#[derive(Debug)]
pub struct Permission {
    pub id: String,
    pub resource: String,
    pub action: u16,
}

impl Clone for Permission {
    fn clone(&self) -> (res: Self)
        ensures
            res == *self,
    {
        Permission {
            id: self.id.clone(),
            resource: self.resource.clone(),
            action: self.action,
        }
    }
}

impl Permission {
    /// True when the mask, restricted to the four recognised bits, is
    /// exactly READ.
    pub fn is_readonly(&self) -> (r: bool)
        ensures
            r == crate::action::spec_is_readonly(self.action),
    {
        self.action & ACTION_MASK == READ
    }

    /// True only when CREATE, UPDATE and DELETE are all set at once.
    pub fn is_write(&self) -> (r: bool)
        ensures
            r == crate::action::spec_is_write(self.action),
    {
        self.action & WRITE_MASK == WRITE_MASK
    }

    /// True when the CREATE bit is set.
    pub fn is_create(&self) -> (r: bool)
        ensures
            r == has_bits(self.action, CREATE),
    {
        self.action & CREATE == CREATE
    }

    /// True when the DELETE bit is set.
    pub fn is_delete(&self) -> (r: bool)
        ensures
            r == has_bits(self.action, DELETE),
    {
        self.action & DELETE == DELETE
    }

    /// True when the UPDATE bit is set.
    pub fn is_update(&self) -> (r: bool)
        ensures
            r == has_bits(self.action, UPDATE),
    {
        self.action & UPDATE == UPDATE
    }

    /// True when both the CREATE and the UPDATE bit are set.
    pub fn is_create_and_update(&self) -> (r: bool)
        ensures
            r == (has_bits(self.action, CREATE) && has_bits(self.action, UPDATE)),
    {
        self.is_create() && self.is_update()
    }
}

} // verus!
