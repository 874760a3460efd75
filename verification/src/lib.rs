//! An in-process role-based access control core.
//!
//! The crate keeps role and permission catalogs, subject-role assignments
//! with a pending/active/disabled lifecycle, and role-permission grants,
//! and evaluates which actions a subject may take on a resource. Every
//! operation carries a contract; persistence and other I/O stay outside.

mod action;
mod model;
mod store;
mod eval;
mod laws;

pub use model::{
    AuthError, Permission, Role, RolePermission, UpdateUserRole, UserRole, UserRoleStatus,
    parse_status, spec_parse_status, spec_status_label, status_label,
};
pub use store::{PermV, PermissionStore, RoleV, Snapshot, StoreView};
pub use laws::{lemma_disable_excludes_role, lemma_effective_unique, lemma_grant_idempotent,
    lemma_removed_permission_grant_skipped, lemma_removed_role_grant_skipped};
pub use eval::{contributes, effective_actions, effective_ok, has_permission, subject_linked};
pub use action::{
    ACTION_MASK, CREATE, DELETE, READ, UPDATE, WRITE_MASK, bit_set, has_bits,
    lemma_readonly_iff_read, lemma_write_is_three_bits, spec_is_readonly, spec_is_write,
};
