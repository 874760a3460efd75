use auth::{
    effective_actions, has_permission, parse_status, status_label, AuthError, Permission,
    PermissionStore, Role, UserRoleStatus, CREATE, READ, UPDATE,
};

fn role(id: &str, name: &str) -> Role {
    Role { id: id.to_string(), name: name.to_string(), description: None }
}

fn permission(id: &str, resource: &str, action: u16) -> Permission {
    Permission { id: id.to_string(), resource: resource.to_string(), action }
}

fn store_with_doc_reader() -> PermissionStore {
    let mut store = PermissionStore::new();
    store.put_role(role("r1", "reader")).unwrap();
    store.put_permission(permission("p1", "doc", READ)).unwrap();
    store.grant_permission(&"r1".to_string(), &"p1".to_string()).unwrap();
    store
        .assign_role(1, "r1".to_string(), UserRoleStatus::Active)
        .unwrap();
    store
}

#[test]
fn single_grant_single_active_role() {
    let store = store_with_doc_reader();
    let snap = store.snapshot();
    assert_eq!(effective_actions(&snap, 1, &"doc".to_string()), READ);
    assert!(has_permission(&snap, 1, &"doc".to_string(), READ));
    assert!(!has_permission(&snap, 1, &"doc".to_string(), UPDATE));
}

#[test]
fn two_roles_union_their_masks() {
    let mut store = PermissionStore::new();
    store.put_role(role("r1", "reader")).unwrap();
    store.put_role(role("r2", "editor")).unwrap();
    store.put_permission(permission("p1", "doc", READ)).unwrap();
    store.put_permission(permission("p2", "doc", UPDATE)).unwrap();
    store.grant_permission(&"r1".to_string(), &"p1".to_string()).unwrap();
    store.grant_permission(&"r2".to_string(), &"p2".to_string()).unwrap();
    store.assign_role(1, "r1".to_string(), UserRoleStatus::Active).unwrap();
    store.assign_role(1, "r2".to_string(), UserRoleStatus::Active).unwrap();
    let snap = store.snapshot();
    assert_eq!(effective_actions(&snap, 1, &"doc".to_string()), READ | UPDATE);
    assert_eq!(effective_actions(&snap, 1, &"doc".to_string()), 5);
}

#[test]
fn disabling_an_assignment_removes_its_permissions() {
    let mut store = store_with_doc_reader();
    let before = store.snapshot();
    assert_eq!(effective_actions(&before, 1, &"doc".to_string()), READ);
    store
        .set_assignment_status(1, &"r1".to_string(), UserRoleStatus::Disabled)
        .unwrap();
    let after = store.snapshot();
    assert_eq!(effective_actions(&after, 1, &"doc".to_string()), 0);
    // The earlier snapshot is immutable: it still shows the old state.
    assert_eq!(effective_actions(&before, 1, &"doc".to_string()), READ);
}

#[test]
fn pending_and_disabled_assignments_grant_nothing() {
    let mut store = PermissionStore::new();
    store.put_role(role("r1", "reader")).unwrap();
    store.put_permission(permission("p1", "doc", READ)).unwrap();
    store.grant_permission(&"r1".to_string(), &"p1".to_string()).unwrap();
    store.assign_role(1, "r1".to_string(), UserRoleStatus::Pending).unwrap();
    let snap = store.snapshot();
    assert_eq!(effective_actions(&snap, 1, &"doc".to_string()), 0);
}

#[test]
fn granting_twice_is_the_same_as_once() {
    let mut store = store_with_doc_reader();
    let once = store.permissions_for_role(&"r1".to_string());
    store.grant_permission(&"r1".to_string(), &"p1".to_string()).unwrap();
    let twice = store.permissions_for_role(&"r1".to_string());
    let mut once_sorted = once.clone();
    once_sorted.sort();
    let mut twice_sorted = twice.clone();
    twice_sorted.sort();
    assert_eq!(once_sorted, twice_sorted);
    assert_eq!(twice.len(), 1);
}

#[test]
fn removed_role_with_outstanding_grant_contributes_nothing() {
    let mut store = store_with_doc_reader();
    store.remove_role(&"r1".to_string()).unwrap();
    let snap = store.snapshot();
    // The grant and the assignment both dangle; evaluation skips them.
    assert_eq!(effective_actions(&snap, 1, &"doc".to_string()), 0);
    assert!(!has_permission(&snap, 1, &"doc".to_string(), READ));
}

#[test]
fn removed_permission_with_outstanding_grant_contributes_nothing() {
    let mut store = store_with_doc_reader();
    store.remove_permission(&"p1".to_string()).unwrap();
    let snap = store.snapshot();
    assert_eq!(effective_actions(&snap, 1, &"doc".to_string()), 0);
}

#[test]
fn duplicate_assignment_is_a_conflict() {
    let mut store = store_with_doc_reader();
    let r = store.assign_role(1, "r1".to_string(), UserRoleStatus::Pending);
    assert_eq!(r, Err(AuthError::Conflict));
}

#[test]
fn revoking_a_missing_assignment_is_not_found() {
    let mut store = PermissionStore::new();
    let r = store.revoke_role(1, &"r1".to_string());
    assert_eq!(r, Err(AuthError::NotFound));
}

#[test]
fn revoking_an_assignment_removes_its_permissions() {
    let mut store = store_with_doc_reader();
    store.revoke_role(1, &"r1".to_string()).unwrap();
    let snap = store.snapshot();
    assert_eq!(effective_actions(&snap, 1, &"doc".to_string()), 0);
}

#[test]
fn empty_identifiers_and_zero_masks_are_invalid() {
    let mut store = PermissionStore::new();
    assert_eq!(store.put_role(role("", "x")), Err(AuthError::InvalidArgument));
    assert_eq!(
        store.put_permission(permission("", "doc", READ)),
        Err(AuthError::InvalidArgument)
    );
    assert_eq!(
        store.put_permission(permission("p1", "", READ)),
        Err(AuthError::InvalidArgument)
    );
    assert_eq!(
        store.put_permission(permission("p1", "doc", 0)),
        Err(AuthError::InvalidArgument)
    );
    assert_eq!(
        store.assign_role(1, "".to_string(), UserRoleStatus::Active),
        Err(AuthError::InvalidArgument)
    );
}

#[test]
fn granting_needs_both_catalog_entries() {
    let mut store = PermissionStore::new();
    store.put_role(role("r1", "reader")).unwrap();
    assert_eq!(
        store.grant_permission(&"r1".to_string(), &"p1".to_string()),
        Err(AuthError::NotFound)
    );
    store.put_permission(permission("p1", "doc", READ)).unwrap();
    assert_eq!(
        store.grant_permission(&"r9".to_string(), &"p1".to_string()),
        Err(AuthError::NotFound)
    );
    assert_eq!(store.grant_permission(&"r1".to_string(), &"p1".to_string()), Ok(()));
}

#[test]
fn revoking_a_grant_takes_it_out_of_evaluation() {
    let mut store = store_with_doc_reader();
    store.revoke_permission(&"r1".to_string(), &"p1".to_string()).unwrap();
    let snap = store.snapshot();
    assert_eq!(effective_actions(&snap, 1, &"doc".to_string()), 0);
    assert_eq!(
        store.revoke_permission(&"r1".to_string(), &"p1".to_string()),
        Err(AuthError::NotFound)
    );
}

#[test]
fn has_permission_needs_every_requested_bit() {
    let store = store_with_doc_reader();
    let snap = store.snapshot();
    assert!(has_permission(&snap, 1, &"doc".to_string(), READ));
    assert!(!has_permission(&snap, 1, &"doc".to_string(), READ | UPDATE));
    // An empty request is always covered.
    assert!(has_permission(&snap, 1, &"doc".to_string(), 0));
}

#[test]
fn resources_are_matched_exactly() {
    let store = store_with_doc_reader();
    let snap = store.snapshot();
    assert_eq!(effective_actions(&snap, 1, &"docs".to_string()), 0);
    assert_eq!(effective_actions(&snap, 2, &"doc".to_string()), 0);
}

#[test]
fn put_role_overwrites_by_id() {
    let mut store = PermissionStore::new();
    store.put_role(role("r1", "first")).unwrap();
    store
        .put_role(Role {
            id: "r1".to_string(),
            name: "second".to_string(),
            description: Some("replacement".to_string()),
        })
        .unwrap();
    let found = store.get_role(&"r1".to_string()).unwrap();
    assert_eq!(found.name, "second");
    assert_eq!(found.description, Some("replacement".to_string()));
    let snap = store.snapshot();
    assert_eq!(snap.roles.len(), 1);
}

#[test]
fn catalog_lookups() {
    let mut store = PermissionStore::new();
    store.put_permission(permission("p1", "doc", CREATE)).unwrap();
    let p = store.get_permission(&"p1".to_string()).unwrap();
    assert_eq!(p.resource, "doc");
    assert_eq!(p.action, CREATE);
    assert!(store.get_permission(&"p2".to_string()).is_none());
    assert!(store.get_role(&"r1".to_string()).is_none());
    assert_eq!(store.remove_role(&"r1".to_string()), Err(AuthError::NotFound));
    assert_eq!(store.remove_permission(&"p2".to_string()), Err(AuthError::NotFound));
    let perms = store.list_permissions();
    assert_eq!(perms.len(), 1);
    assert_eq!(perms[0].id, "p1");
    assert!(store.list_roles().is_empty());
}

#[test]
fn roles_for_subject_filters_by_status() {
    let mut store = PermissionStore::new();
    store.put_role(role("r1", "reader")).unwrap();
    store.put_role(role("r2", "editor")).unwrap();
    store.put_role(role("r3", "owner")).unwrap();
    store.assign_role(1, "r1".to_string(), UserRoleStatus::Active).unwrap();
    store.assign_role(1, "r2".to_string(), UserRoleStatus::Pending).unwrap();
    store.assign_role(1, "r3".to_string(), UserRoleStatus::Active).unwrap();
    store.assign_role(2, "r1".to_string(), UserRoleStatus::Active).unwrap();
    let mut active = store.roles_for_subject(1, UserRoleStatus::Active);
    active.sort();
    assert_eq!(active, vec!["r1".to_string(), "r3".to_string()]);
    let pending = store.roles_for_subject(1, UserRoleStatus::Pending);
    assert_eq!(pending, vec!["r2".to_string()]);
    assert!(store.roles_for_subject(3, UserRoleStatus::Active).is_empty());
}

#[test]
fn set_assignment_status_transitions() {
    let mut store = PermissionStore::new();
    store.put_role(role("r1", "reader")).unwrap();
    store.assign_role(1, "r1".to_string(), UserRoleStatus::Pending).unwrap();
    store
        .set_assignment_status(1, &"r1".to_string(), UserRoleStatus::Active)
        .unwrap();
    let active = store.roles_for_subject(1, UserRoleStatus::Active);
    assert_eq!(active, vec!["r1".to_string()]);
    assert_eq!(
        store.set_assignment_status(2, &"r1".to_string(), UserRoleStatus::Active),
        Err(AuthError::NotFound)
    );
}

#[test]
fn status_labels_round_trip() {
    for s in [
        UserRoleStatus::Pending,
        UserRoleStatus::Active,
        UserRoleStatus::Disabled,
    ] {
        let text = status_label(s);
        assert_eq!(parse_status(&text), Some(s));
    }
    assert_eq!(status_label(UserRoleStatus::Active), "Active");
    assert_eq!(status_label(UserRoleStatus::Disabled), "Disabled");
    assert_eq!(status_label(UserRoleStatus::Pending), "Pending");
    assert_eq!(parse_status(&"Deleted".to_string()), None);
    assert_eq!(parse_status(&"".to_string()), None);
}
