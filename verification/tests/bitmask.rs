use auth::{Permission, CREATE, DELETE, READ, UPDATE};

fn perm(action: u16) -> Permission {
    Permission { id: "p".to_string(), resource: "doc".to_string(), action }
}

#[test]
fn read_bit_alone_is_readonly() {
    assert!(perm(READ).is_readonly());
    assert!(!perm(READ | CREATE).is_readonly());
    assert!(!perm(CREATE).is_readonly());
    assert!(!perm(0).is_readonly());
}

#[test]
fn readonly_ignores_bits_outside_the_action_mask() {
    // Only the four recognised bits are consulted: bit 4 does not matter.
    assert!(perm(READ | 16).is_readonly());
}

#[test]
fn write_needs_all_three_write_bits() {
    assert!(perm(CREATE | UPDATE | DELETE).is_write());
    assert!(perm(READ | CREATE | UPDATE | DELETE).is_write());
    assert!(!perm(CREATE).is_write());
    assert!(!perm(CREATE | UPDATE).is_write());
    assert!(!perm(UPDATE | DELETE).is_write());
    assert!(!perm(READ).is_write());
    assert!(!perm(0).is_write());
}

#[test]
fn single_bit_predicates() {
    assert!(perm(CREATE).is_create());
    assert!(!perm(READ | UPDATE | DELETE).is_create());
    assert!(perm(UPDATE).is_update());
    assert!(!perm(READ | CREATE | DELETE).is_update());
    assert!(perm(DELETE).is_delete());
    assert!(!perm(READ | CREATE | UPDATE).is_delete());
}

#[test]
fn create_and_update_needs_both_bits() {
    assert!(perm(CREATE | UPDATE).is_create_and_update());
    assert!(perm(CREATE | UPDATE | READ).is_create_and_update());
    assert!(!perm(CREATE).is_create_and_update());
    assert!(!perm(UPDATE).is_create_and_update());
}

#[test]
fn action_bit_values() {
    assert_eq!(READ, 1);
    assert_eq!(CREATE, 2);
    assert_eq!(UPDATE, 4);
    assert_eq!(DELETE, 8);
}
