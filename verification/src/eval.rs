use vstd::prelude::*;
use crate::action::bit_set;
use crate::model::UserRoleStatus;
use crate::store::{Snapshot, StoreView};

verus! {

/// The subject reaches permission `pid` through role `rid`: it holds an
/// Active assignment to the role, the role is still cataloged, and the
/// role carries a grant of the permission.
pub open spec fn subject_linked(v: StoreView, uid: int, rid: Seq<char>, pid: Seq<char>) -> bool {
    &&& v.assignments.contains_key((uid, rid))
    &&& v.assignments[(uid, rid)] == UserRoleStatus::Active
    &&& v.roles.contains_key(rid)
    &&& v.grants.contains((rid, pid))
}

/// Permission `pid` contributes its action mask to the subject's
/// effective actions on `resource`: it is cataloged, names exactly this
/// resource, and the subject reaches it through some role. A grant whose
/// role or permission has left its catalog satisfies no such `pid` and is
/// thereby skipped, never an error.
pub open spec fn contributes(v: StoreView, uid: int, resource: Seq<char>, pid: Seq<char>) -> bool {
    &&& v.permissions.contains_key(pid)
    &&& v.permissions[pid].resource == resource
    &&& exists|rid: Seq<char>| subject_linked(v, uid, rid, pid)
}

/// The per-bit statement of evaluation: bit `i` of the result is set
/// exactly when some contributing permission has bit `i` set. The masks
/// of all contributing permissions are OR-ed together, and a subject with
/// no contributing permission gets 0, the implicit deny.
pub open spec fn effective_ok(v: StoreView, uid: int, resource: Seq<char>, result: u16) -> bool {
    forall|i: u16|
        i < 16 ==> (bit_set(result, i) <==> exists|pid: Seq<char>|
            contributes(v, uid, resource, pid) && bit_set(v.permissions[pid].action, i))
}

/// Catalog entry `j` contributes to the subject's actions on `resource`.
pub(crate) open spec fn entry_contributes(snap: Snapshot, uid: int, resource: Seq<char>, j: int) -> bool {
    &&& 0 <= j < snap.permissions@.len()
    &&& snap.permissions@[j].resource@ == resource
    &&& exists|rid: Seq<char>| subject_linked(snap@, uid, rid, snap.permissions@[j].id@)
}

/// Each bit of an OR is the disjunction of the operands' bits.
proof fn lemma_or_bits(a: u16, b: u16)
    ensures
        forall|i: u16| i < 16 ==> (bit_set(a | b, i) == (bit_set(a, i) || bit_set(b, i))),
{
    assert forall|i: u16| i < 16 implies (bit_set(a | b, i) == (bit_set(a, i) || bit_set(
        b,
        i,
    ))) by {
        assert((((a | b) >> i) & 1u16 == 1u16) == (((a >> i) & 1u16 == 1u16) || ((b >> i) & 1u16
            == 1u16))) by (bit_vector);
    }
}

/// A mask holds every bit of `m` exactly when each set bit of `m` is set
/// in it.
proof fn lemma_mask_subset(e: u16, m: u16)
    ensures
        (e & m == m) <==> (forall|i: u16| i < 16 ==> (bit_set(m, i) ==> bit_set(e, i))),
{
    if e & m == m {
        assert forall|i: u16| i < 16 && bit_set(m, i) implies bit_set(e, i) by {
            assert(bit_set(e, i)) by (bit_vector)
                requires
                    e & m == m,
                    i < 16,
                    bit_set(m, i),
            ;
        }
    }
    if forall|i: u16| i < 16 ==> (bit_set(m, i) ==> bit_set(e, i)) {
        assert(bit_set(m, 0) ==> bit_set(e, 0));
        assert(bit_set(m, 1) ==> bit_set(e, 1));
        assert(bit_set(m, 2) ==> bit_set(e, 2));
        assert(bit_set(m, 3) ==> bit_set(e, 3));
        assert(bit_set(m, 4) ==> bit_set(e, 4));
        assert(bit_set(m, 5) ==> bit_set(e, 5));
        assert(bit_set(m, 6) ==> bit_set(e, 6));
        assert(bit_set(m, 7) ==> bit_set(e, 7));
        assert(bit_set(m, 8) ==> bit_set(e, 8));
        assert(bit_set(m, 9) ==> bit_set(e, 9));
        assert(bit_set(m, 10) ==> bit_set(e, 10));
        assert(bit_set(m, 11) ==> bit_set(e, 11));
        assert(bit_set(m, 12) ==> bit_set(e, 12));
        assert(bit_set(m, 13) ==> bit_set(e, 13));
        assert(bit_set(m, 14) ==> bit_set(e, 14));
        assert(bit_set(m, 15) ==> bit_set(e, 15));
        assert(e & m == m) by (bit_vector)
            requires
                bit_set(m, 0) ==> bit_set(e, 0),
                bit_set(m, 1) ==> bit_set(e, 1),
                bit_set(m, 2) ==> bit_set(e, 2),
                bit_set(m, 3) ==> bit_set(e, 3),
                bit_set(m, 4) ==> bit_set(e, 4),
                bit_set(m, 5) ==> bit_set(e, 5),
                bit_set(m, 6) ==> bit_set(e, 6),
                bit_set(m, 7) ==> bit_set(e, 7),
                bit_set(m, 8) ==> bit_set(e, 8),
                bit_set(m, 9) ==> bit_set(e, 9),
                bit_set(m, 10) ==> bit_set(e, 10),
                bit_set(m, 11) ==> bit_set(e, 11),
                bit_set(m, 12) ==> bit_set(e, 12),
                bit_set(m, 13) ==> bit_set(e, 13),
                bit_set(m, 14) ==> bit_set(e, 14),
                bit_set(m, 15) ==> bit_set(e, 15),
        ;
    }
}

/// Whether the subject reaches this permission through any role, reading
/// one snapshot only.
fn linked_exec(snap: &Snapshot, user_id: i64, permission_id: &String) -> (b: bool)
    requires
        snap.wf(),
    ensures
        b == exists|rid: Seq<char>| subject_linked(snap@, user_id as int, rid, permission_id@),
{
    let mut k: usize = 0;
    while k < snap.user_roles.len()
        invariant
            snap.wf(),
            k <= snap.user_roles@.len(),
            forall|j: int|
                0 <= j < k ==> !((#[trigger] snap.user_roles@[j]).user_id == user_id
                    && snap.user_roles@[j].status == UserRoleStatus::Active && snap@.roles.contains_key(
                    snap.user_roles@[j].role_id@,
                ) && snap@.grants.contains((snap.user_roles@[j].role_id@, permission_id@))),
        decreases snap.user_roles@.len() - k,
    {
        let row = &snap.user_roles[k];
        if row.user_id == user_id && row.status == UserRoleStatus::Active {
            let role_there = match crate::store::find_role(&snap.roles, &row.role_id) {
                Some(_) => true,
                None => false,
            };
            let grant_there = match crate::store::find_grant(
                &snap.role_permissions,
                &row.role_id,
                permission_id,
            ) {
                Some(_) => true,
                None => false,
            };
            if role_there && grant_there {
                proof {
                    crate::store::lemma_assignment_at(
                        *snap,
                        k as int,
                        user_id as int,
                        row.role_id@,
                    );
                    assert(subject_linked(snap@, user_id as int, row.role_id@, permission_id@));
                }
                return true;
            }
            proof {
                if snap.has_role_id(snap.user_roles@[k as int].role_id@) {
                    let j = snap.role_index(snap.user_roles@[k as int].role_id@);
                    assert(snap.roles@[j].id@ == snap.user_roles@[k as int].role_id@);
                }
                if snap.has_grant(snap.user_roles@[k as int].role_id@, permission_id@) {
                    let j = choose|j: int|
                        0 <= j < snap.role_permissions@.len()
                            && snap.role_permissions@[j].role_id@ == snap.user_roles@[
                            k as int].role_id@ && snap.role_permissions@[j].permission_id@
                            == permission_id@;
                    assert(snap.role_permissions@[j].role_id@ == snap.user_roles@[
                    k as int].role_id@);
                }
            }
        }
        k = k + 1;
    }
    proof {
        if exists|rid: Seq<char>| subject_linked(snap@, user_id as int, rid, permission_id@) {
            let rid = choose|rid: Seq<char>|
                subject_linked(snap@, user_id as int, rid, permission_id@);
            let j = snap.assignment_index(user_id as int, rid);
            assert(snap.user_roles@[j].user_id == user_id as int && snap.user_roles@[j].role_id@
                == rid);
            assert(false);
        }
    }
    false
}

/// Computes the subject's effective action mask on a resource over one
/// snapshot: the OR of the masks of every cataloged permission on that
/// exact resource that the subject reaches through an Active, still
/// cataloged role. With no such permission the result is 0.
pub fn effective_actions(snap: &Snapshot, subject_id: i64, resource: &String) -> (r: u16)
    requires
        snap.wf(),
    ensures
        effective_ok(snap@, subject_id as int, resource@, r),
{
    let ghost uid = subject_id as int;
    let mut acc: u16 = 0;
    let mut k: usize = 0;
    proof {
        assert forall|i: u16| i < 16 implies !bit_set(0u16, i) by {
            assert(((0u16 >> i) & 1u16) != 1u16) by (bit_vector);
        }
    }
    while k < snap.permissions.len()
        invariant
            snap.wf(),
            uid == subject_id as int,
            k <= snap.permissions@.len(),
            forall|i: u16|
                i < 16 ==> (bit_set(acc, i) <==> exists|j: int|
                    0 <= j < k && entry_contributes(*snap, uid, resource@, j) && bit_set(
                        snap.permissions@[j].action,
                        i,
                    )),
        decreases snap.permissions@.len() - k,
    {
        let p = &snap.permissions[k];
        let matches_resource = p.resource == *resource;
        let linked = linked_exec(snap, subject_id, &p.id);
        let ghost acc0 = acc;
        if matches_resource && linked {
            proof {
                let rid0 = choose|rid: Seq<char>| subject_linked(snap@, uid, rid, p.id@);
                assert(subject_linked(snap@, uid, rid0, snap.permissions@[k as int].id@));
                assert(entry_contributes(*snap, uid, resource@, k as int));
                lemma_or_bits(acc, snap.permissions@[k as int].action);
            }
            acc = acc | p.action;
            proof {
                assert forall|i: u16| i < 16 implies (bit_set(acc, i) <==> exists|j: int|
                    0 <= j < k + 1 && entry_contributes(*snap, uid, resource@, j) && bit_set(
                        snap.permissions@[j].action,
                        i,
                    )) by {
                    if bit_set(acc, i) {
                        if bit_set(acc0, i) {
                            let j = choose|j: int|
                                0 <= j < k && entry_contributes(*snap, uid, resource@, j)
                                    && bit_set(snap.permissions@[j].action, i);
                            assert(0 <= j < k + 1 && entry_contributes(*snap, uid, resource@, j)
                                && bit_set(snap.permissions@[j].action, i));
                        } else {
                            assert(entry_contributes(*snap, uid, resource@, k as int));
                            assert(0 <= (k as int) < k + 1 && entry_contributes(
                                *snap,
                                uid,
                                resource@,
                                k as int,
                            ) && bit_set(snap.permissions@[k as int].action, i));
                        }
                    }
                    if exists|j: int|
                        0 <= j < k + 1 && entry_contributes(*snap, uid, resource@, j) && bit_set(
                            snap.permissions@[j].action,
                            i,
                        ) {
                        let j = choose|j: int|
                            0 <= j < k + 1 && entry_contributes(*snap, uid, resource@, j)
                                && bit_set(snap.permissions@[j].action, i);
                        if j < k {
                            assert(bit_set(acc0, i));
                        } else {
                            assert(bit_set(snap.permissions@[k as int].action, i));
                        }
                        assert(bit_set(acc, i));
                    }
                }
            }
        } else {
            proof {
                if entry_contributes(*snap, uid, resource@, k as int) {
                    assert(snap.permissions@[k as int].resource@ == resource@);
                    let rid0 = choose|rid: Seq<char>|
                        subject_linked(snap@, uid, rid, snap.permissions@[k as int].id@);
                    assert(subject_linked(snap@, uid, rid0, p.id@));
                    assert(matches_resource);
                    assert(linked);
                }
                assert(!entry_contributes(*snap, uid, resource@, k as int));
                assert forall|i: u16| i < 16 implies (bit_set(acc, i) <==> exists|j: int|
                    0 <= j < k + 1 && entry_contributes(*snap, uid, resource@, j) && bit_set(
                        snap.permissions@[j].action,
                        i,
                    )) by {
                    if exists|j: int|
                        0 <= j < k + 1 && entry_contributes(*snap, uid, resource@, j) && bit_set(
                            snap.permissions@[j].action,
                            i,
                        ) {
                        let j = choose|j: int|
                            0 <= j < k + 1 && entry_contributes(*snap, uid, resource@, j)
                                && bit_set(snap.permissions@[j].action, i);
                        assert(j < k);
                        assert(bit_set(acc, i));
                    }
                }
            }
        }
        k = k + 1;
    }
    proof {
        assert forall|i: u16| i < 16 implies (bit_set(acc, i) <==> exists|pid: Seq<char>|
            contributes(snap@, uid, resource@, pid) && bit_set(
                snap@.permissions[pid].action,
                i,
            )) by {
            if bit_set(acc, i) {
                let j = choose|j: int|
                    0 <= j < snap.permissions@.len() && entry_contributes(*snap, uid, resource@, j)
                        && bit_set(snap.permissions@[j].action, i);
                let pid = snap.permissions@[j].id@;
                crate::store::lemma_perm_at(*snap, j, pid);
                assert(contributes(snap@, uid, resource@, pid));
                assert(bit_set(snap@.permissions[pid].action, i));
            }
            if exists|pid: Seq<char>| contributes(snap@, uid, resource@, pid) && bit_set(
                snap@.permissions[pid].action,
                i,
            ) {
                let pid = choose|pid: Seq<char>|
                    contributes(snap@, uid, resource@, pid) && bit_set(
                        snap@.permissions[pid].action,
                        i,
                    );
                let j = snap.perm_index(pid);
                assert(snap.has_perm_id(pid));
                assert(snap.permissions@[j].id@ == pid);
                assert(entry_contributes(*snap, uid, resource@, j) && bit_set(
                    snap.permissions@[j].action,
                    i,
                ));
            }
        }
    }
    acc
}

/// True exactly when the subject holds every bit of `requested` on the
/// resource: each requested bit must be covered by some contributing
/// permission, not merely one of them.
pub fn has_permission(snap: &Snapshot, subject_id: i64, resource: &String, requested: u16) -> (r:
    bool)
    requires
        snap.wf(),
    ensures
        r <==> (forall|i: u16|
            (i < 16 && bit_set(requested, i)) ==> (exists|pid: Seq<char>|
                contributes(snap@, subject_id as int, resource@, pid) && bit_set(
                    snap@.permissions[pid].action,
                    i,
                ))),
{
    let e = effective_actions(snap, subject_id, resource);
    proof {
        lemma_mask_subset(e, requested);
    }
    e & requested == requested
}

} // verus!
