use vstd::prelude::*;
use crate::action::bit_set;
use crate::eval::{contributes, effective_ok, subject_linked};
use crate::model::UserRoleStatus;
use crate::store::StoreView;

verus! {

/// The per-bit statement of evaluation pins its result: any two masks
/// that satisfy it for the same snapshot, subject and resource are the
/// same mask, so evaluation is a function of the snapshot alone.
pub proof fn lemma_effective_unique(
    v: StoreView,
    uid: int,
    resource: Seq<char>,
    r1: u16,
    r2: u16,
)
    requires
        effective_ok(v, uid, resource, r1),
        effective_ok(v, uid, resource, r2),
    ensures
        r1 == r2,
{
    assert forall|i: u16| i < 16 implies (bit_set(r1, i) == bit_set(r2, i)) by {
        if bit_set(r1, i) {
            assert(exists|pid: Seq<char>|
                contributes(v, uid, resource, pid) && bit_set(v.permissions[pid].action, i));
        }
        if bit_set(r2, i) {
            assert(exists|pid: Seq<char>|
                contributes(v, uid, resource, pid) && bit_set(v.permissions[pid].action, i));
        }
    }
    assert(r1 == r2) by (bit_vector)
        requires
            bit_set(r1, 0) == bit_set(r2, 0),
            bit_set(r1, 1) == bit_set(r2, 1),
            bit_set(r1, 2) == bit_set(r2, 2),
            bit_set(r1, 3) == bit_set(r2, 3),
            bit_set(r1, 4) == bit_set(r2, 4),
            bit_set(r1, 5) == bit_set(r2, 5),
            bit_set(r1, 6) == bit_set(r2, 6),
            bit_set(r1, 7) == bit_set(r2, 7),
            bit_set(r1, 8) == bit_set(r2, 8),
            bit_set(r1, 9) == bit_set(r2, 9),
            bit_set(r1, 10) == bit_set(r2, 10),
            bit_set(r1, 11) == bit_set(r2, 11),
            bit_set(r1, 12) == bit_set(r2, 12),
            bit_set(r1, 13) == bit_set(r2, 13),
            bit_set(r1, 14) == bit_set(r2, 14),
            bit_set(r1, 15) == bit_set(r2, 15),
    ;
}

/// Disabling a subject's assignment to a role excludes that role from
/// the subject's evaluation in the resulting state: the role links the
/// subject to nothing, only the other roles still contribute, and no
/// other (subject, role) pair is affected. Because readers only ever see
/// whole store states, the very next snapshot evaluates this way and no
/// reader observes a state in between.
pub proof fn lemma_disable_excludes_role(
    v0: StoreView,
    v1: StoreView,
    uid: int,
    rid: Seq<char>,
    resource: Seq<char>,
)
    requires
        v1.assignments == v0.assignments.insert((uid, rid), UserRoleStatus::Disabled),
        v1.roles == v0.roles,
        v1.permissions == v0.permissions,
        v1.grants == v0.grants,
    ensures
        forall|pid: Seq<char>| !subject_linked(v1, uid, rid, pid),
        forall|u2: int, r2: Seq<char>, pid: Seq<char>|
            !(u2 == uid && r2 == rid) ==> (#[trigger] subject_linked(v1, u2, r2, pid)
                == subject_linked(v0, u2, r2, pid)),
        forall|pid: Seq<char>|
            #[trigger] contributes(v1, uid, resource, pid) <==> (v0.permissions.contains_key(pid)
                && v0.permissions[pid].resource == resource && exists|r2: Seq<char>|
                r2 != rid && subject_linked(v0, uid, r2, pid)),
{
    assert forall|pid: Seq<char>| !subject_linked(v1, uid, rid, pid) by {
        assert(v1.assignments[(uid, rid)] == UserRoleStatus::Disabled);
    }
    assert forall|u2: int, r2: Seq<char>, pid: Seq<char>| !(u2 == uid && r2 == rid) implies (
    #[trigger] subject_linked(v1, u2, r2, pid) == subject_linked(v0, u2, r2, pid)) by {
        assert(v1.assignments.contains_key((u2, r2)) == v0.assignments.contains_key((u2, r2)));
        if v0.assignments.contains_key((u2, r2)) {
            assert(v1.assignments[(u2, r2)] == v0.assignments[(u2, r2)]);
        }
    }
    assert forall|pid: Seq<char>| #[trigger]
        contributes(v1, uid, resource, pid) <==> (v0.permissions.contains_key(pid)
            && v0.permissions[pid].resource == resource && exists|r2: Seq<char>|
            r2 != rid && subject_linked(v0, uid, r2, pid)) by {
        if contributes(v1, uid, resource, pid) {
            let r2 = choose|r2: Seq<char>| subject_linked(v1, uid, r2, pid);
            assert(r2 != rid);
            assert(subject_linked(v0, uid, r2, pid));
        }
        if v0.permissions.contains_key(pid) && v0.permissions[pid].resource == resource && exists|
            r2: Seq<char>,
        | r2 != rid && subject_linked(v0, uid, r2, pid) {
            let r2 = choose|r2: Seq<char>| r2 != rid && subject_linked(v0, uid, r2, pid);
            assert(subject_linked(v1, uid, r2, pid));
            assert(contributes(v1, uid, resource, pid));
        }
    }
}

/// Granting a pair that is already present changes nothing: adding the
/// same (role, permission) pair twice leaves the same grant set as
/// adding it once, so the permissions listed for the role are the same.
pub proof fn lemma_grant_idempotent(
    g: Set<(Seq<char>, Seq<char>)>,
    rid: Seq<char>,
    pid: Seq<char>,
)
    ensures
        g.insert((rid, pid)).insert((rid, pid)) == g.insert((rid, pid)),
{
    assert(g.insert((rid, pid)).insert((rid, pid)) =~= g.insert((rid, pid)));
}

/// A grant whose role has left the role catalog links no subject to
/// anything: evaluation skips the dangling grant, so its contribution is
/// zero rather than an error.
pub proof fn lemma_removed_role_grant_skipped(
    v: StoreView,
    uid: int,
    rid: Seq<char>,
    pid: Seq<char>,
)
    requires
        !v.roles.contains_key(rid),
    ensures
        !subject_linked(v, uid, rid, pid),
{
}

/// A grant naming a permission absent from the permission catalog
/// contributes nothing on any resource: it too is skipped, not an error.
pub proof fn lemma_removed_permission_grant_skipped(
    v: StoreView,
    uid: int,
    resource: Seq<char>,
    pid: Seq<char>,
)
    requires
        !v.permissions.contains_key(pid),
    ensures
        !contributes(v, uid, resource, pid),
{
}

} // verus!
