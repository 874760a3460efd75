use vstd::prelude::*;
use crate::model::{AuthError, Permission, Role, RolePermission, UserRole, UserRoleStatus};

verus! {

/// The record a role id maps to, at the specification level.
pub struct RoleV {
    pub name: Seq<char>,
    pub description: Option<Seq<char>>,
}

/// The record a permission id maps to, at the specification level.
pub struct PermV {
    pub resource: Seq<char>,
    pub action: u16,
}

/// Everything the store holds at one instant, as one mathematical value:
/// the two catalogs as maps keyed by id, the subject-role assignments as a
/// map keyed by the (subject, role) pair, and the role-permission grants
/// as a set of pairs.
pub struct StoreView {
    pub roles: Map<Seq<char>, RoleV>,
    pub permissions: Map<Seq<char>, PermV>,
    pub assignments: Map<(int, Seq<char>), UserRoleStatus>,
    pub grants: Set<(Seq<char>, Seq<char>)>,
}

/// An immutable, internally consistent composite of the four collections,
/// taken at one instant. Evaluation reads only snapshots, so it can never
/// observe role memberships from one moment and grants from another.
pub struct Snapshot {
    pub roles: Vec<Role>,
    pub permissions: Vec<Permission>,
    pub user_roles: Vec<UserRole>,
    pub role_permissions: Vec<RolePermission>,
}

impl Snapshot {
    /// A role with this id is in the role catalog.
    pub open spec fn has_role_id(self, id: Seq<char>) -> bool {
        exists|i: int| 0 <= i < self.roles@.len() && (#[trigger] self.roles@[i]).id@ == id
    }

    /// The position of the role with this id in the catalog.
    pub open spec fn role_index(self, id: Seq<char>) -> int {
        choose|i: int| 0 <= i < self.roles@.len() && (#[trigger] self.roles@[i]).id@ == id
    }

    /// The record the role catalog holds under this id.
    pub open spec fn role_v(self, id: Seq<char>) -> RoleV {
        RoleV {
            name: self.roles@[self.role_index(id)].name@,
            description: self.roles@[self.role_index(id)].description.deep_view(),
        }
    }

    /// A permission with this id is in the permission catalog.
    pub open spec fn has_perm_id(self, id: Seq<char>) -> bool {
        exists|i: int| 0 <= i < self.permissions@.len() && (#[trigger] self.permissions@[i]).id@
            == id
    }

    /// The position of the permission with this id in the catalog.
    pub open spec fn perm_index(self, id: Seq<char>) -> int {
        choose|i: int| 0 <= i < self.permissions@.len() && (#[trigger] self.permissions@[i]).id@
            == id
    }

    /// The record the permission catalog holds under this id.
    pub open spec fn perm_v(self, id: Seq<char>) -> PermV {
        PermV {
            resource: self.permissions@[self.perm_index(id)].resource@,
            action: self.permissions@[self.perm_index(id)].action,
        }
    }

    /// The subject holds an assignment (of whatever status) to this role.
    pub open spec fn has_assignment(self, uid: int, rid: Seq<char>) -> bool {
        exists|i: int| 0 <= i < self.user_roles@.len() && (#[trigger] self.user_roles@[i]).user_id
            == uid && self.user_roles@[i].role_id@ == rid
    }

    /// The position of the (subject, role) assignment.
    pub open spec fn assignment_index(self, uid: int, rid: Seq<char>) -> int {
        choose|i: int| 0 <= i < self.user_roles@.len() && (#[trigger] self.user_roles@[i]).user_id
            == uid && self.user_roles@[i].role_id@ == rid
    }

    /// The stored status of the (subject, role) assignment.
    pub open spec fn assignment_status(self, uid: int, rid: Seq<char>) -> UserRoleStatus {
        self.user_roles@[self.assignment_index(uid, rid)].status
    }

    /// The role holds a grant of this permission.
    pub open spec fn has_grant(self, rid: Seq<char>, pid: Seq<char>) -> bool {
        exists|i: int| 0 <= i < self.role_permissions@.len() && (#[trigger] self.role_permissions@[
            i
        ]).role_id@ == rid && self.role_permissions@[i].permission_id@ == pid
    }

    /// Role ids are unique within the role catalog.
    pub open spec fn roles_unique(self) -> bool {
        forall|i: int, j: int| 0 <= i < j < self.roles@.len() ==> (#[trigger] self.roles@[i]).id@
            != (#[trigger] self.roles@[j]).id@
    }

    /// Permission ids are unique within the permission catalog.
    pub open spec fn permissions_unique(self) -> bool {
        forall|i: int, j: int| 0 <= i < j < self.permissions@.len() ==> (
        #[trigger] self.permissions@[i]).id@ != (#[trigger] self.permissions@[j]).id@
    }

    /// At most one assignment per (subject, role) pair.
    pub open spec fn assignments_unique(self) -> bool {
        forall|i: int, j: int| 0 <= i < j < self.user_roles@.len() ==> !((
        #[trigger] self.user_roles@[i]).user_id == (#[trigger] self.user_roles@[j]).user_id
            && self.user_roles@[i].role_id@ == self.user_roles@[j].role_id@)
    }

    /// A grant is present at most once.
    pub open spec fn grants_unique(self) -> bool {
        forall|i: int, j: int| 0 <= i < j < self.role_permissions@.len() ==> !((
        #[trigger] self.role_permissions@[i]).role_id@ == (#[trigger] self.role_permissions@[j]).role_id@
            && self.role_permissions@[i].permission_id@ == self.role_permissions@[j].permission_id@)
    }

    /// Every cataloged role has a nonempty id.
    pub open spec fn roles_valid(self) -> bool {
        forall|i: int| 0 <= i < self.roles@.len() ==> (#[trigger] self.roles@[i]).id@.len() > 0
    }

    /// Every cataloged permission has nonempty identifiers and grants at
    /// least one action.
    pub open spec fn permissions_valid(self) -> bool {
        forall|i: int| 0 <= i < self.permissions@.len() ==> (#[trigger] self.permissions@[i]).id@.len()
            > 0 && self.permissions@[i].resource@.len() > 0 && self.permissions@[i].action != 0
    }

    /// Every assignment names a role by a nonempty id.
    pub open spec fn assignments_valid(self) -> bool {
        forall|i: int| 0 <= i < self.user_roles@.len() ==> (
        #[trigger] self.user_roles@[i]).role_id@.len() > 0
    }

    /// The internal invariant of a snapshot: keys are unique and every
    /// record passed validation when it was admitted.
    pub open spec fn wf(self) -> bool {
        &&& self.roles_unique()
        &&& self.permissions_unique()
        &&& self.assignments_unique()
        &&& self.grants_unique()
        &&& self.roles_valid()
        &&& self.permissions_valid()
        &&& self.assignments_valid()
    }
}

/// Whether a list of identifier strings already holds this text.
fn contains_str(v: &Vec<String>, s: &String) -> (b: bool)
    ensures
        b == exists|i: int| 0 <= i < v@.len() && (#[trigger] v@[i])@ == s@,
{
    let mut k: usize = 0;
    while k < v.len()
        invariant
            k <= v@.len(),
            forall|i: int| 0 <= i < k ==> (#[trigger] v@[i])@ != s@,
        decreases v@.len() - k,
    {
        if v[k] == *s {
            return true;
        }
        k = k + 1;
    }
    false
}

impl Snapshot {
    /// The ids of the roles in which the subject holds an assignment of
    /// exactly this status; each id appears once, in no promised order.
    #[verifier::rlimit(50)]
    pub fn roles_for_subject(&self, user_id: i64, status_filter: UserRoleStatus) -> (r: Vec<
        String,
    >)
        requires
            self.wf(),
        ensures
            forall|i: int|
                0 <= i < r@.len() ==> self@.assignments.contains_key(
                    (user_id as int, (#[trigger] r@[i])@),
                ) && self@.assignments[(user_id as int, r@[i]@)] == status_filter,
            forall|rid: Seq<char>|
                (self@.assignments.contains_key((user_id as int, rid))
                    && self@.assignments[(user_id as int, rid)] == status_filter) ==> exists|i: int|
                    0 <= i < r@.len() && (#[trigger] r@[i])@ == rid,
            forall|i: int, j: int| 0 <= i < j < r@.len() ==> r@[i]@ != r@[j]@,
    {
        let ghost uid = user_id as int;
        let mut out: Vec<String> = Vec::new();
        let mut k: usize = 0;
        while k < self.user_roles.len()
            invariant
                self.wf(),
                uid == user_id as int,
                k <= self.user_roles@.len(),
                forall|i: int|
                    0 <= i < out@.len() ==> self@.assignments.contains_key(
                        (uid, (#[trigger] out@[i])@),
                    ) && self@.assignments[(uid, out@[i]@)] == status_filter,
                forall|j: int|
                    0 <= j < k && (#[trigger] self.user_roles@[j]).user_id == user_id
                        && self.user_roles@[j].status == status_filter ==> exists|i: int|
                        0 <= i < out@.len() && (#[trigger] out@[i])@
                            == self.user_roles@[j].role_id@,
                forall|i: int, j: int| 0 <= i < j < out@.len() ==> out@[i]@ != out@[j]@,
            decreases self.user_roles@.len() - k,
        {
            let row = &self.user_roles[k];
            if row.user_id == user_id && row.status == status_filter {
                if !contains_str(&out, &row.role_id) {
                    let ghost out0 = out;
                    out.push(row.role_id.clone());
                    proof {
                        lemma_assignment_at(*self, k as int, uid, self.user_roles@[k as int].role_id@);
                        assert forall|i: int| 0 <= i < out@.len() implies self@.assignments.contains_key(
                            (uid, (#[trigger] out@[i])@),
                        ) && self@.assignments[(uid, out@[i]@)] == status_filter by {
                            if i < out0@.len() {
                                assert(out@[i] == out0@[i]);
                            } else {
                                assert(out@[i]@ == self.user_roles@[k as int].role_id@);
                            }
                        }
                        assert forall|i: int, j: int| 0 <= i < j < out@.len() implies out@[i]@
                            != out@[j]@ by {
                            assert(out@[i] == out0@[i]);
                            if j < out0@.len() {
                                assert(out@[j] == out0@[j]);
                            } else {
                                assert(out@[j]@ == self.user_roles@[k as int].role_id@);
                            }
                        }
                        assert forall|j: int|
                            0 <= j < k + 1 && (#[trigger] self.user_roles@[j]).user_id == user_id
                                && self.user_roles@[j].status == status_filter implies exists|i: int|
                            0 <= i < out@.len() && (#[trigger] out@[i])@
                                == self.user_roles@[j].role_id@ by {
                            if j < k {
                                let i = choose|i: int|
                                    0 <= i < out0@.len() && (#[trigger] out0@[i])@
                                        == self.user_roles@[j].role_id@;
                                assert(out@[i] == out0@[i]);
                                assert(out@[i]@ == self.user_roles@[j].role_id@);
                            } else {
                                let i = out0@.len() as int;
                                assert(out@[i]@ == self.user_roles@[j].role_id@);
                            }
                        }
                    }
                } else {
                    proof {
                        assert forall|j: int|
                            0 <= j < k + 1 && (#[trigger] self.user_roles@[j]).user_id == user_id
                                && self.user_roles@[j].status == status_filter implies exists|i: int|
                            0 <= i < out@.len() && (#[trigger] out@[i])@
                                == self.user_roles@[j].role_id@ by {
                            if j == k {
                                let i = choose|i: int|
                                    0 <= i < out@.len() && (#[trigger] out@[i])@
                                        == self.user_roles@[k as int].role_id@;
                                assert(out@[i]@ == self.user_roles@[j].role_id@);
                            }
                        }
                    }
                }
            }
            k = k + 1;
        }
        proof {
            assert forall|rid: Seq<char>|
                (self@.assignments.contains_key((uid, rid)) && self@.assignments[(uid, rid)]
                    == status_filter) implies exists|i: int|
                0 <= i < out@.len() && (#[trigger] out@[i])@ == rid by {
                let j = self.assignment_index(uid, rid);
                assert(self.user_roles@[j].user_id == user_id && self.user_roles@[j].role_id@
                    == rid && self.user_roles@[j].status == status_filter);
            }
        }
        out
    }

    /// The ids of the permissions granted to this role; each id appears
    /// once, in no promised order.
    #[verifier::rlimit(50)]
    pub fn permissions_for_role(&self, role_id: &String) -> (r: Vec<String>)
        requires
            self.wf(),
        ensures
            forall|i: int|
                0 <= i < r@.len() ==> self@.grants.contains((role_id@, (#[trigger] r@[i])@)),
            forall|pid: Seq<char>|
                self@.grants.contains((role_id@, pid)) ==> exists|i: int|
                    0 <= i < r@.len() && (#[trigger] r@[i])@ == pid,
            forall|i: int, j: int| 0 <= i < j < r@.len() ==> r@[i]@ != r@[j]@,
    {
        let mut out: Vec<String> = Vec::new();
        let mut k: usize = 0;
        while k < self.role_permissions.len()
            invariant
                self.wf(),
                k <= self.role_permissions@.len(),
                forall|i: int|
                    0 <= i < out@.len() ==> self@.grants.contains(
                        (role_id@, (#[trigger] out@[i])@),
                    ),
                forall|j: int|
                    0 <= j < k && (#[trigger] self.role_permissions@[j]).role_id@ == role_id@
                        ==> exists|i: int|
                        0 <= i < out@.len() && (#[trigger] out@[i])@ == self.role_permissions@[
                        j].permission_id@,
                forall|i: int, j: int| 0 <= i < j < out@.len() ==> out@[i]@ != out@[j]@,
            decreases self.role_permissions@.len() - k,
        {
            let row = &self.role_permissions[k];
            if row.role_id == *role_id {
                if !contains_str(&out, &row.permission_id) {
                    let ghost out0 = out;
                    out.push(row.permission_id.clone());
                    proof {
                        assert(self.has_grant(role_id@, self.role_permissions@[k as int].permission_id@));
                        assert forall|i: int| 0 <= i < out@.len() implies self@.grants.contains(
                            (role_id@, (#[trigger] out@[i])@),
                        ) by {
                            if i < out0@.len() {
                                assert(out@[i] == out0@[i]);
                            } else {
                                assert(out@[i]@
                                    == self.role_permissions@[k as int].permission_id@);
                            }
                        }
                        assert forall|i: int, j: int| 0 <= i < j < out@.len() implies out@[i]@
                            != out@[j]@ by {
                            assert(out@[i] == out0@[i]);
                            if j < out0@.len() {
                                assert(out@[j] == out0@[j]);
                            } else {
                                assert(out@[j]@
                                    == self.role_permissions@[k as int].permission_id@);
                            }
                        }
                        assert forall|j: int|
                            0 <= j < k + 1 && (#[trigger] self.role_permissions@[j]).role_id@
                                == role_id@ implies exists|i: int|
                            0 <= i < out@.len() && (#[trigger] out@[i])@ == self.role_permissions@[
                            j].permission_id@ by {
                            if j < k {
                                let i = choose|i: int|
                                    0 <= i < out0@.len() && (#[trigger] out0@[i])@
                                        == self.role_permissions@[j].permission_id@;
                                assert(out@[i] == out0@[i]);
                                assert(out@[i]@ == self.role_permissions@[j].permission_id@);
                            } else {
                                let i = out0@.len() as int;
                                assert(out@[i]@ == self.role_permissions@[j].permission_id@);
                            }
                        }
                    }
                } else {
                    proof {
                        assert forall|j: int|
                            0 <= j < k + 1 && (#[trigger] self.role_permissions@[j]).role_id@
                                == role_id@ implies exists|i: int|
                            0 <= i < out@.len() && (#[trigger] out@[i])@ == self.role_permissions@[
                            j].permission_id@ by {
                            if j == k {
                                let i = choose|i: int|
                                    0 <= i < out@.len() && (#[trigger] out@[i])@
                                        == self.role_permissions@[k as int].permission_id@;
                                assert(out@[i]@ == self.role_permissions@[j].permission_id@);
                            }
                        }
                    }
                }
            }
            k = k + 1;
        }
        proof {
            assert forall|pid: Seq<char>| self@.grants.contains((role_id@, pid)) implies exists|
                i: int,
            | 0 <= i < out@.len() && (#[trigger] out@[i])@ == pid by {
                let j = choose|j: int|
                    0 <= j < self.role_permissions@.len() && (
                    #[trigger] self.role_permissions@[j]).role_id@ == role_id@
                        && self.role_permissions@[j].permission_id@ == pid;
                assert(self.role_permissions@[j].role_id@ == role_id@);
            }
        }
        out
    }
}
impl View for Snapshot {
    type V = StoreView;

    open spec fn view(&self) -> StoreView {
        StoreView {
            roles: Map::new(|id: Seq<char>| self.has_role_id(id), |id: Seq<char>| self.role_v(id)),
            permissions: Map::new(
                |id: Seq<char>| self.has_perm_id(id),
                |id: Seq<char>| self.perm_v(id),
            ),
            assignments: Map::new(
                |k: (int, Seq<char>)| self.has_assignment(k.0, k.1),
                |k: (int, Seq<char>)| self.assignment_status(k.0, k.1),
            ),
            grants: Set::new(|g: (Seq<char>, Seq<char>)| self.has_grant(g.0, g.1)),
        }
    }
}

/// Finds the position of a role id in a catalog column.
pub(crate) fn find_role(roles: &Vec<Role>, id: &String) -> (r: Option<usize>)
    ensures
        match r {
            Some(i) => i < roles@.len() && roles@[i as int].id@ == id@,
            None => forall|i: int| 0 <= i < roles@.len() ==> (#[trigger] roles@[i]).id@ != id@,
        },
{
    let mut k: usize = 0;
    while k < roles.len()
        invariant
            k <= roles@.len(),
            forall|i: int| 0 <= i < k ==> (#[trigger] roles@[i]).id@ != id@,
        decreases roles@.len() - k,
    {
        if roles[k].id == *id {
            return Some(k);
        }
        k = k + 1;
    }
    None
}

/// Finds the position of a permission id in a catalog column.
fn find_permission(permissions: &Vec<Permission>, id: &String) -> (r: Option<usize>)
    ensures
        match r {
            Some(i) => i < permissions@.len() && permissions@[i as int].id@ == id@,
            None => forall|i: int| 0 <= i < permissions@.len() ==> (#[trigger] permissions@[i]).id@
                != id@,
        },
{
    let mut k: usize = 0;
    while k < permissions.len()
        invariant
            k <= permissions@.len(),
            forall|i: int| 0 <= i < k ==> (#[trigger] permissions@[i]).id@ != id@,
        decreases permissions@.len() - k,
    {
        if permissions[k].id == *id {
            return Some(k);
        }
        k = k + 1;
    }
    None
}

/// Finds the position of a (subject, role) assignment.
fn find_assignment(user_roles: &Vec<UserRole>, user_id: i64, role_id: &String) -> (r: Option<usize>)
    ensures
        match r {
            Some(i) => i < user_roles@.len() && user_roles@[i as int].user_id == user_id
                && user_roles@[i as int].role_id@ == role_id@,
            None => forall|i: int| 0 <= i < user_roles@.len() ==> !((
            #[trigger] user_roles@[i]).user_id == user_id && user_roles@[i].role_id@ == role_id@),
        },
{
    let mut k: usize = 0;
    while k < user_roles.len()
        invariant
            k <= user_roles@.len(),
            forall|i: int| 0 <= i < k ==> !((#[trigger] user_roles@[i]).user_id == user_id
                && user_roles@[i].role_id@ == role_id@),
        decreases user_roles@.len() - k,
    {
        if user_roles[k].user_id == user_id && user_roles[k].role_id == *role_id {
            return Some(k);
        }
        k = k + 1;
    }
    None
}

/// Finds the position of a (role, permission) grant.
pub(crate) fn find_grant(
    role_permissions: &Vec<RolePermission>,
    role_id: &String,
    permission_id: &String,
) -> (r: Option<usize>)
    ensures
        match r {
            Some(i) => i < role_permissions@.len() && role_permissions@[i as int].role_id@
                == role_id@ && role_permissions@[i as int].permission_id@ == permission_id@,
            None => forall|i: int| 0 <= i < role_permissions@.len() ==> !((
            #[trigger] role_permissions@[i]).role_id@ == role_id@
                && role_permissions@[i].permission_id@ == permission_id@),
        },
{
    let mut k: usize = 0;
    while k < role_permissions.len()
        invariant
            k <= role_permissions@.len(),
            forall|i: int| 0 <= i < k ==> !((#[trigger] role_permissions@[i]).role_id@ == role_id@
                && role_permissions@[i].permission_id@ == permission_id@),
        decreases role_permissions@.len() - k,
    {
        if role_permissions[k].role_id == *role_id && role_permissions[k].permission_id
            == *permission_id {
            return Some(k);
        }
        k = k + 1;
    }
    None
}

/// Copies a role catalog column entry by entry.
fn clone_roles(v: &Vec<Role>) -> (out: Vec<Role>)
    ensures
        out@ == v@,
{
    let mut out: Vec<Role> = Vec::new();
    let mut k: usize = 0;
    while k < v.len()
        invariant
            k <= v@.len(),
            out@.len() == k,
            forall|i: int| 0 <= i < k ==> out@[i] == v@[i],
        decreases v@.len() - k,
    {
        out.push(v[k].clone());
        k = k + 1;
    }
    proof {
        assert(out@ =~= v@);
    }
    out
}

/// Copies a permission catalog column entry by entry.
fn clone_permissions(v: &Vec<Permission>) -> (out: Vec<Permission>)
    ensures
        out@ == v@,
{
    let mut out: Vec<Permission> = Vec::new();
    let mut k: usize = 0;
    while k < v.len()
        invariant
            k <= v@.len(),
            out@.len() == k,
            forall|i: int| 0 <= i < k ==> out@[i] == v@[i],
        decreases v@.len() - k,
    {
        out.push(v[k].clone());
        k = k + 1;
    }
    proof {
        assert(out@ =~= v@);
    }
    out
}

/// Copies the subject-role assignments entry by entry.
fn clone_user_roles(v: &Vec<UserRole>) -> (out: Vec<UserRole>)
    ensures
        out@ == v@,
{
    let mut out: Vec<UserRole> = Vec::new();
    let mut k: usize = 0;
    while k < v.len()
        invariant
            k <= v@.len(),
            out@.len() == k,
            forall|i: int| 0 <= i < k ==> out@[i] == v@[i],
        decreases v@.len() - k,
    {
        out.push(v[k].clone());
        k = k + 1;
    }
    proof {
        assert(out@ =~= v@);
    }
    out
}

/// Copies the role-permission grants entry by entry.
fn clone_role_permissions(v: &Vec<RolePermission>) -> (out: Vec<RolePermission>)
    ensures
        out@ == v@,
{
    let mut out: Vec<RolePermission> = Vec::new();
    let mut k: usize = 0;
    while k < v.len()
        invariant
            k <= v@.len(),
            out@.len() == k,
            forall|i: int| 0 <= i < k ==> out@[i] == v@[i],
        decreases v@.len() - k,
    {
        out.push(v[k].clone());
        k = k + 1;
    }
    proof {
        assert(out@ =~= v@);
    }
    out
}

/// The unique catalog position carrying a role id is the one `role_index`
/// picks.
proof fn lemma_role_at(s: Snapshot, j: int, id: Seq<char>)
    requires
        s.roles_unique(),
        0 <= j < s.roles@.len(),
        s.roles@[j].id@ == id,
    ensures
        s.has_role_id(id),
        s.role_index(id) == j,
{
    assert(s.has_role_id(id));
    let k = s.role_index(id);
    if k < j {
        assert(s.roles@[k].id@ != s.roles@[j].id@);
    }
    if k > j {
        assert(s.roles@[j].id@ != s.roles@[k].id@);
    }
}

/// The unique catalog position carrying a permission id is the one
/// `perm_index` picks.
pub(crate) proof fn lemma_perm_at(s: Snapshot, j: int, id: Seq<char>)
    requires
        s.permissions_unique(),
        0 <= j < s.permissions@.len(),
        s.permissions@[j].id@ == id,
    ensures
        s.has_perm_id(id),
        s.perm_index(id) == j,
{
    assert(s.has_perm_id(id));
    let k = s.perm_index(id);
    if k < j {
        assert(s.permissions@[k].id@ != s.permissions@[j].id@);
    }
    if k > j {
        assert(s.permissions@[j].id@ != s.permissions@[k].id@);
    }
}

/// The unique position carrying a (subject, role) pair is the one
/// `assignment_index` picks.
pub(crate) proof fn lemma_assignment_at(s: Snapshot, j: int, uid: int, rid: Seq<char>)
    requires
        s.assignments_unique(),
        0 <= j < s.user_roles@.len(),
        s.user_roles@[j].user_id == uid,
        s.user_roles@[j].role_id@ == rid,
    ensures
        s.has_assignment(uid, rid),
        s.assignment_index(uid, rid) == j,
{
    assert(s.has_assignment(uid, rid));
    let k = s.assignment_index(uid, rid);
    if k < j {
        assert(!(s.user_roles@[k].user_id == s.user_roles@[j].user_id && s.user_roles@[k].role_id@
            == s.user_roles@[j].role_id@));
    }
    if k > j {
        assert(!(s.user_roles@[j].user_id == s.user_roles@[k].user_id && s.user_roles@[j].role_id@
            == s.user_roles@[k].role_id@));
    }
}

/// Two snapshots with the same role column agree on the role catalog and
/// on its invariants.
proof fn lemma_roles_agree(a: Snapshot, b: Snapshot)
    requires
        a.roles@ == b.roles@,
    ensures
        a@.roles == b@.roles,
        a.roles_unique() == b.roles_unique(),
        a.roles_valid() == b.roles_valid(),
{
    assert forall|id: Seq<char>| a.has_role_id(id) == b.has_role_id(id) by {
        if a.has_role_id(id) {
            let i = a.role_index(id);
            assert(b.roles@[i].id@ == id);
        }
        if b.has_role_id(id) {
            let i = b.role_index(id);
            assert(a.roles@[i].id@ == id);
        }
    }
    assert(a@.roles =~= b@.roles);
}

/// Two snapshots with the same permission column agree on the permission
/// catalog and on its invariants.
proof fn lemma_perms_agree(a: Snapshot, b: Snapshot)
    requires
        a.permissions@ == b.permissions@,
    ensures
        a@.permissions == b@.permissions,
        a.permissions_unique() == b.permissions_unique(),
        a.permissions_valid() == b.permissions_valid(),
{
    assert forall|id: Seq<char>| a.has_perm_id(id) == b.has_perm_id(id) by {
        if a.has_perm_id(id) {
            let i = a.perm_index(id);
            assert(b.permissions@[i].id@ == id);
        }
        if b.has_perm_id(id) {
            let i = b.perm_index(id);
            assert(a.permissions@[i].id@ == id);
        }
    }
    assert(a@.permissions =~= b@.permissions);
}

/// Two snapshots with the same assignment column agree on the assignment
/// map and on its invariants.
proof fn lemma_assignments_agree(a: Snapshot, b: Snapshot)
    requires
        a.user_roles@ == b.user_roles@,
    ensures
        a@.assignments == b@.assignments,
        a.assignments_unique() == b.assignments_unique(),
        a.assignments_valid() == b.assignments_valid(),
{
    assert forall|uid: int, rid: Seq<char>|
        a.has_assignment(uid, rid) == b.has_assignment(uid, rid) by {
        if a.has_assignment(uid, rid) {
            let i = a.assignment_index(uid, rid);
            assert(b.user_roles@[i].user_id == uid);
        }
        if b.has_assignment(uid, rid) {
            let i = b.assignment_index(uid, rid);
            assert(a.user_roles@[i].user_id == uid);
        }
    }
    assert(a@.assignments =~= b@.assignments);
}

/// Two snapshots with the same grant column agree on the grant set and on
/// its invariants.
proof fn lemma_grants_agree(a: Snapshot, b: Snapshot)
    requires
        a.role_permissions@ == b.role_permissions@,
    ensures
        a@.grants == b@.grants,
        a.grants_unique() == b.grants_unique(),
{
    assert forall|rid: Seq<char>, pid: Seq<char>|
        a.has_grant(rid, pid) == b.has_grant(rid, pid) by {
        if a.has_grant(rid, pid) {
            let i = choose|i: int|
                0 <= i < a.role_permissions@.len() && a.role_permissions@[i].role_id@ == rid
                    && a.role_permissions@[i].permission_id@ == pid;
            assert(b.role_permissions@[i].role_id@ == rid);
        }
        if b.has_grant(rid, pid) {
            let i = choose|i: int|
                0 <= i < b.role_permissions@.len() && b.role_permissions@[i].role_id@ == rid
                    && b.role_permissions@[i].permission_id@ == pid;
            assert(a.role_permissions@[i].role_id@ == rid);
        }
    }
    assert(a@.grants =~= b@.grants);
}

/// Replacing the record at the position already carrying this role id
/// rewrites that one key of the role catalog.
proof fn lemma_roles_update(a: Snapshot, b: Snapshot, i: int, role: Role)
    requires
        a.roles_unique(),
        a.roles_valid(),
        0 <= i < a.roles@.len(),
        a.roles@[i].id@ == role.id@,
        role.id@.len() > 0,
        b.roles@ == a.roles@.update(i, role),
    ensures
        b.roles_unique(),
        b.roles_valid(),
        b@.roles == a@.roles.insert(
            role.id@,
            (RoleV { name: role.name@, description: role.description.deep_view() }),
        ),
{
    assert forall|p: int, q: int| 0 <= p < q < b.roles@.len() implies b.roles@[p].id@
        != b.roles@[q].id@ by {
        if p != i && q != i {
            assert(a.roles@[p].id@ != a.roles@[q].id@);
        } else if p == i {
            assert(a.roles@[i].id@ != a.roles@[q].id@);
        } else {
            assert(a.roles@[p].id@ != a.roles@[i].id@);
        }
    }
    assert forall|id: Seq<char>| b.has_role_id(id) == (a.has_role_id(id) || id == role.id@) by {
        if b.has_role_id(id) {
            let j = b.role_index(id);
            if j != i {
                assert(a.roles@[j].id@ == id);
            }
        }
        if a.has_role_id(id) {
            let j = a.role_index(id);
            if j != i {
                lemma_role_at(b, j, id);
            }
        }
        if id == role.id@ {
            lemma_role_at(b, i, id);
        }
    }
    assert forall|id: Seq<char>| a.has_role_id(id) && id != role.id@ implies b.role_v(id)
        == a.role_v(id) by {
        let j = a.role_index(id);
        assert(j != i);
        lemma_role_at(b, j, id);
    }
    lemma_role_at(b, i, role.id@);
    assert(b@.roles =~= a@.roles.insert(
        role.id@,
        (RoleV { name: role.name@, description: role.description.deep_view() }),
    ));
}

/// Appending a record under a fresh role id adds that one key to the role
/// catalog.
proof fn lemma_roles_push(a: Snapshot, b: Snapshot, role: Role)
    requires
        a.roles_unique(),
        a.roles_valid(),
        !a.has_role_id(role.id@),
        role.id@.len() > 0,
        b.roles@ == a.roles@.push(role),
    ensures
        b.roles_unique(),
        b.roles_valid(),
        b@.roles == a@.roles.insert(
            role.id@,
            (RoleV { name: role.name@, description: role.description.deep_view() }),
        ),
{
    let n = a.roles@.len() as int;
    assert forall|p: int, q: int| 0 <= p < q < b.roles@.len() implies b.roles@[p].id@
        != b.roles@[q].id@ by {
        if q < n {
            assert(a.roles@[p].id@ != a.roles@[q].id@);
        } else {
            assert(b.roles@[q] == role);
            if a.roles@[p].id@ == role.id@ {
                assert(a.has_role_id(role.id@));
            }
        }
    }
    assert forall|id: Seq<char>| b.has_role_id(id) == (a.has_role_id(id) || id == role.id@) by {
        if b.has_role_id(id) {
            let j = b.role_index(id);
            if j < n {
                assert(a.roles@[j].id@ == id);
            }
        }
        if a.has_role_id(id) {
            let j = a.role_index(id);
            lemma_role_at(b, j, id);
        }
        if id == role.id@ {
            lemma_role_at(b, n, id);
        }
    }
    assert forall|id: Seq<char>| a.has_role_id(id) && id != role.id@ implies b.role_v(id)
        == a.role_v(id) by {
        let j = a.role_index(id);
        lemma_role_at(b, j, id);
    }
    lemma_role_at(b, n, role.id@);
    assert(b@.roles =~= a@.roles.insert(
        role.id@,
        (RoleV { name: role.name@, description: role.description.deep_view() }),
    ));
}

/// Removing the record at a position deletes exactly its role id from the
/// role catalog.
proof fn lemma_roles_remove(a: Snapshot, b: Snapshot, i: int)
    requires
        a.roles_unique(),
        a.roles_valid(),
        0 <= i < a.roles@.len(),
        b.roles@ == a.roles@.remove(i),
    ensures
        b.roles_unique(),
        b.roles_valid(),
        b@.roles == a@.roles.remove(a.roles@[i].id@),
{
    let rid = a.roles@[i].id@;
    assert forall|p: int, q: int| 0 <= p < q < b.roles@.len() implies b.roles@[p].id@
        != b.roles@[q].id@ by {
        let p0: int = if p < i {
            p
        } else {
            p + 1
        };
        let q0: int = if q < i {
            q
        } else {
            q + 1
        };
        assert(b.roles@[p] == a.roles@[p0]);
        assert(b.roles@[q] == a.roles@[q0]);
        assert(a.roles@[p0].id@ != a.roles@[q0].id@);
    }
    assert forall|j: int| 0 <= j < b.roles@.len() implies b.roles@[j].id@.len() > 0 by {
        let j0: int = if j < i {
            j
        } else {
            j + 1
        };
        assert(b.roles@[j] == a.roles@[j0]);
    }
    assert forall|id: Seq<char>| b.has_role_id(id) == (a.has_role_id(id) && id != rid) by {
        if b.has_role_id(id) {
            let j = b.role_index(id);
            let j0: int = if j < i {
                j
            } else {
                j + 1
            };
            assert(b.roles@[j] == a.roles@[j0]);
            lemma_role_at(a, j0, id);
            if id == rid {
                lemma_role_at(a, i, id);
                assert(j0 == i);
                assert(false);
            }
        }
        if a.has_role_id(id) && id != rid {
            let j = a.role_index(id);
            assert(j != i);
            if j < i {
                assert(b.roles@[j] == a.roles@[j]);
                lemma_role_at(b, j, id);
            } else {
                assert(b.roles@[j - 1] == a.roles@[j]);
                lemma_role_at(b, j - 1, id);
            }
        }
    }
    assert forall|id: Seq<char>| b.has_role_id(id) implies b.role_v(id) == a.role_v(id) by {
        let j = b.role_index(id);
        let j0: int = if j < i {
            j
        } else {
            j + 1
        };
        assert(b.roles@[j] == a.roles@[j0]);
        lemma_role_at(a, j0, id);
    }
    assert(b@.roles =~= a@.roles.remove(rid));
}

/// Replacing the record at the position already carrying this permission
/// id rewrites that one key of the permission catalog.
proof fn lemma_perms_update(a: Snapshot, b: Snapshot, i: int, perm: Permission)
    requires
        a.permissions_unique(),
        a.permissions_valid(),
        0 <= i < a.permissions@.len(),
        a.permissions@[i].id@ == perm.id@,
        perm.id@.len() > 0,
        perm.resource@.len() > 0,
        perm.action != 0,
        b.permissions@ == a.permissions@.update(i, perm),
    ensures
        b.permissions_unique(),
        b.permissions_valid(),
        b@.permissions == a@.permissions.insert(
            perm.id@,
            (PermV { resource: perm.resource@, action: perm.action }),
        ),
{
    assert forall|p: int, q: int| 0 <= p < q < b.permissions@.len() implies b.permissions@[p].id@
        != b.permissions@[q].id@ by {
        if p != i && q != i {
            assert(a.permissions@[p].id@ != a.permissions@[q].id@);
        } else if p == i {
            assert(a.permissions@[i].id@ != a.permissions@[q].id@);
        } else {
            assert(a.permissions@[p].id@ != a.permissions@[i].id@);
        }
    }
    assert forall|id: Seq<char>| b.has_perm_id(id) == (a.has_perm_id(id) || id == perm.id@) by {
        if b.has_perm_id(id) {
            let j = b.perm_index(id);
            if j != i {
                assert(a.permissions@[j].id@ == id);
            }
        }
        if a.has_perm_id(id) {
            let j = a.perm_index(id);
            if j != i {
                lemma_perm_at(b, j, id);
            }
        }
        if id == perm.id@ {
            lemma_perm_at(b, i, id);
        }
    }
    assert forall|id: Seq<char>| a.has_perm_id(id) && id != perm.id@ implies b.perm_v(id)
        == a.perm_v(id) by {
        let j = a.perm_index(id);
        assert(j != i);
        lemma_perm_at(b, j, id);
    }
    lemma_perm_at(b, i, perm.id@);
    assert(b@.permissions =~= a@.permissions.insert(
        perm.id@,
        (PermV { resource: perm.resource@, action: perm.action }),
    ));
}

/// Appending a record under a fresh permission id adds that one key to
/// the permission catalog.
proof fn lemma_perms_push(a: Snapshot, b: Snapshot, perm: Permission)
    requires
        a.permissions_unique(),
        a.permissions_valid(),
        !a.has_perm_id(perm.id@),
        perm.id@.len() > 0,
        perm.resource@.len() > 0,
        perm.action != 0,
        b.permissions@ == a.permissions@.push(perm),
    ensures
        b.permissions_unique(),
        b.permissions_valid(),
        b@.permissions == a@.permissions.insert(
            perm.id@,
            (PermV { resource: perm.resource@, action: perm.action }),
        ),
{
    let n = a.permissions@.len() as int;
    assert forall|p: int, q: int| 0 <= p < q < b.permissions@.len() implies b.permissions@[p].id@
        != b.permissions@[q].id@ by {
        if q < n {
            assert(a.permissions@[p].id@ != a.permissions@[q].id@);
        } else {
            assert(b.permissions@[q] == perm);
            if a.permissions@[p].id@ == perm.id@ {
                assert(a.has_perm_id(perm.id@));
            }
        }
    }
    assert forall|id: Seq<char>| b.has_perm_id(id) == (a.has_perm_id(id) || id == perm.id@) by {
        if b.has_perm_id(id) {
            let j = b.perm_index(id);
            if j < n {
                assert(a.permissions@[j].id@ == id);
            }
        }
        if a.has_perm_id(id) {
            let j = a.perm_index(id);
            lemma_perm_at(b, j, id);
        }
        if id == perm.id@ {
            lemma_perm_at(b, n, id);
        }
    }
    assert forall|id: Seq<char>| a.has_perm_id(id) && id != perm.id@ implies b.perm_v(id)
        == a.perm_v(id) by {
        let j = a.perm_index(id);
        lemma_perm_at(b, j, id);
    }
    lemma_perm_at(b, n, perm.id@);
    assert(b@.permissions =~= a@.permissions.insert(
        perm.id@,
        (PermV { resource: perm.resource@, action: perm.action }),
    ));
}

/// Removing the record at a position deletes exactly its permission id
/// from the permission catalog.
proof fn lemma_perms_remove(a: Snapshot, b: Snapshot, i: int)
    requires
        a.permissions_unique(),
        a.permissions_valid(),
        0 <= i < a.permissions@.len(),
        b.permissions@ == a.permissions@.remove(i),
    ensures
        b.permissions_unique(),
        b.permissions_valid(),
        b@.permissions == a@.permissions.remove(a.permissions@[i].id@),
{
    let rid = a.permissions@[i].id@;
    assert forall|p: int, q: int| 0 <= p < q < b.permissions@.len() implies b.permissions@[p].id@
        != b.permissions@[q].id@ by {
        let p0: int = if p < i {
            p
        } else {
            p + 1
        };
        let q0: int = if q < i {
            q
        } else {
            q + 1
        };
        assert(b.permissions@[p] == a.permissions@[p0]);
        assert(b.permissions@[q] == a.permissions@[q0]);
        assert(a.permissions@[p0].id@ != a.permissions@[q0].id@);
    }
    assert forall|j: int| 0 <= j < b.permissions@.len() implies b.permissions@[j].id@.len() > 0
        && b.permissions@[j].resource@.len() > 0 && b.permissions@[j].action != 0 by {
        let j0: int = if j < i {
            j
        } else {
            j + 1
        };
        assert(b.permissions@[j] == a.permissions@[j0]);
    }
    assert forall|id: Seq<char>| b.has_perm_id(id) == (a.has_perm_id(id) && id != rid) by {
        if b.has_perm_id(id) {
            let j = b.perm_index(id);
            let j0: int = if j < i {
                j
            } else {
                j + 1
            };
            assert(b.permissions@[j] == a.permissions@[j0]);
            lemma_perm_at(a, j0, id);
            if id == rid {
                lemma_perm_at(a, i, id);
                assert(j0 == i);
                assert(false);
            }
        }
        if a.has_perm_id(id) && id != rid {
            let j = a.perm_index(id);
            assert(j != i);
            if j < i {
                assert(b.permissions@[j] == a.permissions@[j]);
                lemma_perm_at(b, j, id);
            } else {
                assert(b.permissions@[j - 1] == a.permissions@[j]);
                lemma_perm_at(b, j - 1, id);
            }
        }
    }
    assert forall|id: Seq<char>| b.has_perm_id(id) implies b.perm_v(id) == a.perm_v(id) by {
        let j = b.perm_index(id);
        let j0: int = if j < i {
            j
        } else {
            j + 1
        };
        assert(b.permissions@[j] == a.permissions@[j0]);
        lemma_perm_at(a, j0, id);
    }
    assert(b@.permissions =~= a@.permissions.remove(rid));
}

/// Appending an assignment for a fresh (subject, role) pair adds that one
/// key to the assignment map.
proof fn lemma_assignments_push(a: Snapshot, b: Snapshot, ur: UserRole)
    requires
        a.assignments_unique(),
        a.assignments_valid(),
        !a.has_assignment(ur.user_id as int, ur.role_id@),
        ur.role_id@.len() > 0,
        b.user_roles@ == a.user_roles@.push(ur),
    ensures
        b.assignments_unique(),
        b.assignments_valid(),
        b@.assignments == a@.assignments.insert((ur.user_id as int, ur.role_id@), ur.status),
{
    let n = a.user_roles@.len() as int;
    assert forall|p: int, q: int| 0 <= p < q < b.user_roles@.len() implies !((
    b.user_roles@[p]).user_id == (b.user_roles@[q]).user_id && b.user_roles@[p].role_id@
        == b.user_roles@[q].role_id@) by {
        if q < n {
            assert(!(a.user_roles@[p].user_id == a.user_roles@[q].user_id
                && a.user_roles@[p].role_id@ == a.user_roles@[q].role_id@));
        } else {
            assert(b.user_roles@[q] == ur);
            if a.user_roles@[p].user_id == ur.user_id && a.user_roles@[p].role_id@ == ur.role_id@ {
                assert(a.has_assignment(ur.user_id as int, ur.role_id@));
            }
        }
    }
    assert forall|uid: int, rid: Seq<char>|
        b.has_assignment(uid, rid) == (a.has_assignment(uid, rid) || (uid == ur.user_id as int
            && rid == ur.role_id@)) by {
        if b.has_assignment(uid, rid) {
            let j = b.assignment_index(uid, rid);
            if j < n {
                assert(a.user_roles@[j].user_id == uid && a.user_roles@[j].role_id@ == rid);
            }
        }
        if a.has_assignment(uid, rid) {
            let j = a.assignment_index(uid, rid);
            lemma_assignment_at(b, j, uid, rid);
        }
        if uid == ur.user_id as int && rid == ur.role_id@ {
            lemma_assignment_at(b, n, uid, rid);
        }
    }
    assert forall|uid: int, rid: Seq<char>|
        a.has_assignment(uid, rid) && !(uid == ur.user_id as int && rid == ur.role_id@) implies b.assignment_status(
            uid,
            rid,
        ) == a.assignment_status(uid, rid) by {
        let j = a.assignment_index(uid, rid);
        lemma_assignment_at(b, j, uid, rid);
    }
    lemma_assignment_at(b, n, ur.user_id as int, ur.role_id@);
    assert(b@.assignments =~= a@.assignments.insert((ur.user_id as int, ur.role_id@), ur.status));
}

/// Replacing the record at the position already carrying this (subject,
/// role) pair rewrites that one key of the assignment map.
proof fn lemma_assignments_update(a: Snapshot, b: Snapshot, i: int, ur: UserRole)
    requires
        a.assignments_unique(),
        a.assignments_valid(),
        0 <= i < a.user_roles@.len(),
        a.user_roles@[i].user_id == ur.user_id,
        a.user_roles@[i].role_id@ == ur.role_id@,
        b.user_roles@ == a.user_roles@.update(i, ur),
    ensures
        b.assignments_unique(),
        b.assignments_valid(),
        b@.assignments == a@.assignments.insert((ur.user_id as int, ur.role_id@), ur.status),
{
    assert forall|p: int, q: int| 0 <= p < q < b.user_roles@.len() implies !((
    b.user_roles@[p]).user_id == (b.user_roles@[q]).user_id && b.user_roles@[p].role_id@
        == b.user_roles@[q].role_id@) by {
        let p0: int = if p == i {
            i
        } else {
            p
        };
        assert(b.user_roles@[p].user_id == a.user_roles@[p].user_id || p == i);
        if p != i && q != i {
            assert(!(a.user_roles@[p].user_id == a.user_roles@[q].user_id
                && a.user_roles@[p].role_id@ == a.user_roles@[q].role_id@));
        } else if p == i {
            assert(!(a.user_roles@[i].user_id == a.user_roles@[q].user_id
                && a.user_roles@[i].role_id@ == a.user_roles@[q].role_id@));
        } else {
            assert(!(a.user_roles@[p].user_id == a.user_roles@[i].user_id
                && a.user_roles@[p].role_id@ == a.user_roles@[i].role_id@));
        }
    }
    assert forall|uid: int, rid: Seq<char>|
        b.has_assignment(uid, rid) == (a.has_assignment(uid, rid) || (uid == ur.user_id as int
            && rid == ur.role_id@)) by {
        if b.has_assignment(uid, rid) {
            let j = b.assignment_index(uid, rid);
            if j != i {
                assert(a.user_roles@[j].user_id == uid && a.user_roles@[j].role_id@ == rid);
            }
        }
        if a.has_assignment(uid, rid) {
            let j = a.assignment_index(uid, rid);
            if j != i {
                lemma_assignment_at(b, j, uid, rid);
            }
        }
        if uid == ur.user_id as int && rid == ur.role_id@ {
            lemma_assignment_at(b, i, uid, rid);
        }
    }
    assert forall|uid: int, rid: Seq<char>|
        a.has_assignment(uid, rid) && !(uid == ur.user_id as int && rid == ur.role_id@) implies b.assignment_status(
            uid,
            rid,
        ) == a.assignment_status(uid, rid) by {
        let j = a.assignment_index(uid, rid);
        assert(j != i);
        lemma_assignment_at(b, j, uid, rid);
    }
    lemma_assignment_at(b, i, ur.user_id as int, ur.role_id@);
    assert(b@.assignments =~= a@.assignments.insert((ur.user_id as int, ur.role_id@), ur.status));
}

/// Removing the record at a position deletes exactly its (subject, role)
/// pair from the assignment map.
proof fn lemma_assignments_remove(a: Snapshot, b: Snapshot, i: int)
    requires
        a.assignments_unique(),
        a.assignments_valid(),
        0 <= i < a.user_roles@.len(),
        b.user_roles@ == a.user_roles@.remove(i),
    ensures
        b.assignments_unique(),
        b.assignments_valid(),
        b@.assignments == a@.assignments.remove(
            (a.user_roles@[i].user_id as int, a.user_roles@[i].role_id@),
        ),
{
    let kuid = a.user_roles@[i].user_id as int;
    let krid = a.user_roles@[i].role_id@;
    assert forall|p: int, q: int| 0 <= p < q < b.user_roles@.len() implies !((
    b.user_roles@[p]).user_id == (b.user_roles@[q]).user_id && b.user_roles@[p].role_id@
        == b.user_roles@[q].role_id@) by {
        let p0: int = if p < i {
            p
        } else {
            p + 1
        };
        let q0: int = if q < i {
            q
        } else {
            q + 1
        };
        assert(b.user_roles@[p] == a.user_roles@[p0]);
        assert(b.user_roles@[q] == a.user_roles@[q0]);
        assert(!(a.user_roles@[p0].user_id == a.user_roles@[q0].user_id
            && a.user_roles@[p0].role_id@ == a.user_roles@[q0].role_id@));
    }
    assert forall|j: int| 0 <= j < b.user_roles@.len() implies b.user_roles@[j].role_id@.len()
        > 0 by {
        let j0: int = if j < i {
            j
        } else {
            j + 1
        };
        assert(b.user_roles@[j] == a.user_roles@[j0]);
    }
    assert forall|uid: int, rid: Seq<char>|
        b.has_assignment(uid, rid) == (a.has_assignment(uid, rid) && !(uid == kuid && rid
            == krid)) by {
        if b.has_assignment(uid, rid) {
            let j = b.assignment_index(uid, rid);
            let j0: int = if j < i {
                j
            } else {
                j + 1
            };
            assert(b.user_roles@[j] == a.user_roles@[j0]);
            lemma_assignment_at(a, j0, uid, rid);
            if uid == kuid && rid == krid {
                lemma_assignment_at(a, i, uid, rid);
                assert(j0 == i);
                assert(false);
            }
        }
        if a.has_assignment(uid, rid) && !(uid == kuid && rid == krid) {
            let j = a.assignment_index(uid, rid);
            assert(j != i);
            if j < i {
                assert(b.user_roles@[j] == a.user_roles@[j]);
                lemma_assignment_at(b, j, uid, rid);
            } else {
                assert(b.user_roles@[j - 1] == a.user_roles@[j]);
                lemma_assignment_at(b, j - 1, uid, rid);
            }
        }
    }
    assert forall|uid: int, rid: Seq<char>| b.has_assignment(uid, rid) implies b.assignment_status(
        uid,
        rid,
    ) == a.assignment_status(uid, rid) by {
        let j = b.assignment_index(uid, rid);
        let j0: int = if j < i {
            j
        } else {
            j + 1
        };
        assert(b.user_roles@[j] == a.user_roles@[j0]);
        lemma_assignment_at(a, j0, uid, rid);
    }
    assert(b@.assignments =~= a@.assignments.remove((kuid, krid)));
}

/// Appending a fresh grant pair adds that one pair to the grant set.
proof fn lemma_grants_push(a: Snapshot, b: Snapshot, g: RolePermission)
    requires
        a.grants_unique(),
        !a.has_grant(g.role_id@, g.permission_id@),
        b.role_permissions@ == a.role_permissions@.push(g),
    ensures
        b.grants_unique(),
        b@.grants == a@.grants.insert((g.role_id@, g.permission_id@)),
{
    let n = a.role_permissions@.len() as int;
    assert forall|p: int, q: int| 0 <= p < q < b.role_permissions@.len() implies !((
    b.role_permissions@[p]).role_id@ == (b.role_permissions@[q]).role_id@
        && b.role_permissions@[p].permission_id@ == b.role_permissions@[q].permission_id@) by {
        if q < n {
            assert(!(a.role_permissions@[p].role_id@ == a.role_permissions@[q].role_id@
                && a.role_permissions@[p].permission_id@
                == a.role_permissions@[q].permission_id@));
        } else {
            assert(b.role_permissions@[q] == g);
            if a.role_permissions@[p].role_id@ == g.role_id@
                && a.role_permissions@[p].permission_id@ == g.permission_id@ {
                assert(a.has_grant(g.role_id@, g.permission_id@));
            }
        }
    }
    assert forall|rid: Seq<char>, pid: Seq<char>|
        b.has_grant(rid, pid) == (a.has_grant(rid, pid) || (rid == g.role_id@ && pid
            == g.permission_id@)) by {
        if b.has_grant(rid, pid) {
            let j = choose|j: int|
                0 <= j < b.role_permissions@.len() && b.role_permissions@[j].role_id@ == rid
                    && b.role_permissions@[j].permission_id@ == pid;
            if j < n {
                assert(a.role_permissions@[j].role_id@ == rid);
            }
        }
        if a.has_grant(rid, pid) {
            let j = choose|j: int|
                0 <= j < a.role_permissions@.len() && a.role_permissions@[j].role_id@ == rid
                    && a.role_permissions@[j].permission_id@ == pid;
            assert(b.role_permissions@[j].role_id@ == rid);
        }
        if rid == g.role_id@ && pid == g.permission_id@ {
            assert(b.role_permissions@[n].role_id@ == rid);
        }
    }
    assert(b@.grants =~= a@.grants.insert((g.role_id@, g.permission_id@)));
}

/// Removing the record at a position deletes exactly its pair from the
/// grant set.
proof fn lemma_grants_remove(a: Snapshot, b: Snapshot, i: int)
    requires
        a.grants_unique(),
        0 <= i < a.role_permissions@.len(),
        b.role_permissions@ == a.role_permissions@.remove(i),
    ensures
        b.grants_unique(),
        b@.grants == a@.grants.remove(
            (a.role_permissions@[i].role_id@, a.role_permissions@[i].permission_id@),
        ),
{
    let krid = a.role_permissions@[i].role_id@;
    let kpid = a.role_permissions@[i].permission_id@;
    assert forall|p: int, q: int| 0 <= p < q < b.role_permissions@.len() implies !((
    b.role_permissions@[p]).role_id@ == (b.role_permissions@[q]).role_id@
        && b.role_permissions@[p].permission_id@ == b.role_permissions@[q].permission_id@) by {
        let p0: int = if p < i {
            p
        } else {
            p + 1
        };
        let q0: int = if q < i {
            q
        } else {
            q + 1
        };
        assert(b.role_permissions@[p] == a.role_permissions@[p0]);
        assert(b.role_permissions@[q] == a.role_permissions@[q0]);
        assert(!(a.role_permissions@[p0].role_id@ == a.role_permissions@[q0].role_id@
            && a.role_permissions@[p0].permission_id@ == a.role_permissions@[q0].permission_id@));
    }
    assert forall|rid: Seq<char>, pid: Seq<char>|
        b.has_grant(rid, pid) == (a.has_grant(rid, pid) && !(rid == krid && pid == kpid)) by {
        if b.has_grant(rid, pid) {
            let j = choose|j: int|
                0 <= j < b.role_permissions@.len() && b.role_permissions@[j].role_id@ == rid
                    && b.role_permissions@[j].permission_id@ == pid;
            let j0: int = if j < i {
                j
            } else {
                j + 1
            };
            assert(b.role_permissions@[j] == a.role_permissions@[j0]);
            assert(a.role_permissions@[j0].role_id@ == rid);
            if rid == krid && pid == kpid {
                assert(!(a.role_permissions@[if j0 < i {
                    j0
                } else {
                    i
                }].role_id@ == a.role_permissions@[if j0 < i {
                    i
                } else {
                    j0
                }].role_id@ && a.role_permissions@[if j0 < i {
                    j0
                } else {
                    i
                }].permission_id@ == a.role_permissions@[if j0 < i {
                    i
                } else {
                    j0
                }].permission_id@));
                assert(false);
            }
        }
        if a.has_grant(rid, pid) && !(rid == krid && pid == kpid) {
            let j = choose|j: int|
                0 <= j < a.role_permissions@.len() && a.role_permissions@[j].role_id@ == rid
                    && a.role_permissions@[j].permission_id@ == pid;
            assert(j != i);
            if j < i {
                assert(b.role_permissions@[j] == a.role_permissions@[j]);
                assert(b.role_permissions@[j].role_id@ == rid);
            } else {
                assert(b.role_permissions@[j - 1] == a.role_permissions@[j]);
                assert(b.role_permissions@[j - 1].role_id@ == rid);
            }
        }
    }
    assert(b@.grants =~= a@.grants.remove((krid, kpid)));
}

/// The aggregate owning both catalogs and the assignment graph. It is the
/// sole mutation surface: administrative calls change it one at a time,
/// and every reader takes a whole snapshot, so a reader sees each
/// mutation either fully applied or not at all, never a mix.
pub struct PermissionStore {
    pub current: Snapshot,
}

impl View for PermissionStore {
    type V = StoreView;

    open spec fn view(&self) -> StoreView {
        self.current@
    }
}

impl PermissionStore {
    /// The store's internal invariant.
    pub open spec fn wf(self) -> bool {
        self.current.wf()
    }

    /// A fresh store with empty catalogs and no assignments or grants.
    pub fn new() -> (s: Self)
        ensures
            s.wf(),
            s@.roles == Map::<Seq<char>, RoleV>::empty(),
            s@.permissions == Map::<Seq<char>, PermV>::empty(),
            s@.assignments == Map::<(int, Seq<char>), UserRoleStatus>::empty(),
            s@.grants == Set::<(Seq<char>, Seq<char>)>::empty(),
    {
        let s = PermissionStore {
            current: Snapshot {
                roles: Vec::new(),
                permissions: Vec::new(),
                user_roles: Vec::new(),
                role_permissions: Vec::new(),
            },
        };
        proof {
            assert(s@.roles =~= Map::<Seq<char>, RoleV>::empty());
            assert(s@.permissions =~= Map::<Seq<char>, PermV>::empty());
            assert(s@.assignments =~= Map::<(int, Seq<char>), UserRoleStatus>::empty());
            assert(s@.grants =~= Set::<(Seq<char>, Seq<char>)>::empty());
        }
        s
    }

    /// Publishes the current state as one immutable composite. The caller
    /// reads all four collections as they stood at this one instant.
    pub fn snapshot(&self) -> (s: Snapshot)
        requires
            self.wf(),
        ensures
            s.wf(),
            s@ == self@,
    {
        let s = Snapshot {
            roles: clone_roles(&self.current.roles),
            permissions: clone_permissions(&self.current.permissions),
            user_roles: clone_user_roles(&self.current.user_roles),
            role_permissions: clone_role_permissions(&self.current.role_permissions),
        };
        proof {
            lemma_roles_agree(s, self.current);
            lemma_perms_agree(s, self.current);
            lemma_assignments_agree(s, self.current);
            lemma_grants_agree(s, self.current);
            assert(s@ == self@);
        }
        s
    }

    /// Inserts a role record, or replaces the record already stored under
    /// its id. Rejects an empty id.
    pub fn put_role(&mut self, role: Role) -> (r: Result<(), AuthError>)
        requires
            old(self).wf(),
        ensures
            final(self).wf(),
            r is Ok <==> role.id@.len() > 0,
            r is Ok ==> final(self)@.roles == old(self)@.roles.insert(
                role.id@,
                (RoleV { name: role.name@, description: role.description.deep_view() }),
            ) && final(self)@.permissions == old(self)@.permissions && final(self)@.assignments
                == old(self)@.assignments && final(self)@.grants == old(self)@.grants,
            r is Err ==> *final(self) == *old(self) && r == Err::<(), AuthError>(
                AuthError::InvalidArgument,
            ),
    {
        if role.id.as_str().is_empty() {
            return Err(AuthError::InvalidArgument);
        }
        let ghost pre = self.current;
        let ghost grole = role;
        match find_role(&self.current.roles, &role.id) {
            Some(i) => {
                self.current.roles.set(i, role);
                proof {
                    lemma_roles_update(pre, self.current, i as int, grole);
                }
            },
            None => {
                self.current.roles.push(role);
                proof {
                    lemma_roles_push(pre, self.current, grole);
                }
            },
        }
        proof {
            lemma_perms_agree(pre, self.current);
            lemma_assignments_agree(pre, self.current);
            lemma_grants_agree(pre, self.current);
        }
        Ok(())
    }

    /// Removes the role stored under this id; the assignment graph is not
    /// cascaded, so grants naming the id may dangle afterwards.
    pub fn remove_role(&mut self, id: &String) -> (r: Result<(), AuthError>)
        requires
            old(self).wf(),
        ensures
            final(self).wf(),
            r is Ok <==> old(self)@.roles.contains_key(id@),
            r is Ok ==> final(self)@.roles == old(self)@.roles.remove(id@)
                && final(self)@.permissions == old(self)@.permissions
                && final(self)@.assignments == old(self)@.assignments
                && final(self)@.grants == old(self)@.grants,
            r is Err ==> *final(self) == *old(self) && r == Err::<(), AuthError>(
                AuthError::NotFound,
            ),
    {
        let ghost pre = self.current;
        match find_role(&self.current.roles, id) {
            Some(i) => {
                self.current.roles.remove(i);
                proof {
                    lemma_role_at(pre, i as int, id@);
                    lemma_roles_remove(pre, self.current, i as int);
                    lemma_perms_agree(pre, self.current);
                    lemma_assignments_agree(pre, self.current);
                    lemma_grants_agree(pre, self.current);
                }
                Ok(())
            },
            None => {
                proof {
                    if pre.has_role_id(id@) {
                        let j = pre.role_index(id@);
                        assert(pre.roles@[j].id@ == id@);
                    }
                }
                Err(AuthError::NotFound)
            },
        }
    }

    /// Inserts a permission record, or replaces the record already stored
    /// under its id. Rejects an empty id, an empty resource, and a mask
    /// granting nothing.
    pub fn put_permission(&mut self, perm: Permission) -> (r: Result<(), AuthError>)
        requires
            old(self).wf(),
        ensures
            final(self).wf(),
            r is Ok <==> (perm.id@.len() > 0 && perm.resource@.len() > 0 && perm.action != 0),
            r is Ok ==> final(self)@.permissions == old(self)@.permissions.insert(
                perm.id@,
                (PermV { resource: perm.resource@, action: perm.action }),
            ) && final(self)@.roles == old(self)@.roles
                && final(self)@.assignments == old(self)@.assignments
                && final(self)@.grants == old(self)@.grants,
            r is Err ==> *final(self) == *old(self) && r == Err::<(), AuthError>(
                AuthError::InvalidArgument,
            ),
    {
        if perm.id.as_str().is_empty() || perm.resource.as_str().is_empty() || perm.action == 0 {
            return Err(AuthError::InvalidArgument);
        }
        let ghost pre = self.current;
        let ghost gperm = perm;
        match find_permission(&self.current.permissions, &perm.id) {
            Some(i) => {
                self.current.permissions.set(i, perm);
                proof {
                    lemma_perms_update(pre, self.current, i as int, gperm);
                }
            },
            None => {
                self.current.permissions.push(perm);
                proof {
                    lemma_perms_push(pre, self.current, gperm);
                }
            },
        }
        proof {
            lemma_roles_agree(pre, self.current);
            lemma_assignments_agree(pre, self.current);
            lemma_grants_agree(pre, self.current);
        }
        Ok(())
    }

    /// Removes the permission stored under this id; grants naming the id
    /// are left in place and dangle, which evaluation tolerates.
    pub fn remove_permission(&mut self, id: &String) -> (r: Result<(), AuthError>)
        requires
            old(self).wf(),
        ensures
            final(self).wf(),
            r is Ok <==> old(self)@.permissions.contains_key(id@),
            r is Ok ==> final(self)@.permissions == old(self)@.permissions.remove(id@)
                && final(self)@.roles == old(self)@.roles
                && final(self)@.assignments == old(self)@.assignments
                && final(self)@.grants == old(self)@.grants,
            r is Err ==> *final(self) == *old(self) && r == Err::<(), AuthError>(
                AuthError::NotFound,
            ),
    {
        let ghost pre = self.current;
        match find_permission(&self.current.permissions, id) {
            Some(i) => {
                self.current.permissions.remove(i);
                proof {
                    lemma_perm_at(pre, i as int, id@);
                    lemma_perms_remove(pre, self.current, i as int);
                    lemma_roles_agree(pre, self.current);
                    lemma_assignments_agree(pre, self.current);
                    lemma_grants_agree(pre, self.current);
                }
                Ok(())
            },
            None => {
                proof {
                    if pre.has_perm_id(id@) {
                        let j = pre.perm_index(id@);
                        assert(pre.permissions@[j].id@ == id@);
                    }
                }
                Err(AuthError::NotFound)
            },
        }
    }

    /// Records a subject's membership in a role with the given initial
    /// status. A pair that is already present is a conflict; the subject
    /// itself is not checked, since identity is provisioned elsewhere.
    pub fn assign_role(&mut self, user_id: i64, role_id: String, status: UserRoleStatus) -> (r:
        Result<(), AuthError>)
        requires
            old(self).wf(),
        ensures
            final(self).wf(),
            r is Ok <==> (role_id@.len() > 0 && !old(self)@.assignments.contains_key(
                (user_id as int, role_id@),
            )),
            r is Ok ==> final(self)@.assignments == old(self)@.assignments.insert(
                (user_id as int, role_id@),
                status,
            ) && final(self)@.roles == old(self)@.roles
                && final(self)@.permissions == old(self)@.permissions
                && final(self)@.grants == old(self)@.grants,
            r is Err ==> *final(self) == *old(self),
            r == Err::<(), AuthError>(AuthError::InvalidArgument) <==> role_id@.len() == 0,
            r == Err::<(), AuthError>(AuthError::Conflict) <==> (role_id@.len() > 0 && old(
                self,
            )@.assignments.contains_key((user_id as int, role_id@))),
    {
        if role_id.as_str().is_empty() {
            return Err(AuthError::InvalidArgument);
        }
        let ghost pre = self.current;
        match find_assignment(&self.current.user_roles, user_id, &role_id) {
            Some(_) => {
                proof {
                    lemma_assignment_at(
                        pre,
                        pre.assignment_index(user_id as int, role_id@),
                        user_id as int,
                        role_id@,
                    );
                }
                Err(AuthError::Conflict)
            },
            None => {
                let ur = UserRole { user_id, role_id, status };
                let ghost gur = ur;
                proof {
                    if pre.has_assignment(user_id as int, gur.role_id@) {
                        let j = pre.assignment_index(user_id as int, gur.role_id@);
                        assert(pre.user_roles@[j].user_id == user_id);
                    }
                }
                self.current.user_roles.push(ur);
                proof {
                    lemma_assignments_push(pre, self.current, gur);
                    lemma_roles_agree(pre, self.current);
                    lemma_perms_agree(pre, self.current);
                    lemma_grants_agree(pre, self.current);
                }
                Ok(())
            },
        }
    }

    /// Overwrites the stored status of an existing assignment. No
    /// transition is forbidden here: which transitions are legal is the
    /// administrative caller's policy.
    pub fn set_assignment_status(
        &mut self,
        user_id: i64,
        role_id: &String,
        new_status: UserRoleStatus,
    ) -> (r: Result<(), AuthError>)
        requires
            old(self).wf(),
        ensures
            final(self).wf(),
            r is Ok <==> old(self)@.assignments.contains_key((user_id as int, role_id@)),
            r is Ok ==> final(self)@.assignments == old(self)@.assignments.insert(
                (user_id as int, role_id@),
                new_status,
            ) && final(self)@.roles == old(self)@.roles
                && final(self)@.permissions == old(self)@.permissions
                && final(self)@.grants == old(self)@.grants,
            r is Err ==> *final(self) == *old(self) && r == Err::<(), AuthError>(
                AuthError::NotFound,
            ),
    {
        let ghost pre = self.current;
        match find_assignment(&self.current.user_roles, user_id, role_id) {
            Some(i) => {
                let ur = UserRole { user_id, role_id: role_id.clone(), status: new_status };
                let ghost gur = ur;
                proof {
                    lemma_assignment_at(pre, i as int, user_id as int, role_id@);
                }
                self.current.user_roles.set(i, ur);
                proof {
                    lemma_assignments_update(pre, self.current, i as int, gur);
                    lemma_roles_agree(pre, self.current);
                    lemma_perms_agree(pre, self.current);
                    lemma_grants_agree(pre, self.current);
                }
                Ok(())
            },
            None => {
                proof {
                    if pre.has_assignment(user_id as int, role_id@) {
                        let j = pre.assignment_index(user_id as int, role_id@);
                        assert(pre.user_roles@[j].user_id == user_id);
                    }
                }
                Err(AuthError::NotFound)
            },
        }
    }

    /// Removes a subject's membership in a role entirely.
    pub fn revoke_role(&mut self, user_id: i64, role_id: &String) -> (r: Result<(), AuthError>)
        requires
            old(self).wf(),
        ensures
            final(self).wf(),
            r is Ok <==> old(self)@.assignments.contains_key((user_id as int, role_id@)),
            r is Ok ==> final(self)@.assignments == old(self)@.assignments.remove(
                (user_id as int, role_id@),
            ) && final(self)@.roles == old(self)@.roles
                && final(self)@.permissions == old(self)@.permissions
                && final(self)@.grants == old(self)@.grants,
            r is Err ==> *final(self) == *old(self) && r == Err::<(), AuthError>(
                AuthError::NotFound,
            ),
    {
        let ghost pre = self.current;
        match find_assignment(&self.current.user_roles, user_id, role_id) {
            Some(i) => {
                proof {
                    lemma_assignment_at(pre, i as int, user_id as int, role_id@);
                }
                self.current.user_roles.remove(i);
                proof {
                    lemma_assignments_remove(pre, self.current, i as int);
                    lemma_roles_agree(pre, self.current);
                    lemma_perms_agree(pre, self.current);
                    lemma_grants_agree(pre, self.current);
                }
                Ok(())
            },
            None => {
                proof {
                    if pre.has_assignment(user_id as int, role_id@) {
                        let j = pre.assignment_index(user_id as int, role_id@);
                        assert(pre.user_roles@[j].user_id == user_id);
                    }
                }
                Err(AuthError::NotFound)
            },
        }
    }

    /// Grants a permission to a role. Both ids must be cataloged at the
    /// time of the call; granting an already-granted pair changes
    /// nothing, so the call is idempotent.
    pub fn grant_permission(&mut self, role_id: &String, permission_id: &String) -> (r: Result<
        (),
        AuthError,
    >)
        requires
            old(self).wf(),
        ensures
            final(self).wf(),
            r is Ok <==> (old(self)@.roles.contains_key(role_id@)
                && old(self)@.permissions.contains_key(permission_id@)),
            r is Ok ==> final(self)@.grants == old(self)@.grants.insert((role_id@, permission_id@))
                && final(self)@.roles == old(self)@.roles
                && final(self)@.permissions == old(self)@.permissions
                && final(self)@.assignments == old(self)@.assignments,
            r is Err ==> *final(self) == *old(self) && r == Err::<(), AuthError>(
                AuthError::NotFound,
            ),
    {
        let ghost pre = self.current;
        let role_there = match find_role(&self.current.roles, role_id) {
            Some(_) => true,
            None => false,
        };
        let perm_there = match find_permission(&self.current.permissions, permission_id) {
            Some(_) => true,
            None => false,
        };
        proof {
            if pre.has_role_id(role_id@) {
                let j = pre.role_index(role_id@);
                assert(pre.roles@[j].id@ == role_id@);
            }
            if pre.has_perm_id(permission_id@) {
                let j = pre.perm_index(permission_id@);
                assert(pre.permissions@[j].id@ == permission_id@);
            }
        }
        if !role_there || !perm_there {
            return Err(AuthError::NotFound);
        }
        match find_grant(&self.current.role_permissions, role_id, permission_id) {
            Some(_) => {
                proof {
                    assert(pre.has_grant(role_id@, permission_id@));
                    assert(pre@.grants.contains((role_id@, permission_id@)));
                    assert(pre@.grants =~= pre@.grants.insert((role_id@, permission_id@)));
                }
                Ok(())
            },
            None => {
                let g = RolePermission {
                    role_id: role_id.clone(),
                    permission_id: permission_id.clone(),
                };
                let ghost gg = g;
                proof {
                    if pre.has_grant(role_id@, permission_id@) {
                        let j = choose|j: int|
                            0 <= j < pre.role_permissions@.len()
                                && pre.role_permissions@[j].role_id@ == role_id@
                                && pre.role_permissions@[j].permission_id@ == permission_id@;
                        assert(pre.role_permissions@[j].role_id@ == role_id@);
                    }
                }
                self.current.role_permissions.push(g);
                proof {
                    lemma_grants_push(pre, self.current, gg);
                    lemma_roles_agree(pre, self.current);
                    lemma_perms_agree(pre, self.current);
                    lemma_assignments_agree(pre, self.current);
                }
                Ok(())
            },
        }
    }

    /// Withdraws a grant from a role.
    pub fn revoke_permission(&mut self, role_id: &String, permission_id: &String) -> (r: Result<
        (),
        AuthError,
    >)
        requires
            old(self).wf(),
        ensures
            final(self).wf(),
            r is Ok <==> old(self)@.grants.contains((role_id@, permission_id@)),
            r is Ok ==> final(self)@.grants == old(self)@.grants.remove((role_id@, permission_id@))
                && final(self)@.roles == old(self)@.roles
                && final(self)@.permissions == old(self)@.permissions
                && final(self)@.assignments == old(self)@.assignments,
            r is Err ==> *final(self) == *old(self) && r == Err::<(), AuthError>(
                AuthError::NotFound,
            ),
    {
        let ghost pre = self.current;
        match find_grant(&self.current.role_permissions, role_id, permission_id) {
            Some(i) => {
                proof {
                    assert(pre.has_grant(role_id@, permission_id@));
                }
                self.current.role_permissions.remove(i);
                proof {
                    lemma_grants_remove(pre, self.current, i as int);
                    lemma_roles_agree(pre, self.current);
                    lemma_perms_agree(pre, self.current);
                    lemma_assignments_agree(pre, self.current);
                }
                Ok(())
            },
            None => {
                proof {
                    if pre.has_grant(role_id@, permission_id@) {
                        let j = choose|j: int|
                            0 <= j < pre.role_permissions@.len()
                                && pre.role_permissions@[j].role_id@ == role_id@
                                && pre.role_permissions@[j].permission_id@ == permission_id@;
                        assert(pre.role_permissions@[j].role_id@ == role_id@);
                    }
                }
                Err(AuthError::NotFound)
            },
        }
    }

    /// Looks a role up by id in the role catalog.
    pub fn get_role(&self, id: &String) -> (r: Option<&Role>)
        requires
            self.wf(),
        ensures
            match r {
                Some(role) => self@.roles.contains_key(id@) && role.id@ == id@ && self@.roles[id@]
                    == (RoleV { name: role.name@, description: role.description.deep_view() }),
                None => !self@.roles.contains_key(id@),
            },
    {
        match find_role(&self.current.roles, id) {
            Some(i) => {
                proof {
                    lemma_role_at(self.current, i as int, id@);
                }
                Some(&self.current.roles[i])
            },
            None => {
                proof {
                    if self.current.has_role_id(id@) {
                        let j = self.current.role_index(id@);
                        assert(self.current.roles@[j].id@ == id@);
                    }
                }
                None
            },
        }
    }

    /// Looks a permission up by id in the permission catalog.
    pub fn get_permission(&self, id: &String) -> (r: Option<&Permission>)
        requires
            self.wf(),
        ensures
            match r {
                Some(perm) => self@.permissions.contains_key(id@) && perm.id@ == id@
                    && self@.permissions[id@] == (PermV {
                    resource: perm.resource@,
                    action: perm.action,
                }),
                None => !self@.permissions.contains_key(id@),
            },
    {
        match find_permission(&self.current.permissions, id) {
            Some(i) => {
                proof {
                    lemma_perm_at(self.current, i as int, id@);
                }
                Some(&self.current.permissions[i])
            },
            None => {
                proof {
                    if self.current.has_perm_id(id@) {
                        let j = self.current.perm_index(id@);
                        assert(self.current.permissions@[j].id@ == id@);
                    }
                }
                None
            },
        }
    }

    /// The role catalog's entries, copied as they stand at call time.
    pub fn list_roles(&self) -> (r: Vec<Role>)
        ensures
            r@ == self.current.roles@,
    {
        clone_roles(&self.current.roles)
    }

    /// The permission catalog's entries, copied as they stand at call
    /// time.
    pub fn list_permissions(&self) -> (r: Vec<Permission>)
        ensures
            r@ == self.current.permissions@,
    {
        clone_permissions(&self.current.permissions)
    }

    /// The ids of the roles in which the subject holds an assignment of
    /// exactly this status, read from the live state.
    pub fn roles_for_subject(&self, user_id: i64, status_filter: UserRoleStatus) -> (r: Vec<
        String,
    >)
        requires
            self.wf(),
        ensures
            forall|i: int|
                0 <= i < r@.len() ==> self@.assignments.contains_key(
                    (user_id as int, (#[trigger] r@[i])@),
                ) && self@.assignments[(user_id as int, r@[i]@)] == status_filter,
            forall|rid: Seq<char>|
                (self@.assignments.contains_key((user_id as int, rid))
                    && self@.assignments[(user_id as int, rid)] == status_filter) ==> exists|i: int|
                    0 <= i < r@.len() && (#[trigger] r@[i])@ == rid,
            forall|i: int, j: int| 0 <= i < j < r@.len() ==> r@[i]@ != r@[j]@,
    {
        self.current.roles_for_subject(user_id, status_filter)
    }

    /// The ids of the permissions granted to this role, read from the
    /// live state.
    pub fn permissions_for_role(&self, role_id: &String) -> (r: Vec<String>)
        requires
            self.wf(),
        ensures
            forall|i: int|
                0 <= i < r@.len() ==> self@.grants.contains((role_id@, (#[trigger] r@[i])@)),
            forall|pid: Seq<char>|
                self@.grants.contains((role_id@, pid)) ==> exists|i: int|
                    0 <= i < r@.len() && (#[trigger] r@[i])@ == pid,
            forall|i: int, j: int| 0 <= i < j < r@.len() ==> r@[i]@ != r@[j]@,
    {
        self.current.permissions_for_role(role_id)
    }
}

} // verus!
