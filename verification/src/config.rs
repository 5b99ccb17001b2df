//! The identity store: the directory's configuration and the validation
//! pass over the shared numeric-id namespace of groups and users.

use vstd::prelude::*;
use crate::types::{Group, User};

verus! {

/// Whether a colliding entry is a group or a user.
#[derive(Clone, Copy, Debug, PartialEq, Eq, Structural)]
pub enum EntryKind {
    Group,
    User,
}

/// A duplicate numeric id: the entry that first carried the id and the
/// later entry that collides with it, with the shared id.
#[derive(Debug)]
pub struct ValidationError {
    pub first_kind: EntryKind,
    pub first_name: String,
    pub second_kind: EntryKind,
    pub second_name: String,
    pub id: u32,
}

/// The directory's configuration: the group entries, the user entries, and
/// the paths of the TLS certificate and private key.
#[derive(Debug)]
pub struct Config {
    pub groups: Vec<Group>,
    pub users: Vec<User>,
    pub cert: String,
    pub key: String,
}

/// The number of entries in the combined groups-then-users order.
pub open spec fn combined_len(groups: Seq<Group>, users: Seq<User>) -> int {
    groups.len() + users.len() as int
}

/// The numeric id of entry `i` in the combined groups-then-users order.
pub open spec fn combined_id(groups: Seq<Group>, users: Seq<User>, i: int) -> u32 {
    if i < groups.len() {
        groups[i].gid
    } else {
        users[i - groups.len()].id
    }
}

/// The kind of entry `i` in the combined groups-then-users order.
pub open spec fn combined_kind(groups: Seq<Group>, users: Seq<User>, i: int) -> EntryKind {
    if i < groups.len() {
        EntryKind::Group
    } else {
        EntryKind::User
    }
}

/// The name of entry `i` in the combined groups-then-users order.
pub open spec fn combined_name(groups: Seq<Group>, users: Seq<User>, i: int) -> Seq<char> {
    if i < groups.len() {
        groups[i].name@
    } else {
        users[i - groups.len()].name@
    }
}

/// No two entries of the combined id namespace share a numeric id.
pub open spec fn ids_unique(groups: Seq<Group>, users: Seq<User>) -> bool {
    forall|i: int, j: int|
        0 <= j < i < combined_len(groups, users) ==> #[trigger] combined_id(groups, users, i)
            != #[trigger] combined_id(groups, users, j)
}

/// Entries `j < i` share an id, no pair before `i` does, and `j` is the
/// first entry carrying that id: the collision that validation reports.
pub open spec fn is_first_collision(groups: Seq<Group>, users: Seq<User>, i: int, j: int) -> bool {
    &&& 0 <= j < i < combined_len(groups, users)
    &&& combined_id(groups, users, i) == combined_id(groups, users, j)
    &&& forall|i2: int, j2: int|
        0 <= j2 < i2 < i ==> #[trigger] combined_id(groups, users, i2) != #[trigger] combined_id(
            groups,
            users,
            j2,
        )
    &&& forall|j2: int|
        0 <= j2 < j ==> #[trigger] combined_id(groups, users, j2) != combined_id(groups, users, i)
}

/// Whether `e` reports the collision of entry `i` with the earlier entry
/// `j`: their kinds and names, and the shared id.
pub open spec fn error_describes(
    groups: Seq<Group>,
    users: Seq<User>,
    e: ValidationError,
    i: int,
    j: int,
) -> bool {
    &&& e.first_kind == combined_kind(groups, users, j)
    &&& e.first_name@ == combined_name(groups, users, j)
    &&& e.second_kind == combined_kind(groups, users, i)
    &&& e.second_name@ == combined_name(groups, users, i)
    &&& e.id == combined_id(groups, users, i)
}

impl Config {
    /// The kind and name of entry `i` of the combined order, for reporting.
    fn entry_ref_at(&self, i: usize, user_side: bool) -> (r: (EntryKind, String))
        requires
            !user_side ==> i < self.groups@.len(),
            user_side ==> i < self.users@.len(),
        ensures
            ({
                let ci = if user_side {
                    self.groups@.len() + i
                } else {
                    i as int
                };
                r.0 == combined_kind(self.groups@, self.users@, ci) && r.1@ == combined_name(
                    self.groups@,
                    self.users@,
                    ci,
                )
            }),
    {
        if user_side {
            (EntryKind::User, self.users[i].name.clone())
        } else {
            (EntryKind::Group, self.groups[i].name.clone())
        }
    }

    /// The first duplicate numeric id in the combined groups-then-users,
    /// list order, reported as the first pair of colliding entries; `None`
    /// where every id is distinct. Scanning stops at the first collision.
    pub fn first_collision(&self) -> (r: Option<ValidationError>)
        ensures
            match r {
                Option::None => ids_unique(self.groups@, self.users@),
                Option::Some(e) => exists|i: int, j: int|
                    #[trigger] is_first_collision(self.groups@, self.users@, i, j)
                        && error_describes(self.groups@, self.users@, e, i, j),
            },
    {
        let ghost gs = self.groups@;
        let ghost us = self.users@;
        let glen = self.groups.len();

        let mut i: usize = 0;
        while i < glen
            invariant
                glen == gs.len(),
                gs == self.groups@,
                us == self.users@,
                i <= glen,
                forall|a: int, b: int|
                    0 <= b < a < i ==> #[trigger] combined_id(gs, us, a) != #[trigger] combined_id(
                        gs,
                        us,
                        b,
                    ),
            decreases glen - i,
        {
            let mut j: usize = 0;
            while j < i
                invariant
                    glen == gs.len(),
                    gs == self.groups@,
                    us == self.users@,
                    j <= i < glen,
                    forall|a: int, b: int|
                        0 <= b < a < i ==> #[trigger] combined_id(gs, us, a)
                            != #[trigger] combined_id(gs, us, b),
                    forall|b: int| 0 <= b < j ==> #[trigger] combined_id(gs, us, b) != combined_id(gs, us, i as int),
                decreases i - j,
            {
                if self.groups[j].gid == self.groups[i].gid {
                    let first = self.entry_ref_at(j, false);
                    let second = self.entry_ref_at(i, false);
                    let e = ValidationError {
                        first_kind: first.0,
                        first_name: first.1,
                        second_kind: second.0,
                        second_name: second.1,
                        id: self.groups[i].gid,
                    };
                    proof {
                        assert(combined_id(gs, us, i as int) == gs[i as int].gid);
                        assert(combined_id(gs, us, j as int) == gs[j as int].gid);
                        assert(is_first_collision(gs, us, i as int, j as int));
                        assert(error_describes(gs, us, e, i as int, j as int));
                    }
                    return Option::Some(e);
                }
                j = j + 1;
            }
            i = i + 1;
        }

        let ulen = self.users.len();
        let mut u: usize = 0;
        while u < ulen
            invariant
                glen == gs.len(),
                ulen == us.len(),
                gs == self.groups@,
                us == self.users@,
                u <= ulen,
                forall|a: int, b: int|
                    0 <= b < a < glen + u ==> #[trigger] combined_id(gs, us, a)
                        != #[trigger] combined_id(gs, us, b),
            decreases ulen - u,
        {
            let ghost ci = glen + u;
            let uid = self.users[u].id;

            let mut j: usize = 0;
            while j < glen
                invariant
                    glen == gs.len(),
                    ulen == us.len(),
                    gs == self.groups@,
                    us == self.users@,
                    u < ulen,
                    j <= glen,
                    ci == glen + u,
                    uid == combined_id(gs, us, ci),
                    forall|a: int, b: int|
                        0 <= b < a < ci ==> #[trigger] combined_id(gs, us, a)
                            != #[trigger] combined_id(gs, us, b),
                    forall|b: int| 0 <= b < j ==> #[trigger] combined_id(gs, us, b) != combined_id(gs, us, ci),
                decreases glen - j,
            {
                if self.groups[j].gid == uid {
                    let first = self.entry_ref_at(j, false);
                    let second = self.entry_ref_at(u, true);
                    let e = ValidationError {
                        first_kind: first.0,
                        first_name: first.1,
                        second_kind: second.0,
                        second_name: second.1,
                        id: uid,
                    };
                    proof {
                        assert(combined_id(gs, us, j as int) == gs[j as int].gid);
                        assert(is_first_collision(gs, us, ci, j as int));
                        assert(error_describes(gs, us, e, ci, j as int));
                    }
                    return Option::Some(e);
                }
                j = j + 1;
            }

            let mut k: usize = 0;
            while k < u
                invariant
                    glen == gs.len(),
                    ulen == us.len(),
                    gs == self.groups@,
                    us == self.users@,
                    u < ulen,
                    k <= u,
                    ci == glen + u,
                    uid == combined_id(gs, us, ci),
                    forall|a: int, b: int|
                        0 <= b < a < ci ==> #[trigger] combined_id(gs, us, a)
                            != #[trigger] combined_id(gs, us, b),
                    forall|b: int| 0 <= b < glen + k ==> #[trigger] combined_id(gs, us, b) != combined_id(gs, us, ci),
                decreases u - k,
            {
                if self.users[k].id == uid {
                    let first = self.entry_ref_at(k, true);
                    let second = self.entry_ref_at(u, true);
                    let e = ValidationError {
                        first_kind: first.0,
                        first_name: first.1,
                        second_kind: second.0,
                        second_name: second.1,
                        id: uid,
                    };
                    proof {
                        assert(combined_id(gs, us, glen + k) == us[k as int].id);
                        assert(is_first_collision(gs, us, ci, glen + k));
                        assert(error_describes(gs, us, e, ci, glen + k));
                    }
                    return Option::Some(e);
                }
                k = k + 1;
            }
            u = u + 1;
        }
        proof {
            assert(combined_len(gs, us) == glen + ulen);
        }
        Option::None
    }

    /// Whether all defined ids and gids have no overlap: the combined id
    /// namespace holds no duplicate.
    pub fn check_dup(&self) -> (r: bool)
        ensures
            r == ids_unique(self.groups@, self.users@),
    {
        match self.first_collision() {
            Option::None => true,
            Option::Some(e) => {
                proof {
                    let (i, j) = choose|i: int, j: int|
                        #[trigger] is_first_collision(self.groups@, self.users@, i, j)
                            && error_describes(self.groups@, self.users@, e, i, j);
                    assert(combined_id(self.groups@, self.users@, i) == combined_id(
                        self.groups@,
                        self.users@,
                        j,
                    ));
                }
                false
            },
        }
    }

    /// Builds the directory from its parts, accepting exactly the
    /// configurations whose combined id namespace is collision-free and
    /// reporting the first collision otherwise.
    pub fn load(groups: Vec<Group>, users: Vec<User>, cert: String, key: String) -> (r: Result<
        Config,
        ValidationError,
    >)
        ensures
            match r {
                Result::Ok(c) => {
                    &&& c.groups == groups
                    &&& c.users == users
                    &&& c.cert == cert
                    &&& c.key == key
                    &&& ids_unique(groups@, users@)
                },
                Result::Err(e) => {
                    &&& !ids_unique(groups@, users@)
                    &&& exists|i: int, j: int|
                        #[trigger] is_first_collision(groups@, users@, i, j) && error_describes(
                            groups@,
                            users@,
                            e,
                            i,
                            j,
                        )
                },
            },
    {
        let c = Config { groups, users, cert, key };
        match c.first_collision() {
            Option::None => Result::Ok(c),
            Option::Some(e) => {
                proof {
                    let (i, j) = choose|i: int, j: int|
                        #[trigger] is_first_collision(c.groups@, c.users@, i, j)
                            && error_describes(c.groups@, c.users@, e, i, j);
                    assert(combined_id(c.groups@, c.users@, i) == combined_id(c.groups@, c.users@, j));
                }
                Result::Err(e)
            },
        }
    }
}

/// Entry `i` is the first group in store order whose name is `name`.
pub open spec fn found_group_by_name(groups: Seq<Group>, name: Seq<char>, i: int) -> bool {
    &&& 0 <= i < groups.len()
    &&& groups[i].name@ == name
    &&& forall|j: int| 0 <= j < i ==> #[trigger] groups[j].name@ != name
}

/// Entry `i` is the first group in store order whose id is `gid`.
pub open spec fn found_group_by_gid(groups: Seq<Group>, gid: u32, i: int) -> bool {
    &&& 0 <= i < groups.len()
    &&& groups[i].gid == gid
    &&& forall|j: int| 0 <= j < i ==> #[trigger] groups[j].gid != gid
}

/// Entry `i` is the first user in store order whose name is `name`.
pub open spec fn found_user_by_name(users: Seq<User>, name: Seq<char>, i: int) -> bool {
    &&& 0 <= i < users.len()
    &&& users[i].name@ == name
    &&& forall|j: int| 0 <= j < i ==> #[trigger] users[j].name@ != name
}

/// Entry `i` is the first user in store order whose id is `uid`.
pub open spec fn found_user_by_uid(users: Seq<User>, uid: u32, i: int) -> bool {
    &&& 0 <= i < users.len()
    &&& users[i].id == uid
    &&& forall|j: int| 0 <= j < i ==> #[trigger] users[j].id != uid
}

impl Config {
    /// A snapshot of the group entries, in store order.
    pub fn all_groups(&self) -> (r: Vec<Group>)
        ensures
            r@.len() == self.groups@.len(),
            forall|i: int| 0 <= i < r@.len() ==> r@[i]@ == #[trigger] self.groups@[i]@,
    {
        let mut out: Vec<Group> = Vec::new();
        let mut i: usize = 0;
        while i < self.groups.len()
            invariant
                i <= self.groups@.len(),
                out@.len() == i,
                forall|k: int| 0 <= k < i ==> out@[k]@ == #[trigger] self.groups@[k]@,
            decreases self.groups@.len() - i,
        {
            out.push(self.groups[i].clone());
            i = i + 1;
        }
        out
    }

    /// A snapshot of the user entries, in store order.
    pub fn all_users(&self) -> (r: Vec<User>)
        ensures
            r@.len() == self.users@.len(),
            forall|i: int| 0 <= i < r@.len() ==> r@[i]@ == #[trigger] self.users@[i]@,
    {
        let mut out: Vec<User> = Vec::new();
        let mut i: usize = 0;
        while i < self.users.len()
            invariant
                i <= self.users@.len(),
                out@.len() == i,
                forall|k: int| 0 <= k < i ==> out@[k]@ == #[trigger] self.users@[k]@,
            decreases self.users@.len() - i,
        {
            out.push(self.users[i].clone());
            i = i + 1;
        }
        out
    }

    /// The first group of that name in store order, or `None` where no
    /// group carries the name.
    pub fn find_group_by_name(&self, name: &String) -> (r: Option<Group>)
        ensures
            match r {
                Option::Some(g) => exists|i: int|
                    #[trigger] found_group_by_name(self.groups@, name@, i) && g@
                        == self.groups@[i]@,
                Option::None => forall|i: int|
                    0 <= i < self.groups@.len() ==> #[trigger] self.groups@[i].name@ != name@,
            },
    {
        let mut i: usize = 0;
        while i < self.groups.len()
            invariant
                i <= self.groups@.len(),
                forall|j: int| 0 <= j < i ==> #[trigger] self.groups@[j].name@ != name@,
            decreases self.groups@.len() - i,
        {
            if self.groups[i].name == *name {
                proof {
                    assert(found_group_by_name(self.groups@, name@, i as int));
                }
                return Option::Some(self.groups[i].clone());
            }
            i = i + 1;
        }
        Option::None
    }

    /// The first group of that id in store order, or `None` where no group
    /// carries the id.
    pub fn find_group_by_gid(&self, gid: u32) -> (r: Option<Group>)
        ensures
            match r {
                Option::Some(g) => exists|i: int|
                    #[trigger] found_group_by_gid(self.groups@, gid, i) && g@ == self.groups@[i]@,
                Option::None => forall|i: int|
                    0 <= i < self.groups@.len() ==> #[trigger] self.groups@[i].gid != gid,
            },
    {
        let mut i: usize = 0;
        while i < self.groups.len()
            invariant
                i <= self.groups@.len(),
                forall|j: int| 0 <= j < i ==> #[trigger] self.groups@[j].gid != gid,
            decreases self.groups@.len() - i,
        {
            if self.groups[i].gid == gid {
                proof {
                    assert(found_group_by_gid(self.groups@, gid, i as int));
                }
                return Option::Some(self.groups[i].clone());
            }
            i = i + 1;
        }
        Option::None
    }

    /// The first user of that name in store order, or `None` where no user
    /// carries the name.
    pub fn find_user_by_name(&self, name: &String) -> (r: Option<User>)
        ensures
            match r {
                Option::Some(u) => exists|i: int|
                    #[trigger] found_user_by_name(self.users@, name@, i) && u@ == self.users@[i]@,
                Option::None => forall|i: int|
                    0 <= i < self.users@.len() ==> #[trigger] self.users@[i].name@ != name@,
            },
    {
        let mut i: usize = 0;
        while i < self.users.len()
            invariant
                i <= self.users@.len(),
                forall|j: int| 0 <= j < i ==> #[trigger] self.users@[j].name@ != name@,
            decreases self.users@.len() - i,
        {
            if self.users[i].name == *name {
                proof {
                    assert(found_user_by_name(self.users@, name@, i as int));
                }
                return Option::Some(self.users[i].clone());
            }
            i = i + 1;
        }
        Option::None
    }

    /// The first user of that id in store order, or `None` where no user
    /// carries the id.
    pub fn find_user_by_uid(&self, uid: u32) -> (r: Option<User>)
        ensures
            match r {
                Option::Some(u) => exists|i: int|
                    #[trigger] found_user_by_uid(self.users@, uid, i) && u@ == self.users@[i]@,
                Option::None => forall|i: int|
                    0 <= i < self.users@.len() ==> #[trigger] self.users@[i].id != uid,
            },
    {
        let mut i: usize = 0;
        while i < self.users.len()
            invariant
                i <= self.users@.len(),
                forall|j: int| 0 <= j < i ==> #[trigger] self.users@[j].id != uid,
            decreases self.users@.len() - i,
        {
            if self.users[i].id == uid {
                proof {
                    assert(found_user_by_uid(self.users@, uid, i as int));
                }
                return Option::Some(self.users[i].clone());
            }
            i = i + 1;
        }
        Option::None
    }
}

/// Validation succeeds on every configuration whose id sets are pairwise
/// disjoint: group ids distinct among themselves, user ids distinct among
/// themselves, and no id shared between a group and a user.
pub proof fn lemma_disjoint_id_sets_validate(groups: Seq<Group>, users: Seq<User>)
    requires
        forall|i: int, j: int|
            0 <= j < i < groups.len() ==> #[trigger] groups[i].gid != #[trigger] groups[j].gid,
        forall|i: int, j: int|
            0 <= j < i < users.len() ==> #[trigger] users[i].id != #[trigger] users[j].id,
        forall|i: int, j: int|
            0 <= i < groups.len() && 0 <= j < users.len() ==> #[trigger] groups[i].gid
                != #[trigger] users[j].id,
    ensures
        ids_unique(groups, users),
{
    assert forall|i: int, j: int| 0 <= j < i < combined_len(groups, users) implies #[trigger] combined_id(
        groups,
        users,
        i,
    ) != #[trigger] combined_id(groups, users, j) by {
        if i < groups.len() {
            assert(groups[i].gid != groups[j].gid);
        } else if j < groups.len() {
            assert(groups[j].gid != users[i - groups.len()].id);
        } else {
            assert(users[i - groups.len()].id != users[j - groups.len()].id);
        }
    }
}

/// Helper for the minimality argument: given any collision, some collision
/// has a first colliding entry that is least.
proof fn lemma_min_i_collision(groups: Seq<Group>, users: Seq<User>, i0: int, j0: int)
    requires
        0 <= j0 < i0 < combined_len(groups, users),
        combined_id(groups, users, i0) == combined_id(groups, users, j0),
    ensures
        exists|i: int, j: int| #[trigger] is_first_collision(groups, users, i, j),
    decreases i0,
{
    if exists|i2: int, j2: int|
        0 <= j2 < i2 < i0 && #[trigger] combined_id(groups, users, i2) == #[trigger] combined_id(
            groups,
            users,
            j2,
        ) {
        let (i2, j2) = choose|i2: int, j2: int|
            0 <= j2 < i2 < i0 && #[trigger] combined_id(groups, users, i2)
                == #[trigger] combined_id(groups, users, j2);
        lemma_min_i_collision(groups, users, i2, j2);
    } else {
        lemma_min_j_collision(groups, users, i0, j0);
    }
}

/// Helper for the minimality argument: given a collision whose later entry
/// is least, some earlier entry carrying the id is least as well.
proof fn lemma_min_j_collision(groups: Seq<Group>, users: Seq<User>, i0: int, j0: int)
    requires
        0 <= j0 < i0 < combined_len(groups, users),
        combined_id(groups, users, i0) == combined_id(groups, users, j0),
        forall|i2: int, j2: int|
            0 <= j2 < i2 < i0 ==> #[trigger] combined_id(groups, users, i2)
                != #[trigger] combined_id(groups, users, j2),
    ensures
        exists|i: int, j: int| #[trigger] is_first_collision(groups, users, i, j),
    decreases j0,
{
    if exists|j2: int|
        0 <= j2 < j0 && #[trigger] combined_id(groups, users, j2) == combined_id(groups, users, i0) {
        let j2 = choose|j2: int|
            0 <= j2 < j0 && #[trigger] combined_id(groups, users, j2) == combined_id(
                groups,
                users,
                i0,
            );
        lemma_min_j_collision(groups, users, i0, j2);
    } else {
        assert(is_first_collision(groups, users, i0, j0));
    }
}

/// Every configuration holding two entries that share a numeric id has a
/// first colliding pair in groups-then-users, list order: the one that
/// validation reports.
pub proof fn lemma_first_collision_exists(groups: Seq<Group>, users: Seq<User>)
    requires
        !ids_unique(groups, users),
    ensures
        exists|i: int, j: int| #[trigger] is_first_collision(groups, users, i, j),
{
    let (i0, j0) = choose|i0: int, j0: int|
        0 <= j0 < i0 < combined_len(groups, users) && #[trigger] combined_id(groups, users, i0)
            == #[trigger] combined_id(groups, users, j0);
    lemma_min_i_collision(groups, users, i0, j0);
}

/// The first colliding pair is unique: validation is deterministic in what
/// it reports.
pub proof fn lemma_first_collision_unique(
    groups: Seq<Group>,
    users: Seq<User>,
    i1: int,
    j1: int,
    i2: int,
    j2: int,
)
    requires
        is_first_collision(groups, users, i1, j1),
        is_first_collision(groups, users, i2, j2),
    ensures
        i1 == i2,
        j1 == j2,
{
    if i1 < i2 {
        assert(combined_id(groups, users, i1) == combined_id(groups, users, j1));
    }
    if i2 < i1 {
        assert(combined_id(groups, users, i2) == combined_id(groups, users, j2));
    }
    if j1 < j2 {
        assert(combined_id(groups, users, j1) == combined_id(groups, users, i1));
    }
    if j2 < j1 {
        assert(combined_id(groups, users, j2) == combined_id(groups, users, i2));
    }
}

} // verus!
