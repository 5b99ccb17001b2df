//! The directory service: the query operations one connection's session
//! answers, bound to one immutable directory and one supported-shell
//! policy. Every call is independent and side-effect-free; the session
//! holds no per-call state, so concurrently in-flight calls may complete
//! in any order.

use vstd::prelude::*;
use std::sync::Arc;
use crate::config::{
    found_group_by_gid, found_group_by_name, found_user_by_name, found_user_by_uid, Config,
};
use crate::types::{
    spec_group_record, spec_passwd_record, GroupRecord, GroupToNSS, PasswdRecord, ShellPolicy,
    UserToNSS,
};

verus! {

/// One connection's worth of the directory service: a shared handle on the
/// directory and the supported-shell policy the projection applies.
pub struct AuthdSession {
    pub config: Arc<Config>,
    pub policy: ShellPolicy,
}

impl AuthdSession {
    pub fn new(config: Arc<Config>, policy: ShellPolicy) -> (s: Self)
        ensures
            s.config == config,
            s.policy == policy,
    {
        AuthdSession { config, policy }
    }

    /// All group entries, projected, in store order.
    pub fn get_all_groups(&self) -> (r: Vec<GroupRecord>)
        ensures
            r@.len() == self.config.groups@.len(),
            forall|i: int|
                0 <= i < r@.len() ==> r@[i]@ == spec_group_record(#[trigger] self.config.groups@[i]@),
    {
        self.config.groups.to_nss()
    }

    /// The projection of the first group of that name in store order, or
    /// `None` where no group carries the name.
    pub fn get_group_by_name(&self, name: String) -> (r: Option<GroupRecord>)
        ensures
            match r {
                Option::Some(rec) => exists|i: int|
                    #[trigger] found_group_by_name(self.config.groups@, name@, i) && rec@
                        == spec_group_record(self.config.groups@[i]@),
                Option::None => forall|i: int|
                    0 <= i < self.config.groups@.len()
                        ==> #[trigger] self.config.groups@[i].name@ != name@,
            },
    {
        match self.config.find_group_by_name(&name) {
            Option::Some(g) => Option::Some(g.to_nss()),
            Option::None => Option::None,
        }
    }

    /// The projection of the first group of that id in store order, or
    /// `None` where no group carries the id.
    pub fn get_group_by_gid(&self, gid: u32) -> (r: Option<GroupRecord>)
        ensures
            match r {
                Option::Some(rec) => exists|i: int|
                    #[trigger] found_group_by_gid(self.config.groups@, gid, i) && rec@
                        == spec_group_record(self.config.groups@[i]@),
                Option::None => forall|i: int|
                    0 <= i < self.config.groups@.len() ==> #[trigger] self.config.groups@[i].gid
                        != gid,
            },
    {
        match self.config.find_group_by_gid(gid) {
            Option::Some(g) => Option::Some(g.to_nss()),
            Option::None => Option::None,
        }
    }

    /// All user entries, projected under the session's policy, in store
    /// order.
    pub fn get_all_passwd(&self) -> (r: Vec<PasswdRecord>)
        ensures
            r@.len() == self.config.users@.len(),
            forall|i: int|
                0 <= i < r@.len() ==> r@[i]@ == spec_passwd_record(
                    #[trigger] self.config.users@[i]@,
                    self.policy.home_root@,
                    self.policy.shells_root@,
                    self.policy.shells@,
                ),
    {
        self.config.users.to_nss(
            self.policy.home_root.as_str(),
            self.policy.shells_root.as_str(),
            &self.policy.shells,
        )
    }

    /// The projection of the first user of that name in store order, or
    /// `None` where no user carries the name.
    pub fn get_passwd_by_name(&self, name: String) -> (r: Option<PasswdRecord>)
        ensures
            match r {
                Option::Some(rec) => exists|i: int|
                    #[trigger] found_user_by_name(self.config.users@, name@, i) && rec@
                        == spec_passwd_record(
                        self.config.users@[i]@,
                        self.policy.home_root@,
                        self.policy.shells_root@,
                        self.policy.shells@,
                    ),
                Option::None => forall|i: int|
                    0 <= i < self.config.users@.len() ==> #[trigger] self.config.users@[i].name@
                        != name@,
            },
    {
        match self.config.find_user_by_name(&name) {
            Option::Some(u) => Option::Some(
                u.to_nss(
                    self.policy.home_root.as_str(),
                    self.policy.shells_root.as_str(),
                    &self.policy.shells,
                ),
            ),
            Option::None => Option::None,
        }
    }

    /// The projection of the first user of that id in store order, or
    /// `None` where no user carries the id.
    pub fn get_passwd_by_uid(&self, uid: u32) -> (r: Option<PasswdRecord>)
        ensures
            match r {
                Option::Some(rec) => exists|i: int|
                    #[trigger] found_user_by_uid(self.config.users@, uid, i) && rec@
                        == spec_passwd_record(
                        self.config.users@[i]@,
                        self.policy.home_root@,
                        self.policy.shells_root@,
                        self.policy.shells@,
                    ),
                Option::None => forall|i: int|
                    0 <= i < self.config.users@.len() ==> #[trigger] self.config.users@[i].id
                        != uid,
            },
    {
        match self.config.find_user_by_uid(uid) {
            Option::Some(u) => Option::Some(
                u.to_nss(
                    self.policy.home_root.as_str(),
                    self.policy.shells_root.as_str(),
                    &self.policy.shells,
                ),
            ),
            Option::None => Option::None,
        }
    }
}

} // verus!
