//! The group-side adapter entry points: each maps the outcome of one
//! directory call into the tri-state result the host expects. The call
//! itself is made outside the library and its outcome handed in as a
//! plain value.

use vstd::prelude::*;
use crate::client::{spec_entry_response, spec_list_response, ClientError, Response};
use crate::config::found_group_by_gid;
use crate::types::{Group, GroupRecord};

verus! {

/// The host-facing group lookups.
pub struct AuthdGroup {}

impl AuthdGroup {
    /// All group records, from the outcome of one directory call.
    pub fn get_all_entries(outcome: Result<Vec<GroupRecord>, ClientError>) -> (r: Response<
        Vec<GroupRecord>,
    >)
        ensures
            r == spec_list_response(outcome),
    {
        match outcome {
            Result::Ok(list) => Response::Success(list),
            Result::Err(_) => Response::Unavail,
        }
    }

    /// The group of that id, from the outcome of one directory call: an
    /// absent-result answer is the explicit absent marker, never
    /// unavailability.
    pub fn get_entry_by_gid(outcome: Result<Option<GroupRecord>, ClientError>) -> (r: Response<
        GroupRecord,
    >)
        ensures
            r == spec_entry_response(outcome),
    {
        match outcome {
            Result::Ok(Option::Some(rec)) => Response::Success(rec),
            Result::Ok(Option::None) => Response::NotFound,
            Result::Err(_) => Response::Unavail,
        }
    }

    /// The group of that name, from the outcome of one directory call.
    pub fn get_entry_by_name(outcome: Result<Option<GroupRecord>, ClientError>) -> (r: Response<
        GroupRecord,
    >)
        ensures
            r == spec_entry_response(outcome),
    {
        match outcome {
            Result::Ok(Option::Some(rec)) => Response::Success(rec),
            Result::Ok(Option::None) => Response::NotFound,
            Result::Err(_) => Response::Unavail,
        }
    }
}

/// A gid absent from the store yields the explicit absent marker, never
/// unavailability, when the store itself was reached: the service answers
/// `None` for such a gid, and a `None` that arrives maps to `NotFound`.
pub proof fn lemma_absent_gid_is_not_found(
    groups: Seq<Group>,
    gid: u32,
    served: Option<GroupRecord>,
)
    requires
        forall|i: int| 0 <= i < groups.len() ==> #[trigger] groups[i].gid != gid,
        served is Some ==> exists|i: int| #[trigger] found_group_by_gid(groups, gid, i),
    ensures
        served is None,
        spec_entry_response(Result::<Option<GroupRecord>, ClientError>::Ok(served))
            == Response::<GroupRecord>::NotFound,
{
    if served is Some {
        let i = choose|i: int| #[trigger] found_group_by_gid(groups, gid, i);
        assert(groups[i].gid == gid);
    }
}

} // verus!
