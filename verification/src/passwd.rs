//! The passwd-side adapter entry points: each maps the outcome of one
//! directory call into the tri-state result the host expects. The call
//! itself is made outside the library and its outcome handed in as a
//! plain value.

use vstd::prelude::*;
use crate::client::{spec_entry_response, spec_list_response, ClientError, Response};
use crate::config::found_user_by_uid;
use crate::types::{PasswdRecord, User};

verus! {

/// The host-facing passwd lookups.
pub struct AuthdPasswd {}

impl AuthdPasswd {
    /// All passwd records, from the outcome of one directory call.
    pub fn get_all_entries(outcome: Result<Vec<PasswdRecord>, ClientError>) -> (r: Response<
        Vec<PasswdRecord>,
    >)
        ensures
            r == spec_list_response(outcome),
    {
        match outcome {
            Result::Ok(list) => Response::Success(list),
            Result::Err(_) => Response::Unavail,
        }
    }

    /// The passwd record of that id, from the outcome of one directory
    /// call: an absent-result answer is the explicit absent marker, never
    /// unavailability.
    pub fn get_entry_by_uid(outcome: Result<Option<PasswdRecord>, ClientError>) -> (r: Response<
        PasswdRecord,
    >)
        ensures
            r == spec_entry_response(outcome),
    {
        match outcome {
            Result::Ok(Option::Some(rec)) => Response::Success(rec),
            Result::Ok(Option::None) => Response::NotFound,
            Result::Err(_) => Response::Unavail,
        }
    }

    /// The passwd record of that name, from the outcome of one directory
    /// call.
    pub fn get_entry_by_name(outcome: Result<Option<PasswdRecord>, ClientError>) -> (r: Response<
        PasswdRecord,
    >)
        ensures
            r == spec_entry_response(outcome),
    {
        match outcome {
            Result::Ok(Option::Some(rec)) => Response::Success(rec),
            Result::Ok(Option::None) => Response::NotFound,
            Result::Err(_) => Response::Unavail,
        }
    }
}

/// A uid absent from the store yields the explicit absent marker, never
/// unavailability, when the store itself was reached: the service answers
/// `None` for such a uid, and a `None` that arrives maps to `NotFound`.
pub proof fn lemma_absent_uid_is_not_found(
    users: Seq<User>,
    uid: u32,
    served: Option<PasswdRecord>,
)
    requires
        forall|i: int| 0 <= i < users.len() ==> #[trigger] users[i].id != uid,
        served is Some ==> exists|i: int| #[trigger] found_user_by_uid(users, uid, i),
    ensures
        served is None,
        spec_entry_response(Result::<Option<PasswdRecord>, ClientError>::Ok(served))
            == Response::<PasswdRecord>::NotFound,
{
    if served is Some {
        let i = choose|i: int| #[trigger] found_user_by_uid(users, uid, i);
        assert(users[i].id == uid);
    }
}

} // verus!
