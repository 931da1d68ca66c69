//! Who a session acts for.

use vstd::prelude::*;

verus! {

/// Identifies a user.
pub type UserId = u32;

/// The database and the user of a session.
pub struct AuthContext {
    pub database: String,
    pub user_name: String,
    pub user_id: UserId,
}

impl AuthContext {
    pub fn new(database: String, user_name: String, user_id: UserId) -> (r: Self)
        ensures
            r.database == database,
            r.user_name == user_name,
            r.user_id == user_id,
    {
        AuthContext { database, user_name, user_id }
    }
}

} // verus!
