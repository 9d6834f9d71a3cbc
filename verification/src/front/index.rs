//! The landing page: only the signed-in operator's identity.

use vstd::prelude::*;

use crate::auth::UserAuthRedirect;
use crate::database::Database;
use crate::front::UserInfo;
use crate::Error;

verus! {

/// The landing page's data: the signed-in operator.  An identity whose
/// user row has vanished is a server fault, not a login failure.
pub fn get_index(db: &Database, user: UserAuthRedirect) -> (r: Result<UserInfo, Error>)
    ensures
        r is Ok <==> db@.user_of(user.0.0 as int) is Some,
        r matches Ok(u) ==> db@.user_of(user.0.0 as int) matches Some(uv) && u.id as int == uv.id
            && u.name@ == uv.name,
        r matches Err(e) ==> e == Error::Internal,
{
    match user.get_user(db) {
        None => Err(Error::Internal),
        Some(u) => Ok(UserInfo::from(u)),
    }
}

} // verus!
