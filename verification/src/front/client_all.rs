//! The client directory page: every client, with the signed-in operator.

use vstd::prelude::*;

use crate::auth::UserAuthRedirect;
use crate::database::clients::TableClients;
use crate::database::Database;
use crate::front::UserInfo;
use crate::Error;

verus! {

/// A client as the directory page lists it.
#[derive(Clone, Debug)]
pub struct ClientInfo {
    pub id: i64,
    pub name: String,
    pub description: String,
}

impl From<TableClients> for ClientInfo {
    fn from(value: TableClients) -> (r: Self) {
        ClientInfo { id: value.id.0, name: value.name, description: value.description }
    }
}

impl vstd::std_specs::convert::FromSpecImpl<TableClients> for ClientInfo {
    open spec fn obeys_from_spec() -> bool {
        true
    }

    open spec fn from_spec(value: TableClients) -> Self {
        ClientInfo { id: value.id.0, name: value.name, description: value.description }
    }
}

/// The client directory page's data: the signed-in operator and every
/// client row, in insertion order.
pub fn get_all_clients(db: &Database, user: UserAuthRedirect) -> (r: Result<
    (UserInfo, Vec<ClientInfo>),
    Error,
>)
    ensures
        r is Ok <==> db@.user_of(user.0.0 as int) is Some,
        r matches Err(e) ==> e == Error::Internal,
        r matches Ok((u, v)) ==> {
            &&& db@.user_of(user.0.0 as int) matches Some(uv) && u.id as int == uv.id && u.name@
                == uv.name
            &&& v@.len() == db@.clients.len()
            &&& forall|i: int|
                0 <= i < v@.len() ==> (#[trigger] v@[i]).id as int == db@.clients[i].id
                    && v@[i].name@ == db@.clients[i].name && v@[i].description@
                    == db@.clients[i].description
        },
{
    let u = match user.get_user(db) {
        None => {
            return Err(Error::Internal);
        },
        Some(u) => UserInfo::from(u),
    };
    let rows = db.get_all_clients();
    let mut out: Vec<ClientInfo> = Vec::new();
    let mut i: usize = 0;
    while i < rows.len()
        invariant
            i <= rows.len(),
            rows@.map_values(|c: TableClients| c@) == db@.clients,
            out@.len() == i,
            forall|m: int|
                0 <= m < i ==> (#[trigger] out@[m]).id as int == db@.clients[m].id
                    && out@[m].name@ == db@.clients[m].name && out@[m].description@
                    == db@.clients[m].description,
        decreases rows.len() - i,
    {
        let c = &rows[i];
        proof {
            assert(rows@[i as int]@ == db@.clients[i as int]);
        }
        out.push(
            ClientInfo { id: c.id.0, name: c.name.clone(), description: c.description.clone() },
        );
        i += 1;
    }
    Ok((u, out))
}

} // verus!
