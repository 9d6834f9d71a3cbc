//! Client endpoints: create, inspect, update and delete clients, and
//! manage the secrets they share with keys.

use vstd::prelude::*;

use crate::database::clients::{ClientId, TableClients};
use crate::database::{assoc_key_for, not_ck_client, not_client_id, Database, Date};
use crate::database::clients::ClientView;
use crate::Error;

verus! {

/// A client as the endpoints report it.
#[derive(Clone, Debug)]
pub struct ClientInfo {
    pub id: i64,
    pub desc: String,
    pub name: String,
}

impl From<TableClients> for ClientInfo {
    fn from(v: TableClients) -> (r: Self) {
        ClientInfo { id: v.id.0, name: v.name, desc: v.description }
    }
}

impl vstd::std_specs::convert::FromSpecImpl<TableClients> for ClientInfo {
    open spec fn obeys_from_spec() -> bool {
        true
    }

    open spec fn from_spec(v: TableClients) -> Self {
        ClientInfo { id: v.id.0, name: v.name, desc: v.description }
    }
}

/// A client as the endpoints accept it: the id is the store's to assign.
#[derive(Clone, Debug)]
pub struct ClientInfoNoId {
    pub name: String,
    pub desc: String,
}

/// A key as the client's key-listing endpoint reports it.
#[derive(Clone, Debug)]
pub struct KeyInfo {
    pub id: i64,
    pub name: String,
    pub desc: String,
    pub update_at: Option<Date>,
}

/// Creates a client and returns its raw id.
pub fn client_new(db: &mut Database, new_info: ClientInfoNoId) -> (r: Result<i64, Error>)
    requires
        old(db)@.wf(),
    ensures
        final(db)@.wf(),
        r is Ok <==> old(db)@.next_client_id < i64::MAX,
        r matches Ok(id) ==> {
            &&& id as int == old(db)@.next_client_id
            &&& final(db)@.clients == old(db)@.clients.push(
                (ClientView {
                    id: id as int,
                    name: new_info.name@,
                    description: new_info.desc@,
                }),
            )
            &&& final(db)@.next_client_id == old(db)@.next_client_id + 1
        },
        r is Err ==> r == Err::<i64, Error>(Error::Internal) && final(db)@ == old(db)@,
        final(db)@.keys == old(db)@.keys,
        final(db)@.users == old(db)@.users,
        final(db)@.client_keys == old(db)@.client_keys,
{
    match db.create_client(new_info.name, new_info.desc) {
        Ok(id) => Ok(id.inner()),
        Err(e) => Err(e),
    }
}

/// The client with the given raw id; `NotFound` when it does not exist.
pub fn client_info(db: &Database, client: i64) -> (r: Result<ClientInfo, Error>)
    ensures
        r is Ok <==> db@.client_of(client as int) is Some,
        r matches Ok(ci) ==> db@.client_of(client as int) matches Some(c) && ci.id as int == c.id
            && ci.name@ == c.name && ci.desc@ == c.description,
        r matches Err(e) ==> e == Error::NotFound,
{
    match super::utils::client_from_raw(db, client) {
        None => Err(Error::NotFound),
        Some(c) => Ok(ClientInfo::from(c)),
    }
}

/// Overwrites the name and description of the client with the given raw
/// id; `NotFound` when it does not exist.
pub fn client_set_info(db: &mut Database, client: i64, info: ClientInfoNoId) -> (r: Result<
    (),
    Error,
>)
    requires
        old(db)@.wf(),
    ensures
        final(db)@.wf(),
        r is Ok <==> old(db)@.client_of(client as int) is Some,
        r matches Err(e) ==> e == Error::NotFound && final(db)@ == old(db)@,
        r is Ok ==> (final(db)@.client_of(client as int) matches Some(c) && old(db)@.client_of(
            client as int,
        ) matches Some(oc) && c == (ClientView {
            name: info.name@,
            description: info.desc@,
            ..oc
        })),
        r is Ok ==> final(db)@.clients.len() == old(db)@.clients.len() && forall|j: int|
            0 <= j < old(db)@.clients.len() && (#[trigger] old(db)@.clients[j]).id != client
                as int ==> final(db)@.clients[j] == old(db)@.clients[j],
        final(db)@.keys == old(db)@.keys,
        final(db)@.users == old(db)@.users,
        final(db)@.client_keys == old(db)@.client_keys,
{
    let found = match super::utils::client_from_raw(db, client) {
        None => false,
        Some(_) => true,
    };
    if !found {
        return Err(Error::NotFound);
    }
    db.update_client_info(ClientId(client), info.name, info.desc);
    Ok(())
}

/// The keys associated with the client with the given raw id, in key-table
/// order; `NotFound` when the client does not exist.
pub fn client_list_keys(db: &Database, client: i64) -> (r: Result<Vec<KeyInfo>, Error>)
    ensures
        r is Ok <==> db@.client_of(client as int) is Some,
        r matches Err(e) ==> e == Error::NotFound,
        r matches Ok(v) ==> {
            &&& v@.len() == db@.keys.filter(assoc_key_for(db@, client as int)).len()
            &&& forall|i: int|
                0 <= i < v@.len() ==> {
                    let k = db@.keys.filter(assoc_key_for(db@, client as int))[i];
                    &&& (#[trigger] v@[i]).id as int == k.id
                    &&& v@[i].name@ == k.name
                    &&& v@[i].desc@ == k.description
                    &&& v@[i].update_at == k.rotate_at
                }
        },
{
    let found = match super::utils::client_from_raw(db, client) {
        None => false,
        Some(_) => true,
    };
    if !found {
        return Err(Error::NotFound);
    }
    let keys = db.get_all_keys_from_client(ClientId(client));
    let ghost filtered = db@.keys.filter(assoc_key_for(db@, client as int));
    let mut out: Vec<KeyInfo> = Vec::new();
    let mut i: usize = 0;
    while i < keys.len()
        invariant
            i <= keys.len(),
            keys@.map_values(|k: crate::database::keys::TableKeys| k@) == filtered,
            out@.len() == i,
            forall|m: int|
                0 <= m < i ==> {
                    &&& (#[trigger] out@[m]).id as int == filtered[m].id
                    &&& out@[m].name@ == filtered[m].name
                    &&& out@[m].desc@ == filtered[m].description
                    &&& out@[m].update_at == filtered[m].rotate_at
                },
        decreases keys.len() - i,
    {
        let k = &keys[i];
        proof {
            assert(keys@[i as int]@ == filtered[i as int]);
        }
        out.push(
            KeyInfo {
                id: k.id.0,
                name: k.name.clone(),
                desc: k.description.clone(),
                update_at: k.rotate_at,
            },
        );
        i += 1;
    }
    Ok(out)
}

/// Deletes the client with the given raw id together with all its
/// associations; `NotFound` when it does not exist.
pub fn client_delete(db: &mut Database, client: i64) -> (r: Result<(), Error>)
    requires
        old(db)@.wf(),
    ensures
        final(db)@.wf(),
        r is Ok <==> old(db)@.client_of(client as int) is Some,
        r matches Err(e) ==> e == Error::NotFound && final(db)@ == old(db)@,
        r is Ok ==> final(db)@.clients == old(db)@.clients.filter(not_client_id(client as int))
            && final(db)@.client_keys == old(db)@.client_keys.filter(
            not_ck_client(client as int),
        ),
        final(db)@.keys == old(db)@.keys,
        final(db)@.users == old(db)@.users,
{
    let found = match super::utils::client_from_raw(db, client) {
        None => false,
        Some(_) => true,
    };
    if !found {
        return Err(Error::NotFound);
    }
    db.remove_client(ClientId(client));
    Ok(())
}

/// Deletes the association between the given raw client and key ids;
/// `NotFound` when they are not associated.
pub fn client_delete_key(db: &mut Database, client: i64, key: i64) -> (r: Result<(), Error>)
    requires
        old(db)@.wf(),
    ensures
        final(db)@.wf(),
        r is Ok <==> old(db)@.ck_of_pair(client as int, key as int) is Some,
        r matches Err(e) ==> e == Error::NotFound && final(db)@ == old(db)@,
        r is Ok ==> (old(db)@.ck_of_pair(client as int, key as int) matches Some(ck) && final(db)@.client_keys == old(db)@.client_keys.filter(
            crate::database::not_ck_id(ck.id),
        )),
        final(db)@.clients == old(db)@.clients,
        final(db)@.keys == old(db)@.keys,
        final(db)@.users == old(db)@.users,
{
    let k = match super::utils::clientkey_from_client_and_key(db, client, key) {
        None => {
            return Err(Error::NotFound);
        },
        Some(k) => k,
    };
    db.remove_clientkey(k.id);
    Ok(())
}

/// The secret bound to the association between the given raw client and
/// key ids; `NotFound` when they are not associated.
pub fn client_get_secret(db: &Database, client: i64, key: i64) -> (r: Result<String, Error>)
    ensures
        r is Ok <==> db@.ck_of_pair(client as int, key as int) is Some,
        r matches Ok(s) ==> db@.ck_of_pair(client as int, key as int) matches Some(ck) && s@
            == ck.secret,
        r matches Err(e) ==> e == Error::NotFound,
{
    match super::utils::clientkey_from_client_and_key(db, client, key) {
        None => Err(Error::NotFound),
        Some(ck) => Ok(ck.secret),
    }
}

/// Replaces the secret of the association between the given raw client and
/// key ids with a freshly generated one and returns it; `NotFound` when
/// they are not associated.  Only the one association row changes, so a
/// lookup by the replaced secret no longer resolves afterwards.
pub fn client_new_secret(db: &mut Database, client: i64, key: i64) -> (r: Result<String, Error>)
    requires
        old(db)@.wf(),
    ensures
        final(db)@.wf(),
        r is Err ==> final(db)@ == old(db)@,
        r == Err::<String, Error>(Error::NotFound) <==> old(db)@.ck_of_pair(
            client as int,
            key as int,
        ) is None,
        r matches Err(e) ==> e == Error::NotFound || e == Error::Conflict,
        r == Err::<String, Error>(Error::Conflict) ==> old(db)@.ck_of_pair(
            client as int,
            key as int,
        ) is Some,
        r matches Ok(s) ==> {
            &&& crate::secret::is_hex64(s@)
            &&& !old(db)@.secret_in_use(s@)
            &&& old(db)@.ck_of_pair(client as int, key as int) is Some
            &&& final(db)@.ck_of_secret(s@) is Some
            &&& final(db)@.client_keys.len() == old(db)@.client_keys.len()
        },
        // the one association row is rewritten; every other row is untouched
        r matches Ok(s) ==> (old(db)@.ck_of_pair(client as int, key as int) matches Some(ck)
            ==> {
            &&& final(db)@.ck_of(ck.id) == Some(
                (crate::database::clientkeys::ClientKeyView { secret: s@, ..ck }),
            )
            &&& forall|j: int|
                0 <= j < old(db)@.client_keys.len() && (#[trigger] old(db)@.client_keys[j]).id
                    != ck.id ==> final(db)@.client_keys[j] == old(db)@.client_keys[j]
            &&& forall|j: int|
                0 <= j < old(db)@.client_keys.len() && (#[trigger] old(db)@.client_keys[j]).id
                    == ck.id ==> final(db)@.client_keys[j] == (
                crate::database::clientkeys::ClientKeyView {
                    secret: s@,
                    ..old(db)@.client_keys[j]
                })
        }),
        final(db)@.clients == old(db)@.clients,
        final(db)@.keys == old(db)@.keys,
        final(db)@.users == old(db)@.users,
{
    let ck = match super::utils::clientkey_from_client_and_key(db, client, key) {
        None => {
            return Err(Error::NotFound);
        },
        Some(ck) => ck,
    };
    proof {
        crate::rows::lemma_first_match_found(
            old(db)@.client_keys,
            crate::database::by_ck_pair(client as int, key as int),
        );
        crate::database::lemma_ck_id_lookup(old(db)@, ck@);
    }
    match db.update_client_secret(ck.id) {
        Err(e) => Err(e),
        Ok(None) => {
            proof {
                assert(false);
            }
            Err(Error::NotFound)
        },
        Ok(Some(s)) => Ok(s),
    }
}

} // verus!
