//! Lookups by raw 64-bit ids, as the endpoints receive them on the wire.

use vstd::prelude::*;

use crate::database::clientkeys::{ClientKeyId, TableClientsKey};
use crate::database::clients::{ClientId, TableClients};
use crate::database::keys::{KeyId, TableKeys};
use crate::database::users::{TableUsers, UserId};
use crate::database::Database;

verus! {

/// The client row with the given raw id, if one exists.
pub fn client_from_raw(db: &Database, client: i64) -> (r: Option<TableClients>)
    ensures
        r is Some <==> db@.client_of(client as int) is Some,
        r matches Some(c) ==> Some(c@) == db@.client_of(client as int),
{
    db.fetch_client(ClientId(client))
}

/// The user row with the given raw id, if one exists.
pub fn user_from_raw(db: &Database, user: i64) -> (r: Option<TableUsers>)
    ensures
        r is Some <==> db@.user_of(user as int) is Some,
        r matches Some(u) ==> Some(u@) == db@.user_of(user as int),
{
    db.fetch_user(UserId(user))
}

/// The key row with the given raw id, if one exists.
pub fn key_from_raw(db: &Database, key: i64) -> (r: Option<TableKeys>)
    ensures
        r is Some <==> db@.key_of(key as int) is Some,
        r matches Some(k) ==> Some(k@) == db@.key_of(key as int),
{
    db.fetch_key(KeyId(key))
}

/// The association row with the given raw id, if one exists.
pub fn clientkey_from_raw(db: &Database, clientkey: i64) -> (r: Option<TableClientsKey>)
    ensures
        r is Some <==> db@.ck_of(clientkey as int) is Some,
        r matches Some(ck) ==> Some(ck@) == db@.ck_of(clientkey as int),
{
    db.fetch_client_key(ClientKeyId(clientkey))
}

/// The association row binding the given raw client and key ids, if one
/// exists.
pub fn clientkey_from_client_and_key(db: &Database, client: i64, key: i64) -> (r: Option<
    TableClientsKey,
>)
    ensures
        r is Some <==> db@.ck_of_pair(client as int, key as int) is Some,
        r matches Some(ck) ==> Some(ck@) == db@.ck_of_pair(client as int, key as int),
{
    db.fetch_client_key_from_client_and_key(ClientId(client), KeyId(key))
}

} // verus!
