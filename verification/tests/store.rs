//! The credential store: creation, lookup, update, deletion and the
//! cascades that keep the relational model consistent.

use credstore::api;
use credstore::database::clientkeys::ClientKeyId;
use credstore::database::clients::ClientId;
use credstore::database::keys::KeyId;
use credstore::database::users::UserId;
use credstore::database::{Database, Date};
use credstore::Error;

fn date(year: i32, month: u8, day: u8) -> Date {
    Date { year, month, day }
}

#[test]
fn client_roundtrip() {
    let mut db = Database::new();
    let id = db.create_client("acme".to_string(), "a partner".to_string()).unwrap();
    assert_eq!(id.inner(), 1);
    let c = db.fetch_client(id).unwrap();
    assert_eq!(c.name, "acme");
    assert_eq!(c.description, "a partner");
    assert_eq!(c.id.inner(), 1);
    assert!(db.fetch_client(ClientId(42)).is_none());
}

#[test]
fn fetch_is_idempotent() {
    let mut db = Database::new();
    let id = db.create_client("acme".to_string(), "desc".to_string()).unwrap();
    let a = db.fetch_client(id).unwrap();
    let b = db.fetch_client(id).unwrap();
    assert_eq!(a.id.inner(), b.id.inner());
    assert_eq!(a.name, b.name);
    assert_eq!(a.description, b.description);

    let kid = db
        .create_key("k".to_string(), "d".to_string(), Some("s".to_string()), None, None)
        .unwrap();
    let ka = db.fetch_key(kid).unwrap();
    let kb = db.fetch_key(kid).unwrap();
    assert_eq!(ka.id.inner(), kb.id.inner());
    assert_eq!(ka.name, kb.name);
    assert_eq!(ka.key, kb.key);
    assert_eq!(ka.rotate_at, kb.rotate_at);
    assert_eq!(ka.rotate_with, kb.rotate_with);
}

#[test]
fn ids_are_never_reused() {
    let mut db = Database::new();
    let a = db.create_client("a".to_string(), "".to_string()).unwrap();
    assert!(db.remove_client(a));
    let b = db.create_client("b".to_string(), "".to_string()).unwrap();
    assert_ne!(a.inner(), b.inner());
    assert_eq!(b.inner(), 2);
}

#[test]
fn duplicate_association_conflicts_and_first_stays() {
    let mut db = Database::new();
    let c = db.create_client("acme".to_string(), "".to_string()).unwrap();
    let k = db
        .create_key("billing".to_string(), "".to_string(), None, None, None)
        .unwrap();
    let (first_id, first_secret) = db.create_clientkey(c, k).unwrap();
    let second = db.create_clientkey(c, k);
    assert_eq!(second.unwrap_err(), Error::Conflict);
    let row = db.fetch_client_key_from_client_and_key(c, k).unwrap();
    assert_eq!(row.id.inner(), first_id.inner());
    assert_eq!(row.secret, first_secret);
    assert!(row.last_used.is_none());
}

#[test]
fn association_requires_existing_rows() {
    let mut db = Database::new();
    let c = db.create_client("acme".to_string(), "".to_string()).unwrap();
    assert_eq!(db.create_clientkey(c, KeyId(9)).unwrap_err(), Error::NotFound);
    assert_eq!(db.create_clientkey(ClientId(9), KeyId(9)).unwrap_err(), Error::NotFound);
}

#[test]
fn deleting_a_key_cascades_exactly() {
    let mut db = Database::new();
    let c = db.create_client("c".to_string(), "".to_string()).unwrap();
    let k1 = db.create_key("k1".to_string(), "".to_string(), None, None, None).unwrap();
    let k2 = db.create_key("k2".to_string(), "".to_string(), None, None, None).unwrap();
    db.create_clientkey(c, k1).unwrap();
    db.create_clientkey(c, k2).unwrap();

    assert!(db.remove_key(k1));
    assert!(db.fetch_client_key_from_client_and_key(c, k1).is_none());
    assert!(db.fetch_client_key_from_client_and_key(c, k2).is_some());
    assert!(db.fetch_key(k1).is_none());
    assert!(db.fetch_key(k2).is_some());
}

#[test]
fn deleting_a_client_cascades_exactly() {
    let mut db = Database::new();
    let c = db.create_client("c".to_string(), "".to_string()).unwrap();
    let k1 = db.create_key("k1".to_string(), "".to_string(), None, None, None).unwrap();
    let k2 = db.create_key("k2".to_string(), "".to_string(), None, None, None).unwrap();
    db.create_clientkey(c, k1).unwrap();
    db.create_clientkey(c, k2).unwrap();

    assert!(db.remove_client(c));
    assert!(db.fetch_client_key_from_client_and_key(c, k1).is_none());
    assert!(db.fetch_client_key_from_client_and_key(c, k2).is_none());
    assert!(db.fetch_key(k1).is_some());
    assert!(db.fetch_key(k2).is_some());
    assert!(db.fetch_client(c).is_none());
}

#[test]
fn bulk_cascade_helpers_report_counts() {
    let mut db = Database::new();
    let c1 = db.create_client("c1".to_string(), "".to_string()).unwrap();
    let c2 = db.create_client("c2".to_string(), "".to_string()).unwrap();
    let k = db.create_key("k".to_string(), "".to_string(), None, None, None).unwrap();
    db.create_clientkey(c1, k).unwrap();
    db.create_clientkey(c2, k).unwrap();
    assert_eq!(db.delete_all_with_client_id(c1), 1);
    assert_eq!(db.delete_all_with_key_id(k), 1);
    assert_eq!(db.delete_all_with_key_id(k), 0);
}

#[test]
fn remove_clientkey_removes_one_row() {
    let mut db = Database::new();
    let c = db.create_client("c".to_string(), "".to_string()).unwrap();
    let k = db.create_key("k".to_string(), "".to_string(), None, None, None).unwrap();
    let (id, _) = db.create_clientkey(c, k).unwrap();
    assert!(db.remove_clientkey(id));
    assert!(!db.remove_clientkey(id));
    assert!(db.fetch_client_key(id).is_none());
    assert!(!db.remove_clientkey(ClientKeyId(7)));
}

#[test]
fn update_key_info_overwrites_names() {
    let mut db = Database::new();
    let k = db.create_key("old".to_string(), "d".to_string(), None, None, None).unwrap();
    db.update_key_info(k, "new".to_string(), "d2".to_string());
    let row = db.fetch_key(k).unwrap();
    assert_eq!(row.name, "new");
    assert_eq!(row.description, "d2");
}

#[test]
fn update_client_info_overwrites_names() {
    let mut db = Database::new();
    let c = db.create_client("old".to_string(), "d".to_string()).unwrap();
    db.update_client_info(c, "new".to_string(), "d2".to_string());
    let row = db.fetch_client(c).unwrap();
    assert_eq!(row.name, "new");
    assert_eq!(row.description, "d2");
}

#[test]
fn last_used_is_set_to_a_plausible_date() {
    let mut db = Database::new();
    let c = db.create_client("c".to_string(), "".to_string()).unwrap();
    let k = db.create_key("k".to_string(), "".to_string(), None, None, None).unwrap();
    let (id, _) = db.create_clientkey(c, k).unwrap();
    assert!(db.update_client_key_last_used(id));
    let row = db.fetch_client_key(id).unwrap();
    let d = row.last_used.unwrap();
    assert!((1..=12).contains(&d.month));
    assert!((1..=31).contains(&d.day));
    assert!(!db.update_client_key_last_used(ClientKeyId(99)));
}

#[test]
fn set_last_used_stores_the_given_date() {
    let mut db = Database::new();
    let c = db.create_client("c".to_string(), "".to_string()).unwrap();
    let k = db.create_key("k".to_string(), "".to_string(), None, None, None).unwrap();
    let (id, secret) = db.create_clientkey(c, k).unwrap();
    assert!(db.set_client_key_last_used(id, date(2024, 6, 30)));
    let row = db.fetch_client_key(id).unwrap();
    assert_eq!(row.last_used, Some(date(2024, 6, 30)));
    assert_eq!(row.secret, secret);
}

#[test]
fn users_roundtrip_and_tokens_resolve() {
    let mut db = Database::new();
    let (id, token) = db.create_user("pat@example.org".to_string()).unwrap();
    assert_eq!(id.inner(), 1);
    let row = db.fetch_user(id).unwrap();
    assert_eq!(row.name, "pat@example.org");
    assert_eq!(row.token, token);
    assert_eq!(db.get_user_from_token(token.clone()).unwrap().inner(), 1);
    let by_name = db.get_user_from_name("pat@example.org".to_string()).unwrap();
    assert_eq!(by_name.id.inner(), 1);
    assert!(db.get_user_from_name("nobody".to_string()).is_none());
    assert!(db.remove_user(id));
    assert!(!db.remove_user(id));
    assert!(db.get_user_from_token(token).is_none());
}

#[test]
fn insert_user_with_used_token_conflicts() {
    let mut db = Database::new();
    let id = db
        .insert_user_with_token("a".to_string(), "tok".to_string())
        .unwrap();
    assert_eq!(id.inner(), 1);
    let again = db.insert_user_with_token("b".to_string(), "tok".to_string());
    assert_eq!(again.unwrap_err(), Error::Conflict);
    assert!(db.get_user_from_name("b".to_string()).is_none());
}

#[test]
fn rotate_secret_invalidates_the_old_one() {
    let mut db = Database::new();
    let c = db.create_client("acme".to_string(), "".to_string()).unwrap();
    let k = db.create_key("billing".to_string(), "".to_string(), None, None, None).unwrap();
    let (id, s1) = db.create_clientkey(c, k).unwrap();
    let looked = db.get_client_key_from_secret(s1.clone()).unwrap();
    assert_eq!(looked.id.inner(), id.inner());
    assert_eq!(looked.client_id.inner(), c.inner());
    assert_eq!(looked.key_id.inner(), k.inner());

    let s2 = db.update_client_secret(id).unwrap().unwrap();
    assert_ne!(s1, s2);
    assert!(db.get_client_key_from_secret(s1).is_none());
    let found = db.get_client_key_from_secret(s2.clone()).unwrap();
    assert_eq!(found.id.inner(), id.inner());
    assert_eq!(db.update_client_secret(ClientKeyId(99)).unwrap(), None);
}

#[test]
fn get_all_keys_and_join() {
    let mut db = Database::new();
    let c = db.create_client("c".to_string(), "".to_string()).unwrap();
    let k1 = db.create_key("k1".to_string(), "".to_string(), None, None, None).unwrap();
    let _k2 = db.create_key("k2".to_string(), "".to_string(), None, None, None).unwrap();
    db.create_clientkey(c, k1).unwrap();
    let all = db.get_all_keys();
    assert_eq!(all.len(), 2);
    assert_eq!(all[0].name, "k1");
    assert_eq!(all[1].name, "k2");
    let joined = db.get_all_keys_from_client(c);
    assert_eq!(joined.len(), 1);
    assert_eq!(joined[0].name, "k1");
    let none = db.get_all_keys_from_client(ClientId(9));
    assert!(none.is_empty());
}

#[test]
fn api_lookup_errors_are_not_found() {
    let db = Database::new();
    assert_eq!(api::client::client_info(&db, 1).unwrap_err(), Error::NotFound);
    assert_eq!(api::key::key_info(&db, 1).unwrap_err(), Error::NotFound);
    assert_eq!(api::client::client_get_secret(&db, 1, 1).unwrap_err(), Error::NotFound);
    assert!(credstore::api::utils::user_from_raw(&db, 3).is_none());
    assert!(credstore::api::utils::clientkey_from_raw(&db, 3).is_none());
    let _ = UserId(3);
}

#[test]
fn status_codes_match_the_taxonomy() {
    assert_eq!(Error::NotFound.to_status(), 404);
    assert_eq!(Error::Conflict.to_status(), 409);
    assert_eq!(Error::Validation.to_status(), 400);
    assert_eq!(Error::Unauthenticated.to_status(), 403);
    assert_eq!(Error::Internal.to_status(), 500);
}
