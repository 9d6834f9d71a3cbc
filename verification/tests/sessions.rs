//! The session authenticator, the federated-login decisions, the pages,
//! and the end-to-end credential lifecycle.

use credstore::api;
use credstore::auth::{
    authenticate, callback_begin, callback_finish, name_to_user_token, optional_decision,
    redirect_decision, require_auth, session_decision, AuthOutcome, CallbackStep,
    CookieDirective, UserAuthRedirect,
};
use credstore::database::users::UserId;
use credstore::database::Database;
use credstore::front;
use credstore::Error;

#[test]
fn a_valid_token_authenticates_and_keeps_the_cookie() {
    let mut db = Database::new();
    let (id, token) = db.create_user("pat@example.org".to_string()).unwrap();
    let d = authenticate(&db, Some(token));
    match d.outcome {
        AuthOutcome::Authenticated(got) => assert_eq!(got.inner(), id.inner()),
        _ => panic!("expected an authenticated outcome"),
    }
    assert_eq!(d.cookie, CookieDirective::Keep);
    let strict = require_auth(d).unwrap();
    assert_eq!(strict.get_id().inner(), id.inner());
    assert_eq!(strict.get_user(&db).unwrap().name, "pat@example.org");
}

#[test]
fn an_unregistered_token_is_rejected_and_the_cookie_cleared() {
    let mut db = Database::new();
    db.create_user("pat@example.org".to_string()).unwrap();
    let bogus = "0".repeat(64);
    let d = authenticate(&db, Some(bogus));
    assert_eq!(d.outcome, AuthOutcome::Rejected);
    assert_eq!(d.cookie, CookieDirective::Clear);
    assert_eq!(require_auth(d).unwrap_err(), Error::Unauthenticated);
}

#[test]
fn a_missing_cookie_is_rejected() {
    let db = Database::new();
    let d = authenticate(&db, None);
    assert_eq!(d.outcome, AuthOutcome::Rejected);
    assert_eq!(d.cookie, CookieDirective::Clear);
}

#[test]
fn a_store_failure_keeps_the_cookie_and_is_internal() {
    let d = session_decision(true, Err(Error::Internal));
    assert_eq!(d.outcome, AuthOutcome::Failed);
    assert_eq!(d.cookie, CookieDirective::Keep);
    assert_eq!(require_auth(d).unwrap_err(), Error::Internal);
    assert_eq!(optional_decision(d).unwrap_err(), Error::Internal);
}

#[test]
fn optional_auth_collapses_rejection_into_no_identity() {
    let db = Database::new();
    let d = authenticate(&db, None);
    assert_eq!(optional_decision(d).unwrap(), None);
}

#[test]
fn redirecting_auth_sends_failures_to_the_login_page() {
    let db = Database::new();
    let d = authenticate(&db, Some("nope".to_string()));
    let (cookie, target) = redirect_decision(d).unwrap_err();
    assert_eq!(cookie, CookieDirective::Clear);
    assert_eq!(target, "/auth/login");

    let mut db = Database::new();
    let (id, token) = db.create_user("pat".to_string()).unwrap();
    let ok = redirect_decision(authenticate(&db, Some(token))).unwrap();
    assert_eq!(ok.get_id().inner(), id.inner());
}

#[test]
fn name_to_user_token_finds_or_creates() {
    let mut db = Database::new();
    let t1 = name_to_user_token(&mut db, "pat@example.org".to_string()).unwrap();
    let t2 = name_to_user_token(&mut db, "pat@example.org".to_string()).unwrap();
    assert_eq!(t1, t2);
    let t3 = name_to_user_token(&mut db, "sam@example.org".to_string()).unwrap();
    assert_ne!(t1, t3);
    assert_eq!(db.get_all_clients().len(), 0);
    assert_eq!(db.get_user_from_token(t1).unwrap().inner(), 1);
    assert_eq!(db.get_user_from_token(t3).unwrap().inner(), 2);
}

#[test]
fn callback_decisions_follow_the_flow() {
    let none = callback_begin(None, Some("v".to_string()));
    assert!(matches!(none, CallbackStep::AbortHome));
    let missing = callback_begin(Some("code".to_string()), None);
    assert!(matches!(missing, CallbackStep::MissingVerifier));
    match callback_begin(Some("code".to_string()), Some("v".to_string())) {
        CallbackStep::Exchange { code, verifier } => {
            assert_eq!(code, "code");
            assert_eq!(verifier, "v");
        },
        _ => panic!("expected an exchange"),
    }

    let mut db = Database::new();
    assert_eq!(callback_finish(&mut db, None).unwrap_err(), Error::Internal);
    let t = callback_finish(&mut db, Some("pat@example.org".to_string())).unwrap();
    let d = authenticate(&db, Some(t));
    assert!(matches!(d.outcome, AuthOutcome::Authenticated(_)));
}

#[test]
fn pages_show_the_operator_and_the_rows() {
    let mut db = Database::new();
    let (uid, _) = db.create_user("pat".to_string()).unwrap();
    let me = UserAuthRedirect(uid);
    let c = db.create_client("acme".to_string(), "partner".to_string()).unwrap();
    let k1 = db.create_key("k1".to_string(), "".to_string(), None, None, None).unwrap();
    let _k2 = db.create_key("k2".to_string(), "".to_string(), None, None, None).unwrap();
    let (ckid, secret) = db.create_clientkey(c, k1).unwrap();

    let info = front::index::get_index(&db, me).unwrap();
    assert_eq!(info.name, "pat");
    assert_eq!(info.id, uid.inner());

    let (_, clients) = front::client_all::get_all_clients(&db, me).unwrap();
    assert_eq!(clients.len(), 1);
    assert_eq!(clients[0].name, "acme");

    let (_, keys) = front::key::get_key(&db, me).unwrap();
    assert_eq!(keys.len(), 2);
    assert_eq!(keys[0].secret, "");

    let page = front::client_key::get_client_key(&db, me, c.inner()).unwrap();
    assert_eq!(page.client.name, "acme");
    assert_eq!(page.own_keys.len(), 1);
    assert_eq!(page.own_keys[0].id, ckid.inner());
    assert_eq!(page.own_keys[0].k_name, "k1");
    assert_eq!(page.own_keys[0].secret, secret);
    assert_eq!(page.not_own_keys.len(), 1);
    assert_eq!(page.not_own_keys[0].name, "k2");

    assert_eq!(
        front::client_key::get_client_key(&db, me, 99).unwrap_err(),
        Error::NotFound
    );
    let gone_user = UserAuthRedirect(UserId(42));
    assert_eq!(front::index::get_index(&db, gone_user).unwrap_err(), Error::Internal);
}

#[test]
fn end_to_end_lifecycle() {
    let mut db = Database::new();
    let client = api::client::client_new(
        &mut db,
        api::client::ClientInfoNoId { name: "acme".to_string(), desc: "".to_string() },
    )
    .unwrap();
    let key = api::key::key_new(
        &mut db,
        api::key::NewKeyInfo { name: "billing".to_string(), desc: "".to_string() },
    )
    .unwrap();
    let (_, s1) = db
        .create_clientkey(
            credstore::database::clients::ClientId(client),
            credstore::database::keys::KeyId(key),
        )
        .unwrap();

    let by_s1 = db.get_client_key_from_secret(s1.clone()).unwrap();
    assert_eq!(by_s1.client_id.inner(), client);
    assert_eq!(by_s1.key_id.inner(), key);
    assert_eq!(api::client::client_get_secret(&db, client, key).unwrap(), s1);

    let s2 = api::client::client_new_secret(&mut db, client, key).unwrap();
    assert_ne!(s1, s2);
    assert!(db.get_client_key_from_secret(s1).is_none());
    let by_s2 = db.get_client_key_from_secret(s2).unwrap();
    assert_eq!(by_s2.client_id.inner(), client);
    assert_eq!(by_s2.key_id.inner(), key);

    let listed = api::client::client_list_keys(&db, client).unwrap();
    assert_eq!(listed.len(), 1);
    assert_eq!(listed[0].name, "billing");
    api::client::client_delete(&mut db, client).unwrap();
    assert_eq!(
        api::client::client_list_keys(&db, client).unwrap_err(),
        Error::NotFound
    );
}

#[test]
fn api_updates_and_deletes() {
    let mut db = Database::new();
    let c = api::client::client_new(
        &mut db,
        api::client::ClientInfoNoId { name: "a".to_string(), desc: "b".to_string() },
    )
    .unwrap();
    api::client::client_set_info(
        &mut db,
        c,
        api::client::ClientInfoNoId { name: "a2".to_string(), desc: "b2".to_string() },
    )
    .unwrap();
    let info = api::client::client_info(&db, c).unwrap();
    assert_eq!(info.name, "a2");
    assert_eq!(info.desc, "b2");

    let k = api::key::key_new(
        &mut db,
        api::key::NewKeyInfo { name: "k".to_string(), desc: "d".to_string() },
    )
    .unwrap();
    api::key::key_set_info(
        &mut db,
        k,
        api::key::KeyInfoUpdate { name: "k2".to_string(), desc: "d2".to_string() },
    )
    .unwrap();
    let ki = api::key::key_info(&db, k).unwrap();
    assert_eq!(ki.name, "k2");
    assert!(!ki.has_key);
    assert!(!ki.has_rotate_key);
    assert_eq!(ki.rotate_at, None);

    db.create_clientkey(
        credstore::database::clients::ClientId(c),
        credstore::database::keys::KeyId(k),
    )
    .unwrap();
    api::client::client_delete_key(&mut db, c, k).unwrap();
    assert_eq!(
        api::client::client_delete_key(&mut db, c, k).unwrap_err(),
        Error::NotFound
    );
    api::key::key_delete(&mut db, k).unwrap();
    assert_eq!(api::key::key_delete(&mut db, k).unwrap_err(), Error::NotFound);
}

#[test]
fn logout_clears_every_cookie_and_touches_nothing_else() {
    let (names, msg) = credstore::auth::logout(vec!["session".to_string(), "pkce".to_string()]);
    assert_eq!(names, vec!["session".to_string(), "pkce".to_string()]);
    assert_eq!(msg, "Logged out");
}
