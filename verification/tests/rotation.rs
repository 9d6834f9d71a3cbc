//! The rotation engine: tri-state updates, one-shot rotation, secret
//! generation, and the validation boundary.

use credstore::api::key::{key_new, key_rotate, key_secret, key_update_secret, KeySetSecrets, NewKeyInfo};
use credstore::database::{Database, Date};
use credstore::secret::generate_secret;
use credstore::{Error, Tri};

fn new_key(db: &mut Database, name: &str) -> i64 {
    key_new(db, NewKeyInfo { name: name.to_string(), desc: "".to_string() }).unwrap()
}

fn date(year: i32, month: u8, day: u8) -> Date {
    Date { year, month, day }
}

#[test]
fn generated_secrets_are_64_lowercase_hex_and_distinct() {
    let a = generate_secret();
    let b = generate_secret();
    assert_eq!(a.len(), 64);
    assert_eq!(b.len(), 64);
    assert!(a.chars().all(|c| c.is_ascii_hexdigit() && !c.is_ascii_uppercase()));
    assert!(b.chars().all(|c| c.is_ascii_hexdigit() && !c.is_ascii_uppercase()));
    assert_ne!(a, b);
}

#[test]
fn association_secrets_and_session_tokens_never_collide_in_a_run() {
    let mut db = Database::new();
    let mut seen: Vec<String> = Vec::new();
    for i in 0..8 {
        let c = db.create_client(format!("c{i}"), "".to_string()).unwrap();
        let k = db
            .create_key(format!("k{i}"), "".to_string(), None, None, None)
            .unwrap();
        let (_, s) = db.create_clientkey(c, k).unwrap();
        assert!(!seen.contains(&s));
        seen.push(s);
        let (_, t) = db.create_user(format!("u{i}")).unwrap();
        assert!(!seen.contains(&t));
        seen.push(t);
    }
}

#[test]
fn rotation_promotes_the_staged_secret_and_clears_both_fields() {
    let mut db = Database::new();
    let id = new_key(&mut db, "billing");
    key_update_secret(
        &mut db,
        id,
        KeySetSecrets {
            secret: Tri::Value("A".to_string()),
            rotate_at: Tri::Value(date(2025, 1, 1)),
            rotate_with: Tri::Value("B".to_string()),
        },
    )
    .unwrap();

    key_rotate(&mut db, id).unwrap();

    let s = key_secret(&db, id).unwrap();
    assert_eq!(s.secret, Some("B".to_string()));
    assert_eq!(s.rotate_at, None);
    assert_eq!(s.rotate_with, None);
}

#[test]
fn rotation_without_staged_secret_empties_the_active_one() {
    let mut db = Database::new();
    let id = new_key(&mut db, "plain");
    key_update_secret(
        &mut db,
        id,
        KeySetSecrets {
            secret: Tri::Value("A".to_string()),
            rotate_at: Tri::Absent,
            rotate_with: Tri::Absent,
        },
    )
    .unwrap();
    key_rotate(&mut db, id).unwrap();
    let s = key_secret(&db, id).unwrap();
    assert_eq!(s.secret, None);
    assert_eq!(key_rotate(&mut db, 99).unwrap_err(), Error::NotFound);
}

#[test]
fn absent_field_leaves_the_secret_even_when_a_date_is_set() {
    let mut db = Database::new();
    let id = new_key(&mut db, "k");
    key_update_secret(
        &mut db,
        id,
        KeySetSecrets {
            secret: Tri::Value("S".to_string()),
            rotate_at: Tri::Absent,
            rotate_with: Tri::Value("W".to_string()),
        },
    )
    .unwrap();

    key_update_secret(
        &mut db,
        id,
        KeySetSecrets {
            secret: Tri::Absent,
            rotate_at: Tri::Value(date(2026, 3, 4)),
            rotate_with: Tri::Absent,
        },
    )
    .unwrap();
    let s = key_secret(&db, id).unwrap();
    assert_eq!(s.secret, Some("S".to_string()));
    assert_eq!(s.rotate_at, Some(date(2026, 3, 4)));
    assert_eq!(s.rotate_with, Some("W".to_string()));
}

#[test]
fn null_field_clears_the_secret_and_leaves_the_staged_one() {
    let mut db = Database::new();
    let id = new_key(&mut db, "k");
    key_update_secret(
        &mut db,
        id,
        KeySetSecrets {
            secret: Tri::Value("S".to_string()),
            rotate_at: Tri::Absent,
            rotate_with: Tri::Value("W".to_string()),
        },
    )
    .unwrap();

    key_update_secret(
        &mut db,
        id,
        KeySetSecrets { secret: Tri::Null, rotate_at: Tri::Absent, rotate_with: Tri::Absent },
    )
    .unwrap();
    let s = key_secret(&db, id).unwrap();
    assert_eq!(s.secret, None);
    assert_eq!(s.rotate_with, Some("W".to_string()));
}

#[test]
fn tri_state_update_on_missing_key_is_not_found() {
    let mut db = Database::new();
    let r = key_update_secret(
        &mut db,
        5,
        KeySetSecrets { secret: Tri::Null, rotate_at: Tri::Null, rotate_with: Tri::Null },
    );
    assert_eq!(r.unwrap_err(), Error::NotFound);
}

#[test]
fn key_names_are_validated_before_any_store_call() {
    let mut db = Database::new();
    assert!(key_new(&mut db, NewKeyInfo { name: "abc-1_2".to_string(), desc: "".to_string() })
        .is_ok());
    let r = key_new(&mut db, NewKeyInfo { name: "abc 1".to_string(), desc: "".to_string() });
    assert_eq!(r.unwrap_err(), Error::Validation);
    assert_eq!(db.get_all_keys().len(), 1);
}

#[test]
fn key_descriptions_are_bounded_at_1024_scalars() {
    let mut db = Database::new();
    let exactly = "x".repeat(1024);
    assert!(key_new(&mut db, NewKeyInfo { name: "a".to_string(), desc: exactly }).is_ok());
    let over = "x".repeat(1025);
    let r = key_new(&mut db, NewKeyInfo { name: "b".to_string(), desc: over });
    assert_eq!(r.unwrap_err(), Error::Validation);
    let unicode = "\u{e9}".repeat(1024);
    assert!(key_new(&mut db, NewKeyInfo { name: "c".to_string(), desc: unicode }).is_ok());
    assert_eq!(db.get_all_keys().len(), 2);
}

#[test]
fn hex_encoding_is_exact() {
    let bytes = vec![0x00u8, 0x0f, 0xa5, 0xff];
    assert_eq!(credstore::secret::to_hex(&bytes), "000fa5ff");
    let empty: Vec<u8> = Vec::new();
    assert_eq!(credstore::secret::to_hex(&empty), "");
}
