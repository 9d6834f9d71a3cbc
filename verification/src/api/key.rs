//! Key endpoints: create, inspect, update, rotate and delete keys, and the
//! validation applied before any mutation reaches the store.

use vstd::prelude::*;
use vstd::string::StrSliceExecFns;

use crate::database::keys::{opt_str_view, patched_key, KeyId, KeyView, TableKeys};
use crate::database::{not_ck_key, not_key_id, Database, Date};
use crate::{Error, Tri};

verus! {

/// A key as the endpoints report it: the secret material itself is only
/// flagged, never included.
#[derive(Clone, Debug)]
pub struct KeyInfo {
    pub name: String,
    pub desc: String,
    pub has_key: bool,
    pub rotate_at: Option<Date>,
    pub has_rotate_key: bool,
}

/// A key as the creation endpoint accepts it.
#[derive(Clone, Debug)]
pub struct NewKeyInfo {
    pub name: String,
    pub desc: String,
}

/// A tri-state patch of a key's secret material: each field is
/// independently left untouched, cleared, or set.
#[derive(Clone, Debug)]
pub struct KeySetSecrets {
    pub secret: Tri<String>,
    pub rotate_at: Tri<Date>,
    pub rotate_with: Tri<String>,
}

/// A key's secret material as the secret endpoint reports it.
#[derive(Clone, Debug)]
pub struct KeyGetSecrets {
    pub secret: Option<String>,
    pub rotate_at: Option<Date>,
    pub rotate_with: Option<String>,
}

/// New non-secret fields for a key.
#[derive(Clone, Debug)]
pub struct KeyInfoUpdate {
    pub name: String,
    pub desc: String,
}

/// A character a key name may consist of: ASCII alphanumeric, `_` or `-`.
pub open spec fn key_name_char(c: char) -> bool {
    ||| ('a' <= c && c <= 'z')
    ||| ('A' <= c && c <= 'Z')
    ||| ('0' <= c && c <= '9')
    ||| c == '_'
    ||| c == '-'
}

/// A valid key name consists only of ASCII alphanumerics, `_` and `-`.
pub open spec fn valid_key_name(s: Seq<char>) -> bool {
    forall|i: int| 0 <= i < s.len() ==> key_name_char(#[trigger] s[i])
}

/// A valid key description holds at most 1024 Unicode scalar values.
pub open spec fn valid_key_desc(s: Seq<char>) -> bool {
    s.len() <= 1024
}

/// Whether the given name is acceptable for a new key.
pub fn check_key_name(name: &str) -> (r: bool)
    ensures
        r == valid_key_name(name@),
{
    let n = name.unicode_len();
    let mut i: usize = 0;
    while i < n
        invariant
            i <= n,
            n == name@.len(),
            forall|k: int| 0 <= k < i ==> key_name_char(#[trigger] name@[k]),
        decreases n - i,
    {
        let c = name.get_char(i);
        let ok = ('a' <= c && c <= 'z') || ('A' <= c && c <= 'Z') || ('0' <= c && c <= '9') || c
            == '_' || c == '-';
        if !ok {
            return false;
        }
        i += 1;
    }
    true
}

/// Whether the given description is acceptable for a new key.
pub fn check_key_desc(desc: &str) -> (r: bool)
    ensures
        r == valid_key_desc(desc@),
{
    desc.unicode_len() <= 1024
}

/// The non-secret fields of the key with the given raw id; `NotFound` when
/// it does not exist.
pub fn key_info(db: &Database, key: i64) -> (r: Result<KeyInfo, Error>)
    ensures
        r is Ok <==> db@.key_of(key as int) is Some,
        r matches Ok(ki) ==> db@.key_of(key as int) matches Some(k) && ki.name@ == k.name
            && ki.desc@ == k.description && ki.has_key == (k.key is Some) && ki.rotate_at
            == k.rotate_at && ki.has_rotate_key == (k.rotate_with is Some),
        r matches Err(e) ==> e == Error::NotFound,
{
    match super::utils::key_from_raw(db, key) {
        None => Err(Error::NotFound),
        Some(k) => Ok(
            KeyInfo {
                name: k.name,
                desc: k.description,
                has_key: k.key.is_some(),
                rotate_at: k.rotate_at,
                has_rotate_key: k.rotate_with.is_some(),
            },
        ),
    }
}

/// Overwrites the name and description of the key with the given raw id;
/// `NotFound` when it does not exist.
pub fn key_set_info(db: &mut Database, key: i64, update: KeyInfoUpdate) -> (r: Result<(), Error>)
    requires
        old(db)@.wf(),
    ensures
        final(db)@.wf(),
        r is Ok <==> old(db)@.key_of(key as int) is Some,
        r matches Err(e) ==> e == Error::NotFound && final(db)@ == old(db)@,
        r is Ok ==> (final(db)@.key_of(key as int) matches Some(k) && old(db)@.key_of(
            key as int,
        ) matches Some(ok) && k == (KeyView {
            name: update.name@,
            description: update.desc@,
            ..ok
        })),
        r is Ok ==> final(db)@.keys.len() == old(db)@.keys.len() && forall|j: int|
            0 <= j < old(db)@.keys.len() && (#[trigger] old(db)@.keys[j]).id != key as int
                ==> final(db)@.keys[j] == old(db)@.keys[j],
        final(db)@.clients == old(db)@.clients,
        final(db)@.users == old(db)@.users,
        final(db)@.client_keys == old(db)@.client_keys,
{
    let found = match super::utils::key_from_raw(db, key) {
        None => false,
        Some(_) => true,
    };
    if !found {
        return Err(Error::NotFound);
    }
    db.update_key_info(KeyId(key), update.name, update.desc);
    Ok(())
}

/// Deletes the key with the given raw id together with all its
/// associations; `NotFound` when it does not exist.
pub fn key_delete(db: &mut Database, key: i64) -> (r: Result<(), Error>)
    requires
        old(db)@.wf(),
    ensures
        final(db)@.wf(),
        r is Ok <==> old(db)@.key_of(key as int) is Some,
        r matches Err(e) ==> e == Error::NotFound && final(db)@ == old(db)@,
        r is Ok ==> final(db)@.keys == old(db)@.keys.filter(not_key_id(key as int)) && final(db)@.client_keys == old(db)@.client_keys.filter(not_ck_key(key as int)),
        final(db)@.clients == old(db)@.clients,
        final(db)@.users == old(db)@.users,
{
    let found = match super::utils::key_from_raw(db, key) {
        None => false,
        Some(_) => true,
    };
    if !found {
        return Err(Error::NotFound);
    }
    db.delete_all_with_key_id(KeyId(key));
    db.remove_key(KeyId(key));
    proof {
        let p = not_ck_key(key as int);
        let mid = old(db)@.client_keys.filter(p);
        assert forall|i: int| 0 <= i < mid.len() implies p(#[trigger] mid[i]) by {
            old(db)@.client_keys.lemma_filter_pred(p, i);
        }
        lemma_filter_of_all(mid, p);
    }
    Ok(())
}

/// Promotes the staged rotation secret of the key with the given raw id
/// into its active secret and clears both rotation fields, in one step;
/// `NotFound` when the key does not exist.  A key without a staged secret
/// still rotates, ending with no active secret.
pub fn key_rotate(db: &mut Database, key: i64) -> (r: Result<(), Error>)
    requires
        old(db)@.wf(),
    ensures
        final(db)@.wf(),
        r is Ok <==> old(db)@.key_of(key as int) is Some,
        r matches Err(e) ==> e == Error::NotFound && final(db)@ == old(db)@,
        r is Ok ==> (final(db)@.key_of(key as int) matches Some(k) && old(db)@.key_of(
            key as int,
        ) matches Some(ok) && k == (KeyView {
            key: ok.rotate_with,
            rotate_at: None,
            rotate_with: None,
            ..ok
        })),
        r is Ok ==> final(db)@.keys.len() == old(db)@.keys.len() && forall|j: int|
            0 <= j < old(db)@.keys.len() && (#[trigger] old(db)@.keys[j]).id != key as int
                ==> final(db)@.keys[j] == old(db)@.keys[j],
        final(db)@.clients == old(db)@.clients,
        final(db)@.users == old(db)@.users,
        final(db)@.client_keys == old(db)@.client_keys,
{
    let k = match super::utils::key_from_raw(db, key) {
        None => {
            return Err(Error::NotFound);
        },
        Some(k) => k,
    };
    let staged: Tri<String> = match k.rotate_with {
        Some(s) => Tri::Value(s),
        None => Tri::Null,
    };
    db.update_key_secrets(KeyId(key), staged, Tri::Null, Tri::Null);
    Ok(())
}

/// Applies a tri-state patch to the secret material of the key with the
/// given raw id; `NotFound` when the key does not exist.
pub fn key_update_secret(db: &mut Database, key: i64, update: KeySetSecrets) -> (r: Result<
    (),
    Error,
>)
    requires
        old(db)@.wf(),
    ensures
        final(db)@.wf(),
        r is Ok <==> old(db)@.key_of(key as int) is Some,
        r matches Err(e) ==> e == Error::NotFound && final(db)@ == old(db)@,
        r is Ok ==> (final(db)@.key_of(key as int) matches Some(k) && old(db)@.key_of(
            key as int,
        ) matches Some(ok) && k == patched_key(ok, update.secret, update.rotate_at, update.rotate_with)),
        r is Ok ==> final(db)@.keys.len() == old(db)@.keys.len() && forall|j: int|
            0 <= j < old(db)@.keys.len() && (#[trigger] old(db)@.keys[j]).id != key as int
                ==> final(db)@.keys[j] == old(db)@.keys[j],
        final(db)@.clients == old(db)@.clients,
        final(db)@.users == old(db)@.users,
        final(db)@.client_keys == old(db)@.client_keys,
{
    let found = match super::utils::key_from_raw(db, key) {
        None => false,
        Some(_) => true,
    };
    if !found {
        return Err(Error::NotFound);
    }
    db.update_key_secrets(KeyId(key), update.secret, update.rotate_at, update.rotate_with);
    Ok(())
}

/// The secret material of the key with the given raw id; `NotFound` when
/// it does not exist.
pub fn key_secret(db: &Database, key: i64) -> (r: Result<KeyGetSecrets, Error>)
    ensures
        r is Ok <==> db@.key_of(key as int) is Some,
        r matches Ok(ks) ==> db@.key_of(key as int) matches Some(k) && opt_str_view(ks.secret)
            == k.key && ks.rotate_at == k.rotate_at && opt_str_view(ks.rotate_with)
            == k.rotate_with,
        r matches Err(e) ==> e == Error::NotFound,
{
    match super::utils::key_from_raw(db, key) {
        None => Err(Error::NotFound),
        Some(k) => Ok(
            KeyGetSecrets { secret: k.key, rotate_at: k.rotate_at, rotate_with: k.rotate_with },
        ),
    }
}

/// Creates a key with no secret material after validating its name and
/// description, and returns its raw id.  An invalid name or description is
/// rejected with `Validation` before any store mutation.
pub fn key_new(db: &mut Database, info: NewKeyInfo) -> (r: Result<i64, Error>)
    requires
        old(db)@.wf(),
    ensures
        final(db)@.wf(),
        !(valid_key_name(info.name@) && valid_key_desc(info.desc@)) ==> r == Err::<i64, Error>(
            Error::Validation,
        ) && final(db)@ == old(db)@,
        valid_key_name(info.name@) && valid_key_desc(info.desc@) ==> {
            &&& (r is Ok <==> old(db)@.next_key_id < i64::MAX)
            &&& (r is Err ==> r == Err::<i64, Error>(Error::Internal) && final(db)@ == old(db)@)
            &&& (r matches Ok(id) ==> {
                &&& id as int == old(db)@.next_key_id
                &&& final(db)@.keys == old(db)@.keys.push(
                    (KeyView {
                        id: id as int,
                        name: info.name@,
                        description: info.desc@,
                        key: None,
                        rotate_at: None,
                        rotate_with: None,
                    }),
                )
                &&& final(db)@.next_key_id == old(db)@.next_key_id + 1
            })
        },
        final(db)@.clients == old(db)@.clients,
        final(db)@.users == old(db)@.users,
        final(db)@.client_keys == old(db)@.client_keys,
{
    if !check_key_name(info.name.as_str()) {
        return Err(Error::Validation);
    }
    if !check_key_desc(info.desc.as_str()) {
        return Err(Error::Validation);
    }
    match db.create_key(info.name, info.desc, None, None, None) {
        Ok(id) => Ok(id.inner()),
        Err(e) => Err(e),
    }
}

/// Filtering with a predicate every element already satisfies changes
/// nothing.
proof fn lemma_filter_of_all<A>(s: Seq<A>, p: spec_fn(A) -> bool)
    requires
        forall|i: int| 0 <= i < s.len() ==> p(#[trigger] s[i]),
    ensures
        s.filter(p) =~= s,
    decreases s.len(),
{
    reveal(Seq::filter);
    if s.len() > 0 {
        assert(forall|i: int|
            0 <= i < s.drop_last().len() ==> p(#[trigger] s.drop_last()[i]));
        lemma_filter_of_all(s.drop_last(), p);
    }
}

} // verus!
