//! The key directory page: every key with its secret material laid out for
//! the operator.

use vstd::prelude::*;

use crate::auth::UserAuthRedirect;
use crate::database::keys::TableKeys;
use crate::database::{Database, Date};
use crate::front::UserInfo;
use crate::Error;

verus! {

/// A key as the key directory page lists it: absent secrets show as empty
/// strings.
#[derive(Clone, Debug)]
pub struct KeyInfo {
    pub id: i64,
    pub name: String,
    pub description: String,
    pub secret: String,
    pub rotate_at: Option<Date>,
    pub rotate_with: String,
}

/// An optional string as the page shows it: the value, or empty.
pub open spec fn shown(o: Option<Seq<char>>) -> Seq<char> {
    match o {
        Some(s) => s,
        None => Seq::empty(),
    }
}

/// The value of an optional string, or the empty string.
fn unwrap_or_empty(o: Option<String>) -> (r: String)
    ensures
        r@ == shown(crate::database::keys::opt_str_view(o)),
{
    match o {
        Some(s) => s,
        None => String::new(),
    }
}

/// The key directory page's data: the signed-in operator and every key
/// row, in insertion order.
pub fn get_key(db: &Database, user: UserAuthRedirect) -> (r: Result<
    (UserInfo, Vec<KeyInfo>),
    Error,
>)
    ensures
        r is Ok <==> db@.user_of(user.0.0 as int) is Some,
        r matches Err(e) ==> e == Error::Internal,
        r matches Ok((u, v)) ==> {
            &&& db@.user_of(user.0.0 as int) matches Some(uv) && u.id as int == uv.id && u.name@
                == uv.name
            &&& v@.len() == db@.keys.len()
            &&& forall|i: int|
                0 <= i < v@.len() ==> {
                    &&& (#[trigger] v@[i]).id as int == db@.keys[i].id
                    &&& v@[i].name@ == db@.keys[i].name
                    &&& v@[i].description@ == db@.keys[i].description
                    &&& v@[i].secret@ == shown(db@.keys[i].key)
                    &&& v@[i].rotate_at == db@.keys[i].rotate_at
                    &&& v@[i].rotate_with@ == shown(db@.keys[i].rotate_with)
                }
        },
{
    let u = match user.get_user(db) {
        None => {
            return Err(Error::Internal);
        },
        Some(u) => UserInfo::from(u),
    };
    let rows = db.get_all_keys();
    let mut out: Vec<KeyInfo> = Vec::new();
    let mut i: usize = 0;
    while i < rows.len()
        invariant
            i <= rows.len(),
            rows@.map_values(|k: TableKeys| k@) == db@.keys,
            out@.len() == i,
            forall|m: int|
                0 <= m < i ==> {
                    &&& (#[trigger] out@[m]).id as int == db@.keys[m].id
                    &&& out@[m].name@ == db@.keys[m].name
                    &&& out@[m].description@ == db@.keys[m].description
                    &&& out@[m].secret@ == shown(db@.keys[m].key)
                    &&& out@[m].rotate_at == db@.keys[m].rotate_at
                    &&& out@[m].rotate_with@ == shown(db@.keys[m].rotate_with)
                },
        decreases rows.len() - i,
    {
        let k = &rows[i];
        proof {
            assert(rows@[i as int]@ == db@.keys[i as int]);
        }
        out.push(
            KeyInfo {
                id: k.id.0,
                name: k.name.clone(),
                description: k.description.clone(),
                secret: unwrap_or_empty(crate::database::keys::clone_opt_string(&k.key)),
                rotate_at: k.rotate_at,
                rotate_with: unwrap_or_empty(
                    crate::database::keys::clone_opt_string(&k.rotate_with),
                ),
            },
        );
        i += 1;
    }
    Ok((u, out))
}

} // verus!
