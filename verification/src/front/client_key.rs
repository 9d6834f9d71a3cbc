//! One client's key page: the associations the client holds, with their
//! secrets, and the keys it could still be associated with.

use vstd::prelude::*;

use crate::auth::UserAuthRedirect;
use crate::database::keys::{KeyView, TableKeys};
use crate::database::{assoc_key_for, unassoc_key_for, Database, Date, DbView};
use crate::front::UserInfo;
use crate::rows::{lemma_filter_take_step, lemma_take_all};
use crate::Error;

verus! {

/// One association the client holds, joined with the key it references.
#[derive(Clone, Debug)]
pub struct AssocKeyInfo {
    pub id: i64,
    pub k_id: i64,
    pub k_name: String,
    pub k_desc: String,
    pub secret: String,
    pub last_used: Option<Date>,
}

/// The mathematical content of one joined association.
pub ghost struct AssocKeyView {
    pub id: int,
    pub k_id: int,
    pub k_name: Seq<char>,
    pub k_desc: Seq<char>,
    pub secret: Seq<char>,
    pub last_used: Option<Date>,
}

impl View for AssocKeyInfo {
    type V = AssocKeyView;

    open spec fn view(&self) -> AssocKeyView {
        AssocKeyView {
            id: self.id as int,
            k_id: self.k_id as int,
            k_name: self.k_name@,
            k_desc: self.k_desc@,
            secret: self.secret@,
            last_used: self.last_used,
        }
    }
}

/// A key the client is not yet associated with, as the page lists it.
#[derive(Clone, Debug)]
pub struct KeyInfo {
    pub id: i64,
    pub name: String,
}

/// What the page shows for a key the client holds: the association's id
/// and secret joined with the key's name and description.
pub open spec fn assoc_view(db: DbView, cid: int, k: KeyView) -> AssocKeyView {
    let ck = db.ck_of_pair(cid, k.id)->Some_0;
    AssocKeyView {
        id: ck.id,
        k_id: k.id,
        k_name: k.name,
        k_desc: k.description,
        secret: ck.secret,
        last_used: ck.last_used,
    }
}

/// Everything one client's key page renders.
#[derive(Clone, Debug)]
pub struct ClientKeyPage {
    pub user: UserInfo,
    pub client: crate::api::client::ClientInfo,
    pub own_keys: Vec<AssocKeyInfo>,
    pub not_own_keys: Vec<KeyInfo>,
}

/// One client's key page: the signed-in operator, the client, the keys the
/// client holds (each joined with its association), and the keys it does
/// not, both in key-table order.
pub fn get_client_key(db: &Database, user: UserAuthRedirect, cid: i64) -> (r: Result<
    ClientKeyPage,
    Error,
>)
    requires
        db@.wf(),
    ensures
        r matches Err(e) ==> e == Error::Internal || e == Error::NotFound,
        db@.user_of(user.0.0 as int) is None <==> r == Err::<ClientKeyPage, Error>(
            Error::Internal,
        ),
        db@.user_of(user.0.0 as int) is Some && db@.client_of(cid as int) is None <==> r == Err::<
            ClientKeyPage,
            Error,
        >(Error::NotFound),
        r matches Ok(page) ==> {
            &&& db@.user_of(user.0.0 as int) matches Some(uv) && page.user.id as int == uv.id
                && page.user.name@ == uv.name
            &&& db@.client_of(cid as int) matches Some(cv) && page.client.id as int == cv.id
                && page.client.name@ == cv.name && page.client.desc@ == cv.description
            &&& page.own_keys@.len() == db@.keys.filter(assoc_key_for(db@, cid as int)).len()
            &&& forall|i: int|
                0 <= i < page.own_keys@.len() ==> (#[trigger] page.own_keys@[i])@ == assoc_view(
                    db@,
                    cid as int,
                    db@.keys.filter(assoc_key_for(db@, cid as int))[i],
                )
            &&& page.not_own_keys@.len() == db@.keys.filter(
                unassoc_key_for(db@, cid as int),
            ).len()
            &&& forall|i: int|
                0 <= i < page.not_own_keys@.len() ==> (#[trigger] page.not_own_keys@[i]).id
                    as int == db@.keys.filter(unassoc_key_for(db@, cid as int))[i].id
                    && page.not_own_keys@[i].name@ == db@.keys.filter(
                    unassoc_key_for(db@, cid as int),
                )[i].name
        },
{
    let u = match user.get_user(db) {
        None => {
            return Err(Error::Internal);
        },
        Some(u) => UserInfo::from(u),
    };
    let client = match crate::api::utils::client_from_raw(db, cid) {
        None => {
            return Err(Error::NotFound);
        },
        Some(c) => crate::api::client::ClientInfo::from(c),
    };
    let owned = db.get_all_keys_from_client(crate::database::clients::ClientId(cid));
    let ghost fown = db@.keys.filter(assoc_key_for(db@, cid as int));
    let mut own_keys: Vec<AssocKeyInfo> = Vec::new();
    let mut i: usize = 0;
    while i < owned.len()
        invariant
            db@.wf(),
            i <= owned.len(),
            owned@.map_values(|k: TableKeys| k@) == fown,
            fown == db@.keys.filter(assoc_key_for(db@, cid as int)),
            own_keys@.len() == i,
            forall|m: int|
                0 <= m < i ==> (#[trigger] own_keys@[m])@ == assoc_view(
                    db@,
                    cid as int,
                    fown[m],
                ),
        decreases owned.len() - i,
    {
        let k = &owned[i];
        proof {
            assert(owned@[i as int]@ == fown[i as int]);
            db@.keys.lemma_filter_pred(assoc_key_for(db@, cid as int), i as int);
            assert(db@.has_pair(cid as int, k@.id));
        }
        let ck = match db.fetch_client_key_from_client_and_key(
            crate::database::clients::ClientId(cid),
            k.id,
        ) {
            None => {
                proof {
                    assert(false);
                }
                return Err(Error::Internal);
            },
            Some(ck) => ck,
        };
        own_keys.push(
            AssocKeyInfo {
                id: ck.id.0,
                k_id: k.id.0,
                k_name: k.name.clone(),
                k_desc: k.description.clone(),
                secret: ck.secret,
                last_used: ck.last_used,
            },
        );
        i += 1;
    }
    let all = db.get_all_keys();
    let mut not_own_keys: Vec<KeyInfo> = Vec::new();
    let mut j: usize = 0;
    while j < all.len()
        invariant
            j <= all.len(),
            all@.map_values(|k: TableKeys| k@) == db@.keys,
            not_own_keys@.len() == db@.keys.take(j as int).filter(
                unassoc_key_for(db@, cid as int),
            ).len(),
            forall|m: int|
                0 <= m < not_own_keys@.len() ==> (#[trigger] not_own_keys@[m]).id as int
                    == db@.keys.take(j as int).filter(unassoc_key_for(db@, cid as int))[m].id
                    && not_own_keys@[m].name@ == db@.keys.take(j as int).filter(
                    unassoc_key_for(db@, cid as int),
                )[m].name,
        decreases all.len() - j,
    {
        let k = &all[j];
        proof {
            assert(all@[j as int]@ == db@.keys[j as int]);
            lemma_filter_take_step(db@.keys, unassoc_key_for(db@, cid as int), j as int);
        }
        if !db.contains_pair(cid, k.id.0) {
            proof {
                assert(unassoc_key_for(db@, cid as int)(db@.keys[j as int]));
            }
            not_own_keys.push(KeyInfo { id: k.id.0, name: k.name.clone() });
        } else {
            proof {
                assert(!unassoc_key_for(db@, cid as int)(db@.keys[j as int]));
            }
        }
        j += 1;
    }
    proof {
        lemma_take_all(db@.keys);
    }
    Ok(ClientKeyPage { user: u, client, own_keys, not_own_keys })
}

} // verus!
