//! The keys table: named credential definitions with an optional active
//! secret and optional staged rotation material.

use vstd::prelude::*;

use crate::database::clientkeys::ClientKeyView;
use crate::database::clients::ClientId;
use crate::database::{
    assoc_key_for, by_key_id, lemma_cks_wf_frame, lemma_clients_wf_frame, lemma_users_wf_frame,
    not_ck_key, not_key_id, Database, Date, DbView,
};
use crate::rows::{
    lemma_filter_all, lemma_filter_pairwise, lemma_filter_take_step, lemma_first_match_found,
    lemma_first_match_index, lemma_first_match_none, lemma_first_match_point, lemma_take_all,
};
use crate::{tri_apply, Error, Tri};

verus! {

/// The surrogate id of a key row.
#[derive(Debug, Clone, Copy, Hash, PartialEq, Eq, Structural)]
pub struct KeyId(pub i64);

impl KeyId {
    /// The raw 64-bit value of the id.
    pub fn inner(self) -> (r: i64)
        ensures
            r == self.0,
    {
        self.0
    }
}

/// A key row.
#[derive(Debug)]
pub struct TableKeys {
    pub id: KeyId,
    pub name: String,
    pub description: String,
    /// The active secret; `None` until first issued.
    pub key: Option<String>,
    /// The scheduled rotation date, if any.
    pub rotate_at: Option<Date>,
    /// The secret that becomes the active one once rotation fires.
    pub rotate_with: Option<String>,
}

/// The mathematical content of a key row.
pub ghost struct KeyView {
    pub id: int,
    pub name: Seq<char>,
    pub description: Seq<char>,
    pub key: Option<Seq<char>>,
    pub rotate_at: Option<Date>,
    pub rotate_with: Option<Seq<char>>,
}

/// The view of an optional string.
pub open spec fn opt_str_view(o: Option<String>) -> Option<Seq<char>> {
    match o {
        Some(s) => Some(s@),
        None => None,
    }
}

impl View for TableKeys {
    type V = KeyView;

    open spec fn view(&self) -> KeyView {
        KeyView {
            id: self.id.0 as int,
            name: self.name@,
            description: self.description@,
            key: opt_str_view(self.key),
            rotate_at: self.rotate_at,
            rotate_with: opt_str_view(self.rotate_with),
        }
    }
}

/// A field-for-field copy of an optional string.
pub fn clone_opt_string(o: &Option<String>) -> (r: Option<String>)
    ensures
        opt_str_view(r) == opt_str_view(*o),
{
    match o {
        Some(s) => Some(s.clone()),
        None => None,
    }
}

/// A field-for-field copy of a key row.
pub fn clone_key_row(k: &TableKeys) -> (r: TableKeys)
    ensures
        r@ == k@,
{
    TableKeys {
        id: k.id,
        name: k.name.clone(),
        description: k.description.clone(),
        key: clone_opt_string(&k.key),
        rotate_at: k.rotate_at,
        rotate_with: clone_opt_string(&k.rotate_with),
    }
}

/// What a key row becomes once a tri-state patch of its secret material is
/// applied: the id, name and description never change.
pub open spec fn patched_key(
    k: KeyView,
    secret: Tri<String>,
    rotate_at: Tri<Date>,
    rotate_with: Tri<String>,
) -> KeyView {
    KeyView {
        key: tri_apply(secret, k.key),
        rotate_at: tri_apply(rotate_at, k.rotate_at),
        rotate_with: tri_apply(rotate_with, k.rotate_with),
        ..k
    }
}

/// Deleting a key keeps the store well formed: both filters keep rows
/// unique, and every surviving association still references its unchanged
/// client and a surviving key.
proof fn lemma_wf_after_key_delete(oldv: DbView, newv: DbView, kid: int)
    requires
        oldv.wf(),
        newv.keys == oldv.keys.filter(not_key_id(kid)),
        newv.client_keys == oldv.client_keys.filter(not_ck_key(kid)),
        newv.clients == oldv.clients,
        newv.users == oldv.users,
        newv.next_client_id == oldv.next_client_id,
        newv.next_key_id == oldv.next_key_id,
        newv.next_user_id == oldv.next_user_id,
        newv.next_client_key_id == oldv.next_client_key_id,
    ensures
        newv.wf(),
{
    let pkey = not_key_id(kid);
    let pck = not_ck_key(kid);
    lemma_clients_wf_frame(oldv, newv);
    lemma_users_wf_frame(oldv, newv);
    lemma_filter_pairwise(oldv.keys, pkey, |a: KeyView, b: KeyView| a.id != b.id);
    lemma_filter_all(oldv.keys, pkey, |k: KeyView| 1 <= k.id < oldv.next_key_id);
    lemma_filter_pairwise(oldv.client_keys, pck, |a: ClientKeyView, b: ClientKeyView| a.id != b.id);
    lemma_filter_pairwise(
        oldv.client_keys,
        pck,
        |a: ClientKeyView, b: ClientKeyView| a.client_id != b.client_id || a.key_id != b.key_id,
    );
    lemma_filter_pairwise(
        oldv.client_keys,
        pck,
        |a: ClientKeyView, b: ClientKeyView| a.secret != b.secret,
    );
    lemma_filter_all(
        oldv.client_keys,
        pck,
        |ck: ClientKeyView|
            1 <= ck.id < oldv.next_client_key_id && oldv.contains_client(ck.client_id)
                && oldv.contains_key(ck.key_id),
    );
    assert forall|i: int| 0 <= i < newv.client_keys.len() implies newv.contains_client(
        (#[trigger] newv.client_keys[i]).client_id,
    ) && newv.contains_key(newv.client_keys[i].key_id) by {
        oldv.client_keys.lemma_filter_pred(pck, i);
        let ck = newv.client_keys[i];
        assert(ck.key_id != kid);
        let j = choose|j: int|
            0 <= j < oldv.clients.len() && (#[trigger] oldv.clients[j]).id == ck.client_id;
        assert((#[trigger] newv.clients[j]).id == ck.client_id);
        let j2 = choose|j2: int| 0 <= j2 < oldv.keys.len() && (#[trigger] oldv.keys[j2]).id == ck.key_id;
        assert(pkey(oldv.keys[j2]));
        oldv.keys.lemma_filter_contains(pkey, j2);
        let m = choose|m: int| 0 <= m < newv.keys.len() && newv.keys[m] == oldv.keys[j2];
        assert((#[trigger] newv.keys[m]).id == ck.key_id);
    }
}

impl Database {
    /// Whether a key row with the given id exists.
    pub(crate) fn contains_key_id(&self, id: i64) -> (r: bool)
        ensures
            r == self@.contains_key(id as int),
    {
        let mut i: usize = 0;
        while i < self.keys.len()
            invariant
                i <= self.keys.len(),
                self@.keys.len() == self.keys.len(),
                forall|k: int| 0 <= k < i ==> (#[trigger] self@.keys[k]).id != id as int,
            decreases self.keys.len() - i,
        {
            proof {
                assert(self@.keys[i as int] == self.keys@[i as int]@);
            }
            if self.keys[i].id.0 == id {
                return true;
            }
            i += 1;
        }
        proof {
            if self@.contains_key(id as int) {
                let k = choose|k: int|
                    0 <= k < self@.keys.len() && (#[trigger] self@.keys[k]).id == id as int;
                assert(false);
            }
        }
        false
    }

    /// Inserts a key row under a fresh id.  Fails only when the id space is
    /// exhausted.
    pub fn create_key(
        &mut self,
        name: String,
        desc: String,
        key: Option<String>,
        rotate_at: Option<Date>,
        rotate_with: Option<String>,
    ) -> (r: Result<KeyId, Error>)
        requires
            old(self)@.wf(),
        ensures
            final(self)@.wf(),
            r is Ok <==> old(self)@.next_key_id < i64::MAX,
            r matches Ok(id) ==> {
                &&& id.0 as int == old(self)@.next_key_id
                &&& final(self)@.keys == old(self)@.keys.push(
                    (KeyView {
                        id: id.0 as int,
                        name: name@,
                        description: desc@,
                        key: opt_str_view(key),
                        rotate_at: rotate_at,
                        rotate_with: opt_str_view(rotate_with),
                    }),
                )
                &&& final(self)@.next_key_id == old(self)@.next_key_id + 1
            },
            r is Err ==> r == Err::<KeyId, Error>(Error::Internal) && final(self)@ == old(self)@,
            final(self)@.clients == old(self)@.clients,
            final(self)@.users == old(self)@.users,
            final(self)@.client_keys == old(self)@.client_keys,
            final(self)@.next_client_id == old(self)@.next_client_id,
            final(self)@.next_user_id == old(self)@.next_user_id,
            final(self)@.next_client_key_id == old(self)@.next_client_key_id,
    {
        if self.next_key_id == i64::MAX {
            return Err(Error::Internal);
        }
        let id = KeyId(self.next_key_id);
        let ghost kv = KeyView {
            id: self.next_key_id as int,
            name: name@,
            description: desc@,
            key: opt_str_view(key),
            rotate_at: rotate_at,
            rotate_with: opt_str_view(rotate_with),
        };
        self.next_key_id = self.next_key_id + 1;
        self.keys.push(TableKeys { id, name, description: desc, key, rotate_at, rotate_with });
        proof {
            let oldv = old(self)@;
            let newv = self@;
            assert(newv.keys =~= oldv.keys.push(kv));
            assert forall|a: int, b: int| 0 <= a < b < newv.keys.len() implies (
            #[trigger] newv.keys[a]).id != (#[trigger] newv.keys[b]).id by {
                if b < oldv.keys.len() {
                    assert(newv.keys[a] == oldv.keys[a]);
                    assert(newv.keys[b] == oldv.keys[b]);
                } else {
                    assert(newv.keys[a] == oldv.keys[a]);
                    assert(1 <= oldv.keys[a].id < oldv.next_key_id);
                }
            }
            assert forall|a: int| 0 <= a < newv.keys.len() implies 1 <= (
            #[trigger] newv.keys[a]).id < newv.next_key_id by {
                if a < oldv.keys.len() {
                    assert(newv.keys[a] == oldv.keys[a]);
                    assert(1 <= oldv.keys[a].id < oldv.next_key_id);
                }
            }
            lemma_clients_wf_frame(oldv, newv);
            lemma_users_wf_frame(oldv, newv);
            lemma_cks_wf_frame(oldv, newv);
            assert forall|i: int| 0 <= i < newv.client_keys.len() implies newv.contains_client(
                (#[trigger] newv.client_keys[i]).client_id,
            ) && newv.contains_key(newv.client_keys[i].key_id) by {
                let ck = newv.client_keys[i];
                assert(oldv.client_keys[i] == ck);
                let j = choose|j: int|
                    0 <= j < oldv.clients.len() && (#[trigger] oldv.clients[j]).id == ck.client_id;
                assert((#[trigger] newv.clients[j]).id == ck.client_id);
                let j2 = choose|j2: int|
                    0 <= j2 < oldv.keys.len() && (#[trigger] oldv.keys[j2]).id == ck.key_id;
                assert((#[trigger] newv.keys[j2]).id == ck.key_id);
            }
        }
        Ok(id)
    }

    /// The key row with the given id, if one exists.
    pub fn fetch_key(&self, key: KeyId) -> (r: Option<TableKeys>)
        ensures
            r is Some <==> self@.key_of(key.0 as int) is Some,
            r matches Some(k) ==> Some(k@) == self@.key_of(key.0 as int),
    {
        let mut i: usize = 0;
        while i < self.keys.len()
            invariant
                i <= self.keys.len(),
                self@.keys.len() == self.keys.len(),
                forall|k: int| 0 <= k < i ==> (#[trigger] self@.keys[k]).id != key.0 as int,
            decreases self.keys.len() - i,
        {
            let row = &self.keys[i];
            proof {
                assert(self@.keys[i as int] == self.keys@[i as int]@);
            }
            if row.id.0 == key.0 {
                let k = clone_key_row(row);
                proof {
                    assert(by_key_id(key.0 as int)(self@.keys[i as int]));
                    assert(forall|j: int|
                        0 <= j < i ==> !by_key_id(key.0 as int)(#[trigger] self@.keys[j]));
                    lemma_first_match_index(self@.keys, by_key_id(key.0 as int), i as int);
                }
                return Some(k);
            }
            i += 1;
        }
        proof {
            assert(forall|k: int|
                0 <= k < self@.keys.len() ==> !by_key_id(key.0 as int)(#[trigger] self@.keys[k]));
            lemma_first_match_none(self@.keys, by_key_id(key.0 as int));
        }
        None
    }

    /// Removes the key row with the given id together with every
    /// association that references it, in one atomic step.  Returns whether
    /// a key row was removed.
    pub fn remove_key(&mut self, key: KeyId) -> (r: bool)
        requires
            old(self)@.wf(),
        ensures
            final(self)@.wf(),
            r == (old(self)@.key_of(key.0 as int) is Some),
            final(self)@.keys == old(self)@.keys.filter(not_key_id(key.0 as int)),
            final(self)@.client_keys == old(self)@.client_keys.filter(not_ck_key(key.0 as int)),
            final(self)@.clients == old(self)@.clients,
            final(self)@.users == old(self)@.users,
            final(self)@.next_client_id == old(self)@.next_client_id,
            final(self)@.next_key_id == old(self)@.next_key_id,
            final(self)@.next_user_id == old(self)@.next_user_id,
            final(self)@.next_client_key_id == old(self)@.next_client_key_id,
    {
        let kid = key.0;
        let mut found = false;
        let mut kept: Vec<TableKeys> = Vec::new();
        let mut i: usize = 0;
        while i < self.keys.len()
            invariant
                i <= self.keys.len(),
                self@.keys.len() == self.keys.len(),
                kept@.map_values(|k: TableKeys| k@) == self@.keys.take(i as int).filter(
                    not_key_id(kid as int),
                ),
                found <==> exists|k: int|
                    0 <= k < i && (#[trigger] self@.keys[k]).id == kid as int,
            decreases self.keys.len() - i,
        {
            let row = &self.keys[i];
            proof {
                assert(self@.keys[i as int] == self.keys@[i as int]@);
                lemma_filter_take_step(self@.keys, not_key_id(kid as int), i as int);
            }
            if row.id.0 == kid {
                proof {
                    assert(!not_key_id(kid as int)(self@.keys[i as int]));
                }
                found = true;
            } else {
                proof {
                    assert(not_key_id(kid as int)(self@.keys[i as int]));
                }
                kept.push(clone_key_row(row));
                proof {
                    assert(kept@.map_values(|k: TableKeys| k@) =~= self@.keys.take(
                        i + 1 as int,
                    ).filter(not_key_id(kid as int)));
                }
            }
            i += 1;
        }
        let mut kept_ck: Vec<crate::database::clientkeys::TableClientsKey> = Vec::new();
        let mut j: usize = 0;
        while j < self.client_keys.len()
            invariant
                j <= self.client_keys.len(),
                self@.client_keys.len() == self.client_keys.len(),
                kept_ck@.map_values(|ck: crate::database::clientkeys::TableClientsKey| ck@)
                    == self@.client_keys.take(j as int).filter(not_ck_key(kid as int)),
            decreases self.client_keys.len() - j,
        {
            let row = &self.client_keys[j];
            proof {
                assert(self@.client_keys[j as int] == self.client_keys@[j as int]@);
                lemma_filter_take_step(self@.client_keys, not_ck_key(kid as int), j as int);
            }
            if row.key_id.0 != kid {
                proof {
                    assert(not_ck_key(kid as int)(self@.client_keys[j as int]));
                }
                kept_ck.push(crate::database::clientkeys::clone_clientkey(row));
                proof {
                    assert(kept_ck@.map_values(
                        |ck: crate::database::clientkeys::TableClientsKey| ck@,
                    ) =~= self@.client_keys.take(j + 1 as int).filter(not_ck_key(kid as int)));
                }
            } else {
                proof {
                    assert(!not_ck_key(kid as int)(self@.client_keys[j as int]));
                }
            }
            j += 1;
        }
        proof {
            lemma_take_all(self@.keys);
            lemma_take_all(self@.client_keys);
            lemma_first_match_none(self@.keys, by_key_id(kid as int));
            if found {
                let k = choose|k: int|
                    0 <= k < self@.keys.len() && (#[trigger] self@.keys[k]).id == kid as int;
                assert(by_key_id(kid as int)(self@.keys[k]));
            } else {
                assert forall|k: int| 0 <= k < self@.keys.len() implies !(by_key_id(kid as int)(
                    #[trigger] self@.keys[k],
                )) by {}
            }
        }
        self.keys = kept;
        self.client_keys = kept_ck;
        proof {
            lemma_wf_after_key_delete(old(self)@, self@, kid as int);
        }
        found
    }

    /// All key rows, in insertion order.
    pub fn get_all_keys(&self) -> (r: Vec<TableKeys>)
        ensures
            r@.map_values(|k: TableKeys| k@) == self@.keys,
    {
        let mut out: Vec<TableKeys> = Vec::new();
        let mut i: usize = 0;
        while i < self.keys.len()
            invariant
                i <= self.keys.len(),
                self@.keys.len() == self.keys.len(),
                out@.len() == i,
                forall|k: int| 0 <= k < i ==> (#[trigger] out@[k])@ == self@.keys[k],
            decreases self.keys.len() - i,
        {
            proof {
                assert(self@.keys[i as int] == self.keys@[i as int]@);
            }
            out.push(clone_key_row(&self.keys[i]));
            i += 1;
        }
        proof {
            assert(out@.map_values(|k: TableKeys| k@) =~= self@.keys);
        }
        out
    }

    /// The key rows associated with the given client, in key-table order
    /// (the inner join of keys against the association table).
    pub fn get_all_keys_from_client(&self, client: ClientId) -> (r: Vec<TableKeys>)
        ensures
            r@.map_values(|k: TableKeys| k@) == self@.keys.filter(
                assoc_key_for(self@, client.0 as int),
            ),
    {
        let cid = client.0;
        let mut out: Vec<TableKeys> = Vec::new();
        let mut i: usize = 0;
        while i < self.keys.len()
            invariant
                i <= self.keys.len(),
                self@.keys.len() == self.keys.len(),
                out@.map_values(|k: TableKeys| k@) == self@.keys.take(i as int).filter(
                    assoc_key_for(self@, cid as int),
                ),
            decreases self.keys.len() - i,
        {
            let row = &self.keys[i];
            proof {
                assert(self@.keys[i as int] == self.keys@[i as int]@);
                lemma_filter_take_step(self@.keys, assoc_key_for(self@, cid as int), i as int);
            }
            if self.contains_pair(cid, row.id.0) {
                proof {
                    assert(assoc_key_for(self@, cid as int)(self@.keys[i as int]));
                }
                out.push(clone_key_row(row));
                proof {
                    assert(out@.map_values(|k: TableKeys| k@) =~= self@.keys.take(
                        i + 1 as int,
                    ).filter(assoc_key_for(self@, cid as int)));
                }
            } else {
                proof {
                    assert(!assoc_key_for(self@, cid as int)(self@.keys[i as int]));
                }
            }
            i += 1;
        }
        proof {
            lemma_take_all(self@.keys);
        }
        out
    }

    /// Unconditionally overwrites the name and description of the key with
    /// the given id; a missing id leaves the store unchanged.
    pub fn update_key_info(&mut self, key: KeyId, name: String, desc: String)
        requires
            old(self)@.wf(),
        ensures
            final(self)@.wf(),
            final(self)@.keys.len() == old(self)@.keys.len(),
            forall|j: int|
                0 <= j < old(self)@.keys.len() && (#[trigger] old(self)@.keys[j]).id != key.0
                    as int ==> final(self)@.keys[j] == old(self)@.keys[j],
            forall|j: int|
                0 <= j < old(self)@.keys.len() && (#[trigger] old(self)@.keys[j]).id == key.0
                    as int ==> final(self)@.keys[j] == (KeyView {
                    name: name@,
                    description: desc@,
                    ..old(self)@.keys[j]
                }),
            final(self)@.key_of(key.0 as int) == match old(self)@.key_of(key.0 as int) {
                Some(k) => Some((KeyView { name: name@, description: desc@, ..k })),
                None => None,
            },
            final(self)@.clients == old(self)@.clients,
            final(self)@.users == old(self)@.users,
            final(self)@.client_keys == old(self)@.client_keys,
            final(self)@.next_client_id == old(self)@.next_client_id,
            final(self)@.next_key_id == old(self)@.next_key_id,
            final(self)@.next_user_id == old(self)@.next_user_id,
            final(self)@.next_client_key_id == old(self)@.next_client_key_id,
    {
        let kid = key.0;
        let mut out: Vec<TableKeys> = Vec::new();
        let mut i: usize = 0;
        while i < self.keys.len()
            invariant
                i <= self.keys.len(),
                self@.keys.len() == self.keys.len(),
                out@.len() == i,
                forall|k: int|
                    0 <= k < i ==> (#[trigger] out@[k])@ == (if self@.keys[k].id == kid as int {
                        (KeyView { name: name@, description: desc@, ..self@.keys[k] })
                    } else {
                        self@.keys[k]
                    }),
            decreases self.keys.len() - i,
        {
            let row = &self.keys[i];
            proof {
                assert(self@.keys[i as int] == self.keys@[i as int]@);
            }
            if row.id.0 == kid {
                out.push(
                    TableKeys {
                        id: row.id,
                        name: name.clone(),
                        description: desc.clone(),
                        key: clone_opt_string(&row.key),
                        rotate_at: row.rotate_at,
                        rotate_with: clone_opt_string(&row.rotate_with),
                    },
                );
            } else {
                out.push(clone_key_row(row));
            }
            i += 1;
        }
        self.keys = out;
        proof {
            self.lemma_key_patch_wf(
                *old(self),
                key.0 as int,
                |k: KeyView| KeyView { name: name@, description: desc@, ..k },
            );
        }
    }

    /// Applies a tri-state patch to the secret material of the key with the
    /// given id: each field is independently left unchanged, cleared, or
    /// overwritten.  A missing id leaves the store unchanged.
    pub fn update_key_secrets(
        &mut self,
        key: KeyId,
        secret: Tri<String>,
        rotate_at: Tri<Date>,
        rotate_with: Tri<String>,
    )
        requires
            old(self)@.wf(),
        ensures
            final(self)@.wf(),
            final(self)@.keys.len() == old(self)@.keys.len(),
            forall|j: int|
                0 <= j < old(self)@.keys.len() && (#[trigger] old(self)@.keys[j]).id != key.0
                    as int ==> final(self)@.keys[j] == old(self)@.keys[j],
            forall|j: int|
                0 <= j < old(self)@.keys.len() && (#[trigger] old(self)@.keys[j]).id == key.0
                    as int ==> final(self)@.keys[j] == patched_key(
                    old(self)@.keys[j],
                    secret,
                    rotate_at,
                    rotate_with,
                ),
            final(self)@.key_of(key.0 as int) == match old(self)@.key_of(key.0 as int) {
                Some(k) => Some(patched_key(k, secret, rotate_at, rotate_with)),
                None => None,
            },
            final(self)@.clients == old(self)@.clients,
            final(self)@.users == old(self)@.users,
            final(self)@.client_keys == old(self)@.client_keys,
            final(self)@.next_client_id == old(self)@.next_client_id,
            final(self)@.next_key_id == old(self)@.next_key_id,
            final(self)@.next_user_id == old(self)@.next_user_id,
            final(self)@.next_client_key_id == old(self)@.next_client_key_id,
    {
        let kid = key.0;
        let mut out: Vec<TableKeys> = Vec::new();
        let mut i: usize = 0;
        while i < self.keys.len()
            invariant
                i <= self.keys.len(),
                self@.keys.len() == self.keys.len(),
                out@.len() == i,
                forall|k: int|
                    0 <= k < i ==> (#[trigger] out@[k])@ == (if self@.keys[k].id == kid as int {
                        patched_key(self@.keys[k], secret, rotate_at, rotate_with)
                    } else {
                        self@.keys[k]
                    }),
            decreases self.keys.len() - i,
        {
            let row = &self.keys[i];
            proof {
                assert(self@.keys[i as int] == self.keys@[i as int]@);
            }
            if row.id.0 == kid {
                let nk = match &secret {
                    Tri::Absent => clone_opt_string(&row.key),
                    Tri::Null => None,
                    Tri::Value(s) => Some(s.clone()),
                };
                let na = match &rotate_at {
                    Tri::Absent => row.rotate_at,
                    Tri::Null => None,
                    Tri::Value(d) => Some(*d),
                };
                let nw = match &rotate_with {
                    Tri::Absent => clone_opt_string(&row.rotate_with),
                    Tri::Null => None,
                    Tri::Value(s) => Some(s.clone()),
                };
                out.push(
                    TableKeys {
                        id: row.id,
                        name: row.name.clone(),
                        description: row.description.clone(),
                        key: nk,
                        rotate_at: na,
                        rotate_with: nw,
                    },
                );
                proof {
                    assert(out@[i as int]@ == patched_key(
                        self@.keys[i as int],
                        secret,
                        rotate_at,
                        rotate_with,
                    ));
                }
            } else {
                out.push(clone_key_row(row));
            }
            i += 1;
        }
        self.keys = out;
        proof {
            self.lemma_key_patch_wf(
                *old(self),
                key.0 as int,
                |k: KeyView| patched_key(k, secret, rotate_at, rotate_with),
            );
        }
    }

    /// A point patch of one key row that keeps the row's id preserves every
    /// store invariant and moves the point lookup to the patched row.
    proof fn lemma_key_patch_wf(&self, pre: Database, kid: int, f: spec_fn(KeyView) -> KeyView)
        requires
            pre@.wf(),
            self@.keys.len() == pre@.keys.len(),
            forall|j: int|
                0 <= j < pre@.keys.len() ==> (#[trigger] self@.keys[j]) == (if pre@.keys[j].id
                    == kid {
                    f(pre@.keys[j])
                } else {
                    pre@.keys[j]
                }),
            forall|k: KeyView| (#[trigger] f(k)).id == k.id,
            self@.clients == pre@.clients,
            self@.users == pre@.users,
            self@.client_keys == pre@.client_keys,
            self@.next_client_id == pre@.next_client_id,
            self@.next_key_id == pre@.next_key_id,
            self@.next_user_id == pre@.next_user_id,
            self@.next_client_key_id == pre@.next_client_key_id,
        ensures
            self@.wf(),
            forall|j: int|
                0 <= j < pre@.keys.len() && (#[trigger] pre@.keys[j]).id != kid ==> self@.keys[j]
                    == pre@.keys[j],
            forall|j: int|
                0 <= j < pre@.keys.len() && (#[trigger] pre@.keys[j]).id == kid ==> self@.keys[j]
                    == f(pre@.keys[j]),
            self@.key_of(kid) == match pre@.key_of(kid) {
                Some(k) => Some(f(k)),
                None => None,
            },
    {
        let oldv = pre@;
        let newv = self@;
        assert(forall|j: int|
            0 <= j < oldv.keys.len() ==> (#[trigger] newv.keys[j]).id == oldv.keys[j].id);
        assert forall|a: int, b: int| 0 <= a < b < newv.keys.len() implies (
        #[trigger] newv.keys[a]).id != (#[trigger] newv.keys[b]).id by {
            assert(oldv.keys[a].id != oldv.keys[b].id);
        }
        assert forall|a: int| 0 <= a < newv.keys.len() implies 1 <= (#[trigger] newv.keys[a]).id
            < newv.next_key_id by {
            assert(1 <= oldv.keys[a].id < oldv.next_key_id);
        }
        crate::database::lemma_clients_wf_frame(oldv, newv);
        crate::database::lemma_users_wf_frame(oldv, newv);
        crate::database::lemma_cks_wf_frame(oldv, newv);
        assert forall|i: int| 0 <= i < newv.client_keys.len() implies newv.contains_client(
            (#[trigger] newv.client_keys[i]).client_id,
        ) && newv.contains_key(newv.client_keys[i].key_id) by {
            let ck = newv.client_keys[i];
            assert(oldv.client_keys[i] == ck);
            let j = choose|j: int|
                0 <= j < oldv.clients.len() && (#[trigger] oldv.clients[j]).id == ck.client_id;
            assert((#[trigger] newv.clients[j]).id == ck.client_id);
            let j2 = choose|j2: int|
                0 <= j2 < oldv.keys.len() && (#[trigger] oldv.keys[j2]).id == ck.key_id;
            assert((#[trigger] newv.keys[j2]).id == ck.key_id);
        }
        assert forall|a: int, b: int| 0 <= a < b < oldv.keys.len() implies !(by_key_id(kid)(
            #[trigger] oldv.keys[a],
        ) && by_key_id(kid)(#[trigger] oldv.keys[b])) by {
            assert(oldv.keys[a].id != oldv.keys[b].id);
        }
        assert(forall|j: int|
            0 <= j < oldv.keys.len() ==> (by_key_id(kid)(#[trigger] newv.keys[j]) <==> by_key_id(
                kid,
            )(#[trigger] oldv.keys[j])));
        assert(forall|j: int|
            0 <= j < oldv.keys.len() && !by_key_id(kid)(#[trigger] oldv.keys[j])
                ==> newv.keys[j] == oldv.keys[j]);
        lemma_first_match_point(oldv.keys, newv.keys, by_key_id(kid));
        if oldv.key_of(kid) is Some {
            lemma_first_match_found(oldv.keys, by_key_id(kid));
            let x = oldv.key_of(kid)->Some_0;
            let k = choose|k: int| 0 <= k < oldv.keys.len() && oldv.keys[k] == x;
            assert(by_key_id(kid)(oldv.keys[k]));
            assert(oldv.key_of(kid) == Some(oldv.keys[k]) && newv.key_of(kid) == Some(
                newv.keys[k],
            ));
            assert(newv.keys[k] == f(oldv.keys[k]));
        }
    }
}

} // verus!
