//! The client-key association table: the shared secret binding one client
//! to one key.

use vstd::prelude::*;

use crate::database::clients::ClientId;
use crate::database::keys::KeyId;
use crate::database::{
    by_ck_id, by_ck_pair, by_ck_secret, lemma_clients_wf_frame, lemma_keys_wf_frame,
    lemma_users_wf_frame, not_ck_client, not_ck_key, not_ck_id, Database, Date, DbView,
};
use crate::rows::{
    lemma_filter_all, lemma_filter_pairwise, lemma_filter_take_step, lemma_first_match_found,
    lemma_first_match_index, lemma_first_match_none, lemma_first_match_point, lemma_take_all,
};
use crate::secret::{generate_secret, is_hex64};
use crate::Error;

verus! {

/// The surrogate id of an association row.
#[derive(Debug, Clone, Copy, Hash, PartialEq, Eq, Structural)]
pub struct ClientKeyId(pub i64);

impl ClientKeyId {
    /// The raw 64-bit value of the id.
    pub fn inner(self) -> (r: i64)
        ensures
            r == self.0,
    {
        self.0
    }
}

/// An association row.
#[derive(Debug)]
pub struct TableClientsKey {
    pub id: ClientKeyId,
    pub client_id: ClientId,
    pub key_id: KeyId,
    pub secret: String,
    pub last_used: Option<Date>,
}

/// The mathematical content of an association row.
pub ghost struct ClientKeyView {
    pub id: int,
    pub client_id: int,
    pub key_id: int,
    pub secret: Seq<char>,
    pub last_used: Option<Date>,
}

impl View for TableClientsKey {
    type V = ClientKeyView;

    open spec fn view(&self) -> ClientKeyView {
        ClientKeyView {
            id: self.id.0 as int,
            client_id: self.client_id.0 as int,
            key_id: self.key_id.0 as int,
            secret: self.secret@,
            last_used: self.last_used,
        }
    }
}

/// A field-for-field copy of an association row.
pub fn clone_clientkey(ck: &TableClientsKey) -> (r: TableClientsKey)
    ensures
        r@ == ck@,
{
    TableClientsKey {
        id: ck.id,
        client_id: ck.client_id,
        key_id: ck.key_id,
        secret: ck.secret.clone(),
        last_used: ck.last_used,
    }
}

/// Deleting association rows keeps the store well formed: the filter keeps
/// rows unique, and the referenced clients and keys are untouched.
proof fn lemma_wf_after_ck_filter(oldv: DbView, newv: DbView, p: spec_fn(ClientKeyView) -> bool)
    requires
        oldv.wf(),
        newv.client_keys == oldv.client_keys.filter(p),
        newv.clients == oldv.clients,
        newv.keys == oldv.keys,
        newv.users == oldv.users,
        newv.next_client_id == oldv.next_client_id,
        newv.next_key_id == oldv.next_key_id,
        newv.next_user_id == oldv.next_user_id,
        newv.next_client_key_id == oldv.next_client_key_id,
    ensures
        newv.wf(),
{
    lemma_clients_wf_frame(oldv, newv);
    lemma_keys_wf_frame(oldv, newv);
    lemma_users_wf_frame(oldv, newv);
    lemma_filter_pairwise(oldv.client_keys, p, |a: ClientKeyView, b: ClientKeyView| a.id != b.id);
    lemma_filter_pairwise(
        oldv.client_keys,
        p,
        |a: ClientKeyView, b: ClientKeyView| a.client_id != b.client_id || a.key_id != b.key_id,
    );
    lemma_filter_pairwise(
        oldv.client_keys,
        p,
        |a: ClientKeyView, b: ClientKeyView| a.secret != b.secret,
    );
    lemma_filter_all(
        oldv.client_keys,
        p,
        |ck: ClientKeyView|
            1 <= ck.id < oldv.next_client_key_id && oldv.contains_client(ck.client_id)
                && oldv.contains_key(ck.key_id),
    );
    assert forall|i: int| 0 <= i < newv.client_keys.len() implies newv.contains_client(
        (#[trigger] newv.client_keys[i]).client_id,
    ) && newv.contains_key(newv.client_keys[i].key_id) by {
        let ck = newv.client_keys[i];
        let j = choose|j: int|
            0 <= j < oldv.clients.len() && (#[trigger] oldv.clients[j]).id == ck.client_id;
        assert((#[trigger] newv.clients[j]).id == ck.client_id);
        let j2 = choose|j2: int| 0 <= j2 < oldv.keys.len() && (#[trigger] oldv.keys[j2]).id == ck.key_id;
        assert((#[trigger] newv.keys[j2]).id == ck.key_id);
    }
}

impl Database {
    /// A point patch of one association row that keeps the row's id, client
    /// and key preserves every store invariant (given that secrets stay
    /// unique) and moves the point lookup to the patched row.
    proof fn lemma_ck_patch_wf(
        &self,
        pre: Database,
        ckid: int,
        f: spec_fn(ClientKeyView) -> ClientKeyView,
    )
        requires
            pre@.wf(),
            self@.client_keys.len() == pre@.client_keys.len(),
            forall|j: int|
                0 <= j < pre@.client_keys.len() ==> (#[trigger] self@.client_keys[j]) == (if pre@.client_keys[j].id
                    == ckid {
                    f(pre@.client_keys[j])
                } else {
                    pre@.client_keys[j]
                }),
            forall|ck: ClientKeyView|
                (#[trigger] f(ck)).id == ck.id && f(ck).client_id == ck.client_id && f(ck).key_id
                    == ck.key_id,
            forall|i: int, j: int|
                0 <= i < j < self@.client_keys.len() ==> (
                #[trigger] self@.client_keys[i]).secret != (
                #[trigger] self@.client_keys[j]).secret,
            self@.clients == pre@.clients,
            self@.keys == pre@.keys,
            self@.users == pre@.users,
            self@.next_client_id == pre@.next_client_id,
            self@.next_key_id == pre@.next_key_id,
            self@.next_user_id == pre@.next_user_id,
            self@.next_client_key_id == pre@.next_client_key_id,
        ensures
            self@.wf(),
            forall|j: int|
                0 <= j < pre@.client_keys.len() && (#[trigger] pre@.client_keys[j]).id != ckid
                    ==> self@.client_keys[j] == pre@.client_keys[j],
            forall|j: int|
                0 <= j < pre@.client_keys.len() && (#[trigger] pre@.client_keys[j]).id == ckid
                    ==> self@.client_keys[j] == f(pre@.client_keys[j]),
            self@.ck_of(ckid) == match pre@.ck_of(ckid) {
                Some(ck) => Some(f(ck)),
                None => None,
            },
    {
        let oldv = pre@;
        let newv = self@;
        assert(forall|j: int|
            0 <= j < oldv.client_keys.len() ==> (#[trigger] newv.client_keys[j]).id
                == oldv.client_keys[j].id && newv.client_keys[j].client_id
                == oldv.client_keys[j].client_id && newv.client_keys[j].key_id
                == oldv.client_keys[j].key_id);
        assert forall|a: int, b: int| 0 <= a < b < newv.client_keys.len() implies (
        #[trigger] newv.client_keys[a]).id != (#[trigger] newv.client_keys[b]).id && (
        newv.client_keys[a].client_id != newv.client_keys[b].client_id
            || newv.client_keys[a].key_id != newv.client_keys[b].key_id) by {
            assert(oldv.client_keys[a].id != oldv.client_keys[b].id);
            assert(oldv.client_keys[a].client_id != oldv.client_keys[b].client_id
                || oldv.client_keys[a].key_id != oldv.client_keys[b].key_id);
        }
        assert forall|a: int| 0 <= a < newv.client_keys.len() implies 1 <= (
        #[trigger] newv.client_keys[a]).id < newv.next_client_key_id by {
            assert(1 <= oldv.client_keys[a].id < oldv.next_client_key_id);
        }
        lemma_clients_wf_frame(oldv, newv);
        lemma_keys_wf_frame(oldv, newv);
        lemma_users_wf_frame(oldv, newv);
        assert forall|i: int| 0 <= i < newv.client_keys.len() implies newv.contains_client(
            (#[trigger] newv.client_keys[i]).client_id,
        ) && newv.contains_key(newv.client_keys[i].key_id) by {
            let ck = newv.client_keys[i];
            assert(ck.client_id == oldv.client_keys[i].client_id);
            let j = choose|j: int|
                0 <= j < oldv.clients.len() && (#[trigger] oldv.clients[j]).id
                    == oldv.client_keys[i].client_id;
            assert((#[trigger] newv.clients[j]).id == ck.client_id);
            let j2 = choose|j2: int|
                0 <= j2 < oldv.keys.len() && (#[trigger] oldv.keys[j2]).id
                    == oldv.client_keys[i].key_id;
            assert((#[trigger] newv.keys[j2]).id == ck.key_id);
        }
        assert forall|a: int, b: int| 0 <= a < b < oldv.client_keys.len() implies !(by_ck_id(ckid)(
            #[trigger] oldv.client_keys[a],
        ) && by_ck_id(ckid)(#[trigger] oldv.client_keys[b])) by {
            assert(oldv.client_keys[a].id != oldv.client_keys[b].id);
        }
        assert(forall|j: int|
            0 <= j < oldv.client_keys.len() ==> (by_ck_id(ckid)(#[trigger] newv.client_keys[j])
                <==> by_ck_id(ckid)(#[trigger] oldv.client_keys[j])));
        assert(forall|j: int|
            0 <= j < oldv.client_keys.len() && !by_ck_id(ckid)(#[trigger] oldv.client_keys[j])
                ==> newv.client_keys[j] == oldv.client_keys[j]);
        lemma_first_match_point(oldv.client_keys, newv.client_keys, by_ck_id(ckid));
        if oldv.ck_of(ckid) is Some {
            lemma_first_match_found(oldv.client_keys, by_ck_id(ckid));
            let x = oldv.ck_of(ckid)->Some_0;
            let k = choose|k: int| 0 <= k < oldv.client_keys.len() && oldv.client_keys[k] == x;
            assert(by_ck_id(ckid)(oldv.client_keys[k]));
            assert(oldv.ck_of(ckid) == Some(oldv.client_keys[k]) && newv.ck_of(ckid) == Some(
                newv.client_keys[k],
            ));
            assert(newv.client_keys[k] == f(oldv.client_keys[k]));
        }
    }

    /// Whether some association row carries the given secret.
    pub(crate) fn secret_is_in_use(&self, secret: &String) -> (r: bool)
        ensures
            r == self@.secret_in_use(secret@),
    {
        let mut i: usize = 0;
        while i < self.client_keys.len()
            invariant
                i <= self.client_keys.len(),
                self@.client_keys.len() == self.client_keys.len(),
                forall|k: int| 0 <= k < i ==> (#[trigger] self@.client_keys[k]).secret != secret@,
            decreases self.client_keys.len() - i,
        {
            let row = &self.client_keys[i];
            proof {
                assert(self@.client_keys[i as int] == self.client_keys@[i as int]@);
            }
            if row.secret == *secret {
                proof {
                    assert(by_ck_secret(secret@)(self@.client_keys[i as int]));
                    assert(forall|k: int|
                        0 <= k < i ==> !by_ck_secret(secret@)(#[trigger] self@.client_keys[k]));
                    lemma_first_match_index(self@.client_keys, by_ck_secret(secret@), i as int);
                }
                return true;
            }
            i += 1;
        }
        proof {
            assert(forall|k: int|
                0 <= k < self@.client_keys.len() ==> !by_ck_secret(secret@)(
                    #[trigger] self@.client_keys[k],
                ));
            lemma_first_match_none(self@.client_keys, by_ck_secret(secret@));
        }
        false
    }

    /// Whether the given client and key are associated.
    pub(crate) fn contains_pair(&self, cid: i64, kid: i64) -> (r: bool)
        ensures
            r == self@.has_pair(cid as int, kid as int),
    {
        let mut i: usize = 0;
        while i < self.client_keys.len()
            invariant
                i <= self.client_keys.len(),
                self@.client_keys.len() == self.client_keys.len(),
                forall|k: int|
                    0 <= k < i ==> !((#[trigger] self@.client_keys[k]).client_id == cid as int
                        && self@.client_keys[k].key_id == kid as int),
            decreases self.client_keys.len() - i,
        {
            let row = &self.client_keys[i];
            proof {
                assert(self@.client_keys[i as int] == self.client_keys@[i as int]@);
            }
            if row.client_id.0 == cid && row.key_id.0 == kid {
                proof {
                    assert(crate::database::by_ck_pair(cid as int, kid as int)(
                        self@.client_keys[i as int],
                    ));
                    assert(forall|k: int|
                        0 <= k < i ==> !crate::database::by_ck_pair(cid as int, kid as int)(
                            #[trigger] self@.client_keys[k],
                        ));
                    crate::rows::lemma_first_match_index(
                        self@.client_keys,
                        crate::database::by_ck_pair(cid as int, kid as int),
                        i as int,
                    );
                }
                return true;
            }
            i += 1;
        }
        proof {
            assert(forall|k: int|
                0 <= k < self@.client_keys.len() ==> !crate::database::by_ck_pair(
                    cid as int,
                    kid as int,
                )(#[trigger] self@.client_keys[k]));
            crate::rows::lemma_first_match_none(
                self@.client_keys,
                crate::database::by_ck_pair(cid as int, kid as int),
            );
        }
        false
    }

    /// Inserts an association row binding the given client and key under the
    /// given secret and a fresh id.  Fails with `NotFound` when the client
    /// or the key does not exist, with `Conflict` when the pair is already
    /// associated or the secret is already in use, and with `Internal` when
    /// the id space is exhausted; on failure the store is unchanged.
    pub fn insert_clientkey_with_secret(
        &mut self,
        client: ClientId,
        key: KeyId,
        secret: String,
    ) -> (r: Result<ClientKeyId, Error>)
        requires
            old(self)@.wf(),
        ensures
            final(self)@.wf(),
            r is Ok <==> old(self)@.contains_client(client.0 as int) && old(self)@.contains_key(
                key.0 as int,
            ) && !old(self)@.has_pair(client.0 as int, key.0 as int) && !old(
                self,
            )@.secret_in_use(secret@) && old(self)@.next_client_key_id < i64::MAX,
            !(old(self)@.contains_client(client.0 as int) && old(self)@.contains_key(
                key.0 as int,
            )) ==> r == Err::<ClientKeyId, Error>(Error::NotFound),
            old(self)@.contains_client(client.0 as int) && old(self)@.contains_key(key.0 as int)
                && old(self)@.has_pair(client.0 as int, key.0 as int) ==> r == Err::<
                ClientKeyId,
                Error,
            >(Error::Conflict),
            old(self)@.contains_client(client.0 as int) && old(self)@.contains_key(key.0 as int)
                && !old(self)@.has_pair(client.0 as int, key.0 as int) && old(
                self,
            )@.secret_in_use(secret@) ==> r == Err::<ClientKeyId, Error>(Error::Conflict),
            old(self)@.contains_client(client.0 as int) && old(self)@.contains_key(key.0 as int)
                && !old(self)@.has_pair(client.0 as int, key.0 as int) && !old(
                self,
            )@.secret_in_use(secret@) && old(self)@.next_client_key_id == i64::MAX ==> r == Err::<
                ClientKeyId,
                Error,
            >(Error::Internal),
            r is Err ==> final(self)@ == old(self)@,
            r matches Ok(id) ==> {
                &&& id.0 as int == old(self)@.next_client_key_id
                &&& final(self)@.client_keys == old(self)@.client_keys.push(
                    (ClientKeyView {
                        id: id.0 as int,
                        client_id: client.0 as int,
                        key_id: key.0 as int,
                        secret: secret@,
                        last_used: None,
                    }),
                )
                &&& final(self)@.next_client_key_id == old(self)@.next_client_key_id + 1
                &&& final(self)@.ck_of(id.0 as int) == Some(
                    (ClientKeyView {
                        id: id.0 as int,
                        client_id: client.0 as int,
                        key_id: key.0 as int,
                        secret: secret@,
                        last_used: None,
                    }),
                )
                &&& final(self)@.ck_of_pair(client.0 as int, key.0 as int) == Some(
                    (ClientKeyView {
                        id: id.0 as int,
                        client_id: client.0 as int,
                        key_id: key.0 as int,
                        secret: secret@,
                        last_used: None,
                    }),
                )
                &&& final(self)@.ck_of_secret(secret@) == Some(
                    (ClientKeyView {
                        id: id.0 as int,
                        client_id: client.0 as int,
                        key_id: key.0 as int,
                        secret: secret@,
                        last_used: None,
                    }),
                )
            },
            final(self)@.clients == old(self)@.clients,
            final(self)@.keys == old(self)@.keys,
            final(self)@.users == old(self)@.users,
            final(self)@.next_client_id == old(self)@.next_client_id,
            final(self)@.next_key_id == old(self)@.next_key_id,
            final(self)@.next_user_id == old(self)@.next_user_id,
    {
        if !self.contains_client_id(client.0) || !self.contains_key_id(key.0) {
            return Err(Error::NotFound);
        }
        if self.contains_pair(client.0, key.0) {
            return Err(Error::Conflict);
        }
        if self.secret_is_in_use(&secret) {
            return Err(Error::Conflict);
        }
        if self.next_client_key_id == i64::MAX {
            return Err(Error::Internal);
        }
        let id = ClientKeyId(self.next_client_key_id);
        let ghost sview = secret@;
        self.next_client_key_id = self.next_client_key_id + 1;
        self.client_keys.push(
            TableClientsKey { id, client_id: client, key_id: key, secret, last_used: None },
        );
        proof {
            let oldv = old(self)@;
            let newv = self@;
            let ckv = ClientKeyView {
                id: id.0 as int,
                client_id: client.0 as int,
                key_id: key.0 as int,
                secret: sview,
                last_used: None,
            };
            assert(newv.client_keys =~= oldv.client_keys.push(ckv));
            lemma_first_match_none(oldv.client_keys, by_ck_pair(client.0 as int, key.0 as int));
            lemma_first_match_none(oldv.client_keys, by_ck_secret(sview));
            let n = oldv.client_keys.len() as int;
            assert forall|a: int, b: int| 0 <= a < b < newv.client_keys.len() implies (
            #[trigger] newv.client_keys[a]).id != (#[trigger] newv.client_keys[b]).id && (
            newv.client_keys[a].client_id != newv.client_keys[b].client_id
                || newv.client_keys[a].key_id != newv.client_keys[b].key_id) && (
            newv.client_keys[a].secret != newv.client_keys[b].secret) by {
                assert(newv.client_keys[a] == oldv.client_keys[a]);
                if b < n {
                    assert(newv.client_keys[b] == oldv.client_keys[b]);
                } else {
                    assert(1 <= oldv.client_keys[a].id < oldv.next_client_key_id);
                    assert(!by_ck_pair(client.0 as int, key.0 as int)(oldv.client_keys[a]));
                    assert(!by_ck_secret(sview)(oldv.client_keys[a]));
                }
            }
            assert forall|a: int| 0 <= a < newv.client_keys.len() implies 1 <= (
            #[trigger] newv.client_keys[a]).id < newv.next_client_key_id by {
                if a < n {
                    assert(newv.client_keys[a] == oldv.client_keys[a]);
                    assert(1 <= oldv.client_keys[a].id < oldv.next_client_key_id);
                }
            }
            lemma_clients_wf_frame(oldv, newv);
            lemma_keys_wf_frame(oldv, newv);
            lemma_users_wf_frame(oldv, newv);
            assert forall|i: int| 0 <= i < newv.client_keys.len() implies newv.contains_client(
                (#[trigger] newv.client_keys[i]).client_id,
            ) && newv.contains_key(newv.client_keys[i].key_id) by {
                if i < n {
                    assert(newv.client_keys[i] == oldv.client_keys[i]);
                    let j = choose|j: int|
                        0 <= j < oldv.clients.len() && (#[trigger] oldv.clients[j]).id
                            == oldv.client_keys[i].client_id;
                    assert((#[trigger] newv.clients[j]).id == newv.client_keys[i].client_id);
                    let j2 = choose|j2: int|
                        0 <= j2 < oldv.keys.len() && (#[trigger] oldv.keys[j2]).id
                            == oldv.client_keys[i].key_id;
                    assert((#[trigger] newv.keys[j2]).id == newv.client_keys[i].key_id);
                } else {
                    let j = choose|j: int|
                        0 <= j < oldv.clients.len() && (#[trigger] oldv.clients[j]).id == client.0
                            as int;
                    assert((#[trigger] newv.clients[j]).id == newv.client_keys[i].client_id);
                    let j2 = choose|j2: int|
                        0 <= j2 < oldv.keys.len() && (#[trigger] oldv.keys[j2]).id == key.0 as int;
                    assert((#[trigger] newv.keys[j2]).id == newv.client_keys[i].key_id);
                }
            }
            assert(by_ck_id(id.0 as int)(newv.client_keys[n]));
            assert forall|k: int| 0 <= k < n implies !by_ck_id(id.0 as int)(
                #[trigger] newv.client_keys[k],
            ) by {
                assert(newv.client_keys[k] == oldv.client_keys[k]);
                assert(1 <= oldv.client_keys[k].id < oldv.next_client_key_id);
            }
            lemma_first_match_index(newv.client_keys, by_ck_id(id.0 as int), n);
            assert(by_ck_pair(client.0 as int, key.0 as int)(newv.client_keys[n]));
            assert forall|k: int| 0 <= k < n implies !by_ck_pair(client.0 as int, key.0 as int)(
                #[trigger] newv.client_keys[k],
            ) by {
                assert(newv.client_keys[k] == oldv.client_keys[k]);
            }
            lemma_first_match_index(
                newv.client_keys,
                by_ck_pair(client.0 as int, key.0 as int),
                n,
            );
            assert(by_ck_secret(sview)(newv.client_keys[n]));
            assert forall|k: int| 0 <= k < n implies !by_ck_secret(sview)(
                #[trigger] newv.client_keys[k],
            ) by {
                assert(newv.client_keys[k] == oldv.client_keys[k]);
            }
            lemma_first_match_index(newv.client_keys, by_ck_secret(sview), n);
        }
        Ok(id)
    }

    /// Associates the given client and key under a freshly generated secret
    /// and returns the association id and the secret.  A duplicate
    /// association fails with `Conflict` and leaves the first association
    /// unmodified.
    pub fn create_clientkey(&mut self, client: ClientId, key: KeyId) -> (r: Result<
        (ClientKeyId, String),
        Error,
    >)
        requires
            old(self)@.wf(),
        ensures
            final(self)@.wf(),
            r == Err::<(ClientKeyId, String), Error>(Error::NotFound) <==> !(old(
                self,
            )@.contains_client(client.0 as int) && old(self)@.contains_key(key.0 as int)),
            old(self)@.contains_client(client.0 as int) && old(self)@.contains_key(key.0 as int)
                && old(self)@.has_pair(client.0 as int, key.0 as int) ==> r == Err::<
                (ClientKeyId, String),
                Error,
            >(Error::Conflict),
            // on an empty association table no secret can collide, so success is owed
            old(self)@.contains_client(client.0 as int) && old(self)@.contains_key(key.0 as int)
                && old(self)@.next_client_key_id < i64::MAX && old(self)@.client_keys.len() == 0
                ==> r is Ok,
            r == Err::<(ClientKeyId, String), Error>(Error::Conflict) ==> old(
                self,
            )@.client_keys.len() > 0,
            r == Err::<(ClientKeyId, String), Error>(Error::Internal) ==> old(
                self,
            )@.next_client_key_id == i64::MAX,
            r is Err ==> final(self)@ == old(self)@,
            r matches Ok((id, s)) ==> {
                &&& is_hex64(s@)
                &&& !old(self)@.secret_in_use(s@)
                &&& id.0 as int == old(self)@.next_client_key_id
                &&& final(self)@.client_keys == old(self)@.client_keys.push(
                    (ClientKeyView {
                        id: id.0 as int,
                        client_id: client.0 as int,
                        key_id: key.0 as int,
                        secret: s@,
                        last_used: None,
                    }),
                )
                &&& final(self)@.next_client_key_id == old(self)@.next_client_key_id + 1
                &&& final(self)@.ck_of_pair(client.0 as int, key.0 as int) == Some(
                    (ClientKeyView {
                        id: id.0 as int,
                        client_id: client.0 as int,
                        key_id: key.0 as int,
                        secret: s@,
                        last_used: None,
                    }),
                )
                &&& final(self)@.ck_of_secret(s@) == Some(
                    (ClientKeyView {
                        id: id.0 as int,
                        client_id: client.0 as int,
                        key_id: key.0 as int,
                        secret: s@,
                        last_used: None,
                    }),
                )
            },
            final(self)@.clients == old(self)@.clients,
            final(self)@.keys == old(self)@.keys,
            final(self)@.users == old(self)@.users,
            final(self)@.next_client_id == old(self)@.next_client_id,
            final(self)@.next_key_id == old(self)@.next_key_id,
            final(self)@.next_user_id == old(self)@.next_user_id,
    {
        let secret = generate_secret();
        let stored = secret.clone();
        proof {
            if self@.client_keys.len() == 0 {
                assert(self@.ck_of_secret(stored@) is None);
                assert(self@.ck_of_pair(client.0 as int, key.0 as int) is None);
            }
        }
        match self.insert_clientkey_with_secret(client, key, stored) {
            Ok(id) => Ok((id, secret)),
            Err(e) => Err(e),
        }
    }

    /// Removes the association row with the given id.  Returns whether a
    /// row was removed.
    pub fn remove_clientkey(&mut self, key: ClientKeyId) -> (r: bool)
        requires
            old(self)@.wf(),
        ensures
            final(self)@.wf(),
            r == (old(self)@.ck_of(key.0 as int) is Some),
            final(self)@.client_keys == old(self)@.client_keys.filter(not_ck_id(key.0 as int)),
            final(self)@.clients == old(self)@.clients,
            final(self)@.keys == old(self)@.keys,
            final(self)@.users == old(self)@.users,
            final(self)@.next_client_id == old(self)@.next_client_id,
            final(self)@.next_key_id == old(self)@.next_key_id,
            final(self)@.next_user_id == old(self)@.next_user_id,
            final(self)@.next_client_key_id == old(self)@.next_client_key_id,
    {
        let ckid = key.0;
        let mut found = false;
        let mut kept: Vec<TableClientsKey> = Vec::new();
        let mut i: usize = 0;
        while i < self.client_keys.len()
            invariant
                i <= self.client_keys.len(),
                self@.client_keys.len() == self.client_keys.len(),
                kept@.map_values(|ck: TableClientsKey| ck@) == self@.client_keys.take(
                    i as int,
                ).filter(not_ck_id(ckid as int)),
                found <==> exists|k: int|
                    0 <= k < i && (#[trigger] self@.client_keys[k]).id == ckid as int,
            decreases self.client_keys.len() - i,
        {
            let row = &self.client_keys[i];
            proof {
                assert(self@.client_keys[i as int] == self.client_keys@[i as int]@);
                lemma_filter_take_step(self@.client_keys, not_ck_id(ckid as int), i as int);
            }
            if row.id.0 == ckid {
                proof {
                    assert(!not_ck_id(ckid as int)(self@.client_keys[i as int]));
                }
                found = true;
            } else {
                proof {
                    assert(not_ck_id(ckid as int)(self@.client_keys[i as int]));
                }
                kept.push(clone_clientkey(row));
                proof {
                    assert(kept@.map_values(|ck: TableClientsKey| ck@) =~= self@.client_keys.take(
                        i + 1 as int,
                    ).filter(not_ck_id(ckid as int)));
                }
            }
            i += 1;
        }
        proof {
            lemma_take_all(self@.client_keys);
            lemma_first_match_none(self@.client_keys, by_ck_id(ckid as int));
            if found {
                let k = choose|k: int|
                    0 <= k < self@.client_keys.len() && (#[trigger] self@.client_keys[k]).id
                        == ckid as int;
                assert(by_ck_id(ckid as int)(self@.client_keys[k]));
            } else {
                assert forall|k: int| 0 <= k < self@.client_keys.len() implies !(by_ck_id(
                    ckid as int,
                )(#[trigger] self@.client_keys[k])) by {}
            }
        }
        self.client_keys = kept;
        proof {
            lemma_wf_after_ck_filter(old(self)@, self@, not_ck_id(ckid as int));
        }
        found
    }

    /// The association row with the given id, if one exists.
    pub fn fetch_client_key(&self, key: ClientKeyId) -> (r: Option<TableClientsKey>)
        ensures
            r is Some <==> self@.ck_of(key.0 as int) is Some,
            r matches Some(ck) ==> Some(ck@) == self@.ck_of(key.0 as int),
    {
        let mut i: usize = 0;
        while i < self.client_keys.len()
            invariant
                i <= self.client_keys.len(),
                self@.client_keys.len() == self.client_keys.len(),
                forall|k: int| 0 <= k < i ==> (#[trigger] self@.client_keys[k]).id != key.0 as int,
            decreases self.client_keys.len() - i,
        {
            let row = &self.client_keys[i];
            proof {
                assert(self@.client_keys[i as int] == self.client_keys@[i as int]@);
            }
            if row.id.0 == key.0 {
                let ck = clone_clientkey(row);
                proof {
                    assert(by_ck_id(key.0 as int)(self@.client_keys[i as int]));
                    assert(forall|k: int|
                        0 <= k < i ==> !by_ck_id(key.0 as int)(#[trigger] self@.client_keys[k]));
                    lemma_first_match_index(self@.client_keys, by_ck_id(key.0 as int), i as int);
                }
                return Some(ck);
            }
            i += 1;
        }
        proof {
            assert(forall|k: int|
                0 <= k < self@.client_keys.len() ==> !by_ck_id(key.0 as int)(
                    #[trigger] self@.client_keys[k],
                ));
            lemma_first_match_none(self@.client_keys, by_ck_id(key.0 as int));
        }
        None
    }

    /// The association row binding the given client and key, if one exists.
    pub fn fetch_client_key_from_client_and_key(&self, client: ClientId, key: KeyId) -> (r: Option<
        TableClientsKey,
    >)
        ensures
            r is Some <==> self@.ck_of_pair(client.0 as int, key.0 as int) is Some,
            r matches Some(ck) ==> Some(ck@) == self@.ck_of_pair(client.0 as int, key.0 as int),
    {
        let mut i: usize = 0;
        while i < self.client_keys.len()
            invariant
                i <= self.client_keys.len(),
                self@.client_keys.len() == self.client_keys.len(),
                forall|k: int|
                    0 <= k < i ==> !((#[trigger] self@.client_keys[k]).client_id == client.0 as int
                        && self@.client_keys[k].key_id == key.0 as int),
            decreases self.client_keys.len() - i,
        {
            let row = &self.client_keys[i];
            proof {
                assert(self@.client_keys[i as int] == self.client_keys@[i as int]@);
            }
            if row.client_id.0 == client.0 && row.key_id.0 == key.0 {
                let ck = clone_clientkey(row);
                proof {
                    assert(by_ck_pair(client.0 as int, key.0 as int)(
                        self@.client_keys[i as int],
                    ));
                    assert(forall|k: int|
                        0 <= k < i ==> !by_ck_pair(client.0 as int, key.0 as int)(
                            #[trigger] self@.client_keys[k],
                        ));
                    lemma_first_match_index(
                        self@.client_keys,
                        by_ck_pair(client.0 as int, key.0 as int),
                        i as int,
                    );
                }
                return Some(ck);
            }
            i += 1;
        }
        proof {
            assert(forall|k: int|
                0 <= k < self@.client_keys.len() ==> !by_ck_pair(client.0 as int, key.0 as int)(
                    #[trigger] self@.client_keys[k],
                ));
            lemma_first_match_none(self@.client_keys, by_ck_pair(client.0 as int, key.0 as int));
        }
        None
    }

    /// The association row carrying the given secret, if one exists.  The
    /// lookup is a direct equality comparison on the whole secret.
    pub fn get_client_key_from_secret(&self, secret: String) -> (r: Option<TableClientsKey>)
        ensures
            r is Some <==> self@.ck_of_secret(secret@) is Some,
            r matches Some(ck) ==> Some(ck@) == self@.ck_of_secret(secret@),
    {
        let mut i: usize = 0;
        while i < self.client_keys.len()
            invariant
                i <= self.client_keys.len(),
                self@.client_keys.len() == self.client_keys.len(),
                forall|k: int| 0 <= k < i ==> (#[trigger] self@.client_keys[k]).secret != secret@,
            decreases self.client_keys.len() - i,
        {
            let row = &self.client_keys[i];
            proof {
                assert(self@.client_keys[i as int] == self.client_keys@[i as int]@);
            }
            if row.secret == secret {
                let ck = clone_clientkey(row);
                proof {
                    assert(by_ck_secret(secret@)(self@.client_keys[i as int]));
                    assert(forall|k: int|
                        0 <= k < i ==> !by_ck_secret(secret@)(#[trigger] self@.client_keys[k]));
                    lemma_first_match_index(self@.client_keys, by_ck_secret(secret@), i as int);
                }
                return Some(ck);
            }
            i += 1;
        }
        proof {
            assert(forall|k: int|
                0 <= k < self@.client_keys.len() ==> !by_ck_secret(secret@)(
                    #[trigger] self@.client_keys[k],
                ));
            lemma_first_match_none(self@.client_keys, by_ck_secret(secret@));
        }
        None
    }

    /// Sets the last-used date of the association with the given id.
    /// Returns whether such an association exists.
    pub fn set_client_key_last_used(&mut self, key: ClientKeyId, date: Date) -> (r: bool)
        requires
            old(self)@.wf(),
        ensures
            final(self)@.wf(),
            r == (old(self)@.ck_of(key.0 as int) is Some),
            final(self)@.client_keys.len() == old(self)@.client_keys.len(),
            forall|j: int|
                0 <= j < old(self)@.client_keys.len() && (#[trigger] old(
                    self,
                )@.client_keys[j]).id != key.0 as int ==> final(self)@.client_keys[j] == old(
                    self,
                )@.client_keys[j],
            forall|j: int|
                0 <= j < old(self)@.client_keys.len() && (#[trigger] old(
                    self,
                )@.client_keys[j]).id == key.0 as int ==> final(self)@.client_keys[j]
                    == (ClientKeyView { last_used: Some(date), ..old(self)@.client_keys[j] }),
            final(self)@.ck_of(key.0 as int) == match old(self)@.ck_of(key.0 as int) {
                Some(ck) => Some((ClientKeyView { last_used: Some(date), ..ck })),
                None => None,
            },
            final(self)@.clients == old(self)@.clients,
            final(self)@.keys == old(self)@.keys,
            final(self)@.users == old(self)@.users,
            final(self)@.next_client_id == old(self)@.next_client_id,
            final(self)@.next_key_id == old(self)@.next_key_id,
            final(self)@.next_user_id == old(self)@.next_user_id,
            final(self)@.next_client_key_id == old(self)@.next_client_key_id,
    {
        let ckid = key.0;
        let mut found = false;
        let mut out: Vec<TableClientsKey> = Vec::new();
        let mut i: usize = 0;
        while i < self.client_keys.len()
            invariant
                i <= self.client_keys.len(),
                self@.client_keys.len() == self.client_keys.len(),
                out@.len() == i,
                forall|k: int|
                    0 <= k < i ==> (#[trigger] out@[k])@ == (if self@.client_keys[k].id == ckid
                        as int {
                        (ClientKeyView { last_used: Some(date), ..self@.client_keys[k] })
                    } else {
                        self@.client_keys[k]
                    }),
                found <==> exists|k: int|
                    0 <= k < i && (#[trigger] self@.client_keys[k]).id == ckid as int,
            decreases self.client_keys.len() - i,
        {
            let row = &self.client_keys[i];
            proof {
                assert(self@.client_keys[i as int] == self.client_keys@[i as int]@);
            }
            if row.id.0 == ckid {
                found = true;
                out.push(
                    TableClientsKey {
                        id: row.id,
                        client_id: row.client_id,
                        key_id: row.key_id,
                        secret: row.secret.clone(),
                        last_used: Some(date),
                    },
                );
            } else {
                out.push(clone_clientkey(row));
            }
            i += 1;
        }
        proof {
            lemma_first_match_none(self@.client_keys, by_ck_id(ckid as int));
            if found {
                let k = choose|k: int|
                    0 <= k < self@.client_keys.len() && (#[trigger] self@.client_keys[k]).id
                        == ckid as int;
                assert(by_ck_id(ckid as int)(self@.client_keys[k]));
            } else {
                assert forall|k: int| 0 <= k < self@.client_keys.len() implies !(by_ck_id(
                    ckid as int,
                )(#[trigger] self@.client_keys[k])) by {}
            }
        }
        self.client_keys = out;
        proof {
            let oldv = old(self)@;
            assert forall|i2: int, j2: int| 0 <= i2 < j2 < self@.client_keys.len() implies (
            #[trigger] self@.client_keys[i2]).secret != (
            #[trigger] self@.client_keys[j2]).secret by {
                assert(self@.client_keys[i2].secret == oldv.client_keys[i2].secret);
                assert(self@.client_keys[j2].secret == oldv.client_keys[j2].secret);
                assert(oldv.client_keys[i2].secret != oldv.client_keys[j2].secret);
            }
            self.lemma_ck_patch_wf(
                *old(self),
                ckid as int,
                |ck: ClientKeyView| ClientKeyView { last_used: Some(date), ..ck },
            );
        }
        found
    }

    /// Sets the last-used date of the association with the given id to the
    /// current date.  Returns whether such an association exists.
    pub fn update_client_key_last_used(&mut self, key: ClientKeyId) -> (r: bool)
        requires
            old(self)@.wf(),
        ensures
            final(self)@.wf(),
            r == (old(self)@.ck_of(key.0 as int) is Some),
            final(self)@.client_keys.len() == old(self)@.client_keys.len(),
            forall|j: int|
                0 <= j < old(self)@.client_keys.len() && (#[trigger] old(
                    self,
                )@.client_keys[j]).id != key.0 as int ==> final(self)@.client_keys[j] == old(
                    self,
                )@.client_keys[j],
            forall|j: int|
                0 <= j < old(self)@.client_keys.len() && (#[trigger] old(
                    self,
                )@.client_keys[j]).id == key.0 as int ==> {
                    &&& (#[trigger] final(self)@.client_keys[j]).id == old(
                        self,
                    )@.client_keys[j].id
                    &&& final(self)@.client_keys[j].client_id == old(
                        self,
                    )@.client_keys[j].client_id
                    &&& final(self)@.client_keys[j].key_id == old(self)@.client_keys[j].key_id
                    &&& final(self)@.client_keys[j].secret == old(self)@.client_keys[j].secret
                    &&& final(self)@.client_keys[j].last_used matches Some(d) && d.wf()
                },
            final(self)@.clients == old(self)@.clients,
            final(self)@.keys == old(self)@.keys,
            final(self)@.users == old(self)@.users,
            final(self)@.next_client_id == old(self)@.next_client_id,
            final(self)@.next_key_id == old(self)@.next_key_id,
            final(self)@.next_user_id == old(self)@.next_user_id,
            final(self)@.next_client_key_id == old(self)@.next_client_key_id,
    {
        let date = crate::database::current_date();
        self.set_client_key_last_used(key, date)
    }

    /// Overwrites the secret of the association with the given id.  Fails
    /// with `Conflict` when the secret is already in use anywhere, so the
    /// secret-uniqueness invariant is never broken; otherwise returns
    /// whether such an association exists.
    pub fn set_client_key_secret(&mut self, key: ClientKeyId, secret: String) -> (r: Result<
        bool,
        Error,
    >)
        requires
            old(self)@.wf(),
        ensures
            final(self)@.wf(),
            r is Err <==> old(self)@.secret_in_use(secret@),
            r is Err ==> r == Err::<bool, Error>(Error::Conflict) && final(self)@ == old(self)@,
            r matches Ok(b) ==> b == (old(self)@.ck_of(key.0 as int) is Some),
            r is Ok ==> final(self)@.client_keys.len() == old(self)@.client_keys.len(),
            r is Ok ==> forall|j: int|
                0 <= j < old(self)@.client_keys.len() && (#[trigger] old(
                    self,
                )@.client_keys[j]).id != key.0 as int ==> final(self)@.client_keys[j] == old(
                    self,
                )@.client_keys[j],
            r is Ok ==> forall|j: int|
                0 <= j < old(self)@.client_keys.len() && (#[trigger] old(
                    self,
                )@.client_keys[j]).id == key.0 as int ==> final(self)@.client_keys[j]
                    == (ClientKeyView { secret: secret@, ..old(self)@.client_keys[j] }),
            r is Ok ==> final(self)@.ck_of(key.0 as int) == match old(self)@.ck_of(key.0 as int) {
                Some(ck) => Some((ClientKeyView { secret: secret@, ..ck })),
                None => None,
            },
            final(self)@.clients == old(self)@.clients,
            final(self)@.keys == old(self)@.keys,
            final(self)@.users == old(self)@.users,
            final(self)@.next_client_id == old(self)@.next_client_id,
            final(self)@.next_key_id == old(self)@.next_key_id,
            final(self)@.next_user_id == old(self)@.next_user_id,
            final(self)@.next_client_key_id == old(self)@.next_client_key_id,
    {
        if self.secret_is_in_use(&secret) {
            return Err(Error::Conflict);
        }
        let ckid = key.0;
        let mut found = false;
        let mut out: Vec<TableClientsKey> = Vec::new();
        let mut i: usize = 0;
        while i < self.client_keys.len()
            invariant
                i <= self.client_keys.len(),
                self@.client_keys.len() == self.client_keys.len(),
                out@.len() == i,
                forall|k: int|
                    0 <= k < i ==> (#[trigger] out@[k])@ == (if self@.client_keys[k].id == ckid
                        as int {
                        (ClientKeyView { secret: secret@, ..self@.client_keys[k] })
                    } else {
                        self@.client_keys[k]
                    }),
                found <==> exists|k: int|
                    0 <= k < i && (#[trigger] self@.client_keys[k]).id == ckid as int,
            decreases self.client_keys.len() - i,
        {
            let row = &self.client_keys[i];
            proof {
                assert(self@.client_keys[i as int] == self.client_keys@[i as int]@);
            }
            if row.id.0 == ckid {
                found = true;
                out.push(
                    TableClientsKey {
                        id: row.id,
                        client_id: row.client_id,
                        key_id: row.key_id,
                        secret: secret.clone(),
                        last_used: row.last_used,
                    },
                );
            } else {
                out.push(clone_clientkey(row));
            }
            i += 1;
        }
        proof {
            lemma_first_match_none(self@.client_keys, by_ck_id(ckid as int));
            if found {
                let k = choose|k: int|
                    0 <= k < self@.client_keys.len() && (#[trigger] self@.client_keys[k]).id
                        == ckid as int;
                assert(by_ck_id(ckid as int)(self@.client_keys[k]));
            } else {
                assert forall|k: int| 0 <= k < self@.client_keys.len() implies !(by_ck_id(
                    ckid as int,
                )(#[trigger] self@.client_keys[k])) by {}
            }
        }
        self.client_keys = out;
        proof {
            let oldv = old(self)@;
            lemma_first_match_none(oldv.client_keys, by_ck_secret(secret@));
            assert forall|i2: int, j2: int| 0 <= i2 < j2 < self@.client_keys.len() implies (
            #[trigger] self@.client_keys[i2]).secret != (
            #[trigger] self@.client_keys[j2]).secret by {
                assert(oldv.client_keys[i2].secret != oldv.client_keys[j2].secret);
                assert(!by_ck_secret(secret@)(oldv.client_keys[i2]));
                assert(!by_ck_secret(secret@)(oldv.client_keys[j2]));
            }
            self.lemma_ck_patch_wf(
                *old(self),
                ckid as int,
                |ck: ClientKeyView| ClientKeyView { secret: secret@, ..ck },
            );
        }
        Ok(found)
    }

    /// Overwrites the secret of the association with the given id with a
    /// freshly generated one and returns the new value; `None` signals that
    /// the id does not exist.
    pub fn update_client_secret(&mut self, key: ClientKeyId) -> (r: Result<Option<String>, Error>)
        requires
            old(self)@.wf(),
        ensures
            final(self)@.wf(),
            r is Err ==> r == Err::<Option<String>, Error>(Error::Conflict) && final(self)@ == old(
                self,
            )@,
            // only an existing secret can collide with the fresh draw
            r is Err ==> old(self)@.client_keys.len() > 0,
            old(self)@.client_keys.len() == 0 ==> r == Ok::<Option<String>, Error>(None),
            r matches Ok(o) ==> (o is Some <==> old(self)@.ck_of(key.0 as int) is Some),
            r matches Ok(Some(s)) ==> {
                &&& is_hex64(s@)
                &&& !old(self)@.secret_in_use(s@)
                &&& final(self)@.client_keys.len() == old(self)@.client_keys.len()
                &&& forall|j: int|
                    0 <= j < old(self)@.client_keys.len() && (#[trigger] old(
                        self,
                    )@.client_keys[j]).id != key.0 as int ==> final(self)@.client_keys[j] == old(
                        self,
                    )@.client_keys[j]
                &&& forall|j: int|
                    0 <= j < old(self)@.client_keys.len() && (#[trigger] old(
                        self,
                    )@.client_keys[j]).id == key.0 as int ==> final(self)@.client_keys[j]
                        == (ClientKeyView { secret: s@, ..old(self)@.client_keys[j] })
                &&& final(self)@.ck_of(key.0 as int) == match old(self)@.ck_of(key.0 as int) {
                    Some(ck) => Some((ClientKeyView { secret: s@, ..ck })),
                    None => None,
                }
                &&& final(self)@.ck_of_secret(s@) is Some
            },
            r == Ok::<Option<String>, Error>(None) ==> final(self)@ == old(self)@ && old(
                self,
            )@.ck_of(key.0 as int) is None,
            final(self)@.clients == old(self)@.clients,
            final(self)@.keys == old(self)@.keys,
            final(self)@.users == old(self)@.users,
            final(self)@.next_client_id == old(self)@.next_client_id,
            final(self)@.next_key_id == old(self)@.next_key_id,
            final(self)@.next_user_id == old(self)@.next_user_id,
            final(self)@.next_client_key_id == old(self)@.next_client_key_id,
    {
        let secret = generate_secret();
        let returned = secret.clone();
        proof {
            if self@.client_keys.len() == 0 {
                assert(self@.ck_of_secret(returned@) is None);
                assert(self@.ck_of(key.0 as int) is None);
            }
        }
        match self.set_client_key_secret(key, secret) {
            Err(e) => Err(e),
            Ok(true) => {
                proof {
                    let newv = self@;
                    let oldv = old(self)@;
                    lemma_first_match_found(newv.client_keys, by_ck_id(key.0 as int));
                    let x = newv.ck_of(key.0 as int)->Some_0;
                    let k = choose|k: int|
                        0 <= k < newv.client_keys.len() && newv.client_keys[k] == x;
                    assert(by_ck_secret(returned@)(newv.client_keys[k]));
                    lemma_first_match_none(newv.client_keys, by_ck_secret(returned@));
                }
                Ok(Some(returned))
            },
            Ok(false) => {
                proof {
                    let oldv = old(self)@;
                    let newv = self@;
                    lemma_first_match_none(oldv.client_keys, by_ck_id(key.0 as int));
                    assert forall|j: int| 0 <= j < oldv.client_keys.len() implies (
                    #[trigger] newv.client_keys[j]) == oldv.client_keys[j] by {
                        assert(!by_ck_id(key.0 as int)(oldv.client_keys[j]));
                        assert(oldv.client_keys[j].id != key.0 as int);
                    }
                    assert(newv.client_keys =~= oldv.client_keys);
                    assert(newv == oldv);
                }
                Ok(None)
            },
        }
    }

    /// Rotating an association's secret invalidates the old one: when one
    /// row is rewritten to carry a fresh secret and every other row is
    /// untouched, a lookup by the replaced secret no longer resolves,
    /// because secret uniqueness made the rewritten row its only carrier.
    pub proof fn lemma_rotated_secret_gone(
        pre: DbView,
        post: DbView,
        ckid: int,
        fresh: Seq<char>,
    )
        requires
            pre.wf(),
            pre.ck_of(ckid) is Some,
            fresh != pre.ck_of(ckid)->Some_0.secret,
            post.client_keys.len() == pre.client_keys.len(),
            forall|j: int|
                0 <= j < pre.client_keys.len() && (#[trigger] pre.client_keys[j]).id != ckid
                    ==> post.client_keys[j] == pre.client_keys[j],
            forall|j: int|
                0 <= j < pre.client_keys.len() && (#[trigger] pre.client_keys[j]).id == ckid
                    ==> post.client_keys[j] == (ClientKeyView {
                    secret: fresh,
                    ..pre.client_keys[j]
                }),
        ensures
            post.ck_of_secret(pre.ck_of(ckid)->Some_0.secret) is None,
    {
        let s0 = pre.ck_of(ckid)->Some_0.secret;
        lemma_first_match_found(pre.client_keys, by_ck_id(ckid));
        let x = pre.ck_of(ckid)->Some_0;
        let k = choose|k: int| 0 <= k < pre.client_keys.len() && pre.client_keys[k] == x;
        assert(by_ck_id(ckid)(x));
        assert forall|j: int| 0 <= j < post.client_keys.len() implies !by_ck_secret(s0)(
            #[trigger] post.client_keys[j],
        ) by {
            if pre.client_keys[j].id == ckid {
                assert(post.client_keys[j].secret == fresh);
            } else {
                assert(post.client_keys[j] == pre.client_keys[j]);
                if j != k {
                    assert(pre.client_keys[j].secret != pre.client_keys[k].secret);
                } else {
                    assert(pre.client_keys[k].id == ckid);
                }
            }
        }
        lemma_first_match_none(post.client_keys, by_ck_secret(s0));
    }

    /// Removes every association referencing the given key and returns how
    /// many rows were removed.
    pub fn delete_all_with_key_id(&mut self, key: KeyId) -> (r: u64)
        requires
            old(self)@.wf(),
        ensures
            final(self)@.wf(),
            final(self)@.client_keys == old(self)@.client_keys.filter(not_ck_key(key.0 as int)),
            r as int == old(self)@.client_keys.len() - final(self)@.client_keys.len(),
            final(self)@.clients == old(self)@.clients,
            final(self)@.keys == old(self)@.keys,
            final(self)@.users == old(self)@.users,
            final(self)@.next_client_id == old(self)@.next_client_id,
            final(self)@.next_key_id == old(self)@.next_key_id,
            final(self)@.next_user_id == old(self)@.next_user_id,
            final(self)@.next_client_key_id == old(self)@.next_client_key_id,
    {
        let kid = key.0;
        let mut kept: Vec<TableClientsKey> = Vec::new();
        let mut i: usize = 0;
        while i < self.client_keys.len()
            invariant
                i <= self.client_keys.len(),
                self@.client_keys.len() == self.client_keys.len(),
                kept@.len() <= i,
                kept@.map_values(|ck: TableClientsKey| ck@) == self@.client_keys.take(
                    i as int,
                ).filter(not_ck_key(kid as int)),
            decreases self.client_keys.len() - i,
        {
            let row = &self.client_keys[i];
            proof {
                assert(self@.client_keys[i as int] == self.client_keys@[i as int]@);
                lemma_filter_take_step(self@.client_keys, not_ck_key(kid as int), i as int);
            }
            if row.key_id.0 != kid {
                proof {
                    assert(not_ck_key(kid as int)(self@.client_keys[i as int]));
                }
                kept.push(clone_clientkey(row));
                proof {
                    assert(kept@.map_values(|ck: TableClientsKey| ck@) =~= self@.client_keys.take(
                        i + 1 as int,
                    ).filter(not_ck_key(kid as int)));
                }
            } else {
                proof {
                    assert(!not_ck_key(kid as int)(self@.client_keys[i as int]));
                }
            }
            i += 1;
        }
        proof {
            lemma_take_all(self@.client_keys);
        }
        let removed = (self.client_keys.len() - kept.len()) as u64;
        self.client_keys = kept;
        proof {
            lemma_wf_after_ck_filter(old(self)@, self@, not_ck_key(kid as int));
        }
        removed
    }

    /// Removes every association referencing the given client and returns
    /// how many rows were removed.
    pub fn delete_all_with_client_id(&mut self, client: ClientId) -> (r: u64)
        requires
            old(self)@.wf(),
        ensures
            final(self)@.wf(),
            final(self)@.client_keys == old(self)@.client_keys.filter(
                not_ck_client(client.0 as int),
            ),
            r as int == old(self)@.client_keys.len() - final(self)@.client_keys.len(),
            final(self)@.clients == old(self)@.clients,
            final(self)@.keys == old(self)@.keys,
            final(self)@.users == old(self)@.users,
            final(self)@.next_client_id == old(self)@.next_client_id,
            final(self)@.next_key_id == old(self)@.next_key_id,
            final(self)@.next_user_id == old(self)@.next_user_id,
            final(self)@.next_client_key_id == old(self)@.next_client_key_id,
    {
        let cid = client.0;
        let mut kept: Vec<TableClientsKey> = Vec::new();
        let mut i: usize = 0;
        while i < self.client_keys.len()
            invariant
                i <= self.client_keys.len(),
                self@.client_keys.len() == self.client_keys.len(),
                kept@.len() <= i,
                kept@.map_values(|ck: TableClientsKey| ck@) == self@.client_keys.take(
                    i as int,
                ).filter(not_ck_client(cid as int)),
            decreases self.client_keys.len() - i,
        {
            let row = &self.client_keys[i];
            proof {
                assert(self@.client_keys[i as int] == self.client_keys@[i as int]@);
                lemma_filter_take_step(self@.client_keys, not_ck_client(cid as int), i as int);
            }
            if row.client_id.0 != cid {
                proof {
                    assert(not_ck_client(cid as int)(self@.client_keys[i as int]));
                }
                kept.push(clone_clientkey(row));
                proof {
                    assert(kept@.map_values(|ck: TableClientsKey| ck@) =~= self@.client_keys.take(
                        i + 1 as int,
                    ).filter(not_ck_client(cid as int)));
                }
            } else {
                proof {
                    assert(!not_ck_client(cid as int)(self@.client_keys[i as int]));
                }
            }
            i += 1;
        }
        proof {
            lemma_take_all(self@.client_keys);
        }
        let removed = (self.client_keys.len() - kept.len()) as u64;
        self.client_keys = kept;
        proof {
            lemma_wf_after_ck_filter(old(self)@, self@, not_ck_client(cid as int));
        }
        removed
    }
}

} // verus!
