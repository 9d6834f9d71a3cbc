//! The clients table: external integration partners entitled to hold
//! credentials.

use vstd::prelude::*;

use crate::database::clientkeys::ClientKeyView;
use crate::database::{by_client_id, not_ck_client, not_client_id, Database, DbView};
use crate::rows::{
    lemma_filter_all, lemma_filter_pairwise, lemma_filter_take_step, lemma_first_match_index,
    lemma_first_match_none, lemma_take_all,
};
use crate::Error;

verus! {

/// The surrogate id of a client row.
#[derive(Debug, Clone, Copy, Hash, PartialEq, Eq, Structural)]
pub struct ClientId(pub i64);

impl ClientId {
    /// The raw 64-bit value of the id.
    pub fn inner(self) -> (r: i64)
        ensures
            r == self.0,
    {
        self.0
    }
}

/// A client row.
#[derive(Debug)]
pub struct TableClients {
    pub id: ClientId,
    pub name: String,
    pub description: String,
}

/// The mathematical content of a client row.
pub ghost struct ClientView {
    pub id: int,
    pub name: Seq<char>,
    pub description: Seq<char>,
}

impl View for TableClients {
    type V = ClientView;

    open spec fn view(&self) -> ClientView {
        ClientView { id: self.id.0 as int, name: self.name@, description: self.description@ }
    }
}

/// A field-for-field copy of a client row.
pub fn clone_client(c: &TableClients) -> (r: TableClients)
    ensures
        r@ == c@,
{
    TableClients { id: c.id, name: c.name.clone(), description: c.description.clone() }
}

/// Deleting a client keeps the store well formed: both filters keep rows
/// unique, and every surviving association still references a surviving
/// client and its unchanged key.
proof fn lemma_wf_after_client_delete(oldv: DbView, newv: DbView, cid: int)
    requires
        oldv.wf(),
        newv.clients == oldv.clients.filter(not_client_id(cid)),
        newv.client_keys == oldv.client_keys.filter(not_ck_client(cid)),
        newv.keys == oldv.keys,
        newv.users == oldv.users,
        newv.next_client_id == oldv.next_client_id,
        newv.next_key_id == oldv.next_key_id,
        newv.next_user_id == oldv.next_user_id,
        newv.next_client_key_id == oldv.next_client_key_id,
    ensures
        newv.wf(),
{
    let pc = not_client_id(cid);
    let pk = not_ck_client(cid);
    lemma_filter_pairwise(oldv.clients, pc, |a: ClientView, b: ClientView| a.id != b.id);
    lemma_filter_all(oldv.clients, pc, |c: ClientView| 1 <= c.id < oldv.next_client_id);
    lemma_filter_pairwise(oldv.client_keys, pk, |a: ClientKeyView, b: ClientKeyView| a.id != b.id);
    lemma_filter_pairwise(
        oldv.client_keys,
        pk,
        |a: ClientKeyView, b: ClientKeyView| a.client_id != b.client_id || a.key_id != b.key_id,
    );
    lemma_filter_pairwise(
        oldv.client_keys,
        pk,
        |a: ClientKeyView, b: ClientKeyView| a.secret != b.secret,
    );
    lemma_filter_all(
        oldv.client_keys,
        pk,
        |ck: ClientKeyView|
            1 <= ck.id < oldv.next_client_key_id && oldv.contains_client(ck.client_id)
                && oldv.contains_key(ck.key_id),
    );
    assert forall|i: int| 0 <= i < newv.client_keys.len() implies newv.contains_client(
        (#[trigger] newv.client_keys[i]).client_id,
    ) && newv.contains_key(newv.client_keys[i].key_id) by {
        oldv.client_keys.lemma_filter_pred(pk, i);
        let ck = newv.client_keys[i];
        assert(ck.client_id != cid);
        let j = choose|j: int|
            0 <= j < oldv.clients.len() && (#[trigger] oldv.clients[j]).id == ck.client_id;
        assert(pc(oldv.clients[j]));
        oldv.clients.lemma_filter_contains(pc, j);
        let m = choose|m: int|
            0 <= m < newv.clients.len() && newv.clients[m] == oldv.clients[j];
        assert((#[trigger] newv.clients[m]).id == ck.client_id);
        let j2 = choose|j2: int|
            0 <= j2 < oldv.keys.len() && (#[trigger] oldv.keys[j2]).id == ck.key_id;
        assert((#[trigger] newv.keys[j2]).id == ck.key_id);
    }
}

impl Database {
    /// Inserts a client row under a fresh id.  Fails only when the id space
    /// is exhausted.
    pub fn create_client(&mut self, name: String, desc: String) -> (r: Result<ClientId, Error>)
        requires
            old(self)@.wf(),
        ensures
            final(self)@.wf(),
            r is Ok <==> old(self)@.next_client_id < i64::MAX,
            r matches Ok(id) ==> {
                &&& id.0 as int == old(self)@.next_client_id
                &&& final(self)@.clients == old(self)@.clients.push(
                    ClientView { id: id.0 as int, name: name@, description: desc@ },
                )
                &&& final(self)@.next_client_id == old(self)@.next_client_id + 1
            },
            r is Err ==> r == Err::<ClientId, Error>(Error::Internal) && final(self)@ == old(
                self,
            )@,
            final(self)@.keys == old(self)@.keys,
            final(self)@.users == old(self)@.users,
            final(self)@.client_keys == old(self)@.client_keys,
            final(self)@.next_key_id == old(self)@.next_key_id,
            final(self)@.next_user_id == old(self)@.next_user_id,
            final(self)@.next_client_key_id == old(self)@.next_client_key_id,
    {
        if self.next_client_id == i64::MAX {
            return Err(Error::Internal);
        }
        let id = ClientId(self.next_client_id);
        let ghost nview = name@;
        let ghost dview = desc@;
        self.next_client_id = self.next_client_id + 1;
        self.clients.push(TableClients { id, name, description: desc });
        proof {
            let oldv = old(self)@;
            let newv = self@;
            assert(newv.clients =~= oldv.clients.push(
                ClientView { id: id.0 as int, name: nview, description: dview },
            ));
            assert forall|a: int, b: int| 0 <= a < b < newv.clients.len() implies (
            #[trigger] newv.clients[a]).id != (#[trigger] newv.clients[b]).id by {
                if b < oldv.clients.len() {
                    assert(newv.clients[a] == oldv.clients[a]);
                    assert(newv.clients[b] == oldv.clients[b]);
                } else {
                    assert(newv.clients[a] == oldv.clients[a]);
                    assert(1 <= oldv.clients[a].id < oldv.next_client_id);
                }
            }
            assert forall|a: int| 0 <= a < newv.clients.len() implies 1 <= (
            #[trigger] newv.clients[a]).id < newv.next_client_id by {
                if a < oldv.clients.len() {
                    assert(newv.clients[a] == oldv.clients[a]);
                    assert(1 <= oldv.clients[a].id < oldv.next_client_id);
                }
            }
            crate::database::lemma_keys_wf_frame(oldv, newv);
            crate::database::lemma_users_wf_frame(oldv, newv);
            crate::database::lemma_cks_wf_frame(oldv, newv);
            assert forall|i: int| 0 <= i < newv.client_keys.len() implies newv.contains_client(
                (#[trigger] newv.client_keys[i]).client_id,
            ) && newv.contains_key(newv.client_keys[i].key_id) by {
                let ck = newv.client_keys[i];
                assert(oldv.client_keys[i] == ck);
                let j = choose|j: int|
                    0 <= j < oldv.clients.len() && (#[trigger] oldv.clients[j]).id == ck.client_id;
                assert((#[trigger] newv.clients[j]).id == ck.client_id);
                let j2 = choose|j2: int|
                    0 <= j2 < oldv.keys.len() && (#[trigger] oldv.keys[j2]).id == ck.key_id;
                assert((#[trigger] newv.keys[j2]).id == ck.key_id);
            }
        }
        Ok(id)
    }

    /// Whether a client row with the given id exists.
    pub(crate) fn contains_client_id(&self, id: i64) -> (r: bool)
        ensures
            r == self@.contains_client(id as int),
    {
        let mut i: usize = 0;
        while i < self.clients.len()
            invariant
                i <= self.clients.len(),
                self@.clients.len() == self.clients.len(),
                forall|k: int| 0 <= k < i ==> (#[trigger] self@.clients[k]).id != id as int,
            decreases self.clients.len() - i,
        {
            proof {
                assert(self@.clients[i as int] == self.clients@[i as int]@);
            }
            if self.clients[i].id.0 == id {
                return true;
            }
            i += 1;
        }
        proof {
            if self@.contains_client(id as int) {
                let k = choose|k: int|
                    0 <= k < self@.clients.len() && (#[trigger] self@.clients[k]).id == id as int;
                assert(false);
            }
        }
        false
    }

    /// The client row with the given id, if one exists.
    pub fn fetch_client(&self, client: ClientId) -> (r: Option<TableClients>)
        ensures
            r is Some <==> self@.client_of(client.0 as int) is Some,
            r matches Some(c) ==> Some(c@) == self@.client_of(client.0 as int),
    {
        let mut i: usize = 0;
        while i < self.clients.len()
            invariant
                i <= self.clients.len(),
                self@.clients.len() == self.clients.len(),
                forall|k: int| 0 <= k < i ==> (#[trigger] self@.clients[k]).id != client.0 as int,
            decreases self.clients.len() - i,
        {
            let row = &self.clients[i];
            proof {
                assert(self@.clients[i as int] == self.clients@[i as int]@);
            }
            if row.id.0 == client.0 {
                let c = clone_client(row);
                proof {
                    assert(by_client_id(client.0 as int)(self@.clients[i as int]));
                    assert(forall|k: int|
                        0 <= k < i ==> !by_client_id(client.0 as int)(
                            #[trigger] self@.clients[k],
                        ));
                    lemma_first_match_index(self@.clients, by_client_id(client.0 as int), i as int);
                }
                return Some(c);
            }
            i += 1;
        }
        proof {
            assert(forall|k: int|
                0 <= k < self@.clients.len() ==> !by_client_id(client.0 as int)(
                    #[trigger] self@.clients[k],
                ));
            lemma_first_match_none(self@.clients, by_client_id(client.0 as int));
        }
        None
    }

    /// All client rows, in insertion order.
    pub fn get_all_clients(&self) -> (r: Vec<TableClients>)
        ensures
            r@.map_values(|c: TableClients| c@) == self@.clients,
    {
        let mut out: Vec<TableClients> = Vec::new();
        let mut i: usize = 0;
        while i < self.clients.len()
            invariant
                i <= self.clients.len(),
                self@.clients.len() == self.clients.len(),
                out@.len() == i,
                forall|k: int| 0 <= k < i ==> (#[trigger] out@[k])@ == self@.clients[k],
            decreases self.clients.len() - i,
        {
            proof {
                assert(self@.clients[i as int] == self.clients@[i as int]@);
            }
            out.push(clone_client(&self.clients[i]));
            i += 1;
        }
        proof {
            assert(out@.map_values(|c: TableClients| c@) =~= self@.clients);
        }
        out
    }

    /// Unconditionally overwrites the name and description of the client
    /// with the given id; a missing id leaves the store unchanged.
    pub fn update_client_info(&mut self, client: ClientId, name: String, desc: String)
        requires
            old(self)@.wf(),
        ensures
            final(self)@.wf(),
            final(self)@.clients.len() == old(self)@.clients.len(),
            forall|j: int|
                0 <= j < old(self)@.clients.len() && (#[trigger] old(self)@.clients[j]).id
                    != client.0 as int ==> final(self)@.clients[j] == old(self)@.clients[j],
            forall|j: int|
                0 <= j < old(self)@.clients.len() && (#[trigger] old(self)@.clients[j]).id
                    == client.0 as int ==> final(self)@.clients[j] == (ClientView {
                    name: name@,
                    description: desc@,
                    ..old(self)@.clients[j]
                }),
            final(self)@.client_of(client.0 as int) == match old(self)@.client_of(
                client.0 as int,
            ) {
                Some(c) => Some((ClientView { name: name@, description: desc@, ..c })),
                None => None,
            },
            final(self)@.keys == old(self)@.keys,
            final(self)@.users == old(self)@.users,
            final(self)@.client_keys == old(self)@.client_keys,
            final(self)@.next_client_id == old(self)@.next_client_id,
            final(self)@.next_key_id == old(self)@.next_key_id,
            final(self)@.next_user_id == old(self)@.next_user_id,
            final(self)@.next_client_key_id == old(self)@.next_client_key_id,
    {
        let cid = client.0;
        let mut out: Vec<TableClients> = Vec::new();
        let mut i: usize = 0;
        while i < self.clients.len()
            invariant
                i <= self.clients.len(),
                self@.clients.len() == self.clients.len(),
                out@.len() == i,
                forall|k: int|
                    0 <= k < i ==> (#[trigger] out@[k])@ == (if self@.clients[k].id == cid
                        as int {
                        (ClientView { name: name@, description: desc@, ..self@.clients[k] })
                    } else {
                        self@.clients[k]
                    }),
            decreases self.clients.len() - i,
        {
            let row = &self.clients[i];
            proof {
                assert(self@.clients[i as int] == self.clients@[i as int]@);
            }
            if row.id.0 == cid {
                out.push(
                    TableClients { id: row.id, name: name.clone(), description: desc.clone() },
                );
            } else {
                out.push(clone_client(row));
            }
            i += 1;
        }
        self.clients = out;
        proof {
            self.lemma_client_patch_wf(
                *old(self),
                cid as int,
                |c: ClientView| ClientView { name: name@, description: desc@, ..c },
            );
        }
    }

    /// A point patch of one client row that keeps the row's id preserves
    /// every store invariant and moves the point lookup to the patched row.
    proof fn lemma_client_patch_wf(
        &self,
        pre: Database,
        cid: int,
        f: spec_fn(ClientView) -> ClientView,
    )
        requires
            pre@.wf(),
            self@.clients.len() == pre@.clients.len(),
            forall|j: int|
                0 <= j < pre@.clients.len() ==> (#[trigger] self@.clients[j]) == (if pre@.clients[j].id
                    == cid {
                    f(pre@.clients[j])
                } else {
                    pre@.clients[j]
                }),
            forall|c: ClientView| (#[trigger] f(c)).id == c.id,
            self@.keys == pre@.keys,
            self@.users == pre@.users,
            self@.client_keys == pre@.client_keys,
            self@.next_client_id == pre@.next_client_id,
            self@.next_key_id == pre@.next_key_id,
            self@.next_user_id == pre@.next_user_id,
            self@.next_client_key_id == pre@.next_client_key_id,
        ensures
            self@.wf(),
            forall|j: int|
                0 <= j < pre@.clients.len() && (#[trigger] pre@.clients[j]).id != cid
                    ==> self@.clients[j] == pre@.clients[j],
            forall|j: int|
                0 <= j < pre@.clients.len() && (#[trigger] pre@.clients[j]).id == cid
                    ==> self@.clients[j] == f(pre@.clients[j]),
            self@.client_of(cid) == match pre@.client_of(cid) {
                Some(c) => Some(f(c)),
                None => None,
            },
    {
        let oldv = pre@;
        let newv = self@;
        assert(forall|j: int|
            0 <= j < oldv.clients.len() ==> (#[trigger] newv.clients[j]).id == oldv.clients[j].id);
        assert forall|a: int, b: int| 0 <= a < b < newv.clients.len() implies (
        #[trigger] newv.clients[a]).id != (#[trigger] newv.clients[b]).id by {
            assert(oldv.clients[a].id != oldv.clients[b].id);
        }
        assert forall|a: int| 0 <= a < newv.clients.len() implies 1 <= (
        #[trigger] newv.clients[a]).id < newv.next_client_id by {
            assert(1 <= oldv.clients[a].id < oldv.next_client_id);
        }
        crate::database::lemma_keys_wf_frame(oldv, newv);
        crate::database::lemma_users_wf_frame(oldv, newv);
        crate::database::lemma_cks_wf_frame(oldv, newv);
        assert forall|i: int| 0 <= i < newv.client_keys.len() implies newv.contains_client(
            (#[trigger] newv.client_keys[i]).client_id,
        ) && newv.contains_key(newv.client_keys[i].key_id) by {
            let ck = newv.client_keys[i];
            assert(oldv.client_keys[i] == ck);
            let j = choose|j: int|
                0 <= j < oldv.clients.len() && (#[trigger] oldv.clients[j]).id == ck.client_id;
            assert((#[trigger] newv.clients[j]).id == ck.client_id);
            let j2 = choose|j2: int|
                0 <= j2 < oldv.keys.len() && (#[trigger] oldv.keys[j2]).id == ck.key_id;
            assert((#[trigger] newv.keys[j2]).id == ck.key_id);
        }
        assert forall|a: int, b: int| 0 <= a < b < oldv.clients.len() implies !(by_client_id(cid)(
            #[trigger] oldv.clients[a],
        ) && by_client_id(cid)(#[trigger] oldv.clients[b])) by {
            assert(oldv.clients[a].id != oldv.clients[b].id);
        }
        assert(forall|j: int|
            0 <= j < oldv.clients.len() ==> (by_client_id(cid)(#[trigger] newv.clients[j])
                <==> by_client_id(cid)(#[trigger] oldv.clients[j])));
        assert(forall|j: int|
            0 <= j < oldv.clients.len() && !by_client_id(cid)(#[trigger] oldv.clients[j])
                ==> newv.clients[j] == oldv.clients[j]);
        crate::rows::lemma_first_match_point(oldv.clients, newv.clients, by_client_id(cid));
        if oldv.client_of(cid) is Some {
            crate::rows::lemma_first_match_found(oldv.clients, by_client_id(cid));
            let x = oldv.client_of(cid)->Some_0;
            let k = choose|k: int| 0 <= k < oldv.clients.len() && oldv.clients[k] == x;
            assert(by_client_id(cid)(oldv.clients[k]));
            assert(oldv.client_of(cid) == Some(oldv.clients[k]) && newv.client_of(cid) == Some(
                newv.clients[k],
            ));
            assert(newv.clients[k] == f(oldv.clients[k]));
        }
    }

    /// Removes the client row with the given id together with every
    /// association that references it, in one atomic step.  Returns whether
    /// a client row was removed.
    pub fn remove_client(&mut self, client: ClientId) -> (r: bool)
        requires
            old(self)@.wf(),
        ensures
            final(self)@.wf(),
            r == (old(self)@.client_of(client.0 as int) is Some),
            final(self)@.clients == old(self)@.clients.filter(not_client_id(client.0 as int)),
            final(self)@.client_keys == old(self)@.client_keys.filter(
                not_ck_client(client.0 as int),
            ),
            final(self)@.keys == old(self)@.keys,
            final(self)@.users == old(self)@.users,
            final(self)@.next_client_id == old(self)@.next_client_id,
            final(self)@.next_key_id == old(self)@.next_key_id,
            final(self)@.next_user_id == old(self)@.next_user_id,
            final(self)@.next_client_key_id == old(self)@.next_client_key_id,
    {
        let cid = client.0;
        let mut found = false;
        let mut kept: Vec<TableClients> = Vec::new();
        let mut i: usize = 0;
        while i < self.clients.len()
            invariant
                i <= self.clients.len(),
                self@.clients.len() == self.clients.len(),
                kept@.map_values(|c: TableClients| c@) == self@.clients.take(i as int).filter(not_client_id(cid as int)),
                found <==> exists|k: int|
                    0 <= k < i && (#[trigger] self@.clients[k]).id == cid as int,
            decreases self.clients.len() - i,
        {
            let row = &self.clients[i];
            proof {
                assert(self@.clients[i as int] == self.clients@[i as int]@);
                lemma_filter_take_step(self@.clients, not_client_id(cid as int), i as int);
            }
            if row.id.0 == cid {
                proof {
                    assert(!not_client_id(cid as int)(self@.clients[i as int]));
                }
                found = true;
            } else {
                proof {
                    assert(not_client_id(cid as int)(self@.clients[i as int]));
                }
                kept.push(clone_client(row));
                proof {
                    assert(kept@.map_values(|c: TableClients| c@) =~= self@.clients.take(
                        i + 1 as int,
                    ).filter(not_client_id(cid as int)));
                }
            }
            i += 1;
        }
        let mut kept_ck: Vec<crate::database::clientkeys::TableClientsKey> = Vec::new();
        let mut j: usize = 0;
        while j < self.client_keys.len()
            invariant
                j <= self.client_keys.len(),
                self@.client_keys.len() == self.client_keys.len(),
                kept_ck@.map_values(|ck: crate::database::clientkeys::TableClientsKey| ck@)
                    == self@.client_keys.take(j as int).filter(not_ck_client(cid as int)),
            decreases self.client_keys.len() - j,
        {
            let row = &self.client_keys[j];
            proof {
                assert(self@.client_keys[j as int] == self.client_keys@[j as int]@);
                lemma_filter_take_step(self@.client_keys, not_ck_client(cid as int), j as int);
            }
            if row.client_id.0 != cid {
                proof {
                    assert(not_ck_client(cid as int)(self@.client_keys[j as int]));
                }
                kept_ck.push(crate::database::clientkeys::clone_clientkey(row));
                proof {
                    assert(kept_ck@.map_values(
                        |ck: crate::database::clientkeys::TableClientsKey| ck@,
                    ) =~= self@.client_keys.take(j + 1 as int).filter(not_ck_client(cid as int)));
                }
            } else {
                proof {
                    assert(!not_ck_client(cid as int)(self@.client_keys[j as int]));
                }
            }
            j += 1;
        }
        proof {
            lemma_take_all(self@.clients);
            lemma_take_all(self@.client_keys);
            lemma_first_match_none(self@.clients, by_client_id(cid as int));
            if found {
                let k = choose|k: int|
                    0 <= k < self@.clients.len() && (#[trigger] self@.clients[k]).id
                        == cid as int;
                assert(by_client_id(cid as int)(self@.clients[k]));
            } else {
                assert forall|k: int| 0 <= k < self@.clients.len() implies !(by_client_id(
                    cid as int,
                )(#[trigger] self@.clients[k])) by {}
            }
        }
        self.clients = kept;
        self.client_keys = kept_ck;
        proof {
            lemma_wf_after_client_delete(old(self)@, self@, cid as int);
        }
        found
    }
}

} // verus!
