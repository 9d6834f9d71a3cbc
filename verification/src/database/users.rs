//! The users table: human operators authenticated through federated login,
//! each carrying an opaque session token.

use vstd::prelude::*;

use crate::database::{
    by_user_id, by_user_name, by_user_token, lemma_cks_wf_frame, lemma_clients_wf_frame,
    lemma_fk_frame, lemma_keys_wf_frame, not_user_id, Database, DbView,
};
use crate::rows::{
    lemma_filter_all, lemma_filter_pairwise, lemma_filter_take_step, lemma_first_match_index,
    lemma_first_match_none, lemma_take_all,
};
use crate::secret::{generate_secret, is_hex64};
use crate::Error;

verus! {

/// The surrogate id of a user row.
#[derive(Debug, Clone, Copy, Hash, PartialEq, Eq, Structural)]
pub struct UserId(pub i64);

impl UserId {
    /// The raw 64-bit value of the id.
    pub fn inner(self) -> (r: i64)
        ensures
            r == self.0,
    {
        self.0
    }
}

/// A user row.
#[derive(Debug)]
pub struct TableUsers {
    pub id: UserId,
    pub name: String,
    /// The current session secret; unique across all users.
    pub token: String,
}

/// The mathematical content of a user row.
pub ghost struct UserView {
    pub id: int,
    pub name: Seq<char>,
    pub token: Seq<char>,
}

impl View for TableUsers {
    type V = UserView;

    open spec fn view(&self) -> UserView {
        UserView { id: self.id.0 as int, name: self.name@, token: self.token@ }
    }
}

/// A field-for-field copy of a user row.
pub fn clone_user(u: &TableUsers) -> (r: TableUsers)
    ensures
        r@ == u@,
{
    TableUsers { id: u.id, name: u.name.clone(), token: u.token.clone() }
}

impl Database {
    /// Inserts a user row carrying the given session token under a fresh
    /// id.  Fails with `Conflict` when the token is already in use, so the
    /// token-uniqueness invariant is never broken, and with `Internal` when
    /// the id space is exhausted.
    pub fn insert_user_with_token(&mut self, name: String, token: String) -> (r: Result<
        UserId,
        Error,
    >)
        requires
            old(self)@.wf(),
        ensures
            final(self)@.wf(),
            r is Ok <==> !old(self)@.token_in_use(token@) && old(self)@.next_user_id < i64::MAX,
            old(self)@.token_in_use(token@) ==> r == Err::<UserId, Error>(Error::Conflict),
            !old(self)@.token_in_use(token@) && old(self)@.next_user_id == i64::MAX ==> r
                == Err::<UserId, Error>(Error::Internal),
            r is Err ==> final(self)@ == old(self)@,
            r matches Ok(id) ==> {
                &&& id.0 as int == old(self)@.next_user_id
                &&& final(self)@.users == old(self)@.users.push(
                    (UserView { id: id.0 as int, name: name@, token: token@ }),
                )
                &&& final(self)@.next_user_id == old(self)@.next_user_id + 1
                &&& final(self)@.user_of(id.0 as int) == Some(
                    (UserView { id: id.0 as int, name: name@, token: token@ }),
                )
                &&& final(self)@.user_of_token(token@) == Some(
                    (UserView { id: id.0 as int, name: name@, token: token@ }),
                )
            },
            final(self)@.clients == old(self)@.clients,
            final(self)@.keys == old(self)@.keys,
            final(self)@.client_keys == old(self)@.client_keys,
            final(self)@.next_client_id == old(self)@.next_client_id,
            final(self)@.next_key_id == old(self)@.next_key_id,
            final(self)@.next_client_key_id == old(self)@.next_client_key_id,
    {
        let mut i: usize = 0;
        while i < self.users.len()
            invariant
                old(self)@.wf(),
                self@ == old(self)@,
                i <= self.users.len(),
                self@.users.len() == self.users.len(),
                forall|k: int| 0 <= k < i ==> (#[trigger] self@.users[k]).token != token@,
            decreases self.users.len() - i,
        {
            let row = &self.users[i];
            proof {
                assert(self@.users[i as int] == self.users@[i as int]@);
            }
            if row.token == token {
                proof {
                    assert(by_user_token(token@)(self@.users[i as int]));
                    assert(forall|k: int|
                        0 <= k < i ==> !by_user_token(token@)(#[trigger] self@.users[k]));
                    lemma_first_match_index(self@.users, by_user_token(token@), i as int);
                }
                return Err(Error::Conflict);
            }
            i += 1;
        }
        proof {
            assert(forall|k: int|
                0 <= k < self@.users.len() ==> !by_user_token(token@)(#[trigger] self@.users[k]));
            lemma_first_match_none(self@.users, by_user_token(token@));
        }
        if self.next_user_id == i64::MAX {
            return Err(Error::Internal);
        }
        let id = UserId(self.next_user_id);
        let ghost nview = name@;
        let ghost tview = token@;
        self.next_user_id = self.next_user_id + 1;
        self.users.push(TableUsers { id, name, token });
        proof {
            let oldv = old(self)@;
            let newv = self@;
            let uv = UserView { id: id.0 as int, name: nview, token: tview };
            assert(newv.users =~= oldv.users.push(uv));
            assert forall|a: int, b: int| 0 <= a < b < newv.users.len() implies (
            #[trigger] newv.users[a]).id != (#[trigger] newv.users[b]).id && (
            newv.users[a]).token != (newv.users[b]).token by {
                assert(newv.users[a] == oldv.users[a]);
                if b < oldv.users.len() {
                    assert(newv.users[b] == oldv.users[b]);
                } else {
                    assert(1 <= oldv.users[a].id < oldv.next_user_id);
                    assert(oldv.users[a].token != tview);
                }
            }
            assert forall|a: int| 0 <= a < newv.users.len() implies 1 <= (
            #[trigger] newv.users[a]).id < newv.next_user_id by {
                if a < oldv.users.len() {
                    assert(newv.users[a] == oldv.users[a]);
                    assert(1 <= oldv.users[a].id < oldv.next_user_id);
                }
            }
            lemma_clients_wf_frame(oldv, newv);
            lemma_keys_wf_frame(oldv, newv);
            lemma_cks_wf_frame(oldv, newv);
            lemma_fk_frame(oldv, newv);
            assert(by_user_id(id.0 as int)(newv.users[oldv.users.len() as int]));
            assert forall|k: int| 0 <= k < oldv.users.len() implies !by_user_id(id.0 as int)(
                #[trigger] newv.users[k],
            ) by {
                assert(newv.users[k] == oldv.users[k]);
                assert(1 <= oldv.users[k].id < oldv.next_user_id);
            }
            lemma_first_match_index(newv.users, by_user_id(id.0 as int), oldv.users.len() as int);
            assert(by_user_token(tview)(newv.users[oldv.users.len() as int]));
            assert forall|k: int| 0 <= k < oldv.users.len() implies !by_user_token(tview)(
                #[trigger] newv.users[k],
            ) by {
                assert(newv.users[k] == oldv.users[k]);
            }
            lemma_first_match_index(newv.users, by_user_token(tview), oldv.users.len() as int);
        }
        Ok(id)
    }

    /// Creates a user carrying a freshly generated session token and
    /// returns the id and the token.  The token is never derived from the
    /// name or any other caller-supplied data.
    pub fn create_user(&mut self, name: String) -> (r: Result<(UserId, String), Error>)
        requires
            old(self)@.wf(),
        ensures
            final(self)@.wf(),
            r matches Ok((id, t)) ==> {
                &&& is_hex64(t@)
                &&& !old(self)@.token_in_use(t@)
                &&& id.0 as int == old(self)@.next_user_id
                &&& final(self)@.users == old(self)@.users.push(
                    (UserView { id: id.0 as int, name: name@, token: t@ }),
                )
                &&& final(self)@.next_user_id == old(self)@.next_user_id + 1
                &&& final(self)@.user_of_token(t@) == Some(
                    (UserView { id: id.0 as int, name: name@, token: t@ }),
                )
            },
            r is Err ==> final(self)@ == old(self)@,
            old(self)@.next_user_id < i64::MAX && r is Err ==> r == Err::<
                (UserId, String),
                Error,
            >(Error::Conflict),
            // on an empty users table no token can collide, so success is owed
            old(self)@.users.len() == 0 && old(self)@.next_user_id < i64::MAX ==> r is Ok,
            r == Err::<(UserId, String), Error>(Error::Conflict) ==> old(self)@.users.len() > 0,
            r == Err::<(UserId, String), Error>(Error::Internal) ==> old(self)@.next_user_id
                == i64::MAX,
            final(self)@.clients == old(self)@.clients,
            final(self)@.keys == old(self)@.keys,
            final(self)@.client_keys == old(self)@.client_keys,
            final(self)@.next_client_id == old(self)@.next_client_id,
            final(self)@.next_key_id == old(self)@.next_key_id,
            final(self)@.next_client_key_id == old(self)@.next_client_key_id,
    {
        let token = generate_secret();
        let stored = token.clone();
        proof {
            if self@.users.len() == 0 {
                assert(self@.user_of_token(stored@) is None);
            }
        }
        match self.insert_user_with_token(name, stored) {
            Ok(id) => Ok((id, token)),
            Err(e) => Err(e),
        }
    }

    /// The user row with the given id, if one exists.
    pub fn fetch_user(&self, id: UserId) -> (r: Option<TableUsers>)
        ensures
            r is Some <==> self@.user_of(id.0 as int) is Some,
            r matches Some(u) ==> Some(u@) == self@.user_of(id.0 as int),
    {
        let mut i: usize = 0;
        while i < self.users.len()
            invariant
                i <= self.users.len(),
                self@.users.len() == self.users.len(),
                forall|k: int| 0 <= k < i ==> (#[trigger] self@.users[k]).id != id.0 as int,
            decreases self.users.len() - i,
        {
            let row = &self.users[i];
            proof {
                assert(self@.users[i as int] == self.users@[i as int]@);
            }
            if row.id.0 == id.0 {
                let u = clone_user(row);
                proof {
                    assert(by_user_id(id.0 as int)(self@.users[i as int]));
                    assert(forall|k: int|
                        0 <= k < i ==> !by_user_id(id.0 as int)(#[trigger] self@.users[k]));
                    lemma_first_match_index(self@.users, by_user_id(id.0 as int), i as int);
                }
                return Some(u);
            }
            i += 1;
        }
        proof {
            assert(forall|k: int|
                0 <= k < self@.users.len() ==> !by_user_id(id.0 as int)(
                    #[trigger] self@.users[k],
                ));
            lemma_first_match_none(self@.users, by_user_id(id.0 as int));
        }
        None
    }

    /// Removes the user row with the given id.  Returns whether a user row
    /// was removed.
    pub fn remove_user(&mut self, user: UserId) -> (r: bool)
        requires
            old(self)@.wf(),
        ensures
            final(self)@.wf(),
            r == (old(self)@.user_of(user.0 as int) is Some),
            final(self)@.users == old(self)@.users.filter(not_user_id(user.0 as int)),
            final(self)@.clients == old(self)@.clients,
            final(self)@.keys == old(self)@.keys,
            final(self)@.client_keys == old(self)@.client_keys,
            final(self)@.next_client_id == old(self)@.next_client_id,
            final(self)@.next_key_id == old(self)@.next_key_id,
            final(self)@.next_user_id == old(self)@.next_user_id,
            final(self)@.next_client_key_id == old(self)@.next_client_key_id,
    {
        let uid = user.0;
        let mut found = false;
        let mut kept: Vec<TableUsers> = Vec::new();
        let mut i: usize = 0;
        while i < self.users.len()
            invariant
                i <= self.users.len(),
                self@.users.len() == self.users.len(),
                kept@.map_values(|u: TableUsers| u@) == self@.users.take(i as int).filter(
                    not_user_id(uid as int),
                ),
                found <==> exists|k: int|
                    0 <= k < i && (#[trigger] self@.users[k]).id == uid as int,
            decreases self.users.len() - i,
        {
            let row = &self.users[i];
            proof {
                assert(self@.users[i as int] == self.users@[i as int]@);
                lemma_filter_take_step(self@.users, not_user_id(uid as int), i as int);
            }
            if row.id.0 == uid {
                proof {
                    assert(!not_user_id(uid as int)(self@.users[i as int]));
                }
                found = true;
            } else {
                proof {
                    assert(not_user_id(uid as int)(self@.users[i as int]));
                }
                kept.push(clone_user(row));
                proof {
                    assert(kept@.map_values(|u: TableUsers| u@) =~= self@.users.take(
                        i + 1 as int,
                    ).filter(not_user_id(uid as int)));
                }
            }
            i += 1;
        }
        proof {
            lemma_take_all(self@.users);
            lemma_first_match_none(self@.users, by_user_id(uid as int));
            if found {
                let k = choose|k: int|
                    0 <= k < self@.users.len() && (#[trigger] self@.users[k]).id == uid as int;
                assert(by_user_id(uid as int)(self@.users[k]));
            } else {
                assert forall|k: int| 0 <= k < self@.users.len() implies !(by_user_id(uid as int)(
                    #[trigger] self@.users[k],
                )) by {}
            }
        }
        self.users = kept;
        proof {
            let oldv = old(self)@;
            let newv = self@;
            let pu = not_user_id(uid as int);
            lemma_filter_pairwise(oldv.users, pu, |a: UserView, b: UserView| a.id != b.id);
            lemma_filter_pairwise(oldv.users, pu, |a: UserView, b: UserView| a.token != b.token);
            lemma_filter_all(oldv.users, pu, |u: UserView| 1 <= u.id < oldv.next_user_id);
            lemma_clients_wf_frame(oldv, newv);
            lemma_keys_wf_frame(oldv, newv);
            lemma_cks_wf_frame(oldv, newv);
            lemma_fk_frame(oldv, newv);
        }
        found
    }

    /// The id of the user carrying the given session token, if any.  The
    /// lookup is a direct equality comparison on the whole token.
    pub fn get_user_from_token(&self, token: String) -> (r: Option<UserId>)
        ensures
            r is Some <==> self@.user_of_token(token@) is Some,
            r matches Some(id) ==> self@.user_of_token(token@) matches Some(u) && u.id == id.0
                as int,
    {
        let mut i: usize = 0;
        while i < self.users.len()
            invariant
                i <= self.users.len(),
                self@.users.len() == self.users.len(),
                forall|k: int| 0 <= k < i ==> (#[trigger] self@.users[k]).token != token@,
            decreases self.users.len() - i,
        {
            let row = &self.users[i];
            proof {
                assert(self@.users[i as int] == self.users@[i as int]@);
            }
            if row.token == token {
                proof {
                    assert(by_user_token(token@)(self@.users[i as int]));
                    assert(forall|k: int|
                        0 <= k < i ==> !by_user_token(token@)(#[trigger] self@.users[k]));
                    lemma_first_match_index(self@.users, by_user_token(token@), i as int);
                }
                return Some(row.id);
            }
            i += 1;
        }
        proof {
            assert(forall|k: int|
                0 <= k < self@.users.len() ==> !by_user_token(token@)(#[trigger] self@.users[k]));
            lemma_first_match_none(self@.users, by_user_token(token@));
        }
        None
    }

    /// The user row with the given name, if any; names are not required to
    /// be unique, so this is the earliest-created match.
    pub fn get_user_from_name(&self, name: String) -> (r: Option<TableUsers>)
        ensures
            r is Some <==> self@.user_of_name(name@) is Some,
            r matches Some(u) ==> Some(u@) == self@.user_of_name(name@),
    {
        let mut i: usize = 0;
        while i < self.users.len()
            invariant
                i <= self.users.len(),
                self@.users.len() == self.users.len(),
                forall|k: int| 0 <= k < i ==> (#[trigger] self@.users[k]).name != name@,
            decreases self.users.len() - i,
        {
            let row = &self.users[i];
            proof {
                assert(self@.users[i as int] == self.users@[i as int]@);
            }
            if row.name == name {
                let u = clone_user(row);
                proof {
                    assert(by_user_name(name@)(self@.users[i as int]));
                    assert(forall|k: int|
                        0 <= k < i ==> !by_user_name(name@)(#[trigger] self@.users[k]));
                    lemma_first_match_index(self@.users, by_user_name(name@), i as int);
                }
                return Some(u);
            }
            i += 1;
        }
        proof {
            assert(forall|k: int|
                0 <= k < self@.users.len() ==> !by_user_name(name@)(#[trigger] self@.users[k]));
            lemma_first_match_none(self@.users, by_user_name(name@));
        }
        None
    }
}

} // verus!
