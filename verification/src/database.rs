//! The relational store: users, clients, keys and client-key associations.
//!
//! The store is a set of in-memory tables.  Its mathematical view is a
//! [`DbView`]: one sequence of row views per table plus the next surrogate
//! id of each id space.  Every operation preserves [`DbView::wf`]: ids are
//! unique per table and below the table's next id, session tokens and
//! association secrets are unique, at most one association exists per
//! (client, key) pair, and every association references an existing client
//! and an existing key.

use vstd::prelude::*;

pub mod clientkeys;
pub mod clients;
pub mod keys;
pub mod users;

use crate::database::clientkeys::{ClientKeyView, TableClientsKey};
use crate::database::clients::{ClientView, TableClients};
use crate::database::keys::{KeyView, TableKeys};
use crate::database::users::{TableUsers, UserView};
use crate::rows::first_match;

use chrono::Datelike;

verus! {

/// A calendar date as plain values.
#[derive(Clone, Copy, Debug, PartialEq, Eq, Structural)]
pub struct Date {
    pub year: i32,
    /// 1 through 12.
    pub month: u8,
    /// 1 through 31.
    pub day: u8,
}

impl Date {
    /// A plausible calendar date: month and day start at one.
    pub open spec fn wf(self) -> bool {
        &&& 1 <= self.month <= 12
        &&& 1 <= self.day <= 31
    }
}

impl View for Date {
    type V = Date;

    open spec fn view(&self) -> Date {
        *self
    }
}

/// Relies on `chrono::Utc::now`, `DateTime::date_naive` and the `Datelike`
/// accessors `year`, `month` and `day`: `month` is documented to be 1-12 and
/// `day` 1-31.  The result depends on the clock, so nothing more is promised.
#[verifier::external_body]
pub fn current_date() -> (r: Date)
    ensures
        r.wf(),
{
    let d = chrono::Utc::now().date_naive();
    Date { year: d.year(), month: d.month() as u8, day: d.day() as u8 }
}

/// The store's mathematical state: the rows of the four tables in insertion
/// order, and the next surrogate id of each id space.
pub ghost struct DbView {
    pub clients: Seq<ClientView>,
    pub keys: Seq<KeyView>,
    pub users: Seq<UserView>,
    pub client_keys: Seq<ClientKeyView>,
    pub next_client_id: int,
    pub next_key_id: int,
    pub next_user_id: int,
    pub next_client_key_id: int,
}

/// Matches the client row with the given id.
pub open spec fn by_client_id(id: int) -> spec_fn(ClientView) -> bool {
    |c: ClientView| c.id == id
}

/// Keeps the client rows whose id differs from the given id.
pub open spec fn not_client_id(id: int) -> spec_fn(ClientView) -> bool {
    |c: ClientView| c.id != id
}

/// Matches the key row with the given id.
pub open spec fn by_key_id(id: int) -> spec_fn(KeyView) -> bool {
    |k: KeyView| k.id == id
}

/// Keeps the key rows whose id differs from the given id.
pub open spec fn not_key_id(id: int) -> spec_fn(KeyView) -> bool {
    |k: KeyView| k.id != id
}

/// Matches the user row with the given id.
pub open spec fn by_user_id(id: int) -> spec_fn(UserView) -> bool {
    |u: UserView| u.id == id
}

/// Keeps the user rows whose id differs from the given id.
pub open spec fn not_user_id(id: int) -> spec_fn(UserView) -> bool {
    |u: UserView| u.id != id
}

/// Matches the user row carrying the given session token.
pub open spec fn by_user_token(t: Seq<char>) -> spec_fn(UserView) -> bool {
    |u: UserView| u.token == t
}

/// Matches the user row with the given name.
pub open spec fn by_user_name(n: Seq<char>) -> spec_fn(UserView) -> bool {
    |u: UserView| u.name == n
}

/// Matches the association row with the given id.
pub open spec fn by_ck_id(id: int) -> spec_fn(ClientKeyView) -> bool {
    |ck: ClientKeyView| ck.id == id
}

/// Keeps the association rows whose id differs from the given id.
pub open spec fn not_ck_id(id: int) -> spec_fn(ClientKeyView) -> bool {
    |ck: ClientKeyView| ck.id != id
}

/// Matches the association row binding the given client and key.
pub open spec fn by_ck_pair(cid: int, kid: int) -> spec_fn(ClientKeyView) -> bool {
    |ck: ClientKeyView| ck.client_id == cid && ck.key_id == kid
}

/// Matches the association row carrying the given secret.
pub open spec fn by_ck_secret(s: Seq<char>) -> spec_fn(ClientKeyView) -> bool {
    |ck: ClientKeyView| ck.secret == s
}

/// Keeps the association rows not referencing the given client.
pub open spec fn not_ck_client(cid: int) -> spec_fn(ClientKeyView) -> bool {
    |ck: ClientKeyView| ck.client_id != cid
}

/// Keeps the association rows not referencing the given key.
pub open spec fn not_ck_key(kid: int) -> spec_fn(ClientKeyView) -> bool {
    |ck: ClientKeyView| ck.key_id != kid
}

/// Keeps the key rows associated with the given client.
pub open spec fn assoc_key_for(db: DbView, cid: int) -> spec_fn(KeyView) -> bool {
    |k: KeyView| db.has_pair(cid, k.id)
}

/// Keeps the key rows not associated with the given client.
pub open spec fn unassoc_key_for(db: DbView, cid: int) -> spec_fn(KeyView) -> bool {
    |k: KeyView| !db.has_pair(cid, k.id)
}

impl DbView {
    /// Some client row has the given id.
    pub open spec fn contains_client(self, id: int) -> bool {
        exists|i: int| 0 <= i < self.clients.len() && (#[trigger] self.clients[i]).id == id
    }

    /// Some key row has the given id.
    pub open spec fn contains_key(self, id: int) -> bool {
        exists|i: int| 0 <= i < self.keys.len() && (#[trigger] self.keys[i]).id == id
    }

    /// The client row with the given id, if any.
    pub open spec fn client_of(self, id: int) -> Option<ClientView> {
        first_match(self.clients, by_client_id(id))
    }

    /// The key row with the given id, if any.
    pub open spec fn key_of(self, id: int) -> Option<KeyView> {
        first_match(self.keys, by_key_id(id))
    }

    /// The user row with the given id, if any.
    pub open spec fn user_of(self, id: int) -> Option<UserView> {
        first_match(self.users, by_user_id(id))
    }

    /// The user row carrying the given session token, if any.
    pub open spec fn user_of_token(self, t: Seq<char>) -> Option<UserView> {
        first_match(self.users, by_user_token(t))
    }

    /// The user row with the given name, if any.
    pub open spec fn user_of_name(self, n: Seq<char>) -> Option<UserView> {
        first_match(self.users, by_user_name(n))
    }

    /// The association row with the given id, if any.
    pub open spec fn ck_of(self, id: int) -> Option<ClientKeyView> {
        first_match(self.client_keys, by_ck_id(id))
    }

    /// The association row binding the given client and key, if any.
    pub open spec fn ck_of_pair(self, cid: int, kid: int) -> Option<ClientKeyView> {
        first_match(self.client_keys, by_ck_pair(cid, kid))
    }

    /// The association row carrying the given secret, if any.
    pub open spec fn ck_of_secret(self, s: Seq<char>) -> Option<ClientKeyView> {
        first_match(self.client_keys, by_ck_secret(s))
    }

    /// The given client and key are associated.
    pub open spec fn has_pair(self, cid: int, kid: int) -> bool {
        self.ck_of_pair(cid, kid) is Some
    }

    /// Some association row carries the given secret.
    pub open spec fn secret_in_use(self, s: Seq<char>) -> bool {
        self.ck_of_secret(s) is Some
    }

    /// Some user row carries the given session token.
    pub open spec fn token_in_use(self, t: Seq<char>) -> bool {
        self.user_of_token(t) is Some
    }

    /// Client rows carry unique ids allocated below the next id.
    pub open spec fn clients_wf(self) -> bool {
        &&& forall|i: int, j: int|
            0 <= i < j < self.clients.len() ==> (#[trigger] self.clients[i]).id != (
            #[trigger] self.clients[j]).id
        &&& forall|i: int|
            0 <= i < self.clients.len() ==> 1 <= (#[trigger] self.clients[i]).id
                < self.next_client_id
    }

    /// Key rows carry unique ids allocated below the next id.
    pub open spec fn keys_wf(self) -> bool {
        &&& forall|i: int, j: int|
            0 <= i < j < self.keys.len() ==> (#[trigger] self.keys[i]).id != (
            #[trigger] self.keys[j]).id
        &&& forall|i: int|
            0 <= i < self.keys.len() ==> 1 <= (#[trigger] self.keys[i]).id < self.next_key_id
    }

    /// User rows carry unique ids and unique session tokens.
    pub open spec fn users_wf(self) -> bool {
        &&& forall|i: int, j: int|
            0 <= i < j < self.users.len() ==> (#[trigger] self.users[i]).id != (
            #[trigger] self.users[j]).id
        &&& forall|i: int|
            0 <= i < self.users.len() ==> 1 <= (#[trigger] self.users[i]).id < self.next_user_id
        &&& forall|i: int, j: int|
            0 <= i < j < self.users.len() ==> (#[trigger] self.users[i]).token != (
            #[trigger] self.users[j]).token
    }

    /// Association rows carry unique ids and unique secrets, and at most one
    /// association exists per (client, key) pair.
    pub open spec fn cks_wf(self) -> bool {
        &&& forall|i: int, j: int|
            0 <= i < j < self.client_keys.len() ==> (#[trigger] self.client_keys[i]).id != (
            #[trigger] self.client_keys[j]).id
        &&& forall|i: int|
            0 <= i < self.client_keys.len() ==> 1 <= (#[trigger] self.client_keys[i]).id
                < self.next_client_key_id
        &&& forall|i: int, j: int|
            0 <= i < j < self.client_keys.len() ==> ((#[trigger] self.client_keys[i]).client_id
                != (#[trigger] self.client_keys[j]).client_id || self.client_keys[i].key_id
                != self.client_keys[j].key_id)
        &&& forall|i: int, j: int|
            0 <= i < j < self.client_keys.len() ==> (#[trigger] self.client_keys[i]).secret != (
            #[trigger] self.client_keys[j]).secret
    }

    /// Referential integrity: associations point at existing rows.
    pub open spec fn fk_wf(self) -> bool {
        forall|i: int|
            0 <= i < self.client_keys.len() ==> self.contains_client(
                (#[trigger] self.client_keys[i]).client_id,
            ) && self.contains_key(self.client_keys[i].key_id)
    }

    /// The store's invariants.
    pub open spec fn wf(self) -> bool {
        &&& 1 <= self.next_client_id <= i64::MAX
        &&& 1 <= self.next_key_id <= i64::MAX
        &&& 1 <= self.next_user_id <= i64::MAX
        &&& 1 <= self.next_client_key_id <= i64::MAX
        &&& self.clients_wf()
        &&& self.keys_wf()
        &&& self.users_wf()
        &&& self.cks_wf()
        &&& self.fk_wf()
    }
}

/// Fetching a client twice without an intervening mutation returns
/// identical values: the lookup is a function of the store's state alone,
/// so two results that each satisfy `fetch_client`'s contract against the
/// same state are equal.
pub proof fn lemma_fetch_client_idempotent(
    db: DbView,
    id: int,
    r1: Option<ClientView>,
    r2: Option<ClientView>,
)
    requires
        r1 == db.client_of(id),
        r2 == db.client_of(id),
    ensures
        r1 == r2,
{
}

/// Fetching a key twice without an intervening mutation returns identical
/// values.
pub proof fn lemma_fetch_key_idempotent(db: DbView, id: int, r1: Option<KeyView>, r2: Option<
    KeyView,
>)
    requires
        r1 == db.key_of(id),
        r2 == db.key_of(id),
    ensures
        r1 == r2,
{
}

/// Fetching a user twice without an intervening mutation returns identical
/// values.
pub proof fn lemma_fetch_user_idempotent(db: DbView, id: int, r1: Option<UserView>, r2: Option<
    UserView,
>)
    requires
        r1 == db.user_of(id),
        r2 == db.user_of(id),
    ensures
        r1 == r2,
{
}

/// Fetching an association twice without an intervening mutation returns
/// identical values.
pub proof fn lemma_fetch_ck_idempotent(
    db: DbView,
    id: int,
    r1: Option<ClientKeyView>,
    r2: Option<ClientKeyView>,
)
    requires
        r1 == db.ck_of(id),
        r2 == db.ck_of(id),
    ensures
        r1 == r2,
{
}

/// Creating a client-key association twice for the same pair yields a
/// conflict on the second attempt and leaves the first association
/// unmodified: a successful creation makes the pair exist, and
/// `create_clientkey` promises that in any state where the pair exists it
/// returns `Conflict` with the store unchanged.
pub proof fn lemma_duplicate_association(
    pre: DbView,
    post: DbView,
    cid: int,
    kid: int,
    id: int,
    s: Seq<char>,
)
    requires
        post.client_keys == pre.client_keys.push(
            ClientKeyView { id: id, client_id: cid, key_id: kid, secret: s, last_used: None },
        ),
    ensures
        post.has_pair(cid, kid),
{
    let n = pre.client_keys.len() as int;
    assert(by_ck_pair(cid, kid)(post.client_keys[n]));
    crate::rows::lemma_first_match_none(post.client_keys, by_ck_pair(cid, kid));
}

/// Deleting a key removes exactly the associations that reference it: an
/// association survives the cascade if and only if it was present before
/// and references a different key.  The key and client tables themselves
/// are untouched by the cascade, as `remove_key` states.
pub proof fn lemma_cascade_key(pre: DbView, post: DbView, kid: int)
    requires
        post.client_keys == pre.client_keys.filter(not_ck_key(kid)),
    ensures
        forall|x: ClientKeyView|
            #[trigger] post.client_keys.contains(x) <==> pre.client_keys.contains(x) && x.key_id
                != kid,
{
    let p = not_ck_key(kid);
    crate::rows::lemma_filter_from(pre.client_keys, p);
    assert forall|x: ClientKeyView| #[trigger] post.client_keys.contains(x) implies pre.client_keys.contains(
        x,
    ) && x.key_id != kid by {
        let i = choose|i: int| 0 <= i < post.client_keys.len() && post.client_keys[i] == x;
        pre.client_keys.lemma_filter_pred(p, i);
        let k = choose|k: int|
            0 <= k < pre.client_keys.len() && pre.client_keys[k] == pre.client_keys.filter(p)[i];
        assert(pre.client_keys[k] == x);
    }
    assert forall|x: ClientKeyView|
        pre.client_keys.contains(x) && x.key_id != kid implies #[trigger] post.client_keys.contains(
        x,
    ) by {
        let i = choose|i: int| 0 <= i < pre.client_keys.len() && pre.client_keys[i] == x;
        assert(p(pre.client_keys[i]));
        pre.client_keys.lemma_filter_contains(p, i);
    }
}

/// Deleting a client removes exactly the associations that reference it:
/// an association survives the cascade if and only if it was present
/// before and references a different client.  The key rows themselves are
/// untouched by the cascade, as `remove_client` states.
pub proof fn lemma_cascade_client(pre: DbView, post: DbView, cid: int)
    requires
        post.client_keys == pre.client_keys.filter(not_ck_client(cid)),
    ensures
        forall|x: ClientKeyView|
            #[trigger] post.client_keys.contains(x) <==> pre.client_keys.contains(x)
                && x.client_id != cid,
{
    let p = not_ck_client(cid);
    crate::rows::lemma_filter_from(pre.client_keys, p);
    assert forall|x: ClientKeyView| #[trigger] post.client_keys.contains(x) implies pre.client_keys.contains(
        x,
    ) && x.client_id != cid by {
        let i = choose|i: int| 0 <= i < post.client_keys.len() && post.client_keys[i] == x;
        pre.client_keys.lemma_filter_pred(p, i);
        let k = choose|k: int|
            0 <= k < pre.client_keys.len() && pre.client_keys[k] == pre.client_keys.filter(p)[i];
        assert(pre.client_keys[k] == x);
    }
    assert forall|x: ClientKeyView|
        pre.client_keys.contains(x) && x.client_id != cid implies #[trigger] post.client_keys.contains(
        x,
    ) by {
        let i = choose|i: int| 0 <= i < pre.client_keys.len() && pre.client_keys[i] == x;
        assert(p(pre.client_keys[i]));
        pre.client_keys.lemma_filter_contains(p, i);
    }
}

/// An association row present in a well-formed store is the row its id
/// lookup finds: ids are unique, so any way of locating a row agrees with
/// the lookup by id.
pub proof fn lemma_ck_id_lookup(db: DbView, ck: ClientKeyView)
    requires
        db.wf(),
        exists|k: int| 0 <= k < db.client_keys.len() && #[trigger] db.client_keys[k] == ck,
    ensures
        db.ck_of(ck.id) == Some(ck),
{
    let k = choose|k: int| 0 <= k < db.client_keys.len() && #[trigger] db.client_keys[k] == ck;
    assert(by_ck_id(ck.id)(db.client_keys[k]));
    assert forall|m: int| 0 <= m < k implies !by_ck_id(ck.id)(#[trigger] db.client_keys[m]) by {
        assert(db.client_keys[m].id != db.client_keys[k].id);
    }
    crate::rows::lemma_first_match_index(db.client_keys, by_ck_id(ck.id), k);
}

/// A table whose rows did not change stays well formed when its next id
/// does not shrink.
pub(crate) proof fn lemma_clients_wf_frame(a: DbView, b: DbView)
    requires
        a.clients_wf(),
        b.clients == a.clients,
        b.next_client_id >= a.next_client_id,
    ensures
        b.clients_wf(),
{
    assert forall|i: int, j: int| 0 <= i < j < b.clients.len() implies (
    #[trigger] b.clients[i]).id != (#[trigger] b.clients[j]).id by {
        assert(b.clients[i] == a.clients[i] && b.clients[j] == a.clients[j]);
    }
    assert forall|i: int| 0 <= i < b.clients.len() implies 1 <= (#[trigger] b.clients[i]).id
        < b.next_client_id by {
        assert(b.clients[i] == a.clients[i]);
    }
}

/// A table whose rows did not change stays well formed when its next id
/// does not shrink.
pub(crate) proof fn lemma_keys_wf_frame(a: DbView, b: DbView)
    requires
        a.keys_wf(),
        b.keys == a.keys,
        b.next_key_id >= a.next_key_id,
    ensures
        b.keys_wf(),
{
    assert forall|i: int, j: int| 0 <= i < j < b.keys.len() implies (#[trigger] b.keys[i]).id != (
    #[trigger] b.keys[j]).id by {
        assert(b.keys[i] == a.keys[i] && b.keys[j] == a.keys[j]);
    }
    assert forall|i: int| 0 <= i < b.keys.len() implies 1 <= (#[trigger] b.keys[i]).id
        < b.next_key_id by {
        assert(b.keys[i] == a.keys[i]);
    }
}

/// A table whose rows did not change stays well formed when its next id
/// does not shrink.
pub(crate) proof fn lemma_users_wf_frame(a: DbView, b: DbView)
    requires
        a.users_wf(),
        b.users == a.users,
        b.next_user_id >= a.next_user_id,
    ensures
        b.users_wf(),
{
    assert forall|i: int, j: int| 0 <= i < j < b.users.len() implies (
    #[trigger] b.users[i]).id != (#[trigger] b.users[j]).id by {
        assert(b.users[i] == a.users[i] && b.users[j] == a.users[j]);
    }
    assert forall|i: int| 0 <= i < b.users.len() implies 1 <= (#[trigger] b.users[i]).id
        < b.next_user_id by {
        assert(b.users[i] == a.users[i]);
    }
    assert forall|i: int, j: int| 0 <= i < j < b.users.len() implies (
    #[trigger] b.users[i]).token != (#[trigger] b.users[j]).token by {
        assert(b.users[i] == a.users[i] && b.users[j] == a.users[j]);
    }
}

/// A table whose rows did not change stays well formed when its next id
/// does not shrink.
pub(crate) proof fn lemma_cks_wf_frame(a: DbView, b: DbView)
    requires
        a.cks_wf(),
        b.client_keys == a.client_keys,
        b.next_client_key_id >= a.next_client_key_id,
    ensures
        b.cks_wf(),
{
    assert forall|i: int, j: int| 0 <= i < j < b.client_keys.len() implies (
    #[trigger] b.client_keys[i]).id != (#[trigger] b.client_keys[j]).id && (
    #[trigger] b.client_keys[i]).secret != (#[trigger] b.client_keys[j]).secret && (
    b.client_keys[i].client_id != b.client_keys[j].client_id || b.client_keys[i].key_id
        != b.client_keys[j].key_id) by {
        assert(b.client_keys[i] == a.client_keys[i] && b.client_keys[j] == a.client_keys[j]);
    }
    assert forall|i: int| 0 <= i < b.client_keys.len() implies 1 <= (
    #[trigger] b.client_keys[i]).id < b.next_client_key_id by {
        assert(b.client_keys[i] == a.client_keys[i]);
    }
}

/// Associations whose referenced tables did not lose the referenced rows
/// keep referential integrity.
pub(crate) proof fn lemma_fk_frame(a: DbView, b: DbView)
    requires
        a.fk_wf(),
        b.client_keys == a.client_keys,
        b.clients == a.clients,
        b.keys == a.keys,
    ensures
        b.fk_wf(),
{
    assert forall|i: int| 0 <= i < b.client_keys.len() implies b.contains_client(
        (#[trigger] b.client_keys[i]).client_id,
    ) && b.contains_key(b.client_keys[i].key_id) by {
        assert(b.client_keys[i] == a.client_keys[i]);
        let ck = a.client_keys[i];
        let j = choose|j: int|
            0 <= j < a.clients.len() && (#[trigger] a.clients[j]).id == ck.client_id;
        assert((#[trigger] b.clients[j]).id == ck.client_id);
        let j2 = choose|j2: int| 0 <= j2 < a.keys.len() && (#[trigger] a.keys[j2]).id == ck.key_id;
        assert((#[trigger] b.keys[j2]).id == ck.key_id);
    }
}

/// The in-memory relational store.
#[derive(Debug)]
pub struct Database {
    clients: Vec<TableClients>,
    keys: Vec<TableKeys>,
    users: Vec<TableUsers>,
    client_keys: Vec<TableClientsKey>,
    next_client_id: i64,
    next_key_id: i64,
    next_user_id: i64,
    next_client_key_id: i64,
}

impl View for Database {
    type V = DbView;

    closed spec fn view(&self) -> DbView {
        DbView {
            clients: self.clients@.map_values(|c: TableClients| c@),
            keys: self.keys@.map_values(|k: TableKeys| k@),
            users: self.users@.map_values(|u: TableUsers| u@),
            client_keys: self.client_keys@.map_values(|ck: TableClientsKey| ck@),
            next_client_id: self.next_client_id as int,
            next_key_id: self.next_key_id as int,
            next_user_id: self.next_user_id as int,
            next_client_key_id: self.next_client_key_id as int,
        }
    }
}

impl Database {
    /// Creates an empty store with every id space starting at one.
    pub fn new() -> (r: Database)
        ensures
            r@.wf(),
            r@.clients.len() == 0,
            r@.keys.len() == 0,
            r@.users.len() == 0,
            r@.client_keys.len() == 0,
            r@.next_client_id == 1,
            r@.next_key_id == 1,
            r@.next_user_id == 1,
            r@.next_client_key_id == 1,
    {
        Database {
            clients: Vec::new(),
            keys: Vec::new(),
            users: Vec::new(),
            client_keys: Vec::new(),
            next_client_id: 1,
            next_key_id: 1,
            next_user_id: 1,
            next_client_key_id: 1,
        }
    }
}

} // verus!
