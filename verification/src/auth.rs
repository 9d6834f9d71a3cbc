//! The session authenticator and the decision core of the federated login.
//!
//! A request carries at most one session cookie.  The authenticator turns
//! the cookie and the outcome of resolving it against the identity store
//! into a terminal state and a cookie directive, and fails closed: no
//! outcome other than an affirmative store match yields an identity, a
//! definitively invalid cookie is cleared, and a cookie is never cleared on
//! a transient store failure.

use vstd::prelude::*;
use vstd::string::StringExecFns;

use crate::database::users::{TableUsers, UserId, UserView};
use crate::database::Database;
use crate::secret::is_hex64;
use crate::Error;

verus! {

/// An authenticated caller, as the API endpoints require it.
#[derive(Debug, Clone, Copy, PartialEq, Eq, Structural, Hash)]
pub struct UserAuth(pub UserId);

/// An authenticated caller for browser-facing routes, where failure
/// redirects to the login entry point instead of a bare rejection.
#[derive(Debug, Clone, Copy, PartialEq, Eq, Structural, Hash)]
pub struct UserAuthRedirect(pub UserId);

/// What the response must do with the session cookie.
#[derive(Debug, Clone, Copy, PartialEq, Eq, Structural)]
pub enum CookieDirective {
    /// Actively clear the cookie so the client stops resending a dead
    /// credential.
    Clear,
    /// Leave the cookie untouched.
    Keep,
}

/// The terminal state of one session check.
#[derive(Debug, Clone, Copy, PartialEq, Eq, Structural)]
pub enum AuthOutcome {
    /// The token resolved to a user.
    Authenticated(UserId),
    /// No cookie, or a token the identity store does not know.
    Rejected,
    /// The identity store failed; nothing is known about the session.
    Failed,
}

/// The outcome of one session check together with the required side effect
/// on the cookie.
#[derive(Debug, Clone, Copy, PartialEq, Eq, Structural)]
pub struct AuthDecision {
    pub outcome: AuthOutcome,
    pub cookie: CookieDirective,
}

/// One step of the session authenticator: `cookie_present` says whether
/// the request carried the session cookie, and `lookup` is the identity
/// store's answer for the carried token (ignored when no cookie was
/// present, since no lookup happens then).
///
/// The machine fails closed: it authenticates exactly when the store
/// affirmatively resolved the token; a missing cookie or an unregistered
/// token is rejected with the cookie cleared; a store failure is reported
/// as such with the cookie left untouched.
pub fn session_decision(cookie_present: bool, lookup: Result<Option<UserId>, Error>) -> (r:
    AuthDecision)
    ensures
        !cookie_present ==> r == (AuthDecision {
            outcome: AuthOutcome::Rejected,
            cookie: CookieDirective::Clear,
        }),
        cookie_present ==> (lookup matches Ok(Some(id)) ==> r == (AuthDecision {
            outcome: AuthOutcome::Authenticated(id),
            cookie: CookieDirective::Keep,
        })),
        cookie_present && lookup == Ok::<Option<UserId>, Error>(None) ==> r == (AuthDecision {
            outcome: AuthOutcome::Rejected,
            cookie: CookieDirective::Clear,
        }),
        cookie_present && lookup is Err ==> r == (AuthDecision {
            outcome: AuthOutcome::Failed,
            cookie: CookieDirective::Keep,
        }),
        r.outcome matches AuthOutcome::Authenticated(id) ==> cookie_present && lookup == Ok::<
            Option<UserId>,
            Error,
        >(Some(id)),
{
    if !cookie_present {
        return AuthDecision { outcome: AuthOutcome::Rejected, cookie: CookieDirective::Clear };
    }
    match lookup {
        Ok(Some(id)) => AuthDecision {
            outcome: AuthOutcome::Authenticated(id),
            cookie: CookieDirective::Keep,
        },
        Ok(None) => AuthDecision {
            outcome: AuthOutcome::Rejected,
            cookie: CookieDirective::Clear,
        },
        Err(_) => AuthDecision { outcome: AuthOutcome::Failed, cookie: CookieDirective::Keep },
    }
}

/// Runs the session authenticator against the in-memory identity store,
/// which never fails, so the outcome is authenticated or rejected and the
/// cookie directive follows the fail-closed rules.
pub fn authenticate(db: &Database, cookie: Option<String>) -> (r: AuthDecision)
    ensures
        cookie is None ==> r == (AuthDecision {
            outcome: AuthOutcome::Rejected,
            cookie: CookieDirective::Clear,
        }),
        cookie matches Some(t) ==> match db@.user_of_token(t@) {
            Some(u) => r.outcome == AuthOutcome::Authenticated(UserId(u.id as i64)) && r.cookie
                == CookieDirective::Keep,
            None => r == (AuthDecision {
                outcome: AuthOutcome::Rejected,
                cookie: CookieDirective::Clear,
            }),
        },
        r.outcome matches AuthOutcome::Authenticated(id) ==> cookie matches Some(t)
            && db@.user_of_token(t@) matches Some(u) && u.id == id.0 as int,
{
    match cookie {
        None => session_decision(false, Ok(None)),
        Some(t) => {
            let looked = db.get_user_from_token(t);
            session_decision(true, Ok(looked))
        },
    }
}

/// The strict variant the API endpoints use: only an authenticated outcome
/// yields an identity; rejection surfaces as `Unauthenticated` (never a
/// default identity) and a store failure as `Internal`.
pub fn require_auth(d: AuthDecision) -> (r: Result<UserAuth, Error>)
    ensures
        d.outcome matches AuthOutcome::Authenticated(id) ==> r == Ok::<UserAuth, Error>(
            UserAuth(id),
        ),
        d.outcome == AuthOutcome::Rejected ==> r == Err::<UserAuth, Error>(
            Error::Unauthenticated,
        ),
        d.outcome == AuthOutcome::Failed ==> r == Err::<UserAuth, Error>(Error::Internal),
{
    match d.outcome {
        AuthOutcome::Authenticated(id) => Ok(UserAuth(id)),
        AuthOutcome::Rejected => Err(Error::Unauthenticated),
        AuthOutcome::Failed => Err(Error::Internal),
    }
}

/// The optional variant: rejection collapses into "no identity" so public
/// routes can serve unauthenticated visitors, while a store failure stays
/// a failure.
pub fn optional_decision(d: AuthDecision) -> (r: Result<Option<UserAuth>, Error>)
    ensures
        d.outcome matches AuthOutcome::Authenticated(id) ==> r == Ok::<Option<UserAuth>, Error>(
            Some(UserAuth(id)),
        ),
        d.outcome == AuthOutcome::Rejected ==> r == Ok::<Option<UserAuth>, Error>(None),
        d.outcome == AuthOutcome::Failed ==> r == Err::<Option<UserAuth>, Error>(Error::Internal),
{
    match d.outcome {
        AuthOutcome::Authenticated(id) => Ok(Some(UserAuth(id))),
        AuthOutcome::Rejected => Ok(None),
        AuthOutcome::Failed => Err(Error::Internal),
    }
}

/// The browser-facing variant: every non-authenticated terminal state
/// becomes a redirect to the login entry point, carrying the original
/// cookie directive unchanged.
pub fn redirect_decision(d: AuthDecision) -> (r: Result<
    UserAuthRedirect,
    (CookieDirective, String),
>)
    ensures
        d.outcome matches AuthOutcome::Authenticated(id) ==> r == Ok::<
            UserAuthRedirect,
            (CookieDirective, String),
        >(UserAuthRedirect(id)),
        !(d.outcome is Authenticated) ==> (r matches Err((c, target)) && c == d.cookie
            && target@ == "/auth/login"@),
{
    match d.outcome {
        AuthOutcome::Authenticated(id) => Ok(UserAuthRedirect(id)),
        AuthOutcome::Rejected => Err((d.cookie, <String as StringExecFns>::from_str("/auth/login"))),
        AuthOutcome::Failed => Err((d.cookie, <String as StringExecFns>::from_str("/auth/login"))),
    }
}

impl UserAuth {
    /// The user row behind this identity, if it still exists.
    pub fn get_user(self, db: &Database) -> (r: Option<TableUsers>)
        ensures
            r is Some <==> db@.user_of(self.0.0 as int) is Some,
            r matches Some(u) ==> Some(u@) == db@.user_of(self.0.0 as int),
    {
        db.fetch_user(self.0)
    }

    /// The authenticated user's id.
    pub fn get_id(self) -> (r: UserId)
        ensures
            r == self.0,
    {
        self.0
    }
}

impl UserAuthRedirect {
    /// The user row behind this identity, if it still exists.
    pub fn get_user(self, db: &Database) -> (r: Option<TableUsers>)
        ensures
            r is Some <==> db@.user_of(self.0.0 as int) is Some,
            r matches Some(u) ==> Some(u@) == db@.user_of(self.0.0 as int),
    {
        db.fetch_user(self.0)
    }

    /// The authenticated user's id.
    pub fn get_id(self) -> (r: UserId)
        ensures
            r == self.0,
    {
        self.0
    }
}

/// Logout is purely a client-side credential discard: every cookie named
/// in the request is to be cleared, and the identity store is not touched
/// (the user row and its token persist; the function does not even take
/// the store).
pub fn logout(cookie_names: Vec<String>) -> (r: (Vec<String>, String))
    ensures
        r.0 == cookie_names,
        r.1@ == "Logged out"@,
{
    (cookie_names, <String as StringExecFns>::from_str("Logged out"))
}

/// Resolves a federated login name to a session token: the token of the
/// existing user with that name, or the token of a freshly created user.
/// The token is never derived from the name.
pub fn name_to_user_token(db: &mut Database, name: String) -> (r: Result<String, Error>)
    requires
        old(db)@.wf(),
    ensures
        final(db)@.wf(),
        old(db)@.user_of_name(name@) matches Some(u) ==> r matches Ok(t) && t@ == u.token
            && final(db)@ == old(db)@,
        old(db)@.user_of_name(name@) is None ==> (r matches Ok(t) ==> {
            &&& is_hex64(t@)
            &&& !old(db)@.token_in_use(t@)
            &&& final(db)@.users == old(db)@.users.push(
                (UserView { id: old(db)@.next_user_id, name: name@, token: t@ }),
            )
            &&& final(db)@.next_user_id == old(db)@.next_user_id + 1
            &&& final(db)@.user_of_token(t@) is Some
        }),
        r is Err ==> final(db)@ == old(db)@ && old(db)@.user_of_name(name@) is None,
        old(db)@.user_of_name(name@) is None && old(db)@.next_user_id < i64::MAX && r is Err
            ==> r == Err::<String, Error>(Error::Conflict),
        // on an empty users table nothing can collide, so success is owed
        old(db)@.users.len() == 0 && old(db)@.next_user_id < i64::MAX ==> r is Ok,
        r == Err::<String, Error>(Error::Conflict) ==> old(db)@.users.len() > 0,
        r == Err::<String, Error>(Error::Internal) ==> old(db)@.next_user_id == i64::MAX,
        final(db)@.clients == old(db)@.clients,
        final(db)@.keys == old(db)@.keys,
        final(db)@.client_keys == old(db)@.client_keys,
{
    proof {
        if db@.users.len() == 0 {
            assert(db@.user_of_name(name@) is None);
        }
    }
    let looked = db.get_user_from_name(name.clone());
    match looked {
        Some(u) => Ok(u.token),
        None => match db.create_user(name) {
            Ok((_, t)) => Ok(t),
            Err(e) => Err(e),
        },
    }
}

/// The first decision of the login callback: what to do with the redirect
/// parameters before any outside exchange happens.
pub enum CallbackStep {
    /// No authorization code came back: a benign abort, go home.
    AbortHome,
    /// A code arrived but the PKCE verifier cookie is gone: the login
    /// attempt fails.
    MissingVerifier,
    /// Exchange the code together with the stored verifier.
    Exchange { code: String, verifier: String },
}

/// Classifies the callback's query string and the PKCE verifier cookie.
/// An absent code is a benign abort; a present code without the verifier
/// is a hard failure; otherwise the exchange may proceed.
pub fn callback_begin(code: Option<String>, pkce: Option<String>) -> (r: CallbackStep)
    ensures
        code is None ==> r == CallbackStep::AbortHome,
        code is Some && pkce is None ==> r == CallbackStep::MissingVerifier,
        code matches Some(c) ==> (pkce matches Some(v) ==> r == (CallbackStep::Exchange {
            code: c,
            verifier: v,
        })),
{
    match (code, pkce) {
        (None, _) => CallbackStep::AbortHome,
        (Some(_), None) => CallbackStep::MissingVerifier,
        (Some(c), Some(v)) => CallbackStep::Exchange { code: c, verifier: v },
    }
}

/// The last decision of the login callback: the provider's claims must
/// carry an email, which is mapped to a user by "find by name, else
/// create"; the returned token is what the session cookie will carry.
pub fn callback_finish(db: &mut Database, email: Option<String>) -> (r: Result<String, Error>)
    requires
        old(db)@.wf(),
    ensures
        final(db)@.wf(),
        email is None ==> r == Err::<String, Error>(Error::Internal) && final(db)@ == old(db)@,
        email matches Some(e) ==> {
            &&& (old(db)@.user_of_name(e@) matches Some(u) ==> r matches Ok(t) && t@ == u.token
                && final(db)@ == old(db)@)
            &&& (old(db)@.user_of_name(e@) is None ==> (r matches Ok(t) ==> is_hex64(t@)
                && final(db)@.user_of_token(t@) is Some))
            &&& (r is Err ==> final(db)@ == old(db)@)
            &&& (old(db)@.users.len() == 0 && old(db)@.next_user_id < i64::MAX ==> r is Ok)
            &&& (r == Err::<String, Error>(Error::Conflict) ==> old(db)@.users.len() > 0)
            &&& (r == Err::<String, Error>(Error::Internal) ==> old(db)@.next_user_id
                == i64::MAX)
        },
        final(db)@.clients == old(db)@.clients,
        final(db)@.keys == old(db)@.keys,
        final(db)@.client_keys == old(db)@.client_keys,
{
    match email {
        None => Err(Error::Internal),
        Some(e) => name_to_user_token(db, e),
    }
}

} // verus!
