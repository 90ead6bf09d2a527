//! Credential checking and session issuance. A session is bound to the nonce
//! value current at issuance; it stays valid exactly as long as that value is
//! still the user's current one, so rotating the nonce revokes every
//! outstanding session at once. The whole login sequence — user lookup, nonce
//! lookup, credential check, session persistence — commits all or nothing.

use vstd::prelude::*;
use crate::errors::Error;
use crate::nonce::NonceEntry;
use crate::nonce::NonceRegistry;
use crate::nonce::current_of;
use crate::nonce::lemma_replace_entry;
use crate::nonce::user_index;
use crate::nonce::wf_entries;

verus! {

/// An authentication artifact: the user it stands for and a copy of the
/// nonce value that was current when it was issued.
#[derive(Clone, Copy, Debug, PartialEq, Eq, Structural)]
pub struct Session {
    pub user_id: u128,
    pub nonce: u128,
}

/// A session is valid exactly when the secret it carries is still the user's
/// current one; otherwise it is treated as absent.
pub open spec fn session_valid(entries: Seq<NonceEntry>, s: Session) -> bool {
    current_of(entries, s.user_id) == Some(s.nonce)
}

/// A stored account record: identity and the opaque credential verifier. The
/// hashing scheme itself lives outside this core; callers present the hashed
/// credential and the core compares it against the stored one.
pub struct UserRecord {
    pub user_id: u128,
    pub email: String,
    pub password_hash: String,
}

/// Record `i` of `s` carries the address `e`.
pub open spec fn email_at(s: Seq<UserRecord>, i: int, e: Seq<char>) -> bool {
    0 <= i < s.len() && s[i].email@ == e
}

/// Some record of `s` carries the address `e`.
pub open spec fn email_known(s: Seq<UserRecord>, e: Seq<char>) -> bool {
    exists|i: int| email_at(s, i, e)
}

/// The record of `s` carrying the address `e`; meaningful when `email_known`
/// holds, and unique under `wf_users`.
pub open spec fn user_by_email(s: Seq<UserRecord>, e: Seq<char>) -> UserRecord {
    s[choose|i: int| email_at(s, i, e)]
}

/// Some record of `s` carries the identity `user_id`.
pub open spec fn id_known(s: Seq<UserRecord>, user_id: u128) -> bool {
    exists|i: int| 0 <= i < s.len() && (#[trigger] s[i]).user_id == user_id
}

/// Well-formedness of the account records: identities and addresses are
/// unique.
pub open spec fn wf_users(s: Seq<UserRecord>) -> bool {
    forall|i: int, j: int|
        0 <= i < s.len() && 0 <= j < s.len() && i != j ==> (#[trigger] s[i]).user_id != (
        #[trigger] s[j]).user_id && s[i].email@ != s[j].email@
}

/// Under well-formedness, an index whose record carries an address is the
/// unique such index, so `user_by_email` is exactly that record.
pub proof fn lemma_email_index_is(s: Seq<UserRecord>, e: Seq<char>, i: int)
    requires
        wf_users(s),
        email_at(s, i, e),
    ensures
        email_known(s, e),
        user_by_email(s, e) == s[i],
{
    assert(email_known(s, e));
    let j = choose|j: int| email_at(s, j, e);
    assert(email_at(s, j, e));
    if i != j {
        assert(false);
    }
}

/// Revocation law: a session carrying the pre-rotation secret fails
/// validation against the post-rotation registry, while a session issued
/// under the fresh secret validates — rotation revokes collectively, with no
/// per-session revocation list.
pub proof fn lemma_rotation_invalidates(
    pre: Seq<NonceEntry>,
    user_id: u128,
    fresh: u128,
    s: Session,
)
    requires
        wf_entries(pre),
        s.user_id == user_id,
        session_valid(pre, s),
        Some(fresh) != current_of(pre, user_id),
    ensures
        ({
            let post = pre.update(user_index(pre, user_id), (NonceEntry { user_id, nonce: fresh }));
            wf_entries(post) && !session_valid(post, s) && session_valid(
                post,
                (Session { user_id, nonce: fresh }),
            )
        }),
{
    lemma_replace_entry(pre, user_id, fresh);
}

/// The session issuer: the account records it consults, the nonce registry
/// it binds sessions to, and the set of persisted sessions.
pub struct SessionIssuer {
    users: Vec<UserRecord>,
    registry: NonceRegistry,
    sessions: Vec<Session>,
}

impl SessionIssuer {
    /// The account records consulted by credential checks.
    pub closed spec fn users_view(&self) -> Seq<UserRecord> {
        self.users@
    }

    /// The per-user secrets sessions are bound to.
    pub closed spec fn nonces(&self) -> Seq<NonceEntry> {
        self.registry@
    }

    /// The sessions persisted so far.
    pub closed spec fn sessions_view(&self) -> Seq<Session> {
        self.sessions@
    }

    /// The issuer's invariant: account records and nonce registry are
    /// well-formed.
    pub open spec fn wf(&self) -> bool {
        wf_users(self.users_view()) && wf_entries(self.nonces())
    }

    /// An issuer with no accounts, no secrets and no sessions.
    pub fn new() -> (r: SessionIssuer)
        ensures
            r.wf(),
            r.users_view().len() == 0,
            r.nonces().len() == 0,
            r.sessions_view().len() == 0,
    {
        SessionIssuer { users: Vec::new(), registry: NonceRegistry::new(), sessions: Vec::new() }
    }

    /// Records a new account. An identity or address already on record is
    /// refused as conflicting state, and nothing changes.
    #[verifier::loop_isolation(false)]
    pub fn add_user(&mut self, user_id: u128, email: String, password_hash: String) -> (r: Result<
        (),
        Error,
    >)
        requires
            old(self).wf(),
        ensures
            final(self).wf(),
            final(self).nonces() == old(self).nonces(),
            final(self).sessions_view() == old(self).sessions_view(),
            id_known(old(self).users_view(), user_id) || email_known(
                old(self).users_view(),
                email@,
            ) ==> r == Err::<(), Error>(Error::ConflictingState)
                && final(self).users_view() == old(self).users_view(),
            !id_known(old(self).users_view(), user_id) && !email_known(
                old(self).users_view(),
                email@,
            ) ==> r == Ok::<(), Error>(())
                && final(self).users_view() == old(self).users_view().push(
                (UserRecord { user_id, email, password_hash }),
            ),
    {
        let n = self.users.len();
        let mut i: usize = 0;
        while i < n
            invariant
                i <= n,
                *self == *old(self),
                forall|k: int|
                    0 <= k < i ==> (#[trigger] self.users_view()[k]).user_id != user_id
                        && self.users_view()[k].email@ != email@,
            decreases n - i,
        {
            if self.users[i].user_id == user_id || self.users[i].email == email {
                proof {
                    if self.users_view()[i as int].user_id == user_id {
                        assert(id_known(old(self).users_view(), user_id));
                    } else {
                        assert(email_at(old(self).users_view(), i as int, email@));
                    }
                }
                return Err(Error::ConflictingState);
            }
            i += 1;
        }
        assert(!id_known(self.users_view(), user_id));
        assert(!email_known(self.users_view(), email@));
        let record = UserRecord { user_id, email, password_hash };
        proof {
            let t = self.users_view().push(record);
            assert forall|p: int, q: int|
                0 <= p < t.len() && 0 <= q < t.len() && p != q implies (#[trigger] t[p]).user_id
                != (#[trigger] t[q]).user_id && t[p].email@ != t[q].email@ by {
                if p < self.users_view().len() && q < self.users_view().len() {
                    assert(t[p] == self.users_view()[p] && t[q] == self.users_view()[q]);
                }
            }
        }
        self.users.push(record);
        Ok(())
    }

    /// Installs the first nonce for a user; delegates to the registry.
    pub fn install_nonce(&mut self, user_id: u128) -> (r: Result<u128, Error>)
        requires
            old(self).wf(),
        ensures
            final(self).wf(),
            final(self).users_view() == old(self).users_view(),
            final(self).sessions_view() == old(self).sessions_view(),
            crate::nonce::has_user(old(self).nonces(), user_id) ==> r == Err::<u128, Error>(
                Error::ConflictingState,
            ) && final(self).nonces() == old(self).nonces(),
            !crate::nonce::has_user(old(self).nonces(), user_id) ==> match r {
                Ok(v) => final(self).nonces() == old(self).nonces().push(
                    (NonceEntry { user_id, nonce: v }),
                ),
                Err(_) => false,
            },
    {
        self.registry.install(user_id)
    }

    /// Reads a user's current nonce; delegates to the registry.
    pub fn current_nonce(&self, user_id: u128) -> (r: Option<u128>)
        requires
            self.wf(),
        ensures
            r == current_of(self.nonces(), user_id),
    {
        self.registry.current(user_id)
    }

    /// Rotates a user's nonce; delegates to the registry. On success every
    /// session issued under the old value is invalid from here on.
    pub fn rotate(&mut self, user_id: u128) -> (r: Result<u128, Error>)
        requires
            old(self).wf(),
        ensures
            final(self).wf(),
            final(self).users_view() == old(self).users_view(),
            final(self).sessions_view() == old(self).sessions_view(),
            !crate::nonce::has_user(old(self).nonces(), user_id) ==> r == Err::<u128, Error>(
                Error::NonceNotFound,
            ) && final(self).nonces() == old(self).nonces(),
            crate::nonce::has_user(old(self).nonces(), user_id) ==> match r {
                Ok(v) => Some(v) != current_of(old(self).nonces(), user_id)
                    && final(self).nonces() == old(self).nonces().update(
                    user_index(old(self).nonces(), user_id),
                    (NonceEntry { user_id, nonce: v }),
                ) && current_of(final(self).nonces(), user_id) == Some(v),
                Err(e) => e == Error::StorageFailure && final(self).nonces() == old(self).nonces(),
            },
    {
        self.registry.rotate(user_id)
    }

    /// Checks whether a presented session is still valid: its carried nonce
    /// must equal the user's current one.
    pub fn validate_session(&self, s: Session) -> (r: bool)
        requires
            self.wf(),
        ensures
            r == session_valid(self.nonces(), s),
    {
        match self.registry.current(s.user_id) {
            Some(v) => v == s.nonce,
            None => false,
        }
    }

    /// How many sessions have been persisted.
    pub fn session_count(&self) -> (r: usize)
        ensures
            r == self.sessions_view().len(),
    {
        self.sessions.len()
    }

    /// The whole authentication sequence as one all-or-nothing unit: look the
    /// account up by address, read its current nonce, compare the presented
    /// credential, and persist the issued session. `persist_ok` is the
    /// outcome of the external persistence step; when it reports failure —
    /// or when any earlier step fails — nothing at all is committed, so no
    /// "verified but not logged in" half-state is ever observable. Each
    /// failure carries its classified reason: unknown address, missing nonce
    /// record, credential mismatch, or a persistence conflict.
    #[verifier::loop_isolation(false)]
    pub fn login(&mut self, email: &String, password_hash: &String, persist_ok: bool) -> (r: Result<
        Session,
        Error,
    >)
        requires
            old(self).wf(),
        ensures
            final(self).wf(),
            final(self).users_view() == old(self).users_view(),
            final(self).nonces() == old(self).nonces(),
            r is Err ==> final(self).sessions_view() == old(self).sessions_view(),
            !email_known(old(self).users_view(), email@) ==> r == Err::<Session, Error>(
                Error::UserNotFound,
            ),
            email_known(old(self).users_view(), email@) ==> ({
                let u = user_by_email(old(self).users_view(), email@);
                let cur = current_of(old(self).nonces(), u.user_id);
                &&& (cur is None ==> r == Err::<Session, Error>(Error::NonceNotFound))
                &&& (cur is Some && u.password_hash@ != password_hash@ ==> r == Err::<
                    Session,
                    Error,
                >(Error::AuthenticationFailed))
                &&& (cur is Some && u.password_hash@ == password_hash@ && !persist_ok ==> r
                    == Err::<Session, Error>(Error::ConflictingState))
                &&& (cur is Some && u.password_hash@ == password_hash@ && persist_ok ==> match r {
                    Ok(s) => s.user_id == u.user_id && Some(s.nonce) == cur
                        && final(self).sessions_view() == old(self).sessions_view().push(s)
                        && session_valid(final(self).nonces(), s),
                    Err(_) => false,
                })
            }),
    {
        let n = self.users.len();
        let mut i: usize = 0;
        while i < n
            invariant
                i <= n,
                *self == *old(self),
                forall|k: int| 0 <= k < i ==> !email_at(self.users_view(), k, email@),
            decreases n - i,
        {
            if self.users[i].email == *email {
                proof {
                    lemma_email_index_is(self.users_view(), email@, i as int);
                }
                let user_id = self.users[i].user_id;
                match self.registry.current(user_id) {
                    None => {
                        return Err(Error::NonceNotFound);
                    },
                    Some(v) => {
                        if !(self.users[i].password_hash == *password_hash) {
                            return Err(Error::AuthenticationFailed);
                        }
                        if !persist_ok {
                            return Err(Error::ConflictingState);
                        }
                        let s = Session { user_id, nonce: v };
                        self.sessions.push(s);
                        return Ok(s);
                    },
                }
            }
            i += 1;
        }
        assert(!email_known(self.users_view(), email@));
        Err(Error::UserNotFound)
    }
}

} // verus!
