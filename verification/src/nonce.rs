//! The nonce registry: one rotating secret per user, readable and
//! replaceable. Rotation is the sole revocation mechanism for sessions.

use vstd::prelude::*;
use crate::entropy::fresh_u128;
use crate::errors::Error;

verus! {

/// One user's current secret.
#[derive(Clone, Copy, Debug, PartialEq, Eq, Structural)]
pub struct NonceEntry {
    pub user_id: u128,
    pub nonce: u128,
}

/// Entry `i` of `s` belongs to `user_id`.
pub open spec fn entry_at(s: Seq<NonceEntry>, i: int, user_id: u128) -> bool {
    0 <= i < s.len() && s[i].user_id == user_id
}

/// Some entry of `s` belongs to `user_id`.
pub open spec fn has_user(s: Seq<NonceEntry>, user_id: u128) -> bool {
    exists|i: int| entry_at(s, i, user_id)
}

/// The index of the entry belonging to `user_id`; meaningful when `has_user`
/// holds, and unique under `wf_entries`.
pub open spec fn user_index(s: Seq<NonceEntry>, user_id: u128) -> int {
    choose|i: int| entry_at(s, i, user_id)
}

/// The current secret of `user_id`, if one is recorded.
pub open spec fn current_of(s: Seq<NonceEntry>, user_id: u128) -> Option<u128> {
    if has_user(s, user_id) {
        Some(s[user_index(s, user_id)].nonce)
    } else {
        None
    }
}

/// Well-formedness of the entry set: at most one live secret per user.
pub open spec fn wf_entries(s: Seq<NonceEntry>) -> bool {
    forall|i: int, j: int|
        0 <= i < s.len() && 0 <= j < s.len() && i != j ==> (#[trigger] s[i]).user_id != (
        #[trigger] s[j]).user_id
}

/// Under well-formedness, an index whose entry belongs to a user is the
/// unique such index, so `current_of` reads exactly that entry.
pub proof fn lemma_user_index_is(s: Seq<NonceEntry>, user_id: u128, i: int)
    requires
        wf_entries(s),
        entry_at(s, i, user_id),
    ensures
        has_user(s, user_id),
        user_index(s, user_id) == i,
        current_of(s, user_id) == Some(s[i].nonce),
{
    assert(has_user(s, user_id));
    let j = user_index(s, user_id);
    assert(entry_at(s, j, user_id));
    if i != j {
        assert(false);
    }
}

/// Replacing one user's entry keeps the set well-formed and leaves every
/// other user's current secret untouched.
pub proof fn lemma_replace_entry(s: Seq<NonceEntry>, user_id: u128, fresh: u128)
    requires
        wf_entries(s),
        has_user(s, user_id),
    ensures
        ({
            let t = s.update(user_index(s, user_id), (NonceEntry { user_id, nonce: fresh }));
            wf_entries(t) && current_of(t, user_id) == Some(fresh) && forall|u: u128|
                u != user_id ==> current_of(t, u) == current_of(s, u)
        }),
{
    let i = user_index(s, user_id);
    assert(entry_at(s, i, user_id));
    let t = s.update(i, (NonceEntry { user_id, nonce: fresh }));
    assert forall|p: int, q: int|
        0 <= p < t.len() && 0 <= q < t.len() && p != q implies (#[trigger] t[p]).user_id != (
    #[trigger] t[q]).user_id by {
        assert(s[p].user_id == t[p].user_id || p == i);
        assert(s[q].user_id == t[q].user_id || q == i);
    }
    lemma_user_index_is(t, user_id, i);
    assert forall|u: u128| u != user_id implies current_of(t, u) == current_of(s, u) by {
        if has_user(s, u) {
            let k = user_index(s, u);
            assert(entry_at(s, k, u));
            assert(k != i);
            assert(entry_at(t, k, u));
            lemma_user_index_is(t, u, k);
        } else {
            assert forall|k: int| !entry_at(t, k, u) by {
                if entry_at(t, k, u) {
                    assert(k != i);
                    assert(entry_at(s, k, u));
                }
            }
        }
    }
}

/// The registry of per-user rotating secrets.
pub struct NonceRegistry {
    entries: Vec<NonceEntry>,
}

impl View for NonceRegistry {
    type V = Seq<NonceEntry>;

    closed spec fn view(&self) -> Seq<NonceEntry> {
        self.entries@
    }
}

impl NonceRegistry {
    /// The registry's invariant: one live secret per user.
    pub open spec fn wf(&self) -> bool {
        wf_entries(self@)
    }

    /// An empty registry.
    pub fn new() -> (r: NonceRegistry)
        ensures
            r.wf(),
            r@.len() == 0,
    {
        NonceRegistry { entries: Vec::new() }
    }

    /// Reads the current secret of `user_id`, if one is recorded.
    #[verifier::loop_isolation(false)]
    pub fn current(&self, user_id: u128) -> (r: Option<u128>)
        requires
            self.wf(),
        ensures
            r == current_of(self@, user_id),
    {
        let n = self.entries.len();
        let mut i: usize = 0;
        while i < n
            invariant
                i <= n,
                forall|k: int| 0 <= k < i ==> !entry_at(self@, k, user_id),
            decreases n - i,
        {
            if self.entries[i].user_id == user_id {
                proof {
                    lemma_user_index_is(self@, user_id, i as int);
                }
                return Some(self.entries[i].nonce);
            }
            i += 1;
        }
        assert(!has_user(self@, user_id));
        None
    }

    /// Installs the first secret for `user_id`, drawing it freshly. A user
    /// already holding a secret keeps it: at most one live value at a time.
    #[verifier::loop_isolation(false)]
    pub fn install(&mut self, user_id: u128) -> (r: Result<u128, Error>)
        requires
            old(self).wf(),
        ensures
            final(self).wf(),
            has_user(old(self)@, user_id) ==> r == Err::<u128, Error>(Error::ConflictingState)
                && final(self)@ == old(self)@,
            !has_user(old(self)@, user_id) ==> match r {
                Ok(n) => final(self)@ == old(self)@.push((NonceEntry { user_id, nonce: n })),
                Err(_) => false,
            },
    {
        let n = self.entries.len();
        let mut i: usize = 0;
        while i < n
            invariant
                i <= n,
                *self == *old(self),
                forall|k: int| 0 <= k < i ==> !entry_at(self@, k, user_id),
            decreases n - i,
        {
            if self.entries[i].user_id == user_id {
                proof {
                    assert(entry_at(old(self)@, i as int, user_id));
                }
                return Err(Error::ConflictingState);
            }
            i += 1;
        }
        assert(!has_user(self@, user_id));
        let nonce = fresh_u128();
        let entry = NonceEntry { user_id, nonce };
        proof {
            let t = self@.push(entry);
            assert forall|p: int, q: int|
                0 <= p < t.len() && 0 <= q < t.len() && p != q implies (#[trigger] t[p]).user_id
                != (#[trigger] t[q]).user_id by {
                if p < self@.len() && q < self@.len() {
                    assert(t[p] == self@[p] && t[q] == self@[q]);
                } else if p < self@.len() {
                    assert(!entry_at(self@, p, user_id));
                } else {
                    assert(!entry_at(self@, q, user_id));
                }
            }
        }
        self.entries.push(entry);
        Ok(nonce)
    }

    /// Replaces the secret of `user_id` with a freshly drawn value and
    /// returns it. On success the pre-rotation value is gone for good: the
    /// registry never hands it out again. A draw that happens to repeat the
    /// live value is refused as a storage failure, leaving the registry
    /// unchanged; no other user's secret is touched either way.
    #[verifier::loop_isolation(false)]
    pub fn rotate(&mut self, user_id: u128) -> (r: Result<u128, Error>)
        requires
            old(self).wf(),
        ensures
            final(self).wf(),
            !has_user(old(self)@, user_id) ==> r == Err::<u128, Error>(Error::NonceNotFound)
                && final(self)@ == old(self)@,
            has_user(old(self)@, user_id) ==> match r {
                Ok(n) => Some(n) != current_of(old(self)@, user_id) && final(self)@ == old(
                    self,
                )@.update(user_index(old(self)@, user_id), (NonceEntry { user_id, nonce: n }))
                    && current_of(final(self)@, user_id) == Some(n),
                Err(e) => e == Error::StorageFailure && final(self)@ == old(self)@,
            },
    {
        let n = self.entries.len();
        let mut i: usize = 0;
        while i < n
            invariant
                i <= n,
                *self == *old(self),
                forall|k: int| 0 <= k < i ==> !entry_at(self@, k, user_id),
            decreases n - i,
        {
            if self.entries[i].user_id == user_id {
                proof {
                    lemma_user_index_is(self@, user_id, i as int);
                }
                let fresh = fresh_u128();
                if fresh == self.entries[i].nonce {
                    return Err(Error::StorageFailure);
                }
                proof {
                    lemma_replace_entry(self@, user_id, fresh);
                }
                let entry = NonceEntry { user_id, nonce: fresh };
                self.entries.set(i, entry);
                return Ok(fresh);
            }
            i += 1;
        }
        assert(!has_user(self@, user_id));
        Err(Error::NonceNotFound)
    }
}

} // verus!
