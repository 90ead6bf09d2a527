//! The aggregate store: one accumulator row per `(user, metric name)` pair,
//! created lazily through an atomic get-or-create and mutated in place by
//! later writers.

use vstd::prelude::*;
use crate::clock::now_micros;
use crate::entropy::fresh_u128;
use crate::errors::Error;

verus! {

/// The fixed enumeration of metric kinds an aggregate row can accumulate.
#[derive(Clone, Copy, Debug, PartialEq, Eq, Structural)]
pub enum AggregateName {
    Uptime,
    BandwidthTotal,
    Latency,
    TasksCompleted,
}

/// The schema-less payload of an aggregate row: explicitly empty at creation,
/// replaced wholesale by later writers.
#[derive(Clone, Copy, Debug, PartialEq, Eq, Structural)]
pub enum AggregateValue {
    Null,
    Number(u64),
}

/// One aggregate row. `(user_id, name)` is the identity; `id` is a surrogate
/// assigned once at creation, as is `created_at`.
#[derive(Clone, Copy, Debug, PartialEq, Eq, Structural)]
pub struct Aggregate {
    pub id: u128,
    pub user_id: u128,
    pub name: AggregateName,
    pub value: AggregateValue,
    pub created_at: i64,
}

/// Folding one new measurement into a payload: an empty payload becomes the
/// measurement itself; a numeric payload accumulates it, saturating at the
/// largest representable value.
pub open spec fn spec_merged(v: AggregateValue, m: u64) -> AggregateValue {
    match v {
        AggregateValue::Null => AggregateValue::Number(m),
        AggregateValue::Number(n) => if n + m > u64::MAX {
            AggregateValue::Number(u64::MAX)
        } else {
            AggregateValue::Number((n + m) as u64)
        },
    }
}

/// Folds a new measurement into a payload.
pub fn merged(v: AggregateValue, m: u64) -> (r: AggregateValue)
    ensures
        r == spec_merged(v, m),
{
    match v {
        AggregateValue::Null => AggregateValue::Number(m),
        AggregateValue::Number(n) => {
            if m <= u64::MAX - n {
                AggregateValue::Number(n + m)
            } else {
                AggregateValue::Number(u64::MAX)
            }
        },
    }
}

/// Row `i` of `s` carries the key `(user_id, name)`.
pub open spec fn key_at(s: Seq<Aggregate>, i: int, user_id: u128, name: AggregateName) -> bool {
    0 <= i < s.len() && s[i].user_id == user_id && s[i].name == name
}

/// Some row of `s` carries the key `(user_id, name)`.
pub open spec fn has_key(s: Seq<Aggregate>, user_id: u128, name: AggregateName) -> bool {
    exists|i: int| key_at(s, i, user_id, name)
}

/// The index of the row carrying `(user_id, name)`; meaningful when `has_key`
/// holds, and unique under `wf_rows`.
pub open spec fn row_index(s: Seq<Aggregate>, user_id: u128, name: AggregateName) -> int {
    choose|i: int| key_at(s, i, user_id, name)
}

/// The row of `s` carrying `(user_id, name)`, if any.
pub open spec fn lookup(s: Seq<Aggregate>, user_id: u128, name: AggregateName) -> Option<
    Aggregate,
> {
    if has_key(s, user_id, name) {
        Some(s[row_index(s, user_id, name)])
    } else {
        None
    }
}

/// Some row of `s` already carries the surrogate identifier `id`.
pub open spec fn id_taken(s: Seq<Aggregate>, id: u128) -> bool {
    exists|i: int| 0 <= i < s.len() && (#[trigger] s[i]).id == id
}

/// Well-formedness of the row set: at most one row per `(user, name)` key,
/// and no surrogate identifier is ever shared.
pub open spec fn wf_rows(s: Seq<Aggregate>) -> bool {
    forall|i: int, j: int|
        0 <= i < s.len() && 0 <= j < s.len() && i != j ==> !((#[trigger] s[i]).user_id == (
        #[trigger] s[j]).user_id && s[i].name == s[j].name) && s[i].id != s[j].id
}

/// Under well-formedness, an index whose row carries a key is the unique such
/// index, so `lookup` returns exactly that row.
pub proof fn lemma_row_index_is(s: Seq<Aggregate>, user_id: u128, name: AggregateName, i: int)
    requires
        wf_rows(s),
        key_at(s, i, user_id, name),
    ensures
        has_key(s, user_id, name),
        row_index(s, user_id, name) == i,
        lookup(s, user_id, name) == Some(s[i]),
{
    assert(has_key(s, user_id, name));
    let j = row_index(s, user_id, name);
    assert(key_at(s, j, user_id, name));
    if i != j {
        assert(false);
    }
}

/// How many rows of `s` carry the key `(user_id, name)`.
pub open spec fn key_count(s: Seq<Aggregate>, user_id: u128, name: AggregateName) -> nat
    decreases s.len(),
{
    if s.len() == 0 {
        0
    } else {
        key_count(s.drop_last(), user_id, name) + if s.last().user_id == user_id && s.last().name
            == name {
            1nat
        } else {
            0nat
        }
    }
}

/// Dropping the last row keeps the set well-formed.
pub proof fn lemma_wf_drop_last(s: Seq<Aggregate>)
    requires
        wf_rows(s),
        s.len() > 0,
    ensures
        wf_rows(s.drop_last()),
{
    let t = s.drop_last();
    assert forall|i: int, j: int|
        0 <= i < t.len() && 0 <= j < t.len() && i != j implies !((#[trigger] t[i]).user_id == (
    #[trigger] t[j]).user_id && t[i].name == t[j].name) && t[i].id != t[j].id by {
        assert(t[i] == s[i] && t[j] == s[j]);
    }
}

/// Exactly-one law: however many get-or-create calls led to the state, a
/// well-formed store holds exactly one row for a key it covers, and none for
/// a key it does not.
pub proof fn lemma_exactly_one_row(s: Seq<Aggregate>, user_id: u128, name: AggregateName)
    requires
        wf_rows(s),
    ensures
        key_count(s, user_id, name) == if has_key(s, user_id, name) {
            1nat
        } else {
            0nat
        },
    decreases s.len(),
{
    if s.len() == 0 {
        assert(!has_key(s, user_id, name));
    } else {
        let t = s.drop_last();
        let last = s.len() - 1;
        lemma_wf_drop_last(s);
        lemma_exactly_one_row(t, user_id, name);
        if s.last().user_id == user_id && s.last().name == name {
            assert(key_at(s, last, user_id, name));
            assert(!has_key(t, user_id, name)) by {
                if has_key(t, user_id, name) {
                    let i = choose|i: int| key_at(t, i, user_id, name);
                    assert(t[i] == s[i]);
                    assert(key_at(s, i, user_id, name));
                    assert(i != last);
                    assert(false);
                }
            }
        } else {
            assert(has_key(s, user_id, name) == has_key(t, user_id, name)) by {
                if has_key(t, user_id, name) {
                    let i = choose|i: int| key_at(t, i, user_id, name);
                    assert(t[i] == s[i]);
                    assert(key_at(s, i, user_id, name));
                }
                if has_key(s, user_id, name) {
                    let i = choose|i: int| key_at(s, i, user_id, name);
                    assert(i != last);
                    assert(t[i] == s[i]);
                    assert(key_at(t, i, user_id, name));
                }
            }
        }
    }
}

/// At-most-one law: a well-formed store never holds two rows for the same
/// `(user, name)` key, so every caller that fetches the key observes the same
/// row — the same surrogate identifier and the same creation timestamp.
pub proof fn lemma_at_most_one_row(s: Seq<Aggregate>, a: Aggregate, b: Aggregate)
    requires
        wf_rows(s),
        s.contains(a),
        s.contains(b),
        a.user_id == b.user_id,
        a.name == b.name,
    ensures
        a == b,
{
    let i = choose|i: int| 0 <= i < s.len() && s[i] == a;
    let j = choose|j: int| 0 <= j < s.len() && s[j] == b;
    if i != j {
        assert(false);
    }
}

/// Creation law: inserting the missing row for a key preserves
/// well-formedness and makes the key resolve to exactly the inserted row, so
/// repeating get-or-create can only find it again, never create a second one.
pub proof fn lemma_create_once(s: Seq<Aggregate>, a: Aggregate)
    requires
        wf_rows(s),
        !has_key(s, a.user_id, a.name),
        !id_taken(s, a.id),
    ensures
        wf_rows(s.push(a)),
        lookup(s.push(a), a.user_id, a.name) == Some(a),
{
    let t = s.push(a);
    assert forall|i: int, j: int|
        0 <= i < t.len() && 0 <= j < t.len() && i != j implies !((#[trigger] t[i]).user_id == (
    #[trigger] t[j]).user_id && t[i].name == t[j].name) && t[i].id != t[j].id by {
        if i < s.len() && j < s.len() {
            assert(t[i] == s[i] && t[j] == s[j]);
        } else if i < s.len() {
            assert(t[j] == a && t[i] == s[i]);
            assert(!key_at(s, i, a.user_id, a.name));
            assert(!((#[trigger] s[i]).id == a.id));
        } else {
            assert(t[i] == a && t[j] == s[j]);
            assert(!key_at(s, j, a.user_id, a.name));
            assert(!((#[trigger] s[j]).id == a.id));
        }
    }
    assert(key_at(t, s.len() as int, a.user_id, a.name));
    lemma_row_index_is(t, a.user_id, a.name, s.len() as int);
}

/// Round-trip update law: replacing the payload of the row for a key keeps
/// the store well-formed, and a subsequent fetch of the same key returns the
/// same row identity carrying the new payload, not the original one.
pub proof fn lemma_update_round_trip(
    s: Seq<Aggregate>,
    user_id: u128,
    name: AggregateName,
    v: AggregateValue,
)
    requires
        wf_rows(s),
        has_key(s, user_id, name),
    ensures
        ({
            let i = row_index(s, user_id, name);
            let row = (Aggregate { value: v, ..s[i] });
            let t = s.update(i, row);
            wf_rows(t) && lookup(t, user_id, name) == Some(row)
        }),
{
    let i = row_index(s, user_id, name);
    assert(key_at(s, i, user_id, name));
    let row = (Aggregate { value: v, ..s[i] });
    let t = s.update(i, row);
    assert forall|p: int, q: int|
        0 <= p < t.len() && 0 <= q < t.len() && p != q implies !((#[trigger] t[p]).user_id == (
    #[trigger] t[q]).user_id && t[p].name == t[q].name) && t[p].id != t[q].id by {
        assert(s[p].user_id == t[p].user_id && s[p].name == t[p].name && s[p].id == t[p].id);
        assert(s[q].user_id == t[q].user_id && s[q].name == t[q].name && s[q].id == t[q].id);
    }
    lemma_row_index_is(t, user_id, name, i);
}

/// The aggregate store. Creation of a row is a single indivisible operation
/// against the held state, so two first-writers for the same key can never
/// both insert.
pub struct AggregateStore {
    rows: Vec<Aggregate>,
}

impl View for AggregateStore {
    type V = Seq<Aggregate>;

    closed spec fn view(&self) -> Seq<Aggregate> {
        self.rows@
    }
}

impl AggregateStore {
    /// The store's invariant: its row set is well-formed.
    pub open spec fn wf(&self) -> bool {
        wf_rows(self@)
    }

    /// An empty store.
    pub fn new() -> (r: AggregateStore)
        ensures
            r.wf(),
            r@.len() == 0,
    {
        AggregateStore { rows: Vec::new() }
    }

    /// How many rows the store holds.
    pub fn len(&self) -> (r: usize)
        ensures
            r == self@.len(),
    {
        self.rows.len()
    }

    /// Fetches the row for `(user_id, name)`, if one exists.
    #[verifier::loop_isolation(false)]
    pub fn get(&self, user_id: u128, name: AggregateName) -> (r: Option<Aggregate>)
        requires
            self.wf(),
        ensures
            r == lookup(self@, user_id, name),
    {
        let n = self.rows.len();
        let mut i: usize = 0;
        while i < n
            invariant
                i <= n,
                forall|k: int| 0 <= k < i ==> !key_at(self@, k, user_id, name),
            decreases n - i,
        {
            if self.rows[i].user_id == user_id && self.rows[i].name == name {
                proof {
                    lemma_row_index_is(self@, user_id, name, i as int);
                }
                return Some(self.rows[i]);
            }
            i += 1;
        }
        assert(!has_key(self@, user_id, name));
        None
    }

    /// Whether some row already carries the surrogate identifier `id`.
    #[verifier::loop_isolation(false)]
    fn id_exists(&self, id: u128) -> (r: bool)
        ensures
            r == id_taken(self@, id),
    {
        let n = self.rows.len();
        let mut i: usize = 0;
        while i < n
            invariant
                i <= n,
                forall|k: int| 0 <= k < i ==> (#[trigger] self@[k]).id != id,
            decreases n - i,
        {
            if self.rows[i].id == id {
                return true;
            }
            i += 1;
        }
        false
    }

    /// Returns the unique row for `(user_id, name)`, creating it — with an
    /// empty payload, a fresh surrogate identifier and a creation timestamp —
    /// if and only if none exists yet. Existence check and insertion are one
    /// indivisible step against the held state, so no concurrent first-writer
    /// interleaving can produce a duplicate. A creation attempt whose freshly
    /// drawn identifier is already taken is refused by the store and surfaces
    /// as a storage failure, leaving the store unchanged.
    pub fn get_or_create(&mut self, user_id: u128, name: AggregateName) -> (r: Result<
        Aggregate,
        Error,
    >)
        requires
            old(self).wf(),
        ensures
            final(self).wf(),
            has_key(old(self)@, user_id, name) ==> final(self)@ == old(self)@ && r == Ok::<
                Aggregate,
                Error,
            >(lookup(old(self)@, user_id, name).unwrap()),
            !has_key(old(self)@, user_id, name) ==> match r {
                Ok(a) => final(self)@ == old(self)@.push(a) && a.user_id == user_id && a.name
                    == name && a.value == AggregateValue::Null && !id_taken(old(self)@, a.id),
                Err(e) => e == Error::StorageFailure && final(self)@ == old(self)@,
            },
    {
        match self.get(user_id, name) {
            Some(a) => Ok(a),
            None => {
                let id = fresh_u128();
                if self.id_exists(id) {
                    return Err(Error::StorageFailure);
                }
                let created_at = now_micros();
                let a = Aggregate {
                    id,
                    user_id,
                    name,
                    value: AggregateValue::Null,
                    created_at,
                };
                proof {
                    lemma_create_once(self@, a);
                }
                self.rows.push(a);
                Ok(a)
            },
        }
    }

    /// Replaces the payload of the existing row for `(user_id, name)`,
    /// leaving its identity, creation timestamp and every other row as they
    /// were.
    #[verifier::loop_isolation(false)]
    pub fn update_value(&mut self, user_id: u128, name: AggregateName, value: AggregateValue)
        requires
            old(self).wf(),
            has_key(old(self)@, user_id, name),
        ensures
            final(self).wf(),
            final(self)@ == old(self)@.update(
                row_index(old(self)@, user_id, name),
                (Aggregate { value, ..old(self)@[row_index(old(self)@, user_id, name)] }),
            ),
    {
        let n = self.rows.len();
        let mut i: usize = 0;
        while i < n
            invariant
                i <= n,
                *self == *old(self),
                forall|k: int| 0 <= k < i ==> !key_at(self@, k, user_id, name),
            decreases n - i,
        {
            if self.rows[i].user_id == user_id && self.rows[i].name == name {
                proof {
                    lemma_row_index_is(self@, user_id, name, i as int);
                    lemma_update_round_trip(self@, user_id, name, value);
                }
                let updated = Aggregate { value, ..self.rows[i] };
                self.rows.set(i, updated);
                return ;
            }
            i += 1;
        }
        proof {
            assert(!has_key(self@, user_id, name));
        }
    }
}

} // verus!
