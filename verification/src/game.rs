//! The challenge coordinator: the table of secrets that the workers of one
//! team pool, and the answer to the sum-modulo challenge.

use vstd::prelude::*;
use vstd::string::StringExecFns;
use crate::text::{decimal, decimal_of};

verus! {

/// Why a challenge could not be answered.
#[derive(Debug, Clone, Copy, PartialEq, Eq, Structural)]
pub enum ChallengeError {
    /// The divisor of a sum-modulo challenge is zero.
    DivisionUndefined,
}

/// The secrets of a team as the contracts see them: one entry per worker,
/// identity first, in the order in which the workers first reported.
pub type Secrets = Seq<(Seq<char>, u64)>;

/// Whether no two entries share an identity.
pub open spec fn distinct_ids(secrets: Secrets) -> bool {
    forall|i: int, j: int|
        0 <= i < secrets.len() && 0 <= j < secrets.len() && i != j ==> (#[trigger] secrets[i]).0 != (
        #[trigger] secrets[j]).0
}

/// Whether `i` is the index of the entry of `id`.
pub open spec fn entry_of(secrets: Secrets, id: Seq<char>, i: int) -> bool {
    0 <= i < secrets.len() && secrets[i].0 == id
}

/// Whether the worker `id` has an entry.
pub open spec fn known(secrets: Secrets, id: Seq<char>) -> bool {
    exists|i: int| entry_of(secrets, id, i)
}

/// The secret that the table holds for the worker `id`, if any.
pub open spec fn secret_of(secrets: Secrets, id: Seq<char>) -> Option<u64> {
    if known(secrets, id) {
        Some(secrets[choose|i: int| entry_of(secrets, id, i)].1)
    } else {
        None
    }
}

/// The table after the worker `id` has reported `value`: the value replaces
/// the one that the worker reported before; a worker that reports for the
/// first time gets an entry at the end.
pub open spec fn recorded(secrets: Secrets, id: Seq<char>, value: u64) -> Secrets {
    if known(secrets, id) {
        secrets.update(choose|i: int| entry_of(secrets, id, i), (id, value))
    } else {
        secrets.push((id, value))
    }
}

/// The secrets of all workers, in the order of the entries.
pub open spec fn secret_values(secrets: Secrets) -> Seq<u64> {
    Seq::new(secrets.len(), |i: int| secrets[i].1)
}

/// The sum of a sequence of values.
pub open spec fn total(values: Seq<u64>) -> nat
    decreases values.len(),
{
    if values.len() == 0 {
        0
    } else {
        total(values.drop_last()) + values.last() as nat
    }
}

/// The sum of all secrets.
pub open spec fn sum(secrets: Secrets) -> nat {
    total(secret_values(secrets))
}

/// The sum of `values` modulo `divisor`, as a decimal numeral.
pub open spec fn residue(values: Seq<u64>, divisor: u64) -> Seq<char> {
    decimal((total(values) % divisor as nat) as nat)
}

/// The answer to the challenge with the given divisor: the sum of all secrets
/// modulo the divisor, as a decimal numeral.
pub open spec fn answer(secrets: Secrets, divisor: u64) -> Seq<char> {
    residue(secret_values(secrets), divisor)
}

/// A sum is at most the number of its terms times the largest value there can
/// be.
proof fn lemma_total_bounded(values: Seq<u64>)
    ensures
        total(values) <= values.len() * u64::MAX,
    decreases values.len(),
{
    if values.len() > 0 {
        lemma_total_bounded(values.drop_last());
        assert((values.len() - 1) * u64::MAX + u64::MAX == values.len() * u64::MAX)
            by (nonlinear_arith);
    }
}

/// Replacing the secret of one worker changes the sum by the difference of
/// the two values; a new entry adds its value.
pub proof fn lemma_sum_after_record(secrets: Secrets, id: Seq<char>, value: u64)
    requires
        distinct_ids(secrets),
    ensures
        distinct_ids(recorded(secrets, id, value)),
        secret_of(recorded(secrets, id, value), id) == Some(value),
        forall|other: Seq<char>|
            other != id ==> secret_of(recorded(secrets, id, value), other) == secret_of(
                secrets,
                other,
            ),
        sum(recorded(secrets, id, value)) + match secret_of(secrets, id) {
            Some(old_value) => old_value as nat,
            None => 0,
        } == sum(secrets) + value,
{
    let after = recorded(secrets, id, value);
    if known(secrets, id) {
        let at = choose|i: int| entry_of(secrets, id, i);
        assert(entry_of(after, id, at));
        assert forall|i: int| 0 <= i < after.len() implies (#[trigger] after[i]).0 == secrets[i].0 by {}
        lemma_total_update(secret_values(secrets), at, value);
        assert(secret_values(after) =~= secret_values(secrets).update(at, value));
    } else {
        assert(entry_of(after, id, secrets.len() as int));
        assert(secret_values(after).drop_last() =~= secret_values(secrets));
        assert forall|i: int| 0 <= i < secrets.len() implies (#[trigger] after[i]).0 != id by {
            assert(!entry_of(secrets, id, i));
        }
    }
    assert(distinct_ids(after)) by {
        assert forall|i: int, j: int|
            0 <= i < after.len() && 0 <= j < after.len() && i != j implies (#[trigger] after[i]).0
            != (#[trigger] after[j]).0 by {
            if known(secrets, id) {
                assert(secrets[i].0 != secrets[j].0);
            } else {
                if i < secrets.len() && j < secrets.len() {
                    assert(secrets[i].0 != secrets[j].0);
                }
            }
        }
    }
    let found = choose|i: int| entry_of(after, id, i);
    if known(secrets, id) {
        let at = choose|i: int| entry_of(secrets, id, i);
        assert(found == at);
    } else {
        assert(found == secrets.len());
    }
    assert(after[found].1 == value);
    assert forall|other: Seq<char>| other != id implies secret_of(after, other) == secret_of(
        secrets,
        other,
    ) by {
        if known(secrets, other) {
            let i = choose|i: int| entry_of(secrets, other, i);
            assert(entry_of(after, other, i));
            let j = choose|j: int| entry_of(after, other, j);
            assert(i == j);
        } else {
            if known(after, other) {
                let j = choose|j: int| entry_of(after, other, j);
                assert(entry_of(secrets, other, j));
            }
        }
    }
}

proof fn lemma_total_update(values: Seq<u64>, at: int, value: u64)
    requires
        0 <= at < values.len(),
    ensures
        total(values.update(at, value)) + values[at] == total(values) + value,
    decreases values.len(),
{
    let after = values.update(at, value);
    if at == values.len() - 1 {
        assert(after.drop_last() =~= values.drop_last());
    } else {
        lemma_total_update(values.drop_last(), at, value);
        assert(after.drop_last() =~= values.drop_last().update(at, value));
    }
}

/// The table that maps the identity of a worker to its secret. Entries are
/// added and replaced, never removed.
pub struct SecretTable {
    ids: Vec<String>,
    values: Vec<u64>,
}

impl View for SecretTable {
    type V = Secrets;

    closed spec fn view(&self) -> Secrets {
        Seq::new(self.ids@.len(), |i: int| (self.ids@[i]@, self.values@[i]))
    }
}

impl SecretTable {
    #[verifier::type_invariant]
    spec fn well_formed(self) -> bool {
        &&& self.ids@.len() == self.values@.len()
        &&& distinct_ids(self@)
    }

    /// The table of a team of which no worker has reported yet.
    pub fn new() -> (table: Self)
        ensures
            table@ == Secrets::empty(),
    {
        let table = SecretTable { ids: Vec::new(), values: Vec::new() };
        assert(table@ =~= Secrets::empty());
        table
    }

    /// The number of workers that have reported. No two entries of a table
    /// share an identity.
    pub fn len(&self) -> (n: usize)
        ensures
            n == self@.len(),
            distinct_ids(self@),
    {
        proof {
            use_type_invariant(self);
        }
        self.ids.len()
    }

    /// The secret that the worker `id` reported last, if it has reported.
    pub fn get(&self, id: &str) -> (value: Option<u64>)
        ensures
            value == secret_of(self@, id@),
    {
        proof {
            use_type_invariant(self);
        }
        match self.find(id) {
            Some(at) => {
                assert(entry_of(self@, id@, at as int));
                Some(self.values[at])
            },
            None => None,
        }
    }

    fn find(&self, id: &str) -> (found: Option<usize>)
        ensures
            match found {
                Some(at) => entry_of(self@, id@, at as int),
                None => !known(self@, id@),
            },
    {
        let mut i: usize = 0;
        while i < self.ids.len()
            invariant
                i <= self.ids.len(),
                forall|j: int| 0 <= j < i ==> !entry_of(self@, id@, j),
            decreases self.ids.len() - i,
        {
            if self.ids[i].as_str().eq(id) {
                return Some(i);
            }
            i = i + 1;
        }
        None
    }

    /// Records that the worker `id` reported the secret `value`. A later
    /// report of a worker replaces its earlier one.
    pub fn record_secret(&mut self, id: &str, value: u64)
        ensures
            final(self)@ == recorded(old(self)@, id@, value),
            distinct_ids(old(self)@),
            distinct_ids(final(self)@),
    {
        proof {
            use_type_invariant(&*self);
        }
        let found = self.find(id);
        let mut ids: Vec<String> = Vec::new();
        let mut values: Vec<u64> = Vec::new();
        let mut i: usize = 0;
        while i < self.ids.len()
            invariant
                i <= self.ids.len(),
                self.ids@.len() == self.values@.len(),
                *self == *old(self),
                ids@.len() == i,
                values@.len() == i,
                forall|j: int| 0 <= j < i ==> (#[trigger] ids@[j])@ == self.ids@[j]@,
                forall|j: int|
                    0 <= j < i ==> #[trigger] values@[j] == if found == Some(j as usize) {
                        value
                    } else {
                        self.values@[j]
                    },
            decreases self.ids.len() - i,
        {
            ids.push(self.ids[i].clone());
            values.push(if found == Some(i) { value } else { self.values[i] });
            i = i + 1;
        }
        if found.is_none() {
            ids.push(id.to_owned());
            values.push(value);
        }
        let ghost after = Seq::new(ids@.len(), |i: int| (ids@[i]@, values@[i]));
        proof {
            match found {
                Some(at) => {
                    let chosen = choose|i: int| entry_of(old(self)@, id@, i);
                    assert(entry_of(old(self)@, id@, at as int));
                    assert(chosen == at);
                },
                None => {},
            }
            assert(after =~= recorded(old(self)@, id@, value));
            lemma_sum_after_record(old(self)@, id@, value);
        }
        *self = SecretTable { ids, values };
    }

    /// A copy of the secrets as they stand, in the order of the entries.
    pub fn snapshot(&self) -> (values: Vec<u64>)
        ensures
            values@ == secret_values(self@),
    {
        proof {
            use_type_invariant(self);
        }
        let mut values: Vec<u64> = Vec::new();
        let mut i: usize = 0;
        while i < self.values.len()
            invariant
                i <= self.values.len(),
                self.ids@.len() == self.values@.len(),
                values@ == secret_values(self@).take(i as int),
            decreases self.values.len() - i,
        {
            values.push(self.values[i]);
            assert(values@ =~= secret_values(self@).take(i + 1));
            i = i + 1;
        }
        assert(secret_values(self@).take(i as int) =~= secret_values(self@));
        values
    }

    /// Answers a sum-modulo challenge on the secrets as they stand: their
    /// sum modulo `divisor`, as a decimal numeral. Fails with
    /// `DivisionUndefined` if the divisor is zero.
    pub fn solve_modulo(&self, divisor: u64) -> (result: Result<String, ChallengeError>)
        ensures
            match result {
                Ok(text) => divisor != 0 && text@ == answer(self@, divisor),
                Err(e) => divisor == 0 && e == ChallengeError::DivisionUndefined,
            },
    {
        let values = self.snapshot();
        sum_modulo(&values, divisor)
    }
}

/// The sum of `values` modulo `divisor`, as a decimal numeral. The sum is
/// taken in 128 bits, which holds the sum of any number of 64-bit values that
/// a vector can hold. Fails with `DivisionUndefined` if the divisor is zero;
/// the check comes before any arithmetic.
pub fn sum_modulo(values: &Vec<u64>, divisor: u64) -> (result: Result<String, ChallengeError>)
    ensures
        match result {
            Ok(text) => divisor != 0 && text@ == residue(values@, divisor),
            Err(e) => divisor == 0 && e == ChallengeError::DivisionUndefined,
        },
{
    if divisor == 0 {
        return Err(ChallengeError::DivisionUndefined);
    }
    let mut sum: u128 = 0;
    let mut i: usize = 0;
    while i < values.len()
        invariant
            i <= values.len(),
            sum == total(values@.take(i as int)),
        decreases values.len() - i,
    {
        proof {
            let next = values@.take(i + 1);
            assert(next.drop_last() =~= values@.take(i as int));
            lemma_total_bounded(next);
            assert(next.len() * u64::MAX <= usize::MAX * u64::MAX) by (nonlinear_arith)
                requires
                    next.len() <= usize::MAX,
            ;
            assert(usize::MAX * u64::MAX <= u128::MAX) by (nonlinear_arith)
                requires
                    usize::MAX <= u64::MAX,
            ;
        }
        sum = sum + values[i] as u128;
        i = i + 1;
    }
    assert(values@.take(i as int) =~= values@);
    Ok(decimal_of(sum % (divisor as u128)))
}

/// What the workers of one team share: the table of their secrets.
pub struct GameState {
    pub secrets: SecretTable,
}

impl GameState {
    /// The shared state of a team at the start of its session.
    pub fn new() -> (state: Self)
        ensures
            state.secrets@ == Secrets::empty(),
    {
        GameState { secrets: SecretTable::new() }
    }
}

/// The name of the worker with the given number: `player_` and the number.
pub open spec fn worker_name(number: nat) -> Seq<char> {
    "player_"@ + decimal(number)
}

/// The names of the workers of a team of `expected_players`: one per worker,
/// numbered from one.
pub fn worker_names(expected_players: u8) -> (names: Vec<String>)
    ensures
        names@.len() == expected_players,
        forall|i: int| 0 <= i < names@.len() ==> (#[trigger] names@[i])@ == worker_name((i + 1) as nat),
{
    let mut names: Vec<String> = Vec::new();
    let mut i: u8 = 0;
    while i < expected_players
        invariant
            i <= expected_players,
            names@.len() == i,
            forall|j: int| 0 <= j < names@.len() ==> (#[trigger] names@[j])@ == worker_name(
                (j + 1) as nat,
            ),
        decreases expected_players - i,
    {
        i = i + 1;
        let mut name = String::from_str("player_");
        name.append(decimal_of(i as u128).as_str());
        names.push(name);
    }
    names
}

} // verus!
