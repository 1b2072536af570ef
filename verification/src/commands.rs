//! A bounded batch of validated world commands, drained in a stable key order.

use vstd::prelude::*;

verus! {

/// Maximum number of commands one batch may hold.
pub const MAX_DETERMINISTIC_COMMAND_BATCH: usize = 4_096;

/// Stable ordering key of a command: tick, then player, then the session's sequence.
#[derive(Debug, Clone, Copy, PartialEq, Eq, PartialOrd, Ord, Hash, Structural)]
pub struct DeterministicWorldCommandKey {
    pub tick: u64,
    pub player_id: u64,
    pub session_sequence: u64,
}

/// One payload awaiting application.
#[derive(Debug, Clone, PartialEq, Eq)]
pub struct DeterministicWorldCommand<T> {
    pub key: DeterministicWorldCommandKey,
    pub payload: T,
}

#[derive(Debug, Clone, PartialEq, Eq)]
pub enum DeterministicWorldCommandBatchError {
    InvalidLimit(usize),
    CapacityExceeded { limit: usize },
    DuplicateKey(DeterministicWorldCommandKey),
}

/// A bounded collection of validated commands with unique keys.
#[derive(Debug, Clone, PartialEq, Eq)]
pub struct DeterministicWorldCommandBatch<T> {
    limit: usize,
    commands: Vec<DeterministicWorldCommand<T>>,
}

/// The lexicographic key order.
pub open spec fn key_le(a: DeterministicWorldCommandKey, b: DeterministicWorldCommandKey) -> bool {
    a.tick < b.tick || (a.tick == b.tick && (a.player_id < b.player_id
        || (a.player_id == b.player_id && a.session_sequence <= b.session_sequence)))
}

pub open spec fn keys_unique<T>(s: Seq<DeterministicWorldCommand<T>>) -> bool {
    forall|i: int, j: int| 0 <= i < j < s.len() ==> s[i].key != s[j].key
}

fn key_less_or_equal(a: DeterministicWorldCommandKey, b: DeterministicWorldCommandKey) -> (r: bool)
    ensures
        r == key_le(a, b),
{
    a.tick < b.tick || (a.tick == b.tick && (a.player_id < b.player_id
        || (a.player_id == b.player_id && a.session_sequence <= b.session_sequence)))
}

impl<T> DeterministicWorldCommandBatch<T> {
    pub closed spec fn spec_limit(&self) -> usize {
        self.limit
    }

    pub closed spec fn spec_commands(&self) -> Seq<DeterministicWorldCommand<T>> {
        self.commands@
    }

    /// An empty batch with a limit in `1..=MAX_DETERMINISTIC_COMMAND_BATCH`.
    pub fn new(limit: usize) -> (r: Result<DeterministicWorldCommandBatch<T>, DeterministicWorldCommandBatchError>)
        ensures
            (limit == 0 || limit > MAX_DETERMINISTIC_COMMAND_BATCH)
                ==> r == Err::<DeterministicWorldCommandBatch<T>, DeterministicWorldCommandBatchError>(
                    DeterministicWorldCommandBatchError::InvalidLimit(limit)),
            !(limit == 0 || limit > MAX_DETERMINISTIC_COMMAND_BATCH) ==> r is Ok
                && r->Ok_0.spec_limit() == limit && r->Ok_0.spec_commands() == Seq::<DeterministicWorldCommand<T>>::empty(),
    {
        if limit == 0 || limit > MAX_DETERMINISTIC_COMMAND_BATCH {
            return Err(DeterministicWorldCommandBatchError::InvalidLimit(limit));
        }
        Ok(DeterministicWorldCommandBatch { limit, commands: Vec::new() })
    }

    pub fn len(&self) -> (r: usize)
        ensures
            r == self.spec_commands().len(),
    {
        self.commands.len()
    }

    pub fn is_empty(&self) -> (r: bool)
        ensures
            r == (self.spec_commands().len() == 0),
    {
        self.commands.len() == 0
    }

    pub fn limit(&self) -> (r: usize)
        ensures
            r == self.spec_limit(),
    {
        self.limit
    }

    /// Accepts a command whose key is not yet queued while the batch is below its limit.
    pub fn push(&mut self, command: DeterministicWorldCommand<T>) -> (r: Result<(), DeterministicWorldCommandBatchError>)
        ensures
            final(self).spec_limit() == old(self).spec_limit(),
            (exists|i: int| 0 <= i < old(self).spec_commands().len() && old(self).spec_commands()[i].key == command.key)
                ==> r == Err::<(), DeterministicWorldCommandBatchError>(DeterministicWorldCommandBatchError::DuplicateKey(command.key)),
            !(exists|i: int| 0 <= i < old(self).spec_commands().len() && old(self).spec_commands()[i].key == command.key)
                && old(self).spec_commands().len() >= old(self).spec_limit()
                ==> r == Err::<(), DeterministicWorldCommandBatchError>(DeterministicWorldCommandBatchError::CapacityExceeded {
                    limit: old(self).spec_limit() }),
            r is Err ==> final(self).spec_commands() == old(self).spec_commands(),
            r is Ok ==> final(self).spec_commands() == old(self).spec_commands().push(command),
            r is Ok <==> !(exists|i: int| 0 <= i < old(self).spec_commands().len()
                && old(self).spec_commands()[i].key == command.key)
                && old(self).spec_commands().len() < old(self).spec_limit(),
            keys_unique(old(self).spec_commands()) ==> keys_unique(final(self).spec_commands()),
    {
        let mut i: usize = 0;
        while i < self.commands.len()
            invariant
                i <= self.commands@.len(),
                forall|j: int| 0 <= j < i ==> self.commands@[j].key != command.key,
            decreases self.commands.len() - i,
        {
            if self.commands[i].key == command.key {
                return Err(DeterministicWorldCommandBatchError::DuplicateKey(command.key));
            }
            i = i + 1;
        }
        if self.commands.len() >= self.limit {
            return Err(DeterministicWorldCommandBatchError::CapacityExceeded { limit: self.limit });
        }
        self.commands.push(command);
        Ok(())
    }

    /// Removes every queued command, ordered by key.
    pub fn drain_sorted(&mut self) -> (r: Vec<DeterministicWorldCommand<T>>)
        ensures
            final(self).spec_commands() == Seq::<DeterministicWorldCommand<T>>::empty(),
            final(self).spec_limit() == old(self).spec_limit(),
            r@.len() == old(self).spec_commands().len(),
            forall|i: int, j: int| 0 <= i < j < r@.len() ==> key_le(r@[i].key, r@[j].key),
            r@.to_multiset() == old(self).spec_commands().to_multiset(),
            keys_unique(old(self).spec_commands()) ==> keys_unique(r@),
    {
        let mut pending: Vec<DeterministicWorldCommand<T>> = Vec::new();
        std::mem::swap(&mut pending, &mut self.commands);
        let ghost initial = pending@;
        let mut sorted: Vec<DeterministicWorldCommand<T>> = Vec::new();
        proof {
            sorted@.to_multiset_ensures();
            assert(sorted@.to_multiset().len() == 0);
            assert(sorted@.to_multiset() =~= vstd::multiset::Multiset::empty());
            assert(sorted@.to_multiset().add(pending@.to_multiset()) =~= initial.to_multiset());
        }
        while pending.len() > 0
            invariant
                forall|i: int, j: int| 0 <= i < j < sorted@.len() ==> key_le(sorted@[i].key, sorted@[j].key),
                sorted@.to_multiset().add(pending@.to_multiset()) == initial.to_multiset(),
                sorted@.len() + pending@.len() == initial.len(),
                pending@ == initial.take(pending@.len() as int),
                keys_unique(initial) ==> keys_unique(sorted@),
                keys_unique(initial) ==> forall|a: int| 0 <= a < sorted@.len() ==> exists|b: int|
                    pending@.len() <= b < initial.len() && #[trigger] sorted@[a].key == initial[b].key,
            decreases pending.len(),
        {
            let ghost before_pending = pending@;
            let command = pending.pop().unwrap();
            proof {
                assert(before_pending == pending@.push(command));
                pending@.to_multiset_ensures();
                before_pending.to_multiset_ensures();
                assert(before_pending.to_multiset() =~= pending@.to_multiset().insert(command));
            }
            let mut j: usize = 0;
            while j < sorted.len() && !key_less_or_equal(command.key, sorted[j].key)
                invariant
                    j <= sorted@.len(),
                    forall|a: int| 0 <= a < j ==> !key_le(command.key, sorted@[a].key),
                decreases sorted.len() - j,
            {
                j = j + 1;
            }
            let ghost before_sorted = sorted@;
            sorted.insert(j, command);
            proof {
                assert(sorted@ == before_sorted.insert(j as int, command));
                vstd::seq_lib::to_multiset_insert(before_sorted, j as int, command);
                assert forall|a: int, b: int| 0 <= a < b < sorted@.len() implies key_le(sorted@[a].key, sorted@[b].key) by {
                    if b < j {
                    } else if a < j && b == j {
                    } else if a < j && b > j {
                        assert(sorted@[b] == before_sorted[b - 1]);
                        if j < before_sorted.len() {
                            assert(key_le(before_sorted[j as int].key, before_sorted[b - 1].key) || b - 1 == j);
                        }
                    } else if a == j {
                        assert(sorted@[b] == before_sorted[b - 1]);
                        assert(key_le(command.key, before_sorted[j as int].key));
                        if b - 1 > j {
                            assert(key_le(before_sorted[j as int].key, before_sorted[b - 1].key));
                        }
                    } else {
                        assert(sorted@[a] == before_sorted[a - 1]);
                        assert(sorted@[b] == before_sorted[b - 1]);
                    }
                }
                assert(sorted@.to_multiset().add(pending@.to_multiset()) =~= initial.to_multiset());
                assert(pending@ =~= initial.take(pending@.len() as int));
                let n = pending@.len() as int;
                assert(command == initial[n]);
                if keys_unique(initial) {
                    assert forall|a: int| 0 <= a < sorted@.len() implies exists|b: int|
                        pending@.len() <= b < initial.len() && #[trigger] sorted@[a].key == initial[b].key by {
                        if a < j {
                            assert(sorted@[a] == before_sorted[a]);
                            let b = choose|b: int| n + 1 <= b < initial.len() && #[trigger] before_sorted[a].key == initial[b].key;
                        } else if a == j {
                            assert(sorted@[a].key == initial[n].key);
                        } else {
                            assert(sorted@[a] == before_sorted[a - 1]);
                            let b = choose|b: int| n + 1 <= b < initial.len() && #[trigger] before_sorted[a - 1].key == initial[b].key;
                        }
                    }
                    assert forall|x: int| 0 <= x < before_sorted.len() implies #[trigger] before_sorted[x].key != command.key by {
                        let b = choose|b: int| n + 1 <= b < initial.len() && #[trigger] before_sorted[x].key == initial[b].key;
                    }
                    assert forall|a: int, b: int| 0 <= a < b < sorted@.len() implies sorted@[a].key != sorted@[b].key by {
                        if b < j {
                            assert(sorted@[a] == before_sorted[a] && sorted@[b] == before_sorted[b]);
                        } else if b == j {
                            assert(sorted@[a] == before_sorted[a]);
                        } else if a < j {
                            assert(sorted@[a] == before_sorted[a] && sorted@[b] == before_sorted[b - 1]);
                        } else if a == j {
                            assert(sorted@[b] == before_sorted[b - 1]);
                        } else {
                            assert(sorted@[a] == before_sorted[a - 1] && sorted@[b] == before_sorted[b - 1]);
                        }
                    }
                }
            }
        }
        proof {
            pending@.to_multiset_ensures();
            assert(pending@.to_multiset().len() == 0);
            assert(pending@.to_multiset() =~= vstd::multiset::Multiset::empty());
            assert(sorted@.to_multiset() =~= initial.to_multiset());
        }
        sorted
    }
}

impl<T> Default for DeterministicWorldCommandBatch<T> {
    fn default() -> (r: DeterministicWorldCommandBatch<T>)
        ensures
            r.spec_limit() == MAX_DETERMINISTIC_COMMAND_BATCH,
            r.spec_commands() == Seq::<DeterministicWorldCommand<T>>::empty(),
    {
        DeterministicWorldCommandBatch { limit: MAX_DETERMINISTIC_COMMAND_BATCH, commands: Vec::new() }
    }
}

} // verus!
