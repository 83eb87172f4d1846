//! Registry of action keys.

use vstd::prelude::*;

use crate::time::MonotonicTime;

verus! {

/// The identifier of a key in a [`KeyRegistry`].
#[derive(Clone, Copy, Debug, PartialEq, Eq, Structural)]
pub struct KeyRegistryId {
    /// The place of the key in the registry.
    pub index: usize,
    /// Tells the key from those that had the same place.
    pub epoch: u64,
}

impl KeyRegistryId {
    /// Decomposes an identifier into its raw components.
    pub fn into_raw_parts(self) -> (parts: (usize, u64))
        ensures
            parts == (self.index, self.epoch),
    {
        (self.index, self.epoch)
    }

    /// Creates an identifier from its raw components.
    ///
    /// This is safe because the worst that can happen is for the identifier to
    /// be invalid, in which case it is not found in the registry.
    pub fn from_raw_parts(index: usize, epoch: u64) -> (id: Self)
        ensures
            id.index == index,
            id.epoch == epoch,
    {
        KeyRegistryId { index, epoch }
    }
}

/// A registered key.
#[derive(Clone, Copy, Debug)]
pub struct RegisteredKey {
    /// Tells the key from those that had the same place.
    pub epoch: u64,
    /// The latest time at which the key may still be active.
    pub expiration: MonotonicTime,
    /// The action key.
    pub action_key: u64,
}

/// A collection of action keys indexed by a unique identifier.
pub struct KeyRegistry {
    slots: Vec<Option<RegisteredKey>>,
    free: Vec<usize>,
    next_epoch: u64,
}

impl View for KeyRegistry {
    type V = Map<KeyRegistryId, RegisteredKey>;

    /// The registered keys.
    closed spec fn view(&self) -> Map<KeyRegistryId, RegisteredKey> {
        Map::new(
            |id: KeyRegistryId|
                id.index < self.slots@.len() && self.slots@[id.index as int] is Some
                    && self.slots@[id.index as int]->Some_0.epoch == id.epoch,
            |id: KeyRegistryId| self.slots@[id.index as int]->Some_0,
        )
    }
}

/// The action key that is registered with an identifier, if any.
pub open spec fn action_key(
    keys: Map<KeyRegistryId, RegisteredKey>,
    id: KeyRegistryId,
) -> Option<u64> {
    if keys.dom().contains(id) {
        Some(keys[id].action_key)
    } else {
        None
    }
}

/// Whether keys with an expiration deadline strictly predating the given time,
/// and no others, were removed.
pub open spec fn expired(
    before: Map<KeyRegistryId, RegisteredKey>,
    now: MonotonicTime,
    after: Map<KeyRegistryId, RegisteredKey>,
) -> bool {
    &&& forall|id: KeyRegistryId| #[trigger]
        after.dom().contains(id) <==> before.dom().contains(id) && before[id].expiration@ >= now@
    &&& forall|id: KeyRegistryId| #[trigger]
        after.dom().contains(id) ==> after[id] == before[id]
}

impl KeyRegistry {
    /// The epoch of the next key.
    pub closed spec fn epoch(self) -> u64 {
        self.next_epoch
    }

    /// The invariant of the registry.
    pub closed spec fn wf(self) -> bool {
        &&& forall|i: int|
            0 <= i < self.free@.len() ==> (#[trigger] self.free@[i]) < self.slots@.len()
                && self.slots@[self.free@[i] as int] is None
        &&& forall|i: int, j: int|
            0 <= i < j < self.free@.len() ==> (#[trigger] self.free@[i]) != (
            #[trigger] self.free@[j])
        &&& forall|i: int|
            0 <= i < self.slots@.len() && (#[trigger] self.slots@[i]) is Some
                ==> self.slots@[i]->Some_0.epoch < self.next_epoch
        &&& self.slots@.len() <= self.next_epoch
    }

    /// Whether one more key can be registered.
    pub closed spec fn has_room(self) -> bool {
        self.next_epoch < u64::MAX && self.slots@.len() < usize::MAX
    }

    /// Creates an empty registry.
    pub fn new() -> (registry: Self)
        ensures
            registry.wf(),
            registry.has_room(),
            registry.epoch() == 0,
            registry@ == Map::<KeyRegistryId, RegisteredKey>::empty(),
    {
        let registry = KeyRegistry { slots: Vec::new(), free: Vec::new(), next_epoch: 0 };
        assert(registry@ =~= Map::<KeyRegistryId, RegisteredKey>::empty());
        registry
    }

    /// Checks if one more key can be registered.
    pub fn can_insert(&self) -> (r: bool)
        ensures
            r == self.has_room(),
    {
        self.next_epoch < u64::MAX && self.slots.len() < usize::MAX
    }

    /// Inserts an action key into the registry.
    ///
    /// The provided expiration deadline is the latest time at which the key may
    /// still be active.
    pub fn insert_key(&mut self, action_key: u64, expiration: MonotonicTime) -> (id: KeyRegistryId)
        requires
            old(self).wf(),
            old(self).has_room(),
        ensures
            final(self).wf(),
            id.epoch == old(self).epoch(),
            final(self).epoch() == old(self).epoch() + 1,
            !old(self)@.dom().contains(id),
            final(self)@ == old(self)@.insert(
                id,
                (RegisteredKey { epoch: id.epoch, expiration, action_key }),
            ),
    {
        let epoch: u64 = self.next_epoch;
        let key = RegisteredKey { epoch, expiration, action_key };
        self.next_epoch = self.next_epoch + 1;
        let index = match self.free.pop() {
            Some(index) => {
                assert(old(self).free@[old(self).free@.len() - 1] == index);
                self.slots.set(index, Some(key));
                index
            },
            None => {
                let index: usize = self.slots.len();
                self.slots.push(Some(key));
                index
            },
        };
        let id = KeyRegistryId { index, epoch };
        proof {
            assert(self@ =~= old(self)@.insert(id, key));
        }
        id
    }

    /// Inserts a non-expiring action key into the registry.
    pub fn insert_eternal_key(&mut self, action_key: u64) -> (id: KeyRegistryId)
        requires
            old(self).wf(),
            old(self).has_room(),
        ensures
            final(self).wf(),
            id.epoch == old(self).epoch(),
            final(self).epoch() == old(self).epoch() + 1,
            !old(self)@.dom().contains(id),
            exists|key: RegisteredKey|
                key.epoch == id.epoch && key.expiration@ == crate::time::max_instant()
                    && key.action_key == action_key && final(self)@ == #[trigger] old(
                    self)@.insert(id, key),
    {
        self.insert_key(action_key, MonotonicTime::max())
    }

    /// Removes an action key from the registry and returns it.
    ///
    /// Returns `None` if the key was not found in the registry.
    pub fn extract_key(&mut self, key_id: KeyRegistryId) -> (key: Option<u64>)
        requires
            old(self).wf(),
        ensures
            final(self).wf(),
            final(self).epoch() == old(self).epoch(),
            old(self).has_room() ==> final(self).has_room(),
            key == action_key(old(self)@, key_id),
            final(self)@ == old(self)@.remove(key_id),
    {
        if key_id.index < self.slots.len() {
            if let Some(key) = self.slots[key_id.index] {
                if key.epoch == key_id.epoch {
                    self.slots.set(key_id.index, None);
                    self.free.push(key_id.index);
                    proof {
                        assert(self@ =~= old(self)@.remove(key_id));
                    }
                    return Some(key.action_key);
                }
            }
        }
        assert(self@ =~= old(self)@.remove(key_id));
        None
    }

    /// Removes keys with an expiration deadline strictly predating the
    /// argument.
    pub fn remove_expired_keys(&mut self, now: MonotonicTime)
        requires
            old(self).wf(),
        ensures
            final(self).wf(),
            final(self).epoch() == old(self).epoch(),
            old(self).has_room() ==> final(self).has_room(),
            expired(old(self)@, now, final(self)@),
    {
        let mut i: usize = 0;
        while i < self.slots.len()
            invariant
                self.wf(),
                i <= self.slots@.len(),
                self.slots@.len() == old(self).slots@.len(),
                self.next_epoch == old(self).next_epoch,
                forall|j: int|
                    0 <= j < i ==> (#[trigger] self.slots@[j]) == match old(self).slots@[j] {
                        Some(key) => if key.expiration@ >= now@ {
                            Some(key)
                        } else {
                            None
                        },
                        None => None,
                    },
                forall|j: int|
                    i <= j < self.slots@.len() ==> (#[trigger] self.slots@[j]) == old(
                        self).slots@[j],
            decreases self.slots@.len() - i,
        {
            if let Some(key) = self.slots[i] {
                if key.expiration.lt(&now) {
                    self.slots.set(i, None);
                    self.free.push(i);
                }
            }
            i = i + 1;
        }
    }

    /// An identifier that is not valid any longer never becomes valid again.
    pub proof fn law_identifiers_are_not_reused(
        before: Self,
        id: KeyRegistryId,
        new_id: KeyRegistryId,
        key: RegisteredKey,
        after: Self,
    )
        requires
            // An identifier attributed earlier.
            id.epoch < before.epoch(),
            !before@.dom().contains(id),
            // The insertion of another key.
            new_id.epoch == before.epoch(),
            after@ == before@.insert(new_id, key),
        ensures
            !after@.dom().contains(id),
    {
    }

    /// A key can be extracted once it is inserted, and its insertion neither
    /// replaces nor removes any other key.
    pub proof fn law_insertion_keeps_all_keys(
        before: Self,
        id: KeyRegistryId,
        key: RegisteredKey,
        after: Self,
    )
        requires
            !before@.dom().contains(id),
            after@ == before@.insert(id, key),
        ensures
            action_key(after@, id) == Some(key.action_key),
            forall|other: KeyRegistryId| #[trigger]
                before@.dom().contains(other) ==> other != id && after@.dom().contains(other)
                    && action_key(after@, other) == action_key(before@, other),
    {
    }

    /// An eternal key can be extracted no matter how many times expired keys are
    /// removed, and whatever the time is.
    pub proof fn law_eternal_keys_do_not_expire(
        id: KeyRegistryId,
        history: Seq<Self>,
        times: Seq<MonotonicTime>,
    )
        requires
            // The key is inserted.
            history.len() == times.len() + 1,
            history[0]@.dom().contains(id),
            history[0]@[id].expiration@ == crate::time::max_instant(),
            // Expired keys are then removed at the given times.
            forall|k: int| #![trigger times[k]]
                0 <= k < times.len() ==> times[k].wf() && expired(
                    history[k]@,
                    times[k],
                    history[k + 1]@,
                ),
        ensures
            history.last()@.dom().contains(id),
            history.last()@[id] == history[0]@[id],
            action_key(history.last()@, id) == action_key(history[0]@, id),
        decreases times.len(),
    {
        if times.len() > 0 {
            let before = history.drop_last();
            let last = times.last();
            assert forall|k: int| #![trigger times.drop_last()[k]]
                0 <= k < times.drop_last().len() implies times.drop_last()[k].wf() && expired(
                before[k]@,
                times.drop_last()[k],
                before[k + 1]@,
            ) by {
                assert(times.drop_last()[k] == times[k]);
            }
            Self::law_eternal_keys_do_not_expire(id, before, times.drop_last());
            assert(last == times[times.len() - 1]);
            last.lemma_latest();
        }
    }

    /// All identifiers were attributed earlier.
    pub proof fn law_epochs(self, id: KeyRegistryId)
        requires
            self.wf(),
            self@.dom().contains(id),
        ensures
            id.epoch < self.epoch(),
            self@[id].epoch == id.epoch,
    {
    }
}

impl Default for KeyRegistry {
    fn default() -> (registry: Self)
        ensures
            registry.wf(),
            registry.has_room(),
            registry.epoch() == 0,
            registry@ == Map::<KeyRegistryId, RegisteredKey>::empty(),
    {
        KeyRegistry::new()
    }
}

/// A key that is removed from the registry cannot be extracted again, and all other
/// keys can.
pub proof fn law_keys_are_extracted_once(
    before: KeyRegistry,
    id: KeyRegistryId,
    after: KeyRegistry,
    other: KeyRegistryId,
)
    requires
        after@ == before@.remove(id),
    ensures
        action_key(after@, id) is None,
        other != id ==> action_key(after@, other) == action_key(before@, other),
{
}

/// A key can be extracted after expired keys were removed if and only if it could be
/// extracted before and does not expire before the given time. The key remains the
/// same.
pub proof fn law_only_expired_keys_are_removed(
    before: KeyRegistry,
    now: MonotonicTime,
    after: KeyRegistry,
    id: KeyRegistryId,
)
    requires
        expired(before@, now, after@),
    ensures
        action_key(after@, id) == if before@.dom().contains(id) && now@
            <= before@[id].expiration@ {
            Some(before@[id].action_key)
        } else {
            None
        },
        after@.dom().contains(id) ==> before@.dom().contains(id) && after@[id] == before@[id],
{
}

/// There is room for a key as long as neither the places nor the epochs are exhausted.
pub proof fn law_room(registry: KeyRegistry)
    requires
        registry.wf(),
        registry.epoch() < usize::MAX,
        registry.epoch() < u64::MAX,
    ensures
        registry.has_room(),
{
}

} // verus!
