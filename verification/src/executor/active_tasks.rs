//! The tasks that have not completed yet.

use vstd::prelude::*;

verus! {

/// A slab, which keeps its values at keys of its own choosing.
#[verifier::external_type_specification]
#[verifier::external_body]
#[verifier::reject_recursive_types(T)]
pub struct ExSlab<T>(slab::Slab<T>);

/// The values in a slab, by key.
pub uninterp spec fn slab_contents(slab: slab::Slab<u64>) -> Map<usize, u64>;

/// A map without any value.
pub open spec fn no_values() -> Map<usize, u64> {
    Map::empty()
}

/// The key that a slab will assign to the next value.
pub uninterp spec fn slab_next_key(slab: slab::Slab<u64>) -> usize;

/// Creates a slab with `slab::Slab::new`, which is empty.
#[verifier::external_body]
fn slab_new() -> (slab: slab::Slab<u64>)
    ensures
        slab_contents(slab) == no_values(),
{
    slab::Slab::new()
}

/// Returns the key of the next vacant entry with `slab::Slab::vacant_key`.
///
/// It is the key that the next insertion uses, and no value is stored there.
#[verifier::external_body]
fn slab_vacant_key(slab: &slab::Slab<u64>) -> (key: usize)
    ensures
        key == slab_next_key(*slab),
        !slab_contents(*slab).contains_key(key),
{
    slab.vacant_key()
}

/// Inserts a value with `slab::Slab::insert`.
///
/// The value is stored at the next key, which was vacant and is returned. All
/// other values are kept.
#[verifier::external_body]
fn slab_insert(slab: &mut slab::Slab<u64>, value: u64) -> (key: usize)
    ensures
        key == slab_next_key(*old(slab)),
        !slab_contents(*old(slab)).contains_key(key),
        slab_contents(*final(slab)) == slab_contents(*old(slab)).insert(key, value),
{
    slab.insert(value)
}

/// Removes a value with `slab::Slab::try_remove`.
///
/// The value at the key is taken out and returned if there is one. All other
/// values are kept.
#[verifier::external_body]
fn slab_try_remove(slab: &mut slab::Slab<u64>, key: usize) -> (value: Option<u64>)
    ensures
        slab_contents(*final(slab)) == slab_contents(*old(slab)).remove(key),
        value == (if slab_contents(*old(slab)).contains_key(key) {
            Some(slab_contents(*old(slab))[key])
        } else {
            None
        }),
{
    slab.try_remove(key)
}

/// Whether a sequence enumerates the values of a map in the order of their
/// keys.
pub open spec fn in_key_order(values: Seq<u64>, contents: Map<usize, u64>) -> bool {
    exists|keys: Seq<usize>| #[trigger]
        enumerates(keys, contents) && values == keys.map_values(|key: usize| contents[key])
}

/// Whether a sequence is made of the keys of a map, each once, in ascending
/// order.
pub open spec fn enumerates(keys: Seq<usize>, contents: Map<usize, u64>) -> bool {
    &&& forall|i: int, j: int| 0 <= i < j < keys.len() ==> keys[i] < keys[j]
    &&& forall|key: usize| #[trigger] keys.contains(key) <==> contents.contains_key(key)
}

/// Takes all values out of a slab with `slab::Slab::drain`.
///
/// The values come out in the order of their keys, and the slab is left empty.
#[verifier::external_body]
fn slab_drain(slab: &mut slab::Slab<u64>) -> (values: Vec<u64>)
    ensures
        in_key_order(values@, slab_contents(*old(slab))),
        slab_contents(*final(slab)) == no_values(),
{
    slab.drain().collect()
}

/// The cancellation tokens of all tasks that have not completed yet.
pub struct ActiveTasks {
    tasks: slab::Slab<u64>,
}

impl View for ActiveTasks {
    type V = Map<usize, u64>;

    /// The tokens, by cancellation key.
    closed spec fn view(&self) -> Map<usize, u64> {
        slab_contents(self.tasks)
    }
}

impl ActiveTasks {
    /// The key that the next task will get.
    pub closed spec fn next_key(self) -> usize {
        slab_next_key(self.tasks)
    }

    /// Creates an empty collection.
    pub fn new() -> (tasks: Self)
        ensures
            tasks@ == no_values(),
    {
        ActiveTasks { tasks: slab_new() }
    }

    /// Returns the key under which the token of the next task will be stored,
    /// so that the task can be given its key before it has a token.
    pub fn vacant_key(&self) -> (key: usize)
        ensures
            key == self.next_key(),
            !self@.contains_key(key),
    {
        slab_vacant_key(&self.tasks)
    }

    /// Stores the token of a new task and returns its key.
    pub fn insert(&mut self, token: u64) -> (key: usize)
        ensures
            key == old(self).next_key(),
            !old(self)@.contains_key(key),
            final(self)@ == old(self)@.insert(key, token),
    {
        slab_insert(&mut self.tasks, token)
    }

    /// Removes the token of a task that has completed, if it is still there.
    pub fn remove(&mut self, key: usize) -> (token: Option<u64>)
        ensures
            final(self)@ == old(self)@.remove(key),
            token == (if old(self)@.contains_key(key) {
                Some(old(self)@[key])
            } else {
                None
            }),
    {
        slab_try_remove(&mut self.tasks, key)
    }

    /// Takes the tokens of all tasks, so that they can be cancelled.
    pub fn drain(&mut self) -> (tokens: Vec<u64>)
        ensures
            in_key_order(tokens@, old(self)@),
            final(self)@ == no_values(),
    {
        slab_drain(&mut self.tasks)
    }
}

/// A future that remembers under which key its cancellation token is stored.
pub struct CancellableFuture<F> {
    inner: F,
    cancellation_key: usize,
}

impl<F> CancellableFuture<F> {
    /// The wrapped future.
    pub closed spec fn inner(self) -> F {
        self.inner
    }

    /// The key of the cancellation token.
    pub closed spec fn cancellation_key(self) -> usize {
        self.cancellation_key
    }

    /// Wraps a future.
    pub fn new(fut: F, cancellation_key: usize) -> (future: Self)
        ensures
            future.inner() == fut,
            future.cancellation_key() == cancellation_key,
    {
        CancellableFuture { inner: fut, cancellation_key }
    }

    /// Gives up the future and removes its token from the active tasks, if it
    /// is still there.
    pub fn discard(self, active_tasks: &mut ActiveTasks) -> (inner: F)
        ensures
            inner == self.inner(),
            final(active_tasks)@ == old(active_tasks)@.remove(self.cancellation_key()),
    {
        let _ = active_tasks.remove(self.cancellation_key);
        self.inner
    }
}

/// The tokens of all tasks are taken, each once, in the order of their keys.
///
/// The keys are returned.
pub proof fn law_all_tokens_are_taken(tokens: Seq<u64>, tasks: Map<usize, u64>) -> (keys: Seq<
    usize,
>)
    requires
        in_key_order(tokens, tasks),
    ensures
        keys.len() == tokens.len(),
        forall|i: int|
            0 <= i < keys.len() ==> tasks.contains_key(#[trigger] keys[i]) && tokens[i]
                == tasks[keys[i]],
        forall|i: int, j: int| 0 <= i < j < keys.len() ==> keys[i] < keys[j],
        forall|key: usize| #[trigger]
            tasks.contains_key(key) ==> exists|i: int|
                0 <= i < keys.len() && #[trigger] keys[i] == key,
{
    let keys = choose|keys: Seq<usize>| #[trigger]
        enumerates(keys, tasks) && tokens == keys.map_values(|key: usize| tasks[key]);
    assert forall|i: int| 0 <= i < keys.len() implies tasks.contains_key(#[trigger] keys[i])
        && tokens[i] == tasks[keys[i]] by {
        assert(keys.contains(keys[i]));
    }
    assert forall|key: usize| #[trigger] tasks.contains_key(key) implies exists|i: int|
        0 <= i < keys.len() && #[trigger] keys[i] == key by {
        assert(keys.contains(key));
    }
    keys
}

} // verus!
