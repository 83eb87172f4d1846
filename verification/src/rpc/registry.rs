//! Registries of sources and sinks.

use vstd::prelude::*;
use vstd::string::StringExecFns;

use crate::util::text::{decimal, decimal_text};

verus! {

/// The position of the first item with the given name, if any.
pub open spec fn position<S>(entries: Seq<(String, S)>, name: Seq<char>) -> Option<int>
    decreases entries.len(),
{
    if entries.len() == 0 {
        None
    } else {
        match position(entries.drop_last(), name) {
            Some(i) => Some(i),
            None => if entries.last().0@ == name {
                Some(entries.len() - 1)
            } else {
                None
            },
        }
    }
}

proof fn lemma_position<S>(entries: Seq<(String, S)>, name: Seq<char>)
    ensures
        match position(entries, name) {
            Some(i) => 0 <= i < entries.len() && entries[i].0@ == name,
            None => forall|i: int| 0 <= i < entries.len() ==> (#[trigger] entries[i]).0@ != name,
        },
    decreases entries.len(),
{
    if entries.len() > 0 {
        lemma_position(entries.drop_last(), name);
        if position(entries, name) is None {
            assert forall|i: int| 0 <= i < entries.len() implies (#[trigger] entries[i]).0@
                != name by {
                if i < entries.len() - 1 {
                    assert(entries[i] == entries.drop_last()[i]);
                }
            }
        }
    }
}

/// A collection of items with unique names.
pub struct Registry<S> {
    entries: Vec<(String, S)>,
}

impl<S> View for Registry<S> {
    type V = Seq<(String, S)>;

    /// The items and their names, in order of registration.
    closed spec fn view(&self) -> Seq<(String, S)> {
        self.entries@
    }
}

impl<S> Registry<S> {
    /// Names are unique.
    pub open spec fn wf(self) -> bool {
        forall|i: int, j: int|
            0 <= i < j < self@.len() ==> (#[trigger] self@[i]).0@ != (#[trigger] self@[j]).0@
    }

    /// Whether an item is registered with the given name.
    pub open spec fn has(self, name: Seq<char>) -> bool {
        position(self@, name) is Some
    }

    /// The item that is registered with the given name.
    pub open spec fn item(self, name: Seq<char>) -> S {
        self@[position(self@, name)->Some_0].1
    }

    /// Creates an empty registry.
    pub fn new() -> (registry: Self)
        ensures
            registry.wf(),
            registry@ == Seq::<(String, S)>::empty(),
    {
        Registry { entries: Vec::new() }
    }

    /// Searches for an item.
    fn find(&self, name: &str) -> (found: Option<usize>)
        ensures
            match found {
                Some(i) => position(self@, name@) == Some(i as int),
                None => position(self@, name@) is None,
            },
    {
        let wanted = name.to_owned();
        let mut i: usize = 0;
        while i < self.entries.len()
            invariant
                i <= self@.len(),
                wanted@ == name@,
                position(self@.take(i as int), name@) is None,
            decreases self@.len() - i,
        {
            assert(self@.take(i + 1).drop_last() =~= self@.take(i as int));
            if self.entries[i].0 == wanted {
                proof {
                    lemma_position_prefix(self@, i + 1, name@);
                }
                return Some(i);
            }
            i = i + 1;
        }
        assert(self@.take(i as int) =~= self@);
        None
    }

    /// Adds an item to the registry.
    ///
    /// If the specified name is already in use for another item, the item
    /// provided as argument is returned in the error.
    pub fn add(&mut self, item: S, name: String) -> (result: Result<(), S>)
        requires
            old(self).wf(),
        ensures
            final(self).wf(),
            match result {
                Ok(_) => !old(self).has(name@) && final(self)@ == old(self)@.push((name, item)),
                Err(returned) => old(self).has(name@) && returned == item && *final(self)
                    == *old(self),
            },
    {
        proof {
            lemma_position(self@, name@);
        }
        match self.find(name.as_str()) {
            Some(_) => Err(item),
            None => {
                self.entries.push((name, item));
                Ok(())
            },
        }
    }

    /// Returns the specified item if it is in the registry.
    pub fn get(&self, name: &str) -> (item: Option<&S>)
        ensures
            match item {
                Some(item) => self.has(name@) && *item == self.item(name@),
                None => !self.has(name@),
            },
    {
        proof {
            lemma_position(self@, name@);
        }
        match self.find(name) {
            Some(i) => Some(&self.entries[i].1),
            None => None,
        }
    }

    /// Returns a mutable reference to the specified item if it is in the
    /// registry.
    pub fn get_mut(&mut self, name: &str) -> (item: Option<&mut S>)
        ensures
            match item {
                Some(item) => {
                    &&& old(self).has(name@)
                    &&& *item == old(self).item(name@)
                    &&& final(self)@ == old(self)@.update(
                        position(old(self)@, name@)->Some_0,
                        (old(self)@[position(old(self)@, name@)->Some_0].0, *final(item)),
                    )
                },
                None => !old(self).has(name@) && *final(self) == *old(self),
            },
    {
        proof {
            lemma_position(self@, name@);
        }
        match self.find(name) {
            Some(i) => Some(&mut self.entries[i].1),
            None => None,
        }
    }

    /// Returns the number of items.
    pub fn len(&self) -> (count: usize)
        ensures
            count == self@.len(),
    {
        self.entries.len()
    }
}

proof fn lemma_position_prefix<S>(entries: Seq<(String, S)>, count: int, name: Seq<char>)
    requires
        0 <= count <= entries.len(),
        position(entries.take(count), name) is Some,
    ensures
        position(entries, name) == position(entries.take(count), name),
    decreases entries.len() - count,
{
    if count < entries.len() {
        assert(entries.take(count + 1).drop_last() =~= entries.take(count));
        lemma_position_prefix(entries, count + 1, name);
    } else {
        assert(entries.take(count) =~= entries);
    }
}

/// A registry that holds all sources and sinks meant to be accessed through
/// remote procedure calls.
pub struct EndpointRegistry<E, Q, K> {
    /// The event sources.
    pub event_source_registry: Registry<E>,
    /// The query sources.
    pub query_source_registry: Registry<Q>,
    /// The event sinks.
    pub event_sink_registry: Registry<K>,
}

impl<E, Q, K> EndpointRegistry<E, Q, K> {
    /// Names are unique among event sources, query sources and sinks.
    pub open spec fn wf(self) -> bool {
        &&& self.event_source_registry.wf()
        &&& self.query_source_registry.wf()
        &&& self.event_sink_registry.wf()
    }

    /// Creates an empty `EndpointRegistry`.
    pub fn new() -> (registry: Self)
        ensures
            registry.wf(),
            registry.event_source_registry@ == Seq::<(String, E)>::empty(),
            registry.query_source_registry@ == Seq::<(String, Q)>::empty(),
            registry.event_sink_registry@ == Seq::<(String, K)>::empty(),
    {
        EndpointRegistry {
            event_source_registry: Registry::new(),
            query_source_registry: Registry::new(),
            event_sink_registry: Registry::new(),
        }
    }

    /// Adds an event source to the registry.
    ///
    /// If the specified name is already in use for another event source, the
    /// source provided as argument is returned in the error.
    pub fn add_event_source(&mut self, source: E, name: String) -> (result: Result<(), E>)
        requires
            old(self).wf(),
        ensures
            final(self).wf(),
            final(self).query_source_registry == old(self).query_source_registry,
            final(self).event_sink_registry == old(self).event_sink_registry,
            match result {
                Ok(_) => !old(self).event_source_registry.has(name@)
                    && final(self).event_source_registry@ == old(self).event_source_registry@.push(
                    (name, source),
                ),
                Err(returned) => old(self).event_source_registry.has(name@) && returned == source
                    && final(self).event_source_registry == old(self).event_source_registry,
            },
    {
        self.event_source_registry.add(source, name)
    }

    /// Adds a query source to the registry.
    ///
    /// If the specified name is already in use for another query source, the
    /// source provided as argument is returned in the error.
    pub fn add_query_source(&mut self, source: Q, name: String) -> (result: Result<(), Q>)
        requires
            old(self).wf(),
        ensures
            final(self).wf(),
            final(self).event_source_registry == old(self).event_source_registry,
            final(self).event_sink_registry == old(self).event_sink_registry,
            match result {
                Ok(_) => !old(self).query_source_registry.has(name@)
                    && final(self).query_source_registry@ == old(self).query_source_registry@.push(
                    (name, source),
                ),
                Err(returned) => old(self).query_source_registry.has(name@) && returned == source
                    && final(self).query_source_registry == old(self).query_source_registry,
            },
    {
        self.query_source_registry.add(source, name)
    }

    /// Adds a sink to the registry.
    ///
    /// If the specified name is already in use for another sink, the sink
    /// provided as argument is returned in the error.
    pub fn add_event_sink(&mut self, sink: K, name: String) -> (result: Result<(), K>)
        requires
            old(self).wf(),
        ensures
            final(self).wf(),
            final(self).event_source_registry == old(self).event_source_registry,
            final(self).query_source_registry == old(self).query_source_registry,
            match result {
                Ok(_) => !old(self).event_sink_registry.has(name@)
                    && final(self).event_sink_registry@ == old(self).event_sink_registry@.push(
                    (name, sink),
                ),
                Err(returned) => old(self).event_sink_registry.has(name@) && returned == sink
                    && final(self).event_sink_registry == old(self).event_sink_registry,
            },
    {
        self.event_sink_registry.add(sink, name)
    }

    /// The debug representation of the registry.
    pub fn to_text(&self) -> (text: String)
        ensures
            text@ == "EndpointRegistry ("@ + decimal(self.event_source_registry@.len())
                + " sources, "@ + decimal(self.event_sink_registry@.len()) + " sinks)"@,
    {
        let mut text = "EndpointRegistry (".to_owned();
        text.append(decimal_text(self.event_source_registry.len()).as_str());
        text.append(" sources, ");
        text.append(decimal_text(self.event_sink_registry.len()).as_str());
        text.append(" sinks)");
        text
    }
}

/// An item is found if and only if one is registered with exactly that name, and it is
/// the one that was registered first with that name.
pub proof fn law_items_are_found_by_name<S>(registry: Registry<S>, name: Seq<char>)
    ensures
        registry.has(name) <==> exists|i: int|
            0 <= i < registry@.len() && (#[trigger] registry@[i]).0@ == name,
        registry.has(name) ==> exists|i: int|
            0 <= i < registry@.len() && (#[trigger] registry@[i]).0@ == name && registry@[i].1
                == registry.item(name) && forall|j: int|
                0 <= j < i ==> (#[trigger] registry@[j]).0@ != name,
{
    lemma_position(registry@, name);
    if registry.has(name) {
        lemma_first_position(registry@, name);
        let i = position(registry@, name)->Some_0;
        assert(registry@[i].0@ == name);
    }
}

proof fn lemma_first_position<S>(entries: Seq<(String, S)>, name: Seq<char>)
    requires
        position(entries, name) is Some,
    ensures
        forall|j: int|
            0 <= j < position(entries, name)->Some_0 ==> (#[trigger] entries[j]).0@ != name,
    decreases entries.len(),
{
    lemma_position(entries, name);
    lemma_position(entries.drop_last(), name);
    if position(entries.drop_last(), name) is Some {
        lemma_first_position(entries.drop_last(), name);
    }
    assert forall|j: int| 0 <= j < position(entries, name)->Some_0 implies (
    #[trigger] entries[j]).0@ != name by {
        assert(entries[j] == entries.drop_last()[j]);
    }
}

/// All registered items can be found, each under its own name.
pub proof fn law_each_item_is_found<S>(registry: Registry<S>, i: int)
    requires
        registry.wf(),
        0 <= i < registry@.len(),
    ensures
        registry.has(registry@[i].0@),
        registry.item(registry@[i].0@) == registry@[i].1,
        forall|j: int|
            0 <= j < registry@.len() && j != i ==> (#[trigger] registry@[j]).0@ != registry@[i].0@,
{
    lemma_position(registry@, registry@[i].0@);
    let k = position(registry@, registry@[i].0@)->Some_0;
    if k < i {
        assert(registry@[k].0@ != registry@[i].0@);
    } else if i < k {
        assert(registry@[i].0@ != registry@[k].0@);
    }
    assert forall|j: int| 0 <= j < registry@.len() && j != i implies (#[trigger] registry@[j]).0@
        != registry@[i].0@ by {
        if j < i {
            assert(registry@[j].0@ != registry@[i].0@);
        } else {
            assert(registry@[i].0@ != registry@[j].0@);
        }
    }
}

/// An item that is added is found under its name, and all other items are found as
/// before.
pub proof fn law_added_item_is_found<S>(
    before: Registry<S>,
    item: S,
    name: String,
    after: Registry<S>,
    other: Seq<char>,
)
    requires
        before.wf(),
        !before.has(name@),
        after@ == before@.push((name, item)),
    ensures
        after.wf(),
        after.has(name@),
        after.item(name@) == item,
        other != name@ ==> (after.has(other) <==> before.has(other)),
        before.has(other) ==> after.item(other) == before.item(other),
{
    assert(after@.drop_last() =~= before@);
    lemma_position(before@, name@);
    lemma_position(before@, other);
}

} // verus!
