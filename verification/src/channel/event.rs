//! An event system ("eventcount") that lets tasks wait until a predicate is
//! satisfied.
//!
//! A task that finds the predicate unsatisfied enlists a notifier in the wait
//! set of the event, checks the predicate once more and then suspends. Each
//! notification takes the notifier that has waited for longest out of the set
//! and designates its waker, which the caller invokes.

use vstd::prelude::*;

verus! {

/// A waker that can be linked into a list.
pub struct Notifier {
    /// The current waker, if any.
    waker: Option<u64>,
    /// The previous notifier of the wait set.
    prev: Option<usize>,
    /// The next notifier of the wait set.
    next: Option<usize>,
    /// Flag indicating whether the notifier is currently in the wait set.
    in_wait_set: bool,
}

impl Notifier {
    /// The registered waker.
    pub closed spec fn waker(self) -> Option<u64> {
        self.waker
    }

    /// Whether the notifier is linked into the wait set.
    pub closed spec fn enlisted(self) -> bool {
        self.in_wait_set
    }

    /// The previous and the next notifier of the wait set.
    pub closed spec fn neighbours(self) -> (Option<usize>, Option<usize>) {
        (self.prev, self.next)
    }

    /// Creates a new notifier without any registered waker.
    pub fn new() -> (notifier: Self)
        ensures
            notifier.waker() is None,
            !notifier.enlisted(),
    {
        Notifier { waker: None, prev: None, next: None, in_wait_set: false }
    }

    /// Stores the specified waker if it differs from the cached waker.
    pub fn set_waker(&mut self, waker: u64)
        ensures
            final(self).waker() == Some(waker),
            final(self).enlisted() == old(self).enlisted(),
            final(self).neighbours() == old(self).neighbours(),
    {
        let differs = match self.waker {
            Some(current) => current != waker,
            None => true,
        };
        if differs {
            self.waker = Some(waker);
        }
    }

    /// The waker to be invoked in order to notify the task.
    pub fn wake(&self) -> (waker: Option<u64>)
        ensures
            waker == self.waker(),
    {
        self.waker
    }
}

/// A doubly linked list of notifiers, which are stored separately.
pub struct List {
    front: Option<usize>,
    back: Option<usize>,
}

impl List {
    /// Whether the list links exactly the given notifiers, in this order.
    pub closed spec fn links(self, nodes: Seq<Notifier>, order: Seq<usize>) -> bool {
        &&& order.no_duplicates()
        &&& self.front == (if order.len() == 0 {
            None
        } else {
            Some(order[0])
        })
        &&& self.back == (if order.len() == 0 {
            None
        } else {
            Some(order.last())
        })
        &&& forall|i: int|
            0 <= i < order.len() ==> #[trigger] Self::linked_at(nodes, order, i)
    }

    /// Whether the notifier of rank `i` is linked to its neighbours.
    spec fn linked_at(nodes: Seq<Notifier>, order: Seq<usize>, i: int) -> bool {
        &&& order[i] < nodes.len()
        &&& nodes[order[i] as int].prev == (if i == 0 {
            None
        } else {
            Some(order[i - 1])
        })
        &&& nodes[order[i] as int].next == (if i == order.len() - 1 {
            None
        } else {
            Some(order[i + 1])
        })
    }

    /// Whether two stores of notifiers only differ by their links.
    spec fn only_links_differ(a: Seq<Notifier>, b: Seq<Notifier>) -> bool {
        &&& a.len() == b.len()
        &&& forall|i: int|
            0 <= i < a.len() ==> (#[trigger] a[i]).waker == b[i].waker && a[i].in_wait_set
                == b[i].in_wait_set
    }

    /// Creates an empty list.
    pub fn new() -> (list: Self)
        ensures
            forall|nodes: Seq<Notifier>| #[trigger] list.links(nodes, Seq::empty()),
    {
        List { front: None, back: None }
    }

    /// Returns `true` if the list is empty.
    pub fn is_empty(&self) -> (r: bool)
        ensures
            forall|nodes: Seq<Notifier>, order: Seq<usize>| #[trigger]
                self.links(nodes, order) ==> r == (order.len() == 0),
    {
        self.front.is_none()
    }

    /// Inserts a notifier at the back of the list.
    fn push_back(&mut self, nodes: &mut Vec<Notifier>, notifier: usize, Ghost(order): Ghost<
        Seq<usize>,
    >)
        requires
            old(self).links(old(nodes)@, order),
            notifier < old(nodes)@.len(),
            !order.contains(notifier),
        ensures
            final(self).links(final(nodes)@, order.push(notifier)),
            Self::only_links_differ(old(nodes)@, final(nodes)@),
    {
        proof {
            if order.len() > 0 {
                assert(Self::linked_at(nodes@, order, order.len() - 1));
            }
        }
        let old_back = self.back;
        self.back = Some(notifier);
        match old_back {
            None => {
                self.front = Some(notifier);
            },
            Some(prev) => {
                let node = &mut nodes[prev];
                node.next = Some(notifier);
            },
        }

        // Link the new notifier.
        let node = &mut nodes[notifier];
        node.prev = old_back;
        node.next = None;
        proof {
            let longer = order.push(notifier);
            assert forall|i: int| 0 <= i < order.len() implies order[i] != notifier by {
                assert(order.contains(order[i]));
            }
            assert(longer.no_duplicates());
            assert forall|i: int| 0 <= i < longer.len() implies #[trigger] Self::linked_at(
                nodes@,
                longer,
                i,
            ) by {
                if i < order.len() {
                    assert(Self::linked_at(old(nodes)@, order, i));
                    assert(order[i] != order[order.len() - 1] || i == order.len() - 1);
                }
            }
        }
    }

    /// Removes and returns the notifier at the front of the list, if any.
    fn pop_front(&mut self, nodes: &mut Vec<Notifier>, Ghost(order): Ghost<Seq<usize>>) -> (r:
        Option<usize>)
        requires
            old(self).links(old(nodes)@, order),
        ensures
            Self::only_links_differ(old(nodes)@, final(nodes)@),
            order.len() == 0 ==> r is None && *final(self) == *old(self) && *final(nodes) == *old(
                nodes),
            order.len() > 0 ==> r == Some(order[0]),
            final(self).links(
                final(nodes)@,
                if order.len() == 0 {
                    order
                } else {
                    order.drop_first()
                },
            ),
    {
        let notifier = match self.front {
            None => {
                return None;
            },
            Some(notifier) => notifier,
        };

        // Unlink from the next notifier.
        assert(Self::linked_at(nodes@, order, 0));
        let next = nodes[notifier].next;
        self.front = next;
        match next {
            None => {
                self.back = None;
            },
            Some(next) => {
                assert(Self::linked_at(nodes@, order, 1));
                let node = &mut nodes[next];
                node.prev = None;
            },
        }
        proof {
            let shorter = order.drop_first();
            assert forall|i: int| 0 <= i < shorter.len() implies shorter[i] == order[i + 1] by {}
            assert(shorter.no_duplicates());
            assert forall|i: int| 0 <= i < shorter.len() implies #[trigger] Self::linked_at(
                nodes@,
                shorter,
                i,
            ) by {
                assert(Self::linked_at(old(nodes)@, order, i + 1));
                assert(order[i + 1] != order[1] || i == 0);
            }
        }
        Some(notifier)
    }

    /// Removes the specified notifier.
    fn remove(&mut self, nodes: &mut Vec<Notifier>, notifier: usize, Ghost(order): Ghost<
        Seq<usize>,
    >, Ghost(at): Ghost<int>)
        requires
            old(self).links(old(nodes)@, order),
            0 <= at < order.len(),
            order[at] == notifier,
        ensures
            Self::only_links_differ(old(nodes)@, final(nodes)@),
            final(self).links(final(nodes)@, order.remove(at)),
    {
        // Unlink from the previous and next notifiers.
        assert(Self::linked_at(nodes@, order, at));
        let prev = nodes[notifier].prev;
        let next = nodes[notifier].next;
        match prev {
            None => {
                self.front = next;
            },
            Some(prev) => {
                assert(Self::linked_at(nodes@, order, at - 1));
                let node = &mut nodes[prev];
                node.next = next;
            },
        }
        match next {
            None => {
                self.back = prev;
            },
            Some(next) => {
                assert(Self::linked_at(old(nodes)@, order, at + 1));
                let node = &mut nodes[next];
                node.prev = prev;
            },
        }
        proof {
            let shorter = order.remove(at);
            assert(shorter.no_duplicates());
            assert forall|i: int| 0 <= i < shorter.len() implies #[trigger] Self::linked_at(
                nodes@,
                shorter,
                i,
            ) by {
                let j = if i < at {
                    i
                } else {
                    i + 1
                };
                assert(Self::linked_at(old(nodes)@, order, j));
                assert(at > 0 && j != at - 1 ==> order[j] != order[at - 1]);
                assert(at < order.len() - 1 && j != at + 1 ==> order[j] != order[at + 1]);
                assert(order[j] != order[at]);
            }
        }
    }
}

/// The sequence without the given item, which occurs in it at most once.
pub open spec fn without(s: Seq<usize>, item: usize) -> Seq<usize> {
    if s.contains(item) {
        s.remove(s.index_of(item))
    } else {
        s
    }
}

/// Taking out an item that occurs once leaves all others, and only them.
proof fn lemma_without(s: Seq<usize>, item: usize)
    requires
        s.no_duplicates(),
    ensures
        without(s, item).no_duplicates(),
        forall|x: usize| #[trigger] without(s, item).contains(x) <==> s.contains(x) && x != item,
{
    if s.contains(item) {
        let at = s.index_of(item);
        let shorter = s.remove(at);
        assert forall|x: usize| #[trigger] shorter.contains(x) <==> s.contains(x) && x
            != item by {
            if s.contains(x) && x != item {
                let i = s.index_of(x);
                assert(shorter[if i < at {
                    i
                } else {
                    i - 1
                }] == x);
            }
            if shorter.contains(x) {
                let i = shorter.index_of(x);
                assert(s[if i < at {
                    i
                } else {
                    i + 1
                }] == x);
            }
        }
    }
}

/// A set of notifiers.
///
/// The set manages a list of notifiers and a flag for fast assessment of list
/// emptiness. It also stores the notifiers.
pub struct WaitSet {
    /// All notifiers, including those that are not enlisted.
    nodes: Vec<Notifier>,
    /// Notifiers that are free for use.
    vacant: Vec<usize>,
    /// The enlisted notifiers.
    list: List,
    /// Unless this flag is cleared, the list is empty.
    is_empty: bool,
    /// The enlisted notifiers, in order.
    order: Ghost<Seq<usize>>,
}

impl WaitSet {
    /// The enlisted notifiers, from the one that has waited for longest to the
    /// latest.
    pub closed spec fn waiting(self) -> Seq<usize> {
        self.order@
    }

    /// Whether a notifier is in use.
    pub closed spec fn allocated(self, notifier: usize) -> bool {
        notifier < self.nodes@.len() && !self.vacant@.contains(notifier)
    }

    /// The waker of a notifier, if any.
    pub closed spec fn waker(self, notifier: usize) -> Option<u64> {
        self.nodes@[notifier as int].waker
    }

    /// The invariant of the wait set.
    pub closed spec fn wf(self) -> bool {
        &&& self.list.links(self.nodes@, self.order@)
        &&& self.order@.no_duplicates()
        &&& self.is_empty ==> self.order@.len() == 0
        &&& self.vacant@.no_duplicates()
        &&& forall|i: int|
            0 <= i < self.vacant@.len() ==> (#[trigger] self.vacant@[i]) < self.nodes@.len()
        &&& forall|i: int|
            0 <= i < self.order@.len() ==> {
                &&& self.allocated(#[trigger] self.order@[i])
                &&& self.waker(self.order@[i]) is Some
            }
        &&& forall|n: usize|
            n < self.nodes@.len() ==> (#[trigger] self.nodes@[n as int]).in_wait_set
                == self.order@.contains(n)
    }

    /// Whether the notifiers in use and their wakers are the same in two
    /// states of a wait set.
    pub open spec fn same_notifiers(self, other: Self) -> bool {
        forall|n: usize|
            #![trigger self.allocated(n)]
            #![trigger other.allocated(n)]
            self.allocated(n) == other.allocated(n) && (self.allocated(n) ==> self.waker(n)
                == other.waker(n))
    }

    /// The wakers of the notifiers that have waited for longest, from the
    /// oldest.
    pub open spec fn front_wakers(self, count: int) -> Seq<u64> {
        Seq::new(count as nat, |i: int| self.waker(self.waiting()[i])->Some_0)
    }

    /// The notifiers in use that are not enlisted, because they were notified.
    pub open spec fn notified(self) -> Set<usize> {
        Set::new(|n: usize| self.allocated(n) && !self.waiting().contains(n))
    }

    proof fn lemma_notified_finite(self)
        ensures
            self.notified().finite(),
    {
        broadcast use vstd::set_lib::full_set_properties;

        vstd::set_lib::lemma_set_subset_finite(Set::<usize>::full(), self.notified());
    }

    /// Notifying the notifier that has waited for longest makes one more notified
    /// notifier.
    pub(crate) proof fn lemma_one_more_notified(before: Self, after: Self)
        requires
            before.wf(),
            before.waiting().len() > 0,
            after.same_notifiers(before),
            after.waiting() == before.waiting().drop_first(),
        ensures
            after.notified().len() == before.notified().len() + 1,
    {
        before.law_enlisted();
        before.lemma_notified_finite();
        let first = before.waiting()[0];
        assert(before.waiting().contains(first));
        assert forall|n: usize| before.waiting().contains(n) <==> n == first
            || #[trigger] after.waiting().contains(n) by {
            if before.waiting().contains(n) && n != first {
                let i = before.waiting().index_of(n);
                assert(after.waiting()[i - 1] == n);
            }
            if after.waiting().contains(n) {
                let i = after.waiting().index_of(n);
                assert(before.waiting()[i + 1] == n);
            }
        }
        assert(!after.waiting().contains(first)) by {
            if after.waiting().contains(first) {
                let i = after.waiting().index_of(first);
                assert(before.waiting()[i + 1] == first);
            }
        }
        assert(after.notified() =~= before.notified().insert(first));
    }

    /// Giving back a notifier that was taken out of the list makes at most one less
    /// notified notifier.
    pub(crate) proof fn lemma_at_most_one_less_notified(
        before: Self,
        notifier: usize,
        after: Self,
    )
        requires
            before.wf(),
            after.waiting() == without(before.waiting(), notifier),
            forall|n: usize| #[trigger]
                after.allocated(n) == (before.allocated(n) && n != notifier),
        ensures
            after.notified().len() + 1 >= before.notified().len(),
            before.waiting().contains(notifier) ==> after.notified().len()
                == before.notified().len(),
    {
        lemma_without(before.waiting(), notifier);
        before.lemma_notified_finite();
        assert(after.notified() =~= before.notified().remove(notifier));
    }

    /// Cancelling a notifier and giving it back does not make less notified
    /// notifiers as long as others are enlisted.
    pub(crate) proof fn lemma_not_less_notified(
        before: Self,
        notifier: usize,
        woken: Option<u64>,
        after: Self,
    )
        requires
            before.wf(),
            before.allocated(notifier),
            cancelled(before, notifier, woken, after),
            forall|n: usize|
                #![trigger after.allocated(n)]
                #![trigger before.allocated(n)]
                after.allocated(n) == (before.allocated(n) && n != notifier),
            after.waiting().len() > 0,
        ensures
            after.notified().len() >= before.notified().len(),
    {
        if before.waiting().contains(notifier) {
            Self::lemma_at_most_one_less_notified(before, notifier, after);
        } else {
            before.law_enlisted();
            before.lemma_notified_finite();
            let first = before.waiting()[0];
            assert(before.waiting().contains(first));
            assert forall|n: usize| before.waiting().contains(n) <==> n == first
                || #[trigger] after.waiting().contains(n) by {
                if before.waiting().contains(n) && n != first {
                    let i = before.waiting().index_of(n);
                    assert(after.waiting()[i - 1] == n);
                }
                if after.waiting().contains(n) {
                    let i = after.waiting().index_of(n);
                    assert(before.waiting()[i + 1] == n);
                }
            }
            assert(!after.waiting().contains(first)) by {
                if after.waiting().contains(first) {
                    let i = after.waiting().index_of(first);
                    assert(before.waiting()[i + 1] == first);
                }
            }
            assert(after.notified() =~= before.notified().insert(first).remove(notifier));
        }
    }

    /// A notifier is enlisted at most once, and only while it is in use and
    /// has a waker.
    pub proof fn law_enlisted(self)
        requires
            self.wf(),
        ensures
            self.waiting().no_duplicates(),
            forall|n: usize| #[trigger]
                self.waiting().contains(n) ==> self.allocated(n) && self.waker(n) is Some,
    {
    }

    /// Creates an empty wait set.
    pub fn new() -> (wait_set: Self)
        ensures
            wait_set.wf(),
            wait_set.waiting() == Seq::<usize>::empty(),
            forall|n: usize| !#[trigger] wait_set.allocated(n),
    {
        WaitSet {
            nodes: Vec::new(),
            vacant: Vec::new(),
            list: List::new(),
            is_empty: true,
            order: Ghost(Seq::empty()),
        }
    }

    /// Puts a notifier without a waker in use.
    pub fn allocate(&mut self) -> (notifier: usize)
        requires
            old(self).wf(),
        ensures
            final(self).wf(),
            !old(self).allocated(notifier),
            final(self).waiting() == old(self).waiting(),
            !final(self).waiting().contains(notifier),
            forall|n: usize| #[trigger]
                final(self).allocated(n) == (old(self).allocated(n) || n == notifier),
            forall|n: usize|
                old(self).allocated(n) ==> #[trigger] final(self).waker(n) == old(self).waker(n),
    {
        match self.vacant.pop() {
            Some(notifier) => {
                proof {
                    let at = old(self).vacant@.len() - 1;
                    assert(old(self).vacant@[at] == notifier);
                    assert(old(self).vacant@.contains(notifier));
                    assert forall|n: usize| n != notifier implies #[trigger] self.vacant@.contains(
                        n,
                    ) == old(self).vacant@.contains(n) by {
                        if old(self).vacant@.contains(n) {
                            let i = old(self).vacant@.index_of(n);
                            assert(self.vacant@[i] == n);
                        }
                        if self.vacant@.contains(n) {
                            let i = self.vacant@.index_of(n);
                            assert(old(self).vacant@[i] == n);
                        }
                    }
                    assert(!self.vacant@.contains(notifier)) by {
                        if self.vacant@.contains(notifier) {
                            let i = self.vacant@.index_of(notifier);
                            assert(old(self).vacant@[i] == notifier);
                        }
                    }
                    assert forall|i: int| 0 <= i < self.vacant@.len() implies (
                    #[trigger] self.vacant@[i]) < self.nodes@.len() by {
                        assert(self.vacant@[i] == old(self).vacant@[i]);
                    }
                    assert(self.vacant@.no_duplicates()) by {
                        assert forall|i: int, j: int|
                            0 <= i < self.vacant@.len() && 0 <= j < self.vacant@.len() && i
                                != j implies self.vacant@[i] != self.vacant@[j] by {
                            assert(self.vacant@[i] == old(self).vacant@[i]);
                            assert(self.vacant@[j] == old(self).vacant@[j]);
                        }
                    }
                }
                notifier
            },
            None => {
                let notifier: usize = self.nodes.len();
                self.nodes.push(Notifier::new());
                proof {
                    assert forall|i: int| 0 <= i < self.order@.len() implies List::linked_at(
                        self.nodes@,
                        self.order@,
                        i,
                    ) by {
                        assert(List::linked_at(old(self).nodes@, self.order@, i));
                        assert(old(self).allocated(self.order@[i]));
                    }
                    assert(!self.order@.contains(notifier)) by {
                        if self.order@.contains(notifier) {
                            let i = self.order@.index_of(notifier);
                            assert(old(self).allocated(self.order@[i]));
                        }
                    }
                    assert forall|i: int| 0 <= i < self.order@.len() implies {
                        &&& self.allocated(#[trigger] self.order@[i])
                        &&& self.waker(self.order@[i]) is Some
                    } by {
                        assert(old(self).allocated(self.order@[i]));
                    }
                    assert forall|n: usize| n < self.nodes@.len() implies (
                    #[trigger] self.nodes@[n as int]).in_wait_set == self.order@.contains(n) by {
                        if n < old(self).nodes@.len() {
                            assert(self.nodes@[n as int] == old(self).nodes@[n as int]);
                        }
                    }
                }
                notifier
            },
        }
    }

    /// Gives back a notifier that is not enlisted.
    pub fn deallocate(&mut self, notifier: usize)
        requires
            old(self).wf(),
            old(self).allocated(notifier),
            !old(self).waiting().contains(notifier),
        ensures
            final(self).wf(),
            final(self).waiting() == old(self).waiting(),
            forall|n: usize| #[trigger]
                final(self).allocated(n) == (old(self).allocated(n) && n != notifier),
            forall|n: usize|
                old(self).allocated(n) && n != notifier ==> #[trigger] final(self).waker(n) == old(
                    self).waker(n),
    {
        self.vacant.push(notifier);
        proof {
            assert forall|n: usize| #[trigger] self.vacant@.contains(n) == (
            old(self).vacant@.contains(n) || n == notifier) by {
                if old(self).vacant@.contains(n) {
                    let i = old(self).vacant@.index_of(n);
                    assert(self.vacant@[i] == n);
                }
                if n == notifier {
                    assert(self.vacant@[self.vacant@.len() - 1] == n);
                }
            }
            assert forall|i: int| 0 <= i < self.order@.len() implies {
                &&& self.allocated(#[trigger] self.order@[i])
                &&& self.waker(self.order@[i]) is Some
            } by {
                assert(old(self).allocated(self.order@[i]));
                assert(self.order@.contains(self.order@[i]));
            }
            assert(self.vacant@.no_duplicates()) by {
                assert forall|i: int, j: int|
                    0 <= i < self.vacant@.len() && 0 <= j < self.vacant@.len() && i
                        != j implies self.vacant@[i] != self.vacant@[j] by {
                    assert(i < old(self).vacant@.len() ==> old(self).vacant@.contains(
                        self.vacant@[i],
                    ));
                    assert(j < old(self).vacant@.len() ==> old(self).vacant@.contains(
                        self.vacant@[j],
                    ));
                }
            }
        }
    }

    /// Registers a waker with a notifier that is not enlisted.
    pub fn set_waker(&mut self, notifier: usize, waker: u64)
        requires
            old(self).wf(),
            old(self).allocated(notifier),
            !old(self).waiting().contains(notifier),
        ensures
            final(self).wf(),
            final(self).waiting() == old(self).waiting(),
            forall|n: usize| #[trigger] final(self).allocated(n) == old(self).allocated(n),
            final(self).waker(notifier) == Some(waker),
            forall|n: usize|
                old(self).allocated(n) && n != notifier ==> #[trigger] final(self).waker(n) == old(
                    self).waker(n),
    {
        let node = &mut self.nodes[notifier];
        node.set_waker(waker);
        proof {
            assert forall|i: int| 0 <= i < self.order@.len() implies List::linked_at(
                self.nodes@,
                self.order@,
                i,
            ) by {
                assert(List::linked_at(old(self).nodes@, self.order@, i));
                assert(self.order@.contains(self.order@[i]));
            }
            assert forall|i: int| 0 <= i < self.order@.len() implies {
                &&& self.allocated(#[trigger] self.order@[i])
                &&& self.waker(self.order@[i]) is Some
            } by {
                assert(old(self).allocated(self.order@[i]));
                assert(self.order@.contains(self.order@[i]));
            }
            assert forall|n: usize| n < self.nodes@.len() implies (
            #[trigger] self.nodes@[n as int]).in_wait_set == self.order@.contains(n) by {
                assert(old(self).nodes@[n as int].in_wait_set == self.order@.contains(n));
            }
        }
    }

    /// Marks a notifier as enlisted or not, and records the enlisted
    /// notifiers after the list was updated accordingly.
    fn mark(&mut self, notifier: usize, enlisted: bool, Ghost(order): Ghost<Seq<usize>>)
        requires
            notifier < old(self).nodes@.len(),
            old(self).list.links(old(self).nodes@, order),
        ensures
            final(self).list == old(self).list,
            final(self).list.links(final(self).nodes@, order),
            final(self).order@ == order,
            final(self).vacant == old(self).vacant,
            final(self).is_empty == old(self).is_empty,
            final(self).nodes@.len() == old(self).nodes@.len(),
            forall|n: usize|
                n < old(self).nodes@.len() ==> (#[trigger] final(self).nodes@[n as int]).waker
                    == old(self).nodes@[n as int].waker,
            forall|n: usize|
                n < old(self).nodes@.len() ==> (#[trigger] final(self).nodes@[n as int]).in_wait_set
                    == (if n == notifier {
                    enlisted
                } else {
                    old(self).nodes@[n as int].in_wait_set
                }),
    {
        let node = &mut self.nodes[notifier];
        node.in_wait_set = enlisted;
        self.order = Ghost(order);
        proof {
            assert forall|i: int| 0 <= i < order.len() implies List::linked_at(
                self.nodes@,
                order,
                i,
            ) by {
                assert(List::linked_at(old(self).nodes@, order, i));
            }
        }
    }

    /// Inserts a notifier in the wait set.
    ///
    /// The notifier must have a waker and must not be already in the wait set.
    pub fn insert(&mut self, notifier: usize)
        requires
            old(self).wf(),
            old(self).allocated(notifier),
            old(self).waker(notifier) is Some,
            !old(self).waiting().contains(notifier),
        ensures
            final(self).wf(),
            final(self).waiting() == old(self).waiting().push(notifier),
            final(self).same_notifiers(*old(self)),
    {
        let ghost order = self.order@;
        let ghost longer = order.push(notifier);
        self.list.push_back(&mut self.nodes, notifier, Ghost(order));
        self.mark(notifier, true, Ghost(longer));
        self.is_empty = false;
        proof {
            assert forall|n: usize| #[trigger] longer.contains(n) == (order.contains(n) || n
                == notifier) by {
                if order.contains(n) {
                    let i = order.index_of(n);
                    assert(longer[i] == n);
                }
                assert(longer[longer.len() - 1] == notifier);
            }
            assert forall|i: int| 0 <= i < longer.len() implies {
                &&& self.allocated(#[trigger] self.order@[i])
                &&& self.waker(self.order@[i]) is Some
            } by {
                if i < order.len() {
                    assert(old(self).allocated(order[i]));
                    assert(self.nodes@[order[i] as int].waker == old(
                        self).nodes@[order[i] as int].waker);
                } else {
                    assert(self.nodes@[notifier as int].waker == old(
                        self).nodes@[notifier as int].waker);
                }
            }
            assert forall|n: usize| n < self.nodes@.len() implies (
            #[trigger] self.nodes@[n as int]).in_wait_set == self.order@.contains(n) by {
                assert(old(self).nodes@[n as int].in_wait_set == order.contains(n));
            }
            assert forall|n: usize| self.allocated(n) == old(self).allocated(n) && (self.allocated(
                n,
            ) ==> self.waker(n) == old(self).waker(n)) by {
                if n < self.nodes@.len() {
                    assert(self.nodes@[n as int].waker == old(self).nodes@[n as int].waker);
                }
            }
        }
    }

    /// Removes the specified notifier if it is still in the wait set.
    ///
    /// The presence of the notifier is first checked without the list.
    pub fn remove_relaxed(&mut self, notifier: usize)
        requires
            old(self).wf(),
            old(self).allocated(notifier),
        ensures
            final(self).wf(),
            final(self).waiting() == without(old(self).waiting(), notifier),
            !final(self).waiting().contains(notifier),
            final(self).same_notifiers(*old(self)),
    {
        if !self.nodes[notifier].in_wait_set {
            return;
        }
        self.remove(notifier);
    }

    /// Removes the specified notifier if it is still in the wait set.
    pub fn remove(&mut self, notifier: usize)
        requires
            old(self).wf(),
            old(self).allocated(notifier),
        ensures
            final(self).wf(),
            final(self).waiting() == without(old(self).waiting(), notifier),
            !final(self).waiting().contains(notifier),
            final(self).same_notifiers(*old(self)),
    {
        if !self.nodes[notifier].in_wait_set {
            return;
        }
        let ghost order = self.order@;
        let ghost at = order.index_of(notifier);
        let ghost shorter = without(order, notifier);
        self.list.remove(&mut self.nodes, notifier, Ghost(order), Ghost(at));
        assert(self.list.links(self.nodes@, shorter));
        if self.list.is_empty() {
            self.is_empty = true;
        }
        self.mark(notifier, false, Ghost(shorter));
        proof {
            self.lemma_taken_out(*old(self), notifier);
        }
    }

    /// What remains after a notifier was taken out of the list.
    proof fn lemma_taken_out(self, before: Self, notifier: usize)
        requires
            before.wf(),
            before.order@.contains(notifier),
            self.order@ == without(before.order@, notifier),
            self.list.links(self.nodes@, self.order@),
            self.vacant == before.vacant,
            self.is_empty ==> self.order@.len() == 0,
            self.nodes@.len() == before.nodes@.len(),
            forall|n: usize|
                n < before.nodes@.len() ==> (#[trigger] self.nodes@[n as int]).waker
                    == before.nodes@[n as int].waker,
            forall|n: usize|
                n < before.nodes@.len() ==> (#[trigger] self.nodes@[n as int]).in_wait_set
                    == (before.nodes@[n as int].in_wait_set && n != notifier),
        ensures
            self.wf(),
            self.same_notifiers(before),
            !self.waiting().contains(notifier),
    {
        let order = before.order@;
        let shorter = self.order@;
        lemma_without(order, notifier);
        assert forall|i: int| 0 <= i < shorter.len() implies {
            &&& self.allocated(#[trigger] self.order@[i])
            &&& self.waker(self.order@[i]) is Some
        } by {
            assert(shorter.contains(shorter[i]));
            let j = order.index_of(shorter[i]);
            assert(before.allocated(order[j]));
            assert(self.nodes@[order[j] as int].waker == before.nodes@[order[j] as int].waker);
        }
        assert forall|n: usize| n < self.nodes@.len() implies (
        #[trigger] self.nodes@[n as int]).in_wait_set == self.order@.contains(n) by {
            assert(before.nodes@[n as int].in_wait_set == order.contains(n));
            assert(shorter.contains(n) == (order.contains(n) && n != notifier));
        }
        assert forall|n: usize| self.allocated(n) == before.allocated(n) && (self.allocated(n)
            ==> self.waker(n) == before.waker(n)) by {
            if n < self.nodes@.len() {
                assert(self.nodes@[n as int].waker == before.nodes@[n as int].waker);
            }
        }
    }

    /// Takes the notifier that has waited for longest out of the wait set, if
    /// there is one, and returns its waker.
    fn take_front(&mut self) -> (waker: Option<u64>)
        requires
            old(self).wf(),
        ensures
            final(self).list.links(final(self).nodes@, final(self).order@),
            old(self).waiting().len() == 0 ==> waker is None && *final(self) == *old(self),
            old(self).waiting().len() > 0 ==> {
                &&& waker == old(self).waker(old(self).waiting()[0])
                &&& waker is Some
                &&& final(self).waiting() == old(self).waiting().drop_first()
                &&& final(self).same_notifiers(*old(self))
                &&& final(self).wf()
                &&& final(self).is_empty == old(self).is_empty
            },
    {
        let ghost order = self.order@;
        match self.list.pop_front(&mut self.nodes, Ghost(order)) {
            Some(notifier) => {
                let ghost shorter = order.drop_first();
                let waker = self.nodes[notifier].wake();
                self.mark(notifier, false, Ghost(shorter));
                proof {
                    assert(old(self).allocated(order[0]));
                    assert(order.contains(notifier));
                    assert(order.index_of(notifier) == 0);
                    assert(order.remove(0) =~= order.drop_first());
                    assert(self.nodes@[notifier as int].waker == old(
                        self).nodes@[notifier as int].waker);
                    self.lemma_taken_out(*old(self), notifier);
                }
                waker
            },
            None => None,
        }
    }

    /// Removes the specified notifier if it is still in the wait set,
    /// otherwise notifies another one.
    ///
    /// The waker of the other notifier, if any, is returned.
    pub fn cancel(&mut self, notifier: usize) -> (waker: Option<u64>)
        requires
            old(self).wf(),
            old(self).allocated(notifier),
        ensures
            final(self).wf(),
            final(self).same_notifiers(*old(self)),
            !final(self).waiting().contains(notifier),
            if old(self).waiting().contains(notifier) {
                &&& waker is None
                &&& final(self).waiting() == without(old(self).waiting(), notifier)
            } else if old(self).waiting().len() > 0 {
                &&& waker == old(self).waker(old(self).waiting()[0])
                &&& waker is Some
                &&& final(self).waiting() == old(self).waiting().drop_first()
            } else {
                &&& waker is None
                &&& final(self).waiting() == old(self).waiting()
            },
    {
        if self.nodes[notifier].in_wait_set {
            self.remove(notifier);
            None
        } else {
            let waker = self.take_front();
            proof {
                let order = old(self).order@;
                if order.len() > 0 && self.order@.contains(notifier) {
                    let i = self.order@.index_of(notifier);
                    assert(order[i + 1] == notifier);
                }
            }
            waker
        }
    }

    /// Sends a notification to `count` notifiers within the wait set, or to all
    /// notifiers if the wait set contains less than `count` notifiers.
    ///
    /// The wakers of the notifiers are returned. List emptiness is first
    /// checked without the list.
    pub fn notify_relaxed(&mut self, count: usize) -> (wakers: Vec<u64>)
        requires
            old(self).wf(),
        ensures
            final(self).wf(),
            final(self).same_notifiers(*old(self)),
            ({
                let taken = if count <= old(self).waiting().len() {
                    count as int
                } else {
                    old(self).waiting().len() as int
                };
                &&& final(self).waiting() == old(self).waiting().skip(taken)
                &&& wakers@ == old(self).front_wakers(taken)
            }),
    {
        if self.is_empty {
            let wakers: Vec<u64> = Vec::new();
            assert(old(self).waiting().skip(0) =~= old(self).waiting());
            assert(wakers@ =~= old(self).front_wakers(0));
            return wakers;
        }
        self.notify(count)
    }

    /// Sends a notification to `count` notifiers within the wait set, or to all
    /// notifiers if the wait set contains less than `count` notifiers.
    ///
    /// The wakers of the notifiers are returned.
    pub fn notify(&mut self, count: usize) -> (wakers: Vec<u64>)
        requires
            old(self).wf(),
        ensures
            final(self).wf(),
            final(self).same_notifiers(*old(self)),
            ({
                let taken = if count <= old(self).waiting().len() {
                    count as int
                } else {
                    old(self).waiting().len() as int
                };
                &&& final(self).waiting() == old(self).waiting().skip(taken)
                &&& wakers@ == old(self).front_wakers(taken)
            }),
    {
        let mut wakers: Vec<u64> = Vec::new();
        let mut i: usize = 0;
        proof {
            assert(self.waiting().skip(0) =~= self.waiting());
            assert(wakers@ =~= old(self).front_wakers(0));
        }
        while i < count
            invariant
                i <= count,
                old(self).wf(),
                self.wf(),
                self.same_notifiers(*old(self)),
                i <= old(self).waiting().len(),
                self.waiting() == old(self).waiting().skip(i as int),
                wakers@ == old(self).front_wakers(i as int),
            decreases count - i,
        {
            proof {
                if i < old(self).waiting().len() {
                    assert(self.waiting()[0] == old(self).waiting()[i as int]);
                    assert(old(self).allocated(old(self).waiting()[i as int]));
                }
            }
            match self.take_front() {
                Some(waker) => {
                    if self.list.is_empty() {
                        self.is_empty = true;
                    }
                    wakers.push(waker);
                    proof {
                        assert(old(self).waiting().skip(i as int).drop_first() =~= old(
                            self).waiting().skip(i + 1));
                        assert(wakers@ =~= old(self).front_wakers(i + 1));
                    }
                },
                None => {
                    return wakers;
                },
            }
            i += 1;
        }
        wakers
    }
}

/// An object that can receive or send notifications.
pub struct Event {
    wait_set: WaitSet,
}

impl Event {
    /// The tasks that wait for a notification.
    pub closed spec fn wait_set(self) -> WaitSet {
        self.wait_set
    }

    /// The invariant of the event.
    pub open spec fn wf(self) -> bool {
        self.wait_set().wf()
    }

    /// Creates a new event.
    pub fn new() -> (event: Self)
        ensures
            event.wf(),
            event.wait_set().waiting() == Seq::<usize>::empty(),
            forall|n: usize| !#[trigger] event.wait_set().allocated(n),
    {
        Event { wait_set: WaitSet::new() }
    }

    /// Notifies a number of waiting tasks that the predicate should be
    /// checked.
    ///
    /// If less tasks than requested are currently waiting, then all of them
    /// are notified. The wakers of the tasks are returned.
    pub fn notify(&mut self, n: usize) -> (wakers: Vec<u64>)
        requires
            old(self).wf(),
        ensures
            final(self).wf(),
            final(self).wait_set().same_notifiers(old(self).wait_set()),
            ({
                let waiting = old(self).wait_set().waiting();
                let taken = if n <= waiting.len() {
                    n as int
                } else {
                    waiting.len() as int
                };
                &&& final(self).wait_set().waiting() == waiting.skip(taken)
                &&& wakers@ == old(self).wait_set().front_wakers(taken)
            }),
    {
        self.wait_set.notify_relaxed(n)
    }

    /// Advances an operation that waits on this event; see
    /// [`WaitUntil::poll`].
    pub fn poll(&mut self, wait: &mut WaitUntil, event: WaitEvent) -> (action: WaitAction)
        requires
            old(self).wf(),
            old(wait).valid_in(old(self).wait_set()),
            event is Poll ==> old(wait).state() !is Completed && old(wait).phase() is Idle,
            event is Checked ==> old(wait).phase() !is Idle,
        ensures
            final(self).wf(),
            final(wait).valid_in(final(self).wait_set()),
            WaitUntil::polled(
                *old(wait),
                old(self).wait_set(),
                event,
                action,
                *final(wait),
                final(self).wait_set(),
            ),
    {
        wait.poll(&mut self.wait_set, event)
    }

    /// Abandons an operation that waits on this event; see
    /// [`WaitUntil::abandon`].
    pub fn abandon(&mut self, wait: &mut WaitUntil) -> (woken: Option<u64>)
        requires
            old(self).wf(),
            old(wait).valid_in(old(self).wait_set()),
        ensures
            final(self).wf(),
            final(wait).state() is Completed,
            final(wait).phase() is Idle,
            old(wait).gave_back(old(self).wait_set(), final(self).wait_set()),
            match old(wait).state() {
                WaitUntilState::Polled(notifier) => cancelled(
                    old(self).wait_set(),
                    notifier,
                    woken,
                    final(self).wait_set(),
                ),
                _ => woken is None && final(self).wait_set() == old(self).wait_set(),
            },
    {
        wait.abandon(&mut self.wait_set)
    }

    /// Returns an operation that waits until a predicate is satisfied.
    pub fn wait_until(&self) -> (wait: WaitUntil)
        ensures
            wait.state() is Uninit,
            wait.phase() is Idle,
            wait.valid_in(self.wait_set()),
    {
        WaitUntil::new()
    }
}

/// State of a `WaitUntil` operation.
#[derive(Clone, Copy, Debug, PartialEq, Eq, Structural)]
pub enum WaitUntilState {
    /// The operation has no notifier.
    Uninit,
    /// The operation has the given notifier.
    Polled(usize),
    /// The predicate was satisfied, or the operation was abandoned.
    Completed,
}

/// The predicate check that a `WaitUntil` operation has requested.
#[derive(Clone, Copy, Debug, PartialEq, Eq, Structural)]
pub enum WaitPhase {
    /// No check was requested.
    Idle,
    /// The predicate is being checked on behalf of the task with the given
    /// waker.
    FirstCheck(u64),
    /// The predicate is being checked once more, the notifier being enlisted.
    SecondCheck,
}

/// What a `WaitUntil` operation is told.
#[derive(Clone, Copy, Debug, PartialEq, Eq, Structural)]
pub enum WaitEvent {
    /// The task with the given waker polls the operation.
    Poll(u64),
    /// The predicate was checked and was found satisfied or not.
    Checked(bool),
}

/// What a `WaitUntil` operation requests.
#[derive(Clone, Copy, Debug, PartialEq, Eq, Structural)]
pub enum WaitAction {
    /// The predicate must be checked.
    Check,
    /// The task must suspend until its waker is invoked.
    Pending,
    /// The operation has completed. The given waker, if any, must be invoked.
    Ready(Option<u64>),
}

/// An operation that waits until a predicate is satisfied.
pub struct WaitUntil {
    state: WaitUntilState,
    phase: WaitPhase,
}

impl WaitUntil {
    /// The state of the operation.
    pub closed spec fn state(self) -> WaitUntilState {
        self.state
    }

    /// The predicate check in progress.
    pub closed spec fn phase(self) -> WaitPhase {
        self.phase
    }

    /// Whether the notifier of the operation, if any, belongs to the wait set
    /// and is enlisted when it has to be.
    pub open spec fn valid_in(self, wait_set: WaitSet) -> bool {
        match self.state() {
            WaitUntilState::Uninit => self.phase() !is SecondCheck,
            WaitUntilState::Polled(notifier) => {
                &&& wait_set.allocated(notifier)
                &&& self.phase() is FirstCheck ==> !wait_set.waiting().contains(notifier)
            },
            WaitUntilState::Completed => self.phase() is Idle,
        }
    }

    /// Creates an operation that was never polled.
    pub fn new() -> (wait: Self)
        ensures
            wait.state() is Uninit,
            wait.phase() is Idle,
    {
        WaitUntil { state: WaitUntilState::Uninit, phase: WaitPhase::Idle }
    }

    /// What an event does to an operation and to its wait set.
    pub open spec fn polled(
        before: Self,
        set_before: WaitSet,
        event: WaitEvent,
        action: WaitAction,
        after: Self,
        set_after: WaitSet,
    ) -> bool {
        match event {
            WaitEvent::Poll(waker) => {
                &&& action is Check
                &&& after.phase() == WaitPhase::FirstCheck(waker)
                &&& after.state() == before.state()
                &&& set_after.same_notifiers(set_before)
                &&& set_after.waiting() == (match before.state() {
                    WaitUntilState::Polled(notifier) => without(
                        set_before.waiting(),
                        notifier,
                    ),
                    _ => set_before.waiting(),
                })
            },
            WaitEvent::Checked(satisfied) => {
                match before.phase() {
                    WaitPhase::Idle => false,
                    WaitPhase::FirstCheck(waker) => {
                        if satisfied {
                            &&& action == WaitAction::Ready(None)
                            &&& after.state() is Completed
                            &&& set_after.waiting() == set_before.waiting()
                            &&& before.gave_back(set_before, set_after)
                        } else {
                            &&& action is Check
                            &&& after.phase() is SecondCheck
                            &&& after.state() is Polled
                            &&& before.state() is Polled ==> after.state() == before.state()
                            &&& before.state() is Uninit ==> !set_before.allocated(
                                after.state()->Polled_0,
                            )
                            &&& set_after.waiting() == set_before.waiting().push(
                                after.state()->Polled_0,
                            )
                            &&& set_after.waker(after.state()->Polled_0) == Some(
                                waker,
                            )
                            &&& forall|n: usize|
                                set_before.allocated(n) && n != after.state()->Polled_0
                                    ==> #[trigger] set_after.allocated(n) && set_after.waker(n) == set_before.waker(n)
                            &&& forall|n: usize| #[trigger]
                                set_after.allocated(n) ==> set_before.allocated(n)
                                    || n == after.state()->Polled_0
                        }
                    },
                    WaitPhase::SecondCheck => {
                        let notifier = before.state()->Polled_0;
                        if satisfied {
                            &&& action is Ready
                            &&& after.state() is Completed
                            &&& before.gave_back(set_before, set_after)
                            &&& cancelled(
                                set_before,
                                notifier,
                                action->Ready_0,
                                set_after,
                            )
                        } else {
                            &&& action is Pending
                            &&& after.state() == before.state()
                            &&& after.phase() is Idle
                            &&& set_after == set_before
                        }
                    },
                }
            },
        }
    }

    /// Advances the operation.
    ///
    /// When polled, the notifier is first taken out of the wait set so that it
    /// cannot absorb a notification meant for another task, and the predicate
    /// is checked. If it is not satisfied, the notifier is enlisted and the
    /// predicate is checked again, because it may have become satisfied
    /// shortly before. If it then is, the notifier is cancelled, so that a
    /// notification received in the meantime is passed on.
    ///
    /// The operation must not be polled after completion.
    pub fn poll(&mut self, wait_set: &mut WaitSet, event: WaitEvent) -> (action: WaitAction)
        requires
            old(wait_set).wf(),
            old(self).valid_in(*old(wait_set)),
            event is Poll ==> old(self).state() !is Completed && old(self).phase() is Idle,
            event is Checked ==> old(self).phase() !is Idle,
        ensures
            final(wait_set).wf(),
            final(self).valid_in(*final(wait_set)),
            Self::polled(
                *old(self),
                *old(wait_set),
                event,
                action,
                *final(self),
                *final(wait_set),
            ),
    {
        match event {
            WaitEvent::Poll(waker) => {
                if let WaitUntilState::Polled(notifier) = self.state {
                    wait_set.remove_relaxed(notifier);
                }
                self.phase = WaitPhase::FirstCheck(waker);
                WaitAction::Check
            },
            WaitEvent::Checked(satisfied) => {
                match self.phase {
                    WaitPhase::FirstCheck(waker) => {
                        if satisfied {
                            if let WaitUntilState::Polled(notifier) = self.state {
                                wait_set.deallocate(notifier);
                            }
                            self.state = WaitUntilState::Completed;
                            self.phase = WaitPhase::Idle;
                            return WaitAction::Ready(None);
                        }
                        let notifier: usize = match self.state {
                            WaitUntilState::Polled(notifier) => notifier,
                            _ => wait_set.allocate(),
                        };
                        wait_set.set_waker(notifier, waker);
                        wait_set.insert(notifier);
                        self.state = WaitUntilState::Polled(notifier);
                        self.phase = WaitPhase::SecondCheck;
                        WaitAction::Check
                    },
                    _ => {
                        self.phase = WaitPhase::Idle;
                        if satisfied {
                            let woken = self.abandon(wait_set);
                            return WaitAction::Ready(woken);
                        }
                        WaitAction::Pending
                    },
                }
            },
        }
    }

    /// Whether the notifier of the operation is free again in `after`, and all
    /// others are as they were in `before`.
    pub open spec fn gave_back(self, before: WaitSet, after: WaitSet) -> bool {
        forall|n: usize|
            #![trigger after.allocated(n)]
            #![trigger before.allocated(n)]
            {
                &&& after.allocated(n) == (before.allocated(n) && self.state()
                    != WaitUntilState::Polled(n))
                &&& after.allocated(n) ==> after.waker(n) == before.waker(n)
            }
    }

    /// Abandons the operation.
    ///
    /// If its notifier was already notified, another task is notified instead:
    /// the waker of that task, if any, is returned.
    pub fn abandon(&mut self, wait_set: &mut WaitSet) -> (woken: Option<u64>)
        requires
            old(wait_set).wf(),
            old(self).valid_in(*old(wait_set)),
        ensures
            final(wait_set).wf(),
            final(self).state() is Completed,
            final(self).phase() is Idle,
            old(self).gave_back(*old(wait_set), *final(wait_set)),
            match old(self).state() {
                WaitUntilState::Polled(notifier) => cancelled(
                    *old(wait_set),
                    notifier,
                    woken,
                    *final(wait_set),
                ),
                _ => woken is None && *final(wait_set) == *old(wait_set),
            },
    {
        let state = self.state;
        self.state = WaitUntilState::Completed;
        self.phase = WaitPhase::Idle;
        match state {
            WaitUntilState::Polled(notifier) => {
                let woken = wait_set.cancel(notifier);
                wait_set.deallocate(notifier);
                woken
            },
            _ => None,
        }
    }
}

/// Whether a notifier was cancelled: taken out of the wait set if it was still
/// in there, otherwise replaced as a recipient of the notification by the one
/// that has waited for longest.
pub open spec fn cancelled(
    before: WaitSet,
    notifier: usize,
    woken: Option<u64>,
    after: WaitSet,
) -> bool {
    if before.waiting().contains(notifier) {
        &&& woken is None
        &&& after.waiting() == without(before.waiting(), notifier)
    } else if before.waiting().len() > 0 {
        &&& woken == before.waker(before.waiting()[0])
        &&& woken is Some
        &&& after.waiting() == before.waiting().drop_first()
    } else {
        &&& woken is None
        &&& after.waiting() == before.waiting()
    }
}

/// No notification is lost: if a task was notified and then abandons its wait
/// while another task waits, that other task is woken.
pub proof fn law_notification_passed_on(
    at_first: WaitSet,
    notifier: usize,
    notified: WaitSet,
    woken: Option<u64>,
    at_last: WaitSet,
)
    requires
        at_first.wf(),
        at_first.waiting().len() >= 2,
        at_first.waiting()[0] == notifier,
        notified.wf(),
        notified.same_notifiers(at_first),
        notified.waiting() == at_first.waiting().skip(1),
        cancelled(notified, notifier, woken, at_last),
    ensures
        woken == at_first.waker(at_first.waiting()[1]),
        woken is Some,
        at_last.waiting() == at_first.waiting().skip(2),
{
    at_first.law_enlisted();
    notified.law_enlisted();
    let waiting = at_first.waiting();
    assert(notified.waiting()[0] == waiting[1]);
    assert(!notified.waiting().contains(notifier)) by {
        if notified.waiting().contains(notifier) {
            let i = notified.waiting().index_of(notifier);
            assert(waiting[i + 1] == notifier);
        }
    }
    assert(waiting.contains(waiting[1]));
    assert(at_first.allocated(waiting[1]));
    assert(waiting.skip(1).drop_first() =~= waiting.skip(2));
}

/// Taking an item out of a sequence leaves all other items, in the same order.
pub proof fn law_without(s: Seq<usize>, item: usize)
    requires
        s.no_duplicates(),
    ensures
        without(s, item) == s.filter(|other: usize| other != item),
    decreases s.len(),
{
    reveal(Seq::filter);
    if s.len() > 0 {
        let rest = s.drop_last();
        assert(rest.no_duplicates());
        law_without(rest, item);
        if s.last() == item {
            assert(s[s.len() - 1] == item);
            assert(!rest.contains(item));
            assert(s.contains(item));
            assert(s.index_of(item) == s.len() - 1);
            assert(s.remove(s.len() - 1) =~= rest);
        } else if rest.contains(item) {
            let at = rest.index_of(item);
            assert(s[at] == item);
            assert(s.contains(item));
            assert(s.index_of(item) == at);
            assert(s.remove(at) =~= rest.remove(at).push(s.last()));
        } else {
            assert(!s.contains(item)) by {
                if s.contains(item) {
                    let at = s.index_of(item);
                    assert(rest[at] == item);
                }
            }
            assert(s =~= rest.push(s.last()));
        }
    }
}

/// A task that abandons its wait does not wait any more, and all others still wait in
/// the same order, unless the task had been notified already: in that case, the task
/// that has waited for longest is notified in its place, if there is one.
pub proof fn law_abandoned_wait(
    before: WaitSet,
    notifier: usize,
    woken: Option<u64>,
    after: WaitSet,
)
    requires
        before.wf(),
        cancelled(before, notifier, woken, after),
    ensures
        before.waiting().contains(notifier) ==> woken is None && after.waiting()
            == before.waiting().filter(|other: usize| other != notifier),
        !before.waiting().contains(notifier) && before.waiting().len() > 0 ==> woken is Some
            && woken == before.waker(before.waiting()[0]) && before.waiting() == seq![
            before.waiting()[0],
        ] + after.waiting(),
        before.waiting().len() == 0 ==> woken is None && after.waiting().len() == 0,
{
    before.law_enlisted();
    if before.waiting().contains(notifier) {
        law_without(before.waiting(), notifier);
    } else if before.waiting().len() > 0 {
        assert(before.waiting() =~= seq![before.waiting()[0]] + before.waiting().drop_first());
    }
}

/// A task that finds its predicate satisfied is ready and does not wait any more. One
/// that does not is enlisted behind all others, with its own waker, and suspends if
/// its predicate is not satisfied then either. While a task checks its predicate for
/// the first time, it is not enlisted; no other task is affected.
pub proof fn law_wait(
    before: WaitUntil,
    set_before: WaitSet,
    event: WaitEvent,
    action: WaitAction,
    after: WaitUntil,
    set_after: WaitSet,
)
    requires
        set_before.wf(),
        before.valid_in(set_before),
        event is Poll ==> before.state() !is Completed && before.phase() is Idle,
        event is Checked ==> before.phase() !is Idle,
        WaitUntil::polled(before, set_before, event, action, after, set_after),
    ensures
        event is Poll ==> action is Check,
        event is Poll ==> set_after.waiting() == set_before.waiting().filter(
            |other: usize| before.state() != WaitUntilState::Polled(other),
        ),
        event == WaitEvent::Checked(true) ==> action is Ready && after.state() is Completed,
        event == WaitEvent::Checked(true) ==> forall|n: usize| #[trigger]
            set_after.allocated(n) <==> set_before.allocated(n) && before.state()
                != WaitUntilState::Polled(n),
        event == WaitEvent::Checked(true) && before.phase() is FirstCheck ==> action
            == WaitAction::Ready(None) && set_after.waiting() == set_before.waiting(),
        event == WaitEvent::Checked(true) && before.phase() is SecondCheck ==> (
        action matches WaitAction::Ready(woken) && cancelled(
            set_before,
            before.state()->Polled_0,
            woken,
            set_after,
        )),
        event == WaitEvent::Checked(false) ==> {
            &&& after.state() matches WaitUntilState::Polled(notifier)
            &&& before.phase() is SecondCheck ==> action is Pending && set_after == set_before
                && after.state() == before.state()
            &&& before.phase() matches WaitPhase::FirstCheck(waker) ==> {
                &&& action is Check
                &&& set_after.waiting() == set_before.waiting() + seq![notifier]
                &&& set_after.waker(notifier) == Some(waker)
                &&& forall|n: usize| #[trigger]
                    set_before.allocated(n) && n != notifier ==> set_after.allocated(n)
                        && set_after.waker(n) == set_before.waker(n)
            }
        },
{
    set_before.law_enlisted();
    if event is Poll {
        match before.state() {
            WaitUntilState::Polled(notifier) => {
                law_without(set_before.waiting(), notifier);
                assert(set_before.waiting().filter(|other: usize| other != notifier)
                    =~= set_before.waiting().filter(
                    |other: usize| before.state() != WaitUntilState::Polled(other),
                )) by {
                    lemma_same_filter(
                        set_before.waiting(),
                        |other: usize| other != notifier,
                        |other: usize| before.state() != WaitUntilState::Polled(other),
                    );
                }
            },
            _ => {
                lemma_keeps_all(
                    set_before.waiting(),
                    |other: usize| before.state() != WaitUntilState::Polled(other),
                );
            },
        }
    }
}

proof fn lemma_same_filter(s: Seq<usize>, p: spec_fn(usize) -> bool, q: spec_fn(usize) -> bool)
    requires
        forall|x: usize| #[trigger] p(x) == q(x),
    ensures
        s.filter(p) == s.filter(q),
    decreases s.len(),
{
    reveal(Seq::filter);
    if s.len() > 0 {
        lemma_same_filter(s.drop_last(), p, q);
        assert(p(s.last()) == q(s.last()));
    }
}

proof fn lemma_keeps_all(s: Seq<usize>, p: spec_fn(usize) -> bool)
    requires
        forall|x: usize| #[trigger] p(x),
    ensures
        s.filter(p) == s,
    decreases s.len(),
{
    reveal(Seq::filter);
    if s.len() > 0 {
        lemma_keeps_all(s.drop_last(), p);
        assert(p(s.last()));
        assert(s =~= s.drop_last().push(s.last()));
    }
}

/// The tasks that have waited for longest are the ones that are woken, each with its
/// own waker.
pub proof fn law_front_wakers(set: WaitSet, count: int, i: int)
    requires
        set.wf(),
        0 <= i < count <= set.waiting().len(),
    ensures
        set.front_wakers(count).len() == count,
        set.waker(set.waiting()[i]) == Some(set.front_wakers(count)[i]),
{
    set.law_enlisted();
    assert(set.waiting().contains(set.waiting()[i]));
}

/// Notifiers in use and their wakers remain the same while tasks are notified. A task that
/// completes or abandons its wait gives back its own notifier, and no other.
pub proof fn law_notifiers_in_use(wait: WaitUntil, before: WaitSet, after: WaitSet, notifier: usize)
    ensures
        after.same_notifiers(before) ==> after.allocated(notifier) == before.allocated(notifier)
            && (before.allocated(notifier) ==> after.waker(notifier) == before.waker(notifier)),
        wait.gave_back(before, after) ==> {
            &&& after.allocated(notifier) <==> before.allocated(notifier) && wait.state()
                != WaitUntilState::Polled(notifier)
            &&& after.allocated(notifier) ==> after.waker(notifier) == before.waker(notifier)
        },
{
}

} // verus!
