//! The dispatcher: a registry from payload type to the ordered listeners of that type.
use crate::erased::{erase, invoke, Listener};
use std::any::TypeId;
use vstd::prelude::*;

verus! {

/// The listeners registered under `k`, in registration order (empty when none).
pub open spec fn listeners_of(registry: Map<TypeId, Seq<nat>>, k: TypeId) -> Seq<nat> {
    if registry.contains_key(k) {
        registry[k]
    } else {
        Seq::empty()
    }
}

/// The registry after listener `id` has been appended under `k`.
pub open spec fn with_listener(registry: Map<TypeId, Seq<nat>>, k: TypeId, id: nat) -> Map<
    TypeId,
    Seq<nat>,
> {
    registry.insert(k, listeners_of(registry, k).push(id))
}

/// All listeners are numbered by the order of their subscription, and no number
/// appears twice in the registry.
pub open spec fn numbered_once(registry: Map<TypeId, Seq<nat>>, count: nat) -> bool {
    &&& forall|k: TypeId, i: int|
        #![trigger registry[k][i]]
        registry.contains_key(k) && 0 <= i < registry[k].len() ==> registry[k][i] < count
    &&& forall|k1: TypeId, k2: TypeId, i: int, j: int|
        #![trigger registry[k1][i], registry[k2][j]]
        registry.contains_key(k1) && registry.contains_key(k2) && 0 <= i < registry[k1].len()
            && 0 <= j < registry[k2].len() && registry[k1][i] == registry[k2][j] ==> k1 == k2
            && i == j
}

/// Under every key the numbers ascend: listeners are kept in subscription order.
pub open spec fn ascending(registry: Map<TypeId, Seq<nat>>) -> bool {
    forall|k: TypeId, i: int, j: int|
        #![trigger registry[k][i], registry[k][j]]
        registry.contains_key(k) && 0 <= i < j < registry[k].len() ==> registry[k][i]
            < registry[k][j]
}

/// Appending a number larger than all others keeps each number once and every
/// key's numbers ascending.
proof fn lemma_append_fresh(
    registry: Map<TypeId, Seq<nat>>,
    count: nat,
    k: TypeId,
)
    requires
        numbered_once(registry, count),
        ascending(registry),
    ensures
        numbered_once(with_listener(registry, k, count), count + 1),
        ascending(with_listener(registry, k, count)),
{
    let r2 = with_listener(registry, k, count);
    let old_k = listeners_of(registry, k);
    assert forall|k1: TypeId, i: int|
        r2.contains_key(k1) && 0 <= i < r2[k1].len() implies #[trigger] r2[k1][i] < count + 1 by {
        if k1 == k && i < old_k.len() {
            assert(registry[k][i] < count);
        }
    }
    assert forall|k1: TypeId, k2: TypeId, i: int, j: int|
        r2.contains_key(k1) && r2.contains_key(k2) && 0 <= i < r2[k1].len() && 0 <= j
            < r2[k2].len() && #[trigger] r2[k1][i] == #[trigger] r2[k2][j] implies k1 == k2 && i
        == j by {
        let fresh1 = k1 == k && i == old_k.len();
        let fresh2 = k2 == k && j == old_k.len();
        if !fresh1 {
            assert(registry.contains_key(k1) && registry[k1][i] == r2[k1][i]);
            assert(registry[k1][i] < count);
        }
        if !fresh2 {
            assert(registry.contains_key(k2) && registry[k2][j] == r2[k2][j]);
            assert(registry[k2][j] < count);
        }
        if !fresh1 && !fresh2 {
            assert(registry[k1][i] == registry[k2][j]);
        }
    }
    assert forall|k1: TypeId, i: int, j: int|
        r2.contains_key(k1) && 0 <= i < j < r2[k1].len() implies #[trigger] r2[k1][i]
        < #[trigger] r2[k1][j] by {
        assert(registry.contains_key(k1) && registry[k1][i] == r2[k1][i]);
        assert(registry[k1][i] < count);
        if !(k1 == k && j == old_k.len()) {
            assert(registry[k1][j] == r2[k1][j]);
        }
    }
}

/// `after` is `before` with one listener subscribed under `k`: it is numbered
/// `before.subscriptions()` and goes last among the listeners of `k`.
pub open spec fn subscribe_step(before: EventManager, after: EventManager, k: TypeId) -> bool {
    &&& after.registry() == with_listener(before.registry(), k, before.subscriptions())
    &&& after.subscriptions() == before.subscriptions() + 1
    &&& after.delivered() == before.delivered()
}

/// `after` is `before` once `k` has been dispatched: each listener of `k` was invoked
/// once, in registration order, and the registry is unchanged.
pub open spec fn dispatch_step(before: EventManager, after: EventManager, k: TypeId) -> bool {
    &&& after.registry() == before.registry()
    &&& after.subscriptions() == before.subscriptions()
    &&& after.delivered() == before.delivered() + listeners_of(before.registry(), k)
}

/// The listeners registered for one payload type, with the numbers that identify them.
struct Entry {
    key: TypeId,
    ids: Ghost<Seq<nat>>,
    listeners: Vec<Listener>,
}

/// Owns a registry mapping each payload type to the listeners subscribed to it.
///
/// Its model: `registry()` maps a type's identifier to the numbers of its listeners
/// in subscription order (the n-th subscription gets number n, from 0);
/// `subscriptions()` counts the subscriptions made; `delivered()` lists, in order,
/// the number of every listener invoked so far.
pub struct EventManager {
    entries: Vec<Entry>,
    registry: Ghost<Map<TypeId, Seq<nat>>>,
    count: Ghost<nat>,
    delivered: Ghost<Seq<nat>>,
}

impl EventManager {
    /// The numbers of the listeners of each registered type identifier.
    pub closed spec fn registry(&self) -> Map<TypeId, Seq<nat>> {
        self.registry@
    }

    /// How many listeners have been subscribed.
    pub closed spec fn subscriptions(&self) -> nat {
        self.count@
    }

    /// The numbers of the listeners invoked so far, one per invocation, in order.
    pub closed spec fn delivered(&self) -> Seq<nat> {
        self.delivered@
    }

    /// The entries hold exactly the registry: one entry per registered type, and in
    /// each entry one listener per number.
    pub closed spec fn wf(&self) -> bool {
        &&& forall|i: int, j: int|
            0 <= i < j < self.entries@.len() ==> #[trigger] self.entries@[i].key
                != #[trigger] self.entries@[j].key
        &&& forall|i: int|
            0 <= i < self.entries@.len() ==> {
                let e = #[trigger] self.entries@[i];
                &&& self.registry@.contains_key(e.key)
                &&& self.registry@[e.key] == e.ids@
                &&& e.ids@.len() == e.listeners@.len()
            }
        &&& forall|k: TypeId|
            #[trigger] self.registry@.contains_key(k) ==> exists|i: int|
                0 <= i < self.entries@.len() && #[trigger] self.entries@[i].key == k
        &&& numbered_once(self.registry@, self.count@)
        &&& ascending(self.registry@)
    }

    /// What well-formedness gives the model: each number once, in ascending order.
    pub proof fn lemma_wf_model(&self)
        requires
            self.wf(),
        ensures
            numbered_once(self.registry(), self.subscriptions()),
            ascending(self.registry()),
    {
    }

    /// An empty dispatcher.
    pub fn new() -> (r: Self)
        ensures
            r.wf(),
            r.registry() == Map::<TypeId, Seq<nat>>::empty(),
            r.subscriptions() == 0,
            r.delivered() == Seq::<nat>::empty(),
    {
        EventManager {
            entries: Vec::new(),
            registry: Ghost(Map::empty()),
            count: Ghost(0),
            delivered: Ghost(Seq::empty()),
        }
    }

    /// The position of the entry for `key`, if `key` is registered.
    fn find(&self, key: &TypeId) -> (r: Option<usize>)
        requires
            self.wf(),
        ensures
            match r {
                Some(i) => i < self.entries@.len() && self.entries@[i as int].key == *key,
                None => !self.registry().contains_key(*key),
            },
    {
        let mut i: usize = 0;
        while i < self.entries.len()
            invariant
                self.wf(),
                i <= self.entries@.len(),
                forall|j: int| 0 <= j < i ==> #[trigger] self.entries@[j].key != *key,
            decreases self.entries@.len() - i,
        {
            if self.entries[i].key == *key {
                return Some(i);
            }
            i = i + 1;
        }
        None
    }

    /// Appends `listener`, numbered `subscriptions()`, to the listeners of `key`,
    /// registering `key` first if it has none.
    fn subscribe_to(&mut self, key: TypeId, listener: Listener)
        requires
            old(self).wf(),
        ensures
            final(self).wf(),
            subscribe_step(*old(self), *final(self), key),
    {
        let ghost id = self.count@;
        let ghost reg0 = self.registry@;
        let r_find = self.find(&key);
        match r_find {
            Some(i) => {
                self.entries[i].listeners.push(listener);
                self.entries[i].ids = Ghost(self.entries@[i as int].ids@.push(id));
            },
            None => {
                let mut listeners: Vec<Listener> = Vec::new();
                listeners.push(listener);
                let ids: Ghost<Seq<nat>> = Ghost(Seq::empty().push(id));
                self.entries.push(Entry { key, ids, listeners });
            },
        }
        self.registry = Ghost(with_listener(reg0, key, id));
        self.count = Ghost(id + 1);
        proof {
            lemma_append_fresh(reg0, id, key);
            let es = self.entries@;
            assert forall|a: int|
                0 <= a < es.len() implies #[trigger] self.registry@.contains_key(es[a].key)
                && self.registry@[es[a].key] == es[a].ids@ && es[a].ids@.len()
                == es[a].listeners@.len() by {
                if es[a].key != key {
                    assert(es[a] == old(self).entries@[a]);
                }
            }
            assert forall|k: TypeId| #[trigger] self.registry@.contains_key(k) implies exists|a: int|
                0 <= a < es.len() && #[trigger] es[a].key == k by {
                if k == key {
                    match r_find {
                        Some(i) => assert(es[i as int].key == k),
                        None => assert(es[es.len() - 1].key == k),
                    }
                } else {
                    let a = choose|a: int|
                        0 <= a < old(self).entries@.len() && #[trigger] old(self).entries@[a].key == k;
                    assert(es[a].key == k);
                }
            }
        }
    }

    /// Invokes the listeners of `key` once each, in registration order, with `event`.
    fn dispatch_to<E: 'static>(&mut self, key: TypeId, event: &E)
        requires
            old(self).wf(),
        ensures
            final(self).wf(),
            dispatch_step(*old(self), *final(self), key),
    {
        match self.find(&key) {
            None => {
                assert(listeners_of(self.registry@, key) =~= Seq::<nat>::empty());
                assert(self.delivered@ + Seq::<nat>::empty() =~= self.delivered@);
            },
            Some(i) => {
                let ghost start = self.delivered@;
                let ghost ids = self.entries@[i as int].ids@;
                let n = self.entries[i].listeners.len();
                let mut j: usize = 0;
                while j < n
                    invariant
                        self.wf(),
                        i < self.entries@.len(),
                        self.entries@[i as int].key == key,
                        self.entries@[i as int].ids@ == ids,
                        n == ids.len(),
                        ids == listeners_of(self.registry@, key),
                        j <= n,
                        self.delivered@ == start + ids.take(j as int),
                        self.registry == old(self).registry,
                        self.count == old(self).count,
                        start == old(self).delivered@,
                    decreases n - j,
                {
                    let ghost before = self.entries@;
                    invoke(&mut self.entries[i].listeners[j], event);
                    self.delivered = Ghost(self.delivered@.push(ids[j as int]));
                    proof {
                        let es = self.entries@;
                        assert forall|a: int| 0 <= a < es.len() implies #[trigger] es[a].key
                            == before[a].key && es[a].ids == before[a].ids
                            && es[a].listeners@.len() == before[a].listeners@.len() by {
                            if a != i {
                                assert(es[a] == before[a]);
                            }
                        }
                        assert forall|k: TypeId| #[trigger] self.registry@.contains_key(k) implies exists|a: int|
                            0 <= a < es.len() && #[trigger] es[a].key == k by {
                            let a = choose|a: int| 0 <= a < before.len() && #[trigger] before[a].key == k;
                            assert(es[a].key == k);
                        }
                        assert(ids.take(j + 1) =~= ids.take(j as int).push(ids[j as int]));
                    }
                    j = j + 1;
                }
                assert(ids.take(n as int) =~= ids);
            },
        }
    }

    /// Subscribes `listener` to the payload type `E`: it is appended, numbered
    /// `subscriptions()`, to the listeners of `k == TypeId::of::<E>()`, which the
    /// contract can only quantify over. Subscribing never fails.
    pub fn subscribe<E: 'static>(&mut self, listener: impl FnMut(&E) + 'static)
        requires
            old(self).wf(),
        ensures
            final(self).wf(),
            exists|k: TypeId| subscribe_step(*old(self), *final(self), k),
    {
        let key = TypeId::of::<E>();
        self.subscribe_to(key, erase(listener));
    }

    /// Dispatches `event` to every listener of its type `E` (of `k == TypeId::of::<E>()`),
    /// once each and in registration order. With no listener for `E` it does nothing.
    pub fn dispatch<E: 'static>(&mut self, event: &E)
        requires
            old(self).wf(),
        ensures
            final(self).wf(),
            exists|k: TypeId| dispatch_step(*old(self), *final(self), k),
    {
        let key = TypeId::of::<E>();
        self.dispatch_to(key, event);
    }
}

} // verus!
