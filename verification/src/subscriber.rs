//! Change propagation: a registry that hands every published value to the
//! subscribers that are still alive.
//!
//! Subscribers live in a [`SubscriberArena`], which owns them; a
//! [`SubscriberCollection`] only knows their identifiers. Removing a
//! subscriber from the arena is all it takes to end its subscriptions: each
//! collection forgets the identifier the next time it publishes.

use vstd::prelude::*;

verus! {

/// Stable identifier of a subscriber: its position in the arena.
pub type SubscriberId = usize;

/// Something that wants to be told of values of type `T`.
pub trait Subscriber<T>: Sized {
    /// The subscriber as it is after having been told of `value`.
    spec fn notified(self, value: T) -> Self;

    /// Tells the subscriber of `value`.
    fn notify(&mut self, value: &T)
        ensures
            *final(self) == old(self).notified(*value),
    ;
}

/// The subscriber `subscriber` after it has been told of `value` `times` times.
pub open spec fn notified_times<T, S: Subscriber<T>>(subscriber: S, value: T, times: nat) -> S
    decreases times,
{
    if times == 0 {
        subscriber
    } else {
        notified_times(subscriber, value, (times - 1) as nat).notified(value)
    }
}

/// Whether slot `id` of `slots` holds a subscriber.
pub open spec fn is_live<S>(slots: Seq<Option<S>>, id: SubscriberId) -> bool {
    id < slots.len() && slots[id as int] is Some
}

/// The test that `notify` puts every registered identifier to.
pub open spec fn live_in<S>(slots: Seq<Option<S>>) -> spec_fn(SubscriberId) -> bool {
    |id: SubscriberId| is_live(slots, id)
}

/// The slots after every identifier of `ids` that is live has been told of
/// `value`, one identifier after the other, first to last.
pub open spec fn delivered<T, S: Subscriber<T>>(
    slots: Seq<Option<S>>,
    ids: Seq<SubscriberId>,
    value: T,
) -> Seq<Option<S>>
    decreases ids.len(),
{
    if ids.len() == 0 {
        slots
    } else {
        let before = delivered(slots, ids.drop_last(), value);
        let id = ids.last();
        if is_live(before, id) {
            before.update(id as int, Some(before[id as int]->0.notified(value)))
        } else {
            before
        }
    }
}

/// How many times `id` occurs in `ids`.
pub open spec fn occurrences(ids: Seq<SubscriberId>, id: SubscriberId) -> nat
    decreases ids.len(),
{
    if ids.len() == 0 {
        0
    } else {
        occurrences(ids.drop_last(), id) + if ids.last() == id {
            1nat
        } else {
            0nat
        }
    }
}

/// Owner of the subscribers. A slot is never reused, so an identifier never
/// comes to mean another subscriber.
pub struct SubscriberArena<S> {
    slots: Vec<Option<S>>,
}

impl<S> SubscriberArena<S> {
    /// The slots: `Some` while the subscriber is alive, `None` once it is gone.
    pub closed spec fn view(&self) -> Seq<Option<S>> {
        self.slots@
    }

    pub fn new() -> (arena: Self)
        ensures
            arena@ == Seq::<Option<S>>::empty(),
    {
        SubscriberArena { slots: Vec::new() }
    }

    /// Takes ownership of `subscriber` and returns its identifier.
    pub fn insert(&mut self, subscriber: S) -> (id: SubscriberId)
        ensures
            final(self)@ == old(self)@.push(Some(subscriber)),
            id == old(self)@.len(),
    {
        self.slots.push(Some(subscriber));
        self.slots.len() - 1
    }

    /// Destroys the subscription target `id`: hands the subscriber back, if
    /// it was still alive, and leaves its slot empty for good.
    pub fn remove(&mut self, id: SubscriberId) -> (removed: Option<S>)
        ensures
            is_live(old(self)@, id) ==> removed == old(self)@[id as int] && final(self)@ == old(self)@.update(id as int, None),
            !is_live(old(self)@, id) ==> removed is None && final(self)@ == old(self)@,
    {
        if id < self.slots.len() {
            let mut slot: Option<S> = None;
            core::mem::swap(&mut slot, &mut self.slots[id]);
            slot
        } else {
            None
        }
    }

    pub fn is_alive(&self, id: SubscriberId) -> (alive: bool)
        ensures
            alive == is_live(self@, id),
    {
        id < self.slots.len() && self.slots[id].is_some()
    }

    /// The subscriber `id`, if it is alive.
    pub fn get(&self, id: SubscriberId) -> (subscriber: Option<&S>)
        ensures
            is_live(self@, id) ==> subscriber == Some(&self@[id as int]->0),
            !is_live(self@, id) ==> subscriber is None,
    {
        if id < self.slots.len() {
            self.slots[id].as_ref()
        } else {
            None
        }
    }

    /// Number of slots handed out so far, live or not.
    pub fn len(&self) -> (len: usize)
        ensures
            len == self@.len(),
    {
        self.slots.len()
    }

    /// Tells subscriber `id` of `value`.
    fn tell<T>(&mut self, id: SubscriberId, value: &T) where S: Subscriber<T>
        requires
            is_live(old(self)@, id),
        ensures
            final(self)@ == old(self)@.update(
                id as int,
                Some(old(self)@[id as int]->0.notified(*value)),
            ),
    {
        match &mut self.slots[id] {
            Some(subscriber) => {
                subscriber.notify(value);
            },
            None => {},
        }
    }
}

/// The subscribers of one kind of value, in the order in which they were
/// added. The same subscriber may be added more than once.
pub struct SubscriberCollection<T> {
    subscribers: Vec<SubscriberId>,
    marker: core::marker::PhantomData<T>,
}

impl<T> SubscriberCollection<T> {
    /// The registered identifiers, oldest first.
    pub closed spec fn view(&self) -> Seq<SubscriberId> {
        self.subscribers@
    }

    pub fn new() -> (collection: SubscriberCollection<T>)
        ensures
            collection@ == Seq::<SubscriberId>::empty(),
    {
        SubscriberCollection { subscribers: Vec::new(), marker: core::marker::PhantomData }
    }

    /// Registers `subscriber`, without looking whether it is registered
    /// already or alive.
    pub fn add(&mut self, subscriber: SubscriberId)
        ensures
            final(self)@ == old(self)@.push(subscriber),
    {
        self.subscribers.push(subscriber);
    }

    /// Notifies all still existing subscribers, in the order of their
    /// registration; removes those no longer available.
    pub fn notify<S: Subscriber<T>>(&mut self, arena: &mut SubscriberArena<S>, value: &T)
        ensures
            final(self)@ == old(self)@.filter(live_in(old(arena)@)),
            final(arena)@ == delivered(old(arena)@, old(self)@, *value),
    {
        let ghost live = live_in(old(arena)@);
        let mut kept: Vec<SubscriberId> = Vec::new();
        let mut i: usize = 0;
        proof {
            reveal(Seq::filter);
            assert(old(self)@.subrange(0, 0) =~= Seq::<SubscriberId>::empty());
        }
        while i < self.subscribers.len()
            invariant
                i <= self.subscribers.len(),
                self.subscribers@ == old(self)@,
                live == live_in(old(arena)@),
                kept@ == old(self)@.subrange(0, i as int).filter(live),
                arena@ == delivered(old(arena)@, old(self)@.subrange(0, i as int), *value),
                arena@.len() == old(arena)@.len(),
                forall|id: SubscriberId| is_live(arena@, id) == is_live(old(arena)@, id),
            decreases self.subscribers.len() - i,
        {
            let id = self.subscribers[i];
            proof {
                reveal(Seq::filter);
                let next = old(self)@.subrange(0, i + 1);
                assert(next.drop_last() =~= old(self)@.subrange(0, i as int));
                assert(next.last() == id);
            }
            if arena.is_alive(id) {
                arena.tell(id, value);
                kept.push(id);
            }
            i = i + 1;
        }
        proof {
            assert(old(self)@.subrange(0, i as int) =~= old(self)@);
        }
        self.subscribers = kept;
    }

    /// Number of registered identifiers.
    pub fn len(&self) -> (len: usize)
        ensures
            len == self@.len(),
    {
        self.subscribers.len()
    }
}

/// Publishing leaves no dead identifier behind and keeps every live one, as
/// often and in the order in which it was registered.
pub proof fn lemma_notify_prunes<S>(slots: Seq<Option<S>>, ids: Seq<SubscriberId>)
    ensures
        ({
            let kept = ids.filter(live_in(slots));
            &&& forall|i: int| 0 <= i < kept.len() ==> is_live(slots, #[trigger] kept[i])
            &&& forall|id: SubscriberId|
                is_live(slots, id) ==> #[trigger] occurrences(kept, id) == occurrences(ids, id)
            &&& forall|id: SubscriberId| !is_live(slots, id) ==> #[trigger] occurrences(kept, id) == 0
        }),
    decreases ids.len(),
{
    reveal(Seq::filter);
    let live = live_in(slots);
    let kept = ids.filter(live);
    if ids.len() > 0 {
        lemma_notify_prunes(slots, ids.drop_last());
        let before = ids.drop_last().filter(live);
        let last = ids.last();
        assert(live(last) == is_live(slots, last));
        if live(last) {
            assert(kept == before.push(last));
            assert(kept.drop_last() =~= before);
            assert(kept.last() == last);
        } else {
            assert(kept == before);
        }
        assert forall|id: SubscriberId| is_live(slots, id) implies #[trigger] occurrences(
            kept,
            id,
        ) == occurrences(ids, id) by {
            assert(occurrences(before, id) == occurrences(ids.drop_last(), id));
        }
        assert forall|id: SubscriberId| !is_live(slots, id) implies #[trigger] occurrences(
            kept,
            id,
        ) == 0 by {
            assert(occurrences(before, id) == 0);
        }
    }
}

/// Publishing tells a live subscriber of the value once for each time it was
/// registered, leaves the slot of a dead one empty, and neither creates nor
/// destroys a subscriber.
pub proof fn lemma_notify_delivers<T, S: Subscriber<T>>(
    slots: Seq<Option<S>>,
    ids: Seq<SubscriberId>,
    value: T,
)
    ensures
        delivered(slots, ids, value).len() == slots.len(),
        forall|id: SubscriberId|
            is_live(slots, id) ==> (#[trigger] delivered(slots, ids, value)[id as int]) == Some(
                notified_times(slots[id as int]->0, value, occurrences(ids, id)),
            ),
        forall|id: SubscriberId|
            id < slots.len() && !is_live(slots, id) ==> (#[trigger] delivered(
                slots,
                ids,
                value,
            )[id as int]) is None,
    decreases ids.len(),
{
    if ids.len() > 0 {
        lemma_notify_delivers(slots, ids.drop_last(), value);
    }
}

} // verus!
