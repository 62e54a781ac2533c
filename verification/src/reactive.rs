//! The data behind a reactive value: the current value and the subscriptions that are told
//! when it changes, kept in a `slab::Slab`.
use slab::Slab;
use vstd::prelude::*;

verus! {

/// The slab that holds the subscriptions.
#[verifier::external_type_specification]
#[verifier::external_body]
#[verifier::reject_recursive_types(T)]
pub struct ExSlab<T>(Slab<T>);

/// The entries of a slab of subscriptions, by key: the address of the subscribed object, or
/// `None` for a subscribed function.
pub uninterp spec fn slab_entries(s: Slab<Option<usize>>) -> Map<usize, Option<usize>>;

/// The vacant slots of a slab of subscriptions, in the order the next insertions fill them:
/// the chain of vacant entries that starts at the slab's `next` field (`Slab::vacant_key`),
/// the most recently freed slot first.
pub uninterp spec fn slab_free_keys(s: Slab<Option<usize>>) -> Seq<usize>;

/// No subscription at all.
pub open spec fn no_subscriptions() -> Map<usize, Option<usize>> {
    Map::empty()
}

/// The number of slots of a slab of subscriptions, occupied or vacant (the length of its
/// `entries`).
pub uninterp spec fn slab_slots(s: Slab<Option<usize>>) -> usize;

/// The key the next insertion into a slab of subscriptions uses: the first vacant slot, or
/// one past the last slot when none is vacant.
pub open spec fn slab_next_key(s: Slab<Option<usize>>) -> usize {
    if slab_free_keys(s).len() > 0 {
        slab_free_keys(s)[0]
    } else {
        slab_slots(s)
    }
}

/// Creates a slab with `Slab::new`: it holds no entry and no slot.
#[verifier::external_body]
fn slab_new() -> (r: Slab<Option<usize>>)
    ensures
        slab_entries(r) == no_subscriptions(),
        slab_free_keys(r).len() == 0,
        slab_slots(r) == 0,
{
    Slab::new()
}

/// Inserts with `Slab::insert`, which stores the value under the vacant key and returns that
/// key. The vacant key is the first vacant slot, which then leaves the chain of vacant slots,
/// or, when no slot is vacant, one past the last slot, where a slot is added.
#[verifier::external_body]
fn slab_insert(s: &mut Slab<Option<usize>>, v: Option<usize>) -> (key: usize)
    ensures
        key == slab_next_key(*old(s)),
        !slab_entries(*old(s)).contains_key(key),
        slab_entries(*final(s)) == slab_entries(*old(s)).insert(key, v),
        key < usize::MAX,
        slab_free_keys(*old(s)).len() > 0 ==> slab_free_keys(*final(s)) == slab_free_keys(
            *old(s),
        ).drop_first() && slab_slots(*final(s)) == slab_slots(*old(s)),
        slab_free_keys(*old(s)).len() == 0 ==> slab_free_keys(*final(s)).len() == 0 && slab_slots(
            *final(s),
        ) == key + 1,
{
    s.insert(v)
}

/// Removes with `Slab::remove`, which returns the value stored under `key`; the freed slot
/// goes to the front of the chain of vacant slots and the slots stay. It panics when `key`
/// holds nothing.
#[verifier::external_body]
fn slab_remove(s: &mut Slab<Option<usize>>, key: usize) -> (r: Option<usize>)
    requires
        slab_entries(*old(s)).contains_key(key),
    ensures
        r == slab_entries(*old(s))[key],
        slab_entries(*final(s)) == slab_entries(*old(s)).remove(key),
        slab_free_keys(*final(s)) == seq![key] + slab_free_keys(*old(s)),
        slab_slots(*final(s)) == slab_slots(*old(s)),
{
    s.remove(key)
}

/// Reads with `Slab::get` the value stored under `key`, if any.
#[verifier::external_body]
fn slab_get(s: &Slab<Option<usize>>, key: usize) -> (r: Option<Option<usize>>)
    ensures
        match r {
            Some(v) => slab_entries(*s).contains_key(key) && v == slab_entries(*s)[key],
            None => !slab_entries(*s).contains_key(key),
        },
{
    s.get(key).copied()
}

/// The keys that `Slab::iter` walks through, which is every key that holds a value, in
/// increasing order.
#[verifier::external_body]
fn slab_keys(s: &Slab<Option<usize>>) -> (r: Vec<usize>)
    ensures
        forall|i: int, j: int| 0 <= i < j < r@.len() ==> r@[i] < r@[j],
        forall|k: usize| slab_entries(*s).contains_key(k) <==> r@.contains(k),
{
    s.iter().map(|(k, _)| k).collect()
}

/// Something that is told when a value changes.
pub enum Subscriber {
    /// An object, by its address; it is not told of a change that it made itself.
    Object(usize),
    /// A function.
    Function,
}

/// How a subscriber is kept: the object's address, or `None` for a function.
pub open spec fn subscriber_entry(s: Subscriber) -> Option<usize> {
    match s {
        Subscriber::Object(addr) => Some(addr),
        Subscriber::Function => None,
    }
}

impl Subscriber {
    /// The name of the kind of subscriber.
    pub fn describe(&self) -> (r: &'static str)
        ensures
            self is Object ==> r@ == "Object"@,
            self is Function ==> r@ == "Function"@,
    {
        match self {
            Subscriber::Object(_) => "Object",
            Subscriber::Function => "Function",
        }
    }
}

/// A value and its subscriptions, as plain values.
pub struct DataView<T> {
    pub value: T,
    pub subscribers: Map<usize, Option<usize>>,
    /// The vacant slots, in the order the next subscriptions get them.
    pub free: Seq<usize>,
    /// The number of slots, occupied or vacant.
    pub slots: usize,
}

/// The key the next subscription gets: the first vacant slot, or a new slot when none is
/// vacant.
pub open spec fn next_key<T>(d: DataView<T>) -> usize {
    if d.free.len() > 0 {
        d.free[0]
    } else {
        d.slots
    }
}

/// The subscriptions told of a change made by the object at `src`: all but those of that
/// object.
pub open spec fn recipients(subscribers: Map<usize, Option<usize>>, src: usize) -> Set<usize> {
    Set::new(|k: usize| subscribers.contains_key(k) && subscribers[k] != Some(src))
}

/// The subscriptions dropped after a change: those told of it that asked to be dropped.
pub open spec fn dropped(notified: Seq<usize>, keep: Seq<bool>) -> Set<usize> {
    Set::new(|k: usize| exists|i: int| 0 <= i < notified.len() && notified[i] == k && !keep[i])
}

/// The vacant slots after the subscriptions asked to be dropped were removed one after the
/// other from `free`: each freed slot goes to the front.
pub open spec fn free_after_drops(free: Seq<usize>, notified: Seq<usize>, keep: Seq<bool>) -> Seq<usize>
    decreases notified.len(),
{
    if notified.len() == 0 {
        free
    } else {
        let rest = free_after_drops(free, notified.drop_last(), keep.subrange(0, notified.len() - 1));
        if !keep[notified.len() - 1] {
            seq![notified.last()] + rest
        } else {
            rest
        }
    }
}

/// The data after its value was changed to `val` and the subscriptions `notified` were told
/// of it, those with `keep` false being dropped in the order they were told.
pub open spec fn after_set<T>(d: DataView<T>, val: T, notified: Seq<usize>, keep: Seq<bool>) -> DataView<T> {
    DataView {
        value: val,
        subscribers: d.subscribers.remove_keys(dropped(notified, keep)),
        free: free_after_drops(d.free, notified, keep),
        slots: d.slots,
    }
}

/// `new` is `old` after a subscription under `key` of `s`.
pub open spec fn subscribed<T>(old: DataView<T>, new: DataView<T>, s: Subscriber, key: usize) -> bool {
    &&& key == next_key(old)
    &&& !old.subscribers.contains_key(key)
    &&& old.free.len() > 0 ==> new.free == old.free.drop_first() && new.slots == old.slots
    &&& old.free.len() == 0 ==> new.free.len() == 0 && new.slots == key + 1
    &&& new.subscribers == old.subscribers.insert(key, subscriber_entry(s))
    &&& new.value == old.value
}

/// `new` is `old` after the subscription under `key` was removed.
pub open spec fn unsubscribed<T>(old: DataView<T>, new: DataView<T>, key: usize) -> bool {
    &&& old.subscribers.contains_key(key)
    &&& new.subscribers == old.subscribers.remove(key)
    &&& new.free == seq![key] + old.free
    &&& new.slots == old.slots
    &&& new.value == old.value
}

/// The value behind a reactive value and its subscriptions.
pub struct Data<T> {
    value: T,
    subscribers: Slab<Option<usize>>,
}

impl<T> View for Data<T> {
    type V = DataView<T>;

    closed spec fn view(&self) -> DataView<T> {
        DataView {
            value: self.value,
            subscribers: slab_entries(self.subscribers),
            free: slab_free_keys(self.subscribers),
            slots: slab_slots(self.subscribers),
        }
    }
}

impl<T> Data<T> {
    /// Data holding `value` and no subscription.
    pub fn new(value: T) -> (r: Data<T>)
        ensures
            r@.value == value,
            r@.subscribers == no_subscriptions(),
            r@.free.len() == 0,
            r@.slots == 0,
    {
        Data { value, subscribers: slab_new() }
    }

    /// The current value.
    pub fn value(&self) -> (r: &T)
        ensures
            *r == self@.value,
    {
        &self.value
    }

    /// Adds the subscription `s` and returns its key.
    pub fn subscribe(&mut self, s: Subscriber) -> (key: usize)
        ensures
            subscribed(old(self)@, final(self)@, s, key),
    {
        let entry = match s {
            Subscriber::Object(addr) => Some(addr),
            Subscriber::Function => None,
        };
        slab_insert(&mut self.subscribers, entry)
    }

    /// Whether a subscription is kept under `id`.
    pub fn is_subscribed(&self, id: usize) -> (r: bool)
        ensures
            r == self@.subscribers.contains_key(id),
    {
        slab_get(&self.subscribers, id).is_some()
    }

    /// Removes the subscription under `id` and returns it.
    pub fn unsubscribe(&mut self, id: usize) -> (r: Subscriber)
        requires
            old(self)@.subscribers.contains_key(id),
        ensures
            unsubscribed(old(self)@, final(self)@, id),
            subscriber_entry(r) == old(self)@.subscribers[id],
    {
        match slab_remove(&mut self.subscribers, id) {
            Some(addr) => Subscriber::Object(addr),
            None => Subscriber::Function,
        }
    }

    /// The keys of the subscriptions to tell of a change made by the object at `src` (0 when
    /// no object made it), in increasing order.
    pub fn recipients(&self, src: usize) -> (r: Vec<usize>)
        ensures
            forall|i: int, j: int| 0 <= i < j < r@.len() ==> r@[i] < r@[j],
            forall|k: usize| r@.contains(k) <==> recipients(self@.subscribers, src).contains(k),
            forall|k: usize|
                r@.contains(k) <==> (self@.subscribers.contains_key(k) && self@.subscribers[k]
                    != Some(src)),
    {
        let keys = slab_keys(&self.subscribers);
        let mut r: Vec<usize> = Vec::new();
        let n = keys.len();
        let ghost wanted_set = recipients(self@.subscribers, src);
        let mut i: usize = 0;
        while i < n
            invariant
                i <= n,
                n == keys@.len(),
                wanted_set == recipients(self@.subscribers, src),
                forall|a: int, b: int| 0 <= a < b < keys@.len() ==> keys@[a] < keys@[b],
                forall|a: int, b: int| 0 <= a < b < r@.len() ==> r@[a] < r@[b],
                forall|a: int|
                    0 <= a < r@.len() ==> exists|b: int|
                        0 <= b < i && #[trigger] keys@[b] == #[trigger] r@[a],
                forall|a: int| 0 <= a < r@.len() ==> wanted_set.contains(#[trigger] r@[a]),
                forall|b: int| 0 <= b < i && wanted_set.contains(#[trigger] keys@[b]) ==> r@.contains(keys@[b]),
            decreases n - i,
        {
            let k = keys[i];
            assert(keys@.contains(k));
            let entry = slab_get(&self.subscribers, k);
            let wanted = match entry {
                Some(Some(addr)) => addr != src,
                Some(None) => true,
                None => false,
            };
            assert(wanted == wanted_set.contains(k));
            if wanted {
                let ghost old_r = r@;
                proof {
                    assert forall|a: int| 0 <= a < r@.len() implies r@[a] < k by {
                        let b = choose|b: int| 0 <= b < i && #[trigger] keys@[b] == r@[a];
                    }
                }
                r.push(k);
                proof {
                    assert forall|a: int| 0 <= a < r@.len() implies exists|b: int|
                        0 <= b < i + 1 && #[trigger] keys@[b] == #[trigger] r@[a] by {
                        if a < old_r.len() {
                            assert(r@[a] == old_r[a]);
                            let b = choose|b: int| 0 <= b < i && #[trigger] keys@[b] == old_r[a];
                            assert(keys@[b] == r@[a]);
                        } else {
                            assert(keys@[i as int] == r@[a]);
                        }
                    }
                    assert forall|b: int| 0 <= b < i + 1 && wanted_set.contains(#[trigger] keys@[b]) implies r@.contains(keys@[b]) by {
                        if b < i {
                            assert(old_r.contains(keys@[b]));
                            let a = choose|a: int| 0 <= a < old_r.len() && old_r[a] == keys@[b];
                            assert(r@[a] == keys@[b]);
                        } else {
                            assert(r@[old_r.len() as int] == k);
                        }
                    }
                }
            } else {
                proof {
                    assert forall|a: int| 0 <= a < r@.len() implies exists|b: int|
                        0 <= b < i + 1 && #[trigger] keys@[b] == #[trigger] r@[a] by {
                        let b = choose|b: int| 0 <= b < i && #[trigger] keys@[b] == r@[a];
                        assert(keys@[b] == r@[a]);
                    }
                }
            }
            i = i + 1;
        }
        proof {
            assert forall|k: usize| r@.contains(k) <==> wanted_set.contains(k) by {
                if wanted_set.contains(k) {
                    assert(keys@.contains(k));
                    let b = choose|b: int| 0 <= b < keys@.len() && keys@[b] == k;
                    assert(wanted_set.contains(keys@[b]));
                }
                if r@.contains(k) {
                    let a = choose|a: int| 0 <= a < r@.len() && r@[a] == k;
                    assert(wanted_set.contains(r@[a]));
                }
            }
            assert forall|k: usize|
                r@.contains(k) <==> (self@.subscribers.contains_key(k) && self@.subscribers[k]
                    != Some(src)) by {
                assert(wanted_set.contains(k) <==> (self@.subscribers.contains_key(k)
                    && self@.subscribers[k] != Some(src)));
            }
        }
        r
    }

    /// Changes the value to `val`, after the subscriptions `notified` (from [Self::recipients])
    /// were told of it: the one at `notified[i]` stays when `keep[i]` holds and is dropped
    /// otherwise. Subscriptions are dropped in the order they were told.
    pub fn set_value(&mut self, val: T, notified: &Vec<usize>, keep: &Vec<bool>)
        requires
            notified@.len() == keep@.len(),
            notified@.no_duplicates(),
            forall|i: int| 0 <= i < notified@.len() ==> old(self)@.subscribers.contains_key(#[trigger] notified@[i]),
        ensures
            final(self)@ == after_set(old(self)@, val, notified@, keep@),
    {
        let n = notified.len();
        let mut i: usize = 0;
        assert(dropped(notified@.take(0), keep@.take(0)) =~= Set::<usize>::empty());
        assert(old(self)@.subscribers.remove_keys(Set::<usize>::empty()) =~= old(self)@.subscribers);
        while i < n
            invariant
                i <= n,
                n == notified@.len(),
                n == keep@.len(),
                notified@.no_duplicates(),
                forall|j: int| 0 <= j < notified@.len() ==> old(self)@.subscribers.contains_key(#[trigger] notified@[j]),
                self.value == old(self)@.value,
                self@.slots == old(self)@.slots,
                self@.subscribers == old(self)@.subscribers.remove_keys(
                    dropped(notified@.take(i as int), keep@.take(i as int)),
                ),
                self@.free == free_after_drops(old(self)@.free, notified@.take(i as int), keep@.take(i as int)),
            decreases n - i,
        {
            let ghost before = self@;
            let ghost ns = notified@.take(i + 1);
            let ghost ks = keep@.take(i + 1);
            proof {
                assert(ns.drop_last() =~= notified@.take(i as int));
                assert(ks.subrange(0, i as int) =~= keep@.take(i as int));
                assert(ns.last() == notified@[i as int]);
                assert(ks[i as int] == keep@[i as int]);
            }
            let key = notified[i];
            if !keep[i] {
                proof {
                    assert(!dropped(notified@.take(i as int), keep@.take(i as int)).contains(key)) by {
                        if dropped(notified@.take(i as int), keep@.take(i as int)).contains(key) {
                            let j = choose|j: int| 0 <= j < i && notified@.take(i as int)[j] == key
                                && !keep@.take(i as int)[j];
                            assert(notified@[j] == notified@[i as int]);
                        }
                    }
                    assert(dropped(ns, ks) =~= dropped(notified@.take(i as int), keep@.take(i as int)).insert(key)) by {
                        assert forall|k: usize| dropped(ns, ks).contains(k) implies
                            dropped(notified@.take(i as int), keep@.take(i as int)).insert(key).contains(k) by {
                            let j = choose|j: int| 0 <= j < ns.len() && ns[j] == k && !ks[j];
                            if j < i {
                                assert(notified@.take(i as int)[j] == k);
                            }
                        }
                        assert forall|k: usize| dropped(notified@.take(i as int), keep@.take(i as int)).insert(key).contains(k)
                            implies dropped(ns, ks).contains(k) by {
                            if k == key {
                                assert(ns[i as int] == key && !ks[i as int]);
                            } else {
                                let j = choose|j: int| 0 <= j < i && notified@.take(i as int)[j] == k
                                    && !keep@.take(i as int)[j];
                                assert(ns[j] == k && !ks[j]);
                            }
                        }
                    }
                }
                slab_remove(&mut self.subscribers, key);
                proof {
                    assert(self@.subscribers =~= old(self)@.subscribers.remove_keys(dropped(ns, ks)));
                }
            } else {
                proof {
                    assert(dropped(ns, ks) =~= dropped(notified@.take(i as int), keep@.take(i as int))) by {
                        assert forall|k: usize| dropped(ns, ks).contains(k) implies
                            dropped(notified@.take(i as int), keep@.take(i as int)).contains(k) by {
                            let j = choose|j: int| 0 <= j < ns.len() && ns[j] == k && !ks[j];
                            assert(j < i);
                            assert(notified@.take(i as int)[j] == k);
                        }
                        assert forall|k: usize| dropped(notified@.take(i as int), keep@.take(i as int)).contains(k)
                            implies dropped(ns, ks).contains(k) by {
                            let j = choose|j: int| 0 <= j < i && notified@.take(i as int)[j] == k
                                && !keep@.take(i as int)[j];
                            assert(ns[j] == k && !ks[j]);
                        }
                    }
                }
            }
            i = i + 1;
        }
        assert(notified@.take(n as int) =~= notified@);
        assert(keep@.take(n as int) =~= keep@);
        self.value = val;
        assert(self@.subscribers == after_set(old(self)@, val, notified@, keep@).subscribers);
    }
}

/// After a change the value reads back as the new one, every subscription that was not told
/// of it or asked to stay is still there, and every one that asked to be dropped is gone.
pub proof fn lemma_set_value_reads_back<T>(d: DataView<T>, val: T, notified: Seq<usize>, keep: Seq<bool>)
    requires
        notified.len() == keep.len(),
    ensures
        after_set(d, val, notified, keep).value == val,
        forall|k: usize|
            d.subscribers.contains_key(k) && !notified.contains(k) ==> #[trigger] after_set(
                d,
                val,
                notified,
                keep,
            ).subscribers.contains_key(k),
        forall|i: int|
            0 <= i < notified.len() && !keep[i] ==> !#[trigger] after_set(
                d,
                val,
                notified,
                keep,
            ).subscribers.contains_key(notified[i]),
        forall|i: int|
            0 <= i < notified.len() && keep[i] && d.subscribers.contains_key(notified[i])
                && notified.no_duplicates() ==> #[trigger] after_set(
                d,
                val,
                notified,
                keep,
            ).subscribers.contains_key(notified[i]),
{
    let r = after_set(d, val, notified, keep);
    assert forall|k: usize| d.subscribers.contains_key(k) && !notified.contains(k) implies
        #[trigger] r.subscribers.contains_key(k) by {
        if dropped(notified, keep).contains(k) {
            let i = choose|i: int| 0 <= i < notified.len() && notified[i] == k && !keep[i];
            assert(notified.contains(k));
        }
    }
    assert forall|i: int| 0 <= i < notified.len() && !keep[i] implies !#[trigger] r.subscribers.contains_key(
        notified[i],
    ) by {
        assert(dropped(notified, keep).contains(notified[i]));
    }
    assert forall|i: int|
        0 <= i < notified.len() && keep[i] && d.subscribers.contains_key(notified[i])
            && notified.no_duplicates() implies #[trigger] r.subscribers.contains_key(notified[i]) by {
        if dropped(notified, keep).contains(notified[i]) {
            let j = choose|j: int| 0 <= j < notified.len() && notified[j] == notified[i] && !keep[j];
        }
    }
}

/// While no slot is vacant, subscriptions get the keys one after the other: the next one
/// gets the key after this one.
pub proof fn lemma_keys_count_up<T>(
    d0: DataView<T>,
    d1: DataView<T>,
    s: Subscriber,
    key: usize,
)
    requires
        d0.free.len() == 0,
        subscribed(d0, d1, s, key),
    ensures
        key == d0.slots,
        d1.free.len() == 0,
        next_key(d1) == key + 1,
{
}

/// On fresh data, two subscriptions get the keys 0 and 1, and after the first is removed the
/// next subscription gets its key back.
pub proof fn lemma_fresh_keys_and_reuse<T>(
    d0: DataView<T>,
    d1: DataView<T>,
    d2: DataView<T>,
    d3: DataView<T>,
    d4: DataView<T>,
    s1: Subscriber,
    s2: Subscriber,
    s3: Subscriber,
    a: usize,
    b: usize,
    c: usize,
)
    requires
        d0.free.len() == 0,
        d0.slots == 0,
        subscribed(d0, d1, s1, a),
        subscribed(d1, d2, s2, b),
        unsubscribed(d2, d3, a),
        subscribed(d3, d4, s3, c),
    ensures
        a == 0,
        b == 1,
        c == a,
{
}

/// Freed keys are handed out again last freed first: after removing the subscriptions under
/// `a` and then `b`, the next two subscriptions get `b` and then `a`.
pub proof fn lemma_freed_keys_reused_last_first<T>(
    d0: DataView<T>,
    d1: DataView<T>,
    d2: DataView<T>,
    d3: DataView<T>,
    d4: DataView<T>,
    a: usize,
    b: usize,
    s1: Subscriber,
    s2: Subscriber,
    k1: usize,
    k2: usize,
)
    requires
        unsubscribed(d0, d1, a),
        unsubscribed(d1, d2, b),
        subscribed(d2, d3, s1, k1),
        subscribed(d3, d4, s2, k2),
    ensures
        k1 == b,
        k2 == a,
        d4.free == d0.free,
{
    assert(d2.free == seq![b] + (seq![a] + d0.free));
    assert(d3.free =~= seq![a] + d0.free);
    assert(d4.free =~= d0.free);
}

/// Every subscription is told of a change except the object that made it: a function
/// subscription is always told, an object subscription is told exactly when its address is
/// not the source's, and nothing that is not subscribed is told.
pub proof fn lemma_recipients_all_but_source(subscribers: Map<usize, Option<usize>>, src: usize)
    ensures
        forall|k: usize|
            #[trigger] recipients(subscribers, src).contains(k) ==> subscribers.contains_key(k),
        forall|k: usize|
            subscribers.contains_key(k) && subscribers[k] is None ==> #[trigger] recipients(
                subscribers,
                src,
            ).contains(k),
        forall|k: usize|
            subscribers.contains_key(k) && subscribers[k] is Some && subscribers[k]->0 != src
                ==> #[trigger] recipients(subscribers, src).contains(k),
        forall|k: usize|
            subscribers.contains_key(k) && subscribers[k] == Some(src) ==> !#[trigger] recipients(
                subscribers,
                src,
            ).contains(k),
{
}

/// A subscription that was removed gives its key to the next subscription: the key of a
/// removed subscription is reused by the next call of [Data::subscribe].
pub proof fn lemma_unsubscribed_key_reused<T>(
    d0: DataView<T>,
    d1: DataView<T>,
    d2: DataView<T>,
    id: usize,
    s: Subscriber,
    key: usize,
)
    requires
        unsubscribed(d0, d1, id),
        subscribed(d1, d2, s, key),
    ensures
        key == id,
        d2.subscribers == d0.subscribers.insert(id, subscriber_entry(s)),
{
    assert(d2.subscribers =~= d0.subscribers.insert(id, subscriber_entry(s)));
}

} // verus!
