//! Maps and sets that keep their keys in order and never hold a key twice.
use vstd::prelude::*;

verus! {

/// A key of an ordered map. Two keys are the same key when their `id`s are
/// equal; `before` is a strict total order on the ids.
pub trait OrderedKey: Sized {
    type Id;

    spec fn id(&self) -> Self::Id;

    spec fn before(a: Self::Id, b: Self::Id) -> bool;

    proof fn before_irreflexive(a: Self::Id)
        ensures
            !Self::before(a, a),
    ;

    proof fn before_transitive(a: Self::Id, b: Self::Id, c: Self::Id)
        requires
            Self::before(a, b),
            Self::before(b, c),
        ensures
            Self::before(a, c),
    ;

    proof fn before_total(a: Self::Id, b: Self::Id)
        ensures
            a == b || Self::before(a, b) || Self::before(b, a),
    ;

    fn precedes(&self, other: &Self) -> (r: bool)
        ensures
            r == Self::before(self.id(), other.id()),
    ;

    fn duplicate(&self) -> (r: Self)
        ensures
            r.id() == self.id(),
    ;
}

/// Whether `order` lists the members of `members` once each, in key order.
pub open spec fn lists<K: OrderedKey>(order: Seq<K::Id>, members: Set<K::Id>) -> bool {
    &&& forall|i: int, j: int|
        0 <= i < j < order.len() ==> K::before(#[trigger] order[i], #[trigger] order[j])
    &&& forall|k: K::Id| #[trigger] members.contains(k) <==> order.contains(k)
}

/// There is only one way to list the members of a set in key order.
pub proof fn lists_is_unique<K: OrderedKey>(a: Seq<K::Id>, b: Seq<K::Id>, members: Set<K::Id>)
    requires
        lists::<K>(a, members),
        lists::<K>(b, members),
    ensures
        a == b,
    decreases a.len(),
{
    if a.len() == 0 {
        if b.len() > 0 {
            assert(b.contains(b[0]));
            assert(members.contains(b[0]));
            assert(a.contains(b[0]));
        }
        assert(a =~= b);
    } else {
        assert(a.contains(a[0]));
        assert(members.contains(a[0]));
        assert(b.contains(a[0]));
        let p = choose|p: int| 0 <= p < b.len() && b[p] == a[0];
        assert(b.contains(b[0]));
        assert(members.contains(b[0]));
        assert(a.contains(b[0]));
        let q = choose|q: int| 0 <= q < a.len() && a[q] == b[0];
        if p > 0 {
            assert(K::before(b[0], b[p]));
            if q > 0 {
                assert(K::before(a[0], a[q]));
                K::before_transitive(a[0], b[0], a[0]);
            }
            K::before_irreflexive(a[0]);
        }
        assert(a[0] == b[0]);
        let rest = members.remove(a[0]);
        let a1 = a.drop_first();
        let b1 = b.drop_first();
        lemma_lists_rest::<K>(a, members);
        lemma_lists_rest::<K>(b, members);
        lists_is_unique::<K>(a1, b1, rest);
        assert(a =~= seq![a[0]] + a1);
        assert(b =~= seq![b[0]] + b1);
    }
}

proof fn lemma_lists_rest<K: OrderedKey>(a: Seq<K::Id>, members: Set<K::Id>)
    requires
        a.len() > 0,
        lists::<K>(a, members),
    ensures
        lists::<K>(a.drop_first(), members.remove(a[0])),
{
    let a1 = a.drop_first();
    let rest = members.remove(a[0]);
    assert forall|i: int, j: int| 0 <= i < j < a1.len() implies K::before(
        #[trigger] a1[i],
        #[trigger] a1[j],
    ) by {
        assert(K::before(a[i + 1], a[j + 1]));
    }
    assert forall|k: K::Id| #[trigger] rest.contains(k) <==> a1.contains(k) by {
        if rest.contains(k) {
            assert(members.contains(k));
            let i = choose|i: int| 0 <= i < a.len() && a[i] == k;
            assert(a1[i - 1] == k);
        }
        if a1.contains(k) {
            let i = choose|i: int| 0 <= i < a1.len() && a1[i] == k;
            assert(a[i + 1] == k);
            assert(a.contains(k));
            assert(members.contains(k));
            assert(K::before(a[0], a[i + 1]));
            K::before_irreflexive(a[0]);
        }
    }
}

/// A listing names nothing twice.
pub proof fn lists_distinct<K: OrderedKey>(
    order: Seq<K::Id>,
    members: Set<K::Id>,
    i: int,
    j: int,
)
    requires
        lists::<K>(order, members),
        0 <= i < j < order.len(),
    ensures
        order[i] != order[j],
{
    K::before_irreflexive(order[i]);
}

/// A listing is as long as the set that it lists.
pub proof fn lists_len<K: OrderedKey>(order: Seq<K::Id>, members: Set<K::Id>)
    requires
        lists::<K>(order, members),
    ensures
        members.finite(),
        members.len() == order.len(),
    decreases order.len(),
{
    if order.len() == 0 {
        assert forall|k: K::Id| !members.contains(k) by {
            assert(members.contains(k) <==> order.contains(k));
        }
        assert(members =~= Set::empty());
    } else {
        assert(order.contains(order[0]));
        assert(members.contains(order[0]));
        lemma_lists_rest::<K>(order, members);
        lists_len::<K>(order.drop_first(), members.remove(order[0]));
        assert(members =~= members.remove(order[0]).insert(order[0]));
    }
}

/// The members of a set in key order.
pub open spec fn ordered<K: OrderedKey>(members: Set<K::Id>) -> Seq<K::Id> {
    choose|order: Seq<K::Id>| lists::<K>(order, members)
}

/// The values of a map in key order.
pub open spec fn ordered_values<K: OrderedKey, V>(map: Map<K::Id, V>) -> Seq<V> {
    Seq::new(ordered::<K>(map.dom()).len(), |i: int| map[ordered::<K>(map.dom())[i]])
}

/// The keys and values of a map in key order.
pub open spec fn ordered_entries<K: OrderedKey, V>(map: Map<K::Id, V>) -> Seq<(K::Id, V)> {
    Seq::new(
        ordered::<K>(map.dom()).len(),
        |i: int| (ordered::<K>(map.dom())[i], map[ordered::<K>(map.dom())[i]]),
    )
}

/// The map that keys and values make. Of a key that is there twice, the last
/// value counts.
pub open spec fn collected<I, V>(entries: Seq<(I, V)>) -> Map<I, V>
    decreases entries.len(),
{
    if entries.len() == 0 {
        Map::empty()
    } else {
        collected(entries.drop_last()).insert(entries.last().0, entries.last().1)
    }
}

proof fn lemma_collected<I, V>(entries: Seq<(I, V)>)
    requires
        forall|i: int, j: int|
            0 <= i < j < entries.len() ==> (#[trigger] entries[i]).0 != (#[trigger] entries[j]).0,
    ensures
        forall|k: I| #[trigger]
            collected(entries).contains_key(k) <==> exists|i: int|
                0 <= i < entries.len() && (#[trigger] entries[i]).0 == k,
        forall|i: int|
            0 <= i < entries.len() ==> collected(entries)[(#[trigger] entries[i]).0]
                == entries[i].1,
    decreases entries.len(),
{
    if entries.len() > 0 {
        let fewer = entries.drop_last();
        lemma_collected(fewer);
        let n = entries.len() - 1;
        assert forall|k: I| #[trigger] collected(entries).contains_key(k) <==> exists|i: int|
            0 <= i < entries.len() && (#[trigger] entries[i]).0 == k by {
            if collected(fewer).contains_key(k) {
                let i = choose|i: int| 0 <= i < fewer.len() && (#[trigger] fewer[i]).0 == k;
                assert(entries[i].0 == k);
            }
            if k == entries[n].0 {
                assert(entries[n].0 == k);
            }
            if exists|i: int| 0 <= i < entries.len() && (#[trigger] entries[i]).0 == k {
                let i = choose|i: int| 0 <= i < entries.len() && (#[trigger] entries[i]).0 == k;
                if i < n {
                    assert(fewer[i].0 == k);
                }
            }
        }
        assert forall|i: int| 0 <= i < entries.len() implies collected(entries)[(
        #[trigger] entries[i]).0] == entries[i].1 by {
            if i < n {
                assert(fewer[i] == entries[i]);
                assert(entries[i].0 != entries[n].0);
            }
        }
    }
}

/// The entries of a map make that map again.
pub proof fn entries_make_the_map<K: OrderedKey, V>(map: Map<K::Id, V>)
    requires
        map.dom().finite(),
    ensures
        collected(ordered_entries::<K, V>(map)) == map,
{
    let entries = ordered_entries::<K, V>(map);
    let order = ordered::<K>(map.dom());
    ordered_lists::<K>(map.dom());
    assert forall|i: int, j: int| 0 <= i < j < entries.len() implies (#[trigger] entries[i]).0 != (
    #[trigger] entries[j]).0 by {
        lists_distinct::<K>(order, map.dom(), i, j);
    }
    lemma_collected(entries);
    assert forall|k: K::Id| #[trigger] collected(entries).contains_key(k) <==> map.contains_key(
        k,
    ) by {
        if map.contains_key(k) {
            assert(map.dom().contains(k));
            assert(order.contains(k));
            let i = choose|i: int| 0 <= i < order.len() && order[i] == k;
            assert(entries[i].0 == k);
        }
        if collected(entries).contains_key(k) {
            let i = choose|i: int| 0 <= i < entries.len() && (#[trigger] entries[i]).0 == k;
            assert(order.contains(order[i]));
            assert(map.dom().contains(k));
        }
    }
    assert forall|k: K::Id| #[trigger] map.contains_key(k) implies collected(entries)[k] == map[k] by {
        assert(collected(entries).contains_key(k));
        let i = choose|i: int| 0 <= i < entries.len() && (#[trigger] entries[i]).0 == k;
        assert(entries[i].1 == map[k]);
    }
    assert(collected(entries) =~= map);
}

/// Every finite set can be listed in key order.
pub proof fn ordered_lists<K: OrderedKey>(members: Set<K::Id>)
    requires
        members.finite(),
    ensures
        lists::<K>(ordered::<K>(members), members),
{
    let order = lemma_can_be_listed::<K>(members);
    lemma_ordered::<K>(order, members);
}

proof fn lemma_can_be_listed<K: OrderedKey>(members: Set<K::Id>) -> (order: Seq<K::Id>)
    requires
        members.finite(),
    ensures
        lists::<K>(order, members),
    decreases members.len(),
{
    if members.len() == 0 {
        let order = Seq::<K::Id>::empty();
        assert(members =~= Set::empty());
        order
    } else {
        let some = members.choose();
        let rest = lemma_can_be_listed::<K>(members.remove(some));
        let order = lemma_insert_in_order::<K>(rest, members.remove(some), some);
        assert(members.remove(some).insert(some) =~= members);
        order
    }
}

proof fn lemma_insert_in_order<K: OrderedKey>(
    rest: Seq<K::Id>,
    members: Set<K::Id>,
    k: K::Id,
) -> (order: Seq<K::Id>)
    requires
        lists::<K>(rest, members),
        !members.contains(k),
    ensures
        lists::<K>(order, members.insert(k)),
    decreases rest.len(),
{
    if rest.len() == 0 || K::before(rest.last(), k) {
        let order = rest.push(k);
        assert forall|i: int, j: int| 0 <= i < j < order.len() implies K::before(
            #[trigger] order[i],
            #[trigger] order[j],
        ) by {
            if j == rest.len() && i < rest.len() - 1 {
                assert(K::before(rest[i], rest.last()));
                K::before_transitive(rest[i], rest.last(), k);
            }
        }
        assert forall|x: K::Id| #[trigger] members.insert(k).contains(x) <==> order.contains(x) by {
            if members.contains(x) {
                let p = choose|p: int| 0 <= p < rest.len() && rest[p] == x;
                assert(order[p] == x);
            }
            if x == k {
                assert(order[rest.len() as int] == x);
            }
            if order.contains(x) && x != k {
                let p = choose|p: int| 0 <= p < order.len() && order[p] == x;
                assert(rest[p] == x);
                assert(rest.contains(x));
            }
        }
        order
    } else {
        let last = rest.last();
        assert(rest.contains(last));
        assert(members.contains(last));
        K::before_total(last, k);
        let below = rest.drop_last();
        let fewer = members.remove(last);
        assert(lists::<K>(below, fewer)) by {
            assert forall|x: K::Id| #[trigger] fewer.contains(x) <==> below.contains(x) by {
                if fewer.contains(x) {
                    assert(members.contains(x));
                    let p = choose|p: int| 0 <= p < rest.len() && rest[p] == x;
                    assert(below[p] == x);
                }
                if below.contains(x) {
                    let p = choose|p: int| 0 <= p < below.len() && below[p] == x;
                    assert(rest[p] == x);
                    assert(rest.contains(x));
                    assert(members.contains(x));
                    assert(K::before(rest[p], rest[rest.len() - 1]));
                    K::before_irreflexive(last);
                }
            }
        }
        let shorter = lemma_insert_in_order::<K>(below, fewer, k);
        let order = shorter.push(last);
        assert forall|i: int, j: int| 0 <= i < j < order.len() implies K::before(
            #[trigger] order[i],
            #[trigger] order[j],
        ) by {
            if j == shorter.len() {
                let x = order[i];
                assert(shorter.contains(x));
                assert(fewer.insert(k).contains(x));
                if x != k {
                    assert(fewer.contains(x));
                    let p = choose|p: int| 0 <= p < below.len() && below[p] == x;
                    assert(K::before(rest[p], rest[rest.len() - 1]));
                }
            }
        }
        assert forall|x: K::Id| #[trigger] members.insert(k).contains(x) <==> order.contains(x) by {
            if members.insert(k).contains(x) && x != last {
                assert(fewer.insert(k).contains(x));
                let p = choose|p: int| 0 <= p < shorter.len() && shorter[p] == x;
                assert(order[p] == x);
            }
            if x == last {
                assert(order[shorter.len() as int] == x);
            }
            if order.contains(x) && x != last {
                let p = choose|p: int| 0 <= p < order.len() && order[p] == x;
                assert(shorter[p] == x);
                assert(shorter.contains(x));
                assert(fewer.insert(k).contains(x));
            }
        }
        order
    }
}

pub proof fn lemma_ordered<K: OrderedKey>(order: Seq<K::Id>, members: Set<K::Id>)
    requires
        lists::<K>(order, members),
    ensures
        ordered::<K>(members) == order,
{
    lists_is_unique::<K>(ordered::<K>(members), order, members);
}

/// A map from keys to values that is walked in the order of its keys.
#[derive(Debug)]
pub struct VecMap<K: OrderedKey, V> {
    entries: Vec<(K, V)>,
}

spec fn ids<K: OrderedKey, V>(entries: Seq<(K, V)>) -> Seq<K::Id> {
    Seq::new(entries.len(), |i: int| entries[i].0.id())
}

spec fn sorted<K: OrderedKey, V>(entries: Seq<(K, V)>) -> bool {
    forall|i: int, j: int|
        0 <= i < j < entries.len() ==> K::before(
            (#[trigger] entries[i]).0.id(),
            (#[trigger] entries[j]).0.id(),
        )
}

spec fn has<K: OrderedKey, V>(entries: Seq<(K, V)>, k: K::Id) -> bool {
    exists|i: int| 0 <= i < entries.len() && (#[trigger] entries[i]).0.id() == k
}

spec fn position<K: OrderedKey, V>(entries: Seq<(K, V)>, k: K::Id) -> int {
    choose|i: int| 0 <= i < entries.len() && (#[trigger] entries[i]).0.id() == k
}

spec fn as_map<K: OrderedKey, V>(entries: Seq<(K, V)>) -> Map<K::Id, V> {
    Map::new(|k: K::Id| has(entries, k), |k: K::Id| entries[position(entries, k)].1)
}

proof fn lemma_position<K: OrderedKey, V>(entries: Seq<(K, V)>, i: int)
    requires
        sorted(entries),
        0 <= i < entries.len(),
    ensures
        has(entries, entries[i].0.id()),
        position(entries, entries[i].0.id()) == i,
        as_map(entries).contains_key(entries[i].0.id()),
        as_map(entries)[entries[i].0.id()] == entries[i].1,
{
    let k = entries[i].0.id();
    assert(has(entries, k));
    let p = position(entries, k);
    assert(0 <= p < entries.len() && entries[p].0.id() == k);
    if p < i {
        assert(K::before(entries[p].0.id(), entries[i].0.id()));
        K::before_irreflexive(k);
    }
    if i < p {
        assert(K::before(entries[i].0.id(), entries[p].0.id()));
        K::before_irreflexive(k);
    }
}

proof fn lemma_lists<K: OrderedKey, V>(entries: Seq<(K, V)>)
    requires
        sorted(entries),
    ensures
        lists::<K>(ids(entries), as_map(entries).dom()),
{
    let order = ids(entries);
    let members = as_map(entries).dom();
    assert forall|k: K::Id| #[trigger] members.contains(k) <==> order.contains(k) by {
        if members.contains(k) {
            let i = position(entries, k);
            assert(order[i] == k);
        }
        if order.contains(k) {
            let i = choose|i: int| 0 <= i < order.len() && order[i] == k;
            assert(entries[i].0.id() == k);
        }
    }
}

impl<K: OrderedKey, V> View for VecMap<K, V> {
    type V = Map<K::Id, V>;

    closed spec fn view(&self) -> Map<K::Id, V> {
        as_map(self.entries@)
    }
}

/// A map of this kind has finitely many keys.
pub proof fn map_is_finite<K: OrderedKey, V>(map: VecMap<K, V>)
    ensures
        map@.dom().finite(),
{
    let order = ids(map.entries@);
    assert forall|k: K::Id| #[trigger] map@.dom().contains(k) implies order.to_set().contains(k) by {
        assert(order[position(map.entries@, k)] == k);
    }
    vstd::seq_lib::seq_to_set_is_finite(order);
    vstd::set_lib::lemma_set_subset_finite(order.to_set(), map@.dom());
}

impl<K: OrderedKey, V> VecMap<K, V> {
    #[verifier::type_invariant]
    spec fn keys_in_order(&self) -> bool {
        sorted(self.entries@)
    }

    /// The keys in the order in which they are walked.
    pub closed spec fn order(&self) -> Seq<K::Id> {
        ids(self.entries@)
    }

    pub fn new() -> (r: Self)
        ensures
            r@ == Map::<K::Id, V>::empty(),
            r.order() == Seq::<K::Id>::empty(),
    {
        let r = VecMap { entries: Vec::new() };
        assert(r@ =~= Map::<K::Id, V>::empty());
        assert(r.order() =~= Seq::<K::Id>::empty());
        r
    }

    pub fn len(&self) -> (r: usize)
        ensures
            r == self.order().len(),
            r == self@.dom().len(),
            self@.dom().finite(),
            lists::<K>(self.order(), self@.dom()),
            self.order() == ordered::<K>(self@.dom()),
    {
        proof {
            use_type_invariant(self);
            lemma_lists(self.entries@);
            lemma_ordered::<K>(self.order(), self@.dom());
            lists_len::<K>(self.order(), self@.dom());
        }
        self.entries.len()
    }

    pub fn is_empty(&self) -> (r: bool)
        ensures
            r == (self@.dom() =~= Set::<K::Id>::empty()),
            r == (self.order().len() == 0),
    {
        proof {
            use_type_invariant(self);
            lemma_lists(self.entries@);
            if self.entries@.len() > 0 {
                lemma_position(self.entries@, 0);
            } else {
                assert(self@.dom() =~= Set::<K::Id>::empty());
            }
        }
        self.entries.len() == 0
    }

    /// The keys in their order.
    pub fn keys(&self) -> (r: Vec<K>)
        ensures
            r@.len() == self.order().len(),
            forall|i: int| 0 <= i < r@.len() ==> (#[trigger] r@[i]).id() == self.order()[i],
            lists::<K>(self.order(), self@.dom()),
            self.order() == ordered::<K>(self@.dom()),
            self@.dom().finite(),
    {
        let n: usize = self.len();
        let mut r: Vec<K> = Vec::new();
        let mut i: usize = 0;
        while i < n
            invariant
                i <= n,
                n == self.order().len(),
                r@.len() == i,
                forall|j: int| 0 <= j < i ==> (#[trigger] r@[j]).id() == self.order()[j],
            decreases n - i,
        {
            r.push(self.key_at(i).duplicate());
            i = i + 1;
        }
        r
    }

    /// The key at a place in the order.
    pub fn key_at(&self, i: usize) -> (r: &K)
        requires
            i < self.order().len(),
        ensures
            r.id() == self.order()[i as int],
            self@.contains_key(r.id()),
    {
        proof {
            use_type_invariant(self);
            lemma_position(self.entries@, i as int);
        }
        &self.entries[i].0
    }

    /// The value at a place in the order.
    pub fn value_at(&self, i: usize) -> (r: &V)
        requires
            i < self.order().len(),
        ensures
            *r == self@[self.order()[i as int]],
            self@.contains_key(self.order()[i as int]),
    {
        proof {
            use_type_invariant(self);
            lemma_position(self.entries@, i as int);
        }
        &self.entries[i].1
    }

    /// The place at which a key stands or would stand.
    fn locate(&self, key: &K) -> (r: (bool, usize))
        ensures
            r.1 <= self.entries@.len(),
            r.0 ==> r.1 < self.entries@.len() && self.entries@[r.1 as int].0.id() == key.id(),
            !r.0 ==> (forall|j: int|
                0 <= j < r.1 ==> K::before((#[trigger] self.entries@[j]).0.id(), key.id())),
            !r.0 ==> (forall|j: int|
                r.1 <= j < self.entries@.len() ==> K::before(
                    key.id(),
                    (#[trigger] self.entries@[j]).0.id(),
                )),
            r.0 == self@.contains_key(key.id()),
    {
        proof {
            use_type_invariant(self);
        }
        let mut i: usize = 0;
        while i < self.entries.len()
            invariant
                i <= self.entries@.len(),
                sorted(self.entries@),
                forall|j: int|
                    0 <= j < i ==> K::before((#[trigger] self.entries@[j]).0.id(), key.id()),
            decreases self.entries@.len() - i,
        {
            if !self.entries[i].0.precedes(key) {
                if key.precedes(&self.entries[i].0) {
                    proof {
                        let k = key.id();
                        assert forall|j: int| i <= j < self.entries@.len() implies K::before(
                            k,
                            (#[trigger] self.entries@[j]).0.id(),
                        ) by {
                            if j > i {
                                K::before_transitive(
                                    k,
                                    self.entries@[i as int].0.id(),
                                    self.entries@[j].0.id(),
                                );
                            }
                        }
                        if has(self.entries@, k) {
                            let p = position(self.entries@, k);
                            K::before_irreflexive(k);
                        }
                    }
                    return (false, i);
                }
                proof {
                    K::before_total(self.entries@[i as int].0.id(), key.id());
                    lemma_position(self.entries@, i as int);
                }
                return (true, i);
            }
            i = i + 1;
        }
        proof {
            let k = key.id();
            if has(self.entries@, k) {
                let p = position(self.entries@, k);
                K::before_irreflexive(k);
            }
        }
        (false, i)
    }

    pub fn contains_key(&self, key: &K) -> (r: bool)
        ensures
            r == self@.contains_key(key.id()),
    {
        self.locate(key).0
    }

    pub fn get(&self, key: &K) -> (r: Option<&V>)
        ensures
            r is Some == self@.contains_key(key.id()),
            r matches Some(v) ==> *v == self@[key.id()],
    {
        let (found, i) = self.locate(key);
        if found {
            proof {
                use_type_invariant(self);
                lemma_position(self.entries@, i as int);
            }
            Some(&self.entries[i].1)
        } else {
            None
        }
    }

    /// Puts a value under a key and gives back what stood there.
    pub fn insert(&mut self, key: K, value: V) -> (r: Option<V>)
        ensures
            final(self)@ == old(self)@.insert(key.id(), value),
            r is Some == old(self)@.contains_key(key.id()),
            r matches Some(v) ==> v == old(self)@[key.id()],
    {
        proof {
            use_type_invariant(&*self);
        }
        let (found, i) = self.locate(&key);
        let ghost k = key.id();
        let ghost before = self.entries@;
        let mut entries: Vec<(K, V)> = Vec::new();
        std::mem::swap(&mut entries, &mut self.entries);
        if found {
            proof {
                lemma_position(before, i as int);
            }
            let old_entry = entries.remove(i);
            entries.insert(i, (key, value));
            proof {
                let after = entries@;
                assert(after =~= before.update(i as int, (key, value)));
                assert(sorted(after)) by {
                    assert forall|a: int, b: int| 0 <= a < b < after.len() implies K::before(
                        (#[trigger] after[a]).0.id(),
                        (#[trigger] after[b]).0.id(),
                    ) by {
                        assert(K::before(before[a].0.id(), before[b].0.id()));
                    }
                }
                assert forall|x: K::Id| has(after, x) <==> has(before, x) || x == k by {
                    if has(after, x) {
                        let p = position(after, x);
                        assert(before[p].0.id() == x);
                    }
                    if has(before, x) {
                        let p = position(before, x);
                        assert(after[p].0.id() == x);
                    }
                    if x == k {
                        assert(after[i as int].0.id() == x);
                    }
                }
                assert(as_map(after) =~= as_map(before).insert(k, value)) by {
                    assert forall|x: K::Id| #[trigger] as_map(after).contains_key(x) implies as_map(
                        after,
                    )[x] == as_map(before).insert(k, value)[x] by {
                        let p = position(after, x);
                        lemma_position(after, p);
                        lemma_position(before, p);
                        assert(before[p].0.id() == x);
                    }
                }
            }
            std::mem::swap(&mut entries, &mut self.entries);
            Some(old_entry.1)
        } else {
            entries.insert(i, (key, value));
            proof {
                let after = entries@;
                lemma_inserted(before, i as int, key, value);
            }
            std::mem::swap(&mut entries, &mut self.entries);
            None
        }
    }

    /// Takes a key out and gives back its value.
    pub fn remove(&mut self, key: &K) -> (r: Option<V>)
        ensures
            final(self)@ == old(self)@.remove(key.id()),
            r is Some == old(self)@.contains_key(key.id()),
            r matches Some(v) ==> v == old(self)@[key.id()],
            !old(self)@.contains_key(key.id()) ==> final(self)@ == old(self)@,
    {
        proof {
            use_type_invariant(&*self);
        }
        let (found, i) = self.locate(key);
        let ghost before = self.entries@;
        if found {
            let mut entries: Vec<(K, V)> = Vec::new();
            std::mem::swap(&mut entries, &mut self.entries);
            proof {
                lemma_removed(before, i as int);
            }
            let entry = entries.remove(i);
            std::mem::swap(&mut entries, &mut self.entries);
            Some(entry.1)
        } else {
            assert(self@ =~= self@.remove(key.id()));
            None
        }
    }

    /// Takes out the first key of a map that is not empty.
    pub fn remove_first(&mut self) -> (r: (K, V))
        requires
            old(self).order().len() > 0,
        ensures
            r.0.id() == old(self).order()[0],
            r.1 == old(self)@[old(self).order()[0]],
            old(self)@.contains_key(old(self).order()[0]),
            final(self)@ == old(self)@.remove(old(self).order()[0]),
            final(self).order() == old(self).order().drop_first(),
    {
        proof {
            use_type_invariant(&*self);
        }
        let ghost before = self.entries@;
        proof {
            lemma_position(before, 0);
            lemma_removed(before, 0);
        }
        let mut entries: Vec<(K, V)> = Vec::new();
        std::mem::swap(&mut entries, &mut self.entries);
        let entry = entries.remove(0);
        std::mem::swap(&mut entries, &mut self.entries);
        assert(self.order() =~= old(self).order().drop_first());
        entry
    }
}

impl<K: OrderedKey, V: Clone> Clone for VecMap<K, V> {
    fn clone(&self) -> (r: Self)
        ensures
            r.order() == self.order(),
            r@.dom() == self@.dom(),
            forall|k: K::Id| #[trigger]
                self@.contains_key(k) ==> cloned::<V>(self@[k], r@[k]),
    {
        proof {
            use_type_invariant(self);
        }
        let mut entries: Vec<(K, V)> = Vec::new();
        let mut i: usize = 0;
        while i < self.entries.len()
            invariant
                i <= self.entries@.len(),
                entries@.len() == i,
                sorted(self.entries@),
                forall|j: int|
                    0 <= j < i ==> (#[trigger] entries@[j]).0.id() == self.entries@[j].0.id()
                        && cloned::<V>(self.entries@[j].1, entries@[j].1),
            decreases self.entries@.len() - i,
        {
            let value: V = self.entries[i].1.clone();
            entries.push((self.entries[i].0.duplicate(), value));
            i = i + 1;
        }
        proof {
            lemma_same_keys(self.entries@, entries@);
        }
        let r = VecMap { entries };
        proof {
            assert forall|k: K::Id| #[trigger] self@.contains_key(k) implies cloned::<V>(
                self@[k],
                r@[k],
            ) by {
                let p = position(self.entries@, k);
                assert(has(self.entries@, k));
                lemma_position(self.entries@, p);
                lemma_position(r.entries@, p);
            }
        }
        r
    }
}

proof fn lemma_same_keys<K: OrderedKey, V>(a: Seq<(K, V)>, b: Seq<(K, V)>)
    requires
        sorted(a),
        a.len() == b.len(),
        forall|j: int| 0 <= j < a.len() ==> (#[trigger] b[j]).0.id() == a[j].0.id(),
    ensures
        sorted(b),
        as_map(b).dom() == as_map(a).dom(),
        ids(b) == ids(a),
{
    assert(sorted(b)) by {
        assert forall|i: int, j: int| 0 <= i < j < b.len() implies K::before(
            (#[trigger] b[i]).0.id(),
            (#[trigger] b[j]).0.id(),
        ) by {
            assert(K::before(a[i].0.id(), a[j].0.id()));
        }
    }
    assert(ids(b) =~= ids(a));
    assert forall|k: K::Id| #[trigger] has(a, k) <==> has(b, k) by {
        if has(a, k) {
            let p = position(a, k);
            assert(b[p].0.id() == k);
        }
        if has(b, k) {
            let p = position(b, k);
            assert(a[p].0.id() == k);
        }
    }
    assert(as_map(b).dom() =~= as_map(a).dom());
}

proof fn lemma_inserted<K: OrderedKey, V>(before: Seq<(K, V)>, i: int, key: K, value: V)
    requires
        sorted(before),
        0 <= i <= before.len(),
        forall|j: int| 0 <= j < i ==> K::before((#[trigger] before[j]).0.id(), key.id()),
        forall|j: int| i <= j < before.len() ==> K::before(key.id(), (#[trigger] before[j]).0.id()),
    ensures
        sorted(before.insert(i, (key, value))),
        as_map(before.insert(i, (key, value))) == as_map(before).insert(key.id(), value),
{
    let after = before.insert(i, (key, value));
    let k = key.id();
    assert(sorted(after)) by {
        assert forall|a: int, b: int| 0 <= a < b < after.len() implies K::before(
            (#[trigger] after[a]).0.id(),
            (#[trigger] after[b]).0.id(),
        ) by {
            let pa = if a < i { a } else { a - 1 };
            let pb = if b < i { b } else { b - 1 };
            if a != i && b != i {
                assert(K::before(before[pa].0.id(), before[pb].0.id()));
            } else if a == i {
                assert(K::before(k, before[pb].0.id()));
            } else {
                assert(K::before(before[pa].0.id(), k));
            }
        }
    }
    assert forall|x: K::Id| #[trigger] has(after, x) <==> has(before, x) || x == k by {
        if has(after, x) {
            let p = position(after, x);
            if p < i {
                assert(before[p].0.id() == x);
            } else if p > i {
                assert(before[p - 1].0.id() == x);
            }
        }
        if has(before, x) {
            let p = position(before, x);
            let q = if p < i { p } else { p + 1 };
            assert(after[q].0.id() == x);
        }
        if x == k {
            assert(after[i].0.id() == x);
        }
    }
    assert(as_map(after) =~= as_map(before).insert(k, value)) by {
        assert forall|x: K::Id| #[trigger] as_map(after).contains_key(x) implies as_map(after)[x]
            == as_map(before).insert(k, value)[x] by {
            let p = position(after, x);
            assert(has(after, x));
            lemma_position(after, p);
            if p != i {
                let q = if p < i { p } else { p - 1 };
                lemma_position(before, q);
                assert(before[q] == after[p]);
                if x == k {
                    K::before_irreflexive(k);
                }
            }
        }
    }
}

proof fn lemma_removed<K: OrderedKey, V>(before: Seq<(K, V)>, i: int)
    requires
        sorted(before),
        0 <= i < before.len(),
    ensures
        sorted(before.remove(i)),
        as_map(before.remove(i)) == as_map(before).remove(before[i].0.id()),
        as_map(before).contains_key(before[i].0.id()),
        as_map(before)[before[i].0.id()] == before[i].1,
{
    let after = before.remove(i);
    let k = before[i].0.id();
    lemma_position(before, i);
    assert(sorted(after)) by {
        assert forall|a: int, b: int| 0 <= a < b < after.len() implies K::before(
            (#[trigger] after[a]).0.id(),
            (#[trigger] after[b]).0.id(),
        ) by {
            let pa = if a < i { a } else { a + 1 };
            let pb = if b < i { b } else { b + 1 };
            assert(K::before(before[pa].0.id(), before[pb].0.id()));
        }
    }
    assert forall|x: K::Id| #[trigger] has(after, x) <==> has(before, x) && x != k by {
        if has(after, x) {
            let p = position(after, x);
            let q = if p < i { p } else { p + 1 };
            assert(before[q].0.id() == x);
            lemma_position(before, q);
        }
        if has(before, x) && x != k {
            let p = position(before, x);
            let q = if p < i { p } else { p - 1 };
            assert(after[q].0.id() == x);
        }
    }
    assert(as_map(after) =~= as_map(before).remove(k)) by {
        assert forall|x: K::Id| #[trigger] as_map(after).contains_key(x) implies as_map(after)[x]
            == as_map(before).remove(k)[x] by {
            let p = position(after, x);
            assert(has(after, x));
            lemma_position(after, p);
            let q = if p < i { p } else { p + 1 };
            lemma_position(before, q);
        }
    }
}

/// A set that is walked in the order of its members.
#[derive(Debug)]
pub struct VecSet<K: OrderedKey> {
    members: VecMap<K, ()>,
}

impl<K: OrderedKey> View for VecSet<K> {
    type V = Set<K::Id>;

    closed spec fn view(&self) -> Set<K::Id> {
        self.members@.dom()
    }
}

/// A set of this kind has finitely many members.
pub proof fn set_is_finite<K: OrderedKey>(set: VecSet<K>)
    ensures
        set@.finite(),
{
    map_is_finite(set.members);
}

impl<K: OrderedKey> VecSet<K> {
    pub fn new() -> (r: Self)
        ensures
            r@ == Set::<K::Id>::empty(),
    {
        let r = VecSet { members: VecMap::new() };
        assert(r@ =~= Set::<K::Id>::empty());
        r
    }

    pub fn len(&self) -> (r: usize)
        ensures
            r == self@.len(),
            self@.finite(),
            r == ordered::<K>(self@).len(),
            lists::<K>(ordered::<K>(self@), self@),
    {
        self.members.len()
    }

    pub fn is_empty(&self) -> (r: bool)
        ensures
            r == (self@ =~= Set::<K::Id>::empty()),
    {
        self.members.is_empty()
    }

    /// The member at a place in the order.
    pub fn at(&self, i: usize) -> (r: &K)
        requires
            i < ordered::<K>(self@).len(),
        ensures
            r.id() == ordered::<K>(self@)[i as int],
            self@.contains(r.id()),
    {
        let n: usize = self.members.len();
        self.members.key_at(i)
    }

    pub fn contains(&self, key: &K) -> (r: bool)
        ensures
            r == self@.contains(key.id()),
    {
        self.members.contains_key(key)
    }

    /// Puts a member in and says whether it is new.
    pub fn insert(&mut self, key: K) -> (r: bool)
        ensures
            final(self)@ == old(self)@.insert(key.id()),
            r == !old(self)@.contains(key.id()),
    {
        let ghost k = key.id();
        let known = self.members.insert(key, ());
        assert(self@ =~= old(self)@.insert(k));
        known.is_none()
    }

    /// Takes a member out and says whether it was there.
    pub fn remove(&mut self, key: &K) -> (r: bool)
        ensures
            final(self)@ == old(self)@.remove(key.id()),
            r == old(self)@.contains(key.id()),
    {
        let known = self.members.remove(key);
        assert(self@ =~= old(self)@.remove(key.id()));
        known.is_some()
    }
}

impl<K: OrderedKey> Clone for VecSet<K> {
    fn clone(&self) -> (r: Self)
        ensures
            r@ == self@,
    {
        VecSet { members: self.members.clone() }
    }
}

impl OrderedKey for u32 {
    type Id = u32;

    open spec fn id(&self) -> u32 {
        *self
    }

    open spec fn before(a: u32, b: u32) -> bool {
        a < b
    }

    proof fn before_irreflexive(a: u32) {
    }

    proof fn before_transitive(a: u32, b: u32, c: u32) {
    }

    proof fn before_total(a: u32, b: u32) {
    }

    fn precedes(&self, other: &u32) -> (r: bool) {
        *self < *other
    }

    fn duplicate(&self) -> (r: u32) {
        *self
    }
}

/// What the items of a list say.
pub open spec fn views<T: View>(items: Seq<T>) -> Seq<T::V> {
    Seq::new(items.len(), |i: int| items[i]@)
}

/// Something that can be written a second time.
pub trait Replica: View + Sized {
    fn replica(&self) -> (r: Self)
        ensures
            r@ == self@,
    ;
}

/// Something that can be told apart from others of its kind.
pub trait Alike: View + Sized {
    fn alike(&self, other: &Self) -> (r: bool)
        ensures
            r == (self@ == other@),
    ;
}

/// A list written a second time.
pub fn replicas<T: Replica>(items: &Vec<T>) -> (r: Vec<T>)
    ensures
        views(r@) == views(items@),
{
    let mut r: Vec<T> = Vec::new();
    let mut i: usize = 0;
    while i < items.len()
        invariant
            i <= items@.len(),
            r@.len() == i,
            forall|j: int| 0 <= j < i ==> (#[trigger] r@[j])@ == items@[j]@,
        decreases items@.len() - i,
    {
        r.push(items[i].replica());
        i = i + 1;
    }
    assert(views(r@) =~= views(items@));
    r
}

/// Whether a list holds something.
pub fn holds<T: Alike>(items: &Vec<T>, item: &T) -> (r: bool)
    ensures
        r == views(items@).contains(item@),
{
    let mut i: usize = 0;
    while i < items.len()
        invariant
            i <= items@.len(),
            forall|j: int| 0 <= j < i ==> views(items@)[j] != item@,
        decreases items@.len() - i,
    {
        if items[i].alike(item) {
            assert(views(items@)[i as int] == item@);
            return true;
        }
        i = i + 1;
    }
    false
}

/// Adds an item to a list.
pub fn push_item<T: View>(items: &mut Vec<T>, item: T)
    ensures
        views(final(items)@) == views(old(items)@).push(item@),
{
    let ghost before = views(items@);
    items.push(item);
    assert(views(items@) =~= before.push(item@));
}

/// Adds a list to a list.
pub fn push_items<T: View>(items: &mut Vec<T>, mut more: Vec<T>)
    ensures
        views(final(items)@) == views(old(items)@) + views(more@),
{
    let ghost before = views(items@);
    let ghost added = views(more@);
    items.append(&mut more);
    assert(views(items@) =~= before + added);
}

} // verus!
