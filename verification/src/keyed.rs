//! Small keyed collections: an ordered set of keys and an association map.
//!
//! Both keep their entries in insertion order and hold every key at most once.
use vstd::prelude::*;

verus! {

/// A key that can be compared and copied, with a mathematical view.
pub trait Key: View + Sized {
    /// Whether two keys have the same view.
    fn same(&self, other: &Self) -> (b: bool)
        ensures
            b == (self@ == other@),
    ;

    /// Another key with the same view.
    fn copy(&self) -> (r: Self)
        ensures
            r@ == self@,
    ;
}

impl Key for String {
    fn same(&self, other: &Self) -> (b: bool) {
        *self == *other
    }

    fn copy(&self) -> (r: Self) {
        self.clone()
    }
}

/// A sequence element-wise replaced by its views.
pub open spec fn views<T: View>(s: Seq<T>) -> Seq<T::V> {
    s.map_values(|t: T| t.view())
}

/// Filtering one more element either keeps it at the end or drops it.
pub proof fn lemma_filter_step<A>(s: Seq<A>, p: spec_fn(A) -> bool, i: int)
    requires
        0 <= i < s.len(),
    ensures
        s.take(i + 1).filter(p) == if p(s[i]) {
            s.take(i).filter(p).push(s[i])
        } else {
            s.take(i).filter(p)
        },
{
    reveal(Seq::filter);
    assert(s.take(i + 1).drop_last() =~= s.take(i));
}

/// One more element of a prefix is one more member.
pub proof fn lemma_take_contains<A>(s: Seq<A>, i: int)
    requires
        0 <= i < s.len(),
    ensures
        forall|x: A| #[trigger]
            s.take(i + 1).contains(x) == (s.take(i).contains(x) || x == s[i]),
        s.no_duplicates() ==> !s.take(i).contains(s[i]),
{
    let a = s.take(i);
    let b = s.take(i + 1);
    assert forall|x: A| #[trigger] b.contains(x) == (a.contains(x) || x == s[i]) by {
        if a.contains(x) {
            let j = choose|j: int| 0 <= j < a.len() && a[j] == x;
            assert(b[j] == x);
        }
        if x == s[i] {
            assert(b[i] == x);
        }
        if b.contains(x) && x != s[i] {
            let j = choose|j: int| 0 <= j < b.len() && b[j] == x;
            assert(a[j] == x);
        }
    }
    if s.no_duplicates() && a.contains(s[i]) {
        let j = choose|j: int| 0 <= j < a.len() && a[j] == s[i];
        assert(s[j] == s[i]);
    }
}

/// The first position whose element satisfies a predicate, or the length when there is none.
pub open spec fn position<A>(s: Seq<A>, p: spec_fn(A) -> bool) -> int
    decreases s.len(),
{
    if s.len() == 0 {
        0
    } else {
        let before = position(s.drop_last(), p);
        if before < s.len() - 1 {
            before
        } else if p(s.last()) {
            s.len() - 1
        } else {
            s.len() as int
        }
    }
}

/// What makes a position the first one.
pub proof fn lemma_position<A>(s: Seq<A>, p: spec_fn(A) -> bool)
    ensures
        0 <= position(s, p) <= s.len(),
        position(s, p) < s.len() ==> p(s[position(s, p)]),
        forall|j: int| 0 <= j < position(s, p) ==> !p(#[trigger] s[j]),
    decreases s.len(),
{
    if s.len() > 0 {
        lemma_position(s.drop_last(), p);
        assert forall|j: int| 0 <= j < position(s, p) implies !p(#[trigger] s[j]) by {
            if j < s.len() - 1 {
                assert(s.drop_last()[j] == s[j]);
            }
        }
    }
}

/// Keeps the elements of a vector that a test accepts, in their order.
pub fn retain_items<T: View, F: Fn(&T) -> bool>(
    items: Vec<T>,
    test: F,
    Ghost(keep): Ghost<spec_fn(T::V) -> bool>,
) -> (r: Vec<T>)
    requires
        forall|t: &T| #[trigger] test.requires((t,)),
        forall|t: &T, b: bool| #[trigger] test.ensures((t,), b) ==> b == keep(t@),
    ensures
        views(r@) == views(items@).filter(keep),
{
    let mut rest = items;
    let mut out: Vec<T> = Vec::new();
    let ghost all = views(items@);
    let ghost mut i: int = 0;
    proof {
        reveal(Seq::filter);
        assert(views(rest@) =~= all.skip(0));
    }
    while rest.len() > 0
        invariant
            0 <= i <= all.len(),
            rest@.len() == all.len() - i,
            views(rest@) == all.skip(i),
            views(out@) == all.take(i).filter(keep),
            forall|t: &T| #[trigger] test.requires((t,)),
            forall|t: &T, b: bool| #[trigger] test.ensures((t,), b) ==> b == keep(t@),
        decreases rest@.len(),
    {
        let ghost before = rest@;
        let ghost sofar = out@;
        let item = rest.remove(0);
        proof {
            assert(item@ == views(before)[0]);
            assert(item@ == all[i]);
            assert forall|j: int| 0 <= j < rest@.len() implies views(rest@)[j] == all.skip(i + 1)[j] by {
                assert(views(before)[j + 1] == all.skip(i)[j + 1]);
            }
            assert(views(rest@) =~= all.skip(i + 1));
            lemma_filter_step(all, keep, i);
        }
        if test(&item) {
            out.push(item);
            assert(views(out@) =~= views(sofar).push(all[i]));
        }
        proof {
            i = i + 1;
        }
    }
    assert(all.take(i) =~= all);
    out
}

/// A finite set of keys.
pub struct KeySet<K: Key> {
    items: Vec<K>,
}

impl<K: Key> View for KeySet<K> {
    type V = Set<K::V>;

    closed spec fn view(&self) -> Set<K::V> {
        views(self.items@).to_set()
    }
}

impl<K: Key> KeySet<K> {
    /// No key is held twice.
    #[verifier::type_invariant]
    closed spec fn distinct(self) -> bool {
        views(self.items@).no_duplicates()
    }

    /// The members in insertion order.
    pub closed spec fn members(&self) -> Seq<K::V> {
        views(self.items@)
    }

    pub fn new() -> (r: Self)
        ensures
            r@ == Set::<K::V>::empty(),
    {
        let r = KeySet { items: Vec::new() };
        assert(r@ =~= Set::<K::V>::empty());
        r
    }

    pub fn contains(&self, key: &K) -> (b: bool)
        ensures
            b == self@.contains(key@),
    {
        let mut i: usize = 0;
        while i < self.items.len()
            invariant
                i <= self.items.len(),
                forall|j: int| 0 <= j < i ==> self.items@[j].view() != key@,
            decreases self.items.len() - i,
        {
            if self.items[i].same(key) {
                assert(views(self.items@)[i as int] == key@);
                return true;
            }
            i += 1;
        }
        false
    }

    /// Adds a key. Says whether it was absent.
    pub fn insert(&mut self, key: K) -> (added: bool)
        ensures
            added == !old(self)@.contains(key@),
            final(self)@ == old(self)@.insert(key@),
    {
        if self.contains(&key) {
            assert(self@.insert(key@) =~= self@);
            return false;
        }
        proof {
            use_type_invariant(&*self);
        }
        let ghost before = views(self.items@);
        let ghost kv = key@;
        let mut items: Vec<K> = Vec::new();
        std::mem::swap(&mut items, &mut self.items);
        items.push(key);
        proof {
            assert(views(items@) =~= before.push(kv));
            assert forall|x: K::V| before.push(kv).contains(x) == (before.contains(x) || x == kv) by {
                if before.contains(x) {
                    let i = choose|i: int| 0 <= i < before.len() && before[i] == x;
                    assert(before.push(kv)[i] == x);
                }
                if x == kv {
                    assert(before.push(kv)[before.len() as int] == x);
                }
            }
        }
        self.items = items;
        assert(self@ =~= old(self)@.insert(key@));
        true
    }

    /// Takes a key out. Says whether it was there.
    pub fn remove(&mut self, key: &K) -> (removed: bool)
        ensures
            removed == old(self)@.contains(key@),
            final(self)@ == old(self)@.remove(key@),
    {
        proof {
            use_type_invariant(&*self);
        }
        let ghost all = views(self.items@);
        let mut i: usize = 0;
        while i < self.items.len() && !self.items[i].same(key)
            invariant
                i <= self.items.len(),
                all == views(self.items@),
                forall|j: int| 0 <= j < i ==> self.items@[j].view() != key@,
            decreases self.items.len() - i,
        {
            i += 1;
        }
        if i == self.items.len() {
            assert(self@ =~= old(self)@.remove(key@));
            return false;
        }
        let mut items: Vec<K> = Vec::new();
        std::mem::swap(&mut items, &mut self.items);
        let ghost before = items@;
        let _ = items.remove(i);
        proof {
            assert(views(items@) =~= all.remove(i as int));
            assert(all[i as int] == key@);
            assert(all.remove(i as int).no_duplicates());
            assert forall|x: K::V| #[trigger]
                all.remove(i as int).contains(x) == (all.contains(x) && x != key@) by {
                let rest = all.remove(i as int);
                if rest.contains(x) {
                    let j = choose|j: int| 0 <= j < rest.len() && rest[j] == x;
                    let k = if j < i { j } else { j + 1 };
                    assert(all[k] == x);
                }
                if all.contains(x) && x != key@ {
                    let j = choose|j: int| 0 <= j < all.len() && all[j] == x;
                    let k = if j < i { j } else { j - 1 };
                    assert(rest[k] == x);
                }
            }
            assert(all.contains(key@));
        }
        self.items = items;
        assert(self@ =~= old(self)@.remove(key@));
        true
    }

    /// The number of members.
    pub fn len(&self) -> (n: usize)
        ensures
            n == self.members().len(),
    {
        self.items.len()
    }

    pub fn is_empty(&self) -> (b: bool)
        ensures
            b == (self@ =~= Set::<K::V>::empty()),
    {
        let b = self.items.len() == 0;
        proof {
            if !b {
                assert(self@.contains(views(self.items@)[0]));
            } else {
                assert(self@ =~= Set::<K::V>::empty());
            }
        }
        b
    }

    /// The member at a position.
    pub fn at(&self, i: usize) -> (r: &K)
        requires
            i < self.members().len(),
        ensures
            r@ == self.members()[i as int],
    {
        &self.items[i]
    }

    /// The members listed once each are exactly the elements of the set.
    pub fn members_of(&self) -> (r: Vec<K>)
        ensures
            views(r@) == self.members(),
            views(r@).no_duplicates(),
            views(r@).to_set() == self@,
    {
        proof {
            use_type_invariant(self);
        }
        let mut out: Vec<K> = Vec::new();
        let mut i: usize = 0;
        while i < self.items.len()
            invariant
                i <= self.items.len(),
                views(out@) == views(self.items@).take(i as int),
            decreases self.items.len() - i,
        {
            let k = self.items[i].copy();
            let ghost before = out@;
            out.push(k);
            assert(views(out@) =~= views(before).push(k@));
            assert(views(out@) =~= views(self.items@).take(i + 1));
            i += 1;
        }
        assert(views(self.items@).take(i as int) =~= views(self.items@));
        out
    }

    pub fn copy_set(&self) -> (r: Self)
        ensures
            r@ == self@,
            r.members() == self.members(),
    {
        KeySet { items: self.members_of() }
    }
}

/// A finite map from keys to values.
pub struct AssocMap<K: Key, V: View> {
    entries: Vec<(K, V)>,
}

/// The position of a key among entries, or the number of entries when it is absent.
spec fn slot<K: Key, V: View>(entries: Seq<(K, V)>, key: K::V) -> int
    decreases entries.len(),
{
    if entries.len() == 0 {
        0
    } else {
        let rest = slot(entries.drop_last(), key);
        if rest < entries.len() - 1 {
            rest
        } else if entries.last().0@ == key {
            entries.len() - 1
        } else {
            entries.len() as int
        }
    }
}

proof fn lemma_slot<K: Key, V: View>(entries: Seq<(K, V)>, key: K::V)
    ensures
        0 <= slot(entries, key) <= entries.len(),
        slot(entries, key) < entries.len() ==> entries[slot(entries, key)].0@ == key,
        forall|j: int| 0 <= j < slot(entries, key) ==> entries[j].0@ != key,
    decreases entries.len(),
{
    if entries.len() > 0 {
        lemma_slot(entries.drop_last(), key);
        assert forall|j: int| 0 <= j < slot(entries, key) implies entries[j].0@ != key by {
            if j < entries.len() - 1 {
                assert(entries.drop_last()[j] == entries[j]);
            }
        }
    }
}

impl<K: Key, V: View> View for AssocMap<K, V> {
    type V = Map<K::V, V::V>;

    closed spec fn view(&self) -> Map<K::V, V::V> {
        Map::new(
            |k: K::V| slot(self.entries@, k) < self.entries@.len(),
            |k: K::V| self.entries@[slot(self.entries@, k)].1@,
        )
    }
}

impl<K: Key, V: View> AssocMap<K, V> {
    /// No key is held twice.
    #[verifier::type_invariant]
    closed spec fn distinct(self) -> bool {
        forall|i: int, j: int|
            0 <= i < j < self.entries@.len() ==> (#[trigger] self.entries@[i]).0@ != (
            #[trigger] self.entries@[j]).0@
    }

    /// The keys in insertion order.
    pub closed spec fn order(&self) -> Seq<K::V> {
        self.entries@.map_values(|e: (K, V)| e.0@)
    }

    /// Every key of the map is listed once in its order, and nothing else is.
    proof fn lemma_order(&self)
        requires
            self.distinct(),
        ensures
            self.order().no_duplicates(),
            forall|k: K::V| #[trigger] self.order().contains(k) == self@.contains_key(k),
    {
        assert forall|k: K::V| #[trigger] self.order().contains(k) == self@.contains_key(k) by {
            lemma_slot(self.entries@, k);
            if self.order().contains(k) {
                let i = choose|i: int| 0 <= i < self.order().len() && self.order()[i] == k;
                assert(self.entries@[i].0@ == k);
            }
            if self@.contains_key(k) {
                assert(self.order()[slot(self.entries@, k)] == k);
            }
        }
    }

    /// A map holds finitely many keys.
    pub proof fn lemma_finite(&self)
        ensures
            self@.dom().finite(),
    {
        assert forall|k: K::V| #[trigger] self@.dom().contains(k) implies self.order().to_set().contains(
            k,
        ) by {
            lemma_slot(self.entries@, k);
            assert(self.order()[slot(self.entries@, k)] == k);
        }
        vstd::seq_lib::seq_to_set_is_finite(self.order());
        vstd::set_lib::lemma_set_subset_finite(self.order().to_set(), self@.dom());
    }

    pub fn new() -> (r: Self)
        ensures
            r@ == Map::<K::V, V::V>::empty(),
    {
        let r = AssocMap { entries: Vec::new() };
        assert(r@ =~= Map::<K::V, V::V>::empty());
        r
    }

    fn find(&self, key: &K) -> (r: Option<usize>)
        ensures
            match r {
                Some(i) => i < self.entries@.len() && i == slot(self.entries@, key@)
                    && self.entries@[i as int].0@ == key@,
                None => slot(self.entries@, key@) == self.entries@.len(),
            },
    {
        let mut i: usize = 0;
        proof {
            lemma_slot(self.entries@, key@);
        }
        while i < self.entries.len()
            invariant
                i <= self.entries.len(),
                0 <= slot(self.entries@, key@) <= self.entries@.len(),
                slot(self.entries@, key@) < self.entries@.len() ==> self.entries@[slot(
                    self.entries@,
                    key@,
                )].0@ == key@,
                forall|j: int| 0 <= j < slot(self.entries@, key@) ==> self.entries@[j].0@ != key@,
                forall|j: int| 0 <= j < i ==> self.entries@[j].0@ != key@,
            decreases self.entries.len() - i,
        {
            if self.entries[i].0.same(key) {
                return Some(i);
            }
            i += 1;
        }
        None
    }

    pub fn contains_key(&self, key: &K) -> (b: bool)
        ensures
            b == self@.contains_key(key@),
    {
        self.find(key).is_some()
    }

    pub fn get(&self, key: &K) -> (r: Option<&V>)
        ensures
            match r {
                Some(v) => self@.contains_key(key@) && v@ == self@[key@],
                None => !self@.contains_key(key@),
            },
    {
        match self.find(key) {
            Some(i) => Some(&self.entries[i].1),
            None => None,
        }
    }

    /// Takes an entry out.
    pub fn remove(&mut self, key: &K) -> (r: Option<V>)
        ensures
            final(self)@ == old(self)@.remove(key@),
            match r {
                Some(v) => old(self)@.contains_key(key@) && v@ == old(self)@[key@],
                None => !old(self)@.contains_key(key@),
            },
    {
        match self.find(key) {
            Some(i) => {
                proof {
                    use_type_invariant(&*self);
                }
                let mut entries: Vec<(K, V)> = Vec::new();
                std::mem::swap(&mut entries, &mut self.entries);
                let ghost before = entries@;
                let (_k, v) = entries.remove(i);
                proof {
                    assert forall|k: K::V|
                        (slot(entries@, k) < entries@.len()) == (slot(before, k) < before.len() && k
                            != key@) && (slot(entries@, k) < entries@.len() ==> entries@[slot(
                            entries@,
                            k,
                        )].1@ == before[slot(before, k)].1@) by {
                        lemma_slot(before, k);
                        lemma_slot(entries@, k);
                        let b = slot(before, k);
                        let a = slot(entries@, k);
                        if b < before.len() && k != key@ {
                            let t = if b < i { b } else { b - 1 };
                            assert(entries@[t] == before[b]);
                        }
                        if a < entries@.len() {
                            let t = if a < i { a } else { a + 1 };
                            assert(entries@[a] == before[t]);
                            assert(before[t].0@ == k);
                            assert(before[i as int].0@ == key@);
                        }
                    }
                }
                self.entries = entries;
                assert(self@ =~= old(self)@.remove(key@));
                Some(v)
            },
            None => {
                assert(self@ =~= old(self)@.remove(key@));
                None
            },
        }
    }

    /// Sets the value of a key. A new key goes to the end of the order.
    pub fn insert(&mut self, key: K, value: V)
        ensures
            final(self)@ == old(self)@.insert(key@, value@),
    {
        let _ = self.remove(&key);
        proof {
            use_type_invariant(&*self);
        }
        let ghost middle = self@;
        let mut entries: Vec<(K, V)> = Vec::new();
        std::mem::swap(&mut entries, &mut self.entries);
        let ghost before = entries@;
        let ghost kv = key@;
        let ghost vv = value@;
        proof {
            lemma_slot(before, kv);
            assert(!middle.contains_key(kv));
        }
        entries.push((key, value));
        proof {
            assert(entries@.drop_last() =~= before);
            assert forall|i: int| 0 <= i < before.len() implies (#[trigger] before[i]).0@ != kv by {}
        }
        self.entries = entries;
        proof {
            let now = self.entries@;
            assert forall|k: K::V|
                (slot(now, k) < now.len()) == (slot(before, k) < before.len() || k == kv) && (slot(
                    now,
                    k,
                ) < now.len() ==> now[slot(now, k)].1@ == if k == kv {
                    vv
                } else {
                    before[slot(before, k)].1@
                }) by {
                lemma_slot(before, k);
                assert(now.drop_last() =~= before);
                assert(now.last().0@ == kv);
            }
        }
        assert(self@ =~= middle.insert(kv, vv));
        assert(middle.insert(kv, vv) =~= old(self)@.insert(kv, vv));
    }

    pub fn len(&self) -> (n: usize)
        ensures
            n == self.order().len(),
    {
        self.entries.len()
    }

    pub fn clear(&mut self)
        ensures
            final(self)@ == Map::<K::V, V::V>::empty(),
    {
        self.entries = Vec::new();
        assert(self@ =~= Map::<K::V, V::V>::empty());
    }

    /// The keys, each listed once.
    pub fn keys(&self) -> (r: Vec<K>)
        ensures
            views(r@) == self.order(),
            views(r@).no_duplicates(),
            forall|k: K::V| #[trigger] views(r@).contains(k) == self@.contains_key(k),
    {
        proof {
            use_type_invariant(self);
            self.lemma_order();
        }
        let mut out: Vec<K> = Vec::new();
        let mut i: usize = 0;
        while i < self.entries.len()
            invariant
                i <= self.entries.len(),
                views(out@) == self.order().take(i as int),
            decreases self.entries.len() - i,
        {
            let k = self.entries[i].0.copy();
            let ghost before = out@;
            out.push(k);
            assert(views(out@) =~= views(before).push(k@));
            assert(views(out@) =~= self.order().take(i + 1));
            i += 1;
        }
        assert(self.order().take(i as int) =~= self.order());
        out
    }

    /// Keeps the entries that a test accepts.
    pub fn retain<F: Fn(&K, &V) -> bool>(
        &mut self,
        test: F,
        Ghost(keep): Ghost<spec_fn(K::V, V::V) -> bool>,
    )
        requires
            forall|k: &K, v: &V| #[trigger] test.requires((k, v)),
            forall|k: &K, v: &V, b: bool| #[trigger]
                test.ensures((k, v), b) ==> b == keep(k@, v@),
        ensures
            final(self)@ == kept(old(self)@, keep),
    {
        let keys = self.keys();
        let ghost all = self@;
        let mut i: usize = 0;
        assert(views(keys@).skip(0) =~= views(keys@));
        while i < keys.len()
            invariant
                i <= keys.len(),
                views(keys@).no_duplicates(),
                forall|k: K::V| #[trigger] views(keys@).contains(k) == all.contains_key(k),
                forall|k: &K, v: &V| #[trigger] test.requires((k, v)),
                forall|k: &K, v: &V, b: bool| #[trigger]
                    test.ensures((k, v), b) ==> b == keep(k@, v@),
                forall|k: K::V| #[trigger]
                    self@.contains_key(k) == (all.contains_key(k) && (views(keys@).skip(
                        i as int,
                    ).contains(k) || keep(k, all[k]))),
                forall|k: K::V| #[trigger] self@.contains_key(k) ==> self@[k] == all[k],
            decreases keys.len() - i,
        {
            let ghost kv = keys@[i as int]@;
            let ghost left = views(keys@).skip(i as int);
            let ghost right = views(keys@).skip(i + 1);
            proof {
                assert(left[0] == kv);
                assert(views(keys@).contains(views(keys@)[i as int]));
                assert forall|k: K::V| #[trigger] left.contains(k) == (k == kv || right.contains(k)) by {
                    if left.contains(k) {
                        let j = choose|j: int| 0 <= j < left.len() && left[j] == k;
                        if j > 0 {
                            assert(right[j - 1] == k);
                        }
                    }
                    if right.contains(k) {
                        let j = choose|j: int| 0 <= j < right.len() && right[j] == k;
                        assert(left[j + 1] == k);
                    }
                }
                assert(!right.contains(kv)) by {
                    if right.contains(kv) {
                        let j = choose|j: int| 0 <= j < right.len() && right[j] == kv;
                        assert(views(keys@)[i + 1 + j] == views(keys@)[i as int]);
                    }
                }
            }
            let drop_it = match self.get(&keys[i]) {
                Some(v) => !test(&keys[i], v),
                None => false,
            };
            if drop_it {
                let _ = self.remove(&keys[i]);
            }
            i += 1;
        }
        proof {
            assert(views(keys@).skip(i as int).len() == 0);
        }
        assert(self@ =~= kept(all, keep));
    }
}

/// The part of a map whose entries a predicate accepts.
pub open spec fn kept<K, V>(m: Map<K, V>, keep: spec_fn(K, V) -> bool) -> Map<K, V> {
    Map::new(|k: K| m.contains_key(k) && keep(k, m[k]), |k: K| m[k])
}

} // verus!
