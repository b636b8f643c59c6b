use vstd::prelude::*;

verus! {

/// A value that can be told apart from others of its type by a key.
pub trait Keyed: Sized {
    type Key;
    type Form;

    /// What two equal values share.
    spec fn key(&self) -> Self::Key;

    /// What the value holds. Equal values may be written differently.
    spec fn form(&self) -> Self::Form;

    /// Whether the value can be compared.
    spec fn comparable(&self) -> bool;

    /// Whether two values are equal.
    fn same(&self, other: &Self) -> (equal: bool)
        requires
            self.comparable(),
            other.comparable(),
        ensures
            equal == (self.key() == other.key()),
    ;

    /// The same value again.
    fn duplicate(&self) -> (copy: Self)
        ensures
            copy.key() == self.key(),
            copy.form() == self.form(),
            copy.comparable() == self.comparable(),
    ;
}

impl Keyed for String {
    type Key = Seq<char>;
    type Form = Seq<char>;

    open spec fn key(&self) -> Seq<char> {
        self@
    }

    open spec fn form(&self) -> Seq<char> {
        self@
    }

    open spec fn comparable(&self) -> bool {
        true
    }

    fn same(&self, other: &Self) -> (equal: bool) {
        *self == *other
    }

    fn duplicate(&self) -> (copy: Self) {
        self.clone()
    }
}

impl Keyed for u64 {
    type Key = u64;
    type Form = u64;

    open spec fn key(&self) -> u64 {
        *self
    }

    open spec fn form(&self) -> u64 {
        *self
    }

    open spec fn comparable(&self) -> bool {
        true
    }

    fn same(&self, other: &Self) -> (equal: bool) {
        *self == *other
    }

    fn duplicate(&self) -> (copy: Self) {
        *self
    }
}

impl<A: Keyed, B: Keyed> Keyed for (A, B) {
    type Key = (A::Key, B::Key);
    type Form = (A::Form, B::Form);

    open spec fn key(&self) -> (A::Key, B::Key) {
        (self.0.key(), self.1.key())
    }

    open spec fn form(&self) -> (A::Form, B::Form) {
        (self.0.form(), self.1.form())
    }

    open spec fn comparable(&self) -> bool {
        self.0.comparable() && self.1.comparable()
    }

    fn same(&self, other: &Self) -> (equal: bool) {
        self.0.same(&other.0) && self.1.same(&other.1)
    }

    fn duplicate(&self) -> (copy: Self) {
        (self.0.duplicate(), self.1.duplicate())
    }
}

/// The key of an optional value.
pub open spec fn option_key<T: Keyed>(value: Option<T>) -> Option<T::Key> {
    match value {
        Some(value) => Some(value.key()),
        None => None,
    }
}

/// What an optional value holds.
pub open spec fn option_form<T: Keyed>(value: Option<T>) -> Option<T::Form> {
    match value {
        Some(value) => Some(value.form()),
        None => None,
    }
}

/// Whether two optional values are equal.
pub fn option_same<T: Keyed>(left: &Option<T>, right: &Option<T>) -> (equal: bool)
    requires
        *left matches Some(value) ==> value.comparable(),
        *right matches Some(value) ==> value.comparable(),
    ensures
        equal == (option_key(*left) == option_key(*right)),
{
    match (left, right) {
        (Some(left), Some(right)) => left.same(right),
        (None, None) => true,
        _ => false,
    }
}

/// The same optional value again.
pub fn option_duplicate<T: Keyed>(value: &Option<T>) -> (copy: Option<T>)
    ensures
        option_key(copy) == option_key(*value),
        option_form(copy) == option_form(*value),
        *value matches Some(value) ==> (copy->0).comparable() == value.comparable(),
{
    match value {
        Some(value) => Some(value.duplicate()),
        None => None,
    }
}

/// The keys of a sequence of values, in order.
pub open spec fn keys<T: Keyed>(items: Seq<T>) -> Seq<T::Key> {
    items.map_values(|item: T| item.key())
}

/// What the values of a sequence hold, in order.
pub open spec fn forms<T: Keyed>(items: Seq<T>) -> Seq<T::Form> {
    items.map_values(|item: T| item.form())
}

/// What those values of a sequence hold that are not known, in order.
pub open spec fn new_forms<T: Keyed>(known: Set<T::Key>, items: Seq<T>) -> Seq<T::Form>
    decreases items.len(),
{
    if items.len() == 0 {
        Seq::empty()
    } else {
        let before = new_forms(known, items.drop_last());
        if known.contains(items.last().key()) {
            before
        } else {
            before.push(items.last().form())
        }
    }
}

/// Of the values of a sequence, those that are not known are new, all of them, in order.
pub proof fn law_new_values_are_those_that_are_not_known<T: Keyed>(
    known: Set<T::Key>,
    items: Seq<T>,
)
    ensures
        new_forms(known, items) == forms(items.filter(|item: T| !known.contains(item.key()))),
    decreases items.len(),
{
    reveal(Seq::filter);
    let new = |item: T| !known.contains(item.key());
    if items.len() == 0 {
        assert(forms(items) =~= Seq::empty());
    } else {
        law_new_values_are_those_that_are_not_known(known, items.drop_last());
        let before = items.drop_last().filter(new);
        if new(items.last()) {
            assert(forms(before.push(items.last())) =~= forms(before).push(items.last().form()));
        }
    }
    assert(new_forms(known, items) =~= forms(items.filter(new)));
}

/// A set of values, no two of them equal, in the order in which they came.
pub struct KeyedSet<T: Keyed> {
    items: Vec<T>,
}

impl<T: Keyed> View for KeyedSet<T> {
    type V = Set<T::Key>;

    open spec fn view(&self) -> Set<T::Key> {
        keys(self.in_order()).to_set()
    }
}

impl<T: Keyed> KeyedSet<T> {
    /// The items in the order in which they came.
    pub closed spec fn in_order(&self) -> Seq<T> {
        self.items@
    }

    /// Whether the set is well formed: its items can be compared, and no two are equal.
    pub open spec fn wf(&self) -> bool {
        &&& forall|i: int|
            0 <= i < self.in_order().len() ==> (#[trigger] self.in_order()[i]).comparable()
        &&& keys(self.in_order()).no_duplicates()
    }

    /// The set without items.
    pub fn new() -> (set: Self)
        ensures
            set.wf(),
            set@ == Set::<T::Key>::empty(),
            set.in_order() == Seq::<T>::empty(),
    {
        let set = KeyedSet { items: Vec::new() };
        assert(set@ =~= Set::<T::Key>::empty());
        set
    }

    /// Whether an item is equal to `item`.
    pub fn contains(&self, item: &T) -> (found: bool)
        requires
            self.wf(),
            item.comparable(),
        ensures
            found == self@.contains(item.key()),
    {
        for i in 0..self.items.len()
            invariant
                self.wf(),
                item.comparable(),
                forall|j: int| 0 <= j < i ==> (#[trigger] self.in_order()[j]).key() != item.key(),
        {
            assert(self.in_order()[i as int].comparable());
            if self.items[i].same(item) {
                assert(keys(self.in_order())[i as int] == item.key());
                return true;
            }
        }
        assert forall|j: int| 0 <= j < keys(self.in_order()).len() implies #[trigger] keys(
            self.in_order(),
        )[j] != item.key() by {
            assert(self.in_order()[j].key() != item.key());
        }
        false
    }

    /// Add an item, unless one that is equal to it is already there. Returns whether it was added.
    pub fn insert(&mut self, item: T) -> (added: bool)
        requires
            old(self).wf(),
            item.comparable(),
        ensures
            final(self).wf(),
            final(self)@ == old(self)@.insert(item.key()),
            added == !old(self)@.contains(item.key()),
            final(self).in_order() == if old(self)@.contains(item.key()) {
                old(self).in_order()
            } else {
                old(self).in_order().push(item)
            },
    {
        if self.contains(&item) {
            assert(self@ =~= self@.insert(item.key()));
            return false;
        }
        let ghost before = keys(self.in_order());
        let ghost key = item.key();
        self.items.push(item);
        proof {
            let after = keys(self.in_order());
            assert(after =~= before.push(key));
            lemma_push_set(before, key);
        }
        true
    }

    /// Add each item of another set, unless one that is equal to it is already there.
    pub fn extend(&mut self, other: KeyedSet<T>)
        requires
            old(self).wf(),
            other.wf(),
        ensures
            final(self).wf(),
            final(self)@ == old(self)@.union(other@),
            forms(final(self).in_order()) == forms(old(self).in_order()) + new_forms(
                old(self)@,
                other.in_order(),
            ),
    {
        let ghost start = self@;
        let ghost first = forms(self.in_order());
        let ghost all = other.in_order();
        let ghost added = keys(other.in_order());
        assert(self@ =~= start.union(added.take(0).to_set()));
        assert(first =~= first + new_forms(start, all.take(0)));
        for i in 0..other.items.len()
            invariant
                self.wf(),
                other.wf(),
                all == other.in_order(),
                added == keys(other.in_order()),
                self@ == start.union(added.take(i as int).to_set()),
                forms(self.in_order()) == first + new_forms(start, all.take(i as int)),
        {
            assert(other.in_order()[i as int].comparable());
            let ghost before = self.in_order();
            let item = other.items[i].duplicate();
            proof {
                assert(all.take(i + 1).drop_last() =~= all.take(i as int));
                assert(added[i as int] == item.key());
                if added.take(i as int).to_set().contains(item.key()) {
                    let j = choose|j: int|
                        0 <= j < i && added.take(i as int)[j] == item.key();
                    assert(added[j] == added[i as int]);
                }
                assert(forms(before.push(item)) =~= forms(before).push(item.form()));
                assert((first + new_forms(start, all.take(i as int))).push(item.form()) =~= first
                    + new_forms(start, all.take(i as int)).push(item.form()));
            }
            self.insert(item);
            proof {
                assert(added.take(i + 1) =~= added.take(i as int).push(added[i as int]));
                lemma_push_set(added.take(i as int), added[i as int]);
                assert(self@ =~= start.union(added.take(i + 1).to_set()));
            }
        }
        assert(added.take(added.len() as int) =~= added);
        assert(all.take(all.len() as int) =~= all);
    }

    /// The same set again, with its items in the same order.
    pub fn duplicate(&self) -> (copy: Self)
        requires
            self.wf(),
        ensures
            copy.wf(),
            copy@ == self@,
            keys(copy.in_order()) == keys(self.in_order()),
            forms(copy.in_order()) == forms(self.in_order()),
    {
        let mut items: Vec<T> = Vec::new();
        for i in 0..self.items.len()
            invariant
                self.wf(),
                items@.len() == i,
                forall|j: int| 0 <= j < i ==> (#[trigger] items@[j]).comparable(),
                keys(items@) == keys(self.in_order()).take(i as int),
                forms(items@) == forms(self.in_order()).take(i as int),
        {
            assert(self.in_order()[i as int].comparable());
            let ghost before = items@;
            items.push(self.items[i].duplicate());
            proof {
                assert(forms(items@) =~= forms(self.in_order()).take(i + 1)) by {
                    assert forall|j: int| 0 <= j < i + 1 implies #[trigger] forms(items@)[j]
                        == forms(self.in_order())[j] by {
                        if j < i {
                            assert(forms(items@)[j] == forms(before)[j]);
                        }
                    }
                }
                assert(keys(items@) =~= keys(self.in_order()).take(i + 1)) by {
                    assert forall|j: int| 0 <= j < i + 1 implies #[trigger] keys(items@)[j] == keys(
                        self.in_order(),
                    )[j] by {
                        if j < i {
                            assert(keys(items@)[j] == keys(before)[j]);
                        }
                    }
                }
            }
        }
        let copy = KeyedSet { items };
        assert(keys(copy.in_order()) =~= keys(self.in_order()));
        assert(forms(copy.in_order()) =~= forms(self.in_order()));
        copy
    }

    /// The items, in the order in which they came.
    pub fn items(&self) -> (items: &Vec<T>)
        ensures
            items@ == self.in_order(),
    {
        &self.items
    }
}

/// A value that can be copied without change.
pub trait Copied: Sized {
    /// The same value again.
    fn copied(&self) -> (copy: Self)
        ensures
            copy == *self,
    ;
}

/// A map from keys to values, no two keys of which are equal.
pub struct KeyedMap<K: Keyed, V> {
    entries: Vec<(K, V)>,
}

impl<K: Keyed, V> View for KeyedMap<K, V> {
    type V = Map<K::Key, V>;

    open spec fn view(&self) -> Map<K::Key, V> {
        Map::new(
            |key: K::Key| exists|i: int| self.holds_at(i, key),
            |key: K::Key| self.in_order()[choose|i: int| self.holds_at(i, key)].1,
        )
    }
}

impl<K: Keyed, V> KeyedMap<K, V> {
    /// The entries in the order in which their keys came.
    pub closed spec fn in_order(&self) -> Seq<(K, V)> {
        self.entries@
    }

    /// Whether the entry at `i` is that of the key.
    pub open spec fn holds_at(&self, i: int, key: K::Key) -> bool {
        0 <= i < self.in_order().len() && self.in_order()[i].0.key() == key
    }

    /// Whether the map is well formed: its keys can be compared, and no two are equal.
    pub open spec fn wf(&self) -> bool {
        &&& forall|i: int|
            0 <= i < self.in_order().len() ==> (#[trigger] self.in_order()[i]).0.comparable()
        &&& forall|i: int, j: int|
            0 <= i < j < self.in_order().len() ==> (#[trigger] self.in_order()[i]).0.key() != (
            #[trigger] self.in_order()[j]).0.key()
    }

    /// The value of a key is that of its entry.
    proof fn lemma_entry(&self, i: int)
        requires
            self.wf(),
            0 <= i < self.in_order().len(),
        ensures
            self@.dom().contains(self.in_order()[i].0.key()),
            self@[self.in_order()[i].0.key()] == self.in_order()[i].1,
    {
        let key = self.in_order()[i].0.key();
        assert(self.holds_at(i, key));
        let j = choose|j: int| self.holds_at(j, key);
        assert(self.in_order()[i].0.key() == self.in_order()[j].0.key());
    }

    /// The map without entries.
    pub fn new() -> (map: Self)
        ensures
            map.wf(),
            map@ == Map::<K::Key, V>::empty(),
    {
        let map = KeyedMap { entries: Vec::new() };
        assert(map@ =~= Map::<K::Key, V>::empty());
        map
    }

    /// Where the entry of the key is.
    fn position(&self, key: &K) -> (position: Option<usize>)
        requires
            self.wf(),
            key.comparable(),
        ensures
            position matches Some(i) ==> self.holds_at(i as int, key.key()),
            position is None ==> !self@.dom().contains(key.key()),
    {
        for i in 0..self.entries.len()
            invariant
                self.wf(),
                key.comparable(),
                forall|j: int| 0 <= j < i ==> !#[trigger] self.holds_at(j, key.key()),
        {
            assert(self.in_order()[i as int].0.comparable());
            if self.entries[i].0.same(key) {
                return Some(i);
            }
        }
        None
    }

    /// The value of a key.
    pub fn get(&self, key: &K) -> (value: Option<&V>)
        requires
            self.wf(),
            key.comparable(),
        ensures
            value is Some <==> self@.dom().contains(key.key()),
            value matches Some(value) ==> *value == self@[key.key()],
    {
        match self.position(key) {
            Some(i) => {
                proof {
                    self.lemma_entry(i as int);
                }
                Some(&self.entries[i].1)
            },
            None => None,
        }
    }

    /// Give a key a value, in place of the one it had.
    pub fn insert(&mut self, key: K, value: V)
        requires
            old(self).wf(),
            key.comparable(),
        ensures
            final(self).wf(),
            final(self)@ == old(self)@.insert(key.key(), value),
    {
        let ghost before = *self;
        let ghost inserted = key.key();
        match self.position(&key) {
            Some(i) => {
                let (kept, _) = self.entries.swap_remove(i);
                proof {
                    assert(kept.key() == inserted);
                }
                self.entries.push((kept, value));
                proof {
                    lemma_swapped(before, *self, i as int, value);
                }
            },
            None => {
                self.entries.push((key, value));
                proof {
                    lemma_appended(before, *self, key, value);
                }
            },
        }
    }

    /// Take over every entry of another map, in place of those with the same keys.
    pub fn extend(&mut self, other: KeyedMap<K, V>)
        requires
            old(self).wf(),
            other.wf(),
        ensures
            final(self).wf(),
            final(self)@ == old(self)@.union_prefer_right(other@),
    {
        let ghost start = self@;
        let ghost all = other;
        let mut rest = other;
        proof {
            assert forall|key: K::Key| #[trigger] self@.dom().contains(key) == (
            start.dom().contains(key) || taken(all, rest, key)) by {}
        }
        while rest.entries.len() > 0
            invariant
                self.wf(),
                rest.wf(),
                all.wf(),
                rest.in_order() == all.in_order().take(rest.in_order().len() as int),
                rest.in_order().len() <= all.in_order().len(),
                forall|key: K::Key|
                    #[trigger] self@.dom().contains(key) == (start.dom().contains(key) || taken(
                        all,
                        rest,
                        key,
                    )),
                forall|key: K::Key|
                    self@.dom().contains(key) ==> #[trigger] self@[key] == (if taken(
                        all,
                        rest,
                        key,
                    ) {
                        all@[key]
                    } else {
                        start[key]
                    }),
            decreases rest.in_order().len(),
        {
            let ghost before = *self;
            let ghost longer = rest;
            let ghost n = rest.in_order().len() - 1;
            assert(all.in_order()[n] == rest.in_order()[n]);
            assert(rest.in_order()[n].0.comparable());
            let (key, value) = rest.entries.pop().unwrap();
            self.insert(key, value);
            proof {
                all.lemma_entry(n);
                assert(rest.in_order() =~= all.in_order().take(n));
                assert forall|i: int, j: int|
                    0 <= i < j < rest.in_order().len() implies (
                #[trigger] rest.in_order()[i]).0.key() != (
                #[trigger] rest.in_order()[j]).0.key() by {
                    assert(longer.in_order()[i] == rest.in_order()[i]);
                    assert(longer.in_order()[j] == rest.in_order()[j]);
                }
                assert forall|i: int| 0 <= i < rest.in_order().len() implies (
                #[trigger] rest.in_order()[i]).0.comparable() by {
                    assert(longer.in_order()[i] == rest.in_order()[i]);
                }
                assert forall|other: K::Key| taken(all, rest, other) == (#[trigger] taken(
                    all,
                    longer,
                    other,
                ) || other == key.key()) by {
                    if taken(all, longer, other) {
                        let i = choose|i: int|
                            longer.in_order().len() <= i && all.holds_at(i, other);
                        assert(all.holds_at(i, other));
                    }
                    assert(all.holds_at(n, key.key()));
                }
            }
        }
        proof {
            assert forall|key: K::Key| #[trigger] taken(all, rest, key) == all@.dom().contains(
                key,
            ) by {}
            assert(self@ =~= start.union_prefer_right(all@));
        }
    }
}

/// Whether the entry of the key has left `rest` for the other map.
spec fn taken<K: Keyed, V>(all: KeyedMap<K, V>, rest: KeyedMap<K, V>, key: K::Key) -> bool {
    exists|i: int| rest.in_order().len() <= i && #[trigger] all.holds_at(i, key)
}

/// A new entry at the end of a map.
proof fn lemma_appended<K: Keyed, V>(
    before: KeyedMap<K, V>,
    after: KeyedMap<K, V>,
    key: K,
    value: V,
)
    requires
        before.wf(),
        key.comparable(),
        !before@.dom().contains(key.key()),
        after.in_order() == before.in_order().push((key, value)),
    ensures
        after.wf(),
        after@ == before@.insert(key.key(), value),
{
    let n = before.in_order().len() as int;
    assert forall|i: int| 0 <= i < n implies (#[trigger] after.in_order()[i]).0.key()
        != key.key() by {
        assert(before.holds_at(i, before.in_order()[i].0.key()));
    }
    assert forall|i: int| 0 <= i < after.in_order().len() implies (
    #[trigger] after.in_order()[i]).0.comparable() by {
        if i < n {
            assert(before.in_order()[i].0.comparable());
        }
    }
    assert forall|i: int, j: int| 0 <= i < j < after.in_order().len() implies (
    #[trigger] after.in_order()[i]).0.key() != (#[trigger] after.in_order()[j]).0.key() by {
        if j < n {
            assert(before.in_order()[i].0.key() != before.in_order()[j].0.key());
        }
    }
    assert forall|other: K::Key| #[trigger]
        after@.dom().contains(other) == before@.insert(key.key(), value).dom().contains(other) by {
        if after@.dom().contains(other) {
            let i = choose|i: int| after.holds_at(i, other);
            if i < n {
                assert(before.holds_at(i, other));
            }
        }
        if before@.dom().contains(other) {
            let i = choose|i: int| before.holds_at(i, other);
            assert(after.holds_at(i, other));
        }
        assert(after.holds_at(n, key.key()));
    }
    assert forall|other: K::Key| after@.dom().contains(other) implies #[trigger] after@[other]
        == before@.insert(key.key(), value)[other] by {
        let i = choose|i: int| after.holds_at(i, other);
        after.lemma_entry(i);
        if i < n {
            before.lemma_entry(i);
        }
    }
    assert(after@ =~= before@.insert(key.key(), value));
}

/// The entry at `i` is replaced by one with an equal key, at the end of the map.
proof fn lemma_swapped<K: Keyed, V>(
    before: KeyedMap<K, V>,
    after: KeyedMap<K, V>,
    i: int,
    value: V,
)
    requires
        before.wf(),
        0 <= i < before.in_order().len(),
        after.in_order() == before.in_order().update(i, before.in_order().last()).drop_last().push(
            (before.in_order()[i].0, value),
        ),
    ensures
        after.wf(),
        after@ == before@.insert(before.in_order()[i].0.key(), value),
{
    let n = before.in_order().len() - 1;
    let key = before.in_order()[i].0.key();
    assert forall|j: int| 0 <= j <= n implies #[trigger] after.in_order()[j].0
        == before.in_order()[(if j == i {
        n
    } else if j == n {
        i
    } else {
        j
    })].0 by {}
    assert forall|j: int| 0 <= j < after.in_order().len() implies (
    #[trigger] after.in_order()[j]).0.comparable() by {
        let k = if j == i { n } else if j == n { i } else { j };
        assert(before.in_order()[k].0.comparable());
    }
    assert forall|j: int, k: int| 0 <= j < k < after.in_order().len() implies (
    #[trigger] after.in_order()[j]).0.key() != (#[trigger] after.in_order()[k]).0.key() by {
        let a = if j == i { n } else if j == n { i } else { j };
        let b = if k == i { n } else if k == n { i } else { k };
        assert(a != b);
        assert(before.in_order()[a].0.key() != before.in_order()[b].0.key());
    }
    assert forall|other: K::Key| #[trigger]
        after@.dom().contains(other) == before@.insert(key, value).dom().contains(other) by {
        if after@.dom().contains(other) {
            let j = choose|j: int| after.holds_at(j, other);
            let a = if j == i { n } else if j == n { i } else { j };
            assert(before.holds_at(a, other));
        }
        if before@.dom().contains(other) {
            let j = choose|j: int| before.holds_at(j, other);
            let a = if j == i { n } else if j == n { i } else { j };
            assert(after.holds_at(a, other));
        }
        assert(after.holds_at(n, key));
    }
    assert forall|other: K::Key| after@.dom().contains(other) implies #[trigger] after@[other]
        == before@.insert(key, value)[other] by {
        let j = choose|j: int| after.holds_at(j, other);
        after.lemma_entry(j);
        if j != n {
            let a = if j == i { n } else { j };
            before.lemma_entry(a);
        }
    }
    assert(after@ =~= before@.insert(key, value));
}

impl<K: Keyed, V: Copied> KeyedMap<K, V> {
    /// A map with the same entries.
    pub fn duplicate(&self) -> (copy: Self)
        requires
            self.wf(),
        ensures
            copy.wf(),
            copy@ == self@,
    {
        let mut copy: KeyedMap<K, V> = KeyedMap { entries: Vec::new() };
        for i in 0..self.entries.len()
            invariant
                self.wf(),
                copy.in_order().len() == i,
                forall|j: int|
                    0 <= j < i ==> (#[trigger] copy.in_order()[j]).0.key()
                        == self.in_order()[j].0.key() && copy.in_order()[j].0.comparable()
                        && copy.in_order()[j].1 == self.in_order()[j].1,
        {
            assert(self.in_order()[i as int].0.comparable());
            copy.entries.push((self.entries[i].0.duplicate(), self.entries[i].1.copied()));
        }
        proof {
            assert forall|i: int, j: int| 0 <= i < j < copy.in_order().len() implies (
            #[trigger] copy.in_order()[i]).0.key() != (
            #[trigger] copy.in_order()[j]).0.key() by {
                assert(self.in_order()[i].0.key() != self.in_order()[j].0.key());
            }
            assert forall|key: K::Key| #[trigger] copy@.dom().contains(key)
                == self@.dom().contains(key) by {
                if copy@.dom().contains(key) {
                    let i = choose|i: int| copy.holds_at(i, key);
                    assert(self.holds_at(i, key));
                }
                if self@.dom().contains(key) {
                    let i = choose|i: int| self.holds_at(i, key);
                    assert(copy.holds_at(i, key));
                }
            }
            assert forall|key: K::Key| copy@.dom().contains(key) implies #[trigger] copy@[key]
                == self@[key] by {
                let i = choose|i: int| copy.holds_at(i, key);
                copy.lemma_entry(i);
                self.lemma_entry(i);
            }
            assert(copy@ =~= self@);
        }
        copy
    }
}

/// Pushing an item adds it to the set of items.
pub proof fn lemma_push_set<T>(items: Seq<T>, item: T)
    ensures
        items.push(item).to_set() == items.to_set().insert(item),
{
    let longer = items.push(item);
    assert forall|x: T| longer.to_set().contains(x) == items.to_set().insert(item).contains(x) by {
        if longer.to_set().contains(x) {
            let i = choose|i: int| 0 <= i < longer.len() && longer[i] == x;
            if i < items.len() {
                assert(items[i] == x);
            }
        }
        if items.to_set().contains(x) {
            let i = choose|i: int| 0 <= i < items.len() && items[i] == x;
            assert(longer[i] == x);
        }
        assert(longer[items.len() as int] == item);
    }
    assert(longer.to_set() =~= items.to_set().insert(item));
}

} // verus!
