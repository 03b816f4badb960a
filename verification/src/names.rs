//! Sets of names and maps keyed by name.
//!
//! Both keep their names in ascending order and hold each name once, so what
//! is listed from them does not depend on how they were filled.
use vstd::prelude::*;

use crate::order::{
    le, lemma_le_antisymmetric, lemma_le_total, lemma_le_transitive, lemma_sort_by, lt, sort_by,
    strictly_sorted, text_eq, text_le,
};
use crate::text::texts;

verus! {

/// The names of `set` in ascending order.
pub open spec fn ascending(set: Set<Seq<char>>) -> Seq<Seq<char>> {
    choose|s: Seq<Seq<char>>| strictly_sorted(s) && s.to_set() == set
}

proof fn lemma_strictly_sorted_unique(a: Seq<Seq<char>>, b: Seq<Seq<char>>)
    requires
        strictly_sorted(a),
        strictly_sorted(b),
        a.to_set() == b.to_set(),
    ensures
        a == b,
    decreases a.len(),
{
    if a.len() == 0 {
        if b.len() > 0 {
            assert(b.to_set().contains(b[0]));
        }
        assert(a =~= b);
    } else {
        assert(a.to_set().contains(a[0]));
        assert(b.contains(a[0]));
        assert(b.to_set().contains(b.last()));
        assert(a.contains(b.last()));
        assert(a.to_set().contains(a.last()));
        assert(b.contains(a.last()));
        let i = choose|i: int| 0 <= i < a.len() && a[i] == b.last();
        let j = choose|j: int| 0 <= j < b.len() && b[j] == a.last();
        if i < a.len() - 1 && j < b.len() - 1 {
            assert(lt(a[i], a[a.len() - 1]));
            assert(lt(b[j], b[b.len() - 1]));
            lemma_le_antisymmetric(a.last(), b.last());
        }
        assert(a.last() == b.last()) by {
            if i == a.len() - 1 {
            } else if j == b.len() - 1 {
            }
        }
        let a2 = a.drop_last();
        let b2 = b.drop_last();
        assert forall|x: Seq<char>| a2.to_set().contains(x) implies b2.to_set().contains(x) by {
            assert(a2.contains(x));
            let k = choose|k: int| 0 <= k < a2.len() && a2[k] == x;
            assert(a[k] == x);
            assert(lt(a[k], a[a.len() - 1]));
            assert(a.to_set().contains(x));
            assert(b.contains(x));
            let m = choose|m: int| 0 <= m < b.len() && b[m] == x;
            assert(m < b.len() - 1);
            assert(b2[m] == x);
        }
        assert forall|x: Seq<char>| b2.to_set().contains(x) implies a2.to_set().contains(x) by {
            assert(b2.contains(x));
            let k = choose|k: int| 0 <= k < b2.len() && b2[k] == x;
            assert(b[k] == x);
            assert(lt(b[k], b[b.len() - 1]));
            assert(b.to_set().contains(x));
            assert(a.contains(x));
            let m = choose|m: int| 0 <= m < a.len() && a[m] == x;
            assert(m < a.len() - 1);
            assert(a2[m] == x);
        }
        assert(a2.to_set() =~= b2.to_set());
        assert forall|p: int, q: int| 0 <= p < q < a2.len() implies lt(
            #[trigger] a2[p],
            #[trigger] a2[q],
        ) by {
            assert(lt(a[p], a[q]));
        }
        assert forall|p: int, q: int| 0 <= p < q < b2.len() implies lt(
            #[trigger] b2[p],
            #[trigger] b2[q],
        ) by {
            assert(lt(b[p], b[q]));
        }
        lemma_strictly_sorted_unique(a2, b2);
        assert(a =~= a2.push(a.last()));
        assert(b =~= b2.push(b.last()));
    }
}

/// A strictly sorted list is the ascending list of its names.
pub proof fn lemma_ascending(s: Seq<Seq<char>>)
    requires
        strictly_sorted(s),
    ensures
        ascending(s.to_set()) == s,
        s.to_set().len() == s.len(),
        s.to_set().finite(),
{
    let chosen = ascending(s.to_set());
    assert(strictly_sorted(s) && s.to_set() == s.to_set());
    lemma_strictly_sorted_unique(chosen, s);
    assert(s.no_duplicates()) by {
        assert forall|i: int, j: int| 0 <= i < s.len() && 0 <= j < s.len() && i != j implies s[i]
            != s[j] by {
            if i < j {
                assert(lt(s[i], s[j]));
            } else {
                assert(lt(s[j], s[i]));
            }
        }
    }
    s.unique_seq_to_set();
    vstd::seq_lib::seq_to_set_is_finite(s);
}

/// The names of a finite set can be listed in ascending order.
pub proof fn lemma_ascending_of(set: Set<Seq<char>>)
    requires
        set.finite(),
    ensures
        strictly_sorted(ascending(set)),
        ascending(set).to_set() == set,
        ascending(set).len() == set.len(),
    decreases set.len(),
{
    broadcast use vstd::seq_lib::group_to_multiset_ensures;

    if set.len() == 0 {
        let none = Seq::<Seq<char>>::empty();
        assert(set =~= Set::empty());
        assert(none.to_set() =~= set);
        lemma_ascending(none);
    } else {
        let x = set.choose();
        let rest = set.remove(x);
        lemma_ascending_of(rest);
        let few = ascending(rest);
        let all = few.push(x);
        let id = |n: Seq<char>| n;
        let sorted = sort_by(all, id);
        lemma_sort_by(all, id);
        assert(!few.contains(x)) by {
            assert(!few.to_set().contains(x));
        }
        assert(few.no_duplicates()) by {
            assert forall|i: int, j: int|
                0 <= i < few.len() && 0 <= j < few.len() && i != j implies few[i] != few[j] by {
                if i < j {
                    assert(lt(few[i], few[j]));
                } else {
                    assert(lt(few[j], few[i]));
                }
            }
        }
        assert(all.no_duplicates());
        all.lemma_multiset_has_no_duplicates();
        sorted.lemma_multiset_has_no_duplicates_conv();
        assert(strictly_sorted(sorted)) by {
            assert forall|i: int, j: int| 0 <= i < j < sorted.len() implies lt(
                #[trigger] sorted[i],
                #[trigger] sorted[j],
            ) by {
                assert(le(id(sorted[i]), id(sorted[j])));
            }
        }
        assert(sorted.to_set() =~= set) by {
            assert forall|y: Seq<char>| #[trigger] sorted.to_set().contains(y) <==> set.contains(
                y,
            ) by {
                assert(sorted.contains(y) <==> sorted.to_multiset().contains(y));
                assert(all.contains(y) <==> all.to_multiset().contains(y));
                assert(few.contains(y) <==> few.to_set().contains(y));
                if few.contains(y) {
                    let k = choose|k: int| 0 <= k < few.len() && few[k] == y;
                    assert(all[k] == y);
                }
                assert(all.last() == x);
                assert(all[few.len() as int] == x);
            }
        }
        lemma_ascending(sorted);
    }
}

/// Where `name` stands, or would have to be inserted, in `items`.
fn place_of(items: &Vec<String>, name: &str) -> (place: usize)
    requires
        strictly_sorted(texts(items@)),
    ensures
        place <= items.len(),
        forall|i: int| 0 <= i < place ==> lt(#[trigger] texts(items@)[i], name@),
        forall|i: int| place <= i < items.len() ==> le(name@, #[trigger] texts(items@)[i]),
{
    let mut place: usize = 0;
    while place < items.len() && !text_le(name, items[place].as_str())
        invariant
            place <= items.len(),
            forall|i: int| 0 <= i < place ==> lt(#[trigger] texts(items@)[i], name@),
        decreases items.len() - place,
    {
        proof {
            assert(texts(items@)[place as int] == items@[place as int]@);
            lemma_le_total(name@, items@[place as int]@);
            crate::order::lemma_le_reflexive(name@);
        }
        place = place + 1;
    }
    proof {
        assert forall|i: int| place <= i < items.len() implies le(
            name@,
            #[trigger] texts(items@)[i],
        ) by {
            assert(texts(items@)[place as int] == items@[place as int]@);
            if i > place {
                assert(lt(texts(items@)[place as int], texts(items@)[i]));
                lemma_le_transitive(name@, texts(items@)[place as int], texts(items@)[i]);
            }
        }
    }
    place
}

/// A set of names.
#[derive(Debug)]
pub struct NameSet {
    items: Vec<String>,
}

impl View for NameSet {
    type V = Set<Seq<char>>;

    closed spec fn view(&self) -> Set<Seq<char>> {
        texts(self.items@).to_set()
    }
}

impl NameSet {
    #[verifier::type_invariant]
    spec fn well_formed(self) -> bool {
        strictly_sorted(texts(self.items@))
    }

    /// The empty set.
    pub fn new() -> (set: NameSet)
        ensures
            set@ == Set::<Seq<char>>::empty(),
    {
        let set = NameSet { items: Vec::new() };
        assert(set@ =~= Set::<Seq<char>>::empty());
        set
    }

    /// Whether `name` is in the set.
    pub fn contains(&self, name: &str) -> (r: bool)
        ensures
            r == self@.contains(name@),
    {
        proof {
            use_type_invariant(self);
        }
        let place = place_of(&self.items, name);
        let r = place < self.items.len() && text_eq(self.items[place].as_str(), name);
        proof {
            let all = texts(self.items@);
            if r {
                assert(all[place as int] == name@);
            } else if all.contains(name@) {
                let i = choose|i: int| 0 <= i < all.len() && all[i] == name@;
                assert(i >= place);
                if i > place {
                    assert(lt(all[place as int], all[i]));
                    assert(le(name@, all[place as int]));
                    lemma_le_antisymmetric(name@, all[place as int]);
                }
            }
        }
        r
    }

    /// Add `name`; the result tells whether it was absent.
    pub fn insert(&mut self, name: String) -> (added: bool)
        ensures
            added == !old(self)@.contains(name@),
            final(self)@ == old(self)@.insert(name@),
    {
        proof {
            use_type_invariant(&*self);
        }
        if self.contains(name.as_str()) {
            assert(self@.insert(name@) =~= self@);
            return false;
        }
        let mut items: Vec<String> = Vec::new();
        std::mem::swap(&mut items, &mut self.items);
        let ghost before = texts(items@);
        let place = place_of(&items, name.as_str());
        items.insert(place, name);
        proof {
            let after = texts(items@);
            assert(after =~= before.insert(place as int, name@));
            assert forall|i: int, j: int| 0 <= i < j < after.len() implies lt(
                #[trigger] after[i],
                #[trigger] after[j],
            ) by {
                let bi = if i < place { i } else { i - 1 };
                let bj = if j < place { j } else { j - 1 };
                if i == place {
                    assert(le(name@, before[bj]));
                    assert(before.to_set().contains(before[bj]));
                } else if j == place {
                    assert(lt(before[bi], name@));
                } else {
                    assert(lt(before[bi], before[bj]));
                }
            }
            assert forall|x: Seq<char>| after.to_set().contains(x) <==> before.to_set().insert(
                name@,
            ).contains(x) by {
                if after.contains(x) {
                    let i = choose|i: int| 0 <= i < after.len() && after[i] == x;
                    if i < place {
                        assert(before[i] == x);
                    } else if i > place {
                        assert(before[i - 1] == x);
                    }
                }
                if before.contains(x) {
                    let i = choose|i: int| 0 <= i < before.len() && before[i] == x;
                    if i < place {
                        assert(after[i] == x);
                    } else {
                        assert(after[i + 1] == x);
                    }
                }
                if x == name@ {
                    assert(after[place as int] == x);
                }
            }
            assert(after.to_set() =~= before.to_set().insert(name@));
        }
        self.items = items;
        true
    }

    /// Drop `name`; the result tells whether it was present.
    pub fn remove(&mut self, name: &str) -> (removed: bool)
        ensures
            removed == old(self)@.contains(name@),
            final(self)@ == old(self)@.remove(name@),
    {
        proof {
            use_type_invariant(&*self);
        }
        if !self.contains(name) {
            assert(self@.remove(name@) =~= self@);
            return false;
        }
        let mut items: Vec<String> = Vec::new();
        std::mem::swap(&mut items, &mut self.items);
        let ghost before = texts(items@);
        let place = place_of(&items, name);
        proof {
            assert(before.contains(name@));
            let i = choose|i: int| 0 <= i < before.len() && before[i] == name@;
            assert(i >= place);
            if i > place {
                assert(lt(before[place as int], before[i]));
                assert(le(name@, before[place as int]));
                lemma_le_antisymmetric(name@, before[place as int]);
            }
            assert(before[place as int] == name@);
        }
        let _ = items.remove(place);
        proof {
            let after = texts(items@);
            assert(after =~= before.remove(place as int));
            assert forall|i: int, j: int| 0 <= i < j < after.len() implies lt(
                #[trigger] after[i],
                #[trigger] after[j],
            ) by {
                let bi = if i < place { i } else { i + 1 };
                let bj = if j < place { j } else { j + 1 };
                assert(lt(before[bi], before[bj]));
            }
            assert forall|x: Seq<char>| after.to_set().contains(x) <==> before.to_set().remove(
                name@,
            ).contains(x) by {
                if after.contains(x) {
                    let i = choose|i: int| 0 <= i < after.len() && after[i] == x;
                    let b = if i < place { i } else { i + 1 };
                    assert(before[b] == x);
                    if b < place {
                        assert(lt(before[b], before[place as int]));
                    } else {
                        assert(lt(before[place as int], before[b]));
                    }
                }
                if before.contains(x) && x != name@ {
                    let i = choose|i: int| 0 <= i < before.len() && before[i] == x;
                    if i < place {
                        assert(after[i] == x);
                    } else {
                        assert(after[i - 1] == x);
                    }
                }
            }
            assert(after.to_set() =~= before.to_set().remove(name@));
        }
        self.items = items;
        true
    }

    /// How many names the set holds.
    pub fn len(&self) -> (n: usize)
        ensures
            n == self@.len(),
            self@.finite(),
    {
        proof {
            use_type_invariant(self);
            lemma_ascending(texts(self.items@));
        }
        self.items.len()
    }

    /// Whether the set holds no name.
    pub fn is_empty(&self) -> (r: bool)
        ensures
            r == (self@ =~= Set::<Seq<char>>::empty()),
    {
        proof {
            if self.items.len() > 0 {
                assert(texts(self.items@)[0] == self.items@[0]@);
                assert(self@.contains(self.items@[0]@));
            } else {
                assert(self@ =~= Set::<Seq<char>>::empty());
            }
        }
        self.items.len() == 0
    }

    /// The names in ascending order.
    pub fn names(&self) -> (list: &Vec<String>)
        ensures
            texts(list@) == ascending(self@),
            strictly_sorted(texts(list@)),
            texts(list@).to_set() == self@,
            self@.finite(),
    {
        proof {
            use_type_invariant(self);
            lemma_ascending(texts(self.items@));
        }
        &self.items
    }

    /// The set of the names in a list.
    pub fn from_list(list: &Vec<String>) -> (set: NameSet)
        ensures
            set@ == texts(list@).to_set(),
    {
        let mut set = NameSet::new();
        let ghost all = texts(list@);
        for i in 0..list.len()
            invariant
                all == texts(list@),
                set@ == all.take(i as int).to_set(),
        {
            set.insert(list[i].clone());
            proof {
                let now = all.take(i + 1);
                assert(now =~= all.take(i as int).push(all[i as int]));
                assert forall|x: Seq<char>| now.to_set().contains(x) <==> all.take(
                    i as int,
                ).to_set().insert(all[i as int]).contains(x) by {
                    let was = all.take(i as int);
                    if now.contains(x) {
                        let k = choose|k: int| 0 <= k < now.len() && now[k] == x;
                        if k < i {
                            assert(was[k] == x);
                        }
                    }
                    if was.contains(x) {
                        let k = choose|k: int| 0 <= k < was.len() && was[k] == x;
                        assert(now[k] == x);
                    }
                    if x == all[i as int] {
                        assert(now[i as int] == x);
                    }
                }
                assert(now.to_set() =~= all.take(i as int).to_set().insert(all[i as int]));
            }
        }
        assert(all.take(list.len() as int) =~= all);
        assert(all.take(0).to_set() =~= Set::<Seq<char>>::empty());
        set
    }
}

impl Clone for NameSet {
    fn clone(&self) -> (copy: NameSet)
        ensures
            copy@ == self@,
    {
        NameSet::from_list(self.names())
    }
}

spec fn paired<V>(keys: Seq<Seq<char>>, values: Seq<V>) -> Map<Seq<char>, V> {
    Map::new(|k: Seq<char>| keys.contains(k), |k: Seq<char>| values[keys.index_of(k)])
}

proof fn lemma_paired<V>(keys: Seq<Seq<char>>, values: Seq<V>, i: int)
    requires
        strictly_sorted(keys),
        keys.len() == values.len(),
        0 <= i < keys.len(),
    ensures
        paired(keys, values).dom().contains(keys[i]),
        paired(keys, values)[keys[i]] == values[i],
        keys.index_of(keys[i]) == i,
{
    let k = keys[i];
    assert(keys.contains(k));
    let at = keys.index_of(k);
    if at < i {
        assert(lt(keys[at], keys[i]));
    } else if i < at {
        assert(lt(keys[i], keys[at]));
    }
}

proof fn lemma_paired_absent(keys: Seq<Seq<char>>, name: Seq<char>, place: int)
    requires
        strictly_sorted(keys),
        0 <= place <= keys.len(),
        forall|i: int| 0 <= i < place ==> lt(#[trigger] keys[i], name),
        forall|i: int| place <= i < keys.len() ==> le(name, #[trigger] keys[i]),
        place < keys.len() ==> keys[place] != name,
    ensures
        !keys.contains(name),
{
    if keys.contains(name) {
        let i = choose|i: int| 0 <= i < keys.len() && keys[i] == name;
        assert(i >= place);
        if i > place {
            assert(lt(keys[place], keys[i]));
            assert(le(name, keys[place]));
            lemma_le_antisymmetric(name, keys[place]);
        }
    }
}

/// A map from names to values.
#[verifier::reject_recursive_types(V)]
#[derive(Debug)]
pub struct NameMap<V> {
    keys: Vec<String>,
    values: Vec<V>,
}

impl<V> View for NameMap<V> {
    type V = Map<Seq<char>, V>;

    closed spec fn view(&self) -> Map<Seq<char>, V> {
        paired(texts(self.keys@), self.values@)
    }
}

impl<V> NameMap<V> {
    #[verifier::type_invariant]
    spec fn well_formed(self) -> bool {
        &&& strictly_sorted(texts(self.keys@))
        &&& self.keys@.len() == self.values@.len()
    }

    /// The empty map.
    pub fn new() -> (map: NameMap<V>)
        ensures
            map@ == Map::<Seq<char>, V>::empty(),
    {
        let map = NameMap { keys: Vec::new(), values: Vec::new() };
        assert(map@ =~= Map::<Seq<char>, V>::empty());
        map
    }

    /// The value of `name`.
    pub fn get(&self, name: &str) -> (r: Option<&V>)
        ensures
            match r {
                Some(v) => self@.dom().contains(name@) && self@[name@] == *v,
                None => !self@.dom().contains(name@),
            },
    {
        proof {
            use_type_invariant(self);
        }
        let place = place_of(&self.keys, name);
        if place < self.keys.len() && text_eq(self.keys[place].as_str(), name) {
            proof {
                lemma_paired(texts(self.keys@), self.values@, place as int);
            }
            Some(&self.values[place])
        } else {
            proof {
                lemma_paired_absent(texts(self.keys@), name@, place as int);
            }
            None
        }
    }

    /// Whether `name` has a value.
    pub fn contains_key(&self, name: &str) -> (r: bool)
        ensures
            r == self@.dom().contains(name@),
    {
        match self.get(name) {
            Some(_) => true,
            None => false,
        }
    }

    /// Take the value of `name` out of the map.
    pub fn remove(&mut self, name: &str) -> (r: Option<V>)
        ensures
            final(self)@ == old(self)@.remove(name@),
            match r {
                Some(v) => old(self)@.dom().contains(name@) && old(self)@[name@] == v,
                None => !old(self)@.dom().contains(name@),
            },
    {
        proof {
            use_type_invariant(&*self);
        }
        let place = place_of(&self.keys, name);
        if place < self.keys.len() && text_eq(self.keys[place].as_str(), name) {
            let mut map: NameMap<V> = NameMap::new();
            std::mem::swap(&mut map, self);
            let NameMap { mut keys, mut values } = map;
            let ghost keys0 = texts(keys@);
            let ghost values0 = values@;
            let _ = keys.remove(place);
            let value = values.remove(place);
            proof {
                let keys1 = texts(keys@);
                assert(keys1 =~= keys0.remove(place as int));
                assert forall|i: int, j: int| 0 <= i < j < keys1.len() implies lt(
                    #[trigger] keys1[i],
                    #[trigger] keys1[j],
                ) by {
                    let bi = if i < place { i } else { i + 1 };
                    let bj = if j < place { j } else { j + 1 };
                    assert(lt(keys0[bi], keys0[bj]));
                }
                lemma_paired(keys0, values0, place as int);
                let was = paired(keys0, values0).remove(name@);
                let now = paired(keys1, values@);
                assert forall|k: Seq<char>| now.dom().contains(k) implies was.dom().contains(k)
                    && was[k] == now[k] by {
                    let i = keys1.index_of(k);
                    assert(keys1.contains(k));
                    let b = if i < place { i } else { i + 1 };
                    lemma_paired(keys1, values@, i);
                    lemma_paired(keys0, values0, b);
                    if b < place {
                        assert(lt(keys0[b], keys0[place as int]));
                    } else {
                        assert(lt(keys0[place as int], keys0[b]));
                    }
                }
                assert forall|k: Seq<char>| was.dom().contains(k) implies now.dom().contains(k) by {
                    let i = keys0.index_of(k);
                    assert(keys0.contains(k));
                    if i < place {
                        assert(keys1[i] == k);
                    } else {
                        assert(keys1[i - 1] == k);
                    }
                }
                assert(now =~= was);
            }
            *self = NameMap { keys, values };
            Some(value)
        } else {
            proof {
                lemma_paired_absent(texts(self.keys@), name@, place as int);
                assert(self@.remove(name@) =~= self@);
            }
            None
        }
    }

    /// Give `name` a value, in place of the one it may have had.
    pub fn insert(&mut self, name: String, value: V)
        ensures
            final(self)@ == old(self)@.insert(name@, value),
    {
        let ghost name_text = name@;
        let ghost at_first = self@;
        let _ = self.remove(name.as_str());
        proof {
            use_type_invariant(&*self);
        }
        let mut map: NameMap<V> = NameMap::new();
        std::mem::swap(&mut map, self);
        let ghost middle = map@;
        let NameMap { mut keys, mut values } = map;
        let ghost keys0 = texts(keys@);
        let ghost values0 = values@;
        let place = place_of(&keys, name.as_str());
        keys.insert(place, name);
        values.insert(place, value);
        proof {
            let keys1 = texts(keys@);
            assert(keys1 =~= keys0.insert(place as int, name_text));
            assert(!keys0.contains(name_text)) by {
                assert(!middle.dom().contains(name_text));
            }
            assert forall|i: int, j: int| 0 <= i < j < keys1.len() implies lt(
                #[trigger] keys1[i],
                #[trigger] keys1[j],
            ) by {
                let bi = if i < place { i } else { i - 1 };
                let bj = if j < place { j } else { j - 1 };
                if i == place {
                    assert(le(name_text, keys0[bj]));
                    assert(keys0.contains(keys0[bj]));
                } else if j == place {
                    assert(lt(keys0[bi], name_text));
                } else {
                    assert(lt(keys0[bi], keys0[bj]));
                }
            }
            let was = at_first.insert(name_text, value);
            let now = paired(keys1, values@);
            assert forall|k: Seq<char>| #[trigger] now.dom().contains(k) implies was.dom().contains(k)
                && was[k] == now[k] by {
                let i = keys1.index_of(k);
                assert(keys1.contains(k));
                lemma_paired(keys1, values@, i);
                if i != place {
                    let b = if i < place { i } else { i - 1 };
                    lemma_paired(keys0, values0, b);
                    assert(keys0[b] == k);
                    assert(middle.dom().contains(k));
                    assert(middle[k] == values0[b]);
                    assert(at_first[k] == middle[k]);
                }
            }
            assert forall|k: Seq<char>| #[trigger] was.dom().contains(k) implies now.dom().contains(
                k,
            ) by {
                if k == name_text {
                    assert(keys1[place as int] == k);
                } else {
                    assert(middle.dom().contains(k));
                    let i = keys0.index_of(k);
                    assert(keys0.contains(k));
                    if i < place {
                        assert(keys1[i] == k);
                    } else {
                        assert(keys1[i + 1] == k);
                    }
                }
            }
            assert(now.dom() =~= was.dom());
            assert(now =~= was);
        }
        *self = NameMap { keys, values };
    }

    /// How many names have a value.
    pub fn len(&self) -> (n: usize)
        ensures
            n == self@.dom().len(),
            n == ascending(self@.dom()).len(),
            self@.dom().finite(),
    {
        proof {
            use_type_invariant(self);
            lemma_ascending(texts(self.keys@));
            assert(self@.dom() =~= texts(self.keys@).to_set());
        }
        self.keys.len()
    }

    /// Whether no name has a value.
    pub fn is_empty(&self) -> (r: bool)
        ensures
            r == (self@.dom() =~= Set::<Seq<char>>::empty()),
    {
        let n = self.len();
        proof {
            if n == 0 {
                assert(self@.dom() =~= Set::<Seq<char>>::empty());
            }
        }
        n == 0
    }

    /// The names that have a value, in ascending order.
    pub fn names(&self) -> (list: &Vec<String>)
        ensures
            texts(list@) == ascending(self@.dom()),
            strictly_sorted(texts(list@)),
            texts(list@).to_set() == self@.dom(),
            self@.dom().finite(),
    {
        proof {
            use_type_invariant(self);
            lemma_ascending(texts(self.keys@));
            assert(self@.dom() =~= texts(self.keys@).to_set());
        }
        &self.keys
    }

    /// The name at a position of the ascending list, and its value.
    pub fn entry(&self, position: usize) -> (r: (&str, &V))
        requires
            position < self@.dom().len(),
        ensures
            r.0@ == ascending(self@.dom())[position as int],
            self@.dom().contains(r.0@),
            self@[r.0@] == *r.1,
    {
        proof {
            use_type_invariant(self);
            lemma_ascending(texts(self.keys@));
            assert(self@.dom() =~= texts(self.keys@).to_set());
            lemma_paired(texts(self.keys@), self.values@, position as int);
        }
        (self.keys[position].as_str(), &self.values[position])
    }
}

} // verus!
