//! The order of names, and sorting by name.
//!
//! Text is ordered by its characters from left to right, each by its code
//! point; a proper prefix comes before the longer text.
use vstd::prelude::*;
use vstd::std_specs::iter::IteratorSpec;

verus! {

/// `a` comes before `b` in name order, or is the same text.
pub open spec fn le(a: Seq<char>, b: Seq<char>) -> bool
    decreases a.len(),
{
    if a.len() == 0 {
        true
    } else if b.len() == 0 {
        false
    } else if a[0] != b[0] {
        a[0] < b[0]
    } else {
        le(a.drop_first(), b.drop_first())
    }
}

/// `a` comes strictly before `b`.
pub open spec fn lt(a: Seq<char>, b: Seq<char>) -> bool {
    le(a, b) && a != b
}

/// Name order is reflexive.
pub proof fn lemma_le_reflexive(a: Seq<char>)
    ensures
        le(a, a),
    decreases a.len(),
{
    if a.len() > 0 {
        lemma_le_reflexive(a.drop_first());
    }
}

/// Name order is antisymmetric.
pub proof fn lemma_le_antisymmetric(a: Seq<char>, b: Seq<char>)
    requires
        le(a, b),
        le(b, a),
    ensures
        a == b,
    decreases a.len(),
{
    if a.len() == 0 || b.len() == 0 {
        assert(a =~= b);
    } else {
        lemma_le_antisymmetric(a.drop_first(), b.drop_first());
        assert(a =~= seq![a[0]] + a.drop_first());
        assert(b =~= seq![b[0]] + b.drop_first());
    }
}

/// Name order is transitive.
pub proof fn lemma_le_transitive(a: Seq<char>, b: Seq<char>, c: Seq<char>)
    requires
        le(a, b),
        le(b, c),
    ensures
        le(a, c),
    decreases a.len(),
{
    if a.len() > 0 && b.len() > 0 && c.len() > 0 && a[0] == b[0] && b[0] == c[0] {
        lemma_le_transitive(a.drop_first(), b.drop_first(), c.drop_first());
    }
}

/// Any two names are comparable.
pub proof fn lemma_le_total(a: Seq<char>, b: Seq<char>)
    ensures
        le(a, b) || le(b, a),
    decreases a.len(),
{
    if a.len() > 0 && b.len() > 0 && a[0] == b[0] {
        lemma_le_total(a.drop_first(), b.drop_first());
    }
}

/// Decide name order.
pub fn text_le(a: &str, b: &str) -> (r: bool)
    ensures
        r == le(a@, b@),
{
    let mut left = a.chars();
    let mut right = b.chars();
    loop
        invariant
            left.obeys_prophetic_iter_laws(),
            right.obeys_prophetic_iter_laws(),
            left.decrease() is Some,
            le(a@, b@) == le(left.remaining(), right.remaining()),
        decreases left.decrease()->0,
    {
        match (left.next(), right.next()) {
            (None, _) => {
                return true;
            },
            (Some(_), None) => {
                return false;
            },
            (Some(x), Some(y)) => {
                if x != y {
                    return x < y;
                }
            },
        }
    }
}

/// Decide whether two texts are the same.
pub fn text_eq(a: &str, b: &str) -> (r: bool)
    ensures
        r == (a@ == b@),
{
    let mut left = a.chars();
    let mut right = b.chars();
    loop
        invariant
            left.obeys_prophetic_iter_laws(),
            right.obeys_prophetic_iter_laws(),
            left.decrease() is Some,
            (a@ == b@) == (left.remaining() == right.remaining()),
        decreases left.decrease()->0,
    {
        let ghost l = left.remaining();
        let ghost r = right.remaining();
        match (left.next(), right.next()) {
            (None, None) => {
                assert(l =~= r);
                return true;
            },
            (Some(x), Some(y)) => {
                assert(l =~= seq![x] + l.drop_first());
                assert(r =~= seq![y] + r.drop_first());
                if x != y {
                    assert(l[0] != r[0]);
                    return false;
                }
            },
            _ => {
                assert(l.len() != r.len());
                return false;
            },
        }
    }
}

/// A value that is sorted by a name.
pub trait Keyed: Sized {
    /// The name that decides the place.
    spec fn key(&self) -> Seq<char>;

    /// The name that decides the place.
    fn key_text(&self) -> (r: &str)
        ensures
            r@ == self.key(),
    ;
}

impl Keyed for String {
    open spec fn key(&self) -> Seq<char> {
        self@
    }

    fn key_text(&self) -> (r: &str) {
        self.as_str()
    }
}

/// `s` with `x` placed behind every leading element whose key is not greater.
pub open spec fn insert_by<T>(s: Seq<T>, x: T, key: spec_fn(T) -> Seq<char>) -> Seq<T>
    decreases s.len(),
{
    if s.len() == 0 || le(key(s.last()), key(x)) {
        s.push(x)
    } else {
        insert_by(s.drop_last(), x, key).push(s.last())
    }
}

/// `s` sorted by key; elements with equal keys keep their order.
pub open spec fn sort_by<T>(s: Seq<T>, key: spec_fn(T) -> Seq<char>) -> Seq<T>
    decreases s.len(),
{
    if s.len() == 0 {
        s
    } else {
        insert_by(sort_by(s.drop_last(), key), s.last(), key)
    }
}

/// Every element's key is at least that of each element before it.
pub open spec fn sorted_by<T>(s: Seq<T>, key: spec_fn(T) -> Seq<char>) -> bool {
    forall|i: int, j: int|
        0 <= i <= j < s.len() ==> le(#[trigger] key(s[i]), #[trigger] key(s[j]))
}

/// Each name comes strictly after the one before it.
pub open spec fn strictly_sorted(s: Seq<Seq<char>>) -> bool {
    forall|i: int, j: int| 0 <= i < j < s.len() ==> lt(#[trigger] s[i], #[trigger] s[j])
}

proof fn lemma_insert_by_place<T>(s: Seq<T>, x: T, key: spec_fn(T) -> Seq<char>, place: int)
    requires
        0 <= place <= s.len(),
        place > 0 ==> le(key(s[place - 1]), key(x)),
        forall|i: int| place <= i < s.len() ==> !le(#[trigger] key(s[i]), key(x)),
    ensures
        insert_by(s, x, key) == s.insert(place, x),
    decreases s.len(),
{
    if s.len() == place {
        assert(s.insert(place, x) =~= s.push(x));
    } else {
        assert(!le(key(s[s.len() - 1]), key(x)));
        let shorter = s.drop_last();
        assert forall|i: int| place <= i < shorter.len() implies !le(
            #[trigger] key(shorter[i]),
            key(x),
        ) by {
            assert(shorter[i] == s[i]);
        }
        lemma_insert_by_place(shorter, x, key, place);
        assert(shorter.insert(place, x).push(s.last()) =~= s.insert(place, x));
    }
}

/// Sort by key, keeping the order of elements with equal keys.
pub fn stable_sort<T: Keyed>(values: Vec<T>) -> (sorted: Vec<T>)
    ensures
        sorted@ == sort_by(values@, |t: T| t.key()),
{
    let ghost all = values@;
    let ghost key = |t: T| t.key();
    let mut sorted: Vec<T> = Vec::new();
    for value in iter: values
        invariant
            iter.seq() == all,
            key == (|t: T| t.key()),
            sorted@ == sort_by(all.take(iter.index() as int), key),
    {
        let ghost before = sorted@;
        let mut place: usize = sorted.len();
        while place > 0 && !text_le(sorted[place - 1].key_text(), value.key_text())
            invariant
                place <= sorted.len(),
                key == (|t: T| t.key()),
                forall|i: int|
                    place <= i < sorted.len() ==> !le(#[trigger] key(sorted@[i]), key(value)),
            decreases place,
        {
            place = place - 1;
            assert(!le(key(sorted@[place as int]), key(value)));
        }
        proof {
            let index = iter.index() as int;
            lemma_insert_by_place(before, value, key, place as int);
            assert(all.take(index + 1).drop_last() =~= all.take(index));
        }
        sorted.insert(place, value);
    }
    assert(all.take(all.len() as int) =~= all);
    sorted
}

spec fn all_le<T>(s: Seq<T>, key: spec_fn(T) -> Seq<char>, bound: Seq<char>) -> bool {
    forall|i: int| 0 <= i < s.len() ==> le(#[trigger] key(s[i]), bound)
}

proof fn lemma_insert_by_sorted<T>(s: Seq<T>, x: T, key: spec_fn(T) -> Seq<char>)
    requires
        sorted_by(s, key),
    ensures
        sorted_by(insert_by(s, x, key), key),
        insert_by(s, x, key).to_multiset() == s.to_multiset().insert(x),
        insert_by(s, x, key).len() == s.len() + 1,
        insert_by(s, x, key).last() == x || (s.len() > 0 && insert_by(s, x, key).last()
            == s.last()),
        forall|m: Seq<char>|
            all_le(s, key, m) && le(key(x), m) ==> #[trigger] all_le(insert_by(s, x, key), key, m),
    decreases s.len(),
{
    broadcast use vstd::seq_lib::group_to_multiset_ensures;

    let r = insert_by(s, x, key);
    if s.len() == 0 || le(key(s.last()), key(x)) {
        assert forall|i: int, j: int| 0 <= i <= j < r.len() implies le(
            #[trigger] key(r[i]),
            #[trigger] key(r[j]),
        ) by {
            lemma_le_reflexive(key(x));
            if j == s.len() && i < s.len() {
                assert(le(key(s[i]), key(s[s.len() - 1])));
                lemma_le_transitive(key(s[i]), key(s.last()), key(x));
            } else if j < s.len() {
                assert(le(key(s[i]), key(s[j])));
            }
        }
    } else {
        let shorter = s.drop_last();
        assert forall|i: int, j: int| 0 <= i <= j < shorter.len() implies le(
            #[trigger] key(shorter[i]),
            #[trigger] key(shorter[j]),
        ) by {
            assert(le(key(s[i]), key(s[j])));
        }
        lemma_insert_by_sorted(shorter, x, key);
        let inner = insert_by(shorter, x, key);
        let top = key(s.last());
        lemma_le_total(key(s.last()), key(x));
        assert forall|i: int| 0 <= i < shorter.len() implies le(#[trigger] key(shorter[i]), top) by {
            assert(le(key(s[i]), key(s[s.len() - 1])));
        }
        assert(all_le(inner, key, top));
        assert forall|i: int, j: int| 0 <= i <= j < r.len() implies le(
            #[trigger] key(r[i]),
            #[trigger] key(r[j]),
        ) by {
            lemma_le_reflexive(top);
            if j < inner.len() {
                assert(le(key(inner[i]), key(inner[j])));
            } else if i < inner.len() {
                assert(le(key(inner[i]), top));
            }
        }
        assert(s =~= shorter.push(s.last()));
        assert(r.to_multiset() =~= s.to_multiset().insert(x));
        assert forall|m: Seq<char>| all_le(s, key, m) && le(key(x), m) implies #[trigger] all_le(
            r,
            key,
            m,
        ) by {
            assert forall|i: int| 0 <= i < shorter.len() implies le(
                #[trigger] key(shorter[i]),
                m,
            ) by {
                assert(le(key(s[i]), m));
            }
            assert(le(key(s[s.len() - 1]), m));
            assert(all_le(inner, key, m));
        }
    }
}

/// Sorting orders the elements and neither drops nor adds one.
pub proof fn lemma_sort_by<T>(s: Seq<T>, key: spec_fn(T) -> Seq<char>)
    ensures
        sorted_by(sort_by(s, key), key),
        sort_by(s, key).to_multiset() == s.to_multiset(),
        sort_by(s, key).len() == s.len(),
    decreases s.len(),
{
    broadcast use vstd::seq_lib::group_to_multiset_ensures;

    if s.len() > 0 {
        lemma_sort_by(s.drop_last(), key);
        lemma_insert_by_sorted(sort_by(s.drop_last(), key), s.last(), key);
        assert(s =~= s.drop_last().push(s.last()));
        assert(s.to_multiset() =~= s.drop_last().to_multiset().insert(s.last()));
    }
}

proof fn lemma_insert_by_map<T, U>(
    s: Seq<T>,
    x: T,
    key: spec_fn(T) -> Seq<char>,
    f: spec_fn(T) -> U,
    key2: spec_fn(U) -> Seq<char>,
)
    requires
        forall|t: T| #[trigger] key2(f(t)) == key(t),
    ensures
        insert_by(s.map_values(f), f(x), key2) == insert_by(s, x, key).map_values(f),
    decreases s.len(),
{
    let mapped = s.map_values(f);
    if s.len() == 0 || le(key(s.last()), key(x)) {
        assert(mapped.push(f(x)) =~= s.push(x).map_values(f));
        if s.len() > 0 {
            assert(key2(f(s.last())) == key(s.last()));
        }
        assert(key2(f(x)) == key(x));
    } else {
        assert(key2(f(s.last())) == key(s.last()));
        assert(key2(f(x)) == key(x));
        lemma_insert_by_map(s.drop_last(), x, key, f, key2);
        assert(mapped.drop_last() =~= s.drop_last().map_values(f));
        assert(insert_by(s.drop_last(), x, key).map_values(f).push(f(s.last())) =~= insert_by(
            s,
            x,
            key,
        ).map_values(f));
    }
}

/// Sorting and a change of representation that keeps the keys can be exchanged.
pub proof fn lemma_sort_by_map<T, U>(
    s: Seq<T>,
    key: spec_fn(T) -> Seq<char>,
    f: spec_fn(T) -> U,
    key2: spec_fn(U) -> Seq<char>,
)
    requires
        forall|t: T| #[trigger] key2(f(t)) == key(t),
    ensures
        sort_by(s.map_values(f), key2) == sort_by(s, key).map_values(f),
    decreases s.len(),
{
    let mapped = s.map_values(f);
    if s.len() == 0 {
        assert(mapped =~= s.map_values(f));
        assert(sort_by(s, key).map_values(f) =~= mapped);
    } else {
        lemma_sort_by_map(s.drop_last(), key, f, key2);
        assert(mapped.drop_last() =~= s.drop_last().map_values(f));
        lemma_insert_by_map(sort_by(s.drop_last(), key), s.last(), key, f, key2);
    }
}

} // verus!
