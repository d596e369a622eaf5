//! A small map from names to values: the library's stand-in for the
//! `BTreeMap<String, _>` tables of the configuration, the price catalog and
//! the usage summary. Names are kept in the order `String` sorts them (by
//! code point), each name at most once, so walking the map visits the names as
//! a `BTreeMap` would.

use vstd::prelude::*;

verus! {

/// Whether `name` is a key of the pairs.
pub open spec fn has_key<V>(pairs: Seq<(Seq<char>, V)>, name: Seq<char>) -> bool {
    exists|i: int| 0 <= i < pairs.len() && #[trigger] pairs[i].0 == name
}

/// No name occurs twice.
pub open spec fn distinct_keys<V>(pairs: Seq<(Seq<char>, V)>) -> bool {
    forall|i: int, j: int| 0 <= i < j < pairs.len() ==> #[trigger] pairs[i].0 != #[trigger] pairs[j].0
}

/// The position of `name` among the pairs (meaningful when it is a key).
pub open spec fn key_index<V>(pairs: Seq<(Seq<char>, V)>, name: Seq<char>) -> int {
    choose|i: int| 0 <= i < pairs.len() && #[trigger] pairs[i].0 == name
}

/// The value stored under `name`, if any.
pub open spec fn lookup<V>(pairs: Seq<(Seq<char>, V)>, name: Seq<char>) -> Option<V> {
    if has_key(pairs, name) {
        Some(pairs[key_index(pairs, name)].1)
    } else {
        None
    }
}

/// The order of `String`: lexicographic by code point (UTF-8 byte order agrees).
pub open spec fn text_lt(a: Seq<char>, b: Seq<char>) -> bool
    decreases a.len(),
{
    if a.len() == 0 {
        b.len() > 0
    } else if b.len() == 0 {
        false
    } else if a[0] != b[0] {
        a[0] < b[0]
    } else {
        text_lt(a.drop_first(), b.drop_first())
    }
}

/// No text comes before itself.
pub proof fn lemma_text_lt_irreflexive(a: Seq<char>)
    ensures
        !text_lt(a, a),
    decreases a.len(),
{
    if a.len() > 0 {
        lemma_text_lt_irreflexive(a.drop_first());
    }
}

/// The order is transitive.
pub proof fn lemma_text_lt_transitive(a: Seq<char>, b: Seq<char>, c: Seq<char>)
    requires
        text_lt(a, b),
        text_lt(b, c),
    ensures
        text_lt(a, c),
    decreases a.len(),
{
    if a.len() > 0 && b.len() > 0 && c.len() > 0 && a[0] == b[0] && b[0] == c[0] {
        lemma_text_lt_transitive(a.drop_first(), b.drop_first(), c.drop_first());
    }
}

/// Any two texts are equal or ordered one way.
pub proof fn lemma_text_lt_total(a: Seq<char>, b: Seq<char>)
    ensures
        a == b || text_lt(a, b) || text_lt(b, a),
    decreases a.len(),
{
    if a.len() > 0 && b.len() > 0 && a[0] == b[0] {
        lemma_text_lt_total(a.drop_first(), b.drop_first());
        if a.drop_first() == b.drop_first() {
            assert(a =~= b) by {
                assert forall|i: int| 0 <= i < a.len() implies a[i] == b[i] by {
                    if i > 0 {
                        assert(a[i] == a.drop_first()[i - 1]);
                        assert(b[i] == b.drop_first()[i - 1]);
                    }
                }
            }
        }
    } else if a.len() == 0 && b.len() == 0 {
        assert(a =~= b);
    }
}

/// The names are in increasing order (and so distinct).
pub open spec fn sorted_keys<V>(pairs: Seq<(Seq<char>, V)>) -> bool {
    forall|i: int, j: int| 0 <= i < j < pairs.len() ==> text_lt(#[trigger] pairs[i].0, #[trigger] pairs[j].0)
}

/// Names in increasing order are distinct.
pub proof fn lemma_sorted_distinct<V>(pairs: Seq<(Seq<char>, V)>)
    requires
        sorted_keys(pairs),
    ensures
        distinct_keys(pairs),
{
    assert forall|i: int, j: int| 0 <= i < j < pairs.len() implies #[trigger] pairs[i].0 != #[trigger] pairs[j].0 by {
        lemma_text_lt_irreflexive(pairs[i].0);
    }
}

/// `text_lt` of two texts, one step further along both.
proof fn lemma_text_lt_step(a: Seq<char>, b: Seq<char>, i: int)
    requires
        0 <= i < a.len(),
        i < b.len(),
    ensures
        a[i] != b[i] ==> text_lt(a.skip(i), b.skip(i)) == (a[i] < b[i]),
        a[i] == b[i] ==> text_lt(a.skip(i), b.skip(i)) == text_lt(a.skip(i + 1), b.skip(i + 1)),
{
    assert(a.skip(i).drop_first() =~= a.skip(i + 1));
    assert(b.skip(i).drop_first() =~= b.skip(i + 1));
}

/// Whether one text comes before another in `String`'s order.
pub fn text_less(a: &str, b: &str) -> (r: bool)
    ensures
        r == text_lt(a@, b@),
{
    let x = crate::text::chars_of(a);
    let y = crate::text::chars_of(b);
    let mut i: usize = 0;
    assert(a@.skip(0) =~= a@ && b@.skip(0) =~= b@);
    while i < x.len() && i < y.len()
        invariant
            x@ == a@,
            y@ == b@,
            i <= x@.len(),
            i <= y@.len(),
            text_lt(a@, b@) == text_lt(a@.skip(i as int), b@.skip(i as int)),
        decreases x@.len() - i,
    {
        proof {
            lemma_text_lt_step(a@, b@, i as int);
        }
        if x[i] != y[i] {
            return x[i] < y[i];
        }
        i = i + 1;
    }
    i < y.len()
}

/// With distinct names, a position holding `name` is the position of `name`.
pub proof fn lemma_key_index_unique<V>(pairs: Seq<(Seq<char>, V)>, name: Seq<char>, i: int)
    requires
        distinct_keys(pairs),
        0 <= i < pairs.len(),
        pairs[i].0 == name,
    ensures
        has_key(pairs, name),
        key_index(pairs, name) == i,
        lookup(pairs, name) == Some(pairs[i].1),
{
    assert(has_key(pairs, name));
    let k = key_index(pairs, name);
    if k != i {
        if k < i {
            assert(pairs[k].0 != pairs[i].0);
        } else {
            assert(pairs[i].0 != pairs[k].0);
        }
    }
}

/// Replacing the pair of one name, or appending a new name, leaves the values of
/// every other name as they were.
pub proof fn lemma_lookup_other<V>(old: Seq<(Seq<char>, V)>, new: Seq<(Seq<char>, V)>, name: Seq<char>, k: Seq<char>)
    requires
        distinct_keys(old),
        distinct_keys(new),
        k != name,
        (has_key(old, name) && new == old.update(key_index(old, name), (name, new[key_index(old, name)].1)))
            || (!has_key(old, name) && new.len() == old.len() + 1 && new.drop_last() == old && new.last().0 == name),
    ensures
        lookup(new, k) == lookup(old, k),
{
    if has_key(old, k) {
        let i = key_index(old, k);
        assert(new[i].0 == k) by {
            if has_key(old, name) && new == old.update(key_index(old, name), (name, new[key_index(old, name)].1)) {
                assert(i != key_index(old, name));
            } else {
                assert(new[i] == new.drop_last()[i]);
            }
        }
        lemma_key_index_unique(new, k, i);
        assert(new[i].1 == old[i].1) by {
            if has_key(old, name) && new == old.update(key_index(old, name), (name, new[key_index(old, name)].1)) {
                assert(i != key_index(old, name));
            } else {
                assert(new[i] == new.drop_last()[i]);
            }
        }
    } else {
        if has_key(new, k) {
            let j = key_index(new, k);
            if has_key(old, name) && new == old.update(key_index(old, name), (name, new[key_index(old, name)].1)) {
                assert(old[j].0 == k);
            } else {
                if j < old.len() {
                    assert(new[j] == new.drop_last()[j]);
                    assert(old[j].0 == k);
                } else {
                    assert(new[j] == new.last());
                }
            }
        }
    }
}

/// A map from names to values, kept as pairs in a fixed order.
#[derive(Debug)]
pub struct NameMap<V> {
    entries: Vec<(String, V)>,
}

impl<V> View for NameMap<V> {
    type V = Seq<(Seq<char>, V)>;

    closed spec fn view(&self) -> Seq<(Seq<char>, V)> {
        self.entries@.map_values(|p: (String, V)| (p.0@, p.1))
    }
}

impl<V> NameMap<V> {
    #[verifier::type_invariant]
    pub closed spec fn well_formed(self) -> bool {
        sorted_keys(self@)
    }

    /// The names are in increasing order, each at most once.
    pub proof fn lemma_sorted(self)
        requires
            self.well_formed(),
        ensures
            sorted_keys(self@),
            distinct_keys(self@),
    {
        lemma_sorted_distinct(self@);
    }

    /// The empty map.
    pub fn new() -> (r: NameMap<V>)
        ensures
            r@ == Seq::<(Seq<char>, V)>::empty(),
    {
        let r = NameMap { entries: Vec::new() };
        assert(r@ =~= Seq::<(Seq<char>, V)>::empty());
        r
    }

    /// The number of names.
    pub fn len(&self) -> (r: usize)
        ensures
            r == self@.len(),
    {
        self.entries.len()
    }

    /// The name at a position.
    pub fn key_at(&self, i: usize) -> (r: &String)
        requires
            i < self@.len(),
        ensures
            r@ == self@[i as int].0,
    {
        &self.entries[i].0
    }

    /// The value at a position.
    pub fn value_at(&self, i: usize) -> (r: &V)
        requires
            i < self@.len(),
        ensures
            *r == self@[i as int].1,
    {
        &self.entries[i].1
    }

    /// The position of a name, if it is a key.
    pub fn position(&self, name: &str) -> (r: Option<usize>)
        ensures
            match r {
                Some(i) => i < self@.len() && self@[i as int].0 == name@ && key_index(self@, name@) == i
                    && has_key(self@, name@),
                None => !has_key(self@, name@),
            },
    {
        proof {
            use_type_invariant(self);
            lemma_sorted_distinct(self@);
        }
        let key = name.to_owned();
        let mut i: usize = 0;
        while i < self.entries.len()
            invariant
                i <= self.entries@.len(),
                self@.len() == self.entries@.len(),
                key@ == name@,
                forall|j: int| 0 <= j < i ==> #[trigger] self@[j].0 != name@,
                self@ == self.entries@.map_values(|p: (String, V)| (p.0@, p.1)),
            decreases self.entries@.len() - i,
        {
            if self.entries[i].0 == key {
                proof {
                    use_type_invariant(self);
                    lemma_sorted_distinct(self@);
                    lemma_key_index_unique(self@, name@, i as int);
                }
                return Some(i);
            }
            i = i + 1;
        }
        proof {
            if has_key(self@, name@) {
                let k = choose|k: int| 0 <= k < self@.len() && #[trigger] self@[k].0 == name@;
                assert(self@[k].0 != name@);
            }
        }
        None
    }

    /// Whether a name is a key.
    pub fn contains_key(&self, name: &str) -> (r: bool)
        ensures
            r == has_key(self@, name@),
    {
        self.position(name).is_some()
    }

    /// The value stored under a name.
    pub fn get(&self, name: &str) -> (r: Option<&V>)
        ensures
            match r {
                Some(v) => lookup(self@, name@) == Some(*v),
                None => lookup(self@, name@) is None,
            },
    {
        match self.position(name) {
            Some(i) => Some(&self.entries[i].1),
            None => None,
        }
    }

    /// Stores `value` under `name`: in place when the name is a key, else at the
    /// position that keeps the names in order.
    pub fn insert(&mut self, name: String, value: V)
        ensures
            has_key(old(self)@, name@) ==> final(self)@ == old(self)@.update(
                key_index(old(self)@, name@),
                (name@, value),
            ),
            !has_key(old(self)@, name@) ==> exists|p: int|
                0 <= p <= old(self)@.len() && final(self)@ == old(self)@.insert(p, (name@, value)),
            sorted_keys(final(self)@),
            lookup(final(self)@, name@) == Some(value),
            forall|k: Seq<char>| k != name@ ==> #[trigger] lookup(final(self)@, k) == lookup(old(self)@, k),
    {
        proof {
            use_type_invariant(&*self);
            lemma_sorted_distinct(self@);
        }
        let ghost old_view = self@;
        let mut k: usize = 0;
        while k < self.entries.len() && text_less(self.entries[k].0.as_str(), name.as_str())
            invariant
                k <= self.entries@.len(),
                self@ == old_view,
                self@ == self.entries@.map_values(|p: (String, V)| (p.0@, p.1)),
                sorted_keys(old_view),
                forall|j: int| 0 <= j < k ==> text_lt(#[trigger] old_view[j].0, name@),
            decreases self.entries@.len() - k,
        {
            k = k + 1;
        }
        let found = k < self.entries.len() && self.entries[k].0 == name;
        let mut entries = Vec::new();
        std::mem::swap(&mut entries, &mut self.entries);
        if found {
            entries.set(k, (name, value));
            proof {
                let nv = old_view.update(k as int, (name@, value));
                assert(entries@.map_values(|p: (String, V)| (p.0@, p.1)) =~= nv);
                lemma_key_index_unique(old_view, name@, k as int);
                assert(sorted_keys(nv)) by {
                    assert forall|a: int, b: int| 0 <= a < b < nv.len() implies text_lt(
                        #[trigger] nv[a].0,
                        #[trigger] nv[b].0,
                    ) by {
                        assert(nv[a].0 == old_view[a].0 && nv[b].0 == old_view[b].0);
                    }
                }
                lemma_sorted_distinct(nv);
                lemma_key_index_unique(nv, name@, k as int);
                assert forall|kk: Seq<char>| kk != name@ implies #[trigger] lookup(nv, kk) == lookup(old_view, kk) by {
                    lemma_lookup_other(old_view, nv, name@, kk);
                }
            }
        } else {
            entries.insert(k, (name, value));
            proof {
                let nv = old_view.insert(k as int, (name@, value));
                assert(entries@.map_values(|p: (String, V)| (p.0@, p.1)) =~= nv);
                if (k as int) < old_view.len() {
                    lemma_text_lt_total(old_view[k as int].0, name@);
                }
                assert forall|j: int| k <= j < old_view.len() implies text_lt(name@, #[trigger] old_view[j].0) by {
                    if j > k {
                        lemma_text_lt_transitive(name@, old_view[k as int].0, old_view[j].0);
                    }
                }
                assert(!has_key(old_view, name@)) by {
                    if has_key(old_view, name@) {
                        let i = choose|i: int| 0 <= i < old_view.len() && #[trigger] old_view[i].0 == name@;
                        lemma_text_lt_irreflexive(name@);
                        if i < k {
                            assert(text_lt(old_view[i].0, name@));
                        } else {
                            assert(text_lt(name@, old_view[i].0));
                        }
                    }
                }
                assert(sorted_keys(nv)) by {
                    assert forall|a: int, b: int| 0 <= a < b < nv.len() implies text_lt(
                        #[trigger] nv[a].0,
                        #[trigger] nv[b].0,
                    ) by {
                        if b < k {
                        } else if b == k {
                            assert(nv[a] == old_view[a]);
                        } else if a < k {
                            assert(nv[a] == old_view[a] && nv[b] == old_view[b - 1]);
                            lemma_text_lt_transitive(old_view[a].0, name@, old_view[b - 1].0);
                        } else if a == k {
                            assert(nv[b] == old_view[b - 1]);
                        } else {
                            assert(nv[a] == old_view[a - 1] && nv[b] == old_view[b - 1]);
                        }
                    }
                }
                lemma_sorted_distinct(nv);
                lemma_key_index_unique(nv, name@, k as int);
                assert forall|kk: Seq<char>| kk != name@ implies #[trigger] lookup(nv, kk) == lookup(old_view, kk) by {
                    lemma_lookup_inserted(old_view, nv, k as int, name@, value, kk);
                }
            }
        }
        self.entries = entries;
    }
}

/// Inserting a new name leaves the values of every other name as they were.
proof fn lemma_lookup_inserted<V>(
    old: Seq<(Seq<char>, V)>,
    new: Seq<(Seq<char>, V)>,
    p: int,
    name: Seq<char>,
    value: V,
    k: Seq<char>,
)
    requires
        distinct_keys(old),
        distinct_keys(new),
        0 <= p <= old.len(),
        new == old.insert(p, (name, value)),
        k != name,
    ensures
        lookup(new, k) == lookup(old, k),
{
    if has_key(old, k) {
        let i = key_index(old, k);
        let i2 = if i < p { i } else { i + 1 };
        assert(new[i2] == old[i]);
        lemma_key_index_unique(new, k, i2);
    } else if has_key(new, k) {
        let j = key_index(new, k);
        if j < p {
            assert(new[j] == old[j]);
        } else if j > p {
            assert(new[j] == old[j - 1]);
        }
    }
}

impl<V: Clone> Clone for NameMap<V> {
    /// Copies the map: same names in the same order, each value cloned.
    fn clone(&self) -> (r: Self)
        ensures
            r@.len() == self@.len(),
            forall|i: int| 0 <= i < self@.len() ==> (#[trigger] r@[i]).0 == self@[i].0 && cloned::<V>(
                self@[i].1,
                r@[i].1,
            ),
    {
        proof {
            use_type_invariant(self);
        }
        let mut entries: Vec<(String, V)> = Vec::new();
        let mut i: usize = 0;
        while i < self.entries.len()
            invariant
                i <= self.entries@.len(),
                entries@.len() == i,
                self@ == self.entries@.map_values(|p: (String, V)| (p.0@, p.1)),
                sorted_keys(self@),
                forall|j: int| 0 <= j < i ==> (#[trigger] entries@[j]).0@ == self@[j].0 && cloned::<V>(
                    self@[j].1,
                    entries@[j].1,
                ),
            decreases self.entries@.len() - i,
        {
            let k = self.entries[i].0.clone();
            let v = self.entries[i].1.clone();
            entries.push((k, v));
            i = i + 1;
        }
        let r = NameMap { entries };
        proof {
            assert forall|a: int, b: int| 0 <= a < b < r@.len() implies text_lt(#[trigger] r@[a].0, #[trigger] r@[b].0) by {
                assert(text_lt(self@[a].0, self@[b].0));
            }
        }
        r
    }
}

} // verus!
