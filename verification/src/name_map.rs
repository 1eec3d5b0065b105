//! A map keyed by name whose entries are kept in ascending name order, as
//! an ordered map of strings iterates: names compare character by character
//! by code point, and a proper prefix comes first.

use vstd::prelude::*;
use crate::text::{chars_of, str_eq};

verus! {

/// `a` sorts before `b`, comparing from index `i` on.
pub open spec fn lt_from(a: Seq<char>, b: Seq<char>, i: int) -> bool
    decreases a.len() - i,
{
    if i < 0 || i >= a.len() {
        i < b.len()
    } else if i >= b.len() {
        false
    } else if a[i] == b[i] {
        lt_from(a, b, i + 1)
    } else {
        (a[i] as int) < (b[i] as int)
    }
}

/// `a` sorts before `b`.
pub open spec fn name_lt(a: Seq<char>, b: Seq<char>) -> bool {
    lt_from(a, b, 0)
}

proof fn lemma_lt_from_irrefl(a: Seq<char>, i: int)
    requires
        0 <= i,
    ensures
        !lt_from(a, a, i),
    decreases a.len() - i,
{
    if i < a.len() {
        lemma_lt_from_irrefl(a, i + 1);
    }
}

proof fn lemma_lt_from_trans(a: Seq<char>, b: Seq<char>, c: Seq<char>, i: int)
    requires
        0 <= i,
        lt_from(a, b, i),
        lt_from(b, c, i),
    ensures
        lt_from(a, c, i),
    decreases a.len() - i,
{
    if i < a.len() && i < b.len() && i < c.len() && a[i] == b[i] && b[i] == c[i] {
        lemma_lt_from_trans(a, b, c, i + 1);
    }
}

proof fn lemma_lt_from_total(a: Seq<char>, b: Seq<char>, i: int)
    requires
        0 <= i <= a.len(),
        i <= b.len(),
        a.subrange(i, a.len() as int) != b.subrange(i, b.len() as int),
    ensures
        lt_from(a, b, i) || lt_from(b, a, i),
    decreases a.len() - i,
{
    if i < a.len() && i < b.len() && a[i] == b[i] {
        if a.subrange(i + 1, a.len() as int) == b.subrange(i + 1, b.len() as int) {
            assert(a.subrange(i, a.len() as int) =~= seq![a[i]] + a.subrange(i + 1, a.len() as int));
            assert(b.subrange(i, b.len() as int) =~= seq![b[i]] + b.subrange(i + 1, b.len() as int));
        }
        lemma_lt_from_total(a, b, i + 1);
    } else if i < a.len() && i < b.len() {
        assert(a[i] as int != b[i] as int);
    } else if i == a.len() && i == b.len() {
        assert(a.subrange(i, a.len() as int) =~= b.subrange(i, b.len() as int));
    }
}

/// Name order is a strict total order.
pub proof fn lemma_name_order(a: Seq<char>, b: Seq<char>, c: Seq<char>)
    ensures
        !name_lt(a, a),
        name_lt(a, b) && name_lt(b, c) ==> name_lt(a, c),
        a != b ==> name_lt(a, b) || name_lt(b, a),
        name_lt(a, b) ==> !name_lt(b, a),
{
    lemma_lt_from_irrefl(a, 0);
    if name_lt(a, b) && name_lt(b, c) {
        lemma_lt_from_trans(a, b, c, 0);
    }
    if a != b {
        assert(a.subrange(0, a.len() as int) =~= a);
        assert(b.subrange(0, b.len() as int) =~= b);
        lemma_lt_from_total(a, b, 0);
    }
    if name_lt(a, b) && name_lt(b, a) {
        lemma_lt_from_trans(a, b, a, 0);
    }
}

/// Whether `a` sorts before `b`.
pub fn name_less(a: &str, b: &str) -> (r: bool)
    ensures
        r == name_lt(a@, b@),
{
    let x = chars_of(a);
    let y = chars_of(b);
    let mut i: usize = 0;
    while i < x.len() && i < y.len() && x[i] == y[i]
        invariant
            x@ == a@,
            y@ == b@,
            0 <= i <= x.len(),
            i <= y.len(),
            lt_from(a@, b@, i as int) == name_lt(a@, b@),
        decreases x.len() - i,
    {
        i = i + 1;
    }
    if i == x.len() {
        i < y.len()
    } else if i == y.len() {
        false
    } else {
        x[i] < y[i]
    }
}

/// Entries whose names strictly ascend.
pub open spec fn names_ascend<V>(s: Seq<(Seq<char>, V)>) -> bool {
    forall|i: int, j: int| 0 <= i < j < s.len() ==> name_lt(#[trigger] s[i].0, #[trigger] s[j].0)
}

/// The value under `k`.
pub open spec fn lookup<V>(s: Seq<(Seq<char>, V)>, k: Seq<char>) -> Option<V>
    decreases s.len(),
{
    if s.len() == 0 {
        None
    } else if s.last().0 == k {
        Some(s.last().1)
    } else {
        lookup(s.drop_last(), k)
    }
}

proof fn lemma_lookup_found<V>(s: Seq<(Seq<char>, V)>, i: int)
    requires
        names_ascend(s),
        0 <= i < s.len(),
    ensures
        lookup(s, s[i].0) == Some(s[i].1),
    decreases s.len(),
{
    if i < s.len() - 1 {
        lemma_name_order(s[i].0, s.last().0, s.last().0);
        assert(name_lt(s[i].0, s[s.len() - 1].0));
        let d = s.drop_last();
        assert(names_ascend(d)) by {
            assert forall|a: int, b: int| 0 <= a < b < d.len() implies name_lt(
                #[trigger] d[a].0,
                #[trigger] d[b].0,
            ) by {
                assert(d[a] == s[a] && d[b] == s[b]);
            }
        }
        lemma_lookup_found(d, i);
        assert(d[i] == s[i]);
    }
}

proof fn lemma_lookup_absent<V>(s: Seq<(Seq<char>, V)>, k: Seq<char>)
    requires
        forall|i: int| 0 <= i < s.len() ==> (#[trigger] s[i]).0 != k,
    ensures
        lookup(s, k) is None,
    decreases s.len(),
{
    if s.len() > 0 {
        let d = s.drop_last();
        assert(s[s.len() - 1].0 != k);
        assert forall|i: int| 0 <= i < d.len() implies (#[trigger] d[i]).0 != k by {
            assert(d[i] == s[i]);
        }
        lemma_lookup_absent(d, k);
    }
}

/// Lookup in ascending entries: a name is present exactly where an entry
/// carries it.
proof fn lemma_lookup_index<V>(s: Seq<(Seq<char>, V)>, k: Seq<char>)
    requires
        names_ascend(s),
    ensures
        (exists|i: int| 0 <= i < s.len() && #[trigger] s[i].0 == k) ==> lookup(s, k) is Some,
        (forall|i: int| 0 <= i < s.len() ==> (#[trigger] s[i]).0 != k) ==> lookup(s, k) is None,
{
    if exists|i: int| 0 <= i < s.len() && #[trigger] s[i].0 == k {
        let i = choose|i: int| 0 <= i < s.len() && #[trigger] s[i].0 == k;
        lemma_lookup_found(s, i);
    }
    if forall|i: int| 0 <= i < s.len() ==> (#[trigger] s[i]).0 != k {
        lemma_lookup_absent(s, k);
    }
}

/// The value under `k`, seen through `f`.
pub open spec fn lookup_by<V, W>(s: Seq<(Seq<char>, V)>, k: Seq<char>, f: spec_fn(V) -> W) -> Option<W> {
    match lookup(s, k) {
        Some(v) => Some(f(v)),
        None => None,
    }
}

/// Ascending entries are fixed by what they hold: two whose values under
/// every name look alike through `f` have the same names, in the same
/// order, with values that look alike.
pub proof fn lemma_ascending_determined<V, W>(
    s1: Seq<(Seq<char>, V)>,
    s2: Seq<(Seq<char>, V)>,
    f: spec_fn(V) -> W,
)
    requires
        names_ascend(s1),
        names_ascend(s2),
        forall|k: Seq<char>| #[trigger] lookup_by(s1, k, f) == lookup_by(s2, k, f),
    ensures
        s1.len() == s2.len(),
        forall|i: int| 0 <= i < s1.len() ==> (#[trigger] s1[i]).0 == s2[i].0,
        forall|i: int| 0 <= i < s1.len() ==> f(s1[i].1) == f(#[trigger] s2[i].1),
    decreases s1.len() + s2.len(),
{
    if s1.len() == 0 && s2.len() == 0 {
    } else if s1.len() == 0 {
        let y = s2.last().0;
        assert(lookup_by(s2, y, f) is Some);
        assert(lookup_by(s1, y, f) is None);
    } else if s2.len() == 0 {
        let x = s1.last().0;
        assert(lookup_by(s1, x, f) is Some);
        assert(lookup_by(s2, x, f) is None);
    } else {
        lemma_ascending_last(s1, s2, f);
        let x = s1.last().0;
        let d1 = s1.drop_last();
        let d2 = s2.drop_last();
        assert(names_ascend(d1)) by {
            assert forall|a: int, b: int| 0 <= a < b < d1.len() implies name_lt(
                #[trigger] d1[a].0,
                #[trigger] d1[b].0,
            ) by {
                assert(d1[a] == s1[a] && d1[b] == s1[b]);
            }
        }
        assert(names_ascend(d2)) by {
            assert forall|a: int, b: int| 0 <= a < b < d2.len() implies name_lt(
                #[trigger] d2[a].0,
                #[trigger] d2[b].0,
            ) by {
                assert(d2[a] == s2[a] && d2[b] == s2[b]);
            }
        }
        assert forall|k: Seq<char>| #[trigger] lookup_by(d1, k, f) == lookup_by(d2, k, f) by {
            if k == x {
                assert forall|i: int| 0 <= i < d1.len() implies (#[trigger] d1[i]).0 != k by {
                    assert(d1[i] == s1[i]);
                    lemma_name_order(s1[i].0, x, x);
                }
                assert forall|i: int| 0 <= i < d2.len() implies (#[trigger] d2[i]).0 != k by {
                    assert(d2[i] == s2[i]);
                    lemma_name_order(s2[i].0, x, x);
                }
                lemma_lookup_absent(d1, k);
                lemma_lookup_absent(d2, k);
            } else {
                assert(lookup_by(s1, k, f) == lookup_by(d1, k, f));
                assert(lookup_by(s2, k, f) == lookup_by(d2, k, f));
            }
        }
        lemma_ascending_determined(d1, d2, f);
        assert forall|i: int| 0 <= i < s1.len() implies (#[trigger] s1[i]).0 == s2[i].0 by {
            if i < d1.len() {
                assert(d1[i] == s1[i] && d2[i] == s2[i]);
            } else {
                assert(s1[i] == s1.last() && s2[i] == s2.last());
            }
        }
        assert forall|i: int| 0 <= i < s1.len() implies f(s1[i].1) == f(#[trigger] s2[i].1) by {
            if i < d1.len() {
                assert(d1[i] == s1[i] && d2[i] == s2[i]);
                assert(f(d1[i].1) == f(d2[i].1));
            } else {
                assert(s1[i] == s1.last() && s2[i] == s2.last());
            }
        }
    }
}

/// Two non-empty ascending entry lists that hold alike end in the same name,
/// with values that look alike.
proof fn lemma_ascending_last<V, W>(s1: Seq<(Seq<char>, V)>, s2: Seq<(Seq<char>, V)>, f: spec_fn(V) -> W)
    requires
        names_ascend(s1),
        names_ascend(s2),
        s1.len() > 0,
        s2.len() > 0,
        forall|k: Seq<char>| #[trigger] lookup_by(s1, k, f) == lookup_by(s2, k, f),
    ensures
        s1.last().0 == s2.last().0,
        f(s1.last().1) == f(s2.last().1),
{
    let x = s1.last().0;
    let y = s2.last().0;
    if x != y {
        lemma_name_order(x, y, y);
        if name_lt(x, y) {
            // `y` is held by `s1` too, under a name that is at most `x`.
            assert(lookup_by(s2, y, f) is Some);
            assert(lookup_by(s1, y, f) is Some);
            lemma_lookup_index(s1, y);
            let i = choose|i: int| 0 <= i < s1.len() && #[trigger] s1[i].0 == y;
            if i < s1.len() - 1 {
                lemma_name_order(y, x, y);
            }
        } else {
            assert(lookup_by(s1, x, f) is Some);
            assert(lookup_by(s2, x, f) is Some);
            lemma_lookup_index(s2, x);
            let j = choose|j: int| 0 <= j < s2.len() && #[trigger] s2[j].0 == x;
            if j < s2.len() - 1 {
                lemma_name_order(x, y, x);
            }
        }
    }
    assert(lookup_by(s1, x, f) == Some(f(s1.last().1)));
    assert(lookup_by(s2, x, f) == Some(f(s2.last().1)));
}

/// A map from names to values, its entries in ascending name order.
#[derive(Debug)]
pub struct NameMap<V> {
    entries: Vec<(String, V)>,
}

impl<V> NameMap<V> {
    #[verifier::type_invariant]
    spec fn ascending(self) -> bool {
        names_ascend(self.entries_view())
    }

    /// The entries, in ascending name order.
    pub closed spec fn entries_view(self) -> Seq<(Seq<char>, V)> {
        self.entries@.map_values(|e: (String, V)| (e.0@, e.1))
    }

    /// The value under `k`.
    pub open spec fn get_spec(self, k: Seq<char>) -> Option<V> {
        lookup(self.entries_view(), k)
    }

    /// An empty map.
    pub fn new() -> (r: Self)
        ensures
            r.entries_view().len() == 0,
            names_ascend(r.entries_view()),
    {
        let r = NameMap { entries: Vec::new() };
        assert(r.entries_view() =~= Seq::<(Seq<char>, V)>::empty());
        r
    }

    /// The number of entries.
    pub fn len(&self) -> (r: usize)
        ensures
            r == self.entries_view().len(),
    {
        self.entries.len()
    }

    /// Whether the map has no entries.
    pub fn is_empty(&self) -> (r: bool)
        ensures
            r == (self.entries_view().len() == 0),
    {
        self.entries.len() == 0
    }

    /// The name of entry `i`.
    pub fn name_at(&self, i: usize) -> (r: &String)
        requires
            i < self.entries_view().len(),
        ensures
            r@ == self.entries_view()[i as int].0,
            self.get_spec(r@) == Some(self.entries_view()[i as int].1),
    {
        proof {
            use_type_invariant(self);
            lemma_lookup_found(self.entries_view(), i as int);
        }
        &self.entries[i].0
    }

    /// The value of entry `i`.
    pub fn value_at(&self, i: usize) -> (r: &V)
        requires
            i < self.entries_view().len(),
        ensures
            *r == self.entries_view()[i as int].1,
    {
        &self.entries[i].1
    }

    /// The index of the entry named `k`, if any.
    pub fn find(&self, k: &str) -> (r: Option<usize>)
        ensures
            match r {
                Some(i) => i < self.entries_view().len() && self.entries_view()[i as int].0 == k@,
                None => forall|i: int|
                    0 <= i < self.entries_view().len() ==> (#[trigger] self.entries_view()[i]).0
                        != k@,
            },
    {
        let mut i: usize = 0;
        while i < self.entries.len()
            invariant
                0 <= i <= self.entries.len(),
                forall|j: int| 0 <= j < i ==> (#[trigger] self.entries_view()[j]).0 != k@,
            decreases self.entries.len() - i,
        {
            if str_eq(self.entries[i].0.as_str(), k) {
                return Some(i);
            }
            i = i + 1;
        }
        None
    }

    /// Whether an entry is named `k`.
    pub fn contains_key(&self, k: &str) -> (r: bool)
        ensures
            r == self.get_spec(k@) is Some,
    {
        proof {
            use_type_invariant(self);
            lemma_lookup_index(self.entries_view(), k@);
        }
        self.find(k).is_some()
    }

    /// The value under `k`.
    pub fn get(&self, k: &str) -> (r: Option<&V>)
        ensures
            match self.get_spec(k@) {
                Some(v) => r matches Some(x) && *x == v,
                None => r is None,
            },
    {
        proof {
            use_type_invariant(self);
            lemma_lookup_index(self.entries_view(), k@);
        }
        match self.find(k) {
            Some(i) => {
                proof {
                    lemma_lookup_found(self.entries_view(), i as int);
                }
                Some(&self.entries[i].1)
            },
            None => None,
        }
    }

    /// Replace the value of entry `i`, keeping its name.
    pub fn set_value(&mut self, i: usize, v: V)
        requires
            i < old(self).entries_view().len(),
        ensures
            final(self).entries_view() == old(self).entries_view().update(
                i as int,
                (old(self).entries_view()[i as int].0, v),
            ),
    {
        proof {
            use_type_invariant(&*self);
        }
        let ghost s = self.entries_view();
        let mut entries: Vec<(String, V)> = Vec::new();
        std::mem::swap(&mut entries, &mut self.entries);
        assert(entries@.map_values(|e: (String, V)| (e.0@, e.1)) == s);
        let k = entries[i].0.clone();
        entries.set(i, (k, v));
        let ghost t = s.update(i as int, (s[i as int].0, v));
        assert(entries@.map_values(|e: (String, V)| (e.0@, e.1)) =~= t);
        assert(names_ascend(t)) by {
            assert forall|a: int, b: int| 0 <= a < b < t.len() implies name_lt(
                #[trigger] t[a].0,
                #[trigger] t[b].0,
            ) by {
                assert(s[a].0 == t[a].0 && s[b].0 == t[b].0);
            }
        }
        self.entries = entries;
    }

    /// Set the value under `key`: the entry named `key` is replaced, or a
    /// new one is placed in name order.
    pub fn insert(&mut self, key: String, value: V)
        ensures
            final(self).get_spec(key@) == Some(value),
            forall|k: Seq<char>| k != key@ ==> #[trigger] final(self).get_spec(k) == old(self).get_spec(k),
            names_ascend(final(self).entries_view()),
            final(self).entries_view().len() == old(self).entries_view().len() + if old(self).get_spec(
                key@,
            ) is Some {
                0int
            } else {
                1int
            },
    {
        proof {
            use_type_invariant(&*self);
        }
        let ghost s = self.entries_view();
        let mut i: usize = 0;
        while i < self.entries.len() && name_less(self.entries[i].0.as_str(), key.as_str())
            invariant
                s == self.entries_view(),
                names_ascend(s),
                0 <= i <= self.entries.len(),
                forall|j: int| 0 <= j < i ==> name_lt(#[trigger] s[j].0, key@),
            decreases self.entries.len() - i,
        {
            i = i + 1;
        }
        proof {
            lemma_lookup_index(s, key@);
        }
        let mut entries: Vec<(String, V)> = Vec::new();
        std::mem::swap(&mut entries, &mut self.entries);
        assert(entries@.map_values(|e: (String, V)| (e.0@, e.1)) == s);
        if i < entries.len() && str_eq(entries[i].0.as_str(), key.as_str()) {
            let ghost t = s.update(i as int, (key@, value));
            entries.set(i, (key, value));
            assert(entries@.map_values(|e: (String, V)| (e.0@, e.1)) =~= t);
            proof {
                assert(names_ascend(t)) by {
                    assert forall|a: int, b: int| 0 <= a < b < t.len() implies name_lt(
                        #[trigger] t[a].0,
                        #[trigger] t[b].0,
                    ) by {
                        assert(s[a].0 == t[a].0 && s[b].0 == t[b].0);
                    }
                }
                lemma_lookup_found(t, i as int);
                assert forall|k: Seq<char>| k != key@ implies #[trigger] lookup(t, k) == lookup(s, k) by {
                    lemma_lookup_index(t, k);
                    lemma_lookup_index(s, k);
                    if exists|j: int| 0 <= j < s.len() && #[trigger] s[j].0 == k {
                        let j = choose|j: int| 0 <= j < s.len() && #[trigger] s[j].0 == k;
                        assert(t[j] == s[j]);
                        lemma_lookup_found(s, j);
                        lemma_lookup_found(t, j);
                    } else {
                        assert forall|j: int| 0 <= j < t.len() implies (#[trigger] t[j]).0 != k by {
                            if j != i {
                                assert(t[j] == s[j]);
                            }
                        }
                    }
                }
                assert(s[i as int].0 == key@);
            }
            self.entries = entries;
        } else {
            let ghost t = s.insert(i as int, (key@, value));
            proof {
                if i < s.len() {
                    lemma_name_order(key@, s[i as int].0, s[i as int].0);
                    assert(!name_lt(s[i as int].0, key@));
                    assert(name_lt(key@, s[i as int].0));
                }
                assert(names_ascend(t)) by {
                    assert forall|a: int, b: int| 0 <= a < b < t.len() implies name_lt(
                        #[trigger] t[a].0,
                        #[trigger] t[b].0,
                    ) by {
                        if b < i {
                            assert(t[a] == s[a] && t[b] == s[b]);
                        } else if b == i {
                            assert(t[a] == s[a]);
                        } else if a == i {
                            assert(t[b] == s[b - 1]);
                            if b - 1 > i {
                                lemma_name_order(key@, s[i as int].0, s[b - 1].0);
                            }
                        } else if a < i {
                            assert(t[a] == s[a] && t[b] == s[b - 1]);
                        } else {
                            assert(t[a] == s[a - 1] && t[b] == s[b - 1]);
                        }
                    }
                }
                assert forall|j: int| 0 <= j < s.len() implies (#[trigger] s[j]).0 != key@ by {
                    if j < i {
                        lemma_name_order(s[j].0, key@, key@);
                    } else if j > i {
                        lemma_name_order(key@, s[i as int].0, s[j].0);
                        lemma_name_order(key@, s[j].0, s[j].0);
                    }
                }
                lemma_lookup_index(s, key@);
                assert(t[i as int] == (key@, value));
                lemma_lookup_found(t, i as int);
                assert forall|k: Seq<char>| k != key@ implies #[trigger] lookup(t, k) == lookup(s, k) by {
                    lemma_lookup_index(t, k);
                    lemma_lookup_index(s, k);
                    if exists|j: int| 0 <= j < s.len() && #[trigger] s[j].0 == k {
                        let j = choose|j: int| 0 <= j < s.len() && #[trigger] s[j].0 == k;
                        lemma_lookup_found(s, j);
                        if j < i {
                            assert(t[j] == s[j]);
                            lemma_lookup_found(t, j);
                        } else {
                            assert(t[j + 1] == s[j]);
                            lemma_lookup_found(t, j + 1);
                        }
                    } else {
                        assert forall|j: int| 0 <= j < t.len() implies (#[trigger] t[j]).0 != k by {
                            if j < i {
                                assert(t[j] == s[j]);
                            } else if j > i {
                                assert(t[j] == s[j - 1]);
                            }
                        }
                    }
                }
            }
            entries.insert(i, (key, value));
            assert(entries@.map_values(|e: (String, V)| (e.0@, e.1)) =~= t);
            self.entries = entries;
        }
    }
}

} // verus!
