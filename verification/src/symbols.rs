//! Small maps and sets keyed by a symbol's text.
use crate::text::{lower, own, same, views};
use vstd::prelude::*;

verus! {

/// A map from texts to values. The first entry of a key is the one that counts.
#[derive(Debug)]
pub struct SymMap<V> {
    entries: Vec<(String, V)>,
}

/// The value of the first entry with key `k`.
pub open spec fn lookup<V>(e: Seq<(String, V)>, k: Seq<char>) -> Option<V>
    decreases e.len(),
{
    if e.len() == 0 {
        None
    } else if e[0].0@ == k {
        Some(e[0].1)
    } else {
        lookup(e.drop_first(), k)
    }
}

/// The first entry of a key is the one found.
pub proof fn lemma_lookup_first<V>(e: Seq<(String, V)>, k: Seq<char>, i: int)
    requires
        0 <= i < e.len(),
        e[i].0@ == k,
        forall|j: int| 0 <= j < i ==> (#[trigger] e[j]).0@ != k,
    ensures
        lookup(e, k) == Some(e[i].1),
    decreases i,
{
    if i > 0 {
        assert(e[0].0@ != k);
        assert forall|j: int| 0 <= j < i - 1 implies (#[trigger] e.drop_first()[j]).0@ != k by {
            assert(e.drop_first()[j] == e[j + 1]);
        }
        lemma_lookup_first(e.drop_first(), k, i - 1);
    }
}

/// A key without an entry is not found.
pub proof fn lemma_lookup_none<V>(e: Seq<(String, V)>, k: Seq<char>)
    requires
        forall|j: int| 0 <= j < e.len() ==> (#[trigger] e[j]).0@ != k,
    ensures
        lookup(e, k) is None,
    decreases e.len(),
{
    if e.len() > 0 {
        assert(e[0].0@ != k);
        assert forall|j: int| 0 <= j < e.len() - 1 implies (#[trigger] e.drop_first()[j]).0@
            != k by {
            assert(e.drop_first()[j] == e[j + 1]);
        }
        lemma_lookup_none(e.drop_first(), k);
    }
}

/// A key that is found has a first entry.
proof fn lemma_lookup_some<V>(e: Seq<(String, V)>, k: Seq<char>) -> (i: int)
    requires
        lookup(e, k) is Some,
    ensures
        0 <= i < e.len(),
        e[i].0@ == k,
        forall|j: int| 0 <= j < i ==> (#[trigger] e[j]).0@ != k,
        lookup(e, k) == Some(e[i].1),
    decreases e.len(),
{
    if e[0].0@ == k {
        0
    } else {
        let i = lemma_lookup_some(e.drop_first(), k);
        assert(e.drop_first()[i] == e[i + 1]);
        assert forall|j: int| 0 <= j < i + 1 implies (#[trigger] e[j]).0@ != k by {
            if j > 0 {
                assert(e.drop_first()[j - 1] == e[j]);
            }
        }
        i + 1
    }
}

/// A listed key is found.
pub proof fn lemma_listed_key<V>(e: Seq<(String, V)>, i: int)
    requires
        0 <= i < e.len(),
    ensures
        lookup(e, e[i].0@) is Some,
    decreases i,
{
    if i > 0 && e[0].0@ != e[i].0@ {
        assert(e.drop_first()[i - 1] == e[i]);
        lemma_listed_key(e.drop_first(), i - 1);
    }
}

/// A key that is found is listed.
pub proof fn lemma_key_place<V>(e: Seq<(String, V)>, k: Seq<char>) -> (i: int)
    requires
        lookup(e, k) is Some,
    ensures
        0 <= i < e.len(),
        e[i].0@ == k,
{
    lemma_lookup_some(e, k)
}

proof fn lemma_lookup_update<V>(e: Seq<(String, V)>, i: int, x: (String, V), q: Seq<char>)
    requires
        0 <= i < e.len(),
        e[i].0@ == x.0@,
        q != x.0@,
    ensures
        lookup(e.update(i, x), q) == lookup(e, q),
    decreases e.len(),
{
    if i == 0 {
        assert(e.update(0, x).drop_first() =~= e.drop_first());
    } else if e[0].0@ != q {
        assert(e.update(i, x).drop_first() =~= e.drop_first().update(i - 1, x));
        lemma_lookup_update(e.drop_first(), i - 1, x, q);
    }
}

proof fn lemma_lookup_push<V>(e: Seq<(String, V)>, x: (String, V), q: Seq<char>)
    ensures
        q != x.0@ ==> lookup(e.push(x), q) == lookup(e, q),
        lookup(e, q) is Some ==> lookup(e.push(x), q) == lookup(e, q),
        lookup(e, q) is None && q == x.0@ ==> lookup(e.push(x), q) == Some(x.1),
    decreases e.len(),
{
    if e.len() == 0 {
        assert(e.push(x).drop_first() =~= Seq::<(String, V)>::empty());
        assert(e.push(x)[0] == x);
        assert(lookup(e.push(x).drop_first(), q) is None);
    } else {
        assert(e.push(x)[0] == e[0]);
        assert(e.push(x).drop_first() =~= e.drop_first().push(x));
        lemma_lookup_push(e.drop_first(), x, q);
    }
}

impl<V> View for SymMap<V> {
    type V = Map<Seq<char>, V>;

    closed spec fn view(&self) -> Map<Seq<char>, V> {
        Map::new(
            |k: Seq<char>| lookup(self.list(), k) is Some,
            |k: Seq<char>| lookup(self.list(), k)->0,
        )
    }
}

impl<V> SymMap<V> {
    /// The entries in the order in which their keys came.
    pub closed spec fn list(&self) -> Seq<(String, V)> {
        self.entries@
    }

    /// The map is what its entries say.
    pub proof fn lemma_view(&self, k: Seq<char>)
        ensures
            self@.contains_key(k) <==> lookup(self.list(), k) is Some,
            self@.contains_key(k) ==> self@[k] == lookup(self.list(), k)->0,
    {
    }

    /// The map has finitely many keys.
    pub proof fn lemma_finite(&self)
        ensures
            self@.dom().finite(),
    {
        let keys = Seq::new(self.list().len(), |i: int| self.list()[i].0@);
        assert forall|k: Seq<char>| self@.dom().contains(k) implies keys.to_set().contains(k) by {
            let i = lemma_lookup_some(self.list(), k);
            assert(keys[i] == k);
        }
        vstd::seq_lib::seq_to_set_is_finite(keys);
        vstd::set_lib::lemma_set_subset_finite(keys.to_set(), self@.dom());
    }

    pub fn new() -> (r: Self)
        ensures
            r@ == Map::<Seq<char>, V>::empty(),
            r.list().len() == 0,
    {
        let r = SymMap { entries: Vec::new() };
        proof {
            assert(r@ =~= Map::<Seq<char>, V>::empty());
        }
        r
    }

    fn find(&self, k: &str) -> (r: Option<usize>)
        ensures
            match r {
                Some(i) => {
                    &&& i < self.entries@.len()
                    &&& self.entries@[i as int].0@ == k@
                    &&& forall|j: int| 0 <= j < i ==> (#[trigger] self.entries@[j]).0@ != k@
                    &&& lookup(self.entries@, k@) == Some(self.entries@[i as int].1)
                },
                None => lookup(self.entries@, k@) is None,
            },
    {
        let mut i: usize = 0;
        while i < self.entries.len()
            invariant
                i <= self.entries@.len(),
                forall|j: int| 0 <= j < i ==> (#[trigger] self.entries@[j]).0@ != k@,
            decreases self.entries@.len() - i,
        {
            if same(self.entries[i].0.as_str(), k) {
                proof {
                    lemma_lookup_first(self.entries@, k@, i as int);
                }
                return Some(i);
            }
            i = i + 1;
        }
        proof {
            lemma_lookup_none(self.entries@, k@);
        }
        None
    }

    pub fn get(&self, k: &str) -> (r: Option<&V>)
        ensures
            match r {
                Some(v) => self@.contains_key(k@) && *v == self@[k@],
                None => !self@.contains_key(k@),
            },
    {
        match self.find(k) {
            Some(i) => Some(&self.entries[i].1),
            None => None,
        }
    }

    pub fn contains_key(&self, k: &str) -> (r: bool)
        ensures
            r == self@.contains_key(k@),
    {
        self.find(k).is_some()
    }

    pub fn insert(&mut self, k: &str, v: V)
        ensures
            final(self)@ == old(self)@.insert(k@, v),
    {
        let ghost before = self.entries@;
        let found: Option<usize> = self.find(k);
        match found {
            Some(i) => {
                self.entries.set(i, (own(k), v));
                proof {
                    let x = self.entries@[i as int];
                    assert(self.entries@ == before.update(i as int, x));
                    assert forall|q: Seq<char>| q != k@ implies #[trigger] lookup(self.entries@, q)
                        == lookup(before, q) by {
                        lemma_lookup_update(before, i as int, x, q);
                    }
                    assert(lookup(self.entries@, k@) == Some(v)) by {
                        lemma_found_first(before, k@, i as int, x);
                    }
                    assert(final(self)@ =~= old(self)@.insert(k@, v));
                }
            },
            None => {
                self.entries.push((own(k), v));
                proof {
                    let x = self.entries@.last();
                    assert(self.entries@ == before.push(x));
                    assert forall|q: Seq<char>| #[trigger] lookup(self.entries@, q) == (if q == k@ {
                        Some(v)
                    } else {
                        lookup(before, q)
                    }) by {
                        lemma_lookup_push(before, x, q);
                    }
                    assert(final(self)@ =~= old(self)@.insert(k@, v));
                }
            },
        }
    }

    /// Drops the key.
    pub fn remove(&mut self, k: &str)
        ensures
            final(self)@ == old(self)@.remove(k@),
    {
        let ghost before = self.entries@;
        let mut i: usize = 0;
        while i < self.entries.len()
            invariant
                i <= self.entries@.len(),
                forall|j: int| 0 <= j < i ==> (#[trigger] self.entries@[j]).0@ != k@,
                forall|q: Seq<char>|
                    q != k@ ==> #[trigger] lookup(self.entries@, q) == lookup(before, q),
            decreases self.entries@.len() - i,
        {
            if same(self.entries[i].0.as_str(), k) {
                let ghost mid = self.entries@;
                self.entries.remove(i);
                proof {
                    assert forall|q: Seq<char>| q != k@ implies #[trigger] lookup(self.entries@, q)
                        == lookup(before, q) by {
                        lemma_lookup_drop(mid, i as int, q);
                        assert(self.entries@ == mid.remove(i as int));
                    }
                }
            } else {
                i = i + 1;
            }
        }
        proof {
            lemma_lookup_none(self.entries@, k@);
            assert(final(self)@ =~= old(self)@.remove(k@));
        }
    }

    /// How many entries there are.
    pub fn len(&self) -> (r: usize)
        ensures
            r == self.list().len(),
    {
        self.entries.len()
    }

    /// The key of the `i`-th entry.
    pub fn key_at(&self, i: usize) -> (r: &str)
        requires
            i < self.list().len(),
        ensures
            r@ == self.list()[i as int].0@,
    {
        self.entries[i].0.as_str()
    }

    /// The value of the `i`-th entry.
    pub fn value_at(&self, i: usize) -> (r: &V)
        requires
            i < self.list().len(),
        ensures
            *r == self.list()[i as int].1,
    {
        &self.entries[i].1
    }
}

proof fn lemma_found_first<V>(e: Seq<(String, V)>, k: Seq<char>, i: int, x: (String, V))
    requires
        0 <= i < e.len(),
        e[i].0@ == k,
        x.0@ == k,
        forall|j: int| 0 <= j < i ==> (#[trigger] e[j]).0@ != k,
    ensures
        lookup(e.update(i, x), k) == Some(x.1),
{
    let f = e.update(i, x);
    assert forall|j: int| 0 <= j < i implies (#[trigger] f[j]).0@ != k by {
        assert(f[j] == e[j]);
    }
    lemma_lookup_first(f, k, i);
}

proof fn lemma_lookup_drop<V>(e: Seq<(String, V)>, i: int, q: Seq<char>)
    requires
        0 <= i < e.len(),
        e[i].0@ != q,
    ensures
        lookup(e.remove(i), q) == lookup(e, q),
    decreases e.len(),
{
    if i == 0 {
        assert(e.remove(0) =~= e.drop_first());
    } else {
        assert(e.remove(i)[0] == e[0]);
        assert(e.remove(i).drop_first() =~= e.drop_first().remove(i - 1));
        lemma_lookup_drop(e.drop_first(), i - 1, q);
    }
}

impl<V: Clone> Clone for SymMap<V> {
    /// A copy with the same keys, each value cloned.
    fn clone(&self) -> (r: Self)
        ensures
            r.list().len() == self.list().len(),
            forall|i: int|
                0 <= i < self.list().len() ==> (#[trigger] r.list()[i]).0@ == self.list()[i].0@
                    && cloned(self.list()[i].1, r.list()[i].1),
    {
        let mut out: Vec<(String, V)> = Vec::new();
        let mut i: usize = 0;
        while i < self.entries.len()
            invariant
                i <= self.entries@.len(),
                out@.len() == i,
                forall|j: int|
                    0 <= j < i ==> (#[trigger] out@[j]).0@ == self.entries@[j].0@ && cloned(
                        self.entries@[j].1,
                        out@[j].1,
                    ),
            decreases self.entries@.len() - i,
        {
            out.push((own(self.entries[i].0.as_str()), self.entries[i].1.clone()));
            i = i + 1;
        }
        SymMap { entries: out }
    }
}

/// Entries with the same keys and values give the same map.
pub proof fn lemma_same_lists<V>(a: SymMap<V>, b: SymMap<V>)
    requires
        a.list().len() == b.list().len(),
        forall|i: int|
            0 <= i < a.list().len() ==> (#[trigger] a.list()[i]).0@ == b.list()[i].0@
                && a.list()[i].1 == b.list()[i].1,
    ensures
        a@ == b@,
{
    assert forall|k: Seq<char>| lookup(a.list(), k) == lookup(b.list(), k) by {
        lemma_same_lookup(a.list(), b.list(), k);
    }
    assert(a@ =~= b@);
}

proof fn lemma_same_lookup<V>(a: Seq<(String, V)>, b: Seq<(String, V)>, k: Seq<char>)
    requires
        a.len() == b.len(),
        forall|i: int|
            0 <= i < a.len() ==> (#[trigger] a[i]).0@ == b[i].0@ && a[i].1 == b[i].1,
    ensures
        lookup(a, k) == lookup(b, k),
    decreases a.len(),
{
    if a.len() > 0 {
        assert(a[0].0@ == b[0].0@);
        assert forall|i: int| 0 <= i < a.len() - 1 implies (#[trigger] a.drop_first()[i]).0@
            == b.drop_first()[i].0@ && a.drop_first()[i].1 == b.drop_first()[i].1 by {
            assert(a.drop_first()[i] == a[i + 1]);
        }
        lemma_same_lookup(a.drop_first(), b.drop_first(), k);
    }
}

/// A set of texts.
#[derive(Debug)]
pub struct SymSet {
    items: Vec<String>,
}

/// Whether a set holds a text, ASCII case aside.
pub open spec fn holds_ignoring_case(s: Set<Seq<char>>, k: Seq<char>) -> bool {
    exists|q: Seq<char>| #[trigger] s.contains(q) && lower(q) == lower(k)
}

impl View for SymSet {
    type V = Set<Seq<char>>;

    closed spec fn view(&self) -> Set<Seq<char>> {
        views(self.items@).to_set()
    }
}

impl SymSet {
    pub fn new() -> (r: Self)
        ensures
            r@ == Set::<Seq<char>>::empty(),
    {
        let r = SymSet { items: Vec::new() };
        proof {
            assert(r@ =~= Set::<Seq<char>>::empty());
        }
        r
    }

    pub fn contains(&self, k: &str) -> (r: bool)
        ensures
            r == self@.contains(k@),
    {
        crate::text::listed(self.items.as_slice(), k)
    }

    /// Whether the set holds a text, ASCII case aside.
    pub fn contains_ignoring_case(&self, k: &str) -> (r: bool)
        ensures
            r == holds_ignoring_case(self@, k@),
    {
        let mut i: usize = 0;
        while i < self.items.len()
            invariant
                i <= self.items@.len(),
                forall|j: int| 0 <= j < i ==> lower((#[trigger] self.items@[j])@) != lower(k@),
            decreases self.items@.len() - i,
        {
            if self.items[i].as_str().eq_ignore_ascii_case(k) {
                proof {
                    assert(views(self.items@)[i as int] == self.items@[i as int]@);
                    assert(self@.contains(self.items@[i as int]@));
                }
                return true;
            }
            i = i + 1;
        }
        proof {
            assert forall|q: Seq<char>| #[trigger] self@.contains(q) implies lower(q) != lower(k@) by {
                let j = choose|j: int|
                    0 <= j < views(self.items@).len() && views(self.items@)[j] == q;
                assert(self.items@[j]@ == q);
            }
        }
        false
    }

    pub fn insert(&mut self, k: &str)
        ensures
            final(self)@ == old(self)@.insert(k@),
    {
        let ghost before = self.items@;
        if !self.contains(k) {
            self.items.push(own(k));
            proof {
                assert(views(self.items@) =~= views(before).push(k@));
                assert forall|q: Seq<char>|
                    views(self.items@).contains(q) <==> views(before).contains(q) || q == k@ by {
                    let w = views(before);
                    if w.contains(q) {
                        let i = choose|i: int| 0 <= i < w.len() && w[i] == q;
                        assert(views(self.items@)[i] == q);
                    }
                    if q == k@ {
                        assert(views(self.items@)[w.len() as int] == q);
                    }
                    if views(self.items@).contains(q) {
                        let i = choose|i: int|
                            0 <= i < views(self.items@).len() && views(self.items@)[i] == q;
                        if i < w.len() {
                            assert(w[i] == q);
                        }
                    }
                }
            }
        }
        proof {
            assert(final(self)@ =~= old(self)@.insert(k@));
        }
    }

    pub fn remove(&mut self, k: &str)
        ensures
            final(self)@ == old(self)@.remove(k@),
    {
        let ghost before = self.items@;
        let mut out: Vec<String> = Vec::new();
        let mut i: usize = 0;
        while i < self.items.len()
            invariant
                i <= self.items@.len(),
                self.items@ == before,
                forall|q: Seq<char>|
                    views(out@).contains(q) <==> q != k@ && views(before.take(i as int)).contains(
                        q,
                    ),
            decreases self.items@.len() - i,
        {
            let ghost prev = out@;
            let ghost taken = before.take(i as int);
            if !same(self.items[i].as_str(), k) {
                out.push(own(self.items[i].as_str()));
            }
            proof {
                let more = before.take(i as int + 1);
                assert(views(more) =~= views(taken).push(before[i as int]@));
                lemma_contains_push(views(taken), before[i as int]@);
                if before[i as int]@ != k@ {
                    assert(views(out@) =~= views(prev).push(before[i as int]@));
                    lemma_contains_push(views(prev), before[i as int]@);
                }
            }
            i = i + 1;
        }
        proof {
            assert(before.take(i as int) =~= before);
        }
        self.items = out;
        proof {
            assert(final(self)@ =~= old(self)@.remove(k@));
        }
    }

    /// The elements.
    pub fn items(&self) -> (r: &Vec<String>)
        ensures
            views(r@).to_set() == self@,
    {
        &self.items
    }
}

/// Membership after appending one element.
pub proof fn lemma_contains_push<A>(s: Seq<A>, x: A)
    ensures
        forall|q: A| #[trigger] s.push(x).contains(q) <==> s.contains(q) || q == x,
{
    assert forall|q: A| #[trigger] s.push(x).contains(q) <==> s.contains(q) || q == x by {
        if s.contains(q) {
            let i = choose|i: int| 0 <= i < s.len() && s[i] == q;
            assert(s.push(x)[i] == q);
        }
        if q == x {
            assert(s.push(x)[s.len() as int] == q);
        }
        if s.push(x).contains(q) {
            let i = choose|i: int| 0 <= i < s.push(x).len() && s.push(x)[i] == q;
            if i < s.len() {
                assert(s[i] == q);
            }
        }
    }
}

impl Clone for SymSet {
    fn clone(&self) -> (r: Self)
        ensures
            r@ == self@,
    {
        let out: Vec<String> = self.items.clone();
        proof {
            assert(views(out@) =~= views(self.items@));
        }
        SymSet { items: out }
    }
}

} // verus!
