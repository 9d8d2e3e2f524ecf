//! A map keyed by strings: a list of pairs with distinct keys, in the order the
//! keys were first inserted.
use vstd::prelude::*;
use crate::text::{lemma_lex_irreflexive, lemma_lex_total, lemma_lex_transitive, lex_less, str_eq, str_less};

verus! {

/// The map a list of pairs describes; a later pair for a key wins.
pub open spec fn map_of<V>(ps: Seq<(Seq<char>, V)>) -> Map<Seq<char>, V>
    decreases ps.len(),
{
    if ps.len() == 0 {
        Map::empty()
    } else {
        map_of(ps.drop_last()).insert(ps.last().0, ps.last().1)
    }
}

/// No key occurs twice.
pub open spec fn distinct_keys<V>(ps: Seq<(Seq<char>, V)>) -> bool {
    forall|i: int, j: int| 0 <= i < ps.len() && 0 <= j < ps.len() && i != j ==> ps[i].0 != ps[j].0
}

/// Some pair has key `k`.
pub open spec fn has_key<V>(ps: Seq<(Seq<char>, V)>, k: Seq<char>) -> bool {
    exists|i: int| 0 <= i < ps.len() && ps[i].0 == k
}

/// The pairs after setting `k` to `v`: in place where `k` already is, else at the end.
pub open spec fn inserted_pairs<V>(ps: Seq<(Seq<char>, V)>, k: Seq<char>, v: V) -> Seq<(Seq<char>, V)> {
    if has_key(ps, k) {
        ps.update(choose|i: int| 0 <= i < ps.len() && ps[i].0 == k, (k, v))
    } else {
        ps.push((k, v))
    }
}

/// With distinct keys, the map holds exactly the pairs' keys, each with its value.
pub proof fn lemma_map_of<V>(ps: Seq<(Seq<char>, V)>)
    requires
        distinct_keys(ps),
    ensures
        forall|k: Seq<char>| #[trigger] map_of(ps).dom().contains(k) <==> has_key(ps, k),
        forall|i: int| 0 <= i < ps.len() ==> #[trigger] map_of(ps)[ps[i].0] == ps[i].1,
        map_of(ps).dom().finite(),
        map_of(ps).dom().len() == ps.len(),
    decreases ps.len(),
{
    if ps.len() > 0 {
        let init = ps.drop_last();
        let last = ps.last();
        let n = ps.len() - 1;
        assert(distinct_keys(init)) by {
            assert forall|i: int, j: int| 0 <= i < init.len() && 0 <= j < init.len() && i != j implies init[i].0 != init[j].0 by {
                assert(init[i] == ps[i] && init[j] == ps[j]);
            }
        }
        lemma_map_of(init);
        assert(!has_key(init, last.0)) by {
            if has_key(init, last.0) {
                let i = choose|i: int| 0 <= i < init.len() && init[i].0 == last.0;
                assert(init[i] == ps[i]);
                assert(ps[i].0 != ps[n].0);
            }
        }
        assert forall|k: Seq<char>| #[trigger] map_of(ps).dom().contains(k) <==> has_key(ps, k) by {
            if has_key(ps, k) {
                let i = choose|i: int| 0 <= i < ps.len() && ps[i].0 == k;
                if i < n {
                    assert(init[i] == ps[i]);
                    assert(has_key(init, k));
                }
            }
            if map_of(ps).dom().contains(k) && k != last.0 {
                assert(has_key(init, k));
                let i = choose|i: int| 0 <= i < init.len() && init[i].0 == k;
                assert(init[i] == ps[i]);
            }
        }
        assert forall|i: int| 0 <= i < ps.len() implies #[trigger] map_of(ps)[ps[i].0] == ps[i].1 by {
            if i < n {
                assert(init[i] == ps[i]);
                assert(ps[i].0 != ps[n].0);
            }
        }
    }
}

/// Walking the pairs in order: the map of the first `i + 1` pairs is that of the
/// first `i` with pair `i` added, whose key was not among them.
pub proof fn lemma_map_of_prefix<V>(ps: Seq<(Seq<char>, V)>, i: int)
    requires
        distinct_keys(ps),
        0 <= i < ps.len(),
    ensures
        distinct_keys(ps.subrange(0, i)),
        map_of(ps.subrange(0, i + 1)) == map_of(ps.subrange(0, i)).insert(ps[i].0, ps[i].1),
        !map_of(ps.subrange(0, i)).contains_key(ps[i].0),
{
    let pre = ps.subrange(0, i);
    assert(ps.subrange(0, i + 1).drop_last() =~= pre);
    assert(distinct_keys(pre)) by {
        assert forall|a: int, b: int| 0 <= a < pre.len() && 0 <= b < pre.len() && a != b implies pre[a].0 != pre[b].0 by {
            assert(pre[a] == ps[a] && pre[b] == ps[b]);
        }
    }
    lemma_map_of(pre);
    if has_key(pre, ps[i].0) {
        let a = choose|a: int| 0 <= a < pre.len() && pre[a].0 == ps[i].0;
        assert(pre[a] == ps[a]);
    }
}

/// A map equals the pairs' map when it agrees with them key by key.
pub proof fn lemma_map_of_equals<V>(ps: Seq<(Seq<char>, V)>, m: Map<Seq<char>, V>)
    requires
        distinct_keys(ps),
        forall|k: Seq<char>| #[trigger] m.dom().contains(k) <==> has_key(ps, k),
        forall|i: int| 0 <= i < ps.len() ==> #[trigger] m[ps[i].0] == ps[i].1,
    ensures
        map_of(ps) == m,
{
    lemma_map_of(ps);
    assert forall|k: Seq<char>| #[trigger] map_of(ps).dom().contains(k) implies map_of(ps)[k] == m[k] by {
        let i = choose|i: int| 0 <= i < ps.len() && ps[i].0 == k;
        assert(m[ps[i].0] == ps[i].1);
    }
    assert(map_of(ps) =~= m);
}

/// Setting a key keeps the keys distinct and sets it in the map.
pub proof fn lemma_inserted_pairs<V>(ps: Seq<(Seq<char>, V)>, k: Seq<char>, v: V)
    requires
        distinct_keys(ps),
    ensures
        distinct_keys(inserted_pairs(ps, k, v)),
        map_of(inserted_pairs(ps, k, v)) == map_of(ps).insert(k, v),
{
    lemma_map_of(ps);
    let qs = inserted_pairs(ps, k, v);
    let m = map_of(ps).insert(k, v);
    if has_key(ps, k) {
        let j = choose|i: int| 0 <= i < ps.len() && ps[i].0 == k;
        assert forall|a: int, b: int| 0 <= a < qs.len() && 0 <= b < qs.len() && a != b implies qs[a].0 != qs[b].0 by {
            assert(qs[a].0 == ps[a].0 && qs[b].0 == ps[b].0);
        }
        assert forall|x: Seq<char>| #[trigger] m.dom().contains(x) <==> has_key(qs, x) by {
            if has_key(ps, x) {
                let i = choose|i: int| 0 <= i < ps.len() && ps[i].0 == x;
                assert(qs[i].0 == x);
            }
            if has_key(qs, x) {
                let i = choose|i: int| 0 <= i < qs.len() && qs[i].0 == x;
                assert(ps[i].0 == x);
            }
        }
        assert forall|i: int| 0 <= i < qs.len() implies #[trigger] m[qs[i].0] == qs[i].1 by {
            if i != j {
                assert(qs[i] == ps[i]);
                assert(ps[i].0 != ps[j].0);
            }
        }
    } else {
        let n = ps.len() as int;
        assert forall|a: int, b: int| 0 <= a < qs.len() && 0 <= b < qs.len() && a != b implies qs[a].0 != qs[b].0 by {
            if a < n && b < n {
                assert(qs[a] == ps[a] && qs[b] == ps[b]);
            } else if a < n {
                assert(qs[a] == ps[a]);
            } else {
                assert(qs[b] == ps[b]);
            }
        }
        assert forall|x: Seq<char>| #[trigger] m.dom().contains(x) <==> has_key(qs, x) by {
            if has_key(ps, x) {
                let i = choose|i: int| 0 <= i < ps.len() && ps[i].0 == x;
                assert(qs[i] == ps[i]);
            }
            if x == k {
                assert(qs[n].0 == k);
            }
            if has_key(qs, x) && x != k {
                let i = choose|i: int| 0 <= i < qs.len() && qs[i].0 == x;
                assert(qs[i] == ps[i]);
            }
        }
        assert forall|i: int| 0 <= i < qs.len() implies #[trigger] m[qs[i].0] == qs[i].1 by {
            if i < n {
                assert(qs[i] == ps[i]);
            }
        }
    }
    lemma_map_of_equals(qs, m);
}

/// Removing a pair keeps the keys distinct and removes its key from the map.
pub proof fn lemma_removed_pair<V>(ps: Seq<(Seq<char>, V)>, j: int)
    requires
        distinct_keys(ps),
        0 <= j < ps.len(),
    ensures
        distinct_keys(ps.remove(j)),
        map_of(ps.remove(j)) == map_of(ps).remove(ps[j].0),
{
    lemma_map_of(ps);
    let qs = ps.remove(j);
    let m = map_of(ps).remove(ps[j].0);
    ps.remove_ensures(j);
    assert forall|a: int| 0 <= a < qs.len() implies #[trigger] qs[a] == ps[if a < j { a } else { a + 1 }] by {}
    assert forall|a: int, b: int| 0 <= a < qs.len() && 0 <= b < qs.len() && a != b implies qs[a].0 != qs[b].0 by {
        assert(qs[a] == ps[if a < j { a } else { a + 1 }]);
        assert(qs[b] == ps[if b < j { b } else { b + 1 }]);
    }
    assert forall|x: Seq<char>| #[trigger] m.dom().contains(x) <==> has_key(qs, x) by {
        if m.dom().contains(x) {
            let i = choose|i: int| 0 <= i < ps.len() && ps[i].0 == x;
            assert(i != j);
            let a = if i < j { i } else { i - 1 };
            assert(qs[a] == ps[if a < j { a } else { a + 1 }]);
        }
        if has_key(qs, x) {
            let a = choose|a: int| 0 <= a < qs.len() && qs[a].0 == x;
            let i = if a < j { a } else { a + 1 };
            assert(qs[a] == ps[i]);
            assert(ps[i].0 != ps[j].0);
        }
    }
    assert forall|a: int| 0 <= a < qs.len() implies #[trigger] m[qs[a].0] == qs[a].1 by {
        let i = if a < j { a } else { a + 1 };
        assert(qs[a] == ps[i]);
        assert(ps[i].0 != ps[j].0);
    }
    lemma_map_of_equals(qs, m);
}

/// Entries with their keys taken as characters.
pub open spec fn pairs_of<V>(es: Seq<(String, V)>) -> Seq<(Seq<char>, V)> {
    es.map_values(|e: (String, V)| (e.0@, e.1))
}

/// Some string of the list is `k`.
pub open spec fn lists_mac(macs: Seq<String>, k: Seq<char>) -> bool {
    exists|i: int| 0 <= i < macs.len() && #[trigger] macs[i]@ == k
}

/// The list holds each key of the map once, and nothing else.
pub open spec fn lists_keys_of<V>(macs: Seq<String>, m: Map<Seq<char>, V>) -> bool {
    &&& macs.len() == m.len()
    &&& forall|k: Seq<char>| #[trigger] m.contains_key(k) <==> lists_mac(macs, k)
    &&& forall|i: int, j: int| 0 <= i < macs.len() && 0 <= j < macs.len() && i != j ==> macs[i]@ != macs[j]@
}

/// Sorted, strictly, as strings.
pub open spec fn in_lex_order(macs: Seq<String>) -> bool {
    forall|i: int, j: int| 0 <= i < j < macs.len() ==> lex_less(#[trigger] macs[i]@, #[trigger] macs[j]@)
}

/// A string-keyed map that remembers the order in which its keys arrived.
pub struct StrMap<V> {
    entries: Vec<(String, V)>,
}

impl<V> StrMap<V> {
    /// The pairs, in order, keys taken as characters.
    pub closed spec fn pairs(&self) -> Seq<(Seq<char>, V)> {
        pairs_of(self.entries@)
    }

    #[verifier::type_invariant]
    spec fn keys_are_distinct(&self) -> bool {
        distinct_keys(self.pairs())
    }
}

impl<V> View for StrMap<V> {
    type V = Map<Seq<char>, V>;

    open spec fn view(&self) -> Map<Seq<char>, V> {
        map_of(self.pairs())
    }
}

impl<V> StrMap<V> {
    /// Moves the entries out, leaving the map empty.
    fn take_entries(&mut self) -> (es: Vec<(String, V)>)
        ensures
            es@ == old(self).entries@,
            final(self).entries@ == Seq::<(String, V)>::empty(),
    {
        let mut es: Vec<(String, V)> = Vec::new();
        std::mem::swap(&mut es, &mut self.entries);
        es
    }

    pub fn new() -> (m: Self)
        ensures
            m.pairs() == Seq::<(Seq<char>, V)>::empty(),
            m@ == Map::<Seq<char>, V>::empty(),
    {
        let m = StrMap { entries: Vec::new() };
        assert(m.pairs() =~= Seq::<(Seq<char>, V)>::empty());
        m
    }

    /// Number of entries. Also states that the keys are distinct, which is what
    /// lets a caller walking the entries relate them to the map.
    pub fn len(&self) -> (n: usize)
        ensures
            n == self.pairs().len(),
            distinct_keys(self.pairs()),
            self@.dom().finite(),
            n == self@.len(),
    {
        proof {
            use_type_invariant(self);
            lemma_map_of(self.pairs());
        }
        self.entries.len()
    }

    pub fn is_empty(&self) -> (r: bool)
        ensures
            r == (self@.len() == 0),
            r == (self.pairs().len() == 0),
    {
        self.len() == 0
    }

    pub fn key_at(&self, i: usize) -> (k: &String)
        requires
            i < self.pairs().len(),
        ensures
            k@ == self.pairs()[i as int].0,
    {
        &self.entries[i].0
    }

    pub fn value_at(&self, i: usize) -> (v: &V)
        requires
            i < self.pairs().len(),
        ensures
            *v == self.pairs()[i as int].1,
    {
        &self.entries[i].1
    }

    /// Where `key` sits, if it is there.
    pub fn index_of(&self, key: &str) -> (r: Option<usize>)
        ensures
            match r {
                Some(i) => i < self.pairs().len() && self.pairs()[i as int].0 == key@
                    && self@.contains_key(key@) && self@[key@] == self.pairs()[i as int].1,
                None => !self@.contains_key(key@) && !has_key(self.pairs(), key@),
            },
    {
        proof {
            use_type_invariant(self);
            lemma_map_of(self.pairs());
        }
        let n = self.entries.len();
        let mut i: usize = 0;
        while i < n
            invariant
                n == self.pairs().len(),
                distinct_keys(self.pairs()),
                i <= n,
                forall|j: int| 0 <= j < i ==> self.pairs()[j].0 != key@,
            decreases n - i,
        {
            if str_eq(self.entries[i].0.as_str(), key) {
                proof {
                    let ps = self.pairs();
                    lemma_map_of(ps);
                    assert(ps[i as int].0 == key@);
                    assert(has_key(ps, key@));
                    assert(map_of(ps)[ps[i as int].0] == ps[i as int].1);
                }
                return Some(i);
            }
            i = i + 1;
        }
        None
    }

    pub fn contains_key(&self, key: &str) -> (r: bool)
        ensures
            r == self@.contains_key(key@),
    {
        self.index_of(key).is_some()
    }

    pub fn get(&self, key: &str) -> (r: Option<&V>)
        ensures
            match r {
                Some(v) => self@.contains_key(key@) && *v == self@[key@],
                None => !self@.contains_key(key@),
            },
    {
        match self.index_of(key) {
            Some(i) => Some(&self.entries[i].1),
            None => None,
        }
    }

    /// Sets `key` to `value`: in place when the key is there, else at the end.
    pub fn insert(&mut self, key: String, value: V)
        ensures
            final(self).pairs() == inserted_pairs(old(self).pairs(), key@, value),
            final(self)@ == old(self)@.insert(key@, value),
    {
        proof {
            use_type_invariant(&*self);
            lemma_inserted_pairs(self.pairs(), key@, value);
        }
        let ghost k = key@;
        match self.index_of(key.as_str()) {
            Some(i) => {
                proof {
                    let j = choose|j: int| 0 <= j < self.pairs().len() && self.pairs()[j].0 == k;
                    assert(j == i as int);
                }
                let mut es = self.take_entries();
                es.set(i, (key, value));
                assert(pairs_of(es@) =~= inserted_pairs(old(self).pairs(), k, value));
                self.entries = es;
            },
            None => {
                let mut es = self.take_entries();
                es.push((key, value));
                assert(pairs_of(es@) =~= inserted_pairs(old(self).pairs(), k, value));
                self.entries = es;
            },
        }
    }

    /// Takes out the entry at `i`.
    pub fn remove_at(&mut self, i: usize) -> (r: (String, V))
        requires
            i < old(self).pairs().len(),
        ensures
            r.0@ == old(self).pairs()[i as int].0,
            r.1 == old(self).pairs()[i as int].1,
            final(self).pairs() == old(self).pairs().remove(i as int),
            final(self)@ == old(self)@.remove(old(self).pairs()[i as int].0),
    {
        proof {
            use_type_invariant(&*self);
            lemma_removed_pair(self.pairs(), i as int);
        }
        let mut es = self.take_entries();
        let r = es.remove(i);
        assert(pairs_of(es@) =~= old(self).pairs().remove(i as int));
        self.entries = es;
        r
    }

    /// Removes `key`, handing back its value.
    pub fn remove(&mut self, key: &str) -> (r: Option<V>)
        ensures
            final(self)@ == old(self)@.remove(key@),
            match r {
                Some(v) => old(self)@.contains_key(key@) && v == old(self)@[key@],
                None => !old(self)@.contains_key(key@) && final(self).pairs() == old(self).pairs(),
            },
    {
        match self.index_of(key) {
            Some(i) => {
                let (_, v) = self.remove_at(i);
                Some(v)
            },
            None => {
                assert(old(self)@.remove(key@) =~= old(self)@);
                None
            },
        }
    }

    pub fn clear(&mut self)
        ensures
            final(self).pairs() == Seq::<(Seq<char>, V)>::empty(),
            final(self)@ == Map::<Seq<char>, V>::empty(),
    {
        self.entries = Vec::new();
        assert(self.pairs() =~= Seq::<(Seq<char>, V)>::empty());
    }

    /// The keys, in entry order.
    pub fn keys(&self) -> (r: Vec<String>)
        ensures
            r@.len() == self.pairs().len(),
            forall|i: int| 0 <= i < r@.len() ==> #[trigger] r@[i]@ == self.pairs()[i].0,
    {
        let n = self.entries.len();
        let mut r: Vec<String> = Vec::new();
        let mut i: usize = 0;
        while i < n
            invariant
                n == self.pairs().len(),
                i <= n,
                r@.len() == i,
                forall|j: int| 0 <= j < i ==> #[trigger] r@[j]@ == self.pairs()[j].0,
            decreases n - i,
        {
            r.push(self.entries[i].0.clone());
            i = i + 1;
        }
        r
    }
    /// The keys, sorted.
    pub fn sorted_keys(&self) -> (r: Vec<String>)
        ensures
            lists_keys_of(r@, self@),
            in_lex_order(r@),
    {
        let n = self.len();
        let ghost ps = self.pairs();
        proof {
            lemma_map_of(ps);
        }
        let mut out: Vec<String> = Vec::new();
        let mut i: usize = 0;
        while i < n
            invariant
                n == ps.len(),
                ps == self.pairs(),
                distinct_keys(ps),
                i <= n,
                out@.len() == i,
                in_lex_order(out@),
                forall|t: int| 0 <= t < out@.len() ==> exists|u: int| 0 <= u < i && ps[u].0 == #[trigger] out@[t]@,
                forall|u: int| 0 <= u < i ==> lists_mac(out@, #[trigger] ps[u].0),
            decreases n - i,
        {
            let key = self.key_at(i).clone();
            let ghost k = key@;
            assert(k == ps[i as int].0);
            let mut q: usize = 0;
            while q < out.len() && !str_less(key.as_str(), out[q].as_str())
                invariant
                    q <= out@.len(),
                    k == key@,
                    forall|t: int| 0 <= t < q ==> !lex_less(k, #[trigger] out@[t]@),
                decreases out@.len() - q,
            {
                q = q + 1;
            }
            proof {
                assert forall|t: int| 0 <= t < out@.len() implies #[trigger] out@[t]@ != k by {
                    let u = choose|u: int| 0 <= u < i && ps[u].0 == #[trigger] out@[t]@;
                    assert(ps[u].0 != ps[i as int].0);
                }
                assert forall|t: int| 0 <= t < q implies lex_less(#[trigger] out@[t]@, k) by {
                    lemma_lex_total(out@[t]@, k);
                }
                assert forall|t: int| q <= t < out@.len() implies lex_less(k, #[trigger] out@[t]@) by {
                    if t > q {
                        lemma_lex_transitive(k, out@[q as int]@, out@[t]@);
                    }
                }
            }
            let ghost before = out@;
            out.insert(q, key);
            proof {
                before.insert_ensures(q as int, out@[q as int]);
                assert forall|a: int, b: int| 0 <= a < b < out@.len() implies lex_less(#[trigger] out@[a]@, #[trigger] out@[b]@) by {
                    if b < q {
                        assert(out@[a] == before[a] && out@[b] == before[b]);
                    } else if b == q {
                        assert(out@[a] == before[a]);
                    } else if a < q {
                        assert(out@[a] == before[a] && out@[b] == before[b - 1]);
                        lemma_lex_transitive(before[a]@, k, before[b - 1]@);
                    } else if a == q {
                        assert(out@[b] == before[b - 1]);
                    } else {
                        assert(out@[a] == before[a - 1] && out@[b] == before[b - 1]);
                    }
                }
                assert forall|t: int| 0 <= t < out@.len() implies exists|u: int| 0 <= u < i + 1 && ps[u].0 == #[trigger] out@[t]@ by {
                    if t < q {
                        assert(out@[t] == before[t]);
                        let u = choose|u: int| 0 <= u < i && ps[u].0 == #[trigger] before[t]@;
                    } else if t == q {
                        assert(ps[i as int].0 == out@[t]@);
                    } else {
                        assert(out@[t] == before[t - 1]);
                        let u = choose|u: int| 0 <= u < i && ps[u].0 == #[trigger] before[t - 1]@;
                    }
                }
                assert forall|u: int| 0 <= u < i + 1 implies lists_mac(out@, #[trigger] ps[u].0) by {
                    if u < i {
                        assert(lists_mac(before, ps[u].0));
                        let t = choose|t: int| 0 <= t < before.len() && #[trigger] before[t]@ == ps[u].0;
                        if t < q {
                            assert(out@[t] == before[t]);
                        } else {
                            assert(out@[t + 1] == before[t]);
                        }
                    } else {
                        assert(out@[q as int]@ == ps[u].0);
                    }
                }
            }
            i = i + 1;
        }
        proof {
            assert forall|k: Seq<char>| #[trigger] self@.contains_key(k) <==> lists_mac(out@, k) by {
                if self@.contains_key(k) {
                    let u = choose|u: int| 0 <= u < ps.len() && ps[u].0 == k;
                    assert(lists_mac(out@, ps[u].0));
                }
                if lists_mac(out@, k) {
                    let t = choose|t: int| 0 <= t < out@.len() && #[trigger] out@[t]@ == k;
                    let u = choose|u: int| 0 <= u < n && ps[u].0 == #[trigger] out@[t]@;
                    assert(has_key(ps, k));
                }
            }
            assert forall|a: int, b: int| 0 <= a < out@.len() && 0 <= b < out@.len() && a != b implies out@[a]@ != out@[b]@ by {
                if a < b {
                    assert(lex_less(out@[a]@, out@[b]@));
                } else {
                    assert(lex_less(out@[b]@, out@[a]@));
                }
                lemma_lex_irreflexive(out@[a]@);
            }
        }
        out
    }
}

} // verus!
