//! A map from text keys to values, kept as a list of pairs.
use vstd::prelude::*;
use crate::text::{chars_of, str_eq};
use crate::order::{chars_lt, is_stable_order, key_le, lemma_chars_lt_trichotomy, stable_order, SortKey};

verus! {

/// Text keys, each once, with a value each.
#[derive(Debug)]
pub struct Keyed<V> {
    pub entries: Vec<(String, V)>,
}

/// No key occurs twice.
pub open spec fn distinct_keys<V>(e: Seq<(String, V)>) -> bool {
    forall|i: int, j: int| 0 <= i < e.len() && 0 <= j < e.len() && i != j ==> e[i].0@ != e[j].0@
}

/// The pairs as a map: each key to the value of its last pair.
pub open spec fn pairs_map<V: View>(e: Seq<(String, V)>) -> Map<Seq<char>, V::V>
    decreases e.len(),
{
    if e.len() == 0 {
        Map::empty()
    } else {
        pairs_map(e.drop_last()).insert(e.last().0@, e.last().1@)
    }
}

impl<V: View> View for Keyed<V> {
    type V = Map<Seq<char>, V::V>;

    open spec fn view(&self) -> Map<Seq<char>, V::V> {
        pairs_map(self.entries@)
    }
}

/// The pairs name finitely many keys.
pub proof fn lemma_pairs_map_finite<V: View>(e: Seq<(String, V)>)
    ensures
        pairs_map(e).dom().finite(),
    decreases e.len(),
{
    if e.len() > 0 {
        lemma_pairs_map_finite(e.drop_last());
    }
}

pub proof fn lemma_pairs_map_distinct<V: View>(e: Seq<(String, V)>)
    requires
        distinct_keys(e),
    ensures
        forall|i: int| 0 <= i < e.len() ==> #[trigger] pairs_map(e).contains_key(e[i].0@) && pairs_map(e)[e[i].0@] == e[i].1@,
        forall|k: Seq<char>| #[trigger] pairs_map(e).contains_key(k) ==> exists|i: int| 0 <= i < e.len() && #[trigger] e[i].0@ == k,
    decreases e.len(),
{
    if e.len() > 0 {
        let r = e.drop_last();
        assert(distinct_keys(r));
        lemma_pairs_map_distinct(r);
        assert forall|i: int| 0 <= i < e.len() implies #[trigger] pairs_map(e).contains_key(e[i].0@) && pairs_map(e)[e[i].0@] == e[i].1@ by {
            assert(pairs_map(e) == pairs_map(r).insert(e.last().0@, e.last().1@));
            if i < e.len() - 1 {
                assert(r[i] == e[i]);
                assert(e[i].0@ != e[e.len() - 1].0@);
                assert(pairs_map(r).contains_key(r[i].0@));
            }
        }
        assert forall|k: Seq<char>| #[trigger] pairs_map(e).contains_key(k) implies exists|i: int| 0 <= i < e.len() && #[trigger] e[i].0@ == k by {
            assert(pairs_map(e) == pairs_map(r).insert(e.last().0@, e.last().1@));
            if k != e.last().0@ {
                assert(pairs_map(r).contains_key(k));
                let i = choose|i: int| 0 <= i < r.len() && #[trigger] r[i].0@ == k;
                assert(r[i] == e[i]);
            } else {
                assert(e[e.len() - 1].0@ == k);
            }
        }
    }
}

/// A map of pairs gives a key the value of the last pair with that key.
pub proof fn lemma_pairs_map_last<V: View>(e: Seq<(String, V)>, y: int)
    requires
        0 <= y < e.len(),
        forall|z: int| y < z < e.len() ==> (#[trigger] e[z]).0@ != e[y].0@,
    ensures
        pairs_map(e).contains_key(e[y].0@),
        pairs_map(e)[e[y].0@] == e[y].1@,
    decreases e.len(),
{
    if y < e.len() - 1 {
        let r = e.drop_last();
        assert forall|z: int| y < z < r.len() implies (#[trigger] r[z]).0@ != r[y].0@ by {
            assert(r[z] == e[z]);
        }
        lemma_pairs_map_last(r, y);
        assert(r[y] == e[y]);
        assert(e[e.len() - 1].0@ != e[y].0@);
    }
}

/// The value a map of pairs gives a key comes from a pair with that key.
pub proof fn lemma_pairs_map_value<V: View>(e: Seq<(String, V)>, k: Seq<char>)
    requires
        pairs_map(e).contains_key(k),
    ensures
        exists|y: int| 0 <= y < e.len() && #[trigger] e[y].0@ == k && pairs_map(e)[k] == e[y].1@,
    decreases e.len(),
{
    if e.last().0@ != k {
        lemma_pairs_map_value(e.drop_last(), k);
        let y = choose|y: int| 0 <= y < e.drop_last().len() && #[trigger] e.drop_last()[y].0@ == k
            && pairs_map(e.drop_last())[k] == e.drop_last()[y].1@;
        assert(e[y] == e.drop_last()[y]);
    } else {
        assert(e[e.len() - 1].0@ == k);
    }
}

/// Two lists of pairs with the same keys and values, pair by pair, make
/// the same map.
pub proof fn lemma_pairs_map_congruent<V: View, W: View<V = V::V>>(a: Seq<(String, V)>, b: Seq<(String, W)>)
    requires
        a.len() == b.len(),
        forall|x: int| 0 <= x < a.len() ==> (#[trigger] a[x]).0@ == b[x].0@ && a[x].1@ == b[x].1@,
    ensures
        pairs_map(a) == pairs_map(b),
    decreases a.len(),
{
    if a.len() > 0 {
        lemma_pairs_map_congruent(a.drop_last(), b.drop_last());
        assert(a[a.len() - 1].0@ == b[b.len() - 1].0@);
    }
}

impl<V: View> Keyed<V> {
    /// No entry at all.
    pub fn new() -> (m: Keyed<V>)
        ensures
            m.wf(),
            m@ == Map::<Seq<char>, V::V>::empty(),
            m.entries@.len() == 0,
    {
        Keyed { entries: Vec::new() }
    }

    pub open spec fn wf(&self) -> bool {
        distinct_keys(self.entries@)
    }

    fn position(&self, key: &str) -> (r: Option<usize>)
        requires
            self.wf(),
        ensures
            match r {
                Some(i) => i < self.entries@.len() && self.entries@[i as int].0@ == key@,
                None => !self@.contains_key(key@),
            },
    {
        proof {
            lemma_pairs_map_distinct(self.entries@);
        }
        let mut i: usize = 0;
        while i < self.entries.len()
            invariant
                self.wf(),
                i <= self.entries@.len(),
                forall|k: int| 0 <= k < i ==> (#[trigger] self.entries@[k]).0@ != key@,
            decreases self.entries@.len() - i,
        {
            if str_eq(self.entries[i].0.as_str(), key) {
                return Some(i);
            }
            i = i + 1;
        }
        None
    }

    /// The value under `key`.
    pub fn get(&self, key: &str) -> (r: Option<&V>)
        requires
            self.wf(),
        ensures
            match r {
                Some(v) => self@.contains_key(key@) && self@[key@] == v@ && exists|i: int|
                    0 <= i < self.entries@.len() && #[trigger] self.entries@[i].0@ == key@ && self.entries@[i].1 == *v,
                None => !self@.contains_key(key@),
            },
    {
        proof {
            lemma_pairs_map_distinct(self.entries@);
        }
        match self.position(key) {
            Some(i) => {
                proof {
                    assert(pairs_map(self.entries@).contains_key(self.entries@[i as int].0@));
                }
                Some(&self.entries[i].1)
            },
            None => None,
        }
    }

    /// Sets the value under `key`, in place of any earlier one.
    pub fn insert(&mut self, key: String, value: V)
        requires
            old(self).wf(),
        ensures
            final(self).wf(),
            final(self)@ == old(self)@.insert(key@, value@),
            forall|i: int| 0 <= i < final(self).entries@.len() ==> #[trigger] final(self).entries@[i] == (key, value) || exists|j: int|
                0 <= j < old(self).entries@.len() && final(self).entries@[i] == #[trigger] old(self).entries@[j],
    {
        let ghost old_e = self.entries@;
        let ghost kv = key@;
        let ghost vv = value@;
        proof {
            lemma_pairs_map_distinct(old_e);
        }
        match self.position(key.as_str()) {
            Some(i) => {
                self.entries.set(i, (key, value));
                proof {
                    let e = self.entries@;
                    assert(distinct_keys(e)) by {
                        assert forall|a: int, b: int| 0 <= a < e.len() && 0 <= b < e.len() && a != b implies e[a].0@ != e[b].0@ by {
                            if a != i && b != i {
                                assert(e[a] == old_e[a] && e[b] == old_e[b]);
                            } else if a == i {
                                assert(e[b] == old_e[b]);
                            } else {
                                assert(e[a] == old_e[a]);
                            }
                        }
                    }
                    lemma_pairs_map_distinct(e);
                    let m = pairs_map(e);
                    let om = pairs_map(old_e).insert(kv, vv);
                    assert forall|k: Seq<char>| m.contains_key(k) <==> om.contains_key(k) by {
                        if m.contains_key(k) {
                            let j = choose|j: int| 0 <= j < e.len() && #[trigger] e[j].0@ == k;
                            if j != i {
                                assert(old_e[j].0@ == k);
                            }
                        }
                        if pairs_map(old_e).contains_key(k) {
                            let j = choose|j: int| 0 <= j < old_e.len() && #[trigger] old_e[j].0@ == k;
                            assert(e[j].0@ == k);
                        }
                        if k == kv {
                            assert(e[i as int].0@ == k);
                        }
                    }
                    assert forall|k: Seq<char>| m.contains_key(k) implies m[k] == om[k] by {
                        let j = choose|j: int| 0 <= j < e.len() && #[trigger] e[j].0@ == k;
                        if j != i {
                            assert(e[j] == old_e[j]);
                        }
                    }
                    assert(m =~= om);
                    assert forall|a: int| 0 <= a < e.len() implies #[trigger] e[a] == (key, value) || exists|j: int|
                        0 <= j < old_e.len() && e[a] == #[trigger] old_e[j] by {
                        if a != i {
                            assert(e[a] == old_e[a]);
                        }
                    }
                }
            },
            None => {
                self.entries.push((key, value));
                proof {
                    let e = self.entries@;
                    assert(e.drop_last() =~= old_e);
                    assert(distinct_keys(e)) by {
                        assert forall|a: int, b: int| 0 <= a < e.len() && 0 <= b < e.len() && a != b implies e[a].0@ != e[b].0@ by {
                            if a == old_e.len() as int {
                                assert(pairs_map(old_e).contains_key(e[b].0@));
                            } else if b == old_e.len() as int {
                                assert(pairs_map(old_e).contains_key(e[a].0@));
                            } else {
                                assert(e[a] == old_e[a] && e[b] == old_e[b]);
                            }
                        }
                    }
                    assert forall|a: int| 0 <= a < e.len() implies #[trigger] e[a] == (key, value) || exists|j: int|
                        0 <= j < old_e.len() && e[a] == #[trigger] old_e[j] by {
                        if a < old_e.len() {
                            assert(e[a] == old_e[a]);
                        }
                    }
                }
            },
        }
    }


    /// Removes the value under `key`, if any.
    pub fn remove(&mut self, key: &str)
        requires
            old(self).wf(),
        ensures
            final(self).wf(),
            final(self)@ == old(self)@.remove(key@),
    {
        let ghost old_e = self.entries@;
        proof {
            lemma_pairs_map_distinct(old_e);
        }
        match self.position(key) {
            Some(i) => {
                self.entries.remove(i);
                proof {
                    let e = self.entries@;
                    assert(e =~= old_e.remove(i as int));
                    assert(distinct_keys(e)) by {
                        assert forall|a: int, b: int| 0 <= a < e.len() && 0 <= b < e.len() && a != b implies e[a].0@ != e[b].0@ by {
                            let oa = if a < i { a } else { a + 1 };
                            let ob = if b < i { b } else { b + 1 };
                            assert(e[a] == old_e[oa]);
                            assert(e[b] == old_e[ob]);
                        }
                    }
                    lemma_pairs_map_distinct(e);
                    let m = pairs_map(e);
                    let om = pairs_map(old_e).remove(key@);
                    assert forall|k: Seq<char>| m.contains_key(k) <==> om.contains_key(k) by {
                        if m.contains_key(k) {
                            let j = choose|j: int| 0 <= j < e.len() && #[trigger] e[j].0@ == k;
                            let oj = if j < i { j } else { j + 1 };
                            assert(old_e[oj].0@ == k);
                            assert(pairs_map(old_e).contains_key(old_e[oj].0@));
                        }
                        if om.contains_key(k) {
                            let j = choose|j: int| 0 <= j < old_e.len() && #[trigger] old_e[j].0@ == k;
                            assert(j != i);
                            let nj = if j < i { j } else { j - 1 };
                            assert(e[nj].0@ == k);
                            assert(pairs_map(e).contains_key(e[nj].0@));
                        }
                    }
                    assert forall|k: Seq<char>| m.contains_key(k) implies m[k] == om[k] by {
                        let j = choose|j: int| 0 <= j < e.len() && #[trigger] e[j].0@ == k;
                        let oj = if j < i { j } else { j + 1 };
                        assert(e[j] == old_e[oj]);
                        assert(pairs_map(e).contains_key(e[j].0@));
                        assert(pairs_map(old_e).contains_key(old_e[oj].0@));
                    }
                    assert(m =~= om);
                }
            },
            None => {
                proof {
                    assert(pairs_map(old_e).remove(key@) =~= pairs_map(old_e));
                }
            },
        }
    }
}

impl Keyed<String> {
    /// The map of a list of pairs, later pairs winning.
    pub fn from_pairs(pairs: Vec<(String, String)>) -> (m: Keyed<String>)
        ensures
            m.wf(),
            m@ == pairs_map(pairs@),
    {
        let mut m = Keyed::new();
        let mut i: usize = 0;
        while i < pairs.len()
            invariant
                m.wf(),
                i <= pairs@.len(),
                m@ == pairs_map(pairs@.take(i as int)),
            decreases pairs@.len() - i,
        {
            let k = pairs[i].0.clone();
            let v = pairs[i].1.clone();
            proof {
                assert(pairs@.take(i + 1).drop_last() =~= pairs@.take(i as int));
            }
            m.insert(k, v);
            i = i + 1;
        }
        assert(pairs@.take(pairs@.len() as int) =~= pairs@);
        m
    }

    /// A copy.
    pub fn copy(&self) -> (r: Keyed<String>)
        requires
            self.wf(),
        ensures
            r.wf(),
            r@ == self@,
    {
        let mut e: Vec<(String, String)> = Vec::new();
        let mut i: usize = 0;
        while i < self.entries.len()
            invariant
                i <= self.entries@.len(),
                e@ == self.entries@.take(i as int),
            decreases self.entries@.len() - i,
        {
            let (k, v) = &self.entries[i];
            e.push((k.clone(), v.clone()));
            i = i + 1;
            proof {
                assert(e@ =~= self.entries@.take(i as int));
            }
        }
        assert(self.entries@.take(self.entries@.len() as int) =~= self.entries@);
        Keyed { entries: e }
    }
}

/// The pairs in strictly ascending order of key.
pub open spec fn ascending_keys<V>(e: Seq<(String, V)>) -> bool {
    forall|i: int, j: int| 0 <= i < j < e.len() ==> chars_lt(e[i].0@, e[j].0@)
}

impl<V: View> Keyed<V> {
    /// The entries, in ascending order of key.
    pub fn into_sorted(self) -> (out: Vec<(String, V)>)
        requires
            self.wf(),
        ensures
            distinct_keys(out@),
            ascending_keys(out@),
            pairs_map(out@) == self@,
    {
        let ghost orig = self.entries@;
        proof {
            lemma_pairs_map_distinct(orig);
        }
        let mut keys: Vec<SortKey> = Vec::new();
        let mut i: usize = 0;
        while i < self.entries.len()
            invariant
                i <= self.entries@.len(),
                keys@.len() == i,
                forall|k: int| 0 <= k < i ==> #[trigger] keys@[k].major == 0 && keys@[k].minor == 0 && keys@[k].text@
                    == self.entries@[k].0@,
            decreases self.entries@.len() - i,
        {
            keys.push(SortKey { major: 0, minor: 0, text: chars_of(self.entries[i].0.as_str()) });
            i = i + 1;
        }
        let sorted = stable_order(&keys);
        let n = self.entries.len();
        let mut entries = self.entries;
        let mut slots: Vec<Option<(String, V)>> = Vec::new();
        while entries.len() > 0
            invariant
                entries@ == orig.take(entries@.len() as int),
                entries@.len() + slots@.len() == n,
                n == orig.len(),
                forall|x: int| 0 <= x < slots@.len() ==> #[trigger] slots@[x] == Some(orig[n - 1 - x]),
            decreases entries@.len(),
        {
            let last = entries.pop();
            slots.push(last);
            proof {
                assert(entries@ =~= orig.take(entries@.len() as int));
            }
        }
        let mut out: Vec<(String, V)> = Vec::new();
        let mut m: usize = 0;
        while m < n
            invariant
                n == orig.len(),
                n == slots@.len(),
                is_stable_order(keys@, sorted@),
                keys@.len() == n,
                m <= n,
                out@.len() == m,
                forall|t: int| 0 <= t < m ==> #[trigger] out@[t] == orig[sorted@[t] as int],
                forall|p: int| m <= p < n ==> #[trigger] slots@[n - 1 - sorted@[p]] == Some(orig[sorted@[p] as int]),
            decreases n - m,
        {
            let idx = n - 1 - sorted[m];
            let mut taken: Option<(String, V)> = None;
            slots.set_and_swap(idx, &mut taken);
            proof {
                assert forall|p: int| m + 1 <= p < n implies #[trigger] slots@[n - 1 - sorted@[p]] == Some(orig[sorted@[p] as int]) by {
                    assert(sorted@[p] != sorted@[m as int]);
                }
            }
            match taken {
                Some(pair) => {
                    out.push(pair);
                },
                None => {
                    proof {
                        assert(false);
                    }
                },
            }
            m = m + 1;
        }
        proof {
            assert forall|i: int, j: int| 0 <= i < out@.len() && 0 <= j < out@.len() && i != j implies out@[i].0@ != out@[j].0@ by {
                assert(sorted@[i] != sorted@[j]);
            }
            assert forall|i: int, j: int| 0 <= i < j < out@.len() implies chars_lt(out@[i].0@, out@[j].0@) by {
                let a = sorted@[i] as int;
                let b = sorted@[j] as int;
                assert(key_le(keys@[a], keys@[b]));
                assert(keys@[a].text@ == orig[a].0@);
                assert(keys@[b].text@ == orig[b].0@);
                lemma_chars_lt_trichotomy(orig[a].0@, orig[b].0@);
            }
            lemma_pairs_map_distinct(out@);
            assert forall|k: Seq<char>| pairs_map(out@).contains_key(k) <==> pairs_map(orig).contains_key(k) by {
                if pairs_map(out@).contains_key(k) {
                    let t = choose|t: int| 0 <= t < out@.len() && #[trigger] out@[t].0@ == k;
                    assert(orig[sorted@[t] as int].0@ == k);
                    assert(pairs_map(orig).contains_key(orig[sorted@[t] as int].0@));
                }
                if pairs_map(orig).contains_key(k) {
                    let x = choose|x: int| 0 <= x < orig.len() && #[trigger] orig[x].0@ == k;
                    crate::order::lemma_stable_order_covers(keys@, sorted@, x);
                    let t = choose|t: int| 0 <= t < sorted@.len() && sorted@[t] == x;
                    assert(out@[t].0@ == k);
                    assert(pairs_map(out@).contains_key(out@[t].0@));
                }
            }
            assert forall|k: Seq<char>| pairs_map(out@).contains_key(k) implies pairs_map(out@)[k] == pairs_map(orig)[k] by {
                let t = choose|t: int| 0 <= t < out@.len() && #[trigger] out@[t].0@ == k;
                assert(out@[t] == orig[sorted@[t] as int]);
                assert(pairs_map(out@).contains_key(out@[t].0@));
                assert(pairs_map(orig).contains_key(orig[sorted@[t] as int].0@));
            }
            assert(pairs_map(out@) =~= pairs_map(orig));
        }
        out
    }
}

/// The pairs of both lists by key, the later winning, in ascending order
/// of key.
pub fn merge_by_key<V: View>(first: Vec<(String, V)>, second: Vec<(String, V)>) -> (out: Vec<(String, V)>)
    ensures
        distinct_keys(out@),
        ascending_keys(out@),
        pairs_map(out@) == pairs_map(first@ + second@),
{
    let ghost all = first@ + second@;
    let mut pending = first;
    let mut rest = second;
    pending.append(&mut rest);
    assert(pending@ == all);
    let n = pending.len();
    let mut stack: Vec<(String, V)> = Vec::new();
    while pending.len() > 0
        invariant
            pending@ == all.take(pending@.len() as int),
            pending@.len() + stack@.len() == n,
            n == all.len(),
            forall|x: int| 0 <= x < stack@.len() ==> #[trigger] stack@[x] == all[n - 1 - x],
        decreases pending@.len(),
    {
        let last = pending.pop().unwrap();
        stack.push(last);
        proof {
            assert(pending@ =~= all.take(pending@.len() as int));
        }
    }
    let mut m: Keyed<V> = Keyed::new();
    let mut j: usize = 0;
    while stack.len() > 0
        invariant
            n == all.len(),
            j + stack@.len() == n,
            forall|x: int| 0 <= x < stack@.len() ==> #[trigger] stack@[x] == all[n - 1 - x],
            m.wf(),
            m@ == pairs_map(all.take(j as int)),
        decreases stack@.len(),
    {
        let ghost top = stack@.len() - 1;
        let (k, v) = stack.pop().unwrap();
        proof {
            assert(all[j as int] == all[n - 1 - top]);
            assert(all.take(j + 1).drop_last() =~= all.take(j as int));
        }
        m.insert(k, v);
        j = j + 1;
    }
    assert(all.take(n as int) =~= all);
    m.into_sorted()
}

} // verus!
