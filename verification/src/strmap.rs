//! A map keyed by strings, kept as a list of entries with distinct keys.
use vstd::prelude::*;
use crate::compress::chars_eq;
use crate::text::{less_than, lemma_str_lt_total, lemma_str_lt_transitive, str_chars, str_lt};

verus! {

/// The map that a list of (key, value) entries stands for; a later entry
/// for a key wins.
pub open spec fn entries_map<V>(s: Seq<(String, V)>) -> Map<Seq<char>, V>
    decreases s.len(),
{
    if s.len() == 0 {
        Map::empty()
    } else {
        entries_map(s.drop_last()).insert(s.last().0@, s.last().1)
    }
}

/// No key occurs twice.
pub open spec fn distinct_keys<V>(s: Seq<(String, V)>) -> bool {
    forall|i: int, j: int| 0 <= i < j < s.len() ==> (#[trigger] s[i]).0@ != (#[trigger] s[j]).0@
}

/// A map from strings to values.
#[derive(Debug)]
pub struct StrMap<V> {
    entries: Vec<(String, V)>,
}

impl<V> View for StrMap<V> {
    type V = Map<Seq<char>, V>;

    closed spec fn view(&self) -> Map<Seq<char>, V> {
        entries_map(self.entries@)
    }
}

pub proof fn lemma_entries_map<V>(s: Seq<(String, V)>)
    requires
        distinct_keys(s),
    ensures
        forall|i: int|
            0 <= i < s.len() ==> entries_map(s).contains_key((#[trigger] s[i]).0@)
                && entries_map(s)[s[i].0@] == s[i].1,
        forall|k: Seq<char>|
            #[trigger] entries_map(s).contains_key(k) ==> exists|i: int|
                0 <= i < s.len() && (#[trigger] s[i]).0@ == k,
        entries_map(s).dom().finite(),
        entries_map(s).len() == s.len(),
    decreases s.len(),
{
    if s.len() > 0 {
        let p = s.drop_last();
        assert(distinct_keys(p)) by {
            assert forall|i: int, j: int| 0 <= i < j < p.len() implies (#[trigger] p[i]).0@ != (
            #[trigger] p[j]).0@ by {
                assert(p[i] == s[i] && p[j] == s[j]);
            }
        }
        lemma_entries_map(p);
        let m = entries_map(p);
        assert(!m.contains_key(s.last().0@)) by {
            if m.contains_key(s.last().0@) {
                let i = choose|i: int| 0 <= i < p.len() && (#[trigger] p[i]).0@ == s.last().0@;
                assert(p[i] == s[i]);
                assert(s[s.len() - 1] == s.last());
            }
        }
        assert forall|i: int|
            0 <= i < s.len() implies entries_map(s).contains_key((#[trigger] s[i]).0@)
            && entries_map(s)[s[i].0@] == s[i].1 by {
            if i < s.len() - 1 {
                assert(p[i] == s[i]);
                assert(s[i].0@ != s[s.len() - 1].0@);
            }
        }
        assert forall|k: Seq<char>| #[trigger] entries_map(s).contains_key(k) implies exists|i: int|
            0 <= i < s.len() && (#[trigger] s[i]).0@ == k by {
            if k != s.last().0@ {
                let i = choose|i: int| 0 <= i < p.len() && (#[trigger] p[i]).0@ == k;
                assert(p[i] == s[i]);
            } else {
                assert(s[s.len() - 1] == s.last());
            }
        }
    }
}

impl<V> StrMap<V> {
    #[verifier::type_invariant]
    spec fn keys_distinct(self) -> bool {
        distinct_keys(self.entries@)
    }

    /// The entries, each key once, in insertion order.
    pub closed spec fn entry_seq(&self) -> Seq<(String, V)> {
        self.entries@
    }

    pub fn new() -> (m: Self)
        ensures
            m@ == Map::<Seq<char>, V>::empty(),
    {
        StrMap { entries: Vec::new() }
    }

    /// The entries, each key once.
    pub fn entries(&self) -> (r: &Vec<(String, V)>)
        ensures
            r@ == self.entry_seq(),
            entries_map(r@) == self@,
            distinct_keys(r@),
    {
        proof {
            use_type_invariant(self);
        }
        &self.entries
    }

    pub fn len(&self) -> (n: usize)
        ensures
            n == self@.len(),
            self@.dom().finite(),
    {
        proof {
            use_type_invariant(self);
            lemma_entries_map(self.entries@);
        }
        self.entries.len()
    }

    pub fn is_empty(&self) -> (b: bool)
        ensures
            b == (self@.len() == 0),
            b == (self@ == Map::<Seq<char>, V>::empty()),
    {
        proof {
            use_type_invariant(self);
            lemma_entries_map(self.entries@);
            if self.entries@.len() > 0 {
                assert(self@.contains_key(self.entries@[0].0@));
            } else {
                assert(self@ =~= Map::<Seq<char>, V>::empty());
            }
        }
        self.entries.len() == 0
    }

    /// The position of `key` among the entries.
    fn find(&self, key: &str) -> (r: Option<usize>)
        ensures
            match r {
                Some(i) => i < self.entries@.len() && self.entries@[i as int].0@ == key@,
                None => forall|i: int|
                    0 <= i < self.entries@.len() ==> (#[trigger] self.entries@[i]).0@ != key@,
            },
    {
        let k = str_chars(key);
        let mut i: usize = 0;
        while i < self.entries.len()
            invariant
                i <= self.entries@.len(),
                k@ == key@,
                forall|j: int| 0 <= j < i ==> (#[trigger] self.entries@[j]).0@ != key@,
            decreases self.entries.len() - i,
        {
            let e = str_chars(self.entries[i].0.as_str());
            if chars_eq(&e, &k) {
                return Some(i);
            }
            i = i + 1;
        }
        None
    }

    pub fn contains_key(&self, key: &str) -> (b: bool)
        ensures
            b == self@.contains_key(key@),
    {
        proof {
            use_type_invariant(self);
            lemma_entries_map(self.entries@);
        }
        self.find(key).is_some()
    }

    pub fn get(&self, key: &str) -> (r: Option<&V>)
        ensures
            match r {
                Some(v) => self@.contains_key(key@) && self@[key@] == *v,
                None => !self@.contains_key(key@),
            },
    {
        proof {
            use_type_invariant(self);
            lemma_entries_map(self.entries@);
        }
        match self.find(key) {
            Some(i) => Some(&self.entries[i].1),
            None => None,
        }
    }

    /// Inserts or replaces the value of `key`, returning the value it
    /// replaced.
    pub fn insert(&mut self, key: String, value: V) -> (r: Option<V>)
        ensures
            final(self)@ == old(self)@.insert(key@, value),
            match r {
                Some(v) => old(self)@.contains_key(key@) && old(self)@[key@] == v,
                None => !old(self)@.contains_key(key@),
            },
    {
        proof {
            use_type_invariant(&*self);
            lemma_entries_map(self.entries@);
        }
        let ghost k = key@;
        let ghost old_s = self.entries@;
        match self.find(key.as_str()) {
            Some(i) => {
                let mut entries: Vec<(String, V)> = Vec::new();
                std::mem::swap(&mut entries, &mut self.entries);
                let (_, old_value) = entries.remove(i);
                entries.insert(i, (key, value));
                let ghost s = entries@;
                assert(s =~= old_s.update(i as int, s[i as int]));
                assert(distinct_keys(s)) by {
                    assert forall|a: int, b: int| 0 <= a < b < s.len() implies (#[trigger] s[a]).0@
                        != (#[trigger] s[b]).0@ by {
                        if a != i && b != i {
                            assert(s[a] == old_s[a] && s[b] == old_s[b]);
                        } else if a == i {
                            assert(s[b] == old_s[b]);
                        } else {
                            assert(s[a] == old_s[a]);
                        }
                    }
                }
                proof {
                    lemma_entries_map(s);
                    let m = old(self)@.insert(k, value);
                    assert forall|key2: Seq<char>| #[trigger] m.contains_key(key2) implies entries_map(
                        s,
                    ).contains_key(key2) && entries_map(s)[key2] == m[key2] by {
                        if key2 != k {
                            let j = choose|j: int| 0 <= j < old_s.len() && (#[trigger] old_s[j]).0@ == key2;
                            assert(s[j] == old_s[j]);
                        } else {
                            assert(s[i as int].0@ == k);
                        }
                    }
                    assert forall|key2: Seq<char>| #[trigger] entries_map(s).contains_key(key2) implies m.contains_key(key2) by {
                        let j = choose|j: int| 0 <= j < s.len() && (#[trigger] s[j]).0@ == key2;
                        if j != i {
                            assert(s[j] == old_s[j]);
                        }
                    }
                    assert(entries_map(s) =~= m);
                }
                self.entries = entries;
                Some(old_value)
            },
            None => {
                let mut entries: Vec<(String, V)> = Vec::new();
                std::mem::swap(&mut entries, &mut self.entries);
                entries.push((key, value));
                assert(entries@.drop_last() =~= old_s);
                assert(distinct_keys(entries@)) by {
                    let s = entries@;
                    assert forall|a: int, b: int| 0 <= a < b < s.len() implies (#[trigger] s[a]).0@
                        != (#[trigger] s[b]).0@ by {
                        assert(s[a] == old_s[a]);
                        if b < old_s.len() {
                            assert(s[b] == old_s[b]);
                        }
                    }
                }
                self.entries = entries;
                None
            },
        }
    }

    /// Removes `key`, returning its value.
    pub fn remove(&mut self, key: &str) -> (r: Option<V>)
        ensures
            final(self)@ == old(self)@.remove(key@),
            match r {
                Some(v) => old(self)@.contains_key(key@) && old(self)@[key@] == v,
                None => !old(self)@.contains_key(key@),
            },
    {
        proof {
            use_type_invariant(&*self);
            lemma_entries_map(self.entries@);
        }
        let ghost k = key@;
        let ghost old_s = self.entries@;
        match self.find(key) {
            Some(i) => {
                let mut entries: Vec<(String, V)> = Vec::new();
                std::mem::swap(&mut entries, &mut self.entries);
                let (_, old_value) = entries.remove(i);
                let ghost s = entries@;
                assert(s =~= old_s.remove(i as int));
                assert(distinct_keys(s)) by {
                    assert forall|a: int, b: int| 0 <= a < b < s.len() implies (#[trigger] s[a]).0@
                        != (#[trigger] s[b]).0@ by {
                        let a2 = if a < i { a } else { a + 1 };
                        let b2 = if b < i { b } else { b + 1 };
                        assert(s[a] == old_s[a2] && s[b] == old_s[b2]);
                    }
                }
                proof {
                    lemma_entries_map(s);
                    let m = old(self)@.remove(k);
                    assert forall|key2: Seq<char>| #[trigger] m.contains_key(key2) implies entries_map(
                        s,
                    ).contains_key(key2) && entries_map(s)[key2] == m[key2] by {
                        let j = choose|j: int| 0 <= j < old_s.len() && (#[trigger] old_s[j]).0@ == key2;
                        assert(j != i);
                        if j < i {
                            assert(s[j] == old_s[j]);
                        } else {
                            assert(s[j - 1] == old_s[j]);
                        }
                    }
                    assert forall|key2: Seq<char>| #[trigger] entries_map(s).contains_key(key2) implies m.contains_key(key2) by {
                        let j = choose|j: int| 0 <= j < s.len() && (#[trigger] s[j]).0@ == key2;
                        let j2 = if j < i { j } else { j + 1 };
                        assert(s[j] == old_s[j2]);
                        assert(j2 != i);
                    }
                    assert(entries_map(s) =~= m);
                }
                self.entries = entries;
                Some(old_value)
            },
            None => {
                assert(old(self)@.remove(k) =~= old(self)@);
                None
            },
        }
    }
}

impl<V: Clone> Clone for StrMap<V> {
    /// A copy with the same keys; each value is cloned.
    fn clone(&self) -> (r: Self)
        ensures
            r@.dom() == self@.dom(),
    {
        proof {
            use_type_invariant(self);
        }
        let mut entries: Vec<(String, V)> = Vec::new();
        let mut i: usize = 0;
        while i < self.entries.len()
            invariant
                i <= self.entries@.len(),
                distinct_keys(self.entries@),
                entries@.len() == i,
                forall|j: int| 0 <= j < i ==> (#[trigger] entries@[j]).0@ == self.entries@[j].0@,
            decreases self.entries.len() - i,
        {
            let key = self.entries[i].0.clone();
            let value = self.entries[i].1.clone();
            entries.push((key, value));
            i = i + 1;
        }
        let ghost s = self.entries@;
        let ghost t = entries@;
        assert(distinct_keys(t)) by {
            assert forall|a: int, b: int| 0 <= a < b < t.len() implies (#[trigger] t[a]).0@ != (
            #[trigger] t[b]).0@ by {
                assert(t[a].0@ == s[a].0@ && t[b].0@ == s[b].0@);
            }
        }
        proof {
            lemma_entries_map(s);
            lemma_entries_map(t);
            assert forall|k: Seq<char>| entries_map(t).dom().contains(k) <==> entries_map(
                s,
            ).dom().contains(k) by {
                if entries_map(t).contains_key(k) {
                    let j = choose|j: int| 0 <= j < t.len() && (#[trigger] t[j]).0@ == k;
                    assert(s[j].0@ == k);
                }
                if entries_map(s).contains_key(k) {
                    let j = choose|j: int| 0 <= j < s.len() && (#[trigger] s[j]).0@ == k;
                    assert(t[j].0@ == k);
                }
            }
            assert(entries_map(t).dom() =~= entries_map(s).dom());
        }
        StrMap { entries }
    }
}


/// `k` is the key of one of the first `t` entries.
pub open spec fn key_among<V>(s: Seq<(String, V)>, t: int, k: Seq<char>) -> bool {
    exists|j: int| 0 <= j < t && (#[trigger] s[j]).0@ == k
}

impl<V> StrMap<V> {
    /// The keys, in lexicographic order.
    pub fn sorted_keys(&self) -> (r: Vec<String>)
        ensures
            forall|i: int| 0 <= i < r@.len() ==> self@.contains_key(#[trigger] r@[i]@),
            forall|k: Seq<char>|
                self@.contains_key(k) ==> exists|i: int| 0 <= i < r@.len() && #[trigger] r@[i]@ == k,
            forall|i: int, j: int| 0 <= i < j < r@.len() ==> str_lt(#[trigger] r@[i]@, #[trigger] r@[j]@),
    {
        proof {
            use_type_invariant(self);
            lemma_entries_map(self.entries@);
        }
        let es = &self.entries;
        let mut out: Vec<String> = Vec::new();
        let mut t: usize = 0;
        while t < es.len()
            invariant
                t <= es.len(),
                distinct_keys(es@),
                forall|i: int| 0 <= i < out@.len() ==> key_among(es@, t as int, #[trigger] out@[i]@),
                forall|j: int| 0 <= j < t ==> exists|i: int| 0 <= i < out@.len() && #[trigger] out@[i]@ == (#[trigger] es@[j]).0@,
                forall|i: int, j: int| 0 <= i < j < out@.len() ==> str_lt(#[trigger] out@[i]@, #[trigger] out@[j]@),
            decreases es.len() - t,
        {
            let key = es[t].0.clone();
            let kc = str_chars(key.as_str());
            let mut p: usize = 0;
            while p < out.len() && less_than(&str_chars(out[p].as_str()), &kc)
                invariant
                    p <= out@.len(),
                    kc@ == key@,
                    forall|i: int| 0 <= i < p ==> str_lt(#[trigger] out@[i]@, key@),
                decreases out@.len() - p,
            {
                p = p + 1;
            }
            proof {
                assert forall|q: int| 0 <= q < out@.len() implies #[trigger] out@[q]@ != key@ by {
                    assert(key_among(es@, t as int, out@[q]@));
                    let j = choose|j: int| 0 <= j < t && (#[trigger] es@[j]).0@ == out@[q]@;
                    assert(es@[j].0@ != es@[t as int].0@);
                }
                if p < out@.len() {
                    lemma_str_lt_total(out@[p as int]@, key@);
                }
                assert forall|q: int| p <= q < out@.len() implies str_lt(key@, #[trigger] out@[q]@) by {
                    if q > p {
                        assert(str_lt(out@[p as int]@, out@[q]@));
                        lemma_str_lt_transitive(key@, out@[p as int]@, out@[q]@);
                    }
                }
            }
            let ghost before = out@;
            out.insert(p, key);
            proof {
                assert(out@ =~= before.insert(p as int, es@[t as int].0));
                assert forall|i: int| 0 <= i < out@.len() implies key_among(es@, t + 1, #[trigger] out@[i]@) by {
                    if i < p {
                        assert(out@[i] == before[i]);
                        assert(key_among(es@, t as int, before[i]@));
                        let j = choose|j: int| 0 <= j < t && (#[trigger] es@[j]).0@ == before[i]@;
                        assert(0 <= j < t + 1 && es@[j].0@ == out@[i]@);
                    } else if i == p {
                        assert(es@[t as int].0@ == out@[i]@);
                    } else {
                        assert(out@[i] == before[i - 1]);
                        assert(key_among(es@, t as int, before[i - 1]@));
                        let j = choose|j: int| 0 <= j < t && (#[trigger] es@[j]).0@ == before[i - 1]@;
                        assert(0 <= j < t + 1 && es@[j].0@ == out@[i]@);
                    }
                }
                assert forall|j: int| 0 <= j < t + 1 implies exists|i: int| 0 <= i < out@.len() && #[trigger] out@[i]@ == (#[trigger] es@[j]).0@ by {
                    if j < t {
                        let i = choose|i: int| 0 <= i < before.len() && #[trigger] before[i]@ == es@[j].0@;
                        if i < p {
                            assert(out@[i] == before[i]);
                        } else {
                            assert(out@[i + 1] == before[i]);
                        }
                    } else {
                        assert(out@[p as int]@ == es@[j].0@);
                    }
                }
                assert forall|i: int, j: int| 0 <= i < j < out@.len() implies str_lt(#[trigger] out@[i]@, #[trigger] out@[j]@) by {
                    if j < p {
                        assert(out@[i] == before[i] && out@[j] == before[j]);
                    } else if j == p {
                        assert(out@[i] == before[i]);
                    } else if i == p {
                        assert(out@[j] == before[j - 1]);
                    } else if i < p {
                        assert(out@[i] == before[i] && out@[j] == before[j - 1]);
                    } else {
                        assert(out@[i] == before[i - 1] && out@[j] == before[j - 1]);
                    }
                }
            }
            t = t + 1;
        }
        proof {
            assert forall|i: int| 0 <= i < out@.len() implies self@.contains_key(#[trigger] out@[i]@) by {
                assert(key_among(es@, es@.len() as int, out@[i]@));
                let j = choose|j: int| 0 <= j < es@.len() && (#[trigger] es@[j]).0@ == out@[i]@;
            }
            assert forall|k: Seq<char>| self@.contains_key(k) implies exists|i: int| 0 <= i < out@.len() && #[trigger] out@[i]@ == k by {
                let j = choose|j: int| 0 <= j < es@.len() && (#[trigger] es@[j]).0@ == k;
            }
        }
        out
    }
}

} // verus!
