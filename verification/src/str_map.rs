//! Ordered string-keyed maps.
//!
//! Entries are kept strictly increasing by key under `seq_lt`, which is the
//! order in which a `BTreeMap<String, _>` iterates its keys.  The type is the
//! library's replacement for such maps: iteration order, and so the order of
//! everything derived from it, is part of the protocol's wire format.

use crate::text::{lemma_seq_lt_irreflexive, lemma_seq_lt_total, lemma_seq_lt_transitive, seq_lt, str_eq, str_lt};
use vstd::prelude::*;

verus! {

/// Whether `keys` is strictly increasing (and so free of duplicates).
pub open spec fn sorted_keys(keys: Seq<Seq<char>>) -> bool {
    forall|i: int, j: int| 0 <= i < j < keys.len() ==> seq_lt(#[trigger] keys[i], #[trigger] keys[j])
}

/// `s` with the elements whose flag is false removed.
pub open spec fn filter_by<A>(s: Seq<A>, keep: Seq<bool>) -> Seq<A>
    decreases s.len(),
{
    if s.len() == 0 {
        Seq::empty()
    } else {
        let rest = filter_by(s.drop_last(), keep);
        if keep[s.len() - 1] {
            rest.push(s.last())
        } else {
            rest
        }
    }
}

pub proof fn lemma_sorted_unique(keys: Seq<Seq<char>>, i: int, j: int)
    requires
        sorted_keys(keys),
        0 <= i < keys.len(),
        0 <= j < keys.len(),
        keys[i] == keys[j],
    ensures
        i == j,
{
    if i < j {
        lemma_seq_lt_irreflexive(keys[i]);
    } else if j < i {
        lemma_seq_lt_irreflexive(keys[i]);
    }
}

pub proof fn lemma_sorted_index_of(keys: Seq<Seq<char>>, i: int)
    requires
        sorted_keys(keys),
        0 <= i < keys.len(),
    ensures
        keys.index_of(keys[i]) == i,
        keys.contains(keys[i]),
{
    assert(keys.contains(keys[i]));
    let j = keys.index_of(keys[i]);
    lemma_sorted_unique(keys, i, j);
}

pub proof fn lemma_filter_by_len<A>(s: Seq<A>, keep: Seq<bool>)
    ensures
        filter_by(s, keep).len() <= s.len(),
    decreases s.len(),
{
    if s.len() > 0 {
        lemma_filter_by_len(s.drop_last(), keep);
    }
}

/// Every element of a filtered sequence comes, in order, from a kept index.
pub proof fn lemma_filter_by_origin<A>(s: Seq<A>, keep: Seq<bool>, k: int)
    requires
        0 <= k < filter_by(s, keep).len(),
    ensures
        exists|i: int| 0 <= i < s.len() && keep[i] && s[i] == filter_by(s, keep)[k],
    decreases s.len(),
{
    lemma_filter_by_len(s.drop_last(), keep);
    if s.len() > 0 {
        let rest = filter_by(s.drop_last(), keep);
        if keep[s.len() - 1] && k == rest.len() {
            assert(s[s.len() - 1] == filter_by(s, keep)[k]);
        } else {
            lemma_filter_by_origin(s.drop_last(), keep, k);
            let i = choose|i: int|
                0 <= i < s.drop_last().len() && keep[i] && s.drop_last()[i] == rest[k];
            assert(s[i] == filter_by(s, keep)[k]);
        }
    }
}

/// A kept element appears in the filtered sequence.
pub proof fn lemma_filter_by_keeps<A>(s: Seq<A>, keep: Seq<bool>, i: int)
    requires
        0 <= i < s.len(),
        keep[i],
    ensures
        filter_by(s, keep).contains(s[i]),
    decreases s.len(),
{
    let rest = filter_by(s.drop_last(), keep);
    if i == s.len() - 1 {
        assert(filter_by(s, keep)[rest.len() as int] == s[i]);
    } else {
        lemma_filter_by_keeps(s.drop_last(), keep, i);
        let k = choose|k: int| 0 <= k < rest.len() && rest[k] == s.drop_last()[i];
        assert(filter_by(s, keep)[k] == s[i]);
    }
}

/// An element of two filtered, aligned sequences comes from one kept index.
pub proof fn lemma_filter_by_origin2<A, B>(a: Seq<A>, b: Seq<B>, keep: Seq<bool>, k: int)
    requires
        a.len() == b.len(),
        0 <= k < filter_by(a, keep).len(),
    ensures
        filter_by(a, keep).len() == filter_by(b, keep).len(),
        exists|i: int|
            0 <= i < a.len() && keep[i] && a[i] == filter_by(a, keep)[k] && b[i] == filter_by(
                b,
                keep,
            )[k],
    decreases a.len(),
{
    lemma_filter_by_len2(a, b, keep);
    let ra = filter_by(a.drop_last(), keep);
    let rb = filter_by(b.drop_last(), keep);
    lemma_filter_by_len2(a.drop_last(), b.drop_last(), keep);
    if keep[a.len() - 1] && k == ra.len() {
        assert(a[a.len() - 1] == filter_by(a, keep)[k]);
        assert(b[a.len() - 1] == filter_by(b, keep)[k]);
    } else {
        lemma_filter_by_origin2(a.drop_last(), b.drop_last(), keep, k);
        let i = choose|i: int|
            0 <= i < a.drop_last().len() && keep[i] && a.drop_last()[i] == ra[k]
                && b.drop_last()[i] == rb[k];
        assert(a[i] == filter_by(a, keep)[k]);
        assert(b[i] == filter_by(b, keep)[k]);
    }
}

pub proof fn lemma_filter_by_len2<A, B>(a: Seq<A>, b: Seq<B>, keep: Seq<bool>)
    requires
        a.len() == b.len(),
    ensures
        filter_by(a, keep).len() == filter_by(b, keep).len(),
    decreases a.len(),
{
    if a.len() > 0 {
        lemma_filter_by_len2(a.drop_last(), b.drop_last(), keep);
    }
}

pub proof fn lemma_filter_by_len_eq<A, B>(a: Seq<A>, b: Seq<B>, keep: Seq<bool>)
    requires
        a.len() == b.len(),
    ensures
        filter_by(a, keep).len() == filter_by(b, keep).len(),
{
    lemma_filter_by_len2(a, b, keep);
}

/// Filtering a sorted key sequence keeps it sorted.
pub proof fn lemma_filter_sorted(keys: Seq<Seq<char>>, keep: Seq<bool>)
    requires
        sorted_keys(keys),
    ensures
        sorted_keys(filter_by(keys, keep)),
    decreases keys.len(),
{
    if keys.len() > 0 {
        let ks = keys.drop_last();
        assert(sorted_keys(ks)) by {
            assert forall|i: int, j: int| 0 <= i < j < ks.len() implies seq_lt(ks[i], ks[j]) by {
                assert(ks[i] == keys[i] && ks[j] == keys[j]);
            }
        }
        lemma_filter_sorted(ks, keep);
        let fk = filter_by(ks, keep);
        if keep[keys.len() - 1] {
            let nk = fk.push(keys.last());
            assert forall|i: int, j: int| 0 <= i < j < nk.len() implies seq_lt(nk[i], nk[j]) by {
                if j == nk.len() - 1 {
                    lemma_filter_by_origin(ks, keep, i);
                    let o = choose|o: int| 0 <= o < ks.len() && keep[o] && ks[o] == fk[i];
                    assert(keys[o] == nk[i]);
                    assert(seq_lt(keys[o], keys[keys.len() - 1]));
                }
            }
        }
    }
}

/// A string-keyed map whose entries are kept in increasing key order.
#[derive(Debug, PartialEq, Eq)]
pub struct StrMap<T> {
    entries: Vec<(String, T)>,
}

impl<T: Clone> Clone for StrMap<T> {
    /// The same keys, each value cloned.
    fn clone(&self) -> (r: Self)
        ensures
            r.keys() == self.keys(),
            r.vals().len() == self.vals().len(),
            forall|i: int| 0 <= i < self.vals().len() ==> cloned::<T>(#[trigger] self.vals()[i], r.vals()[i]),
    {
        proof {
            use_type_invariant(self);
        }
        let mut entries: Vec<(String, T)> = Vec::new();
        let n = self.entries.len();
        let mut i: usize = 0;
        while i < n
            invariant
                n == self.entries@.len(),
                0 <= i <= n,
                entries@.len() == i,
                forall|j: int| 0 <= j < i ==> (#[trigger] entries@[j]).0 == self.entries@[j].0,
                forall|j: int| 0 <= j < i ==> cloned::<T>(self.entries@[j].1, #[trigger] entries@[j].1),
            decreases n - i,
        {
            let key = self.entries[i].0.clone();
            let value = self.entries[i].1.clone();
            entries.push((key, value));
            i = i + 1;
        }
        assert(entries@.map_values(|e: (String, T)| e.0@) =~= self.keys());
        let r = StrMap { entries };
        r
    }
}

impl<T> StrMap<T> {
    /// The keys, in increasing order.
    pub closed spec fn keys(&self) -> Seq<Seq<char>> {
        self.entries@.map_values(|e: (String, T)| e.0@)
    }

    /// The values, aligned with `keys()`.
    pub closed spec fn vals(&self) -> Seq<T> {
        self.entries@.map_values(|e: (String, T)| e.1)
    }

    #[verifier::type_invariant]
    closed spec fn wf(&self) -> bool {
        sorted_keys(self.keys())
    }

    /// Whether `k` is a key.
    pub open spec fn has(&self, k: Seq<char>) -> bool {
        self.keys().contains(k)
    }

    /// The value stored under `k` (meaningful when `has(k)`).
    pub open spec fn at(&self, k: Seq<char>) -> T {
        self.vals()[self.keys().index_of(k)]
    }

    /// The map these entries denote.
    pub open spec fn as_map(&self) -> Map<Seq<char>, T> {
        Map::new(|k: Seq<char>| self.has(k), |k: Seq<char>| self.at(k))
    }

    pub proof fn lemma_len(&self)
        ensures
            self.keys().len() == self.vals().len(),
    {
    }

    /// States the ordering invariant for callers (no run-time work).
    pub fn lemma_wf(&self)
        ensures
            sorted_keys(self.keys()),
            self.keys().len() == self.vals().len(),
    {
        proof {
            use_type_invariant(self);
        }
    }

    /// Creates an empty map.
    pub fn new() -> (m: Self)
        ensures
            m.keys() == Seq::<Seq<char>>::empty(),
            m.vals() == Seq::<T>::empty(),
    {
        let m = StrMap { entries: Vec::new() };
        assert(m.keys() =~= Seq::<Seq<char>>::empty());
        assert(m.vals() =~= Seq::<T>::empty());
        m
    }

    /// Appends an entry whose key is greater than every key present.
    pub fn push_last(&mut self, k: String, v: T)
        requires
            old(self).keys().len() == 0 || seq_lt(old(self).keys().last(), k@),
        ensures
            final(self).keys() == old(self).keys().push(k@),
            final(self).vals() == old(self).vals().push(v),
    {
        proof {
            use_type_invariant(&*self);
        }
        let ghost ok = self.keys();
        let ghost ov = self.vals();
        let mut entries: Vec<(String, T)> = Vec::new();
        std::mem::swap(&mut entries, &mut self.entries);
        let ghost kk = k@;
        entries.push((k, v));
        let ghost nk = entries@.map_values(|e: (String, T)| e.0@);
        assert(nk =~= ok.push(kk));
        assert forall|i: int, j: int| 0 <= i < j < nk.len() implies seq_lt(#[trigger] nk[i], #[trigger] nk[j]) by {
            if j == nk.len() - 1 && i < j {
                if i < ok.len() - 1 {
                    crate::text::lemma_seq_lt_transitive(ok[i], ok.last(), kk);
                }
            }
        }
        self.entries = entries;
        assert(self.vals() =~= ov.push(v));
    }

    /// The entries, in increasing key order.
    pub fn into_entries(self) -> (r: Vec<(String, T)>)
        ensures
            r@.len() == self.keys().len(),
            forall|i: int| 0 <= i < r@.len() ==> (#[trigger] r@[i]).0@ == self.keys()[i] && r@[i].1 == self.vals()[i],
    {
        self.entries
    }

    /// The number of entries.
    pub fn len(&self) -> (n: usize)
        ensures
            n == self.keys().len(),
            n == self.vals().len(),
    {
        self.entries.len()
    }

    /// Whether the map has no entries.
    pub fn is_empty(&self) -> (b: bool)
        ensures
            b == (self.keys().len() == 0),
    {
        self.entries.len() == 0
    }

    /// The key at position `i`.
    pub fn key_at(&self, i: usize) -> (k: &String)
        requires
            i < self.keys().len(),
        ensures
            k@ == self.keys()[i as int],
    {
        &self.entries[i].0
    }

    /// The value at position `i`.
    pub fn value_at(&self, i: usize) -> (v: &T)
        requires
            i < self.keys().len(),
        ensures
            *v == self.vals()[i as int],
    {
        &self.entries[i].1
    }

    /// The position of `k`, if present.
    pub fn find(&self, k: &str) -> (r: Option<usize>)
        ensures
            r matches Some(i) ==> i < self.keys().len() && self.keys()[i as int] == k@
                && self.keys().index_of(k@) == i,
            r is None <==> !self.has(k@),
    {
        proof {
            use_type_invariant(self);
        }
        let n = self.entries.len();
        let mut i: usize = 0;
        while i < n
            invariant
                n == self.entries.len(),
                0 <= i <= n,
                sorted_keys(self.keys()),
                forall|j: int| 0 <= j < i ==> self.keys()[j] != k@,
            decreases n - i,
        {
            if str_eq(self.entries[i].0.as_str(), k) {
                proof {
                    lemma_sorted_index_of(self.keys(), i as int);
                }
                return Some(i);
            }
            i = i + 1;
        }
        None
    }

    /// Whether `k` is a key.
    pub fn contains_key(&self, k: &str) -> (b: bool)
        ensures
            b == self.has(k@),
    {
        self.find(k).is_some()
    }

    /// The value stored under `k`.
    pub fn get(&self, k: &str) -> (r: Option<&T>)
        ensures
            r is Some <==> self.has(k@),
            r matches Some(v) ==> *v == self.at(k@),
    {
        match self.find(k) {
            Some(i) => Some(&self.entries[i].1),
            None => None,
        }
    }

    /// Inserts or replaces the value under `k`, keeping keys in order.
    pub fn insert(&mut self, k: String, v: T)
        ensures
            final(self).has(k@),
            final(self).at(k@) == v,
            forall|x: Seq<char>| x != k@ ==> (final(self).has(x) <==> old(self).has(x)),
            forall|x: Seq<char>| x != k@ && old(self).has(x) ==> final(self).at(x) == old(self).at(x),
            final(self).keys().len() == old(self).keys().len() + (if old(self).has(k@) { 0int } else { 1int }),
    {
        proof {
            use_type_invariant(&*self);
        }
        let ghost ok = self.keys();
        let ghost ov = self.vals();
        let n = self.entries.len();
        let mut i: usize = 0;
        while i < n
            invariant
                n == self.entries.len(),
                0 <= i <= n,
                ok == self.keys(),
                ov == self.vals(),
                sorted_keys(ok),
                forall|j: int| 0 <= j < i ==> seq_lt(ok[j], k@),
            ensures
                0 <= i <= n,
                forall|j: int| 0 <= j < i ==> seq_lt(ok[j], k@),
                i < n ==> !seq_lt(ok[i as int], k@),
            decreases n - i,
        {
            if !str_lt(self.entries[i].0.as_str(), k.as_str()) {
                break;
            }
            i = i + 1;
        }
        if i < n && str_eq(self.entries[i].0.as_str(), k.as_str()) {
            let mut entries = Vec::new();
            std::mem::swap(&mut entries, &mut self.entries);
            entries.set(i, (k, v));
            proof {
                let nk = entries@.map_values(|e: (String, T)| e.0@);
                assert(nk =~= ok);
                lemma_sorted_index_of(ok, i as int);
                let nv = entries@.map_values(|e: (String, T)| e.1);
                assert(nv =~= ov.update(i as int, v));
            }
            self.entries = entries;
        } else {
            proof {
                if i < n {
                    assert(!seq_lt(ok[i as int], k@));
                    lemma_seq_lt_total(ok[i as int], k@);
                    assert(seq_lt(k@, ok[i as int]));
                }
            }
            let mut entries = Vec::new();
            std::mem::swap(&mut entries, &mut self.entries);
            entries.insert(i, (k, v));
            proof {
                let nk = entries@.map_values(|e: (String, T)| e.0@);
                let nv = entries@.map_values(|e: (String, T)| e.1);
                assert(nk =~= ok.insert(i as int, k@));
                assert(nv =~= ov.insert(i as int, v));
                assert forall|a: int, b: int| 0 <= a < b < nk.len() implies seq_lt(
                    #[trigger] nk[a],
                    #[trigger] nk[b],
                ) by {
                    if b < i {
                    } else if a > i {
                        assert(nk[a] == ok[a - 1] && nk[b] == ok[b - 1]);
                    } else if a == i {
                        assert(nk[b] == ok[b - 1]);
                        if b - 1 > i {
                            lemma_seq_lt_transitive(k@, ok[i as int], ok[b - 1]);
                        }
                    } else if b == i {
                    } else {
                        assert(nk[b] == ok[b - 1]);
                        assert(seq_lt(ok[a], k@));
                        if b - 1 > i {
                            lemma_seq_lt_transitive(k@, ok[i as int], ok[b - 1]);
                        }
                        lemma_seq_lt_transitive(ok[a], k@, ok[b - 1]);
                    }
                }
                assert(!ok.contains(k@)) by {
                    if ok.contains(k@) {
                        let j = ok.index_of(k@);
                        if j < i {
                            lemma_seq_lt_irreflexive(k@);
                        } else {
                            if j > i {
                                lemma_seq_lt_transitive(k@, ok[i as int], ok[j]);
                            }
                            lemma_seq_lt_irreflexive(k@);
                        }
                    }
                }
                lemma_sorted_index_of(nk, i as int);
                assert forall|x: Seq<char>| x != k@ implies (nk.contains(x) <==> ok.contains(x)) by {
                    if ok.contains(x) {
                        let j = ok.index_of(x);
                        if j < i {
                            assert(nk[j] == x);
                        } else {
                            assert(nk[j + 1] == x);
                        }
                    }
                    if nk.contains(x) {
                        let j = nk.index_of(x);
                        if j < i {
                            assert(ok[j] == x);
                        } else {
                            assert(ok[j - 1] == x);
                        }
                    }
                }
                assert forall|x: Seq<char>| x != k@ && ok.contains(x) implies nv[nk.index_of(x)]
                    == ov[ok.index_of(x)] by {
                    let j = ok.index_of(x);
                    lemma_sorted_index_of(ok, j);
                    if j < i {
                        lemma_sorted_index_of(nk, j);
                    } else {
                        assert(nk[j + 1] == x);
                        lemma_sorted_index_of(nk, j + 1);
                    }
                }
            }
            self.entries = entries;
        }
    }

    /// Removes and returns the value under `k`.
    pub fn remove(&mut self, k: &str) -> (r: Option<T>)
        ensures
            r is Some <==> old(self).has(k@),
            r matches Some(v) ==> v == old(self).at(k@),
            !final(self).has(k@),
            forall|x: Seq<char>| x != k@ ==> (final(self).has(x) <==> old(self).has(x)),
            forall|x: Seq<char>| x != k@ && old(self).has(x) ==> final(self).at(x) == old(self).at(x),
            final(self).keys().len() == old(self).keys().len() - (if old(self).has(k@) { 1int } else { 0int }),
    {
        proof {
            use_type_invariant(&*self);
        }
        let ghost ok = self.keys();
        let ghost ov = self.vals();
        match self.find(k) {
            None => None,
            Some(i) => {
                let mut entries = Vec::new();
                std::mem::swap(&mut entries, &mut self.entries);
                let (_, v) = entries.remove(i);
                proof {
                    let nk = entries@.map_values(|e: (String, T)| e.0@);
                    let nv = entries@.map_values(|e: (String, T)| e.1);
                    assert(nk =~= ok.remove(i as int));
                    assert(nv =~= ov.remove(i as int));
                    assert forall|a: int, b: int| 0 <= a < b < nk.len() implies seq_lt(
                        #[trigger] nk[a],
                        #[trigger] nk[b],
                    ) by {
                        if a < i && b >= i {
                            assert(nk[b] == ok[b + 1]);
                        } else if a >= i {
                            assert(nk[a] == ok[a + 1] && nk[b] == ok[b + 1]);
                        }
                    }
                    assert(!nk.contains(k@)) by {
                        if nk.contains(k@) {
                            let j = nk.index_of(k@);
                            if j < i {
                                lemma_sorted_unique(ok, j, i as int);
                            } else {
                                assert(ok[j + 1] == k@);
                                lemma_sorted_unique(ok, j + 1, i as int);
                            }
                        }
                    }
                    assert forall|x: Seq<char>| x != k@ implies (nk.contains(x) <==> ok.contains(x)) by {
                        if ok.contains(x) {
                            let j = ok.index_of(x);
                            if j < i {
                                assert(nk[j] == x);
                            } else {
                                assert(j != i);
                                assert(nk[j - 1] == x);
                            }
                        }
                        if nk.contains(x) {
                            let j = nk.index_of(x);
                            if j < i {
                                assert(ok[j] == x);
                            } else {
                                assert(ok[j + 1] == x);
                            }
                        }
                    }
                    assert forall|x: Seq<char>| x != k@ && ok.contains(x) implies nv[nk.index_of(x)]
                        == ov[ok.index_of(x)] by {
                        let j = ok.index_of(x);
                        lemma_sorted_index_of(ok, j);
                        if j < i {
                            lemma_sorted_index_of(nk, j);
                        } else {
                            assert(j != i);
                            assert(nk[j - 1] == x);
                            lemma_sorted_index_of(nk, j - 1);
                        }
                    }
                }
                self.entries = entries;
                Some(v)
            },
        }
    }

    /// Keeps exactly the entries whose flag is set, in order.
    pub fn retain_flags(&mut self, keep: &Vec<bool>)
        requires
            keep.len() == old(self).keys().len(),
        ensures
            final(self).keys() == filter_by(old(self).keys(), keep@),
            final(self).vals() == filter_by(old(self).vals(), keep@),
    {
        proof {
            use_type_invariant(&*self);
        }
        let ghost ok = self.keys();
        let ghost ov = self.vals();
        let mut entries = Vec::new();
        std::mem::swap(&mut entries, &mut self.entries);
        let mut out: Vec<(String, T)> = Vec::new();
        let n = entries.len();
        let ghost orig = entries@;
        assert(ok == orig.map_values(|e: (String, T)| e.0@));
        assert(ov == orig.map_values(|e: (String, T)| e.1));
        let mut i: usize = 0;
        while i < n
            invariant
                0 <= i <= n,
                n == keep.len(),
                n == orig.len(),
                entries@ == orig.subrange(i as int, n as int),
                ok == orig.map_values(|e: (String, T)| e.0@),
                ov == orig.map_values(|e: (String, T)| e.1),
                out@.map_values(|e: (String, T)| e.0@) == filter_by(ok.take(i as int), keep@),
                out@.map_values(|e: (String, T)| e.1) == filter_by(ov.take(i as int), keep@),
                ok.len() == n,
                ov.len() == n,
            decreases n - i,
        {
            let e = entries.remove(0);
            assert(e == orig[i as int]);
            assert(e.0@ == ok[i as int] && e.1 == ov[i as int]);
            assert(entries@ =~= orig.subrange(i + 1, n as int));
            assert(ok.take(i + 1).drop_last() =~= ok.take(i as int));
            assert(ov.take(i + 1).drop_last() =~= ov.take(i as int));
            if keep[i] {
                out.push(e);
                assert(out@.map_values(|e: (String, T)| e.0@) =~= filter_by(ok.take(i + 1), keep@));
                assert(out@.map_values(|e: (String, T)| e.1) =~= filter_by(ov.take(i + 1), keep@));
            }
            i = i + 1;
        }
        assert(ok.take(n as int) =~= ok);
        assert(ov.take(n as int) =~= ov);
        proof {
            lemma_filter_sorted(ok, keep@);
        }
        self.entries = out;
    }

    /// Puts `v` at position `i` and returns the value that was there.
    pub fn replace_value_at(&mut self, i: usize, v: T) -> (r: T)
        requires
            i < old(self).keys().len(),
        ensures
            r == old(self).vals()[i as int],
            final(self).keys() == old(self).keys(),
            final(self).vals() == old(self).vals().update(i as int, v),
    {
        proof {
            use_type_invariant(&*self);
        }
        let ghost ok = self.keys();
        let ghost ov = self.vals();
        let mut entries = Vec::new();
        std::mem::swap(&mut entries, &mut self.entries);
        let (k, old_v) = entries.remove(i);
        entries.insert(i, (k, v));
        proof {
            assert(entries@.map_values(|e: (String, T)| e.0@) =~= ok);
            assert(entries@.map_values(|e: (String, T)| e.1) =~= ov.update(i as int, v));
        }
        self.entries = entries;
        old_v
    }
}

} // verus!
