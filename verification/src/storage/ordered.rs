//! An ordered map from byte-string keys to values, kept as a vector of
//! entries sorted by key. It backs the in-memory indexes, which scan keys
//! in lexicographic order.

use vstd::prelude::*;
use crate::encoding::{
    has_prefix, lemma_lex_common_prefix, lemma_lex_irreflexive, lemma_lex_total, lemma_lex_transitive,
    lex_le, lex_lt,
};

verus! {

/// How one key relates to another in lexicographic order.
#[derive(Debug, Clone, Copy, PartialEq, Eq, Structural)]
pub enum KeyOrder {
    Less,
    Equal,
    Greater,
}

/// Compare two byte strings lexicographically.
pub fn compare_keys(a: &[u8], b: &[u8]) -> (r: KeyOrder)
    ensures
        r == KeyOrder::Less <==> lex_lt(a@, b@),
        r == KeyOrder::Equal <==> a@ == b@,
        r == KeyOrder::Greater <==> lex_lt(b@, a@),
{
    let mut i: usize = 0;
    let la = a.len();
    let lb = b.len();
    proof {
        lemma_lex_irreflexive(a@);
        lemma_lex_total(a@, b@);
        if lex_lt(a@, b@) && lex_lt(b@, a@) {
            lemma_lex_transitive(a@, b@, a@);
        }
    }
    while i < la && i < lb
        invariant
            i <= la == a@.len(),
            i <= lb == b@.len(),
            a@.subrange(0, i as int) == b@.subrange(0, i as int),
        decreases la - i,
    {
        if a[i] != b[i] {
            proof {
                let p = a@.subrange(0, i as int);
                lemma_lex_common_prefix(p, a@.subrange(i as int, la as int), b@.subrange(i as int, lb as int));
                assert(a@ == p + a@.subrange(i as int, la as int));
                assert(b@ == p + b@.subrange(i as int, lb as int));
                assert(a@.subrange(i as int, la as int)[0] == a@[i as int]);
                assert(b@.subrange(i as int, lb as int)[0] == b@[i as int]);
                lemma_lex_common_prefix(p, b@.subrange(i as int, lb as int), a@.subrange(i as int, la as int));
            }
            if a[i] < b[i] {
                return KeyOrder::Less;
            } else {
                return KeyOrder::Greater;
            }
        }
        i = i + 1;
        assert(a@.subrange(0, i as int) == b@.subrange(0, (i - 1) as int).push(b@[i - 1]));
    }
    proof {
        let p = a@.subrange(0, i as int);
        lemma_lex_common_prefix(p, a@.subrange(i as int, la as int), b@.subrange(i as int, lb as int));
        lemma_lex_common_prefix(p, b@.subrange(i as int, lb as int), a@.subrange(i as int, la as int));
        assert(a@ == p + a@.subrange(i as int, la as int));
        assert(b@ == p + b@.subrange(i as int, lb as int));
    }
    if la < lb {
        KeyOrder::Less
    } else if la > lb {
        KeyOrder::Greater
    } else {
        assert(a@ == b@);
        KeyOrder::Equal
    }
}

/// The map a sequence of entries denotes; later entries win.
pub open spec fn map_of<V>(s: Seq<(Vec<u8>, V)>) -> Map<Seq<u8>, V>
    decreases s.len(),
{
    if s.len() == 0 {
        Map::empty()
    } else {
        map_of(s.drop_last()).insert(s.last().0@, s.last().1)
    }
}

/// Keys strictly increase along the sequence.
pub open spec fn sorted_keys<V>(s: Seq<(Vec<u8>, V)>) -> bool {
    forall|i: int, j: int| 0 <= i < j < s.len() ==> lex_lt(#[trigger] s[i].0@, #[trigger] s[j].0@)
}

pub proof fn lemma_map_of_dom<V>(s: Seq<(Vec<u8>, V)>, k: Seq<u8>)
    ensures
        map_of(s).contains_key(k) <==> exists|i: int| 0 <= i < s.len() && #[trigger] s[i].0@ == k,
    decreases s.len(),
{
    if s.len() > 0 {
        let t = s.drop_last();
        lemma_map_of_dom(t, k);
        if map_of(s).contains_key(k) {
            if k == s.last().0@ {
                assert(s[s.len() - 1].0@ == k);
            } else {
                let i = choose|i: int| 0 <= i < t.len() && #[trigger] t[i].0@ == k;
                assert(s[i].0@ == k);
            }
        }
        if exists|i: int| 0 <= i < s.len() && #[trigger] s[i].0@ == k {
            let i = choose|i: int| 0 <= i < s.len() && #[trigger] s[i].0@ == k;
            if i < s.len() - 1 {
                assert(t[i].0@ == k);
            }
        }
    }
}

pub proof fn lemma_map_of_value<V>(s: Seq<(Vec<u8>, V)>, i: int)
    requires
        sorted_keys(s),
        0 <= i < s.len(),
    ensures
        map_of(s).contains_key(s[i].0@),
        map_of(s)[s[i].0@] == s[i].1,
    decreases s.len(),
{
    let t = s.drop_last();
    if i < s.len() - 1 {
        assert(sorted_keys(t)) by {
            assert forall|a: int, b: int| 0 <= a < b < t.len() implies lex_lt(
                #[trigger] t[a].0@,
                #[trigger] t[b].0@,
            ) by {
                assert(t[a] == s[a] && t[b] == s[b]);
            }
        }
        lemma_map_of_value(t, i);
        assert(t[i] == s[i]);
        assert(lex_lt(s[i].0@, s[s.len() - 1].0@));
        lemma_lex_irreflexive(s[i].0@);
    }
}

/// An ordered map from byte strings to values.
pub struct ByteMap<V> {
    entries: Vec<(Vec<u8>, V)>,
}

impl<V> ByteMap<V> {
    /// The map's contents.
    pub closed spec fn view(&self) -> Map<Seq<u8>, V> {
        map_of(self.entries@)
    }

    /// The entries in ascending key order.
    pub closed spec fn listing(&self) -> Seq<(Seq<u8>, V)> {
        self.entries@.map_values(|e: (Vec<u8>, V)| (e.0@, e.1))
    }

    /// Keys are kept sorted and distinct.
    pub closed spec fn wf(&self) -> bool {
        sorted_keys(self.entries@)
    }

    /// The listing holds exactly the map's entries, in strictly ascending key order.
    pub proof fn lemma_listing(&self)
        requires
            self.wf(),
        ensures
            forall|i: int, j: int|
                0 <= i < j < self.listing().len() ==> lex_lt(
                    #[trigger] self.listing()[i].0,
                    #[trigger] self.listing()[j].0,
                ),
            forall|i: int|
                0 <= i < self.listing().len() ==> self.view().contains_key(
                    #[trigger] self.listing()[i].0,
                ) && self.view()[self.listing()[i].0] == self.listing()[i].1,
            forall|k: Seq<u8>|
                #[trigger] self.view().contains_key(k) ==> exists|i: int|
                    0 <= i < self.listing().len() && #[trigger] self.listing()[i].0 == k,
            self.view().dom().finite(),
    {
        assert forall|i: int| 0 <= i < self.listing().len() implies self.view().contains_key(
            #[trigger] self.listing()[i].0,
        ) && self.view()[self.listing()[i].0] == self.listing()[i].1 by {
            lemma_map_of_value(self.entries@, i);
        }
        assert forall|k: Seq<u8>| #[trigger] self.view().contains_key(k) implies exists|i: int|
            0 <= i < self.listing().len() && #[trigger] self.listing()[i].0 == k by {
            lemma_map_of_dom(self.entries@, k);
            let i = choose|i: int| 0 <= i < self.entries@.len() && #[trigger] self.entries@[i].0@ == k;
            assert(self.listing()[i].0 == k);
        }
        lemma_map_of_finite(self.entries@);
    }

    /// The listing has one entry per key.
    pub proof fn lemma_len(&self)
        requires
            self.wf(),
        ensures
            self.view().len() == self.listing().len(),
    {
        lemma_map_of_len(self.entries@);
    }

    /// An empty map.
    pub fn new() -> (r: Self)
        ensures
            r.wf(),
            r.view() == Map::<Seq<u8>, V>::empty(),
            r.listing().len() == 0,
    {
        ByteMap { entries: Vec::new() }
    }

    /// Number of entries.
    pub fn len(&self) -> (r: usize)
        requires
            self.wf(),
        ensures
            r == self.view().len(),
            r == self.listing().len(),
    {
        proof {
            lemma_map_of_len(self.entries@);
        }
        self.entries.len()
    }

    /// A map with the same keys, each holding an empty value.
    pub fn keys_only(&self) -> (r: ByteMap<Vec<u8>>)
        requires
            self.wf(),
        ensures
            r.wf(),
            r.view().dom() == self.view().dom(),
            forall|k: Seq<u8>| #[trigger] r.view().contains_key(k) ==> r.view()[k]@ == Seq::<u8>::empty(),
    {
        let mut out: Vec<(Vec<u8>, Vec<u8>)> = Vec::new();
        let mut i: usize = 0;
        while i < self.entries.len()
            invariant
                i <= self.entries@.len(),
                out@.len() == i,
                forall|j: int| 0 <= j < i ==> #[trigger] out@[j].0@ == self.entries@[j].0@ && out@[j].1@ == Seq::<
                    u8,
                >::empty(),
            decreases self.entries@.len() - i,
        {
            let k = crate::text::copy_range(self.entries[i].0.as_slice(), 0, self.entries[i].0.len());
            proof {
                assert(self.entries@[i as int].0@.subrange(0, self.entries@[i as int].0@.len() as int)
                    == self.entries@[i as int].0@);
            }
            out.push((k, Vec::new()));
            i = i + 1;
        }
        let r = ByteMap { entries: out };
        proof {
            let s = self.entries@;
            let o = out@;
            assert(sorted_keys(o)) by {
                assert forall|a: int, b: int| 0 <= a < b < o.len() implies lex_lt(#[trigger] o[a].0@, #[trigger] o[b].0@) by {
                    assert(o[a].0@ == s[a].0@ && o[b].0@ == s[b].0@);
                }
            }
            assert forall|k: Seq<u8>| #[trigger] map_of(o).contains_key(k) == map_of(s).contains_key(k) by {
                lemma_map_of_dom(o, k);
                lemma_map_of_dom(s, k);
                if exists|j: int| 0 <= j < o.len() && #[trigger] o[j].0@ == k {
                    let j = choose|j: int| 0 <= j < o.len() && #[trigger] o[j].0@ == k;
                    assert(s[j].0@ == k);
                }
                if exists|j: int| 0 <= j < s.len() && #[trigger] s[j].0@ == k {
                    let j = choose|j: int| 0 <= j < s.len() && #[trigger] s[j].0@ == k;
                    assert(o[j].0@ == k);
                }
            }
            assert(r.view().dom() =~= self.view().dom());
            assert forall|k: Seq<u8>| #[trigger] r.view().contains_key(k) implies r.view()[k]@ == Seq::<u8>::empty() by {
                lemma_map_of_dom(o, k);
                let j = choose|j: int| 0 <= j < o.len() && #[trigger] o[j].0@ == k;
                lemma_map_of_value(o, j);
            }
        }
        r
    }

    /// Position of `key`, if present.
    fn find(&self, key: &[u8]) -> (r: Option<usize>)
        requires
            self.wf(),
        ensures
            match r {
                Some(i) => i < self.entries@.len() && self.entries@[i as int].0@ == key@,
                None => !self.view().contains_key(key@),
            },
    {
        let mut i: usize = 0;
        while i < self.entries.len()
            invariant
                i <= self.entries@.len(),
                forall|j: int| 0 <= j < i ==> #[trigger] self.entries@[j].0@ != key@,
            decreases self.entries@.len() - i,
        {
            if compare_keys(self.entries[i].0.as_slice(), key) == KeyOrder::Equal {
                return Some(i);
            }
            i = i + 1;
        }
        proof {
            lemma_map_of_dom(self.entries@, key@);
        }
        None
    }

    /// The value stored under `key`.
    pub fn get(&self, key: &[u8]) -> (r: Option<&V>)
        requires
            self.wf(),
        ensures
            match r {
                Some(v) => self.view().contains_key(key@) && self.view()[key@] == *v,
                None => !self.view().contains_key(key@),
            },
    {
        match self.find(key) {
            Some(i) => {
                proof {
                    lemma_map_of_value(self.entries@, i as int);
                }
                Some(&self.entries[i].1)
            },
            None => None,
        }
    }

    /// Whether `key` is present.
    pub fn contains_key(&self, key: &[u8]) -> (r: bool)
        requires
            self.wf(),
        ensures
            r == self.view().contains_key(key@),
    {
        match self.find(key) {
            Some(i) => {
                proof {
                    lemma_map_of_value(self.entries@, i as int);
                }
                true
            },
            None => false,
        }
    }

    /// Store `value` under `key`, replacing any previous value.
    pub fn insert(&mut self, key: Vec<u8>, value: V)
        requires
            old(self).wf(),
        ensures
            final(self).wf(),
            final(self).view() == old(self).view().insert(key@, value),
    {
        let ghost old_entries = self.entries@;
        let n = self.entries.len();
        let mut i: usize = 0;
        let mut found = false;
        while i < n
            invariant
                n == old_entries.len(),
                i <= n,
                self.entries@ == old_entries,
                sorted_keys(old_entries),
                forall|j: int| 0 <= j < i ==> lex_lt(#[trigger] old_entries[j].0@, key@),
                found ==> i < n && old_entries[i as int].0@ == key@,
            ensures
                i <= n,
                forall|j: int| 0 <= j < i ==> lex_lt(#[trigger] old_entries[j].0@, key@),
                found ==> i < n && old_entries[i as int].0@ == key@,
                !found ==> (i < n ==> lex_lt(key@, old_entries[i as int].0@)),
            decreases n - i,
        {
            let c = compare_keys(self.entries[i].0.as_slice(), key.as_slice());
            if c == KeyOrder::Equal {
                found = true;
                break;
            }
            if c == KeyOrder::Greater {
                break;
            }
            i = i + 1;
        }
        let ghost e = (key, value);
        if found {
            self.entries.set(i, (key, value));
            proof {
                let s = self.entries@;
                assert(s == old_entries.update(i as int, e));
                assert(sorted_keys(s)) by {
                    assert forall|a: int, b: int| 0 <= a < b < s.len() implies lex_lt(
                        #[trigger] s[a].0@,
                        #[trigger] s[b].0@,
                    ) by {
                        assert(old_entries[a].0@ == s[a].0@);
                        assert(old_entries[b].0@ == s[b].0@);
                    }
                }
                lemma_view_after_set(old_entries, s, i as int, e);
            }
        } else {
            proof {
                assert forall|j: int| i <= j < old_entries.len() implies lex_lt(
                    e.0@,
                    #[trigger] old_entries[j].0@,
                ) by {
                    if j > i {
                        lemma_lex_transitive(e.0@, old_entries[i as int].0@, old_entries[j].0@);
                    }
                }
            }
            self.entries.insert(i, (key, value));
            proof {
                let s = self.entries@;
                assert(s == old_entries.insert(i as int, e));
                assert(sorted_keys(s)) by {
                    assert forall|a: int, b: int| 0 <= a < b < s.len() implies lex_lt(
                        #[trigger] s[a].0@,
                        #[trigger] s[b].0@,
                    ) by {
                        if b < i {
                            assert(s[a] == old_entries[a] && s[b] == old_entries[b]);
                        } else if b == i {
                            assert(s[a] == old_entries[a]);
                        } else if a == i {
                            assert(s[b] == old_entries[b - 1]);
                        } else if a < i {
                            assert(s[a] == old_entries[a] && s[b] == old_entries[b - 1]);
                        } else {
                            assert(s[a] == old_entries[a - 1] && s[b] == old_entries[b - 1]);
                        }
                    }
                }
                lemma_view_after_insert(old_entries, s, i as int, e);
            }
        }
    }

    /// Remove `key`, if present.
    pub fn remove(&mut self, key: &[u8])
        requires
            old(self).wf(),
        ensures
            final(self).wf(),
            final(self).view() == old(self).view().remove(key@),
    {
        let ghost old_entries = self.entries@;
        match self.find(key) {
            Some(i) => {
                self.entries.remove(i);
                proof {
                    let s = self.entries@;
                    assert(sorted_keys(s)) by {
                        assert forall|a: int, b: int| 0 <= a < b < s.len() implies lex_lt(
                            #[trigger] s[a].0@,
                            #[trigger] s[b].0@,
                        ) by {
                            if b < i {
                                assert(s[a] == old_entries[a] && s[b] == old_entries[b]);
                            } else if a < i {
                                assert(s[a] == old_entries[a] && s[b] == old_entries[b + 1]);
                            } else {
                                assert(s[a] == old_entries[a + 1] && s[b] == old_entries[b + 1]);
                            }
                        }
                    }
                    lemma_view_after_remove(old_entries, s, i as int);
                }
            },
            None => {
                assert(self.view() == old(self).view().remove(key@));
            },
        }
    }
}

pub proof fn lemma_map_of_finite<V>(s: Seq<(Vec<u8>, V)>)
    ensures
        map_of(s).dom().finite(),
    decreases s.len(),
{
    if s.len() > 0 {
        lemma_map_of_finite(s.drop_last());
    }
}

pub proof fn lemma_map_of_len<V>(s: Seq<(Vec<u8>, V)>)
    requires
        sorted_keys(s),
    ensures
        map_of(s).len() == s.len(),
    decreases s.len(),
{
    if s.len() > 0 {
        let t = s.drop_last();
        assert(sorted_keys(t)) by {
            assert forall|a: int, b: int| 0 <= a < b < t.len() implies lex_lt(
                #[trigger] t[a].0@,
                #[trigger] t[b].0@,
            ) by {
                assert(t[a] == s[a] && t[b] == s[b]);
            }
        }
        lemma_map_of_len(t);
        lemma_map_of_finite(t);
        lemma_map_of_dom(t, s.last().0@);
        if map_of(t).contains_key(s.last().0@) {
            let i = choose|i: int| 0 <= i < t.len() && #[trigger] t[i].0@ == s.last().0@;
            assert(lex_lt(s[i].0@, s[s.len() - 1].0@));
            lemma_lex_irreflexive(s[i].0@);
        }
    }
}

proof fn lemma_view_after_set<V>(old_s: Seq<(Vec<u8>, V)>, new_s: Seq<(Vec<u8>, V)>, i: int, e: (Vec<u8>, V))
    requires
        sorted_keys(old_s),
        sorted_keys(new_s),
        0 <= i < old_s.len(),
        e.0@ == old_s[i].0@,
        new_s == old_s.update(i, e),
    ensures
        map_of(new_s) == map_of(old_s).insert(e.0@, e.1),
{
    let k = e.0@;
    let m1 = map_of(new_s);
    let m2 = map_of(old_s).insert(k, e.1);
    assert forall|x: Seq<u8>| m1.contains_key(x) <==> m2.contains_key(x) by {
        lemma_map_of_dom(new_s, x);
        lemma_map_of_dom(old_s, x);
        if m1.contains_key(x) {
            let j = choose|j: int| 0 <= j < new_s.len() && #[trigger] new_s[j].0@ == x;
            assert(old_s[j].0@ == x);
        }
        if m2.contains_key(x) && x != k {
            let j = choose|j: int| 0 <= j < old_s.len() && #[trigger] old_s[j].0@ == x;
            assert(new_s[j].0@ == x);
        }
        if x == k {
            assert(new_s[i].0@ == x);
        }
    }
    assert forall|x: Seq<u8>| #[trigger] m1.contains_key(x) implies m1[x] == m2[x] by {
        lemma_map_of_dom(new_s, x);
        let j = choose|j: int| 0 <= j < new_s.len() && #[trigger] new_s[j].0@ == x;
        lemma_map_of_value(new_s, j);
        if j != i {
            assert(old_s[j] == new_s[j]);
            lemma_map_of_value(old_s, j);
            assert(x != k) by {
                if i < j {
                    assert(lex_lt(old_s[i].0@, old_s[j].0@));
                } else {
                    assert(lex_lt(old_s[j].0@, old_s[i].0@));
                }
                lemma_lex_irreflexive(x);
            }
        }
    }
    assert(m1 =~= m2);
}

proof fn lemma_view_after_insert<V>(old_s: Seq<(Vec<u8>, V)>, new_s: Seq<(Vec<u8>, V)>, i: int, e: (Vec<u8>, V))
    requires
        sorted_keys(old_s),
        sorted_keys(new_s),
        0 <= i <= old_s.len(),
        new_s == old_s.insert(i, e),
    ensures
        map_of(new_s) == map_of(old_s).insert(e.0@, e.1),
{
    let k = e.0@;
    let m1 = map_of(new_s);
    let m2 = map_of(old_s).insert(k, e.1);
    assert forall|x: Seq<u8>| m1.contains_key(x) <==> m2.contains_key(x) by {
        lemma_map_of_dom(new_s, x);
        lemma_map_of_dom(old_s, x);
        if m1.contains_key(x) && x != k {
            let j = choose|j: int| 0 <= j < new_s.len() && #[trigger] new_s[j].0@ == x;
            if j < i {
                assert(old_s[j].0@ == x);
            } else {
                assert(j != i);
                assert(old_s[j - 1].0@ == x);
            }
        }
        if m2.contains_key(x) && x != k {
            let j = choose|j: int| 0 <= j < old_s.len() && #[trigger] old_s[j].0@ == x;
            if j < i {
                assert(new_s[j].0@ == x);
            } else {
                assert(new_s[j + 1].0@ == x);
            }
        }
        if x == k {
            assert(new_s[i].0@ == x);
        }
    }
    assert forall|x: Seq<u8>| #[trigger] m1.contains_key(x) implies m1[x] == m2[x] by {
        lemma_map_of_dom(new_s, x);
        let j = choose|j: int| 0 <= j < new_s.len() && #[trigger] new_s[j].0@ == x;
        lemma_map_of_value(new_s, j);
        if j != i {
            assert(x != k) by {
                if i < j {
                    assert(lex_lt(new_s[i].0@, new_s[j].0@));
                } else {
                    assert(lex_lt(new_s[j].0@, new_s[i].0@));
                }
                lemma_lex_irreflexive(x);
            }
            if j < i {
                assert(old_s[j] == new_s[j]);
                lemma_map_of_value(old_s, j);
            } else {
                assert(old_s[j - 1] == new_s[j]);
                lemma_map_of_value(old_s, j - 1);
            }
        }
    }
    assert(m1 =~= m2);
}

proof fn lemma_view_after_remove<V>(old_s: Seq<(Vec<u8>, V)>, new_s: Seq<(Vec<u8>, V)>, i: int)
    requires
        sorted_keys(old_s),
        sorted_keys(new_s),
        0 <= i < old_s.len(),
        new_s == old_s.remove(i),
    ensures
        map_of(new_s) == map_of(old_s).remove(old_s[i].0@),
{
    let k = old_s[i].0@;
    let m1 = map_of(new_s);
    let m2 = map_of(old_s).remove(k);
    assert forall|x: Seq<u8>| m1.contains_key(x) <==> m2.contains_key(x) by {
        lemma_map_of_dom(new_s, x);
        lemma_map_of_dom(old_s, x);
        if m1.contains_key(x) {
            let j = choose|j: int| 0 <= j < new_s.len() && #[trigger] new_s[j].0@ == x;
            if j < i {
                assert(old_s[j] == new_s[j]);
                assert(lex_lt(old_s[j].0@, k));
                lemma_lex_irreflexive(k);
            } else {
                assert(old_s[j + 1] == new_s[j]);
                assert(lex_lt(k, old_s[j + 1].0@));
                lemma_lex_irreflexive(k);
            }
        }
        if m2.contains_key(x) {
            let j = choose|j: int| 0 <= j < old_s.len() && #[trigger] old_s[j].0@ == x;
            if j < i {
                assert(new_s[j] == old_s[j]);
            } else {
                assert(j != i);
                assert(new_s[j - 1] == old_s[j]);
            }
        }
    }
    assert forall|x: Seq<u8>| #[trigger] m1.contains_key(x) implies m1[x] == m2[x] by {
        lemma_map_of_dom(new_s, x);
        let j = choose|j: int| 0 <= j < new_s.len() && #[trigger] new_s[j].0@ == x;
        lemma_map_of_value(new_s, j);
        if j < i {
            assert(old_s[j] == new_s[j]);
            lemma_map_of_value(old_s, j);
        } else {
            assert(old_s[j + 1] == new_s[j]);
            lemma_map_of_value(old_s, j + 1);
        }
    }
    assert(m1 =~= m2);
}


/// Which keys a scan selects.
pub enum ScanFilter {
    /// Keys that start with the given bytes.
    Prefix(Vec<u8>),
    /// Keys at or before the given bound.
    UpTo(Vec<u8>),
    /// Keys at or after the given bound.
    From(Vec<u8>),
    /// Keys at or after the first bound and strictly before the second.
    Between(Vec<u8>, Vec<u8>),
}

/// The mathematical content of a scan filter.
pub enum ScanFilterView {
    Prefix(Seq<u8>),
    UpTo(Seq<u8>),
    From(Seq<u8>),
    Between(Seq<u8>, Seq<u8>),
}

impl ScanFilter {
    pub open spec fn view(&self) -> ScanFilterView {
        match self {
            ScanFilter::Prefix(p) => ScanFilterView::Prefix(p@),
            ScanFilter::UpTo(b) => ScanFilterView::UpTo(b@),
            ScanFilter::From(a) => ScanFilterView::From(a@),
            ScanFilter::Between(a, b) => ScanFilterView::Between(a@, b@),
        }
    }
}

/// Whether a scan selects `key`.
pub open spec fn selects(f: ScanFilterView, key: Seq<u8>) -> bool {
    match f {
        ScanFilterView::Prefix(p) => has_prefix(key, p),
        ScanFilterView::UpTo(b) => lex_le(key, b),
        ScanFilterView::From(a) => lex_le(a, key),
        ScanFilterView::Between(a, b) => lex_le(a, key) && lex_lt(key, b),
    }
}

/// Whether `s` starts with `prefix`.
pub fn starts_with(s: &[u8], prefix: &[u8]) -> (r: bool)
    ensures
        r == has_prefix(s@, prefix@),
{
    if prefix.len() > s.len() {
        return false;
    }
    let mut i: usize = 0;
    while i < prefix.len()
        invariant
            prefix@.len() <= s@.len(),
            i <= prefix@.len(),
            forall|j: int| 0 <= j < i ==> s@[j] == prefix@[j],
        decreases prefix@.len() - i,
    {
        if s[i] != prefix[i] {
            assert(s@.subrange(0, prefix@.len() as int)[i as int] != prefix@[i as int]);
            return false;
        }
        i = i + 1;
    }
    assert(s@.subrange(0, prefix@.len() as int) =~= prefix@);
    true
}

fn filter_selects(f: &ScanFilter, key: &[u8]) -> (r: bool)
    ensures
        r == selects(f.view(), key@),
{
    match f {
        ScanFilter::Prefix(p) => starts_with(key, p.as_slice()),
        ScanFilter::UpTo(b) => compare_keys(key, b.as_slice()) != KeyOrder::Greater,
        ScanFilter::From(a) => compare_keys(a.as_slice(), key) != KeyOrder::Greater,
        ScanFilter::Between(a, b) => compare_keys(a.as_slice(), key) != KeyOrder::Greater && compare_keys(
            key,
            b.as_slice(),
        ) == KeyOrder::Less,
    }
}

/// Key/value pairs as byte strings.
pub open spec fn pairs_view(r: Seq<(Vec<u8>, Vec<u8>)>) -> Seq<(Seq<u8>, Seq<u8>)> {
    r.map_values(|e: (Vec<u8>, Vec<u8>)| (e.0@, e.1@))
}

/// Values as byte strings.
pub open spec fn values_view(m: Map<Seq<u8>, Vec<u8>>) -> Map<Seq<u8>, Seq<u8>> {
    m.map_values(|v: Vec<u8>| v@)
}

/// `vals` are the values of `m`, one per key, listed in strictly
/// ascending order of the keys `ids`.
pub open spec fn values_in_key_order(ids: Seq<Seq<u8>>, vals: Seq<Seq<u8>>, m: Map<Seq<u8>, Seq<u8>>) -> bool {
    &&& ids.len() == vals.len()
    &&& forall|i: int, j: int| 0 <= i < j < ids.len() ==> lex_lt(#[trigger] ids[i], #[trigger] ids[j])
    &&& forall|i: int| 0 <= i < ids.len() ==> m.contains_key(#[trigger] ids[i]) && m[ids[i]] == vals[i]
    &&& forall|k: Seq<u8>| #[trigger] m.contains_key(k) ==> exists|i: int| 0 <= i < ids.len() && #[trigger] ids[i] == k
}

pub proof fn lemma_values_view_dom(m: Map<Seq<u8>, Vec<u8>>)
    ensures
        values_view(m).dom() == m.dom(),
        values_view(m).len() == m.len(),
{
    assert(values_view(m).dom() =~= m.dom());
}

pub proof fn lemma_values_view_insert(m: Map<Seq<u8>, Vec<u8>>, k: Seq<u8>, v: Vec<u8>)
    ensures
        values_view(m.insert(k, v)) == values_view(m).insert(k, v@),
{
    assert(values_view(m.insert(k, v)) =~= values_view(m).insert(k, v@));
}

pub proof fn lemma_values_view_remove(m: Map<Seq<u8>, Vec<u8>>, k: Seq<u8>)
    ensures
        values_view(m.remove(k)) == values_view(m).remove(k),
{
    assert(values_view(m.remove(k)) =~= values_view(m).remove(k));
}

/// Byte vectors as byte strings.
pub open spec fn vec_views(v: Seq<Vec<u8>>) -> Seq<Seq<u8>> {
    v.map_values(|b: Vec<u8>| b@)
}

/// A key set seen as a map to empty values.
pub open spec fn set_as_map(s: Set<Seq<u8>>) -> Map<Seq<u8>, Seq<u8>> {
    Map::new(|k: Seq<u8>| s.contains(k), |k: Seq<u8>| Seq::<u8>::empty())
}

/// Keys paired with empty values.
pub open spec fn keys_view(r: Seq<Vec<u8>>) -> Seq<(Seq<u8>, Seq<u8>)> {
    r.map_values(|k: Vec<u8>| (k@, Seq::<u8>::empty()))
}

/// The keys of a list of pairs.
pub fn first_of_pairs(p: &Vec<(Vec<u8>, Vec<u8>)>) -> (r: Vec<Vec<u8>>)
    ensures
        r@.len() == p@.len(),
        forall|i: int| 0 <= i < r@.len() ==> #[trigger] r@[i]@ == p@[i].0@,
{
    let mut out: Vec<Vec<u8>> = Vec::new();
    let mut i: usize = 0;
    while i < p.len()
        invariant
            i <= p@.len(),
            out@.len() == i,
            forall|j: int| 0 <= j < i ==> #[trigger] out@[j]@ == p@[j].0@,
        decreases p@.len() - i,
    {
        let k = crate::text::copy_range(p[i].0.as_slice(), 0, p[i].0.len());
        out.push(k);
        i = i + 1;
    }
    out
}

/// `r` lists, in strictly ascending key order, the smallest `n` keys of `m`
/// that `f` selects (all of them when fewer), each with its value.
pub open spec fn lists_first_selected(
    r: Seq<(Seq<u8>, Seq<u8>)>,
    m: Map<Seq<u8>, Seq<u8>>,
    f: ScanFilterView,
    n: nat,
) -> bool {
    &&& forall|i: int, j: int| 0 <= i < j < r.len() ==> lex_lt(#[trigger] r[i].0, #[trigger] r[j].0)
    &&& forall|i: int|
        0 <= i < r.len() ==> m.contains_key(#[trigger] r[i].0) && m[r[i].0] == r[i].1 && selects(
            f,
            r[i].0,
        )
    &&& r.len() <= n
    &&& forall|k: Seq<u8>|
        #[trigger] m.contains_key(k) && selects(f, k) && !(exists|i: int|
            0 <= i < r.len() && #[trigger] r[i].0 == k) ==> r.len() == n && forall|i: int|
            0 <= i < r.len() ==> lex_lt(#[trigger] r[i].0, k)
}

impl ByteMap<Vec<u8>> {
    /// The entries that `filter` selects, in ascending key order. With a
    /// limit `n`, the scan stops once it has collected `max(n, 1)` entries.
    pub fn scan(&self, filter: &ScanFilter, limit: Option<usize>) -> (r: Vec<(Vec<u8>, Vec<u8>)>)
        requires
            self.wf(),
        ensures
            lists_first_selected(
                pairs_view(r@),
                values_view(self.view()),
                filter.view(),
                match limit {
                    Some(l) => if l == 0 {
                        1
                    } else {
                        l as nat
                    },
                    None => self.view().len(),
                },
            ),
    {
        let ghost m = values_view(self.view());
        let ghost f = filter.view();
        let ghost s = self.entries@;
        let ghost cap: nat = match limit {
            Some(l) => if l == 0 {
                1
            } else {
                l as nat
            },
            None => self.view().len(),
        };
        proof {
            lemma_map_of_len(s);
        }
        let n = self.entries.len();
        let mut out: Vec<(Vec<u8>, Vec<u8>)> = Vec::new();
        let ghost mut idx: Seq<int> = Seq::empty();
        let mut i: usize = 0;
        while i < n
            invariant_except_break
                i < n ==> out@.len() < cap,
            invariant
                n == s.len(),
                s == self.entries@,
                sorted_keys(s),
                m == values_view(map_of(s)),
                f == filter.view(),
                cap == match limit {
                    Some(l) => if l == 0 {
                        1
                    } else {
                        l as nat
                    },
                    None => map_of(s).len(),
                },
                map_of(s).len() == s.len(),
                i <= n,
                idx.len() == out@.len(),
                forall|x: int, y: int| 0 <= x < y < idx.len() ==> idx[x] < idx[y],
                forall|x: int|
                    0 <= x < idx.len() ==> 0 <= #[trigger] idx[x] < i && pairs_view(out@)[x] == (
                        s[idx[x]].0@,
                        s[idx[x]].1@,
                    ) && selects(f, s[idx[x]].0@),
                forall|j: int|
                    0 <= j < i && selects(f, #[trigger] s[j].0@) ==> exists|x: int|
                        0 <= x < idx.len() && idx[x] == j,
                out@.len() <= cap,
                out@.len() <= i,
            ensures
                forall|j: int|
                    0 <= j < i && selects(f, #[trigger] s[j].0@) ==> exists|x: int|
                        0 <= x < idx.len() && idx[x] == j,
                i == n || out@.len() == cap,
                idx.len() == out@.len(),
                forall|x: int, y: int| 0 <= x < y < idx.len() ==> idx[x] < idx[y],
                forall|x: int|
                    0 <= x < idx.len() ==> 0 <= #[trigger] idx[x] < i && pairs_view(out@)[x] == (
                        s[idx[x]].0@,
                        s[idx[x]].1@,
                    ) && selects(f, s[idx[x]].0@),
                out@.len() <= cap,
                i <= n,
            decreases n - i,
        {
            let key = &self.entries[i].0;
            let ghost old_idx = idx;
            if filter_selects(filter, key.as_slice()) {
                let k = crate::text::copy_range(key.as_slice(), 0, key.len());
                let v = crate::text::copy_range(self.entries[i].1.as_slice(), 0, self.entries[i].1.len());
                proof {
                    assert(k@ == s[i as int].0@);
                    assert(v@ == s[i as int].1@);
                }
                out.push((k, v));
                proof {
                    idx = idx.push(i as int);
                    assert forall|x: int| 0 <= x < idx.len() implies 0 <= #[trigger] idx[x] < i + 1
                        && pairs_view(out@)[x] == (s[idx[x]].0@, s[idx[x]].1@) && selects(
                        f,
                        s[idx[x]].0@,
                    ) by {
                        if x < idx.len() - 1 {
                            assert(pairs_view(out@)[x] == pairs_view(out@.drop_last())[x]);
                        }
                    }
                }
                let reached = match limit {
                    Some(l) => out.len() >= l,
                    None => false,
                };
                if reached {
                    i = i + 1;
                    proof {
                        assert forall|j: int| 0 <= j < i && selects(f, #[trigger] s[j].0@) implies exists|x: int|
                            0 <= x < idx.len() && idx[x] == j by {
                            if j == i - 1 {
                                assert(idx[idx.len() - 1] == j);
                            } else {
                                let x = choose|x: int| 0 <= x < old_idx.len() && old_idx[x] == j;
                                assert(idx[x] == j);
                            }
                        }
                    }
                    break;
                }

            }
            i = i + 1;
            proof {
                assert forall|j: int| 0 <= j < i && selects(f, #[trigger] s[j].0@) implies exists|x: int|
                    0 <= x < idx.len() && idx[x] == j by {
                    if j == i - 1 {
                        assert(idx[idx.len() - 1] == j);
                    } else {
                        let x = choose|x: int| 0 <= x < old_idx.len() && old_idx[x] == j;
                        assert(idx[x] == j);
                    }
                }
            }
        }
        proof {
            let r = pairs_view(out@);
            assert forall|a: int, b: int| 0 <= a < b < r.len() implies lex_lt(#[trigger] r[a].0, #[trigger] r[b].0) by {
                assert(idx[a] < idx[b]);
            }
            assert forall|a: int| 0 <= a < r.len() implies m.contains_key(#[trigger] r[a].0) && m[r[a].0]
                == r[a].1 && selects(f, r[a].0) by {
                lemma_map_of_value(s, idx[a]);
            }
            assert forall|k: Seq<u8>| #[trigger] m.contains_key(k) && selects(f, k) && !(exists|a: int|
                0 <= a < r.len() && #[trigger] r[a].0 == k) implies r.len() == cap && forall|a: int|
                0 <= a < r.len() ==> lex_lt(#[trigger] r[a].0, k) by {
                lemma_map_of_dom(s, k);
                let j = choose|j: int| 0 <= j < s.len() && #[trigger] s[j].0@ == k;
                if j < i {
                    let x = choose|x: int| 0 <= x < idx.len() && idx[x] == j;
                    assert(r[x].0 == k);
                }
                assert forall|a: int| 0 <= a < r.len() implies lex_lt(#[trigger] r[a].0, k) by {
                    assert(idx[a] < j);
                }
            }
        }
        out
    }

    /// All values, in ascending order of their keys.
    pub fn values_in_order(&self) -> (r: Vec<Vec<u8>>)
        requires
            self.wf(),
        ensures
            r@.len() == values_view(self.view()).len(),
            exists|ids: Seq<Seq<u8>>| #[trigger] values_in_key_order(ids, vec_views(r@), values_view(self.view())),
    {
        let vals = self.values();
        proof {
            let m = values_view(self.view());
            self.lemma_listing();
            self.lemma_len();
            assert(m.dom() =~= self.view().dom());
            let ids = self.listing().map_values(|e: (Seq<u8>, Vec<u8>)| e.0);
            let vs = vec_views(vals@);
            assert(ids.len() == vals@.len());
            assert forall|i: int| 0 <= i < ids.len() implies m.contains_key(#[trigger] ids[i]) && m[ids[i]] == vs[i] by {
                assert(ids[i] == self.listing()[i].0);
            }
            assert forall|i: int, j: int| 0 <= i < j < ids.len() implies lex_lt(#[trigger] ids[i], #[trigger] ids[j]) by {
                assert(ids[i] == self.listing()[i].0);
                assert(ids[j] == self.listing()[j].0);
            }
            assert forall|k: Seq<u8>| #[trigger] m.contains_key(k) implies exists|i: int| 0 <= i < ids.len() && #[trigger] ids[i] == k by {
                let i = choose|i: int| 0 <= i < self.listing().len() && #[trigger] self.listing()[i].0 == k;
                assert(ids[i] == k);
            }
            assert(values_in_key_order(ids, vs, m));
        }
        vals
    }

    /// The first `limit` entries that `filter` selects, in ascending key
    /// order; none for a limit of 0.
    pub fn scan_take(&self, filter: &ScanFilter, limit: usize) -> (r: Vec<(Vec<u8>, Vec<u8>)>)
        requires
            self.wf(),
        ensures
            lists_first_selected(pairs_view(r@), values_view(self.view()), filter.view(), limit as nat),
    {
        if limit == 0 {
            let r: Vec<(Vec<u8>, Vec<u8>)> = Vec::new();
            assert(pairs_view(r@) =~= Seq::<(Seq<u8>, Seq<u8>)>::empty());
            return r;
        }
        self.scan(filter, Some(limit))
    }

    /// All values in ascending key order.
    pub fn values(&self) -> (r: Vec<Vec<u8>>)
        requires
            self.wf(),
        ensures
            r@.len() == self.listing().len(),
            forall|i: int| 0 <= i < r@.len() ==> #[trigger] r@[i]@ == self.listing()[i].1@,
    {
        let mut out: Vec<Vec<u8>> = Vec::new();
        let mut i: usize = 0;
        while i < self.entries.len()
            invariant
                i <= self.entries@.len(),
                out@.len() == i,
                forall|j: int| 0 <= j < i ==> #[trigger] out@[j]@ == self.entries@[j].1@,
            decreases self.entries@.len() - i,
        {
            let v = crate::text::copy_range(self.entries[i].1.as_slice(), 0, self.entries[i].1.len());
            out.push(v);
            i = i + 1;
        }
        out
    }
}

} // verus!
