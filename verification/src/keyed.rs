//! A small string-keyed association list — the in-memory form of the JSON
//! objects this app keeps on disk (read state, clear cutoffs, announced
//! devices, per-peer ratchet sessions). Keys are unique, and the list is
//! viewed as a finite map from a key's characters to its value.

use vstd::prelude::*;

verus! {

/// One key and its value.
pub struct Entry<V> {
    pub key: String,
    pub value: V,
}

/// No key occurs twice in `s`.
pub open spec fn keys_unique<V>(s: Seq<Entry<V>>) -> bool {
    forall|i: int, j: int| 0 <= i < j < s.len() ==> #[trigger] s[i].key@ != #[trigger] s[j].key@
}

/// The map that the entries `s` stand for (later entries win, though with
/// unique keys there is nothing to win over).
pub open spec fn map_of<V>(s: Seq<Entry<V>>) -> Map<Seq<char>, V>
    decreases s.len(),
{
    if s.len() == 0 {
        Map::empty()
    } else {
        map_of(s.drop_last()).insert(s.last().key@, s.last().value)
    }
}

/// A key is in the map exactly when some entry carries it.
pub proof fn lemma_map_of_dom<V>(s: Seq<Entry<V>>, k: Seq<char>)
    ensures
        map_of(s).dom().contains(k) <==> exists|i: int| 0 <= i < s.len() && #[trigger] s[i].key@ == k,
    decreases s.len(),
{
    if s.len() > 0 {
        lemma_map_of_dom(s.drop_last(), k);
        if map_of(s).dom().contains(k) && k != s.last().key@ {
            let i = choose|i: int| 0 <= i < s.drop_last().len() && #[trigger] s.drop_last()[i].key@ == k;
            assert(s[i].key@ == k);
        }
        if exists|i: int| 0 <= i < s.len() && #[trigger] s[i].key@ == k {
            let i = choose|i: int| 0 <= i < s.len() && #[trigger] s[i].key@ == k;
            if i < s.len() - 1 {
                assert(s.drop_last()[i].key@ == k);
            }
        }
    }
}

/// With unique keys, every entry's value is what the map holds for its key.
pub proof fn lemma_map_of_value<V>(s: Seq<Entry<V>>, i: int)
    requires
        keys_unique(s),
        0 <= i < s.len(),
    ensures
        map_of(s).dom().contains(s[i].key@),
        map_of(s)[s[i].key@] == s[i].value,
    decreases s.len(),
{
    if i < s.len() - 1 {
        let t = s.drop_last();
        assert(t[i] == s[i]);
        assert(keys_unique(t)) by {
            assert forall|a: int, b: int| 0 <= a < b < t.len() implies #[trigger] t[a].key@
                != #[trigger] t[b].key@ by {
                assert(t[a] == s[a] && t[b] == s[b]);
            }
        }
        lemma_map_of_value(t, i);
        assert(s[i].key@ != s.last().key@);
    }
}

/// A string-keyed map with unique keys.
pub struct KeyedList<V> {
    pub(crate) entries: Vec<Entry<V>>,
}

impl<V> View for KeyedList<V> {
    type V = Map<Seq<char>, V>;

    closed spec fn view(&self) -> Map<Seq<char>, V> {
        map_of(self.entries@)
    }
}

impl<V> KeyedList<V> {
    #[verifier::type_invariant]
    pub(crate) closed spec fn wf(self) -> bool {
        keys_unique(self.entries@)
    }

    /// The entries, in storage order.
    pub closed spec fn entries_seq(self) -> Seq<Entry<V>> {
        self.entries@
    }

    /// An empty map.
    pub fn new() -> (m: Self)
        ensures
            m@ == Map::<Seq<char>, V>::empty(),
    {
        KeyedList { entries: Vec::new() }
    }

    /// The number of keys.
    pub fn len(&self) -> (n: usize)
        ensures
            n == self@.dom().len(),
    {
        proof {
            use_type_invariant(self);
            lemma_map_of_len(self.entries@);
        }
        self.entries.len()
    }

    fn find(&self, key: &String) -> (r: Option<usize>)
        ensures
            match r {
                Some(i) => i < self.entries@.len() && self.entries@[i as int].key@ == key@,
                None => forall|i: int|
                    0 <= i < self.entries@.len() ==> #[trigger] self.entries@[i].key@ != key@,
            },
    {
        let mut i: usize = 0;
        while i < self.entries.len()
            invariant
                i <= self.entries@.len(),
                forall|j: int| 0 <= j < i ==> #[trigger] self.entries@[j].key@ != key@,
            decreases self.entries@.len() - i,
        {
            if self.entries[i].key == *key {
                return Some(i);
            }
            i = i + 1;
        }
        None
    }

    /// The value stored for `key`, if any.
    pub fn get(&self, key: &String) -> (r: Option<&V>)
        ensures
            r is Some <==> self@.dom().contains(key@),
            r is Some ==> *r->0 == self@[key@],
    {
        proof {
            use_type_invariant(self);
            lemma_map_of_dom(self.entries@, key@);
        }
        match self.find(key) {
            Some(i) => {
                proof {
                    lemma_map_of_value(self.entries@, i as int);
                }
                Some(&self.entries[i].value)
            },
            None => None,
        }
    }

    /// Whether `key` has a value.
    pub fn contains_key(&self, key: &String) -> (b: bool)
        ensures
            b == self@.dom().contains(key@),
    {
        proof {
            use_type_invariant(self);
            lemma_map_of_dom(self.entries@, key@);
        }
        self.find(key).is_some()
    }

    /// Sets `key` to `value`, replacing any earlier value.
    pub fn insert(&mut self, key: String, value: V)
        ensures
            final(self)@ == old(self)@.insert(key@, value),
    {
        proof {
            use_type_invariant(&*self);
        }
        let ghost old_s = self.entries@;
        let ghost k = key@;
        match self.find(&key) {
            Some(i) => {
                let ghost e = Entry { key: key, value: value };
                let mut entries: Vec<Entry<V>> = Vec::new();
                std::mem::swap(&mut entries, &mut self.entries);
                entries.set(i, Entry { key, value });
                proof {
                    let s = entries@;
                    assert(s == old_s.update(i as int, e));
                    assert(keys_unique(s)) by {
                        assert forall|a: int, b: int| 0 <= a < b < s.len() implies #[trigger] s[a].key@
                            != #[trigger] s[b].key@ by {
                            assert(s[a].key@ == old_s[a].key@);
                            assert(s[b].key@ == old_s[b].key@);
                        }
                    }
                    lemma_update_map(old_s, i as int, e);
                }
                self.entries = entries;
            },
            None => {
                let mut entries: Vec<Entry<V>> = Vec::new();
                std::mem::swap(&mut entries, &mut self.entries);
                entries.push(Entry { key, value });
                proof {
                    let s = entries@;
                    assert(s.drop_last() == old_s);
                    assert(keys_unique(s)) by {
                        assert forall|a: int, b: int| 0 <= a < b < s.len() implies #[trigger] s[a].key@
                            != #[trigger] s[b].key@ by {
                            if b == s.len() - 1 {
                                assert(old_s[a].key@ != k);
                            }
                        }
                    }
                }
                self.entries = entries;
            },
        }
    }

    /// Removes `key`, handing back the value it had.
    pub fn remove(&mut self, key: &String) -> (r: Option<V>)
        ensures
            final(self)@ == old(self)@.remove(key@),
            r is Some <==> old(self)@.dom().contains(key@),
            r is Some ==> r->0 == old(self)@[key@],
    {
        proof {
            use_type_invariant(&*self);
            lemma_map_of_dom(self.entries@, key@);
        }
        let ghost old_s = self.entries@;
        match self.find(key) {
            Some(i) => {
                let mut entries: Vec<Entry<V>> = Vec::new();
                std::mem::swap(&mut entries, &mut self.entries);
                let e = entries.remove(i);
                proof {
                    lemma_map_of_value(old_s, i as int);
                    lemma_remove_map(old_s, i as int);
                    let s = entries@;
                    assert(keys_unique(s)) by {
                        assert forall|a: int, b: int| 0 <= a < b < s.len() implies #[trigger] s[a].key@
                            != #[trigger] s[b].key@ by {
                            if a < i && b < i {
                            } else if a < i {
                                assert(s[b] == old_s[b + 1]);
                            } else {
                                assert(s[a] == old_s[a + 1] && s[b] == old_s[b + 1]);
                            }
                        }
                    }
                }
                self.entries = entries;
                Some(e.value)
            },
            None => {
                proof {
                    assert(old(self)@.remove(key@) =~= old(self)@);
                }
                None
            },
        }
    }

    /// The key/value pairs, in storage order.
    pub fn into_pairs(self) -> (pairs: Vec<(String, V)>)
        ensures
            pairs@.len() == self.entries_seq().len(),
            forall|i: int|
                0 <= i < pairs@.len() ==> #[trigger] pairs@[i].0 == self.entries_seq()[i].key
                    && pairs@[i].1 == self.entries_seq()[i].value,
            forall|i: int, j: int|
                0 <= i < j < pairs@.len() ==> #[trigger] pairs@[i].0@ != #[trigger] pairs@[j].0@,
            forall|i: int|
                0 <= i < pairs@.len() ==> #[trigger] self@.dom().contains(pairs@[i].0@)
                    && self@[pairs@[i].0@] == pairs@[i].1,
            forall|k: Seq<char>|
                #[trigger] self@.dom().contains(k) ==> exists|i: int|
                    0 <= i < pairs@.len() && #[trigger] pairs@[i].0@ == k,
    {
        proof {
            use_type_invariant(&self);
        }
        let ghost s = self.entries@;
        let mut pairs: Vec<(String, V)> = Vec::new();
        let mut rest = self.entries;
        while rest.len() > 0
            invariant
                keys_unique(s),
                pairs@.len() + rest@.len() == s.len(),
                forall|i: int|
                    0 <= i < pairs@.len() ==> #[trigger] pairs@[i].0 == s[i].key && pairs@[i].1
                        == s[i].value,
                forall|j: int| 0 <= j < rest@.len() ==> #[trigger] rest@[j] == s[pairs@.len() + j],
            decreases rest@.len(),
        {
            let ghost before = rest@;
            let e = rest.remove(0);
            proof {
                assert(e == s[pairs@.len() as int]);
                assert forall|j: int| 0 <= j < rest@.len() implies #[trigger] rest@[j] == s[pairs@.len()
                    + 1 + j] by {
                    assert(rest@[j] == before[j + 1]);
                }
            }
            pairs.push((e.key, e.value));
        }
        proof {
            assert forall|i: int| 0 <= i < pairs@.len() implies #[trigger] self@.dom().contains(
                pairs@[i].0@,
            ) && self@[pairs@[i].0@] == pairs@[i].1 by {
                lemma_map_of_value(s, i);
            }
            assert forall|k: Seq<char>| #[trigger] self@.dom().contains(k) implies exists|i: int|
                0 <= i < pairs@.len() && #[trigger] pairs@[i].0@ == k by {
                lemma_map_of_dom(s, k);
                let i = choose|i: int| 0 <= i < s.len() && #[trigger] s[i].key@ == k;
                assert(pairs@[i].0@ == k);
            }
        }
        pairs
    }
}

/// The map of any entry list is finite.
pub proof fn lemma_map_of_finite<V>(s: Seq<Entry<V>>)
    ensures
        map_of(s).dom().finite(),
    decreases s.len(),
{
    if s.len() > 0 {
        lemma_map_of_finite(s.drop_last());
    }
}

/// With unique keys, the map has one key per entry.
pub proof fn lemma_map_of_len<V>(s: Seq<Entry<V>>)
    requires
        keys_unique(s),
    ensures
        map_of(s).dom().len() == s.len(),
    decreases s.len(),
{
    if s.len() > 0 {
        let t = s.drop_last();
        assert(keys_unique(t)) by {
            assert forall|a: int, b: int| 0 <= a < b < t.len() implies #[trigger] t[a].key@
                != #[trigger] t[b].key@ by {
                assert(t[a] == s[a] && t[b] == s[b]);
            }
        }
        lemma_map_of_len(t);
        lemma_map_of_finite(t);
        lemma_map_of_dom(t, s.last().key@);
        if map_of(t).dom().contains(s.last().key@) {
            let i = choose|i: int| 0 <= i < t.len() && #[trigger] t[i].key@ == s.last().key@;
            assert(s[i].key@ == s[s.len() - 1].key@);
        }
    }
}

/// Replacing the entry at `i` by one with the same key rewrites that key's value.
proof fn lemma_update_map<V>(s: Seq<Entry<V>>, i: int, e: Entry<V>)
    requires
        keys_unique(s),
        0 <= i < s.len(),
        e.key@ == s[i].key@,
    ensures
        map_of(s.update(i, e)) == map_of(s).insert(e.key@, e.value),
{
    let t = s.update(i, e);
    assert(keys_unique(t)) by {
        assert forall|a: int, b: int| 0 <= a < b < t.len() implies #[trigger] t[a].key@
            != #[trigger] t[b].key@ by {
            assert(t[a].key@ == s[a].key@ && t[b].key@ == s[b].key@);
        }
    }
    let lhs = map_of(t);
    let rhs = map_of(s).insert(e.key@, e.value);
    assert forall|k: Seq<char>| #[trigger] lhs.dom().contains(k) <==> rhs.dom().contains(k) by {
        lemma_map_of_dom(t, k);
        lemma_map_of_dom(s, k);
        if exists|j: int| 0 <= j < s.len() && #[trigger] s[j].key@ == k {
            let j = choose|j: int| 0 <= j < s.len() && #[trigger] s[j].key@ == k;
            assert(t[j].key@ == k);
        }
        if exists|j: int| 0 <= j < t.len() && #[trigger] t[j].key@ == k {
            let j = choose|j: int| 0 <= j < t.len() && #[trigger] t[j].key@ == k;
            assert(s[j].key@ == k);
        }
    }
    assert forall|k: Seq<char>| #[trigger] lhs.dom().contains(k) implies lhs[k] == rhs[k] by {
        lemma_map_of_dom(t, k);
        let j = choose|j: int| 0 <= j < t.len() && #[trigger] t[j].key@ == k;
        lemma_map_of_value(t, j);
        if j != i {
            lemma_map_of_value(s, j);
        }
    }
    assert(lhs =~= rhs);
}

/// Deleting the entry at `i` deletes its key from the map.
proof fn lemma_remove_map<V>(s: Seq<Entry<V>>, i: int)
    requires
        keys_unique(s),
        0 <= i < s.len(),
    ensures
        map_of(s.remove(i)) == map_of(s).remove(s[i].key@),
{
    let t = s.remove(i);
    assert(keys_unique(t)) by {
        assert forall|a: int, b: int| 0 <= a < b < t.len() implies #[trigger] t[a].key@
            != #[trigger] t[b].key@ by {
            let a2 = if a < i { a } else { a + 1 };
            let b2 = if b < i { b } else { b + 1 };
            assert(t[a] == s[a2] && t[b] == s[b2]);
        }
    }
    let lhs = map_of(t);
    let rhs = map_of(s).remove(s[i].key@);
    assert forall|k: Seq<char>| #[trigger] lhs.dom().contains(k) <==> rhs.dom().contains(k) by {
        lemma_map_of_dom(t, k);
        lemma_map_of_dom(s, k);
        if exists|j: int| 0 <= j < t.len() && #[trigger] t[j].key@ == k {
            let j = choose|j: int| 0 <= j < t.len() && #[trigger] t[j].key@ == k;
            let j2 = if j < i { j } else { j + 1 };
            assert(s[j2].key@ == k);
            assert(j2 != i);
        }
        if rhs.dom().contains(k) {
            let j = choose|j: int| 0 <= j < s.len() && #[trigger] s[j].key@ == k;
            assert(j != i);
            let j2 = if j < i { j } else { j - 1 };
            assert(t[j2].key@ == k);
        }
    }
    assert forall|k: Seq<char>| #[trigger] lhs.dom().contains(k) implies lhs[k] == rhs[k] by {
        lemma_map_of_dom(t, k);
        let j = choose|j: int| 0 <= j < t.len() && #[trigger] t[j].key@ == k;
        lemma_map_of_value(t, j);
        let j2 = if j < i { j } else { j + 1 };
        assert(t[j] == s[j2]);
        lemma_map_of_value(s, j2);
    }
    assert(lhs =~= rhs);
}

} // verus!
