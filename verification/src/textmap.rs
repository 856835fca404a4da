//! A map from text keys to values, kept as a list of entries in which no
//! key occurs twice.

use vstd::prelude::*;

verus! {

/// The map that a list of entries denotes when they are inserted in order.
pub open spec fn entries_map<V>(s: Seq<(Seq<char>, V)>) -> Map<Seq<char>, V>
    decreases s.len(),
{
    if s.len() == 0 {
        Map::empty()
    } else {
        entries_map(s.drop_last()).insert(s.last().0, s.last().1)
    }
}

/// No key occurs twice in the list.
pub open spec fn keys_distinct<V>(s: Seq<(Seq<char>, V)>) -> bool {
    forall|i: int, j: int| 0 <= i < j < s.len() ==> s[i].0 != s[j].0
}

/// A key is in the map exactly when some entry has it.
pub proof fn lemma_entries_map_dom<V>(s: Seq<(Seq<char>, V)>, k: Seq<char>)
    ensures
        entries_map(s).dom().contains(k) <==> exists|i: int| 0 <= i < s.len() && s[i].0 == k,
    decreases s.len(),
{
    if s.len() > 0 {
        lemma_entries_map_dom(s.drop_last(), k);
        if entries_map(s).dom().contains(k) && k != s.last().0 {
            let i = choose|i: int| 0 <= i < s.drop_last().len() && s.drop_last()[i].0 == k;
            assert(s[i].0 == k);
        }
        if exists|i: int| 0 <= i < s.len() && s[i].0 == k {
            let i = choose|i: int| 0 <= i < s.len() && s[i].0 == k;
            if i < s.len() - 1 {
                assert(s.drop_last()[i].0 == k);
            }
        }
    }
}

/// With distinct keys, each entry's value is the map's value of its key.
pub proof fn lemma_entries_map_at<V>(s: Seq<(Seq<char>, V)>, i: int)
    requires
        keys_distinct(s),
        0 <= i < s.len(),
    ensures
        entries_map(s).dom().contains(s[i].0),
        entries_map(s)[s[i].0] == s[i].1,
    decreases s.len(),
{
    if i < s.len() - 1 {
        assert(s.drop_last()[i] == s[i]);
        lemma_entries_map_at(s.drop_last(), i);
    }
}

/// With distinct keys, replacing an entry's value replaces it in the map.
pub proof fn lemma_entries_map_update<V>(s: Seq<(Seq<char>, V)>, i: int, v: V)
    requires
        keys_distinct(s),
        0 <= i < s.len(),
    ensures
        entries_map(s.update(i, (s[i].0, v))) == entries_map(s).insert(s[i].0, v),
    decreases s.len(),
{
    let t = s.update(i, (s[i].0, v));
    if i == s.len() - 1 {
        assert(t.drop_last() =~= s.drop_last());
        assert(entries_map(t) =~= entries_map(s).insert(s[i].0, v));
    } else {
        assert(t.drop_last() =~= s.drop_last().update(i, (s[i].0, v)));
        lemma_entries_map_update(s.drop_last(), i, v);
        assert(s[i].0 != s.last().0);
        assert(entries_map(t) =~= entries_map(s).insert(s[i].0, v));
    }
}

/// A map from strings to values that keeps its entries in a list; each key
/// occurs at most once.
#[derive(Debug)]
pub struct TextMap<V: View> {
    entries: Vec<(String, V)>,
}

impl<V: View> TextMap<V> {
    /// The entries, each key and value taken by its view.
    pub closed spec fn entry_views(&self) -> Seq<(Seq<char>, V::V)> {
        self.entries@.map_values(|e: (String, V)| (e.0@, e.1@))
    }

    #[verifier::type_invariant]
    closed spec fn distinct(&self) -> bool {
        keys_distinct(self.entry_views())
    }

    /// The map that this value denotes.
    pub closed spec fn as_map(&self) -> Map<Seq<char>, V::V> {
        entries_map(self.entry_views())
    }

    /// An empty map.
    pub fn new() -> (r: Self)
        ensures
            r.as_map() == Map::<Seq<char>, V::V>::empty(),
    {
        let r = TextMap { entries: Vec::new() };
        assert(r.entry_views() =~= Seq::empty());
        r
    }

    fn find(&self, key: &String) -> (r: Option<usize>)
        ensures
            match r {
                Some(i) => i < self.entries@.len() && self.entry_views()[i as int].0 == key@,
                None => forall|i: int|
                    0 <= i < self.entries@.len() ==> self.entry_views()[i].0 != key@,
            },
    {
        let mut i: usize = 0;
        while i < self.entries.len()
            invariant
                i <= self.entries@.len(),
                forall|j: int| 0 <= j < i ==> self.entry_views()[j].0 != key@,
            decreases self.entries@.len() - i,
        {
            if self.entries[i].0 == *key {
                return Some(i);
            }
            i += 1;
        }
        None
    }

    /// Whether `key` is present.
    pub fn contains_key(&self, key: &String) -> (r: bool)
        ensures
            r == self.as_map().dom().contains(key@),
    {
        proof {
            lemma_entries_map_dom(self.entry_views(), key@);
        }
        self.find(key).is_some()
    }

    /// The value stored under `key`, if any.
    pub fn get(&self, key: &String) -> (r: Option<&V>)
        ensures
            match r {
                Some(v) => self.as_map().dom().contains(key@) && self.as_map()[key@] == v@,
                None => !self.as_map().dom().contains(key@),
            },
    {
        proof {
            use_type_invariant(self);
            lemma_entries_map_dom(self.entry_views(), key@);
        }
        match self.find(key) {
            Some(i) => {
                proof {
                    lemma_entries_map_at(self.entry_views(), i as int);
                }
                Some(&self.entries[i].1)
            },
            None => None,
        }
    }

    /// Stores `value` under `key`, replacing an earlier value of that key.
    pub fn insert(&mut self, key: String, value: V)
        ensures
            final(self).as_map() == old(self).as_map().insert(key@, value@),
    {
        proof {
            use_type_invariant(&*self);
        }
        let ghost old_views = self.entry_views();
        let found = self.find(&key);
        let mut es: Vec<(String, V)> = Vec::new();
        std::mem::swap(&mut es, &mut self.entries);
        let ghost kv = key@;
        let ghost vv = value@;
        match found {
            Some(i) => {
                es.set(i, (key, value));
                let ghost nv = es@.map_values(|e: (String, V)| (e.0@, e.1@));
                proof {
                    assert(nv =~= old_views.update(i as int, (old_views[i as int].0, vv)));
                    lemma_entries_map_update(old_views, i as int, vv);
                }
            },
            None => {
                es.push((key, value));
                let ghost nv = es@.map_values(|e: (String, V)| (e.0@, e.1@));
                assert(nv =~= old_views.push((kv, vv)));
                assert(nv.drop_last() =~= old_views);
            },
        }
        self.entries = es;
    }

    /// Number of keys.
    pub fn len(&self) -> (r: usize)
        ensures
            r == self.as_map().dom().len(),
    {
        proof {
            use_type_invariant(self);
            lemma_distinct_len(self.entry_views());
        }
        self.entries.len()
    }

    /// The entries, each key once, in the order in which the keys were first
    /// inserted.
    pub fn entries(&self) -> (r: &Vec<(String, V)>)
        ensures
            r@.map_values(|e: (String, V)| (e.0@, e.1@)) == self.entry_views(),
            entries_map(self.entry_views()) == self.as_map(),
            keys_distinct(self.entry_views()),
    {
        proof {
            use_type_invariant(self);
        }
        &self.entries
    }
}

/// With distinct keys, the map has one key per entry.
pub proof fn lemma_distinct_len<V>(s: Seq<(Seq<char>, V)>)
    requires
        keys_distinct(s),
    ensures
        entries_map(s).dom().finite(),
        entries_map(s).dom().len() == s.len(),
    decreases s.len(),
{
    if s.len() > 0 {
        lemma_distinct_len(s.drop_last());
        lemma_entries_map_dom(s.drop_last(), s.last().0);
        assert forall|i: int| 0 <= i < s.drop_last().len() implies s.drop_last()[i].0
            != s.last().0 by {
            assert(s[i] == s.drop_last()[i]);
        }
    }
}

} // verus!
