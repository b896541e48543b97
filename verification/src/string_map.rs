//! A map from strings, for the small sets of properties that fields and tables carry.
use vstd::prelude::*;

verus! {

/// A map whose keys are strings. Two maps compare equal when the same entries were inserted in the
/// same order.
#[derive(Debug, PartialEq)]
pub struct StringMap<V> {
    entries: Vec<(String, V)>,
}

/// The map that a list of entries stands for: an entry hides the earlier ones with its key.
spec fn entries_map<V: View>(entries: Seq<(String, V)>) -> Map<Seq<char>, V::V>
    decreases entries.len(),
{
    if entries.len() == 0 {
        Map::empty()
    } else {
        entries_map(entries.drop_last()).insert(entries.last().0@, entries.last().1@)
    }
}

impl<V: View> View for StringMap<V> {
    type V = Map<Seq<char>, V::V>;

    closed spec fn view(&self) -> Map<Seq<char>, V::V> {
        entries_map(self.entries@)
    }
}

impl<V: View> StringMap<V> {
    /// The empty map.
    pub fn new() -> (map: Self)
        ensures
            map@ == Map::<Seq<char>, V::V>::empty(),
    {
        StringMap { entries: Vec::new() }
    }

    /// The value under `key`, if there is one.
    pub fn get(&self, key: &str) -> (value: Option<&V>)
        ensures
            value is Some <==> self@.contains_key(key@),
            value matches Some(v) ==> v@ == self@[key@],
    {
        let wanted = key.to_string();
        let mut i: usize = self.entries.len();
        assert(self.entries@.take(i as int) == self.entries@);
        while i > 0
            invariant
                i <= self.entries@.len(),
                wanted@ == key@,
                entries_map(self.entries@.take(i as int)).contains_key(key@)
                    == self@.contains_key(key@),
                self@.contains_key(key@) ==> entries_map(self.entries@.take(i as int))[key@]
                    == self@[key@],
            decreases i,
        {
            let ghost prefix = self.entries@.take(i as int);
            assert(prefix.drop_last() == self.entries@.take(i - 1));
            i = i - 1;
            if self.entries[i].0 == wanted {
                return Some(&self.entries[i].1);
            }
        }
        None
    }

    /// Removes the entry under `key`, if there is one.
    pub fn remove(&mut self, key: &str)
        ensures
            final(self)@ == old(self)@.remove(key@),
    {
        let unwanted = key.to_string();
        let mut kept: Vec<(String, V)> = Vec::new();
        let ghost all = self.entries@;
        let ghost mut i: int = 0;
        while self.entries.len() > 0
            invariant
                unwanted@ == key@,
                0 <= i,
                i + self.entries@.len() == all.len(),
                self.entries@ == all.skip(i),
                entries_map(kept@) == entries_map(all.take(i)).remove(key@),
            decreases self.entries@.len(),
        {
            let entry = self.entries.remove(0);
            assert(all.take(i + 1).drop_last() == all.take(i));
            let ghost before = kept@;
            if !(entry.0 == unwanted) {
                kept.push(entry);
                assert(kept@.drop_last() == before);
            }
            proof {
                i = i + 1;
            }
        }
        assert(all.take(i) == all);
        self.entries = kept;
    }

    /// Puts `value` under `key`, in place of what was there.
    pub fn insert(&mut self, key: String, value: V)
        ensures
            final(self)@ == old(self)@.insert(key@, value@),
    {
        self.remove(key.as_str());
        let ghost before = self.entries@;
        self.entries.push((key, value));
        assert(self.entries@.drop_last() == before);
    }
}

impl<V: View + Clone> StringMap<V> {
    /// A copy of the map, for values whose copies have equal views.
    pub fn duplicate(&self) -> (map: Self)
        requires
            forall|a: V, b: V| #[trigger] cloned(a, b) ==> a@ == b@,
        ensures
            map@ == self@,
    {
        let mut entries: Vec<(String, V)> = Vec::new();
        for i in 0..self.entries.len()
            invariant
                forall|a: V, b: V| #[trigger] cloned(a, b) ==> a@ == b@,
                entries_map(entries@) == entries_map(self.entries@.take(i as int)),
        {
            let ghost before = entries@;
            assert(self.entries@.take(i + 1).drop_last() == self.entries@.take(i as int));
            let value = self.entries[i].1.clone();
            assert(cloned(self.entries@[i as int].1, value));
            entries.push((self.entries[i].0.clone(), value));
            assert(entries@.drop_last() == before);
        }
        assert(self.entries@.take(self.entries@.len() as int) == self.entries@);
        StringMap { entries }
    }
}

} // verus!
