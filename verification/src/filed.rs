//! A table of values filed under keys, where a later filing under a key replaces an earlier one.
use vstd::prelude::*;

use crate::text::same_text;

verus! {

/// A key a table files a value under, which two keys are the same one when they read alike.
pub trait FiledBy: View + Sized {
    /// Whether this key and `other` read alike.
    fn same_as(&self, other: &Self) -> (same: bool)
        ensures
            same == (self@ == other@),
    ;
}

impl FiledBy for String {
    fn same_as(&self, other: &Self) -> (same: bool) {
        same_text(self.as_str(), other.as_str())
    }
}

impl FiledBy for (String, String) {
    fn same_as(&self, other: &Self) -> (same: bool) {
        same_text(self.0.as_str(), other.0.as_str()) && same_text(self.1.as_str(), other.1.as_str())
    }
}

/// What `entries` file, each under its key read as the view, the latest filing winning.
pub open spec fn filed_map<K: View, V>(entries: Seq<(K, V)>) -> Map<K::V, V>
    decreases entries.len(),
{
    if entries.len() == 0 {
        Map::empty()
    } else {
        filed_map(entries.drop_last()).insert(entries.last().0@, entries.last().1)
    }
}

/// Filings after `from` that are not under `key` leave what `key` is filed under as it was.
pub proof fn lemma_filed_after<K: View, V>(entries: Seq<(K, V)>, from: int, key: K::V)
    requires
        0 <= from <= entries.len(),
        forall|j: int| from <= j < entries.len() ==> (#[trigger] entries[j]).0@ != key,
    ensures
        filed_map(entries).contains_key(key) == filed_map(entries.take(from)).contains_key(key),
        filed_map(entries).contains_key(key) ==> filed_map(entries)[key] == filed_map(
            entries.take(from),
        )[key],
    decreases entries.len() - from,
{
    if from == entries.len() {
        assert(entries.take(from) =~= entries);
    } else {
        let shorter = entries.drop_last();
        assert(entries[entries.len() - 1].0@ != key);
        assert forall|j: int| from <= j < shorter.len() implies (#[trigger] shorter[j]).0@ != key by {
            assert(shorter[j] == entries[j]);
        }
        lemma_filed_after(shorter, from, key);
        assert(shorter.take(from) =~= entries.take(from));
    }
}

/// What the last filing under `key` filed is what `key` is filed under.
pub proof fn lemma_filed_at<K: View, V>(entries: Seq<(K, V)>, at: int, key: K::V)
    requires
        0 <= at < entries.len(),
        entries[at].0@ == key,
        forall|j: int| at < j < entries.len() ==> (#[trigger] entries[j]).0@ != key,
    ensures
        filed_map(entries).contains_key(key),
        filed_map(entries)[key] == entries[at].1,
{
    lemma_filed_after(entries, at + 1, key);
    let upto = entries.take(at + 1);
    assert(upto.drop_last() =~= entries.take(at));
    assert(upto.last() == entries[at]);
}

/// `entries` with every filing under `key` left out.
pub open spec fn without<K: View, V>(entries: Seq<(K, V)>, key: K::V) -> Seq<(K, V)>
    decreases entries.len(),
{
    if entries.len() == 0 {
        entries
    } else if entries.last().0@ == key {
        without(entries.drop_last(), key)
    } else {
        without(entries.drop_last(), key).push(entries.last())
    }
}

/// Leaving out every filing under `key` files everything else as it was, and `key` not at all.
pub proof fn lemma_without<K: View, V>(entries: Seq<(K, V)>, key: K::V)
    ensures
        filed_map(without(entries, key)) == filed_map(entries).remove(key),
    decreases entries.len(),
{
    if entries.len() == 0 {
        assert(filed_map(entries).remove(key) =~= Map::<K::V, V>::empty());
    } else {
        lemma_without(entries.drop_last(), key);
        if entries.last().0@ == key {
            assert(filed_map(entries).remove(key) =~= filed_map(entries.drop_last()).remove(key));
        } else {
            let shorter = without(entries.drop_last(), key);
            assert(shorter.push(entries.last()).drop_last() =~= shorter);
            assert(filed_map(without(entries, key)) =~= filed_map(entries).remove(key));
        }
    }
}

/// A table of values of `V` filed under keys of `K`.
pub struct Filed<K, V> {
    entries: Vec<(K, V)>,
}

impl<K: FiledBy, V> Filed<K, V> {
    /// What each key is filed under.
    pub closed spec fn filed(&self) -> Map<K::V, V> {
        filed_map(self.entries@)
    }

    /// A table with nothing in it.
    pub fn new() -> (table: Filed<K, V>)
        ensures
            table.filed() == Map::<K::V, V>::empty(),
    {
        Filed { entries: Vec::new() }
    }

    /// Files `value` under `key`, replacing whatever was filed under it.
    pub fn file(&mut self, key: K, value: V)
        ensures
            final(self).filed() == old(self).filed().insert(key@, value),
    {
        self.entries.push((key, value));
        assert(self.entries@.drop_last() =~= old(self).entries@);
    }

    /// What is filed under `key`, when something is.
    pub fn get(&self, key: &K) -> (found: Option<&V>)
        ensures
            match found {
                Some(value) => self.filed().contains_key(key@) && *value == self.filed()[key@],
                None => !self.filed().contains_key(key@),
            },
    {
        let mut i = self.entries.len();
        while i > 0
            invariant
                i <= self.entries@.len(),
                forall|j: int| i <= j < self.entries@.len() ==> (#[trigger] self.entries@[j]).0@
                    != key@,
            decreases i,
        {
            if self.entries[i - 1].0.same_as(key) {
                proof {
                    lemma_filed_at(self.entries@, i - 1, key@);
                }
                return Some(&self.entries[i - 1].1);
            }
            i = i - 1;
        }
        proof {
            lemma_filed_after(self.entries@, 0, key@);
            assert(self.entries@.take(0) =~= Seq::<(K, V)>::empty());
        }
        None
    }

    /// Takes out what is filed under `key`, leaving every other key filed as it was.
    pub fn remove(&mut self, key: &K) -> (removed: Option<V>)
        ensures
            final(self).filed() == old(self).filed().remove(key@),
            match removed {
                Some(value) => old(self).filed().contains_key(key@) && value == old(self).filed()[key@],
                None => !old(self).filed().contains_key(key@),
            },
    {
        let ghost all = self.entries@;
        let mut entries: Vec<(K, V)> = Vec::new();
        std::mem::swap(&mut entries, &mut self.entries);
        let mut removed: Option<V> = None;
        let mut i: usize = 0;
        proof {
            assert(all.take(0) =~= Seq::<(K, V)>::empty());
            assert(all.len() == entries.len());
            assert(all.skip(0) =~= all);
        }
        while entries.len() > 0
            invariant
                i + entries@.len() == all.len(),
                all.len() <= usize::MAX,
                entries@ == all.skip(i as int),
                self.entries@ == without(all.take(i as int), key@),
                match removed {
                    Some(value) => filed_map(all.take(i as int)).contains_key(key@) && value == filed_map(
                        all.take(i as int),
                    )[key@],
                    None => !filed_map(all.take(i as int)).contains_key(key@),
                },
            decreases entries.len(),
        {
            let entry = entries.remove(0);
            proof {
                assert(entry == all[i as int]);
                assert(all.take(i + 1).drop_last() =~= all.take(i as int));
                assert(all.take(i + 1).last() == entry);
                assert(entries@ =~= all.skip(i + 1));
            }
            if entry.0.same_as(key) {
                removed = Some(entry.1);
            } else {
                self.entries.push(entry);
            }
            i = i + 1;
        }
        proof {
            assert(all.take(i as int) =~= all);
            lemma_without(all, key@);
        }
        removed
    }

    /// Whether something is filed under `key`.
    pub fn holds(&self, key: &K) -> (held: bool)
        ensures
            held == self.filed().contains_key(key@),
    {
        self.get(key).is_some()
    }
}

} // verus!
