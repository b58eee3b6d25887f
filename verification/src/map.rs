//! A byte-string-keyed map backed by a plain vector of entries.
//!
//! The calculator's variable and function tables need only insertion
//! (overwriting) and lookup. Entries are appended; the view is the map in
//! which the latest entry for a key wins, and lookup scans from the end.

use crate::token::bytes_eq;
use vstd::prelude::*;

verus! {

/// The map a sequence of entries denotes: later entries override earlier
/// ones.
pub open spec fn entries_map<V: DeepView>(s: Seq<(Vec<u8>, V)>) -> Map<Seq<u8>, V::V>
    decreases s.len(),
{
    if s.len() == 0 {
        Map::empty()
    } else {
        entries_map(s.drop_last()).insert(s.last().0@, s.last().1.deep_view())
    }
}

/// A name-to-value table with overwriting insertion.
#[derive(Debug)]
pub struct VecMap<V> {
    entries: Vec<(Vec<u8>, V)>,
}

impl<V: DeepView> View for VecMap<V> {
    type V = Map<Seq<u8>, V::V>;

    closed spec fn view(&self) -> Map<Seq<u8>, V::V> {
        entries_map(self.entries@)
    }
}

impl<V: DeepView> VecMap<V> {
    /// The empty table.
    pub fn new() -> (r: Self)
        ensures
            r@ == Map::<Seq<u8>, V::V>::empty(),
    {
        VecMap { entries: Vec::new() }
    }

    /// Binds `key` to `value`, overwriting any earlier binding.
    pub fn insert(&mut self, key: Vec<u8>, value: V)
        ensures
            final(self)@ == old(self)@.insert(key@, value.deep_view()),
    {
        let ghost prev = self.entries@;
        let ghost kv = key@;
        let ghost vv = value.deep_view();
        self.entries.push((key, value));
        proof {
            assert(self.entries@.drop_last() =~= prev);
            assert(self.entries@.last().0@ == kv);
            assert(entries_map(self.entries@) == entries_map(prev).insert(kv, vv));
        }
    }

    /// Looks `key` up: the latest binding, if any.
    pub fn get(&self, key: &Vec<u8>) -> (r: Option<&V>)
        ensures
            match r {
                Some(v) => self@.contains_key(key@) && v.deep_view() == self@[key@],
                None => !self@.contains_key(key@),
            },
    {
        let ghost s = self.entries@;
        let ghost k = key@;
        proof {
            assert(s.subrange(0, s.len() as int) =~= s);
        }
        let mut i: usize = self.entries.len();
        while i > 0
            invariant
                i <= s.len(),
                self.entries@ == s,
                k == key@,
                entries_map(s).contains_key(k) == entries_map(s.subrange(0, i as int)).contains_key(
                    k,
                ),
                entries_map(s).contains_key(k) ==> entries_map(s)[k] == entries_map(
                    s.subrange(0, i as int),
                )[k],
            decreases i,
        {
            i = i - 1;
            proof {
                let sub = s.subrange(0, i + 1);
                assert(sub.drop_last() =~= s.subrange(0, i as int));
                assert(sub.last() == s[i as int]);
                assert(entries_map(sub) == entries_map(sub.drop_last()).insert(
                    sub.last().0@,
                    sub.last().1.deep_view(),
                ));
            }
            let entry = &self.entries[i];
            if bytes_eq(&entry.0, key) {
                proof {
                    assert(entries_map(s.subrange(0, i + 1)).contains_key(k));
                    assert(entries_map(s.subrange(0, i + 1))[k] == s[i as int].1.deep_view());
                }
                return Some(&entry.1);
            }
        }
        proof {
            assert(s.subrange(0, 0) =~= Seq::<(Vec<u8>, V)>::empty());
            assert(!entries_map(s.subrange(0, 0)).contains_key(k));
        }
        None
    }

    /// Whether the table holds a binding for `key`.
    pub fn contains(&self, key: &Vec<u8>) -> (r: bool)
        ensures
            r == self@.contains_key(key@),
    {
        match self.get(key) {
            Some(_) => true,
            None => false,
        }
    }
}

} // verus!
