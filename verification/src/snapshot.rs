//! The state observed at the end of one cycle: each identity key with the
//! occurrence last seen under it.
//!
//! A snapshot is a map with unique keys that also remembers the order in
//! which its keys first came in, so that everything derived from it is a
//! function of its contents.

use crate::model::{Occurrence, OccurrenceView};
use vstd::hash_map::StringHashMap;
use vstd::prelude::*;

verus! {

/// The model of a [`Snapshot`]: the keys in order of arrival, and the
/// occurrence held under each.
pub struct SnapshotView {
    pub order: Seq<Seq<char>>,
    pub entries: Map<Seq<char>, OccurrenceView>,
}

impl SnapshotView {
    /// Every key is listed once, and exactly the listed keys have an entry.
    pub open spec fn wf(self) -> bool {
        &&& self.order.no_duplicates()
        &&& forall|key: Seq<char>| self.order.contains(key) <==> #[trigger] self.entries.contains_key(key)
    }

    /// The snapshot that holds nothing.
    pub open spec fn empty() -> SnapshotView {
        SnapshotView { order: Seq::empty(), entries: Map::empty() }
    }

    /// The snapshot with `occ` under `key`. A key that is already there keeps
    /// its place and gets the new occurrence.
    pub open spec fn put(self, key: Seq<char>, occ: OccurrenceView) -> SnapshotView {
        SnapshotView {
            order: if self.entries.contains_key(key) {
                self.order
            } else {
                self.order.push(key)
            },
            entries: self.entries.insert(key, occ),
        }
    }

    /// The occurrence under `key`, if there is one.
    pub open spec fn get(self, key: Seq<char>) -> Option<OccurrenceView> {
        if self.entries.contains_key(key) {
            Some(self.entries[key])
        } else {
            None
        }
    }
}

/// `put` keeps a snapshot well formed.
pub proof fn lemma_put_wf(s: SnapshotView, key: Seq<char>, occ: OccurrenceView)
    requires
        s.wf(),
    ensures
        s.put(key, occ).wf(),
{
    let t = s.put(key, occ);
    if s.entries.contains_key(key) {
        assert forall|k: Seq<char>| t.order.contains(k) <==> #[trigger] t.entries.contains_key(
            k,
        ) by {
            assert(s.order.contains(k) <==> s.entries.contains_key(k));
        }
    } else {
        assert(!s.order.contains(key));
        assert forall|i: int, j: int| 0 <= i < t.order.len() && 0 <= j < t.order.len() && i != j implies t.order[i]
            != t.order[j] by {
            if i < s.order.len() {
                assert(s.order.contains(s.order[i]));
            }
            if j < s.order.len() {
                assert(s.order.contains(s.order[j]));
            }
        }
        assert forall|k: Seq<char>| t.order.contains(k) <==> #[trigger] t.entries.contains_key(
            k,
        ) by {
            assert(s.order.contains(k) <==> s.entries.contains_key(k));
            if t.order.contains(k) {
                let i = choose|i: int| 0 <= i < t.order.len() && t.order[i] == k;
                if i < s.order.len() {
                    assert(s.order[i] == k);
                    assert(s.order.contains(k));
                }
            }
            if t.entries.contains_key(k) {
                if k == key {
                    assert(t.order[t.order.len() - 1] == k);
                } else {
                    let i = choose|i: int| 0 <= i < s.order.len() && s.order[i] == k;
                    assert(t.order[i] == k);
                }
            }
        }
    }
}

/// The occurrences of one cycle by identity key.
pub struct Snapshot {
    keys: Vec<String>,
    entries: StringHashMap<Occurrence>,
}

impl View for Snapshot {
    type V = SnapshotView;

    closed spec fn view(&self) -> SnapshotView {
        SnapshotView {
            order: self.keys.deep_view(),
            entries: Map::new(
                |key: Seq<char>| self.entries@.contains_key(key),
                |key: Seq<char>| self.entries@[key]@,
            ),
        }
    }
}

impl Snapshot {
    /// The invariant of the type: its model is well formed.
    pub open spec fn wf(&self) -> bool {
        self@.wf()
    }

    /// An empty snapshot.
    pub fn new() -> (s: Self)
        ensures
            s.wf(),
            s@ == SnapshotView::empty(),
    {
        let s = Snapshot { keys: Vec::new(), entries: StringHashMap::new() };
        assert(s@.order =~= Seq::<Seq<char>>::empty());
        assert(s@.entries =~= Map::<Seq<char>, OccurrenceView>::empty());
        s
    }

    /// The number of keys.
    pub fn len(&self) -> (n: usize)
        ensures
            n == self@.order.len(),
    {
        self.keys.len()
    }

    /// Whether the snapshot holds nothing.
    pub fn is_empty(&self) -> (empty: bool)
        ensures
            empty == (self@.order.len() == 0),
    {
        self.keys.len() == 0
    }

    /// Whether there is an occurrence under `key`.
    pub fn contains_key(&self, key: &str) -> (found: bool)
        ensures
            found == self@.entries.contains_key(key@),
    {
        self.entries.contains_key(key)
    }

    /// The occurrence under `key`.
    pub fn get(&self, key: &str) -> (found: Option<&Occurrence>)
        ensures
            found.deep_view() == self@.get(key@),
    {
        self.entries.get(key)
    }

    /// The keys in order of arrival.
    pub fn keys(&self) -> (keys: &Vec<String>)
        ensures
            keys.deep_view() == self@.order,
    {
        &self.keys
    }

    /// The keys with their occurrences, copied, in order of arrival.
    pub fn entries(&self) -> (list: Vec<(String, Occurrence)>)
        requires
            self.wf(),
        ensures
            list.len() == self@.order.len(),
            forall|i: int|
                0 <= i < list.len() ==> (#[trigger] list[i]).0@ == self@.order[i] && list[i].1@
                    == self@.entries[self@.order[i]],
    {
        let mut list: Vec<(String, Occurrence)> = Vec::new();
        let mut i: usize = 0;
        while i < self.keys.len()
            invariant
                i <= self.keys.len(),
                self.wf(),
                list.len() == i,
                forall|j: int|
                    0 <= j < i ==> (#[trigger] list[j]).0@ == self@.order[j] && list[j].1@
                        == self@.entries[self@.order[j]],
            decreases self.keys.len() - i,
        {
            let key = &self.keys[i];
            assert(self@.order[i as int] == key@);
            assert(self@.order.contains(key@));
            assert(self@.entries.contains_key(key@));
            match self.entries.get(key.as_str()) {
                Some(occ) => {
                    list.push((key.clone(), occ.clone()));
                },
                None => {
                    assert(false);
                },
            }
            i += 1;
        }
        list
    }

    /// Puts `occ` under `key`, in place of what was there.
    pub fn insert(&mut self, key: String, occ: Occurrence)
        requires
            old(self).wf(),
        ensures
            final(self).wf(),
            final(self)@ == old(self)@.put(key@, occ@),
    {
        proof {
            lemma_put_wf(self@, key@, occ@);
        }
        let ghost before = self@;
        if !self.entries.contains_key(key.as_str()) {
            self.keys.push(key.clone());
            assert(self.keys.deep_view() =~= before.order.push(key@));
        }
        self.entries.insert(key, occ);
        assert(self@.entries =~= before.entries.insert(key@, occ@));
    }
}

} // verus!
