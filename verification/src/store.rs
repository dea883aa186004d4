//! The session store: the records of the lineages, by store key.
//!
//! This is the committed state as the jobs read it. Making a write durable is
//! the business of whoever owns the file behind it.

use crate::context::{DfnsStore, DfnsStoreView};
use vstd::prelude::*;

verus! {

/// A record under its key.
#[derive(Clone, Debug, PartialEq, Eq)]
pub struct Entry {
    pub key: String,
    pub record: DfnsStore,
}

/// The records of the lineages that the node takes part in.
#[derive(Clone, Debug, PartialEq, Eq)]
pub struct SessionStore {
    entries: Vec<Entry>,
}

/// The map that a list of entries stands for; of two entries with one key the
/// later counts.
pub open spec fn map_of(entries: Seq<Entry>) -> Map<Seq<char>, DfnsStoreView>
    decreases entries.len(),
{
    if entries.len() == 0 {
        Map::empty()
    } else {
        map_of(entries.drop_last()).insert(entries.last().key@, entries.last().record@)
    }
}

/// Whether no two entries have the same key.
pub open spec fn keys_distinct(entries: Seq<Entry>) -> bool {
    forall|i: int, j: int|
        0 <= i < j < entries.len() ==> (#[trigger] entries[i]).key@ != (#[trigger] entries[j]).key@
}

/// A key that no entry has is not in the map.
proof fn lemma_absent_key(entries: Seq<Entry>, key: Seq<char>)
    requires
        forall|i: int| 0 <= i < entries.len() ==> (#[trigger] entries[i]).key@ != key,
    ensures
        !map_of(entries).dom().contains(key),
    decreases entries.len(),
{
    if entries.len() > 0 {
        let front = entries.drop_last();
        assert forall|i: int| 0 <= i < front.len() implies (#[trigger] front[i]).key@ != key by {
            assert(front[i] == entries[i]);
        }
        lemma_absent_key(front, key);
    }
}

/// Where the keys are distinct, the map holds each entry's record.
proof fn lemma_present_key(entries: Seq<Entry>, index: int)
    requires
        keys_distinct(entries),
        0 <= index < entries.len(),
    ensures
        map_of(entries).dom().contains(entries[index].key@),
        map_of(entries)[entries[index].key@] == entries[index].record@,
    decreases entries.len(),
{
    let front = entries.drop_last();
    if index < entries.len() - 1 {
        assert(keys_distinct(front)) by {
            assert forall|i: int, j: int| 0 <= i < j < front.len() implies (#[trigger] front[i]).key@
                != (#[trigger] front[j]).key@ by {
                assert(front[i] == entries[i] && front[j] == entries[j]);
            }
        }
        assert(front[index] == entries[index]);
        lemma_present_key(front, index);
        assert(entries[index].key@ != entries[entries.len() - 1].key@);
    }
}

/// Replacing the record of an entry is an insertion under its key.
proof fn lemma_replaced_record(entries: Seq<Entry>, index: int, entry: Entry)
    requires
        keys_distinct(entries),
        0 <= index < entries.len(),
        entry.key@ == entries[index].key@,
    ensures
        map_of(entries.update(index, entry)) == map_of(entries).insert(entry.key@, entry.record@),
        keys_distinct(entries.update(index, entry)),
    decreases entries.len(),
{
    let updated = entries.update(index, entry);
    let front = entries.drop_last();
    let last = entries.last();
    assert forall|i: int, j: int| 0 <= i < j < updated.len() implies (#[trigger] updated[i]).key@
        != (#[trigger] updated[j]).key@ by {
        assert(updated[i].key@ == entries[i].key@ && updated[j].key@ == entries[j].key@);
    }
    if index == entries.len() - 1 {
        assert(updated.drop_last() =~= front);
        assert(map_of(updated) =~= map_of(entries).insert(entry.key@, entry.record@));
    } else {
        assert(keys_distinct(front)) by {
            assert forall|i: int, j: int| 0 <= i < j < front.len() implies (#[trigger] front[i]).key@
                != (#[trigger] front[j]).key@ by {
                assert(front[i] == entries[i] && front[j] == entries[j]);
            }
        }
        assert(front[index] == entries[index]);
        lemma_replaced_record(front, index, entry);
        assert(updated.drop_last() =~= front.update(index, entry));
        assert(updated.last() == last);
        assert(entries[index].key@ != last.key@);
        assert(map_of(updated) =~= map_of(entries).insert(entry.key@, entry.record@));
    }
}

impl View for SessionStore {
    type V = Map<Seq<char>, DfnsStoreView>;

    closed spec fn view(&self) -> Map<Seq<char>, DfnsStoreView> {
        map_of(self.entries@)
    }
}

impl SessionStore {
    /// Every key occurs once.
    pub closed spec fn wf(&self) -> bool {
        keys_distinct(self.entries@)
    }

    /// A store without records.
    pub fn new() -> (out: SessionStore)
        ensures
            out.wf(),
            out@ == Map::<Seq<char>, DfnsStoreView>::empty(),
    {
        SessionStore { entries: Vec::new() }
    }

    /// Where the entry with `key` is, if there is one.
    fn position(&self, key: &str) -> (out: Option<usize>)
        ensures
            match out {
                Some(index) => index < self.entries@.len() && self.entries@[index as int].key@
                    == key@,
                None => forall|i: int|
                    0 <= i < self.entries@.len() ==> (#[trigger] self.entries@[i]).key@ != key@,
            },
    {
        let mut i: usize = 0;
        while i < self.entries.len()
            invariant
                i <= self.entries@.len(),
                forall|j: int| 0 <= j < i ==> (#[trigger] self.entries@[j]).key@ != key@,
            decreases self.entries@.len() - i,
        {
            if same_text(self.entries[i].key.as_str(), key) {
                return Some(i);
            }
            i += 1;
        }
        None
    }

    /// The record last written under `key`, if any.
    pub fn get(&self, key: &str) -> (out: Option<DfnsStore>)
        requires
            self.wf(),
        ensures
            match out {
                Some(record) => self@.dom().contains(key@) && self@[key@] == record@,
                None => !self@.dom().contains(key@),
            },
    {
        match self.position(key) {
            Some(index) => {
                proof {
                    lemma_present_key(self.entries@, index as int);
                }
                Some(self.entries[index].record.duplicate())
            },
            None => {
                proof {
                    lemma_absent_key(self.entries@, key@);
                }
                None
            },
        }
    }

    /// Whether a record was written under `key`.
    pub fn contains(&self, key: &str) -> (yes: bool)
        requires
            self.wf(),
        ensures
            yes == self@.dom().contains(key@),
    {
        match self.position(key) {
            Some(index) => {
                proof {
                    lemma_present_key(self.entries@, index as int);
                }
                true
            },
            None => {
                proof {
                    lemma_absent_key(self.entries@, key@);
                }
                false
            },
        }
    }

    /// Writes `record` under `key`, in the place of what was there.
    pub fn set(&mut self, key: &str, record: DfnsStore)
        requires
            old(self).wf(),
        ensures
            final(self).wf(),
            final(self)@ == old(self)@.insert(key@, record@),
    {
        let entry = Entry { key: key.to_owned(), record };
        match self.position(key) {
            Some(index) => {
                proof {
                    lemma_replaced_record(self.entries@, index as int, entry);
                }
                self.entries[index] = entry;
            },
            None => {
                let ghost before = self.entries@;
                self.entries.push(entry);
                proof {
                    assert(self.entries@.drop_last() =~= before);
                    assert forall|i: int, j: int|
                        0 <= i < j < self.entries@.len() implies (#[trigger] self.entries@[i]).key@
                        != (#[trigger] self.entries@[j]).key@ by {
                        if j < before.len() {
                            assert(self.entries@[i] == before[i] && self.entries@[j] == before[j]);
                        } else {
                            assert(self.entries@[i] == before[i]);
                        }
                    }
                }
            },
        }
    }
}

/// Whether two texts are the same.
fn same_text(a: &str, b: &str) -> (same: bool)
    ensures
        same == (a@ == b@),
{
    let x = a.to_owned();
    let y = b.to_owned();
    x == y
}

} // verus!
