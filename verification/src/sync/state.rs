//! What the last synchronisation recorded of each file.
use vstd::prelude::*;

use crate::moment::Moment;

verus! {

/// What was recorded of a file when it was last synchronised.
pub struct FileSyncRecord {
    pub last_synced_modified: Moment,
    pub content_hash: String,
}

/// The plain-value form of a record.
pub struct RecordView {
    pub last_synced_modified: Moment,
    pub content_hash: Seq<char>,
}

impl View for FileSyncRecord {
    type V = RecordView;

    open spec fn view(&self) -> RecordView {
        RecordView { last_synced_modified: self.last_synced_modified, content_hash: self.content_hash@ }
    }
}

/// The records of the entries, by key; a later entry overrides an earlier
/// one with the same key.
pub open spec fn entries_map(entries: Seq<(String, FileSyncRecord)>) -> Map<Seq<char>, RecordView>
    decreases entries.len(),
{
    if entries.len() == 0 {
        Map::empty()
    } else {
        entries_map(entries.drop_last()).insert(entries.last().0@, entries.last().1@)
    }
}

/// No key occurs twice.
pub open spec fn unique_keys(entries: Seq<(String, FileSyncRecord)>) -> bool {
    forall|i: int, j: int| 0 <= i < j < entries.len() ==> entries[i].0@ != entries[j].0@
}

proof fn lemma_entries_map(entries: Seq<(String, FileSyncRecord)>)
    requires
        unique_keys(entries),
    ensures
        forall|k: Seq<char>|
            entries_map(entries).contains_key(k) <==> exists|i: int|
                #![trigger entries[i]] 0 <= i < entries.len() && entries[i].0@ == k,
        forall|i: int|
            0 <= i < entries.len() ==> entries_map(entries)[#[trigger] entries[i].0@] == entries[i].1@,
    decreases entries.len(),
{
    if entries.len() > 0 {
        let init = entries.drop_last();
        lemma_entries_map(init);
        assert forall|i: int| 0 <= i < init.len() implies init[i] == entries[i] by {}
        assert forall|k: Seq<char>|
            entries_map(entries).contains_key(k) implies exists|i: int|
                #![trigger entries[i]] 0 <= i < entries.len() && entries[i].0@ == k by {
            if k != entries.last().0@ {
                assert(entries_map(entries) == entries_map(init).insert(entries.last().0@, entries.last().1@));
                assert(entries_map(init).contains_key(k));
                let i = choose|i: int| #![trigger init[i]] 0 <= i < init.len() && init[i].0@ == k;
                assert(init[i] == entries[i]);
                assert(entries[i].0@ == k);
            } else {
                assert(entries[entries.len() - 1].0@ == k);
            }
        }
        assert forall|k: Seq<char>|
            (exists|i: int| #![trigger entries[i]] 0 <= i < entries.len() && entries[i].0@ == k) implies entries_map(
            entries,
        ).contains_key(k) by {
            let i = choose|i: int| #![trigger entries[i]] 0 <= i < entries.len() && entries[i].0@ == k;
            if i < entries.len() - 1 {
                assert(init[i].0@ == k);
            }
        }
        assert forall|i: int| 0 <= i < entries.len() implies entries_map(
            entries,
        )[#[trigger] entries[i].0@] == entries[i].1@ by {
            if i < entries.len() - 1 {
                assert(init[i] == entries[i]);
                assert(entries[i].0@ != entries.last().0@);
            }
        }
    }
}

/// The records of all files synchronised so far, one per key.
pub struct FileRecords {
    entries: Vec<(String, FileSyncRecord)>,
}

impl FileRecords {
    #[verifier::type_invariant]
    spec fn keys_unique(self) -> bool {
        unique_keys(self.entries@)
    }
}

impl View for FileRecords {
    type V = Map<Seq<char>, RecordView>;

    closed spec fn view(&self) -> Map<Seq<char>, RecordView> {
        entries_map(self.entries@)
    }
}

impl FileRecords {
    /// No records.
    pub fn new() -> (res: FileRecords)
        ensures
            res@ == Map::<Seq<char>, RecordView>::empty(),
    {
        FileRecords { entries: Vec::new() }
    }

    /// The number of files recorded.
    pub fn len(&self) -> (res: usize)
        ensures
            res == self@.len(),
    {
        proof {
            use_type_invariant(self);
            lemma_entries_map(self.entries@);
            lemma_map_len(self.entries@);
        }
        self.entries.len()
    }

    fn index_of(&self, key: &str) -> (res: Option<usize>)
        ensures
            match res {
                Some(i) => i < self.entries@.len() && self.entries@[i as int].0@ == key@,
                None => forall|i: int| 0 <= i < self.entries@.len() ==> self.entries@[i].0@ != key@,
            },
    {
        let k = String::from_str(key);
        let mut i: usize = 0;
        while i < self.entries.len()
            invariant
                i <= self.entries@.len(),
                k@ == key@,
                forall|j: int| 0 <= j < i ==> self.entries@[j].0@ != key@,
            decreases self.entries@.len() - i,
        {
            if self.entries[i].0 == k {
                return Some(i);
            }
            i += 1;
        }
        None
    }

    /// Whether a file with this key is recorded.
    pub fn contains_key(&self, key: &str) -> (res: bool)
        ensures
            res == self@.contains_key(key@),
    {
        proof {
            use_type_invariant(self);
            lemma_entries_map(self.entries@);
        }
        self.index_of(key).is_some()
    }

    /// The record of a file, if there is one.
    pub fn get(&self, key: &str) -> (res: Option<&FileSyncRecord>)
        ensures
            match res {
                Some(r) => self@.contains_key(key@) && self@[key@] == r@,
                None => !self@.contains_key(key@),
            },
    {
        proof {
            use_type_invariant(self);
            lemma_entries_map(self.entries@);
        }
        match self.index_of(key) {
            Some(i) => Some(&self.entries[i].1),
            None => None,
        }
    }

    /// Records a file, replacing what was recorded of it before.
    pub fn insert(&mut self, key: String, record: FileSyncRecord)
        ensures
            final(self)@ == old(self)@.insert(key@, record@),
    {
        proof {
            use_type_invariant(&*self);
            lemma_entries_map(self.entries@);
        }
        let ghost old_entries = self.entries@;
        let ghost k = key@;
        let ghost r = record@;
        let pos = self.index_of(key.as_str());
        let mut entries: Vec<(String, FileSyncRecord)> = Vec::new();
        std::mem::swap(&mut entries, &mut self.entries);
        match pos {
            Some(i) => {
                entries.set(i, (key, record));
            },
            None => {
                entries.push((key, record));
            },
        }
        proof {
            let e = entries@;
            assert(unique_keys(e)) by {
                assert forall|a: int, b: int| 0 <= a < b < e.len() implies e[a].0@ != e[b].0@ by {
                    if pos is None {
                        if b == e.len() - 1 {
                            assert(old_entries[a].0@ != k);
                        } else {
                            assert(e[a] == old_entries[a] && e[b] == old_entries[b]);
                        }
                    } else {
                        let i = pos->0 as int;
                        if a != i && b != i {
                            assert(e[a] == old_entries[a] && e[b] == old_entries[b]);
                        } else if a == i {
                            assert(e[b] == old_entries[b]);
                        } else {
                            assert(e[a] == old_entries[a]);
                        }
                    }
                }
            }
            lemma_entries_map(e);
            assert(entries_map(e) =~= entries_map(old_entries).insert(k, r)) by {
                assert forall|x: Seq<char>| entries_map(e).contains_key(x) == entries_map(
                    old_entries,
                ).insert(k, r).contains_key(x) by {
                    if x != k {
                        if entries_map(e).contains_key(x) {
                            let j = choose|j: int| #![trigger e[j]] 0 <= j < e.len() && e[j].0@ == x;
                            assert(old_entries[j].0@ == x);
                        }
                        if entries_map(old_entries).contains_key(x) {
                            let j = choose|j: int| #![trigger old_entries[j]] 0 <= j < old_entries.len() && old_entries[j].0@ == x;
                            assert(e[j].0@ == x);
                        }
                    } else {
                        match pos {
                            Some(i) => { assert(e[i as int].0@ == x); },
                            None => { assert(e[e.len() - 1].0@ == x); },
                        }
                    }
                }
                assert forall|x: Seq<char>| #[trigger] entries_map(e).contains_key(x) implies entries_map(e)[x]
                    == entries_map(old_entries).insert(k, r)[x] by {
                    let j = choose|j: int| #![trigger e[j]] 0 <= j < e.len() && e[j].0@ == x;
                    if x != k {
                        assert(old_entries[j] == e[j]);
                    }
                }
            }
        }
        self.entries = entries;
    }

    /// Forgets what was recorded of a file.
    pub fn remove(&mut self, key: &str)
        ensures
            final(self)@ == old(self)@.remove(key@),
    {
        proof {
            use_type_invariant(&*self);
            lemma_entries_map(self.entries@);
        }
        let ghost old_entries = self.entries@;
        let ghost k = key@;
        match self.index_of(key) {
            None => {
                assert(entries_map(old_entries) =~= entries_map(old_entries).remove(k));
            },
            Some(i) => {
                let mut entries: Vec<(String, FileSyncRecord)> = Vec::new();
        std::mem::swap(&mut entries, &mut self.entries);
                let _ = entries.remove(i);
                proof {
                    let e = entries@;
                    assert(e =~= old_entries.remove(i as int));
                    assert(unique_keys(e)) by {
                        assert forall|a: int, b: int| 0 <= a < b < e.len() implies e[a].0@ != e[b].0@ by {
                            let oa = if a < i { a } else { a + 1 };
                            let ob = if b < i { b } else { b + 1 };
                            assert(e[a] == old_entries[oa] && e[b] == old_entries[ob]);
                        }
                    }
                    lemma_entries_map(e);
                    assert forall|x: Seq<char>| entries_map(e).contains_key(x) == entries_map(
                        old_entries,
                    ).remove(k).contains_key(x) by {
                        if entries_map(e).contains_key(x) {
                            let j = choose|j: int| #![trigger e[j]] 0 <= j < e.len() && e[j].0@ == x;
                            let oj = if j < i { j } else { j + 1 };
                            assert(old_entries[oj].0@ == x);
                            assert(x != k);
                        }
                        if entries_map(old_entries).remove(k).contains_key(x) {
                            let j = choose|j: int| #![trigger old_entries[j]] 0 <= j < old_entries.len() && old_entries[j].0@ == x;
                            assert(j != i);
                            let nj = if j < i { j } else { j - 1 };
                            assert(e[nj].0@ == x);
                        }
                    }
                    assert forall|x: Seq<char>| #[trigger] entries_map(e).contains_key(x) implies entries_map(e)[x]
                        == entries_map(old_entries).remove(k)[x] by {
                        let j = choose|j: int| #![trigger e[j]] 0 <= j < e.len() && e[j].0@ == x;
                        let oj = if j < i { j } else { j + 1 };
                        assert(e[j] == old_entries[oj]);
                    }
                    assert(entries_map(e) =~= entries_map(old_entries).remove(k));
                }
                self.entries = entries;
            },
        }
    }

    /// The keys recorded, each once.
    pub fn keys(&self) -> (res: Vec<String>)
        ensures
            res@.len() == self@.len(),
            forall|k: Seq<char>| self@.contains_key(k) <==> exists|i: int| #![trigger res@[i]] 0 <= i < res@.len() && res@[i]@ == k,
    {
        proof {
            use_type_invariant(self);
            lemma_entries_map(self.entries@);
            lemma_map_len(self.entries@);
        }
        let mut res: Vec<String> = Vec::new();
        let mut i: usize = 0;
        while i < self.entries.len()
            invariant
                i <= self.entries@.len(),
                res@.len() == i,
                forall|j: int| 0 <= j < i ==> #[trigger] res@[j]@ == self.entries@[j].0@,
            decreases self.entries@.len() - i,
        {
            res.push(self.entries[i].0.clone());
            i += 1;
        }
        proof {
            assert forall|k: Seq<char>| self@.contains_key(k) implies exists|i: int| #![trigger res@[i]] 0 <= i < res@.len() && res@[i]@ == k by {
                let j = choose|j: int| #![trigger self.entries@[j]] 0 <= j < self.entries@.len() && self.entries@[j].0@ == k;
                assert(res@[j]@ == k);
            }
            assert forall|k: Seq<char>| (exists|i: int| #![trigger res@[i]] 0 <= i < res@.len() && res@[i]@ == k) implies self@.contains_key(k) by {
                let j = choose|j: int| #![trigger res@[j]] 0 <= j < res@.len() && res@[j]@ == k;
                assert(self.entries@[j].0@ == k);
            }
        }
        res
    }
}

proof fn lemma_map_len(entries: Seq<(String, FileSyncRecord)>)
    requires
        unique_keys(entries),
    ensures
        entries_map(entries).len() == entries.len(),
        entries_map(entries).dom().finite(),
    decreases entries.len(),
{
    if entries.len() > 0 {
        let init = entries.drop_last();
        assert(unique_keys(init));
        lemma_map_len(init);
        lemma_entries_map(init);
        assert forall|i: int| 0 <= i < init.len() implies init[i].0@ != entries.last().0@ by {
            assert(init[i] == entries[i]);
        }
        assert(!entries_map(init).contains_key(entries.last().0@));
    }
}

/// What the last synchronisation left behind.
pub struct SyncState {
    pub files: FileRecords,
    pub last_sync: Option<Moment>,
}

impl SyncState {
    /// Nothing synchronised yet.
    pub fn new() -> (res: SyncState)
        ensures
            res.files@ == Map::<Seq<char>, RecordView>::empty(),
            res.last_sync is None,
    {
        SyncState { files: FileRecords::new(), last_sync: None }
    }
}

/// Reading back a record gives what was written.
pub proof fn law_insert_then_get(m: Map<Seq<char>, RecordView>, k: Seq<char>, r: RecordView, other: Seq<char>)
    ensures
        m.insert(k, r).contains_key(k),
        m.insert(k, r)[k] == r,
        other != k ==> m.insert(k, r).contains_key(other) == m.contains_key(other),
        other != k && m.contains_key(other) ==> m.insert(k, r)[other] == m[other],
{
}

/// A removed record is gone, and only it.
pub proof fn law_remove_then_get(m: Map<Seq<char>, RecordView>, k: Seq<char>, other: Seq<char>)
    ensures
        !m.remove(k).contains_key(k),
        other != k ==> m.remove(k).contains_key(other) == m.contains_key(other),
{
}

} // verus!
