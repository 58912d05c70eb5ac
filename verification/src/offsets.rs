//! The offsets that consumer groups commit, kept per topic partition.

use vstd::prelude::*;
use crate::wire::{CommitRequest, CommitResponse, FetchRequest, FetchResponse};

verus! {

/// What identifies a committed offset: topic, partition and consumer group.
pub type OffsetKey = (Seq<char>, i32, Seq<char>);

/// The key that a commit request writes.
pub open spec fn commit_key(req: CommitRequest) -> OffsetKey {
    (req.topic@, req.partition, req.consumer_group@)
}

/// The key that a fetch request reads.
pub open spec fn fetch_key(req: FetchRequest) -> OffsetKey {
    (req.topic@, req.partition, req.consumer_group@)
}

/// The offset that a fetch of `key` answers from the table `m`: the
/// committed one, or 0 where none was committed.
pub open spec fn committed_offset(m: Map<OffsetKey, i64>, key: OffsetKey) -> i64 {
    if m.contains_key(key) {
        m[key]
    } else {
        0
    }
}

struct OffsetEntry {
    topic: String,
    partition: i32,
    group: String,
    offset: i64,
}

spec fn key_of(e: OffsetEntry) -> OffsetKey {
    (e.topic@, e.partition, e.group@)
}

spec fn keys_unique(entries: Seq<OffsetEntry>) -> bool {
    forall|i: int, j: int|
        0 <= i < entries.len() && 0 <= j < entries.len() && i != j ==> key_of(#[trigger] entries[i])
            != key_of(#[trigger] entries[j])
}

spec fn table(entries: Seq<OffsetEntry>) -> Map<OffsetKey, i64> {
    Map::new(
        |k: OffsetKey| exists|i: int| 0 <= i < entries.len() && key_of(entries[i]) == k,
        |k: OffsetKey|
            entries[choose|i: int| 0 <= i < entries.len() && key_of(entries[i]) == k].offset,
    )
}

proof fn lemma_table_at(entries: Seq<OffsetEntry>, i: int)
    requires
        keys_unique(entries),
        0 <= i < entries.len(),
    ensures
        table(entries).contains_key(key_of(entries[i])),
        table(entries)[key_of(entries[i])] == entries[i].offset,
{
    let k = key_of(entries[i]);
    assert(table(entries).dom().contains(k));
    let c = choose|c: int| 0 <= c < entries.len() && key_of(entries[c]) == k;
    assert(0 <= c < entries.len() && key_of(entries[c]) == k);
    assert(c == i);
}

proof fn lemma_table_absent(entries: Seq<OffsetEntry>, k: OffsetKey)
    requires
        forall|i: int| 0 <= i < entries.len() ==> key_of(#[trigger] entries[i]) != k,
    ensures
        !table(entries).contains_key(k),
{
}

/// The offset commit service: remembers, for each topic, partition and
/// consumer group, the offset that was committed last.
pub struct BasicOffsetCommit {
    entries: Vec<OffsetEntry>,
}

impl View for BasicOffsetCommit {
    type V = Map<OffsetKey, i64>;

    closed spec fn view(&self) -> Map<OffsetKey, i64> {
        table(self.entries@)
    }
}

impl BasicOffsetCommit {
    #[verifier::type_invariant]
    spec fn inv(self) -> bool {
        keys_unique(self.entries@)
    }

    /// Where the entry for `key` stands, if there is one.
    fn find(&self, topic: &String, partition: i32, group: &String) -> (pos: Option<usize>)
        ensures
            match pos {
                Some(i) => i < self.entries.len() && key_of(self.entries@[i as int]) == (
                    topic@,
                    partition,
                    group@,
                ),
                None => forall|i: int|
                    0 <= i < self.entries.len() ==> key_of(#[trigger] self.entries@[i]) != (
                        topic@,
                        partition,
                        group@,
                    ),
            },
    {
        let mut i: usize = 0;
        while i < self.entries.len()
            invariant
                i <= self.entries.len(),
                forall|j: int|
                    0 <= j < i ==> key_of(#[trigger] self.entries@[j]) != (
                        topic@,
                        partition,
                        group@,
                    ),
            decreases self.entries.len() - i,
        {
            let e = &self.entries[i];
            if e.partition == partition && e.topic == *topic && e.group == *group {
                return Some(i);
            }
            i += 1;
        }
        None
    }

    /// Records `req.offset` as the committed offset of the request's topic,
    /// partition and consumer group, replacing any earlier one.
    pub fn commit(&mut self, req: CommitRequest) -> (resp: CommitResponse)
        ensures
            final(self)@ == old(self)@.insert(commit_key(req), req.offset),
            resp.success,
    {
        proof {
            use_type_invariant(&*self);
        }
        let ghost key = commit_key(req);
        let ghost old_entries = self.entries@;
        let pos = self.find(&req.topic, req.partition, &req.consumer_group);
        let entry = OffsetEntry {
            topic: req.topic,
            partition: req.partition,
            group: req.consumer_group,
            offset: req.offset,
        };
        assert(key_of(entry) == key);
        let mut entries: Vec<OffsetEntry> = Vec::new();
        std::mem::swap(&mut entries, &mut self.entries);
        match pos {
            Some(i) => {
                entries.set(i, entry);
            },
            None => {
                entries.push(entry);
            },
        }
        let ghost new_entries = entries@;
        proof {
            assert forall|a: int, b: int|
                0 <= a < new_entries.len() && 0 <= b < new_entries.len() && a != b implies key_of(
                #[trigger] new_entries[a],
            ) != key_of(#[trigger] new_entries[b]) by {
                if a < old_entries.len() && b < old_entries.len() {
                    assert(key_of(new_entries[a]) == key_of(old_entries[a]));
                    assert(key_of(new_entries[b]) == key_of(old_entries[b]));
                }
            }
            let want = table(old_entries).insert(key, req.offset);
            assert forall|k: OffsetKey| #[trigger] table(new_entries).contains_key(k) <==> want.contains_key(k) by {
                if table(new_entries).contains_key(k) {
                    let c = choose|c: int| 0 <= c < new_entries.len() && key_of(new_entries[c]) == k;
                    if k != key {
                        assert(key_of(old_entries[c]) == k);
                    }
                }
                if k != key && table(old_entries).contains_key(k) {
                    let c = choose|c: int| 0 <= c < old_entries.len() && key_of(old_entries[c]) == k;
                    assert(key_of(new_entries[c]) == k);
                }
                if k == key {
                    match pos {
                        Some(i) => assert(key_of(new_entries[i as int]) == k),
                        None => assert(key_of(new_entries[old_entries.len() as int]) == k),
                    }
                }
            }
            assert forall|k: OffsetKey| #[trigger] table(new_entries).contains_key(k) implies table(new_entries)[k] == want[k] by {
                let c = choose|c: int| 0 <= c < new_entries.len() && key_of(new_entries[c]) == k;
                lemma_table_at(new_entries, c);
                if k != key {
                    assert(key_of(old_entries[c]) == k);
                    assert(new_entries[c] == old_entries[c]);
                    lemma_table_at(old_entries, c);
                }
            }
            assert(table(new_entries) =~= want);
        }
        self.entries = entries;
        CommitResponse { success: true }
    }

    /// The offset committed last for the request's topic, partition and
    /// consumer group, or 0 where none was committed.
    pub fn fetch(&self, req: &FetchRequest) -> (resp: FetchResponse)
        ensures
            resp.offset == committed_offset(self@, fetch_key(*req)),
    {
        proof {
            use_type_invariant(self);
        }
        match self.find(&req.topic, req.partition, &req.consumer_group) {
            Some(i) => {
                proof {
                    lemma_table_at(self.entries@, i as int);
                }
                FetchResponse { offset: self.entries[i].offset }
            },
            None => {
                proof {
                    lemma_table_absent(self.entries@, fetch_key(*req));
                }
                FetchResponse { offset: 0 }
            },
        }
    }
}

impl Default for BasicOffsetCommit {
    /// A service with no committed offsets.
    fn default() -> (service: Self)
        ensures
            service@ == Map::<OffsetKey, i64>::empty(),
    {
        let service = BasicOffsetCommit { entries: Vec::new() };
        assert(service@ =~= Map::<OffsetKey, i64>::empty());
        service
    }
}

/// A fetch answers the offset that the last commit of the same key wrote.
pub proof fn law_fetch_reads_commit(m: Map<OffsetKey, i64>, key: OffsetKey, offset: i64)
    ensures
        committed_offset(m.insert(key, offset), key) == offset,
{
}

/// A commit leaves the offsets of every other key as they were.
pub proof fn law_commit_keeps_other_keys(
    m: Map<OffsetKey, i64>,
    key: OffsetKey,
    offset: i64,
    other: OffsetKey,
)
    requires
        other != key,
    ensures
        committed_offset(m.insert(key, offset), other) == committed_offset(m, other),
{
}

/// A second commit of the same key replaces the first.
pub proof fn law_commit_overwrites(
    m: Map<OffsetKey, i64>,
    key: OffsetKey,
    first: i64,
    second: i64,
)
    ensures
        m.insert(key, first).insert(key, second) == m.insert(key, second),
{
    assert(m.insert(key, first).insert(key, second) =~= m.insert(key, second));
}

/// Before any commit, every fetch answers 0.
pub proof fn law_fetch_defaults_to_zero(key: OffsetKey)
    ensures
        committed_offset(Map::<OffsetKey, i64>::empty(), key) == 0,
{
}


/// A fetch of the same topic, partition and consumer group as a commit
/// answers the committed offset, whatever was committed before.
pub proof fn law_fetch_after_commit_of_same_group(
    m: Map<OffsetKey, i64>,
    c: CommitRequest,
    f: FetchRequest,
)
    requires
        c.topic@ == f.topic@,
        c.partition == f.partition,
        c.consumer_group@ == f.consumer_group@,
    ensures
        committed_offset(m.insert(commit_key(c), c.offset), fetch_key(f)) == c.offset,
{
}

/// A commit changes no fetch of another topic, partition or consumer group:
/// each group keeps its own offset.
pub proof fn law_commit_leaves_other_groups(
    m: Map<OffsetKey, i64>,
    c: CommitRequest,
    f: FetchRequest,
)
    requires
        c.topic@ != f.topic@ || c.partition != f.partition || c.consumer_group@
            != f.consumer_group@,
    ensures
        committed_offset(m.insert(commit_key(c), c.offset), fetch_key(f)) == committed_offset(
            m,
            fetch_key(f),
        ),
{
}

} // verus!
