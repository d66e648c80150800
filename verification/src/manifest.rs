//! The run manifest: the record of what a run was asked to do and what came of it.
use vstd::prelude::*;

verus! {

/// Whether a lane only reads the repository or may write to it.
#[derive(Debug, Clone, Copy, PartialEq, Eq, Structural)]
pub enum LaneMode {
    ReadOnly,
    Writable,
}

/// Whether the lane results of a run have been read.
#[derive(Debug, Clone, Copy, PartialEq, Eq, Structural)]
pub enum ParseStatus {
    Pending,
    Success,
    Failed,
}

/// Whether the results of a run have been combined.
#[derive(Debug, Clone, Copy, PartialEq, Eq, Structural)]
pub enum SynthesisStatus {
    Pending,
    Completed,
    Blocked,
}

/// Whether two lanes proposed the same file.
#[derive(Debug, Clone, Copy, PartialEq, Eq, Structural)]
pub enum ConflictStatus {
    Clear,
    Detected,
}

/// An approval request met by a lane, with the recommendation made for it.
#[derive(Debug, Clone, PartialEq, Eq)]
pub struct ApprovalEvent {
    pub lane_id: String,
    pub command: String,
    pub recommendation: String,
    pub rationale: String,
}

/// The map that a list of entries denotes, later entries taking precedence.
pub open spec fn map_of<V>(entries: Seq<(String, V)>) -> Map<Seq<char>, V>
    decreases entries.len(),
{
    if entries.len() == 0 {
        Map::empty()
    } else {
        map_of(entries.drop_last()).insert(entries.last().0@, entries.last().1)
    }
}

/// No two entries share a key.
pub open spec fn keys_distinct<V>(entries: Seq<(String, V)>) -> bool {
    forall|i: int, j: int|
        0 <= i < j < entries.len() ==> (#[trigger] entries[i]).0@ != (#[trigger] entries[j]).0@
}

/// What the map of a list of entries holds: exactly the keys of its entries,
/// each with the value of its entry.
pub proof fn lemma_map_of_entries<V>(entries: Seq<(String, V)>)
    requires
        keys_distinct(entries),
    ensures
        forall|i: int|
            0 <= i < entries.len() ==> map_of(entries).contains_key((#[trigger] entries[i]).0@)
                && map_of(entries)[entries[i].0@] == entries[i].1,
        forall|k: Seq<char>|
            #[trigger] map_of(entries).contains_key(k) ==> exists|i: int|
                0 <= i < entries.len() && (#[trigger] entries[i]).0@ == k,
    decreases entries.len(),
{
    if entries.len() > 0 {
        let prev = entries.drop_last();
        assert(keys_distinct(prev));
        lemma_map_of_entries(prev);
        assert forall|k: Seq<char>| #[trigger] map_of(entries).contains_key(k) implies exists|
            i: int,
        | 0 <= i < entries.len() && (#[trigger] entries[i]).0@ == k by {
            if k != entries.last().0@ {
                assert(map_of(prev).contains_key(k));
                let i = choose|i: int| 0 <= i < prev.len() && (#[trigger] prev[i]).0@ == k;
                assert(entries[i] == prev[i]);
            } else {
                assert(entries[entries.len() - 1].0@ == k);
            }
        }
        assert forall|i: int| 0 <= i < entries.len() implies map_of(entries).contains_key(
            (#[trigger] entries[i]).0@,
        ) && map_of(entries)[entries[i].0@] == entries[i].1 by {
            if i < entries.len() - 1 {
                assert(entries[i] == prev[i]);
            }
        }
    }
}

/// Replacing the value of an existing entry updates the map at that key.
proof fn lemma_map_of_update<V>(entries: Seq<(String, V)>, i: int, e: (String, V))
    requires
        keys_distinct(entries),
        0 <= i < entries.len(),
        entries[i].0@ == e.0@,
    ensures
        map_of(entries.update(i, e)) == map_of(entries).insert(e.0@, e.1),
        keys_distinct(entries.update(i, e)),
    decreases entries.len(),
{
    let upd = entries.update(i, e);
    assert(keys_distinct(upd)) by {
        assert forall|a: int, b: int| 0 <= a < b < upd.len() implies (#[trigger] upd[a]).0@ != (
        #[trigger] upd[b]).0@ by {
            assert(entries[a].0@ != entries[b].0@);
        }
    }
    if i == entries.len() - 1 {
        assert(upd.drop_last() =~= entries.drop_last());
    } else {
        let prev = entries.drop_last();
        assert(keys_distinct(prev));
        lemma_map_of_update(prev, i, e);
        assert(upd.drop_last() =~= prev.update(i, e));
        assert(entries.last().0@ != e.0@) by {
            assert(entries[i].0@ != entries[entries.len() - 1].0@);
        }
        assert(map_of(upd) =~= map_of(entries).insert(e.0@, e.1));
    }
}

/// The position of the entry for `key` in `entries`, if there is one.
fn position_in<V>(entries: &Vec<(String, V)>, key: &String) -> (res: Option<usize>)
    ensures
        match res {
            Some(i) => i < entries@.len() && entries@[i as int].0@ == key@,
            None => forall|i: int| 0 <= i < entries@.len() ==> (#[trigger] entries@[i]).0@ != key@,
        },
{
    let mut i: usize = 0;
    while i < entries.len()
        invariant
            i <= entries@.len(),
            forall|j: int| 0 <= j < i ==> (#[trigger] entries@[j]).0@ != key@,
        decreases entries@.len() - i,
    {
        if entries[i].0 == *key {
            return Some(i);
        }
        i += 1;
    }
    None
}

/// A map keyed by strings, as the manifest records lanes: each key at most once.
pub struct StrMap<V> {
    entries: Vec<(String, V)>,
}

impl<V> View for StrMap<V> {
    type V = Map<Seq<char>, V>;

    closed spec fn view(&self) -> Map<Seq<char>, V> {
        map_of(self.entries@)
    }
}

impl<V> StrMap<V> {
    #[verifier::type_invariant]
    spec fn wf(self) -> bool {
        keys_distinct(self.entries@)
    }

    /// The empty map.
    pub fn new() -> (m: Self)
        ensures
            m@ == Map::<Seq<char>, V>::empty(),
    {
        StrMap { entries: Vec::new() }
    }

    /// The number of keys.
    pub fn len(&self) -> (n: usize)
        ensures
            n == self@.len(),
    {
        proof {
            use_type_invariant(self);
            lemma_map_of_entries(self.entries@);
            let keys = self.entries@.map_values(|e: (String, V)| e.0@);
            assert(self@.dom() =~= keys.to_set()) by {
                assert forall|k: Seq<char>| self@.dom().contains(k) implies keys.to_set().contains(
                    k,
                ) by {
                    let i = choose|i: int|
                        0 <= i < self.entries@.len() && (#[trigger] self.entries@[i]).0@ == k;
                    assert(keys[i] == k);
                }
                assert forall|k: Seq<char>| keys.to_set().contains(k) implies self@.dom().contains(
                    k,
                ) by {
                    let i = choose|i: int| 0 <= i < keys.len() && keys[i] == k;
                    assert(self.entries@[i].0@ == k);
                }
            }
            assert(keys.no_duplicates()) by {
                assert forall|a: int, b: int|
                    0 <= a < keys.len() && 0 <= b < keys.len() && a != b implies keys[a]
                    != keys[b] by {
                    if a < b {
                        assert(self.entries@[a].0@ != self.entries@[b].0@);
                    } else {
                        assert(self.entries@[b].0@ != self.entries@[a].0@);
                    }
                }
            }
            keys.unique_seq_to_set();
        }
        self.entries.len()
    }

    /// Whether `key` has a value.
    pub fn contains_key(&self, key: &String) -> (res: bool)
        ensures
            res == self@.contains_key(key@),
    {
        proof {
            use_type_invariant(self);
            lemma_map_of_entries(self.entries@);
        }
        position_in(&self.entries, key).is_some()
    }

    /// The value of `key`, if it has one.
    pub fn get(&self, key: &String) -> (res: Option<&V>)
        ensures
            match res {
                Some(v) => self@.contains_key(key@) && self@[key@] == *v,
                None => !self@.contains_key(key@),
            },
    {
        proof {
            use_type_invariant(self);
            lemma_map_of_entries(self.entries@);
        }
        match position_in(&self.entries, key) {
            Some(i) => Some(&self.entries[i].1),
            None => None,
        }
    }

    /// Gives `key` the value `value`, replacing any value it had.
    pub fn insert(&mut self, key: String, value: V)
        ensures
            final(self)@ == old(self)@.insert(key@, value),
    {
        proof {
            use_type_invariant(&*self);
        }
        let mut entries: Vec<(String, V)> = Vec::new();
        std::mem::swap(&mut entries, &mut self.entries);
        let ghost before = entries@;
        match position_in(&entries, &key) {
            Some(i) => {
                proof {
                    lemma_map_of_update(before, i as int, (key, value));
                }
                entries.set(i, (key, value));
                self.entries = entries;
            },
            None => {
                let ghost e = (key, value);
                proof {
                    let pushed = before.push(e);
                    assert(pushed.drop_last() =~= before);
                    assert(keys_distinct(pushed)) by {
                        assert forall|a: int, b: int| 0 <= a < b < pushed.len() implies (
                        #[trigger] pushed[a]).0@ != (#[trigger] pushed[b]).0@ by {
                            if b == pushed.len() - 1 {
                                assert(pushed[a] == before[a]);
                            } else {
                                assert(pushed[a] == before[a]);
                                assert(pushed[b] == before[b]);
                            }
                        }
                    }
                }
                entries.push((key, value));
                self.entries = entries;
            },
        }
    }

    /// The entries of the map, each key once.
    pub fn entries(&self) -> (res: &Vec<(String, V)>)
        ensures
            forall|i: int|
                0 <= i < res@.len() ==> self@.contains_key((#[trigger] res@[i]).0@)
                    && self@[res@[i].0@] == res@[i].1,
            forall|k: Seq<char>|
                #[trigger] self@.contains_key(k) ==> exists|i: int|
                    0 <= i < res@.len() && (#[trigger] res@[i]).0@ == k,
    {
        proof {
            use_type_invariant(self);
            lemma_map_of_entries(self.entries@);
        }
        &self.entries
    }
}

/// The record of a run: its lanes, their modes and scopes, the files the run
/// produced and what came of parsing, conflict review and synthesis.
pub struct RunManifest {
    pub run_slug: String,
    pub created_at: String,
    pub cwd: String,
    pub requested_lane_count: usize,
    pub lane_ids: Vec<String>,
    pub lane_modes: StrMap<LaneMode>,
    pub writable_scopes: StrMap<String>,
    pub prompt_template_refs: StrMap<String>,
    pub deferred_files: Vec<String>,
    pub capture_files: StrMap<String>,
    pub parse_status: ParseStatus,
    pub synthesis_status: SynthesisStatus,
    pub conflict_status: ConflictStatus,
    pub session_name: Option<String>,
    pub approval_events: Vec<ApprovalEvent>,
    pub notes: Vec<String>,
}

} // verus!
