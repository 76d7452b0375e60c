//! The watch registry: an in-memory mapping from file path to the last state
//! observed for that file. It is owned by the watcher, starts empty, and
//! grows monotonically — entries are overwritten but never removed.
//!
//! The registry is an association list with pairwise distinct keys; its view
//! is the `Map` from path to [`FileState`] it represents.

use vstd::prelude::*;
use crate::checksum::FileState;

verus! {

/// The map an association list stands for: later entries would win, but the
/// registry keeps its keys distinct, so each entry is the one binding for
/// its path.
pub open spec fn map_of(entries: Seq<(String, FileState)>) -> Map<Seq<char>, FileState>
    decreases entries.len(),
{
    if entries.len() == 0 {
        Map::empty()
    } else {
        map_of(entries.drop_last()).insert(entries.last().0@, entries.last().1)
    }
}

/// Pairwise distinct keys.
pub open spec fn unique_keys(entries: Seq<(String, FileState)>) -> bool {
    forall|i: int, j: int|
        #![trigger entries[i], entries[j]]
        0 <= i < j < entries.len() ==> entries[i].0@ != entries[j].0@
}

/// A path is in the map exactly when some entry carries it.
proof fn lemma_map_of_contains(entries: Seq<(String, FileState)>, path: Seq<char>)
    ensures
        map_of(entries).contains_key(path) <==> exists|i: int|
            0 <= i < entries.len() && #[trigger] entries[i].0@ == path,
    decreases entries.len(),
{
    if entries.len() > 0 {
        lemma_map_of_contains(entries.drop_last(), path);
        if entries.last().0@ == path {
            assert(entries[entries.len() - 1].0@ == path);
        } else if map_of(entries).contains_key(path) {
            let i = choose|i: int|
                0 <= i < entries.drop_last().len() && #[trigger] entries.drop_last()[i].0@ == path;
            assert(entries[i].0@ == path);
        } else {
            assert forall|i: int| 0 <= i < entries.len() implies #[trigger] entries[i].0@ != path by {
                if i < entries.len() - 1 {
                    assert(entries.drop_last()[i].0@ != path);
                }
            }
        }
    }
}

/// With distinct keys, the entry at `i` is the binding for its path.
proof fn lemma_map_of_index(entries: Seq<(String, FileState)>, i: int)
    requires
        unique_keys(entries),
        0 <= i < entries.len(),
    ensures
        map_of(entries).contains_key(entries[i].0@),
        map_of(entries)[entries[i].0@] == entries[i].1,
    decreases entries.len(),
{
    if i == entries.len() - 1 {
    } else {
        lemma_map_of_index(entries.drop_last(), i);
        assert(entries.drop_last()[i] == entries[i]);
        assert(entries.last().0@ != entries[i].0@);
    }
}

/// Overwriting the entry that carries a path updates the map at that path.
proof fn lemma_map_of_update(entries: Seq<(String, FileState)>, i: int, e: (String, FileState))
    requires
        unique_keys(entries),
        0 <= i < entries.len(),
        entries[i].0@ == e.0@,
    ensures
        unique_keys(entries.update(i, e)),
        map_of(entries.update(i, e)) == map_of(entries).insert(e.0@, e.1),
    decreases entries.len(),
{
    let updated = entries.update(i, e);
    assert forall|p: int, q: int|
        #![trigger updated[p], updated[q]]
        0 <= p < q < updated.len() implies updated[p].0@ != updated[q].0@ by {
        assert(entries[p].0@ != entries[q].0@);
    }
    if i == entries.len() - 1 {
        assert(updated.drop_last() =~= entries.drop_last());
        assert(map_of(updated) =~= map_of(entries).insert(e.0@, e.1));
    } else {
        assert(updated.drop_last() =~= entries.drop_last().update(i, e));
        assert(updated.last() == entries.last());
        lemma_map_of_update(entries.drop_last(), i, e);
        assert(entries.last().0@ != e.0@);
        assert(map_of(updated) =~= map_of(entries).insert(e.0@, e.1));
    }
}

/// The watcher's registry of last-known file states, keyed by path.
pub struct WatchRegistry {
    entries: Vec<(String, FileState)>,
}

impl View for WatchRegistry {
    type V = Map<Seq<char>, FileState>;

    closed spec fn view(&self) -> Map<Seq<char>, FileState> {
        map_of(self.entries@)
    }
}

impl WatchRegistry {
    #[verifier::type_invariant]
    spec fn wf(&self) -> bool {
        unique_keys(self.entries@)
    }

    /// The empty registry.
    pub fn new() -> (r: Self)
        ensures
            r@ == Map::<Seq<char>, FileState>::empty(),
    {
        WatchRegistry { entries: Vec::new() }
    }

    /// The state last recorded for a path, if the path was ever recorded.
    pub fn get(&self, path: &String) -> (r: Option<FileState>)
        ensures
            r == if self@.contains_key(path@) {
                Some(self@[path@])
            } else {
                None::<FileState>
            },
    {
        proof {
            use_type_invariant(self);
            lemma_map_of_contains(self.entries@, path@);
        }
        let n = self.entries.len();
        let mut i: usize = 0;
        while i < n
            invariant
                i <= n,
                n == self.entries@.len(),
                unique_keys(self.entries@),
                map_of(self.entries@) == self@,
                forall|j: int| 0 <= j < i ==> #[trigger] self.entries@[j].0@ != path@,
                map_of(self.entries@).contains_key(path@) <==> exists|j: int|
                    0 <= j < self.entries@.len() && #[trigger] self.entries@[j].0@ == path@,
            decreases n - i,
        {
            let pair = &self.entries[i];
            if pair.0 == *path {
                proof {
                    lemma_map_of_index(self.entries@, i as int);
                }
                return Some(pair.1);
            }
            i += 1;
        }
        None
    }

    /// Whether a path was ever recorded.
    pub fn contains(&self, path: &String) -> (r: bool)
        ensures
            r == self@.contains_key(path@),
    {
        self.get(path).is_some()
    }

    /// Record a state for a path, overwriting whatever was recorded before.
    pub fn insert(&mut self, path: String, state: FileState)
        ensures
            final(self)@ == old(self)@.insert(path@, state),
    {
        proof {
            use_type_invariant(&*self);
        }
        let mut entries: Vec<(String, FileState)> = Vec::new();
        core::mem::swap(&mut entries, &mut self.entries);
        let n = entries.len();
        let mut i: usize = 0;
        let mut found = false;
        while i < n
            invariant
                i <= n,
                n == entries@.len(),
                unique_keys(entries@),
                entries@ == old(self).entries@,
                found ==> i < n && entries@[i as int].0@ == path@,
                forall|j: int| 0 <= j < i ==> #[trigger] entries@[j].0@ != path@,
            ensures
                found ==> i < n && entries@[i as int].0@ == path@,
                !found ==> forall|j: int| 0 <= j < n ==> #[trigger] entries@[j].0@ != path@,
                entries@ == old(self).entries@,
                n == entries@.len(),
                unique_keys(entries@),
            decreases n - i,
        {
            if entries[i].0 == path {
                found = true;
                break;
            }
            i += 1;
        }
        if found {
            proof {
                lemma_map_of_update(entries@, i as int, (path, state));
            }
            entries[i] = (path, state);
        } else {
            let ghost pre = entries@;
            entries.push((path, state));
            proof {
                assert(entries@.drop_last() =~= pre);
                assert forall|p: int, q: int|
                    #![trigger entries@[p], entries@[q]]
                    0 <= p < q < entries@.len() implies entries@[p].0@ != entries@[q].0@ by {
                    if q < pre.len() {
                        assert(pre[p].0@ != pre[q].0@);
                    } else {
                        assert(pre[p].0@ != path@);
                    }
                }
            }
        }
        core::mem::swap(&mut entries, &mut self.entries);
    }
}

} // verus!
