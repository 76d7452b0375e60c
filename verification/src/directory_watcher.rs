//! The directory watcher: configuration, the registry it owns, and the
//! per-cycle classification pass.
//!
//! One poll cycle hands the watcher the listing an embedding layer gathered
//! from the tree: each entry's path, whether it is a file, and the outcome
//! of reading its content. The watcher classifies every entry in listing
//! order as new, changed or unchanged, records new and changed files in its
//! registry, and returns their paths. A failed listing aborts the cycle and
//! leaves the registry untouched.

use vstd::prelude::*;
use vstd::string::StringExecFns;
use crate::checksum::{FileState, content_view, observed_state, state_changed, observe_content};
use crate::error::{PathError, TraversalError};
use crate::registry::WatchRegistry;

verus! {

/// One directory entry, as the traversal observed it: its path, whether its
/// metadata marked it as a file, and its content where a read was attempted
/// and succeeded. `content` is `None` for an unreadable file and for any
/// entry that is not a file.
pub struct ObservedEntry {
    pub path: String,
    pub is_file: bool,
    pub content: Option<Vec<u8>>,
}

/// The mathematical shape of one observed entry.
pub ghost struct EntryView {
    pub path: Seq<char>,
    pub is_file: bool,
    pub content: Option<Seq<u8>>,
}

impl View for ObservedEntry {
    type V = EntryView;

    open spec fn view(&self) -> EntryView {
        EntryView {
            path: self.path@,
            is_file: self.is_file,
            content: content_view(self.content),
        }
    }
}

/// The views of a listing, in listing order.
pub open spec fn views_of(entries: Seq<ObservedEntry>) -> Seq<EntryView> {
    entries.map_values(|e: ObservedEntry| e@)
}

/// The views of a batch of paths, in batch order.
pub open spec fn paths_of(paths: Seq<String>) -> Seq<Seq<char>> {
    paths.map_values(|p: String| p@)
}

/// The classification outcome for one path against a registry: whether the
/// entry counts as changed, and the state now observed for it. A path absent
/// from the registry never counts as changed — a not-yet-seen file is
/// classified through [`reported`]'s new-file test instead.
pub open spec fn change_outcome(
    reg: Map<Seq<char>, FileState>,
    path: Seq<char>,
    content: Option<Seq<u8>>,
) -> (bool, FileState) {
    let observed = observed_state(content);
    if reg.contains_key(path) {
        (state_changed(reg[path], observed), observed)
    } else {
        (false, observed)
    }
}

/// Whether one entry is reported against a registry: it is a file not yet
/// registered, or a registered path whose observed state counts as changed.
pub open spec fn reported(reg: Map<Seq<char>, FileState>, e: EntryView) -> bool {
    let is_new = e.is_file && !reg.contains_key(e.path);
    is_new || change_outcome(reg, e.path, e.content).0
}

/// The registry after one entry is classified: a reported entry is recorded
/// with its observed state, any other entry leaves the registry alone.
pub open spec fn registry_step(reg: Map<Seq<char>, FileState>, e: EntryView) -> Map<
    Seq<char>,
    FileState,
> {
    if reported(reg, e) {
        reg.insert(e.path, observed_state(e.content))
    } else {
        reg
    }
}

/// The registry after the first `n` entries of a listing are classified, in
/// listing order.
pub open spec fn registry_after(
    reg: Map<Seq<char>, FileState>,
    entries: Seq<EntryView>,
    n: int,
) -> Map<Seq<char>, FileState>
    decreases n,
{
    if n <= 0 {
        reg
    } else {
        registry_step(registry_after(reg, entries, n - 1), entries[n - 1])
    }
}

/// The batch after the first `n` entries of a listing are classified: the
/// paths of the reported entries, in listing order.
pub open spec fn batch_after(
    reg: Map<Seq<char>, FileState>,
    entries: Seq<EntryView>,
    n: int,
) -> Seq<Seq<char>>
    decreases n,
{
    if n <= 0 {
        Seq::empty()
    } else {
        let batch = batch_after(reg, entries, n - 1);
        if reported(registry_after(reg, entries, n - 1), entries[n - 1]) {
            batch.push(entries[n - 1].path)
        } else {
            batch
        }
    }
}

/// Pairwise distinct paths, as one listing of a tree yields them: no path
/// occurs twice in one traversal.
pub open spec fn distinct_paths(s: Seq<EntryView>) -> bool {
    forall|j: int, k: int|
        #![trigger s[j], s[k]]
        0 <= j < k < s.len() ==> s[j].path != s[k].path
}

/// A path that no entry of `s[m..n)` carries is bound the same way after
/// step `n` as after step `m`: classification touches no other path.
pub proof fn lemma_registry_frame(
    reg: Map<Seq<char>, FileState>,
    s: Seq<EntryView>,
    m: int,
    n: int,
    p: Seq<char>,
)
    requires
        0 <= m <= n <= s.len(),
        forall|j: int| m <= j < n ==> (#[trigger] s[j]).path != p,
    ensures
        registry_after(reg, s, n).contains_key(p) == registry_after(reg, s, m).contains_key(p),
        registry_after(reg, s, m).contains_key(p) ==> registry_after(reg, s, n)[p]
            == registry_after(reg, s, m)[p],
    decreases n - m,
{
    if n > m {
        lemma_registry_frame(reg, s, m, n - 1, p);
    }
}

/// A path stands in the batch exactly when some entry carries it and was
/// reported at its own step.
pub proof fn lemma_batch_membership(
    reg: Map<Seq<char>, FileState>,
    s: Seq<EntryView>,
    n: int,
    p: Seq<char>,
)
    requires
        0 <= n <= s.len(),
    ensures
        batch_after(reg, s, n).contains(p) <==> exists|i: int|
            0 <= i < n && (#[trigger] s[i]).path == p && reported(registry_after(reg, s, i), s[i]),
    decreases n,
{
    if n > 0 {
        lemma_batch_membership(reg, s, n - 1, p);
        let batch0 = batch_after(reg, s, n - 1);
        let batch = batch_after(reg, s, n);
        if reported(registry_after(reg, s, n - 1), s[n - 1]) {
            assert(batch == batch0.push(s[n - 1].path));
            if batch.contains(p) {
                let k = choose|k: int| 0 <= k < batch.len() && batch[k] == p;
                if k < batch0.len() {
                    assert(batch0[k] == p);
                    assert(batch0.contains(p));
                } else {
                    assert(p == s[n - 1].path);
                }
            }
            if exists|i: int|
                0 <= i < n && (#[trigger] s[i]).path == p && reported(
                    registry_after(reg, s, i),
                    s[i],
                ) {
                let i = choose|i: int|
                    0 <= i < n && (#[trigger] s[i]).path == p && reported(
                        registry_after(reg, s, i),
                        s[i],
                    );
                if i < n - 1 {
                    assert(batch0.contains(p));
                    let k = choose|k: int| 0 <= k < batch0.len() && batch0[k] == p;
                    assert(batch[k] == p);
                } else {
                    assert(batch[batch0.len() as int] == p);
                }
            }
        } else {
            if batch0.contains(p) {
                assert(batch.contains(p));
            }
        }
    }
}

/// After a cycle classifies a file, and no later entry of the cycle carries
/// the same path, the registry binds that path to the state the cycle
/// observed — whether the entry was reported or found unchanged.
pub proof fn lemma_file_state_recorded(
    reg: Map<Seq<char>, FileState>,
    s: Seq<EntryView>,
    i: int,
    n: int,
)
    requires
        0 <= i < n <= s.len(),
        s[i].is_file,
        forall|j: int| i < j < n ==> (#[trigger] s[j]).path != s[i].path,
    ensures
        registry_after(reg, s, n).contains_key(s[i].path),
        registry_after(reg, s, n)[s[i].path] == observed_state(s[i].content),
{
    let p = s[i].path;
    let reg_i = registry_after(reg, s, i);
    let obs = observed_state(s[i].content);
    if !reported(reg_i, s[i]) {
        assert(reg_i.contains_key(p));
        assert(!state_changed(reg_i[p], obs));
        assert(reg_i[p] == obs);
    }
    assert(registry_after(reg, s, i + 1).contains_key(p));
    assert(registry_after(reg, s, i + 1)[p] == obs);
    lemma_registry_frame(reg, s, i + 1, n, p);
}

/// New-file detection: against an empty registry, every file the listing
/// holds is reported in the cycle's batch.
pub proof fn lemma_new_file_detection(s: Seq<EntryView>, i: int)
    requires
        distinct_paths(s),
        0 <= i < s.len(),
        s[i].is_file,
    ensures
        batch_after(Map::empty(), s, s.len() as int).contains(s[i].path),
{
    let empty = Map::<Seq<char>, FileState>::empty();
    let p = s[i].path;
    assert forall|j: int| 0 <= j < i implies (#[trigger] s[j]).path != p by {
        assert(s[j].path != s[i].path);
    }
    lemma_registry_frame(empty, s, 0, i, p);
    assert(reported(registry_after(empty, s, i), s[i]));
    lemma_batch_membership(empty, s, s.len() as int, p);
}

/// No path is reported twice in one cycle: with pairwise distinct paths in
/// the listing, the batch holds no duplicates.
pub proof fn lemma_batch_no_duplicates(reg: Map<Seq<char>, FileState>, s: Seq<EntryView>, n: int)
    requires
        0 <= n <= s.len(),
        distinct_paths(s),
    ensures
        forall|a: int, b: int|
            0 <= a < b < batch_after(reg, s, n).len() ==> batch_after(reg, s, n)[a]
                != batch_after(reg, s, n)[b],
    decreases n,
{
    if n > 0 {
        lemma_batch_no_duplicates(reg, s, n - 1);
        let batch0 = batch_after(reg, s, n - 1);
        let batch = batch_after(reg, s, n);
        if reported(registry_after(reg, s, n - 1), s[n - 1]) {
            lemma_batch_membership(reg, s, n - 1, s[n - 1].path);
            assert(!batch0.contains(s[n - 1].path));
            assert forall|a: int, b: int| 0 <= a < b < batch.len() implies batch[a] != batch[b] by {
                if b < batch0.len() {
                    assert(batch0[a] != batch0[b]);
                } else {
                    assert(batch[b] == s[n - 1].path);
                    assert(batch[a] == batch0[a]);
                    if batch[a] == s[n - 1].path {
                        assert(batch0.contains(s[n - 1].path));
                    }
                }
            }
        }
    }
}

/// Stability: a file observed with readable content in one cycle, and
/// observed again with the same content in the next cycle, is not reported
/// in that next cycle — whether or not the first cycle reported it.
pub proof fn lemma_stability(
    reg0: Map<Seq<char>, FileState>,
    s1: Seq<EntryView>,
    s2: Seq<EntryView>,
    i: int,
    j: int,
)
    requires
        distinct_paths(s1),
        distinct_paths(s2),
        0 <= i < s1.len(),
        s1[i].is_file,
        s1[i].content is Some,
        0 <= j < s2.len(),
        s2[j] == s1[i],
    ensures
        !batch_after(registry_after(reg0, s1, s1.len() as int), s2, s2.len() as int).contains(
            s1[i].path,
        ),
{
    let p = s1[i].path;
    assert forall|k: int| i < k < s1.len() implies (#[trigger] s1[k]).path != p by {
        assert(s1[i].path != s1[k].path);
    }
    lemma_file_state_recorded(reg0, s1, i, s1.len() as int);
    let reg1 = registry_after(reg0, s1, s1.len() as int);
    assert forall|k: int| 0 <= k < j implies (#[trigger] s2[k]).path != p by {
        assert(s2[k].path != s2[j].path);
    }
    lemma_registry_frame(reg1, s2, 0, j, p);
    let reg2 = registry_after(reg1, s2, j);
    assert(reg2.contains_key(p) && reg2[p] == observed_state(s2[j].content));
    assert(!reported(reg2, s2[j]));
    lemma_batch_membership(reg1, s2, s2.len() as int, p);
    if batch_after(reg1, s2, s2.len() as int).contains(p) {
        let k = choose|k: int|
            0 <= k < s2.len() && (#[trigger] s2[k]).path == p && reported(
                registry_after(reg1, s2, k),
                s2[k],
            );
        if k != j {
            assert(s2[k].path != s2[j].path);
        }
        assert(false);
    }
}

/// Content-change detection: a registered file observed readable in a state
/// that differs from its registered one is reported, and the registry is
/// updated to the newly observed state.
pub proof fn lemma_content_change_detection(
    reg: Map<Seq<char>, FileState>,
    s: Seq<EntryView>,
    i: int,
)
    requires
        distinct_paths(s),
        0 <= i < s.len(),
        s[i].is_file,
        s[i].content is Some,
        reg.contains_key(s[i].path),
        observed_state(s[i].content) != reg[s[i].path],
    ensures
        batch_after(reg, s, s.len() as int).contains(s[i].path),
        registry_after(reg, s, s.len() as int)[s[i].path] == observed_state(s[i].content),
{
    let p = s[i].path;
    assert forall|k: int| 0 <= k < i implies (#[trigger] s[k]).path != p by {
        assert(s[k].path != s[i].path);
    }
    lemma_registry_frame(reg, s, 0, i, p);
    assert(reported(registry_after(reg, s, i), s[i]));
    lemma_batch_membership(reg, s, s.len() as int, p);
    assert forall|k: int| i < k < s.len() implies (#[trigger] s[k]).path != p by {
        assert(s[i].path != s[k].path);
    }
    lemma_file_state_recorded(reg, s, i, s.len() as int);
}

/// Unreadable-file handling: a file whose read failed is always classified
/// as changed — its path stands in the cycle's batch, whatever the registry
/// held — and it is recorded as `Unreadable`.
pub proof fn lemma_unreadable_file_reported(
    reg: Map<Seq<char>, FileState>,
    s: Seq<EntryView>,
    i: int,
)
    requires
        0 <= i < s.len(),
        s[i].is_file,
        s[i].content is None,
    ensures
        reported(registry_after(reg, s, i), s[i]),
        observed_state(s[i].content) == FileState::Unreadable,
        batch_after(reg, s, s.len() as int).contains(s[i].path),
{
    lemma_batch_membership(reg, s, s.len() as int, s[i].path);
}

/// Only files are ever registered: after any number of steps the registry
/// holds nothing but the paths it already held and paths the listing marked
/// as files. In particular, directories never enter an initially empty
/// registry, so every directory falls through to the recursion branch on
/// every cycle.
pub proof fn lemma_registry_holds_only_files(
    reg: Map<Seq<char>, FileState>,
    s: Seq<EntryView>,
    n: int,
    p: Seq<char>,
)
    requires
        0 <= n <= s.len(),
        registry_after(reg, s, n).contains_key(p),
    ensures
        reg.contains_key(p) || exists|i: int|
            0 <= i < n && (#[trigger] s[i]).is_file && s[i].path == p,
    decreases n,
{
    if n > 0 {
        let reg_prev = registry_after(reg, s, n - 1);
        if reg_prev.contains_key(p) {
            lemma_registry_holds_only_files(reg, s, n - 1, p);
        } else {
            assert(p == s[n - 1].path && reported(reg_prev, s[n - 1]));
            assert(s[n - 1].is_file);
        }
    }
}

/// Against a still-empty registry a cycle reports nothing but files: a path
/// can stand in the first batch only because some file entry carries it.
/// Together with [`lemma_new_file_detection`] and
/// [`lemma_batch_no_duplicates`], the first cycle's batch holds exactly the
/// files of the listing, each once.
pub proof fn lemma_only_files_reported(s: Seq<EntryView>, p: Seq<char>)
    requires
        batch_after(Map::empty(), s, s.len() as int).contains(p),
    ensures
        exists|i: int| 0 <= i < s.len() && (#[trigger] s[i]).is_file && s[i].path == p,
{
    let empty = Map::<Seq<char>, FileState>::empty();
    lemma_batch_membership(empty, s, s.len() as int, p);
    let i = choose|i: int|
        0 <= i < s.len() && (#[trigger] s[i]).path == p && reported(
            registry_after(empty, s, i),
            s[i],
        );
    if !s[i].is_file {
        assert(registry_after(empty, s, i).contains_key(p));
        lemma_registry_holds_only_files(empty, s, i, p);
    }
}

/// The directory watcher. It owns its configuration — root path, polling
/// interval, recursion flag — and the registry of last-known file states.
pub struct DirectoryWatcher {
    pub secs_interval: u64,
    pub file_register: WatchRegistry,
    pub dir: String,
    pub recursive: bool,
}

impl DirectoryWatcher {
    /// Create a watcher for `path` with the given polling interval, after
    /// the caller has checked whether the path names an existing directory.
    /// Construction fails, and no watcher comes into existence, exactly when
    /// that check failed.
    pub fn new(secs_interval: u64, path: &str, path_is_dir: bool, recursive: bool) -> (r: Result<
        DirectoryWatcher,
        PathError,
    >)
        ensures
            r is Ok <==> path_is_dir,
            r matches Ok(w) ==> {
                &&& w.secs_interval == secs_interval
                &&& w.dir@ == path@
                &&& w.recursive == recursive
                &&& w.file_register@ == Map::<Seq<char>, FileState>::empty()
            },
    {
        if !path_is_dir {
            return Err(PathError);
        }
        Ok(
            DirectoryWatcher {
                secs_interval,
                file_register: WatchRegistry::new(),
                dir: String::from_str(path),
                recursive,
            },
        )
    }

    /// Whether a path was never registered before.
    pub fn is_new(&self, path: &String) -> (r: bool)
        ensures
            r == !self.file_register@.contains_key(path@),
    {
        !self.file_register.contains(path)
    }

    /// Whether an entry is a file that was never registered before.
    fn is_new_file(&self, entry: &ObservedEntry) -> (r: bool)
        ensures
            r == (entry.is_file && !self.file_register@.contains_key(entry.path@)),
    {
        entry.is_file && self.is_new(&entry.path)
    }

    /// Record a state for a path, overwriting whatever was recorded before.
    pub fn register_file(&mut self, path: String, state: FileState)
        ensures
            final(self).file_register@ == old(self).file_register@.insert(path@, state),
            final(self).secs_interval == old(self).secs_interval,
            final(self).dir == old(self).dir,
            final(self).recursive == old(self).recursive,
    {
        self.file_register.insert(path, state);
    }

    /// Classify one path's read outcome against the registry: delegate to
    /// the checksum engine where the path is registered; a path not yet
    /// registered never counts as changed, whatever the read outcome.
    pub fn has_file_changed(&self, path: &String, content: &Option<Vec<u8>>) -> (r: (
        bool,
        FileState,
    ))
        ensures
            r == change_outcome(self.file_register@, path@, content_view(*content)),
    {
        match self.file_register.get(path) {
            Some(registered_state) => crate::checksum::has_file_changed(content, &registered_state),
            None => (false, observe_content(content)),
        }
    }

    /// One classification pass over the listing of one poll cycle. Where
    /// the listing itself failed, the whole cycle fails and the watcher is
    /// left exactly as it was — the caller receives no partial batch. Where
    /// it succeeded, every entry is classified in listing order, new and
    /// changed files are recorded in the registry, and their paths come back
    /// as this cycle's batch.
    pub fn collect_changed_files(&mut self, listing: Result<Vec<ObservedEntry>, TraversalError>)
        -> (r: Result<Vec<String>, TraversalError>)
        ensures
            final(self).secs_interval == old(self).secs_interval,
            final(self).dir == old(self).dir,
            final(self).recursive == old(self).recursive,
            listing is Err ==> r is Err && *final(self) == *old(self),
            listing matches Ok(entries) ==> {
                let s = views_of(entries@);
                &&& final(self).file_register@ == registry_after(
                    old(self).file_register@,
                    s,
                    s.len() as int,
                )
                &&& r matches Ok(batch) && paths_of(batch@) == batch_after(
                    old(self).file_register@,
                    s,
                    s.len() as int,
                )
            },
    {
        let entries = match listing {
            Ok(entries) => entries,
            Err(e) => {
                return Err(e);
            },
        };
        let ghost s = views_of(entries@);
        let ghost reg0 = self.file_register@;
        let mut changed_files: Vec<String> = Vec::new();
        let n = entries.len();
        let mut i: usize = 0;
        while i < n
            invariant
                i <= n,
                n == entries@.len(),
                s == views_of(entries@),
                reg0 == old(self).file_register@,
                self.file_register@ == registry_after(reg0, s, i as int),
                paths_of(changed_files@) == batch_after(reg0, s, i as int),
                self.secs_interval == old(self).secs_interval,
                self.dir == old(self).dir,
                self.recursive == old(self).recursive,
            decreases n - i,
        {
            let entry = &entries[i];
            proof {
                assert(s[i as int] == entry@);
            }
            let is_new = self.is_new_file(entry);
            let (has_changed, state) = self.has_file_changed(&entry.path, &entry.content);
            if is_new || has_changed {
                self.register_file(entry.path.clone(), state);
                changed_files.push(entry.path.clone());
                proof {
                    assert(paths_of(changed_files@) =~= batch_after(reg0, s, i + 1));
                }
            }
            i += 1;
        }
        Ok(changed_files)
    }

    /// The traversal's recursion decision: descend into an entry exactly
    /// when it is a directory and this watcher is recursive. Directories are
    /// never reported and never registered (see
    /// [`lemma_registry_holds_only_files`]), so the decision needs nothing
    /// but the entry's metadata.
    pub fn should_descend(&self, is_dir: bool) -> (r: bool)
        ensures
            r == (is_dir && self.recursive),
    {
        is_dir && self.recursive
    }
}

} // verus!
