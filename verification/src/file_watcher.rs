//! Change normalization and the dispatcher's per-event decisions.
//!
//! Raw, backend-specific notification kinds are mapped to four semantic
//! actions (created, modified, removed, renamed).  A rename carries only
//! its current path and is resolved through an existence check at handling
//! time.  Every decision that needs the filesystem or the clock takes the
//! observed facts (is the path a file, does it exist, its canonical form,
//! the instant) as arguments, so the decision itself is a function of its
//! inputs; the surrounding process performs the reads and carries out the
//! returned action.

use vstd::prelude::*;
use crate::debouncer::debounce_step;
use crate::errors::SetupError;
use crate::extension_filter::ExtensionFilter;
use crate::extension_filter::last_index_of_char;
use crate::extension_filter::lemma_last_index_push;
use crate::ignore_matcher::IgnoreMatcher;
use crate::index_decider::IndexDecider;

verus! {

/// Raw notification kinds, as delivered by the filesystem backend.
#[derive(Debug, Clone, Copy, PartialEq, Eq, Structural)]
pub enum RawEventKind {
    Create,
    Remove,
    ModifyData,
    ModifyName,
    ModifyOther,
    ModifyAny,
    Other,
}

/// The four semantic change actions a raw notification can normalize to.
#[derive(Debug, Clone, Copy, PartialEq, Eq, Structural)]
pub enum NormalizedChange {
    Created,
    Modified,
    Removed,
    Renamed,
}

/// How raw kinds normalize: name changes are renames; data, other and
/// unclassified modifications are content modifications; anything else
/// that is not a creation or a removal is left unhandled.
pub open spec fn spec_normalize(kind: RawEventKind) -> Option<NormalizedChange> {
    match kind {
        RawEventKind::Create => Some(NormalizedChange::Created),
        RawEventKind::Remove => Some(NormalizedChange::Removed),
        RawEventKind::ModifyData => Some(NormalizedChange::Modified),
        RawEventKind::ModifyOther => Some(NormalizedChange::Modified),
        RawEventKind::ModifyAny => Some(NormalizedChange::Modified),
        RawEventKind::ModifyName => Some(NormalizedChange::Renamed),
        RawEventKind::Other => None,
    }
}

/// Map one raw notification kind to its semantic action, if any.
pub fn normalize_kind(kind: RawEventKind) -> (r: Option<NormalizedChange>)
    ensures
        r == spec_normalize(kind),
{
    match kind {
        RawEventKind::Create => Some(NormalizedChange::Created),
        RawEventKind::Remove => Some(NormalizedChange::Removed),
        RawEventKind::ModifyData => Some(NormalizedChange::Modified),
        RawEventKind::ModifyOther => Some(NormalizedChange::Modified),
        RawEventKind::ModifyAny => Some(NormalizedChange::Modified),
        RawEventKind::ModifyName => Some(NormalizedChange::Renamed),
        RawEventKind::Other => None,
    }
}

/// Resolve a rename through the existence check: a path that still exists
/// is handled as a creation, one that does not as a removal.
pub fn resolve_rename(path_exists: bool) -> (r: NormalizedChange)
    ensures
        r == if path_exists {
            NormalizedChange::Created
        } else {
            NormalizedChange::Removed
        },
{
    if path_exists {
        NormalizedChange::Created
    } else {
        NormalizedChange::Removed
    }
}

/// The directory containing `p`: the part before the last `/`, the root
/// for a path directly under it, the current directory for a bare name.
pub open spec fn parent_dir(p: Seq<char>) -> Seq<char> {
    let ls = last_index_of_char(p, '/');
    if ls < 0 {
        "."@
    } else if ls == 0 {
        "/"@
    } else {
        p.take(ls)
    }
}

fn last_char_index(path: &str, c: char) -> (r: Option<usize>)
    ensures
        (match r {
            None => -1,
            Some(k) => k as int,
        }) == last_index_of_char(path@, c),
        r matches Some(k) ==> k < path@.len(),
{
    let n = path.unicode_len();
    let mut found: Option<usize> = None;
    let mut i: usize = 0;
    while i < n
        invariant
            n == path@.len(),
            i <= n,
            (match found {
                None => -1,
                Some(k) => k as int,
            }) == last_index_of_char(path@.take(i as int), c),
            found matches Some(k) ==> k < i,
        decreases n - i,
    {
        let ch = path.get_char(i);
        proof {
            assert(path@.take((i + 1) as int) =~= path@.take(i as int).push(path@[i as int]));
            lemma_last_index_push(path@.take(i as int), path@[i as int], c);
        }
        if ch == c {
            found = Some(i);
        }
        i += 1;
    }
    proof {
        assert(path@.take(n as int) =~= path@);
    }
    found
}

/// The parent directory of `path`, as `parent_dir` describes it.
pub fn parent_dir_str(path: &str) -> (r: String)
    ensures
        r@ == parent_dir(path@),
{
    match last_char_index(path, '/') {
        None => ".".to_owned(),
        Some(0) => "/".to_owned(),
        Some(k) => path.substring_char(0, k).to_owned(),
    }
}

/// Whether some entry of `v` reads as `e`.
pub open spec fn has_view(v: Seq<String>, e: Seq<char>) -> bool {
    exists|i: int| 0 <= i < v.len() && v[i]@ == e
}

/// Whether one of the first `n` entries of `v` reads as `e`.
pub open spec fn has_view_upto(v: Seq<String>, n: int, e: Seq<char>) -> bool {
    exists|i: int| 0 <= i < n && i < v.len() && v[i]@ == e
}

/// Whether the parent directory of one of the first `n` entries of `v` is `e`.
pub open spec fn has_parent_upto(v: Seq<String>, n: int, e: Seq<char>) -> bool {
    exists|i: int| 0 <= i < n && i < v.len() && parent_dir(v[i]@) == e
}

proof fn view_index(v: Seq<String>, e: Seq<char>) -> (i: int)
    requires
        has_view(v, e),
    ensures
        0 <= i < v.len() && v[i]@ == e,
{
    choose|i: int| 0 <= i < v.len() && #[trigger] v[i]@ == e
}

/// A root directory with optional explicitly watched files and directories.
pub struct WatchTarget {
    pub root: String,
    pub files: Vec<String>,
    pub dirs: Vec<String>,
}

impl WatchTarget {
    /// The set of directories to register with the watch backend: the
    /// union of the explicit directories and the parent directories of the
    /// explicit files; with neither given, the root alone (when non-empty).
    pub open spec fn resolved_watch_set(self) -> Set<Seq<char>> {
        if self.files@.len() == 0 && self.dirs@.len() == 0 {
            Set::new(|e: Seq<char>| self.root@.len() > 0 && e == self.root@)
        } else {
            Set::new(
                |e: Seq<char>|
                    has_view(self.dirs@, e) || has_parent_upto(
                        self.files@,
                        self.files@.len() as int,
                        e,
                    ),
            )
        }
    }

    /// Resolve the directories to watch, without duplicates.  Setup fails
    /// exactly when the resolved set is empty.
    pub fn watch_roots(&self) -> (r: Result<Vec<String>, SetupError>)
        ensures
            r matches Ok(v) ==> ((forall|e: Seq<char>|
                has_view(v@, e) <==> #[trigger] self.resolved_watch_set().contains(e)) && (
            forall|i: int, j: int| 0 <= i < j < v@.len() ==> v@[i]@ != v@[j]@) && v@.len() > 0),
            r matches Err(e) ==> e == SetupError::EmptyWatchSet && (forall|e: Seq<char>|
                !(#[trigger] self.resolved_watch_set().contains(e))),
    {
        let mut v: Vec<String> = Vec::new();
        if self.files.len() == 0 && self.dirs.len() == 0 {
            if self.root.as_str().unicode_len() > 0 {
                v.push(self.root.clone());
                proof {
                    assert forall|e: Seq<char>|
                        has_view(v@, e) <==> #[trigger] self.resolved_watch_set().contains(e) by {
                        if has_view(v@, e) {
                            let a0 = view_index(v@, e);
                            assert(a0 == 0 && v@[0]@ == self.root@);
                        }
                        if self.resolved_watch_set().contains(e) {
                            assert(v@[0]@ == e);
                        }
                    }
                }
                Ok(v)
            } else {
                Err(SetupError::EmptyWatchSet)
            }
        } else {
            let mut i: usize = 0;
            while i < self.dirs.len()
                invariant
                    i <= self.dirs@.len(),
                    forall|a: int, b: int| 0 <= a < b < v@.len() ==> v@[a]@ != v@[b]@,
                    forall|a: int| #![trigger v@[a]]
                        0 <= a < v@.len() ==> has_view_upto(self.dirs@, i as int, v@[a]@),
                    forall|b: int| #![trigger self.dirs@[b]]
                        0 <= b < i ==> has_view(v@, self.dirs@[b]@),
                decreases self.dirs@.len() - i,
            {
                let ghost v_old = v@;
                let present = contains_string(&v, &self.dirs[i]);
                if !present {
                    v.push(self.dirs[i].clone());
                }
                proof {
                    assert forall|a: int, b: int|
                        0 <= a < b < v@.len() implies v@[a]@ != v@[b]@ by {
                        if b >= v_old.len() {
                            assert(v@[a] == v_old[a]);
                            assert(!has_view(v_old, self.dirs@[i as int]@));
                        }
                    }
                    assert forall|a: int| #![trigger v@[a]]
                        0 <= a < v@.len() implies has_view_upto(
                        self.dirs@,
                        i + 1,
                        v@[a]@,
                    ) by {
                        if a < v_old.len() {
                            assert(v@[a] == v_old[a]);
                        } else {
                            assert(v@[a]@ == self.dirs@[i as int]@);
                        }
                    }
                    assert forall|b: int| #![trigger self.dirs@[b]]
                        0 <= b < i + 1 implies has_view(v@, self.dirs@[b]@) by {
                        if b < i {
                            let a0 = view_index(v_old, self.dirs@[b]@);
                            assert(v@[a0] == v_old[a0]);
                        } else {
                            if present {
                                let a0 = view_index(v_old, self.dirs@[i as int]@);
                                assert(v@[a0] == v_old[a0]);
                            } else {
                                assert(v@[v@.len() - 1]@ == self.dirs@[b]@);
                            }
                        }
                    }
                }
                i += 1;
            }
            let mut j: usize = 0;
            while j < self.files.len()
                invariant
                    j <= self.files@.len(),
                    forall|a: int, b: int| 0 <= a < b < v@.len() ==> v@[a]@ != v@[b]@,
                    forall|a: int| #![trigger v@[a]]
                        0 <= a < v@.len() ==> has_view(self.dirs@, v@[a]@) || has_parent_upto(
                            self.files@,
                            j as int,
                            v@[a]@,
                        ),
                    forall|b: int| #![trigger self.dirs@[b]]
                        0 <= b < self.dirs@.len() ==> has_view(v@, self.dirs@[b]@),
                    forall|b: int| #![trigger self.files@[b]]
                        0 <= b < j ==> has_view(v@, parent_dir(self.files@[b]@)),
                decreases self.files@.len() - j,
            {
                let ghost v_old = v@;
                let parent = parent_dir_str(self.files[j].as_str());
                let present = contains_string(&v, &parent);
                if !present {
                    v.push(parent);
                }
                proof {
                    assert forall|a: int, b: int|
                        0 <= a < b < v@.len() implies v@[a]@ != v@[b]@ by {
                        if b >= v_old.len() {
                            assert(v@[a] == v_old[a]);
                            assert(!has_view(v_old, parent_dir(self.files@[j as int]@)));
                        }
                    }
                    assert forall|a: int| #![trigger v@[a]]
                        0 <= a < v@.len() implies has_view(self.dirs@, v@[a]@) || has_parent_upto(
                        self.files@,
                        j + 1,
                        v@[a]@,
                    ) by {
                        if a < v_old.len() {
                            assert(v@[a] == v_old[a]);
                        } else {
                            assert(v@[a]@ == parent_dir(self.files@[j as int]@));
                        }
                    }
                    assert forall|b: int| #![trigger self.dirs@[b]]
                        0 <= b < self.dirs@.len() implies has_view(v@, self.dirs@[b]@) by {
                        let a0 = view_index(v_old, self.dirs@[b]@);
                        assert(v@[a0] == v_old[a0]);
                    }
                    assert forall|b: int| #![trigger self.files@[b]]
                        0 <= b < j + 1 implies has_view(v@, parent_dir(self.files@[b]@)) by {
                        if b < j {
                            let a0 = view_index(v_old, parent_dir(self.files@[b]@));
                            assert(v@[a0] == v_old[a0]);
                        } else {
                            if present {
                                let a0 = view_index(v_old, parent_dir(self.files@[j as int]@));
                                assert(v@[a0] == v_old[a0]);
                            } else {
                                assert(v@[v@.len() - 1]@ == parent_dir(self.files@[b]@));
                            }
                        }
                    }
                }
                j += 1;
            }
            proof {
                assert forall|e: Seq<char>|
                    has_view(v@, e) <==> #[trigger] self.resolved_watch_set().contains(e) by {
                    if has_view(v@, e) {
                        let a0 = view_index(v@, e);
                    }
                    if self.resolved_watch_set().contains(e) {
                        if has_view(self.dirs@, e) {
                            let b0 = view_index(self.dirs@, e);
                            assert(has_view(v@, self.dirs@[b0]@));
                        } else {
                            let b0 = choose|b: int|
                                0 <= b < self.files@.len() && #[trigger] parent_dir(
                                    self.files@[b]@,
                                ) == e;
                            assert(has_view(v@, parent_dir(self.files@[b0]@)));
                        }
                    }
                }
            }
            if v.len() > 0 {
                Ok(v)
            } else {
                proof {
                    assert forall|e: Seq<char>|
                        !(#[trigger] self.resolved_watch_set().contains(e)) by {
                        if self.resolved_watch_set().contains(e) {
                            assert(has_view(v@, e));
                            let a0 = view_index(v@, e);
                        }
                    }
                }
                Err(SetupError::EmptyWatchSet)
            }
        }
    }
}

/// Whether `v` holds a string whose characters equal those of `s`.
fn contains_string(v: &Vec<String>, s: &String) -> (r: bool)
    ensures
        r == has_view(v@, s@),
{
    let mut i: usize = 0;
    while i < v.len()
        invariant
            i <= v@.len(),
            forall|j: int| 0 <= j < i ==> v@[j]@ != s@,
        decreases v@.len() - i,
    {
        if v[i] == *s {
            return true;
        }
        i += 1;
    }
    false
}


/// What the dispatch loop is to do for one delivered path.
#[derive(Debug, Clone, PartialEq, Eq)]
pub enum IndexAction {
    /// Read the file's content and hand it to the parser side, then record
    /// the path as indexed on success.
    IndexFile(String),
    /// Forward a deletion notice for the path to the index sink.
    RemoveFile(String),
    /// Do nothing: the path's debounce window has this much left, in
    /// nanoseconds.
    Debounced(u128),
    /// Do nothing.
    NoAction,
}

/// Whether `r` asks for `p` to be indexed.
pub open spec fn is_index_of(r: IndexAction, p: Seq<char>) -> bool {
    r matches IndexAction::IndexFile(s) && s@ == p
}

/// Whether `r` forwards a deletion of `p`.
pub open spec fn is_remove_of(r: IndexAction, p: Seq<char>) -> bool {
    r matches IndexAction::RemoveFile(s) && s@ == p
}

/// Owns the admission pipeline and the set of paths tracked as indexed,
/// and decides what to do for each normalized change.  All filesystem
/// reads and all indexing work stay with the caller.
pub struct FileIndexer {
    root_path: String,
    indexed_files: Vec<String>,
    index_decider: IndexDecider,
}

/// The view of an optional borrowed path.
pub open spec fn opt_view(o: Option<&String>) -> Option<Seq<char>> {
    match o {
        Some(s) => Some(s@),
        None => None,
    }
}

impl FileIndexer {
    /// The watched root.
    pub closed spec fn root(self) -> Seq<char> {
        self.root_path@
    }

    /// The paths currently recorded as indexed, in insertion order.
    pub closed spec fn indexed_paths(self) -> Seq<String> {
        self.indexed_files@
    }

    /// The admission pipeline.
    pub closed spec fn decider(self) -> IndexDecider {
        self.index_decider
    }

    /// Whether `p` is tracked as indexed.
    pub open spec fn tracks(self, p: Seq<char>) -> bool {
        has_view(self.indexed_paths(), p)
    }

    pub open spec fn wf(self) -> bool {
        self.decider().wf()
    }

    /// Whether `p` passes the ignore and extension policies; only such a
    /// path ever consults (and so mutates) the debounce state.
    pub open spec fn eligible(self, p: Seq<char>) -> bool {
        !self.decider().ignored(p) && self.decider().supported(p)
    }

    /// Assemble an indexer for `root`: an ignore matcher built from the
    /// root's ignore-file lines, the configured extension allowlist, and a
    /// debouncer with the configured window.  Nothing is tracked yet.
    pub fn from_root_project(
        root: &str,
        ignore_lines: Vec<String>,
        extensions: Vec<&str>,
        debounce_secs: u64,
        debounce_nanos: u32,
    ) -> (r: Result<FileIndexer, SetupError>)
        ensures
            r is Ok <==> crate::ignore_matcher::build_ok(
                crate::ignore_matcher::patterns_after(ignore_lines@.map_values(|s: String| s@)),
            ),
            r matches Ok(f) ==> ({
                &&& f.wf()
                &&& f.root() == root@
                &&& f.indexed_paths() == Seq::<String>::empty()
                &&& f.decider().matcher().spec_root() == crate::ignore_matcher::ignore_root(root@)
                &&& f.decider().matcher().spec_lines() == ignore_lines@.map_values(
                    |s: String| s@,
                )
                &&& (forall|e: Seq<char>|
                    f.decider().filter().supports_ext(e) <==> (exists|i: int|
                        0 <= i < extensions@.len() && extensions@[i]@ == e))
                &&& f.decider().deb().window() == debounce_secs * 1_000_000_000 + debounce_nanos
                &&& f.decider().deb().times() == Map::<Seq<char>, int>::empty()
                &&& f.decider().deb().spec_clock() == 0
            }),
            r matches Err(e) ==> e == SetupError::IgnoreBuildFailed,
    {
        let user_ignores: Vec<&str> = Vec::new();
        let ghost user_views = user_ignores@.map_values(|s: &str| s@);
        let matcher = match IgnoreMatcher::from_root_project(root, ignore_lines, user_ignores) {
            Ok(m) => m,
            Err(e) => {
                return Err(e);
            },
        };
        proof {
            assert(ignore_lines@.map_values(|s: String| s@) + user_views =~= ignore_lines@
                .map_values(|s: String| s@));
        }
        let filter = ExtensionFilter::new(extensions);
        let debouncer = crate::debouncer::Debouncer::new(debounce_secs, debounce_nanos);
        let decider = IndexDecider::new(matcher, filter, debouncer);
        Ok(FileIndexer { root_path: root.to_owned(), indexed_files: Vec::new(), index_decider: decider })
    }

    /// Record a (canonicalized) path as indexed.
    pub fn mark_indexed(&mut self, canonical: String)
        ensures
            final(self).wf() == old(self).wf(),
            final(self).root() == old(self).root(),
            final(self).decider() == old(self).decider(),
            forall|p: Seq<char>| #![trigger final(self).tracks(p)]
                final(self).tracks(p) <==> (old(self).tracks(p) || p == canonical@),
    {
        let ghost v_old = self.indexed_files@;
        if !contains_string(&self.indexed_files, &canonical) {
            self.indexed_files.push(canonical);
        }
        proof {
            assert forall|p: Seq<char>| #![trigger has_view(self.indexed_files@, p)]
                has_view(self.indexed_files@, p) <==> (has_view(v_old, p) || p == canonical@) by {
                if has_view(self.indexed_files@, p) {
                    let a0 = view_index(self.indexed_files@, p);
                    if a0 < v_old.len() {
                        assert(self.indexed_files@[a0] == v_old[a0]);
                    }
                }
                if has_view(v_old, p) {
                    let a0 = view_index(v_old, p);
                    assert(self.indexed_files@[a0] == v_old[a0]);
                }
                if p == canonical@ && self.indexed_files@.len() > v_old.len() {
                    assert(self.indexed_files@[self.indexed_files@.len() - 1]@ == p);
                }
            }
        }
    }

    /// How many paths are tracked as indexed.
    pub fn indexed_count(&self) -> (r: usize)
        ensures
            r == self.indexed_paths().len(),
    {
        self.indexed_files.len()
    }

    fn contains_indexed(&self, c: &String) -> (r: bool)
        ensures
            r == self.tracks(c@),
    {
        contains_string(&self.indexed_files, c)
    }

    /// A creation is acted on only for a path that currently is a file,
    /// and consults the admission pipeline exactly once.
    pub fn handle_file_creation(&mut self, path: &str, is_file: bool, now: u128) -> (r: IndexAction)
        requires
            old(self).wf(),
            now as int >= old(self).decider().deb().spec_clock(),
        ensures
            final(self).wf(),
            creation_post(*old(self), *final(self), path@, is_file, now as int, r),
    {
        if is_file && self.index_decider.should_index_at(path, now) {
            IndexAction::IndexFile(path.to_owned())
        } else {
            IndexAction::NoAction
        }
    }

    /// A modification re-indexes a tracked path when the pipeline admits
    /// it and otherwise reports the remaining debounce wait; a path whose
    /// canonical form could not be resolved is treated as removed.
    pub fn handle_file_modification(
        &mut self,
        path: &str,
        canonical: Option<&String>,
        now: u128,
    ) -> (r: IndexAction)
        requires
            old(self).wf(),
            now as int >= old(self).decider().deb().spec_clock(),
        ensures
            final(self).wf(),
            modification_post(*old(self), *final(self), path@, opt_view(canonical), now as int, r),
    {
        match canonical {
            None => IndexAction::RemoveFile(path.to_owned()),
            Some(c) => {
                if self.contains_indexed(c) {
                    if self.index_decider.should_index_at(c.as_str(), now) {
                        IndexAction::IndexFile(c.clone())
                    } else {
                        IndexAction::Debounced(
                            self.index_decider.debounce_duration_left_at(c.as_str(), now),
                        )
                    }
                } else {
                    IndexAction::NoAction
                }
            },
        }
    }

    /// A deletion is forwarded to the index sink unconditionally:
    /// deletions are not debounced and not filtered.
    pub fn handle_file_deletion(&self, path: &str) -> (r: IndexAction)
        ensures
            is_remove_of(r, path@),
    {
        IndexAction::RemoveFile(path.to_owned())
    }

    /// A rename carries only its current path: a path that exists on disk
    /// is handled as a creation candidate, one that does not as a removal.
    pub fn handle_file_rename(&mut self, path: &str, path_exists: bool, now: u128) -> (r:
        IndexAction)
        requires
            old(self).wf(),
            now as int >= old(self).decider().deb().spec_clock(),
        ensures
            final(self).wf(),
            rename_post(*old(self), *final(self), path@, path_exists, now as int, r),
    {
        if path_exists {
            if self.index_decider.should_index_at(path, now) {
                IndexAction::IndexFile(path.to_owned())
            } else {
                IndexAction::NoAction
            }
        } else {
            IndexAction::RemoveFile(path.to_owned())
        }
    }

    /// Dispatch one raw notification for one path, given the observed
    /// facts about that path.
    pub fn handle_event(
        &mut self,
        kind: RawEventKind,
        path: &str,
        is_file: bool,
        path_exists: bool,
        canonical: Option<&String>,
        now: u128,
    ) -> (r: IndexAction)
        requires
            old(self).wf(),
            now as int >= old(self).decider().deb().spec_clock(),
        ensures
            final(self).wf(),
            event_post(
                *old(self),
                *final(self),
                kind,
                path@,
                is_file,
                path_exists,
                opt_view(canonical),
                now as int,
                r,
            ),
    {
        match normalize_kind(kind) {
            None => IndexAction::NoAction,
            Some(NormalizedChange::Created) => self.handle_file_creation(path, is_file, now),
            Some(NormalizedChange::Modified) => self.handle_file_modification(
                path,
                canonical,
                now,
            ),
            Some(NormalizedChange::Removed) => self.handle_file_deletion(path),
            Some(NormalizedChange::Renamed) => self.handle_file_rename(path, path_exists, now),
        }
    }

    /// `handle_event` against the system clock, never run backwards.
    pub fn handle_event_now(
        &mut self,
        kind: RawEventKind,
        path: &str,
        is_file: bool,
        path_exists: bool,
        canonical: Option<&String>,
    ) -> (r: IndexAction)
        requires
            old(self).wf(),
        ensures
            final(self).wf(),
            exists|n: int|
                #[trigger] event_post(
                    *old(self),
                    *final(self),
                    kind,
                    path@,
                    is_file,
                    path_exists,
                    opt_view(canonical),
                    n,
                    r,
                ),
    {
        let reading: u128 = crate::clock::now_nanos();
        let floor: u128 = self.index_decider.clock_value();
        let now: u128 = if reading >= floor {
            reading
        } else {
            floor
        };
        let r = self.handle_event(kind, path, is_file, path_exists, canonical, now);
        proof {
            assert(event_post(
                *old(self),
                *self,
                kind,
                path@,
                is_file,
                path_exists,
                opt_view(canonical),
                now as int,
                r,
            ));
        }
        r
    }
}

/// The pipeline state is untouched except, possibly, the debouncer.
pub open spec fn same_but_deb(pre: FileIndexer, post: FileIndexer) -> bool {
    &&& post.root() == pre.root()
    &&& post.indexed_paths() == pre.indexed_paths()
    &&& post.decider().matcher() == pre.decider().matcher()
    &&& post.decider().filter() == pre.decider().filter()
}

/// What handling a creation (or a rename resolved to one) guarantees: the
/// pipeline is consulted exactly once, and only for an eligible file.
pub open spec fn creation_post(
    pre: FileIndexer,
    post: FileIndexer,
    p: Seq<char>,
    is_file: bool,
    now: int,
    r: IndexAction,
) -> bool {
    &&& same_but_deb(pre, post)
    &&& if is_file && pre.eligible(p) {
        &&& debounce_step(
            pre.decider().deb(),
            post.decider().deb(),
            p,
            pre.decider().deb().admits(p, now),
            now,
        )
        &&& if pre.decider().deb().admits(p, now) {
            is_index_of(r, p)
        } else {
            r is NoAction
        }
    } else {
        post.decider().deb() == pre.decider().deb() && r is NoAction
    }
}

/// What handling a modification guarantees.
pub open spec fn modification_post(
    pre: FileIndexer,
    post: FileIndexer,
    p: Seq<char>,
    canonical: Option<Seq<char>>,
    now: int,
    r: IndexAction,
) -> bool {
    match canonical {
        None => post == pre && is_remove_of(r, p),
        Some(c) => {
            &&& same_but_deb(pre, post)
            &&& if pre.tracks(c) {
                if pre.eligible(c) {
                    &&& debounce_step(
                        pre.decider().deb(),
                        post.decider().deb(),
                        c,
                        pre.decider().deb().admits(c, now),
                        now,
                    )
                    &&& if pre.decider().deb().admits(c, now) {
                        is_index_of(r, c)
                    } else {
                        r matches IndexAction::Debounced(t) && t as int == post.decider()
                            .deb()
                            .spec_time_left(c, now)
                    }
                } else {
                    &&& post.decider().deb() == pre.decider().deb()
                    &&& r matches IndexAction::Debounced(t) && t as int == pre.decider()
                        .deb()
                        .spec_time_left(c, now)
                }
            } else {
                post.decider().deb() == pre.decider().deb() && r is NoAction
            }
        },
    }
}

/// What handling a rename guarantees: resolution through the existence
/// check, then the creation or removal behaviour.
pub open spec fn rename_post(
    pre: FileIndexer,
    post: FileIndexer,
    p: Seq<char>,
    path_exists: bool,
    now: int,
    r: IndexAction,
) -> bool {
    if path_exists {
        creation_post(pre, post, p, true, now, r)
    } else {
        post == pre && is_remove_of(r, p)
    }
}

/// What one dispatched notification guarantees, by its normalized kind.
pub open spec fn event_post(
    pre: FileIndexer,
    post: FileIndexer,
    kind: RawEventKind,
    p: Seq<char>,
    is_file: bool,
    path_exists: bool,
    canonical: Option<Seq<char>>,
    now: int,
    r: IndexAction,
) -> bool {
    &&& now >= pre.decider().deb().spec_clock()
    &&& match spec_normalize(kind) {
        None => post == pre && r is NoAction,
        Some(NormalizedChange::Created) => creation_post(pre, post, p, is_file, now, r),
        Some(NormalizedChange::Modified) => modification_post(pre, post, p, canonical, now, r),
        Some(NormalizedChange::Removed) => post == pre && is_remove_of(r, p),
        Some(NormalizedChange::Renamed) => rename_post(pre, post, p, path_exists, now, r),
    }
}

} // verus!
