use codeindex::errors::SetupError;
use codeindex::file_watcher::FileIndexer;
use codeindex::file_watcher::IndexAction;
use codeindex::file_watcher::NormalizedChange;
use codeindex::file_watcher::RawEventKind;
use codeindex::file_watcher::WatchTarget;
use codeindex::file_watcher::normalize_kind;
use codeindex::file_watcher::parent_dir_str;
use codeindex::file_watcher::resolve_rename;

const SECOND: u128 = 1_000_000_000;

fn indexer() -> FileIndexer {
    FileIndexer::from_root_project(".", Vec::new(), vec!["py", "rs"], 10, 0)
        .expect("indexer builds")
}

#[test]
fn raw_kinds_normalize_to_the_four_actions() {
    assert_eq!(normalize_kind(RawEventKind::Create), Some(NormalizedChange::Created));
    assert_eq!(normalize_kind(RawEventKind::Remove), Some(NormalizedChange::Removed));
    assert_eq!(normalize_kind(RawEventKind::ModifyData), Some(NormalizedChange::Modified));
    assert_eq!(normalize_kind(RawEventKind::ModifyOther), Some(NormalizedChange::Modified));
    assert_eq!(normalize_kind(RawEventKind::ModifyAny), Some(NormalizedChange::Modified));
    assert_eq!(normalize_kind(RawEventKind::ModifyName), Some(NormalizedChange::Renamed));
    assert_eq!(normalize_kind(RawEventKind::Other), None);
}

#[test]
fn rename_resolution_follows_the_existence_check() {
    assert_eq!(resolve_rename(true), NormalizedChange::Created);
    assert_eq!(resolve_rename(false), NormalizedChange::Removed);
}

#[test]
fn rename_of_existing_path_is_a_creation_candidate() {
    let mut idx = indexer();
    let action = idx.handle_event(RawEventKind::ModifyName, "f.py", true, true, None, 0);
    assert_eq!(action, IndexAction::IndexFile("f.py".to_string()));
}

#[test]
fn rename_of_vanished_path_is_a_removal() {
    let mut idx = indexer();
    let action = idx.handle_event(RawEventKind::ModifyName, "gone.py", false, false, None, 0);
    assert_eq!(action, IndexAction::RemoveFile("gone.py".to_string()));
}

#[test]
fn deletion_is_forwarded_regardless_of_filters() {
    let mut idx = indexer();
    // Neither a supported extension nor admitted by any debounce window.
    let action = idx.handle_event(RawEventKind::Remove, "junk.bin", false, false, None, 0);
    assert_eq!(action, IndexAction::RemoveFile("junk.bin".to_string()));
}

#[test]
fn creation_acts_only_on_files() {
    let mut idx = indexer();
    let dir = idx.handle_event(RawEventKind::Create, "newdir.py", false, true, None, 0);
    assert_eq!(dir, IndexAction::NoAction);
    let file = idx.handle_event(RawEventKind::Create, "new.py", true, true, None, 0);
    assert_eq!(file, IndexAction::IndexFile("new.py".to_string()));
}

#[test]
fn creation_consults_the_pipeline_once() {
    let mut idx = indexer();
    assert_eq!(
        idx.handle_event(RawEventKind::Create, "one.py", true, true, None, 0),
        IndexAction::IndexFile("one.py".to_string()),
    );
    // Within the window the same path is debounced, not re-admitted.
    assert_eq!(
        idx.handle_event(RawEventKind::Create, "one.py", true, true, None, SECOND),
        IndexAction::NoAction,
    );
}

#[test]
fn modification_of_tracked_path_reindexes_then_debounces() {
    let mut idx = indexer();
    idx.mark_indexed("f.py".to_string());
    let canonical = "f.py".to_string();
    let first = idx.handle_file_modification("f.py", Some(&canonical), 0);
    assert_eq!(first, IndexAction::IndexFile("f.py".to_string()));
    let second = idx.handle_file_modification("f.py", Some(&canonical), 4 * SECOND);
    assert_eq!(second, IndexAction::Debounced(6 * SECOND));
}

#[test]
fn modification_of_untracked_path_does_nothing() {
    let mut idx = indexer();
    let canonical = "stranger.py".to_string();
    let action = idx.handle_file_modification("stranger.py", Some(&canonical), 0);
    assert_eq!(action, IndexAction::NoAction);
}

#[test]
fn canonicalization_failure_counts_as_removal() {
    let mut idx = indexer();
    let action = idx.handle_file_modification("ghost.py", None, 0);
    assert_eq!(action, IndexAction::RemoveFile("ghost.py".to_string()));
}

#[test]
fn unhandled_kinds_are_ignored() {
    let mut idx = indexer();
    assert_eq!(
        idx.handle_event(RawEventKind::Other, "f.py", true, true, None, 0),
        IndexAction::NoAction,
    );
}

#[test]
fn mark_indexed_is_idempotent() {
    let mut idx = indexer();
    idx.mark_indexed("a.py".to_string());
    idx.mark_indexed("a.py".to_string());
    idx.mark_indexed("b.py".to_string());
    assert_eq!(idx.indexed_count(), 2);
}

#[test]
fn watch_set_is_dirs_plus_file_parents() {
    let target = WatchTarget {
        root: "proj".to_string(),
        files: vec!["src/lib.py".to_string(), "tool.py".to_string()],
        dirs: vec!["assets".to_string()],
    };
    let mut roots = target.watch_roots().expect("non-empty watch set");
    roots.sort();
    assert_eq!(roots, vec![".".to_string(), "assets".to_string(), "src".to_string()]);
}

#[test]
fn bare_root_is_watched_when_nothing_is_explicit() {
    let target = WatchTarget { root: "proj".to_string(), files: Vec::new(), dirs: Vec::new() };
    assert_eq!(target.watch_roots(), Ok(vec!["proj".to_string()]));
}

#[test]
fn empty_watch_set_fails_setup() {
    let target = WatchTarget { root: String::new(), files: Vec::new(), dirs: Vec::new() };
    assert_eq!(target.watch_roots(), Err(SetupError::EmptyWatchSet));
}

#[test]
fn parent_directories() {
    assert_eq!(parent_dir_str("a/b/c.py"), "a/b");
    assert_eq!(parent_dir_str("/x.py"), "/");
    assert_eq!(parent_dir_str("x.py"), ".");
}
