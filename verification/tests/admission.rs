use codeindex::debouncer::Debouncer;
use codeindex::extension_filter::ExtensionFilter;
use codeindex::ignore_matcher::IgnoreMatcher;
use codeindex::index_decider::IndexDecider;

const SECOND: u128 = 1_000_000_000;

fn decider_with(extensions: Vec<&str>, user_ignores: Vec<&str>) -> IndexDecider {
    let matcher = IgnoreMatcher::from_root_project(".", Vec::new(), user_ignores)
        .expect("ignore matcher builds");
    let filter = ExtensionFilter::new(extensions);
    let debouncer = Debouncer::new(10, 0);
    IndexDecider::new(matcher, filter, debouncer)
}

#[test]
fn first_call_admits_then_window_gates() {
    let mut decider = decider_with(vec!["rs", "py"], Vec::new());
    assert!(decider.should_index_at("src/main.py", 0));
    assert!(!decider.should_index_at("src/main.py", 1));
    assert!(!decider.should_index_at("src/main.py", 5 * SECOND));
    assert!(!decider.should_index_at("src/main.py", 10 * SECOND - 1));
    assert!(decider.should_index_at("src/main.py", 10 * SECOND));
}

#[test]
fn window_restarts_after_each_admission() {
    let mut decider = decider_with(vec!["py"], Vec::new());
    assert!(decider.should_index_at("a.py", 0));
    assert!(decider.should_index_at("a.py", 10 * SECOND));
    assert!(!decider.should_index_at("a.py", 15 * SECOND));
    assert!(decider.should_index_at("a.py", 20 * SECOND));
}

#[test]
fn independent_paths_have_independent_windows() {
    let mut decider = decider_with(vec!["py"], Vec::new());
    assert!(decider.should_index_at("a.py", 0));
    assert!(decider.should_index_at("b.py", 1));
    assert!(!decider.should_index_at("a.py", 2));
    assert!(!decider.should_index_at("b.py", 2));
}

#[test]
fn ignored_path_never_touches_debounce_state() {
    let mut decider = decider_with(vec!["log", "py"], vec!["*.log"]);
    for now in [0u128, 1, 2, 3] {
        assert!(!decider.should_index_at("noise.log", now));
        // The path still has no debounce record: the full window is left.
        assert_eq!(decider.debounce_duration_left_at("noise.log", now), 10 * SECOND);
    }
}

#[test]
fn unsupported_path_never_touches_debounce_state() {
    let mut decider = decider_with(vec!["py"], Vec::new());
    assert!(!decider.should_index_at("notes.txt", 0));
    assert_eq!(decider.debounce_duration_left_at("notes.txt", 0), 10 * SECOND);
}

#[test]
fn stale_queue_entry_does_not_erase_current_record() {
    let mut deb = Debouncer::new(10, 0);
    assert!(deb.should_index_at("a.py", 0));
    assert!(deb.should_index_at("a.py", 10 * SECOND));
    // The first queued record for a.py is now expired; pruning it must not
    // delete the current record from the second admission.
    assert!(!deb.should_index_at("a.py", 15 * SECOND));
    assert_eq!(deb.time_left_at("a.py", 15 * SECOND), 5 * SECOND);
}

#[test]
fn time_left_reports_zero_full_and_remainder() {
    let mut deb = Debouncer::new(10, 0);
    assert_eq!(deb.time_left_at("a.py", 0), 10 * SECOND);
    assert!(deb.should_index_at("a.py", 0));
    assert_eq!(deb.time_left_at("a.py", 4 * SECOND), 6 * SECOND);
    assert_eq!(deb.time_left_at("a.py", 10 * SECOND), 0);
    assert_eq!(deb.time_left_at("a.py", 25 * SECOND), 0);
}

#[test]
fn clocked_calls_agree_with_the_gate() {
    let mut deb = Debouncer::new(10, 0);
    assert!(deb.should_index("a.py"));
    assert!(!deb.should_index("a.py"));
    assert!(deb.time_left("a.py") <= 10 * SECOND);
}

#[test]
fn ignore_precedence_negation_wins_last() {
    let matcher = IgnoreMatcher::from_root_project(".", Vec::new(), vec!["*.log", "!keep.log"])
        .expect("ignore matcher builds");
    assert!(matcher.is_ignored("a.log"));
    assert!(!matcher.is_ignored("keep.log"));
}

#[test]
fn ignore_file_lines_come_before_user_lines() {
    let lines = vec!["*.tmp".to_string()];
    let matcher = IgnoreMatcher::from_root_project(".", lines, vec!["!keep.tmp"])
        .expect("ignore matcher builds");
    assert!(matcher.is_ignored("x.tmp"));
    assert!(!matcher.is_ignored("keep.tmp"));
}

#[test]
fn malformed_pattern_is_a_non_fatal_skip() {
    let matcher = IgnoreMatcher::from_root_project(".", Vec::new(), vec!["a{{", "*.log"])
        .expect("a malformed pattern must not fail the build");
    assert!(matcher.is_ignored("b.log"));
}

#[test]
fn extension_membership_is_exact_and_case_sensitive() {
    let filter = ExtensionFilter::new(vec!["rs", "py"]);
    assert!(filter.is_supported("a.rs"));
    assert!(filter.is_supported("dir/b.py"));
    assert!(!filter.is_supported("a.RS"));
    assert!(!filter.is_supported("a.rss"));
    assert!(!filter.is_supported("a"));
    assert!(!filter.is_supported(".gitignore"));
}

#[test]
fn extension_extraction_edge_cases() {
    assert_eq!(ExtensionFilter::extension_str("a.tar.gz").as_deref(), Some("gz"));
    assert_eq!(ExtensionFilter::extension_str("dir.d/file"), None);
    assert_eq!(ExtensionFilter::extension_str("dir/.hidden"), None);
    assert_eq!(ExtensionFilter::extension_str("x."), Some(String::new()));
    assert_eq!(ExtensionFilter::extension_str(""), None);
}
