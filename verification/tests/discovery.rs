use pixel_agents_tui::watcher::discovery::find_file;
use pixel_agents_tui::watcher::discovery::has_log_extension;
use pixel_agents_tui::watcher::discovery::holds_path;
use pixel_agents_tui::watcher::discovery::scan_sessions;
use pixel_agents_tui::watcher::discovery::SessionFile;
use pixel_agents_tui::watcher::discovery::SessionTracker;
use pixel_agents_tui::watcher::discovery::DORMANCY_TIMEOUT_SECS;

fn path(s: &str) -> String {
    s.to_string()
}

fn file(p: &str, modified: Option<u64>) -> SessionFile {
    SessionFile { path: p.to_string(), modified, content: Vec::new() }
}

#[test]
fn tracker_assigns_incremental_ids() {
    let mut tracker = SessionTracker::new();
    let paths = vec![path("/tmp/a.jsonl"), path("/tmp/b.jsonl")];
    let (new, removed) = tracker.update(&paths);
    assert_eq!(new.len(), 2);
    assert_eq!(new[0].0, 1);
    assert_eq!(new[1].0, 2);
    assert!(removed.is_empty());
}

#[test]
fn tracker_detects_removed_sessions() {
    let mut tracker = SessionTracker::new();
    let paths = vec![path("/tmp/a.jsonl"), path("/tmp/b.jsonl")];
    tracker.update(&paths);
    let (new, removed) = tracker.update(&[path("/tmp/a.jsonl")]);
    assert!(new.is_empty());
    assert_eq!(removed, vec![2]);
}

#[test]
fn tracker_detects_new_sessions() {
    let mut tracker = SessionTracker::new();
    tracker.update(&[path("/tmp/a.jsonl")]);
    let (new, _) = tracker.update(&[path("/tmp/a.jsonl"), path("/tmp/c.jsonl")]);
    assert_eq!(new.len(), 1);
    assert_eq!(new[0].0, 2);
}

#[test]
fn tracker_get_id() {
    let mut tracker = SessionTracker::new();
    tracker.update(&[path("/tmp/a.jsonl")]);
    assert_eq!(tracker.get_id("/tmp/a.jsonl"), Some(1));
    assert_eq!(tracker.get_id("/tmp/nope.jsonl"), None);
}

#[test]
fn scan_sessions_handles_missing_dir() {
    let sessions = scan_sessions(&Vec::new(), 1_000);
    assert!(sessions.is_empty());
}

#[test]
fn ids_are_never_reused_when_a_path_comes_back() {
    let mut tracker = SessionTracker::new();
    let (new, _) = tracker.update(&[path("/a.jsonl"), path("/b.jsonl"), path("/c.jsonl")]);
    assert_eq!(new, vec![(1, path("/a.jsonl")), (2, path("/b.jsonl")), (3, path("/c.jsonl"))]);
    let (new, removed) = tracker.update(&[path("/c.jsonl")]);
    assert!(new.is_empty());
    assert_eq!(removed, vec![1, 2]);
    let (new, removed) = tracker.update(&[path("/b.jsonl"), path("/c.jsonl"), path("/a.jsonl")]);
    assert_eq!(new, vec![(4, path("/b.jsonl")), (5, path("/a.jsonl"))]);
    assert!(removed.is_empty());
    assert_eq!(tracker.get_id("/a.jsonl"), Some(5));
    assert_eq!(tracker.get_id("/b.jsonl"), Some(4));
    assert_eq!(tracker.get_id("/c.jsonl"), Some(3));
    assert_eq!(tracker.next_id(), 6);
    let (new, removed) = tracker.update(&[]);
    assert!(new.is_empty());
    assert_eq!(removed, vec![3, 4, 5]);
    assert_eq!(tracker.next_id(), 6);
    let (new, _) = tracker.update(&[path("/c.jsonl")]);
    assert_eq!(new, vec![(6, path("/c.jsonl"))]);
}

#[test]
fn a_path_named_twice_is_one_session() {
    let mut tracker = SessionTracker::new();
    let (new, removed) = tracker.update(&[path("/a.jsonl"), path("/a.jsonl"), path("/b.jsonl")]);
    assert_eq!(new, vec![(1, path("/a.jsonl")), (2, path("/b.jsonl"))]);
    assert!(removed.is_empty());
    assert_eq!(tracker.next_id(), 3);
}

#[test]
fn new_tracker_knows_nothing() {
    let tracker = SessionTracker::new();
    assert_eq!(tracker.next_id(), 1);
    assert_eq!(tracker.get_id("/a.jsonl"), None);
}

#[test]
fn scan_keeps_recent_logs_in_order() {
    assert_eq!(DORMANCY_TIMEOUT_SECS, 300);
    let now = 10_000;
    let files = vec![
        file("/c/projects/p/old.jsonl", Some(now - 301)),
        file("/c/projects/p/edge.jsonl", Some(now - 300)),
        file("/c/projects/p/notes.txt", Some(now)),
        file("/c/projects/q/deep/new.jsonl", Some(now)),
        file("/c/projects/q/future.jsonl", Some(now + 1)),
        file("/c/projects/q/ageless.jsonl", None),
        file("/c/projects/q/.jsonl", Some(now)),
        file("/c/projects/q/jsonl", Some(now)),
        file("/c/projects/q/a.b.jsonl", Some(now - 1)),
        file("/c/projects/q/up.JSONL", Some(now)),
        file("/c/projects/dir.jsonl/plain", Some(now)),
    ];
    assert_eq!(
        scan_sessions(&files, now),
        vec![
            path("/c/projects/p/edge.jsonl"),
            path("/c/projects/q/deep/new.jsonl"),
            path("/c/projects/q/a.b.jsonl"),
        ]
    );
}

#[test]
fn log_extension() {
    assert!(has_log_extension("a.jsonl"));
    assert!(has_log_extension("/x/y/session-1.jsonl"));
    assert!(has_log_extension("..jsonl"));
    assert!(!has_log_extension(".jsonl"));
    assert!(!has_log_extension("/x/.jsonl"));
    assert!(!has_log_extension("a.jsonl/"));
    assert!(!has_log_extension("a.jsonlx"));
    assert!(!has_log_extension("ajsonl"));
    assert!(!has_log_extension(""));
}

#[test]
fn find_file_takes_the_first_of_that_path() {
    let files = vec![
        SessionFile { path: path("/a"), modified: None, content: vec![1] },
        SessionFile { path: path("/b"), modified: None, content: vec![2, 3] },
        SessionFile { path: path("/a"), modified: None, content: vec![4] },
    ];
    assert_eq!(find_file(&files, "/a"), Some([1u8].as_slice()));
    assert_eq!(find_file(&files, "/b"), Some([2u8, 3].as_slice()));
    assert_eq!(find_file(&files, "/c"), None);
}

#[test]
fn holds_path_compares_whole_paths() {
    let paths = vec![path("/a"), path("/b")];
    assert!(holds_path(&paths, "/a"));
    assert!(holds_path(&paths, "/b"));
    assert!(!holds_path(&paths, "/"));
    assert!(!holds_path(&[], "/a"));
}
