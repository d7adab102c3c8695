//! Behavior of the pure parts: validation decisions, ordering, normalization,
//! diffing, the control state machine, and poll application.

use watcher::DirWatcher;
use watcher::Event;
use watcher::InitTargetError;
use watcher::LoopCommand;
use watcher::PathKind;
use watcher::WatchingError;
use watcher::diff;
use watcher::is_absolute_path;
use watcher::normalize;
use watcher::str_lt;
use watcher::target_of_probe;

fn strings(items: &[&str]) -> Vec<String> {
    items.iter().map(|s| s.to_string()).collect()
}

#[test]
fn construct_rejects_relative_root() {
    let pats = strings(&["*"]);
    assert!(matches!(
        target_of_probe("relative/path", &pats, PathKind::Directory),
        Err(InitTargetError::NonAbsPath)
    ));
    assert!(matches!(
        target_of_probe("", &pats, PathKind::Directory),
        Err(InitTargetError::NonAbsPath)
    ));
}

#[test]
fn construct_rejects_missing_root() {
    let pats = strings(&["*"]);
    assert!(matches!(
        target_of_probe("/somewhere", &pats, PathKind::Missing),
        Err(InitTargetError::NonExistent)
    ));
}

#[test]
fn construct_rejects_non_directory_root() {
    let pats = strings(&["*"]);
    assert!(matches!(
        target_of_probe("/somewhere", &pats, PathKind::NotDirectory),
        Err(InitTargetError::NotADirectory)
    ));
}

#[test]
fn construct_succeeds_on_absolute_directory() {
    let pats = strings(&["b.rs", "*.txt", "b.rs"]);
    let target = target_of_probe("/somewhere", &pats, PathKind::Directory).unwrap();
    assert_eq!(target.root_string(), "/somewhere".to_string());
    assert_eq!(target.patterns_vec(), strings(&["*.txt", "b.rs"]));
}

#[test]
fn relative_root_beats_probe_outcome() {
    let pats = strings(&["*"]);
    assert!(matches!(
        target_of_probe("no/leading/separator", &pats, PathKind::Missing),
        Err(InitTargetError::NonAbsPath)
    ));
}

#[test]
fn absolute_path_test() {
    assert!(is_absolute_path("/"));
    assert!(is_absolute_path("/tmp/w"));
    assert!(!is_absolute_path(""));
    assert!(!is_absolute_path("tmp/w"));
}

#[test]
fn path_order() {
    assert!(str_lt("a", "b"));
    assert!(!str_lt("b", "a"));
    assert!(!str_lt("a", "a"));
    assert!(str_lt("", "a"));
    assert!(!str_lt("a", ""));
    assert!(str_lt("a", "ab"));
    assert!(!str_lt("ab", "a"));
    assert!(str_lt("ab", "b"));
    assert!(str_lt("a/b", "a/c"));
}

#[test]
fn normalize_sorts_and_deduplicates() {
    assert_eq!(normalize(&strings(&["b", "a", "b", "a"])), strings(&["a", "b"]));
    assert_eq!(normalize(&strings(&[])), strings(&[]));
    assert_eq!(normalize(&strings(&["x"])), strings(&["x"]));
    assert_eq!(normalize(&strings(&["c", "b", "a"])), strings(&["a", "b", "c"]));
}

#[test]
fn normalize_ignores_input_order() {
    let one = normalize(&strings(&["*.txt", "*.md", "*.rs"]));
    let other = normalize(&strings(&["*.rs", "*.txt", "*.md"]));
    assert_eq!(one, other);
}

#[test]
fn diff_of_equal_snapshots_is_empty() {
    let snap = strings(&["a", "b", "c"]);
    let (added, removed) = diff(&snap, &snap);
    assert_eq!(added, strings(&[]));
    assert_eq!(removed, strings(&[]));
    let empty = strings(&[]);
    let (added, removed) = diff(&empty, &empty);
    assert_eq!(added, strings(&[]));
    assert_eq!(removed, strings(&[]));
}

#[test]
fn diff_reports_membership_changes() {
    let previous = strings(&["a", "b", "c"]);
    let current = strings(&["c", "x", "a"]);
    let (added, removed) = diff(&previous, &current);
    assert_eq!(added, strings(&["x"]));
    assert_eq!(removed, strings(&["b"]));
}

#[test]
fn diff_partitions_the_snapshots() {
    let previous = strings(&["a", "b", "c"]);
    let current = strings(&["b", "c", "d", "e"]);
    let (added, removed) = diff(&previous, &current);
    // removed together with the common part is exactly the old snapshot
    let mut rebuilt_old = removed.clone();
    for p in previous.iter() {
        if current.contains(p) {
            rebuilt_old.push(p.clone());
        }
    }
    assert_eq!(normalize(&rebuilt_old), normalize(&previous));
    // added together with the common part is exactly the new snapshot
    let mut rebuilt_new = added.clone();
    for p in current.iter() {
        if previous.contains(p) {
            rebuilt_new.push(p.clone());
        }
    }
    assert_eq!(normalize(&rebuilt_new), normalize(&current));
    // nothing is both added and removed
    for p in added.iter() {
        assert!(!removed.contains(p));
    }
}

#[test]
fn diff_preserves_source_order() {
    let previous = strings(&["z", "y", "x"]);
    let current = strings(&[]);
    let (added, removed) = diff(&previous, &current);
    assert_eq!(added, strings(&[]));
    assert_eq!(removed, strings(&["z", "y", "x"]));
    let (added, removed) = diff(&current, &previous);
    assert_eq!(added, strings(&["z", "y", "x"]));
    assert_eq!(removed, strings(&[]));
}

#[test]
fn error_messages() {
    assert_eq!(
        InitTargetError::NonAbsPath.message(),
        "Watcher must be initialized with an absolute path!"
    );
    assert_eq!(
        InitTargetError::NonExistent.message(),
        "Watcher must be initialized with an existed path!"
    );
    assert_eq!(
        InitTargetError::NotADirectory.message(),
        "Watcher must be initialized with a directory!"
    );
    assert_eq!(WatchingError::NoRunningLoop.message(), "No running loop in the watcher");
    assert_eq!(
        WatchingError::DuplicateLoop.message(),
        "Making duplicate loops in a single watcher!"
    );
}

/// A watcher over a scratch directory, used only for its state machine and
/// for explicitly applied listings.
fn fresh_watcher() -> DirWatcher {
    let dir = tempfile::tempdir().unwrap();
    let root = dir.path().to_str().unwrap().to_string();
    let pats = strings(&["*.none"]);
    DirWatcher::new(&root, &pats).unwrap()
}

#[test]
fn control_calls_fail_without_a_loop() {
    let mut w = fresh_watcher();
    assert_eq!(w.pause(), Err(WatchingError::NoRunningLoop));
    assert_eq!(w.resume(), Err(WatchingError::NoRunningLoop));
    assert_eq!(w.end_watching(), Err(WatchingError::NoRunningLoop));
    assert!(!w.is_watching());
}

#[test]
fn starting_twice_is_a_duplicate() {
    let mut w = fresh_watcher();
    assert_eq!(w.watch_on_idle(Some(5)), Ok(()));
    assert!(w.is_watching());
    assert_eq!(w.watch_on_idle(Some(5)), Err(WatchingError::DuplicateLoop));
    assert_eq!(w.pause(), Ok(()));
    // still a duplicate while merely paused
    assert_eq!(w.watch_on_idle(Some(5)), Err(WatchingError::DuplicateLoop));
    assert_eq!(w.end_watching(), Ok(()));
    // after a stop, a new loop may start
    assert_eq!(w.watch_on_idle(None), Ok(()));
}

#[test]
fn pause_resume_stop_lifecycle() {
    let mut w = fresh_watcher();
    assert_eq!(w.watch_on_idle(Some(7)), Ok(()));
    assert_eq!(w.loop_command(), LoopCommand::Poll(7));
    assert_eq!(w.pause(), Ok(()));
    assert!(!w.is_watching());
    assert_eq!(w.loop_command(), LoopCommand::Park);
    // pausing an already paused watcher succeeds and keeps it paused
    assert_eq!(w.pause(), Ok(()));
    assert_eq!(w.loop_command(), LoopCommand::Park);
    assert_eq!(w.resume(), Ok(()));
    assert!(w.is_watching());
    assert_eq!(w.loop_command(), LoopCommand::Poll(7));
    // resuming a running watcher succeeds and keeps it running
    assert_eq!(w.resume(), Ok(()));
    assert!(w.is_watching());
    assert_eq!(w.end_watching(), Ok(()));
    assert!(!w.is_watching());
    assert_eq!(w.loop_command(), LoopCommand::Exit);
}

#[test]
fn zero_or_absent_idle_falls_back_to_the_default() {
    let mut w = fresh_watcher();
    assert_eq!(w.watch_on_idle(Some(0)), Ok(()));
    assert_eq!(w.loop_command(), LoopCommand::Poll(watcher::DEFAULT_SYNC_IDLE));
    assert_eq!(w.end_watching(), Ok(()));
    assert_eq!(w.watch_on_idle(None), Ok(()));
    assert_eq!(w.loop_command(), LoopCommand::Poll(watcher::DEFAULT_SYNC_IDLE));
}

#[test]
fn applied_listing_replaces_the_snapshot() {
    let mut w = fresh_watcher();
    assert_eq!(w.current(), strings(&[]));
    w.apply_listing(strings(&["b", "a", "b"]), 7);
    assert_eq!(w.current(), strings(&["a", "b"]));
    // the snapshot reflects exactly the latest listing, whatever came before
    w.apply_listing(strings(&["q"]), 8);
    assert_eq!(w.current(), strings(&["q"]));
    w.apply_listing(strings(&[]), 9);
    assert_eq!(w.current(), strings(&[]));
}

#[test]
fn applied_listings_log_removals_before_additions() {
    let mut w = fresh_watcher();
    w.apply_listing(strings(&["a", "b"]), 5);
    let events = w.get_events();
    assert_eq!(events.len(), 1);
    match &events[0] {
        Event::Add { paths, stamp } => {
            assert_eq!(paths, &strings(&["a", "b"]));
            assert_eq!(*stamp, 5);
        }
        _ => panic!("expected an addition"),
    }
    // one poll that both removes and adds: the removal is recorded first
    w.apply_listing(strings(&["b", "c"]), 6);
    let events = w.get_events();
    assert_eq!(events.len(), 3);
    match &events[1] {
        Event::Remove { paths, stamp } => {
            assert_eq!(paths, &strings(&["a"]));
            assert_eq!(*stamp, 6);
        }
        _ => panic!("expected a removal"),
    }
    match &events[2] {
        Event::Add { paths, stamp } => {
            assert_eq!(paths, &strings(&["c"]));
            assert_eq!(*stamp, 6);
        }
        _ => panic!("expected an addition"),
    }
}

#[test]
fn recorded_stamps_never_decrease() {
    let mut w = fresh_watcher();
    w.apply_listing(strings(&["a"]), 9);
    // the clock appears to jump back; the recorded stamp is clamped
    w.apply_listing(strings(&[]), 3);
    let events = w.get_events();
    assert_eq!(events.len(), 2);
    let first = match &events[0] {
        Event::Add { stamp, .. } => *stamp,
        _ => panic!("expected an addition"),
    };
    let second = match &events[1] {
        Event::Remove { stamp, .. } => *stamp,
        _ => panic!("expected a removal"),
    };
    assert_eq!(first, 9);
    assert_eq!(second, 9);
    assert!(second >= first);
}

#[test]
fn unchanged_listing_appends_no_event() {
    let mut w = fresh_watcher();
    w.apply_listing(strings(&["a", "b"]), 4);
    assert_eq!(w.get_events().len(), 1);
    w.apply_listing(strings(&["b", "a"]), 5);
    w.apply_listing(strings(&["a", "b", "a"]), 6);
    assert_eq!(w.get_events().len(), 1);
    assert_eq!(w.current(), strings(&["a", "b"]));
}

#[test]
fn get_target_reports_root_and_patterns() {
    let dir = tempfile::tempdir().unwrap();
    let root = dir.path().to_str().unwrap().to_string();
    let pats = strings(&["b.rs", "*.txt", "b.rs"]);
    let w = DirWatcher::new(&root, &pats).unwrap();
    let (got_root, got_pats) = w.get_target();
    assert_eq!(got_root, root);
    assert_eq!(got_pats, strings(&["*.txt", "b.rs"]));
}
