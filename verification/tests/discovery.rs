use peek::error::RangeError;
use peek::history::history_slice;
use peek::scan::{
    discover_markers, is_canonical_path, marker_window_name, parent_of, upward_path,
};
use peek::window::{Window, Windows};

fn log(entries: &[&str]) -> Vec<String> {
    entries.iter().map(|e| e.to_string()).collect()
}

#[test]
fn history_slice_returns_most_recent_first() {
    let history = log(&["a", "b", "c", "d", "e"]);
    let slice = history_slice(&history, 0, 2).unwrap();
    assert_eq!(slice, log(&["e", "d", "c"]));
}

#[test]
fn history_slice_rejects_start_after_end() {
    let history = log(&["a", "b", "c", "d", "e"]);
    let err = history_slice(&history, 3, 1).unwrap_err();
    assert_eq!(err, RangeError::BadSlice { start: 3, end: 1, len: 5 });
}

#[test]
fn history_slice_rejects_offsets_past_the_log() {
    let history = log(&["a", "b", "c"]);
    assert_eq!(
        history_slice(&history, 0, 3).unwrap_err(),
        RangeError::BadSlice { start: 0, end: 3, len: 3 }
    );
    assert_eq!(
        history_slice(&history, 5, 6).unwrap_err(),
        RangeError::BadSlice { start: 5, end: 6, len: 3 }
    );
    assert!(history_slice(&log(&[]), 0, 0).is_err());
}

#[test]
fn history_slice_single_entry() {
    let history = log(&["a", "b", "c"]);
    assert_eq!(history_slice(&history, 1, 1).unwrap(), log(&["b"]));
    assert_eq!(history_slice(&history, 0, 2).unwrap(), log(&["c", "b", "a"]));
}

#[test]
fn canonical_path_check() {
    assert!(is_canonical_path("/"));
    assert!(is_canonical_path("/home/user"));
    assert!(!is_canonical_path(""));
    assert!(!is_canonical_path("relative/path"));
    assert!(!is_canonical_path("/home/user/"));
    assert!(!is_canonical_path("/home//user"));
}

#[test]
fn parent_walks_toward_the_root() {
    assert_eq!(parent_of("/home/user/proj"), Some("/home/user".to_string()));
    assert_eq!(parent_of("/home"), Some("/".to_string()));
    assert_eq!(parent_of("/"), None);
}

#[test]
fn upward_path_visits_start_to_boundary() {
    let dirs = upward_path("/home/user/proj/sub", "/home/user");
    assert_eq!(
        dirs,
        vec![
            "/home/user/proj/sub".to_string(),
            "/home/user/proj".to_string(),
            "/home/user".to_string()
        ]
    );
}

#[test]
fn upward_path_stops_at_the_root_when_boundary_is_missed() {
    let dirs = upward_path("/srv/data", "/home/user");
    assert_eq!(
        dirs,
        vec!["/srv/data".to_string(), "/srv".to_string(), "/".to_string()]
    );
}

#[test]
fn upward_path_of_the_boundary_is_the_boundary() {
    let dirs = upward_path("/home/user", "/home/user");
    assert_eq!(dirs, vec!["/home/user".to_string()]);
}

#[test]
fn marker_names_are_stripped() {
    assert_eq!(marker_window_name(".a.borrow"), Some("a".to_string()));
    assert_eq!(
        marker_window_name(".deploy scripts.borrow"),
        Some("deploy scripts".to_string())
    );
    assert_eq!(marker_window_name("a.borrow"), None);
    assert_eq!(marker_window_name(".a.txt"), None);
    assert_eq!(marker_window_name(".borrow"), None);
    assert_eq!(marker_window_name("notes"), None);
}

#[test]
fn discovery_scans_only_the_upward_path() {
    // the tree /home/user/proj/{.a.borrow, sub/.b.borrow}, scanned from
    // /home/user/proj/sub up to /home/user: sub's listing first, then proj's,
    // then the boundary's.
    let listings = vec![
        vec![".b.borrow".to_string()],
        vec![".a.borrow".to_string(), "README".to_string(), "sub".to_string()],
        vec![],
    ];
    let hits = discover_markers(&listings);
    assert_eq!(hits.len(), 2);
    assert_eq!((hits[0].dir, hits[0].file, hits[0].name.as_str()), (0, 0, "b"));
    assert_eq!((hits[1].dir, hits[1].file, hits[1].name.as_str()), (1, 0, "a"));

    // scanned from /home/user/proj instead, sub is never revisited, so the
    // window b is not found.
    let listings_from_proj = vec![
        vec![".a.borrow".to_string(), "README".to_string(), "sub".to_string()],
        vec![],
    ];
    let hits = discover_markers(&listings_from_proj);
    assert_eq!(hits.len(), 1);
    assert_eq!(hits[0].name.as_str(), "a");
}

#[test]
fn windows_are_assembled_from_marker_lines() {
    let lines = vec!["cargo test".to_string(), "cargo build".to_string()];
    let w = Window::from_lines(
        "proj".to_string(),
        lines,
        Some("/home/user/proj/.proj.borrow".to_string()),
    );
    assert_eq!(w.name, "proj");
    assert_eq!(w.selected, 0);
    assert_eq!(w.commands.len(), 2);
    assert_eq!(w.commands[0].text, "cargo test");
    assert_eq!(w.commands[1].text, "cargo build");
    assert!(w.commands.iter().all(|c| c.meta.is_none()));

    let mut ws = Windows::new();
    assert!(ws.is_empty());
    ws.push(w);
    assert_eq!(ws.len(), 1);
    assert_eq!(ws.get(0).unwrap().name, "proj");
    assert_eq!(ws.get(1).unwrap_err(), RangeError::BadIndex { index: 1, len: 1 });
}

#[test]
fn default_config_points_at_the_recent_command_file() {
    let config = peek::config::Config::default();
    assert_eq!(config.command_history_path, "../Recent_command.txt");
}
