use mako::watch::{
    classify, entry_watch_mode, filter_ignored, path_is_ignored, str_contains, RawEventKind,
    UpdateType, WatchEvent, WatchMode, WatchSession,
};

#[test]
fn data_modification_yields_exactly_one_modified_record() {
    let paths = vec!["/src/app.js".to_string()];
    match classify(RawEventKind::DataModify, &paths) {
        Some(WatchEvent::Modified(ps)) => assert_eq!(ps, vec!["/src/app.js".to_string()]),
        _ => panic!("expected one Modified record"),
    }
}

#[test]
fn metadata_touch_yields_no_record() {
    let paths = vec!["/src/app.js".to_string()];
    assert!(classify(RawEventKind::MetaModify, &paths).is_none());
}

#[test]
fn creation_alone_yields_no_record() {
    // A creation is always followed by a content modification; only that
    // modification is reported, so the pair yields exactly one record.
    let paths = vec!["/src/new.js".to_string()];
    assert!(classify(RawEventKind::Create, &paths).is_none());
    assert!(classify(RawEventKind::DataModify, &paths).is_some());
}

#[test]
fn access_and_unrecognized_kinds_yield_no_record() {
    let paths = vec!["/src/app.js".to_string()];
    assert!(classify(RawEventKind::Access, &paths).is_none());
    assert!(classify(RawEventKind::Any, &paths).is_none());
    assert!(classify(RawEventKind::Other, &paths).is_none());
}

#[test]
fn removal_yields_a_removed_record() {
    let paths = vec!["/src/app.js".to_string()];
    match classify(RawEventKind::Remove, &paths) {
        Some(WatchEvent::Removed(ps)) => assert_eq!(ps, vec!["/src/app.js".to_string()]),
        _ => panic!("expected one Removed record"),
    }
}

#[test]
fn ignored_paths_never_reach_a_record() {
    let paths = vec![
        "/proj/node_modules/dep/index.js".to_string(),
        "/proj/.git/HEAD".to_string(),
        "/proj/dist/out.js".to_string(),
    ];
    assert!(classify(RawEventKind::DataModify, &paths).is_none());
    let mixed = vec![
        "/proj/node_modules/dep/index.js".to_string(),
        "/proj/src/app.js".to_string(),
    ];
    match classify(RawEventKind::DataModify, &mixed) {
        Some(WatchEvent::Modified(ps)) => assert_eq!(ps, vec!["/proj/src/app.js".to_string()]),
        _ => panic!("expected the admitted path alone"),
    }
}

#[test]
fn ignore_policy_markers() {
    assert!(path_is_ignored("/p/node_modules/x"));
    assert!(path_is_ignored("/p/.git/config"));
    assert!(path_is_ignored("/p/dist"));
    assert!(!path_is_ignored("/p/src/main.js"));
    // The policy is textual: a segment merely containing a marker is excluded.
    assert!(path_is_ignored("/p/distribution"));
}

#[test]
fn substring_search() {
    assert!(str_contains("hello world", "o w"));
    assert!(str_contains("hello", ""));
    assert!(!str_contains("hello", "world"));
    assert!(!str_contains("ab", "abc"));
}

#[test]
fn filtering_keeps_order() {
    let paths = vec![
        "/a.js".to_string(),
        "/p/.git/x".to_string(),
        "/b.js".to_string(),
    ];
    assert_eq!(filter_ignored(&paths), vec!["/a.js".to_string(), "/b.js".to_string()]);
}

#[test]
fn update_pairs_carry_kind_and_paths() {
    let ev = WatchEvent::Modified(vec!["/a.js".to_string(), "/b.js".to_string()]);
    let ups = ev.to_updates();
    assert_eq!(ups.len(), 2);
    assert_eq!(ups[0].0, "/a.js");
    assert!(matches!(ups[0].1, UpdateType::Modify));
    assert_eq!(ups[1].0, "/b.js");
    let ev = WatchEvent::Removed(vec!["/c.js".to_string()]);
    let ups = ev.to_updates();
    assert_eq!(ups.len(), 1);
    assert!(matches!(ups[0].1, UpdateType::Remove));
}

#[test]
fn registration_modes() {
    assert!(matches!(entry_watch_mode("/p/file.js", true), WatchMode::WatchFile));
    assert!(matches!(entry_watch_mode("/p/src", false), WatchMode::WatchRecursive));
    assert!(matches!(entry_watch_mode("/p/node_modules", false), WatchMode::Skip));
    assert!(matches!(entry_watch_mode("/p/.git", false), WatchMode::Skip));
    assert!(matches!(entry_watch_mode("/p/dist", false), WatchMode::Skip));
}

#[test]
fn session_moves_to_watching_once() {
    let mut s = WatchSession::new();
    assert!(!s.is_watching());
    s.start();
    assert!(s.is_watching());
    let fresh = WatchSession::new();
    assert!(!fresh.is_watching());
}
