use rift_bus::fs_events::{
    compile_globs, dispatch_fs_event, normalize_path, relative_path, should_publish, FsEvent, IgnoreGlobs,
    WatchEvent, WatchKind,
};

fn make_globset(patterns: &[&str]) -> IgnoreGlobs {
    let strs: Vec<String> = patterns.iter().map(|s| s.to_string()).collect();
    compile_globs(&strs).expect("test globs compile")
}

#[test]
fn should_publish_filters_globs() {
    let globs = make_globset(&[".git/**", "target/**"]);
    assert!(!should_publish(".git/HEAD", &globs), ".git/HEAD should be filtered");
    assert!(!should_publish("target/debug/foo", &globs), "target/debug/foo should be filtered");
    assert!(should_publish("src/lib.rs", &globs), "src/lib.rs should pass through");
}

#[test]
fn path_normalize_windows() {
    assert_eq!(normalize_path(r"src\lib.rs"), "src/lib.rs");
    assert_eq!(normalize_path("src/lib.rs"), "src/lib.rs");
    assert_eq!(normalize_path(r"a\b\c.txt"), "a/b/c.txt");
}

#[test]
fn relative_path_strips_and_normalizes() {
    assert_eq!(relative_path("/proj/root", "/proj/root/src/lib.rs").as_deref(), Some("src/lib.rs"), "unix-style strip_prefix");
    assert!(relative_path("/proj/root", "/elsewhere/file.rs").is_none(), "outside-root path returns None");
}

#[test]
fn relative_path_works_on_whole_components() {
    assert!(relative_path("/proj/ro", "/proj/root/a").is_none());
    assert_eq!(relative_path("/proj/root/", "/proj/root//a/b").as_deref(), Some("a/b"));
    assert_eq!(relative_path("/proj/root", "/proj/root").as_deref(), Some(""));
}

#[test]
fn invalid_glob_is_reported() {
    let pats = vec!["ok/**".to_string(), "a[".to_string()];
    match compile_globs(&pats) {
        Err(e) => assert_eq!(e.pattern, "a["),
        Ok(_) => panic!("unclosed class must be refused"),
    }
}

fn ev(kind: WatchKind, paths: &[&str]) -> WatchEvent {
    WatchEvent { kind, paths: paths.iter().map(|s| s.to_string()).collect() }
}

#[test]
fn dispatch_maps_kinds_and_filters() {
    let globs = make_globset(&["target/**"]);
    let out = dispatch_fs_event("/r", &globs, &ev(WatchKind::Create, &["/r/a.rs", "/x/b.rs", "/r/target/c"]));
    assert_eq!(out.len(), 1);
    assert!(matches!(&out[0], FsEvent::Create { path } if path == "a.rs"));

    let out = dispatch_fs_event("/r", &globs, &ev(WatchKind::RenameBoth, &["/r/old.rs", "/r/new.rs"]));
    assert!(matches!(&out[0], FsEvent::Rename { from, to } if from == "old.rs" && to == "new.rs"));

    let out = dispatch_fs_event("/r", &globs, &ev(WatchKind::RenameBoth, &["/r/old.rs", "/r/target/x"]));
    assert!(out.is_empty());

    let out = dispatch_fs_event("/r", &globs, &ev(WatchKind::RenameOther, &["/r/gone.rs"]));
    assert!(matches!(&out[0], FsEvent::Delete { path } if path == "gone.rs"));

    let out = dispatch_fs_event("/r", &globs, &ev(WatchKind::Modify, &["/r/m.rs"]));
    assert!(matches!(&out[0], FsEvent::Write { path } if path == "m.rs"));

    assert!(dispatch_fs_event("/r", &globs, &ev(WatchKind::Other, &["/r/m.rs"])).is_empty());
}
