use ducd::error::Error;
use ducd::path::FsPath;
use ducd::varlink::VarlinkServer;
use ducd::watcher::{FsEvent, Watcher};

fn p(text: &str) -> FsPath {
    let absolute = text.starts_with('/');
    let comps: Vec<String> = text
        .split('/')
        .filter(|c| !c.is_empty())
        .map(|c| c.to_string())
        .collect();
    FsPath::new(absolute, comps)
}

fn sorted(mut v: Vec<(String, i64)>) -> Vec<(String, i64)> {
    v.sort();
    v
}

#[test]
fn path_text_and_comparison() {
    let root = FsPath::root();
    assert_eq!(root.to_text(), "/");
    let a = root.child("data").child("a");
    assert_eq!(a.to_text(), "/data/a");
    assert!(a.same_as(&p("/data/a")));
    assert!(!a.same_as(&p("data/a")));
    assert!(!a.same_as(&p("/data/b")));
    assert!(p("/data").is_strict_ancestor_of(&a));
    assert!(root.is_strict_ancestor_of(&a));
    assert!(!a.is_strict_ancestor_of(&a));
    assert!(!p("/dat").is_strict_ancestor_of(&a));
    assert_eq!(p("x/y").to_text(), "x/y");
    assert_eq!(p("x").copy_path().to_text(), "x");
}

#[test]
fn watch_twice_fails_already_watched() {
    let mut w = Watcher::new();
    assert_eq!(w.watch(&p("/data")), Ok(()));
    assert_eq!(w.watch(&p("/data")), Err(Error::AlreadyWatched));
    assert_eq!(w.watch(&p("/data/sub")), Ok(()));
}

#[test]
fn unwatch_of_non_root_fails_not_watched() {
    let mut w = Watcher::new();
    assert_eq!(w.unwatch(&p("/data")), Err(Error::NotWatched));
    assert_eq!(w.watch(&p("/data")), Ok(()));
    assert_eq!(w.unwatch(&p("/data/sub")), Err(Error::NotWatched));
    assert_eq!(w.unwatch(&p("/data")), Ok(()));
    assert!(!w.is_watched(&p("/data")));
    assert_eq!(w.unwatch(&p("/data")), Err(Error::NotWatched));
}

#[test]
fn is_watched_covers_root_and_descendants_only() {
    let mut w = Watcher::new();
    w.watch(&p("/data")).unwrap();
    assert!(w.is_watched(&p("/data")));
    assert!(w.is_watched(&p("/data/a")));
    assert!(w.is_watched(&p("/data/sub/deep/file")));
    assert!(!w.is_watched(&p("/")));
    assert!(!w.is_watched(&p("/other")));
    assert!(!w.is_watched(&p("/database")));
    assert!(!w.is_watched(&p("data")));
}

#[test]
fn watching_the_filesystem_root_covers_everything_absolute() {
    let mut w = Watcher::new();
    w.watch(&FsPath::root()).unwrap();
    assert!(w.is_watched(&p("/")));
    assert!(w.is_watched(&p("/etc/x")));
}

#[test]
fn created_file_is_recorded_and_added_to_cached_root() {
    let mut w = Watcher::new();
    w.watch(&p("/data")).unwrap();
    w.update_cache(&p("/data"), 1000);
    w.handle_event(FsEvent::Created(p("/data/a"), 100));
    assert_eq!(w.cache().get(&p("/data/a")), Some(100));
    assert_eq!(w.cache().get(&p("/data")), Some(1100));
}

#[test]
fn created_file_under_uncached_root() {
    let mut w = Watcher::new();
    w.watch(&p("/data")).unwrap();
    w.handle_event(FsEvent::Created(p("/data/a"), 100));
    assert_eq!(w.cache().get(&p("/data/a")), Some(100));
    assert_eq!(w.cache().get(&p("/data")), None);
}

#[test]
fn written_and_removed_events() {
    let mut w = Watcher::new();
    w.update_cache(&p("/data"), 1000);
    w.handle_event(FsEvent::Written(p("/data/a"), 100));
    w.handle_event(FsEvent::Written(p("/data/a"), 40));
    assert_eq!(w.cache().get(&p("/data")), Some(1040));
    w.handle_event(FsEvent::Removed(p("/data/a")));
    assert_eq!(w.cache().get(&p("/data/a")), None);
    assert_eq!(w.cache().get(&p("/data")), Some(1000));
}

#[test]
fn metadata_and_error_events_change_nothing() {
    let mut w = Watcher::new();
    w.update_cache(&p("/data"), 1000);
    w.handle_event(FsEvent::MetadataChanged(p("/data")));
    w.handle_event(FsEvent::Failed);
    assert_eq!(w.cache().to_string_map(), vec![("/data".to_string(), 1000)]);
}

#[test]
fn rename_moves_the_entry() {
    let mut w = Watcher::new();
    w.watch(&p("/data")).unwrap();
    w.handle_event(FsEvent::Created(p("/data/a"), 100));
    w.handle_event(FsEvent::Renamed(p("/data/a"), p("/data/b"), Some(120)));
    assert_eq!(
        w.cache().to_string_map(),
        vec![("/data/b".to_string(), 120)]
    );
}

#[test]
fn rename_with_failed_probe_only_removes() {
    let mut w = Watcher::new();
    w.handle_event(FsEvent::Created(p("/data/a"), 100));
    w.handle_event(FsEvent::Renamed(p("/data/a"), p("/data/b"), None));
    assert!(w.cache().to_string_map().is_empty());
}

#[test]
fn rescan_clears_entries_of_every_root() {
    let mut w = Watcher::new();
    w.watch(&p("/data")).unwrap();
    w.watch(&p("/other")).unwrap();
    w.handle_event(FsEvent::Created(p("/data/a"), 100));
    w.handle_event(FsEvent::Created(p("/other/z"), 5));
    w.update_cache(&p("/other"), 55);
    w.handle_event(FsEvent::Rescan);
    assert!(w.cache().to_string_map().is_empty());
    assert!(w.is_watched(&p("/data/a")));
    assert!(w.is_watched(&p("/other")));
}

#[test]
fn start_watching_covered_path_fails_already_watched() {
    let mut s = VarlinkServer::new(Watcher::new());
    assert_eq!(s.start_watching(&p("/data")), Ok(()));
    assert_eq!(s.start_watching(&p("/data")), Err(Error::AlreadyWatched));
    assert_eq!(s.start_watching(&p("/data/sub")), Err(Error::AlreadyWatched));
    assert_eq!(s.start_watching(&p("/other")), Ok(()));
}

#[test]
fn stop_watching_never_watched_fails_not_watched() {
    let mut s = VarlinkServer::new(Watcher::new());
    assert_eq!(s.stop_watching(&p("/data")), Err(Error::NotWatched));
    s.start_watching(&p("/data")).unwrap();
    assert_eq!(s.stop_watching(&p("/data/sub")), Err(Error::NotWatched));
    assert_eq!(s.stop_watching(&p("/data")), Ok(()));
    assert!(!s.watcher().is_watched(&p("/data/sub")));
}

#[test]
fn query_of_covered_path_adds_no_watch() {
    let mut s = VarlinkServer::new(Watcher::new());
    s.start_watching(&p("/data")).unwrap();
    assert_eq!(s.get_space_usage(&p("/data/sub"), 4096), 4096);
    // no root was added for the queried path
    assert_eq!(s.stop_watching(&p("/data/sub")), Err(Error::NotWatched));
    assert_eq!(s.stop_watching(&p("/data")), Ok(()));
    assert!(!s.watcher().is_watched(&p("/data/sub")));
}

#[test]
fn query_of_uncovered_path_watches_it() {
    let mut s = VarlinkServer::new(Watcher::new());
    assert!(!s.watcher().is_watched(&p("/srv")));
    assert_eq!(s.get_space_usage(&p("/srv"), 300), 300);
    assert!(s.watcher().is_watched(&p("/srv/x")));
    assert_eq!(s.start_watching(&p("/srv")), Err(Error::AlreadyWatched));
    assert_eq!(s.get_space_usage(&p("/srv"), 1), 300);
}

#[test]
fn listing_after_rename_has_only_new_name() {
    let mut s = VarlinkServer::new(Watcher::new());
    s.start_watching(&p("/data")).unwrap();
    s.handle_event(FsEvent::Created(p("/data/a"), 100));
    s.handle_event(FsEvent::Renamed(p("/data/a"), p("/data/b"), Some(100)));
    assert_eq!(
        s.list_cache_entries(),
        vec![("/data/b".to_string(), 100)]
    );
}

#[test]
fn rescan_on_one_root_clears_cache_of_all_roots() {
    let mut s = VarlinkServer::new(Watcher::new());
    s.start_watching(&p("/data")).unwrap();
    s.start_watching(&p("/other")).unwrap();
    s.get_space_usage(&p("/data"), 10);
    s.get_space_usage(&p("/other/x"), 20);
    assert_eq!(
        sorted(s.list_cache_entries()),
        vec![("/data".to_string(), 10), ("/other/x".to_string(), 20)]
    );
    s.handle_event(FsEvent::Rescan);
    assert!(s.list_cache_entries().is_empty());
}

#[test]
fn invalidate_cache_clears_and_keeps_roots() {
    let mut s = VarlinkServer::new(Watcher::new());
    s.get_space_usage(&p("/data"), 10);
    s.invalidate_cache();
    assert!(s.list_cache_entries().is_empty());
    assert!(s.watcher().is_watched(&p("/data")));
    assert_eq!(s.get_space_usage(&p("/data"), 11), 11);
}
