use rewatch::paths::{is_path_match, is_trigger, relative, resolve_abs};
use rewatch::watcher::{
    explicit_files_from, ChangeKind, DrainResult, EventFilter, ExplicitFiles, ObservedPath, WatchEvent,
};

fn s(x: &str) -> String {
    x.to_string()
}

fn filter(exts: &[&str], explicit: &[&str]) -> EventFilter {
    EventFilter {
        extensions: exts.iter().map(|e| e.to_string()).collect(),
        explicit_files: ExplicitFiles { paths: explicit.iter().map(|e| e.to_string()).collect() },
        trigger_raw: Some(s("/nonexistent-project/.rewatch-trigger")),
        trigger_canonical: None,
        config_raw: Some(s("/nonexistent-project/rewatch.toml")),
        config_canonical: None,
    }
}

fn describe(events: &[WatchEvent]) -> Vec<String> {
    events
        .iter()
        .map(|e| match e {
            WatchEvent::FileChanged(p, k) => format!("{}{}", k.symbol(), p),
            WatchEvent::Trigger => s("trigger"),
            WatchEvent::ConfigChanged => s("config"),
        })
        .collect()
}

#[test]
fn change_symbols() {
    assert_eq!(ChangeKind::Created.symbol(), '+');
    assert_eq!(ChangeKind::Modified.symbol(), '~');
    assert_eq!(ChangeKind::Removed.symbol(), '-');
}

#[test]
fn extension_filter_and_explicit_files() {
    let mut f = filter(&["rs"], &["/nonexistent-project/.env"]);
    let paths = vec![
        s("/nonexistent-project/src/main.rs"),
        s("/nonexistent-project/notes.txt"),
        s("/nonexistent-project/.env"),
    ];
    let out = f.classify(ChangeKind::Modified, &paths);
    assert_eq!(describe(&out), vec![s("~/nonexistent-project/src/main.rs"), s("~/nonexistent-project/.env")]);
}

#[test]
fn empty_extension_filter_accepts_everything() {
    let mut f = filter(&[], &[]);
    let paths = vec![s("/nonexistent-project/a.txt"), s("/nonexistent-project/Makefile")];
    let out = f.classify(ChangeKind::Created, &paths);
    assert_eq!(describe(&out), vec![s("+/nonexistent-project/a.txt"), s("+/nonexistent-project/Makefile")]);
}

#[test]
fn trigger_ends_the_event() {
    let mut f = filter(&["rs"], &[]);
    let paths = vec![
        s("/nonexistent-project/a.rs"),
        s("/nonexistent-project/.rewatch-trigger"),
        s("/nonexistent-project/b.rs"),
    ];
    let out = f.classify(ChangeKind::Modified, &paths);
    assert_eq!(describe(&out), vec![s("~/nonexistent-project/a.rs"), s("trigger")]);
}

#[test]
fn config_change_does_not_drop_other_paths() {
    let mut f = filter(&["rs"], &[]);
    let paths = vec![s("/nonexistent-project/rewatch.toml"), s("/nonexistent-project/src/lib.rs")];
    let out = f.classify(ChangeKind::Modified, &paths);
    assert_eq!(describe(&out), vec![s("config"), s("~/nonexistent-project/src/lib.rs")]);
}

#[test]
fn drain_keeps_latest_kind_per_file() {
    let events = vec![
        WatchEvent::FileChanged(s("a.rs"), ChangeKind::Created),
        WatchEvent::FileChanged(s("b.rs"), ChangeKind::Modified),
        WatchEvent::FileChanged(s("a.rs"), ChangeKind::Removed),
    ];
    let d = DrainResult::from_events(&events);
    assert_eq!(d.files, vec![(s("a.rs"), ChangeKind::Removed), (s("b.rs"), ChangeKind::Modified)]);
    assert!(!d.triggered);
    assert!(!d.config_changed);
}

#[test]
fn drain_treats_equal_paths_as_one_file() {
    let events = vec![
        WatchEvent::FileChanged(s("/w/a.rs"), ChangeKind::Created),
        WatchEvent::FileChanged(s("/w/b.rs"), ChangeKind::Modified),
        WatchEvent::FileChanged(s("/w//a.rs"), ChangeKind::Modified),
        WatchEvent::FileChanged(s("/w/./b.rs/"), ChangeKind::Removed),
    ];
    let d = DrainResult::from_events(&events);
    assert_eq!(d.files, vec![(s("/w/a.rs"), ChangeKind::Modified), (s("/w/b.rs"), ChangeKind::Removed)]);
}

#[test]
fn drain_notes_trigger_and_config() {
    let events = vec![WatchEvent::Trigger, WatchEvent::ConfigChanged];
    let d = DrainResult::from_events(&events);
    assert!(d.files.is_empty());
    assert!(d.triggered);
    assert!(d.config_changed);
}

#[test]
fn explicit_files_from_observations() {
    let observed = vec![
        ObservedPath { path: s("src"), is_dir: true, canonical: Some(s("/real/src")) },
        ObservedPath { path: s(".env"), is_dir: false, canonical: Some(s("/real/.env")) },
        ObservedPath { path: s("/abs/x.toml"), is_dir: false, canonical: None },
    ];
    let set = explicit_files_from(&observed, Some("/work"));
    assert_eq!(set.paths, vec![s("/real/.env"), s("/work/.env"), s("/abs/x.toml")]);
    assert!(set.contains("/work//.env"));
    assert!(!set.contains("/work/src"));
}

#[test]
fn path_match_prefers_canonical_forms() {
    assert!(!is_path_match("/a", None, None, None));
    assert!(is_path_match("/p/t", Some("/real/t"), Some("t"), Some("/real/t")));
    assert!(!is_path_match("/p/t", Some("/real/u"), Some("/p/t"), Some("/real/t")));
    assert!(is_path_match("/p//t", None, Some("/p/t"), Some("/real/t")));
    assert!(!is_path_match("t", None, Some("/p/t"), None));
}

#[test]
fn relative_strips_the_working_directory() {
    assert_eq!(relative("/cwd/src/main.rs", Some("/cwd")), "src/main.rs");
    assert_eq!(relative("/other/main.rs", Some("/cwd")), "/other/main.rs");
    assert_eq!(relative("/cwd/src/main.rs", None), "/cwd/src/main.rs");
}

#[test]
fn trigger_canonical_form_is_cached() {
    let mut cache: Option<String> = None;
    assert!(is_trigger("//", &mut cache, &Some(s("/"))));
    assert_eq!(cache, Some(s("/")));
    let mut cache = Some(s("/elsewhere"));
    assert!(!is_trigger("/", &mut cache, &Some(s("/"))));
    assert_eq!(cache, Some(s("/elsewhere")));
}

#[test]
fn resolving_twice_changes_nothing() {
    let once = resolve_abs("src/main.rs", Some("/work/"));
    assert_eq!(once, "/work/src/main.rs");
    assert_eq!(resolve_abs(&once, Some("/work/")), once);
    assert_eq!(resolve_abs("", Some("/work")), "/work/");
}
