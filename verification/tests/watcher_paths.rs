use std::path::{Path, PathBuf};

use rewatch::paths::{is_trigger, resolve_abs};
use rewatch::watcher::{collect_explicit_files, EventFilter};

#[test]
fn no_trigger_configured() {
    let mut canonical: Option<String> = None;
    assert!(!is_trigger("/any/path", &mut canonical, &None));
}

#[test]
fn fallback_matches_absolute_paths() {
    let mut canonical: Option<String> = None;
    let trigger_raw = Some("/project/.rewatch-trigger".to_string());
    assert!(is_trigger("/project/.rewatch-trigger", &mut canonical, &trigger_raw));
}

#[test]
fn fallback_rejects_relative_vs_absolute() {
    let mut canonical: Option<String> = None;
    // A relative trigger path does not match an absolute event path.
    let trigger_raw = Some(".rewatch-trigger".to_string());
    assert!(!is_trigger("/project/.rewatch-trigger", &mut canonical, &trigger_raw));
}

#[test]
fn fallback_rejects_different_paths() {
    let mut canonical: Option<String> = None;
    let trigger_raw = Some("/project/.rewatch-trigger".to_string());
    assert!(!is_trigger("/project/src/main.rs", &mut canonical, &trigger_raw));
}

#[test]
fn resolve_abs_keeps_absolute_unchanged() {
    let abs = "/abs/path";
    assert_eq!(PathBuf::from(resolve_abs(abs, Some("/cwd"))), PathBuf::from(abs));
}

#[test]
fn resolve_abs_joins_relative_with_cwd() {
    let cwd = Path::new("/cwd");
    assert_eq!(PathBuf::from(resolve_abs("file", Some("/cwd"))), cwd.join("file"));
}

#[test]
fn resolve_abs_returns_relative_unchanged_without_cwd() {
    assert_eq!(PathBuf::from(resolve_abs("file", None)), PathBuf::from("file"));
}

#[test]
fn explicit_files_skips_directories() {
    // "." is always a directory
    let set = collect_explicit_files(&vec![".".to_string()], None);
    assert!(set.is_empty());
}

#[test]
fn explicit_files_includes_nonexistent_as_absolute() {
    let cwd = Path::new("/proj");
    let set = collect_explicit_files(&vec![".env".to_string()], Some("/proj"));
    // canonicalize fails for a nonexistent file, but the absolute form must still be present
    assert!(set.contains(cwd.join(".env").to_str().unwrap()));
}


#[test]
fn explicit_files_includes_existing_in_canonical_form() {
    // src/lib.rs exists in the crate root while the tests run.
    let set = collect_explicit_files(&vec!["src/lib.rs".to_string()], None);
    let canonical = Path::new("src/lib.rs").canonicalize().unwrap();
    assert!(set.contains(canonical.to_str().unwrap()));
}

#[test]
fn resolving_again_against_an_absolute_cwd_changes_nothing() {
    let once = resolve_abs("src/main.rs", Some("/proj"));
    assert_eq!(once, "/proj/src/main.rs");
    assert_eq!(resolve_abs(&once, Some("/proj")), once);
    let once = resolve_abs("src/main.rs", None);
    assert_eq!(resolve_abs(&once, None), "src/main.rs");
}

#[test]
fn event_filter_resolves_targets_and_asks_their_canonical_forms() {
    let f = EventFilter::new(&vec![], &vec!["rs".to_string()], Some("no-such-trigger"), Some("src/lib.rs"), Some("/work"));
    assert_eq!(f.extensions, vec!["rs".to_string()]);
    assert!(f.explicit_files.is_empty());
    assert_eq!(f.trigger_raw, Some("/work/no-such-trigger".to_string()));
    assert_eq!(f.trigger_canonical, None);
    assert_eq!(f.config_raw, Some("/work/src/lib.rs".to_string()));
    let canonical = Path::new("src/lib.rs").canonicalize().unwrap();
    assert_eq!(f.config_canonical, Some(canonical.to_string_lossy().into_owned()));
}

#[test]
fn trigger_cache_filled_with_canonical_form_on_first_success() {
    let canonical = Path::new("src/lib.rs").canonicalize().unwrap().to_string_lossy().into_owned();
    let mut cache: Option<String> = None;
    assert!(is_trigger("src/lib.rs", &mut cache, &Some("src/./lib.rs".to_string())));
    assert_eq!(cache, Some(canonical));
    let mut cache: Option<String> = None;
    assert!(!is_trigger("src/lib.rs", &mut cache, &Some("src/missing.rs".to_string())));
    assert_eq!(cache, None);
}
