use rewatch::config::{absent_config_file, config_candidate, content_hash, CliArgs, Config, FileConfig, LoadedFile};

fn s(x: &str) -> String {
    x.to_string()
}

fn strings(v: &[&str]) -> Vec<String> {
    v.iter().map(|x| x.to_string()).collect()
}

fn cli() -> CliArgs {
    CliArgs {
        watch: vec![],
        ext: vec![],
        trigger: None,
        trigger_always: false,
        env: vec![],
        config: None,
        command: vec![],
    }
}

fn file_config() -> FileConfig {
    FileConfig { command: None, watch: None, ext: None, trigger: None, trigger_always: None, env: None }
}

fn loaded(config: FileConfig) -> Option<LoadedFile> {
    Some(LoadedFile { path: s("rewatch.toml"), config, hash: 7 })
}

fn env_value(c: &Config, key: &str) -> Option<String> {
    c.env.pairs().iter().find(|(k, _)| k == key).map(|(_, v)| v.clone())
}

#[test]
fn cli_only_config() {
    let mut a = cli();
    a.watch = strings(&["src", "Cargo.toml"]);
    a.ext = strings(&[".rs", "toml"]);
    a.command = strings(&["cargo", "run"]);
    let c = Config::resolve(a, None).expect("valid");
    assert_eq!(c.command, strings(&["cargo", "run"]));
    assert_eq!(c.watch, strings(&["src", "Cargo.toml"]));
    assert_eq!(c.ext, strings(&["rs", "toml"]));
    assert_eq!(c.trigger, None);
    assert!(!c.trigger_always);
    assert_eq!(c.config_path, None);
    assert_eq!(c.config_hash, None);
    assert!(c.env.pairs().is_empty());
}

#[test]
fn file_command_is_split_like_a_shell() {
    let mut f = file_config();
    f.command = Some(s("cargo run --release -- 'a b'"));
    f.watch = Some(strings(&["src"]));
    let c = Config::resolve(cli(), loaded(f)).expect("valid");
    assert_eq!(c.command, strings(&["cargo", "run", "--release", "--", "a b"]));
    assert_eq!(c.config_path, Some(s("rewatch.toml")));
    assert_eq!(c.config_hash, Some(7));
}

#[test]
fn cli_overrides_file() {
    let mut f = file_config();
    f.command = Some(s("cargo test"));
    f.watch = Some(strings(&["tests"]));
    f.ext = Some(strings(&["toml"]));
    f.trigger = Some(s(".file-trigger"));
    f.trigger_always = Some(false);
    let mut a = cli();
    a.command = strings(&["cargo", "run"]);
    a.watch = strings(&["src"]);
    a.ext = strings(&["rs"]);
    a.trigger = Some(s(".cli-trigger"));
    a.trigger_always = true;
    let c = Config::resolve(a, loaded(f)).expect("valid");
    assert_eq!(c.command, strings(&["cargo", "run"]));
    assert_eq!(c.watch, strings(&["src"]));
    assert_eq!(c.ext, strings(&["rs"]));
    assert_eq!(c.trigger, Some(s(".cli-trigger")));
    assert!(c.trigger_always);
}

#[test]
fn file_fills_what_the_cli_leaves_out() {
    let mut f = file_config();
    f.command = Some(s("cargo run"));
    f.watch = Some(strings(&["src"]));
    f.ext = Some(strings(&[".rs"]));
    f.trigger = Some(s(".rewatch-trigger"));
    f.trigger_always = Some(true);
    let c = Config::resolve(cli(), loaded(f)).expect("valid");
    assert_eq!(c.ext, strings(&["rs"]));
    assert_eq!(c.trigger, Some(s(".rewatch-trigger")));
    assert!(c.trigger_always);
}

#[test]
fn env_cli_overrides_toml() {
    let mut f = file_config();
    f.command = Some(s("run"));
    f.watch = Some(strings(&["src"]));
    f.env = Some(vec![(s("RUST_LOG"), s("debug")), (s("MODE"), s("toml"))]);
    let mut a = cli();
    a.env = strings(&["MODE=cli", "EXTRA=a=b", "MODE=last"]);
    let c = Config::resolve(a, loaded(f)).expect("valid");
    assert_eq!(env_value(&c, "RUST_LOG"), Some(s("debug")));
    assert_eq!(env_value(&c, "MODE"), Some(s("last")));
    assert_eq!(env_value(&c, "EXTRA"), Some(s("a=b")));
    assert_eq!(c.env.pairs().len(), 3);
}

#[test]
fn error_no_command_without_file() {
    let mut a = cli();
    a.watch = strings(&["src"]);
    match Config::resolve(a, None) {
        Err(e) => assert_eq!(e, "No command specified. Use -- <command> or set 'command' in rewatch.toml"),
        Ok(_) => panic!("expected an error"),
    }
}

#[test]
fn error_no_command_in_file_names_the_file() {
    let mut f = file_config();
    f.watch = Some(strings(&["src"]));
    let l = Some(LoadedFile { path: s("conf/other.toml"), config: f, hash: 1 });
    match Config::resolve(cli(), l) {
        Err(e) => assert_eq!(e, "No command specified. Use -- <command> or set 'command' in conf/other.toml"),
        Ok(_) => panic!("expected an error"),
    }
}

#[test]
fn error_unclosed_quote() {
    let mut f = file_config();
    f.command = Some(s("echo 'oops"));
    f.watch = Some(strings(&["src"]));
    match Config::resolve(cli(), loaded(f)) {
        Err(e) => assert_eq!(e, "Invalid command in rewatch.toml: unclosed quote in 'echo 'oops'"),
        Ok(_) => panic!("expected an error"),
    }
}

#[test]
fn error_no_watch_paths() {
    let mut a = cli();
    a.command = strings(&["cargo", "run"]);
    match Config::resolve(a, None) {
        Err(e) => assert_eq!(e, "No watch paths specified. Use -w <paths> or set 'watch' in rewatch.toml"),
        Ok(_) => panic!("expected an error"),
    }
}

#[test]
fn error_invalid_env_item() {
    let mut a = cli();
    a.command = strings(&["cargo", "run"]);
    a.watch = strings(&["src"]);
    a.env = strings(&["GOOD=1", "BAD", "ALSO_BAD"]);
    match Config::resolve(a, None) {
        Err(e) => assert_eq!(e, "Invalid env format: 'BAD'. Expected KEY=VALUE"),
        Ok(_) => panic!("expected an error"),
    }
}

#[test]
fn command_error_comes_before_watch_error() {
    match Config::resolve(cli(), None) {
        Err(e) => assert!(e.starts_with("No command specified")),
        Ok(_) => panic!("expected an error"),
    }
}

#[test]
fn extension_dot_is_optional() {
    let mut a = cli();
    a.command = strings(&["x"]);
    a.watch = strings(&["src"]);
    a.ext = strings(&[".rs", "rs", "..rs", ""]);
    let c = Config::resolve(a, None).expect("valid");
    assert_eq!(c.ext, strings(&["rs", "rs", ".rs", ""]));
}

#[test]
fn config_candidate_default_and_explicit() {
    assert_eq!(config_candidate(&cli()), (s("rewatch.toml"), false));
    let mut a = cli();
    a.config = Some(s("custom.toml"));
    assert_eq!(config_candidate(&a), (s("custom.toml"), true));
}

#[test]
fn content_hash_is_fnv1a() {
    assert_eq!(content_hash(""), 0xcbf2_9ce4_8422_2325);
    assert_eq!(content_hash("a"), 0xaf63_dc4c_8601_ec8c);
    assert_eq!(content_hash("foobar"), 0x8594_4171_f739_67e8);
    assert_ne!(content_hash("command = \"a\""), content_hash("command = \"b\""));
}

#[test]
fn absent_config_file_outcomes() {
    assert!(matches!(absent_config_file(&s("rewatch.toml"), false), Ok(None)));
    match absent_config_file(&s("custom.toml"), true) {
        Err(e) => assert_eq!(e, "Config file not found: custom.toml"),
        Ok(_) => panic!("expected an error"),
    }
}
