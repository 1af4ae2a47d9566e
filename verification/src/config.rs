//! The supervisor's configuration: command-line arguments and the
//! configuration file merged into one `Config`.

use vstd::prelude::*;
use vstd::string::*;

use crate::paths::{canonical_answer, canonical_form, is_path_match, opt_as_str, opt_string_view, path_match_spec};
use crate::text::{clone_strings, lemma_strings_view_push, split_first, split_once_char, strings_view, strip_leading, strip_leading_char};

verus! {

/// Command-line arguments.
#[derive(Debug)]
pub struct CliArgs {
    /// Paths to watch.
    pub watch: Vec<String>,
    /// File extensions to filter by.
    pub ext: Vec<String>,
    /// Trigger file: restarts without Enter when it changes.
    pub trigger: Option<String>,
    /// Let the trigger restart even while the command runs.
    pub trigger_always: bool,
    /// Environment variables, each `KEY=VALUE`.
    pub env: Vec<String>,
    /// Path of the configuration file.
    pub config: Option<String>,
    /// The command to run.
    pub command: Vec<String>,
}

/// The contents of the configuration file.
#[derive(Debug)]
pub struct FileConfig {
    pub command: Option<String>,
    pub watch: Option<Vec<String>>,
    pub ext: Option<Vec<String>>,
    pub trigger: Option<String>,
    pub trigger_always: Option<bool>,
    pub env: Option<Vec<(String, String)>>,
}

/// A configuration file that was found and parsed.
#[derive(Debug)]
pub struct LoadedFile {
    /// Where it was found.
    pub path: String,
    /// What it says.
    pub config: FileConfig,
    /// The hash of its text (`content_hash`).
    pub hash: u64,
}

/// Pairs of strings as pairs of character sequences.
pub open spec fn pairs_view(v: Seq<(String, String)>) -> Seq<(Seq<char>, Seq<char>)> {
    v.map_values(|e: (String, String)| (e.0@, e.1@))
}

/// The map that inserting `pairs` in order into an empty map gives.
pub open spec fn pairs_map(pairs: Seq<(Seq<char>, Seq<char>)>) -> Map<Seq<char>, Seq<char>>
    decreases pairs.len(),
{
    if pairs.len() == 0 {
        Map::empty()
    } else {
        pairs_map(pairs.drop_last()).insert(pairs.last().0, pairs.last().1)
    }
}

/// Whether no key occurs twice in `pairs`.
pub open spec fn distinct_keys(pairs: Seq<(Seq<char>, Seq<char>)>) -> bool {
    forall|a: int, b: int| 0 <= a < b < pairs.len() ==> pairs[a].0 != pairs[b].0
}

proof fn lemma_pairs_map_update(pairs: Seq<(Seq<char>, Seq<char>)>, j: int, v: Seq<char>)
    requires
        distinct_keys(pairs),
        0 <= j < pairs.len(),
    ensures
        pairs_map(pairs.update(j, (pairs[j].0, v))) == pairs_map(pairs).insert(pairs[j].0, v),
    decreases pairs.len(),
{
    let k = pairs[j].0;
    let up = pairs.update(j, (k, v));
    let n = pairs.len() - 1;
    if j == n {
        assert(up.drop_last() =~= pairs.drop_last());
        assert(pairs_map(up) =~= pairs_map(pairs).insert(k, v));
    } else {
        assert(up.drop_last() =~= pairs.drop_last().update(j, (k, v)));
        lemma_pairs_map_update(pairs.drop_last(), j, v);
        assert(pairs[n].0 != k);
        assert(pairs_map(up) =~= pairs_map(pairs).insert(k, v));
    }
}

/// Environment variables: a map from names to values, kept as a list of
/// pairs with distinct names.
#[derive(Debug)]
pub struct EnvVars {
    entries: Vec<(String, String)>,
}

impl View for EnvVars {
    type V = Map<Seq<char>, Seq<char>>;

    closed spec fn view(&self) -> Map<Seq<char>, Seq<char>> {
        pairs_map(pairs_view(self.entries@))
    }
}

impl EnvVars {
    #[verifier::type_invariant]
    closed spec fn inv(self) -> bool {
        distinct_keys(pairs_view(self.entries@))
    }

    /// No variables.
    pub fn new() -> (r: EnvVars)
        ensures
            r@ == Map::<Seq<char>, Seq<char>>::empty(),
    {
        let r = EnvVars { entries: Vec::new() };
        assert(pairs_view(r.entries@) =~= Seq::empty());
        r
    }

    /// Sets `key` to `value`, replacing an earlier value.
    pub fn insert(&mut self, key: String, value: String)
        ensures
            final(self)@ == old(self)@.insert(key@, value@),
    {
        proof { use_type_invariant(&*self); }
        let ghost prev = pairs_view(self.entries@);
        let n = self.entries.len();
        let mut j: usize = 0;
        while j < n && self.entries[j].0 != key
            invariant
                n == self.entries@.len(),
                j <= n,
                pairs_view(self.entries@) == prev,
                forall|a: int| 0 <= a < j ==> self.entries@[a].0@ != key@,
            decreases n - j,
        {
            j = j + 1;
        }
        let mut entries = Vec::new();
        std::mem::swap(&mut entries, &mut self.entries);
        if j < n {
            entries.set(j, (key, value));
            proof {
                assert(prev[j as int].0 == key@);
                assert(pairs_view(entries@) =~= prev.update(j as int, (prev[j as int].0, value@)));
                lemma_pairs_map_update(prev, j as int, value@);
            }
        } else {
            entries.push((key, value));
            proof {
                assert(pairs_view(entries@) =~= prev.push((key@, value@)));
                assert(pairs_view(entries@).drop_last() =~= prev);
            }
        }
        self.entries = entries;
    }

    /// The variables as name-value pairs, each name once.
    pub fn pairs(&self) -> (r: &Vec<(String, String)>)
        ensures
            distinct_keys(pairs_view(r@)),
            pairs_map(pairs_view(r@)) == self@,
    {
        proof { use_type_invariant(self); }
        &self.entries
    }
}


/// The words of `s` split as a POSIX shell would (`shlex::split`), or
/// `None` on an unclosed quote or a trailing escape.
pub uninterp spec fn shell_words(s: Seq<char>) -> Option<Seq<Seq<char>>>;

/// Calls `shlex::split`; the result is named `shell_words`.
#[verifier::external_body]
fn split_shell_words(s: &str) -> (r: Option<Vec<String>>)
    ensures
        match r {
            Some(v) => shell_words(s@) == Some(strings_view(v@)),
            None => shell_words(s@) is None,
        },
{
    shlex::split(s)
}

/// The resolved configuration.
#[derive(Debug)]
pub struct Config {
    pub command: Vec<String>,
    pub watch: Vec<String>,
    pub ext: Vec<String>,
    pub trigger: Option<String>,
    pub trigger_always: bool,
    pub env: EnvVars,
    /// Path of the configuration file that was loaded; `None` when no
    /// `--config` was given and the default file was not present.
    pub config_path: Option<String>,
    /// Hash of the loaded configuration file's text.
    pub config_hash: Option<u64>,
}

/// How messages name the configuration source.
pub open spec fn source_label(loaded: Option<LoadedFile>) -> Seq<char> {
    match loaded {
        Some(f) => f.path@,
        None => "rewatch.toml"@,
    }
}

pub open spec fn no_command_message(label: Seq<char>) -> Seq<char> {
    "No command specified. Use -- <command> or set 'command' in "@ + label
}

pub open spec fn unclosed_quote_message(label: Seq<char>, cmd: Seq<char>) -> Seq<char> {
    "Invalid command in "@ + label + ": unclosed quote in '"@ + cmd + "'"@
}

pub open spec fn no_watch_message(label: Seq<char>) -> Seq<char> {
    "No watch paths specified. Use -w <paths> or set 'watch' in "@ + label
}

pub open spec fn invalid_env_message(item: Seq<char>) -> Seq<char> {
    "Invalid env format: '"@ + item + "'. Expected KEY=VALUE"@
}

/// The command: from the command line when given there, else split from
/// the file's `command`; an error when neither gives one, or when the
/// file's command has an unclosed quote.
pub open spec fn command_spec(cli: CliArgs, loaded: Option<LoadedFile>) -> Result<Seq<Seq<char>>, Seq<char>> {
    if cli.command@.len() > 0 {
        Ok(strings_view(cli.command@))
    } else {
        match loaded {
            Some(f) => match f.config.command {
                Some(cmd) => match shell_words(cmd@) {
                    Some(words) => Ok(words),
                    None => Err(unclosed_quote_message(f.path@, cmd@)),
                },
                None => Err(no_command_message(f.path@)),
            },
            None => Err(no_command_message(source_label(loaded))),
        }
    }
}

/// A list from the command line when not empty there, else the file's.
pub open spec fn cli_or_file(cli: Seq<String>, file: Option<Option<Vec<String>>>) -> Seq<Seq<char>> {
    if cli.len() > 0 {
        strings_view(cli)
    } else {
        match file {
            Some(Some(v)) => strings_view(v@),
            _ => Seq::empty(),
        }
    }
}

pub open spec fn file_watch(loaded: Option<LoadedFile>) -> Option<Option<Vec<String>>> {
    match loaded {
        Some(f) => Some(f.config.watch),
        None => None,
    }
}

pub open spec fn file_ext(loaded: Option<LoadedFile>) -> Option<Option<Vec<String>>> {
    match loaded {
        Some(f) => Some(f.config.ext),
        None => None,
    }
}

/// The watch paths.
pub open spec fn watch_spec(cli: CliArgs, loaded: Option<LoadedFile>) -> Seq<Seq<char>> {
    cli_or_file(cli.watch@, file_watch(loaded))
}

/// The extensions, each without one leading dot (`.rs` and `rs` alike).
pub open spec fn ext_spec(cli: CliArgs, loaded: Option<LoadedFile>) -> Seq<Seq<char>> {
    cli_or_file(cli.ext@, file_ext(loaded)).map_values(|e: Seq<char>| strip_leading(e, '.'))
}

/// The trigger path: the command line's, else the file's.
pub open spec fn trigger_spec(cli: CliArgs, loaded: Option<LoadedFile>) -> Option<Seq<char>> {
    match cli.trigger {
        Some(t) => Some(t@),
        None => match loaded {
            Some(f) => opt_string_view(f.config.trigger),
            None => None,
        },
    }
}

/// Whether the trigger fires while the command runs: set on the command
/// line or in the file.
pub open spec fn trigger_always_spec(cli: CliArgs, loaded: Option<LoadedFile>) -> bool {
    cli.trigger_always || match loaded {
        Some(f) => f.config.trigger_always == Some(true),
        None => false,
    }
}

/// Whether the trigger fires while the command runs depends on the
/// command-line flag and the file's `trigger_always` alone, whatever else
/// either gives (a command on the command line included): the flag turns
/// it on; the file's `trigger_always = true` turns it on and the command
/// line cannot turn it off; without the flag the file decides, and
/// without a file (or without the setting) it stays off.
pub proof fn law_trigger_always(cli: CliArgs, other_cli: CliArgs, loaded: Option<LoadedFile>)
    ensures
        cli.trigger_always ==> trigger_always_spec(cli, loaded),
        (loaded matches Some(f) && f.config.trigger_always == Some(true)) ==> trigger_always_spec(cli, loaded),
        !cli.trigger_always ==> (trigger_always_spec(cli, loaded)
            <==> (loaded matches Some(f) && f.config.trigger_always == Some(true))),
        other_cli.trigger_always == cli.trigger_always ==>
            trigger_always_spec(other_cli, loaded) == trigger_always_spec(cli, loaded),
{
}

/// The file's environment, as a map.
pub open spec fn file_env(loaded: Option<LoadedFile>) -> Map<Seq<char>, Seq<char>> {
    match loaded {
        Some(f) => match f.config.env {
            Some(pairs) => pairs_map(pairs_view(pairs@)),
            None => Map::empty(),
        },
        None => Map::empty(),
    }
}

/// `base` overridden, in order, by the `KEY=VALUE` items (split at the
/// first `=`); an error names the first item without `=`.
pub open spec fn env_items_spec(base: Map<Seq<char>, Seq<char>>, items: Seq<Seq<char>>) -> Result<Map<Seq<char>, Seq<char>>, Seq<char>>
    decreases items.len(),
{
    if items.len() == 0 {
        Ok(base)
    } else {
        match env_items_spec(base, items.drop_last()) {
            Err(e) => Err(e),
            Ok(m) => match split_first(items.last(), '=') {
                Some((k, v)) => Ok(m.insert(k, v)),
                None => Err(invalid_env_message(items.last())),
            },
        }
    }
}

/// The environment: the file's as base, the command line's on top.
pub open spec fn env_spec(cli: CliArgs, loaded: Option<LoadedFile>) -> Result<Map<Seq<char>, Seq<char>>, Seq<char>> {
    env_items_spec(file_env(loaded), strings_view(cli.env@))
}

/// The first error, in the order the sources are checked: the command,
/// the watch paths, the environment items.
pub open spec fn config_error(cli: CliArgs, loaded: Option<LoadedFile>) -> Option<Seq<char>> {
    match command_spec(cli, loaded) {
        Err(e) => Some(e),
        Ok(_) => if watch_spec(cli, loaded).len() == 0 {
            Some(no_watch_message(source_label(loaded)))
        } else {
            match env_spec(cli, loaded) {
                Err(e) => Some(e),
                Ok(_) => None,
            }
        },
    }
}

pub open spec fn loaded_path(loaded: Option<LoadedFile>) -> Option<Seq<char>> {
    match loaded {
        Some(f) => Some(f.path@),
        None => None,
    }
}

pub open spec fn loaded_hash(loaded: Option<LoadedFile>) -> Option<u64> {
    match loaded {
        Some(f) => Some(f.hash),
        None => None,
    }
}


fn no_command_error(label: &String) -> (r: String)
    ensures
        r@ == no_command_message(label@),
{
    let mut m = "No command specified. Use -- <command> or set 'command' in ".to_owned();
    m.append(label.as_str());
    m
}

fn unclosed_quote_error(label: &String, cmd: &String) -> (r: String)
    ensures
        r@ == unclosed_quote_message(label@, cmd@),
{
    let mut m = "Invalid command in ".to_owned();
    m.append(label.as_str());
    m.append(": unclosed quote in '");
    m.append(cmd.as_str());
    m.append("'");
    m
}

fn no_watch_error(label: &String) -> (r: String)
    ensures
        r@ == no_watch_message(label@),
{
    let mut m = "No watch paths specified. Use -w <paths> or set 'watch' in ".to_owned();
    m.append(label.as_str());
    m
}

fn invalid_env_error(item: &String) -> (r: String)
    ensures
        r@ == invalid_env_message(item@),
{
    let mut m = "Invalid env format: '".to_owned();
    m.append(item.as_str());
    m.append("'. Expected KEY=VALUE");
    m
}

/// Strips one leading dot from each extension.
fn normalize_extensions(v: &Vec<String>) -> (r: Vec<String>)
    ensures
        strings_view(r@) == strings_view(v@).map_values(|e: Seq<char>| strip_leading(e, '.')),
{
    let mut r: Vec<String> = Vec::new();
    let n = v.len();
    let mut i: usize = 0;
    while i < n
        invariant
            n == v@.len(),
            i <= n,
            strings_view(r@) == strings_view(v@).take(i as int).map_values(|e: Seq<char>| strip_leading(e, '.')),
        decreases n - i,
    {
        let ghost before = r@;
        let e = strip_leading_char(v[i].as_str(), '.');
        r.push(e);
        proof {
            assert(r@ == before.push(e));
            lemma_strings_view_push(before, e);
            assert(strings_view(v@).take(i + 1) =~= strings_view(v@).take(i as int).push(v@[i as int]@));
            assert(strings_view(v@).take(i + 1).map_values(|e: Seq<char>| strip_leading(e, '.'))
                =~= strings_view(v@).take(i as int).map_values(|e: Seq<char>| strip_leading(e, '.')).push(strip_leading(v@[i as int]@, '.')));
        }
        i = i + 1;
    }
    assert(strings_view(v@).take(n as int) =~= strings_view(v@));
    r
}

/// A list from the command line when not empty there, else the file's.
fn pick_list(cli: &Vec<String>, file: Option<&Option<Vec<String>>>) -> (r: Vec<String>)
    ensures
        strings_view(r@) == cli_or_file(cli@, match file { Some(f) => Some(*f), None => None }),
{
    if cli.len() > 0 {
        clone_strings(cli)
    } else {
        match file {
            Some(Some(v)) => clone_strings(v),
            _ => {
                let r = Vec::new();
                assert(strings_view(r@) =~= Seq::empty());
                r
            },
        }
    }
}

impl Config {
    /// Merges the command-line arguments with the loaded configuration
    /// file (`None` when there is none). The command line has priority
    /// for the command, the watch paths, the extensions and the trigger;
    /// `trigger_always` holds when either source sets it; the file's
    /// environment is the base and command-line `KEY=VALUE` items
    /// override it. Fails, with a message naming the configuration
    /// source, when no command or no watch path is given or the file's
    /// command has an unclosed quote, and on an environment item
    /// without `=`.
    pub fn resolve(cli: CliArgs, loaded: Option<LoadedFile>) -> (r: Result<Config, String>)
        ensures
            match r {
                Err(e) => config_error(cli, loaded) == Some(e@),
                Ok(c) => {
                    &&& config_error(cli, loaded) is None
                    &&& command_spec(cli, loaded) == Ok::<Seq<Seq<char>>, Seq<char>>(strings_view(c.command@))
                    &&& strings_view(c.watch@) == watch_spec(cli, loaded)
                    &&& strings_view(c.ext@) == ext_spec(cli, loaded)
                    &&& opt_string_view(c.trigger) == trigger_spec(cli, loaded)
                    &&& c.trigger_always == trigger_always_spec(cli, loaded)
                    &&& env_spec(cli, loaded) == Ok::<Map<Seq<char>, Seq<char>>, Seq<char>>(c.env@)
                    &&& opt_string_view(c.config_path) == loaded_path(loaded)
                    &&& c.config_hash == loaded_hash(loaded)
                },
            },
    {
        let label: String = match &loaded {
            Some(f) => f.path.clone(),
            None => "rewatch.toml".to_owned(),
        };
        assert(label@ == source_label(loaded));

        let command: Vec<String> = if cli.command.len() > 0 {
            clone_strings(&cli.command)
        } else {
            match &loaded {
                Some(f) => match &f.config.command {
                    Some(cmd) => match split_shell_words(cmd.as_str()) {
                        Some(words) => words,
                        None => return Err(unclosed_quote_error(&label, cmd)),
                    },
                    None => return Err(no_command_error(&label)),
                },
                None => return Err(no_command_error(&label)),
            }
        };

        let watch = pick_list(&cli.watch, match &loaded { Some(f) => Some(&f.config.watch), None => None });
        if watch.len() == 0 {
            return Err(no_watch_error(&label));
        }

        let ext = normalize_extensions(
            &pick_list(&cli.ext, match &loaded { Some(f) => Some(&f.config.ext), None => None }),
        );

        let trigger: Option<String> = match &cli.trigger {
            Some(t) => Some(t.clone()),
            None => match &loaded {
                Some(f) => match &f.config.trigger {
                    Some(t) => Some(t.clone()),
                    None => None,
                },
                None => None,
            },
        };

        let trigger_always = cli.trigger_always || match &loaded {
            Some(f) => match f.config.trigger_always {
                Some(b) => b,
                None => false,
            },
            None => false,
        };

        let mut env = EnvVars::new();
        match &loaded {
            Some(f) => match &f.config.env {
                Some(pairs) => {
                    let n = pairs.len();
                    let mut i: usize = 0;
                    while i < n
                        invariant
                            n == pairs@.len(),
                            i <= n,
                            env@ == pairs_map(pairs_view(pairs@).take(i as int)),
                        decreases n - i,
                    {
                        env.insert(pairs[i].0.clone(), pairs[i].1.clone());
                        proof {
                            assert(pairs_view(pairs@).take(i + 1).drop_last() =~= pairs_view(pairs@).take(i as int));
                        }
                        i = i + 1;
                    }
                    assert(pairs_view(pairs@).take(n as int) =~= pairs_view(pairs@));
                },
                None => {},
            },
            None => {},
        }
        assert(env@ == file_env(loaded));

        let n = cli.env.len();
        let mut i: usize = 0;
        while i < n
            invariant
                n == cli.env@.len(),
                i <= n,
                command_spec(cli, loaded) is Ok,
                watch_spec(cli, loaded).len() > 0,
                label@ == source_label(loaded),
                env_items_spec(file_env(loaded), strings_view(cli.env@).take(i as int))
                    == Ok::<Map<Seq<char>, Seq<char>>, Seq<char>>(env@),
            decreases n - i,
        {
            let item = &cli.env[i];
            proof {
                assert(strings_view(cli.env@).take(i + 1).drop_last() =~= strings_view(cli.env@).take(i as int));
            }
            match split_once_char(item.as_str(), '=') {
                Some((k, v)) => {
                    env.insert(k, v);
                },
                None => {
                    proof {
                        assert(strings_view(cli.env@).take(i + 1).last() == item@);
                        lemma_env_error_persists(file_env(loaded), strings_view(cli.env@), i + 1);
                    }
                    return Err(invalid_env_error(item));
                },
            }
            i = i + 1;
        }
        assert(strings_view(cli.env@).take(n as int) =~= strings_view(cli.env@));

        let config_path: Option<String> = match &loaded {
            Some(f) => Some(f.path.clone()),
            None => None,
        };
        let config_hash: Option<u64> = match &loaded {
            Some(f) => Some(f.hash),
            None => None,
        };
        Ok(Config { command, watch, ext, trigger, trigger_always, env, config_path, config_hash })
    }
}

/// Once the environment items fail at some prefix, they fail with the
/// same message on every longer prefix.
proof fn lemma_env_error_persists(base: Map<Seq<char>, Seq<char>>, items: Seq<Seq<char>>, k: int)
    requires
        0 <= k <= items.len(),
        env_items_spec(base, items.take(k)) is Err,
    ensures
        env_items_spec(base, items) == env_items_spec(base, items.take(k)),
    decreases items.len() - k,
{
    if k < items.len() {
        assert(items.take(k + 1).drop_last() =~= items.take(k));
        lemma_env_error_persists(base, items, k + 1);
    } else {
        assert(items.take(k) =~= items);
    }
}


/// FNV-1a over the code points of a text: the hash by which a reloaded
/// configuration file is told apart from the running one.
pub open spec fn content_hash_spec(s: Seq<char>) -> u64
    decreases s.len(),
{
    if s.len() == 0 {
        0xcbf2_9ce4_8422_2325u64
    } else {
        (content_hash_spec(s.drop_last()) ^ (s.last() as u64)).wrapping_mul(0x0000_0100_0000_01b3u64)
    }
}

/// FNV-1a, step by step: the empty text hashes to the offset basis, and
/// each further character is xored into the hash, which is then
/// multiplied by the FNV prime modulo 2^64.
pub proof fn law_content_hash_fnv1a(s: Seq<char>, c: char)
    ensures
        content_hash_spec(Seq::<char>::empty()) == 0xcbf2_9ce4_8422_2325u64,
        content_hash_spec(s.push(c)) as nat
            == ((content_hash_spec(s) ^ (c as u64)) as nat * 0x0000_0100_0000_01b3nat) % 0x1_0000_0000_0000_0000nat,
{
    assert(s.push(c).drop_last() =~= s);
}

/// Multiplying by the FNV prime modulo 2^64 loses nothing: the prime is
/// odd, and multiplying by its inverse modulo 2^64 gives the factor back.
proof fn lemma_fnv_prime_injective(x: u64, y: u64)
    requires
        (x as nat * 0x0000_0100_0000_01b3nat) % 0x1_0000_0000_0000_0000nat
            == (y as nat * 0x0000_0100_0000_01b3nat) % 0x1_0000_0000_0000_0000nat,
    ensures
        x == y,
{
    assert((((x * 0x0000_0100_0000_01b3u64) % 0x1_0000_0000_0000_0000) * 0xce96_5057_aff6_957bu64) % 0x1_0000_0000_0000_0000 == x)
        by (bit_vector);
    assert((((y * 0x0000_0100_0000_01b3u64) % 0x1_0000_0000_0000_0000) * 0xce96_5057_aff6_957bu64) % 0x1_0000_0000_0000_0000 == y)
        by (bit_vector);
}

/// A change anywhere changes the hash of what follows it identically:
/// two texts that differ in their last character hash differently,
/// however long the text before it. So an edit at the end of the file
/// is always told from an unchanged save.
pub proof fn law_content_hash_last_char_matters(s: Seq<char>, a: char, b: char)
    requires
        a != b,
    ensures
        content_hash_spec(s.push(a)) != content_hash_spec(s.push(b)),
{
    law_content_hash_fnv1a(s, a);
    law_content_hash_fnv1a(s, b);
    let h = content_hash_spec(s);
    let ca = a as u64;
    let cb = b as u64;
    let xa = h ^ ca;
    let xb = h ^ cb;
    assert(ca != cb);
    assert(xa != xb) by (bit_vector)
        requires
            xa == h ^ ca,
            xb == h ^ cb,
            ca != cb;
    if content_hash_spec(s.push(a)) == content_hash_spec(s.push(b)) {
        lemma_fnv_prime_injective(xa, xb);
    }
}

/// Hashes the text of a configuration file, so that saving it unchanged
/// can be told from an edit.
pub fn content_hash(content: &str) -> (r: u64)
    ensures
        r == content_hash_spec(content@),
{
    broadcast use vstd::string::group_string_axioms;
    let mut h: u64 = 0xcbf2_9ce4_8422_2325u64;
    for c in it: content.chars()
        invariant
            it.seq() == content@,
            h == content_hash_spec(content@.take(it.index() as int)),
    {
        assert(content@.take(it.index() + 1).drop_last() =~= content@.take(it.index() as int));
        h = (h ^ (c as u64)).wrapping_mul(0x0000_0100_0000_01b3u64);
    }
    assert(content@.take(content@.len() as int) =~= content@);
    h
}


/// Whether the configuration file and the trigger designate the same file,
/// given their canonical forms where those could be had.
pub open spec fn same_file_decision(
    config_path: Option<Seq<char>>,
    trigger: Option<Seq<char>>,
    config_canonical: Option<Seq<char>>,
    trigger_canonical: Option<Seq<char>>,
) -> bool {
    match config_path {
        Some(cp) => path_match_spec(cp, config_canonical, trigger, trigger_canonical),
        None => false,
    }
}

/// Whether the trigger path and the configuration file path designate
/// the same file (by canonical paths where both can be had, else by the
/// paths as written). Configuration changes are detected first, so such
/// a trigger would never fire. Canonical forms are read from the file
/// system.
pub fn trigger_equals_config(config: &Config) -> (r: bool)
    ensures
        match (config.config_path, config.trigger) {
            (Some(cp), Some(t)) => exists|config_canonical: Option<Seq<char>>, trigger_canonical: Option<Seq<char>>|
                #![trigger canonical_answer(cp@, config_canonical), canonical_answer(t@, trigger_canonical)]
                canonical_answer(cp@, config_canonical)
                && canonical_answer(t@, trigger_canonical)
                && r == same_file_decision(Some(cp@), Some(t@), config_canonical, trigger_canonical),
            _ => !r,
        },
{
    match (&config.trigger, &config.config_path) {
        (Some(t), Some(cp)) => {
            let cc = canonical_form(cp.as_str());
            let tc = canonical_form(t.as_str());
            let r = is_path_match(cp.as_str(), opt_as_str(&cc), Some(t.as_str()), opt_as_str(&tc));
            assert(canonical_answer(cp@, opt_string_view(cc)) && canonical_answer(t@, opt_string_view(tc)));
            r
        },
        _ => false,
    }
}


/// The value that the last of `items` naming `k` gives it, if any.
pub open spec fn last_setting(items: Seq<Seq<char>>, k: Seq<char>) -> Option<Seq<char>>
    decreases items.len(),
{
    if items.len() == 0 {
        None
    } else {
        match split_first(items.last(), '=') {
            Some((k2, v)) => if k2 == k { Some(v) } else { last_setting(items.drop_last(), k) },
            None => last_setting(items.drop_last(), k),
        }
    }
}

/// Command-line environment items override the file's: a variable that
/// some item names takes the value of the last such item; any other keeps
/// the file's value, or stays unset.
pub proof fn law_cli_env_overrides_file(base: Map<Seq<char>, Seq<char>>, items: Seq<Seq<char>>, k: Seq<char>)
    requires
        env_items_spec(base, items) is Ok,
    ensures
        ({
            let m = env_items_spec(base, items)->Ok_0;
            match last_setting(items, k) {
                Some(v) => m.contains_key(k) && m[k] == v,
                None => m.contains_key(k) == base.contains_key(k) && (base.contains_key(k) ==> m[k] == base[k]),
            }
        }),
    decreases items.len(),
{
    if items.len() > 0 {
        law_cli_env_overrides_file(base, items.drop_last(), k);
    }
}

/// The command line comes first: where it gives the command, the watch
/// paths, the extensions or the trigger, the configuration file's are
/// not looked at, and its `--trigger-always` cannot be turned off by the
/// file.
pub proof fn law_command_line_first(cli: CliArgs, loaded: Option<LoadedFile>)
    ensures
        cli.command@.len() > 0 ==> command_spec(cli, loaded) == Ok::<Seq<Seq<char>>, Seq<char>>(strings_view(cli.command@)),
        cli.watch@.len() > 0 ==> watch_spec(cli, loaded) == strings_view(cli.watch@),
        cli.ext@.len() > 0 ==> ext_spec(cli, loaded) == strings_view(cli.ext@).map_values(|e: Seq<char>| strip_leading(e, '.')),
        cli.trigger is Some ==> trigger_spec(cli, loaded) == Some(cli.trigger->0@),
        cli.trigger_always ==> trigger_always_spec(cli, loaded),
{
}

/// An extension may be written with or without its leading dot.
pub proof fn law_extension_dot_optional(e: Seq<char>)
    requires
        !(e.len() > 0 && e[0] == '.'),
    ensures
        strip_leading(seq!['.'] + e, '.') == e,
        strip_leading(e, '.') == e,
{
    assert((seq!['.'] + e).drop_first() =~= e);
}


/// Which configuration file to load and whether it must exist: the one
/// named by `--config` must; the default `rewatch.toml` may be absent.
pub fn config_candidate(cli: &CliArgs) -> (r: (String, bool))
    ensures
        match cli.config {
            Some(p) => r.0@ == p@ && r.1,
            None => r.0@ == "rewatch.toml"@ && !r.1,
        },
{
    match &cli.config {
        Some(p) => (p.clone(), true),
        None => ("rewatch.toml".to_owned(), false),
    }
}


pub open spec fn not_found_message(path: Seq<char>) -> Seq<char> {
    "Config file not found: "@ + path
}

/// What an absent configuration file means: an error for a file that was
/// asked for with `--config`, and no file at all (command-line only) for
/// the default one.
pub fn absent_config_file(path: &String, required: bool) -> (r: Result<Option<LoadedFile>, String>)
    ensures
        match r {
            Ok(f) => !required && f is None,
            Err(e) => required && e@ == not_found_message(path@),
        },
{
    if required {
        let mut m = "Config file not found: ".to_owned();
        m.append(path.as_str());
        Err(m)
    } else {
        Ok(None)
    }
}

} // verus!
