//! What the file watcher decides: which paths are watched explicitly, how a
//! file-system event becomes watch events, and how pending events are
//! summed up.

use vstd::prelude::*;

use crate::paths::{
    canonical_answer, canonical_form, dir_answer, extension_of, is_directory, is_trigger, match_outcome, opt_str_view, opt_string_view,
    path_extension, paths_equal,
    resolve_abs, resolve_abs_spec, same_path,
};
use crate::changes::{
    apart, changes_view, covers, lemma_path_index, lemma_record_change, path_index, record_change, record_change_in,
};
use crate::text::{clone_strings, contains_string, strings_view};

verus! {

/// How a watched file changed.
#[derive(Clone, Copy, PartialEq, Eq, Debug, Structural)]
pub enum ChangeKind {
    Created,
    Modified,
    Removed,
}

impl ChangeKind {
    /// The diff-style indicator printed for the change: `+`, `~` or `-`.
    pub fn symbol(&self) -> (r: char)
        ensures
            r == match *self {
                ChangeKind::Created => '+',
                ChangeKind::Modified => '~',
                ChangeKind::Removed => '-',
            },
    {
        match self {
            ChangeKind::Created => '+',
            ChangeKind::Modified => '~',
            ChangeKind::Removed => '-',
        }
    }
}

/// An event the watcher reports to the supervisor.
#[derive(Debug)]
pub enum WatchEvent {
    /// A watched file changed.
    FileChanged(String, ChangeKind),
    /// The trigger file was touched.
    Trigger,
    /// The configuration file changed.
    ConfigChanged,
}

/// A `WatchEvent` with its path as a character sequence.
pub enum WatchEventView {
    FileChanged(Seq<char>, ChangeKind),
    Trigger,
    ConfigChanged,
}

impl View for WatchEvent {
    type V = WatchEventView;

    open spec fn view(&self) -> WatchEventView {
        match self {
            WatchEvent::FileChanged(p, k) => WatchEventView::FileChanged(p@, *k),
            WatchEvent::Trigger => WatchEventView::Trigger,
            WatchEvent::ConfigChanged => WatchEventView::ConfigChanged,
        }
    }
}

pub open spec fn events_view(v: Seq<WatchEvent>) -> Seq<WatchEventView> {
    v.map_values(|e: WatchEvent| e@)
}

/// A watch path together with what the file system said of it: whether
/// it is a directory, and the canonical form of its absolute form (when
/// canonicalization succeeded).
#[derive(Debug)]
pub struct ObservedPath {
    pub path: String,
    pub is_dir: bool,
    pub canonical: Option<String>,
}

/// The files named explicitly in the watch list, in absolute and (where
/// it could be had) canonical form.
#[derive(Debug)]
pub struct ExplicitFiles {
    pub paths: Vec<String>,
}

impl View for ExplicitFiles {
    type V = Seq<Seq<char>>;

    open spec fn view(&self) -> Seq<Seq<char>> {
        strings_view(self.paths@)
    }
}

/// What one observed watch path adds to the explicit files: nothing for a
/// directory, else its canonical form (if known) and its absolute form.
pub open spec fn explicit_entry(o: ObservedPath, cwd: Option<Seq<char>>) -> Seq<Seq<char>> {
    if o.is_dir {
        Seq::empty()
    } else {
        match o.canonical {
            Some(c) => seq![c@, resolve_abs_spec(o.path@, cwd)],
            None => seq![resolve_abs_spec(o.path@, cwd)],
        }
    }
}

/// The explicit files of a list of observed watch paths, in order.
pub open spec fn explicit_files_spec(obs: Seq<ObservedPath>, cwd: Option<Seq<char>>) -> Seq<Seq<char>>
    decreases obs.len(),
{
    if obs.len() == 0 {
        Seq::empty()
    } else {
        explicit_files_spec(obs.drop_last(), cwd) + explicit_entry(obs.last(), cwd)
    }
}

/// The explicit files of two watch lists, one after the other, are those
/// of the first followed by those of the second: a path is watched
/// explicitly by the joined list exactly when one of the two lists
/// watches it.
pub proof fn law_explicit_files_concat(a: Seq<ObservedPath>, b: Seq<ObservedPath>, cwd: Option<Seq<char>>)
    ensures
        explicit_files_spec(a + b, cwd) == explicit_files_spec(a, cwd) + explicit_files_spec(b, cwd),
    decreases b.len(),
{
    if b.len() == 0 {
        assert(a + b =~= a);
        assert(explicit_files_spec(a, cwd) + explicit_files_spec(b, cwd) =~= explicit_files_spec(a, cwd));
    } else {
        law_explicit_files_concat(a, b.drop_last(), cwd);
        assert((a + b).drop_last() =~= a + b.drop_last());
        assert((a + b).last() == b.last());
        let fa = explicit_files_spec(a, cwd);
        let fb = explicit_files_spec(b.drop_last(), cwd);
        let e = explicit_entry(b.last(), cwd);
        assert((fa + fb) + e =~= fa + (fb + e));
    }
}

impl ExplicitFiles {
    /// Whether `p` equals, component by component, one of the files.
    pub fn contains(&self, p: &str) -> (r: bool)
        ensures
            r == exists|i: int| 0 <= i < self@.len() && same_path(#[trigger] self@[i], p@),
    {
        let n = self.paths.len();
        let mut i: usize = 0;
        while i < n
            invariant
                n == self.paths.len(),
                i <= n,
                forall|j: int| 0 <= j < i ==> !same_path(#[trigger] self@[j], p@),
            decreases n - i,
        {
            if paths_equal(self.paths[i].as_str(), p) {
                assert(same_path(self@[i as int], p@));
                return true;
            }
            i = i + 1;
        }
        false
    }

    pub fn is_empty(&self) -> (r: bool)
        ensures
            r == (self@.len() == 0),
    {
        self.paths.len() == 0
    }
}

/// Builds the explicit files from watch paths whose file-system facts are
/// already known: directories are skipped; every other path contributes
/// its canonical form (when known) and its absolute form.
pub fn explicit_files_from(observed: &Vec<ObservedPath>, cwd: Option<&str>) -> (r: ExplicitFiles)
    ensures
        r@ == explicit_files_spec(observed@, opt_str_view(cwd)),
{
    let mut paths: Vec<String> = Vec::new();
    let n = observed.len();
    let mut i: usize = 0;
    while i < n
        invariant
            n == observed@.len(),
            i <= n,
            strings_view(paths@) == explicit_files_spec(observed@.take(i as int), opt_str_view(cwd)),
        decreases n - i,
    {
        let o = &observed[i];
        let ghost before = strings_view(paths@);
        if !o.is_dir {
            let abs = resolve_abs(o.path.as_str(), cwd);
            match &o.canonical {
                Some(c) => {
                    paths.push(c.clone());
                },
                None => {},
            }
            paths.push(abs);
        }
        proof {
            assert(observed@.take(i + 1).drop_last() =~= observed@.take(i as int));
            assert(observed@.take(i + 1).last() == observed@[i as int]);
            assert(strings_view(paths@) =~= before + explicit_entry(observed@[i as int], opt_str_view(cwd)));
        }
        i = i + 1;
    }
    assert(observed@.take(n as int) =~= observed@);
    ExplicitFiles { paths }
}

/// Whether `obs` records what the file system answered for `watch_paths`:
/// each observation is of its watch path, with the answer to whether it
/// is a directory, and (for a path that is no directory) the answer to
/// the canonical form of its absolute form.
pub open spec fn observations_of(watch_paths: Seq<Seq<char>>, cwd: Option<Seq<char>>, obs: Seq<ObservedPath>) -> bool {
    &&& obs.len() == watch_paths.len()
    &&& forall|i: int| 0 <= i < obs.len() ==> {
        &&& (#[trigger] obs[i]).path@ == watch_paths[i]
        &&& dir_answer(watch_paths[i], obs[i].is_dir)
        &&& if obs[i].is_dir {
            obs[i].canonical is None
        } else {
            canonical_answer(resolve_abs_spec(watch_paths[i], cwd), opt_string_view(obs[i].canonical))
        }
    }
}

/// Whether `files` are the explicit files of `watch_paths` for some
/// answers that the file system gave for them.
pub open spec fn explicit_files_observed(watch_paths: Seq<Seq<char>>, cwd: Option<Seq<char>>, files: Seq<Seq<char>>) -> bool {
    exists|obs: Seq<ObservedPath>|
        #[trigger] observations_of(watch_paths, cwd, obs) && files == explicit_files_spec(obs, cwd)
}

/// Collects the explicit (non-directory) watch paths in both absolute and
/// canonical form, so that event paths match whichever form the watcher
/// delivers, and `Remove` events still match through the absolute form
/// when canonicalization fails. Whether a path is a directory, and its
/// canonical form, are read from the file system.
pub fn collect_explicit_files(watch_paths: &Vec<String>, cwd: Option<&str>) -> (r: ExplicitFiles)
    ensures
        explicit_files_observed(strings_view(watch_paths@), opt_str_view(cwd), r@),
{
    let mut observed: Vec<ObservedPath> = Vec::new();
    let n = watch_paths.len();
    let mut i: usize = 0;
    while i < n
        invariant
            n == watch_paths@.len(),
            i <= n,
            observations_of(strings_view(watch_paths@).take(i as int), opt_str_view(cwd), observed@),
        decreases n - i,
    {
        let p = &watch_paths[i];
        let is_dir = is_directory(p.as_str());
        let canonical = if is_dir {
            None
        } else {
            let abs = resolve_abs(p.as_str(), cwd);
            canonical_form(abs.as_str())
        };
        let ghost prev = observed@;
        observed.push(ObservedPath { path: p.clone(), is_dir, canonical });
        proof {
            let wp = strings_view(watch_paths@);
            assert forall|j: int| 0 <= j < observed@.len() implies {
                &&& (#[trigger] observed@[j]).path@ == wp.take(i + 1)[j]
                &&& dir_answer(wp.take(i + 1)[j], observed@[j].is_dir)
                &&& if observed@[j].is_dir {
                    observed@[j].canonical is None
                } else {
                    canonical_answer(resolve_abs_spec(wp.take(i + 1)[j], opt_str_view(cwd)), opt_string_view(observed@[j].canonical))
                }
            } by {
                if j < i {
                    assert(observed@[j] == prev[j]);
                    assert(wp.take(i + 1)[j] == wp.take(i as int)[j]);
                }
            }
        }
        i = i + 1;
    }
    let r = explicit_files_from(&observed, cwd);
    assert(strings_view(watch_paths@).take(n as int) =~= strings_view(watch_paths@));
    assert(observations_of(strings_view(watch_paths@), opt_str_view(cwd), observed@));
    r
}


/// What becomes of one path of a file-system event.
#[derive(Clone, Copy, PartialEq, Eq, Debug, Structural)]
pub enum PathVerdict {
    /// The path is the configuration file.
    Config,
    /// The path is the trigger file; the rest of the event is dropped.
    Trigger,
    /// The path is reported as a changed file.
    Changed,
    /// The path is filtered out.
    Skipped,
}

/// The verdict on a path: the configuration file first, then the trigger,
/// then the extension filter, which an explicitly watched file passes.
pub open spec fn verdict_spec(is_config: bool, is_trigger: bool, ext_ok: bool, is_explicit: bool) -> PathVerdict {
    if is_config {
        PathVerdict::Config
    } else if is_trigger {
        PathVerdict::Trigger
    } else if ext_ok || is_explicit {
        PathVerdict::Changed
    } else {
        PathVerdict::Skipped
    }
}

/// Whether the extension filter lets `p` through: an empty filter lets
/// everything through, else the extension of `p` must be listed.
pub open spec fn ext_accepts(filter: Seq<Seq<char>>, p: Seq<char>) -> bool {
    filter.len() == 0 || match extension_of(p) {
        Some(e) => filter.contains(e),
        None => false,
    }
}

/// The watch events that one path's verdict produces.
pub open spec fn verdict_events(p: Seq<char>, kind: ChangeKind, v: PathVerdict) -> Seq<WatchEventView> {
    match v {
        PathVerdict::Config => seq![WatchEventView::ConfigChanged],
        PathVerdict::Trigger => seq![WatchEventView::Trigger],
        PathVerdict::Changed => seq![WatchEventView::FileChanged(p, kind)],
        PathVerdict::Skipped => Seq::empty(),
    }
}

/// The events of the first `verdicts.len()` paths, in order.
pub open spec fn verdicts_events(paths: Seq<Seq<char>>, kind: ChangeKind, verdicts: Seq<PathVerdict>) -> Seq<WatchEventView>
    decreases verdicts.len(),
{
    if verdicts.len() == 0 {
        Seq::empty()
    } else {
        verdicts_events(paths, kind, verdicts.drop_last())
            + verdict_events(paths[verdicts.len() - 1], kind, verdicts.last())
    }
}

/// What is needed to turn file-system events into watch events.
#[derive(Debug)]
pub struct EventFilter {
    /// Accepted extensions (without dot); empty accepts everything.
    pub extensions: Vec<String>,
    /// Files watched explicitly, which pass whatever their extension.
    pub explicit_files: ExplicitFiles,
    /// The trigger file, if any, and its canonical form once known.
    pub trigger_raw: Option<String>,
    pub trigger_canonical: Option<String>,
    /// The configuration file, if any, and its canonical form once known.
    pub config_raw: Option<String>,
    pub config_canonical: Option<String>,
}

/// What was learnt of one path: whether it matched the configuration
/// file, the trigger file, and the explicit files, together with the
/// canonical forms that the file system gave on the way (`None` where
/// canonicalization failed or was not asked for): the event path's, and
/// each target's cached form before and after the path was compared with
/// it.
pub struct PathFacts {
    pub is_config: bool,
    pub is_trigger: bool,
    pub is_explicit: bool,
    pub config_event: Option<Seq<char>>,
    pub config_cache_before: Option<Seq<char>>,
    pub config_cache: Option<Seq<char>>,
    pub trigger_event: Option<Seq<char>>,
    pub trigger_cache_before: Option<Seq<char>>,
    pub trigger_cache: Option<Seq<char>>,
    pub event_canonical: Option<Seq<char>>,
}

/// Whether `p` matches a target as `is_trigger` decides it, given the
/// event path's canonical form `event` and the target's cached canonical
/// form after the comparison (`cache`, starting from `cache0`).
pub open spec fn target_match(
    p: Seq<char>,
    matched: bool,
    raw: Option<Seq<char>>,
    cache0: Option<Seq<char>>,
    event: Option<Seq<char>>,
    cache: Option<Seq<char>>,
) -> bool {
    &&& match_outcome(p, event, raw, cache0, cache, matched)
    &&& (cache is None ==> matched == match raw {
        Some(t) => same_path(p, t),
        None => false,
    })
}

impl EventFilter {
    /// Sets up the filter for a watch configuration: the accepted
    /// extensions; the explicit files of the watch paths; the trigger and
    /// configuration paths resolved against `cwd`; and their canonical
    /// forms as the file system gives them now (each stays unknown where
    /// that fails, to be asked again when an event comes).
    pub fn new(
        watch_paths: &Vec<String>,
        extensions: &Vec<String>,
        trigger: Option<&str>,
        config_path: Option<&str>,
        cwd: Option<&str>,
    ) -> (r: EventFilter)
        ensures
            strings_view(r.extensions@) == strings_view(extensions@),
            explicit_files_observed(strings_view(watch_paths@), opt_str_view(cwd), r.explicit_files@),
            opt_string_view(r.trigger_raw) == match trigger {
                Some(t) => Some(resolve_abs_spec(t@, opt_str_view(cwd))),
                None => None::<Seq<char>>,
            },
            opt_string_view(r.config_raw) == match config_path {
                Some(c) => Some(resolve_abs_spec(c@, opt_str_view(cwd))),
                None => None::<Seq<char>>,
            },
            match trigger {
                Some(t) => canonical_answer(t@, opt_string_view(r.trigger_canonical)),
                None => r.trigger_canonical is None,
            },
            match config_path {
                Some(c) => canonical_answer(c@, opt_string_view(r.config_canonical)),
                None => r.config_canonical is None,
            },
    {
        let (trigger_raw, trigger_canonical) = match trigger {
            Some(t) => (Some(resolve_abs(t, cwd)), canonical_form(t)),
            None => (None, None),
        };
        let (config_raw, config_canonical) = match config_path {
            Some(c) => (Some(resolve_abs(c, cwd)), canonical_form(c)),
            None => (None, None),
        };
        EventFilter {
            extensions: clone_strings(extensions),
            explicit_files: collect_explicit_files(watch_paths, cwd),
            trigger_raw,
            trigger_canonical,
            config_raw,
            config_canonical,
        }
    }

    /// Whether the cached canonical forms only went from unknown to known,
    /// and nothing else changed.
    pub open spec fn evolves_to(self, next: EventFilter) -> bool {
        &&& next.extensions@ == self.extensions@
        &&& next.explicit_files@ == self.explicit_files@
        &&& next.trigger_raw == self.trigger_raw
        &&& next.config_raw == self.config_raw
        &&& (self.trigger_canonical is Some ==> next.trigger_canonical == self.trigger_canonical)
        &&& (self.config_canonical is Some ==> next.config_canonical == self.config_canonical)
    }

    /// Whether `q` equals, component by component, an explicit file.
    pub open spec fn explicit_hit(self, q: Seq<char>) -> bool {
        exists|j: int| 0 <= j < self.explicit_files@.len() && same_path(#[trigger] self.explicit_files@[j], q)
    }

    /// Whether `facts` are what the checks give for path `p`: the
    /// configuration file is checked first, then (if that did not match)
    /// the trigger, each as `is_trigger` decides; then, for a path the
    /// extension filter rejects, whether it or its canonical form (as the
    /// file system answered, asked only when the path itself is no
    /// explicit file) is an explicit file.
    pub open spec fn facts_fit(self, p: Seq<char>, f: PathFacts) -> bool {
        &&& target_match(
            p,
            f.is_config,
            opt_string_view(self.config_raw),
            f.config_cache_before,
            f.config_event,
            f.config_cache,
        )
        &&& (f.is_config ==> !f.is_trigger && f.trigger_cache == f.trigger_cache_before)
        &&& (!f.is_config ==> target_match(
            p,
            f.is_trigger,
            opt_string_view(self.trigger_raw),
            f.trigger_cache_before,
            f.trigger_event,
            f.trigger_cache,
        ))
        &&& (f.is_explicit ==> !f.is_config && !f.is_trigger && !ext_accepts(strings_view(self.extensions@), p))
        &&& (!f.is_config && !f.is_trigger && !ext_accepts(strings_view(self.extensions@), p) ==>
            f.is_explicit == (self.explicit_hit(p) || match f.event_canonical {
                Some(c) => self.explicit_hit(c),
                None => false,
            }))
        &&& (!f.is_config && !f.is_trigger && !ext_accepts(strings_view(self.extensions@), p) && !self.explicit_hit(p)
            ==> canonical_answer(p, f.event_canonical))
    }

    /// Whether `events` is what `paths` give under `verdicts`, each verdict
    /// decided by its `facts` as `verdict_spec` says, the facts being
    /// possible for their path, and the first trigger ending the event.
    pub open spec fn classification(
        self,
        kind: ChangeKind,
        paths: Seq<Seq<char>>,
        verdicts: Seq<PathVerdict>,
        facts: Seq<PathFacts>,
        events: Seq<WatchEventView>,
    ) -> bool {
        &&& verdicts.len() == facts.len()
        &&& verdicts.len() <= paths.len()
        &&& (verdicts.len() < paths.len() ==> verdicts.len() > 0 && verdicts.last() == PathVerdict::Trigger)
        &&& (forall|i: int| 0 <= i < verdicts.len() - 1 ==> verdicts[i] != PathVerdict::Trigger)
        &&& (forall|i: int| 0 <= i < verdicts.len() ==> {
            &&& #[trigger] verdicts[i] == verdict_spec(
                facts[i].is_config,
                facts[i].is_trigger,
                ext_accepts(strings_view(self.extensions@), paths[i]),
                facts[i].is_explicit,
            )
            &&& self.facts_fit(paths[i], facts[i])
        })
        &&& (facts.len() > 0 ==> facts[0].config_cache_before == opt_string_view(self.config_canonical)
            && facts[0].trigger_cache_before == opt_string_view(self.trigger_canonical))
        &&& (forall|i: int| 0 <= i < facts.len() - 1 ==>
            (#[trigger] facts[i + 1]).config_cache_before == facts[i].config_cache
            && facts[i + 1].trigger_cache_before == facts[i].trigger_cache)
        &&& events == verdicts_events(paths, kind, verdicts)
    }

    /// Turns one file-system event of kind `kind` on `paths` into watch
    /// events. Each path is, in order: the configuration file (reported,
    /// and the next path is looked at); the trigger file (reported, and
    /// the rest of the event dropped); a file whose extension passes the
    /// filter, or an explicitly watched file (reported as changed); or
    /// else skipped. Path matching reads the file system (canonical
    /// forms), so the facts found for each path are stated as possible
    /// outcomes; how they decide the result is exact.
    pub fn classify(&mut self, kind: ChangeKind, paths: &Vec<String>) -> (r: Vec<WatchEvent>)
        ensures
            old(self).evolves_to(*final(self)),
            exists|verdicts: Seq<PathVerdict>, facts: Seq<PathFacts>|
                #[trigger] old(self).classification(kind, strings_view(paths@), verdicts, facts, events_view(r@)),
    {
        let ghost start = *self;
        let ghost mut verdicts: Seq<PathVerdict> = Seq::empty();
        let ghost mut facts: Seq<PathFacts> = Seq::empty();
        let mut out: Vec<WatchEvent> = Vec::new();
        let n = paths.len();
        let mut i: usize = 0;
        while i < n
            invariant
                n == paths@.len(),
                i <= n,
                start == *old(self),
                start.evolves_to(*self),
                i == 0 ==> opt_string_view(self.config_canonical) == opt_string_view(start.config_canonical)
                    && opt_string_view(self.trigger_canonical) == opt_string_view(start.trigger_canonical),
                i > 0 ==> facts[i - 1].config_cache == opt_string_view(self.config_canonical)
                    && facts[i - 1].trigger_cache == opt_string_view(self.trigger_canonical),
                facts.len() > 0 ==> facts[0].config_cache_before == opt_string_view(start.config_canonical)
                    && facts[0].trigger_cache_before == opt_string_view(start.trigger_canonical),
                forall|j: int| 0 <= j < facts.len() - 1 ==>
                    (#[trigger] facts[j + 1]).config_cache_before == facts[j].config_cache
                    && facts[j + 1].trigger_cache_before == facts[j].trigger_cache,
                verdicts.len() == i,
                facts.len() == i,
                forall|j: int| 0 <= j < i ==> verdicts[j] != PathVerdict::Trigger,
                forall|j: int| 0 <= j < i ==> {
                    &&& #[trigger] verdicts[j] == verdict_spec(
                        facts[j].is_config,
                        facts[j].is_trigger,
                        ext_accepts(strings_view(start.extensions@), paths@[j]@),
                        facts[j].is_explicit,
                    )
                    &&& start.facts_fit(paths@[j]@, facts[j])
                },
                events_view(out@) == verdicts_events(strings_view(paths@), kind, verdicts),
            decreases n - i,
        {
            let p = &paths[i];
            let ghost mut f = PathFacts {
                is_config: false,
                is_trigger: false,
                is_explicit: false,
                config_event: None,
                config_cache_before: None,
                config_cache: None,
                trigger_event: None,
                trigger_cache_before: None,
                trigger_cache: None,
                event_canonical: None,
            };
            let ghost config_cache0 = opt_string_view(self.config_canonical);
            let is_config = is_trigger(p.as_str(), &mut self.config_canonical, &self.config_raw);
            proof {
                let cache = opt_string_view(self.config_canonical);
                f.is_config = is_config;
                f.config_cache_before = config_cache0;
                f.config_cache = cache;
                f.trigger_cache_before = opt_string_view(self.trigger_canonical);
                f.trigger_cache = opt_string_view(self.trigger_canonical);
                f.config_event = choose|ec: Option<Seq<char>>|
                    #[trigger] match_outcome(p@, ec, opt_string_view(self.config_raw), config_cache0, cache, is_config);
            }
            let mut is_trig = false;
            let mut ext_ok = false;
            let mut is_explicit = false;
            if !is_config {
                let ghost trigger_cache0 = opt_string_view(self.trigger_canonical);
                is_trig = is_trigger(p.as_str(), &mut self.trigger_canonical, &self.trigger_raw);
                proof {
                    let cache = opt_string_view(self.trigger_canonical);
                    f.is_trigger = is_trig;
                    f.trigger_cache_before = trigger_cache0;
                    f.trigger_cache = cache;
                    f.trigger_event = choose|ec: Option<Seq<char>>|
                        #[trigger] match_outcome(p@, ec, opt_string_view(self.trigger_raw), trigger_cache0, cache, is_trig);
                }
                if !is_trig {
                    ext_ok = self.extensions.len() == 0 || match path_extension(p.as_str()) {
                        Some(e) => contains_string(&self.extensions, &e),
                        None => false,
                    };
                    if !ext_ok {
                        if self.explicit_files.contains(p.as_str()) {
                            is_explicit = true;
                        } else {
                            let c = canonical_form(p.as_str());
                            proof {
                                f.event_canonical = opt_string_view(c);
                            }
                            is_explicit = match &c {
                                Some(c) => self.explicit_files.contains(c.as_str()),
                                None => false,
                            };
                        }
                        proof {
                            f.is_explicit = is_explicit;
                        }
                    }
                }
            }
            let ghost v = verdict_spec(is_config, is_trig, ext_accepts(strings_view(start.extensions@), paths@[i as int]@), is_explicit);
            let ghost before = events_view(out@);
            let ghost prev_verdicts = verdicts;
            let ghost prev_facts = facts;
            assert(!is_config && !is_trig ==> ext_ok == ext_accepts(strings_view(start.extensions@), paths@[i as int]@));
            if is_config {
                out.push(WatchEvent::ConfigChanged);
            } else if is_trig {
                out.push(WatchEvent::Trigger);
            } else if ext_ok || is_explicit {
                out.push(WatchEvent::FileChanged(p.clone(), kind));
            }
            proof {
                verdicts = verdicts.push(v);
                facts = facts.push(f);
                assert(verdicts.drop_last() =~= prev_verdicts);
                assert(forall|j: int| 0 <= j < i ==> verdicts[j] == prev_verdicts[j] && facts[j] == prev_facts[j]);
                assert(verdicts_events(strings_view(paths@), kind, verdicts)
                    == before + verdict_events(strings_view(paths@)[i as int], kind, v));
                assert(events_view(out@) =~= before + verdict_events(strings_view(paths@)[i as int], kind, v));
            }
            if is_trig {
                assert(start.classification(kind, strings_view(paths@), verdicts, facts, events_view(out@)));
                return out;
            }
            i = i + 1;
        }
        assert(start.classification(kind, strings_view(paths@), verdicts, facts, events_view(out@)));
        out
    }
}


/// An event lies in the events of a run of verdicts exactly when it lies
/// in the events of one of them.
proof fn lemma_verdicts_events_member(paths: Seq<Seq<char>>, kind: ChangeKind, verdicts: Seq<PathVerdict>, e: WatchEventView)
    requires
        verdicts.len() <= paths.len(),
    ensures
        verdicts_events(paths, kind, verdicts).contains(e) <==>
            exists|i: int| 0 <= i < verdicts.len() && #[trigger] verdict_events(paths[i], kind, verdicts[i]).contains(e),
    decreases verdicts.len(),
{
    if verdicts.len() > 0 {
        let n = verdicts.len() - 1;
        let pv = verdicts.drop_last();
        lemma_verdicts_events_member(paths, kind, pv, e);
        let a = verdicts_events(paths, kind, pv);
        let b = verdict_events(paths[n], kind, verdicts[n]);
        assert(verdicts_events(paths, kind, verdicts) == a + b);
        if (a + b).contains(e) {
            let k = choose|k: int| 0 <= k < (a + b).len() && (a + b)[k] == e;
            if k < a.len() {
                assert(a[k] == e);
                let i = choose|i: int| 0 <= i < pv.len() && #[trigger] verdict_events(paths[i], kind, pv[i]).contains(e);
                assert(pv[i] == verdicts[i]);
            } else {
                assert(b[k - a.len()] == e);
                assert(verdict_events(paths[n], kind, verdicts[n]).contains(e));
            }
        }
        if exists|i: int| 0 <= i < verdicts.len() && #[trigger] verdict_events(paths[i], kind, verdicts[i]).contains(e) {
            let i = choose|i: int| 0 <= i < verdicts.len() && #[trigger] verdict_events(paths[i], kind, verdicts[i]).contains(e);
            let vi = verdict_events(paths[i], kind, verdicts[i]);
            let k = choose|k: int| 0 <= k < vi.len() && vi[k] == e;
            if i < n {
                assert(pv[i] == verdicts[i]);
                assert(a.contains(e));
                let k2 = choose|k2: int| 0 <= k2 < a.len() && a[k2] == e;
                assert((a + b)[k2] == e);
            } else {
                assert((a + b)[a.len() + k] == e);
            }
        }
    }
}

/// What a classified event reports as changed files. Every change
/// reported is of one of the event's paths, with the event's kind; that
/// path is neither the configuration file nor the trigger, and it either
/// has an extension that the filter lists (any path passes an empty
/// filter; a path without extension passes no other) or is an explicit
/// file, as written or in the canonical form the file system gave.
/// Conversely every path that is neither configuration file nor trigger
/// and passes that way is reported, with the event's kind, whatever the
/// kind (a removal included).
pub proof fn law_classify_reports(
    filter: EventFilter,
    kind: ChangeKind,
    paths: Seq<Seq<char>>,
    verdicts: Seq<PathVerdict>,
    facts: Seq<PathFacts>,
    events: Seq<WatchEventView>,
)
    requires
        filter.classification(kind, paths, verdicts, facts, events),
    ensures
        forall|j: int| 0 <= j < events.len() && (#[trigger] events[j]) is FileChanged ==>
            exists|i: int| #![trigger facts[i]] 0 <= i < verdicts.len() && {
                &&& events[j] == WatchEventView::FileChanged(paths[i], kind)
                &&& !facts[i].is_config && !facts[i].is_trigger
                &&& ((filter.extensions@.len() == 0 || exists|x: Seq<char>|
                        extension_of(paths[i]) == Some(x) && #[trigger] strings_view(filter.extensions@).contains(x))
                    || filter.explicit_hit(paths[i])
                    || (facts[i].event_canonical matches Some(c) && filter.explicit_hit(c)))
            },
        forall|i: int| 0 <= i < verdicts.len() && !(#[trigger] facts[i]).is_config && !facts[i].is_trigger && (
            (filter.extensions@.len() == 0 || exists|x: Seq<char>|
                extension_of(paths[i]) == Some(x) && #[trigger] strings_view(filter.extensions@).contains(x))
            || facts[i].is_explicit) ==>
            events.contains(WatchEventView::FileChanged(paths[i], kind)),
{
    let exts = strings_view(filter.extensions@);
    assert forall|j: int| 0 <= j < events.len() && (#[trigger] events[j]) is FileChanged implies
        exists|i: int| #![trigger facts[i]] 0 <= i < verdicts.len() && {
            &&& events[j] == WatchEventView::FileChanged(paths[i], kind)
            &&& !facts[i].is_config && !facts[i].is_trigger
            &&& ((filter.extensions@.len() == 0 || exists|x: Seq<char>|
                    extension_of(paths[i]) == Some(x) && #[trigger] strings_view(filter.extensions@).contains(x))
                || filter.explicit_hit(paths[i])
                || (facts[i].event_canonical matches Some(c) && filter.explicit_hit(c)))
        } by {
        let e = events[j];
        assert(events.contains(e));
        lemma_verdicts_events_member(paths, kind, verdicts, e);
        let i = choose|i: int| 0 <= i < verdicts.len() && #[trigger] verdict_events(paths[i], kind, verdicts[i]).contains(e);
        assert(verdicts[i] == verdict_spec(facts[i].is_config, facts[i].is_trigger, ext_accepts(exts, paths[i]), facts[i].is_explicit));
        assert(filter.facts_fit(paths[i], facts[i]));
        assert(verdicts[i] == PathVerdict::Changed);
        assert(e == WatchEventView::FileChanged(paths[i], kind));
        assert(exts.len() == filter.extensions@.len());
        if ext_accepts(exts, paths[i]) && exts.len() != 0 {
            let x = extension_of(paths[i])->0;
            assert(exts.contains(x));
        }
    }
    assert forall|i: int| 0 <= i < verdicts.len() && !(#[trigger] facts[i]).is_config && !facts[i].is_trigger && (
        (filter.extensions@.len() == 0 || exists|x: Seq<char>|
            extension_of(paths[i]) == Some(x) && #[trigger] strings_view(filter.extensions@).contains(x))
        || facts[i].is_explicit) implies
        events.contains(WatchEventView::FileChanged(paths[i], kind)) by {
        let e = WatchEventView::FileChanged(paths[i], kind);
        assert(verdicts[i] == verdict_spec(facts[i].is_config, facts[i].is_trigger, ext_accepts(exts, paths[i]), facts[i].is_explicit));
        assert(exts.len() == filter.extensions@.len());
        assert(verdicts[i] == PathVerdict::Changed);
        assert(verdict_events(paths[i], kind, verdicts[i])[0] == e);
        assert(verdict_events(paths[i], kind, verdicts[i]).contains(e));
        lemma_verdicts_events_member(paths, kind, verdicts, e);
    }
}

/// The changed files that a run of events reports, in the order of first
/// appearance: an event for a path equal to one listed updates that
/// entry's kind, others add an entry.
pub open spec fn drained_files(events: Seq<WatchEventView>) -> Seq<(Seq<char>, ChangeKind)>
    decreases events.len(),
{
    if events.len() == 0 {
        Seq::empty()
    } else {
        let prev = drained_files(events.drop_last());
        match events.last() {
            WatchEventView::FileChanged(p, k) => record_change(prev, p, k),
            _ => prev,
        }
    }
}

/// Pending events, summed up.
#[derive(Debug)]
pub struct DrainResult {
    /// Changed files, each path once, with the kind of its latest change.
    pub files: Vec<(String, ChangeKind)>,
    /// Whether the trigger file was touched.
    pub triggered: bool,
    /// Whether the configuration file changed.
    pub config_changed: bool,
}

impl DrainResult {
    /// Sums up the events drained from the watcher: the changed files,
    /// each path once with the kind of its latest change, and whether any
    /// event was a trigger or a configuration change.
    pub fn from_events(events: &Vec<WatchEvent>) -> (r: DrainResult)
        ensures
            changes_view(r.files@) == drained_files(events_view(events@)),
            r.triggered == exists|i: int| 0 <= i < events@.len() && events@[i] is Trigger,
            r.config_changed == exists|i: int| 0 <= i < events@.len() && events@[i] is ConfigChanged,
    {
        let mut files: Vec<(String, ChangeKind)> = Vec::new();
        let mut triggered = false;
        let mut config_changed = false;
        let n = events.len();
        let mut i: usize = 0;
        while i < n
            invariant
                n == events@.len(),
                i <= n,
                changes_view(files@) == drained_files(events_view(events@.take(i as int))),
                triggered == exists|j: int| 0 <= j < i && events@[j] is Trigger,
                config_changed == exists|j: int| 0 <= j < i && events@[j] is ConfigChanged,
            decreases n - i,
        {
            proof {
                assert(events_view(events@.take(i + 1)).drop_last() =~= events_view(events@.take(i as int)));
                assert(events_view(events@.take(i + 1)).last() == events@[i as int]@);
            }
            match &events[i] {
                WatchEvent::FileChanged(p, k) => {
                    record_change_in(&mut files, p, *k);
                },
                WatchEvent::Trigger => {
                    triggered = true;
                },
                WatchEvent::ConfigChanged => {
                    config_changed = true;
                },
            }
            i = i + 1;
        }
        assert(events@.take(n as int) =~= events@);
        DrainResult { files, triggered, config_changed }
    }
}

/// Whether event `i` reports a change of a path that `files` lists at `j`.
pub open spec fn lands_at(events: Seq<WatchEventView>, files: Seq<(Seq<char>, ChangeKind)>, i: int, j: int) -> bool {
    events[i] matches WatchEventView::FileChanged(q, _) && path_index(files, q) == j
}

/// Where a path of a shorter list stands, it stands in a longer list
/// that starts with the same paths.
proof fn lemma_path_index_stable(short: Seq<(Seq<char>, ChangeKind)>, long: Seq<(Seq<char>, ChangeKind)>, q: Seq<char>)
    requires
        short.len() <= long.len(),
        forall|j: int| 0 <= j < short.len() ==> (#[trigger] long[j]).0 == short[j].0,
        path_index(short, q) >= 0,
    ensures
        path_index(long, q) == path_index(short, q),
{
    lemma_path_index(short, q);
    lemma_path_index(long, q);
    let m = path_index(short, q);
    assert(long[m].0 == short[m].0);
    assert(covers(long, q));
    let x = path_index(long, q);
    if x < m {
        assert(long[x].0 == short[x].0);
    }
    if x > m {
        assert(!same_path(long[m].0, q));
    }
}

/// Draining lists each changed path once: no two entries are the same
/// path, every reported path is listed, and every entry carries the kind
/// of the latest event whose path it lists, its text being that of the
/// first such event.
pub proof fn law_drain_latest_change(events: Seq<WatchEventView>)
    ensures
        apart(drained_files(events)),
        forall|i: int| 0 <= i < events.len() && (#[trigger] events[i]) is FileChanged ==>
            path_index(drained_files(events), events[i]->FileChanged_0) >= 0,
        forall|j: int| 0 <= j < drained_files(events).len() ==>
            exists|i: int| #![trigger events[i]] 0 <= i < events.len()
                && lands_at(events, drained_files(events), i, j)
                && events[i]->FileChanged_1 == (#[trigger] drained_files(events)[j]).1
                && forall|i2: int| i < i2 < events.len() ==> !lands_at(events, drained_files(events), i2, j),
        forall|j: int| 0 <= j < drained_files(events).len() ==>
            exists|i: int| #![trigger events[i]] 0 <= i < events.len()
                && events[i] is FileChanged && events[i]->FileChanged_0 == (#[trigger] drained_files(events)[j]).0,
    decreases events.len(),
{
    if events.len() > 0 {
        let pe = events.drop_last();
        let n = events.len() - 1;
        law_drain_latest_change(pe);
        let prev = drained_files(pe);
        let cur = drained_files(events);
        assert forall|i: int| 0 <= i < n implies events[i] == pe[i] by {}
        match events.last() {
            WatchEventView::FileChanged(q, k) => {
                lemma_record_change(prev, q, k);
                lemma_path_index(prev, q);
                let x = path_index(prev, q);
                let slot = if x >= 0 { x } else { prev.len() as int };
                assert(cur == record_change(prev, q, k));
                // Paths listed before stay where they were.
                assert forall|i: int, j: int| 0 <= i < n && lands_at(pe, prev, i, j) implies lands_at(events, cur, i, j) by {
                    assert(events[i] == pe[i]);
                    let qi = pe[i]->FileChanged_0;
                    lemma_path_index_stable(prev, cur, qi);
                }
                assert forall|i: int| 0 <= i < n && (#[trigger] pe[i]) is FileChanged implies
                    path_index(cur, pe[i]->FileChanged_0) == path_index(prev, pe[i]->FileChanged_0) by {
                    lemma_path_index_stable(prev, cur, pe[i]->FileChanged_0);
                }
                assert(path_index(cur, q) == slot) by {
                    if x >= 0 {
                        lemma_path_index_stable(prev, cur, q);
                    } else {
                        lemma_path_index(cur, q);
                        assert(cur[prev.len() as int].0 == q);
                        let y = path_index(cur, q);
                        if 0 <= y < prev.len() {
                            assert(cur[y].0 == prev[y].0);
                            assert(covers(prev, q));
                        }
                        if y > prev.len() {
                            assert(!same_path(cur[prev.len() as int].0, q));
                        }
                    }
                }
                assert(lands_at(events, cur, n, slot));
                assert forall|i: int| 0 <= i < events.len() && (#[trigger] events[i]) is FileChanged implies
                    path_index(cur, events[i]->FileChanged_0) >= 0 by {
                    if i < n {
                        assert(pe[i] == events[i]);
                    }
                }
                assert forall|j: int| 0 <= j < cur.len() implies
                    exists|i: int| #![trigger events[i]] 0 <= i < events.len()
                        && lands_at(events, cur, i, j)
                        && events[i]->FileChanged_1 == (#[trigger] cur[j]).1
                        && forall|i2: int| i < i2 < events.len() ==> !lands_at(events, cur, i2, j) by {
                    if j == slot {
                        assert(cur[j].1 == k);
                        assert(events[n]->FileChanged_1 == k);
                        assert(lands_at(events, cur, n, j));
                    } else {
                        assert(j < prev.len() && cur[j] == prev[j]);
                        let i = choose|i: int| #![trigger pe[i]] 0 <= i < pe.len()
                            && lands_at(pe, prev, i, j)
                            && pe[i]->FileChanged_1 == prev[j].1
                            && forall|i2: int| i < i2 < pe.len() ==> !lands_at(pe, prev, i2, j);
                        assert(lands_at(events, cur, i, j));
                        assert(events[i] == pe[i]);
                        assert forall|i2: int| i < i2 < events.len() implies !lands_at(events, cur, i2, j) by {
                            if i2 < n {
                                assert(events[i2] == pe[i2]);
                                assert(!lands_at(pe, prev, i2, j));
                                if pe[i2] is FileChanged {
                                    lemma_path_index_stable(prev, cur, pe[i2]->FileChanged_0);
                                }
                            }
                        }
                    }
                }
                assert forall|j: int| 0 <= j < cur.len() implies
                    exists|i: int| #![trigger events[i]] 0 <= i < events.len()
                        && events[i] is FileChanged && events[i]->FileChanged_0 == (#[trigger] cur[j]).0 by {
                    if j < prev.len() {
                        assert(cur[j].0 == prev[j].0);
                        let i = choose|i: int| #![trigger pe[i]] 0 <= i < pe.len()
                            && pe[i] is FileChanged && pe[i]->FileChanged_0 == prev[j].0;
                        assert(events[i] == pe[i]);
                    } else {
                        assert(cur[j].0 == q);
                        assert(events[n] is FileChanged);
                    }
                }
            },
            _ => {
                assert(cur == prev);
                assert forall|i: int| 0 <= i < events.len() && (#[trigger] events[i]) is FileChanged implies
                    path_index(cur, events[i]->FileChanged_0) >= 0 by {
                    assert(pe[i] == events[i]);
                }
                assert forall|j: int| 0 <= j < cur.len() implies
                    exists|i: int| #![trigger events[i]] 0 <= i < events.len()
                        && lands_at(events, cur, i, j)
                        && events[i]->FileChanged_1 == (#[trigger] cur[j]).1
                        && forall|i2: int| i < i2 < events.len() ==> !lands_at(events, cur, i2, j) by {
                    let i = choose|i: int| #![trigger pe[i]] 0 <= i < pe.len()
                        && lands_at(pe, prev, i, j)
                        && pe[i]->FileChanged_1 == prev[j].1
                        && forall|i2: int| i < i2 < pe.len() ==> !lands_at(pe, prev, i2, j);
                    assert(events[i] == pe[i]);
                    assert forall|i2: int| i < i2 < events.len() implies !lands_at(events, cur, i2, j) by {
                        if i2 < n {
                            assert(events[i2] == pe[i2]);
                            assert(!lands_at(pe, prev, i2, j));
                        }
                    }
                }
                assert forall|j: int| 0 <= j < cur.len() implies
                    exists|i: int| #![trigger events[i]] 0 <= i < events.len()
                        && events[i] is FileChanged && events[i]->FileChanged_0 == (#[trigger] cur[j]).0 by {
                    let i = choose|i: int| #![trigger pe[i]] 0 <= i < pe.len()
                        && pe[i] is FileChanged && pe[i]->FileChanged_0 == prev[j].0;
                    assert(events[i] == pe[i]);
                }
            },
        }
    }
}

} // verus!
