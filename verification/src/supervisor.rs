//! The supervise loop's decisions. The loop itself (waiting, reading
//! input, spawning and killing, printing) runs outside; each step here
//! takes what happened and says what to do next.

use vstd::prelude::*;

use crate::config::Config;
use crate::changes::{
    apart, changes_view, covers, find_same_path, lemma_path_index, lemma_record_all, lemma_record_change, path_index,
    record_all, record_change, record_change_in,
};
use crate::paths::same_path;
use crate::watcher::{ChangeKind, DrainResult, WatchEvent};

verus! {

/// The paths already shown while waiting, each with the kind of its
/// latest change, paths being compared as paths.
#[derive(Debug)]
pub struct SeenPaths {
    entries: Vec<(String, ChangeKind)>,
}

impl View for SeenPaths {
    type V = Seq<(Seq<char>, ChangeKind)>;

    closed spec fn view(&self) -> Seq<(Seq<char>, ChangeKind)> {
        changes_view(self.entries@)
    }
}

impl SeenPaths {
    /// No path seen yet.
    pub fn new() -> (r: SeenPaths)
        ensures
            r@ == Seq::<(Seq<char>, ChangeKind)>::empty(),
    {
        let r = SeenPaths { entries: Vec::new() };
        assert(r@ =~= Seq::empty());
        r
    }

    /// Whether a path equal to `p` was seen.
    pub fn contains(&self, p: &String) -> (r: bool)
        ensures
            r == covers(self@, p@),
    {
        proof { lemma_path_index(self@, p@); }
        match find_same_path(&self.entries, p.as_str()) {
            Some(_) => true,
            None => false,
        }
    }

    /// The kind of the latest change recorded for a path equal to `p`, if
    /// one was seen.
    pub fn kind_of(&self, p: &String) -> (r: Option<ChangeKind>)
        ensures
            r == (if path_index(self@, p@) >= 0 { Some(self@[path_index(self@, p@)].1) } else { None::<ChangeKind> }),
    {
        proof { lemma_path_index(self@, p@); }
        match find_same_path(&self.entries, p.as_str()) {
            Some(j) => {
                assert(self@[j as int].1 == self.entries@[j as int].1);
                Some(self.entries[j].1)
            },
            None => None,
        }
    }

    /// Records that `p` changed by `k`; tells whether `p` is new. A path
    /// seen already gets its kind updated to `k`, its text staying as
    /// first recorded.
    pub fn insert(&mut self, p: &String, k: ChangeKind) -> (r: bool)
        ensures
            r == !covers(old(self)@, p@),
            final(self)@ == record_change(old(self)@, p@, k),
    {
        proof { lemma_path_index(self@, p@); }
        record_change_in(&mut self.entries, p, k)
    }
}

/// The changes to show: each entry whose path was neither seen already
/// nor recorded by an earlier entry, in order.
pub open spec fn fresh_changes(seen: Seq<(Seq<char>, ChangeKind)>, files: Seq<(Seq<char>, ChangeKind)>) -> Seq<(Seq<char>, ChangeKind)>
    decreases files.len(),
{
    if files.len() == 0 {
        Seq::empty()
    } else {
        let prev = fresh_changes(seen, files.drop_last());
        if covers(record_all(seen, files.drop_last()), files.last().0) {
            prev
        } else {
            prev.push(files.last())
        }
    }
}

/// Selects the changes of `files` not shown yet, in order, each path once,
/// and records every change in `seen`: new paths are added, and paths
/// seen already get the kind of their latest change. The caller shows
/// what comes back.
pub fn print_changes_deduped(seen: &mut SeenPaths, files: &Vec<(String, ChangeKind)>) -> (r: Vec<(String, ChangeKind)>)
    ensures
        changes_view(r@) == fresh_changes(old(seen)@, changes_view(files@)),
        final(seen)@ == record_all(old(seen)@, changes_view(files@)),
{
    let ghost seen0 = seen@;
    let mut out: Vec<(String, ChangeKind)> = Vec::new();
    let n = files.len();
    let mut i: usize = 0;
    while i < n
        invariant
            n == files@.len(),
            i <= n,
            changes_view(out@) == fresh_changes(seen0, changes_view(files@).take(i as int)),
            seen@ == record_all(seen0, changes_view(files@).take(i as int)),
        decreases n - i,
    {
        let ghost fs = changes_view(files@);
        let ghost prev_out = changes_view(out@);
        proof {
            assert(fs.take(i + 1).drop_last() =~= fs.take(i as int));
            assert(fs.take(i + 1).last() == fs[i as int]);
        }
        let (p, k) = (&files[i].0, files[i].1);
        let fresh = seen.insert(p, k);
        if fresh {
            out.push((p.clone(), k));
            proof {
                assert(changes_view(out@) =~= prev_out.push(fs[i as int]));
            }
        }
        i = i + 1;
    }
    assert(changes_view(files@).take(n as int) =~= changes_view(files@));
    out
}

/// What the supervise loop does after a prompt.
#[derive(Debug)]
pub enum WaitOutcome {
    /// Enter was pressed or the trigger touched: start the command again.
    Restart,
    /// The configuration file changed for real: use the new one.
    Reload(Config),
    /// Shutdown was requested.
    Exit,
}

/// The loop's next move.
#[derive(Debug)]
pub enum LoopAction {
    /// Stay in the supervise loop and respawn with the current config.
    Resume,
    /// Start over with the new configuration.
    Reload(Config),
    /// Shut down.
    Exit,
}

impl LoopAction {
    /// The loop's next move after a prompt (`handle_wait`): a restart
    /// resumes the supervise loop, a reload carries the new configuration
    /// on, an exit exits.
    pub fn after_wait(outcome: WaitOutcome) -> (r: LoopAction)
        ensures
            match outcome {
                WaitOutcome::Restart => r is Resume,
                WaitOutcome::Exit => r is Exit,
                WaitOutcome::Reload(c) => r == LoopAction::Reload(c),
            },
    {
        match outcome {
            WaitOutcome::Restart => LoopAction::Resume,
            WaitOutcome::Reload(c) => LoopAction::Reload(c),
            WaitOutcome::Exit => LoopAction::Exit,
        }
    }
}

/// What becomes of a configuration loaded again after its file changed.
#[derive(Debug)]
pub enum ReloadDecision {
    /// It differs from the running one: switch to it.
    Apply(Config),
    /// Same text as the running one (a save without edits, a `touch`):
    /// keep running, say nothing.
    Unchanged,
    /// It could not be loaded: keep running the old one, warn.
    Failed(String),
}

/// Decides a reload (`try_reload`): a configuration whose file hash equals
/// the running one's is ignored; a load error keeps the old configuration
/// running; anything else is applied.
pub fn reload_decision(prev_hash: Option<u64>, loaded: Result<Config, String>) -> (r: ReloadDecision)
    ensures
        match loaded {
            Ok(c) => if c.config_hash == prev_hash { r is Unchanged } else { r == ReloadDecision::Apply(c) },
            Err(e) => r == ReloadDecision::Failed(e),
        },
{
    match loaded {
        Ok(c) => {
            if c.config_hash == prev_hash {
                ReloadDecision::Unchanged
            } else {
                ReloadDecision::Apply(c)
            }
        },
        Err(e) => ReloadDecision::Failed(e),
    }
}

/// What to do with a watch event while the command runs.
#[derive(Debug)]
pub enum RunningStep {
    /// A file changed: stop the command and report it.
    ReportChange(String, ChangeKind),
    /// The configuration file changed: load it again and see.
    CheckConfig,
    /// The trigger fired: restart.
    ReportTrigger,
    /// Nothing to do: keep waiting.
    KeepWaiting,
}

/// Decides a watch event while the command runs (`wait_for_event`): a
/// file change is reported, a configuration change is checked, and the
/// trigger restarts only with `trigger_always`; otherwise it is ignored
/// while the command runs.
pub fn running_step(event: WatchEvent, trigger_always: bool) -> (r: RunningStep)
    ensures
        match event {
            WatchEvent::FileChanged(p, k) => r == RunningStep::ReportChange(p, k),
            WatchEvent::ConfigChanged => r is CheckConfig,
            WatchEvent::Trigger => if trigger_always { r is ReportTrigger } else { r is KeepWaiting },
        },
{
    match event {
        WatchEvent::FileChanged(p, k) => RunningStep::ReportChange(p, k),
        WatchEvent::ConfigChanged => RunningStep::CheckConfig,
        WatchEvent::Trigger => if trigger_always { RunningStep::ReportTrigger } else { RunningStep::KeepWaiting },
    }
}

/// What ended the wait while the command ran.
#[derive(Debug)]
pub enum StopReason {
    /// The configuration file changed for real; the new one is loaded.
    ConfigChanged(Config),
    /// A watched file changed.
    FileChanged(String, ChangeKind),
    /// The trigger fired.
    Trigger,
    /// The command exited by itself.
    ProcessExited,
    /// Polling the command failed.
    ProcessError,
    /// Ctrl+C was pressed.
    CtrlC,
}

/// What comes after the command was dealt with.
#[derive(Debug)]
pub enum AfterStop {
    /// Start over with the new configuration.
    Reload(Config),
    /// Report the change, drain pending events and decide (`after_change`).
    FollowChange(String, ChangeKind),
    /// Drain pending events and decide (`after_trigger`).
    FollowTrigger,
    /// Prompt and wait.
    Prompt,
}

/// How the supervise loop handles the end of a wait.
#[derive(Debug)]
pub struct StopPlan {
    /// Withdraw the shutdown request first: Ctrl+C while the command runs
    /// stops the command, not the supervisor.
    pub clear_exit_request: bool,
    /// Kill the command and wait for it.
    pub kill: bool,
    /// What follows.
    pub next: AfterStop,
}

/// Decides what the supervise loop does when a wait ends: the command is
/// killed whenever it may still run (every reason but its own exit or a
/// failed poll); a configuration change reloads; a file change or the
/// trigger goes on to drain pending events; an exit, a poll error or
/// Ctrl+C prompts, Ctrl+C withdrawing the shutdown request.
pub fn plan_stop(reason: StopReason) -> (r: StopPlan)
    ensures
        r.kill == !(reason is ProcessExited || reason is ProcessError),
        r.clear_exit_request == reason is CtrlC,
        match reason {
            StopReason::ConfigChanged(c) => r.next == AfterStop::Reload(c),
            StopReason::FileChanged(p, k) => r.next == AfterStop::FollowChange(p, k),
            StopReason::Trigger => r.next is FollowTrigger,
            _ => r.next is Prompt,
        },
{
    match reason {
        StopReason::ConfigChanged(c) => StopPlan { clear_exit_request: false, kill: true, next: AfterStop::Reload(c) },
        StopReason::FileChanged(p, k) => StopPlan {
            clear_exit_request: false,
            kill: true,
            next: AfterStop::FollowChange(p, k),
        },
        StopReason::Trigger => StopPlan { clear_exit_request: false, kill: true, next: AfterStop::FollowTrigger },
        StopReason::ProcessExited => StopPlan { clear_exit_request: false, kill: false, next: AfterStop::Prompt },
        StopReason::ProcessError => StopPlan { clear_exit_request: false, kill: false, next: AfterStop::Prompt },
        StopReason::CtrlC => StopPlan { clear_exit_request: true, kill: true, next: AfterStop::Prompt },
    }
}

/// What to do once the command was stopped and pending events drained.
#[derive(Debug)]
pub enum FollowUp {
    /// Start over with the new configuration.
    Reload(Config),
    /// Restart the command at once.
    Restart,
    /// Prompt and wait.
    Prompt,
}

/// After a file change stopped the command and the pending events were
/// drained: a real configuration change reloads (`reload` is what loading
/// it again gave, when the drain saw one); else a trigger among the
/// drained events restarts at once; else the user is prompted.
pub fn after_change(drain: &DrainResult, reload: Option<Config>) -> (r: FollowUp)
    ensures
        match (drain.config_changed, reload) {
            (true, Some(c)) => r == FollowUp::Reload(c),
            _ => if drain.triggered { r is Restart } else { r is Prompt },
        },
{
    match reload {
        Some(c) => if drain.config_changed {
            return FollowUp::Reload(c);
        },
        None => {},
    }
    if drain.triggered {
        FollowUp::Restart
    } else {
        FollowUp::Prompt
    }
}

/// After the trigger stopped the command and the pending events were
/// drained: a real configuration change reloads, else the command
/// restarts at once.
pub fn after_trigger(drain: &DrainResult, reload: Option<Config>) -> (r: FollowUp)
    ensures
        match (drain.config_changed, reload) {
            (true, Some(c)) => r == FollowUp::Reload(c),
            _ => r is Restart,
        },
{
    match reload {
        Some(c) => if drain.config_changed {
            return FollowUp::Reload(c);
        },
        None => {},
    }
    FollowUp::Restart
}

/// What to do with a watch event at the prompt.
#[derive(Debug)]
pub enum PromptStep {
    /// The configuration file changed: load it again and see.
    CheckConfig,
    /// The trigger fired: restart.
    Restart,
    /// A file changed for the first time at this prompt: show it.
    Show(String, ChangeKind),
    /// Nothing to do.
    Nothing,
}

/// Decides a watch event at the prompt (`prompt_and_wait`): the trigger
/// restarts; a configuration change is checked; a changed file is shown
/// the first time only.
pub fn prompt_step(event: WatchEvent, seen: &mut SeenPaths) -> (r: PromptStep)
    ensures
        match event {
            WatchEvent::FileChanged(p, k) => {
                &&& final(seen)@ == record_change(old(seen)@, p@, k)
                &&& if covers(old(seen)@, p@) { r is Nothing } else { r == PromptStep::Show(p, k) }
            },
            WatchEvent::ConfigChanged => r is CheckConfig && final(seen)@ == old(seen)@,
            WatchEvent::Trigger => r is Restart && final(seen)@ == old(seen)@,
        },
{
    match event {
        WatchEvent::FileChanged(p, k) => {
            if seen.insert(&p, k) {
                PromptStep::Show(p, k)
            } else {
                PromptStep::Nothing
            }
        },
        WatchEvent::ConfigChanged => PromptStep::CheckConfig,
        WatchEvent::Trigger => PromptStep::Restart,
    }
}

/// When Enter is pressed at the prompt and pending events were drained:
/// a real configuration change reloads (nothing shown); otherwise the
/// command restarts, and the drained changes not yet shown are returned
/// to be shown.
pub fn on_enter(drain: &DrainResult, reload: Option<Config>, seen: &mut SeenPaths) -> (r: (WaitOutcome, Vec<(String, ChangeKind)>))
    ensures
        match (drain.config_changed, reload) {
            (true, Some(c)) => r.0 == WaitOutcome::Reload(c) && r.1@.len() == 0 && final(seen)@ == old(seen)@,
            _ => {
                &&& r.0 is Restart
                &&& changes_view(r.1@) == fresh_changes(old(seen)@, changes_view(drain.files@))
                &&& final(seen)@ == record_all(old(seen)@, changes_view(drain.files@))
            },
        },
{
    match reload {
        Some(c) => if drain.config_changed {
            return (WaitOutcome::Reload(c), Vec::new());
        },
        None => {},
    }
    let shown = print_changes_deduped(seen, &drain.files);
    (WaitOutcome::Restart, shown)
}


/// What recording `files` after `seen` lists: the entries of `seen`, then
/// those that `fresh_changes` selects, by their paths.
proof fn lemma_record_all_fresh(seen: Seq<(Seq<char>, ChangeKind)>, files: Seq<(Seq<char>, ChangeKind)>)
    ensures
        record_all(seen, files).len() == seen.len() + fresh_changes(seen, files).len(),
        forall|j: int| 0 <= j < seen.len() ==> (#[trigger] record_all(seen, files)[j]).0 == seen[j].0,
        forall|j: int| 0 <= j < fresh_changes(seen, files).len() ==>
            (#[trigger] record_all(seen, files)[seen.len() + j]).0 == fresh_changes(seen, files)[j].0,
        forall|j: int| 0 <= j < fresh_changes(seen, files).len() ==>
            exists|i: int| 0 <= i < files.len() && files[i] == #[trigger] fresh_changes(seen, files)[j],
    decreases files.len(),
{
    if files.len() > 0 {
        let pf = files.drop_last();
        let e = files.last();
        lemma_record_all_fresh(seen, pf);
        let prev = record_all(seen, pf);
        let fr = fresh_changes(seen, pf);
        lemma_record_change(prev, e.0, e.1);
        lemma_path_index(prev, e.0);
        let cur = record_all(seen, files);
        assert(cur == record_change(prev, e.0, e.1));
        assert forall|j: int| 0 <= j < fresh_changes(seen, files).len() implies
            exists|i: int| 0 <= i < files.len() && files[i] == #[trigger] fresh_changes(seen, files)[j] by {
            if j < fr.len() {
                let i = choose|i: int| 0 <= i < pf.len() && pf[i] == #[trigger] fr[j];
                assert(files[i] == pf[i]);
            } else {
                assert(files[files.len() - 1] == e);
            }
        }
        if covers(prev, e.0) {
            assert(cur.len() == prev.len());
        } else {
            assert(cur.len() == prev.len() + 1);
            assert(cur[prev.len() as int].0 == e.0);
        }
    }
}

/// What the paths recorded after `seen` cover: what `seen` covers and what
/// the selected changes cover.
proof fn lemma_covers_split(seen: Seq<(Seq<char>, ChangeKind)>, files: Seq<(Seq<char>, ChangeKind)>, q: Seq<char>)
    ensures
        covers(record_all(seen, files), q) <==> covers(seen, q) || covers(fresh_changes(seen, files), q),
{
    lemma_record_all_fresh(seen, files);
    let r = record_all(seen, files);
    let fr = fresh_changes(seen, files);
    if covers(r, q) {
        let j = choose|j: int| 0 <= j < r.len() && same_path(#[trigger] r[j].0, q);
        if j < seen.len() {
            assert(same_path(seen[j].0, q));
        } else {
            assert(r[seen.len() + (j - seen.len())].0 == fr[j - seen.len()].0);
            assert(same_path(fr[j - seen.len()].0, q));
        }
    }
    if covers(seen, q) {
        let j = choose|j: int| 0 <= j < seen.len() && same_path(#[trigger] seen[j].0, q);
        assert(same_path(r[j].0, q));
    }
    if covers(fr, q) {
        let j = choose|j: int| 0 <= j < fr.len() && same_path(#[trigger] fr[j].0, q);
        assert(same_path(r[seen.len() + j].0, q));
    }
}

/// Each change is shown once: the changes selected are changes of
/// `files`, no two of them are the same path, none was seen before, and
/// every path of `files` is either shown or was seen before.
pub proof fn law_changes_shown_once(seen: Seq<(Seq<char>, ChangeKind)>, files: Seq<(Seq<char>, ChangeKind)>)
    ensures
        apart(fresh_changes(seen, files)),
        forall|j: int| 0 <= j < fresh_changes(seen, files).len() ==> !covers(seen, #[trigger] fresh_changes(seen, files)[j].0),
        forall|j: int| 0 <= j < fresh_changes(seen, files).len() ==>
            exists|i: int| 0 <= i < files.len() && files[i] == #[trigger] fresh_changes(seen, files)[j],
        forall|i: int| 0 <= i < files.len() ==>
            covers(fresh_changes(seen, files), #[trigger] files[i].0) || covers(seen, files[i].0),
    decreases files.len(),
{
    lemma_record_all_fresh(seen, files);
    if files.len() > 0 {
        let pf = files.drop_last();
        let e = files.last();
        law_changes_shown_once(seen, pf);
        let prev = record_all(seen, pf);
        let fr = fresh_changes(seen, pf);
        let cur = fresh_changes(seen, files);
        lemma_covers_split(seen, pf, e.0);
        assert forall|i: int| 0 <= i < files.len() implies
            covers(cur, #[trigger] files[i].0) || covers(seen, files[i].0) by {
            if i < pf.len() {
                assert(files[i] == pf[i]);
                if covers(fr, pf[i].0) {
                    let j = choose|j: int| 0 <= j < fr.len() && same_path(#[trigger] fr[j].0, pf[i].0);
                    assert(cur[j] == fr[j]);
                }
            } else if covers(prev, e.0) {
                if covers(fr, e.0) {
                    let j = choose|j: int| 0 <= j < fr.len() && same_path(#[trigger] fr[j].0, e.0);
                    assert(cur[j] == fr[j]);
                }
            } else {
                assert(same_path(cur[fr.len() as int].0, e.0));
            }
        }
        if !covers(prev, e.0) {
            assert(cur == fr.push(e));
            lemma_covers_split(seen, pf, e.0);
            assert forall|a: int, b: int| 0 <= a < b < cur.len() implies !same_path(#[trigger] cur[a].0, #[trigger] cur[b].0) by {
                if b == fr.len() {
                    assert(cur[a] == fr[a]);
                    if same_path(fr[a].0, e.0) {
                        assert(covers(fr, e.0));
                    }
                } else {
                    assert(cur[a] == fr[a] && cur[b] == fr[b]);
                }
            }
            assert forall|j: int| 0 <= j < cur.len() implies !covers(seen, #[trigger] cur[j].0) by {
                if j < fr.len() {
                    assert(cur[j] == fr[j]);
                }
            }
        }
    }
}

/// Showing the same changes again shows nothing: once recorded, every
/// path counts as seen.
pub proof fn law_changes_shown_again_is_empty(seen: Seq<(Seq<char>, ChangeKind)>, files: Seq<(Seq<char>, ChangeKind)>)
    ensures
        fresh_changes(record_all(seen, files), files).len() == 0,
{
    lemma_record_all(seen, files);
    let r = record_all(seen, files);
    law_changes_shown_once(r, files);
    let fr = fresh_changes(r, files);
    if fr.len() > 0 {
        let i = choose|i: int| 0 <= i < files.len() && files[i] == #[trigger] fr[0];
        assert(covers(r, files[i].0));
    }
}

} // verus!
