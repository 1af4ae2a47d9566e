use rewatch::process::{split_command, ChildState, KillAction, WaitAction};
use rewatch::supervisor::{
    after_change, after_trigger, on_enter, print_changes_deduped, prompt_step, reload_decision, running_step,
    FollowUp, LoopAction, PromptStep, ReloadDecision, RunningStep, SeenPaths, WaitOutcome,
};
use rewatch::supervisor::{plan_stop, AfterStop, StopReason};
use rewatch::config::{CliArgs, Config};
use rewatch::watcher::{ChangeKind, DrainResult, WatchEvent};

fn s(x: &str) -> String {
    x.to_string()
}

fn config_with_hash(hash: Option<u64>) -> Config {
    let cli = CliArgs {
        watch: vec![s("src")],
        ext: vec![],
        trigger: None,
        trigger_always: false,
        env: vec![],
        config: None,
        command: vec![s("true")],
    };
    let mut c = Config::resolve(cli, None).expect("valid");
    c.config_hash = hash;
    c
}

fn drain(files: Vec<(String, ChangeKind)>, triggered: bool, config_changed: bool) -> DrainResult {
    DrainResult { files, triggered, config_changed }
}

#[test]
fn changes_are_shown_once() {
    let mut seen = SeenPaths::new();
    assert!(seen.insert(&s("a.rs"), ChangeKind::Created));
    let files = vec![
        (s("a.rs"), ChangeKind::Modified),
        (s("b.rs"), ChangeKind::Created),
        (s("b.rs"), ChangeKind::Removed),
        (s("c.rs"), ChangeKind::Removed),
    ];
    let shown = print_changes_deduped(&mut seen, &files);
    assert_eq!(shown, vec![(s("b.rs"), ChangeKind::Created), (s("c.rs"), ChangeKind::Removed)]);
    assert!(seen.contains(&s("c.rs")));
    // an already-seen path keeps the kind of its latest change
    assert_eq!(seen.kind_of(&s("a.rs")), Some(ChangeKind::Modified));
    assert_eq!(seen.kind_of(&s("b.rs")), Some(ChangeKind::Removed));
    assert_eq!(seen.kind_of(&s("d.rs")), None);
    let again = print_changes_deduped(&mut seen, &files);
    assert!(again.is_empty());
}

#[test]
fn trigger_is_ignored_while_running() {
    assert!(matches!(running_step(WatchEvent::Trigger, false), RunningStep::KeepWaiting));
    assert!(matches!(running_step(WatchEvent::Trigger, true), RunningStep::ReportTrigger));
    assert!(matches!(running_step(WatchEvent::ConfigChanged, false), RunningStep::CheckConfig));
    match running_step(WatchEvent::FileChanged(s("x.rs"), ChangeKind::Modified), false) {
        RunningStep::ReportChange(p, k) => {
            assert_eq!(p, "x.rs");
            assert_eq!(k, ChangeKind::Modified);
        }
        other => panic!("unexpected {:?}", other),
    }
}

#[test]
fn unchanged_config_is_not_reloaded() {
    assert!(matches!(reload_decision(Some(5), Ok(config_with_hash(Some(5)))), ReloadDecision::Unchanged));
    assert!(matches!(reload_decision(Some(5), Ok(config_with_hash(Some(6)))), ReloadDecision::Apply(_)));
    assert!(matches!(reload_decision(None, Ok(config_with_hash(Some(6)))), ReloadDecision::Apply(_)));
    match reload_decision(Some(5), Err(s("Failed to parse rewatch.toml"))) {
        ReloadDecision::Failed(e) => assert_eq!(e, "Failed to parse rewatch.toml"),
        other => panic!("unexpected {:?}", other),
    }
}

#[test]
fn wait_outcome_to_loop_action() {
    assert!(matches!(LoopAction::after_wait(WaitOutcome::Restart), LoopAction::Resume));
    assert!(matches!(LoopAction::after_wait(WaitOutcome::Exit), LoopAction::Exit));
    match LoopAction::after_wait(WaitOutcome::Reload(config_with_hash(Some(9)))) {
        LoopAction::Reload(c) => assert_eq!(c.config_hash, Some(9)),
        other => panic!("unexpected {:?}", other),
    }
}

#[test]
fn follow_up_after_change_and_trigger() {
    let d = drain(vec![], true, true);
    assert!(matches!(after_change(&d, Some(config_with_hash(Some(1)))), FollowUp::Reload(_)));
    assert!(matches!(after_change(&d, None), FollowUp::Restart));
    let d = drain(vec![], false, false);
    assert!(matches!(after_change(&d, None), FollowUp::Prompt));
    let d = drain(vec![], false, true);
    assert!(matches!(after_trigger(&d, Some(config_with_hash(Some(1)))), FollowUp::Reload(_)));
    assert!(matches!(after_trigger(&d, None), FollowUp::Restart));
}

#[test]
fn prompt_steps() {
    let mut seen = SeenPaths::new();
    assert!(matches!(prompt_step(WatchEvent::FileChanged(s("a.rs"), ChangeKind::Created), &mut seen), PromptStep::Show(_, _)));
    assert!(matches!(prompt_step(WatchEvent::FileChanged(s("a.rs"), ChangeKind::Modified), &mut seen), PromptStep::Nothing));
    assert!(matches!(prompt_step(WatchEvent::Trigger, &mut seen), PromptStep::Restart));
    assert!(matches!(prompt_step(WatchEvent::ConfigChanged, &mut seen), PromptStep::CheckConfig));
}

#[test]
fn enter_shows_accumulated_changes() {
    let mut seen = SeenPaths::new();
    seen.insert(&s("a.rs"), ChangeKind::Created);
    let d = drain(vec![(s("a.rs"), ChangeKind::Modified), (s("b.rs"), ChangeKind::Created)], false, false);
    let (outcome, shown) = on_enter(&d, None, &mut seen);
    assert!(matches!(outcome, WaitOutcome::Restart));
    assert_eq!(shown, vec![(s("b.rs"), ChangeKind::Created)]);
    let d = drain(vec![(s("c.rs"), ChangeKind::Created)], false, true);
    let (outcome, shown) = on_enter(&d, Some(config_with_hash(Some(3))), &mut seen);
    assert!(matches!(outcome, WaitOutcome::Reload(_)));
    assert!(shown.is_empty());
    assert!(!seen.contains(&s("c.rs")));
}

#[test]
fn child_is_killed_once() {
    let mut st: ChildState<i32> = ChildState::new();
    assert!(matches!(st.wait_action(), WaitAction::Poll));
    assert_eq!(st.request_kill(), KillAction::KillAndWait);
    assert_eq!(st.request_kill(), KillAction::AlreadyDone);
    assert!(matches!(st.wait_action(), WaitAction::Cached(None)));
}

#[test]
fn exit_status_is_remembered() {
    let mut st: ChildState<i32> = ChildState::new();
    st.record_poll(None);
    assert!(matches!(st.wait_action(), WaitAction::Poll));
    st.record_poll(Some(3));
    assert!(matches!(st.wait_action(), WaitAction::Cached(Some(3))));
    assert_eq!(st.request_kill(), KillAction::AlreadyDone);
    assert!(matches!(st.wait_action(), WaitAction::Cached(Some(3))));
}

#[test]
fn seen_file_gets_latest_kind_and_is_not_shown() {
    let mut seen = SeenPaths::new();
    seen.insert(&s("/a"), ChangeKind::Created);
    let shown = print_changes_deduped(&mut seen, &vec![(s("/a"), ChangeKind::Removed)]);
    assert!(shown.is_empty());
    assert_eq!(seen.kind_of(&s("/a")), Some(ChangeKind::Removed));
}

#[test]
fn seen_paths_compare_as_paths() {
    let mut seen = SeenPaths::new();
    assert!(seen.insert(&s("/x/y"), ChangeKind::Created));
    assert!(seen.contains(&s("/x//y/")));
    assert!(!seen.insert(&s("/x/./y"), ChangeKind::Removed));
    assert_eq!(seen.kind_of(&s("/x/y")), Some(ChangeKind::Removed));
    let shown = print_changes_deduped(&mut seen, &vec![(s("/x//y"), ChangeKind::Modified), (s("/z"), ChangeKind::Created), (s("/z/"), ChangeKind::Removed)]);
    assert_eq!(shown, vec![(s("/z"), ChangeKind::Created)]);
    assert_eq!(seen.kind_of(&s("/z")), Some(ChangeKind::Removed));
    assert_eq!(seen.kind_of(&s("/x/y")), Some(ChangeKind::Modified));
}

#[test]
fn command_splits_into_program_and_arguments() {
    assert_eq!(split_command(&vec![]), None);
    assert_eq!(
        split_command(&vec![s("cargo"), s("run"), s("--release")]),
        Some((s("cargo"), vec![s("run"), s("--release")]))
    );
}

#[test]
fn stop_plan_kills_a_running_command_only() {
    let p = plan_stop(StopReason::FileChanged(s("a.rs"), ChangeKind::Modified));
    assert!(p.kill && !p.clear_exit_request);
    assert!(matches!(p.next, AfterStop::FollowChange(ref q, ChangeKind::Modified) if q == "a.rs"));
    let p = plan_stop(StopReason::ConfigChanged(config_with_hash(Some(7))));
    assert!(p.kill && !p.clear_exit_request);
    assert!(matches!(p.next, AfterStop::Reload(ref c) if c.config_hash == Some(7)));
    let p = plan_stop(StopReason::Trigger);
    assert!(p.kill && !p.clear_exit_request && matches!(p.next, AfterStop::FollowTrigger));
    let p = plan_stop(StopReason::ProcessExited);
    assert!(!p.kill && !p.clear_exit_request && matches!(p.next, AfterStop::Prompt));
    let p = plan_stop(StopReason::ProcessError);
    assert!(!p.kill && matches!(p.next, AfterStop::Prompt));
    let p = plan_stop(StopReason::CtrlC);
    assert!(p.kill && p.clear_exit_request && matches!(p.next, AfterStop::Prompt));
}
