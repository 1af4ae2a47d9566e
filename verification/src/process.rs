//! The life cycle of the supervised child process: once it has been
//! killed and waited for, or seen to exit, it is done for good, and its
//! exit status is remembered.

use vstd::prelude::*;

use crate::text::{lemma_strings_view_push, strings_view};

verus! {

/// What is known of a child: whether it is done (exited, or killed and
/// waited for), and the exit status seen, if any. `S` is the status type.
#[derive(Debug)]
pub struct ChildState<S> {
    pub last_status: Option<S>,
    pub done: bool,
}

/// What to do when asked to stop the child.
#[derive(PartialEq, Eq, Debug, Structural)]
pub enum KillAction {
    /// It is already done: nothing to do.
    AlreadyDone,
    /// Kill it and wait for it.
    KillAndWait,
}

/// What to do when asked whether the child exited.
#[derive(Debug)]
pub enum WaitAction<S> {
    /// It is done: report the status remembered (none if it was killed
    /// before its exit was seen).
    Cached(Option<S>),
    /// Ask the operating system.
    Poll,
}

/// The state after a kill request.
pub open spec fn after_kill<S>(st: ChildState<S>) -> ChildState<S> {
    ChildState { last_status: st.last_status, done: true }
}

/// The answer to an exit query.
pub open spec fn wait_action_spec<S>(st: ChildState<S>) -> WaitAction<S> {
    if st.done {
        WaitAction::Cached(st.last_status)
    } else {
        WaitAction::Poll
    }
}

/// The state after a poll that saw `polled` (`None`: still running, or
/// the poll failed).
pub open spec fn after_poll<S>(st: ChildState<S>, polled: Option<S>) -> ChildState<S> {
    match polled {
        Some(s) => ChildState { last_status: Some(s), done: true },
        None => st,
    }
}

impl<S: Copy> ChildState<S> {
    /// A child just started.
    pub fn new() -> (r: ChildState<S>)
        ensures
            r.last_status is None,
            !r.done,
    {
        ChildState { last_status: None, done: false }
    }

    /// Decides a kill request (`kill_and_wait`): a child that is done is
    /// left alone; otherwise it is to be killed and waited for, and is
    /// done from then on.
    pub fn request_kill(&mut self) -> (r: KillAction)
        ensures
            r == (if old(self).done { KillAction::AlreadyDone } else { KillAction::KillAndWait }),
            *final(self) == after_kill(*old(self)),
    {
        let r = if self.done { KillAction::AlreadyDone } else { KillAction::KillAndWait };
        self.done = true;
        r
    }

    /// Decides an exit query (`try_wait`): a child that is done answers
    /// with the status remembered; otherwise the system is to be polled.
    pub fn wait_action(&self) -> (r: WaitAction<S>)
        ensures
            r == wait_action_spec(*self),
    {
        if self.done {
            WaitAction::Cached(self.last_status)
        } else {
            WaitAction::Poll
        }
    }

    /// Records what a poll saw: an exit status makes the child done and
    /// is remembered; anything else changes nothing.
    pub fn record_poll(&mut self, polled: Option<S>)
        ensures
            *final(self) == after_poll(*old(self), polled),
    {
        match polled {
            Some(s) => {
                self.last_status = Some(s);
                self.done = true;
            },
            None => {},
        }
    }
}

/// Killing twice kills once: after a kill request the child is done, and
/// a second request does nothing.
pub proof fn law_kill_once<S>(st: ChildState<S>)
    ensures
        after_kill(st).done,
        after_kill(after_kill(st)) == after_kill(st),
        wait_action_spec(after_kill(st)) == WaitAction::Cached(st.last_status),
{
}

/// An exit status, once seen, is what every later exit query answers,
/// kill requests notwithstanding.
pub proof fn law_exit_status_sticks<S>(st: ChildState<S>, s: S)
    ensures
        wait_action_spec(after_poll(st, Some(s))) == WaitAction::Cached(Some(s)),
        wait_action_spec(after_kill(after_poll(st, Some(s)))) == WaitAction::Cached(Some(s)),
{
}


/// Splits a command into the program and its arguments; an empty command
/// has no program and cannot be started.
pub fn split_command(args: &Vec<String>) -> (r: Option<(String, Vec<String>)>)
    ensures
        match r {
            None => args@.len() == 0,
            Some((program, rest)) => {
                &&& args@.len() > 0
                &&& program@ == args@[0]@
                &&& strings_view(rest@) == strings_view(args@).drop_first()
            },
        },
{
    let n = args.len();
    if n == 0 {
        return None;
    }
    let mut rest: Vec<String> = Vec::new();
    let mut i: usize = 1;
    while i < n
        invariant
            n == args@.len(),
            1 <= i <= n,
            strings_view(rest@) == strings_view(args@).subrange(1, i as int),
        decreases n - i,
    {
        let ghost before = rest@;
        let a = args[i].clone();
        rest.push(a);
        proof {
            lemma_strings_view_push(before, a);
            assert(strings_view(args@).subrange(1, i + 1) =~= strings_view(args@).subrange(1, i as int).push(args@[i as int]@));
        }
        i = i + 1;
    }
    assert(strings_view(args@).subrange(1, n as int) =~= strings_view(args@).drop_first());
    Some((args[0].clone(), rest))
}

} // verus!
