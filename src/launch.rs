//! Deciding how a selected application is started, and the hand-off of a detached launch.
use vstd::prelude::*;
use crate::application::Application;

verus! {

/// Pause between two status checks of a detached child, in milliseconds.
pub const POLL_INTERVAL_MS: u64 = 10;

/// Number of status checks that must find the child running before the hand-off succeeds.
pub const GRACE_POLLS: u32 = 10;

/// How a selected application is started.
#[derive(Debug, Clone, Copy, PartialEq, Eq, Structural)]
pub enum LaunchMode {
    /// Restore the terminal and replace this process with the application.
    ReplaceInPlace,
    /// Start the application in a child process and close the hosting terminal.
    Detach,
}

/// Terminal applications replace the launcher; graphical ones are detached.
pub fn launch_mode(app: &Application) -> (r: LaunchMode)
    ensures
        r == (if app.terminal {
            LaunchMode::ReplaceInPlace
        } else {
            LaunchMode::Detach
        }),
{
    if app.terminal {
        LaunchMode::ReplaceInPlace
    } else {
        LaunchMode::Detach
    }
}

/// The argument vector that starts `app`: its program, then its arguments.
pub fn argv(app: &Application) -> (r: Vec<String>)
    ensures
        r.deep_view() == seq![app.command@] + app.args.deep_view(),
{
    let mut r: Vec<String> = Vec::new();
    r.push(app.command.clone());
    let mut i: usize = 0;
    assert(r.deep_view() =~= seq![app.command@] + app.args.deep_view().take(0));
    while i < app.args.len()
        invariant
            i <= app.args@.len(),
            r.deep_view() == seq![app.command@] + app.args.deep_view().take(i as int),
        decreases app.args@.len() - i,
    {
        let ghost before = r.deep_view();
        let a = app.args[i].clone();
        r.push(a);
        assert(r.deep_view() =~= before.push(a@));
        i = i + 1;
        assert(seq![app.command@] + app.args.deep_view().take(i as int) =~= before.push(a@));
    }
    assert(app.args.deep_view().take(app.args@.len() as int) =~= app.args.deep_view());
    r
}

/// What a non-blocking status check of the detached child found.
#[derive(Debug, Clone, Copy, PartialEq, Eq, Structural)]
pub enum PollStatus {
    /// The child is still running.
    StillAlive,
    /// The child has exited or was stopped by a signal.
    Exited,
    /// The status check itself failed.
    Failed,
}

/// What the launcher does next in a detached launch.
#[derive(Debug, Clone, Copy, PartialEq, Eq, Structural)]
pub enum DetachAction {
    /// Sleep for the poll interval, then check the child again.
    Wait,
    /// The child is running: send the termination signal to this terminal, then exit with success.
    KillTerminalAndExit(i32),
    /// The child is running and no terminal is known: exit with success, sending nothing.
    ExitLauncher,
    /// The child did not start: report the failure and go on with the launcher.
    ReportFailure,
}

/// The parent's side of a detached launch, from the fork until the hand-off is judged.
#[derive(Debug, Clone, Copy, PartialEq, Eq, Structural)]
pub struct Detach {
    /// The hosting terminal, resolved before the fork; none when it could not be found.
    pub terminal: Option<i32>,
    /// Status checks so far that found the child running.
    pub polls: u32,
    /// Whether a final action has been given.
    pub finished: bool,
}

/// The action once the child has been found running through the whole grace window.
pub open spec fn success_action(terminal: Option<i32>) -> DetachAction {
    match terminal {
        Some(t) => DetachAction::KillTerminalAndExit(t),
        None => DetachAction::ExitLauncher,
    }
}

/// One status check: an exited child or a failed check ends the hand-off as a failure; a
/// running child is checked again until it has been seen running `GRACE_POLLS` times.
pub open spec fn poll_step(d: Detach, status: PollStatus) -> (Detach, DetachAction) {
    if status != PollStatus::StillAlive {
        (Detach { finished: true, ..d }, DetachAction::ReportFailure)
    } else if d.polls + 1 < GRACE_POLLS {
        (Detach { polls: (d.polls + 1) as u32, ..d }, DetachAction::Wait)
    } else {
        (Detach { finished: true, ..d }, success_action(d.terminal))
    }
}

/// The actions that a hand-off in state `d` gives for the status checks `statuses`, up to
/// and including its final action.
pub open spec fn run_actions(d: Detach, statuses: Seq<PollStatus>) -> Seq<DetachAction>
    decreases statuses.len(),
{
    if statuses.len() == 0 || d.finished {
        Seq::empty()
    } else {
        seq![poll_step(d, statuses[0]).1] + run_actions(poll_step(d, statuses[0]).0, statuses.drop_first())
    }
}

proof fn lemma_run_shape(d: Detach, statuses: Seq<PollStatus>)
    requires
        !d.finished,
        d.polls < GRACE_POLLS,
    ensures
        ({
            let acts = run_actions(d, statuses);
            &&& acts.len() <= GRACE_POLLS - d.polls
            &&& acts.len() <= statuses.len()
            &&& acts.len() == 0 ==> statuses.len() == 0
            &&& acts.len() > 0 && acts.last() == DetachAction::Wait ==> acts.len() == statuses.len()
            &&& forall|i: int| 0 <= i < acts.len() - 1 ==> acts[i] == DetachAction::Wait && statuses[i] == PollStatus::StillAlive
            &&& acts.len() > 0 ==> (acts.last() == DetachAction::ReportFailure <==> statuses[acts.len() - 1] != PollStatus::StillAlive)
            &&& acts.len() > 0 && statuses[acts.len() - 1] == PollStatus::StillAlive ==> (acts.last() == DetachAction::Wait
                <==> acts.len() < GRACE_POLLS - d.polls)
            &&& acts.len() > 0 && statuses[acts.len() - 1] == PollStatus::StillAlive && acts.len() == GRACE_POLLS - d.polls
                ==> acts.last() == success_action(d.terminal)
        }),
    decreases statuses.len(),
{
    if statuses.len() > 0 {
        let (n, a) = poll_step(d, statuses[0]);
        let rest = statuses.drop_first();
        let acts = run_actions(d, statuses);
        if !n.finished {
            lemma_run_shape(n, rest);
            let tail = run_actions(n, rest);
            assert(acts == seq![a] + tail);
            assert forall|i: int| 0 <= i < acts.len() - 1 implies acts[i] == DetachAction::Wait && statuses[i]
                == PollStatus::StillAlive by {
                if i > 0 {
                    assert(acts[i] == tail[i - 1]);
                    assert(statuses[i] == rest[i - 1]);
                }
            }
            if tail.len() > 0 {
                assert(acts.last() == tail.last());
                assert(statuses[acts.len() - 1] == rest[tail.len() - 1]);
            }
        } else {
            assert(run_actions(n, rest) =~= Seq::<DetachAction>::empty());
            assert(acts =~= seq![a]);
        }
    }
}

/// Hand-off safety: starting from a fresh hand-off, whatever the status checks report, the
/// terminal is signalled at most once, only as the last action, only after the child was seen
/// running at every one of the `GRACE_POLLS` checks, and only the terminal resolved before the
/// fork; a check that finds the child exited, or that fails, ends the hand-off as a reported
/// failure, with no signal sent.
pub proof fn lemma_handoff_safety(terminal: Option<i32>, statuses: Seq<PollStatus>)
    ensures
        ({
            let acts = run_actions(Detach { terminal, polls: 0, finished: false }, statuses);
            &&& forall|i: int|
                0 <= i < acts.len() && (#[trigger] acts[i] is KillTerminalAndExit) ==> {
                    &&& terminal is Some
                    &&& acts[i] == DetachAction::KillTerminalAndExit(terminal.unwrap())
                    &&& i == acts.len() - 1
                    &&& acts.len() == GRACE_POLLS
                    &&& forall|j: int| 0 <= j <= i ==> statuses[j] == PollStatus::StillAlive
                }
            &&& forall|i: int, j: int|
                0 <= i < acts.len() && 0 <= j < acts.len() && (#[trigger] acts[i] is KillTerminalAndExit)
                    && (#[trigger] acts[j] is KillTerminalAndExit) ==> i == j
            &&& forall|j: int|
                0 <= j < acts.len() && #[trigger] statuses[j] != PollStatus::StillAlive ==> j == acts.len() - 1
                    && acts[j] == DetachAction::ReportFailure
            &&& statuses.len() >= GRACE_POLLS && (forall|j: int| 0 <= j < GRACE_POLLS ==> #[trigger] statuses[j] == PollStatus::StillAlive)
                ==> acts.len() == GRACE_POLLS && acts.last() == success_action(terminal)
        }),
{
    let d = Detach { terminal, polls: 0, finished: false };
    let acts = run_actions(d, statuses);
    lemma_run_shape(d, statuses);
    if statuses.len() >= GRACE_POLLS && (forall|j: int| 0 <= j < GRACE_POLLS ==> #[trigger] statuses[j] == PollStatus::StillAlive) {
        if acts.len() < GRACE_POLLS && acts.len() > 0 {
            assert(statuses[acts.len() - 1] == PollStatus::StillAlive);
        }
        assert(statuses[acts.len() - 1] == PollStatus::StillAlive);
    }
}

impl Detach {
    /// A hand-off that has checked nothing yet.
    pub fn new(terminal: Option<i32>) -> (r: Detach)
        ensures
            r == (Detach { terminal, polls: 0, finished: false }),
    {
        Detach { terminal, polls: 0, finished: false }
    }

    /// Whether a final action has been given; no status check is taken after that.
    pub fn is_finished(&self) -> (r: bool)
        ensures
            r == self.finished,
    {
        self.finished
    }

    /// The next action after a status check of the child.
    pub fn on_poll(&mut self, status: PollStatus) -> (a: DetachAction)
        requires
            !old(self).finished,
            old(self).polls < GRACE_POLLS,
        ensures
            (*final(self), a) == poll_step(*old(self), status),
            final(self).polls < GRACE_POLLS,
    {
        match status {
            PollStatus::StillAlive => {
                if self.polls + 1 < GRACE_POLLS {
                    self.polls = self.polls + 1;
                    DetachAction::Wait
                } else {
                    self.finished = true;
                    match self.terminal {
                        Some(t) => DetachAction::KillTerminalAndExit(t),
                        None => DetachAction::ExitLauncher,
                    }
                }
            },
            _ => {
                self.finished = true;
                DetachAction::ReportFailure
            },
        }
    }
}

} // verus!
