//! The benchmark loop as a state machine. The runner around it performs the
//! outside work — reading the power sensor, copying the source tree, spawning
//! the build, persisting the score, removing the build copy — and reports each
//! outcome as an event; the machine decides, and is the one place where the
//! loop's ordering and failure rules live.
//!
//! A run gates on power, prepares the workspace once, then cycles
//! copy, build, score, clean until something fails; any failure is fatal, so
//! a score always means that many consecutive successful builds.

use vstd::prelude::*;

verus! {

/// Where the loop stands.
#[derive(Clone, Copy, Debug, PartialEq, Eq, Structural)]
pub enum Phase {
    /// Waiting until the machine is not on external power.
    Gating,
    /// Materializing the workspace: root directory, source checkout, no stale
    /// build copy, a fresh score record.
    Preparing,
    /// Duplicating the source tree into the disposable build directory.
    Copying,
    /// Running the build command inside the build directory.
    Building,
    /// Persisting the raised counter.
    Scoring,
    /// Removing the disposable build directory.
    Cleaning,
    /// A fatal error ended the run.
    Failed,
}

/// What the runner reports back after performing one phase's work.
#[derive(Clone, Copy, Debug, PartialEq, Eq, Structural)]
pub enum Event {
    /// The power sensor was read.
    PowerChecked { plugged: bool },
    /// The workspace was prepared, or that failed.
    Prepared { ok: bool },
    /// The source tree was copied, or that failed.
    Copied { ok: bool },
    /// The build command exited, with or without success.
    Built { success: bool },
    /// The raised counter was persisted, or that failed.
    Scored { ok: bool },
    /// The build directory was removed, or that failed.
    Cleaned { ok: bool },
}

/// What the runner must do next.
#[derive(Clone, Copy, Debug, PartialEq, Eq, Structural)]
pub enum Action {
    /// Read the power sensor; when it reports plugged, wait and read again.
    CheckPower,
    /// Materialize the workspace.
    Prepare,
    /// Copy the source tree into the build directory.
    CopyTree,
    /// Run the build command.
    RunBuild,
    /// Persist the raised counter.
    PersistScore,
    /// Remove the build directory.
    RemoveBuildDir,
    /// The run is over; stop.
    Stop,
}

/// The loop's state: its phase, the score this run has reached, whether the
/// disposable build directory exists on disk, and the gating policy.
pub struct LoopState {
    pub phase: Phase,
    pub score: u32,
    pub build_dir_present: bool,
    /// When set, the loop re-checks power before every iteration; otherwise it
    /// gates once, before preparing.
    pub gate_each_iteration: bool,
}

/// Whether an event reports on the work of the given phase. A failed run
/// accepts any late report and ignores it.
pub open spec fn event_fits(phase: Phase, ev: Event) -> bool {
    match phase {
        Phase::Gating => ev is PowerChecked,
        Phase::Preparing => ev is Prepared,
        Phase::Copying => ev is Copied,
        Phase::Building => ev is Built,
        Phase::Scoring => ev is Scored,
        Phase::Cleaning => ev is Cleaned,
        Phase::Failed => true,
    }
}

/// One transition of the loop. Gating repeats until the power sensor reports
/// unplugged; a successful iteration runs Copying, Building, Scoring,
/// Cleaning and loops; every reported failure, a failed build above all, is
/// fatal. An event that does not fit the phase changes nothing.
pub open spec fn spec_step(st: LoopState, ev: Event) -> LoopState {
    match (st.phase, ev) {
        (Phase::Gating, Event::PowerChecked { plugged }) => if plugged {
            st
        } else {
            (LoopState { phase: Phase::Preparing, ..st })
        },
        (Phase::Preparing, Event::Prepared { ok }) => if ok {
            (LoopState { phase: Phase::Copying, build_dir_present: false, ..st })
        } else {
            (LoopState { phase: Phase::Failed, ..st })
        },
        (Phase::Copying, Event::Copied { ok }) => if ok {
            (LoopState { phase: Phase::Building, build_dir_present: true, ..st })
        } else {
            (LoopState { phase: Phase::Failed, ..st })
        },
        (Phase::Building, Event::Built { success }) => if success {
            (LoopState { phase: Phase::Scoring, ..st })
        } else {
            (LoopState { phase: Phase::Failed, ..st })
        },
        (Phase::Scoring, Event::Scored { ok }) => if ok {
            (LoopState { phase: Phase::Cleaning, score: (st.score + 1) as u32, ..st })
        } else {
            (LoopState { phase: Phase::Failed, ..st })
        },
        (Phase::Cleaning, Event::Cleaned { ok }) => if ok {
            (LoopState {
                phase: if st.gate_each_iteration {
                    Phase::Gating
                } else {
                    Phase::Copying
                },
                build_dir_present: false,
                ..st
            })
        } else {
            (LoopState { phase: Phase::Failed, ..st })
        },
        _ => st,
    }
}

/// The action each phase calls for.
pub open spec fn spec_next_action(st: LoopState) -> Action {
    match st.phase {
        Phase::Gating => Action::CheckPower,
        Phase::Preparing => Action::Prepare,
        Phase::Copying => Action::CopyTree,
        Phase::Building => Action::RunBuild,
        Phase::Scoring => Action::PersistScore,
        Phase::Cleaning => Action::RemoveBuildDir,
        Phase::Failed => Action::Stop,
    }
}

impl LoopState {
    /// The build directory exists exactly when the loop is between a finished
    /// copy and a finished cleanup: while building, scoring or cleaning it is
    /// there, and a copy never starts over a leftover one.
    pub open spec fn wf(&self) -> bool {
        &&& (self.phase is Building || self.phase is Scoring || self.phase is Cleaning)
            ==> self.build_dir_present
        &&& self.phase is Copying ==> !self.build_dir_present
    }

    /// The state a run starts in: gating on power with a score of zero. A
    /// stale build directory left by an earlier run may still exist; Preparing
    /// removes it.
    pub fn start(gate_each_iteration: bool, stale_build_dir: bool) -> (st: LoopState)
        ensures
            st == (LoopState {
                phase: Phase::Gating,
                score: 0,
                build_dir_present: stale_build_dir,
                gate_each_iteration,
            }),
            st.wf(),
    {
        LoopState {
            phase: Phase::Gating,
            score: 0,
            build_dir_present: stale_build_dir,
            gate_each_iteration,
        }
    }

    /// What the runner must do in the current phase.
    pub fn next_action(&self) -> (a: Action)
        ensures
            a == spec_next_action(*self),
    {
        match self.phase {
            Phase::Gating => Action::CheckPower,
            Phase::Preparing => Action::Prepare,
            Phase::Copying => Action::CopyTree,
            Phase::Building => Action::RunBuild,
            Phase::Scoring => Action::PersistScore,
            Phase::Cleaning => Action::RemoveBuildDir,
            Phase::Failed => Action::Stop,
        }
    }

    /// Advances the loop by one reported outcome.
    pub fn step(&mut self, ev: Event)
        requires
            event_fits(old(self).phase, ev),
            old(self).phase is Scoring && ev == (Event::Scored { ok: true }) ==> old(self).score
                < u32::MAX,
        ensures
            *final(self) == spec_step(*old(self), ev),
    {
        match (self.phase, ev) {
            (Phase::Gating, Event::PowerChecked { plugged }) => {
                if !plugged {
                    self.phase = Phase::Preparing;
                }
            },
            (Phase::Preparing, Event::Prepared { ok }) => {
                if ok {
                    self.phase = Phase::Copying;
                    self.build_dir_present = false;
                } else {
                    self.phase = Phase::Failed;
                }
            },
            (Phase::Copying, Event::Copied { ok }) => {
                if ok {
                    self.phase = Phase::Building;
                    self.build_dir_present = true;
                } else {
                    self.phase = Phase::Failed;
                }
            },
            (Phase::Building, Event::Built { success }) => {
                if success {
                    self.phase = Phase::Scoring;
                } else {
                    self.phase = Phase::Failed;
                }
            },
            (Phase::Scoring, Event::Scored { ok }) => {
                if ok {
                    self.phase = Phase::Cleaning;
                    self.score = self.score + 1;
                } else {
                    self.phase = Phase::Failed;
                }
            },
            (Phase::Cleaning, Event::Cleaned { ok }) => {
                if ok {
                    self.phase = if self.gate_each_iteration {
                        Phase::Gating
                    } else {
                        Phase::Copying
                    };
                    self.build_dir_present = false;
                } else {
                    self.phase = Phase::Failed;
                }
            },
            _ => {},
        }
    }
}

/// The loop run through a whole sequence of reported outcomes.
pub open spec fn run_steps(st: LoopState, evs: Seq<Event>) -> LoopState
    decreases evs.len(),
{
    if evs.len() == 0 {
        st
    } else {
        run_steps(spec_step(st, evs[0]), evs.skip(1))
    }
}

/// Law: every step keeps the build-directory discipline — after a finished
/// cleanup none exists, and a build only ever runs over a fresh copy.
pub proof fn lemma_step_preserves_wf(st: LoopState, ev: Event)
    requires
        st.wf(),
    ensures
        spec_step(st, ev).wf(),
{
}

/// Law: a cleanup that the runner reports successful leaves no disposable
/// build directory behind.
pub proof fn lemma_cleaning_clears_build_dir(st: LoopState)
    requires
        st.phase is Cleaning,
    ensures
        !spec_step(st, Event::Cleaned { ok: true }).build_dir_present,
{
}

/// Law: the score changes only at a Scoring step that the runner reports
/// persisted, and then it grows by exactly one.
pub proof fn lemma_score_changes_only_on_scoring(st: LoopState, ev: Event)
    requires
        st.score < u32::MAX,
    ensures
        spec_step(st, ev).score != st.score ==> st.phase is Scoring && ev == (Event::Scored {
            ok: true,
        }) && spec_step(st, ev).score == st.score + 1,
        spec_step(st, ev).score >= st.score,
{
}

/// Law: a failed run is over for good — whatever outcomes are reported later,
/// the machine stays failed and the score is frozen.
pub proof fn lemma_failed_is_terminal(st: LoopState, evs: Seq<Event>)
    requires
        st.phase is Failed,
    ensures
        run_steps(st, evs) == st,
    decreases evs.len(),
{
    if evs.len() > 0 {
        lemma_failed_is_terminal(st, evs.skip(1));
    }
}

/// Law: a build command that exits non-zero ends the run before any Scoring
/// step — the score stands exactly where it stood, whatever else is reported.
pub proof fn lemma_failed_build_awards_no_score(st: LoopState, evs: Seq<Event>)
    requires
        st.phase is Building,
    ensures
        run_steps(spec_step(st, Event::Built { success: false }), evs).phase is Failed,
        run_steps(spec_step(st, Event::Built { success: false }), evs).score == st.score,
{
    let failed = spec_step(st, Event::Built { success: false });
    lemma_failed_is_terminal(failed, evs);
}

} // verus!
