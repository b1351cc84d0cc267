//! The order of a dispatch step: interceptors before the work, the work,
//! then interceptors after it on success or error interceptors on failure.
//!
//! A node step has `hooks` node interceptors, each with a before, an after
//! and an error hook. A message step has `hooks` message interceptors and no
//! error hooks. Hooks run one at a time in registration order; the first
//! failure in a phase ends that phase. A failed before or after hook counts
//! as a failure of the step: the error hooks run, and the step fails with
//! that error. A failed error hook ends the step with its own error.
use vstd::prelude::*;
use crate::types::RuleError;

verus! {

/// Where a step stands.
#[derive(Debug, Clone, Copy, PartialEq, Eq, Structural)]
pub enum StepPhase {
    /// Before hook `i` is next.
    Before(usize),
    /// The work itself is next.
    Work,
    /// After hook `i` is next.
    After(usize),
    /// Error hook `i` is next.
    OnError(usize),
    /// The step is over.
    Done,
}

/// What the caller does next.
#[derive(Debug, Clone, Copy, PartialEq, Eq, Structural)]
pub enum StepAction {
    RunBefore(usize),
    Work,
    RunAfter(usize),
    RunError(usize),
    /// The step succeeded.
    Succeed,
    /// The step failed; its error is in `failure`.
    Fail,
}

/// The progress of one dispatch step.
#[derive(Debug)]
pub struct Step {
    pub hooks: usize,
    pub error_hooks: usize,
    pub phase: StepPhase,
    pub failure: Option<RuleError>,
}

/// The phase a step enters after a failure.
pub open spec fn error_phase(error_hooks: usize) -> StepPhase {
    if error_hooks > 0 {
        StepPhase::OnError(0)
    } else {
        StepPhase::Done
    }
}

impl Step {
    /// Hook indices are in range; after hooks run only while nothing has
    /// failed, and error hooks only once something has.
    pub open spec fn wf(&self) -> bool {
        match self.phase {
            StepPhase::Before(i) => i < self.hooks && self.failure is None,
            StepPhase::Work => self.failure is None,
            StepPhase::After(i) => i < self.hooks && self.failure is None,
            StepPhase::OnError(i) => i < self.error_hooks && self.failure is Some,
            StepPhase::Done => true,
        }
    }

    /// A step that starts with the first before hook, or with the work
    /// when there are no hooks.
    pub fn new(hooks: usize, error_hooks: usize) -> (r: Step)
        ensures
            r.wf(),
            r.hooks == hooks,
            r.error_hooks == error_hooks,
            r.failure is None,
            r.phase == if hooks > 0 {
                StepPhase::Before(0)
            } else {
                StepPhase::Work
            },
    {
        let phase = if hooks > 0 {
            StepPhase::Before(0)
        } else {
            StepPhase::Work
        };
        Step { hooks, error_hooks, phase, failure: None }
    }

    /// What to do next.
    pub fn action(&self) -> (r: StepAction)
        ensures
            r == match self.phase {
                StepPhase::Before(i) => StepAction::RunBefore(i),
                StepPhase::Work => StepAction::Work,
                StepPhase::After(i) => StepAction::RunAfter(i),
                StepPhase::OnError(i) => StepAction::RunError(i),
                StepPhase::Done => if self.failure is None {
                    StepAction::Succeed
                } else {
                    StepAction::Fail
                },
            },
    {
        match self.phase {
            StepPhase::Before(i) => StepAction::RunBefore(i),
            StepPhase::Work => StepAction::Work,
            StepPhase::After(i) => StepAction::RunAfter(i),
            StepPhase::OnError(i) => StepAction::RunError(i),
            StepPhase::Done => match self.failure {
                None => StepAction::Succeed,
                Some(_) => StepAction::Fail,
            },
        }
    }

    /// Records how the action last asked for went.
    pub fn record(&mut self, outcome: Result<(), RuleError>)
        requires
            old(self).wf(),
            old(self).phase != StepPhase::Done,
        ensures
            final(self).wf(),
            final(self).hooks == old(self).hooks,
            final(self).error_hooks == old(self).error_hooks,
            match (old(self).phase, outcome) {
                (StepPhase::Before(i), Ok(_)) => final(self).phase == if i + 1 < old(self).hooks {
                    StepPhase::Before((i + 1) as usize)
                } else {
                    StepPhase::Work
                } && final(self).failure is None,
                (StepPhase::Work, Ok(_)) => final(self).phase == if old(self).hooks > 0 {
                    StepPhase::After(0)
                } else {
                    StepPhase::Done
                } && final(self).failure is None,
                (StepPhase::After(i), Ok(_)) => final(self).phase == if i + 1 < old(self).hooks {
                    StepPhase::After((i + 1) as usize)
                } else {
                    StepPhase::Done
                } && final(self).failure is None,
                (StepPhase::OnError(i), Ok(_)) => final(self).phase == if i + 1 < old(self).error_hooks {
                    StepPhase::OnError((i + 1) as usize)
                } else {
                    StepPhase::Done
                } && final(self).failure == old(self).failure,
                (StepPhase::OnError(_), Err(e)) => final(self).phase == StepPhase::Done && final(self).failure == Some(e),
                (_, Err(e)) => final(self).phase == error_phase(old(self).error_hooks) && final(self).failure == Some(e),
                _ => true,
            },
    {
        match (self.phase, outcome) {
            (StepPhase::Before(i), Ok(_)) => {
                self.phase = if i + 1 < self.hooks {
                    StepPhase::Before(i + 1)
                } else {
                    StepPhase::Work
                };
            },
            (StepPhase::Work, Ok(_)) => {
                self.phase = if self.hooks > 0 {
                    StepPhase::After(0)
                } else {
                    StepPhase::Done
                };
            },
            (StepPhase::After(i), Ok(_)) => {
                self.phase = if i + 1 < self.hooks {
                    StepPhase::After(i + 1)
                } else {
                    StepPhase::Done
                };
            },
            (StepPhase::OnError(i), Ok(_)) => {
                self.phase = if i + 1 < self.error_hooks {
                    StepPhase::OnError(i + 1)
                } else {
                    StepPhase::Done
                };
            },
            (StepPhase::OnError(_), Err(e)) => {
                self.failure = Some(e);
                self.phase = StepPhase::Done;
            },
            (StepPhase::Done, _) => {},
            (_, Err(e)) => {
                self.failure = Some(e);
                self.phase = if self.error_hooks > 0 {
                    StepPhase::OnError(0)
                } else {
                    StepPhase::Done
                };
            },
        }
    }

    /// The outcome of a finished step.
    pub fn into_result(self) -> (r: Result<(), RuleError>)
        requires
            self.phase == StepPhase::Done,
        ensures
            match self.failure {
                Some(e) => r == Err::<(), RuleError>(e),
                None => r is Ok,
            },
    {
        match self.failure {
            Some(e) => Err(e),
            None => Ok(()),
        }
    }
}

} // verus!
