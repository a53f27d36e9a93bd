//! The smoke run: set up, ping, clean up. Each phase applies a plan; what
//! comes next, and the run's result, depend on how the phases went.

use vstd::prelude::*;
use crate::error::{result_view, FacilityError, FacilityErrorView};

verus! {

/// The plan a smoke run applies next.
#[derive(Debug, Clone, Copy, PartialEq, Eq, Structural)]
pub enum SmokePhase {
    Setup,
    Ping,
    Cleanup,
}

/// A smoke run in progress: its phase, the error it will report once the
/// cleanup has run, and whether the setup failed (then the cleanup's own
/// result is not reported).
pub struct SmokeRun {
    phase: SmokePhase,
    pending: Option<FacilityError>,
    setup_failed: bool,
}

pub struct SmokeRunView {
    pub phase: SmokePhase,
    pub pending: Option<FacilityErrorView>,
    pub setup_failed: bool,
}

impl View for SmokeRun {
    type V = SmokeRunView;

    closed spec fn view(&self) -> SmokeRunView {
        SmokeRunView {
            phase: self.phase,
            pending: match self.pending {
                Some(e) => Some(e@),
                None => None,
            },
            setup_failed: self.setup_failed,
        }
    }
}

/// What follows a phase: another phase, or the run's result.
pub enum SmokeStep {
    Next(SmokeRun),
    Finished(Result<(), FacilityError>),
}

pub enum SmokeStepView {
    Next(SmokeRunView),
    Finished(Result<(), FacilityErrorView>),
}

pub open spec fn smoke_step_view(s: SmokeStep) -> SmokeStepView {
    match s {
        SmokeStep::Next(r) => SmokeStepView::Next(r@),
        SmokeStep::Finished(f) => SmokeStepView::Finished(result_view(f)),
    }
}

/// The run before any phase.
pub open spec fn smoke_start() -> SmokeRunView {
    SmokeRunView { phase: SmokePhase::Setup, pending: None, setup_failed: false }
}

/// What follows a phase that gave `result`. A failed setup is followed by
/// the cleanup and then reported; after the ping comes the cleanup; after
/// the cleanup, the run reports the pending error, else the cleanup's
/// result (unless the setup failed).
pub open spec fn smoke_transition(s: SmokeRunView, result: Result<(), FacilityErrorView>) -> SmokeStepView {
    match s.phase {
        SmokePhase::Setup => match result {
            Ok(()) => SmokeStepView::Next(SmokeRunView { phase: SmokePhase::Ping, pending: None, setup_failed: false }),
            Err(e) => SmokeStepView::Next(SmokeRunView { phase: SmokePhase::Cleanup, pending: Some(e), setup_failed: true }),
        },
        SmokePhase::Ping => SmokeStepView::Next(SmokeRunView {
            phase: SmokePhase::Cleanup,
            pending: match result {
                Ok(()) => None,
                Err(e) => Some(e),
            },
            setup_failed: false,
        }),
        SmokePhase::Cleanup => SmokeStepView::Finished(match s.pending {
            Some(e) => Err(e),
            None => if s.setup_failed { Ok(()) } else { result },
        }),
    }
}

impl SmokeRun {
    pub fn start() -> (r: SmokeRun)
        ensures
            r@ == smoke_start(),
    {
        SmokeRun { phase: SmokePhase::Setup, pending: None, setup_failed: false }
    }

    /// The plan to apply now.
    pub fn phase(&self) -> (r: SmokePhase)
        ensures
            r == self@.phase,
    {
        self.phase
    }

    /// The setup failed and the cleanup runs to undo it.
    pub fn after_failed_setup(&self) -> (r: bool)
        ensures
            r == self@.setup_failed,
    {
        self.setup_failed
    }

    /// Takes the result of applying the current phase's plan.
    pub fn finish_phase(self, result: Result<(), FacilityError>) -> (r: SmokeStep)
        ensures
            smoke_step_view(r) == smoke_transition(self@, result_view(result)),
    {
        match self.phase {
            SmokePhase::Setup => match result {
                Ok(()) => SmokeStep::Next(SmokeRun { phase: SmokePhase::Ping, pending: None, setup_failed: false }),
                Err(e) => SmokeStep::Next(SmokeRun { phase: SmokePhase::Cleanup, pending: Some(e), setup_failed: true }),
            },
            SmokePhase::Ping => {
                let pending = match result {
                    Ok(()) => None,
                    Err(e) => Some(e),
                };
                SmokeStep::Next(SmokeRun { phase: SmokePhase::Cleanup, pending, setup_failed: false })
            },
            SmokePhase::Cleanup => {
                let setup_failed = self.setup_failed;
                match self.pending {
                    Some(e) => SmokeStep::Finished(Err(e)),
                    None => if setup_failed { SmokeStep::Finished(Ok(())) } else { SmokeStep::Finished(result) },
                }
            },
        }
    }
}

/// The result of a whole smoke run from the results of its phases: a
/// failed setup is reported whatever the cleanup gives; otherwise a failed
/// ping is reported, else the cleanup's result.
pub open spec fn smoke_outcome(
    setup: Result<(), FacilityErrorView>,
    ping: Result<(), FacilityErrorView>,
    cleanup: Result<(), FacilityErrorView>,
) -> Result<(), FacilityErrorView> {
    match setup {
        Err(e) => Err(e),
        Ok(()) => match ping {
            Err(e) => Err(e),
            Ok(()) => cleanup,
        },
    }
}

/// Running the phases one after another from the start: after a failed
/// setup the cleanup comes next and the run ends with the setup's error;
/// otherwise the ping and the cleanup run and the run ends with
/// `smoke_outcome`.
pub proof fn lemma_smoke_run(
    setup: Result<(), FacilityErrorView>,
    ping: Result<(), FacilityErrorView>,
    cleanup: Result<(), FacilityErrorView>,
)
    ensures
        setup is Err ==> (smoke_transition(smoke_start(), setup) matches SmokeStepView::Next(c)
            && c.phase == SmokePhase::Cleanup
            && smoke_transition(c, cleanup) == SmokeStepView::Finished(smoke_outcome(setup, ping, cleanup))),
        setup is Ok ==> (smoke_transition(smoke_start(), setup) matches SmokeStepView::Next(p)
            && p.phase == SmokePhase::Ping
            && (smoke_transition(p, ping) matches SmokeStepView::Next(c)
                && c.phase == SmokePhase::Cleanup
                && smoke_transition(c, cleanup) == SmokeStepView::Finished(smoke_outcome(setup, ping, cleanup)))),
{
}

} // verus!
