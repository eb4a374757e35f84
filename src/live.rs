//! The decisions of the live preview: when to build, when to serve, and
//! how edits that arrive during a build queue up. The watcher, the server
//! and the builds themselves run outside; they report events here and
//! perform the actions that come back.

use vstd::prelude::*;

verus! {

/// Where the live preview stands.
#[derive(PartialEq, Eq, Structural, Clone, Copy, Debug)]
pub enum LivePhase {
    /// The first build runs; nothing is served yet.
    Building,
    /// The last build finished; its output is served.
    Ready,
    /// An edit started a new build while an earlier output is served.
    Rebuilding,
}

/// What the outside reports.
#[derive(PartialEq, Eq, Structural, Clone, Copy, Debug)]
pub enum LiveEvent {
    /// A file below the source root was modified, created or removed.
    SourceChanged,
    /// The running build finished.
    BuildSucceeded,
    /// The running build failed.
    BuildFailed,
}

/// What the outside is to do next.
#[derive(PartialEq, Eq, Structural, Clone, Copy, Debug)]
pub enum LiveAction {
    /// Run a full build.
    StartBuild,
    /// Start serving the output (after the first build).
    Serve,
    /// Stop with an error: the first build failed.
    Abort,
    /// Nothing.
    Idle,
}

/// The state of the live preview. `pending` counts the edits that arrived
/// during the running rebuild: each one is owed a rebuild of its own.
#[derive(PartialEq, Eq, Structural, Clone, Copy, Debug)]
pub struct LiveState {
    pub phase: LivePhase,
    pub pending: u64,
}

impl LiveState {
    /// Edits queue only behind a running rebuild.
    pub open spec fn wf(self) -> bool {
        self.pending > 0 ==> self.phase == LivePhase::Rebuilding
    }

    /// The state and action that follow `e` in state `self`.
    pub open spec fn next_spec(self, e: LiveEvent) -> (LiveState, LiveAction) {
        match (self.phase, e) {
            (LivePhase::Building, LiveEvent::BuildSucceeded) => (
                LiveState { phase: LivePhase::Ready, pending: 0 },
                LiveAction::Serve,
            ),
            (LivePhase::Building, LiveEvent::BuildFailed) => (self, LiveAction::Abort),
            (LivePhase::Building, LiveEvent::SourceChanged) => (self, LiveAction::Idle),
            (LivePhase::Ready, LiveEvent::SourceChanged) => (
                LiveState { phase: LivePhase::Rebuilding, pending: 0 },
                LiveAction::StartBuild,
            ),
            (LivePhase::Ready, _) => (self, LiveAction::Idle),
            (LivePhase::Rebuilding, LiveEvent::SourceChanged) => (
                LiveState {
                    phase: LivePhase::Rebuilding,
                    pending: if self.pending < u64::MAX {
                        (self.pending + 1) as u64
                    } else {
                        self.pending
                    },
                },
                LiveAction::Idle,
            ),
            (LivePhase::Rebuilding, _) => if self.pending > 0 {
                (
                    LiveState { phase: LivePhase::Rebuilding, pending: (self.pending - 1) as u64 },
                    LiveAction::StartBuild,
                )
            } else {
                (LiveState { phase: LivePhase::Ready, pending: 0 }, LiveAction::Idle)
            },
        }
    }

    /// The first state: the first build runs.
    pub fn initial() -> (r: LiveState)
        ensures
            r.wf(),
            r.phase == LivePhase::Building,
            r.pending == 0,
    {
        LiveState { phase: LivePhase::Building, pending: 0 }
    }

    /// Takes one event. A build is started only when none runs: on an edit
    /// while ready, or when a rebuild ends with edits still owed one.
    pub fn step(self, e: LiveEvent) -> (r: (LiveState, LiveAction))
        requires
            self.wf(),
        ensures
            r == self.next_spec(e),
            r.0.wf(),
            r.1 == LiveAction::StartBuild ==> (self.phase == LivePhase::Ready && e
                == LiveEvent::SourceChanged) || (self.phase == LivePhase::Rebuilding && e
                != LiveEvent::SourceChanged),
    {
        match (self.phase, e) {
            (LivePhase::Building, LiveEvent::BuildSucceeded) => (
                LiveState { phase: LivePhase::Ready, pending: 0 },
                LiveAction::Serve,
            ),
            (LivePhase::Building, LiveEvent::BuildFailed) => (self, LiveAction::Abort),
            (LivePhase::Building, LiveEvent::SourceChanged) => (self, LiveAction::Idle),
            (LivePhase::Ready, LiveEvent::SourceChanged) => (
                LiveState { phase: LivePhase::Rebuilding, pending: 0 },
                LiveAction::StartBuild,
            ),
            (LivePhase::Ready, _) => (self, LiveAction::Idle),
            (LivePhase::Rebuilding, LiveEvent::SourceChanged) => {
                let pending = if self.pending < u64::MAX {
                    self.pending + 1
                } else {
                    self.pending
                };
                (LiveState { phase: LivePhase::Rebuilding, pending }, LiveAction::Idle)
            },
            (LivePhase::Rebuilding, _) => {
                if self.pending > 0 {
                    (
                        LiveState { phase: LivePhase::Rebuilding, pending: self.pending - 1 },
                        LiveAction::StartBuild,
                    )
                } else {
                    (LiveState { phase: LivePhase::Ready, pending: 0 }, LiveAction::Idle)
                }
            },
        }
    }
}

} // verus!
