//! The sync orchestrator: the order in which the steps of one pass follow
//! each other.
//!
//! The orchestrator does no work on the outside world itself. It names the
//! next step as a [`Command`]; the caller carries the command out and reports
//! what came of it as an [`Event`], which moves the orchestrator on.

use vstd::prelude::*;
use crate::catalog::{
    lemma_selection, newest_first, release_views, releases_in_window, selection, within,
    ReleaseEvent, ReleaseView, BATCH_LIMIT,
};
use crate::error::{ResolveError, SyncError};
use crate::registry::{
    history_of, resolution_of, resolve_previous, versions_url, versions_url_of, RegistryReply,
};
use crate::store::{ResolvedRelease, ResolvedView};
use crate::window::{window_ending_at, window_of, Timestamp, Window};

verus! {

/// The pause after each release, in milliseconds, that keeps the requests to
/// the registry apart.
pub const PACING_MILLIS: u64 = 100;

/// What becomes of a release whose predecessor could not be resolved.
#[derive(Clone, Copy, Debug, PartialEq, Eq, Structural)]
pub enum FailurePolicy {
    /// The release is passed over and not stored in this pass.
    Skip,
    /// The release is stored without a predecessor.
    RecordWithoutPredecessor,
}

/// What a finished pass did.
#[derive(Clone, Copy, Debug, PartialEq, Eq, Structural)]
pub struct Summary {
    /// The releases handed to the store.
    pub stored: usize,
    /// The releases passed over.
    pub skipped: usize,
    /// Whether the window held more releases than the pass took up.
    pub truncated: bool,
}

/// The next step of a pass, which the caller is to carry out.
#[derive(Debug, PartialEq, Eq)]
pub enum Command {
    /// Ask the catalog for the moment of its most recent release.
    ReadLatestTimestamp,
    /// Ask the catalog for the releases of the window.
    ReadReleases(Window),
    /// Ask the registry for the version history at this address.
    FetchVersions(String),
    /// Insert the record of this release, unless the store holds one.
    Store(ResolvedRelease),
    /// Take note that this release is passed over, and why.
    NoteSkipped(ReleaseEvent, ResolveError),
    /// Wait for this many milliseconds.
    Pause(u64),
    /// The pass is complete.
    Finish(Summary),
    /// The pass has failed.
    Abort(SyncError),
}

/// The mathematical content of a [`Command`].
pub ghost enum CommandView {
    ReadLatestTimestamp,
    ReadReleases(Window),
    FetchVersions(Seq<char>),
    Store(ResolvedView),
    NoteSkipped(ReleaseView, ResolveError),
    Pause(u64),
    Finish(Summary),
    Abort(SyncError),
}

impl View for Command {
    type V = CommandView;

    open spec fn view(&self) -> CommandView {
        match self {
            Command::ReadLatestTimestamp => CommandView::ReadLatestTimestamp,
            Command::ReadReleases(window) => CommandView::ReadReleases(*window),
            Command::FetchVersions(url) => CommandView::FetchVersions(url@),
            Command::Store(resolved) => CommandView::Store(resolved@),
            Command::NoteSkipped(release, error) => CommandView::NoteSkipped(release@, *error),
            Command::Pause(millis) => CommandView::Pause(*millis),
            Command::Finish(summary) => CommandView::Finish(*summary),
            Command::Abort(error) => CommandView::Abort(*error),
        }
    }
}

/// What came of the command that the caller carried out.
#[derive(Debug, PartialEq, Eq)]
pub enum Event {
    /// The moment of the catalog's most recent release; none where the
    /// catalog holds no release.
    LatestTimestamp(Option<Timestamp>),
    /// The releases that the catalog returned.
    Releases(Vec<ReleaseEvent>),
    /// The registry's reply.
    Registry(RegistryReply),
    /// The command was carried out and has nothing to report.
    Done,
    /// The catalog or the store failed to carry out the command.
    Failed,
}

/// Where a pass stands.
pub ghost enum PhaseView {
    /// Waiting for the moment of the catalog's most recent release.
    AwaitLatest,
    /// Waiting for the releases of the window.
    AwaitReleases(Window),
    /// Waiting for the registry's reply on the release in turn.
    AwaitVersions,
    /// Waiting for the store to take the release in turn, with this
    /// predecessor.
    AwaitStore(Option<Seq<char>>),
    /// Waiting for the caller to note that the release in turn is passed
    /// over.
    AwaitNote(ResolveError),
    /// Waiting for the pause after the release in turn.
    AwaitPause,
    Finished,
    Failed(SyncError),
}

/// The state of a pass.
pub ghost struct SyncState {
    pub registry_base: Seq<char>,
    pub policy: FailurePolicy,
    pub phase: PhaseView,
    /// The releases that the pass takes up.
    pub batch: Seq<ReleaseView>,
    pub truncated: bool,
    /// The place in `batch` of the release in turn.
    pub next: usize,
    pub stored: usize,
    pub skipped: usize,
}

impl SyncState {
    /// The state in which every pass begins.
    pub open spec fn initial(registry_base: Seq<char>, policy: FailurePolicy) -> SyncState {
        SyncState {
            registry_base,
            policy,
            phase: PhaseView::AwaitLatest,
            batch: Seq::empty(),
            truncated: false,
            next: 0,
            stored: 0,
            skipped: 0,
        }
    }

    /// This state, failed with `error`.
    pub open spec fn failed(self, error: SyncError) -> SyncState {
        SyncState { phase: PhaseView::Failed(error), ..self }
    }

    /// The release in turn.
    pub open spec fn current(self) -> ReleaseView {
        self.batch[self.next as int]
    }

    /// What holds of every state that a pass reaches: the batch is within
    /// its limit and has the most recent release first, the release in turn
    /// is one of the batch while there is work on it, and every release
    /// before it was either stored or passed over.
    pub open spec fn well_formed(self) -> bool {
        &&& self.batch.len() <= BATCH_LIMIT
        &&& newest_first(self.batch)
        &&& self.next <= self.batch.len()
        &&& match self.phase {
            PhaseView::AwaitLatest | PhaseView::AwaitReleases(_) => {
                &&& self.batch.len() == 0
                &&& self.stored == 0
                &&& self.skipped == 0
                &&& !self.truncated
            },
            PhaseView::AwaitVersions | PhaseView::AwaitStore(_) | PhaseView::AwaitNote(_) => {
                &&& self.next < self.batch.len()
                &&& self.stored + self.skipped == self.next
            },
            PhaseView::AwaitPause => {
                &&& self.next < self.batch.len()
                &&& self.stored + self.skipped == self.next + 1
            },
            PhaseView::Finished => {
                &&& self.next == self.batch.len()
                &&& self.stored + self.skipped == self.next
            },
            PhaseView::Failed(_) => self.stored + self.skipped <= self.batch.len(),
        }
    }
}

/// The command that a pass in `state` waits on.
pub open spec fn command_of(state: SyncState) -> CommandView {
    match state.phase {
        PhaseView::AwaitLatest => CommandView::ReadLatestTimestamp,
        PhaseView::AwaitReleases(window) => CommandView::ReadReleases(window),
        PhaseView::AwaitVersions => CommandView::FetchVersions(
            versions_url_of(state.registry_base, state.current().package_name),
        ),
        PhaseView::AwaitStore(previous) => CommandView::Store(
            ResolvedView { release: state.current(), previous_version: previous },
        ),
        PhaseView::AwaitNote(error) => CommandView::NoteSkipped(state.current(), error),
        PhaseView::AwaitPause => CommandView::Pause(PACING_MILLIS),
        PhaseView::Finished => CommandView::Finish(
            Summary { stored: state.stored, skipped: state.skipped, truncated: state.truncated },
        ),
        PhaseView::Failed(error) => CommandView::Abort(error),
    }
}

/// The state that follows `state` on `event`.
///
/// A pass reads the moment of the most recent release, then the releases of
/// the week that ends there, and then takes the releases one by one, the
/// most recent first: it asks the registry, hands the release to the store
/// or notes that it is passed over, and pauses. A failure of the catalog or
/// the store ends the pass, as does an event that does not answer the
/// command; a finished or failed pass stays as it is.
pub open spec fn advanced(state: SyncState, event: Event) -> SyncState {
    match state.phase {
        PhaseView::AwaitLatest => match event {
            Event::LatestTimestamp(latest) => match window_of(latest) {
                Ok(window) => SyncState { phase: PhaseView::AwaitReleases(window), ..state },
                Err(error) => state.failed(error),
            },
            Event::Failed => state.failed(SyncError::Storage),
            _ => state.failed(SyncError::UnexpectedEvent),
        },
        PhaseView::AwaitReleases(window) => match event {
            Event::Releases(rows) => {
                let batch = selection(release_views(rows@), window);
                SyncState {
                    phase: if batch.len() == 0 {
                        PhaseView::Finished
                    } else {
                        PhaseView::AwaitVersions
                    },
                    batch,
                    truncated: within(release_views(rows@), window).len() > BATCH_LIMIT,
                    ..state
                }
            },
            Event::Failed => state.failed(SyncError::Storage),
            _ => state.failed(SyncError::UnexpectedEvent),
        },
        PhaseView::AwaitVersions => match event {
            Event::Registry(reply) => match resolution_of(reply@, state.current().version) {
                Ok(previous) => SyncState { phase: PhaseView::AwaitStore(previous), ..state },
                Err(error) => match state.policy {
                    FailurePolicy::Skip => SyncState { phase: PhaseView::AwaitNote(error), ..state },
                    FailurePolicy::RecordWithoutPredecessor => SyncState {
                        phase: PhaseView::AwaitStore(None),
                        ..state
                    },
                },
            },
            _ => state.failed(SyncError::UnexpectedEvent),
        },
        PhaseView::AwaitStore(_) => match event {
            Event::Done => SyncState {
                phase: PhaseView::AwaitPause,
                stored: (state.stored + 1) as usize,
                ..state
            },
            Event::Failed => state.failed(SyncError::Storage),
            _ => state.failed(SyncError::UnexpectedEvent),
        },
        PhaseView::AwaitNote(_) => match event {
            Event::Done => SyncState {
                phase: PhaseView::AwaitPause,
                skipped: (state.skipped + 1) as usize,
                ..state
            },
            _ => state.failed(SyncError::UnexpectedEvent),
        },
        PhaseView::AwaitPause => match event {
            Event::Done => SyncState {
                phase: if state.next + 1 < state.batch.len() {
                    PhaseView::AwaitVersions
                } else {
                    PhaseView::Finished
                },
                next: (state.next + 1) as usize,
                ..state
            },
            _ => state.failed(SyncError::UnexpectedEvent),
        },
        PhaseView::Finished | PhaseView::Failed(_) => state,
    }
}

/// Every step of a pass leads from a well-formed state to a well-formed
/// state: the releases are taken in the batch's order, one at a time, and
/// each is stored or passed over before the next one's turn.
pub proof fn lemma_advanced_stays_well_formed(state: SyncState, event: Event)
    requires
        state.well_formed(),
    ensures
        advanced(state, event).well_formed(),
        advanced(state, event).registry_base == state.registry_base,
        advanced(state, event).policy == state.policy,
        !(state.phase is AwaitLatest) && !(state.phase is AwaitReleases) ==> advanced(
            state,
            event,
        ).batch == state.batch,
        advanced(state, event).next == state.next || (state.phase is AwaitPause && advanced(
            state,
            event,
        ).next == state.next + 1),
{
    if let PhaseView::AwaitReleases(window) = state.phase {
        if let Event::Releases(rows) = event {
            lemma_selection(release_views(rows@), window);
        }
    }
}

/// A release whose predecessor could not be resolved, be it that the
/// registry was unavailable or that its history lacks the release's version,
/// is never stored with a predecessor: it is passed over with the reason
/// noted, or stored without a predecessor, as the policy says.
pub proof fn lemma_unresolved_release_gets_no_predecessor(
    state: SyncState,
    reply: RegistryReply,
    error: ResolveError,
)
    requires
        state.phase is AwaitVersions,
        resolution_of(reply@, state.current().version) == Err::<Option<Seq<char>>, ResolveError>(
            error,
        ),
    ensures
        state.policy == FailurePolicy::Skip ==> command_of(advanced(state, Event::Registry(reply)))
            == CommandView::NoteSkipped(state.current(), error),
        state.policy == FailurePolicy::RecordWithoutPredecessor ==> command_of(
            advanced(state, Event::Registry(reply)),
        ) == CommandView::Store(ResolvedView { release: state.current(), previous_version: None }),
        advanced(advanced(state, Event::Registry(reply)), Event::Done).phase is AwaitPause,
        state.policy == FailurePolicy::Skip ==> advanced(
            advanced(state, Event::Registry(reply)),
            Event::Done,
        ).stored == state.stored,
{
}

/// A release whose version the registry's history lacks is passed over and
/// not stored, where the policy is to skip.
pub proof fn lemma_missing_target_is_skipped(state: SyncState, reply: RegistryReply)
    requires
        state.well_formed(),
        state.phase is AwaitVersions,
        state.policy == FailurePolicy::Skip,
        history_of(reply@) matches Some(history) && !history.contains(state.current().version),
    ensures
        command_of(advanced(state, Event::Registry(reply))) == CommandView::NoteSkipped(
            state.current(),
            ResolveError::VersionNotFound,
        ),
        advanced(advanced(state, Event::Registry(reply)), Event::Done).stored == state.stored,
        advanced(advanced(state, Event::Registry(reply)), Event::Done).skipped == state.skipped
            + 1,
{
}

/// No request goes to the registry without a pause since the one before:
/// the pass turns to a release either from the pause after the release
/// before it, or, for the first release, from the reading of the batch.
pub proof fn lemma_requests_are_paced(state: SyncState, event: Event)
    requires
        state.well_formed(),
        !(state.phase is AwaitVersions),
        advanced(state, event).phase is AwaitVersions,
    ensures
        state.phase is AwaitReleases || command_of(state) == CommandView::Pause(PACING_MILLIS),
        state.phase is AwaitReleases ==> advanced(state, event).next == 0,
{
}

/// Where a pass stands, as the orchestrator holds it.
enum Phase {
    AwaitLatest,
    AwaitReleases(Window),
    AwaitVersions,
    AwaitStore(Option<String>),
    AwaitNote(ResolveError),
    AwaitPause,
    Finished,
    Failed(SyncError),
}

impl View for Phase {
    type V = PhaseView;

    closed spec fn view(&self) -> PhaseView {
        match self {
            Phase::AwaitLatest => PhaseView::AwaitLatest,
            Phase::AwaitReleases(window) => PhaseView::AwaitReleases(*window),
            Phase::AwaitVersions => PhaseView::AwaitVersions,
            Phase::AwaitStore(previous) => PhaseView::AwaitStore(
                match previous {
                    Some(version) => Some(version@),
                    None => None,
                },
            ),
            Phase::AwaitNote(error) => PhaseView::AwaitNote(*error),
            Phase::AwaitPause => PhaseView::AwaitPause,
            Phase::Finished => PhaseView::Finished,
            Phase::Failed(error) => PhaseView::Failed(*error),
        }
    }
}

/// One pass of the synchronisation, from its first command to its last.
pub struct Orchestrator {
    registry_base: String,
    policy: FailurePolicy,
    phase: Phase,
    batch: Vec<ReleaseEvent>,
    truncated: bool,
    next: usize,
    stored: usize,
    skipped: usize,
}

impl View for Orchestrator {
    type V = SyncState;

    closed spec fn view(&self) -> SyncState {
        SyncState {
            registry_base: self.registry_base@,
            policy: self.policy,
            phase: self.phase@,
            batch: release_views(self.batch@),
            truncated: self.truncated,
            next: self.next,
            stored: self.stored,
            skipped: self.skipped,
        }
    }
}

impl Orchestrator {
    #[verifier::type_invariant]
    spec fn sound(self) -> bool {
        self@.well_formed()
    }

    /// A pass that is about to begin, against the registry at
    /// `registry_base`.
    pub fn new(registry_base: &str, policy: FailurePolicy) -> (pass: Orchestrator)
        ensures
            pass@ == SyncState::initial(registry_base@, policy),
    {
        let pass = Orchestrator {
            registry_base: registry_base.to_owned(),
            policy,
            phase: Phase::AwaitLatest,
            batch: Vec::new(),
            truncated: false,
            next: 0,
            stored: 0,
            skipped: 0,
        };
        assert(pass@.batch =~= Seq::<ReleaseView>::empty());
        pass
    }

    /// The command that the pass waits on. It stays the same until an event
    /// is reported.
    pub fn command(&self) -> (command: Command)
        ensures
            command@ == command_of(self@),
            self@.well_formed(),
    {
        proof {
            use_type_invariant(self);
        }
        match &self.phase {
            Phase::AwaitLatest => Command::ReadLatestTimestamp,
            Phase::AwaitReleases(window) => Command::ReadReleases(*window),
            Phase::AwaitVersions => Command::FetchVersions(
                versions_url(
                    self.registry_base.as_str(),
                    self.batch[self.next].package_name.as_str(),
                ),
            ),
            Phase::AwaitStore(previous) => Command::Store(
                ResolvedRelease {
                    release: self.batch[self.next].duplicate(),
                    previous_version: match previous {
                        Some(version) => Some(version.clone()),
                        None => None,
                    },
                },
            ),
            Phase::AwaitNote(error) => Command::NoteSkipped(
                self.batch[self.next].duplicate(),
                *error,
            ),
            Phase::AwaitPause => Command::Pause(PACING_MILLIS),
            Phase::Finished => Command::Finish(
                Summary { stored: self.stored, skipped: self.skipped, truncated: self.truncated },
            ),
            Phase::Failed(error) => Command::Abort(*error),
        }
    }

    /// The pass, ended by `error`.
    fn fail(self, error: SyncError) -> (pass: Orchestrator)
        ensures
            pass@ == self@.failed(error),
    {
        proof {
            use_type_invariant(&self);
        }
        Orchestrator {
            registry_base: self.registry_base,
            policy: self.policy,
            phase: Phase::Failed(error),
            batch: self.batch,
            truncated: self.truncated,
            next: self.next,
            stored: self.stored,
            skipped: self.skipped,
        }
    }

    /// Moves the pass on by what came of its command.
    pub fn advance(self, event: Event) -> (pass: Orchestrator)
        ensures
            pass@ == advanced(self@, event),
            pass@.well_formed(),
    {
        proof {
            use_type_invariant(&self);
            lemma_advanced_stays_well_formed(self@, event);
        }
        match (&self.phase, event) {
            (Phase::Finished, _) | (Phase::Failed(_), _) => self,
            (Phase::AwaitLatest, Event::LatestTimestamp(latest)) => match window_ending_at(latest) {
                Ok(window) => Orchestrator {
                    registry_base: self.registry_base,
                    policy: self.policy,
                    phase: Phase::AwaitReleases(window),
                    batch: self.batch,
                    truncated: self.truncated,
                    next: self.next,
                    stored: self.stored,
                    skipped: self.skipped,
                },
                Err(error) => self.fail(error),
            },
            (Phase::AwaitReleases(window), Event::Releases(rows)) => {
                let taken = releases_in_window(&rows, window);
                let none = taken.releases.len() == 0;
                Orchestrator {
                    registry_base: self.registry_base,
                    policy: self.policy,
                    phase: if none {
                        Phase::Finished
                    } else {
                        Phase::AwaitVersions
                    },
                    batch: taken.releases,
                    truncated: taken.truncated,
                    next: self.next,
                    stored: self.stored,
                    skipped: self.skipped,
                }
            },
            (Phase::AwaitVersions, Event::Registry(reply)) => {
                let resolved = resolve_previous(&reply, self.batch[self.next].version.as_str());
                let phase = match resolved {
                    Ok(previous) => Phase::AwaitStore(previous),
                    Err(error) => match self.policy {
                        FailurePolicy::Skip => Phase::AwaitNote(error),
                        FailurePolicy::RecordWithoutPredecessor => Phase::AwaitStore(None),
                    },
                };
                Orchestrator {
                    registry_base: self.registry_base,
                    policy: self.policy,
                    phase,
                    batch: self.batch,
                    truncated: self.truncated,
                    next: self.next,
                    stored: self.stored,
                    skipped: self.skipped,
                }
            },
            (Phase::AwaitStore(_), Event::Done) => Orchestrator {
                registry_base: self.registry_base,
                policy: self.policy,
                phase: Phase::AwaitPause,
                batch: self.batch,
                truncated: self.truncated,
                next: self.next,
                stored: self.stored + 1,
                skipped: self.skipped,
            },
            (Phase::AwaitNote(_), Event::Done) => Orchestrator {
                registry_base: self.registry_base,
                policy: self.policy,
                phase: Phase::AwaitPause,
                batch: self.batch,
                truncated: self.truncated,
                next: self.next,
                stored: self.stored,
                skipped: self.skipped + 1,
            },
            (Phase::AwaitPause, Event::Done) => {
                let more = self.next + 1 < self.batch.len();
                Orchestrator {
                    registry_base: self.registry_base,
                    policy: self.policy,
                    phase: if more {
                        Phase::AwaitVersions
                    } else {
                        Phase::Finished
                    },
                    batch: self.batch,
                    truncated: self.truncated,
                    next: self.next + 1,
                    stored: self.stored,
                    skipped: self.skipped,
                }
            },
            (Phase::AwaitLatest, Event::Failed)
            | (Phase::AwaitReleases(_), Event::Failed)
            | (Phase::AwaitStore(_), Event::Failed) => self.fail(SyncError::Storage),
            _ => self.fail(SyncError::UnexpectedEvent),
        }
    }
}

} // verus!
