//! Durable procedure records: the state the procedure engine persists in
//! the metastore after every step, so that a crashed control plane resumes
//! a migration instead of restarting it.

use vstd::prelude::*;
use crate::ids::{Peer, RegionId};
use crate::errors::Error;

verus! {

/// Externally visible status of a procedure.
#[derive(Clone, Copy, PartialEq, Eq, Structural, Debug)]
pub enum ProcedureStatus {
    Running,
    Done,
    Failed,
    Cancelled,
}

impl ProcedureStatus {
    pub open spec fn spec_text(self) -> Seq<char> {
        match self {
            ProcedureStatus::Running => "Running"@,
            ProcedureStatus::Done => "Done"@,
            ProcedureStatus::Failed => "Failed"@,
            ProcedureStatus::Cancelled => "Cancelled"@,
        }
    }

    /// The status tag as text, as reported to clients polling a
    /// procedure.
    pub fn text(&self) -> (r: &'static str)
        ensures
            r@ == self.spec_text(),
    {
        match self {
            ProcedureStatus::Running => "Running",
            ProcedureStatus::Done => "Done",
            ProcedureStatus::Failed => "Failed",
            ProcedureStatus::Cancelled => "Cancelled",
        }
    }
}

/// The states of the region-migration state machine, in execution order.
/// The persisted step cursor is the index of the state about to run.
#[derive(Clone, Copy, PartialEq, Eq, Structural, Debug)]
pub enum MigrationState {
    PrepareTarget,
    OpenRegionFollower,
    ReplicateCatchUp,
    FreezeSourceWrites,
    FinalReplicate,
    CommitRouteChange,
    CloseSourceRegion,
    InvalidateCaches,
    Finished,
}

impl MigrationState {
    /// Position of the state in the step order; the persisted cursor.
    pub open spec fn spec_cursor(self) -> int {
        match self {
            MigrationState::PrepareTarget => 0,
            MigrationState::OpenRegionFollower => 1,
            MigrationState::ReplicateCatchUp => 2,
            MigrationState::FreezeSourceWrites => 3,
            MigrationState::FinalReplicate => 4,
            MigrationState::CommitRouteChange => 5,
            MigrationState::CloseSourceRegion => 6,
            MigrationState::InvalidateCaches => 7,
            MigrationState::Finished => 8,
        }
    }

    pub fn cursor(&self) -> (r: u32)
        ensures
            r == self.spec_cursor(),
    {
        match self {
            MigrationState::PrepareTarget => 0,
            MigrationState::OpenRegionFollower => 1,
            MigrationState::ReplicateCatchUp => 2,
            MigrationState::FreezeSourceWrites => 3,
            MigrationState::FinalReplicate => 4,
            MigrationState::CommitRouteChange => 5,
            MigrationState::CloseSourceRegion => 6,
            MigrationState::InvalidateCaches => 7,
            MigrationState::Finished => 8,
        }
    }

    /// The state that runs after this one completes.
    pub open spec fn spec_next(self) -> MigrationState {
        match self {
            MigrationState::PrepareTarget => MigrationState::OpenRegionFollower,
            MigrationState::OpenRegionFollower => MigrationState::ReplicateCatchUp,
            MigrationState::ReplicateCatchUp => MigrationState::FreezeSourceWrites,
            MigrationState::FreezeSourceWrites => MigrationState::FinalReplicate,
            MigrationState::FinalReplicate => MigrationState::CommitRouteChange,
            MigrationState::CommitRouteChange => MigrationState::CloseSourceRegion,
            MigrationState::CloseSourceRegion => MigrationState::InvalidateCaches,
            MigrationState::InvalidateCaches => MigrationState::Finished,
            MigrationState::Finished => MigrationState::Finished,
        }
    }

    pub fn next(&self) -> (r: MigrationState)
        ensures
            r == self.spec_next(),
            !(self is Finished) ==> r.spec_cursor() == self.spec_cursor() + 1,
    {
        match self {
            MigrationState::PrepareTarget => MigrationState::OpenRegionFollower,
            MigrationState::OpenRegionFollower => MigrationState::ReplicateCatchUp,
            MigrationState::ReplicateCatchUp => MigrationState::FreezeSourceWrites,
            MigrationState::FreezeSourceWrites => MigrationState::FinalReplicate,
            MigrationState::FinalReplicate => MigrationState::CommitRouteChange,
            MigrationState::CommitRouteChange => MigrationState::CloseSourceRegion,
            MigrationState::CloseSourceRegion => MigrationState::InvalidateCaches,
            MigrationState::InvalidateCaches => MigrationState::Finished,
            MigrationState::Finished => MigrationState::Finished,
        }
    }

    /// Whether the route change has already been committed when this state
    /// is about to run; from then on the procedure can only roll forward.
    pub open spec fn spec_past_commit(self) -> bool {
        self.spec_cursor() > MigrationState::CommitRouteChange.spec_cursor()
    }

    pub fn past_commit(&self) -> (r: bool)
        ensures
            r == self.spec_past_commit(),
    {
        self.cursor() > 5
    }
}

/// A migration task as submitted; immutable afterwards.
#[derive(Clone, Debug)]
pub struct MigrationTask {
    pub cluster_id: u64,
    pub region_id: RegionId,
    pub from_peer: Peer,
    pub to_peer: Peer,
    /// Bound on the catch-up replication phase, in milliseconds.
    pub replay_timeout_ms: u64,
}

impl MigrationTask {
    pub fn new(
        cluster_id: u64,
        region_id: RegionId,
        from_peer: Peer,
        to_peer: Peer,
        replay_timeout_ms: u64,
    ) -> (r: MigrationTask)
        ensures
            r.cluster_id == cluster_id,
            r.region_id == region_id,
            r.from_peer == from_peer,
            r.to_peer == to_peer,
            r.replay_timeout_ms == replay_timeout_ms,
    {
        MigrationTask { cluster_id, region_id, from_peer, to_peer, replay_timeout_ms }
    }
}

/// One persisted procedure record.
pub struct ProcedureRecord {
    pub procedure_id: u64,
    pub task: MigrationTask,
    pub state: MigrationState,
    pub status: ProcedureStatus,
    pub last_error: Option<Error>,
    pub cancel_requested: bool,
}

impl ProcedureRecord {
    /// The persisted step cursor of this record.
    pub fn step_cursor(&self) -> (r: u32)
        ensures
            r == self.state.spec_cursor(),
    {
        self.state.cursor()
    }
}

} // verus!
