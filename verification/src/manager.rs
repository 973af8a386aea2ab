//! The region-migration manager: the front door that validates a
//! submission, deduplicates concurrent migrations of the same region and
//! starts the procedure.

use vstd::prelude::*;
use crate::errors::Error;
use crate::ids::RegionId;
use crate::records::{MigrationState, MigrationTask, ProcedureRecord, ProcedureStatus};
use crate::cluster::ClusterModel;

verus! {

impl ClusterModel {
    /// Some running procedure targets the region.
    pub open spec fn spec_has_running_for(self, rid: RegionId) -> bool {
        exists|i: int|
            0 <= i < self.records@.len() && (#[trigger] self.records@[i]).status is Running
                && self.records@[i].task.region_id == rid
    }

    pub open spec fn spec_running_index_for(self, rid: RegionId) -> int {
        choose|i: int|
            0 <= i < self.records@.len() && (#[trigger] self.records@[i]).status is Running
                && self.records@[i].task.region_id == rid
    }

    /// Procedure id of the running migration of the region; meaningful
    /// when one exists.
    pub open spec fn spec_running_pid_for(self, rid: RegionId) -> u64 {
        self.records@[self.spec_running_index_for(rid)].procedure_id
    }

    /// This exact migration (same region, source and target) has already
    /// run to completion.
    pub open spec fn spec_has_completed(self, rid: RegionId, from_id: u64, to_id: u64) -> bool {
        exists|i: int|
            0 <= i < self.records@.len() && (#[trigger] self.records@[i]).status is Done
                && self.records@[i].task.region_id == rid
                && self.records@[i].task.from_peer.id == from_id
                && self.records@[i].task.to_peer.id == to_id
    }

    fn has_completed_migration(&self, rid: RegionId, from_id: u64, to_id: u64) -> (r: bool)
        requires
            self.wf(),
        ensures
            r == self.spec_has_completed(rid, from_id, to_id),
    {
        let n = self.records.len();
        for i in 0..n
            invariant
                n == self.records@.len(),
                forall|j: int| 0 <= j < i
                    ==> !((#[trigger] self.records@[j]).status is Done
                        && self.records@[j].task.region_id == rid
                        && self.records@[j].task.from_peer.id == from_id
                        && self.records@[j].task.to_peer.id == to_id),
        {
            let is_done = match self.records[i].status {
                ProcedureStatus::Done => true,
                _ => false,
            };
            if is_done && self.records[i].task.region_id == rid
                && self.records[i].task.from_peer.id == from_id
                && self.records[i].task.to_peer.id == to_id {
                return true;
            }
        }
        false
    }

    fn running_index_for(&self, rid: RegionId) -> (r: Option<usize>)
        requires
            self.wf(),
        ensures
            match r {
                Some(i) => self.spec_has_running_for(rid)
                    && i == self.spec_running_index_for(rid)
                    && i < self.records@.len()
                    && self.records@[i as int].status is Running
                    && self.records@[i as int].task.region_id == rid,
                None => !self.spec_has_running_for(rid),
            },
    {
        let n = self.records.len();
        for i in 0..n
            invariant
                n == self.records@.len(),
                self.wf(),
                forall|j: int| 0 <= j < i
                    ==> !((#[trigger] self.records@[j]).status is Running
                        && self.records@[j].task.region_id == rid),
        {
            let is_running = match self.records[i].status {
                ProcedureStatus::Running => true,
                _ => false,
            };
            if is_running && self.records[i].task.region_id == rid {
                proof {
                    let k = self.spec_running_index_for(rid);
                    assert(0 <= k < self.records@.len() && self.records@[k].status is Running
                        && self.records@[k].task.region_id == rid);
                    if k != i as int {
                        assert(self.records@[k].task.region_id != self.records@[i as int].task.region_id);
                    }
                }
                return Some(i);
            }
        }
        None
    }

    /// Submits a migration task, evaluating the validation rules in
    /// order, first failure first:
    /// - the region must have a route, else `RegionRouteNotFound`;
    /// - a re-submission of a migration that has already completed, its
    ///   target still leading the region, is nothing to do: `Ok(None)`;
    /// - the claimed source must be the current leader, else
    ///   `InvalidArguments` (incorrect from peer);
    /// - the target must be a known, live datanode, else
    ///   `InvalidArguments`;
    /// - a target equal to the source succeeds trivially with `Ok(None)`;
    /// - a migration already running for the region is not duplicated:
    ///   its procedure id is returned again;
    /// - otherwise a fresh procedure record is created and its id
    ///   returned.
    ///
    /// No record is created on any error, and the cluster state outside
    /// the record store is never touched.
    pub fn submit_procedure(&mut self, task: MigrationTask) -> (r: Result<Option<u64>, Error>)
        requires
            old(self).wf(),
        ensures
            final(self).wf(),
            final(self).routes == old(self).routes,
            final(self).datanodes@ == old(self).datanodes@,
            final(self).tables@ == old(self).tables@,
            ({
                let rid = task.region_id;
                let leader = old(self).routes.spec_leader_id(rid);
                let migrated = leader == task.to_peer.id
                    && old(self).spec_has_completed(rid, task.from_peer.id, task.to_peer.id);
                let reachable = old(self).spec_has_datanode(task.to_peer.id)
                    && old(self).spec_dn(task.to_peer.id).alive;
                match r {
                    Err(Error::RegionRouteNotFound) => !old(self).spec_has_region_route(rid)
                        && *final(self) == *old(self),
                    Ok(None) => old(self).spec_has_region_route(rid)
                        && (migrated
                            || (!migrated && task.from_peer.id == leader && reachable
                                && task.to_peer.id == task.from_peer.id))
                        && *final(self) == *old(self),
                    Err(Error::InvalidArguments) => old(self).spec_has_region_route(rid)
                        && !migrated
                        && (task.from_peer.id != leader
                            || (task.from_peer.id == leader && !reachable))
                        && *final(self) == *old(self),
                    Ok(Some(pid)) => old(self).spec_has_region_route(rid)
                        && !migrated
                        && task.from_peer.id == leader
                        && reachable
                        && task.to_peer.id != task.from_peer.id
                        && (if old(self).spec_has_running_for(rid) {
                            // idempotent submission: the running procedure's
                            // own id comes back and nothing changes
                            pid == old(self).spec_running_pid_for(rid)
                                && *final(self) == *old(self)
                        } else {
                            pid == old(self).next_procedure_id
                                && final(self).next_procedure_id
                                    == old(self).next_procedure_id + 1
                                && final(self).records@ == old(self).records@.push(
                                    ProcedureRecord {
                                        procedure_id: pid,
                                        task: task,
                                        state: MigrationState::PrepareTarget,
                                        status: ProcedureStatus::Running,
                                        last_error: None,
                                        cancel_requested: false,
                                    })
                                && final(self).spec_has_record(pid)
                                && final(self).spec_record(pid)
                                    == final(self).records@.last()
                        }),
                    Err(Error::Transient) => old(self).spec_has_region_route(rid)
                        && !migrated
                        && task.from_peer.id == leader
                        && reachable
                        && task.to_peer.id != task.from_peer.id
                        && !old(self).spec_has_running_for(rid)
                        && old(self).next_procedure_id == u64::MAX
                        && *final(self) == *old(self),
                    Err(_) => false,
                }
            }),
    {
        let rid = task.region_id;
        let leader = match self.routes.get_route(rid) {
            Some(rt) => rt.leader_peer.id,
            None => {
                return Err(Error::RegionRouteNotFound);
            },
        };
        if leader == task.to_peer.id
            && self.has_completed_migration(rid, task.from_peer.id, task.to_peer.id) {
            // this very migration has already completed
            return Ok(None);
        }
        if task.from_peer.id != leader {
            // incorrect from peer
            return Err(Error::InvalidArguments);
        }
        let reachable = match self.datanode_index(task.to_peer.id) {
            Some(d) => self.datanodes[d].alive,
            None => false,
        };
        if !reachable {
            return Err(Error::InvalidArguments);
        }
        if task.to_peer.id == task.from_peer.id {
            // nothing to move
            return Ok(None);
        }
        if let Some(i) = self.running_index_for(rid) {
            return Ok(Some(self.records[i].procedure_id));
        }
        let pid = self.next_procedure_id;
        if pid == u64::MAX {
            // the id space is effectively inexhaustible; treat exhaustion
            // as a transient fault rather than wrapping around
            return Err(Error::Transient);
        }
        let record = ProcedureRecord {
            procedure_id: pid,
            task,
            state: MigrationState::PrepareTarget,
            status: ProcedureStatus::Running,
            last_error: None,
            cancel_requested: false,
        };
        self.records.push(record);
        self.next_procedure_id = pid + 1;
        proof {
            assert(self.records@[self.records@.len() - 1].procedure_id == pid);
            assert(self.spec_has_record(pid));
            let k = self.spec_record_index(pid);
            assert(0 <= k < self.records@.len() && self.records@[k].procedure_id == pid);
            if k != self.records@.len() - 1 {
                assert(self.records@[k] == old(self).records@[k]);
                assert(old(self).records@[k].procedure_id < old(self).next_procedure_id);
            }
            assert forall|a: int, b: int|
                0 <= a < b < self.records@.len() && #[trigger] self.records@[a].status is Running
                    && #[trigger] self.records@[b].status is Running
                implies self.records@[a].task.region_id != self.records@[b].task.region_id by {
                if b == self.records@.len() - 1 {
                    assert(self.records@[a] == old(self).records@[a]);
                    if old(self).records@[a].status is Running
                        && old(self).records@[a].task.region_id == rid {
                        assert(old(self).spec_has_running_for(rid));
                    }
                }
            }
        }
        Ok(Some(pid))
    }
}

/// At most one running migration targets a region: two running records
/// for the same region are the same record.
pub proof fn lemma_one_running_per_region(c: ClusterModel, rid: RegionId, i: int, j: int)
    requires
        c.wf(),
        0 <= i < c.records@.len(),
        0 <= j < c.records@.len(),
        c.records@[i].status is Running,
        c.records@[j].status is Running,
        c.records@[i].task.region_id == rid,
        c.records@[j].task.region_id == rid,
    ensures
        i == j,
{
    if i < j {
        assert(c.records@[i].task.region_id != c.records@[j].task.region_id);
    }
    if j < i {
        assert(c.records@[j].task.region_id != c.records@[i].task.region_id);
    }
}

} // verus!
