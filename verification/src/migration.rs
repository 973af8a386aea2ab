//! The region-migration procedure: a crash-safe state machine that moves
//! a region's leadership from one datanode to another without losing a
//! single acknowledged write.
//!
//! Each state's effect is executed against the cluster, then the step
//! cursor is persisted; a control plane that crashes between the two
//! re-executes the same state on resume, so every effect is idempotent.

use vstd::prelude::*;
use crate::ids::RegionId;
use crate::errors::Error;
use crate::routes::RegionRoute;
use crate::ids::Peer;
use crate::records::{MigrationState, ProcedureRecord, ProcedureStatus};
use crate::cluster::{ClusterModel, DatanodeModel, RegionReplica, RegionRole};

verus! {

/// Equality of a datanode's durable core: everything except the volatile
/// route-cache flag.
pub open spec fn dn_core_eq(a: DatanodeModel, b: DatanodeModel) -> bool {
    a.peer == b.peer && a.alive == b.alive && a.disk_full == b.disk_full
        && a.replicas@ == b.replicas@
}

impl ClusterModel {
    /// Administrative state other than routes: procedure records, the id
    /// counter and the table rules.
    pub open spec fn spec_same_admin(self, other: ClusterModel) -> bool {
        self.records@ == other.records@ && self.next_procedure_id == other.next_procedure_id
            && self.tables@ == other.tables@
    }

    /// Executes the effect of the procedure's current state against the
    /// cluster, without persisting progress.  The contract is the
    /// transition relation of the migration state machine; every effect
    /// is idempotent, and on any error the cluster is untouched.
    #[verifier::spinoff_prover]
    #[verifier::rlimit(80)]
    pub fn execute_step(&mut self, pid: u64) -> (r: Result<(), Error>)
        requires
            old(self).wf(),
            old(self).spec_has_record(pid),
            old(self).spec_record(pid).status is Running,
            !(old(self).spec_record(pid).state is Finished),
        ensures
            final(self).wf(),
            final(self).spec_same_admin(*old(self)),
            r is Err ==> *final(self) == *old(self),
            r matches Err(e) ==> !(e is Catastrophic) && !(e is InvalidArguments),
            r matches Err(e) && !e.spec_is_retryable()
                ==> !(old(self).spec_record(pid).state.spec_past_commit()),
            ({
                // when each outcome is owed: the success and error of every
                // state are pinned by the cluster's condition
                let rec = old(self).spec_record(pid);
                let rid = rec.task.region_id;
                let fid = rec.task.from_peer.id;
                let tid = rec.task.to_peer.id;
                match rec.state {
                    MigrationState::PrepareTarget => (r is Ok <==> (old(self).spec_has_datanode(tid)
                            && old(self).spec_dn(tid).alive && !old(self).spec_dn(tid).disk_full))
                        && (r matches Err(e) ==> (if !old(self).spec_has_datanode(tid)
                                || !old(self).spec_dn(tid).alive {
                            e is Transient
                        } else {
                            e is TargetRejected
                        })),
                    MigrationState::OpenRegionFollower =>
                        r is Ok <==> old(self).spec_has_datanode(tid),
                    MigrationState::ReplicateCatchUp | MigrationState::FinalReplicate =>
                        r is Ok <==> (old(self).spec_has_wal(fid, rid)
                            && old(self).spec_has_wal(tid, rid)),
                    MigrationState::FreezeSourceWrites =>
                        r is Ok <==> old(self).spec_has_wal(fid, rid),
                    MigrationState::CommitRouteChange => (r is Ok
                            <==> (old(self).spec_has_region_route(rid)
                                && old(self).routes.spec_leader_id(rid) == fid))
                        && (r matches Err(e) ==> (if !old(self).spec_has_region_route(rid) {
                            e is RegionRouteNotFound
                        } else {
                            e is RouteChanged
                        })),
                    MigrationState::CloseSourceRegion =>
                        r is Ok <==> (old(self).spec_has_datanode(fid)
                            && old(self).spec_has_wal(tid, rid)),
                    MigrationState::InvalidateCaches => r is Ok,
                    MigrationState::Finished => true,
                }
            }),
            ({
                let rec = old(self).spec_record(pid);
                let rid = rec.task.region_id;
                let fid = rec.task.from_peer.id;
                let tid = rec.task.to_peer.id;
                r is Ok ==> {
                    // facts common to every state: the set of datanodes is
                    // stable, uninvolved datanodes keep their durable core,
                    // and the involved datanodes keep replicas of other
                    // regions untouched
                    &&& (forall|p: u64| #[trigger] final(self).spec_has_datanode(p)
                        <==> old(self).spec_has_datanode(p))
                    &&& (forall|p: u64|
                        old(self).spec_has_datanode(p) && p != fid && p != tid
                            ==> dn_core_eq(#[trigger] final(self).spec_dn(p), old(self).spec_dn(p)))
                    &&& (forall|p: u64, r2: RegionId|
                        old(self).spec_has_datanode(p) && r2 != rid
                            ==> ((#[trigger] final(self).spec_dn(p).spec_has_replica(r2)
                                    <==> old(self).spec_dn(p).spec_has_replica(r2))
                                && (old(self).spec_dn(p).spec_has_replica(r2)
                                    ==> final(self).spec_dn(p).spec_replica(r2)
                                        == old(self).spec_dn(p).spec_replica(r2))))
                    &&& (forall|p: u64| old(self).spec_has_datanode(p)
                        ==> (#[trigger] final(self).spec_dn(p)).peer == old(self).spec_dn(p).peer
                            && final(self).spec_dn(p).alive == old(self).spec_dn(p).alive
                            && final(self).spec_dn(p).disk_full == old(self).spec_dn(p).disk_full)
                    &&& match rec.state {
                        MigrationState::PrepareTarget => *final(self) == *old(self)
                            && old(self).spec_has_datanode(tid) && old(self).spec_dn(tid).alive
                            && !old(self).spec_dn(tid).disk_full,
                        MigrationState::OpenRegionFollower => final(self).routes == old(self).routes
                            && old(self).spec_has_datanode(tid)
                            && final(self).spec_has_wal(tid, rid)
                            && (old(self).spec_has_datanode(fid)
                                ==> final(self).spec_dn(fid) == old(self).spec_dn(fid))
                            && (if old(self).spec_dn(tid).spec_has_replica(rid) {
                                *final(self) == *old(self)
                            } else {
                                final(self).spec_dn(tid).spec_replica(rid)
                                    == (RegionReplica {
                                        region: rid,
                                        role: RegionRole::Follower,
                                        wal: final(self).spec_dn(tid).spec_replica(rid).wal,
                                        frozen: false,
                                    })
                                    && final(self).spec_wal(tid, rid).len() == 0
                            }),
                        MigrationState::ReplicateCatchUp | MigrationState::FinalReplicate =>
                            final(self).routes == old(self).routes
                            && old(self).spec_has_wal(fid, rid) && old(self).spec_has_wal(tid, rid)
                            && final(self).spec_has_wal(fid, rid) && final(self).spec_has_wal(tid, rid)
                            && final(self).spec_wal(tid, rid) == old(self).spec_wal(fid, rid)
                            && final(self).spec_dn(tid).spec_replica(rid)
                                == (RegionReplica {
                                    wal: final(self).spec_dn(tid).spec_replica(rid).wal,
                                    ..old(self).spec_dn(tid).spec_replica(rid)
                                })
                            && (old(self).spec_has_datanode(fid)
                                ==> final(self).spec_dn(fid) == old(self).spec_dn(fid)),
                        MigrationState::FreezeSourceWrites => final(self).routes == old(self).routes
                            && old(self).spec_has_wal(fid, rid)
                            && final(self).spec_has_wal(fid, rid)
                            && final(self).spec_dn(fid).spec_replica(rid)
                                == (RegionReplica {
                                    frozen: true,
                                    ..old(self).spec_dn(fid).spec_replica(rid)
                                })
                            && (old(self).spec_has_datanode(tid)
                                ==> final(self).spec_dn(tid) == old(self).spec_dn(tid)),
                        MigrationState::CommitRouteChange =>
                            old(self).spec_has_region_route(rid)
                            && old(self).routes.spec_leader_id(rid) == fid
                            && final(self).routes.routes@ == old(self).routes.routes@.update(
                                old(self).routes.spec_index_of(rid),
                                RegionRoute {
                                    region: rid,
                                    leader_peer: Peer {
                                        id: tid,
                                        addr: old(self).routes.spec_route_of(rid).leader_peer.addr,
                                    },
                                    follower_peers: old(self).routes.spec_route_of(rid).follower_peers,
                                },
                            )
                            && final(self).routes.spec_has_region(rid)
                            && final(self).routes.spec_leader_id(rid) == tid
                            && (forall|p: u64| old(self).spec_has_datanode(p)
                                ==> dn_core_eq(#[trigger] final(self).spec_dn(p), old(self).spec_dn(p))),
                        MigrationState::CloseSourceRegion => final(self).routes == old(self).routes
                            && old(self).spec_has_datanode(fid)
                            && old(self).spec_has_wal(tid, rid)
                            && !final(self).spec_dn(fid).spec_has_replica(rid)
                            && final(self).spec_has_wal(tid, rid)
                            && final(self).spec_dn(tid).spec_replica(rid)
                                == (RegionReplica {
                                    role: RegionRole::Leader,
                                    ..old(self).spec_dn(tid).spec_replica(rid)
                                }),
                        MigrationState::InvalidateCaches => final(self).routes == old(self).routes
                            && (forall|p: u64| old(self).spec_has_datanode(p)
                                ==> dn_core_eq(#[trigger] final(self).spec_dn(p), old(self).spec_dn(p))),
                        MigrationState::Finished => false,
                    }
                }
            }),
    {
        let i = self.record_index(pid).unwrap();
        let rid = self.records[i].task.region_id;
        let fid = self.records[i].task.from_peer.id;
        let tid = self.records[i].task.to_peer.id;
        let state = self.records[i].state;
        proof {
            assert(fid != tid);
        }
        match state {
            MigrationState::PrepareTarget => {
                // verify the target is reachable, has disk space and a
                // compatible schema
                match self.datanode_index(tid) {
                    Some(d) => {
                        if !self.datanodes[d].alive {
                            return Err(Error::Transient);
                        }
                        if self.datanodes[d].disk_full {
                            return Err(Error::TargetRejected);
                        }
                        Ok(())
                    },
                    None => Err(Error::Transient),
                }
            },
            MigrationState::OpenRegionFollower => {
                // the target opens the region in follower mode, tailing
                // the source's log
                self.open_region(tid, rid, RegionRole::Follower, Vec::new())
            },
            MigrationState::ReplicateCatchUp => {
                // poll the follower until its lag is under the threshold;
                // the model replicates the whole log at once
                self.replicate_region(fid, tid, rid)
            },
            MigrationState::FreezeSourceWrites => {
                // the source's write lease expires: new writes are
                // rejected until the route change is decided
                self.set_region_frozen(fid, rid, true)
            },
            MigrationState::FinalReplicate => {
                // drain the frozen tail and verify the follower's
                // committed offset matches the source's last offset
                self.replicate_region(fid, tid, rid)
            },
            MigrationState::CommitRouteChange => {
                // the single linearizable CAS: expected leader must still
                // be the source
                let to_peer = {
                    let rec = &self.records[i];
                    rec.task.to_peer.duplicate()
                };
                let res = self.routes.commit_route_change(rid, fid, &to_peer);
                match res {
                    Ok(()) => {
                        // the losing peer's caches are now stale
                        let ghost mid = *self;
                        proof {
                            crate::cluster::lemma_same_datanodes(*old(self), mid);
                        }
                        let _ = self.mark_route_cache_stale(fid);
                        proof {
                            assert(self.routes == mid.routes);
                            assert(self.spec_same_admin(mid));
                            assert forall|p: u64| old(self).spec_has_datanode(p)
                                implies dn_core_eq(#[trigger] self.spec_dn(p), old(self).spec_dn(p)) by {
                                assert(mid.spec_dn(p) == old(self).spec_dn(p));
                            }
                            assert forall|p: u64, r2: RegionId|
                                old(self).spec_has_datanode(p) && r2 != rid
                                implies ((#[trigger] self.spec_dn(p).spec_has_replica(r2)
                                        <==> old(self).spec_dn(p).spec_has_replica(r2))
                                    && (old(self).spec_dn(p).spec_has_replica(r2)
                                        ==> self.spec_dn(p).spec_replica(r2)
                                            == old(self).spec_dn(p).spec_replica(r2))) by {
                                assert(mid.spec_dn(p) == old(self).spec_dn(p));
                                assert(old(self).spec_dn(p).wf());
                                crate::cluster::lemma_same_replicas(
                                    old(self).spec_dn(p), self.spec_dn(p));
                            }
                        }
                        Ok(())
                    },
                    Err(e) => Err(e),
                }
            },
            MigrationState::CloseSourceRegion => {
                // the target is the committed leader; the source drops
                // its replica and the target switches role
                match self.datanode_index(tid) {
                    Some(d) => {
                        if replica_has(&self.datanodes[d], rid) {
                        } else {
                            return Err(Error::Transient);
                        }
                    },
                    None => {
                        return Err(Error::Transient);
                    },
                }
                match self.close_region(fid, rid) {
                    Ok(()) => {},
                    Err(e) => {
                        return Err(e);
                    },
                }
                let ghost mid = *self;
                let res = self.set_region_role(tid, rid, RegionRole::Leader);
                proof {
                    assert(mid.spec_dn(tid) == old(self).spec_dn(tid));
                    assert(res is Ok);
                    assert(self.spec_dn(tid).spec_replica(rid)
                        == (RegionReplica { role: RegionRole::Leader, ..old(self).spec_dn(tid).spec_replica(rid) }));
                    assert(self.spec_dn(fid) == mid.spec_dn(fid));
                    assert(!self.spec_dn(fid).spec_has_replica(rid));
                    assert forall|p: u64, r2: RegionId|
                        old(self).spec_has_datanode(p) && r2 != rid
                        implies ((#[trigger] self.spec_dn(p).spec_has_replica(r2)
                                <==> old(self).spec_dn(p).spec_has_replica(r2))
                            && (old(self).spec_dn(p).spec_has_replica(r2)
                                ==> self.spec_dn(p).spec_replica(r2)
                                    == old(self).spec_dn(p).spec_replica(r2))) by {
                        if p == fid {
                            assert(self.spec_dn(p) == mid.spec_dn(p));
                        } else if p == tid {
                            assert(mid.spec_dn(p) == old(self).spec_dn(p));
                        } else {
                            assert(mid.spec_dn(p) == old(self).spec_dn(p));
                            assert(self.spec_dn(p) == mid.spec_dn(p));
                        }
                    }
                }
                Ok(())
            },
            MigrationState::InvalidateCaches => {
                // broadcast: every peer flushes its stale route cache
                self.invalidate_route_caches();
                proof {
                    assert forall|p: u64| old(self).spec_has_datanode(p)
                        implies dn_core_eq(#[trigger] self.spec_dn(p), old(self).spec_dn(p)) by {}
                    assert forall|p: u64, r2: RegionId|
                        old(self).spec_has_datanode(p) && r2 != rid
                        implies ((#[trigger] self.spec_dn(p).spec_has_replica(r2)
                                <==> old(self).spec_dn(p).spec_has_replica(r2))
                            && (old(self).spec_dn(p).spec_has_replica(r2)
                                ==> self.spec_dn(p).spec_replica(r2)
                                    == old(self).spec_dn(p).spec_replica(r2))) by {
                        assert(old(self).spec_dn(p).wf());
                        assert(self.spec_dn(p).replicas@ == old(self).spec_dn(p).replicas@);
                        crate::cluster::lemma_same_replicas(old(self).spec_dn(p), self.spec_dn(p));
                    }
                }
                Ok(())
            },
            MigrationState::Finished => Err(Error::Transient),
        }
    }
}

/// Whether a datanode holds a replica of the region (lookup only).
pub fn replica_has(dn: &DatanodeModel, rid: RegionId) -> (r: bool)
    requires
        dn.wf(),
    ensures
        r == dn.spec_has_replica(rid),
{
    crate::cluster::replica_index(dn, rid).is_some()
}

} // verus!

verus! {

/// The record the engine persists for a step outcome: the cursor advances
/// on success, stays put on a retryable error, and the procedure fails
/// permanently otherwise.
pub open spec fn spec_advance_record(rec: ProcedureRecord, outcome: Result<(), Error>) -> ProcedureRecord {
    match outcome {
        Ok(()) => ProcedureRecord {
            state: rec.state.spec_next(),
            status: if rec.state.spec_next() is Finished {
                ProcedureStatus::Done
            } else {
                ProcedureStatus::Running
            },
            ..rec
        },
        Err(e) => if e.spec_is_retryable() {
            rec
        } else {
            ProcedureRecord { status: ProcedureStatus::Failed, last_error: Some(e), ..rec }
        },
    }
}

impl ClusterModel {
    /// Persists the outcome of the step the record points at: a CAS write
    /// of the advanced cursor on success, nothing on a retryable error,
    /// and compensation (close the target follower, release the source
    /// lease) plus a permanent `Failed` status otherwise.  The persisted
    /// cursor never moves backwards.
    #[verifier::spinoff_prover]
    #[verifier::rlimit(80)]
    pub fn persist_step(&mut self, pid: u64, outcome: Result<(), Error>)
        requires
            old(self).wf(),
            old(self).spec_has_record(pid),
            old(self).spec_record(pid).status is Running,
            !(old(self).spec_record(pid).state is Finished),
            (outcome matches Err(e) && !e.spec_is_retryable())
                ==> !old(self).spec_record(pid).state.spec_past_commit(),
        ensures
            final(self).wf(),
            final(self).routes == old(self).routes,
            final(self).next_procedure_id == old(self).next_procedure_id,
            final(self).tables@ == old(self).tables@,
            (outcome matches Err(e) && e.spec_is_retryable()) ==> *final(self) == *old(self),
            ({
                let rec = old(self).spec_record(pid);
                let idx = old(self).spec_record_index(pid);
                let newrec = spec_advance_record(rec, outcome);
                &&& final(self).records@ == old(self).records@.update(idx, newrec)
                &&& final(self).spec_has_record(pid)
                &&& final(self).spec_record_index(pid) == idx
                &&& final(self).spec_record(pid) == newrec
                &&& newrec.state.spec_cursor() >= rec.state.spec_cursor()
                &&& newrec.task == rec.task
            }),
            ({
                let rec = old(self).spec_record(pid);
                let rid = rec.task.region_id;
                let fid = rec.task.from_peer.id;
                let tid = rec.task.to_peer.id;
                if outcome is Ok || (outcome matches Err(e) && e.spec_is_retryable()) {
                    final(self).datanodes@ == old(self).datanodes@
                } else {
                    // compensation before the commit: the target follower
                    // is closed and the source lease is released
                    &&& (forall|p: u64| #[trigger] final(self).spec_has_datanode(p)
                        <==> old(self).spec_has_datanode(p))
                    &&& (forall|p: u64| old(self).spec_has_datanode(p) && p != fid && p != tid
                        ==> #[trigger] final(self).spec_dn(p) == old(self).spec_dn(p))
                    &&& (old(self).spec_has_datanode(tid)
                        ==> !final(self).spec_dn(tid).spec_has_replica(rid))
                    &&& (old(self).spec_has_wal(fid, rid)
                        ==> final(self).spec_dn(fid).spec_replica(rid)
                            == (RegionReplica {
                                frozen: false,
                                ..old(self).spec_dn(fid).spec_replica(rid)
                            }))
                    &&& (forall|p: u64| old(self).spec_has_datanode(p)
                        ==> (#[trigger] final(self).spec_dn(p)).peer == old(self).spec_dn(p).peer
                            && final(self).spec_dn(p).alive == old(self).spec_dn(p).alive
                            && final(self).spec_dn(p).disk_full == old(self).spec_dn(p).disk_full)
                    &&& (forall|p: u64, r2: RegionId|
                        old(self).spec_has_datanode(p) && r2 != rid
                            ==> ((#[trigger] final(self).spec_dn(p).spec_has_replica(r2)
                                    <==> old(self).spec_dn(p).spec_has_replica(r2))
                                && (old(self).spec_dn(p).spec_has_replica(r2)
                                    ==> final(self).spec_dn(p).spec_replica(r2)
                                        == old(self).spec_dn(p).spec_replica(r2))))
                }
            }),
    {
        let i = self.record_index(pid).unwrap();
        let retryable = match &outcome {
            Ok(()) => false,
            Err(e) => e.is_retryable(),
        };
        let permanent = match &outcome {
            Ok(()) => false,
            Err(e) => !e.is_retryable(),
        };
        if permanent {
            let rid = self.records[i].task.region_id;
            let fid = self.records[i].task.from_peer.id;
            let tid = self.records[i].task.to_peer.id;
            proof {
                assert(fid != tid);
            }
            let ghost st0 = *self;
            let rc1 = self.close_region(tid, rid);
            let ghost mid = *self;
            let rc2 = self.set_region_frozen(fid, rid, false);
            proof {
                assert(mid.spec_same_meta(st0));
                assert(self.spec_same_meta(mid));
                if st0.spec_has_datanode(tid) {
                    assert(rc1 is Ok);
                    if st0.spec_has_datanode(fid) {
                        assert(mid.spec_dn(fid) == st0.spec_dn(fid));
                    }
                    assert(!mid.spec_dn(tid).spec_has_replica(rid));
                } else {
                    assert(mid == st0);
                }
                if st0.spec_has_wal(fid, rid) {
                    assert(mid.spec_has_wal(fid, rid));
                    assert(mid.spec_dn(fid).spec_replica(rid) == st0.spec_dn(fid).spec_replica(rid));
                    assert(rc2 is Ok);
                }
                if !(rc2 is Ok) {
                    assert(*self == mid);
                }
                if st0.spec_has_datanode(tid) && !(rc2 is Ok) {
                    assert(self.spec_dn(tid) == mid.spec_dn(tid));
                }
                if st0.spec_has_datanode(tid) && rc2 is Ok {
                    assert(self.spec_dn(tid) == mid.spec_dn(tid));
                }
                assert forall|p: u64, r2: RegionId|
                    st0.spec_has_datanode(p) && r2 != rid
                    implies ((#[trigger] self.spec_dn(p).spec_has_replica(r2)
                            <==> st0.spec_dn(p).spec_has_replica(r2))
                        && (st0.spec_dn(p).spec_has_replica(r2)
                            ==> self.spec_dn(p).spec_replica(r2)
                                == st0.spec_dn(p).spec_replica(r2))) by {
                    if p == fid {
                        assert(mid.spec_dn(p) == st0.spec_dn(p));
                    } else if p == tid {
                        assert(self.spec_dn(p) == mid.spec_dn(p));
                    } else {
                        assert(mid.spec_dn(p) == st0.spec_dn(p));
                        assert(self.spec_dn(p) == mid.spec_dn(p));
                    }
                }
                assert forall|p: u64| #[trigger] self.spec_has_datanode(p)
                    <==> st0.spec_has_datanode(p) by {
                    assert(mid.spec_has_datanode(p) <==> st0.spec_has_datanode(p));
                    assert(self.spec_has_datanode(p) <==> mid.spec_has_datanode(p));
                }
                assert forall|p: u64| st0.spec_has_datanode(p) && p != fid && p != tid
                    implies #[trigger] self.spec_dn(p) == st0.spec_dn(p) by {
                    assert(mid.spec_dn(p) == st0.spec_dn(p));
                    assert(self.spec_dn(p) == mid.spec_dn(p));
                }
                assert forall|p: u64| st0.spec_has_datanode(p)
                    implies (#[trigger] self.spec_dn(p)).peer == st0.spec_dn(p).peer
                        && self.spec_dn(p).alive == st0.spec_dn(p).alive
                        && self.spec_dn(p).disk_full == st0.spec_dn(p).disk_full by {
                    assert(mid.spec_has_datanode(p));
                    assert(mid.spec_dn(p).peer == st0.spec_dn(p).peer
                        && mid.spec_dn(p).alive == st0.spec_dn(p).alive
                        && mid.spec_dn(p).disk_full == st0.spec_dn(p).disk_full);
                    assert(self.spec_dn(p).peer == mid.spec_dn(p).peer
                        && self.spec_dn(p).alive == mid.spec_dn(p).alive
                        && self.spec_dn(p).disk_full == mid.spec_dn(p).disk_full);
                }
                if st0.spec_has_datanode(tid) {
                    assert(!self.spec_dn(tid).spec_has_replica(rid));
                }
                if st0.spec_has_wal(fid, rid) {
                    assert(self.spec_dn(fid).spec_replica(rid)
                        == (RegionReplica { frozen: false, ..st0.spec_dn(fid).spec_replica(rid) }));
                }
            }
        }
        if retryable {
            // the same step will be re-executed; nothing to persist
            proof {
                let rec0 = self.records@[i as int];
                assert(rec0 == spec_advance_record(rec0, outcome));
                assert(self.records@ =~= self.records@.update(i as int, rec0));
            }
            return;
        }
        let ghost comp = *self;
        let ghost pre_records = self.records@;
        let mut rec = self.records.remove(i);
        let ghost rec0 = rec;
        if permanent {
            rec.status = ProcedureStatus::Failed;
            rec.last_error = match outcome {
                Ok(()) => None,
                Err(e) => Some(e),
            };
        } else {
            let next = rec.state.next();
            rec.state = next;
            rec.status = match next {
                MigrationState::Finished => ProcedureStatus::Done,
                _ => ProcedureStatus::Running,
            };
        }
        let ghost rec_g = rec;
        self.records.insert(i, rec);
        proof {
            assert(self.records@ =~= pre_records.update(i as int, rec_g));
            assert(rec_g == spec_advance_record(rec0, outcome));
            assert(self.records@ == old(self).records@.update(i as int, rec_g));
            assert(self.records@[i as int].procedure_id == pid);
            assert(self.spec_has_record(pid));
            let k = self.spec_record_index(pid);
            assert(0 <= k < self.records@.len() && self.records@[k].procedure_id == pid);
            if k != i as int {
                assert(self.records@[k].procedure_id == old(self).records@[k].procedure_id);
                assert(old(self).records@[k].procedure_id != old(self).records@[i as int].procedure_id);
            }
            assert forall|a: int, b: int|
                0 <= a < b < self.records@.len() && #[trigger] self.records@[a].status is Running
                    && #[trigger] self.records@[b].status is Running
                implies self.records@[a].task.region_id != self.records@[b].task.region_id by {
                if a != i as int && b != i as int {
                    assert(self.records@[a] == old(self).records@[a]);
                    assert(self.records@[b] == old(self).records@[b]);
                } else if a == i as int {
                    assert(old(self).records@[a].status is Running);
                    assert(self.records@[b] == old(self).records@[b]);
                    assert(self.records@[a].task == old(self).records@[a].task);
                } else {
                    assert(old(self).records@[b].status is Running);
                    assert(self.records@[a] == old(self).records@[a]);
                    assert(self.records@[b].task == old(self).records@[b].task);
                }
            }
            assert(comp.wf());
            crate::cluster::lemma_same_datanodes(comp, *self);
            if permanent {
                assert forall|p: u64| #[trigger] self.spec_has_datanode(p)
                    <==> old(self).spec_has_datanode(p) by {
                    assert(comp.spec_has_datanode(p) <==> old(self).spec_has_datanode(p));
                    assert(self.spec_has_datanode(p) <==> comp.spec_has_datanode(p));
                }
            }
        }
    }

    /// One engine step: execute the current state's effect, then persist
    /// the outcome.
    #[verifier::spinoff_prover]
    #[verifier::rlimit(80)]
    pub fn step_procedure(&mut self, pid: u64) -> (r: Result<(), Error>)
        requires
            old(self).wf(),
            old(self).spec_has_record(pid),
            old(self).spec_record(pid).status is Running,
            !(old(self).spec_record(pid).state is Finished),
        ensures
            final(self).wf(),
            final(self).next_procedure_id == old(self).next_procedure_id,
            final(self).tables@ == old(self).tables@,
            r matches Err(e) && e.spec_is_retryable() ==> *final(self) == *old(self),
            ({
                let rec = old(self).spec_record(pid);
                let idx = old(self).spec_record_index(pid);
                let newrec = spec_advance_record(rec, r);
                &&& final(self).records@ == old(self).records@.update(idx, newrec)
                &&& final(self).spec_has_record(pid)
                &&& final(self).spec_record_index(pid) == idx
                &&& final(self).spec_record(pid) == newrec
                &&& newrec.state.spec_cursor() >= rec.state.spec_cursor()
                &&& newrec.task == rec.task
            }),
            r matches Err(e) && !e.spec_is_retryable() ==> final(self).routes == old(self).routes
                && !(old(self).spec_record(pid).state.spec_past_commit()),
            (r matches Err(e) && !e.spec_is_retryable()) ==> ({
                // a permanent failure compensates; its effect is bounded
                // the same way a successful step's is
                let rec = old(self).spec_record(pid);
                let rid = rec.task.region_id;
                let fid = rec.task.from_peer.id;
                let tid = rec.task.to_peer.id;
                &&& (forall|p: u64| #[trigger] final(self).spec_has_datanode(p)
                    <==> old(self).spec_has_datanode(p))
                &&& (forall|p: u64| old(self).spec_has_datanode(p) && p != fid && p != tid
                    ==> #[trigger] final(self).spec_dn(p) == old(self).spec_dn(p))
                &&& (forall|p: u64| old(self).spec_has_datanode(p)
                    ==> (#[trigger] final(self).spec_dn(p)).peer == old(self).spec_dn(p).peer
                        && final(self).spec_dn(p).alive == old(self).spec_dn(p).alive
                        && final(self).spec_dn(p).disk_full == old(self).spec_dn(p).disk_full)
                &&& (forall|p: u64, r2: RegionId|
                    old(self).spec_has_datanode(p) && r2 != rid
                        ==> ((#[trigger] final(self).spec_dn(p).spec_has_replica(r2)
                                <==> old(self).spec_dn(p).spec_has_replica(r2))
                            && (old(self).spec_dn(p).spec_has_replica(r2)
                                ==> final(self).spec_dn(p).spec_replica(r2)
                                    == old(self).spec_dn(p).spec_replica(r2))))
            }),
            ({
                // when each outcome is owed: the success and error of every
                // state are pinned by the cluster's condition
                let rec = old(self).spec_record(pid);
                let rid = rec.task.region_id;
                let fid = rec.task.from_peer.id;
                let tid = rec.task.to_peer.id;
                match rec.state {
                    MigrationState::PrepareTarget => (r is Ok <==> (old(self).spec_has_datanode(tid)
                            && old(self).spec_dn(tid).alive && !old(self).spec_dn(tid).disk_full))
                        && (r matches Err(e) ==> (if !old(self).spec_has_datanode(tid)
                                || !old(self).spec_dn(tid).alive {
                            e is Transient
                        } else {
                            e is TargetRejected
                        })),
                    MigrationState::OpenRegionFollower =>
                        r is Ok <==> old(self).spec_has_datanode(tid),
                    MigrationState::ReplicateCatchUp | MigrationState::FinalReplicate =>
                        r is Ok <==> (old(self).spec_has_wal(fid, rid)
                            && old(self).spec_has_wal(tid, rid)),
                    MigrationState::FreezeSourceWrites =>
                        r is Ok <==> old(self).spec_has_wal(fid, rid),
                    MigrationState::CommitRouteChange => (r is Ok
                            <==> (old(self).spec_has_region_route(rid)
                                && old(self).routes.spec_leader_id(rid) == fid))
                        && (r matches Err(e) ==> (if !old(self).spec_has_region_route(rid) {
                            e is RegionRouteNotFound
                        } else {
                            e is RouteChanged
                        })),
                    MigrationState::CloseSourceRegion =>
                        r is Ok <==> (old(self).spec_has_datanode(fid)
                            && old(self).spec_has_wal(tid, rid)),
                    MigrationState::InvalidateCaches => r is Ok,
                    MigrationState::Finished => true,
                }
            }),
            ({
                let rec = old(self).spec_record(pid);
                let rid = rec.task.region_id;
                let fid = rec.task.from_peer.id;
                let tid = rec.task.to_peer.id;
                r is Ok ==> {
                    &&& (forall|p: u64| #[trigger] final(self).spec_has_datanode(p)
                        <==> old(self).spec_has_datanode(p))
                    &&& (forall|p: u64|
                        old(self).spec_has_datanode(p) && p != fid && p != tid
                            ==> dn_core_eq(#[trigger] final(self).spec_dn(p), old(self).spec_dn(p)))
                    &&& (forall|p: u64, r2: RegionId|
                        old(self).spec_has_datanode(p) && r2 != rid
                            ==> ((#[trigger] final(self).spec_dn(p).spec_has_replica(r2)
                                    <==> old(self).spec_dn(p).spec_has_replica(r2))
                                && (old(self).spec_dn(p).spec_has_replica(r2)
                                    ==> final(self).spec_dn(p).spec_replica(r2)
                                        == old(self).spec_dn(p).spec_replica(r2))))
                    &&& (forall|p: u64| old(self).spec_has_datanode(p)
                        ==> (#[trigger] final(self).spec_dn(p)).peer == old(self).spec_dn(p).peer
                            && final(self).spec_dn(p).alive == old(self).spec_dn(p).alive
                            && final(self).spec_dn(p).disk_full == old(self).spec_dn(p).disk_full)
                    &&& match rec.state {
                        MigrationState::PrepareTarget => final(self).routes == old(self).routes
                            && final(self).datanodes@ == old(self).datanodes@
                            && old(self).spec_has_datanode(tid) && old(self).spec_dn(tid).alive
                            && !old(self).spec_dn(tid).disk_full,
                        MigrationState::OpenRegionFollower => final(self).routes == old(self).routes
                            && old(self).spec_has_datanode(tid)
                            && final(self).spec_has_wal(tid, rid)
                            && (old(self).spec_has_datanode(fid)
                                ==> final(self).spec_dn(fid) == old(self).spec_dn(fid))
                            && (if old(self).spec_dn(tid).spec_has_replica(rid) {
                                final(self).datanodes@ == old(self).datanodes@
                            } else {
                                final(self).spec_dn(tid).spec_replica(rid)
                                    == (RegionReplica {
                                        region: rid,
                                        role: RegionRole::Follower,
                                        wal: final(self).spec_dn(tid).spec_replica(rid).wal,
                                        frozen: false,
                                    })
                                    && final(self).spec_wal(tid, rid).len() == 0
                            }),
                        MigrationState::ReplicateCatchUp | MigrationState::FinalReplicate =>
                            final(self).routes == old(self).routes
                            && old(self).spec_has_wal(fid, rid) && old(self).spec_has_wal(tid, rid)
                            && final(self).spec_has_wal(fid, rid) && final(self).spec_has_wal(tid, rid)
                            && final(self).spec_wal(tid, rid) == old(self).spec_wal(fid, rid)
                            && final(self).spec_dn(tid).spec_replica(rid)
                                == (RegionReplica {
                                    wal: final(self).spec_dn(tid).spec_replica(rid).wal,
                                    ..old(self).spec_dn(tid).spec_replica(rid)
                                })
                            && (old(self).spec_has_datanode(fid)
                                ==> final(self).spec_dn(fid) == old(self).spec_dn(fid)),
                        MigrationState::FreezeSourceWrites => final(self).routes == old(self).routes
                            && old(self).spec_has_wal(fid, rid)
                            && final(self).spec_has_wal(fid, rid)
                            && final(self).spec_dn(fid).spec_replica(rid)
                                == (RegionReplica {
                                    frozen: true,
                                    ..old(self).spec_dn(fid).spec_replica(rid)
                                })
                            && (old(self).spec_has_datanode(tid)
                                ==> final(self).spec_dn(tid) == old(self).spec_dn(tid)),
                        MigrationState::CommitRouteChange =>
                            old(self).spec_has_region_route(rid)
                            && old(self).routes.spec_leader_id(rid) == fid
                            && final(self).routes.routes@ == old(self).routes.routes@.update(
                                old(self).routes.spec_index_of(rid),
                                RegionRoute {
                                    region: rid,
                                    leader_peer: Peer {
                                        id: tid,
                                        addr: old(self).routes.spec_route_of(rid).leader_peer.addr,
                                    },
                                    follower_peers: old(self).routes.spec_route_of(rid).follower_peers,
                                },
                            )
                            && final(self).routes.spec_has_region(rid)
                            && final(self).routes.spec_leader_id(rid) == tid
                            && (forall|p: u64| old(self).spec_has_datanode(p)
                                ==> dn_core_eq(#[trigger] final(self).spec_dn(p), old(self).spec_dn(p))),
                        MigrationState::CloseSourceRegion => final(self).routes == old(self).routes
                            && old(self).spec_has_datanode(fid)
                            && old(self).spec_has_wal(tid, rid)
                            && !final(self).spec_dn(fid).spec_has_replica(rid)
                            && final(self).spec_has_wal(tid, rid)
                            && final(self).spec_dn(tid).spec_replica(rid)
                                == (RegionReplica {
                                    role: RegionRole::Leader,
                                    ..old(self).spec_dn(tid).spec_replica(rid)
                                }),
                        MigrationState::InvalidateCaches => final(self).routes == old(self).routes
                            && (forall|p: u64| old(self).spec_has_datanode(p)
                                ==> dn_core_eq(#[trigger] final(self).spec_dn(p), old(self).spec_dn(p))),
                        MigrationState::Finished => false,
                    }
                }
            }),
    {
        let r = self.execute_step(pid);
        let ghost mid = *self;
        self.persist_step(pid, r);
        proof {
            assert(mid.spec_record(pid) == old(self).spec_record(pid));
            assert(mid.spec_record_index(pid) == old(self).spec_record_index(pid));
            if r is Ok {
                crate::cluster::lemma_same_datanodes(mid, *self);
                assert forall|p: u64| #[trigger] self.spec_has_datanode(p)
                    <==> old(self).spec_has_datanode(p) by {
                    assert(mid.spec_has_datanode(p) <==> old(self).spec_has_datanode(p));
                    assert(self.spec_has_datanode(p) <==> mid.spec_has_datanode(p));
                }
            }
            if r matches Err(e) && e.spec_is_retryable() {
                assert(mid == *old(self));
            }
            if r matches Err(e) && !e.spec_is_retryable() {
                assert(mid == *old(self));
            }
        }
        r
    }
}

} // verus!

verus! {

impl ClusterModel {
    /// Drives a procedure until it completes, fails permanently, or hits
    /// a retryable condition (in which case it stays `Running` and may be
    /// resumed later; a crashed engine resumes the same way, from the
    /// persisted cursor).
    ///
    /// The contract is the migration theorem.  For a procedure that has
    /// not yet committed its route change, `Done` means: the single CAS
    /// moved leadership of exactly this region from the source to the
    /// target and changed no other route, and the new leader's log equals
    /// the source's log as this run found it, so every acknowledged write
    /// survives; the source's replica is gone.  A permanent failure
    /// compensates and leaves every route untouched.  A resumption after
    /// the commit only rolls forward and never re-commits.
    #[verifier::spinoff_prover]
    #[verifier::rlimit(100)]
    pub fn run_procedure(&mut self, pid: u64) -> (r: ProcedureStatus)
        requires
            old(self).wf(),
            old(self).spec_has_record(pid),
            old(self).spec_record(pid).status is Running
                ==> !(old(self).spec_record(pid).state is Finished),
        ensures
            final(self).wf(),
            final(self).next_procedure_id == old(self).next_procedure_id,
            final(self).tables@ == old(self).tables@,
            final(self).spec_has_record(pid),
            final(self).spec_record(pid).task == old(self).spec_record(pid).task,
            r == final(self).spec_record(pid).status,
            final(self).spec_record(pid).state.spec_cursor()
                >= old(self).spec_record(pid).state.spec_cursor(),
            !(old(self).spec_record(pid).status is Running) ==> *final(self) == *old(self),
            ({
                let rec = old(self).spec_record(pid);
                let rid = rec.task.region_id;
                let fid = rec.task.from_peer.id;
                let tid = rec.task.to_peer.id;
                let c0 = rec.state.spec_cursor();
                &&& ((rec.status is Running && rec.state.spec_past_commit())
                    ==> final(self).routes == old(self).routes)
                &&& ((rec.status is Running && !rec.state.spec_past_commit() && r is Failed)
                    ==> final(self).routes == old(self).routes)
                &&& ((rec.status is Running && !rec.state.spec_past_commit() && r is Done) ==> {
                    &&& old(self).spec_has_region_route(rid)
                    &&& old(self).routes.spec_leader_id(rid) == fid
                    &&& final(self).routes.routes@ == old(self).routes.routes@.update(
                        old(self).routes.spec_index_of(rid),
                        RegionRoute {
                            region: rid,
                            leader_peer: Peer {
                                id: tid,
                                addr: old(self).routes.spec_route_of(rid).leader_peer.addr,
                            },
                            follower_peers: old(self).routes.spec_route_of(rid).follower_peers,
                        },
                    )
                    &&& final(self).routes.spec_has_region(rid)
                    &&& final(self).routes.spec_leader_id(rid) == tid
                    &&& (old(self).spec_has_datanode(fid)
                        ==> !final(self).spec_dn(fid).spec_has_replica(rid))
                    &&& (c0 <= 4 ==> {
                        &&& old(self).spec_has_wal(fid, rid)
                        &&& final(self).spec_has_wal(tid, rid)
                        &&& final(self).spec_wal(tid, rid) == old(self).spec_wal(fid, rid)
                        &&& final(self).spec_dn(tid).spec_replica(rid).role is Leader
                    })
                    // a run resumed at the commit itself keeps the target's
                    // already-replicated log word for word
                    &&& (c0 == 5 && old(self).spec_has_wal(tid, rid) ==> {
                        &&& final(self).spec_has_wal(tid, rid)
                        &&& final(self).spec_wal(tid, rid) == old(self).spec_wal(tid, rid)
                        &&& final(self).spec_dn(tid).spec_replica(rid).role is Leader
                    })
                })
                // frame: whatever happened, only the task's region and its
                // two datanodes moved, and only this procedure's record
                &&& (rec.status is Running ==> {
                    &&& (forall|p: u64| #[trigger] final(self).spec_has_datanode(p)
                        <==> old(self).spec_has_datanode(p))
                    &&& (forall|p: u64| old(self).spec_has_datanode(p)
                        ==> (#[trigger] final(self).spec_dn(p)).peer == old(self).spec_dn(p).peer
                            && final(self).spec_dn(p).alive == old(self).spec_dn(p).alive
                            && final(self).spec_dn(p).disk_full == old(self).spec_dn(p).disk_full)
                    &&& (forall|p: u64, r2: RegionId|
                        old(self).spec_has_datanode(p) && r2 != rid
                            ==> (#[trigger] final(self).spec_dn(p).spec_has_replica(r2)
                                <==> old(self).spec_dn(p).spec_has_replica(r2)))
                    &&& (forall|p: u64, r2: RegionId|
                        old(self).spec_has_datanode(p) && r2 != rid
                            && old(self).spec_dn(p).spec_has_replica(r2)
                            ==> #[trigger] final(self).spec_dn(p).spec_replica(r2)
                                == old(self).spec_dn(p).spec_replica(r2))
                    &&& final(self).records@.len() == old(self).records@.len()
                    &&& (forall|j: int|
                        0 <= j < old(self).records@.len()
                            && j != old(self).spec_record_index(pid)
                            ==> #[trigger] final(self).records@[j] == old(self).records@[j])
                })
                // success is owed: on a healthy cluster (live target with
                // free disk, source serving the region, route naming the
                // source as leader) a not-yet-committed procedure runs to
                // completion
                &&& ((rec.status is Running && !rec.state.spec_past_commit()
                    && old(self).spec_has_datanode(tid) && old(self).spec_dn(tid).alive
                    && !old(self).spec_dn(tid).disk_full
                    && old(self).spec_has_datanode(fid) && old(self).spec_has_wal(fid, rid)
                    && old(self).spec_has_region_route(rid)
                    && old(self).routes.spec_leader_id(rid) == fid
                    && (c0 >= 2 ==> old(self).spec_has_wal(tid, rid)))
                    ==> r is Done)
            }),
    {
        let i0 = self.record_index(pid).unwrap();
        let st0 = self.records[i0].status;
        match st0 {
            ProcedureStatus::Running => {},
            _ => {
                return st0;
            },
        }
        let ghost pre = *old(self);
        let ghost rec0 = pre.spec_record(pid);
        let ghost t = rec0.task;
        let ghost rid = t.region_id;
        let ghost fid = t.from_peer.id;
        let ghost tid = t.to_peer.id;
        let ghost c0 = rec0.state.spec_cursor();
        let ghost pastc0 = rec0.state.spec_past_commit();
        let ghost idx0 = pre.spec_record_index(pid);
        let ghost healthy = !pastc0 && pre.spec_has_datanode(tid) && pre.spec_dn(tid).alive
            && !pre.spec_dn(tid).disk_full && pre.spec_has_datanode(fid)
            && pre.spec_has_wal(fid, rid) && pre.spec_has_region_route(rid)
            && pre.routes.spec_leader_id(rid) == fid
            && (c0 >= 2 ==> pre.spec_has_wal(tid, rid));
        for _iter in 0..9usize
            invariant
                pre == *old(self),
                healthy == (!pastc0 && pre.spec_has_datanode(tid) && pre.spec_dn(tid).alive
                    && !pre.spec_dn(tid).disk_full && pre.spec_has_datanode(fid)
                    && pre.spec_has_wal(fid, rid) && pre.spec_has_region_route(rid)
                    && pre.routes.spec_leader_id(rid) == fid
                    && (c0 >= 2 ==> pre.spec_has_wal(tid, rid))),
                rec0 == pre.spec_record(pid),
                t == rec0.task,
                rid == t.region_id,
                fid == t.from_peer.id,
                tid == t.to_peer.id,
                c0 == rec0.state.spec_cursor(),
                pastc0 == rec0.state.spec_past_commit(),
                self.wf(),
                self.spec_has_record(pid),
                self.spec_record(pid).task == t,
                self.next_procedure_id == pre.next_procedure_id,
                self.tables@ == pre.tables@,
                rec0.status is Running,
                !(rec0.state is Finished),
                fid != tid,
                self.spec_record(pid).state.spec_cursor() >= c0,
                self.spec_record(pid).status is Running
                    ==> self.spec_record(pid).state.spec_cursor() < 8,
                self.spec_record(pid).status is Done
                    ==> self.spec_record(pid).state.spec_cursor() == 8,
                self.spec_record(pid).status is Running || self.spec_record(pid).status is Done
                    || self.spec_record(pid).status is Failed,
                forall|p: u64| #[trigger] self.spec_has_datanode(p) <==> pre.spec_has_datanode(p),
                idx0 == pre.spec_record_index(pid),
                self.records@.len() == pre.records@.len(),
                self.spec_record_index(pid) == idx0,
                forall|j: int| 0 <= j < pre.records@.len() && j != idx0
                    ==> #[trigger] self.records@[j] == pre.records@[j],
                forall|p: u64| pre.spec_has_datanode(p)
                    ==> (#[trigger] self.spec_dn(p)).peer == pre.spec_dn(p).peer
                        && self.spec_dn(p).alive == pre.spec_dn(p).alive
                        && self.spec_dn(p).disk_full == pre.spec_dn(p).disk_full,
                forall|p: u64, r2: RegionId|
                    pre.spec_has_datanode(p) && r2 != rid
                        ==> (#[trigger] self.spec_dn(p).spec_has_replica(r2)
                            <==> pre.spec_dn(p).spec_has_replica(r2)),
                forall|p: u64, r2: RegionId|
                    pre.spec_has_datanode(p) && r2 != rid
                        && pre.spec_dn(p).spec_has_replica(r2)
                        ==> #[trigger] self.spec_dn(p).spec_replica(r2)
                            == pre.spec_dn(p).spec_replica(r2),
                pastc0 ==> self.routes == pre.routes,
                !pastc0 && self.spec_record(pid).state.spec_cursor() <= 5
                    ==> self.routes == pre.routes,
                !pastc0 && self.spec_record(pid).status is Failed ==> self.routes == pre.routes,
                !pastc0 && self.spec_record(pid).state.spec_cursor() > 5 ==> {
                    &&& pre.spec_has_region_route(rid)
                    &&& pre.routes.spec_leader_id(rid) == fid
                    &&& self.routes.routes@ == pre.routes.routes@.update(
                        pre.routes.spec_index_of(rid),
                        RegionRoute {
                            region: rid,
                            leader_peer: Peer {
                                id: tid,
                                addr: pre.routes.spec_route_of(rid).leader_peer.addr,
                            },
                            follower_peers: pre.routes.spec_route_of(rid).follower_peers,
                        },
                    )
                    &&& self.routes.spec_has_region(rid)
                    &&& self.routes.spec_leader_id(rid) == tid
                },
                !pastc0 && self.spec_record(pid).state.spec_cursor() <= 6
                    && pre.spec_has_datanode(fid)
                    ==> ((#[trigger] self.spec_dn(fid)).spec_has_replica(rid)
                            <==> pre.spec_dn(fid).spec_has_replica(rid)),
                !pastc0 && self.spec_record(pid).state.spec_cursor() <= 6
                    && pre.spec_has_wal(fid, rid)
                    ==> self.spec_dn(fid).spec_replica(rid).wal@ == pre.spec_wal(fid, rid),
                !pastc0 && self.spec_record(pid).state.spec_cursor() >= 7
                    && pre.spec_has_datanode(fid)
                    ==> !(#[trigger] self.spec_dn(fid)).spec_has_replica(rid),
                !pastc0 && self.spec_record(pid).state.spec_cursor() >= 5 && c0 <= 4 ==> {
                    &&& pre.spec_has_wal(fid, rid)
                    &&& self.spec_has_wal(tid, rid)
                    &&& self.spec_wal(tid, rid) == pre.spec_wal(fid, rid)
                },
                !pastc0 && self.spec_record(pid).state.spec_cursor() >= 7 && c0 <= 4
                    ==> (#[trigger] self.spec_dn(tid)).spec_replica(rid).role is Leader,
                !pastc0 && c0 == 5 && pre.spec_has_wal(tid, rid) ==> {
                    &&& self.spec_has_wal(tid, rid)
                    &&& self.spec_wal(tid, rid) == pre.spec_wal(tid, rid)
                    &&& (self.spec_record(pid).state.spec_cursor() >= 7
                        ==> (#[trigger] self.spec_dn(tid)).spec_replica(rid).role is Leader)
                },
                healthy ==> (self.spec_record(pid).status is Running
                    || self.spec_record(pid).status is Done),
                healthy ==> (self.spec_record(pid).status is Done
                    || self.spec_record(pid).state.spec_cursor() >= c0 + _iter),
                healthy ==> (self.spec_has_datanode(tid) && self.spec_dn(tid).alive
                    && !self.spec_dn(tid).disk_full && self.spec_has_datanode(fid)),
                healthy && self.spec_record(pid).state.spec_cursor() >= 2
                    ==> self.spec_has_wal(tid, rid),
        {
            let i = self.record_index(pid).unwrap();
            let running = match self.records[i].status {
                ProcedureStatus::Running => true,
                _ => false,
            };
            if running {
                let ghost prev = *self;
                let res = self.step_procedure(pid);
                proof {
                    let prec = prev.spec_record(pid);
                    let c_prev = prec.state.spec_cursor();
                    if healthy {
                        // the current state's success condition held before
                        // the step, so by the outcome clauses it succeeded
                        assert(c_prev < 8);
                        if prec.state is ReplicateCatchUp || prec.state is FinalReplicate
                            || prec.state is FreezeSourceWrites {
                            assert(prev.spec_dn(fid).spec_has_replica(rid));
                            assert(prev.spec_has_wal(fid, rid));
                        }
                        if prec.state is CommitRouteChange {
                            assert(prev.routes == pre.routes);
                            assert(prev.spec_has_region_route(rid));
                            assert(prev.routes.spec_leader_id(rid) == fid);
                        }
                        if prec.state is CloseSourceRegion {
                            assert(prev.spec_has_datanode(fid));
                            assert(prev.spec_has_wal(tid, rid));
                        }
                        assert(res is Ok);
                    }
                    if res is Ok {
                        if prec.state is PrepareTarget {
                            crate::cluster::lemma_same_datanodes(prev, *self);
                        }
                        if prec.state is OpenRegionFollower
                            && prev.spec_dn(t.to_peer.id).spec_has_replica(rid) {
                            crate::cluster::lemma_same_datanodes(prev, *self);
                        }
                        if prec.state is CommitRouteChange && !pastc0 {
                            assert(prev.routes == pre.routes);
                            assert(prev.routes.spec_leader_id(rid) == fid);
                        }
                        if (prec.state is CommitRouteChange || prec.state is InvalidateCaches)
                            && !pastc0 {
                            // replica state is untouched by these steps
                            assert forall|p: u64| prev.spec_has_datanode(p)
                                implies (#[trigger] self.spec_dn(p)).wf()
                                    && self.spec_dn(p).replicas@ == prev.spec_dn(p).replicas@ by {
                                assert(dn_core_eq(self.spec_dn(p), prev.spec_dn(p)));
                            }
                            if pre.spec_has_datanode(fid) {
                                crate::cluster::lemma_same_replicas(
                                    prev.spec_dn(fid), self.spec_dn(fid));
                            }
                            if pre.spec_has_datanode(tid) {
                                crate::cluster::lemma_same_replicas(
                                    prev.spec_dn(tid), self.spec_dn(tid));
                            }
                        }
                        if prec.state is FinalReplicate && !pastc0 && c0 <= 4 {
                            assert(prev.spec_has_wal(fid, rid));
                            assert(pre.spec_has_datanode(fid));
                            assert(pre.spec_dn(fid).spec_has_replica(rid));
                            assert(pre.spec_has_wal(fid, rid));
                            assert(prev.spec_dn(fid).spec_replica(rid).wal@ == pre.spec_wal(fid, rid));
                            assert(self.spec_wal(tid, rid) == pre.spec_wal(fid, rid));
                        }
                        if prec.state is CloseSourceRegion && !pastc0 && c0 <= 4 {
                            assert(self.spec_dn(tid).spec_replica(rid).role is Leader);
                        }
                        if prec.state is CloseSourceRegion && !pastc0 && c0 == 5
                            && pre.spec_has_wal(tid, rid) {
                            assert(self.spec_dn(tid).spec_replica(rid).role is Leader);
                            assert(self.spec_wal(tid, rid) == prev.spec_wal(tid, rid));
                        }
                    } else {
                        let e = res->Err_0;
                        if e.spec_is_retryable() {
                            assert(*self == prev);
                        } else {
                            assert(self.routes == prev.routes);
                            assert(self.spec_record(pid).status is Failed);
                        }
                    }
                }
                proof {
                    // the per-step effect bound composes with the bound
                    // carried so far
                    assert forall|p: u64, r2: RegionId|
                        pre.spec_has_datanode(p) && r2 != rid
                        implies (#[trigger] self.spec_dn(p).spec_has_replica(r2)
                            <==> pre.spec_dn(p).spec_has_replica(r2)) by {
                        assert(prev.spec_has_datanode(p));
                        assert(self.spec_dn(p).spec_has_replica(r2)
                            <==> prev.spec_dn(p).spec_has_replica(r2));
                    }
                    assert forall|p: u64, r2: RegionId|
                        pre.spec_has_datanode(p) && r2 != rid
                            && pre.spec_dn(p).spec_has_replica(r2)
                        implies #[trigger] self.spec_dn(p).spec_replica(r2)
                            == pre.spec_dn(p).spec_replica(r2) by {
                        assert(prev.spec_has_datanode(p));
                        assert(prev.spec_dn(p).spec_has_replica(r2));
                        assert(self.spec_dn(p).spec_has_replica(r2)
                            <==> prev.spec_dn(p).spec_has_replica(r2));
                        assert(self.spec_dn(p).spec_replica(r2)
                            == prev.spec_dn(p).spec_replica(r2));
                    }
                }
                if res.is_err() {
                    let i2 = self.record_index(pid).unwrap();
                    return self.records[i2].status;
                }
            }
        }
        let i3 = self.record_index(pid).unwrap();
        self.records[i3].status
    }
}

} // verus!

verus! {

impl ClusterModel {
    /// Requests cancellation of a running procedure.  Before the route
    /// change is committed the procedure compensates (the target
    /// follower closes, the source lease is released) and ends as
    /// `Cancelled`, with every route untouched.  A procedure that has
    /// already committed its route change ignores cancellation: only
    /// rolling forward is safe, so merely the request is recorded.
    pub fn cancel_procedure(&mut self, pid: u64)
        requires
            old(self).wf(),
            old(self).spec_has_record(pid),
        ensures
            final(self).wf(),
            final(self).routes == old(self).routes,
            final(self).next_procedure_id == old(self).next_procedure_id,
            final(self).tables@ == old(self).tables@,
            final(self).spec_has_record(pid),
            final(self).spec_record(pid).task == old(self).spec_record(pid).task,
            ({
                let rec = old(self).spec_record(pid);
                let idx = old(self).spec_record_index(pid);
                if rec.status is Running && !rec.state.spec_past_commit() {
                    final(self).records@ == old(self).records@.update(idx,
                        ProcedureRecord {
                            status: ProcedureStatus::Cancelled,
                            cancel_requested: true,
                            ..rec
                        })
                } else if rec.status is Running {
                    final(self).records@ == old(self).records@.update(idx,
                        ProcedureRecord { cancel_requested: true, ..rec })
                        && final(self).datanodes@ == old(self).datanodes@
                } else {
                    *final(self) == *old(self)
                }
            }),
    {
        let i = self.record_index(pid).unwrap();
        let running = match self.records[i].status {
            ProcedureStatus::Running => true,
            _ => false,
        };
        if !running {
            return;
        }
        let past = self.records[i].state.past_commit();
        if !past {
            // compensation: close the target follower, release the
            // source lease
            let rid = self.records[i].task.region_id;
            let fid = self.records[i].task.from_peer.id;
            let tid = self.records[i].task.to_peer.id;
            proof {
                assert(fid != tid);
            }
            let ghost st0 = *self;
            let rc1 = self.close_region(tid, rid);
            let ghost mid = *self;
            let rc2 = self.set_region_frozen(fid, rid, false);
            proof {
                assert(mid.spec_same_meta(st0));
                assert(self.spec_same_meta(mid));
                if st0.spec_has_datanode(tid) {
                    assert(rc1 is Ok);
                    assert(!mid.spec_dn(tid).spec_has_replica(rid));
                } else {
                    assert(mid == st0);
                }
                if st0.spec_has_wal(fid, rid) {
                    assert(mid.spec_has_wal(fid, rid));
                    assert(mid.spec_dn(fid).spec_replica(rid) == st0.spec_dn(fid).spec_replica(rid));
                    assert(rc2 is Ok);
                }
                if !(rc2 is Ok) {
                    assert(*self == mid);
                }
                assert forall|p: u64, r2: RegionId|
                    st0.spec_has_datanode(p) && r2 != rid
                    implies ((#[trigger] self.spec_dn(p).spec_has_replica(r2)
                            <==> st0.spec_dn(p).spec_has_replica(r2))
                        && (st0.spec_dn(p).spec_has_replica(r2)
                            ==> self.spec_dn(p).spec_replica(r2)
                                == st0.spec_dn(p).spec_replica(r2))) by {
                    if p == fid {
                        assert(mid.spec_dn(p) == st0.spec_dn(p));
                    } else if p == tid {
                        assert(self.spec_dn(p) == mid.spec_dn(p));
                    } else {
                        assert(mid.spec_dn(p) == st0.spec_dn(p));
                        assert(self.spec_dn(p) == mid.spec_dn(p));
                    }
                }
                assert forall|p: u64| #[trigger] self.spec_has_datanode(p)
                    <==> st0.spec_has_datanode(p) by {
                    assert(mid.spec_has_datanode(p) <==> st0.spec_has_datanode(p));
                    assert(self.spec_has_datanode(p) <==> mid.spec_has_datanode(p));
                }
                assert forall|p: u64| st0.spec_has_datanode(p) && p != fid && p != tid
                    implies #[trigger] self.spec_dn(p) == st0.spec_dn(p) by {
                    assert(mid.spec_dn(p) == st0.spec_dn(p));
                    assert(self.spec_dn(p) == mid.spec_dn(p));
                }
                if st0.spec_has_datanode(tid) {
                    assert(!self.spec_dn(tid).spec_has_replica(rid));
                }
                if st0.spec_has_wal(fid, rid) {
                    assert(self.spec_dn(fid).spec_replica(rid)
                        == (RegionReplica { frozen: false, ..st0.spec_dn(fid).spec_replica(rid) }));
                }
            }
        }
        let ghost comp = *self;
        let mut rec = self.records.remove(i);
        let ghost rec0 = rec;
        rec.cancel_requested = true;
        if !past {
            rec.status = ProcedureStatus::Cancelled;
        }
        let ghost rec_g = rec;
        self.records.insert(i, rec);
        proof {
            assert(self.records@ =~= comp.records@.update(i as int, rec_g));
            assert(self.records@ == old(self).records@.update(i as int, rec_g));
            assert(self.records@[i as int].procedure_id == pid);
            assert(self.spec_has_record(pid));
            let k = self.spec_record_index(pid);
            assert(0 <= k < self.records@.len() && self.records@[k].procedure_id == pid);
            if k != i as int {
                assert(self.records@[k].procedure_id == old(self).records@[k].procedure_id);
                assert(old(self).records@[k].procedure_id != old(self).records@[i as int].procedure_id);
            }
            assert forall|a: int, b: int|
                0 <= a < b < self.records@.len() && #[trigger] self.records@[a].status is Running
                    && #[trigger] self.records@[b].status is Running
                implies self.records@[a].task.region_id != self.records@[b].task.region_id by {
                if a != i as int && b != i as int {
                    assert(self.records@[a] == old(self).records@[a]);
                    assert(self.records@[b] == old(self).records@[b]);
                } else if a == i as int {
                    assert(old(self).records@[a].status is Running);
                    assert(self.records@[b] == old(self).records@[b]);
                    assert(self.records@[a].task == old(self).records@[a].task);
                } else {
                    assert(old(self).records@[b].status is Running);
                    assert(self.records@[a] == old(self).records@[a]);
                    assert(self.records@[b].task == old(self).records@[b].task);
                }
            }
        }
    }
}

} // verus!
