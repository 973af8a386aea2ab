//! In-memory model of the cluster the control plane acts on: datanodes
//! with their region replicas and write-ahead logs, the partition rule of
//! each table, and the write/read path that the migration must not
//! disturb.

use vstd::prelude::*;
use crate::ids::{Peer, RegionId};
use crate::errors::Error;
use crate::routes::{RegionRoute, RouteTable};
use crate::records::{ProcedureRecord, ProcedureStatus};

verus! {

/// Role of a region replica on a datanode.
#[derive(Clone, Copy, PartialEq, Eq, Structural, Debug)]
pub enum RegionRole {
    Leader,
    Follower,
}

/// One acknowledged row: the partition key and its timestamp.
#[derive(Clone, Copy, PartialEq, Eq, Structural, Debug)]
pub struct WriteEntry {
    pub key: i64,
    pub ts: u64,
}

/// A region replica held by a datanode: its replicated log and its write
/// lease state.  `frozen` models an expiring lease: new writes are
/// rejected with a retryable error.
pub struct RegionReplica {
    pub region: RegionId,
    pub role: RegionRole,
    pub wal: Vec<WriteEntry>,
    pub frozen: bool,
}

/// A datanode as the control plane sees it through heartbeats.
pub struct DatanodeModel {
    pub peer: Peer,
    /// Heartbeat within the liveness window.
    pub alive: bool,
    /// A full disk makes the node reject new regions permanently.
    pub disk_full: bool,
    pub replicas: Vec<RegionReplica>,
    /// Set when region ownership moved while this node may still hold a
    /// stale route; cleared by the cache-invalidation broadcast.
    pub route_cache_stale: bool,
}

impl DatanodeModel {
    /// Replicas of a datanode name distinct regions.
    pub open spec fn wf(self) -> bool {
        forall|i: int, j: int|
            0 <= i < j < self.replicas@.len()
                ==> #[trigger] self.replicas@[i].region != #[trigger] self.replicas@[j].region
    }

    pub open spec fn spec_has_replica(self, rid: RegionId) -> bool {
        exists|i: int| 0 <= i < self.replicas@.len() && #[trigger] self.replicas@[i].region == rid
    }

    pub open spec fn spec_replica_index(self, rid: RegionId) -> int {
        choose|i: int| 0 <= i < self.replicas@.len() && #[trigger] self.replicas@[i].region == rid
    }

    pub open spec fn spec_replica(self, rid: RegionId) -> RegionReplica {
        self.replicas@[self.spec_replica_index(rid)]
    }
}

/// Partition rule of one table: `bounds = [b0, .., bn-1]` sends a key to
/// region number `i` for the first `i` with `key <= bounds[i]`, and to
/// region `n` otherwise.
pub struct TableModel {
    pub table_id: u32,
    pub bounds: Vec<i64>,
}

impl TableModel {
    /// Region number a key belongs to under this rule.
    pub open spec fn spec_region_of(self, key: i64) -> int {
        Self::spec_first_bound(self.bounds@, key)
    }

    pub open spec fn spec_first_bound(bounds: Seq<i64>, key: i64) -> int
        decreases bounds.len(),
    {
        if bounds.len() == 0 {
            0
        } else if key <= bounds[0] {
            0
        } else {
            1 + Self::spec_first_bound(bounds.skip(1), key)
        }
    }

    /// Number of regions of the table.
    pub open spec fn spec_region_count(self) -> int {
        self.bounds@.len() as int + 1
    }

    pub fn region_of(&self, key: i64) -> (r: u32)
        requires
            self.bounds@.len() <= u32::MAX,
        ensures
            r == self.spec_region_of(key),
            r <= self.bounds@.len(),
    {
        let n = self.bounds.len();
        proof {
            assert(self.bounds@.skip(0) =~= self.bounds@);
        }
        for i in 0..n
            invariant
                n == self.bounds@.len(),
                n <= u32::MAX,
                i <= n,
                Self::spec_first_bound(self.bounds@, key)
                    == i + Self::spec_first_bound(self.bounds@.skip(i as int), key),
        {
            if key <= self.bounds[i] {
                proof {
                    assert(self.bounds@.skip(i as int)[0] == self.bounds@[i as int]);
                }
                return i as u32;
            }
            proof {
                assert(self.bounds@.skip(i as int)[0] == self.bounds@[i as int]);
                assert(self.bounds@.skip(i as int).skip(1) =~= self.bounds@.skip(i + 1));
                assert(Self::spec_first_bound(self.bounds@.skip(i as int), key)
                    == 1 + Self::spec_first_bound(self.bounds@.skip(i + 1), key));
            }
        }
        proof {
            assert(self.bounds@.skip(n as int).len() == 0);
        }
        n as u32
    }
}

/// The whole modelled cluster: the metastore state (routes and procedure
/// records), the table partition rules, and the datanodes.
pub struct ClusterModel {
    pub routes: RouteTable,
    pub records: Vec<ProcedureRecord>,
    pub next_procedure_id: u64,
    pub tables: Vec<TableModel>,
    pub datanodes: Vec<DatanodeModel>,
}

impl ClusterModel {
    /// Well-formedness of the cluster model: the route table and each
    /// datanode are well-formed, datanode ids are distinct, procedure ids
    /// are distinct and below the id counter, and no region is targeted by
    /// two running procedures.
    pub open spec fn wf(self) -> bool {
        &&& self.routes.wf()
        &&& forall|i: int, j: int|
            0 <= i < j < self.datanodes@.len()
                ==> #[trigger] self.datanodes@[i].peer.id != #[trigger] self.datanodes@[j].peer.id
        &&& forall|i: int| 0 <= i < self.datanodes@.len() ==> (#[trigger] self.datanodes@[i]).wf()
        &&& forall|i: int, j: int|
            0 <= i < j < self.records@.len()
                ==> #[trigger] self.records@[i].procedure_id != #[trigger] self.records@[j].procedure_id
        &&& forall|i: int|
            0 <= i < self.records@.len()
                ==> #[trigger] self.records@[i].procedure_id < self.next_procedure_id
        &&& forall|i: int, j: int|
            0 <= i < j < self.records@.len() && #[trigger] self.records@[i].status is Running
                && #[trigger] self.records@[j].status is Running
                ==> self.records@[i].task.region_id != self.records@[j].task.region_id
        &&& forall|i: int| 0 <= i < self.records@.len()
                ==> (#[trigger] self.records@[i]).task.from_peer.id != self.records@[i].task.to_peer.id
        &&& forall|i: int, j: int|
            0 <= i < j < self.tables@.len()
                ==> #[trigger] self.tables@[i].table_id != #[trigger] self.tables@[j].table_id
    }

    pub open spec fn spec_has_datanode(self, peer_id: u64) -> bool {
        exists|i: int| 0 <= i < self.datanodes@.len() && #[trigger] self.datanodes@[i].peer.id == peer_id
    }

    pub open spec fn spec_dn_index(self, peer_id: u64) -> int {
        choose|i: int| 0 <= i < self.datanodes@.len() && #[trigger] self.datanodes@[i].peer.id == peer_id
    }

    pub open spec fn spec_dn(self, peer_id: u64) -> DatanodeModel {
        self.datanodes@[self.spec_dn_index(peer_id)]
    }

    /// The replicated log of `rid` on the datanode `peer_id`; meaningful
    /// when the datanode and the replica exist.
    pub open spec fn spec_wal(self, peer_id: u64, rid: RegionId) -> Seq<WriteEntry> {
        self.spec_dn(peer_id).spec_replica(rid).wal@
    }

    pub open spec fn spec_has_wal(self, peer_id: u64, rid: RegionId) -> bool {
        self.spec_has_datanode(peer_id) && self.spec_dn(peer_id).spec_has_replica(rid)
    }

    /// Fresh empty cluster.
    pub fn new() -> (r: ClusterModel)
        ensures
            r.wf(),
            r.routes.routes@.len() == 0,
            r.records@.len() == 0,
            r.next_procedure_id == 0,
            r.datanodes@.len() == 0,
            r.tables@.len() == 0,
    {
        ClusterModel {
            routes: RouteTable::empty(),
            records: Vec::new(),
            next_procedure_id: 0,
            tables: Vec::new(),
            datanodes: Vec::new(),
        }
    }

    /// Adds a datanode with no replicas.
    pub fn add_datanode(&mut self, peer: Peer)
        requires
            old(self).wf(),
            !old(self).spec_has_datanode(peer.id),
        ensures
            final(self).wf(),
            final(self).datanodes@.len() == old(self).datanodes@.len() + 1,
            final(self).spec_has_datanode(peer.id),
            final(self).routes == old(self).routes,
            final(self).records@ == old(self).records@,
            final(self).next_procedure_id == old(self).next_procedure_id,
            final(self).tables@ == old(self).tables@,
            forall|p: u64| #[trigger] final(self).spec_has_datanode(p)
                <==> old(self).spec_has_datanode(p) || p == peer.id,
            forall|p: u64| old(self).spec_has_datanode(p)
                ==> #[trigger] final(self).spec_dn(p) == old(self).spec_dn(p),
            // the fresh node: alive, disk free, serving nothing
            final(self).spec_dn(peer.id) == (DatanodeModel {
                peer: peer,
                alive: true,
                disk_full: false,
                replicas: final(self).spec_dn(peer.id).replicas,
                route_cache_stale: false,
            }),
            final(self).spec_dn(peer.id).replicas@.len() == 0,
    {
        let dn = DatanodeModel {
            peer,
            alive: true,
            disk_full: false,
            replicas: Vec::new(),
            route_cache_stale: false,
        };
        let ghost pid = dn.peer.id;
        let ghost dn_g = dn;
        self.datanodes.push(dn);
        proof {
            assert(self.datanodes@[self.datanodes@.len() - 1].peer.id == pid);
            assert forall|p: u64| old(self).spec_has_datanode(p)
                implies #[trigger] self.spec_has_datanode(p) by {
                let i = choose|i: int|
                    0 <= i < old(self).datanodes@.len()
                        && #[trigger] old(self).datanodes@[i].peer.id == p;
                assert(self.datanodes@[i].peer.id == p);
            }
            assert forall|p: u64| old(self).spec_has_datanode(p)
                implies #[trigger] self.spec_dn(p) == old(self).spec_dn(p) by {
                let k1 = old(self).spec_dn_index(p);
                assert(self.datanodes@[k1].peer.id == p);
                let k2 = self.spec_dn_index(p);
                assert(0 <= k2 < self.datanodes@.len() && self.datanodes@[k2].peer.id == p);
                if k2 == self.datanodes@.len() - 1 {
                    assert(!old(self).spec_has_datanode(pid));
                }
                if k1 != k2 {
                    assert(old(self).datanodes@[k1].peer.id != old(self).datanodes@[k2].peer.id);
                }
            }
            let kn = self.spec_dn_index(pid);
            assert(0 <= kn < self.datanodes@.len() && self.datanodes@[kn].peer.id == pid);
            if kn != self.datanodes@.len() - 1 {
                assert(old(self).datanodes@[kn].peer.id == pid);
            }
            assert(self.spec_dn(pid) == dn_g);
        }
    }

    /// Index of the datanode with this peer id, if present.
    pub fn datanode_index(&self, peer_id: u64) -> (r: Option<usize>)
        requires
            self.wf(),
        ensures
            match r {
                Some(i) => self.spec_has_datanode(peer_id) && i == self.spec_dn_index(peer_id)
                    && i < self.datanodes@.len() && self.datanodes@[i as int].peer.id == peer_id,
                None => !self.spec_has_datanode(peer_id),
            },
    {
        let n = self.datanodes.len();
        for i in 0..n
            invariant
                n == self.datanodes@.len(),
                self.wf(),
                forall|j: int| 0 <= j < i ==> #[trigger] self.datanodes@[j].peer.id != peer_id,
        {
            if self.datanodes[i].peer.id == peer_id {
                proof {
                    let k = self.spec_dn_index(peer_id);
                    assert(0 <= k < self.datanodes@.len() && self.datanodes@[k].peer.id == peer_id);
                    if k != i as int {
                        assert(self.datanodes@[k].peer.id != self.datanodes@[i as int].peer.id);
                    }
                }
                return Some(i);
            }
        }
        None
    }
}

/// Index of the replica of `rid` within a datanode, if present.
pub fn replica_index(dn: &DatanodeModel, rid: RegionId) -> (r: Option<usize>)
    requires
        dn.wf(),
    ensures
        match r {
            Some(i) => dn.spec_has_replica(rid) && i == dn.spec_replica_index(rid)
                && i < dn.replicas@.len() && dn.replicas@[i as int].region == rid,
            None => !dn.spec_has_replica(rid),
        },
{
    let n = dn.replicas.len();
    for i in 0..n
        invariant
            n == dn.replicas@.len(),
            dn.wf(),
            forall|j: int| 0 <= j < i ==> #[trigger] dn.replicas@[j].region != rid,
    {
        if dn.replicas[i].region == rid {
            proof {
                let k = dn.spec_replica_index(rid);
                assert(0 <= k < dn.replicas@.len() && dn.replicas@[k].region == rid);
                if k != i as int {
                    assert(dn.replicas@[k].region != dn.replicas@[i as int].region);
                }
            }
            return Some(i);
        }
    }
    None
}

/// An element-wise copy of a log, with its contents pinned down (a derived
/// clone would say nothing).
pub fn copy_entries(v: &Vec<WriteEntry>) -> (r: Vec<WriteEntry>)
    ensures
        r@ == v@,
{
    let mut r: Vec<WriteEntry> = Vec::new();
    let n = v.len();
    for i in 0..n
        invariant
            n == v@.len(),
            r@ == v@.take(i as int),
    {
        r.push(v[i]);
        proof {
            assert(r@ =~= v@.take(i + 1));
        }
    }
    proof {
        assert(v@.take(n as int) =~= v@);
    }
    r
}

} // verus!

verus! {

/// Frame lemma for a change to a single datanode: when one datanode is
/// replaced by a node with the same peer id, lookups of every other peer
/// are unchanged and lookups of this peer give the replacement.
pub proof fn lemma_dn_frame(pre: ClusterModel, post: ClusterModel, i: int, dn: DatanodeModel)
    requires
        pre.wf(),
        0 <= i < pre.datanodes@.len(),
        dn.peer.id == pre.datanodes@[i].peer.id,
        post.datanodes@ == pre.datanodes@.update(i, dn),
    ensures
        forall|p: u64| #[trigger] post.spec_has_datanode(p) <==> pre.spec_has_datanode(p),
        forall|p: u64| #[trigger] pre.spec_has_datanode(p) ==> post.spec_dn_index(p) == pre.spec_dn_index(p),
        post.spec_dn_index(dn.peer.id) == i,
        post.spec_dn(dn.peer.id) == dn,
        forall|p: u64|
            pre.spec_has_datanode(p) && p != dn.peer.id
                ==> #[trigger] post.spec_dn(p) == pre.spec_dn(p),
{
    assert forall|p: u64| #[trigger] post.spec_has_datanode(p) <==> pre.spec_has_datanode(p) by {
        if pre.spec_has_datanode(p) {
            let k = pre.spec_dn_index(p);
            assert(post.datanodes@[k].peer.id == p);
        }
        if post.spec_has_datanode(p) {
            let k = choose|k: int|
                0 <= k < post.datanodes@.len() && #[trigger] post.datanodes@[k].peer.id == p;
            assert(pre.datanodes@[k].peer.id == p);
        }
    }
    assert forall|p: u64| pre.spec_has_datanode(p)
        implies #[trigger] post.spec_dn_index(p) == pre.spec_dn_index(p) by {
        let k1 = pre.spec_dn_index(p);
        assert(0 <= k1 < pre.datanodes@.len() && pre.datanodes@[k1].peer.id == p);
        assert(post.datanodes@[k1].peer.id == p);
        assert(post.spec_has_datanode(p));
        let k2 = post.spec_dn_index(p);
        assert(0 <= k2 < post.datanodes@.len() && post.datanodes@[k2].peer.id == p);
        if k1 != k2 {
            assert(pre.datanodes@[k2].peer.id == p);
            assert(pre.datanodes@[k1].peer.id != pre.datanodes@[k2].peer.id);
        }
    }
    assert(pre.datanodes@[i].peer.id == dn.peer.id);
    assert(pre.spec_has_datanode(dn.peer.id));
    let k = pre.spec_dn_index(dn.peer.id);
    if k != i {
        assert(pre.datanodes@[k].peer.id != pre.datanodes@[i].peer.id);
    }
}

/// Frame lemma for a change to a single replica within a datanode.
pub proof fn lemma_replica_frame(pre: DatanodeModel, post: DatanodeModel, i: int, rep: RegionReplica)
    requires
        pre.wf(),
        0 <= i < pre.replicas@.len(),
        rep.region == pre.replicas@[i].region,
        post.replicas@ == pre.replicas@.update(i, rep),
    ensures
        post.wf(),
        forall|r: RegionId| #[trigger] post.spec_has_replica(r) <==> pre.spec_has_replica(r),
        post.spec_replica_index(rep.region) == i,
        post.spec_replica(rep.region) == rep,
        forall|r: RegionId|
            pre.spec_has_replica(r) && r != rep.region
                ==> #[trigger] post.spec_replica(r) == pre.spec_replica(r),
{
    assert forall|r: RegionId| #[trigger] post.spec_has_replica(r) <==> pre.spec_has_replica(r) by {
        if pre.spec_has_replica(r) {
            let k = pre.spec_replica_index(r);
            assert(post.replicas@[k].region == r);
        }
        if post.spec_has_replica(r) {
            let k = choose|k: int|
                0 <= k < post.replicas@.len() && #[trigger] post.replicas@[k].region == r;
            assert(pre.replicas@[k].region == r);
        }
    }
    assert forall|r: RegionId| pre.spec_has_replica(r)
        implies #[trigger] post.spec_replica_index(r) == pre.spec_replica_index(r) by {
        let k1 = pre.spec_replica_index(r);
        assert(post.replicas@[k1].region == r);
        assert(post.spec_has_replica(r));
        let k2 = post.spec_replica_index(r);
        assert(0 <= k2 < post.replicas@.len() && post.replicas@[k2].region == r);
        if k1 != k2 {
            assert(pre.replicas@[k1].region != pre.replicas@[k2].region);
        }
    }
    let k = pre.spec_replica_index(rep.region);
    if k != i {
        assert(pre.replicas@[k].region != pre.replicas@[i].region);
    }
}

impl ClusterModel {
    /// The steps' view of "everything in the metastore except the
    /// datanodes is unchanged".
    pub open spec fn spec_same_meta(self, other: ClusterModel) -> bool {
        self.routes == other.routes && self.records@ == other.records@
            && self.next_procedure_id == other.next_procedure_id && self.tables@ == other.tables@
    }

    /// Datanode-facade operation: opens a region on a datanode in the
    /// given role with the given initial log.  Idempotent: reopening an
    /// existing replica leaves it untouched.
    pub fn open_region(&mut self, peer_id: u64, rid: RegionId, role: RegionRole, wal: Vec<WriteEntry>)
        -> (r: Result<(), Error>)
        requires
            old(self).wf(),
        ensures
            final(self).wf(),
            final(self).spec_same_meta(*old(self)),
            match r {
                Ok(()) => old(self).spec_has_datanode(peer_id)
                    && final(self).spec_has_wal(peer_id, rid)
                    && (if old(self).spec_dn(peer_id).spec_has_replica(rid) {
                        *final(self) == *old(self)
                    } else {
                        final(self).spec_dn(peer_id).spec_replica(rid)
                            == (RegionReplica { region: rid, role, wal: wal, frozen: false })
                            && final(self).datanodes@ == old(self).datanodes@.update(
                                old(self).spec_dn_index(peer_id),
                                final(self).spec_dn(peer_id),
                            )
                            && final(self).spec_dn(peer_id).replicas@
                                == old(self).spec_dn(peer_id).replicas@.push(
                                    RegionReplica { region: rid, role, wal: wal, frozen: false })
                    })
                    && (forall|p: u64| #[trigger] final(self).spec_has_datanode(p)
                        <==> old(self).spec_has_datanode(p))
                    && (forall|p: u64| old(self).spec_has_datanode(p) && p != peer_id
                        ==> #[trigger] final(self).spec_dn(p) == old(self).spec_dn(p))
                    && (forall|r2: RegionId| old(self).spec_dn(peer_id).spec_has_replica(r2)
                        ==> #[trigger] final(self).spec_dn(peer_id).spec_replica(r2)
                            == old(self).spec_dn(peer_id).spec_replica(r2))
                    && (forall|r2: RegionId| r2 != rid
                        ==> (#[trigger] final(self).spec_dn(peer_id).spec_has_replica(r2)
                            <==> old(self).spec_dn(peer_id).spec_has_replica(r2)))
                    && final(self).spec_dn(peer_id).peer == old(self).spec_dn(peer_id).peer
                    && final(self).spec_dn(peer_id).alive == old(self).spec_dn(peer_id).alive
                    && final(self).spec_dn(peer_id).disk_full == old(self).spec_dn(peer_id).disk_full,
                Err(Error::Transient) => !old(self).spec_has_datanode(peer_id)
                    && *final(self) == *old(self),
                Err(_) => false,
            },
    {
        let idx = match self.datanode_index(peer_id) {
            Some(i) => i,
            None => {
                return Err(Error::Transient);
            },
        };
        let has = {
            let dn = &self.datanodes[idx];
            replica_index(dn, rid).is_some()
        };
        if has {
            return Ok(());
        }
        let mut dn = self.datanodes.remove(idx);
        let rep = RegionReplica { region: rid, role, wal, frozen: false };
        let ghost old_dn = dn;
        let ghost rep_g = rep;
        dn.replicas.push(rep);
        proof {
            assert forall|r2: RegionId| old_dn.spec_has_replica(r2)
                implies #[trigger] dn.spec_has_replica(r2) by {
                let k = old_dn.spec_replica_index(r2);
                assert(dn.replicas@[k].region == r2);
            }
            assert(dn.replicas@[dn.replicas@.len() - 1].region == rid);
            assert(dn.wf());
        }
        let ghost dn_g = dn;
        self.datanodes.insert(idx, dn);
        proof {
            assert(self.datanodes@ =~= old(self).datanodes@.update(idx as int, dn_g));
            lemma_dn_frame(*old(self), *self, idx as int, dn_g);
            // the new replica is the last one; older replicas keep their state
            assert forall|r2: RegionId| old_dn.spec_has_replica(r2)
                implies #[trigger] dn_g.spec_replica(r2) == old_dn.spec_replica(r2) by {
                let k = old_dn.spec_replica_index(r2);
                assert(dn_g.replicas@[k].region == r2);
                let k2 = dn_g.spec_replica_index(r2);
                if k2 != k {
                    assert(dn_g.replicas@[k2].region != dn_g.replicas@[k].region);
                }
            }
            let kn = dn_g.spec_replica_index(rid);
            assert(0 <= kn < dn_g.replicas@.len() && dn_g.replicas@[kn].region == rid);
            if kn != dn_g.replicas@.len() - 1 {
                assert(dn_g.replicas@[kn].region != rid);
            }
            assert(dn_g.spec_replica(rid) == rep_g);
            assert forall|r2: RegionId| r2 != rid
                implies (#[trigger] dn_g.spec_has_replica(r2) <==> old_dn.spec_has_replica(r2)) by {
                if dn_g.spec_has_replica(r2) {
                    let k = choose|k: int|
                        0 <= k < dn_g.replicas@.len() && #[trigger] dn_g.replicas@[k].region == r2;
                    assert(k != dn_g.replicas@.len() - 1);
                    assert(old_dn.replicas@[k].region == r2);
                }
                if old_dn.spec_has_replica(r2) {
                    let k = old_dn.spec_replica_index(r2);
                    assert(dn_g.replicas@[k].region == r2);
                }
            }
        }
        Ok(())
    }
}

} // verus!

verus! {

impl ClusterModel {
    /// Datanode-facade operation: closes a region on a datanode, dropping
    /// its replica (memtable and lease go with it).  Idempotent: closing
    /// an absent replica is a no-op.
    pub fn close_region(&mut self, peer_id: u64, rid: RegionId) -> (r: Result<(), Error>)
        requires
            old(self).wf(),
        ensures
            final(self).wf(),
            final(self).spec_same_meta(*old(self)),
            match r {
                Ok(()) => old(self).spec_has_datanode(peer_id)
                    && !final(self).spec_dn(peer_id).spec_has_replica(rid)
                    && (forall|p: u64| #[trigger] final(self).spec_has_datanode(p)
                        <==> old(self).spec_has_datanode(p))
                    && (forall|p: u64| old(self).spec_has_datanode(p) && p != peer_id
                        ==> #[trigger] final(self).spec_dn(p) == old(self).spec_dn(p))
                    && final(self).spec_dn(peer_id).peer == old(self).spec_dn(peer_id).peer
                    && final(self).spec_dn(peer_id).alive == old(self).spec_dn(peer_id).alive
                    && final(self).spec_dn(peer_id).disk_full == old(self).spec_dn(peer_id).disk_full
                    && (forall|r2: RegionId| r2 != rid
                        ==> (#[trigger] final(self).spec_dn(peer_id).spec_has_replica(r2)
                            <==> old(self).spec_dn(peer_id).spec_has_replica(r2)))
                    && (forall|r2: RegionId|
                        old(self).spec_dn(peer_id).spec_has_replica(r2) && r2 != rid
                            ==> #[trigger] final(self).spec_dn(peer_id).spec_replica(r2)
                                == old(self).spec_dn(peer_id).spec_replica(r2)),
                Err(Error::Transient) => !old(self).spec_has_datanode(peer_id)
                    && *final(self) == *old(self),
                Err(_) => false,
            },
    {
        let idx = match self.datanode_index(peer_id) {
            Some(i) => i,
            None => {
                return Err(Error::Transient);
            },
        };
        let jopt = {
            let dn = &self.datanodes[idx];
            replica_index(dn, rid)
        };
        let j = match jopt {
            Some(j) => j,
            None => {
                return Ok(());
            },
        };
        let mut dn = self.datanodes.remove(idx);
        let ghost old_dn = dn;
        let _ = dn.replicas.remove(j);
        let ghost dn_g = dn;
        proof {
            assert forall|a: int, b: int| 0 <= a < b < dn_g.replicas@.len()
                implies #[trigger] dn_g.replicas@[a].region != #[trigger] dn_g.replicas@[b].region by {
                let a0: int = if a < j { a } else { a + 1 };
                let b0: int = if b < j { b } else { b + 1 };
                assert(dn_g.replicas@[a] == old_dn.replicas@[a0]);
                assert(dn_g.replicas@[b] == old_dn.replicas@[b0]);
            }
            assert(dn_g.wf());
            assert forall|r2: RegionId| #[trigger] dn_g.spec_has_replica(r2)
                implies old_dn.spec_has_replica(r2) && r2 != rid by {
                let k = dn_g.spec_replica_index(r2);
                let k0: int = if k < j { k } else { k + 1 };
                assert(dn_g.replicas@[k] == old_dn.replicas@[k0]);
                assert(old_dn.replicas@[k0].region == r2);
                if k0 != j {
                    assert(old_dn.replicas@[k0].region != old_dn.replicas@[j as int].region);
                }
            }
            assert forall|r2: RegionId| old_dn.spec_has_replica(r2) && r2 != rid
                implies #[trigger] dn_g.spec_has_replica(r2)
                    && dn_g.spec_replica(r2) == old_dn.spec_replica(r2) by {
                let k0 = old_dn.spec_replica_index(r2);
                assert(0 <= k0 < old_dn.replicas@.len() && old_dn.replicas@[k0].region == r2);
                if k0 == j {
                    assert(old_dn.replicas@[j as int].region == rid);
                }
                let k: int = if k0 < j { k0 } else { k0 - 1 };
                assert(dn_g.replicas@[k] == old_dn.replicas@[k0]);
                assert(dn_g.spec_has_replica(r2));
                let k2 = dn_g.spec_replica_index(r2);
                if k2 != k {
                    assert(dn_g.replicas@[k2].region != dn_g.replicas@[k].region);
                }
            }
        }
        self.datanodes.insert(idx, dn);
        proof {
            assert(self.datanodes@ =~= old(self).datanodes@.update(idx as int, dn_g));
            lemma_dn_frame(*old(self), *self, idx as int, dn_g);
            assert forall|r2: RegionId|
                old(self).spec_dn(peer_id).spec_has_replica(r2) && r2 != rid
                implies #[trigger] self.spec_dn(peer_id).spec_replica(r2)
                    == old(self).spec_dn(peer_id).spec_replica(r2) by {
                assert(old_dn.spec_has_replica(r2));
                assert(dn_g.spec_has_replica(r2));
                assert(dn_g.spec_replica(r2) == old_dn.spec_replica(r2));
            }
            assert forall|r2: RegionId| r2 != rid
                implies (#[trigger] self.spec_dn(peer_id).spec_has_replica(r2)
                    <==> old(self).spec_dn(peer_id).spec_has_replica(r2)) by {
                if old_dn.spec_has_replica(r2) {
                    assert(dn_g.spec_has_replica(r2));
                }
                if dn_g.spec_has_replica(r2) {
                    assert(old_dn.spec_has_replica(r2));
                }
            }
        }
        Ok(())
    }

    /// Datanode-facade operation: sets the write-lease state of a region
    /// replica.  A frozen replica rejects new writes with a retryable
    /// error.  Idempotent.
    pub fn set_region_frozen(&mut self, peer_id: u64, rid: RegionId, frozen: bool)
        -> (r: Result<(), Error>)
        requires
            old(self).wf(),
        ensures
            final(self).wf(),
            final(self).spec_same_meta(*old(self)),
            match r {
                Ok(()) => old(self).spec_has_wal(peer_id, rid)
                    && final(self).spec_dn(peer_id).spec_replica(rid)
                        == (RegionReplica { frozen, ..old(self).spec_dn(peer_id).spec_replica(rid) })
                    && (forall|p: u64| #[trigger] final(self).spec_has_datanode(p)
                        <==> old(self).spec_has_datanode(p))
                    && (forall|p: u64| old(self).spec_has_datanode(p) && p != peer_id
                        ==> #[trigger] final(self).spec_dn(p) == old(self).spec_dn(p))
                    && final(self).spec_dn(peer_id).peer == old(self).spec_dn(peer_id).peer
                    && final(self).spec_dn(peer_id).alive == old(self).spec_dn(peer_id).alive
                    && final(self).spec_dn(peer_id).disk_full == old(self).spec_dn(peer_id).disk_full
                    && (forall|r2: RegionId| #[trigger] final(self).spec_dn(peer_id).spec_has_replica(r2)
                        <==> old(self).spec_dn(peer_id).spec_has_replica(r2))
                    && (forall|r2: RegionId|
                        old(self).spec_dn(peer_id).spec_has_replica(r2) && r2 != rid
                            ==> #[trigger] final(self).spec_dn(peer_id).spec_replica(r2)
                                == old(self).spec_dn(peer_id).spec_replica(r2)),
                Err(Error::Transient) => !old(self).spec_has_wal(peer_id, rid)
                    && *final(self) == *old(self),
                Err(_) => false,
            },
    {
        let idx = match self.datanode_index(peer_id) {
            Some(i) => i,
            None => {
                return Err(Error::Transient);
            },
        };
        let jopt = {
            let dn = &self.datanodes[idx];
            replica_index(dn, rid)
        };
        let j = match jopt {
            Some(j) => j,
            None => {
                return Err(Error::Transient);
            },
        };
        let mut dn = self.datanodes.remove(idx);
        let ghost old_dn = dn;
        let mut rep = dn.replicas.remove(j);
        rep.frozen = frozen;
        let ghost rep_g = rep;
        dn.replicas.insert(j, rep);
        proof {
            assert(dn.replicas@ =~= old_dn.replicas@.update(j as int, rep_g));
            lemma_replica_frame(old_dn, dn, j as int, rep_g);
        }
        let ghost dn_g = dn;
        self.datanodes.insert(idx, dn);
        proof {
            assert(self.datanodes@ =~= old(self).datanodes@.update(idx as int, dn_g));
            lemma_dn_frame(*old(self), *self, idx as int, dn_g);
        }
        Ok(())
    }

    /// Datanode-facade operation: replicates the source region's log onto
    /// the target replica, bringing the follower's committed offset up to
    /// the source's last offset.  Idempotent.
    pub fn replicate_region(&mut self, from_id: u64, to_id: u64, rid: RegionId)
        -> (r: Result<(), Error>)
        requires
            old(self).wf(),
            from_id != to_id,
        ensures
            final(self).wf(),
            final(self).spec_same_meta(*old(self)),
            match r {
                Ok(()) => old(self).spec_has_wal(from_id, rid) && old(self).spec_has_wal(to_id, rid)
                    && final(self).spec_wal(to_id, rid) == old(self).spec_wal(from_id, rid)
                    && final(self).spec_dn(to_id).spec_replica(rid)
                        == (RegionReplica {
                            wal: final(self).spec_dn(to_id).spec_replica(rid).wal,
                            ..old(self).spec_dn(to_id).spec_replica(rid)
                        })
                    && (forall|p: u64| #[trigger] final(self).spec_has_datanode(p)
                        <==> old(self).spec_has_datanode(p))
                    && (forall|p: u64| old(self).spec_has_datanode(p) && p != to_id
                        ==> #[trigger] final(self).spec_dn(p) == old(self).spec_dn(p))
                    && final(self).spec_dn(to_id).peer == old(self).spec_dn(to_id).peer
                    && final(self).spec_dn(to_id).alive == old(self).spec_dn(to_id).alive
                    && final(self).spec_dn(to_id).disk_full == old(self).spec_dn(to_id).disk_full
                    && (forall|r2: RegionId| #[trigger] final(self).spec_dn(to_id).spec_has_replica(r2)
                        <==> old(self).spec_dn(to_id).spec_has_replica(r2))
                    && (forall|r2: RegionId|
                        old(self).spec_dn(to_id).spec_has_replica(r2) && r2 != rid
                            ==> #[trigger] final(self).spec_dn(to_id).spec_replica(r2)
                                == old(self).spec_dn(to_id).spec_replica(r2)),
                Err(Error::Transient) => (!old(self).spec_has_wal(from_id, rid)
                    || !old(self).spec_has_wal(to_id, rid)) && *final(self) == *old(self),
                Err(_) => false,
            },
    {
        let sidx = match self.datanode_index(from_id) {
            Some(i) => i,
            None => {
                return Err(Error::Transient);
            },
        };
        let sj = match replica_index(&self.datanodes[sidx], rid) {
            Some(j) => j,
            None => {
                return Err(Error::Transient);
            },
        };
        let tidx = match self.datanode_index(to_id) {
            Some(i) => i,
            None => {
                return Err(Error::Transient);
            },
        };
        let tj = match replica_index(&self.datanodes[tidx], rid) {
            Some(j) => j,
            None => {
                return Err(Error::Transient);
            },
        };
        let source_wal = copy_entries(&self.datanodes[sidx].replicas[sj].wal);
        let mut dn = self.datanodes.remove(tidx);
        let ghost old_dn = dn;
        let mut rep = dn.replicas.remove(tj);
        rep.wal = source_wal;
        let ghost rep_g = rep;
        dn.replicas.insert(tj, rep);
        proof {
            assert(dn.replicas@ =~= old_dn.replicas@.update(tj as int, rep_g));
            lemma_replica_frame(old_dn, dn, tj as int, rep_g);
        }
        let ghost dn_g = dn;
        self.datanodes.insert(tidx, dn);
        proof {
            assert(self.datanodes@ =~= old(self).datanodes@.update(tidx as int, dn_g));
            lemma_dn_frame(*old(self), *self, tidx as int, dn_g);
        }
        Ok(())
    }

    /// Heartbeat-bus model: records whether a datanode's heartbeat is
    /// within the liveness window.
    pub fn set_alive(&mut self, peer_id: u64, alive: bool) -> (r: Result<(), Error>)
        requires
            old(self).wf(),
        ensures
            final(self).wf(),
            final(self).spec_same_meta(*old(self)),
            match r {
                Ok(()) => old(self).spec_has_datanode(peer_id)
                    && final(self).spec_dn(peer_id)
                        == (DatanodeModel { alive, ..old(self).spec_dn(peer_id) })
                    && (forall|p: u64| #[trigger] final(self).spec_has_datanode(p)
                        <==> old(self).spec_has_datanode(p))
                    && (forall|p: u64| old(self).spec_has_datanode(p) && p != peer_id
                        ==> #[trigger] final(self).spec_dn(p) == old(self).spec_dn(p)),
                Err(Error::Transient) => !old(self).spec_has_datanode(peer_id)
                    && *final(self) == *old(self),
                Err(_) => false,
            },
    {
        let idx = match self.datanode_index(peer_id) {
            Some(i) => i,
            None => {
                return Err(Error::Transient);
            },
        };
        let mut dn = self.datanodes.remove(idx);
        dn.alive = alive;
        let ghost dn_g = dn;
        self.datanodes.insert(idx, dn);
        proof {
            assert(self.datanodes@ =~= old(self).datanodes@.update(idx as int, dn_g));
            lemma_dn_frame(*old(self), *self, idx as int, dn_g);
        }
        Ok(())
    }

    /// Marks a datanode's disk as full; the node then rejects new regions
    /// permanently.
    pub fn set_disk_full(&mut self, peer_id: u64, disk_full: bool) -> (r: Result<(), Error>)
        requires
            old(self).wf(),
        ensures
            final(self).wf(),
            final(self).spec_same_meta(*old(self)),
            match r {
                Ok(()) => old(self).spec_has_datanode(peer_id)
                    && final(self).spec_dn(peer_id)
                        == (DatanodeModel { disk_full, ..old(self).spec_dn(peer_id) })
                    && (forall|p: u64| #[trigger] final(self).spec_has_datanode(p)
                        <==> old(self).spec_has_datanode(p))
                    && (forall|p: u64| old(self).spec_has_datanode(p) && p != peer_id
                        ==> #[trigger] final(self).spec_dn(p) == old(self).spec_dn(p)),
                Err(Error::Transient) => !old(self).spec_has_datanode(peer_id)
                    && *final(self) == *old(self),
                Err(_) => false,
            },
    {
        let idx = match self.datanode_index(peer_id) {
            Some(i) => i,
            None => {
                return Err(Error::Transient);
            },
        };
        let mut dn = self.datanodes.remove(idx);
        dn.disk_full = disk_full;
        let ghost dn_g = dn;
        self.datanodes.insert(idx, dn);
        proof {
            assert(self.datanodes@ =~= old(self).datanodes@.update(idx as int, dn_g));
            lemma_dn_frame(*old(self), *self, idx as int, dn_g);
        }
        Ok(())
    }

    /// Marks a datanode's route cache stale (ownership of some region it
    /// routed through has moved).
    pub fn mark_route_cache_stale(&mut self, peer_id: u64) -> (r: Result<(), Error>)
        requires
            old(self).wf(),
        ensures
            final(self).wf(),
            final(self).spec_same_meta(*old(self)),
            match r {
                Ok(()) => old(self).spec_has_datanode(peer_id)
                    && final(self).spec_dn(peer_id)
                        == (DatanodeModel { route_cache_stale: true, ..old(self).spec_dn(peer_id) })
                    && (forall|p: u64| #[trigger] final(self).spec_has_datanode(p)
                        <==> old(self).spec_has_datanode(p))
                    && (forall|p: u64| old(self).spec_has_datanode(p) && p != peer_id
                        ==> #[trigger] final(self).spec_dn(p) == old(self).spec_dn(p)),
                Err(Error::Transient) => !old(self).spec_has_datanode(peer_id)
                    && *final(self) == *old(self),
                Err(_) => false,
            },
    {
        let idx = match self.datanode_index(peer_id) {
            Some(i) => i,
            None => {
                return Err(Error::Transient);
            },
        };
        let mut dn = self.datanodes.remove(idx);
        dn.route_cache_stale = true;
        let ghost dn_g = dn;
        self.datanodes.insert(idx, dn);
        proof {
            assert(self.datanodes@ =~= old(self).datanodes@.update(idx as int, dn_g));
            lemma_dn_frame(*old(self), *self, idx as int, dn_g);
        }
        Ok(())
    }

    /// Cache-invalidation broadcast: every datanode flushes its stale
    /// route cache.
    pub fn invalidate_route_caches(&mut self)
        requires
            old(self).wf(),
        ensures
            final(self).wf(),
            final(self).spec_same_meta(*old(self)),
            final(self).datanodes@.len() == old(self).datanodes@.len(),
            forall|i: int| 0 <= i < old(self).datanodes@.len()
                ==> #[trigger] final(self).datanodes@[i]
                    == (DatanodeModel { route_cache_stale: false, ..old(self).datanodes@[i] }),
            forall|p: u64| #[trigger] final(self).spec_has_datanode(p)
                <==> old(self).spec_has_datanode(p),
            forall|p: u64| old(self).spec_has_datanode(p)
                ==> #[trigger] final(self).spec_dn(p)
                    == (DatanodeModel { route_cache_stale: false, ..old(self).spec_dn(p) }),
    {
        let n = self.datanodes.len();
        for i in 0..n
            invariant
                n == self.datanodes@.len(),
                n == old(self).datanodes@.len(),
                self.routes == old(self).routes,
                self.records@ == old(self).records@,
                self.next_procedure_id == old(self).next_procedure_id,
                self.tables@ == old(self).tables@,
                forall|k: int| 0 <= k < i ==> #[trigger] self.datanodes@[k]
                    == (DatanodeModel { route_cache_stale: false, ..old(self).datanodes@[k] }),
                forall|k: int| i <= k < n ==> #[trigger] self.datanodes@[k] == old(self).datanodes@[k],
        {
            let ghost prev = self.datanodes@;
            let mut dn = self.datanodes.remove(i);
            dn.route_cache_stale = false;
            let ghost dn_g = dn;
            self.datanodes.insert(i, dn);
            proof {
                assert(self.datanodes@ =~= prev.update(i as int, dn_g));
            }
        }
        proof {
            assert forall|i: int| 0 <= i < old(self).datanodes@.len()
                implies #[trigger] self.datanodes@[i]
                    == (DatanodeModel { route_cache_stale: false, ..old(self).datanodes@[i] }) by {}
            assert forall|i: int, j: int| 0 <= i < j < self.datanodes@.len()
                implies #[trigger] self.datanodes@[i].peer.id != #[trigger] self.datanodes@[j].peer.id by {
                assert(self.datanodes@[i].peer.id == old(self).datanodes@[i].peer.id);
                assert(self.datanodes@[j].peer.id == old(self).datanodes@[j].peer.id);
            }
            assert forall|i: int| 0 <= i < self.datanodes@.len()
                implies (#[trigger] self.datanodes@[i]).wf() by {
                let pre = old(self).datanodes@[i];
                assert(pre.wf());
                assert(self.datanodes@[i].replicas@ == pre.replicas@);
            }
            assert forall|p: u64| #[trigger] self.spec_has_datanode(p)
                <==> old(self).spec_has_datanode(p) by {
                if old(self).spec_has_datanode(p) {
                    let k = old(self).spec_dn_index(p);
                    assert(self.datanodes@[k].peer.id == p);
                }
                if self.spec_has_datanode(p) {
                    let k = choose|k: int|
                        0 <= k < self.datanodes@.len() && #[trigger] self.datanodes@[k].peer.id == p;
                    assert(old(self).datanodes@[k].peer.id == p);
                }
            }
            assert forall|p: u64| old(self).spec_has_datanode(p)
                implies #[trigger] self.spec_dn(p)
                    == (DatanodeModel { route_cache_stale: false, ..old(self).spec_dn(p) }) by {
                let k1 = old(self).spec_dn_index(p);
                assert(self.datanodes@[k1].peer.id == p);
                assert(self.spec_has_datanode(p));
                let k2 = self.spec_dn_index(p);
                assert(0 <= k2 < self.datanodes@.len() && self.datanodes@[k2].peer.id == p);
                if k1 != k2 {
                    assert(old(self).datanodes@[k1].peer.id != old(self).datanodes@[k2].peer.id);
                }
            }
        }
    }
}

} // verus!

verus! {

impl ClusterModel {
    pub open spec fn spec_has_table(self, table_id: u32) -> bool {
        exists|i: int| 0 <= i < self.tables@.len() && #[trigger] self.tables@[i].table_id == table_id
    }

    pub open spec fn spec_table_index(self, table_id: u32) -> int {
        choose|i: int| 0 <= i < self.tables@.len() && #[trigger] self.tables@[i].table_id == table_id
    }

    pub open spec fn spec_table(self, table_id: u32) -> TableModel {
        self.tables@[self.spec_table_index(table_id)]
    }

    /// The region a key of the table is routed to by the partition rule.
    pub open spec fn spec_target_region(self, table_id: u32, key: i64) -> RegionId {
        RegionId {
            table_id,
            region_number: self.spec_table(table_id).spec_region_of(key) as u32,
        }
    }

    pub fn table_index(&self, table_id: u32) -> (r: Option<usize>)
        requires
            self.wf(),
        ensures
            match r {
                Some(i) => self.spec_has_table(table_id) && i == self.spec_table_index(table_id)
                    && i < self.tables@.len() && self.tables@[i as int].table_id == table_id,
                None => !self.spec_has_table(table_id),
            },
    {
        let n = self.tables.len();
        for i in 0..n
            invariant
                n == self.tables@.len(),
                self.wf(),
                forall|j: int| 0 <= j < i ==> #[trigger] self.tables@[j].table_id != table_id,
        {
            if self.tables[i].table_id == table_id {
                proof {
                    let k = self.spec_table_index(table_id);
                    assert(0 <= k < self.tables@.len() && self.tables@[k].table_id == table_id);
                    if k != i as int {
                        assert(self.tables@[k].table_id != self.tables@[i as int].table_id);
                    }
                }
                return Some(i);
            }
        }
        None
    }

    /// Registers a table's partition rule.
    pub fn register_table(&mut self, table_id: u32, bounds: Vec<i64>)
        requires
            old(self).wf(),
            !old(self).spec_has_table(table_id),
        ensures
            final(self).wf(),
            final(self).tables@ == old(self).tables@.push(TableModel { table_id, bounds: bounds }),
            final(self).spec_has_table(table_id),
            final(self).spec_table(table_id) == (TableModel { table_id, bounds: bounds }),
            final(self).routes == old(self).routes,
            final(self).records@ == old(self).records@,
            final(self).next_procedure_id == old(self).next_procedure_id,
            final(self).datanodes@ == old(self).datanodes@,
    {
        let t = TableModel { table_id, bounds };
        let ghost t_g = t;
        self.tables.push(t);
        proof {
            assert(self.tables@.last() == t_g);
            assert(self.tables@[self.tables@.len() - 1].table_id == table_id);
            let k = self.spec_table_index(table_id);
            assert(0 <= k < self.tables@.len() && self.tables@[k].table_id == table_id);
            if k != self.tables@.len() - 1 {
                assert(self.tables@[k] == old(self).tables@[k]);
            }
        }
    }

    /// Creates a fresh region: a route with the given leader and no
    /// followers, and a leader replica with an empty log on that datanode.
    pub fn create_region(&mut self, rid: RegionId, leader: &Peer) -> (r: Result<(), Error>)
        requires
            old(self).wf(),
            !old(self).spec_has_region_route(rid),
        ensures
            final(self).wf(),
            final(self).records@ == old(self).records@,
            final(self).next_procedure_id == old(self).next_procedure_id,
            final(self).tables@ == old(self).tables@,
            match r {
                Ok(()) => old(self).spec_has_datanode(leader.id)
                    && final(self).routes.routes@ == old(self).routes.routes@.push(
                        final(self).routes.routes@.last())
                    && final(self).routes.routes@.last().region == rid
                    && final(self).routes.routes@.last().leader_peer.id == leader.id
                    && final(self).routes.routes@.last().follower_peers@.len() == 0
                    && final(self).spec_has_region_route(rid)
                    && final(self).routes.spec_leader_id(rid) == leader.id
                    && final(self).spec_has_wal(leader.id, rid)
                    && (old(self).spec_dn(leader.id).spec_has_replica(rid)
                        || final(self).spec_dn(leader.id).spec_replica(rid)
                            == (RegionReplica { region: rid, role: RegionRole::Leader, wal: final(self).spec_dn(leader.id).spec_replica(rid).wal, frozen: false })
                            && final(self).spec_wal(leader.id, rid).len() == 0)
                    && (forall|p: u64| #[trigger] final(self).spec_has_datanode(p)
                        <==> old(self).spec_has_datanode(p))
                    && (forall|p: u64| old(self).spec_has_datanode(p) && p != leader.id
                        ==> #[trigger] final(self).spec_dn(p) == old(self).spec_dn(p))
                    && (forall|r2: RegionId| old(self).spec_dn(leader.id).spec_has_replica(r2)
                        ==> #[trigger] final(self).spec_dn(leader.id).spec_replica(r2)
                            == old(self).spec_dn(leader.id).spec_replica(r2))
                    && (forall|r2: RegionId| r2 != rid
                        ==> (#[trigger] final(self).spec_dn(leader.id).spec_has_replica(r2)
                            <==> old(self).spec_dn(leader.id).spec_has_replica(r2)))
                    && final(self).spec_dn(leader.id).peer == old(self).spec_dn(leader.id).peer
                    && final(self).spec_dn(leader.id).alive == old(self).spec_dn(leader.id).alive
                    && final(self).spec_dn(leader.id).disk_full
                        == old(self).spec_dn(leader.id).disk_full,
                Err(Error::Transient) => !old(self).spec_has_datanode(leader.id)
                    && *final(self) == *old(self),
                Err(_) => false,
            },
    {
        if self.datanode_index(leader.id).is_none() {
            return Err(Error::Transient);
        }
        let route = RegionRoute {
            region: rid,
            leader_peer: leader.duplicate(),
            follower_peers: Vec::new(),
        };
        let ghost route_g = route;
        self.routes.insert_route(route);
        proof {
            assert(self.routes.routes@.last() == route_g);
            let k = self.routes.spec_index_of(rid);
            assert(0 <= k < self.routes.routes@.len() && self.routes.routes@[k].region == rid);
            if k != self.routes.routes@.len() - 1 {
                assert(self.routes.routes@[k] == old(self).routes.routes@[k]);
                assert(old(self).spec_has_region_route(rid));
            }
            assert(self.routes.spec_leader_id(rid) == leader.id);
        }
        let res = self.open_region(leader.id, rid, RegionRole::Leader, Vec::new());
        proof {
            assert(res is Ok);
        }
        Ok(())
    }

    /// Whether the route table has a route for the region.
    pub open spec fn spec_has_region_route(self, rid: RegionId) -> bool {
        self.routes.spec_has_region(rid)
    }
}

} // verus!

verus! {

impl ClusterModel {
    /// The frontend write path: routes a row to its region by the
    /// partition rule and appends it to the leader's log.  A row is
    /// acknowledged exactly when this returns `Ok`.  A frozen leader (a
    /// migration holds its write lease) rejects the write with a
    /// retryable error and its log does not grow.
    pub fn insert_row(&mut self, table_id: u32, key: i64, ts: u64) -> (r: Result<(), Error>)
        requires
            old(self).wf(),
            old(self).spec_has_table(table_id) ==> old(self).spec_table(table_id).bounds@.len() <= u32::MAX,
        ensures
            final(self).wf(),
            final(self).spec_same_meta(*old(self)),
            ({
                let rid = old(self).spec_target_region(table_id, key);
                match r {
                    Ok(()) => old(self).spec_has_table(table_id)
                        && old(self).spec_has_region_route(rid)
                        && ({
                            let leader = old(self).routes.spec_leader_id(rid);
                            old(self).spec_has_wal(leader, rid)
                            && !old(self).spec_dn(leader).spec_replica(rid).frozen
                            && final(self).spec_wal(leader, rid)
                                == old(self).spec_wal(leader, rid).push(WriteEntry { key, ts })
                            && final(self).spec_dn(leader).spec_replica(rid)
                                == (RegionReplica {
                                    wal: final(self).spec_dn(leader).spec_replica(rid).wal,
                                    ..old(self).spec_dn(leader).spec_replica(rid)
                                })
                            && (forall|p: u64| #[trigger] final(self).spec_has_datanode(p)
                                <==> old(self).spec_has_datanode(p))
                            && (forall|p: u64| old(self).spec_has_datanode(p) && p != leader
                                ==> #[trigger] final(self).spec_dn(p) == old(self).spec_dn(p))
                            && (forall|r2: RegionId| #[trigger] final(self).spec_dn(leader).spec_has_replica(r2)
                                <==> old(self).spec_dn(leader).spec_has_replica(r2))
                            && (forall|r2: RegionId|
                                old(self).spec_dn(leader).spec_has_replica(r2) && r2 != rid
                                    ==> #[trigger] final(self).spec_dn(leader).spec_replica(r2)
                                        == old(self).spec_dn(leader).spec_replica(r2))
                        }),
                    Err(Error::RegionRouteNotFound) => (!old(self).spec_has_table(table_id)
                        || !old(self).spec_has_region_route(rid)) && *final(self) == *old(self),
                    Err(Error::Transient) => old(self).spec_has_table(table_id)
                        && old(self).spec_has_region_route(rid)
                        && ({
                            let leader = old(self).routes.spec_leader_id(rid);
                            (!old(self).spec_has_wal(leader, rid)
                                || old(self).spec_dn(leader).spec_replica(rid).frozen)
                        }) && *final(self) == *old(self),
                    Err(_) => false,
                }
            }),
    {
        let tidx = match self.table_index(table_id) {
            Some(i) => i,
            None => {
                return Err(Error::RegionRouteNotFound);
            },
        };
        let region_number = self.tables[tidx].region_of(key);
        let rid = RegionId { table_id, region_number };
        let leader = match self.routes.get_route(rid) {
            Some(rt) => rt.leader_peer.id,
            None => {
                return Err(Error::RegionRouteNotFound);
            },
        };
        let idx = match self.datanode_index(leader) {
            Some(i) => i,
            None => {
                return Err(Error::Transient);
            },
        };
        let j = match replica_index(&self.datanodes[idx], rid) {
            Some(j) => j,
            None => {
                return Err(Error::Transient);
            },
        };
        if self.datanodes[idx].replicas[j].frozen {
            return Err(Error::Transient);
        }
        let mut dn = self.datanodes.remove(idx);
        let ghost old_dn = dn;
        let mut rep = dn.replicas.remove(j);
        rep.wal.push(WriteEntry { key, ts });
        let ghost rep_g = rep;
        dn.replicas.insert(j, rep);
        proof {
            assert(dn.replicas@ =~= old_dn.replicas@.update(j as int, rep_g));
            lemma_replica_frame(old_dn, dn, j as int, rep_g);
        }
        let ghost dn_g = dn;
        self.datanodes.insert(idx, dn);
        proof {
            assert(self.datanodes@ =~= old(self).datanodes@.update(idx as int, dn_g));
            lemma_dn_frame(*old(self), *self, idx as int, dn_g);
        }
        Ok(())
    }

    /// Rows of the table readable through the route table, in route
    /// order: for every route of the table whose leader actually serves
    /// the region, the leader's log.
    pub open spec fn spec_rows_from(self, s: Seq<RegionRoute>, table_id: u32) -> Seq<WriteEntry>
        decreases s.len(),
    {
        if s.len() == 0 {
            Seq::empty()
        } else {
            (if s[0].region.table_id == table_id
                && self.spec_has_wal(s[0].leader_peer.id, s[0].region) {
                self.spec_wal(s[0].leader_peer.id, s[0].region)
            } else {
                Seq::empty()
            }) + self.spec_rows_from(s.skip(1), table_id)
        }
    }

    pub open spec fn spec_table_rows(self, table_id: u32) -> Seq<WriteEntry> {
        self.spec_rows_from(self.routes.routes@, table_id)
    }

    /// Reads every acknowledged row of the table from the current
    /// leaders.
    pub fn read_table(&self, table_id: u32) -> (r: Vec<WriteEntry>)
        requires
            self.wf(),
        ensures
            r@ == self.spec_table_rows(table_id),
    {
        let mut out: Vec<WriteEntry> = Vec::new();
        let n = self.routes.routes.len();
        proof {
            assert(self.routes.routes@.skip(0) =~= self.routes.routes@);
        }
        for i in 0..n
            invariant
                n == self.routes.routes@.len(),
                self.wf(),
                self.spec_table_rows(table_id)
                    == out@ + self.spec_rows_from(self.routes.routes@.skip(i as int), table_id),
        {
            let ghost tail = self.routes.routes@.skip(i as int);
            proof {
                assert(tail[0] == self.routes.routes@[i as int]);
                assert(tail.skip(1) =~= self.routes.routes@.skip(i + 1));
            }
            let route = &self.routes.routes[i];
            if route.region.table_id == table_id {
                let leader = route.leader_peer.id;
                match self.datanode_index(leader) {
                    Some(di) => {
                        match replica_index(&self.datanodes[di], route.region) {
                            Some(j) => {
                                let ghost out0 = out@;
                                let wal = &self.datanodes[di].replicas[j].wal;
                                let m = wal.len();
                                for k in 0..m
                                    invariant
                                        m == wal@.len(),
                                        out@ == out0 + wal@.take(k as int),
                                {
                                    out.push(wal[k]);
                                    proof {
                                        assert(out@ =~= out0 + wal@.take(k + 1));
                                    }
                                }
                                proof {
                                    assert(wal@.take(m as int) =~= wal@);
                                    assert(wal@ == self.spec_wal(leader, route.region));
                                }
                            },
                            None => {
                                proof {
                                    assert(!self.spec_has_wal(leader, route.region));
                                }
                            },
                        }
                    },
                    None => {
                        proof {
                            assert(!self.spec_has_wal(leader, route.region));
                        }
                    },
                }
            }
        }
        proof {
            assert(self.routes.routes@.skip(n as int).len() == 0);
            assert(out@ =~= self.spec_table_rows(table_id));
        }
        out
    }
}

} // verus!

verus! {

impl ClusterModel {
    /// Datanode-facade operation: switches the role of a region replica
    /// (a follower that has been committed as leader opens as leader).
    /// Idempotent.
    pub fn set_region_role(&mut self, peer_id: u64, rid: RegionId, role: RegionRole)
        -> (r: Result<(), Error>)
        requires
            old(self).wf(),
        ensures
            final(self).wf(),
            final(self).spec_same_meta(*old(self)),
            match r {
                Ok(()) => old(self).spec_has_wal(peer_id, rid)
                    && final(self).spec_dn(peer_id).spec_replica(rid)
                        == (RegionReplica { role, ..old(self).spec_dn(peer_id).spec_replica(rid) })
                    && (forall|p: u64| #[trigger] final(self).spec_has_datanode(p)
                        <==> old(self).spec_has_datanode(p))
                    && (forall|p: u64| old(self).spec_has_datanode(p) && p != peer_id
                        ==> #[trigger] final(self).spec_dn(p) == old(self).spec_dn(p))
                    && final(self).spec_dn(peer_id).peer == old(self).spec_dn(peer_id).peer
                    && final(self).spec_dn(peer_id).alive == old(self).spec_dn(peer_id).alive
                    && final(self).spec_dn(peer_id).disk_full == old(self).spec_dn(peer_id).disk_full
                    && (forall|r2: RegionId| #[trigger] final(self).spec_dn(peer_id).spec_has_replica(r2)
                        <==> old(self).spec_dn(peer_id).spec_has_replica(r2))
                    && (forall|r2: RegionId|
                        old(self).spec_dn(peer_id).spec_has_replica(r2) && r2 != rid
                            ==> #[trigger] final(self).spec_dn(peer_id).spec_replica(r2)
                                == old(self).spec_dn(peer_id).spec_replica(r2)),
                Err(Error::Transient) => !old(self).spec_has_wal(peer_id, rid)
                    && *final(self) == *old(self),
                Err(_) => false,
            },
    {
        let idx = match self.datanode_index(peer_id) {
            Some(i) => i,
            None => {
                return Err(Error::Transient);
            },
        };
        let jopt = {
            let dn = &self.datanodes[idx];
            replica_index(dn, rid)
        };
        let j = match jopt {
            Some(j) => j,
            None => {
                return Err(Error::Transient);
            },
        };
        let mut dn = self.datanodes.remove(idx);
        let ghost old_dn = dn;
        let mut rep = dn.replicas.remove(j);
        rep.role = role;
        let ghost rep_g = rep;
        dn.replicas.insert(j, rep);
        proof {
            assert(dn.replicas@ =~= old_dn.replicas@.update(j as int, rep_g));
            lemma_replica_frame(old_dn, dn, j as int, rep_g);
        }
        let ghost dn_g = dn;
        self.datanodes.insert(idx, dn);
        proof {
            assert(self.datanodes@ =~= old(self).datanodes@.update(idx as int, dn_g));
            lemma_dn_frame(*old(self), *self, idx as int, dn_g);
        }
        Ok(())
    }

    pub open spec fn spec_has_record(self, pid: u64) -> bool {
        exists|i: int| 0 <= i < self.records@.len() && #[trigger] self.records@[i].procedure_id == pid
    }

    pub open spec fn spec_record_index(self, pid: u64) -> int {
        choose|i: int| 0 <= i < self.records@.len() && #[trigger] self.records@[i].procedure_id == pid
    }

    pub open spec fn spec_record(self, pid: u64) -> ProcedureRecord {
        self.records@[self.spec_record_index(pid)]
    }

    pub fn record_index(&self, pid: u64) -> (r: Option<usize>)
        requires
            self.wf(),
        ensures
            match r {
                Some(i) => self.spec_has_record(pid) && i == self.spec_record_index(pid)
                    && i < self.records@.len() && self.records@[i as int].procedure_id == pid,
                None => !self.spec_has_record(pid),
            },
    {
        let n = self.records.len();
        for i in 0..n
            invariant
                n == self.records@.len(),
                self.wf(),
                forall|j: int| 0 <= j < i ==> #[trigger] self.records@[j].procedure_id != pid,
        {
            if self.records[i].procedure_id == pid {
                proof {
                    let k = self.spec_record_index(pid);
                    assert(0 <= k < self.records@.len() && self.records@[k].procedure_id == pid);
                    if k != i as int {
                        assert(self.records@[k].procedure_id != self.records@[i as int].procedure_id);
                    }
                }
                return Some(i);
            }
        }
        None
    }

    /// Externally visible status of a procedure, as polled by clients.
    pub fn procedure_status(&self, pid: u64) -> (r: Option<ProcedureStatus>)
        requires
            self.wf(),
        ensures
            match r {
                Some(st) => self.spec_has_record(pid) && st == self.spec_record(pid).status,
                None => !self.spec_has_record(pid),
            },
    {
        match self.record_index(pid) {
            Some(i) => Some(self.records[i].status),
            None => None,
        }
    }
}

} // verus!


verus! {

/// Two datanodes with the same replica list agree on every replica
/// lookup.
pub proof fn lemma_same_replicas(a: DatanodeModel, b: DatanodeModel)
    requires
        a.wf(),
        a.replicas@ == b.replicas@,
    ensures
        b.wf(),
        forall|r2: RegionId| #[trigger] a.spec_has_replica(r2) <==> #[trigger] b.spec_has_replica(r2),
        forall|r2: RegionId| a.spec_has_replica(r2)
            ==> #[trigger] b.spec_replica(r2) == a.spec_replica(r2),
{
    assert forall|r2: RegionId| #[trigger] a.spec_has_replica(r2) <==> #[trigger] b.spec_has_replica(r2) by {
        if a.spec_has_replica(r2) {
            let k = a.spec_replica_index(r2);
            assert(b.replicas@[k].region == r2);
        }
        if b.spec_has_replica(r2) {
            let k = choose|k: int|
                0 <= k < b.replicas@.len() && #[trigger] b.replicas@[k].region == r2;
            assert(a.replicas@[k].region == r2);
        }
    }
    assert forall|r2: RegionId| a.spec_has_replica(r2)
        implies #[trigger] b.spec_replica(r2) == a.spec_replica(r2) by {
        let ka = a.spec_replica_index(r2);
        assert(0 <= ka < a.replicas@.len() && a.replicas@[ka].region == r2);
        assert(b.replicas@[ka].region == r2);
        assert(b.spec_has_replica(r2));
        let kb = b.spec_replica_index(r2);
        assert(0 <= kb < b.replicas@.len() && b.replicas@[kb].region == r2);
        if ka != kb {
            assert(a.replicas@[ka].region != a.replicas@[kb].region);
        }
    }
}

} // verus!


verus! {

/// Two cluster states with the same datanode list agree on every
/// datanode lookup.
pub proof fn lemma_same_datanodes(a: ClusterModel, b: ClusterModel)
    requires
        forall|i: int, j: int|
            0 <= i < j < a.datanodes@.len()
                ==> #[trigger] a.datanodes@[i].peer.id != #[trigger] a.datanodes@[j].peer.id,
        a.datanodes@ == b.datanodes@,
    ensures
        forall|p: u64| #[trigger] a.spec_has_datanode(p) <==> #[trigger] b.spec_has_datanode(p),
        forall|p: u64| a.spec_has_datanode(p) ==> #[trigger] b.spec_dn(p) == a.spec_dn(p),
{
    assert forall|p: u64| #[trigger] a.spec_has_datanode(p) <==> #[trigger] b.spec_has_datanode(p) by {
        if a.spec_has_datanode(p) {
            let k = a.spec_dn_index(p);
            assert(b.datanodes@[k].peer.id == p);
        }
        if b.spec_has_datanode(p) {
            let k = choose|k: int|
                0 <= k < b.datanodes@.len() && #[trigger] b.datanodes@[k].peer.id == p;
            assert(a.datanodes@[k].peer.id == p);
        }
    }
    assert forall|p: u64| a.spec_has_datanode(p)
        implies #[trigger] b.spec_dn(p) == a.spec_dn(p) by {
        let ka = a.spec_dn_index(p);
        assert(0 <= ka < a.datanodes@.len() && a.datanodes@[ka].peer.id == p);
        assert(b.datanodes@[ka].peer.id == p);
        assert(b.spec_has_datanode(p));
        let kb = b.spec_dn_index(p);
        assert(0 <= kb < b.datanodes@.len() && b.datanodes@[kb].peer.id == p);
        if ka != kb {
            assert(a.datanodes@[ka].peer.id != a.datanodes@[kb].peer.id);
        }
    }
}

} // verus!

verus! {

impl ClusterModel {
    /// Creates a partitioned table: one region per partition, the leader
    /// of region `m` being `peers[m mod peers.len()]` (the candidates a
    /// selector proposed), each with an empty log on its datanode.
    #[verifier::spinoff_prover]
    #[verifier::rlimit(100)]
    pub fn create_table(&mut self, table_id: u32, bounds: Vec<i64>, peers: &Vec<Peer>)
        -> (r: Result<(), Error>)
        requires
            old(self).wf(),
            peers@.len() > 0,
            bounds@.len() < u32::MAX,
            !old(self).spec_has_table(table_id),
            forall|m: u32| !old(self).spec_has_region_route(RegionId { table_id, region_number: m }),
        ensures
            final(self).wf(),
            final(self).records@ == old(self).records@,
            final(self).next_procedure_id == old(self).next_procedure_id,
            // the datanode set and liveness are untouched, and every
            // route that existed before keeps its leader
            forall|p: u64| #[trigger] final(self).spec_has_datanode(p)
                <==> old(self).spec_has_datanode(p),
            forall|p: u64| old(self).spec_has_datanode(p)
                ==> (#[trigger] final(self).spec_dn(p)).peer == old(self).spec_dn(p).peer
                    && final(self).spec_dn(p).alive == old(self).spec_dn(p).alive
                    && final(self).spec_dn(p).disk_full == old(self).spec_dn(p).disk_full,
            forall|r2: RegionId| #[trigger] old(self).routes.spec_has_region(r2)
                ==> final(self).routes.spec_has_region(r2)
                    && final(self).routes.spec_leader_id(r2)
                        == old(self).routes.spec_leader_id(r2),
            r is Ok ==> {
                &&& final(self).spec_has_table(table_id)
                &&& final(self).spec_table(table_id) == (TableModel { table_id, bounds: bounds })
                &&& forall|m: int| 0 <= m < bounds@.len() + 1 ==> {
                    &&& #[trigger] final(self).spec_has_region_route(
                        RegionId { table_id, region_number: m as u32 })
                    &&& final(self).routes.spec_leader_id(
                        RegionId { table_id, region_number: m as u32 })
                        == peers@[m % (peers@.len() as int)].id
                    &&& final(self).spec_has_wal(
                        peers@[m % (peers@.len() as int)].id,
                        RegionId { table_id, region_number: m as u32 })
                }
            },
            r is Err ==> exists|m: int| 0 <= m <= bounds@.len()
                && !old(self).spec_has_datanode((#[trigger] peers@[m % (peers@.len() as int)]).id),
    {
        let regions = bounds.len() + 1;
        let np = peers.len();
        let ghost pre = *old(self);
        for m in 0..regions
            invariant
                pre == *old(self),
                regions == bounds@.len() + 1,
                regions <= u32::MAX,
                np == peers@.len(),
                np > 0,
                self.wf(),
                self.records@ == pre.records@,
                self.next_procedure_id == pre.next_procedure_id,
                self.tables@ == pre.tables@,
                !pre.spec_has_table(table_id),
                forall|q: u32| !pre.spec_has_region_route(RegionId { table_id, region_number: q }),
                forall|p: u64| #[trigger] self.spec_has_datanode(p) <==> pre.spec_has_datanode(p),
                forall|p: u64| pre.spec_has_datanode(p)
                    ==> (#[trigger] self.spec_dn(p)).peer == pre.spec_dn(p).peer
                        && self.spec_dn(p).alive == pre.spec_dn(p).alive
                        && self.spec_dn(p).disk_full == pre.spec_dn(p).disk_full,
                forall|r2: RegionId| #[trigger] pre.routes.spec_has_region(r2)
                    ==> self.routes.spec_has_region(r2)
                        && self.routes.spec_leader_id(r2) == pre.routes.spec_leader_id(r2),
                forall|q: int| 0 <= q < m ==> {
                    &&& #[trigger] self.spec_has_region_route(
                        RegionId { table_id, region_number: q as u32 })
                    &&& self.routes.spec_leader_id(RegionId { table_id, region_number: q as u32 })
                        == peers@[q % (np as int)].id
                    &&& self.spec_has_wal(
                        peers@[q % (np as int)].id,
                        RegionId { table_id, region_number: q as u32 })
                },
                forall|q: int| m <= q < regions
                    ==> !(#[trigger] self.spec_has_region_route(
                        RegionId { table_id, region_number: q as u32 })),
        {
            let rid = RegionId { table_id, region_number: m as u32 };
            let leader = &peers[m % np];
            let ghost prev = *self;
            let res = self.create_region(rid, leader);
            if res.is_err() {
                proof {
                    assert(!pre.spec_has_datanode(peers@[m as int % (np as int)].id));
                }
                return Err(Error::Transient);
            }
            proof {
                assert forall|r2: RegionId| #[trigger] pre.routes.spec_has_region(r2)
                    implies self.routes.spec_has_region(r2)
                        && self.routes.spec_leader_id(r2) == pre.routes.spec_leader_id(r2) by {
                    assert(prev.routes.spec_has_region(r2));
                    let k = prev.routes.spec_index_of(r2);
                    assert(0 <= k < prev.routes.routes@.len()
                        && prev.routes.routes@[k].region == r2);
                    assert(self.routes.routes@[k] == prev.routes.routes@[k]);
                    assert(self.routes.spec_has_region(r2));
                    let k2 = self.routes.spec_index_of(r2);
                    assert(0 <= k2 < self.routes.routes@.len()
                        && self.routes.routes@[k2].region == r2);
                    if k2 != k {
                        assert(self.routes.routes@[k2].region != self.routes.routes@[k].region);
                    }
                }
                assert forall|q: int| 0 <= q < m + 1 implies {
                    &&& #[trigger] self.spec_has_region_route(
                        RegionId { table_id, region_number: q as u32 })
                    &&& self.routes.spec_leader_id(RegionId { table_id, region_number: q as u32 })
                        == peers@[q % (np as int)].id
                    &&& self.spec_has_wal(
                        peers@[q % (np as int)].id,
                        RegionId { table_id, region_number: q as u32 })
                } by {
                    let rid2 = RegionId { table_id, region_number: q as u32 };
                    if q < m {
                        assert(prev.spec_has_region_route(rid2));
                        assert(prev.routes.spec_leader_id(rid2) == peers@[q % (np as int)].id);
                        // the new route is appended; old routes keep index and value
                        let k = prev.routes.spec_index_of(rid2);
                        assert(0 <= k < prev.routes.routes@.len()
                            && prev.routes.routes@[k].region == rid2);
                        assert(self.routes.routes@[k] == prev.routes.routes@[k]);
                        assert(self.spec_has_region_route(rid2));
                        let k2 = self.routes.spec_index_of(rid2);
                        if k2 != k {
                            assert(self.routes.routes@[k2].region != self.routes.routes@[k].region);
                        }
                        let lp = peers@[q % (np as int)].id;
                        assert(prev.spec_has_wal(lp, rid2));
                        if lp == leader.id {
                            assert(self.spec_dn(lp).spec_has_replica(rid2)
                                <==> prev.spec_dn(lp).spec_has_replica(rid2));
                        } else {
                            assert(self.spec_dn(lp) == prev.spec_dn(lp));
                        }
                    } else {
                        assert(q == m);
                        assert(rid2 == rid);
                    }
                }
                assert forall|q: int| m + 1 <= q < regions
                    implies !(#[trigger] self.spec_has_region_route(
                        RegionId { table_id, region_number: q as u32 })) by {
                    let rid2 = RegionId { table_id, region_number: q as u32 };
                    assert(rid2 != rid);
                    assert(!prev.spec_has_region_route(rid2));
                }
            }
        }
        let ghost before_reg = *self;
        self.register_table(table_id, bounds);
        proof {
            assert(before_reg.wf());
            lemma_same_datanodes(before_reg, *self);
            assert forall|p: u64| #[trigger] self.spec_has_datanode(p)
                <==> old(self).spec_has_datanode(p) by {
                assert(before_reg.spec_has_datanode(p) <==> old(self).spec_has_datanode(p));
                assert(self.spec_has_datanode(p) <==> before_reg.spec_has_datanode(p));
            }
            assert forall|p: u64| old(self).spec_has_datanode(p)
                implies (#[trigger] self.spec_dn(p)).peer == old(self).spec_dn(p).peer
                    && self.spec_dn(p).alive == old(self).spec_dn(p).alive
                    && self.spec_dn(p).disk_full == old(self).spec_dn(p).disk_full by {
                assert(before_reg.spec_has_datanode(p));
                assert(self.spec_dn(p) == before_reg.spec_dn(p));
            }
            assert forall|q: int| 0 <= q < bounds@.len() + 1 implies {
                &&& #[trigger] self.spec_has_region_route(
                    RegionId { table_id, region_number: q as u32 })
                &&& self.routes.spec_leader_id(RegionId { table_id, region_number: q as u32 })
                    == peers@[q % (peers@.len() as int)].id
                &&& self.spec_has_wal(
                    peers@[q % (peers@.len() as int)].id,
                    RegionId { table_id, region_number: q as u32 })
            } by {
                assert(q < regions && np == peers@.len());
                let rid2 = RegionId { table_id, region_number: q as u32 };
                let lp = peers@[q % (np as int)].id;
                assert(before_reg.spec_has_region_route(rid2));
                assert(before_reg.routes.spec_leader_id(rid2) == lp);
                assert(before_reg.spec_has_wal(lp, rid2));
                assert(self.routes == before_reg.routes);
                assert(self.datanodes@ == before_reg.datanodes@);
                lemma_same_datanodes(before_reg, *self);
                assert(self.spec_dn(lp) == before_reg.spec_dn(lp));
            }
        }
        Ok(())
    }
}

} // verus!

verus! {

impl ClusterModel {
    /// Datanode-facade operation: reports a replica's manifest, here its
    /// committed log offset; `None` exactly when the datanode does not
    /// serve the region.
    pub fn region_manifest(&self, peer_id: u64, rid: RegionId) -> (r: Option<usize>)
        requires
            self.wf(),
        ensures
            match r {
                Some(n) => self.spec_has_wal(peer_id, rid) && n == self.spec_wal(peer_id, rid).len(),
                None => !self.spec_has_wal(peer_id, rid),
            },
    {
        let idx = match self.datanode_index(peer_id) {
            Some(i) => i,
            None => {
                return None;
            },
        };
        match replica_index(&self.datanodes[idx], rid) {
            Some(j) => Some(self.datanodes[idx].replicas[j].wal.len()),
            None => None,
        }
    }
}

} // verus!
