//! The authoritative route table: for every region, exactly one leader
//! peer and zero or more follower peers.  The table is the model of the
//! route keys held by the metastore; every contended update goes through a
//! compare-and-swap on the expected leader.

use vstd::prelude::*;
use crate::ids::{Peer, RegionId};
use crate::errors::Error;

verus! {

/// Route of one region: its leader and its followers.
#[derive(Clone, Debug)]
pub struct RegionRoute {
    pub region: RegionId,
    pub leader_peer: Peer,
    pub follower_peers: Vec<Peer>,
}

/// The route table.  Well-formedness says each region appears at most
/// once; together with the single `leader_peer` field of a route this
/// yields the cluster invariant that a region never has two leaders.
pub struct RouteTable {
    pub routes: Vec<RegionRoute>,
}

impl RouteTable {
    /// Each region has at most one route entry.
    pub open spec fn wf(self) -> bool {
        forall|i: int, j: int|
            0 <= i < j < self.routes@.len() ==> #[trigger] self.routes@[i].region != #[trigger] self.routes@[j].region
    }

    pub open spec fn spec_has_region(self, rid: RegionId) -> bool {
        exists|i: int| 0 <= i < self.routes@.len() && #[trigger] self.routes@[i].region == rid
    }

    /// Index of the (unique) route of `rid`; meaningful when the region is
    /// present.
    pub open spec fn spec_index_of(self, rid: RegionId) -> int {
        choose|i: int| 0 <= i < self.routes@.len() && #[trigger] self.routes@[i].region == rid
    }

    pub open spec fn spec_route_of(self, rid: RegionId) -> RegionRoute {
        self.routes@[self.spec_index_of(rid)]
    }

    /// Peer id of the region's leader; meaningful when the region is
    /// present.
    pub open spec fn spec_leader_id(self, rid: RegionId) -> u64 {
        self.spec_route_of(rid).leader_peer.id
    }

    /// `pid` leads `rid` under some route entry.
    pub open spec fn spec_is_leader(self, rid: RegionId, pid: u64) -> bool {
        exists|i: int|
            0 <= i < self.routes@.len() && #[trigger] self.routes@[i].region == rid
                && self.routes@[i].leader_peer.id == pid
    }

    pub fn empty() -> (r: RouteTable)
        ensures
            r.wf(),
            r.routes@.len() == 0,
    {
        RouteTable { routes: Vec::new() }
    }

    /// Looks the region up; `None` exactly when the table has no route for
    /// it.
    pub fn get_route(&self, rid: RegionId) -> (r: Option<&RegionRoute>)
        requires
            self.wf(),
        ensures
            match r {
                Some(rt) => self.spec_has_region(rid) && *rt == self.spec_route_of(rid)
                    && rt.region == rid,
                None => !self.spec_has_region(rid),
            },
    {
        let n = self.routes.len();
        for i in 0..n
            invariant
                n == self.routes@.len(),
                self.wf(),
                forall|j: int| 0 <= j < i ==> #[trigger] self.routes@[j].region != rid,
        {
            if self.routes[i].region == rid {
                return Some(&self.routes[i]);
            }
        }
        None
    }

    /// Adds a route for a region not yet present.
    pub fn insert_route(&mut self, route: RegionRoute)
        requires
            old(self).wf(),
            !old(self).spec_has_region(route.region),
        ensures
            final(self).wf(),
            final(self).routes@ == old(self).routes@.push(route),
            final(self).spec_has_region(route.region),
            forall|r2: RegionId| #[trigger] final(self).spec_has_region(r2)
                <==> old(self).spec_has_region(r2) || r2 == route.region,
    {
        self.routes.push(route);
        proof {
            assert(forall|r2: RegionId| old(self).spec_has_region(r2)
                ==> #[trigger] self.spec_has_region(r2)) by {
                assert forall|r2: RegionId| old(self).spec_has_region(r2)
                    implies #[trigger] self.spec_has_region(r2) by {
                    let i = choose|i: int|
                        0 <= i < old(self).routes@.len() && #[trigger] old(self).routes@[i].region == r2;
                    assert(self.routes@[i].region == r2);
                }
            }
            assert(self.routes@[self.routes@.len() - 1].region == route.region);
        }
    }

    /// The single linearizable compare-and-swap that commits a route
    /// change: if the current leader is `expected_leader`, the leader
    /// becomes `new_leader` and nothing else changes; otherwise the table
    /// is untouched and the error says why.
    pub fn commit_route_change(&mut self, rid: RegionId, expected_leader: u64, new_leader: &Peer)
        -> (r: Result<(), Error>)
        requires
            old(self).wf(),
        ensures
            final(self).wf(),
            match r {
                Ok(()) => old(self).spec_has_region(rid)
                    && old(self).spec_leader_id(rid) == expected_leader
                    && final(self).routes@ == old(self).routes@.update(
                        old(self).spec_index_of(rid),
                        RegionRoute {
                            region: rid,
                            leader_peer: Peer { id: new_leader.id, addr: old(self).spec_route_of(rid).leader_peer.addr },
                            follower_peers: old(self).spec_route_of(rid).follower_peers,
                        },
                    )
                    && final(self).spec_has_region(rid)
                    && final(self).spec_leader_id(rid) == new_leader.id,
                Err(Error::RegionRouteNotFound) => !old(self).spec_has_region(rid) && *final(self) == *old(self),
                Err(Error::RouteChanged) => old(self).spec_has_region(rid)
                    && old(self).spec_leader_id(rid) != expected_leader
                    && *final(self) == *old(self),
                Err(_) => false,
            },
    {
        let n = self.routes.len();
        for i in 0..n
            invariant
                n == self.routes@.len(),
                self.wf(),
                *self == *old(self),
                forall|j: int| 0 <= j < i ==> #[trigger] self.routes@[j].region != rid,
        {
            if self.routes[i].region == rid {
                proof {
                    assert(old(self).spec_has_region(rid));
                    let k = old(self).spec_index_of(rid);
                    assert(0 <= k < old(self).routes@.len() && old(self).routes@[k].region == rid);
                    assert(k == i as int);
                }
                if self.routes[i].leader_peer.id != expected_leader {
                    return Err(Error::RouteChanged);
                }
                let current = self.routes.remove(i);
                let updated = RegionRoute {
                    region: rid,
                    leader_peer: Peer { id: new_leader.id, addr: current.leader_peer.addr },
                    follower_peers: current.follower_peers,
                };
                self.routes.insert(i, updated);
                proof {
                    assert(self.routes@ =~= old(self).routes@.update(i as int, updated));
                    assert(self.routes@[i as int].region == rid);
                    assert(self.spec_has_region(rid));
                    let k2 = self.spec_index_of(rid);
                    assert(0 <= k2 < self.routes@.len() && self.routes@[k2].region == rid);
                    assert(forall|j: int| 0 <= j < self.routes@.len() && j != i as int
                        ==> #[trigger] self.routes@[j] == old(self).routes@[j]);
                    assert(k2 == i as int);
                }
                return Ok(());
            }
        }
        Err(Error::RegionRouteNotFound)
    }
}

/// A region has at most one leader: any two peers that lead the same
/// region under a well-formed route table are the same peer.
pub proof fn lemma_at_most_one_leader(t: RouteTable, rid: RegionId, p1: u64, p2: u64)
    requires
        t.wf(),
        t.spec_is_leader(rid, p1),
        t.spec_is_leader(rid, p2),
    ensures
        p1 == p2,
{
    let i = choose|i: int|
        0 <= i < t.routes@.len() && #[trigger] t.routes@[i].region == rid
            && t.routes@[i].leader_peer.id == p1;
    let j = choose|j: int|
        0 <= j < t.routes@.len() && #[trigger] t.routes@[j].region == rid
            && t.routes@[j].leader_peer.id == p2;
    if i != j {
        assert(t.routes@[i].region != t.routes@[j].region);
    }
}

/// Route monotonicity: a committed route change moves the leadership of
/// the region to the new leader, and every read of the table thereafter
/// sees the new leader until some later change touches the same region.
pub proof fn lemma_route_monotonic(
    pre: RouteTable,
    post: RouteTable,
    rid: RegionId,
    from_id: u64,
    to_id: u64,
)
    requires
        pre.wf(),
        post.wf(),
        pre.spec_has_region(rid),
        // the relation `commit_route_change` establishes on success
        post.routes@ == pre.routes@.update(
            pre.spec_index_of(rid),
            RegionRoute {
                region: rid,
                leader_peer: Peer { id: to_id, addr: pre.spec_route_of(rid).leader_peer.addr },
                follower_peers: pre.spec_route_of(rid).follower_peers,
            },
        ),
        from_id != to_id,
    ensures
        post.spec_has_region(rid),
        post.spec_leader_id(rid) == to_id,
        !post.spec_is_leader(rid, from_id),
{
    let k = pre.spec_index_of(rid);
    assert(0 <= k < pre.routes@.len() && pre.routes@[k].region == rid);
    assert(post.routes@[k].region == rid);
    assert(post.spec_has_region(rid));
    let k2 = post.spec_index_of(rid);
    assert(0 <= k2 < post.routes@.len() && post.routes@[k2].region == rid);
    if k2 != k {
        assert(post.routes@[k2].region != post.routes@[k].region);
    }
    assert(post.spec_leader_id(rid) == to_id);
    assert forall|i: int|
        0 <= i < post.routes@.len() && #[trigger] post.routes@[i].region == rid
        implies post.routes@[i].leader_peer.id != from_id by {
        if i != k {
            assert(post.routes@[i] == pre.routes@[i]);
            assert(pre.routes@[i].region != pre.routes@[k].region);
        }
    }
}

} // verus!

verus! {

pub open spec fn seq_has_u64(s: Seq<u64>, x: u64) -> bool {
    exists|i: int| 0 <= i < s.len() && s[i] == x
}

pub open spec fn seq_has_u32(s: Seq<u32>, x: u32) -> bool {
    exists|i: int| 0 <= i < s.len() && s[i] == x
}

pub open spec fn strictly_sorted_u64(s: Seq<u64>) -> bool {
    forall|i: int, j: int| 0 <= i < j < s.len() ==> s[i] < s[j]
}

pub open spec fn strictly_sorted_u32(s: Seq<u32>) -> bool {
    forall|i: int, j: int| 0 <= i < j < s.len() ==> s[i] < s[j]
}

/// Inserts a value into a strictly ascending vector, keeping it strictly
/// ascending; inserting a present value changes nothing.
fn insert_sorted_u64(v: &mut Vec<u64>, x: u64)
    requires
        strictly_sorted_u64(old(v)@),
    ensures
        strictly_sorted_u64(final(v)@),
        forall|y: u64| #[trigger] seq_has_u64(final(v)@, y) <==> (seq_has_u64(old(v)@, y) || y == x),
{
    let n = v.len();
    for i in 0..n
        invariant
            n == v@.len(),
            strictly_sorted_u64(v@),
            v@ == old(v)@,
            forall|j: int| 0 <= j < i ==> v@[j] < x,
    {
        if v[i] == x {
            proof {
                assert(seq_has_u64(v@, x));
                assert forall|y: u64| #[trigger] seq_has_u64(v@, y)
                    <==> (seq_has_u64(old(v)@, y) || y == x) by {}
            }
            return;
        }
        if v[i] > x {
            let ghost oldv = v@;
            v.insert(i, x);
            proof {
                assert forall|a: int, b: int| 0 <= a < b < v@.len() implies v@[a] < v@[b] by {
                    if b < i as int {
                        assert(v@[a] == oldv[a] && v@[b] == oldv[b]);
                    } else if a > i as int {
                        assert(v@[a] == oldv[a - 1] && v@[b] == oldv[b - 1]);
                    } else if a == i as int {
                        assert(v@[b] == oldv[b - 1] && oldv[i as int] <= oldv[b - 1]);
                    } else if b == i as int {
                        assert(v@[a] == oldv[a] && v@[a] < x);
                    } else {
                        assert(a < i as int && b > i as int);
                        assert(v@[a] == oldv[a] && v@[a] < x);
                        assert(v@[b] == oldv[b - 1]);
                    }
                }
                assert forall|y: u64| #[trigger] seq_has_u64(v@, y)
                    implies (seq_has_u64(oldv, y) || y == x) by {
                    let k = choose|k: int| 0 <= k < v@.len() && v@[k] == y;
                    if k < i as int {
                        assert(oldv[k] == y);
                    } else if k > i as int {
                        assert(oldv[k - 1] == y);
                    }
                }
                assert forall|y: u64| seq_has_u64(oldv, y) || y == x
                    implies #[trigger] seq_has_u64(v@, y) by {
                    if y == x {
                        assert(v@[i as int] == x);
                    } else {
                        let k = choose|k: int| 0 <= k < oldv.len() && oldv[k] == y;
                        if k < i as int {
                            assert(v@[k] == y);
                        } else {
                            assert(v@[k + 1] == y);
                        }
                    }
                }
            }
            return;
        }
    }
    let ghost oldv = v@;
    v.push(x);
    proof {
        assert forall|a: int, b: int| 0 <= a < b < v@.len() implies v@[a] < v@[b] by {
            if b == v@.len() - 1 {
                assert(v@[a] == oldv[a] && v@[a] < x);
            } else {
                assert(v@[a] == oldv[a] && v@[b] == oldv[b]);
            }
        }
        assert(v@[v@.len() - 1] == x);
        assert forall|y: u64| #[trigger] seq_has_u64(v@, y)
            implies (seq_has_u64(oldv, y) || y == x) by {
            let k = choose|k: int| 0 <= k < v@.len() && v@[k] == y;
            if k < v@.len() - 1 {
                assert(oldv[k] == y);
            }
        }
        assert forall|y: u64| seq_has_u64(oldv, y)
            implies #[trigger] seq_has_u64(v@, y) by {
            let k = choose|k: int| 0 <= k < oldv.len() && oldv[k] == y;
            assert(v@[k] == y);
        }
    }
}

/// As `insert_sorted_u64`, for region numbers.
fn insert_sorted_u32(v: &mut Vec<u32>, x: u32)
    requires
        strictly_sorted_u32(old(v)@),
    ensures
        strictly_sorted_u32(final(v)@),
        forall|y: u32| #[trigger] seq_has_u32(final(v)@, y) <==> (seq_has_u32(old(v)@, y) || y == x),
{
    let n = v.len();
    for i in 0..n
        invariant
            n == v@.len(),
            strictly_sorted_u32(v@),
            v@ == old(v)@,
            forall|j: int| 0 <= j < i ==> v@[j] < x,
    {
        if v[i] == x {
            proof {
                assert(seq_has_u32(v@, x));
            }
            return;
        }
        if v[i] > x {
            let ghost oldv = v@;
            v.insert(i, x);
            proof {
                assert forall|a: int, b: int| 0 <= a < b < v@.len() implies v@[a] < v@[b] by {
                    if b < i as int {
                        assert(v@[a] == oldv[a] && v@[b] == oldv[b]);
                    } else if a > i as int {
                        assert(v@[a] == oldv[a - 1] && v@[b] == oldv[b - 1]);
                    } else if a == i as int {
                        assert(v@[b] == oldv[b - 1] && oldv[i as int] <= oldv[b - 1]);
                    } else if b == i as int {
                        assert(v@[a] == oldv[a] && v@[a] < x);
                    } else {
                        assert(a < i as int && b > i as int);
                        assert(v@[a] == oldv[a] && v@[a] < x);
                        assert(v@[b] == oldv[b - 1]);
                    }
                }
                assert forall|y: u32| #[trigger] seq_has_u32(v@, y)
                    implies (seq_has_u32(oldv, y) || y == x) by {
                    let k = choose|k: int| 0 <= k < v@.len() && v@[k] == y;
                    if k < i as int {
                        assert(oldv[k] == y);
                    } else if k > i as int {
                        assert(oldv[k - 1] == y);
                    }
                }
                assert forall|y: u32| seq_has_u32(oldv, y) || y == x
                    implies #[trigger] seq_has_u32(v@, y) by {
                    if y == x {
                        assert(v@[i as int] == x);
                    } else {
                        let k = choose|k: int| 0 <= k < oldv.len() && oldv[k] == y;
                        if k < i as int {
                            assert(v@[k] == y);
                        } else {
                            assert(v@[k + 1] == y);
                        }
                    }
                }
            }
            return;
        }
    }
    let ghost oldv = v@;
    v.push(x);
    proof {
        assert forall|a: int, b: int| 0 <= a < b < v@.len() implies v@[a] < v@[b] by {
            if b == v@.len() - 1 {
                assert(v@[a] == oldv[a] && v@[a] < x);
            } else {
                assert(v@[a] == oldv[a] && v@[b] == oldv[b]);
            }
        }
        assert(v@[v@.len() - 1] == x);
        assert forall|y: u32| #[trigger] seq_has_u32(v@, y)
            implies (seq_has_u32(oldv, y) || y == x) by {
            let k = choose|k: int| 0 <= k < v@.len() && v@[k] == y;
            if k < v@.len() - 1 {
                assert(oldv[k] == y);
            }
        }
        assert forall|y: u32| seq_has_u32(oldv, y)
            implies #[trigger] seq_has_u32(v@, y) by {
            let k = choose|k: int| 0 <= k < oldv.len() && oldv[k] == y;
            assert(v@[k] == y);
        }
    }
}

impl RouteTable {
    /// There is a route of the table whose leader is `p` and whose region
    /// number is `n`.
    pub open spec fn spec_leads_number(self, table_id: u32, p: u64, n: u32) -> bool {
        exists|k: int|
            0 <= k < self.routes@.len() && (#[trigger] self.routes@[k]).region.table_id == table_id
                && self.routes@[k].region.region_number == n
                && self.routes@[k].leader_peer.id == p
    }

    /// Some route of the table has leader `p`.
    pub open spec fn spec_leads_in_table(self, table_id: u32, p: u64) -> bool {
        exists|k: int|
            0 <= k < self.routes@.len() && (#[trigger] self.routes@[k]).region.table_id == table_id
                && self.routes@[k].leader_peer.id == p
    }

    /// The derived region distribution of a table: for each leader peer,
    /// in ascending peer order, the ascending list of region numbers it
    /// leads.  The distribution is exactly the inverse of the route
    /// table restricted to `table_id`.
    pub fn region_distribution(&self, table_id: u32) -> (d: Vec<(u64, Vec<u32>)>)
        requires
            self.wf(),
        ensures
            // ascending, duplicate-free peers and region lists
            strictly_sorted_u64(d@.map_values(|e: (u64, Vec<u32>)| e.0)),
            forall|i: int| 0 <= i < d@.len() ==> strictly_sorted_u32(#[trigger] d@[i].1@),
            forall|i: int| 0 <= i < d@.len() ==> (#[trigger] d@[i].1@).len() > 0,
            // sound: every listed pair is a route of the table
            forall|i: int, a: int|
                0 <= i < d@.len() && 0 <= a < d@[i].1@.len()
                    ==> self.spec_leads_number(table_id, d@[i].0, #[trigger] d@[i].1@[a]),
            // complete: every route of the table is listed under its leader
            forall|k: int|
                0 <= k < self.routes@.len() && (#[trigger] self.routes@[k]).region.table_id == table_id
                    ==> exists|i: int, a: int|
                        0 <= i < d@.len() && 0 <= a < d@[i].1@.len()
                            && d@[i].0 == self.routes@[k].leader_peer.id
                            && d@[i].1@[a] == self.routes@[k].region.region_number,
    {
        // first pass: the sorted set of leader peers of the table
        let mut peers: Vec<u64> = Vec::new();
        let n = self.routes.len();
        for k in 0..n
            invariant
                n == self.routes@.len(),
                self.wf(),
                strictly_sorted_u64(peers@),
                forall|p: u64| #[trigger] seq_has_u64(peers@, p)
                    <==> exists|k2: int|
                        0 <= k2 < k && (#[trigger] self.routes@[k2]).region.table_id == table_id
                            && self.routes@[k2].leader_peer.id == p,
        {
            if self.routes[k].region.table_id == table_id {
                insert_sorted_u64(&mut peers, self.routes[k].leader_peer.id);
            }
            proof {
                assert forall|p: u64| #[trigger] seq_has_u64(peers@, p)
                    implies exists|k2: int|
                        0 <= k2 <= k && (#[trigger] self.routes@[k2]).region.table_id == table_id
                            && self.routes@[k2].leader_peer.id == p by {
                    if self.routes@[k as int].region.table_id == table_id
                        && p == self.routes@[k as int].leader_peer.id {
                        assert(self.routes@[k as int].region.table_id == table_id);
                    }
                }
            }
        }
        // second pass: for each leader, the sorted region numbers it leads
        let mut d: Vec<(u64, Vec<u32>)> = Vec::new();
        let np = peers.len();
        for i in 0..np
            invariant
                np == peers@.len(),
                n == self.routes@.len(),
                self.wf(),
                strictly_sorted_u64(peers@),
                forall|p: u64| #[trigger] seq_has_u64(peers@, p) <==> self.spec_leads_in_table(table_id, p),
                d@.len() == i,
                forall|i2: int| 0 <= i2 < i ==> #[trigger] d@[i2].0 == peers@[i2],
                forall|i2: int| 0 <= i2 < i ==> strictly_sorted_u32(#[trigger] d@[i2].1@),
                forall|i2: int| 0 <= i2 < i ==> (#[trigger] d@[i2].1@).len() > 0,
                forall|i2: int, n2: u32| 0 <= i2 < i
                    ==> (#[trigger] seq_has_u32(d@[i2].1@, n2)
                        <==> self.spec_leads_number(table_id, d@[i2].0, n2)),
        {
            let p = peers[i];
            let mut nums: Vec<u32> = Vec::new();
            for k in 0..n
                invariant
                    n == self.routes@.len(),
                    self.wf(),
                    strictly_sorted_u32(nums@),
                    forall|n2: u32| #[trigger] seq_has_u32(nums@, n2)
                        <==> exists|k2: int|
                            0 <= k2 < k && (#[trigger] self.routes@[k2]).region.table_id == table_id
                                && self.routes@[k2].leader_peer.id == p
                                && self.routes@[k2].region.region_number == n2,
            {
                if self.routes[k].region.table_id == table_id
                    && self.routes[k].leader_peer.id == p {
                    insert_sorted_u32(&mut nums, self.routes[k].region.region_number);
                }
                proof {
                    assert forall|n2: u32| #[trigger] seq_has_u32(nums@, n2)
                        implies exists|k2: int|
                            0 <= k2 <= k && (#[trigger] self.routes@[k2]).region.table_id == table_id
                                && self.routes@[k2].leader_peer.id == p
                                && self.routes@[k2].region.region_number == n2 by {
                        if self.routes@[k as int].region.table_id == table_id
                            && self.routes@[k as int].leader_peer.id == p
                            && n2 == self.routes@[k as int].region.region_number {
                            assert(self.routes@[k as int].region.table_id == table_id);
                        }
                    }
                }
            }
            proof {
                assert(seq_has_u64(peers@, p));
                let k0 = choose|k0: int|
                    0 <= k0 < self.routes@.len()
                        && (#[trigger] self.routes@[k0]).region.table_id == table_id
                        && self.routes@[k0].leader_peer.id == p;
                assert(seq_has_u32(nums@, self.routes@[k0].region.region_number));
                assert(nums@.len() > 0);
            }
            d.push((p, nums));
        }
        proof {
            assert(d@.map_values(|e: (u64, Vec<u32>)| e.0) =~= peers@);
            assert forall|k: int|
                0 <= k < self.routes@.len() && (#[trigger] self.routes@[k]).region.table_id == table_id
                implies exists|i: int, a: int|
                    0 <= i < d@.len() && 0 <= a < d@[i].1@.len()
                        && d@[i].0 == self.routes@[k].leader_peer.id
                        && d@[i].1@[a] == self.routes@[k].region.region_number by {
                let p = self.routes@[k].leader_peer.id;
                let nn = self.routes@[k].region.region_number;
                assert(self.spec_leads_in_table(table_id, p));
                assert(seq_has_u64(peers@, p));
                let i = choose|i: int| 0 <= i < peers@.len() && peers@[i] == p;
                assert(d@[i].0 == p);
                assert(self.spec_leads_number(table_id, p, nn));
                assert(seq_has_u32(d@[i].1@, nn));
                let a = choose|a: int| 0 <= a < d@[i].1@.len() && d@[i].1@[a] == nn;
                assert(0 <= i < d@.len() && 0 <= a < d@[i].1@.len()
                    && d@[i].0 == self.routes@[k].leader_peer.id
                    && d@[i].1@[a] == self.routes@[k].region.region_number);
            }
            assert forall|i: int, a: int|
                0 <= i < d@.len() && 0 <= a < d@[i].1@.len()
                implies self.spec_leads_number(table_id, d@[i].0, #[trigger] d@[i].1@[a]) by {
                assert(seq_has_u32(d@[i].1@, d@[i].1@[a]));
            }
        }
        d
    }
}

} // verus!
